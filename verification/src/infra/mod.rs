pub mod backup;
pub mod blink;
pub mod logger;
pub mod mpmc;
pub mod recorder;
pub mod session;
pub mod tags;
pub mod timer;
pub mod typewriter;
