use scope_monitor::infra::logger::LogLevel;
use scope_monitor::inputs::user_command::{
    parse_command_line, split_words, PluginRequest, UserCommand,
};
use scope_monitor::interfaces::serial_if::FlowControl;
use scope_monitor::interfaces::InterfaceType;

fn serial(line: &str) -> UserCommand {
    parse_command_line(line, InterfaceType::Serial)
}

fn rtt(line: &str) -> UserCommand {
    parse_command_line(line, InterfaceType::Rtt)
}

fn error_of(c: UserCommand) -> String {
    match c {
        UserCommand::Error(m) => m,
        _ => panic!("expected an error"),
    }
}

#[test]
fn words_are_split_at_any_whitespace() {
    assert_eq!(split_words("  a\tbc \u{3000}d  "), vec!["a", "bc", "d"]);
    assert!(split_words("   ").is_empty());
}

#[test]
fn a_lone_bang_is_sent() {
    assert!(matches!(serial(""), UserCommand::SendBang));
    assert!(matches!(serial("   "), UserCommand::SendBang));
}

#[test]
fn serial_connect_takes_a_port_and_a_speed_in_any_order() {
    assert!(matches!(serial("serial connect"), UserCommand::SerialConnect));
    match serial("connect /dev/ttyUSB0 115200") {
        UserCommand::SerialSetup { port, baudrate } => {
            assert_eq!(port.as_deref(), Some("/dev/ttyUSB0"));
            assert_eq!(baudrate, Some(115200));
        }
        _ => panic!(),
    }
    match serial("serial connect 9600") {
        UserCommand::SerialSetup { port, baudrate } => {
            assert_eq!(port, None);
            assert_eq!(baudrate, Some(9600));
        }
        _ => panic!(),
    }
    match serial("connect 9600 COM3 ignored") {
        UserCommand::SerialSetup { port, baudrate } => {
            assert_eq!(port.as_deref(), Some("COM3"));
            assert_eq!(baudrate, Some(9600));
        }
        _ => panic!(),
    }
}

#[test]
fn rtt_connect_takes_a_target_and_a_channel() {
    match rtt("connect nRF52840_xxAA 1") {
        UserCommand::RttSetup { target, channel } => {
            assert_eq!(target.as_deref(), Some("nRF52840_xxAA"));
            assert_eq!(channel, Some(1));
        }
        _ => panic!(),
    }
    match serial("rtt connect 99999999999999999999999") {
        UserCommand::RttSetup { target, channel } => {
            assert_eq!(target, None);
            assert_eq!(channel, Some(0));
        }
        _ => panic!(),
    }
    assert!(matches!(rtt("connect"), UserCommand::RttConnect));
}

#[test]
fn disconnect_follows_the_interface() {
    assert!(matches!(serial("disconnect"), UserCommand::SerialDisconnect));
    assert!(matches!(rtt("disconnect"), UserCommand::RttDisconnect));
    assert!(matches!(rtt("serial disconnect"), UserCommand::SerialDisconnect));
}

#[test]
fn flow_control_is_for_serial_only() {
    match serial("flow hw") {
        UserCommand::SetFlow { flow, name } => {
            assert_eq!(flow, FlowControl::Hardware);
            assert_eq!(name, "hw");
        }
        _ => panic!(),
    }
    assert!(matches!(
        serial("serial flow none"),
        UserCommand::SetFlow { flow: FlowControl::Off, .. }
    ));
    assert_eq!(
        error_of(rtt("flow sw")),
        "Flow control is only available for serial interfaces"
    );
    assert_eq!(
        error_of(serial("flow")),
        "Insufficient arguments for \"!flow\" command"
    );
    assert_eq!(
        error_of(serial("flow xon")),
        "Invalid flow control. Please, chose one of these options: none, sw, hw"
    );
}

#[test]
fn rtt_read_takes_an_address_and_a_size() {
    assert!(matches!(
        rtt("rtt read 0x2000_0000"),
        UserCommand::RttRead { address: 0x2000_0000, size: 4 }
    ));
    assert!(matches!(
        rtt("rtt read 4096 16"),
        UserCommand::RttRead { address: 4096, size: 16 }
    ));
    assert_eq!(
        error_of(rtt("rtt read")),
        "Please, specify the address to read from"
    );
    assert_eq!(
        error_of(rtt("rtt read zz")),
        "Invalid address argument. Please, specify a valid hexadecimal or decimal number: zz"
    );
    assert_eq!(
        error_of(rtt("rtt read 1 x")),
        "Invalid size argument. Please, specify a valid decimal number: x"
    );
    assert_eq!(
        error_of(rtt("rtt read 1 0")),
        "Size argument must be greater than 0: 0"
    );
    assert_eq!(
        error_of(rtt("rtt read 1 2 3")),
        "Too many arguments for RTT read command"
    );
}

#[test]
fn subcommands_are_checked() {
    assert_eq!(
        error_of(serial("serial")),
        "Please, use \"connect\" or \"disconnect\" subcommands"
    );
    assert_eq!(error_of(serial("serial bogus")), "Invalid subcommand for serial");
    assert_eq!(
        error_of(serial("rtt")),
        "Please, use \"connect\", \"disconnect\" or \"read\" subcommands"
    );
    assert_eq!(error_of(serial("rtt bogus")), "Invalid subcommand for rtt");
}

#[test]
fn log_levels_go_to_the_system_or_a_plugin() {
    assert!(matches!(serial("log sys dbg"), UserCommand::SystemLogLevel(LogLevel::Debug)));
    assert!(matches!(serial("log system wrn"), UserCommand::SystemLogLevel(LogLevel::Warning)));
    match serial("log myplugin ok") {
        UserCommand::Plugin(PluginRequest::SetLogLevel { plugin_name, log_level }) => {
            assert_eq!(plugin_name, "myplugin");
            assert_eq!(log_level, LogLevel::Success);
        }
        _ => panic!(),
    }
    assert_eq!(
        error_of(serial("log sys")),
        "Insufficient arguments for \"!log\" command"
    );
    assert!(error_of(serial("log sys loud")).starts_with("Invalid log level."));
}

#[test]
fn plugins_are_loaded_unloaded_and_commanded() {
    match serial("plugin reload ./echo.lua") {
        UserCommand::Plugin(PluginRequest::LoadPlugin { filepath }) => {
            assert_eq!(filepath, "./echo.lua")
        }
        _ => panic!(),
    }
    match serial("plugin unload echo") {
        UserCommand::Plugin(PluginRequest::UnloadPlugin { plugin_name }) => {
            assert_eq!(plugin_name, "echo")
        }
        _ => panic!(),
    }
    match serial("echo say hello world") {
        UserCommand::Plugin(PluginRequest::UserCommand { plugin_name, command, options }) => {
            assert_eq!(plugin_name, "echo");
            assert_eq!(command, "say");
            assert_eq!(options, vec!["hello", "world"]);
        }
        _ => panic!(),
    }
    assert_eq!(error_of(serial("echo")), "Insufficient arguments");
    assert!(error_of(serial("plugin start x")).starts_with("Invalid command."));
}

#[test]
fn ipsum_keeps_its_words() {
    match serial("ipsum tx --ansi") {
        UserCommand::Ipsum(words) => assert_eq!(words, vec!["ipsum", "tx", "--ansi"]),
        _ => panic!(),
    }
}

#[test]
fn filter_mute_and_rename_are_commands() {
    match serial("filter dbg") {
        UserCommand::SetFilter { pattern, exclude } => {
            assert_eq!(pattern, "dbg");
            assert!(!exclude);
        }
        _ => panic!("expected a filter change"),
    }
    match serial("mute ^dbg") {
        UserCommand::SetFilter { pattern, exclude } => {
            assert_eq!(pattern, "^dbg");
            assert!(exclude);
        }
        _ => panic!("expected a filter change"),
    }
    match serial("filter") {
        UserCommand::SetFilter { pattern, exclude } => {
            assert_eq!(pattern, "");
            assert!(!exclude);
        }
        _ => panic!("expected a filter change"),
    }
    match rtt("mute") {
        UserCommand::SetFilter { pattern, exclude } => {
            assert_eq!(pattern, "");
            assert!(exclude);
        }
        _ => panic!("expected a filter change"),
    }
    match serial("rename session2") {
        UserCommand::Rename(name) => assert_eq!(name, "session2"),
        _ => panic!("expected a rename"),
    }
    assert_eq!(error_of(serial("rename")), "Insufficient arguments for \"!rename\" command");
}

#[test]
fn exit_quit_and_send_file_are_commands() {
    assert!(matches!(serial("exit"), UserCommand::Exit));
    assert!(matches!(rtt("quit"), UserCommand::Exit));
    match serial("send_file fw.bin") {
        UserCommand::SendFile(path) => assert_eq!(path, "fw.bin"),
        _ => panic!("expected a file to send"),
    }
    assert_eq!(error_of(serial("send_file")), "Insufficient arguments for \"!send_file\" command");
}
