//! Sending a file to an interface a chunk at a time, with progress reported
//! at each new tenth of the file.
use vstd::prelude::*;

verus! {

/// Bytes offered to the wire per task-loop iteration during a transfer.
pub const CHUNK_SIZE: usize = 1024;

/// The largest file a transfer accepts: 256 MiB.
pub const MAX_FILE_SIZE: u64 = 268435456;

/// What one step of a transfer reports.
#[derive(Clone, Copy, Debug, PartialEq, Eq, Structural)]
pub enum TransferProgress {
    /// Still sending; nothing new to report.
    Pending,
    /// Still sending, and a new tenth was reached: the percentage sent.
    Progress(u8),
    /// The whole file was sent.
    Done,
}

/// An in-progress transfer of a file's bytes to an interface.
pub struct FileTransfer {
    name: String,
    data: Vec<u8>,
    sent: usize,
    last_reported: u8,
}

/// The percentage of `len` bytes that `sent` bytes are, rounded down.
pub open spec fn percent_of(sent: int, len: int) -> int {
    sent * 100 / len
}

impl FileTransfer {
    pub closed spec fn name_text(&self) -> Seq<char> {
        self.name@
    }

    pub closed spec fn bytes(&self) -> Seq<u8> {
        self.data@
    }

    pub closed spec fn sent_count(&self) -> int {
        self.sent as int
    }

    pub closed spec fn reported(&self) -> int {
        self.last_reported as int
    }

    /// The file is not empty and not over the size limit, and no more than
    /// its length was sent.
    pub open spec fn wf(&self) -> bool {
        &&& 0 < self.bytes().len() <= MAX_FILE_SIZE
        &&& 0 <= self.sent_count() <= self.bytes().len()
        &&& 0 <= self.reported() <= 100
    }

    /// A transfer of `data`, shown as `name`; none for an empty file or one
    /// over `MAX_FILE_SIZE`.
    pub fn new(name: String, data: Vec<u8>) -> (r: Option<Self>)
        ensures
            r is None <==> data@.len() == 0 || data@.len() > MAX_FILE_SIZE,
            r matches Some(t) ==> {
                &&& t.wf()
                &&& t.name_text() == name@
                &&& t.bytes() == data@
                &&& t.sent_count() == 0
                &&& t.reported() == 0
            },
    {
        if data.len() == 0 || data.len() as u64 > MAX_FILE_SIZE {
            return None;
        }
        Some(FileTransfer { name, data, sent: 0, last_reported: 0 })
    }

    /// The file's name, for progress messages.
    pub fn name(&self) -> (r: &str)
        ensures
            r@ == self.name_text(),
    {
        self.name.as_str()
    }

    /// The next bytes to write, at most `max` of them: never empty while the
    /// transfer is unfinished (and `max` is not zero).
    pub fn next_chunk(&self, max: usize) -> (r: &[u8])
        requires
            self.wf(),
        ensures
            r@ == self.bytes().subrange(
                self.sent_count(),
                if self.sent_count() + max <= self.bytes().len() {
                    self.sent_count() + max
                } else {
                    self.bytes().len() as int
                },
            ),
            max > 0 && self.sent_count() < self.bytes().len() ==> r@.len() > 0,
    {
        let end = if max <= self.data.len() - self.sent {
            self.sent + max
        } else {
            self.data.len()
        };
        let s = self.data.as_slice();
        &s[self.sent..end]
    }

    /// Records `written` more bytes as sent (never beyond the end). Reports
    /// `Done` once the whole file was sent, the percentage sent when a new
    /// tenth of the file was reached, and otherwise nothing.
    pub fn advance(&mut self, written: usize) -> (r: TransferProgress)
        requires
            old(self).wf(),
        ensures
            final(self).wf(),
            final(self).name_text() == old(self).name_text(),
            final(self).bytes() == old(self).bytes(),
            final(self).sent_count() == if old(self).sent_count() + written <= old(self).bytes().len() {
                old(self).sent_count() + written
            } else {
                old(self).bytes().len() as int
            },
            final(self).sent_count() >= old(self).sent_count(),
            final(self).reported() >= old(self).reported(),
            ({
                let p = percent_of(final(self).sent_count(), final(self).bytes().len() as int);
                if final(self).sent_count() >= final(self).bytes().len() {
                    r == TransferProgress::Done && final(self).reported() == old(self).reported()
                } else if p / 10 > old(self).reported() / 10 {
                    r == TransferProgress::Progress(p as u8) && final(self).reported() == p
                } else {
                    r == TransferProgress::Pending && final(self).reported() == old(self).reported()
                }
            }),
    {
        let total = self.data.len();
        self.sent = if written <= total - self.sent {
            self.sent + written
        } else {
            total
        };
        assert(self.sent as u64 * 100 <= (total as u64) * 100) by (nonlinear_arith)
            requires
                self.sent <= total,
        ;
        let percent = (self.sent as u64) * 100 / (total as u64);
        if self.sent >= total {
            return TransferProgress::Done;
        }
        assert(percent < 100) by (nonlinear_arith)
            requires
                percent as int == (self.sent as int) * 100 / (total as int),
                self.sent < total,
                total > 0,
        ;
        let percent = percent as u8;
        if percent / 10 > self.last_reported / 10 {
            self.last_reported = percent;
            return TransferProgress::Progress(percent);
        }
        TransferProgress::Pending
    }
}

} // verus!
