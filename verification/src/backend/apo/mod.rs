//! Equalizer APO: heq writes its own `heq.txt` and reports whether `config.txt` includes it.
pub mod format;
pub mod install;
pub mod writer;

pub use install::{ApoDevice, HEQ_FILE_NAME, MAIN_CONFIG_NAME};
pub use writer::{ApoWriter, IncludeSpot, IncludeStatus};

use vstd::prelude::*;

use super::Status;
use crate::text::push_str;
use writer::IncludeSpotView;

verus! {

pub struct ApoBackend {
    writer: ApoWriter,
    status: Status,
}

/// The status after heq's file was written, from what `config.txt` says of the include.
pub open spec fn applied_status(spot: IncludeSpotView) -> (bool, Seq<char>) {
    if spot.duplicated {
        (true, "config.txt includes heq.txt more than once"@)
    } else if spot.exists {
        match spot.device {
            Some(d) => (true, "applied under "@ + d),
            None => (true, "applied"@),
        }
    } else {
        (false, "config.txt has no Include: heq.txt"@)
    }
}

impl ApoBackend {
    pub closed spec fn current(&self) -> (bool, Seq<char>) {
        (self.status.connected, self.status.message@)
    }

    pub closed spec fn writer_spec(&self) -> &ApoWriter {
        &self.writer
    }

    pub fn new(writer: ApoWriter) -> (r: ApoBackend)
        ensures
            r.current() == (false, "not applied yet"@),
            *r.writer_spec() == writer,
    {
        let mut m = String::new();
        push_str(&mut m, "not applied yet");
        assert(m@ =~= "not applied yet"@);
        ApoBackend { writer, status: Status::offline(m) }
    }

    pub fn writer(&self) -> (r: &ApoWriter)
        ensures
            *r == *self.writer_spec(),
    {
        &self.writer
    }

    pub fn status(&self) -> (r: &Status)
        ensures
            (r.connected, r.message@) == self.current(),
    {
        &self.status
    }

    /// heq's file was written; `spot` is what `config.txt` then said of the include.
    pub fn record_applied(&mut self, spot: &IncludeSpot)
        ensures
            final(self).current() == applied_status(spot@),
            *final(self).writer_spec() == *old(self).writer_spec(),
    {
        let mut m = String::new();
        let connected = if spot.duplicated {
            push_str(&mut m, "config.txt includes heq.txt more than once");
            true
        } else if spot.exists {
            match &spot.device {
                Some(d) => {
                    push_str(&mut m, "applied under ");
                    push_str(&mut m, d.as_str());
                },
                None => {
                    push_str(&mut m, "applied");
                },
            }
            true
        } else {
            push_str(&mut m, "config.txt has no Include: heq.txt");
            false
        };
        assert(m@ =~= applied_status(spot@).1);
        self.status = Status { connected, message: m };
    }

    /// Writing heq's file failed with the given error text.
    pub fn record_write_failed(&mut self, error: &str)
        ensures
            final(self).current() == (false, "write failed: "@ + error@),
            *final(self).writer_spec() == *old(self).writer_spec(),
    {
        let mut m = String::new();
        push_str(&mut m, "write failed: ");
        push_str(&mut m, error);
        self.status = Status::offline(m);
    }
}

} // verus!
