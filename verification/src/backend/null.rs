//! Stands in when no output backend was found, so the editor still runs.
use vstd::prelude::*;

use super::{Backend, BackendError, Status};
use crate::text::push_str;

verus! {

pub struct NullBackend {
    message: String,
}

impl NullBackend {
    pub closed spec fn message_spec(&self) -> Seq<char> {
        self.message@
    }

    pub fn new(message: String) -> (r: NullBackend)
        ensures
            r.message_spec() == message@,
    {
        NullBackend { message }
    }

    /// What the backend picker calls it.
    pub fn name(&self) -> (r: &'static str)
        ensures
            r@ == "none"@,
    {
        "none"
    }

    /// Always offline, with the message it was made with.
    pub fn status(&self) -> (r: Status)
        ensures
            !r.connected,
            r.message@ == self.message_spec(),
    {
        let mut m = String::new();
        push_str(&mut m, self.message.as_str());
        assert(m@ =~= self.message@);
        Status::offline(m)
    }
}

impl<S> Backend<S> for NullBackend {
    fn name(&self) -> (r: &str)
        ensures
            r@ == "none"@,
    {
        let n: &'static str = NullBackend::name(self);
        n
    }

    /// Applying does nothing and always succeeds, so the editor keeps running with no output;
    /// the status stays the one it was made with.
    fn apply(&mut self, snapshot: &S) -> (r: Result<(), BackendError>)
        ensures
            r is Ok,
            final(self).message_spec() == old(self).message_spec(),
    {
        Ok(())
    }

    fn status(&self) -> (r: Status)
        ensures
            !r.connected,
            r.message@ == self.message_spec(),
    {
        NullBackend::status(self)
    }
}

} // verus!
