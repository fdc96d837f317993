//! What every output backend shares: the status line it reports and the errors it returns.
pub mod apo;
pub mod camilla;
pub mod json;
pub mod null;
pub mod pipewire;
pub mod platform;
pub mod worker;
pub mod yaml;

use vstd::prelude::*;

use crate::text::push_str;

verus! {

/// What the status bar shows for a backend.
#[derive(Clone, Debug, Default, PartialEq)]
pub struct Status {
    pub connected: bool,
    pub message: String,
}

impl Status {
    pub fn ok(message: String) -> (r: Status)
        ensures
            r.connected,
            r.message@ == message@,
    {
        Status { connected: true, message }
    }

    pub fn offline(message: String) -> (r: Status)
        ensures
            !r.connected,
            r.message@ == message@,
    {
        Status { connected: false, message }
    }
}

#[verifier::external_type_specification]
#[verifier::external_body]
pub struct ExIoError(std::io::Error);

#[derive(Debug)]
pub enum BackendError {
    NotAvailable(String),
    Io(std::io::Error),
    Protocol(String),
}

/// `std::io::Error`'s `Display` text.
#[verifier::external_body]
fn io_error_text(e: &std::io::Error) -> String {
    e.to_string()
}

impl BackendError {
    /// The text the error displays as: its message, or for an I/O error, that error's own text
    /// (which comes from the operating system and is not stated here).
    pub fn message(&self) -> (r: String)
        ensures
            match self {
                BackendError::NotAvailable(m) => r@ == m@,
                BackendError::Protocol(m) => r@ == m@,
                BackendError::Io(_) => true,
            },
    {
        match self {
            BackendError::NotAvailable(m) => {
                let mut s = String::new();
                push_str(&mut s, m.as_str());
                s
            },
            BackendError::Io(e) => io_error_text(e),
            BackendError::Protocol(m) => {
                let mut s = String::new();
                push_str(&mut s, m.as_str());
                s
            },
        }
    }
}

/// An output backend: it is handed snapshots of the EQ (of type `S`) to apply, and reports the
/// status line the window shows.
pub trait Backend<S> {
    fn name(&self) -> &str;

    fn apply(&mut self, snapshot: &S) -> Result<(), BackendError>;

    fn status(&self) -> Status;
}

impl From<std::io::Error> for BackendError {
    fn from(e: std::io::Error) -> (r: BackendError) {
        BackendError::Io(e)
    }
}

impl vstd::std_specs::convert::FromSpecImpl<std::io::Error> for BackendError {
    open spec fn obeys_from_spec() -> bool {
        true
    }

    open spec fn from_spec(e: std::io::Error) -> BackendError {
        BackendError::Io(e)
    }
}

} // verus!
