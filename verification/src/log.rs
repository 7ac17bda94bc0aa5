//! Messages by severity, and what takes them.

use vstd::prelude::*;

verus! {

/// How much a message matters.
#[derive(Clone, Copy, Debug, PartialEq, Eq, Structural)]
pub enum Severity {
    Info,
    Debug,
    Warning,
    Error,
}

/// Something that takes messages, each with its severity, and keeps them in
/// the order in which they came.
pub trait Logger {
    /// The messages taken so far, oldest first.
    spec fn messages(&self) -> Seq<(Seq<char>, Severity)>;

    /// Takes a message.
    fn log_with_severity(&mut self, msg: &str, severity: Severity)
        ensures
            final(self).messages() == old(self).messages().push((msg@, severity)),
    ;

    /// Takes a message for information.
    fn log(&mut self, msg: &str)
        ensures
            final(self).messages() == old(self).messages().push((msg@, Severity::Info)),
    {
        self.log_with_severity(msg, Severity::Info)
    }

    /// Takes a message for debugging.
    fn log_debug(&mut self, msg: &str)
        ensures
            final(self).messages() == old(self).messages().push((msg@, Severity::Debug)),
    {
        self.log_with_severity(msg, Severity::Debug)
    }

    /// Takes a warning.
    fn log_warning(&mut self, msg: &str)
        ensures
            final(self).messages() == old(self).messages().push((msg@, Severity::Warning)),
    {
        self.log_with_severity(msg, Severity::Warning)
    }

    /// Takes an error message.
    fn log_error(&mut self, msg: &str)
        ensures
            final(self).messages() == old(self).messages().push((msg@, Severity::Error)),
    {
        self.log_with_severity(msg, Severity::Error)
    }
}

} // verus!
