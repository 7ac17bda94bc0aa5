//! The diagnostic log: an append-only list of entries, which the caller
//! prints and writes out.

use crate::log::Severity;
use crate::model::{lemma_views_push, views};
use vstd::prelude::*;
use vstd::string::StringExecFns;

verus! {

/// One entry of the log: the log file it belongs to, the message, and how
/// much it matters.
#[derive(Debug)]
pub struct LogEntry {
    pub file: String,
    pub msg: String,
    pub severity: Severity,
}

/// The mathematical value of a [`LogEntry`].
pub struct LogEntryView {
    pub file: Seq<char>,
    pub msg: Seq<char>,
    pub severity: Severity,
}

impl View for LogEntry {
    type V = LogEntryView;

    open spec fn view(&self) -> LogEntryView {
        LogEntryView { file: self.file@, msg: self.msg@, severity: self.severity }
    }
}

/// The log. Entries are only ever added at its end.
pub struct Logger {
    entries: Vec<LogEntry>,
}

impl View for Logger {
    type V = Seq<LogEntryView>;

    closed spec fn view(&self) -> Seq<LogEntryView> {
        views(self.entries@)
    }
}

impl Logger {
    /// An empty log.
    pub fn new() -> (logger: Self)
        ensures
            logger@ == Seq::<LogEntryView>::empty(),
    {
        let logger = Logger { entries: Vec::new() };
        assert(logger@ =~= Seq::<LogEntryView>::empty());
        logger
    }

    /// Adds an entry.
    pub fn log_with_severity(&mut self, file: &str, msg: &str, severity: Severity)
        ensures
            final(self)@ == old(self)@.push(LogEntryView { file: file@, msg: msg@, severity }),
    {
        let entry = LogEntry { file: file.to_owned(), msg: msg.to_owned(), severity };
        proof {
            lemma_views_push(self.entries@, entry);
        }
        self.entries.push(entry);
    }

    /// Adds an entry for the standard output.
    pub fn log(&mut self, file: &str, msg: &str)
        ensures
            final(self)@ == old(self)@.push(
                LogEntryView { file: file@, msg: msg@, severity: Severity::Info },
            ),
    {
        self.log_with_severity(file, msg, Severity::Info)
    }

    /// Adds an entry for the standard error output.
    pub fn elog(&mut self, file: &str, msg: &str)
        ensures
            final(self)@ == old(self)@.push(
                LogEntryView { file: file@, msg: msg@, severity: Severity::Error },
            ),
    {
        self.log_with_severity(file, msg, Severity::Error)
    }

    /// The entries, oldest first.
    pub fn entries(&self) -> (entries: &Vec<LogEntry>)
        ensures
            views(entries@) == self@,
    {
        &self.entries
    }
}

/// The messages of the entries, without their files.
pub open spec fn messages_of(entries: Seq<LogEntryView>) -> Seq<(Seq<char>, Severity)> {
    Seq::new(entries.len(), |i: int| (entries[i].msg, entries[i].severity))
}

/// A message that comes without a file goes to the log file `log`.
impl crate::log::Logger for Logger {
    open spec fn messages(&self) -> Seq<(Seq<char>, Severity)> {
        messages_of(self@)
    }

    fn log_with_severity(&mut self, msg: &str, severity: Severity) {
        let ghost before = self@;
        Logger::log_with_severity(self, "log", msg, severity);
        assert(messages_of(self@) =~= messages_of(before).push((msg@, severity)));
    }
}

/// What can go wrong while the log is written out. Each failure names the
/// folder or file it concerns; all but one carry the cause as the system
/// reported it.
#[derive(Debug)]
pub enum LoggerError {
    CheckRootExist(String, String),
    ResetRoot(String, String),
    CreateRoot(String, String),
    GetLogFileParent(String),
    CreateLogFolder(String, String),
    OpenLogFile(String, String),
    WriteLogFile(String, String),
}

/// The mathematical value of a [`LoggerError`].
pub enum LoggerErrorView {
    CheckRootExist(Seq<char>, Seq<char>),
    ResetRoot(Seq<char>, Seq<char>),
    CreateRoot(Seq<char>, Seq<char>),
    GetLogFileParent(Seq<char>),
    CreateLogFolder(Seq<char>, Seq<char>),
    OpenLogFile(Seq<char>, Seq<char>),
    WriteLogFile(Seq<char>, Seq<char>),
}

impl View for LoggerError {
    type V = LoggerErrorView;

    open spec fn view(&self) -> LoggerErrorView {
        match self {
            LoggerError::CheckRootExist(path, cause) => LoggerErrorView::CheckRootExist(
                path@,
                cause@,
            ),
            LoggerError::ResetRoot(path, cause) => LoggerErrorView::ResetRoot(path@, cause@),
            LoggerError::CreateRoot(path, cause) => LoggerErrorView::CreateRoot(path@, cause@),
            LoggerError::GetLogFileParent(path) => LoggerErrorView::GetLogFileParent(path@),
            LoggerError::CreateLogFolder(path, cause) => LoggerErrorView::CreateLogFolder(
                path@,
                cause@,
            ),
            LoggerError::OpenLogFile(path, cause) => LoggerErrorView::OpenLogFile(path@, cause@),
            LoggerError::WriteLogFile(path, cause) => LoggerErrorView::WriteLogFile(path@, cause@),
        }
    }
}

impl LoggerErrorView {
    /// What failed.
    pub open spec fn headline(self) -> Seq<char> {
        match self {
            LoggerErrorView::CheckRootExist(_, _) => "Could not check if log folder exists: "@,
            LoggerErrorView::ResetRoot(_, _) => "Could not reset log foler: "@,
            LoggerErrorView::CreateRoot(_, _) => "Could not create log folder: "@,
            LoggerErrorView::GetLogFileParent(_) => "Unexpected! Log file path has no parent: "@,
            LoggerErrorView::CreateLogFolder(_, _) => "Could not create folder for log file: "@,
            LoggerErrorView::OpenLogFile(_, _) => "Could not create or open log file in append mode: "@,
            LoggerErrorView::WriteLogFile(_, _) => "Could not write to log file: "@,
        }
    }

    /// The failure in words: what failed and on which path, and on a line of
    /// its own the cause, where there is one.
    pub open spec fn text(self) -> Seq<char> {
        match self {
            LoggerErrorView::GetLogFileParent(path) => self.headline() + path,
            LoggerErrorView::CheckRootExist(path, cause) => self.headline() + path + "\n"@ + cause,
            LoggerErrorView::ResetRoot(path, cause) => self.headline() + path + "\n"@ + cause,
            LoggerErrorView::CreateRoot(path, cause) => self.headline() + path + "\n"@ + cause,
            LoggerErrorView::CreateLogFolder(path, cause) => self.headline() + path + "\n"@ + cause,
            LoggerErrorView::OpenLogFile(path, cause) => self.headline() + path + "\n"@ + cause,
            LoggerErrorView::WriteLogFile(path, cause) => self.headline() + path + "\n"@ + cause,
        }
    }
}

impl LoggerError {
    /// What failed.
    fn headline(&self) -> (text: String)
        ensures
            text@ == self@.headline(),
    {
        match self {
            LoggerError::CheckRootExist(_, _) => "Could not check if log folder exists: ".to_owned(),
            LoggerError::ResetRoot(_, _) => "Could not reset log foler: ".to_owned(),
            LoggerError::CreateRoot(_, _) => "Could not create log folder: ".to_owned(),
            LoggerError::GetLogFileParent(_) => "Unexpected! Log file path has no parent: ".to_owned(),
            LoggerError::CreateLogFolder(_, _) => "Could not create folder for log file: ".to_owned(),
            LoggerError::OpenLogFile(_, _) => "Could not create or open log file in append mode: ".to_owned(),
            LoggerError::WriteLogFile(_, _) => "Could not write to log file: ".to_owned(),
        }
    }

    /// The failure in words.
    pub fn to_string(&self) -> (text: String)
        ensures
            text@ == self@.text(),
    {
        let mut text = self.headline();
        match self {
            LoggerError::GetLogFileParent(path) => {
                text.append(path.as_str());
            },
            LoggerError::CheckRootExist(path, cause) => {
                text.append(path.as_str());
                text.append("\n");
                text.append(cause.as_str());
            },
            LoggerError::ResetRoot(path, cause) => {
                text.append(path.as_str());
                text.append("\n");
                text.append(cause.as_str());
            },
            LoggerError::CreateRoot(path, cause) => {
                text.append(path.as_str());
                text.append("\n");
                text.append(cause.as_str());
            },
            LoggerError::CreateLogFolder(path, cause) => {
                text.append(path.as_str());
                text.append("\n");
                text.append(cause.as_str());
            },
            LoggerError::OpenLogFile(path, cause) => {
                text.append(path.as_str());
                text.append("\n");
                text.append(cause.as_str());
            },
            LoggerError::WriteLogFile(path, cause) => {
                text.append(path.as_str());
                text.append("\n");
                text.append(cause.as_str());
            },
        }
        text
    }
}

} // verus!
