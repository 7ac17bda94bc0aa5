//! What can go wrong while BB files are parsed and grouped.

use crate::model::views;
use crate::number::NumberFault;
use crate::rect::CharRect;
use crate::text::{debug_strings, glue3, glue5, show_strings};
use vstd::prelude::*;
use vstd::std_specs::cmp::PartialEqSpecImpl;
use vstd::string::StringExecFns;

verus! {

/// A failure of the lexical or structural kind.
#[derive(Debug)]
pub enum ParseError {
    /// A word was wanted and this reserved symbol came.
    WantWordGotReserved(String),
    /// A word was wanted and the input ended.
    WantWordGotEOF(),
    /// The word is none of the options.
    UnexpectedWord { word: String, options: Vec<String> },
    /// A reserved symbol was wanted and this word came.
    WantReservedGotWord(String),
    /// A reserved symbol was wanted and the input ended.
    WantReservedGotEOF(),
    /// The text was given as a reserved symbol and is none.
    NotAReserved(String),
    /// The reserved symbol is none of the options.
    UnexpectedReserved { reserved: String, options: Vec<String> },
    /// The text is no number of the named type.
    InvalidNumber { word: String, num_type: String, e: NumberFault },
    /// A span was asked for outside any node.
    RanOutOfUsedBasics,
    /// An error was to be placed and nothing had been read yet.
    NoLastUsedBasic,
    /// The word names no calling convention.
    InvalidCallConv(String),
    /// The delimiter was due between two elements of a list.
    ExpectedDelimiter(String),
    /// A module declaration without a name.
    EmptyModule,
}

/// The mathematical value of a [`ParseError`].
pub enum ParseErrorView {
    WantWordGotReserved(Seq<char>),
    WantWordGotEOF,
    UnexpectedWord { word: Seq<char>, options: Seq<Seq<char>> },
    WantReservedGotWord(Seq<char>),
    WantReservedGotEOF,
    NotAReserved(Seq<char>),
    UnexpectedReserved { reserved: Seq<char>, options: Seq<Seq<char>> },
    InvalidNumber { word: Seq<char>, num_type: Seq<char>, e: NumberFault },
    RanOutOfUsedBasics,
    NoLastUsedBasic,
    InvalidCallConv(Seq<char>),
    ExpectedDelimiter(Seq<char>),
    EmptyModule,
}

impl View for ParseError {
    type V = ParseErrorView;

    open spec fn view(&self) -> ParseErrorView {
        match self {
            ParseError::WantWordGotReserved(text) => ParseErrorView::WantWordGotReserved(text@),
            ParseError::WantWordGotEOF() => ParseErrorView::WantWordGotEOF,
            ParseError::UnexpectedWord { word, options } => ParseErrorView::UnexpectedWord {
                word: word@,
                options: views(options@),
            },
            ParseError::WantReservedGotWord(text) => ParseErrorView::WantReservedGotWord(text@),
            ParseError::WantReservedGotEOF() => ParseErrorView::WantReservedGotEOF,
            ParseError::NotAReserved(text) => ParseErrorView::NotAReserved(text@),
            ParseError::UnexpectedReserved { reserved, options } => ParseErrorView::UnexpectedReserved {
                reserved: reserved@,
                options: views(options@),
            },
            ParseError::InvalidNumber { word, num_type, e } => ParseErrorView::InvalidNumber {
                word: word@,
                num_type: num_type@,
                e: *e,
            },
            ParseError::RanOutOfUsedBasics => ParseErrorView::RanOutOfUsedBasics,
            ParseError::NoLastUsedBasic => ParseErrorView::NoLastUsedBasic,
            ParseError::InvalidCallConv(text) => ParseErrorView::InvalidCallConv(text@),
            ParseError::ExpectedDelimiter(text) => ParseErrorView::ExpectedDelimiter(text@),
            ParseError::EmptyModule => ParseErrorView::EmptyModule,
        }
    }
}

impl ParseErrorView {
    /// The failure in words.
    pub open spec fn text(self) -> Seq<char> {
        match self {
            ParseErrorView::WantWordGotReserved(reserved) => "Unexpected reserved: "@ + reserved,
            ParseErrorView::WantWordGotEOF => "Unexpected EOF"@,
            ParseErrorView::UnexpectedWord { word, options } => "Unexpected word \""@ + word
                + "\", expected one of "@ + debug_strings(options),
            ParseErrorView::WantReservedGotWord(word) => "Unexpected word: "@ + word,
            ParseErrorView::WantReservedGotEOF => "Unexpected EOF"@,
            ParseErrorView::NotAReserved(reserved) => "Word '"@ + reserved + "' is not reserved"@,
            ParseErrorView::UnexpectedReserved { reserved, options } => "Unexpected reserved '"@
                + reserved + "', expected one of "@ + debug_strings(options),
            ParseErrorView::InvalidNumber { word, num_type, e } => "\""@ + word
                + "\" is not a valid "@ + num_type + ": "@ + e.text(),
            ParseErrorView::RanOutOfUsedBasics => "Ran out of tracked basic tokens that were used. Tokens must have been ended more times than they were started"@,
            ParseErrorView::NoLastUsedBasic => "Tried to access last used basic token when none have been used yet"@,
            ParseErrorView::InvalidCallConv(word) => "\""@ + word
                + "\" is not a valid calling convention"@,
            ParseErrorView::ExpectedDelimiter(delimiter) => "Expected delimiter \""@ + delimiter
                + "\""@,
            ParseErrorView::EmptyModule => "Expected module, found nothing"@,
        }
    }
}

impl ParseError {
    /// The failure in words.
    pub fn to_string(&self) -> (text: String)
        ensures
            text@ == self@.text(),
    {
        match self {
            ParseError::WantWordGotReserved(reserved) => {
                let mut text = "Unexpected reserved: ".to_owned();
                text.append(reserved.as_str());
                text
            },
            ParseError::WantWordGotEOF() => "Unexpected EOF".to_owned(),
            ParseError::UnexpectedWord { word, options } => {
                let shown = show_strings(options);
                assert(Seq::new(options@.len(), |i: int| options@[i]@) =~= views(options@));
                let mut text = glue3("Unexpected word \"", word.as_str(), "\", expected one of ");
                text.append(shown.as_str());
                text
            },
            ParseError::WantReservedGotWord(word) => {
                let mut text = "Unexpected word: ".to_owned();
                text.append(word.as_str());
                text
            },
            ParseError::WantReservedGotEOF() => "Unexpected EOF".to_owned(),
            ParseError::NotAReserved(reserved) => glue3(
                "Word '",
                reserved.as_str(),
                "' is not reserved",
            ),
            ParseError::UnexpectedReserved { reserved, options } => {
                let shown = show_strings(options);
                assert(Seq::new(options@.len(), |i: int| options@[i]@) =~= views(options@));
                let mut text = glue3(
                    "Unexpected reserved '",
                    reserved.as_str(),
                    "', expected one of ",
                );
                text.append(shown.as_str());
                text
            },
            ParseError::InvalidNumber { word, num_type, e } => {
                let mut text = glue5(
                    "\"",
                    word.as_str(),
                    "\" is not a valid ",
                    num_type.as_str(),
                    ": ",
                );
                text.append(e.to_string().as_str());
                text
            },
            ParseError::RanOutOfUsedBasics => "Ran out of tracked basic tokens that were used. Tokens must have been ended more times than they were started".to_owned(),
            ParseError::NoLastUsedBasic => "Tried to access last used basic token when none have been used yet".to_owned(),
            ParseError::InvalidCallConv(word) => glue3(
                "\"",
                word.as_str(),
                "\" is not a valid calling convention",
            ),
            ParseError::ExpectedDelimiter(delimiter) => glue3(
                "Expected delimiter \"",
                delimiter.as_str(),
                "\"",
            ),
            ParseError::EmptyModule => "Expected module, found nothing".to_owned(),
        }
    }
}

/// A failure of validation.
#[derive(Debug)]
pub enum ValidateError {
    /// The file declares no module.
    MissingModule { file_name: String },
}

/// The mathematical value of a [`ValidateError`].
pub enum ValidateErrorView {
    MissingModule { file_name: Seq<char> },
}

impl View for ValidateError {
    type V = ValidateErrorView;

    open spec fn view(&self) -> ValidateErrorView {
        match self {
            ValidateError::MissingModule { file_name } => ValidateErrorView::MissingModule {
                file_name: file_name@,
            },
        }
    }
}

impl ValidateErrorView {
    /// The failure in words.
    pub open spec fn text(self) -> Seq<char> {
        match self {
            ValidateErrorView::MissingModule { file_name } => "File "@ + file_name
                + " requires a module (e.g. \"mod path::name\")"@,
        }
    }
}

impl ValidateError {
    /// The failure in words.
    pub fn to_string(&self) -> (text: String)
        ensures
            text@ == self@.text(),
    {
        match self {
            ValidateError::MissingModule { file_name } => glue3(
                "File ",
                file_name.as_str(),
                " requires a module (e.g. \"mod path::name\")",
            ),
        }
    }
}

/// Either kind of failure.
#[derive(Debug)]
pub enum BindingError {
    Parse(ParseError),
    Compute(ValidateError),
}

/// The mathematical value of a [`BindingError`].
pub enum BindingErrorView {
    Parse(ParseErrorView),
    Compute(ValidateErrorView),
}

impl View for BindingError {
    type V = BindingErrorView;

    open spec fn view(&self) -> BindingErrorView {
        match self {
            BindingError::Parse(e) => BindingErrorView::Parse(e@),
            BindingError::Compute(e) => BindingErrorView::Compute(e@),
        }
    }
}

impl BindingErrorView {
    /// The failure in words.
    pub open spec fn text(self) -> Seq<char> {
        match self {
            BindingErrorView::Parse(e) => e.text(),
            BindingErrorView::Compute(e) => e.text(),
        }
    }
}

impl BindingError {
    /// The failure in words.
    pub fn to_string(&self) -> (text: String)
        ensures
            text@ == self@.text(),
    {
        match self {
            BindingError::Parse(e) => e.to_string(),
            BindingError::Compute(e) => e.to_string(),
        }
    }
}

impl From<ParseError> for BindingError {
    fn from(e: ParseError) -> (r: Self) {
        BindingError::Parse(e)
    }
}

impl vstd::std_specs::convert::FromSpecImpl<ParseError> for BindingError {
    open spec fn obeys_from_spec() -> bool {
        true
    }

    open spec fn from_spec(e: ParseError) -> Self {
        BindingError::Parse(e)
    }
}

impl From<ValidateError> for BindingError {
    fn from(e: ValidateError) -> (r: Self) {
        BindingError::Compute(e)
    }
}

impl vstd::std_specs::convert::FromSpecImpl<ValidateError> for BindingError {
    open spec fn obeys_from_spec() -> bool {
        true
    }

    open spec fn from_spec(e: ValidateError) -> Self {
        BindingError::Compute(e)
    }
}

/// A failure with its place: the file, the span within it, and what failed.
#[derive(Debug)]
pub struct Error {
    pub file_name: String,
    pub char_rect: CharRect,
    pub err: BindingError,
}

/// The mathematical value of an [`Error`].
pub struct ErrorView {
    pub file_name: Seq<char>,
    pub char_rect: CharRect,
    pub err: BindingErrorView,
}

impl View for Error {
    type V = ErrorView;

    open spec fn view(&self) -> ErrorView {
        ErrorView { file_name: self.file_name@, char_rect: self.char_rect, err: self.err@ }
    }
}

impl ErrorView {
    /// The failure and its place in words.
    pub open spec fn text(self) -> Seq<char> {
        "Failed to parse "@ + self.file_name + " "@ + self.char_rect.text() + ": "@
            + self.err.text()
    }
}

impl Error {
    /// The failure and its place in words: `Failed to parse FILE SPAN: WHAT`.
    pub fn to_string(&self) -> (text: String)
        ensures
            text@ == self@.text(),
    {
        let mut text = glue5(
            "Failed to parse ",
            self.file_name.as_str(),
            " ",
            self.char_rect.to_string().as_str(),
            ": ",
        );
        text.append(self.err.to_string().as_str());
        text
    }
}

/// Two errors are equal when they lie at the same place: in the same file and
/// on the same span, whatever failed there.
impl PartialEq for Error {
    fn eq(&self, other: &Self) -> (same: bool) {
        self.file_name == other.file_name && self.char_rect == other.char_rect
    }
}

impl PartialEqSpecImpl for Error {
    open spec fn obeys_eq_spec() -> bool {
        true
    }

    open spec fn eq_spec(&self, other: &Self) -> bool {
        self.file_name@ == other.file_name@ && self.char_rect == other.char_rect
    }
}

} // verus!
