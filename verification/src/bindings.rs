//! The character-level parser: a cursor that reads words straight from the
//! text of a file, without a lexer in between.
//!
//! Before anything is read the text is normalised: every run of white space
//! within a line becomes one space, white space at the ends of a line goes,
//! and empty lines go. Positions count lines and columns of the normalised
//! text, from 0.

use crate::model::{result_view, views};
use crate::number::{parsed_number, Number, NumberFault};
use crate::parser::radix_split;
use crate::rect::CharRect;
use crate::text::{
    among, chars_of, debug_chars, debug_strings, glue3, glue5, is_whitespace, owned, push_char,
    show_chars, show_strings, whitespace,
};
use std::collections::VecDeque;
use vstd::prelude::*;
use vstd::string::{StrSliceExecFns, StringExecFns};

verus! {

/// What can go wrong while words are read.
#[derive(Debug)]
#[allow(inconsistent_fields)]
pub enum ParseError {
    /// The word is none of the options.
    UnexpectedWord { word: String, options: Vec<String> },
    /// The symbol is none of the options.
    UnexpectedChar { symbol: char, options: Vec<char> },
    /// One symbol was wanted and a longer word came.
    InvalidChar { word: String, options: Vec<char> },
    /// The text is no number of the named type.
    InvalidNumber { word: String, num_type: String, e: NumberFault },
    /// A word was wanted and the text ended.
    FoundEOFWord { options: Vec<String> },
    /// A symbol was wanted and the text ended.
    FoundEOFChar { options: Vec<char> },
    /// A number was wanted and the text ended.
    FoundEOFNum { num_type: String },
}

/// The mathematical value of a [`ParseError`].
#[allow(inconsistent_fields)]
pub enum ParseErrorView {
    UnexpectedWord { word: Seq<char>, options: Seq<Seq<char>> },
    UnexpectedChar { symbol: char, options: Seq<char> },
    InvalidChar { word: Seq<char>, options: Seq<char> },
    InvalidNumber { word: Seq<char>, num_type: Seq<char>, e: NumberFault },
    FoundEOFWord { options: Seq<Seq<char>> },
    FoundEOFChar { options: Seq<char> },
    FoundEOFNum { num_type: Seq<char> },
}

impl View for ParseError {
    type V = ParseErrorView;

    open spec fn view(&self) -> ParseErrorView {
        match self {
            ParseError::UnexpectedWord { word, options } => ParseErrorView::UnexpectedWord {
                word: word@,
                options: views(options@),
            },
            ParseError::UnexpectedChar { symbol, options } => ParseErrorView::UnexpectedChar {
                symbol: *symbol,
                options: options@,
            },
            ParseError::InvalidChar { word, options } => ParseErrorView::InvalidChar {
                word: word@,
                options: options@,
            },
            ParseError::InvalidNumber { word, num_type, e } => ParseErrorView::InvalidNumber {
                word: word@,
                num_type: num_type@,
                e: *e,
            },
            ParseError::FoundEOFWord { options } => ParseErrorView::FoundEOFWord {
                options: views(options@),
            },
            ParseError::FoundEOFChar { options } => ParseErrorView::FoundEOFChar {
                options: options@,
            },
            ParseError::FoundEOFNum { num_type } => ParseErrorView::FoundEOFNum {
                num_type: num_type@,
            },
        }
    }
}

impl ParseErrorView {
    /// The failure in words.
    pub open spec fn text(self) -> Seq<char> {
        match self {
            ParseErrorView::UnexpectedWord { word, options } => "Unexpected word \""@ + word
                + "\", expected one of "@ + debug_strings(options),
            ParseErrorView::UnexpectedChar { symbol, options } => "Unexpected symbol '"@.push(
                symbol,
            ) + "', expected one of "@ + debug_chars(options),
            ParseErrorView::InvalidChar { word, options } => "Unexpected word \""@ + word
                + "\", expected one of "@ + debug_chars(options),
            ParseErrorView::InvalidNumber { word, num_type, e } => "\""@ + word
                + "\" is not a valid "@ + num_type + ": "@ + e.text(),
            ParseErrorView::FoundEOFWord { options } => "Found EOF, expected one of "@
                + debug_strings(options),
            ParseErrorView::FoundEOFChar { options } => "Found EOF, expected one of "@
                + debug_chars(options),
            ParseErrorView::FoundEOFNum { num_type } => "Found EOF, expected "@ + num_type,
        }
    }
}

impl ParseError {
    /// The failure in words.
    pub fn to_string(&self) -> (text: String)
        ensures
            text@ == self@.text(),
    {
        match self {
            ParseError::UnexpectedWord { word, options } => {
                let shown = show_strings(options);
                assert(Seq::new(options@.len(), |i: int| options@[i]@) =~= views(options@));
                let mut text = glue3("Unexpected word \"", word.as_str(), "\", expected one of ");
                text.append(shown.as_str());
                text
            },
            ParseError::UnexpectedChar { symbol, options } => {
                let mut text = "Unexpected symbol '".to_owned();
                push_char(&mut text, *symbol);
                text.append("', expected one of ");
                text.append(show_chars(options).as_str());
                text
            },
            ParseError::InvalidChar { word, options } => {
                let mut text = glue3("Unexpected word \"", word.as_str(), "\", expected one of ");
                text.append(show_chars(options).as_str());
                text
            },
            ParseError::InvalidNumber { word, num_type, e } => {
                let mut text = glue5(
                    "\"",
                    word.as_str(),
                    "\" is not a valid ",
                    num_type.as_str(),
                    ": ",
                );
                text.append(e.to_string().as_str());
                text
            },
            ParseError::FoundEOFWord { options } => {
                let shown = show_strings(options);
                assert(Seq::new(options@.len(), |i: int| options@[i]@) =~= views(options@));
                let mut text = "Found EOF, expected one of ".to_owned();
                text.append(shown.as_str());
                text
            },
            ParseError::FoundEOFChar { options } => {
                let mut text = "Found EOF, expected one of ".to_owned();
                text.append(show_chars(options).as_str());
                text
            },
            ParseError::FoundEOFNum { num_type } => {
                let mut text = "Found EOF, expected ".to_owned();
                text.append(num_type.as_str());
                text
            },
        }
    }
}

/// A failure with its place: the file, and the span from the start of the
/// word that was being read to the place the parser had reached.
#[derive(Debug)]
pub struct Error {
    pub file_name: String,
    pub char_rect: CharRect,
    pub err: ParseError,
}

/// The mathematical value of an [`Error`].
pub struct ErrorView {
    pub file_name: Seq<char>,
    pub char_rect: CharRect,
    pub err: ParseErrorView,
}

impl View for Error {
    type V = ErrorView;

    open spec fn view(&self) -> ErrorView {
        ErrorView { file_name: self.file_name@, char_rect: self.char_rect, err: self.err@ }
    }
}

impl ErrorView {
    /// The failure and its place in words.
    pub open spec fn text(self) -> Seq<char> {
        "Failed to parse "@ + self.file_name + ".bb "@ + self.char_rect.text() + ": "@
            + self.err.text()
    }
}

impl Error {
    /// The failure and its place in words: `Failed to parse FILE.bb SPAN: WHAT`.
    pub fn to_string(&self) -> (text: String)
        ensures
            text@ == self@.text(),
    {
        let mut text = glue5(
            "Failed to parse ",
            self.file_name.as_str(),
            ".bb ",
            self.char_rect.to_string().as_str(),
            ": ",
        );
        text.append(self.err.to_string().as_str());
        text
    }
}

/// The characters that end a line.
pub open spec fn is_break(c: char) -> bool {
    c == '\n' || c == '\r'
}

/// The characters that end a word and are words of their own.
pub open spec fn is_symbol(c: char) -> bool {
    c == ':' || c == '=' || c == '[' || c == '{' || c == ']' || c == '}' || c == ',' || c == '('
        || c == ')' || c == '<' || c == '>'
}

/// The first index from `i` on that holds a line break, or the length.
pub open spec fn next_break(text: Seq<char>, i: int) -> int
    decreases text.len() - i,
{
    if i >= text.len() || is_break(text[i]) {
        i
    } else {
        next_break(text, i + 1)
    }
}

/// The first index from `i` on, and before `end`, that holds white space; or
/// `end`.
pub open spec fn next_space(text: Seq<char>, i: int, end: int) -> int
    decreases end - i,
{
    if i >= end || whitespace(text[i]) {
        i
    } else {
        next_space(text, i + 1, end)
    }
}

/// The words of `text` between `i` and `end`, with one space between each
/// two. `started` says that a word of the line came before `i`.
pub open spec fn squeeze_from(text: Seq<char>, i: int, end: int, started: bool) -> Seq<char>
    decreases end - i,
{
    if i < 0 || i >= end {
        Seq::empty()
    } else if whitespace(text[i]) {
        squeeze_from(text, i + 1, end, started)
    } else {
        let stop = next_space(text, i + 1, end);
        let gap = if started {
            seq![' ']
        } else {
            Seq::empty()
        };
        proof {
            lemma_next_space_bounds(text, i + 1, end);
        }
        gap + text.subrange(i, stop) + squeeze_from(text, stop, end, true)
    }
}

/// The lines of `text` from index `i` on: each squeezed, the empty ones
/// dropped, with one line feed between each two. `started` says that a line
/// that was kept came before `i`.
pub open spec fn normalize_from(text: Seq<char>, i: int, started: bool) -> Seq<char>
    decreases text.len() - i,
{
    if i < 0 || i > text.len() {
        Seq::empty()
    } else {
        let end = next_break(text, i);
        proof {
            lemma_next_break_bounds(text, i);
        }
        let line = squeeze_from(text, i, end, false);
        let kept = if line.len() == 0 {
            line
        } else if started {
            seq!['\n'] + line
        } else {
            line
        };
        if end >= text.len() {
            kept
        } else {
            kept + normalize_from(text, end + 1, started || line.len() > 0)
        }
    }
}

/// The normalised form of a text.
pub open spec fn normalized(text: Seq<char>) -> Seq<char> {
    normalize_from(text, 0, false)
}

pub proof fn lemma_next_break_bounds(text: Seq<char>, i: int)
    requires
        0 <= i <= text.len(),
    ensures
        i <= next_break(text, i) <= text.len(),
    decreases text.len() - i,
{
    if i < text.len() && !is_break(text[i]) {
        lemma_next_break_bounds(text, i + 1);
    }
}

pub proof fn lemma_next_space_bounds(text: Seq<char>, i: int, end: int)
    requires
        0 <= i <= end,
    ensures
        i <= next_space(text, i, end) <= end,
    decreases end - i,
{
    if i < end && !whitespace(text[i]) {
        lemma_next_space_bounds(text, i + 1, end);
    }
}

/// The state of a parser as a mathematical value.
pub struct Scan {
    pub file_name: Seq<char>,
    /// The characters that are still to be read.
    pub chars: Seq<char>,
    /// Line and column that the parser has reached.
    pub current: (usize, usize),
    /// Line and column at which the last word started.
    pub word: (usize, usize),
}

impl Scan {
    /// Takes the next character. A symbol is taken only where `first` allows
    /// it. White space is taken and not handed out.
    pub open spec fn pop_char(self, first: bool) -> (Scan, Option<char>) {
        if self.chars.len() == 0 {
            (self, None)
        } else if is_symbol(self.chars[0]) && !first {
            (self, None)
        } else {
            let c = self.chars[0];
            let current = if c == '\n' {
                ((self.current.0 + 1) as usize, 0usize)
            } else {
                (self.current.0, (self.current.1 + 1) as usize)
            };
            (
                Scan { chars: self.chars.skip(1), current, ..self },
                if whitespace(c) {
                    None
                } else {
                    Some(c)
                },
            )
        }
    }

    /// Takes characters up to the next white space, which is taken too, or
    /// the next symbol, which is left.
    pub open spec fn rest_of_word(self) -> (Scan, Seq<char>)
        decreases self.chars.len(),
    {
        match self.pop_char(false).1 {
            Some(c) => {
                let (after, tail) = self.pop_char(false).0.rest_of_word();
                (after, seq![c] + tail)
            },
            None => (self.pop_char(false).0, Seq::empty()),
        }
    }

    /// Takes the next word and marks where it starts. One white space before
    /// the word is passed over. A symbol is a word of its own, and one white
    /// space behind it goes with it.
    pub open spec fn word(self) -> (Scan, Seq<char>) {
        let marked = Scan { word: self.current, ..self };
        let popped = marked.pop_char(true).0;
        match marked.pop_char(true).1 {
            Some(c) => if is_symbol(c) {
                if popped.chars.len() > 0 && whitespace(popped.chars[0]) {
                    (Scan { chars: popped.chars.skip(1), ..popped }, seq![c])
                } else {
                    (popped, seq![c])
                }
            } else {
                (popped.rest_of_word().0, seq![c] + popped.rest_of_word().1)
            },
            None => popped.rest_of_word(),
        }
    }

    /// The error `err` on the span from the start of the last word to the
    /// place that the parser has reached.
    pub open spec fn make_error(self, err: ParseErrorView) -> ErrorView {
        ErrorView {
            file_name: self.file_name,
            char_rect: CharRect::between(self.word, self.current),
            err,
        }
    }

    /// Takes the next word, which must be one of `options`.
    pub open spec fn expect_word(self, options: Seq<Seq<char>>) -> (
        Scan,
        Result<Seq<char>, ErrorView>,
    ) {
        let (after, word) = self.word();
        if word.len() == 0 {
            (after, Err(after.make_error(ParseErrorView::FoundEOFWord { options })))
        } else if options.contains(word) {
            (after, Ok(word))
        } else {
            (after, Err(after.make_error(ParseErrorView::UnexpectedWord { word, options })))
        }
    }

    /// Takes the next word, which must be one character, one of `options`.
    pub open spec fn expect_char(self, options: Seq<char>) -> (Scan, Result<char, ErrorView>) {
        let (after, word) = self.word();
        if word.len() == 0 {
            (after, Err(after.make_error(ParseErrorView::FoundEOFChar { options })))
        } else if word.len() > 1 {
            (after, Err(after.make_error(ParseErrorView::InvalidChar { word, options })))
        } else if options.contains(word[0]) {
            (after, Ok(word[0]))
        } else {
            (
                after,
                Err(after.make_error(ParseErrorView::UnexpectedChar { symbol: word[0], options })),
            )
        }
    }

    /// Takes the next word and reads it as a number of type `T`: in the base
    /// that its prefix selects, or in base 10.
    pub open spec fn expect_num<T: Number>(self) -> (Scan, Result<nat, ErrorView>) {
        let (after, word) = self.word();
        if word.len() == 0 {
            (after, Err(after.make_error(ParseErrorView::FoundEOFNum { num_type: T::name() })))
        } else {
            let (radix, digits) = radix_split(word);
            match parsed_number(digits, radix as nat, T::limit(), T::fault(digits, radix)) {
                Ok(n) => (after, Ok(n)),
                Err(e) => (
                    after,
                    Err(
                        after.make_error(
                            ParseErrorView::InvalidNumber { word, num_type: T::name(), e },
                        ),
                    ),
                ),
            }
        }
    }
}

/// `first` put before the text that `tail` yields.
pub open spec fn prepend_text(first: Seq<char>, tail: (Scan, Seq<char>)) -> (Scan, Seq<char>) {
    (tail.0, first + tail.1)
}

/// A parser over the normalised text of one file.
pub struct Parser {
    file_name: String,
    chars: VecDeque<char>,
    current_line: usize,
    current_column: usize,
    word_line: usize,
    word_column: usize,
}

impl View for Parser {
    type V = Scan;

    closed spec fn view(&self) -> Scan {
        Scan {
            file_name: self.file_name@,
            chars: self.chars@,
            current: (self.current_line, self.current_column),
            word: (self.word_line, self.word_column),
        }
    }
}

fn symbol(c: char) -> (b: bool)
    ensures
        b == is_symbol(c),
{
    c == ':' || c == '=' || c == '[' || c == '{' || c == ']' || c == '}' || c == ',' || c == '('
        || c == ')' || c == '<' || c == '>'
}

/// Squeezes the words of `text` between `i` and `end` onto `out`.
#[verifier::loop_isolation(false)]
fn squeeze(text: &Vec<char>, i: usize, end: usize, out: &mut VecDeque<char>) -> (any: bool)
    requires
        i <= end <= text.len(),
    ensures
        final(out)@ == old(out)@ + squeeze_from(text@, i as int, end as int, false),
        any == (squeeze_from(text@, i as int, end as int, false).len() > 0),
{
    let ghost whole = squeeze_from(text@, i as int, end as int, false);
    let ghost before = out@;
    let mut k: usize = i;
    let mut started = false;
    assert(out@ + whole =~= before + whole);
    while k < end
        invariant
            i <= k <= end <= text.len(),
            started ==> out@.len() > before.len(),
            !started ==> out@ == before,
            out@ + squeeze_from(text@, k as int, end as int, started) == before + whole,
        decreases end - k,
    {
        if is_whitespace(text[k]) {
            k = k + 1;
        } else {
            let ghost rest = squeeze_from(text@, k as int, end as int, started);
            let ghost stop = next_space(text@, k + 1, end as int);
            let ghost so_far = out@;
            proof {
                lemma_next_space_bounds(text@, k + 1, end as int);
            }
            if started {
                out.push_back(' ');
            }
            let ghost gapped = out@;
            let ghost first = k;
            out.push_back(text[k]);
            k = k + 1;
            assert(out@ =~= gapped + text@.subrange(first as int, k as int));
            while k < end && !is_whitespace(text[k])
                invariant
                    first < k <= end <= text.len(),
                    stop == next_space(text@, first + 1, end as int),
                    stop == next_space(text@, k as int, end as int),
                    out@ == gapped + text@.subrange(first as int, k as int),
                    gapped.len() >= before.len(),
                decreases end - k,
            {
                out.push_back(text[k]);
                assert(text@.subrange(first as int, k as int).push(text@[k as int])
                    =~= text@.subrange(first as int, k + 1));
                k = k + 1;
            }
            started = true;
            proof {
                assert(k == stop);
                let tail = squeeze_from(text@, k as int, end as int, true);
                assert(so_far + rest =~= out@ + tail);
            }
        }
    }
    proof {
        if !started {
            assert(before + whole == before);
            assert(whole =~= (before + whole).skip(before.len() as int));
            assert(before.skip(before.len() as int) =~= Seq::<char>::empty());
        } else {
            assert((before + whole).len() == out@.len());
        }
    }
    started
}

impl Parser {
    /// A parser over the normalised form of `chars`, at line 0 and column 0.
    #[verifier::loop_isolation(false)]
    pub fn new(file_name: &str, chars: &str) -> (parser: Self)
        ensures
            parser@ == (Scan {
                file_name: file_name@,
                chars: normalized(chars@),
                current: (0, 0),
                word: (0, 0),
            }),
            parser.fits(),
    {
        let text = chars_of(chars);
        let mut out: VecDeque<char> = VecDeque::new();
        let mut i: usize = 0;
        let mut started = false;
        let mut done = false;
        assert(out@ + normalized(text@) =~= normalized(text@));
        while !done
            invariant
                i <= text.len(),
                done ==> out@ == normalized(text@),
                !done ==> out@ + normalize_from(text@, i as int, started) == normalized(text@),
            decreases text.len() - i, (if done { 0int } else { 1int }),
        {
            let ghost so_far = out@;
            let ghost rest = normalize_from(text@, i as int, started);
            let mut end: usize = i;
            while end < text.len() && text[end] != '\n' && text[end] != '\r'
                invariant
                    i <= end <= text.len(),
                    next_break(text@, end as int) == next_break(text@, i as int),
                decreases text.len() - end,
            {
                end = end + 1;
            }
            let ghost line = squeeze_from(text@, i as int, end as int, false);
            let mut squeezed: VecDeque<char> = VecDeque::new();
            let any = squeeze(&text, i, end, &mut squeezed);
            assert(squeezed@ =~= line);
            if any {
                if started {
                    out.push_back('\n');
                }
                out.append(&mut squeezed);
                started = true;
            }
            proof {
                if end >= text.len() {
                    assert(so_far + rest =~= out@);
                } else {
                    assert(so_far + rest =~= out@ + normalize_from(text@, end + 1, started));
                }
            }
            if end >= text.len() {
                done = true;
            } else {
                i = end + 1;
            }
        }
        let _ = out.len();
        Parser {
            file_name: file_name.to_owned(),
            chars: out,
            current_line: 0,
            current_column: 0,
            word_line: 0,
            word_column: 0,
        }
    }

    /// Takes the next character.
    fn pop_char(&mut self, first: bool) -> (c: Option<char>)
        requires
            old(self).fits(),
        ensures
            final(self).fits(),
            final(self)@ == old(self)@.pop_char(first).0,
            c == old(self)@.pop_char(first).1,
    {
        if self.chars.len() == 0 {
            return None;
        }
        let c = self.chars[0];
        if symbol(c) && !first {
            return None;
        }
        let _ = self.chars.pop_front();
        assert(self.chars@ =~= old(self).chars@.skip(1));
        if c == '\n' {
            self.current_line = self.current_line + 1;
            self.current_column = 0;
        } else {
            self.current_column = self.current_column + 1;
        }
        if is_whitespace(c) {
            None
        } else {
            Some(c)
        }
    }

    /// The positions leave room for all characters that are still to be read,
    /// so that counting them never overflows.
    pub closed spec fn fits(&self) -> bool {
        self.current_line + self.chars@.len() <= usize::MAX && self.current_column
            + self.chars@.len() <= usize::MAX
    }

    /// The next `len` characters, or all that are left where fewer are left.
    pub fn peek_chars(&self, len: usize) -> (text: String)
        ensures
            text@ == if len <= self@.chars.len() {
                self@.chars.take(len as int)
            } else {
                self@.chars
            },
    {
        let mut text = String::new();
        let mut i: usize = 0;
        assert(self.chars@.take(0) =~= Seq::<char>::empty());
        while i < len && i < self.chars.len()
            invariant
                i <= len,
                i <= self.chars.len(),
                text@ == self.chars@.take(i as int),
            decreases len - i,
        {
            push_char(&mut text, self.chars[i]);
            assert(self.chars@.take(i as int).push(self.chars@[i as int]) =~= self.chars@.take(
                i + 1,
            ));
            i = i + 1;
        }
        assert(self.chars@.take(self.chars@.len() as int) =~= self.chars@);
        text
    }

    /// Lets the next `len` characters go, or all that are left. Positions do
    /// not move.
    pub fn drop_chars(&mut self, len: usize)
        requires
            old(self).fits(),
        ensures
            final(self).fits(),
            final(self)@ == (Scan {
                chars: if len <= old(self)@.chars.len() {
                    old(self)@.chars.skip(len as int)
                } else {
                    Seq::empty()
                },
                ..old(self)@
            }),
    {
        let mut i: usize = 0;
        assert(self.chars@.skip(0) =~= self.chars@);
        while i < len && self.chars.len() > 0
            invariant
                i <= len,
                i <= old(self).chars@.len(),
                self.fits(),
                self.chars@ == old(self).chars@.skip(i as int),
                self.file_name == old(self).file_name,
                self.current_line == old(self).current_line,
                self.current_column == old(self).current_column,
                self.word_line == old(self).word_line,
                self.word_column == old(self).word_column,
            decreases len - i,
        {
            let _ = self.chars.pop_front();
            assert(self.chars@ =~= old(self).chars@.skip(i + 1));
            i = i + 1;
        }
        assert(self.chars@ =~= if len <= old(self)@.chars.len() {
            old(self)@.chars.skip(len as int)
        } else {
            Seq::empty()
        });
    }

    /// Whether a character is left.
    pub fn has_chars(&self) -> (some: bool)
        ensures
            some == (self@.chars.len() > 0),
    {
        self.chars.len() > 0
    }

    fn save_word_pos(&mut self)
        requires
            old(self).fits(),
        ensures
            final(self).fits(),
            final(self)@ == (Scan { word: old(self)@.current, ..old(self)@ }),
    {
        self.word_line = self.current_line;
        self.word_column = self.current_column;
    }

    /// The error `err` on the span from the start of the last word to the
    /// place that the parser has reached.
    pub fn make_error(&self, err: ParseError) -> (e: Error)
        ensures
            e@ == self@.make_error(err@),
    {
        Error {
            file_name: self.file_name.clone(),
            char_rect: CharRect::new(
                (self.word_line, self.word_column),
                (self.current_line, self.current_column),
            ),
            err,
        }
    }

    /// Line and column that the parser has reached.
    pub fn current_pos(&self) -> (pos: (usize, usize))
        ensures
            pos == self@.current,
    {
        (self.current_line, self.current_column)
    }

    /// Takes the next word.
    #[verifier::loop_isolation(false)]
    pub fn word(&mut self) -> (word: String)
        requires
            old(self).fits(),
        ensures
            final(self).fits(),
            final(self)@ == old(self)@.word().0,
            word@ == old(self)@.word().1,
    {
        self.save_word_pos();
        let mut result = String::new();
        match self.pop_char(true) {
            Some(c) => {
                push_char(&mut result, c);
                assert(result@ =~= seq![c]);
                if symbol(c) {
                    if self.chars.len() > 0 && is_whitespace(self.chars[0]) {
                        let ghost before = self.chars@;
                        let _ = self.chars.pop_front();
                        assert(self.chars@ =~= before.skip(1));
                    }
                    return result;
                }
            },
            None => {},
        }
        let ghost start = self@;
        let ghost head = result@;
        assert(head + Seq::<char>::empty() =~= head);
        loop
            invariant
                self.fits(),
                start.rest_of_word() == prepend_text(result@.skip(head.len() as int), self@.rest_of_word()),
                result@.take(head.len() as int) == head,
                head.len() <= result@.len(),
            decreases self@.chars.len(),
        {
            let ghost now = self@;
            let ghost read = result@;
            match self.pop_char(false) {
                Some(c) => {
                    push_char(&mut result, c);
                    proof {
                        let tail = self@.rest_of_word().1;
                        assert(read.skip(head.len() as int) + (seq![c] + tail) =~= result@.skip(
                            head.len() as int,
                        ) + tail);
                        assert(result@.take(head.len() as int) =~= read.take(head.len() as int));
                    }
                },
                None => {
                    proof {
                        assert(result@.skip(head.len() as int) + Seq::<char>::empty()
                            =~= result@.skip(head.len() as int));
                        assert(result@ =~= head + result@.skip(head.len() as int));
                    }
                    return result;
                },
            }
        }
    }

    /// Takes the next word, which must be one of `options`.
    #[verifier::loop_isolation(false)]
    pub fn expect_word(&mut self, options: &[&str]) -> (r: Result<String, Error>)
        requires
            old(self).fits(),
        ensures
            final(self).fits(),
            final(self)@ == old(self)@.expect_word(views(options@)).0,
            result_view(r) == old(self)@.expect_word(views(options@)).1,
    {
        let word = self.word();
        if word.as_str().unicode_len() == 0 {
            return Err(self.make_error(ParseError::FoundEOFWord { options: owned(options) }));
        }
        if among(&word, options) {
            Ok(word)
        } else {
            Err(self.make_error(ParseError::UnexpectedWord { word, options: owned(options) }))
        }
    }

    /// Takes the next word, which must be one character, one of `options`.
    #[verifier::loop_isolation(false)]
    pub fn expect_char(&mut self, options: &[char]) -> (r: Result<char, Error>)
        requires
            old(self).fits(),
        ensures
            final(self).fits(),
            final(self)@ == old(self)@.expect_char(options@).0,
            match r {
                Ok(c) => old(self)@.expect_char(options@).1 == Ok::<char, ErrorView>(c),
                Err(e) => old(self)@.expect_char(options@).1 == Err::<char, ErrorView>(e@),
            },
    {
        let word = self.word();
        let n = word.as_str().unicode_len();
        if n == 0 {
            return Err(self.make_error(ParseError::FoundEOFChar { options: copied(options) }));
        }
        if n > 1 {
            return Err(
                self.make_error(ParseError::InvalidChar { word, options: copied(options) }),
            );
        }
        let c = word.as_str().get_char(0);
        let mut i: usize = 0;
        while i < options.len()
            invariant
                i <= options.len(),
                forall|k: int| 0 <= k < i ==> options@[k] != c,
            decreases options.len() - i,
        {
            if options[i] == c {
                return Ok(c);
            }
            i = i + 1;
        }
        Err(self.make_error(ParseError::UnexpectedChar { symbol: c, options: copied(options) }))
    }

    /// Takes the next word and reads it as a number of type `T`.
    pub fn expect_num<T: Number>(&mut self) -> (r: Result<T, Error>)
        requires
            old(self).fits(),
        ensures
            final(self).fits(),
            final(self)@ == old(self)@.expect_num::<T>().0,
            match r {
                Ok(n) => old(self)@.expect_num::<T>().1 == Ok::<nat, ErrorView>(n.value()),
                Err(e) => old(self)@.expect_num::<T>().1 == Err::<nat, ErrorView>(e@),
            },
    {
        let word = self.word();
        let n = word.as_str().unicode_len();
        if n == 0 {
            return Err(self.make_error(ParseError::FoundEOFNum { num_type: T::type_label() }));
        }
        let mut radix: u32 = 10;
        if n >= 2 && word.as_str().get_char(0) == '0' {
            let mark = word.as_str().get_char(1);
            if mark == 'b' {
                radix = 2;
            } else if mark == 'o' {
                radix = 8;
            } else if mark == 'x' {
                radix = 16;
            }
        }
        let digits: &str = if radix == 10 {
            word.as_str()
        } else {
            word.as_str().substring_char(2, n)
        };
        assert(digits@ =~= radix_split(word@).1);
        match T::from_str_radix(digits, radix) {
            Ok(n) => Ok(n),
            Err(e) => Err(
                self.make_error(
                    ParseError::InvalidNumber { word: word.clone(), num_type: T::type_label(), e },
                ),
            ),
        }
    }
}

/// Copies a list of characters.
fn copied(options: &[char]) -> (copy: Vec<char>)
    ensures
        copy@ == options@,
{
    let mut copy: Vec<char> = Vec::new();
    let mut i: usize = 0;
    while i < options.len()
        invariant
            i <= options.len(),
            copy@ == options@.take(i as int),
        decreases options.len() - i,
    {
        copy.push(options[i]);
        assert(options@.take(i as int).push(options@[i as int]) =~= options@.take(i + 1));
        i = i + 1;
    }
    assert(options@.take(options@.len() as int) =~= options@);
    copy
}

} // verus!
