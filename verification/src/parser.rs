//! The parser core: a cursor over the basic tokens of one file.
//!
//! The cursor hands out words and reserved symbols and passes over comments.
//! Whatever it passes or hands out it records in the frame of the syntax node
//! that is being read, so that each node knows the span of text it came from.

use crate::error::{BindingError, BindingErrorView, Error, ErrorView, ParseError, ParseErrorView};
use crate::generator::BBFile;
use crate::lexer::{
    is_pair, is_reserved_char, lex, split_to_basics, Basic, BasicToken, BasicTokenVariant, Lexeme,
};
use crate::model::{lemma_views_subrange, option_view, result_view, views};
use crate::number::{parsed_number, Number};
use crate::rect::{pos_before, pos_max, pos_min, CharRect};
use crate::text::{among, owned, push_char, text_is};
use std::collections::VecDeque;
use vstd::prelude::*;
use vstd::string::StrSliceExecFns;

verus! {

impl Lexeme {
    /// The text of the token, whatever its kind.
    pub open spec fn text(self) -> Seq<char> {
        match self {
            Lexeme::Word(text) => text,
            Lexeme::Reserved(text) => text,
            Lexeme::Comment(text) => text,
        }
    }
}

/// How many comments stand at the front of `rest`.
pub open spec fn leading_comments(rest: Seq<Basic>) -> nat
    decreases rest.len(),
{
    if rest.len() > 0 && rest[0].lexeme is Comment {
        1 + leading_comments(rest.drop_first())
    } else {
        0
    }
}

/// The last token of `frame` that is no comment.
pub open spec fn last_spoken_in(frame: Seq<Basic>) -> Option<Basic>
    decreases frame.len(),
{
    if frame.len() == 0 {
        None
    } else if !(frame.last().lexeme is Comment) {
        Some(frame.last())
    } else {
        last_spoken_in(frame.drop_last())
    }
}

/// The last token of all `frames`, taken in order, that is no comment.
pub open spec fn last_spoken(frames: Seq<Seq<Basic>>) -> Option<Basic>
    decreases frames.len(),
{
    if frames.len() == 0 {
        None
    } else if last_spoken_in(frames.last()) is Some {
        last_spoken_in(frames.last())
    } else {
        last_spoken(frames.drop_last())
    }
}

/// The earliest start among the spans of `frame`; `(0, 0)` for none.
pub open spec fn earliest_start(frame: Seq<Basic>) -> (usize, usize)
    decreases frame.len(),
{
    if frame.len() == 0 {
        (0, 0)
    } else if frame.len() == 1 {
        frame[0].rect.spec_start()
    } else {
        pos_min(earliest_start(frame.drop_last()), frame.last().rect.spec_start())
    }
}

/// The latest end among the spans of `frame`; `(0, 0)` for none.
pub open spec fn latest_end(frame: Seq<Basic>) -> (usize, usize)
    decreases frame.len(),
{
    if frame.len() == 0 {
        (0, 0)
    } else if frame.len() == 1 {
        frame[0].rect.spec_end()
    } else {
        pos_max(latest_end(frame.drop_last()), frame.last().rect.spec_end())
    }
}

/// The span of a node that took the tokens of `frame`: from the earliest start
/// to the latest end.
pub open spec fn span_of(frame: Seq<Basic>) -> CharRect {
    CharRect::between(earliest_start(frame), latest_end(frame))
}

/// Whether `text` is one of the reserved symbols:
/// `//  /*  */  ::  :  =  ,  [  ]  {  }  (  )  <  >`.
pub open spec fn is_reserved_word(text: Seq<char>) -> bool {
    (text.len() == 1 && is_reserved_char(text[0]) && text[0] != '/' && text[0] != '*') || (
    text.len() == 2 && is_pair(text[0], text[1]))
}

/// The first of `options` that is no reserved symbol.
pub open spec fn first_unreserved(options: Seq<Seq<char>>) -> Option<Seq<char>>
    decreases options.len(),
{
    if options.len() == 0 {
        None
    } else if !is_reserved_word(options[0]) {
        Some(options[0])
    } else {
        first_unreserved(options.drop_first())
    }
}

/// The base that the first two characters of a number select, and the digits
/// that follow: `0b` for 2, `0o` for 8, `0x` for 16, and base 10 for a text
/// without such a prefix.
pub open spec fn radix_split(word: Seq<char>) -> (u32, Seq<char>) {
    if word.len() >= 2 && word[0] == '0' && word[1] == 'b' {
        (2, word.skip(2))
    } else if word.len() >= 2 && word[0] == '0' && word[1] == 'o' {
        (8, word.skip(2))
    } else if word.len() >= 2 && word[0] == '0' && word[1] == 'x' {
        (16, word.skip(2))
    } else {
        (10, word)
    }
}

/// The frames after `basics` went into the innermost one.
pub open spec fn record_in(frames: Seq<Seq<Basic>>, basics: Seq<Basic>) -> Seq<Seq<Basic>> {
    if frames.len() == 0 {
        frames
    } else {
        frames.update(frames.len() - 1, frames.last() + basics)
    }
}

/// Recording twice is recording the whole at once.
pub proof fn lemma_record_twice(frames: Seq<Seq<Basic>>, a: Seq<Basic>, b: Seq<Basic>)
    ensures
        record_in(record_in(frames, a), b) == record_in(frames, a + b),
{
    if frames.len() > 0 {
        assert((frames.last() + a) + b =~= frames.last() + (a + b));
        assert(record_in(record_in(frames, a), b) =~= record_in(frames, a + b));
    }
}

/// Recording nothing changes nothing.
pub proof fn lemma_record_nothing(frames: Seq<Seq<Basic>>)
    ensures
        record_in(frames, Seq::empty()) == frames,
{
    if frames.len() > 0 {
        assert(frames.last() + Seq::<Basic>::empty() =~= frames.last());
        assert(record_in(frames, Seq::empty()) =~= frames);
    }
}

/// One tab for each of `depth` nodes but the innermost.
pub open spec fn tabs_for(depth: nat) -> Seq<char> {
    Seq::new(
        if depth > 0 {
            (depth - 1) as nat
        } else {
            0
        },
        |k: int| '\t',
    )
}

/// The state of a parser as a mathematical value.
pub struct Cursor {
    /// The stem of the file.
    pub name: Seq<char>,
    /// The path of the file, which errors carry.
    pub path: Seq<char>,
    /// The text of the file.
    pub contents: Seq<char>,
    /// The tokens that are still to be read.
    pub rest: Seq<Basic>,
    /// One frame for each node that is being read, the innermost last; a frame
    /// holds the tokens that its node has taken so far.
    pub frames: Seq<Seq<Basic>>,
}

impl Cursor {
    /// The cursor after `basics` went into the innermost frame. Outside any
    /// node nothing is recorded.
    pub open spec fn record(self, basics: Seq<Basic>) -> Cursor {
        Cursor { frames: record_in(self.frames, basics), ..self }
    }

    /// A parse error of this file at `rect`.
    pub open spec fn failure(self, rect: CharRect, err: ParseErrorView) -> ErrorView {
        ErrorView { file_name: self.path, char_rect: rect, err: BindingErrorView::Parse(err) }
    }

    /// The error `err` at the last token taken that was no comment. Where none
    /// was taken yet, the error says so instead and lies nowhere.
    pub open spec fn make_error(self, err: ParseErrorView) -> ErrorView {
        match last_spoken(self.frames) {
            Some(basic) => self.failure(basic.rect, err),
            None => self.failure(CharRect::nowhere(), ParseErrorView::NoLastUsedBasic),
        }
    }

    /// Records one token in the innermost frame; fails outside any node.
    pub open spec fn use_basic(self, basic: Basic) -> (Cursor, Result<(), ErrorView>) {
        if self.frames.len() == 0 {
            (self, Err(self.make_error(ParseErrorView::RanOutOfUsedBasics)))
        } else {
            (self.record(seq![basic]), Ok(()))
        }
    }

    /// Takes the next word. The comments before it are passed and recorded.
    /// A reserved symbol in its place is taken from the input, not recorded,
    /// and reported at its own span; the end of input is reported nowhere.
    pub open spec fn take_word(self) -> (Cursor, Result<Seq<char>, ErrorView>) {
        let k = leading_comments(self.rest) as int;
        if k >= self.rest.len() {
            (
                Cursor { rest: Seq::empty(), ..self.record(self.rest) },
                Err(self.failure(CharRect::nowhere(), ParseErrorView::WantWordGotEOF)),
            )
        } else if self.rest[k].lexeme is Word {
            (
                Cursor { rest: self.rest.skip(k + 1), ..self.record(self.rest.take(k + 1)) },
                Ok(self.rest[k].lexeme.text()),
            )
        } else {
            (
                Cursor { rest: self.rest.skip(k + 1), ..self.record(self.rest.take(k)) },
                Err(
                    self.failure(
                        self.rest[k].rect,
                        ParseErrorView::WantWordGotReserved(self.rest[k].lexeme.text()),
                    ),
                ),
            )
        }
    }

    /// Takes the next reserved symbol; the mirror image of [`Self::take_word`].
    pub open spec fn take_reserved(self) -> (Cursor, Result<Seq<char>, ErrorView>) {
        let k = leading_comments(self.rest) as int;
        if k >= self.rest.len() {
            (
                Cursor { rest: Seq::empty(), ..self.record(self.rest) },
                Err(self.failure(CharRect::nowhere(), ParseErrorView::WantReservedGotEOF)),
            )
        } else if self.rest[k].lexeme is Reserved {
            (
                Cursor { rest: self.rest.skip(k + 1), ..self.record(self.rest.take(k + 1)) },
                Ok(self.rest[k].lexeme.text()),
            )
        } else {
            (
                Cursor { rest: self.rest.skip(k + 1), ..self.record(self.rest.take(k)) },
                Err(
                    self.failure(
                        self.rest[k].rect,
                        ParseErrorView::WantReservedGotWord(self.rest[k].lexeme.text()),
                    ),
                ),
            )
        }
    }

    /// The next token that is no comment, if it is a word.
    pub open spec fn peek_word(self) -> Option<Seq<char>> {
        let k = leading_comments(self.rest) as int;
        if k < self.rest.len() && self.rest[k].lexeme is Word {
            Some(self.rest[k].lexeme.text())
        } else {
            None
        }
    }

    /// The next token that is no comment, if it is a reserved symbol.
    pub open spec fn peek_reserved(self) -> Option<Seq<char>> {
        let k = leading_comments(self.rest) as int;
        if k < self.rest.len() && self.rest[k].lexeme is Reserved {
            Some(self.rest[k].lexeme.text())
        } else {
            None
        }
    }

    /// Takes the next word and lets it go.
    pub open spec fn drop_word(self) -> (Cursor, Result<(), ErrorView>) {
        match self.take_word().1 {
            Ok(_) => (self.take_word().0, Ok(())),
            Err(e) => (self.take_word().0, Err(e)),
        }
    }

    /// Takes the next reserved symbol and lets it go.
    pub open spec fn drop_reserved(self) -> (Cursor, Result<(), ErrorView>) {
        match self.take_reserved().1 {
            Ok(_) => (self.take_reserved().0, Ok(())),
            Err(e) => (self.take_reserved().0, Err(e)),
        }
    }

    /// Where the next word is `word`, takes it and answers `true`; otherwise
    /// leaves everything as it is and answers `false`.
    pub open spec fn if_word(self, word: Seq<char>) -> (Cursor, Result<bool, ErrorView>) {
        if self.peek_word() == Some(word) {
            match self.take_word().1 {
                Ok(_) => (self.take_word().0, Ok(true)),
                Err(e) => (self.take_word().0, Err(e)),
            }
        } else {
            (self, Ok(false))
        }
    }

    /// Whether the next reserved symbol is `reserved`; nothing is taken. Fails
    /// where `reserved` is no reserved symbol at all.
    pub open spec fn if_reserved(self, reserved: Seq<char>) -> Result<bool, ErrorView> {
        if !is_reserved_word(reserved) {
            Err(self.make_error(ParseErrorView::NotAReserved(reserved)))
        } else {
            Ok(self.peek_reserved() == Some(reserved))
        }
    }

    /// Takes the next word, which must be one of `options`.
    pub open spec fn expect_word(self, options: Seq<Seq<char>>) -> (
        Cursor,
        Result<Seq<char>, ErrorView>,
    ) {
        let after = self.take_word().0;
        match self.take_word().1 {
            Err(e) => (after, Err(e)),
            Ok(word) => if options.contains(word) {
                (after, Ok(word))
            } else {
                (after, Err(after.make_error(ParseErrorView::UnexpectedWord { word, options })))
            },
        }
    }

    /// Takes the next reserved symbol, which must be one of `options`. All
    /// `options` must be reserved symbols; the first that is none is reported
    /// before anything is taken.
    pub open spec fn expect_reserved(self, options: Seq<Seq<char>>) -> (
        Cursor,
        Result<Seq<char>, ErrorView>,
    ) {
        match first_unreserved(options) {
            Some(text) => (self, Err(self.make_error(ParseErrorView::NotAReserved(text)))),
            None => {
                let after = self.take_reserved().0;
                match self.take_reserved().1 {
                    Err(e) => (after, Err(e)),
                    Ok(reserved) => if options.contains(reserved) {
                        (after, Ok(reserved))
                    } else {
                        (
                            after,
                            Err(
                                after.make_error(
                                    ParseErrorView::UnexpectedReserved { reserved, options },
                                ),
                            ),
                        )
                    },
                }
            },
        }
    }

    /// Takes the next word and reads it as a number of type `T`: in the base
    /// that its prefix selects, or in base 10.
    pub open spec fn expect_num<T: Number>(self) -> (Cursor, Result<nat, ErrorView>) {
        let after = self.take_word().0;
        match self.take_word().1 {
            Err(e) => (after, Err(e)),
            Ok(word) => {
                let (radix, digits) = radix_split(word);
                match parsed_number(digits, radix as nat, T::limit(), T::fault(digits, radix)) {
                    Ok(n) => (after, Ok(n)),
                    Err(e) => (
                        after,
                        Err(
                            after.make_error(
                                ParseErrorView::InvalidNumber {
                                    word: digits,
                                    num_type: T::name(),
                                    e,
                                },
                            ),
                        ),
                    ),
                }
            },
        }
    }

    /// The span of the node that is being read: from the earliest start to the
    /// latest end of the tokens in its frame. Fails outside any node.
    pub open spec fn token_char_rect(self) -> Result<CharRect, ErrorView> {
        if self.frames.len() == 0 {
            Err(self.make_error(ParseErrorView::RanOutOfUsedBasics))
        } else {
            Ok(span_of(self.frames.last()))
        }
    }

    /// The cursor on entering a node: with a new, empty frame.
    pub open spec fn start_token(self) -> Cursor {
        Cursor { frames: self.frames.push(Seq::empty()), ..self }
    }

    /// The cursor on leaving a node: the innermost frame is closed and its
    /// tokens go to the frame around it, so that the span of the outer node
    /// covers the inner one.
    pub open spec fn end_token(self) -> Cursor {
        if self.frames.len() == 0 {
            self
        } else if self.frames.len() == 1 {
            Cursor { frames: Seq::empty(), ..self }
        } else {
            let inner = self.frames.last();
            let outer = self.frames[self.frames.len() - 2];
            Cursor { frames: self.frames.drop_last().drop_last().push(outer + inner), ..self }
        }
    }

    /// Whether a token that is no comment is left.
    pub open spec fn has_more(self) -> bool {
        leading_comments(self.rest) < self.rest.len()
    }
}

/// The comments at the front are comments, and what follows them is none.
pub proof fn lemma_leading_comments(rest: Seq<Basic>)
    ensures
        leading_comments(rest) <= rest.len(),
        forall|i: int| 0 <= i < leading_comments(rest) ==> (#[trigger] rest[i]).lexeme is Comment,
        leading_comments(rest) < rest.len() ==> !(rest[leading_comments(rest) as int].lexeme
            is Comment),
    decreases rest.len(),
{
    if rest.len() > 0 && rest[0].lexeme is Comment {
        lemma_leading_comments(rest.drop_first());
        assert forall|i: int| 0 <= i < leading_comments(rest) implies (#[trigger] rest[i]).lexeme
            is Comment by {
            if i > 0 {
                assert(rest[i] == rest.drop_first()[i - 1]);
            }
        }
    }
}

/// `after` is `before` moved on over some of its tokens, each of which went
/// into the innermost frame.
#[verifier::opaque]
pub open spec fn records(before: Cursor, after: Cursor) -> bool {
    let taken = before.rest.len() - after.rest.len();
    &&& taken >= 0
    &&& after.rest == before.rest.skip(taken)
    &&& after.frames == record_in(before.frames, before.rest.take(taken))
    &&& after.name == before.name
    &&& after.path == before.path
    &&& after.contents == before.contents
}

/// Standing still records nothing.
pub proof fn lemma_records_same(c: Cursor)
    ensures
        records(c, c),
{
    reveal(records);
    assert(c.rest.skip(0) =~= c.rest);
    assert(c.rest.take(0) =~= Seq::<Basic>::empty());
    lemma_record_nothing(c.frames);
}

/// Two moves in a row are one move.
pub proof fn lemma_records_chain(a: Cursor, b: Cursor, c: Cursor)
    ensures
        records(a, b) && records(b, c) ==> records(a, c),
{
    reveal(records);
    if records(a, b) && records(b, c) {
        let first = a.rest.len() - b.rest.len();
        let second = b.rest.len() - c.rest.len();
        assert(a.rest.skip(first).skip(second) =~= a.rest.skip(first + second));
        assert(a.rest.take(first) + a.rest.skip(first).take(second) =~= a.rest.take(
            first + second,
        ));
        lemma_record_twice(a.frames, a.rest.take(first), b.rest.take(second));
    }
}

/// A token that is handed out is recorded, with the comments before it.
pub proof fn lemma_records_takes(c: Cursor)
    ensures
        c.take_word().1 is Ok ==> records(c, c.take_word().0),
        c.take_reserved().1 is Ok ==> records(c, c.take_reserved().0),
{
    reveal(records);
    lemma_leading_comments(c.rest);
}

/// A node that is read in a frame of its own and records what it takes has,
/// in that frame, exactly what it took; and when its frame is closed, all of
/// that is recorded in the frame around it.
pub proof fn lemma_records_framed(c: Cursor, inner: Cursor)
    requires
        records(c.start_token(), inner),
    ensures
        records(c, inner.end_token()),
        inner.frames.len() > 0,
        inner.frames.last() == c.rest.take(c.rest.len() - inner.rest.len()),
        inner.end_token().rest == inner.rest,
{
    reveal(records);
    let taken = c.rest.take(c.rest.len() - inner.rest.len());
    assert(Seq::<Basic>::empty() + taken =~= taken);
    assert(inner.frames =~= c.frames.push(taken));
    if c.frames.len() == 0 {
        assert(inner.end_token().frames =~= record_in(c.frames, taken));
    } else {
        assert(inner.frames.drop_last() =~= c.frames);
        assert(inner.end_token().frames =~= record_in(c.frames, taken));
    }
}

/// The span of a node reaches from no later than the start of each token it
/// took to no earlier than the end of that token.
pub proof fn lemma_span_of_covers(frame: Seq<Basic>, i: int)
    requires
        0 <= i < frame.len(),
    ensures
        span_of(frame).covers(frame[i].rect),
    decreases frame.len(),
{
    if frame.len() > 1 {
        if i < frame.len() - 1 {
            lemma_span_of_covers(frame.drop_last(), i);
        }
    }
}

/// The span of the tokens of two nodes together is the merge of the spans of
/// the two nodes.
pub proof fn lemma_span_of_concat(a: Seq<Basic>, b: Seq<Basic>)
    requires
        a.len() > 0,
        b.len() > 0,
    ensures
        span_of(a + b) == CharRect::merged(span_of(a), span_of(b)),
    decreases b.len(),
{
    if b.len() == 1 {
        assert((a + b).drop_last() =~= a);
        assert((a + b).last() == b[0]);
    } else {
        assert((a + b).drop_last() =~= a + b.drop_last());
        assert((a + b).last() == b.last());
        lemma_span_of_concat(a, b.drop_last());
    }
}

/// Where a node is left, the node around it has taken all that the inner
/// node took, so that the span of the outer node covers the span of the
/// inner one and each token of it.
pub proof fn lemma_outer_span_covers_inner(c: Cursor)
    requires
        c.frames.len() >= 2,
    ensures
        c.end_token().frames.last() == c.frames[c.frames.len() - 2] + c.frames.last(),
        c.frames.last().len() > 0 ==> span_of(c.end_token().frames.last()).covers(
            span_of(c.frames.last()),
        ),
        forall|i: int|
            0 <= i < c.frames.last().len() ==> span_of(c.end_token().frames.last()).covers(
                (#[trigger] c.frames.last()[i]).rect,
            ),
{
    let outer = c.frames[c.frames.len() - 2];
    let inner = c.frames.last();
    if inner.len() > 0 {
        if outer.len() > 0 {
            lemma_span_of_concat(outer, inner);
        } else {
            assert(outer + inner =~= inner);
        }
    }
    assert forall|i: int| 0 <= i < inner.len() implies span_of(outer + inner).covers(
        (#[trigger] inner[i]).rect,
    ) by {
        lemma_span_of_covers(outer + inner, outer.len() + i);
    }
}

/// Taking a token never adds to the input, and takes from it on success; and
/// what a peek shows is what the next take hands out.
pub proof fn lemma_takes(c: Cursor)
    ensures
        c.take_word().0.rest.len() <= c.rest.len(),
        c.take_word().1 is Ok ==> c.take_word().0.rest.len() < c.rest.len(),
        c.take_reserved().0.rest.len() <= c.rest.len(),
        c.take_reserved().1 is Ok ==> c.take_reserved().0.rest.len() < c.rest.len(),
        c.peek_word() matches Some(word) ==> c.take_word().1 == Ok::<Seq<char>, ErrorView>(word),
        c.peek_reserved() matches Some(reserved) ==> c.take_reserved().1 == Ok::<
            Seq<char>,
            ErrorView,
        >(reserved),
{
    lemma_leading_comments(c.rest);
}

/// A parser for one file: the tokens that are left, and the frames of the
/// nodes that are being read.
pub struct Parser {
    file: BBFile,
    basic_tokens: VecDeque<BasicToken>,
    used_basic_tokens: Vec<Vec<BasicToken>>,
}

/// The frames of a parser as mathematical values.
pub open spec fn frames_view(frames: Seq<Vec<BasicToken>>) -> Seq<Seq<Basic>> {
    Seq::new(frames.len(), |i: int| views(frames[i]@))
}

impl View for Parser {
    type V = Cursor;

    closed spec fn view(&self) -> Cursor {
        Cursor {
            name: self.file.name@,
            path: self.file.path@,
            contents: self.file.contents@,
            rest: views(self.basic_tokens@),
            frames: frames_view(self.used_basic_tokens@),
        }
    }
}

impl Parser {
    /// A parser over the tokens of `file`, outside any node.
    pub fn new(file: BBFile) -> (parser: Self)
        ensures
            parser@ == (Cursor {
                name: file.name@,
                path: file.path@,
                contents: file.contents@,
                rest: lex(file.contents@),
                frames: Seq::empty(),
            }),
    {
        let basics = split_to_basics(&file);
        let mut basic_tokens: VecDeque<BasicToken> = VecDeque::new();
        let ghost all = basics@;
        for basic in iter: basics
            invariant
                iter.seq() == all,
                basic_tokens@ == all.take(iter.index() as int),
        {
            assert(all.take(iter.index() + 1) =~= all.take(iter.index() as int).push(basic));
            basic_tokens.push_back(basic);
        }
        assert(basic_tokens@ =~= all);
        let parser = Parser { file, basic_tokens, used_basic_tokens: Vec::new() };
        assert(parser@.frames =~= Seq::empty());
        parser
    }

    /// The file that is being parsed.
    pub fn file(&self) -> (file: &BBFile)
        ensures
            file.name@ == self@.name,
            file.path@ == self@.path,
            file.contents@ == self@.contents,
    {
        &self.file
    }

    /// Whether `reserved` is one of the reserved symbols.
    pub fn is_reserved(reserved: &str) -> (r: bool)
        ensures
            r == is_reserved_word(reserved@),
    {
        let n = reserved.unicode_len();
        if n == 1 {
            let c = reserved.get_char(0);
            c == ':' || c == '=' || c == ',' || c == '[' || c == ']' || c == '{' || c == '}' || c
                == '(' || c == ')' || c == '<' || c == '>'
        } else if n == 2 {
            let a = reserved.get_char(0);
            let b = reserved.get_char(1);
            (a == '/' && b == '/') || (a == '/' && b == '*') || (a == '*' && b == '/') || (a == ':'
                && b == ':')
        } else {
            false
        }
    }

    fn make_error_impl(&self, char_rect: CharRect, err: ParseError) -> (e: Error)
        ensures
            e@ == self@.failure(char_rect, err@),
    {
        Error { file_name: self.file.path.clone(), char_rect, err: BindingError::Parse(err) }
    }

    fn make_error_with_basic(&self, basic: &BasicToken, err: ParseError) -> (e: Error)
        ensures
            e@ == self@.failure(basic.char_rect, err@),
    {
        self.make_error_impl(basic.char_rect, err)
    }

    /// The error `err` of this file, placed at the last token taken that was
    /// no comment.
    pub fn make_error(&self, err: ParseError) -> (e: Error)
        ensures
            e@ == self@.make_error(err@),
    {
        match self.last_used_basic_token() {
            Some(last) => self.make_error_with_basic(last, err),
            None => self.make_error_impl(CharRect::default(), ParseError::NoLastUsedBasic),
        }
    }

    fn make_eof_error(&self, err: ParseError) -> (e: Error)
        ensures
            e@ == self@.failure(CharRect::nowhere(), err@),
    {
        self.make_error_impl(CharRect::default(), err)
    }

    #[verifier::loop_isolation(false)]
    fn last_used_basic_token(&self) -> (last: Option<&BasicToken>)
        ensures
            option_view(last) == last_spoken(self@.frames),
    {
        let ghost frames = self@.frames;
        let mut i: usize = self.used_basic_tokens.len();
        assert(frames.take(i as int) =~= frames);
        while i > 0
            invariant
                i <= self.used_basic_tokens.len(),
                frames == self@.frames,
                last_spoken(frames) == last_spoken(frames.take(i as int)),
            decreases i,
        {
            i = i - 1;
            let frame = &self.used_basic_tokens[i];
            let ghost tokens = views(frame@);
            assert(frames.take(i + 1).last() == tokens);
            assert(frames.take(i + 1).drop_last() =~= frames.take(i as int));
            let mut j: usize = frame.len();
            assert(tokens.take(j as int) =~= tokens);
            while j > 0
                invariant
                    j <= frame.len(),
                    tokens == views(frame@),
                    last_spoken_in(tokens) == last_spoken_in(tokens.take(j as int)),
                decreases j,
            {
                j = j - 1;
                assert(tokens.take(j + 1).last() == tokens[j as int]);
                assert(tokens.take(j + 1).drop_last() =~= tokens.take(j as int));
                match frame[j].variant {
                    BasicTokenVariant::Comment(_) => {},
                    _ => {
                        return Some(&frame[j]);
                    },
                }
            }
        }
        None
    }

    /// One tab for each node around the one that is being read: the
    /// indentation of a trace line.
    pub fn token_tabs_by_depth(&self) -> (tabs: String)
        ensures
            tabs@ == tabs_for(self@.frames.len()),
    {
        let depth = self.used_basic_tokens.len();
        let depth = match depth.checked_sub(1) {
            Some(inner) => inner,
            None => 0,
        };
        let mut tabs = String::new();
        let mut i: usize = 0;
        assert(tabs@ =~= Seq::new(0, |k: int| '\t'));
        while i < depth
            invariant
                i <= depth,
                tabs@ == Seq::new(i as nat, |k: int| '\t'),
            decreases depth - i,
        {
            push_char(&mut tabs, '\t');
            assert(tabs@ =~= Seq::new((i + 1) as nat, |k: int| '\t'));
            i = i + 1;
        }
        tabs
    }

    /// Enters a node: opens a frame for the tokens it will take.
    pub fn start_token(&mut self)
        ensures
            final(self)@ == old(self)@.start_token(),
    {
        self.used_basic_tokens.push(Vec::new());
        assert(self@.frames =~~= old(self)@.frames.push(Seq::empty()));
    }

    /// Leaves a node: closes its frame and hands its tokens to the frame
    /// around it.
    pub fn end_token(&mut self)
        ensures
            final(self)@ == old(self)@.end_token(),
    {
        let ghost before = self@.frames;
        match self.used_basic_tokens.pop() {
            None => {
                assert(self@.frames =~= before);
            },
            Some(mut inner) => {
                match self.used_basic_tokens.pop() {
                    None => {
                        assert(self@.frames =~= Seq::empty());
                    },
                    Some(mut outer) => {
                        let ghost a = views(outer@);
                        let ghost b = views(inner@);
                        outer.append(&mut inner);
                        assert(views(outer@) =~= a + b);
                        self.used_basic_tokens.push(outer);
                        assert(self@.frames =~= before.drop_last().drop_last().push(a + b));
                    },
                }
            },
        }
    }

    /// The span of the node that is being read.
    pub fn token_char_rect(&self) -> (r: Result<CharRect, Error>)
        ensures
            match r {
                Ok(rect) => self@.token_char_rect() == Ok::<CharRect, ErrorView>(rect),
                Err(e) => self@.token_char_rect() == Err::<CharRect, ErrorView>(e@),
            },
    {
        let n = self.used_basic_tokens.len();
        if n == 0 {
            return Err(self.make_error(ParseError::RanOutOfUsedBasics));
        }
        let frame = &self.used_basic_tokens[n - 1];
        let ghost tokens = views(frame@);
        assert(self@.frames.last() == tokens);
        if frame.len() == 0 {
            return Ok(CharRect::new((0, 0), (0, 0)));
        }
        let mut start = frame[0].char_rect.start();
        let mut end = frame[0].char_rect.end();
        let mut i: usize = 1;
        assert(tokens.take(1).len() == 1);
        while i < frame.len()
            invariant
                1 <= i <= frame.len(),
                tokens == views(frame@),
                start == earliest_start(tokens.take(i as int)),
                end == latest_end(tokens.take(i as int)),
            decreases frame.len() - i,
        {
            assert(tokens.take(i + 1).drop_last() =~= tokens.take(i as int));
            assert(tokens.take(i + 1).last() == tokens[i as int]);
            let s = frame[i].char_rect.start();
            let e = frame[i].char_rect.end();
            if !pos_before(start, s) {
                start = s;
            }
            if pos_before(end, e) {
                end = e;
            }
            i = i + 1;
        }
        assert(tokens.take(i as int) =~= tokens);
        Ok(CharRect::new(start, end))
    }

    fn use_basic(&mut self, basic: BasicToken) -> (r: Result<(), Error>)
        ensures
            final(self)@ == old(self)@.use_basic(basic@).0,
            result_view(r) == old(self)@.use_basic(basic@).1,
    {
        let ghost before = self@.frames;
        match self.used_basic_tokens.pop() {
            Some(mut frame) => {
                let ghost tokens = views(frame@);
                frame.push(basic);
                assert(views(frame@) =~= tokens + seq![basic@]);
                self.used_basic_tokens.push(frame);
                assert(self@.frames =~= before.update(before.len() - 1, before.last() + seq![basic@]));
                Ok(())
            },
            None => {
                assert(self@.frames =~= before);
                Err(self.make_error(ParseError::RanOutOfUsedBasics))
            },
        }
    }

    /// Takes the next word, passing over the comments before it.
    pub fn take_word(&mut self) -> (r: Result<String, Error>)
        ensures
            final(self)@ == old(self)@.take_word().0,
            result_view(r) == old(self)@.take_word().1,
    {
        let ghost start = self@;
        let ghost mut passed: int = 0;
        proof {
            lemma_leading_comments(start.rest);
            assert(start.rest.skip(0) =~= start.rest);
            assert(start.rest.take(0) =~= Seq::<Basic>::empty());
            lemma_record_nothing(start.frames);
        }
        loop
            invariant
                start == old(self)@,
                0 <= passed <= leading_comments(start.rest),
                leading_comments(start.rest) <= start.rest.len(),
                self@.rest == start.rest.skip(passed),
                self@.frames == record_in(start.frames, start.rest.take(passed)),
                self@.name == start.name,
                self@.path == start.path,
                self@.contents == start.contents,
                leading_comments(self@.rest) + passed == leading_comments(start.rest),
            decreases start.rest.len() - passed,
        {
            let ghost now = self@;
            let ghost queue = self.basic_tokens@;
            match self.basic_tokens.pop_front() {
                None => {
                    assert(passed == start.rest.len());
                    assert(start.rest.take(passed) =~= start.rest);
                    assert(self@.rest =~= Seq::<Basic>::empty());
                    return Err(self.make_eof_error(ParseError::WantWordGotEOF()));
                },
                Some(basic) => {
                    proof {
                        lemma_views_subrange(queue, 1, queue.len() as int);
                        assert(basic@ == start.rest[passed]);
                        assert(self@.rest =~= now.rest.drop_first());
                        assert(self@.rest =~= start.rest.skip(passed + 1));
                        assert(start.rest.take(passed + 1) =~= start.rest.take(passed) + seq![
                            basic@,
                        ]);
                        lemma_record_twice(start.frames, start.rest.take(passed), seq![basic@]);
                    }
                    match &basic.variant {
                        BasicTokenVariant::Comment(_) => {
                            let _ = self.use_basic(basic);
                            proof {
                                passed = passed + 1;
                            }
                        },
                        BasicTokenVariant::Reserved(reserved) => {
                            let reserved = reserved.clone();
                            return Err(
                                self.make_error_with_basic(
                                    &basic,
                                    ParseError::WantWordGotReserved(reserved),
                                ),
                            );
                        },
                        BasicTokenVariant::Word(word) => {
                            let word = word.clone();
                            let _ = self.use_basic(basic);
                            return Ok(word);
                        },
                    }
                },
            }
        }
    }

    /// Takes the next reserved symbol, passing over the comments before it.
    pub fn take_reserved(&mut self) -> (r: Result<String, Error>)
        ensures
            final(self)@ == old(self)@.take_reserved().0,
            result_view(r) == old(self)@.take_reserved().1,
    {
        let ghost start = self@;
        let ghost mut passed: int = 0;
        proof {
            lemma_leading_comments(start.rest);
            assert(start.rest.skip(0) =~= start.rest);
            assert(start.rest.take(0) =~= Seq::<Basic>::empty());
            lemma_record_nothing(start.frames);
        }
        loop
            invariant
                start == old(self)@,
                0 <= passed <= leading_comments(start.rest),
                leading_comments(start.rest) <= start.rest.len(),
                self@.rest == start.rest.skip(passed),
                self@.frames == record_in(start.frames, start.rest.take(passed)),
                self@.name == start.name,
                self@.path == start.path,
                self@.contents == start.contents,
                leading_comments(self@.rest) + passed == leading_comments(start.rest),
            decreases start.rest.len() - passed,
        {
            let ghost now = self@;
            let ghost queue = self.basic_tokens@;
            match self.basic_tokens.pop_front() {
                None => {
                    assert(passed == start.rest.len());
                    assert(start.rest.take(passed) =~= start.rest);
                    assert(self@.rest =~= Seq::<Basic>::empty());
                    return Err(self.make_eof_error(ParseError::WantReservedGotEOF()));
                },
                Some(basic) => {
                    proof {
                        lemma_views_subrange(queue, 1, queue.len() as int);
                        assert(basic@ == start.rest[passed]);
                        assert(self@.rest =~= now.rest.drop_first());
                        assert(self@.rest =~= start.rest.skip(passed + 1));
                        assert(start.rest.take(passed + 1) =~= start.rest.take(passed) + seq![
                            basic@,
                        ]);
                        lemma_record_twice(start.frames, start.rest.take(passed), seq![basic@]);
                    }
                    match &basic.variant {
                        BasicTokenVariant::Comment(_) => {
                            let _ = self.use_basic(basic);
                            proof {
                                passed = passed + 1;
                            }
                        },
                        BasicTokenVariant::Reserved(reserved) => {
                            let reserved = reserved.clone();
                            let _ = self.use_basic(basic);
                            return Ok(reserved);
                        },
                        BasicTokenVariant::Word(word) => {
                            let word = word.clone();
                            return Err(
                                self.make_error_with_basic(
                                    &basic,
                                    ParseError::WantReservedGotWord(word),
                                ),
                            );
                        },
                    }
                },
            }
        }
    }

    /// The index of the next token that is no comment.
    fn next_spoken(&self) -> (k: usize)
        ensures
            k == leading_comments(self@.rest),
            k <= self.basic_tokens.len(),
    {
        let ghost rest = self@.rest;
        let mut k: usize = 0;
        proof {
            assert(rest.skip(0) =~= rest);
        }
        while k < self.basic_tokens.len()
            invariant
                k <= self.basic_tokens.len(),
                rest == self@.rest,
                leading_comments(rest) == k + leading_comments(rest.skip(k as int)),
            decreases self.basic_tokens.len() - k,
        {
            assert(rest.skip(k as int)[0] == rest[k as int]);
            assert(rest.skip(k as int).drop_first() =~= rest.skip(k + 1));
            match self.basic_tokens[k].variant {
                BasicTokenVariant::Comment(_) => {
                    k = k + 1;
                },
                _ => {
                    return k;
                },
            }
        }
        k
    }

    /// The next word, if a word is next; comments do not count and nothing is
    /// taken.
    pub fn peek_word(&self) -> (r: Option<String>)
        ensures
            option_view(r) == self@.peek_word(),
    {
        let k = self.next_spoken();
        if k < self.basic_tokens.len() {
            match &self.basic_tokens[k].variant {
                BasicTokenVariant::Word(word) => Some(word.clone()),
                _ => None,
            }
        } else {
            None
        }
    }

    /// The next reserved symbol, if one is next; comments do not count and
    /// nothing is taken.
    pub fn peek_reserved(&self) -> (r: Option<String>)
        ensures
            option_view(r) == self@.peek_reserved(),
    {
        let k = self.next_spoken();
        if k < self.basic_tokens.len() {
            match &self.basic_tokens[k].variant {
                BasicTokenVariant::Reserved(reserved) => Some(reserved.clone()),
                _ => None,
            }
        } else {
            None
        }
    }

    /// Whether a token that is no comment is left.
    pub fn has_more(&self) -> (more: bool)
        ensures
            more == self@.has_more(),
    {
        self.next_spoken() < self.basic_tokens.len()
    }

    /// Takes the next word and lets it go.
    pub fn drop_word(&mut self) -> (r: Result<(), Error>)
        ensures
            final(self)@ == old(self)@.drop_word().0,
            result_view(r) == old(self)@.drop_word().1,
    {
        match self.take_word() {
            Ok(_) => Ok(()),
            Err(e) => Err(e),
        }
    }

    /// Takes the next reserved symbol and lets it go.
    pub fn drop_reserved(&mut self) -> (r: Result<(), Error>)
        ensures
            final(self)@ == old(self)@.drop_reserved().0,
            result_view(r) == old(self)@.drop_reserved().1,
    {
        match self.take_reserved() {
            Ok(_) => Ok(()),
            Err(e) => Err(e),
        }
    }

    /// Where the next word is `word`, takes it and answers `true`.
    pub fn if_word(&mut self, word: &str) -> (r: Result<bool, Error>)
        ensures
            final(self)@ == old(self)@.if_word(word@).0,
            match r {
                Ok(found) => old(self)@.if_word(word@).1 == Ok::<bool, ErrorView>(found),
                Err(e) => old(self)@.if_word(word@).1 == Err::<bool, ErrorView>(e@),
            },
    {
        let found = match self.peek_word() {
            Some(next) => text_is(&next, word),
            None => false,
        };
        if found {
            match self.drop_word() {
                Ok(_) => Ok(true),
                Err(e) => Err(e),
            }
        } else {
            Ok(false)
        }
    }

    /// Whether the next reserved symbol is `reserved`. Nothing is taken.
    pub fn if_reserved(&self, reserved: &str) -> (r: Result<bool, Error>)
        ensures
            match r {
                Ok(found) => self@.if_reserved(reserved@) == Ok::<bool, ErrorView>(found),
                Err(e) => self@.if_reserved(reserved@) == Err::<bool, ErrorView>(e@),
            },
    {
        if !Self::is_reserved(reserved) {
            return Err(self.make_error(ParseError::NotAReserved(reserved.to_owned())));
        }
        match self.peek_reserved() {
            Some(next) => Ok(text_is(&next, reserved)),
            None => Ok(false),
        }
    }

    /// Takes the next word, which must be one of `options`.
    pub fn expect_word(&mut self, options: &[&str]) -> (r: Result<String, Error>)
        ensures
            final(self)@ == old(self)@.expect_word(views(options@)).0,
            result_view(r) == old(self)@.expect_word(views(options@)).1,
    {
        let word = self.take_word()?;
        if among(&word, options) {
            Ok(word)
        } else {
            Err(self.make_error(ParseError::UnexpectedWord { word, options: owned(options) }))
        }
    }

    /// The first of `options` that is no reserved symbol.
    fn find_unreserved(options: &[&str]) -> (r: Option<String>)
        ensures
            option_view(r) == first_unreserved(views(options@)),
    {
        let ghost all = views(options@);
        let mut i: usize = 0;
        proof {
            assert(all.skip(0) =~= all);
        }
        while i < options.len()
            invariant
                i <= options.len(),
                all == views(options@),
                first_unreserved(all) == first_unreserved(all.skip(i as int)),
            decreases options.len() - i,
        {
            assert(all.skip(i as int)[0] == options@[i as int]@);
            assert(all.skip(i as int).drop_first() =~= all.skip(i + 1));
            if !Self::is_reserved(options[i]) {
                return Some(options[i].to_owned());
            }
            i = i + 1;
        }
        None
    }

    /// Takes the next reserved symbol, which must be one of `options`.
    pub fn expect_reserved(&mut self, options: &[&str]) -> (r: Result<String, Error>)
        ensures
            final(self)@ == old(self)@.expect_reserved(views(options@)).0,
            result_view(r) == old(self)@.expect_reserved(views(options@)).1,
    {
        match Self::find_unreserved(options) {
            Some(text) => {
                return Err(self.make_error(ParseError::NotAReserved(text)));
            },
            None => {},
        }
        let reserved = self.take_reserved()?;
        if among(&reserved, options) {
            Ok(reserved)
        } else {
            Err(
                self.make_error(
                    ParseError::UnexpectedReserved { reserved, options: owned(options) },
                ),
            )
        }
    }

    /// Takes the next reserved symbol, which must be `symbol`.
    pub fn expect_symbol(&mut self, symbol: &str) -> (r: Result<String, Error>)
        ensures
            final(self)@ == old(self)@.expect_reserved(seq![symbol@]).0,
            result_view(r) == old(self)@.expect_reserved(seq![symbol@]).1,
    {
        let options = [symbol];
        assert(views(options@) =~= seq![symbol@]);
        self.expect_reserved(&options)
    }

    /// Takes the next word and reads it as a number of type `T`.
    pub fn expect_num<T: Number>(&mut self) -> (r: Result<T, Error>)
        ensures
            final(self)@ == old(self)@.expect_num::<T>().0,
            match r {
                Ok(n) => old(self)@.expect_num::<T>().1 == Ok::<nat, ErrorView>(n.value()),
                Err(e) => old(self)@.expect_num::<T>().1 == Err::<nat, ErrorView>(e@),
            },
    {
        let word = self.take_word()?;
        let n = word.as_str().unicode_len();
        let mut radix: u32 = 10;
        if n >= 2 && word.as_str().get_char(0) == '0' {
            let mark = word.as_str().get_char(1);
            if mark == 'b' {
                radix = 2;
            } else if mark == 'o' {
                radix = 8;
            } else if mark == 'x' {
                radix = 16;
            }
        }
        let digits: &str = if radix == 10 {
            word.as_str()
        } else {
            word.as_str().substring_char(2, n)
        };
        assert(digits@ =~= radix_split(word@).1);
        match T::from_str_radix(digits, radix) {
            Ok(n) => Ok(n),
            Err(e) => Err(
                self.make_error(
                    ParseError::InvalidNumber {
                        word: digits.to_owned(),
                        num_type: T::type_label(),
                        e,
                    },
                ),
            ),
        }
    }
}

} // verus!
