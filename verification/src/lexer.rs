//! The lexer: from the text of a BB file to its basic tokens.
//!
//! Positions are raw: every character, carriage returns and tabs included,
//! takes one column, and only a line feed starts a new line. Lines and columns
//! count from 1. Nothing is normalised before positions are counted.

use crate::generator::BBFile;
use crate::model::{lemma_views_push, views};
use crate::rect::CharRect;
use crate::text::{chars_of, is_whitespace, push_char, whitespace};
use vstd::prelude::*;

verus! {

/// What a basic token is: a word, a reserved symbol, or a comment, each with
/// its text.
#[derive(Debug)]
pub enum BasicTokenVariant {
    Word(String),
    Reserved(String),
    Comment(String),
}

/// The lexer's unit of output: a word, reserved symbol or comment, and the
/// span of source text it was read from.
#[derive(Debug)]
pub struct BasicToken {
    pub variant: BasicTokenVariant,
    pub char_rect: CharRect,
}

/// The mathematical value of a [`BasicTokenVariant`].
pub enum Lexeme {
    Word(Seq<char>),
    Reserved(Seq<char>),
    Comment(Seq<char>),
}

/// The mathematical value of a [`BasicToken`].
pub struct Basic {
    pub lexeme: Lexeme,
    pub rect: CharRect,
}

impl View for BasicTokenVariant {
    type V = Lexeme;

    open spec fn view(&self) -> Lexeme {
        match self {
            BasicTokenVariant::Word(text) => Lexeme::Word(text@),
            BasicTokenVariant::Reserved(text) => Lexeme::Reserved(text@),
            BasicTokenVariant::Comment(text) => Lexeme::Comment(text@),
        }
    }
}

impl View for BasicToken {
    type V = Basic;

    open spec fn view(&self) -> Basic {
        Basic { lexeme: self.variant@, rect: self.char_rect }
    }
}

/// The characters that end a word and start a reserved symbol.
pub open spec fn is_reserved_char(c: char) -> bool {
    c == '/' || c == '*' || c == ':' || c == '=' || c == ',' || c == '[' || c == ']' || c == '{'
        || c == '}' || c == '(' || c == ')' || c == '<' || c == '>'
}

/// The reserved symbols of two characters: `//`, `/*`, `*/` and `::`.
pub open spec fn is_pair(a: char, b: char) -> bool {
    (a == '/' && b == '/') || (a == '/' && b == '*') || (a == '*' && b == '/') || (a == ':' && b
        == ':')
}

/// White space, the line feed included.
pub open spec fn is_blank(c: char) -> bool {
    c == '\n' || whitespace(c)
}

/// How many line feeds stand before index `i`.
pub open spec fn newlines_before(chars: Seq<char>, i: int) -> int
    decreases i,
{
    if i <= 0 {
        0
    } else if chars[i - 1] == '\n' {
        newlines_before(chars, i - 1) + 1
    } else {
        newlines_before(chars, i - 1)
    }
}

/// The index at which the line of index `i` starts.
pub open spec fn line_start(chars: Seq<char>, i: int) -> int
    decreases i,
{
    if i <= 0 {
        0
    } else if chars[i - 1] == '\n' {
        i
    } else {
        line_start(chars, i - 1)
    }
}

/// Line and column of the character at index `i`, both counted from 1.
pub open spec fn position(chars: Seq<char>, i: int) -> (usize, usize) {
    ((newlines_before(chars, i) + 1) as usize, (i - line_start(chars, i) + 1) as usize)
}

/// The span from the character at `first` to the character at `last`.
pub open spec fn span(chars: Seq<char>, first: int, last: int) -> CharRect {
    CharRect::between(position(chars, first), position(chars, last))
}

/// The first index from `i` on that holds a line feed, or the length.
pub open spec fn line_end(chars: Seq<char>, i: int) -> int
    decreases chars.len() - i,
{
    if i >= chars.len() || chars[i] == '\n' {
        i
    } else {
        line_end(chars, i + 1)
    }
}

/// The first index from `i` on at which `*/` starts, or the length.
pub open spec fn block_end(chars: Seq<char>, i: int) -> int
    decreases chars.len() - i,
{
    if i >= chars.len() || (chars[i] == '*' && i + 1 < chars.len() && chars[i + 1] == '/') {
        i
    } else {
        block_end(chars, i + 1)
    }
}

/// The first index from `i` on that holds white space or a reserved
/// character, or the length.
pub open spec fn word_end(chars: Seq<char>, i: int) -> int
    decreases chars.len() - i,
{
    if i >= chars.len() || is_blank(chars[i]) || is_reserved_char(chars[i]) {
        i
    } else {
        word_end(chars, i + 1)
    }
}

/// `text` without its carriage returns.
pub open spec fn without_cr(text: Seq<char>) -> Seq<char>
    decreases text.len(),
{
    if text.len() == 0 {
        text
    } else if text.last() == '\r' {
        without_cr(text.drop_last())
    } else {
        without_cr(text.drop_last()).push(text.last())
    }
}

/// The token that starts at index `i`, which holds no white space, and the
/// index behind it.
///
/// - `//` starts a comment that runs up to the end of the line; its text
///   leaves out carriage returns.
/// - `/*` starts a comment that runs through the next `*/`, or to the end of
///   the text; its text leaves out the closing `*/`.
/// - Any other reserved character starts a reserved symbol: the longest one
///   that stands there, two characters or one.
/// - Anything else starts a word, which runs up to the next white space or
///   reserved character.
pub open spec fn token_at(chars: Seq<char>, i: int) -> (Basic, int) {
    let c = chars[i];
    if is_reserved_char(c) {
        if i + 1 < chars.len() && c == '/' && chars[i + 1] == '/' {
            let j = line_end(chars, i + 2);
            let text = seq!['/', '/'] + without_cr(chars.subrange(i + 2, j));
            (Basic { lexeme: Lexeme::Comment(text), rect: span(chars, i, j - 1) }, j)
        } else if i + 1 < chars.len() && c == '/' && chars[i + 1] == '*' {
            let k = block_end(chars, i + 2);
            let text = seq!['/', '*'] + chars.subrange(i + 2, k);
            if k < chars.len() {
                (Basic { lexeme: Lexeme::Comment(text), rect: span(chars, i, k + 1) }, k + 2)
            } else {
                (Basic { lexeme: Lexeme::Comment(text), rect: span(chars, i, k - 1) }, k)
            }
        } else if i + 1 < chars.len() && is_pair(c, chars[i + 1]) {
            (
                Basic { lexeme: Lexeme::Reserved(seq![c, chars[i + 1]]), rect: span(chars, i, i + 1) },
                i + 2,
            )
        } else {
            (Basic { lexeme: Lexeme::Reserved(seq![c]), rect: span(chars, i, i) }, i + 1)
        }
    } else {
        let j = word_end(chars, i + 1);
        (Basic { lexeme: Lexeme::Word(chars.subrange(i, j)), rect: span(chars, i, j - 1) }, j)
    }
}

/// The tokens of `chars` from index `i` on.
pub open spec fn lex_from(chars: Seq<char>, i: int) -> Seq<Basic>
    decreases chars.len() - i,
{
    if i < 0 || i >= chars.len() {
        Seq::empty()
    } else if is_blank(chars[i]) {
        lex_from(chars, i + 1)
    } else {
        proof {
            lemma_token_at_advances(chars, i);
        }
        seq![token_at(chars, i).0] + lex_from(chars, token_at(chars, i).1)
    }
}

/// The tokens of a text.
pub open spec fn lex(chars: Seq<char>) -> Seq<Basic> {
    lex_from(chars, 0)
}

pub proof fn lemma_line_end_bounds(chars: Seq<char>, i: int)
    requires
        0 <= i <= chars.len(),
    ensures
        i <= line_end(chars, i) <= chars.len(),
        forall|k: int| i <= k < line_end(chars, i) ==> chars[k] != '\n',
    decreases chars.len() - i,
{
    if i < chars.len() && chars[i] != '\n' {
        lemma_line_end_bounds(chars, i + 1);
    }
}

pub proof fn lemma_block_end_bounds(chars: Seq<char>, i: int)
    requires
        0 <= i <= chars.len(),
    ensures
        i <= block_end(chars, i) <= chars.len(),
        block_end(chars, i) < chars.len() ==> block_end(chars, i) + 1 < chars.len(),
    decreases chars.len() - i,
{
    if !(i >= chars.len() || (chars[i] == '*' && i + 1 < chars.len() && chars[i + 1] == '/')) {
        lemma_block_end_bounds(chars, i + 1);
    }
}

pub proof fn lemma_word_end_bounds(chars: Seq<char>, i: int)
    requires
        0 <= i <= chars.len(),
    ensures
        i <= word_end(chars, i) <= chars.len(),
        forall|k: int| i <= k < word_end(chars, i) ==> chars[k] != '\n',
    decreases chars.len() - i,
{
    if !(i >= chars.len() || is_blank(chars[i]) || is_reserved_char(chars[i])) {
        lemma_word_end_bounds(chars, i + 1);
    }
}

/// Every token takes at least one character and ends within the text.
pub proof fn lemma_token_at_advances(chars: Seq<char>, i: int)
    requires
        0 <= i < chars.len(),
    ensures
        i < token_at(chars, i).1 <= chars.len(),
{
    if i + 2 <= chars.len() {
        lemma_line_end_bounds(chars, i + 2);
        lemma_block_end_bounds(chars, i + 2);
    }
    lemma_word_end_bounds(chars, i + 1);
}

/// Where no line feed stands between two indices, both are on one line.
pub proof fn lemma_same_line(chars: Seq<char>, i: int, k: int)
    requires
        0 <= i <= k,
        forall|m: int| i <= m < k ==> chars[m] != '\n',
    ensures
        newlines_before(chars, k) == newlines_before(chars, i),
        line_start(chars, k) == line_start(chars, i),
    decreases k - i,
{
    if i < k {
        lemma_same_line(chars, i, k - 1);
    }
}

/// Line feeds and line starts never run ahead of the index.
pub proof fn lemma_position_bounds(chars: Seq<char>, i: int)
    requires
        0 <= i,
    ensures
        0 <= newlines_before(chars, i) <= i,
        0 <= line_start(chars, i) <= i,
    decreases i,
{
    if i > 0 {
        lemma_position_bounds(chars, i - 1);
    }
}

/// Lexing is a function of the text alone: whenever the same text is split
/// twice, the two outcomes are the same tokens with the same spans.
pub proof fn lemma_lexing_is_deterministic(
    a: BBFile,
    b: BBFile,
    first: Vec<BasicToken>,
    second: Vec<BasicToken>,
)
    requires
        a.contents@ == b.contents@,
        views(first@) == lex(a.contents@),
        views(second@) == lex(b.contents@),
    ensures
        views(first@) == views(second@),
{
}

fn reserved_char(c: char) -> (b: bool)
    ensures
        b == is_reserved_char(c),
{
    c == '/' || c == '*' || c == ':' || c == '=' || c == ',' || c == '[' || c == ']' || c == '{'
        || c == '}' || c == '(' || c == ')' || c == '<' || c == '>'
}

fn pair(a: char, b: char) -> (r: bool)
    ensures
        r == is_pair(a, b),
{
    (a == '/' && b == '/') || (a == '/' && b == '*') || (a == '*' && b == '/') || (a == ':' && b
        == ':')
}

fn blank(c: char) -> (b: bool)
    ensures
        b == is_blank(c),
{
    c == '\n' || is_whitespace(c)
}

/// Line and column of index `i`, from the count of line feeds before it and
/// the start of its line.
fn locate(i: usize, newlines: usize, start: usize) -> (p: (usize, usize))
    requires
        newlines <= i,
        start <= i,
        i < usize::MAX,
    ensures
        p.0 == newlines + 1,
        p.1 == i - start + 1,
{
    (newlines + 1, i - start + 1)
}

/// Reads the word that starts at `i`.
fn scan_word(chars: &Vec<char>, i: usize) -> (r: (String, usize))
    requires
        i < chars.len(),
        !is_blank(chars[i as int]),
    ensures
        r.1 == word_end(chars@, i + 1),
        i < r.1 <= chars.len(),
        r.0@ == chars@.subrange(i as int, r.1 as int),
        forall|k: int| i <= k < r.1 ==> chars[k] != '\n',
{
    let mut text = String::new();
    push_char(&mut text, chars[i]);
    let mut j: usize = i + 1;
    assert(text@ =~= chars@.subrange(i as int, j as int));
    while j < chars.len() && !blank(chars[j]) && !reserved_char(chars[j])
        invariant
            i < j <= chars.len(),
            word_end(chars@, j as int) == word_end(chars@, i + 1),
            text@ == chars@.subrange(i as int, j as int),
            forall|k: int| i <= k < j ==> chars[k] != '\n',
        decreases chars.len() - j,
    {
        push_char(&mut text, chars[j]);
        assert(chars@.subrange(i as int, j as int).push(chars[j as int]) =~= chars@.subrange(
            i as int,
            j + 1,
        ));
        j = j + 1;
    }
    (text, j)
}

/// Reads the line comment whose `//` starts at `i`.
fn scan_line_comment(chars: &Vec<char>, i: usize) -> (r: (String, usize))
    requires
        i + 1 < chars.len(),
        chars[i as int] == '/',
        chars[i + 1] == '/',
    ensures
        r.1 == line_end(chars@, i + 2),
        i + 2 <= r.1 <= chars.len(),
        r.0@ == seq!['/', '/'] + without_cr(chars@.subrange(i + 2, r.1 as int)),
        forall|k: int| i <= k < r.1 ==> chars[k] != '\n',
{
    let mut text = String::new();
    push_char(&mut text, '/');
    push_char(&mut text, '/');
    let mut j: usize = i + 2;
    assert(chars@.subrange(i + 2, j as int) =~= Seq::<char>::empty());
    assert(text@ =~= seq!['/', '/'] + without_cr(chars@.subrange(i + 2, j as int)));
    while j < chars.len() && chars[j] != '\n'
        invariant
            i + 2 <= j <= chars.len(),
            chars[i as int] == '/',
            chars[i + 1] == '/',
            line_end(chars@, j as int) == line_end(chars@, i + 2),
            text@ == seq!['/', '/'] + without_cr(chars@.subrange(i + 2, j as int)),
            forall|k: int| i <= k < j ==> chars[k] != '\n',
        decreases chars.len() - j,
    {
        let ghost before = chars@.subrange(i + 2, j as int);
        let ghost after = chars@.subrange(i + 2, j + 1);
        assert(after.drop_last() =~= before);
        assert(after.last() == chars[j as int]);
        if chars[j] != '\r' {
            push_char(&mut text, chars[j]);
            assert(text@ =~= seq!['/', '/'] + without_cr(after));
        }
        j = j + 1;
    }
    (text, j)
}

/// What reading a block comment yields: its text, the index behind it, the
/// position of its last character, and the line bookkeeping at that index.
struct BlockScan {
    text: String,
    next: usize,
    end: (usize, usize),
    newlines: usize,
    start: usize,
}

/// Reads the block comment whose `/*` starts at `i`.
fn scan_block_comment(chars: &Vec<char>, i: usize, newlines: usize, start: usize) -> (r: BlockScan)
    requires
        i + 1 < chars.len(),
        chars[i as int] == '/',
        chars[i + 1] == '*',
        newlines == newlines_before(chars@, i as int),
        start == line_start(chars@, i as int),
    ensures
        r.text@ == seq!['/', '*'] + chars@.subrange(i + 2, block_end(chars@, i + 2)),
        r.next == token_at(chars@, i as int).1,
        i + 2 <= r.next <= chars.len(),
        r.end == token_at(chars@, i as int).0.rect.spec_end(),
        r.newlines == newlines_before(chars@, r.next as int),
        r.start == line_start(chars@, r.next as int),
{
    let mut text = String::new();
    push_char(&mut text, '/');
    push_char(&mut text, '*');
    let mut newlines = newlines;
    let mut start = start;
    let mut k: usize = i + 2;
    proof {
        lemma_position_bounds(chars@, i as int);
        assert(forall|m: int| i <= m < i + 2 ==> chars[m] != '\n');
        lemma_same_line(chars@, i as int, i + 1);
        lemma_same_line(chars@, i as int, i + 2);
    }
    let mut end = locate(i + 1, newlines, start);
    assert(chars@.subrange(i + 2, k as int) =~= Seq::<char>::empty());
    assert(text@ =~= seq!['/', '*'] + chars@.subrange(i + 2, k as int));
    while k < chars.len() && !(chars[k] == '*' && k + 1 < chars.len() && chars[k + 1] == '/')
        invariant
            i + 2 <= k <= chars.len(),
            block_end(chars@, k as int) == block_end(chars@, i + 2),
            text@ == seq!['/', '*'] + chars@.subrange(i + 2, k as int),
            newlines == newlines_before(chars@, k as int),
            start == line_start(chars@, k as int),
            end == position(chars@, k - 1),
        decreases chars.len() - k,
    {
        proof {
            lemma_position_bounds(chars@, k as int);
        }
        end = locate(k, newlines, start);
        if chars[k] == '\n' {
            newlines = newlines + 1;
            start = k + 1;
        }
        push_char(&mut text, chars[k]);
        assert(chars@.subrange(i + 2, k as int).push(chars[k as int]) =~= chars@.subrange(
            i + 2,
            k + 1,
        ));
        k = k + 1;
    }
    if k < chars.len() {
        proof {
            lemma_position_bounds(chars@, k as int);
            assert(forall|m: int| k <= m < k + 2 ==> chars[m] != '\n');
            lemma_same_line(chars@, k as int, k + 1);
            lemma_same_line(chars@, k as int, k + 2);
        }
        let end = locate(k + 1, newlines, start);
        BlockScan { text, next: k + 2, end, newlines, start }
    } else {
        BlockScan { text, next: k, end, newlines, start }
    }
}

/// Splits the text of a file into its basic tokens, in order.
pub fn split_to_basics(file: &BBFile) -> (basics: Vec<BasicToken>)
    ensures
        views(basics@) == lex(file.contents@),
{
    let chars = chars_of(file.contents.as_str());
    let mut basics: Vec<BasicToken> = Vec::new();
    let mut i: usize = 0;
    let mut newlines: usize = 0;
    let mut start: usize = 0;
    assert(views(basics@) + lex_from(chars@, 0) =~= lex_from(chars@, 0));
    while i < chars.len()
        invariant
            i <= chars.len(),
            chars@ == file.contents@,
            newlines == newlines_before(chars@, i as int),
            start == line_start(chars@, i as int),
            views(basics@) + lex_from(chars@, i as int) == lex(chars@),
        decreases chars.len() - i,
    {
        let c = chars[i];
        proof {
            lemma_position_bounds(chars@, i as int);
            lemma_token_at_advances(chars@, i as int);
        }
        if c == '\n' {
            newlines = newlines + 1;
            start = i + 1;
            i = i + 1;
        } else if is_whitespace(c) {
            i = i + 1;
        } else {
            let ghost expected = token_at(chars@, i as int);
            let ghost done = views(basics@);
            let begin = locate(i, newlines, start);
            let token: BasicToken;
            let next: usize;
            if reserved_char(c) {
                if i + 1 < chars.len() && c == '/' && chars[i + 1] == '/' {
                    let (text, j) = scan_line_comment(&chars, i);
                    proof {
                        lemma_same_line(chars@, i as int, j - 1);
                        lemma_same_line(chars@, i as int, j as int);
                    }
                    let end = locate(j - 1, newlines, start);
                    token =
                    BasicToken {
                        variant: BasicTokenVariant::Comment(text),
                        char_rect: CharRect::new(begin, end),
                    };
                    next = j;
                } else if i + 1 < chars.len() && c == '/' && chars[i + 1] == '*' {
                    let scan = scan_block_comment(&chars, i, newlines, start);
                    token =
                    BasicToken {
                        variant: BasicTokenVariant::Comment(scan.text),
                        char_rect: CharRect::new(begin, scan.end),
                    };
                    next = scan.next;
                    newlines = scan.newlines;
                    start = scan.start;
                } else if i + 1 < chars.len() && pair(c, chars[i + 1]) {
                    let mut text = String::new();
                    push_char(&mut text, c);
                    push_char(&mut text, chars[i + 1]);
                    assert(text@ =~= seq![c, chars[i + 1]]);
                    proof {
                        assert(forall|m: int| i <= m < i + 2 ==> chars[m] != '\n');
                        lemma_same_line(chars@, i as int, i + 1);
                        lemma_same_line(chars@, i as int, i + 2);
                    }
                    let end = locate(i + 1, newlines, start);
                    token =
                    BasicToken {
                        variant: BasicTokenVariant::Reserved(text),
                        char_rect: CharRect::new(begin, end),
                    };
                    next = i + 2;
                } else {
                    let mut text = String::new();
                    push_char(&mut text, c);
                    assert(text@ =~= seq![c]);
                    proof {
                        lemma_same_line(chars@, i as int, i + 1);
                    }
                    token =
                    BasicToken {
                        variant: BasicTokenVariant::Reserved(text),
                        char_rect: CharRect::new(begin, begin),
                    };
                    next = i + 1;
                }
            } else {
                let (text, j) = scan_word(&chars, i);
                proof {
                    lemma_same_line(chars@, i as int, j - 1);
                    lemma_same_line(chars@, i as int, j as int);
                }
                let end = locate(j - 1, newlines, start);
                token =
                BasicToken {
                    variant: BasicTokenVariant::Word(text),
                    char_rect: CharRect::new(begin, end),
                };
                next = j;
            }
            assert(token@ == expected.0);
            assert(next == expected.1);
            proof {
                lemma_views_push(basics@, token);
            }
            basics.push(token);
            i = next;
        }
    }
    basics
}

} // verus!
