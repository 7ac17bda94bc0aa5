//! Operations on text: the few that are taken on trust from the standard
//! library and from `itertools`, and small helpers that are built on them.

use crate::model::views;
use itertools::Itertools;
use vstd::prelude::*;
use vstd::string::StringExecFns;

verus! {

/// Whether a character is white space in the sense of `char::is_whitespace`,
/// that is, has the Unicode property `White_Space`.
pub uninterp spec fn whitespace(c: char) -> bool;

/// `char::is_whitespace`. Trusted: the answer is a fixed property of the
/// character, which the library knows only by this name.
#[verifier::external_body]
pub(crate) fn is_whitespace(c: char) -> (b: bool)
    ensures
        b == whitespace(c),
{
    c.is_whitespace()
}

/// `Itertools::collect_vec` on the characters of a string. Trusted: it
/// collects every item of the iterator in order, and `str::chars` yields the
/// characters of the string, so the vector holds exactly the string's
/// characters.
#[verifier::external_body]
pub(crate) fn chars_of(text: &str) -> (chars: Vec<char>)
    ensures
        chars@ == text@,
{
    text.chars().collect_vec()
}

/// `String::push`. Trusted: it appends the one character to the end.
#[verifier::external_body]
pub(crate) fn push_char(text: &mut String, c: char)
    ensures
        final(text)@ == old(text)@.push(c),
{
    text.push(c)
}

/// The texts of `parts` in order, with `separator` between each two.
pub open spec fn joined(parts: Seq<Seq<char>>, separator: Seq<char>) -> Seq<char>
    decreases parts.len(),
{
    if parts.len() == 0 {
        Seq::empty()
    } else if parts.len() == 1 {
        parts[0]
    } else {
        joined(parts.drop_last(), separator) + separator + parts.last()
    }
}

/// `Itertools::join` on the strings of a list. Trusted: it writes out the
/// first item, and then for each further item the separator and the item; a
/// string is written out as itself; for no items the result is empty.
#[verifier::external_body]
pub(crate) fn join(parts: &Vec<String>, separator: &str) -> (text: String)
    ensures
        text@ == joined(Seq::new(parts@.len(), |i: int| parts@[i]@), separator@),
{
    parts.iter().join(separator)
}

/// The text that `{:?}` prints for a list of strings: the items in double
/// quotes with their special characters escaped, separated by `, `, between
/// square brackets.
pub uninterp spec fn debug_strings(items: Seq<Seq<char>>) -> Seq<char>;

/// The text that `{:?}` prints for a list of characters: the items in single
/// quotes with the special ones escaped, separated by `, `, between square
/// brackets.
pub uninterp spec fn debug_chars(items: Seq<char>) -> Seq<char>;

/// `Debug` formatting of a `Vec<String>`. Trusted: the text is a fixed
/// function of the strings, which the library knows only by name.
#[verifier::external_body]
pub(crate) fn show_strings(items: &Vec<String>) -> (text: String)
    ensures
        text@ == debug_strings(Seq::new(items@.len(), |i: int| items@[i]@)),
{
    format!("{:?}", items)
}

/// `Debug` formatting of a `Vec<char>`. Trusted: the text is a fixed function
/// of the characters, which the library knows only by name.
#[verifier::external_body]
pub(crate) fn show_chars(items: &Vec<char>) -> (text: String)
    ensures
        text@ == debug_chars(items@),
{
    format!("{:?}", items)
}

/// The character of a decimal digit.
pub open spec fn digit_char(digit: nat) -> char {
    if digit == 0 {
        '0'
    } else if digit == 1 {
        '1'
    } else if digit == 2 {
        '2'
    } else if digit == 3 {
        '3'
    } else if digit == 4 {
        '4'
    } else if digit == 5 {
        '5'
    } else if digit == 6 {
        '6'
    } else if digit == 7 {
        '7'
    } else if digit == 8 {
        '8'
    } else {
        '9'
    }
}

/// A number written in decimal digits, without leading zeroes.
pub open spec fn decimal(n: nat) -> Seq<char>
    decreases n,
{
    if n < 10 {
        seq![digit_char(n)]
    } else {
        decimal(n / 10).push(digit_char(n % 10))
    }
}

fn digit(d: usize) -> (c: char)
    requires
        d < 10,
    ensures
        c == digit_char(d as nat),
{
    if d == 0 {
        '0'
    } else if d == 1 {
        '1'
    } else if d == 2 {
        '2'
    } else if d == 3 {
        '3'
    } else if d == 4 {
        '4'
    } else if d == 5 {
        '5'
    } else if d == 6 {
        '6'
    } else if d == 7 {
        '7'
    } else if d == 8 {
        '8'
    } else {
        '9'
    }
}

/// Writes a number in decimal digits.
pub fn decimal_text(n: usize) -> (text: String)
    ensures
        text@ == decimal(n as nat),
{
    let mut low: Vec<char> = Vec::new();
    let mut m: usize = n;
    while m >= 10
        invariant
            decimal(n as nat) == decimal(m as nat) + low@.reverse(),
        decreases m,
    {
        let ghost before = low@;
        low.push(digit(m % 10));
        proof {
            assert(decimal(m as nat) == decimal((m / 10) as nat).push(digit_char((m % 10) as nat)));
            assert(low@.reverse() =~= seq![digit_char((m % 10) as nat)] + before.reverse());
            assert(decimal((m / 10) as nat).push(digit_char((m % 10) as nat)) + before.reverse()
                =~= decimal((m / 10) as nat) + low@.reverse());
        }
        m = m / 10;
    }
    let mut text = String::new();
    push_char(&mut text, digit(m));
    assert(text@ =~= decimal(m as nat));
    let mut i: usize = low.len();
    assert(low@.reverse().take(0) =~= Seq::<char>::empty());
    while i > 0
        invariant
            i <= low.len(),
            text@ == decimal(m as nat) + low@.reverse().take(low.len() - i),
        decreases i,
    {
        i = i - 1;
        push_char(&mut text, low[i]);
        proof {
            let r = low@.reverse();
            let k = low.len() - i - 1;
            assert(r[k] == low@[i as int]);
            assert(r.take(k).push(r[k]) =~= r.take(k + 1));
            assert(text@ =~= decimal(m as nat) + r.take(k + 1));
        }
    }
    assert(low@.reverse().take(low.len() as int) =~= low@.reverse());
    text
}

/// Three texts one after the other.
pub fn glue3(a: &str, b: &str, c: &str) -> (text: String)
    ensures
        text@ == a@ + b@ + c@,
{
    let mut text = a.to_owned();
    text.append(b);
    text.append(c);
    text
}

/// Five texts one after the other.
pub fn glue5(a: &str, b: &str, c: &str, d: &str, e: &str) -> (text: String)
    ensures
        text@ == a@ + b@ + c@ + d@ + e@,
{
    let mut text = a.to_owned();
    text.append(b);
    text.append(c);
    text.append(d);
    text.append(e);
    text
}

/// Whether a string holds exactly the characters of `literal`.
pub fn text_is(text: &String, literal: &str) -> (same: bool)
    ensures
        same == (text@ == literal@),
{
    let other = literal.to_owned();
    *text == other
}

/// Copies a list of texts.
pub(crate) fn owned(options: &[&str]) -> (copy: Vec<String>)
    ensures
        views(copy@) == views(options@),
{
    let mut copy: Vec<String> = Vec::new();
    let mut i: usize = 0;
    while i < options.len()
        invariant
            i <= options.len(),
            copy.len() == i,
            forall|k: int| 0 <= k < i ==> copy@[k]@ == options@[k]@,
        decreases options.len() - i,
    {
        copy.push(options[i].to_owned());
        i = i + 1;
    }
    assert(views(copy@) =~= views(options@));
    copy
}

/// Whether `text` is among `options`.
pub(crate) fn among(text: &String, options: &[&str]) -> (found: bool)
    ensures
        found == views(options@).contains(text@),
{
    let mut i: usize = 0;
    while i < options.len()
        invariant
            i <= options.len(),
            forall|k: int| 0 <= k < i ==> options@[k]@ != text@,
        decreases options.len() - i,
    {
        if text_is(text, options[i]) {
            assert(views(options@)[i as int] == text@);
            return true;
        }
        i = i + 1;
    }
    false
}

} // verus!
