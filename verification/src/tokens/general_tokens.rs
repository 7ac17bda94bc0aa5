//! The nodes that every kind of declaration shares: names, module paths,
//! lists, types, variables and functions.

use crate::error::{Error, ErrorView, ParseError, ParseErrorView};
use crate::model::{lemma_views_push, option_view, result_view, views};
use crate::parser::{
    lemma_records_chain, lemma_records_framed, lemma_records_same, lemma_records_takes,
    lemma_takes, records, span_of, Cursor, Parser,
};
use crate::rect::CharRect;
use crate::text::{decimal, decimal_text, glue3, glue5, join, joined, text_is};
use crate::tokens::{
    assigned, close_frame, lemma_assigned_records, lemma_assigned_takes, lemma_token_records,
    lemma_token_takes, prepend, read_assigned, with_rect, wrap, Element, FromWord, Token,
};
use vstd::prelude::*;
use vstd::string::StringExecFns;

verus! {

/// A bare name.
#[derive(Debug)]
pub struct NameToken {
    pub name: String,
    pub char_rect: CharRect,
}

/// The mathematical value of a [`NameToken`].
pub struct NameView {
    pub name: Seq<char>,
    pub char_rect: CharRect,
}

impl View for NameToken {
    type V = NameView;

    open spec fn view(&self) -> NameView {
        NameView { name: self.name@, char_rect: self.char_rect }
    }
}

impl Token for NameToken {
    open spec fn parse_spec(c: Cursor) -> (Cursor, Result<NameView, ErrorView>) {
        let after = c.take_word().0;
        match c.take_word().1 {
            Err(e) => (after, Err(e)),
            Ok(name) => match after.token_char_rect() {
                Err(e) => (after, Err(e)),
                Ok(char_rect) => (after, Ok(NameView { name, char_rect })),
            },
        }
    }

    open spec fn span(node: NameView) -> CharRect {
        node.char_rect
    }

    fn parse(parser: &mut Parser) -> (r: Result<Self, Error>) {
        let name = parser.take_word()?;
        let char_rect = parser.token_char_rect()?;
        Ok(NameToken { name, char_rect })
    }

    fn char_rect(&self) -> (rect: CharRect) {
        self.char_rect
    }

    open spec fn own_span() -> bool {
        true
    }

    proof fn lemma_parse_records(c: Cursor) {
        lemma_records_takes(c);
    }
}

impl Element for NameToken {
    proof fn lemma_parse_takes(c: Cursor) {
        lemma_takes(c);
    }
}

/// An ordered list of nodes of one kind, with the span of the whole list.
#[derive(Debug)]
pub struct ListToken<T> {
    pub items: Vec<T>,
    pub char_rect: CharRect,
}

/// The mathematical value of a [`ListToken`].
pub struct ListView<V> {
    pub items: Seq<V>,
    pub char_rect: CharRect,
}

impl<T: View> View for ListToken<T> {
    type V = ListView<T::V>;

    open spec fn view(&self) -> ListView<T::V> {
        ListView { items: views(self.items@), char_rect: self.char_rect }
    }
}

/// How a list begins.
pub enum Opened {
    /// The list was opened and closed at once: it has no elements.
    Empty,
    /// Elements follow; the symbol that closes the list, where one does.
    Open(Option<Seq<char>>),
}

/// The opening symbols of the bracket pairs `endings`.
pub open spec fn openings(endings: Seq<(Seq<char>, Seq<char>)>) -> Seq<Seq<char>> {
    Seq::new(endings.len(), |i: int| endings[i].0)
}

/// The closing symbol of the first pair of `endings` that `opening` opens.
pub open spec fn closing_for(endings: Seq<(Seq<char>, Seq<char>)>, opening: Seq<char>) -> Option<
    Seq<char>,
>
    decreases endings.len(),
{
    if endings.len() == 0 {
        None
    } else if endings[0].0 == opening {
        Some(endings[0].1)
    } else {
        closing_for(endings.drop_first(), opening)
    }
}

/// The start of a list. Without bracket pairs nothing is taken and elements
/// follow. With bracket pairs one of the opening symbols must come; where
/// its closing symbol comes right behind it, that is taken too and the list
/// is empty.
pub open spec fn list_open(c: Cursor, endings: Seq<(Seq<char>, Seq<char>)>) -> (
    Cursor,
    Result<Opened, ErrorView>,
) {
    if endings.len() == 0 {
        (c, Ok(Opened::Open(None)))
    } else {
        let after = c.expect_reserved(openings(endings)).0;
        match c.expect_reserved(openings(endings)).1 {
            Err(e) => (after, Err(e)),
            Ok(opening) => {
                let closing = closing_for(endings, opening);
                if closing is Some && after.peek_reserved() == closing {
                    (after.drop_reserved().0, Ok(Opened::Empty))
                } else {
                    (after, Ok(Opened::Open(closing)))
                }
            },
        }
    }
}

/// What follows an element of a list, and whether another element follows.
///
/// A delimiter that comes is taken. Then the closing symbol, where it comes,
/// is taken and ends the list, so that a delimiter may stand before it. A
/// list without closing symbol ends where no delimiter comes. Otherwise
/// another element follows, and a delimiter that is required and did not come
/// is an error.
pub open spec fn list_step(c: Cursor, closing: Option<Seq<char>>, delimiter: Option<Seq<char>>) -> (
    Cursor,
    Result<bool, ErrorView>,
) {
    let had_delimiter = delimiter is Some && c.peek_reserved() == delimiter;
    if delimiter is Some && !had_delimiter && closing is None {
        (c, Ok(false))
    } else {
        let after = if had_delimiter {
            c.drop_reserved().0
        } else {
            c
        };
        if closing is Some && after.peek_reserved() == closing {
            (after.drop_reserved().0, Ok(false))
        } else if delimiter is Some && !had_delimiter {
            (after, Err(after.make_error(ParseErrorView::ExpectedDelimiter(delimiter->0))))
        } else {
            (after, Ok(true))
        }
    }
}

/// What follows an element never adds to the input.
pub proof fn lemma_list_step_keeps(
    c: Cursor,
    closing: Option<Seq<char>>,
    delimiter: Option<Seq<char>>,
)
    ensures
        list_step(c, closing, delimiter).0.rest.len() <= c.rest.len(),
{
    lemma_takes(c);
    lemma_takes(c.drop_reserved().0);
}

/// The start of a list never adds to the input, and takes from it where there
/// are brackets.
pub proof fn lemma_list_open_takes(c: Cursor, endings: Seq<(Seq<char>, Seq<char>)>)
    ensures
        list_open(c, endings).0.rest.len() <= c.rest.len(),
        list_open(c, endings).1 is Ok && endings.len() > 0 ==> list_open(c, endings).0.rest.len()
            < c.rest.len(),
{
    lemma_takes(c);
    lemma_takes(c.expect_reserved(openings(endings)).0);
}

/// The elements of a list, from the first one on, up to and with what ends
/// the list.
pub open spec fn list_items<T: Element>(
    c: Cursor,
    closing: Option<Seq<char>>,
    delimiter: Option<Seq<char>>,
) -> (Cursor, Result<Seq<T::V>, ErrorView>)
    decreases c.rest.len(),
{
    let after = c.token::<T>().0;
    match c.token::<T>().1 {
        Err(e) => (after, Err(e)),
        Ok(item) => {
            let next = list_step(after, closing, delimiter).0;
            match list_step(after, closing, delimiter).1 {
                Err(e) => (next, Err(e)),
                Ok(more) => if more {
                    proof {
                        lemma_token_takes::<T>(c);
                        lemma_list_step_keeps(after, closing, delimiter);
                    }
                    prepend(seq![item], list_items::<T>(next, closing, delimiter))
                } else {
                    (next, Ok(seq![item]))
                },
            }
        },
    }
}

/// The elements of a list take at least one token.
pub proof fn lemma_list_items_takes<T: Element>(
    c: Cursor,
    closing: Option<Seq<char>>,
    delimiter: Option<Seq<char>>,
)
    ensures
        list_items::<T>(c, closing, delimiter).0.rest.len() <= c.rest.len(),
        list_items::<T>(c, closing, delimiter).1 is Ok ==> list_items::<T>(
            c,
            closing,
            delimiter,
        ).0.rest.len() < c.rest.len(),
    decreases c.rest.len(),
{
    lemma_token_takes::<T>(c);
    let after = c.token::<T>().0;
    if c.token::<T>().1 is Ok {
        lemma_list_step_keeps(after, closing, delimiter);
        let next = list_step(after, closing, delimiter).0;
        if list_step(after, closing, delimiter).1 == Ok::<bool, ErrorView>(true) {
            lemma_list_items_takes::<T>(next, closing, delimiter);
        }
    }
}

/// The list that `items` make, with the span of the node being read.
pub open spec fn list_close<V>(c: Cursor, items: Seq<V>) -> (Cursor, Result<ListView<V>, ErrorView>) {
    match c.token_char_rect() {
        Err(e) => (c, Err(e)),
        Ok(char_rect) => (c, Ok(ListView { items, char_rect })),
    }
}

/// A whole list: its start, its elements, and its span.
#[verifier::opaque]
pub open spec fn parse_with_full<T: Element>(
    c: Cursor,
    endings: Seq<(Seq<char>, Seq<char>)>,
    delimiter: Option<Seq<char>>,
) -> (Cursor, Result<ListView<T::V>, ErrorView>) {
    let after = list_open(c, endings).0;
    match list_open(c, endings).1 {
        Err(e) => (after, Err(e)),
        Ok(Opened::Empty) => list_close(after, Seq::empty()),
        Ok(Opened::Open(closing)) => {
            let end = list_items::<T>(after, closing, delimiter).0;
            match list_items::<T>(after, closing, delimiter).1 {
                Err(e) => (end, Err(e)),
                Ok(items) => list_close(end, items),
            }
        },
    }
}

/// A whole list takes at least one token.
pub proof fn lemma_parse_with_full_takes<T: Element>(
    c: Cursor,
    endings: Seq<(Seq<char>, Seq<char>)>,
    delimiter: Option<Seq<char>>,
)
    ensures
        parse_with_full::<T>(c, endings, delimiter).0.rest.len() <= c.rest.len(),
        parse_with_full::<T>(c, endings, delimiter).1 is Ok ==> parse_with_full::<T>(
            c,
            endings,
            delimiter,
        ).0.rest.len() < c.rest.len(),
{
    reveal(parse_with_full);
    lemma_list_open_takes(c, endings);
    let after = list_open(c, endings).0;
    match list_open(c, endings).1 {
        Ok(Opened::Open(closing)) => {
            lemma_list_items_takes::<T>(after, closing, delimiter);
        },
        _ => {},
    }
}

/// The start of a list records every token that it takes.
pub proof fn lemma_list_open_records(c: Cursor, endings: Seq<(Seq<char>, Seq<char>)>)
    ensures
        list_open(c, endings).1 is Ok ==> records(c, list_open(c, endings).0),
{
    lemma_records_same(c);
    lemma_records_takes(c);
    let after = c.expect_reserved(openings(endings)).0;
    lemma_records_takes(after);
    lemma_takes(after);
    lemma_records_chain(c, after, after.drop_reserved().0);
}

/// What follows an element records every token that it takes.
pub proof fn lemma_list_step_records(
    c: Cursor,
    closing: Option<Seq<char>>,
    delimiter: Option<Seq<char>>,
)
    ensures
        list_step(c, closing, delimiter).1 is Ok ==> records(c, list_step(c, closing, delimiter).0),
{
    lemma_records_same(c);
    lemma_records_takes(c);
    lemma_takes(c);
    let after = c.drop_reserved().0;
    lemma_records_takes(after);
    lemma_takes(after);
    lemma_records_chain(c, after, after.drop_reserved().0);
}

/// The elements of a list record every token that they take.
pub proof fn lemma_list_items_records<T: Element>(
    c: Cursor,
    closing: Option<Seq<char>>,
    delimiter: Option<Seq<char>>,
)
    ensures
        list_items::<T>(c, closing, delimiter).1 is Ok ==> records(
            c,
            list_items::<T>(c, closing, delimiter).0,
        ),
    decreases c.rest.len(),
{
    lemma_token_records::<T>(c);
    lemma_token_takes::<T>(c);
    let after = c.token::<T>().0;
    if c.token::<T>().1 is Ok {
        lemma_list_step_records(after, closing, delimiter);
        lemma_list_step_keeps(after, closing, delimiter);
        let next = list_step(after, closing, delimiter).0;
        lemma_records_chain(c, after, next);
        if list_step(after, closing, delimiter).1 == Ok::<bool, ErrorView>(true) {
            lemma_list_items_records::<T>(next, closing, delimiter);
            lemma_records_chain(c, next, list_items::<T>(next, closing, delimiter).0);
        }
    }
}

/// A whole list records every token that it takes, and its span is the span
/// of the frame it was read in.
pub proof fn lemma_parse_with_full_records<T: Element>(
    c: Cursor,
    endings: Seq<(Seq<char>, Seq<char>)>,
    delimiter: Option<Seq<char>>,
)
    ensures
        parse_with_full::<T>(c, endings, delimiter).1 matches Ok(list) ==> {
            &&& records(c, parse_with_full::<T>(c, endings, delimiter).0)
            &&& parse_with_full::<T>(c, endings, delimiter).0.frames.len() > 0
            &&& list.char_rect == span_of(
                parse_with_full::<T>(c, endings, delimiter).0.frames.last(),
            )
        },
{
    reveal(parse_with_full);
    lemma_list_open_records(c, endings);
    let after = list_open(c, endings).0;
    match list_open(c, endings).1 {
        Ok(Opened::Open(closing)) => {
            lemma_list_items_records::<T>(after, closing, delimiter);
            lemma_records_chain(c, after, list_items::<T>(after, closing, delimiter).0);
        },
        _ => {},
    }
}

/// The bracket pairs of a block: square brackets or braces.
pub open spec fn block_endings() -> Seq<(Seq<char>, Seq<char>)> {
    seq![("["@, "]"@), ("{"@, "}"@)]
}

/// How a list has begun, as the parser found it.
#[derive(Debug)]
pub enum ListStart {
    Empty,
    Open(Option<String>),
}

impl View for ListStart {
    type V = Opened;

    open spec fn view(&self) -> Opened {
        match self {
            ListStart::Empty => Opened::Empty,
            ListStart::Open(closing) => Opened::Open(option_view(*closing)),
        }
    }
}

/// Whether `next` holds exactly `text`.
fn holds(next: &Option<String>, text: &str) -> (same: bool)
    ensures
        same == (option_view(*next) == Some(text@)),
{
    match next {
        Some(found) => text_is(found, text),
        None => false,
    }
}

/// The closing symbol that belongs to `opening`.
fn find_closing(endings: &[(&str, &str)], opening: &String) -> (closing: Option<String>)
    ensures
        option_view(closing) == closing_for(views(endings@), opening@),
{
    let ghost all = views(endings@);
    let mut i: usize = 0;
    proof {
        assert(all.skip(0) =~= all);
    }
    while i < endings.len()
        invariant
            i <= endings.len(),
            all == views(endings@),
            closing_for(all, opening@) == closing_for(all.skip(i as int), opening@),
        decreases endings.len() - i,
    {
        assert(all.skip(i as int)[0] == endings@[i as int]@);
        assert(all.skip(i as int).drop_first() =~= all.skip(i + 1));
        if text_is(opening, endings[i].0) {
            return Some(endings[i].1.to_owned());
        }
        i = i + 1;
    }
    None
}

/// Reads the start of a list.
pub fn open_list(parser: &mut Parser, endings: &[(&str, &str)]) -> (r: Result<ListStart, Error>)
    ensures
        final(parser)@ == list_open(old(parser)@, views(endings@)).0,
        result_view(r) == list_open(old(parser)@, views(endings@)).1,
{
    if endings.len() == 0 {
        return Ok(ListStart::Open(None));
    }
    let mut options: Vec<&str> = Vec::new();
    let mut i: usize = 0;
    while i < endings.len()
        invariant
            i <= endings.len(),
            options.len() == i,
            forall|k: int| 0 <= k < i ==> options@[k]@ == endings@[k].0@,
        decreases endings.len() - i,
    {
        options.push(endings[i].0);
        i = i + 1;
    }
    assert(views(options@) =~= openings(views(endings@)));
    let opening = parser.expect_reserved(options.as_slice())?;
    let closing = find_closing(endings, &opening);
    let next = parser.peek_reserved();
    let at_end = match &closing {
        Some(text) => holds(&next, text.as_str()),
        None => false,
    };
    if at_end {
        proof {
            lemma_takes(parser@);
        }
        parser.drop_reserved()?;
        Ok(ListStart::Empty)
    } else {
        Ok(ListStart::Open(closing))
    }
}

/// Reads what follows an element of a list, and says whether another element
/// follows.
pub fn step_list(parser: &mut Parser, closing: &Option<String>, delimiter: Option<&str>) -> (r:
    Result<bool, Error>)
    ensures
        final(parser)@ == list_step(old(parser)@, option_view(*closing), option_view(delimiter)).0,
        match r {
            Ok(more) => list_step(old(parser)@, option_view(*closing), option_view(delimiter)).1
                == Ok::<bool, ErrorView>(more),
            Err(e) => list_step(old(parser)@, option_view(*closing), option_view(delimiter)).1
                == Err::<bool, ErrorView>(e@),
        },
{
    let mut next = parser.peek_reserved();
    let mut had_delimiter = false;
    match delimiter {
        Some(text) => {
            if holds(&next, text) {
                proof {
                    lemma_takes(parser@);
                }
                parser.drop_reserved()?;
                next = parser.peek_reserved();
                had_delimiter = true;
            } else if closing.is_none() {
                return Ok(false);
            }
        },
        None => {},
    }
    match closing {
        Some(text) => {
            if holds(&next, text.as_str()) {
                proof {
                    lemma_takes(parser@);
                }
                parser.drop_reserved()?;
                return Ok(false);
            }
        },
        None => {},
    }
    match delimiter {
        Some(text) => {
            if !had_delimiter {
                return Err(parser.make_error(ParseError::ExpectedDelimiter(text.to_owned())));
            }
        },
        None => {},
    }
    Ok(true)
}

impl<T: Element> ListToken<T> {
    /// Reads a list with the bracket pairs `endings` (none for a list without
    /// brackets) and the delimiter `delimiter` (none for a list whose
    /// elements simply follow each other).
    #[verifier::loop_isolation(false)]
    pub fn parse_with_full(parser: &mut Parser, endings: &[(&str, &str)], delimiter: Option<&str>) -> (r:
        Result<Self, Error>)
        ensures
            final(parser)@ == parse_with_full::<T>(
                old(parser)@,
                views(endings@),
                option_view(delimiter),
            ).0,
            result_view(r) == parse_with_full::<T>(
                old(parser)@,
                views(endings@),
                option_view(delimiter),
            ).1,
    {
        reveal(parse_with_full);
        let closing = match open_list(parser, endings)? {
            ListStart::Empty => {
                let char_rect = parser.token_char_rect()?;
                let list = ListToken { items: Vec::new(), char_rect };
                assert(list@.items =~= Seq::<T::V>::empty());
                return Ok(list);
            },
            ListStart::Open(closing) => closing,
        };
        let ghost start = parser@;
        let ghost close = option_view(closing);
        let ghost delim = option_view(delimiter);
        let mut items: Vec<T> = Vec::new();
        let mut more = true;
        assert(views(items@) =~= Seq::<T::V>::empty());
        assert(Seq::<T::V>::empty() + Seq::<T::V>::empty() =~= Seq::<T::V>::empty());
        while more
            invariant
                close == option_view(closing),
                delim == option_view(delimiter),
                more ==> list_items::<T>(start, close, delim) == prepend(
                    views(items@),
                    list_items::<T>(parser@, close, delim),
                ),
                !more ==> list_items::<T>(start, close, delim) == (
                    parser@,
                    Ok::<Seq<T::V>, ErrorView>(views(items@)),
                ),
            decreases parser@.rest.len(), more as int,
        {
            let ghost before = parser@;
            let ghost done = views(items@);
            proof {
                lemma_token_takes::<T>(before);
            }
            let item = parser.token::<T>()?;
            let ghost after = parser@;
            proof {
                lemma_list_step_keeps(after, close, delim);
                lemma_views_push(items@, item);
                let next = list_step(after, close, delim).0;
                if list_step(after, close, delim).1 == Ok::<bool, ErrorView>(true) {
                    match list_items::<T>(next, close, delim).1 {
                        Ok(others) => {
                            assert(done + (seq![item@] + others) =~= done.push(item@) + others);
                        },
                        Err(_) => {},
                    }
                }
                assert(done + seq![item@] =~= done.push(item@));
            }
            items.push(item);
            more = step_list(parser, &closing, delimiter)?;
        }
        let char_rect = parser.token_char_rect()?;
        Ok(ListToken { items, char_rect })
    }

    /// Reads a list within one of the bracket pairs `endings`, with commas
    /// between its elements.
    pub fn parse_with_endings(parser: &mut Parser, endings: &[(&str, &str)]) -> (r: Result<
        Self,
        Error,
    >)
        ensures
            final(parser)@ == parse_with_full::<T>(old(parser)@, views(endings@), Some(","@)).0,
            result_view(r) == parse_with_full::<T>(old(parser)@, views(endings@), Some(","@)).1,
    {
        Self::parse_with_full(parser, endings, Some(","))
    }

    /// Reads a list without brackets, which ends where `delimiter` does not
    /// follow an element.
    pub fn parse_no_endings_with_delimiter(parser: &mut Parser, delimiter: &str) -> (r: Result<
        Self,
        Error,
    >)
        ensures
            final(parser)@ == parse_with_full::<T>(old(parser)@, Seq::empty(), Some(delimiter@)).0,
            result_view(r) == parse_with_full::<T>(old(parser)@, Seq::empty(), Some(delimiter@)).1,
    {
        let endings: [(&str, &str); 0] = [];
        assert(views(endings@) =~= Seq::<(Seq<char>, Seq<char>)>::empty());
        Self::parse_with_full(parser, &endings, Some(delimiter))
    }

    /// Reads a list within square brackets or braces whose elements simply
    /// follow each other.
    pub fn parse_no_delimiter(parser: &mut Parser) -> (r: Result<Self, Error>)
        ensures
            final(parser)@ == parse_with_full::<T>(old(parser)@, block_endings(), None).0,
            result_view(r) == parse_with_full::<T>(old(parser)@, block_endings(), None).1,
    {
        let endings = [("[", "]"), ("{", "}")];
        assert(views(endings@) =~= block_endings());
        Self::parse_with_full(parser, &endings, None)
    }
}

impl<T: Element> Token for ListToken<T> {
    open spec fn parse_spec(c: Cursor) -> (Cursor, Result<ListView<T::V>, ErrorView>) {
        parse_with_full::<T>(c, block_endings(), Some(","@))
    }

    open spec fn span(node: ListView<T::V>) -> CharRect {
        node.char_rect
    }

    /// Reads a list within square brackets or braces, with commas between its
    /// elements.
    fn parse(parser: &mut Parser) -> (r: Result<Self, Error>) {
        let endings = [("[", "]"), ("{", "}")];
        assert(views(endings@) =~= block_endings());
        Self::parse_with_full(parser, &endings, Some(","))
    }

    fn char_rect(&self) -> (rect: CharRect) {
        self.char_rect
    }

    open spec fn own_span() -> bool {
        true
    }

    proof fn lemma_parse_records(c: Cursor) {
        lemma_parse_with_full_records::<T>(c, block_endings(), Some(","@));
    }
}

impl<T: Element> Element for ListToken<T> {
    proof fn lemma_parse_takes(c: Cursor) {
        lemma_parse_with_full_takes::<T>(c, block_endings(), Some(","@));
    }
}

/// A module path: the last segment is the module's name, the segments before
/// it are its parents.
#[derive(Debug)]
pub struct ModuleToken {
    pub name: String,
    pub parents: ListToken<NameToken>,
    pub char_rect: CharRect,
}

/// The mathematical value of a [`ModuleToken`].
pub struct ModuleView {
    pub name: Seq<char>,
    pub parents: ListView<NameView>,
    pub char_rect: CharRect,
}

impl View for ModuleToken {
    type V = ModuleView;

    open spec fn view(&self) -> ModuleView {
        ModuleView { name: self.name@, parents: self.parents@, char_rect: self.char_rect }
    }
}

impl ModuleView {
    /// The names of the parents, outermost first.
    pub open spec fn parent_names(self) -> Seq<Seq<char>> {
        Seq::new(self.parents.items.len(), |i: int| self.parents.items[i].name)
    }

    /// All segments of the path: the parents and then the name.
    pub open spec fn segments(self) -> Seq<Seq<char>> {
        self.parent_names().push(self.name)
    }

    /// The parents joined by `/`.
    pub open spec fn path(self) -> Seq<char> {
        joined(self.parent_names(), "/"@)
    }
}

impl ModuleToken {
    /// The names of the parents, outermost first.
    fn parent_names(&self) -> (names: Vec<String>)
        ensures
            views(names@) == self@.parent_names(),
    {
        let mut names: Vec<String> = Vec::new();
        let mut i: usize = 0;
        while i < self.parents.items.len()
            invariant
                i <= self.parents.items.len(),
                names.len() == i,
                forall|k: int| 0 <= k < i ==> names@[k]@ == self.parents.items@[k].name@,
            decreases self.parents.items.len() - i,
        {
            names.push(self.parents.items[i].name.clone());
            i = i + 1;
        }
        assert(views(names@) =~= self@.parent_names());
        names
    }

    /// All segments of the path: the parents and then the name.
    pub fn segments(&self) -> (segments: Vec<String>)
        ensures
            views(segments@) == self@.segments(),
    {
        let mut segments = self.parent_names();
        proof {
            lemma_views_push(segments@, self.name);
        }
        segments.push(self.name.clone());
        segments
    }

    /// The directory of the module: its parents joined by `/`.
    pub fn path(&self) -> (path: String)
        ensures
            path@ == self@.path(),
    {
        let names = self.parent_names();
        assert(Seq::new(names@.len(), |i: int| names@[i]@) =~= views(names@));
        join(&names, "/")
    }

    /// Whether two paths name the same module: the same parents in the same
    /// order and the same name, wherever in their files they stand.
    pub fn same_module(&self, other: &ModuleToken) -> (same: bool)
        ensures
            same == (self@.segments() == other@.segments()),
    {
        let n = self.parents.items.len();
        if n != other.parents.items.len() || self.name != other.name {
            proof {
                if self@.segments() == other@.segments() {
                    assert(self@.segments().len() == other@.segments().len());
                    assert(self@.segments().last() == other@.segments().last());
                }
            }
            return false;
        }
        let mut i: usize = 0;
        while i < n
            invariant
                i <= n,
                n == self.parents.items.len(),
                n == other.parents.items.len(),
                self.name@ == other.name@,
                forall|k: int|
                    0 <= k < i ==> self.parents.items@[k].name@ == other.parents.items@[k].name@,
            decreases n - i,
        {
            if self.parents.items[i].name != other.parents.items[i].name {
                proof {
                    if self@.segments() == other@.segments() {
                        assert(self@.segments()[i as int] == other@.segments()[i as int]);
                    }
                }
                return false;
            }
            i = i + 1;
        }
        assert(self@.segments() =~= other@.segments());
        true
    }
}

impl Token for ModuleToken {
    open spec fn parse_spec(c: Cursor) -> (Cursor, Result<ModuleView, ErrorView>) {
        let listed = close_frame(
            parse_with_full::<NameToken>(c.start_token(), Seq::empty(), Some("::"@)),
        );
        let after = listed.0;
        match listed.1 {
            Err(e) => (after, Err(e)),
            Ok(parts) => if parts.items.len() == 0 {
                (after, Err(after.make_error(ParseErrorView::EmptyModule)))
            } else {
                match after.token_char_rect() {
                    Err(e) => (after, Err(e)),
                    Ok(char_rect) => (
                        after,
                        Ok(
                            ModuleView {
                                name: parts.items.last().name,
                                parents: ListView {
                                    items: parts.items.drop_last(),
                                    char_rect: parts.char_rect,
                                },
                                char_rect,
                            },
                        ),
                    ),
                }
            },
        }
    }

    open spec fn span(node: ModuleView) -> CharRect {
        node.char_rect
    }

    fn parse(parser: &mut Parser) -> (r: Result<Self, Error>) {
        parser.start_token();
        let module_parts = ListToken::<NameToken>::parse_no_endings_with_delimiter(parser, "::")?;
        parser.end_token();
        let ghost parts = module_parts@;
        let ListToken { items: mut items, char_rect: list_rect } = module_parts;
        let name = match items.pop() {
            Some(last) => last.name,
            None => {
                return Err(parser.make_error(ParseError::EmptyModule));
            },
        };
        let char_rect = parser.token_char_rect()?;
        let module = ModuleToken { name, parents: ListToken { items, char_rect: list_rect }, char_rect };
        assert(module@.parents.items =~= parts.items.drop_last());
        Ok(module)
    }

    fn char_rect(&self) -> (rect: CharRect) {
        self.char_rect
    }

    open spec fn own_span() -> bool {
        true
    }

    proof fn lemma_parse_records(c: Cursor) {
        let inner = parse_with_full::<NameToken>(c.start_token(), Seq::empty(), Some("::"@));
        lemma_parse_with_full_records::<NameToken>(c.start_token(), Seq::empty(), Some("::"@));
        if inner.1 is Ok {
            lemma_records_framed(c, inner.0);
        }
    }
}

impl Element for ModuleToken {
    proof fn lemma_parse_takes(c: Cursor) {
        lemma_parse_with_full_takes::<NameToken>(c.start_token(), Seq::empty(), Some("::"@));
    }
}

/// How a function is to be called.
#[derive(Clone, Copy, Debug, PartialEq, Eq, Structural)]
pub enum CallingConvention {
    Cdecl,
    Stdcall,
    Fastcall,
    Thiscall,
}

impl FromWord for CallingConvention {
    open spec fn from_word_spec(word: Seq<char>) -> Result<Self, ParseErrorView> {
        if word == "cdecl"@ {
            Ok(CallingConvention::Cdecl)
        } else if word == "stdcall"@ {
            Ok(CallingConvention::Stdcall)
        } else if word == "fastcall"@ {
            Ok(CallingConvention::Fastcall)
        } else if word == "thiscall"@ {
            Ok(CallingConvention::Thiscall)
        } else {
            Err(ParseErrorView::InvalidCallConv(word))
        }
    }

    fn from_word(word: &str) -> (r: Result<Self, ParseError>) {
        let word = word.to_owned();
        if text_is(&word, "cdecl") {
            Ok(CallingConvention::Cdecl)
        } else if text_is(&word, "stdcall") {
            Ok(CallingConvention::Stdcall)
        } else if text_is(&word, "fastcall") {
            Ok(CallingConvention::Fastcall)
        } else if text_is(&word, "thiscall") {
            Ok(CallingConvention::Thiscall)
        } else {
            Err(ParseError::InvalidCallConv(word))
        }
    }
}

/// A type: an array of a type, a pointer to a type, or a named type with its
/// generic arguments.
#[derive(Debug)]
pub enum TypeTokenVariant {
    Array { array_len: u32, sub_type: Box<TypeToken> },
    Pointer { sub_type: Box<TypeToken> },
    Type { name: String, generics: Option<ListToken<TypeToken>> },
}

/// A type with the span it was read from.
#[derive(Debug)]
pub struct TypeToken {
    pub variant: TypeTokenVariant,
    pub char_rect: CharRect,
}

/// The mathematical value of a [`TypeTokenVariant`].
pub enum TypeVariantView {
    Array { array_len: nat, sub_type: Box<TypeView> },
    Pointer { sub_type: Box<TypeView> },
    Type { name: Seq<char>, generics: Option<ListView<TypeView>> },
}

/// The mathematical value of a [`TypeToken`].
pub struct TypeView {
    pub variant: TypeVariantView,
    pub char_rect: CharRect,
}

/// The mathematical value of a type.
pub open spec fn type_view(token: TypeToken) -> TypeView
    decreases token,
{
    TypeView {
        variant: match token.variant {
            TypeTokenVariant::Array { array_len, sub_type } => TypeVariantView::Array {
                array_len: array_len as nat,
                sub_type: Box::new(type_view(*sub_type)),
            },
            TypeTokenVariant::Pointer { sub_type } => TypeVariantView::Pointer {
                sub_type: Box::new(type_view(*sub_type)),
            },
            TypeTokenVariant::Type { name, generics } => TypeVariantView::Type {
                name: name@,
                generics: match generics {
                    None => None,
                    Some(list) => Some(
                        ListView {
                            items: Seq::new(
                                list.items@.len(),
                                |i: int|
                                    if 0 <= i < list.items@.len() {
                                        type_view(list.items@[i])
                                    } else {
                                        arbitrary()
                                    },
                            ),
                            char_rect: list.char_rect,
                        },
                    ),
                },
            },
        },
        char_rect: token.char_rect,
    }
}

impl View for TypeToken {
    type V = TypeView;

    open spec fn view(&self) -> TypeView {
        type_view(*self)
    }
}

/// A type written out: `array N` and the type of the elements, `ptr` and the
/// type pointed to, or the name and behind it each generic argument.
pub open spec fn type_text(token: TypeToken) -> Seq<char>
    decreases token, 1nat,
{
    match token.variant {
        TypeTokenVariant::Array { array_len, sub_type } => "array "@ + decimal(array_len as nat)
            + " "@ + type_text(*sub_type),
        TypeTokenVariant::Pointer { sub_type } => "ptr "@ + type_text(*sub_type),
        TypeTokenVariant::Type { name, generics } => match generics {
            None => name@,
            Some(list) => name@ + types_text(token, list.items@.len() as int),
        },
    }
}

/// The first `n` generic arguments of a named type written out one after the
/// other.
pub open spec fn types_text(token: TypeToken, n: int) -> Seq<char>
    decreases token, 0nat, n,
{
    match token.variant {
        TypeTokenVariant::Type { name, generics: Some(list) } => if 0 < n <= list.items@.len() {
            types_text(token, n - 1) + type_text(list.items@[n - 1])
        } else {
            Seq::empty()
        },
        _ => Seq::empty(),
    }
}

impl TypeToken {
    /// The type in a few words: `array, length: N`, `pointer`, or the name,
    /// followed by ` generic` where there are generic arguments.
    pub open spec fn summary_text(self) -> Seq<char> {
        match self.variant {
            TypeTokenVariant::Array { array_len, sub_type } => "array, length: "@ + decimal(
                array_len as nat,
            ),
            TypeTokenVariant::Pointer { sub_type } => "pointer"@,
            TypeTokenVariant::Type { name, generics } => if generics is Some {
                name@ + " generic"@
            } else {
                name@
            },
        }
    }

    /// The type in a few words.
    pub fn summary(&self) -> (text: String)
        ensures
            text@ == self.summary_text(),
    {
        match &self.variant {
            TypeTokenVariant::Array { array_len, sub_type } => {
                let mut text = "array, length: ".to_owned();
                text.append(decimal_text(*array_len as usize).as_str());
                text
            },
            TypeTokenVariant::Pointer { sub_type } => "pointer".to_owned(),
            TypeTokenVariant::Type { name, generics } => {
                let mut text = name.clone();
                if generics.is_some() {
                    text.append(" generic");
                }
                text
            },
        }
    }

    /// The type written out.
    pub fn print(&self) -> (text: String)
        ensures
            text@ == type_text(*self),
        decreases self,
    {
        match &self.variant {
            TypeTokenVariant::Array { array_len, sub_type } => {
                let mut text = glue3("array ", decimal_text(*array_len as usize).as_str(), " ");
                text.append(sub_type.print().as_str());
                text
            },
            TypeTokenVariant::Pointer { sub_type } => {
                let mut text = "ptr ".to_owned();
                text.append(sub_type.print().as_str());
                text
            },
            TypeTokenVariant::Type { name, generics } => {
                let mut text = name.clone();
                match generics {
                    None => {},
                    Some(list) => {
                        let ghost head = text@;
                        let mut i: usize = 0;
                        assert(head + types_text(*self, 0) =~= head);
                        while i < list.items.len()
                            invariant
                                i <= list.items.len(),
                                self.variant == (TypeTokenVariant::Type {
                                    name: *name,
                                    generics: Some(*list),
                                }),
                                text@ == head + types_text(*self, i as int),
                            decreases list.items.len() - i,
                        {
                            proof {
                                assert(self.variant->generics->0.items == list.items);
                                assert(decreases_to!(list.items => list.items[i as int]));
                            }
                            text.append(list.items[i].print().as_str());
                            assert(text@ =~= head + types_text(*self, i + 1));
                            i = i + 1;
                        }
                    },
                }
                text
            },
        }
    }
}

/// The bracket pair of generic arguments.
pub open spec fn angle_endings() -> Seq<(Seq<char>, Seq<char>)> {
    seq![("<"@, ">"@)]
}

/// The type that `variant` makes, with the span of the node being read.
pub open spec fn type_close(c: Cursor, variant: TypeVariantView) -> (
    Cursor,
    Result<TypeView, ErrorView>,
) {
    match c.token_char_rect() {
        Err(e) => (c, Err(e)),
        Ok(char_rect) => (c, Ok(TypeView { variant, char_rect })),
    }
}

/// A type: `arr`, a length and the type of the elements; `ptr` and the type
/// pointed to; or a name, followed where `<` comes by a list of types
/// between `<` and `>`.
pub open spec fn type_parse(c: Cursor) -> (Cursor, Result<TypeView, ErrorView>)
    decreases c.rest.len(), 0nat,
{
    let named = c.take_word().0;
    match c.take_word().1 {
        Err(e) => (named, Err(e)),
        Ok(word) => {
            proof {
                lemma_takes(c);
                lemma_takes(named);
            }
            if word == "arr"@ {
                let counted = named.expect_num::<u32>().0;
                match named.expect_num::<u32>().1 {
                    Err(e) => (counted, Err(e)),
                    Ok(array_len) => {
                        let after = type_token(counted).0;
                        match type_token(counted).1 {
                            Err(e) => (after, Err(e)),
                            Ok(sub) => type_close(
                                after,
                                TypeVariantView::Array { array_len, sub_type: Box::new(sub) },
                            ),
                        }
                    },
                }
            } else if word == "ptr"@ {
                let after = type_token(named).0;
                match type_token(named).1 {
                    Err(e) => (after, Err(e)),
                    Ok(sub) => type_close(
                        after,
                        TypeVariantView::Pointer { sub_type: Box::new(sub) },
                    ),
                }
            } else {
                match named.if_reserved("<"@) {
                    Err(e) => (named, Err(e)),
                    Ok(generic) => if generic {
                        let after = type_list_token(named).0;
                        match type_list_token(named).1 {
                            Err(e) => (after, Err(e)),
                            Ok(list) => type_close(
                                after,
                                TypeVariantView::Type { name: word, generics: Some(list) },
                            ),
                        }
                    } else {
                        type_close(named, TypeVariantView::Type { name: word, generics: None })
                    },
                }
            }
        },
    }
}

/// A type in a frame of its own.
pub open spec fn type_token(c: Cursor) -> (Cursor, Result<TypeView, ErrorView>)
    decreases c.rest.len(), 1nat,
{
    close_frame(type_parse(c.start_token()))
}

/// The types of a list of generic arguments, from the first one on. A type
/// that took nothing from the input would end the list; none does.
pub open spec fn type_items(c: Cursor, closing: Option<Seq<char>>, delimiter: Option<Seq<char>>) -> (
    Cursor,
    Result<Seq<TypeView>, ErrorView>,
)
    decreases c.rest.len(), 2nat,
{
    let after = type_token(c).0;
    match type_token(c).1 {
        Err(e) => (after, Err(e)),
        Ok(item) => {
            let next = list_step(after, closing, delimiter).0;
            match list_step(after, closing, delimiter).1 {
                Err(e) => (next, Err(e)),
                Ok(more) => if more && next.rest.len() < c.rest.len() {
                    prepend(seq![item], type_items(next, closing, delimiter))
                } else {
                    (next, Ok(seq![item]))
                },
            }
        },
    }
}

/// A list of generic arguments: types between `<` and `>`, with commas
/// between them.
pub open spec fn type_list(c: Cursor) -> (Cursor, Result<ListView<TypeView>, ErrorView>)
    decreases c.rest.len(), 3nat,
{
    let after = list_open(c, angle_endings()).0;
    match list_open(c, angle_endings()).1 {
        Err(e) => (after, Err(e)),
        Ok(Opened::Empty) => list_close(after, Seq::empty()),
        Ok(Opened::Open(closing)) => {
            proof {
                lemma_list_open_takes(c, angle_endings());
            }
            let end = type_items(after, closing, Some(","@)).0;
            match type_items(after, closing, Some(","@)).1 {
                Err(e) => (end, Err(e)),
                Ok(items) => list_close(end, items),
            }
        },
    }
}

/// A list of generic arguments in a frame of its own.
pub open spec fn type_list_token(c: Cursor) -> (Cursor, Result<ListView<TypeView>, ErrorView>)
    decreases c.rest.len(), 4nat,
{
    close_frame(type_list(c.start_token()))
}

/// Reading a type takes at least one token, and so does each of the steps
/// that reading a type is made of.
pub proof fn lemma_type_takes(c: Cursor, closing: Option<Seq<char>>, delimiter: Option<Seq<char>>)
    ensures
        type_parse(c).0.rest.len() <= c.rest.len(),
        type_parse(c).1 is Ok ==> type_parse(c).0.rest.len() < c.rest.len(),
        type_token(c).0.rest.len() <= c.rest.len(),
        type_token(c).1 is Ok ==> type_token(c).0.rest.len() < c.rest.len(),
        type_items(c, closing, delimiter).0.rest.len() <= c.rest.len(),
        type_items(c, closing, delimiter).1 is Ok ==> type_items(c, closing, delimiter).0.rest.len()
            < c.rest.len(),
        type_list(c).0.rest.len() <= c.rest.len(),
        type_list(c).1 is Ok ==> type_list(c).0.rest.len() < c.rest.len(),
        type_list_token(c).0.rest.len() <= c.rest.len(),
        type_list_token(c).1 is Ok ==> type_list_token(c).0.rest.len() < c.rest.len(),
    decreases c.rest.len(),
{
    lemma_type_parse_takes(c);
    lemma_type_parse_takes(c.start_token());
    lemma_type_items_takes(c, closing, delimiter);
    lemma_type_list_takes(c);
    lemma_type_list_takes(c.start_token());
}

/// No type in a list of generic arguments takes nothing: where another type
/// follows, the list has moved on.
pub proof fn lemma_type_items_move_on(
    c: Cursor,
    closing: Option<Seq<char>>,
    delimiter: Option<Seq<char>>,
)
    ensures
        type_token(c).1 is Ok ==> list_step(type_token(c).0, closing, delimiter).0.rest.len()
            < c.rest.len(),
{
    lemma_type_takes(c, closing, delimiter);
    lemma_list_step_keeps(type_token(c).0, closing, delimiter);
}

proof fn lemma_type_parse_takes(c: Cursor)
    ensures
        type_parse(c).0.rest.len() <= c.rest.len(),
        type_parse(c).1 is Ok ==> type_parse(c).0.rest.len() < c.rest.len(),
    decreases c.rest.len(), 0nat,
{
    lemma_takes(c);
    let named = c.take_word().0;
    if c.take_word().1 is Ok {
        lemma_takes(named);
        let counted = named.expect_num::<u32>().0;
        lemma_type_parse_takes(counted.start_token());
        lemma_type_parse_takes(named.start_token());
        lemma_type_list_takes(named.start_token());
    }
}

proof fn lemma_type_items_takes(c: Cursor, closing: Option<Seq<char>>, delimiter: Option<Seq<char>>)
    ensures
        type_items(c, closing, delimiter).0.rest.len() <= c.rest.len(),
        type_items(c, closing, delimiter).1 is Ok ==> type_items(c, closing, delimiter).0.rest.len()
            < c.rest.len(),
    decreases c.rest.len(), 2nat,
{
    lemma_type_parse_takes(c.start_token());
    let after = type_token(c).0;
    if type_token(c).1 is Ok {
        lemma_list_step_keeps(after, closing, delimiter);
        let next = list_step(after, closing, delimiter).0;
        if list_step(after, closing, delimiter).1 == Ok::<bool, ErrorView>(true) {
            lemma_type_items_takes(next, closing, delimiter);
        }
    }
}

proof fn lemma_type_list_takes(c: Cursor)
    ensures
        type_list(c).0.rest.len() <= c.rest.len(),
        type_list(c).1 is Ok ==> type_list(c).0.rest.len() < c.rest.len(),
    decreases c.rest.len(), 3nat,
{
    lemma_list_open_takes(c, angle_endings());
    let after = list_open(c, angle_endings()).0;
    match list_open(c, angle_endings()).1 {
        Ok(Opened::Open(closing)) => {
            lemma_type_items_takes(after, closing, Some(","@));
        },
        _ => {},
    }
}

/// Reading a type records every token that it takes, and so does each of the
/// steps that reading a type is made of; and the span of a type is the span
/// of the frame it was read in.
pub proof fn lemma_type_records(c: Cursor, closing: Option<Seq<char>>, delimiter: Option<Seq<char>>)
    ensures
        type_parse(c).1 matches Ok(node) ==> records(c, type_parse(c).0) && type_parse(
            c,
        ).0.frames.len() > 0 && node.char_rect == span_of(type_parse(c).0.frames.last()),
        type_token(c).1 is Ok ==> records(c, type_token(c).0),
        type_items(c, closing, delimiter).1 is Ok ==> records(
            c,
            type_items(c, closing, delimiter).0,
        ),
        type_list(c).1 matches Ok(list) ==> records(c, type_list(c).0) && type_list(
            c,
        ).0.frames.len() > 0 && list.char_rect == span_of(type_list(c).0.frames.last()),
        type_list_token(c).1 is Ok ==> records(c, type_list_token(c).0),
{
    lemma_type_parse_records(c);
    lemma_type_token_records(c);
    lemma_type_items_records(c, closing, delimiter);
    lemma_type_list_records(c);
    lemma_type_list_records(c.start_token());
    if type_list(c.start_token()).1 is Ok {
        lemma_records_framed(c, type_list(c.start_token()).0);
    }
}

proof fn lemma_type_token_records(c: Cursor)
    ensures
        type_token(c).1 is Ok ==> records(c, type_token(c).0),
    decreases c.rest.len(), 1nat,
{
    lemma_type_parse_records(c.start_token());
    if type_parse(c.start_token()).1 is Ok {
        lemma_records_framed(c, type_parse(c.start_token()).0);
    }
}

proof fn lemma_type_parse_records(c: Cursor)
    ensures
        type_parse(c).1 matches Ok(node) ==> records(c, type_parse(c).0) && type_parse(
            c,
        ).0.frames.len() > 0 && node.char_rect == span_of(type_parse(c).0.frames.last()),
    decreases c.rest.len(), 0nat,
{
    lemma_takes(c);
    lemma_records_takes(c);
    let named = c.take_word().0;
    if c.take_word().1 is Ok {
        lemma_takes(named);
        lemma_records_takes(named);
        lemma_records_same(named);
        let counted = named.expect_num::<u32>().0;
        lemma_type_token_records(counted);
        lemma_type_token_records(named);
        lemma_type_list_records(named.start_token());
        if type_list(named.start_token()).1 is Ok {
            lemma_records_framed(named, type_list(named.start_token()).0);
        }
        lemma_records_chain(c, named, counted);
        lemma_records_chain(c, counted, type_token(counted).0);
        lemma_records_chain(c, named, type_token(named).0);
        lemma_records_chain(c, named, type_list_token(named).0);
    }
}

proof fn lemma_type_items_records(c: Cursor, closing: Option<Seq<char>>, delimiter: Option<Seq<char>>)
    ensures
        type_items(c, closing, delimiter).1 is Ok ==> records(
            c,
            type_items(c, closing, delimiter).0,
        ),
    decreases c.rest.len(), 2nat,
{
    lemma_type_token_records(c);
    let after = type_token(c).0;
    if type_token(c).1 is Ok {
        lemma_list_step_records(after, closing, delimiter);
        let next = list_step(after, closing, delimiter).0;
        lemma_records_chain(c, after, next);
        if list_step(after, closing, delimiter).1 == Ok::<bool, ErrorView>(true) && next.rest.len()
            < c.rest.len() {
            lemma_type_items_records(next, closing, delimiter);
            lemma_records_chain(c, next, type_items(next, closing, delimiter).0);
        }
    }
}

proof fn lemma_type_list_records(c: Cursor)
    ensures
        type_list(c).1 matches Ok(list) ==> records(c, type_list(c).0) && type_list(
            c,
        ).0.frames.len() > 0 && list.char_rect == span_of(type_list(c).0.frames.last()),
    decreases c.rest.len(), 3nat,
{
    lemma_list_open_records(c, angle_endings());
    lemma_list_open_takes(c, angle_endings());
    let after = list_open(c, angle_endings()).0;
    match list_open(c, angle_endings()).1 {
        Ok(Opened::Open(closing)) => {
            lemma_type_items_records(after, closing, Some(","@));
            lemma_records_chain(c, after, type_items(after, closing, Some(","@)).0);
        },
        _ => {},
    }
}

/// Reads a type at the parser's place.
fn parse_type(parser: &mut Parser) -> (r: Result<TypeToken, Error>)
    ensures
        final(parser)@ == type_parse(old(parser)@).0,
        result_view(r) == type_parse(old(parser)@).1,
    decreases old(parser)@.rest.len(), 0nat,
{
    proof {
        lemma_takes(parser@);
    }
    let word = parser.take_word()?;
    proof {
        lemma_takes(parser@);
    }
    if text_is(&word, "arr") {
        let array_len = parser.expect_num::<u32>()?;
        let sub = token_type(parser)?;
        let char_rect = parser.token_char_rect()?;
        Ok(
            TypeToken {
                variant: TypeTokenVariant::Array { array_len, sub_type: Box::new(sub) },
                char_rect,
            },
        )
    } else if text_is(&word, "ptr") {
        let sub = token_type(parser)?;
        let char_rect = parser.token_char_rect()?;
        Ok(TypeToken { variant: TypeTokenVariant::Pointer { sub_type: Box::new(sub) }, char_rect })
    } else {
        let generics = if parser.if_reserved("<")? {
            parser.start_token();
            let list = parse_type_list(parser)?;
            parser.end_token();
            Some(list)
        } else {
            None
        };
        let char_rect = parser.token_char_rect()?;
        let ghost found = generics;
        let token = TypeToken { variant: TypeTokenVariant::Type { name: word, generics }, char_rect };
        proof {
            match found {
                Some(list) => {
                    assert(type_view(token).variant->Type_generics->0.items =~= list@.items);
                },
                None => {},
            }
        }
        Ok(token)
    }
}

/// Reads a type in a frame of its own.
fn token_type(parser: &mut Parser) -> (r: Result<TypeToken, Error>)
    ensures
        final(parser)@ == type_token(old(parser)@).0,
        result_view(r) == type_token(old(parser)@).1,
    decreases old(parser)@.rest.len(), 1nat,
{
    parser.start_token();
    let token = parse_type(parser)?;
    parser.end_token();
    Ok(token)
}

/// Reads a list of generic arguments.
#[verifier::loop_isolation(false)]
fn parse_type_list(parser: &mut Parser) -> (r: Result<ListToken<TypeToken>, Error>)
    ensures
        final(parser)@ == type_list(old(parser)@).0,
        result_view(r) == type_list(old(parser)@).1,
    decreases old(parser)@.rest.len(), 3nat,
{
    let endings = [("<", ">")];
    assert(views(endings@) =~= angle_endings());
    proof {
        lemma_list_open_takes(parser@, angle_endings());
    }
    let closing = match open_list(parser, &endings)? {
        ListStart::Empty => {
            let char_rect = parser.token_char_rect()?;
            let list = ListToken { items: Vec::new(), char_rect };
            assert(list@.items =~= Seq::<TypeView>::empty());
            return Ok(list);
        },
        ListStart::Open(closing) => closing,
    };
    let ghost start = parser@;
    let ghost close = option_view(closing);
    let ghost delim = Some(","@);
    let mut items: Vec<TypeToken> = Vec::new();
    let mut more = true;
    assert(views(items@) =~= Seq::<TypeView>::empty());
    assert(Seq::<TypeView>::empty() + Seq::<TypeView>::empty() =~= Seq::<TypeView>::empty());
    while more
        invariant
            parser@.rest.len() <= start.rest.len(),
            more ==> type_items(start, close, delim) == prepend(
                views(items@),
                type_items(parser@, close, delim),
            ),
            !more ==> type_items(start, close, delim) == (
                parser@,
                Ok::<Seq<TypeView>, ErrorView>(views(items@)),
            ),
        decreases parser@.rest.len(), more as int,
    {
        let ghost before = parser@;
        let ghost done = views(items@);
        proof {
            lemma_type_takes(before, close, delim);
            lemma_type_items_move_on(before, close, delim);
        }
        let item = token_type(parser)?;
        let ghost after = parser@;
        proof {
            lemma_list_step_keeps(after, close, delim);
            lemma_views_push(items@, item);
            let next = list_step(after, close, delim).0;
            if list_step(after, close, delim).1 == Ok::<bool, ErrorView>(true) {
                match type_items(next, close, delim).1 {
                    Ok(others) => {
                        assert(done + (seq![item@] + others) =~= done.push(item@) + others);
                    },
                    Err(_) => {},
                }
            }
            assert(done + seq![item@] =~= done.push(item@));
        }
        items.push(item);
        more = step_list(parser, &closing, Some(","))?;
    }
    let char_rect = parser.token_char_rect()?;
    Ok(ListToken { items, char_rect })
}

impl Token for TypeToken {
    open spec fn parse_spec(c: Cursor) -> (Cursor, Result<TypeView, ErrorView>) {
        type_parse(c)
    }

    open spec fn span(node: TypeView) -> CharRect {
        node.char_rect
    }

    fn parse(parser: &mut Parser) -> (r: Result<Self, Error>) {
        parse_type(parser)
    }

    fn char_rect(&self) -> (rect: CharRect) {
        self.char_rect
    }

    open spec fn own_span() -> bool {
        true
    }

    proof fn lemma_parse_records(c: Cursor) {
        lemma_type_records(c, None, None);
    }
}

impl Element for TypeToken {
    proof fn lemma_parse_takes(c: Cursor) {
        lemma_type_takes(c, None, None);
    }
}

/// A variable: a name, `:` and a type.
#[derive(Debug)]
pub struct VariableToken {
    pub name: String,
    pub ty: TypeToken,
    pub char_rect: CharRect,
}

/// The mathematical value of a [`VariableToken`].
pub struct VariableView {
    pub name: Seq<char>,
    pub ty: TypeView,
    pub char_rect: CharRect,
}

impl View for VariableToken {
    type V = VariableView;

    open spec fn view(&self) -> VariableView {
        VariableView { name: self.name@, ty: self.ty@, char_rect: self.char_rect }
    }
}

impl Token for VariableToken {
    open spec fn parse_spec(c: Cursor) -> (Cursor, Result<VariableView, ErrorView>) {
        let named = c.take_word().0;
        match c.take_word().1 {
            Err(e) => (named, Err(e)),
            Ok(name) => {
                let colon = named.expect_reserved(seq![":"@]).0;
                match named.expect_reserved(seq![":"@]).1 {
                    Err(e) => (colon, Err(e)),
                    Ok(_) => wrap(
                        with_rect(colon.token::<TypeToken>()),
                        |found: (TypeView, CharRect)|
                            VariableView { name, ty: found.0, char_rect: found.1 },
                    ),
                }
            },
        }
    }

    open spec fn span(node: VariableView) -> CharRect {
        node.char_rect
    }

    fn parse(parser: &mut Parser) -> (r: Result<Self, Error>) {
        let name = parser.take_word()?;
        parser.expect_symbol(":")?;
        let ty = parser.token::<TypeToken>()?;
        let char_rect = parser.token_char_rect()?;
        Ok(VariableToken { name, ty, char_rect })
    }

    fn char_rect(&self) -> (rect: CharRect) {
        self.char_rect
    }

    open spec fn own_span() -> bool {
        true
    }

    proof fn lemma_parse_records(c: Cursor) {
        lemma_records_takes(c);
        let named = c.take_word().0;
        lemma_records_takes(named);
        let colon = named.expect_reserved(seq![":"@]).0;
        lemma_token_records::<TypeToken>(colon);
        lemma_records_chain(c, named, colon);
        lemma_records_chain(c, colon, colon.token::<TypeToken>().0);
    }
}

impl Element for VariableToken {
    proof fn lemma_parse_takes(c: Cursor) {
        lemma_takes(c);
        let named = c.take_word().0;
        lemma_takes(named);
        lemma_token_takes::<TypeToken>(named.expect_reserved(seq![":"@]).0);
    }
}

/// The bracket pair of a parameter list.
pub open spec fn paren_endings() -> Seq<(Seq<char>, Seq<char>)> {
    seq![("("@, ")"@)]
}

/// A function: a name, `:`, a calling convention, the parameters in
/// parentheses, and the type of the result.
#[derive(Debug)]
pub struct FunctionToken {
    pub name: String,
    pub calling_convention: CallingConvention,
    pub parameters: ListToken<VariableToken>,
    pub return_type: TypeToken,
    pub char_rect: CharRect,
}

/// The mathematical value of a [`FunctionToken`].
pub struct FunctionView {
    pub name: Seq<char>,
    pub calling_convention: CallingConvention,
    pub parameters: ListView<VariableView>,
    pub return_type: TypeView,
    pub char_rect: CharRect,
}

impl View for FunctionToken {
    type V = FunctionView;

    open spec fn view(&self) -> FunctionView {
        FunctionView {
            name: self.name@,
            calling_convention: self.calling_convention,
            parameters: self.parameters@,
            return_type: self.return_type@,
            char_rect: self.char_rect,
        }
    }
}

impl CallingConvention {
    /// The name of the convention as it is printed.
    pub open spec fn text(self) -> Seq<char> {
        match self {
            CallingConvention::Cdecl => "Cdecl"@,
            CallingConvention::Stdcall => "Stdcall"@,
            CallingConvention::Fastcall => "Fastcall"@,
            CallingConvention::Thiscall => "Thiscall"@,
        }
    }

    /// The name of the convention as it is printed.
    pub fn to_string(&self) -> (text: String)
        ensures
            text@ == self.text(),
    {
        match self {
            CallingConvention::Cdecl => "Cdecl".to_owned(),
            CallingConvention::Stdcall => "Stdcall".to_owned(),
            CallingConvention::Fastcall => "Fastcall".to_owned(),
            CallingConvention::Thiscall => "Thiscall".to_owned(),
        }
    }
}

/// The first `n` parameters of a function written out, each as its name, `: `
/// and its type, with `, ` between each two.
pub open spec fn parameters_text(parameters: Seq<VariableToken>, n: int) -> Seq<char>
    decreases n,
{
    if n <= 0 || n > parameters.len() {
        Seq::empty()
    } else if n == 1 {
        parameters[0].name@ + ": "@ + type_text(parameters[0].ty)
    } else {
        parameters_text(parameters, n - 1) + ", "@ + parameters[n - 1].name@ + ": "@ + type_text(
            parameters[n - 1].ty,
        )
    }
}

impl FunctionToken {
    /// The function written out on a line of its own: the name, `: `, the
    /// calling convention, the parameters in parentheses, and the type of
    /// the result.
    pub open spec fn text(self) -> Seq<char> {
        self.name@ + ": "@ + self.calling_convention.text() + " ("@ + parameters_text(
            self.parameters.items@,
            self.parameters.items@.len() as int,
        ) + ") "@ + type_text(self.return_type) + "\n"@
    }

    /// The function written out on a line of its own.
    pub fn print(&self) -> (text: String)
        ensures
            text@ == self.text(),
    {
        let mut listed = String::new();
        let mut i: usize = 0;
        assert(listed@ =~= parameters_text(self.parameters.items@, 0));
        while i < self.parameters.items.len()
            invariant
                i <= self.parameters.items.len(),
                listed@ == parameters_text(self.parameters.items@, i as int),
            decreases self.parameters.items.len() - i,
        {
            let parameter = &self.parameters.items[i];
            if i > 0 {
                listed.append(", ");
            }
            listed.append(parameter.name.as_str());
            listed.append(": ");
            listed.append(parameter.ty.print().as_str());
            assert(listed@ =~= parameters_text(self.parameters.items@, i + 1));
            i = i + 1;
        }
        let mut text = glue5(
            self.name.as_str(),
            ": ",
            self.calling_convention.to_string().as_str(),
            " (",
            listed.as_str(),
        );
        text.append(") ");
        text.append(self.return_type.print().as_str());
        text.append("\n");
        text
    }
}

impl Token for FunctionToken {
    open spec fn parse_spec(c: Cursor) -> (Cursor, Result<FunctionView, ErrorView>) {
        let named = c.take_word().0;
        match c.take_word().1 {
            Err(e) => (named, Err(e)),
            Ok(name) => {
                let colon = named.expect_reserved(seq![":"@]).0;
                match named.expect_reserved(seq![":"@]).1 {
                    Err(e) => (colon, Err(e)),
                    Ok(_) => {
                        let called = colon.from_word::<CallingConvention>().0;
                        match colon.from_word::<CallingConvention>().1 {
                            Err(e) => (called, Err(e)),
                            Ok(calling_convention) => {
                                let listed = close_frame(
                                    parse_with_full::<VariableToken>(
                                        called.start_token(),
                                        paren_endings(),
                                        Some(","@),
                                    ),
                                );
                                match listed.1 {
                                    Err(e) => (listed.0, Err(e)),
                                    Ok(parameters) => wrap(
                                        with_rect(listed.0.token::<TypeToken>()),
                                        |found: (TypeView, CharRect)|
                                            FunctionView {
                                                name,
                                                calling_convention,
                                                parameters,
                                                return_type: found.0,
                                                char_rect: found.1,
                                            },
                                    ),
                                }
                            },
                        }
                    },
                }
            },
        }
    }

    open spec fn span(node: FunctionView) -> CharRect {
        node.char_rect
    }

    fn parse(parser: &mut Parser) -> (r: Result<Self, Error>) {
        let name = parser.take_word()?;
        parser.expect_symbol(":")?;
        let calling_convention = parser.from_word::<CallingConvention>()?;
        parser.start_token();
        let endings = [("(", ")")];
        assert(views(endings@) =~= paren_endings());
        let parameters = ListToken::<VariableToken>::parse_with_endings(parser, &endings)?;
        parser.end_token();
        let return_type = parser.token::<TypeToken>()?;
        let char_rect = parser.token_char_rect()?;
        Ok(FunctionToken { name, calling_convention, parameters, return_type, char_rect })
    }

    fn char_rect(&self) -> (rect: CharRect) {
        self.char_rect
    }

    open spec fn own_span() -> bool {
        true
    }

    proof fn lemma_parse_records(c: Cursor) {
        lemma_records_takes(c);
        let named = c.take_word().0;
        lemma_records_takes(named);
        let colon = named.expect_reserved(seq![":"@]).0;
        lemma_records_takes(colon);
        let called = colon.from_word::<CallingConvention>().0;
        let inner = parse_with_full::<VariableToken>(
            called.start_token(),
            paren_endings(),
            Some(","@),
        );
        lemma_parse_with_full_records::<VariableToken>(
            called.start_token(),
            paren_endings(),
            Some(","@),
        );
        if inner.1 is Ok {
            lemma_records_framed(called, inner.0);
        }
        let listed = close_frame(inner).0;
        lemma_token_records::<TypeToken>(listed);
        let typed = listed.token::<TypeToken>().0;
        lemma_records_chain(c, named, colon);
        lemma_records_chain(c, colon, called);
        lemma_records_chain(c, called, listed);
        lemma_records_chain(c, listed, typed);
    }
}

impl Element for FunctionToken {
    proof fn lemma_parse_takes(c: Cursor) {
        lemma_takes(c);
        let named = c.take_word().0;
        lemma_takes(named);
        let colon = named.expect_reserved(seq![":"@]).0;
        lemma_takes(colon);
        let called = colon.from_word::<CallingConvention>().0;
        lemma_parse_with_full_takes::<VariableToken>(
            called.start_token(),
            paren_endings(),
            Some(","@),
        );
        let listed = close_frame(
            parse_with_full::<VariableToken>(called.start_token(), paren_endings(), Some(","@)),
        );
        lemma_token_takes::<TypeToken>(listed.0);
    }
}

/// A function at a fixed address: a function, `=` and the address.
#[derive(Debug)]
pub struct NonVirtualFunctionToken {
    pub function: FunctionToken,
    pub ptr: usize,
    pub char_rect: CharRect,
}

/// The mathematical value of a [`NonVirtualFunctionToken`].
pub struct NonVirtualFunctionView {
    pub function: FunctionView,
    pub ptr: nat,
    pub char_rect: CharRect,
}

impl View for NonVirtualFunctionToken {
    type V = NonVirtualFunctionView;

    open spec fn view(&self) -> NonVirtualFunctionView {
        NonVirtualFunctionView {
            function: self.function@,
            ptr: self.ptr as nat,
            char_rect: self.char_rect,
        }
    }
}

impl Token for NonVirtualFunctionToken {
    open spec fn parse_spec(c: Cursor) -> (Cursor, Result<NonVirtualFunctionView, ErrorView>) {
        let read = FunctionToken::parse_spec(c).0;
        match FunctionToken::parse_spec(c).1 {
            Err(e) => (read, Err(e)),
            Ok(function) => {
                let set = read.expect_reserved(seq!["="@]).0;
                match read.expect_reserved(seq!["="@]).1 {
                    Err(e) => (set, Err(e)),
                    Ok(_) => wrap(
                        with_rect(set.expect_num::<usize>()),
                        |found: (nat, CharRect)|
                            NonVirtualFunctionView { function, ptr: found.0, char_rect: found.1 },
                    ),
                }
            },
        }
    }

    open spec fn span(node: NonVirtualFunctionView) -> CharRect {
        node.char_rect
    }

    fn parse(parser: &mut Parser) -> (r: Result<Self, Error>) {
        let function = FunctionToken::parse(parser)?;
        parser.expect_symbol("=")?;
        let ptr = parser.expect_num::<usize>()?;
        let char_rect = parser.token_char_rect()?;
        Ok(NonVirtualFunctionToken { function, ptr, char_rect })
    }

    fn char_rect(&self) -> (rect: CharRect) {
        self.char_rect
    }

    open spec fn own_span() -> bool {
        true
    }

    proof fn lemma_parse_records(c: Cursor) {
        FunctionToken::lemma_parse_records(c);
        let read = FunctionToken::parse_spec(c).0;
        lemma_records_takes(read);
        let set = read.expect_reserved(seq!["="@]).0;
        lemma_records_takes(set);
        let counted = set.expect_num::<usize>().0;
        lemma_records_chain(c, read, set);
        lemma_records_chain(c, set, counted);
    }
}

impl Element for NonVirtualFunctionToken {
    proof fn lemma_parse_takes(c: Cursor) {
        FunctionToken::lemma_parse_takes(c);
        let read = FunctionToken::parse_spec(c).0;
        lemma_takes(read);
        lemma_takes(read.expect_reserved(seq!["="@]).0);
    }
}

/// The functions of a globals block: `=` and a list of functions at fixed
/// addresses.
#[derive(Debug)]
pub struct FunctionsToken {
    pub functions: ListToken<NonVirtualFunctionToken>,
    pub char_rect: CharRect,
}

/// The mathematical value of a [`FunctionsToken`].
pub struct FunctionsView {
    pub functions: ListView<NonVirtualFunctionView>,
    pub char_rect: CharRect,
}

impl View for FunctionsToken {
    type V = FunctionsView;

    open spec fn view(&self) -> FunctionsView {
        FunctionsView { functions: self.functions@, char_rect: self.char_rect }
    }
}

impl Token for FunctionsToken {
    open spec fn parse_spec(c: Cursor) -> (Cursor, Result<FunctionsView, ErrorView>) {
        wrap(
            assigned::<ListToken<NonVirtualFunctionToken>>(c),
            |found: (ListView<NonVirtualFunctionView>, CharRect)|
                FunctionsView { functions: found.0, char_rect: found.1 },
        )
    }

    open spec fn span(node: FunctionsView) -> CharRect {
        node.char_rect
    }

    fn parse(parser: &mut Parser) -> (r: Result<Self, Error>) {
        let (functions, char_rect) = read_assigned::<ListToken<NonVirtualFunctionToken>>(parser)?;
        Ok(FunctionsToken { functions, char_rect })
    }

    fn char_rect(&self) -> (rect: CharRect) {
        self.char_rect
    }

    open spec fn own_span() -> bool {
        true
    }

    proof fn lemma_parse_records(c: Cursor) {
        lemma_assigned_records::<ListToken<NonVirtualFunctionToken>>(c);
    }
}

impl Element for FunctionsToken {
    proof fn lemma_parse_takes(c: Cursor) {
        lemma_assigned_takes::<ListToken<NonVirtualFunctionToken>>(c);
    }
}

} // verus!
