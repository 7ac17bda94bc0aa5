//! The syntax tree of a BB file, and how each of its nodes is read.

pub mod class_tokens;
pub mod enum_tokens;
pub mod general_tokens;
pub mod globals_token;

use crate::error::{
    BindingError, BindingErrorView, Error, ErrorView, ParseError, ParseErrorView, ValidateError,
    ValidateErrorView,
};
use crate::model::{lemma_views_push, result_view, views};
use crate::parser::{
    lemma_records_chain, lemma_records_framed, lemma_records_same, lemma_records_takes,
    lemma_span_of_covers, lemma_takes, records, span_of, Cursor, Parser,
};
use crate::rect::CharRect;
use crate::text::text_is;
use crate::tokens::class_tokens::{
    ClassToken, ClassView, FieldsToken, FieldsView, ImplementsToken, ImplementsView,
    OverridesToken, OverridesView, VirtualsToken, VirtualsView,
};
use crate::tokens::enum_tokens::{
    EnumToken, EnumTypeToken, EnumTypeView, EnumValuesToken, EnumValuesView, EnumView,
};
use crate::tokens::general_tokens::{
    block_endings, lemma_parse_with_full_records, lemma_parse_with_full_takes, parse_with_full,
    FunctionsToken, FunctionsView, ListToken, ListView, ModuleToken, ModuleView,
};
use crate::tokens::globals_token::{GlobalsToken, GlobalsView};
use vstd::prelude::*;

verus! {

/// A node of the syntax tree: something that can be read from a parser and
/// knows the span of text it was read from.
pub trait Token: Sized + View {
    /// What reading a node of this kind does to a cursor, and what it yields.
    spec fn parse_spec(c: Cursor) -> (Cursor, Result<Self::V, ErrorView>);

    /// The span that a node records.
    spec fn span(node: Self::V) -> CharRect;

    /// Reads a node at the parser's place, within the frame that is open.
    fn parse(parser: &mut Parser) -> (r: Result<Self, Error>)
        ensures
            final(parser)@ == Self::parse_spec(old(parser)@).0,
            result_view(r) == Self::parse_spec(old(parser)@).1,
    ;

    /// The span of text that the node was read from.
    fn char_rect(&self) -> (rect: CharRect)
        ensures
            rect == Self::span(self@),
    ;

    /// Whether a node of this kind has a span of its own: the span of its
    /// frame at the end of reading it. A node without one takes the span of
    /// the node it holds.
    spec fn own_span() -> bool;

    /// A node that is read records every token that it takes; and its span,
    /// where it has one of its own, is the span of the frame it was read in.
    proof fn lemma_parse_records(c: Cursor)
        ensures
            Self::parse_spec(c).1 matches Ok(node) ==> {
                &&& records(c, Self::parse_spec(c).0)
                &&& Self::own_span() ==> Self::parse_spec(c).0.frames.len() > 0 && Self::span(node)
                    == span_of(Self::parse_spec(c).0.frames.last())
            },
    ;
}

/// A node that cannot be read from nothing: reading one takes at least one
/// token. Only such nodes can be the elements of a list.
pub trait Element: Token {
    proof fn lemma_parse_takes(c: Cursor)
        ensures
            Self::parse_spec(c).0.rest.len() <= c.rest.len(),
            Self::parse_spec(c).1 is Ok ==> Self::parse_spec(c).0.rest.len() < c.rest.len(),
    ;
}

/// A kind of value that a single word names.
pub trait FromWord: Sized {
    /// The value that `word` names, or why it names none.
    spec fn from_word_spec(word: Seq<char>) -> Result<Self, ParseErrorView>;

    /// The value that `word` names.
    fn from_word(word: &str) -> (r: Result<Self, ParseError>)
        ensures
            match r {
                Ok(value) => Self::from_word_spec(word@) == Ok::<Self, ParseErrorView>(value),
                Err(e) => Self::from_word_spec(word@) == Err::<Self, ParseErrorView>(e@),
            },
    ;
}

/// What a node read in a frame of its own leaves behind: on success its frame
/// is closed into the one around it; after a failure the frame stays open.
pub open spec fn close_frame<V>(inner: (Cursor, Result<V, ErrorView>)) -> (
    Cursor,
    Result<V, ErrorView>,
) {
    match inner.1 {
        Ok(node) => (inner.0.end_token(), Ok(node)),
        Err(e) => (inner.0, Err(e)),
    }
}

/// What `inner` yields, made into something else by `make`.
pub open spec fn wrap<A, B>(inner: (Cursor, Result<A, ErrorView>), make: spec_fn(A) -> B) -> (
    Cursor,
    Result<B, ErrorView>,
) {
    match inner.1 {
        Ok(node) => (inner.0, Ok(make(node))),
        Err(e) => (inner.0, Err(e)),
    }
}

/// What `inner` yields, together with the span of the node being read.
pub open spec fn with_rect<A>(inner: (Cursor, Result<A, ErrorView>)) -> (
    Cursor,
    Result<(A, CharRect), ErrorView>,
) {
    match inner.1 {
        Err(e) => (inner.0, Err(e)),
        Ok(node) => match inner.0.token_char_rect() {
            Err(e) => (inner.0, Err(e)),
            Ok(char_rect) => (inner.0, Ok((node, char_rect))),
        },
    }
}

/// The right-hand side of a setting: `=`, then a node of kind `T` in a frame
/// of its own, and with it the span of the node being read.
pub open spec fn assigned<T: Token>(c: Cursor) -> (Cursor, Result<(T::V, CharRect), ErrorView>) {
    let after = c.expect_reserved(seq!["="@]).0;
    match c.expect_reserved(seq!["="@]).1 {
        Err(e) => (after, Err(e)),
        Ok(_) => with_rect(after.token::<T>()),
    }
}

/// A setting takes at least its `=`.
pub proof fn lemma_assigned_takes<T: Element>(c: Cursor)
    ensures
        assigned::<T>(c).0.rest.len() <= c.rest.len(),
        assigned::<T>(c).1 is Ok ==> assigned::<T>(c).0.rest.len() < c.rest.len(),
{
    lemma_takes(c);
    lemma_token_takes::<T>(c.expect_reserved(seq!["="@]).0);
}

/// Reads the right-hand side of a setting.
pub fn read_assigned<T: Token>(parser: &mut Parser) -> (r: Result<(T, CharRect), Error>)
    ensures
        final(parser)@ == assigned::<T>(old(parser)@).0,
        match r {
            Ok(pair) => assigned::<T>(old(parser)@).1 == Ok::<(T::V, CharRect), ErrorView>(
                (pair.0@, pair.1),
            ),
            Err(e) => assigned::<T>(old(parser)@).1 == Err::<(T::V, CharRect), ErrorView>(e@),
        },
{
    parser.expect_symbol("=")?;
    let node = parser.token::<T>()?;
    let char_rect = parser.token_char_rect()?;
    Ok((node, char_rect))
}

/// `first` put before what `tail` yields, where it yields anything.
pub open spec fn prepend<V>(first: Seq<V>, tail: (Cursor, Result<Seq<V>, ErrorView>)) -> (
    Cursor,
    Result<Seq<V>, ErrorView>,
) {
    match tail.1 {
        Ok(others) => (tail.0, Ok(first + others)),
        Err(e) => (tail.0, Err(e)),
    }
}

impl Cursor {
    /// Reads one node in a frame of its own: the frame is opened, the node is
    /// read, and the frame is closed into the one around it. After a failure
    /// the frame stays open.
    #[verifier::opaque]
    pub open spec fn token<T: Token>(self) -> (Cursor, Result<T::V, ErrorView>) {
        close_frame(T::parse_spec(self.start_token()))
    }

    /// Takes the next word and looks up the value that it names.
    pub open spec fn from_word<T: FromWord>(self) -> (Cursor, Result<T, ErrorView>) {
        let after = self.take_word().0;
        match self.take_word().1 {
            Err(e) => (after, Err(e)),
            Ok(word) => match T::from_word_spec(word) {
                Ok(value) => (after, Ok(value)),
                Err(e) => (after, Err(after.make_error(e))),
            },
        }
    }

    /// Reads nodes, one after the other and without frames of their own, until
    /// only comments are left.
    pub open spec fn all_tokens<T: Element>(self) -> (Cursor, Result<Seq<T::V>, ErrorView>)
        decreases self.rest.len(),
    {
        if !self.has_more() {
            (self, Ok(Seq::empty()))
        } else {
            let (after, r) = T::parse_spec(self);
            match r {
                Err(e) => (after, Err(e)),
                Ok(node) => {
                    proof {
                        T::lemma_parse_takes(self);
                    }
                    prepend(seq![node], after.all_tokens::<T>())
                },
            }
        }
    }
}

/// Reading a node in its own frame takes what reading it takes.
pub proof fn lemma_token_takes<T: Element>(c: Cursor)
    ensures
        c.token::<T>().0.rest.len() <= c.rest.len(),
        c.token::<T>().1 is Ok ==> c.token::<T>().0.rest.len() < c.rest.len(),
{
    reveal(Cursor::token);
    T::lemma_parse_takes(c.start_token());
}

/// A node read in a frame of its own hands on to the frame around it every
/// token that it took; and its span, where it has one of its own, is the span
/// of exactly those tokens.
pub proof fn lemma_token_records<T: Token>(c: Cursor)
    ensures
        c.token::<T>().1 matches Ok(node) ==> {
            &&& records(c, c.token::<T>().0)
            &&& T::own_span() ==> T::span(node) == span_of(
                c.rest.take(c.rest.len() - c.token::<T>().0.rest.len()),
            )
        },
{
    reveal(Cursor::token);
    T::lemma_parse_records(c.start_token());
    if T::parse_spec(c.start_token()).1 is Ok {
        lemma_records_framed(c, T::parse_spec(c.start_token()).0);
    }
}

/// The span of a node with a span of its own covers every token that the
/// node and the nodes within it took: all tokens from where reading began to
/// where it ended, comments included.
pub proof fn lemma_node_span_covers_its_tokens<T: Token>(c: Cursor, i: int)
    requires
        T::own_span(),
        c.token::<T>().1 is Ok,
        0 <= i < c.rest.len() - c.token::<T>().0.rest.len(),
    ensures
        c.token::<T>().0.rest == c.rest.skip(c.rest.len() - c.token::<T>().0.rest.len()),
        T::span(c.token::<T>().1->Ok_0).covers(c.rest[i].rect),
{
    lemma_token_records::<T>(c);
    reveal(records);
    lemma_span_of_covers(c.rest.take(c.rest.len() - c.token::<T>().0.rest.len()), i);
}

/// Nodes read one after the other record every token that they take.
pub proof fn lemma_all_tokens_records<T: Element>(c: Cursor)
    ensures
        c.all_tokens::<T>().1 is Ok ==> records(c, c.all_tokens::<T>().0),
    decreases c.rest.len(),
{
    lemma_records_same(c);
    if c.has_more() {
        T::lemma_parse_records(c);
        T::lemma_parse_takes(c);
        let after = T::parse_spec(c).0;
        if T::parse_spec(c).1 is Ok {
            lemma_all_tokens_records::<T>(after);
            lemma_records_chain(c, after, after.all_tokens::<T>().0);
        }
    }
}

/// A setting records every token that it takes, and its span is the span of
/// the frame it was read in.
pub proof fn lemma_assigned_records<T: Token>(c: Cursor)
    ensures
        assigned::<T>(c).1 matches Ok(found) ==> {
            &&& records(c, assigned::<T>(c).0)
            &&& assigned::<T>(c).0.frames.len() > 0
            &&& found.1 == span_of(assigned::<T>(c).0.frames.last())
        },
{
    lemma_records_takes(c);
    let after = c.expect_reserved(seq!["="@]).0;
    lemma_token_records::<T>(after);
    lemma_records_chain(c, after, after.token::<T>().0);
}

impl Parser {
    /// Reads one node in a frame of its own.
    pub fn token<T: Token>(&mut self) -> (r: Result<T, Error>)
        ensures
            final(self)@ == old(self)@.token::<T>().0,
            result_view(r) == old(self)@.token::<T>().1,
    {
        reveal(Cursor::token);
        self.start_token();
        let token = T::parse(self)?;
        self.end_token();
        Ok(token)
    }

    /// Takes the next word and looks up the value that it names.
    pub fn from_word<T: FromWord>(&mut self) -> (r: Result<T, Error>)
        ensures
            final(self)@ == old(self)@.from_word::<T>().0,
            match r {
                Ok(value) => old(self)@.from_word::<T>().1 == Ok::<T, ErrorView>(value),
                Err(e) => old(self)@.from_word::<T>().1 == Err::<T, ErrorView>(e@),
            },
    {
        let word = self.take_word()?;
        match T::from_word(word.as_str()) {
            Ok(value) => Ok(value),
            Err(e) => Err(self.make_error(e)),
        }
    }

    /// Reads nodes until only comments are left.
    pub fn all_tokens<T: Element>(&mut self) -> (r: Result<Vec<T>, Error>)
        ensures
            final(self)@ == old(self)@.all_tokens::<T>().0,
            match r {
                Ok(nodes) => old(self)@.all_tokens::<T>().1 == Ok::<Seq<T::V>, ErrorView>(
                    views(nodes@),
                ),
                Err(e) => old(self)@.all_tokens::<T>().1 == Err::<Seq<T::V>, ErrorView>(e@),
            },
    {
        let mut tokens: Vec<T> = Vec::new();
        assert(views(tokens@) + Seq::<T::V>::empty() =~= Seq::<T::V>::empty());
        while self.has_more()
            invariant
                old(self)@.all_tokens::<T>() == prepend(views(tokens@), self@.all_tokens::<T>()),
            decreases self@.rest.len(),
        {
            let ghost before = self@;
            let ghost done = views(tokens@);
            proof {
                T::lemma_parse_takes(before);
            }
            match T::parse(self) {
                Err(e) => {
                    return Err(e);
                },
                Ok(token) => {
                    proof {
                        lemma_views_push(tokens@, token);
                        let tail = self@.all_tokens::<T>();
                        match tail.1 {
                            Ok(others) => {
                                assert(done + (seq![token@] + others) =~= done.push(token@)
                                    + others);
                            },
                            Err(_) => {},
                        }
                    }
                    tokens.push(token);
                },
            }
        }
        assert(views(tokens@) + Seq::<T::V>::empty() =~= views(tokens@));
        Ok(tokens)
    }
}

/// What can stand in the block of a declaration.
#[derive(Debug)]
pub enum ChildToken {
    Fields(FieldsToken),
    Implements(ImplementsToken),
    Overrides(OverridesToken),
    Virtuals(VirtualsToken),
    EnumType(EnumTypeToken),
    Values(EnumValuesToken),
    Functions(FunctionsToken),
}

/// The mathematical value of a [`ChildToken`].
pub enum ChildView {
    Fields(FieldsView),
    Implements(ImplementsView),
    Overrides(OverridesView),
    Virtuals(VirtualsView),
    EnumType(EnumTypeView),
    Values(EnumValuesView),
    Functions(FunctionsView),
}

impl View for ChildToken {
    type V = ChildView;

    open spec fn view(&self) -> ChildView {
        match self {
            ChildToken::Fields(inner) => ChildView::Fields(inner@),
            ChildToken::Implements(inner) => ChildView::Implements(inner@),
            ChildToken::Overrides(inner) => ChildView::Overrides(inner@),
            ChildToken::Virtuals(inner) => ChildView::Virtuals(inner@),
            ChildToken::EnumType(inner) => ChildView::EnumType(inner@),
            ChildToken::Values(inner) => ChildView::Values(inner@),
            ChildToken::Functions(inner) => ChildView::Functions(inner@),
        }
    }
}

/// The words that start what stands in a block.
pub open spec fn child_words() -> Seq<Seq<char>> {
    seq!["fields"@, "implements"@, "overrides"@, "virtuals"@, "type"@, "values"@, "functions"@]
}

impl Token for ChildToken {
    /// One of the words `fields`, `implements`, `overrides`, `virtuals`,
    /// `type`, `values` and `functions`, and then what that word announces,
    /// in a frame of its own.
    open spec fn parse_spec(c: Cursor) -> (Cursor, Result<ChildView, ErrorView>) {
        let after = c.expect_word(child_words()).0;
        match c.expect_word(child_words()).1 {
            Err(e) => (after, Err(e)),
            Ok(word) => if word == "fields"@ {
                wrap(after.token::<FieldsToken>(), |inner: FieldsView| ChildView::Fields(inner))
            } else if word == "implements"@ {
                wrap(
                    after.token::<ImplementsToken>(),
                    |inner: ImplementsView| ChildView::Implements(inner),
                )
            } else if word == "overrides"@ {
                wrap(
                    after.token::<OverridesToken>(),
                    |inner: OverridesView| ChildView::Overrides(inner),
                )
            } else if word == "virtuals"@ {
                wrap(
                    after.token::<VirtualsToken>(),
                    |inner: VirtualsView| ChildView::Virtuals(inner),
                )
            } else if word == "type"@ {
                wrap(
                    after.token::<EnumTypeToken>(),
                    |inner: EnumTypeView| ChildView::EnumType(inner),
                )
            } else if word == "values"@ {
                wrap(
                    after.token::<EnumValuesToken>(),
                    |inner: EnumValuesView| ChildView::Values(inner),
                )
            } else {
                wrap(
                    after.token::<FunctionsToken>(),
                    |inner: FunctionsView| ChildView::Functions(inner),
                )
            },
        }
    }

    open spec fn span(node: ChildView) -> CharRect {
        match node {
            ChildView::Fields(inner) => inner.char_rect,
            ChildView::Implements(inner) => inner.char_rect,
            ChildView::Overrides(inner) => inner.char_rect,
            ChildView::Virtuals(inner) => inner.char_rect,
            ChildView::EnumType(inner) => inner.char_rect,
            ChildView::Values(inner) => inner.char_rect,
            ChildView::Functions(inner) => inner.char_rect,
        }
    }

    fn parse(parser: &mut Parser) -> (r: Result<Self, Error>) {
        let options = [
            "fields",
            "implements",
            "overrides",
            "virtuals",
            "type",
            "values",
            "functions",
        ];
        assert(views(options@) =~= child_words());
        let word = parser.expect_word(&options)?;
        if text_is(&word, "fields") {
            Ok(ChildToken::Fields(parser.token::<FieldsToken>()?))
        } else if text_is(&word, "implements") {
            Ok(ChildToken::Implements(parser.token::<ImplementsToken>()?))
        } else if text_is(&word, "overrides") {
            Ok(ChildToken::Overrides(parser.token::<OverridesToken>()?))
        } else if text_is(&word, "virtuals") {
            Ok(ChildToken::Virtuals(parser.token::<VirtualsToken>()?))
        } else if text_is(&word, "type") {
            Ok(ChildToken::EnumType(parser.token::<EnumTypeToken>()?))
        } else if text_is(&word, "values") {
            Ok(ChildToken::Values(parser.token::<EnumValuesToken>()?))
        } else {
            Ok(ChildToken::Functions(parser.token::<FunctionsToken>()?))
        }
    }

    fn char_rect(&self) -> (rect: CharRect) {
        match self {
            ChildToken::Fields(inner) => inner.char_rect(),
            ChildToken::Implements(inner) => inner.char_rect(),
            ChildToken::Overrides(inner) => inner.char_rect(),
            ChildToken::Virtuals(inner) => inner.char_rect(),
            ChildToken::EnumType(inner) => inner.char_rect(),
            ChildToken::Values(inner) => inner.char_rect(),
            ChildToken::Functions(inner) => inner.char_rect(),
        }
    }

    open spec fn own_span() -> bool {
        false
    }

    proof fn lemma_parse_records(c: Cursor) {
        ChildToken::lemma_records(c);
    }
}

impl ChildToken {
    /// What stands in a block records every token that it takes.
    proof fn lemma_records(c: Cursor)
        ensures
            ChildToken::parse_spec(c).1 is Ok ==> records(c, ChildToken::parse_spec(c).0),
    {
        lemma_records_takes(c);
        let after = c.expect_word(child_words()).0;
        lemma_token_records::<FieldsToken>(after);
        lemma_token_records::<ImplementsToken>(after);
        lemma_token_records::<OverridesToken>(after);
        lemma_token_records::<VirtualsToken>(after);
        lemma_token_records::<EnumTypeToken>(after);
        lemma_token_records::<EnumValuesToken>(after);
        lemma_token_records::<FunctionsToken>(after);
        lemma_records_chain(c, after, ChildToken::parse_spec(c).0);
    }
}

impl Element for ChildToken {
    proof fn lemma_parse_takes(c: Cursor) {
        lemma_takes(c);
        let after = c.expect_word(child_words()).0;
        lemma_token_takes::<FieldsToken>(after);
        lemma_token_takes::<ImplementsToken>(after);
        lemma_token_takes::<OverridesToken>(after);
        lemma_token_takes::<VirtualsToken>(after);
        lemma_token_takes::<EnumTypeToken>(after);
        lemma_token_takes::<EnumValuesToken>(after);
        lemma_token_takes::<FunctionsToken>(after);
    }
}

/// The block of a declaration: what stands between square brackets or braces,
/// one after the other, read in a frame of its own.
pub open spec fn block(c: Cursor) -> (Cursor, Result<ListView<ChildView>, ErrorView>) {
    close_frame(parse_with_full::<ChildToken>(c.start_token(), block_endings(), None))
}

/// A block takes at least its brackets.
pub proof fn lemma_block_takes(c: Cursor)
    ensures
        block(c).0.rest.len() <= c.rest.len(),
        block(c).1 is Ok ==> block(c).0.rest.len() < c.rest.len(),
{
    lemma_parse_with_full_takes::<ChildToken>(c.start_token(), block_endings(), None);
}

/// A block records every token that it takes.
pub proof fn lemma_block_records(c: Cursor)
    ensures
        block(c).1 is Ok ==> records(c, block(c).0),
{
    let inner = parse_with_full::<ChildToken>(c.start_token(), block_endings(), None);
    lemma_parse_with_full_records::<ChildToken>(c.start_token(), block_endings(), None);
    if inner.1 is Ok {
        lemma_records_framed(c, inner.0);
    }
}

/// Reads the block of a declaration.
pub fn read_block(parser: &mut Parser) -> (r: Result<ListToken<ChildToken>, Error>)
    ensures
        final(parser)@ == block(old(parser)@).0,
        result_view(r) == block(old(parser)@).1,
{
    parser.start_token();
    let list = ListToken::<ChildToken>::parse_no_delimiter(parser)?;
    parser.end_token();
    Ok(list)
}

/// A declaration at the top level of a file.
#[derive(Debug)]
pub enum RootToken {
    Module(ModuleToken),
    UseModule(ModuleToken),
    Class(ClassToken),
    Enum(EnumToken),
    Globals(GlobalsToken),
}

/// The mathematical value of a [`RootToken`].
pub enum RootView {
    Module(ModuleView),
    UseModule(ModuleView),
    Class(ClassView),
    Enum(EnumView),
    Globals(GlobalsView),
}

impl View for RootToken {
    type V = RootView;

    open spec fn view(&self) -> RootView {
        match self {
            RootToken::Module(inner) => RootView::Module(inner@),
            RootToken::UseModule(inner) => RootView::UseModule(inner@),
            RootToken::Class(inner) => RootView::Class(inner@),
            RootToken::Enum(inner) => RootView::Enum(inner@),
            RootToken::Globals(inner) => RootView::Globals(inner@),
        }
    }
}

/// The words that start a declaration.
pub open spec fn root_words() -> Seq<Seq<char>> {
    seq!["mod"@, "use"@, "class"@, "enum"@, "globals"@]
}

impl Token for RootToken {
    /// One of the words `mod`, `use`, `class`, `enum` and `globals`, and then
    /// what that word announces, in a frame of its own.
    open spec fn parse_spec(c: Cursor) -> (Cursor, Result<RootView, ErrorView>) {
        let after = c.expect_word(root_words()).0;
        match c.expect_word(root_words()).1 {
            Err(e) => (after, Err(e)),
            Ok(word) => if word == "mod"@ {
                wrap(after.token::<ModuleToken>(), |inner: ModuleView| RootView::Module(inner))
            } else if word == "use"@ {
                wrap(after.token::<ModuleToken>(), |inner: ModuleView| RootView::UseModule(inner))
            } else if word == "class"@ {
                wrap(after.token::<ClassToken>(), |inner: ClassView| RootView::Class(inner))
            } else if word == "enum"@ {
                wrap(after.token::<EnumToken>(), |inner: EnumView| RootView::Enum(inner))
            } else {
                wrap(after.token::<GlobalsToken>(), |inner: GlobalsView| RootView::Globals(inner))
            },
        }
    }

    open spec fn span(node: RootView) -> CharRect {
        match node {
            RootView::Module(inner) => inner.char_rect,
            RootView::UseModule(inner) => inner.char_rect,
            RootView::Class(inner) => inner.char_rect,
            RootView::Enum(inner) => inner.char_rect,
            RootView::Globals(inner) => inner.char_rect,
        }
    }

    fn parse(parser: &mut Parser) -> (r: Result<Self, Error>) {
        let options = ["mod", "use", "class", "enum", "globals"];
        assert(views(options@) =~= root_words());
        let word = parser.expect_word(&options)?;
        if text_is(&word, "mod") {
            Ok(RootToken::Module(parser.token::<ModuleToken>()?))
        } else if text_is(&word, "use") {
            Ok(RootToken::UseModule(parser.token::<ModuleToken>()?))
        } else if text_is(&word, "class") {
            Ok(RootToken::Class(parser.token::<ClassToken>()?))
        } else if text_is(&word, "enum") {
            Ok(RootToken::Enum(parser.token::<EnumToken>()?))
        } else {
            Ok(RootToken::Globals(parser.token::<GlobalsToken>()?))
        }
    }

    fn char_rect(&self) -> (rect: CharRect) {
        match self {
            RootToken::Module(inner) => inner.char_rect(),
            RootToken::UseModule(inner) => inner.char_rect(),
            RootToken::Class(inner) => inner.char_rect(),
            RootToken::Enum(inner) => inner.char_rect(),
            RootToken::Globals(inner) => inner.char_rect(),
        }
    }

    open spec fn own_span() -> bool {
        false
    }

    proof fn lemma_parse_records(c: Cursor) {
        RootToken::lemma_records(c);
    }
}

impl RootToken {
    /// A declaration records every token that it takes.
    proof fn lemma_records(c: Cursor)
        ensures
            RootToken::parse_spec(c).1 is Ok ==> records(c, RootToken::parse_spec(c).0),
    {
        lemma_records_takes(c);
        let after = c.expect_word(root_words()).0;
        lemma_token_records::<ModuleToken>(after);
        lemma_token_records::<ClassToken>(after);
        lemma_token_records::<EnumToken>(after);
        lemma_token_records::<GlobalsToken>(after);
        lemma_records_chain(c, after, RootToken::parse_spec(c).0);
    }
}

impl Element for RootToken {
    proof fn lemma_parse_takes(c: Cursor) {
        lemma_takes(c);
        let after = c.expect_word(root_words()).0;
        lemma_token_takes::<ModuleToken>(after);
        lemma_token_takes::<ClassToken>(after);
        lemma_token_takes::<EnumToken>(after);
        lemma_token_takes::<GlobalsToken>(after);
    }
}

/// A whole file: its name, its declarations in order, and the span of all of
/// them.
#[derive(Debug)]
pub struct FileToken {
    pub name: String,
    pub children: Vec<RootToken>,
    pub char_rect: CharRect,
}

/// The mathematical value of a [`FileToken`].
pub struct FileView {
    pub name: Seq<char>,
    pub children: Seq<RootView>,
    pub char_rect: CharRect,
}

impl View for FileToken {
    type V = FileView;

    open spec fn view(&self) -> FileView {
        FileView { name: self.name@, children: views(self.children@), char_rect: self.char_rect }
    }
}

impl FileView {
    /// The index of the first declaration that is a module declaration, or the
    /// number of declarations where there is none.
    pub open spec fn module_index(self) -> int
        decreases self.children.len(),
    {
        if self.children.len() == 0 {
            0
        } else if self.children[0] is Module {
            0
        } else {
            1 + (FileView { children: self.children.drop_first(), ..self }).module_index()
        }
    }

    /// The module that the file declares: its first module declaration.
    pub open spec fn module(self) -> Option<ModuleView> {
        if self.module_index() < self.children.len() {
            Some(self.children[self.module_index()]->Module_0)
        } else {
            None
        }
    }

    /// The error of a file that declares no module.
    pub open spec fn missing_module(self) -> ErrorView {
        ErrorView {
            file_name: self.name,
            char_rect: self.char_rect,
            err: BindingErrorView::Compute(ValidateErrorView::MissingModule { file_name: self.name }),
        }
    }
}

/// The first module declaration is a module declaration, and nothing before
/// it is one.
pub proof fn lemma_module_index(file: FileView)
    ensures
        0 <= file.module_index() <= file.children.len(),
        file.module_index() < file.children.len() ==> file.children[file.module_index()] is Module,
        forall|i: int| 0 <= i < file.module_index() ==> !(#[trigger] file.children[i] is Module),
    decreases file.children.len(),
{
    if file.children.len() > 0 && !(file.children[0] is Module) {
        let rest = FileView { children: file.children.drop_first(), ..file };
        lemma_module_index(rest);
        assert forall|i: int| 0 <= i < file.module_index() implies !(#[trigger] file.children[i]
            is Module) by {
            if i > 0 {
                assert(file.children[i] == rest.children[i - 1]);
            }
        }
    }
}

impl FileToken {
    /// The module that the file declares: its first module declaration. A
    /// file without one is in error.
    pub fn module(&self) -> (r: Result<&ModuleToken, Error>)
        ensures
            match r {
                Ok(module) => self@.module() == Some(module@),
                Err(e) => self@.module() is None && e@ == self@.missing_module(),
            },
    {
        let ghost file = self@;
        let mut i: usize = 0;
        proof {
            lemma_module_index(file);
        }
        while i < self.children.len()
            invariant
                i <= self.children.len(),
                file == self@,
                i <= file.module_index(),
                file.module_index() <= file.children.len(),
                file.module_index() < file.children.len() ==> file.children[file.module_index()]
                    is Module,
                forall|k: int| 0 <= k < file.module_index() ==> !(#[trigger] file.children[k]
                    is Module),
            decreases self.children.len() - i,
        {
            match &self.children[i] {
                RootToken::Module(module) => {
                    assert(file.children[i as int] is Module);
                    return Ok(module);
                },
                _ => {
                    assert(!(file.children[i as int] is Module));
                },
            }
            i = i + 1;
        }
        Err(
            Error {
                file_name: self.name.clone(),
                char_rect: self.char_rect,
                err: BindingError::Compute(
                    ValidateError::MissingModule { file_name: self.name.clone() },
                ),
            },
        )
    }
}

impl Token for FileToken {
    /// All declarations of the file, and the span of the node being read.
    open spec fn parse_spec(c: Cursor) -> (Cursor, Result<FileView, ErrorView>) {
        wrap(
            with_rect(c.all_tokens::<RootToken>()),
            |found: (Seq<RootView>, CharRect)|
                FileView { name: c.name, children: found.0, char_rect: found.1 },
        )
    }

    open spec fn span(node: FileView) -> CharRect {
        node.char_rect
    }

    fn parse(parser: &mut Parser) -> (r: Result<Self, Error>) {
        let name = parser.file().name.clone();
        let children = parser.all_tokens::<RootToken>()?;
        let char_rect = parser.token_char_rect()?;
        Ok(FileToken { name, children, char_rect })
    }

    fn char_rect(&self) -> (rect: CharRect) {
        self.char_rect
    }

    open spec fn own_span() -> bool {
        true
    }

    proof fn lemma_parse_records(c: Cursor) {
        lemma_all_tokens_records::<RootToken>(c);
    }
}

} // verus!
