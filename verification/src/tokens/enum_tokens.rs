//! The enum declaration and what stands in its block: the underlying type and
//! the values.

use crate::error::{Error, ErrorView};
use crate::parser::{lemma_records_chain, lemma_records_takes, lemma_takes, Cursor, Parser};
use crate::rect::CharRect;
use crate::tokens::general_tokens::{ListToken, ListView, TypeToken, TypeView};
use crate::tokens::{
    assigned, block, lemma_assigned_records, lemma_assigned_takes, lemma_block_records,
    lemma_block_takes, read_assigned, read_block, with_rect, wrap, ChildToken, ChildView, Element,
    Token,
};
use vstd::prelude::*;

verus! {

/// An enum: its name and its block.
#[derive(Debug)]
pub struct EnumToken {
    pub name: String,
    pub children: ListToken<ChildToken>,
    pub char_rect: CharRect,
}

/// The mathematical value of an [`EnumToken`].
pub struct EnumView {
    pub name: Seq<char>,
    pub children: ListView<ChildView>,
    pub char_rect: CharRect,
}

impl View for EnumToken {
    type V = EnumView;

    open spec fn view(&self) -> EnumView {
        EnumView { name: self.name@, children: self.children@, char_rect: self.char_rect }
    }
}

impl Token for EnumToken {
    open spec fn parse_spec(c: Cursor) -> (Cursor, Result<EnumView, ErrorView>) {
        let named = c.take_word().0;
        match c.take_word().1 {
            Err(e) => (named, Err(e)),
            Ok(name) => wrap(
                with_rect(block(named)),
                |found: (ListView<ChildView>, CharRect)|
                    EnumView { name, children: found.0, char_rect: found.1 },
            ),
        }
    }

    open spec fn span(node: EnumView) -> CharRect {
        node.char_rect
    }

    fn parse(parser: &mut Parser) -> (r: Result<Self, Error>) {
        let name = parser.take_word()?;
        let children = read_block(parser)?;
        let char_rect = parser.token_char_rect()?;
        Ok(EnumToken { name, children, char_rect })
    }

    fn char_rect(&self) -> (rect: CharRect) {
        self.char_rect
    }

    open spec fn own_span() -> bool {
        true
    }

    proof fn lemma_parse_records(c: Cursor) {
        lemma_records_takes(c);
        let named = c.take_word().0;
        lemma_block_records(named);
        lemma_records_chain(c, named, block(named).0);
    }
}

impl Element for EnumToken {
    proof fn lemma_parse_takes(c: Cursor) {
        lemma_takes(c);
        lemma_block_takes(c.take_word().0);
    }
}

/// The underlying type of an enum: `=` and a type.
#[derive(Debug)]
pub struct EnumTypeToken {
    pub ty: TypeToken,
    pub char_rect: CharRect,
}

/// The mathematical value of an [`EnumTypeToken`].
pub struct EnumTypeView {
    pub ty: TypeView,
    pub char_rect: CharRect,
}

impl View for EnumTypeToken {
    type V = EnumTypeView;

    open spec fn view(&self) -> EnumTypeView {
        EnumTypeView { ty: self.ty@, char_rect: self.char_rect }
    }
}

impl Token for EnumTypeToken {
    open spec fn parse_spec(c: Cursor) -> (Cursor, Result<EnumTypeView, ErrorView>) {
        wrap(
            assigned::<TypeToken>(c),
            |found: (TypeView, CharRect)| EnumTypeView { ty: found.0, char_rect: found.1 },
        )
    }

    open spec fn span(node: EnumTypeView) -> CharRect {
        node.char_rect
    }

    fn parse(parser: &mut Parser) -> (r: Result<Self, Error>) {
        let (ty, char_rect) = read_assigned::<TypeToken>(parser)?;
        Ok(EnumTypeToken { ty, char_rect })
    }

    fn char_rect(&self) -> (rect: CharRect) {
        self.char_rect
    }

    open spec fn own_span() -> bool {
        true
    }

    proof fn lemma_parse_records(c: Cursor) {
        lemma_assigned_records::<TypeToken>(c);
    }
}

impl Element for EnumTypeToken {
    proof fn lemma_parse_takes(c: Cursor) {
        lemma_assigned_takes::<TypeToken>(c);
    }
}

/// A value of an enum: its name, `=` and the text of its value.
#[derive(Debug)]
pub struct EnumValueToken {
    pub name: String,
    pub value: String,
    pub char_rect: CharRect,
}

/// The mathematical value of an [`EnumValueToken`].
pub struct EnumValueView {
    pub name: Seq<char>,
    pub value: Seq<char>,
    pub char_rect: CharRect,
}

impl View for EnumValueToken {
    type V = EnumValueView;

    open spec fn view(&self) -> EnumValueView {
        EnumValueView { name: self.name@, value: self.value@, char_rect: self.char_rect }
    }
}

impl Token for EnumValueToken {
    open spec fn parse_spec(c: Cursor) -> (Cursor, Result<EnumValueView, ErrorView>) {
        let named = c.take_word().0;
        match c.take_word().1 {
            Err(e) => (named, Err(e)),
            Ok(name) => {
                let set = named.expect_reserved(seq!["="@]).0;
                match named.expect_reserved(seq!["="@]).1 {
                    Err(e) => (set, Err(e)),
                    Ok(_) => wrap(
                        with_rect(set.take_word()),
                        |found: (Seq<char>, CharRect)|
                            EnumValueView { name, value: found.0, char_rect: found.1 },
                    ),
                }
            },
        }
    }

    open spec fn span(node: EnumValueView) -> CharRect {
        node.char_rect
    }

    fn parse(parser: &mut Parser) -> (r: Result<Self, Error>) {
        let name = parser.take_word()?;
        parser.expect_symbol("=")?;
        let value = parser.take_word()?;
        let char_rect = parser.token_char_rect()?;
        Ok(EnumValueToken { name, value, char_rect })
    }

    fn char_rect(&self) -> (rect: CharRect) {
        self.char_rect
    }

    open spec fn own_span() -> bool {
        true
    }

    proof fn lemma_parse_records(c: Cursor) {
        lemma_records_takes(c);
        let named = c.take_word().0;
        lemma_records_takes(named);
        let set = named.expect_reserved(seq!["="@]).0;
        lemma_records_takes(set);
        lemma_records_chain(c, named, set);
        lemma_records_chain(c, set, set.take_word().0);
    }
}

impl Element for EnumValueToken {
    proof fn lemma_parse_takes(c: Cursor) {
        lemma_takes(c);
        let named = c.take_word().0;
        lemma_takes(named);
        lemma_takes(named.expect_reserved(seq!["="@]).0);
    }
}

/// The values of an enum: `=` and a list of values.
#[derive(Debug)]
pub struct EnumValuesToken {
    pub values: ListToken<EnumValueToken>,
    pub char_rect: CharRect,
}

/// The mathematical value of an [`EnumValuesToken`].
pub struct EnumValuesView {
    pub values: ListView<EnumValueView>,
    pub char_rect: CharRect,
}

impl View for EnumValuesToken {
    type V = EnumValuesView;

    open spec fn view(&self) -> EnumValuesView {
        EnumValuesView { values: self.values@, char_rect: self.char_rect }
    }
}

impl Token for EnumValuesToken {
    open spec fn parse_spec(c: Cursor) -> (Cursor, Result<EnumValuesView, ErrorView>) {
        wrap(
            assigned::<ListToken<EnumValueToken>>(c),
            |found: (ListView<EnumValueView>, CharRect)|
                EnumValuesView { values: found.0, char_rect: found.1 },
        )
    }

    open spec fn span(node: EnumValuesView) -> CharRect {
        node.char_rect
    }

    fn parse(parser: &mut Parser) -> (r: Result<Self, Error>) {
        let (values, char_rect) = read_assigned::<ListToken<EnumValueToken>>(parser)?;
        Ok(EnumValuesToken { values, char_rect })
    }

    fn char_rect(&self) -> (rect: CharRect) {
        self.char_rect
    }

    open spec fn own_span() -> bool {
        true
    }

    proof fn lemma_parse_records(c: Cursor) {
        lemma_assigned_records::<ListToken<EnumValueToken>>(c);
    }
}

impl Element for EnumValuesToken {
    proof fn lemma_parse_takes(c: Cursor) {
        lemma_assigned_takes::<ListToken<EnumValueToken>>(c);
    }
}

} // verus!
