//! The globals declaration: a block of functions at fixed addresses.

use crate::error::{Error, ErrorView};
use crate::parser::{Cursor, Parser};
use crate::rect::CharRect;
use crate::tokens::general_tokens::{ListToken, ListView};
use crate::tokens::{
    block, lemma_block_records, lemma_block_takes, read_block, with_rect, wrap, ChildToken,
    ChildView, Element, Token,
};
use vstd::prelude::*;

verus! {

/// A globals declaration: its block.
#[derive(Debug)]
pub struct GlobalsToken {
    pub children: ListToken<ChildToken>,
    pub char_rect: CharRect,
}

/// The mathematical value of a [`GlobalsToken`].
pub struct GlobalsView {
    pub children: ListView<ChildView>,
    pub char_rect: CharRect,
}

impl View for GlobalsToken {
    type V = GlobalsView;

    open spec fn view(&self) -> GlobalsView {
        GlobalsView { children: self.children@, char_rect: self.char_rect }
    }
}

impl Token for GlobalsToken {
    open spec fn parse_spec(c: Cursor) -> (Cursor, Result<GlobalsView, ErrorView>) {
        wrap(
            with_rect(block(c)),
            |found: (ListView<ChildView>, CharRect)|
                GlobalsView { children: found.0, char_rect: found.1 },
        )
    }

    open spec fn span(node: GlobalsView) -> CharRect {
        node.char_rect
    }

    fn parse(parser: &mut Parser) -> (r: Result<Self, Error>) {
        let children = read_block(parser)?;
        let char_rect = parser.token_char_rect()?;
        Ok(GlobalsToken { children, char_rect })
    }

    fn char_rect(&self) -> (rect: CharRect) {
        self.char_rect
    }

    open spec fn own_span() -> bool {
        true
    }

    proof fn lemma_parse_records(c: Cursor) {
        lemma_block_records(c);
    }
}

impl Element for GlobalsToken {
    proof fn lemma_parse_takes(c: Cursor) {
        lemma_block_takes(c);
    }
}

} // verus!
