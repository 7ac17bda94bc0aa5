//! The class declaration and what stands in its block: fields, base classes,
//! overrides and virtual functions.

use crate::error::{Error, ErrorView};
use crate::model::{option_view, views};
use crate::parser::{
    lemma_records_chain, lemma_records_framed, lemma_records_same, lemma_records_takes,
    lemma_takes, Cursor, Parser,
};
use crate::rect::CharRect;
use crate::text::{decimal, decimal_text};
use crate::tokens::general_tokens::{
    angle_endings, lemma_parse_with_full_records, lemma_parse_with_full_takes, parse_with_full,
    FunctionToken, FunctionView, ListToken, ListView, TypeToken, TypeView, VariableToken,
    VariableView,
};
use crate::tokens::{
    assigned, block, close_frame, lemma_assigned_records, lemma_assigned_takes,
    lemma_block_records, lemma_block_takes, lemma_token_records, lemma_token_takes, read_assigned,
    read_block, with_rect, wrap, ChildToken, ChildView, Element, Token,
};
use vstd::prelude::*;
use vstd::string::StringExecFns;

verus! {

/// A generic parameter of a class: a name.
#[derive(Debug)]
pub struct ClassGenericToken {
    pub name: String,
    pub char_rect: CharRect,
}

/// The mathematical value of a [`ClassGenericToken`].
pub struct ClassGenericView {
    pub name: Seq<char>,
    pub char_rect: CharRect,
}

impl View for ClassGenericToken {
    type V = ClassGenericView;

    open spec fn view(&self) -> ClassGenericView {
        ClassGenericView { name: self.name@, char_rect: self.char_rect }
    }
}

impl Token for ClassGenericToken {
    open spec fn parse_spec(c: Cursor) -> (Cursor, Result<ClassGenericView, ErrorView>) {
        wrap(
            with_rect(c.take_word()),
            |found: (Seq<char>, CharRect)| ClassGenericView { name: found.0, char_rect: found.1 },
        )
    }

    open spec fn span(node: ClassGenericView) -> CharRect {
        node.char_rect
    }

    fn parse(parser: &mut Parser) -> (r: Result<Self, Error>) {
        let name = parser.take_word()?;
        let char_rect = parser.token_char_rect()?;
        Ok(ClassGenericToken { name, char_rect })
    }

    fn char_rect(&self) -> (rect: CharRect) {
        self.char_rect
    }

    open spec fn own_span() -> bool {
        true
    }

    proof fn lemma_parse_records(c: Cursor) {
        lemma_records_takes(c);
    }
}

impl Element for ClassGenericToken {
    proof fn lemma_parse_takes(c: Cursor) {
        lemma_takes(c);
    }
}

/// A class: its name, its generic parameters where `<` follows the name, and
/// its block.
#[derive(Debug)]
pub struct ClassToken {
    pub name: String,
    pub generics: Option<ListToken<ClassGenericToken>>,
    pub children: ListToken<ChildToken>,
    pub char_rect: CharRect,
}

/// The mathematical value of a [`ClassToken`].
pub struct ClassView {
    pub name: Seq<char>,
    pub generics: Option<ListView<ClassGenericView>>,
    pub children: ListView<ChildView>,
    pub char_rect: CharRect,
}

impl View for ClassToken {
    type V = ClassView;

    open spec fn view(&self) -> ClassView {
        ClassView {
            name: self.name@,
            generics: option_view(self.generics),
            children: self.children@,
            char_rect: self.char_rect,
        }
    }
}

/// The generic parameters of a class, where there are any: a list between
/// `<` and `>` in a frame of its own.
pub open spec fn class_generics(c: Cursor) -> (
    Cursor,
    Result<Option<ListView<ClassGenericView>>, ErrorView>,
) {
    match c.if_reserved("<"@) {
        Err(e) => (c, Err(e)),
        Ok(generic) => if generic {
            wrap(
                close_frame(
                    parse_with_full::<ClassGenericToken>(
                        c.start_token(),
                        angle_endings(),
                        Some(","@),
                    ),
                ),
                |list: ListView<ClassGenericView>| Some(list),
            )
        } else {
            (c, Ok(None))
        },
    }
}

impl Token for ClassToken {
    open spec fn parse_spec(c: Cursor) -> (Cursor, Result<ClassView, ErrorView>) {
        let named = c.take_word().0;
        match c.take_word().1 {
            Err(e) => (named, Err(e)),
            Ok(name) => {
                let listed = class_generics(named).0;
                match class_generics(named).1 {
                    Err(e) => (listed, Err(e)),
                    Ok(generics) => wrap(
                        with_rect(block(listed)),
                        |found: (ListView<ChildView>, CharRect)|
                            ClassView { name, generics, children: found.0, char_rect: found.1 },
                    ),
                }
            },
        }
    }

    open spec fn span(node: ClassView) -> CharRect {
        node.char_rect
    }

    fn parse(parser: &mut Parser) -> (r: Result<Self, Error>) {
        let name = parser.take_word()?;
        let generics = if parser.if_reserved("<")? {
            parser.start_token();
            let endings = [("<", ">")];
            assert(views(endings@) =~= angle_endings());
            let list = ListToken::<ClassGenericToken>::parse_with_endings(parser, &endings)?;
            parser.end_token();
            Some(list)
        } else {
            None
        };
        let children = read_block(parser)?;
        let char_rect = parser.token_char_rect()?;
        Ok(ClassToken { name, generics, children, char_rect })
    }

    fn char_rect(&self) -> (rect: CharRect) {
        self.char_rect
    }

    open spec fn own_span() -> bool {
        true
    }

    proof fn lemma_parse_records(c: Cursor) {
        lemma_records_takes(c);
        let named = c.take_word().0;
        lemma_records_same(named);
        let inner = parse_with_full::<ClassGenericToken>(
            named.start_token(),
            angle_endings(),
            Some(","@),
        );
        lemma_parse_with_full_records::<ClassGenericToken>(
            named.start_token(),
            angle_endings(),
            Some(","@),
        );
        if inner.1 is Ok {
            lemma_records_framed(named, inner.0);
        }
        let listed = class_generics(named).0;
        lemma_block_records(listed);
        lemma_records_chain(c, named, listed);
        lemma_records_chain(c, listed, block(listed).0);
    }
}

impl Element for ClassToken {
    proof fn lemma_parse_takes(c: Cursor) {
        lemma_takes(c);
        let named = c.take_word().0;
        lemma_parse_with_full_takes::<ClassGenericToken>(
            named.start_token(),
            angle_endings(),
            Some(","@),
        );
        lemma_block_takes(class_generics(named).0);
    }
}

/// A field of a class: its offset, `=` and the variable.
#[derive(Debug)]
pub struct FieldToken {
    pub offset: u32,
    pub variable: VariableToken,
    pub char_rect: CharRect,
}

/// The mathematical value of a [`FieldToken`].
pub struct FieldView {
    pub offset: nat,
    pub variable: VariableView,
    pub char_rect: CharRect,
}

impl View for FieldToken {
    type V = FieldView;

    open spec fn view(&self) -> FieldView {
        FieldView {
            offset: self.offset as nat,
            variable: self.variable@,
            char_rect: self.char_rect,
        }
    }
}

impl Token for FieldToken {
    open spec fn parse_spec(c: Cursor) -> (Cursor, Result<FieldView, ErrorView>) {
        let counted = c.expect_num::<u32>().0;
        match c.expect_num::<u32>().1 {
            Err(e) => (counted, Err(e)),
            Ok(offset) => wrap(
                assigned::<VariableToken>(counted),
                |found: (VariableView, CharRect)|
                    FieldView { offset, variable: found.0, char_rect: found.1 },
            ),
        }
    }

    open spec fn span(node: FieldView) -> CharRect {
        node.char_rect
    }

    fn parse(parser: &mut Parser) -> (r: Result<Self, Error>) {
        let offset = parser.expect_num::<u32>()?;
        let (variable, char_rect) = read_assigned::<VariableToken>(parser)?;
        Ok(FieldToken { offset, variable, char_rect })
    }

    fn char_rect(&self) -> (rect: CharRect) {
        self.char_rect
    }

    open spec fn own_span() -> bool {
        true
    }

    proof fn lemma_parse_records(c: Cursor) {
        lemma_records_takes(c);
        let counted = c.expect_num::<u32>().0;
        lemma_assigned_records::<VariableToken>(counted);
        lemma_records_chain(c, counted, assigned::<VariableToken>(counted).0);
    }
}

impl Element for FieldToken {
    proof fn lemma_parse_takes(c: Cursor) {
        lemma_takes(c);
        lemma_assigned_takes::<VariableToken>(c.expect_num::<u32>().0);
    }
}

/// The fields of a class: `=` and a list of fields.
#[derive(Debug)]
pub struct FieldsToken {
    pub fields: ListToken<FieldToken>,
    pub char_rect: CharRect,
}

/// The mathematical value of a [`FieldsToken`].
pub struct FieldsView {
    pub fields: ListView<FieldView>,
    pub char_rect: CharRect,
}

impl View for FieldsToken {
    type V = FieldsView;

    open spec fn view(&self) -> FieldsView {
        FieldsView { fields: self.fields@, char_rect: self.char_rect }
    }
}

impl Token for FieldsToken {
    open spec fn parse_spec(c: Cursor) -> (Cursor, Result<FieldsView, ErrorView>) {
        wrap(
            assigned::<ListToken<FieldToken>>(c),
            |found: (ListView<FieldView>, CharRect)|
                FieldsView { fields: found.0, char_rect: found.1 },
        )
    }

    open spec fn span(node: FieldsView) -> CharRect {
        node.char_rect
    }

    fn parse(parser: &mut Parser) -> (r: Result<Self, Error>) {
        let (fields, char_rect) = read_assigned::<ListToken<FieldToken>>(parser)?;
        Ok(FieldsToken { fields, char_rect })
    }

    fn char_rect(&self) -> (rect: CharRect) {
        self.char_rect
    }

    open spec fn own_span() -> bool {
        true
    }

    proof fn lemma_parse_records(c: Cursor) {
        lemma_assigned_records::<ListToken<FieldToken>>(c);
    }
}

impl Element for FieldsToken {
    proof fn lemma_parse_takes(c: Cursor) {
        lemma_assigned_takes::<ListToken<FieldToken>>(c);
    }
}

/// A base class: its type and, where `=` follows, the slot of its virtual
/// table.
#[derive(Debug)]
pub struct BaseClassToken {
    pub ty: TypeToken,
    pub vtable: Option<usize>,
    pub char_rect: CharRect,
}

/// The mathematical value of a [`BaseClassToken`].
pub struct BaseClassView {
    pub ty: TypeView,
    pub vtable: Option<nat>,
    pub char_rect: CharRect,
}

impl View for BaseClassToken {
    type V = BaseClassView;

    open spec fn view(&self) -> BaseClassView {
        BaseClassView {
            ty: self.ty@,
            vtable: match self.vtable {
                Some(slot) => Some(slot as nat),
                None => None,
            },
            char_rect: self.char_rect,
        }
    }
}

impl BaseClassToken {
    /// The base class in a few words: `vtable: N` where it has a slot, and
    /// `()` where it has none.
    pub open spec fn summary_text(self) -> Seq<char> {
        match self.vtable {
            Some(slot) => "vtable: "@ + decimal(slot as nat),
            None => "()"@,
        }
    }

    /// The base class in a few words.
    pub fn summary(&self) -> (text: String)
        ensures
            text@ == self.summary_text(),
    {
        match self.vtable {
            Some(slot) => {
                let mut text = "vtable: ".to_owned();
                text.append(decimal_text(slot).as_str());
                text
            },
            None => "()".to_owned(),
        }
    }
}

/// The slot of a virtual table, where `=` and a number follow.
pub open spec fn vtable_slot(c: Cursor) -> (Cursor, Result<Option<nat>, ErrorView>) {
    match c.if_reserved("="@) {
        Err(e) => (c, Err(e)),
        Ok(set) => if set {
            let dropped = c.drop_reserved().0;
            match c.drop_reserved().1 {
                Err(e) => (dropped, Err(e)),
                Ok(_) => wrap(dropped.expect_num::<usize>(), |slot: nat| Some(slot)),
            }
        } else {
            (c, Ok(None))
        },
    }
}

impl Token for BaseClassToken {
    open spec fn parse_spec(c: Cursor) -> (Cursor, Result<BaseClassView, ErrorView>) {
        let typed = c.token::<TypeToken>().0;
        match c.token::<TypeToken>().1 {
            Err(e) => (typed, Err(e)),
            Ok(ty) => wrap(
                with_rect(vtable_slot(typed)),
                |found: (Option<nat>, CharRect)|
                    BaseClassView { ty, vtable: found.0, char_rect: found.1 },
            ),
        }
    }

    open spec fn span(node: BaseClassView) -> CharRect {
        node.char_rect
    }

    fn parse(parser: &mut Parser) -> (r: Result<Self, Error>) {
        let ty = parser.token::<TypeToken>()?;
        let vtable = if parser.if_reserved("=")? {
            parser.drop_reserved()?;
            Some(parser.expect_num::<usize>()?)
        } else {
            None
        };
        let char_rect = parser.token_char_rect()?;
        Ok(BaseClassToken { ty, vtable, char_rect })
    }

    fn char_rect(&self) -> (rect: CharRect) {
        self.char_rect
    }

    open spec fn own_span() -> bool {
        true
    }

    proof fn lemma_parse_records(c: Cursor) {
        lemma_token_records::<TypeToken>(c);
        let typed = c.token::<TypeToken>().0;
        lemma_records_same(typed);
        lemma_records_takes(typed);
        let dropped = typed.drop_reserved().0;
        lemma_records_takes(dropped);
        let counted = dropped.expect_num::<usize>().0;
        lemma_records_chain(typed, dropped, counted);
        lemma_records_chain(c, typed, vtable_slot(typed).0);
    }
}

impl Element for BaseClassToken {
    proof fn lemma_parse_takes(c: Cursor) {
        lemma_token_takes::<TypeToken>(c);
        let typed = c.token::<TypeToken>().0;
        lemma_takes(typed);
        lemma_takes(typed.drop_reserved().0);
    }
}

/// The base classes of a class: `=` and a list of base classes.
#[derive(Debug)]
pub struct ImplementsToken {
    pub classes: ListToken<BaseClassToken>,
    pub char_rect: CharRect,
}

/// The mathematical value of an [`ImplementsToken`].
pub struct ImplementsView {
    pub classes: ListView<BaseClassView>,
    pub char_rect: CharRect,
}

impl View for ImplementsToken {
    type V = ImplementsView;

    open spec fn view(&self) -> ImplementsView {
        ImplementsView { classes: self.classes@, char_rect: self.char_rect }
    }
}

impl Token for ImplementsToken {
    open spec fn parse_spec(c: Cursor) -> (Cursor, Result<ImplementsView, ErrorView>) {
        wrap(
            assigned::<ListToken<BaseClassToken>>(c),
            |found: (ListView<BaseClassView>, CharRect)|
                ImplementsView { classes: found.0, char_rect: found.1 },
        )
    }

    open spec fn span(node: ImplementsView) -> CharRect {
        node.char_rect
    }

    fn parse(parser: &mut Parser) -> (r: Result<Self, Error>) {
        let (classes, char_rect) = read_assigned::<ListToken<BaseClassToken>>(parser)?;
        Ok(ImplementsToken { classes, char_rect })
    }

    fn char_rect(&self) -> (rect: CharRect) {
        self.char_rect
    }

    open spec fn own_span() -> bool {
        true
    }

    proof fn lemma_parse_records(c: Cursor) {
        lemma_assigned_records::<ListToken<BaseClassToken>>(c);
    }
}

impl Element for ImplementsToken {
    proof fn lemma_parse_takes(c: Cursor) {
        lemma_assigned_takes::<ListToken<BaseClassToken>>(c);
    }
}

/// A function that a class overrides: its name.
#[derive(Debug)]
pub struct FunctionOverrideToken {
    pub name: String,
    pub char_rect: CharRect,
}

/// The mathematical value of a [`FunctionOverrideToken`].
pub struct FunctionOverrideView {
    pub name: Seq<char>,
    pub char_rect: CharRect,
}

impl View for FunctionOverrideToken {
    type V = FunctionOverrideView;

    open spec fn view(&self) -> FunctionOverrideView {
        FunctionOverrideView { name: self.name@, char_rect: self.char_rect }
    }
}

impl Token for FunctionOverrideToken {
    open spec fn parse_spec(c: Cursor) -> (Cursor, Result<FunctionOverrideView, ErrorView>) {
        wrap(
            with_rect(c.take_word()),
            |found: (Seq<char>, CharRect)|
                FunctionOverrideView { name: found.0, char_rect: found.1 },
        )
    }

    open spec fn span(node: FunctionOverrideView) -> CharRect {
        node.char_rect
    }

    fn parse(parser: &mut Parser) -> (r: Result<Self, Error>) {
        let name = parser.take_word()?;
        let char_rect = parser.token_char_rect()?;
        Ok(FunctionOverrideToken { name, char_rect })
    }

    fn char_rect(&self) -> (rect: CharRect) {
        self.char_rect
    }

    open spec fn own_span() -> bool {
        true
    }

    proof fn lemma_parse_records(c: Cursor) {
        lemma_records_takes(c);
    }
}

impl Element for FunctionOverrideToken {
    proof fn lemma_parse_takes(c: Cursor) {
        lemma_takes(c);
    }
}

/// The overrides of the functions of one base class: the type of the base
/// class, `=` and a list of function names.
#[derive(Debug)]
pub struct ClassOverrideToken {
    pub class: TypeToken,
    pub functions: ListToken<FunctionOverrideToken>,
    pub char_rect: CharRect,
}

/// The mathematical value of a [`ClassOverrideToken`].
pub struct ClassOverrideView {
    pub class: TypeView,
    pub functions: ListView<FunctionOverrideView>,
    pub char_rect: CharRect,
}

impl View for ClassOverrideToken {
    type V = ClassOverrideView;

    open spec fn view(&self) -> ClassOverrideView {
        ClassOverrideView {
            class: self.class@,
            functions: self.functions@,
            char_rect: self.char_rect,
        }
    }
}

impl Token for ClassOverrideToken {
    open spec fn parse_spec(c: Cursor) -> (Cursor, Result<ClassOverrideView, ErrorView>) {
        let typed = TypeToken::parse_spec(c).0;
        match TypeToken::parse_spec(c).1 {
            Err(e) => (typed, Err(e)),
            Ok(class) => wrap(
                assigned::<ListToken<FunctionOverrideToken>>(typed),
                |found: (ListView<FunctionOverrideView>, CharRect)|
                    ClassOverrideView { class, functions: found.0, char_rect: found.1 },
            ),
        }
    }

    open spec fn span(node: ClassOverrideView) -> CharRect {
        node.char_rect
    }

    fn parse(parser: &mut Parser) -> (r: Result<Self, Error>) {
        let class = TypeToken::parse(parser)?;
        let (functions, char_rect) = read_assigned::<ListToken<FunctionOverrideToken>>(parser)?;
        Ok(ClassOverrideToken { class, functions, char_rect })
    }

    fn char_rect(&self) -> (rect: CharRect) {
        self.char_rect
    }

    open spec fn own_span() -> bool {
        true
    }

    proof fn lemma_parse_records(c: Cursor) {
        TypeToken::lemma_parse_records(c);
        let typed = TypeToken::parse_spec(c).0;
        lemma_assigned_records::<ListToken<FunctionOverrideToken>>(typed);
        lemma_records_chain(c, typed, assigned::<ListToken<FunctionOverrideToken>>(typed).0);
    }
}

impl Element for ClassOverrideToken {
    proof fn lemma_parse_takes(c: Cursor) {
        TypeToken::lemma_parse_takes(c);
        lemma_assigned_takes::<ListToken<FunctionOverrideToken>>(TypeToken::parse_spec(c).0);
    }
}

/// The overrides of a class: `=` and a list of overrides by base class.
#[derive(Debug)]
pub struct OverridesToken {
    pub classes: ListToken<ClassOverrideToken>,
    pub char_rect: CharRect,
}

/// The mathematical value of an [`OverridesToken`].
pub struct OverridesView {
    pub classes: ListView<ClassOverrideView>,
    pub char_rect: CharRect,
}

impl View for OverridesToken {
    type V = OverridesView;

    open spec fn view(&self) -> OverridesView {
        OverridesView { classes: self.classes@, char_rect: self.char_rect }
    }
}

impl Token for OverridesToken {
    open spec fn parse_spec(c: Cursor) -> (Cursor, Result<OverridesView, ErrorView>) {
        wrap(
            assigned::<ListToken<ClassOverrideToken>>(c),
            |found: (ListView<ClassOverrideView>, CharRect)|
                OverridesView { classes: found.0, char_rect: found.1 },
        )
    }

    open spec fn span(node: OverridesView) -> CharRect {
        node.char_rect
    }

    fn parse(parser: &mut Parser) -> (r: Result<Self, Error>) {
        let (classes, char_rect) = read_assigned::<ListToken<ClassOverrideToken>>(parser)?;
        Ok(OverridesToken { classes, char_rect })
    }

    fn char_rect(&self) -> (rect: CharRect) {
        self.char_rect
    }

    open spec fn own_span() -> bool {
        true
    }

    proof fn lemma_parse_records(c: Cursor) {
        lemma_assigned_records::<ListToken<ClassOverrideToken>>(c);
    }
}

impl Element for OverridesToken {
    proof fn lemma_parse_takes(c: Cursor) {
        lemma_assigned_takes::<ListToken<ClassOverrideToken>>(c);
    }
}

/// A virtual function: its slot in the virtual table, `=` and the function.
#[derive(Debug)]
pub struct VirtualToken {
    pub index: u32,
    pub function: FunctionToken,
    pub char_rect: CharRect,
}

/// The mathematical value of a [`VirtualToken`].
pub struct VirtualView {
    pub index: nat,
    pub function: FunctionView,
    pub char_rect: CharRect,
}

impl View for VirtualToken {
    type V = VirtualView;

    open spec fn view(&self) -> VirtualView {
        VirtualView {
            index: self.index as nat,
            function: self.function@,
            char_rect: self.char_rect,
        }
    }
}

impl Token for VirtualToken {
    open spec fn parse_spec(c: Cursor) -> (Cursor, Result<VirtualView, ErrorView>) {
        let counted = c.expect_num::<u32>().0;
        match c.expect_num::<u32>().1 {
            Err(e) => (counted, Err(e)),
            Ok(index) => wrap(
                assigned::<FunctionToken>(counted),
                |found: (FunctionView, CharRect)|
                    VirtualView { index, function: found.0, char_rect: found.1 },
            ),
        }
    }

    open spec fn span(node: VirtualView) -> CharRect {
        node.char_rect
    }

    fn parse(parser: &mut Parser) -> (r: Result<Self, Error>) {
        let index = parser.expect_num::<u32>()?;
        let (function, char_rect) = read_assigned::<FunctionToken>(parser)?;
        Ok(VirtualToken { index, function, char_rect })
    }

    fn char_rect(&self) -> (rect: CharRect) {
        self.char_rect
    }

    open spec fn own_span() -> bool {
        true
    }

    proof fn lemma_parse_records(c: Cursor) {
        lemma_records_takes(c);
        let counted = c.expect_num::<u32>().0;
        lemma_assigned_records::<FunctionToken>(counted);
        lemma_records_chain(c, counted, assigned::<FunctionToken>(counted).0);
    }
}

impl Element for VirtualToken {
    proof fn lemma_parse_takes(c: Cursor) {
        lemma_takes(c);
        lemma_assigned_takes::<FunctionToken>(c.expect_num::<u32>().0);
    }
}

/// The virtual functions of a class: `=` and a list of virtual functions.
#[derive(Debug)]
pub struct VirtualsToken {
    pub fields: ListToken<VirtualToken>,
    pub char_rect: CharRect,
}

/// The mathematical value of a [`VirtualsToken`].
pub struct VirtualsView {
    pub fields: ListView<VirtualView>,
    pub char_rect: CharRect,
}

impl View for VirtualsToken {
    type V = VirtualsView;

    open spec fn view(&self) -> VirtualsView {
        VirtualsView { fields: self.fields@, char_rect: self.char_rect }
    }
}

impl Token for VirtualsToken {
    open spec fn parse_spec(c: Cursor) -> (Cursor, Result<VirtualsView, ErrorView>) {
        wrap(
            assigned::<ListToken<VirtualToken>>(c),
            |found: (ListView<VirtualView>, CharRect)|
                VirtualsView { fields: found.0, char_rect: found.1 },
        )
    }

    open spec fn span(node: VirtualsView) -> CharRect {
        node.char_rect
    }

    fn parse(parser: &mut Parser) -> (r: Result<Self, Error>) {
        let (fields, char_rect) = read_assigned::<ListToken<VirtualToken>>(parser)?;
        Ok(VirtualsToken { fields, char_rect })
    }

    fn char_rect(&self) -> (rect: CharRect) {
        self.char_rect
    }

    open spec fn own_span() -> bool {
        true
    }

    proof fn lemma_parse_records(c: Cursor) {
        lemma_assigned_records::<ListToken<VirtualToken>>(c);
    }
}

impl Element for VirtualsToken {
    proof fn lemma_parse_takes(c: Cursor) {
        lemma_assigned_takes::<ListToken<VirtualToken>>(c);
    }
}

} // verus!
