//! The glob primitives that a pattern is parsed into, and their mathematical model.

use vstd::prelude::*;

verus! {

/// One glob construct.
#[derive(Debug)]
pub enum Primitive {
    /// One or more consecutive literal characters.
    Literal(String),
    /// `*`: zero or more characters.
    Any,
    /// `**`: zero or more path segments.
    Recursive,
    /// `?`: exactly one character.
    Single,
    /// `{a,b,c}`: one of the alternatives, in order.
    List(Vec<String>),
    /// `[...]`: the raw body of a character class.
    Range(String),
}

/// The model of a [`Primitive`], with strings seen as character sequences.
pub ghost enum PrimitiveView {
    Literal(Seq<char>),
    Any,
    Recursive,
    Single,
    List(Seq<Seq<char>>),
    Range(Seq<char>),
}

impl View for Primitive {
    type V = PrimitiveView;

    open spec fn view(&self) -> PrimitiveView {
        match self {
            Primitive::Literal(s) => PrimitiveView::Literal(s@),
            Primitive::Any => PrimitiveView::Any,
            Primitive::Recursive => PrimitiveView::Recursive,
            Primitive::Single => PrimitiveView::Single,
            Primitive::List(items) => PrimitiveView::List(items.deep_view()),
            Primitive::Range(s) => PrimitiveView::Range(s@),
        }
    }
}

/// An ordered sequence of primitives: left-to-right concatenation.
pub type AST = Vec<Primitive>;

/// The model of an AST.
pub open spec fn ast_view(ast: Seq<Primitive>) -> Seq<PrimitiveView> {
    ast.map_values(|p: Primitive| p@)
}

/// Appends one literal character: it joins a trailing literal, or starts a new one.
pub open spec fn push_literal_char(ast: Seq<PrimitiveView>, c: char) -> Seq<PrimitiveView> {
    if ast.len() > 0 && ast.last() is Literal {
        ast.drop_last().push(PrimitiveView::Literal(ast.last()->Literal_0.push(c)))
    } else {
        ast.push(PrimitiveView::Literal(seq![c]))
    }
}

/// No two neighbouring primitives are both literals.
pub open spec fn literals_merged(ast: Seq<PrimitiveView>) -> bool {
    forall|k: int| 0 <= k < ast.len() - 1 ==> !(#[trigger] ast[k] is Literal && ast[k + 1] is Literal)
}

/// Relies on `String::push`: the character is appended at the end.
pub assume_specification[ String::push ](s: &mut String, ch: char)
    ensures
        final(s)@ == old(s)@.push(ch),
;

} // verus!
