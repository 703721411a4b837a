//! General properties of glob compilation, proved over the parser's model.

use vstd::prelude::*;

use crate::parser::{compile_glob, parse_from, parse_glob, regex_of, render_all, render};
use crate::primitives::{literals_merged, push_literal_char, PrimitiveView};

verus! {

/// A character with a meaning of its own in a glob pattern.
pub open spec fn is_glob_meta(c: char) -> bool {
    c == '*' || c == '?' || c == '{' || c == '}' || c == '[' || c == ']' || c == '\\'
}

/// The pattern holds no glob metacharacter.
pub open spec fn is_plain(s: Seq<char>) -> bool {
    forall|k: int| 0 <= k < s.len() ==> !is_glob_meta(#[trigger] s[k])
}

/// Appends a run of literal characters one at a time.
pub open spec fn append_run(ast: Seq<PrimitiveView>, t: Seq<char>) -> Seq<PrimitiveView>
    decreases t.len(),
{
    if t.len() == 0 {
        ast
    } else {
        append_run(push_literal_char(ast, t[0]), t.drop_first())
    }
}

proof fn lemma_parse_plain_suffix(s: Seq<char>, i: int, ast: Seq<PrimitiveView>)
    requires
        is_plain(s),
        0 <= i <= s.len(),
    ensures
        parse_from(s, i, ast) == Ok::<Seq<PrimitiveView>, crate::parser::ParseError>(
            append_run(ast, s.subrange(i, s.len() as int)),
        ),
    decreases s.len() - i,
{
    if i < s.len() {
        assert(!is_glob_meta(s[i]));
        lemma_parse_plain_suffix(s, i + 1, push_literal_char(ast, s[i]));
        assert(s.subrange(i, s.len() as int).drop_first() =~= s.subrange(i + 1, s.len() as int));
    } else {
        assert(s.subrange(i, s.len() as int) =~= Seq::<char>::empty());
    }
}

proof fn lemma_run_onto_literal(u: Seq<char>, t: Seq<char>)
    ensures
        append_run(seq![PrimitiveView::Literal(u)], t) == seq![PrimitiveView::Literal(u + t)],
    decreases t.len(),
{
    if t.len() == 0 {
        assert(u + t =~= u);
    } else {
        let one = seq![PrimitiveView::Literal(u)];
        assert(push_literal_char(one, t[0]) =~= seq![PrimitiveView::Literal(u.push(t[0]))]);
        lemma_run_onto_literal(u.push(t[0]), t.drop_first());
        assert(u.push(t[0]) + t.drop_first() =~= u + t);
    }
}

/// A non-empty pattern without metacharacters parses to exactly one literal that
/// holds the whole pattern, however long it is.
pub proof fn lemma_plain_run_one_literal(s: Seq<char>)
    requires
        is_plain(s),
        s.len() > 0,
    ensures
        parse_glob(s) == Ok::<Seq<PrimitiveView>, crate::parser::ParseError>(
            seq![PrimitiveView::Literal(s)],
        ),
{
    lemma_parse_plain_suffix(s, 0, seq![]);
    assert(s.subrange(0, s.len() as int) =~= s);
    let first = seq![s[0]];
    assert(push_literal_char(seq![], s[0]) =~= seq![PrimitiveView::Literal(first)]);
    lemma_run_onto_literal(first, s.drop_first());
    assert(first + s.drop_first() =~= s);
}

/// A pattern without metacharacters compiles to itself, verbatim, between `^` and `$`.
pub proof fn lemma_plain_glob_verbatim(s: Seq<char>)
    requires
        is_plain(s),
    ensures
        compile_glob(s) == Ok::<Seq<char>, crate::parser::ParseError>(seq!['^'] + s + seq!['$']),
{
    if s.len() == 0 {
        assert(parse_from(s, 0, seq![]) == Ok::<Seq<PrimitiveView>, crate::parser::ParseError>(
            seq![],
        ));
        assert(s =~= Seq::<char>::empty());
        assert(regex_of(seq![]) =~= seq!['^'] + s + seq!['$']);
    } else {
        lemma_plain_run_one_literal(s);
        let ast = seq![PrimitiveView::Literal(s)];
        assert(ast.drop_last() =~= Seq::<PrimitiveView>::empty());
        assert(render_all(ast) == render_all(seq![]) + render(ast.last()));
        assert(render_all(ast) =~= s);
    }
}

proof fn lemma_push_literal_char_merged(ast: Seq<PrimitiveView>, c: char)
    requires
        literals_merged(ast),
    ensures
        literals_merged(push_literal_char(ast, c)),
{
}

proof fn lemma_push_other_merged(ast: Seq<PrimitiveView>, p: PrimitiveView)
    requires
        literals_merged(ast),
        !(p is Literal),
    ensures
        literals_merged(ast.push(p)),
{
}

proof fn lemma_parse_from_merged(s: Seq<char>, i: int, ast: Seq<PrimitiveView>)
    requires
        literals_merged(ast),
    ensures
        parse_from(s, i, ast) is Ok ==> literals_merged(parse_from(s, i, ast)->Ok_0),
    decreases s.len() - i,
{
    if 0 <= i < s.len() {
        if s[i] == '\\' {
            if i + 1 < s.len() {
                lemma_push_literal_char_merged(ast, s[i + 1]);
                lemma_parse_from_merged(s, i + 2, push_literal_char(ast, s[i + 1]));
            }
        } else if s[i] == '{' {
            let j = crate::parser::find_from(s, i + 1, '}');
            crate::parser::lemma_find_from_bounds(s, i + 1, '}');
            if j < s.len() {
                let p = PrimitiveView::List(crate::parser::list_items(s.subrange(i + 1, j)));
                lemma_push_other_merged(ast, p);
                lemma_parse_from_merged(s, j + 1, ast.push(p));
            }
        } else if s[i] == '[' {
            let j = crate::parser::find_from(s, i + 1, ']');
            crate::parser::lemma_find_from_bounds(s, i + 1, ']');
            if j < s.len() {
                let p = PrimitiveView::Range(s.subrange(i + 1, j));
                lemma_push_other_merged(ast, p);
                lemma_parse_from_merged(s, j + 1, ast.push(p));
            }
        } else if s[i] == '*' {
            if i + 1 < s.len() && s[i + 1] == '*' {
                lemma_push_other_merged(ast, PrimitiveView::Recursive);
                lemma_parse_from_merged(s, i + 2, ast.push(PrimitiveView::Recursive));
            } else {
                lemma_push_other_merged(ast, PrimitiveView::Any);
                lemma_parse_from_merged(s, i + 1, ast.push(PrimitiveView::Any));
            }
        } else if s[i] == '?' {
            lemma_push_other_merged(ast, PrimitiveView::Single);
            lemma_parse_from_merged(s, i + 1, ast.push(PrimitiveView::Single));
        } else {
            lemma_push_literal_char_merged(ast, s[i]);
            lemma_parse_from_merged(s, i + 1, push_literal_char(ast, s[i]));
        }
    }
}

/// Literal runs are always merged: in the AST of any accepted pattern no two
/// neighbouring primitives are both literals.
pub proof fn lemma_parsed_literals_merged(s: Seq<char>)
    ensures
        parse_glob(s) is Ok ==> literals_merged(parse_glob(s)->Ok_0),
{
    lemma_parse_from_merged(s, 0, seq![]);
}

} // verus!
