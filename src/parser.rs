//! A single-pass glob parser and the regex generator over its AST.

use vstd::prelude::*;

use crate::primitives::{ast_view, push_literal_char, Primitive, PrimitiveView, AST};

verus! {

/// Why a glob pattern was rejected.
#[derive(Debug, Clone, Copy, PartialEq, Eq, Structural)]
pub enum ParseError {
    /// A `{` with no `}` after it.
    UnterminatedList,
    /// A `[` with no `]` after it.
    UnterminatedRange,
}

/// The first position at or after `i` that holds `c`, or the length of `s` if none does.
pub open spec fn find_from(s: Seq<char>, i: int, c: char) -> int
    decreases s.len() - i,
{
    if i >= s.len() {
        s.len() as int
    } else if s[i] == c {
        i
    } else {
        find_from(s, i + 1, c)
    }
}

/// The alternatives collected so far from a list body, and the pending one.
pub open spec fn split_state(b: Seq<char>) -> (Seq<Seq<char>>, Seq<char>)
    decreases b.len(),
{
    if b.len() == 0 {
        (seq![], seq![])
    } else {
        let (items, cur) = split_state(b.drop_last());
        if b.last() == ',' {
            (flush_item(items, cur), seq![])
        } else {
            (items, cur.push(b.last()))
        }
    }
}

/// Adds a pending alternative, unless it is empty.
pub open spec fn flush_item(items: Seq<Seq<char>>, cur: Seq<char>) -> Seq<Seq<char>> {
    if cur.len() > 0 {
        items.push(cur)
    } else {
        items
    }
}

/// The alternatives of a list body: split at `,`, empty pieces dropped.
pub open spec fn list_items(b: Seq<char>) -> Seq<Seq<char>> {
    flush_item(split_state(b).0, split_state(b).1)
}

/// The result of parsing `s` from position `i` onto `ast`.
pub open spec fn parse_from(s: Seq<char>, i: int, ast: Seq<PrimitiveView>) -> Result<
    Seq<PrimitiveView>,
    ParseError,
>
    decreases s.len() - i,
    via parse_from_decreases
{
    if i < 0 || i >= s.len() {
        Ok(ast)
    } else if s[i] == '\\' {
        if i + 1 < s.len() {
            parse_from(s, i + 2, push_literal_char(ast, s[i + 1]))
        } else {
            Ok(ast)
        }
    } else if s[i] == '{' {
        let j = find_from(s, i + 1, '}');
        if j < s.len() {
            parse_from(s, j + 1, ast.push(PrimitiveView::List(list_items(s.subrange(i + 1, j)))))
        } else {
            Err(ParseError::UnterminatedList)
        }
    } else if s[i] == '[' {
        let j = find_from(s, i + 1, ']');
        if j < s.len() {
            parse_from(s, j + 1, ast.push(PrimitiveView::Range(s.subrange(i + 1, j))))
        } else {
            Err(ParseError::UnterminatedRange)
        }
    } else if s[i] == '*' {
        if i + 1 < s.len() && s[i + 1] == '*' {
            parse_from(s, i + 2, ast.push(PrimitiveView::Recursive))
        } else {
            parse_from(s, i + 1, ast.push(PrimitiveView::Any))
        }
    } else if s[i] == '?' {
        parse_from(s, i + 1, ast.push(PrimitiveView::Single))
    } else {
        parse_from(s, i + 1, push_literal_char(ast, s[i]))
    }
}

#[via_fn]
proof fn parse_from_decreases(s: Seq<char>, i: int, ast: Seq<PrimitiveView>) {
    if 0 <= i < s.len() {
        lemma_find_from_bounds(s, i + 1, '}');
        lemma_find_from_bounds(s, i + 1, ']');
    }
}

/// The AST of a whole glob pattern, or why it is rejected.
pub open spec fn parse_glob(s: Seq<char>) -> Result<Seq<PrimitiveView>, ParseError> {
    parse_from(s, 0, seq![])
}

/// `find_from` lands between `i` and the end, on `c` when it is short of the end,
/// and skips no `c`.
pub proof fn lemma_find_from_bounds(s: Seq<char>, i: int, c: char)
    requires
        0 <= i,
    ensures
        i <= find_from(s, i, c) || i > s.len(),
        find_from(s, i, c) <= s.len(),
        find_from(s, i, c) < s.len() ==> s[find_from(s, i, c)] == c,
        forall|k: int| i <= k < find_from(s, i, c) ==> s[k] != c,
    decreases s.len() - i,
{
    if i < s.len() && s[i] != c {
        lemma_find_from_bounds(s, i + 1, c);
    }
}

/// The alternatives joined by `|`, in order.
pub open spec fn join_items(items: Seq<Seq<char>>) -> Seq<char>
    decreases items.len(),
{
    if items.len() == 0 {
        seq![]
    } else if items.len() == 1 {
        items[0]
    } else {
        join_items(items.drop_last()) + seq!['|'] + items.last()
    }
}

/// What `**` stands for: any run of whole path segments, then one last segment.
pub open spec fn recursive_pattern() -> Seq<char> {
    seq!['(', '?', ':', '.', '*', '/', ')', '*', '[', '^', '/', ']', '*']
}

/// The regex text of one primitive.
pub open spec fn render(p: PrimitiveView) -> Seq<char> {
    match p {
        PrimitiveView::Literal(t) => t,
        PrimitiveView::Any => seq!['.', '*'],
        PrimitiveView::Recursive => recursive_pattern(),
        PrimitiveView::Single => seq!['.'],
        PrimitiveView::List(items) => seq!['(', '?', ':'] + join_items(items) + seq![')'],
        PrimitiveView::Range(r) => seq!['['] + r + seq![']'],
    }
}

/// The regex text of a sequence of primitives, concatenated in order.
pub open spec fn render_all(ast: Seq<PrimitiveView>) -> Seq<char>
    decreases ast.len(),
{
    if ast.len() == 0 {
        seq![]
    } else {
        render_all(ast.drop_last()) + render(ast.last())
    }
}

/// The anchored regex for an AST.
pub open spec fn regex_of(ast: Seq<PrimitiveView>) -> Seq<char> {
    seq!['^'] + render_all(ast) + seq!['$']
}

/// The regex that a glob pattern compiles to, or why it is rejected.
pub open spec fn compile_glob(s: Seq<char>) -> Result<Seq<char>, ParseError> {
    match parse_glob(s) {
        Ok(ast) => Ok(regex_of(ast)),
        Err(e) => Err(e),
    }
}

proof fn lemma_join_items_step(items: Seq<Seq<char>>, j: int)
    requires
        0 <= j < items.len(),
    ensures
        join_items(items.take(j + 1)) == if j == 0 {
            items[0]
        } else {
            join_items(items.take(j)) + seq!['|'] + items[j]
        },
{
    assert(items.take(j + 1).drop_last() =~= items.take(j));
}

proof fn lemma_render_all_step(ast: Seq<PrimitiveView>, k: int)
    requires
        0 <= k < ast.len(),
    ensures
        render_all(ast.take(k + 1)) == render_all(ast.take(k)) + render(ast[k]),
{
    assert(ast.take(k + 1).drop_last() =~= ast.take(k));
}

/// Parses a whole glob pattern into its AST.
pub fn parse(glob: &str) -> (r: Result<AST, ParseError>)
    ensures
        match parse_glob(glob@) {
            Ok(a) => r is Ok && ast_view(r->Ok_0@) == a,
            Err(e) => r is Err && r->Err_0 == e,
        },
{
    let mut parser = Parser::new(glob);
    match parser.parse() {
        Ok(()) => Ok(parser.ast),
        Err(e) => Err(e),
    }
}

/// A glob parser over one source pattern, with a forward-only cursor.
pub struct Parser {
    current: usize,
    source: Vec<char>,
    ast: AST,
}

impl Parser {
    /// The characters of the pattern.
    pub closed spec fn source_view(&self) -> Seq<char> {
        self.source@
    }

    /// The position of the cursor, in characters.
    pub closed spec fn cursor(&self) -> int {
        self.current as int
    }

    /// The primitives parsed so far.
    pub closed spec fn ast_model(&self) -> Seq<PrimitiveView> {
        ast_view(self.ast@)
    }

    /// The cursor stays within the pattern.
    pub closed spec fn wf(&self) -> bool {
        self.current <= self.source.len()
    }

    fn is_eol(&self) -> (r: bool)
        ensures
            r == (self.current >= self.source.len()),
    {
        self.current >= self.source.len()
    }

    fn char(&self) -> (c: char)
        requires
            self.current < self.source.len(),
        ensures
            c == self.source@[self.current as int],
    {
        self.source[self.current]
    }

    fn parse_literal(&mut self)
        requires
            old(self).current < old(self).source.len(),
        ensures
            final(self).current == old(self).current,
            final(self).source@ == old(self).source@,
            final(self).ast_model() == push_literal_char(old(self).ast_model(), old(self).source@[old(self).current as int]),
    {
        let c = self.char();
        let ghost before = ast_view(self.ast@);
        match self.ast.pop() {
            Some(Primitive::Literal(mut literal)) => {
                literal.push(c);
                self.ast.push(Primitive::Literal(literal));
                assert(ast_view(self.ast@) =~= push_literal_char(before, c));
            },
            Some(other) => {
                self.ast.push(other);
                let mut literal = String::new();
                literal.push(c);
                self.ast.push(Primitive::Literal(literal));
                assert(ast_view(self.ast@) =~= push_literal_char(before, c));
            },
            None => {
                let mut literal = String::new();
                literal.push(c);
                self.ast.push(Primitive::Literal(literal));
                assert(ast_view(self.ast@) =~= push_literal_char(before, c));
            },
        }
    }

    fn parse_range(&mut self) -> (r: Result<(), ParseError>)
        requires
            old(self).current < old(self).source.len(),
        ensures
            final(self).current <= final(self).source.len(),
            final(self).source@ == old(self).source@,
            ({
                let s = old(self).source@;
                let i = old(self).current as int;
                let j = find_from(s, i + 1, ']');
                if j < s.len() {
                    &&& r is Ok
                    &&& final(self).current == j
                    &&& final(self).ast_model() == old(self).ast_model().push(
                        PrimitiveView::Range(s.subrange(i + 1, j)),
                    )
                } else {
                    r == Err::<(), ParseError>(ParseError::UnterminatedRange)
                }
            }),
    {
        let ghost s = self.source@;
        let ghost i = self.current as int;
        proof {
            lemma_find_from_bounds(s, i + 1, ']');
        }
        self.current = self.current + 1;
        let mut range = String::new();
        while !self.is_eol() && self.char() != ']'
            invariant
                self.source@ == s,
                0 <= i,
                i + 1 <= self.current <= s.len(),
                self.ast == old(self).ast,
                find_from(s, i + 1, ']') == find_from(s, self.current as int, ']'),
                range@ == s.subrange(i + 1, self.current as int),
            decreases s.len() - self.current,
        {
            range.push(self.char());
            assert(range@ =~= s.subrange(i + 1, self.current + 1));
            self.current = self.current + 1;
        }
        if self.is_eol() {
            return Err(ParseError::UnterminatedRange);
        }
        self.ast.push(Primitive::Range(range));
        assert(ast_view(self.ast@) =~= ast_view(old(self).ast@).push(
            PrimitiveView::Range(s.subrange(i + 1, self.current as int)),
        ));
        Ok(())
    }

    fn parse_list(&mut self) -> (r: Result<(), ParseError>)
        requires
            old(self).current < old(self).source.len(),
        ensures
            final(self).current <= final(self).source.len(),
            final(self).source@ == old(self).source@,
            ({
                let s = old(self).source@;
                let i = old(self).current as int;
                let j = find_from(s, i + 1, '}');
                if j < s.len() {
                    &&& r is Ok
                    &&& final(self).current == j
                    &&& final(self).ast_model() == old(self).ast_model().push(
                        PrimitiveView::List(list_items(s.subrange(i + 1, j))),
                    )
                } else {
                    r == Err::<(), ParseError>(ParseError::UnterminatedList)
                }
            }),
    {
        let ghost s = self.source@;
        let ghost i = self.current as int;
        self.current = self.current + 1;
        let mut list: Vec<String> = Vec::new();
        let mut current_item = String::new();
        assert(s.subrange(i + 1, i + 1) =~= Seq::<char>::empty());
        while !self.is_eol() && self.char() != '}'
            invariant
                self.source@ == s,
                0 <= i,
                i + 1 <= self.current <= s.len(),
                self.ast == old(self).ast,
                find_from(s, i + 1, '}') == find_from(s, self.current as int, '}'),
                (list.deep_view(), current_item@) == split_state(
                    s.subrange(i + 1, self.current as int),
                ),
            decreases s.len() - self.current,
        {
            let c = self.char();
            let ghost body = s.subrange(i + 1, self.current + 1);
            assert(body.drop_last() =~= s.subrange(i + 1, self.current as int));
            if c == ',' {
                if !current_item.as_str().is_empty() {
                    list.push(current_item);
                    current_item = String::new();
                    assert(list.deep_view() =~= split_state(body).0);
                }
            } else {
                current_item.push(c);
            }
            self.current = self.current + 1;
        }
        if self.is_eol() {
            return Err(ParseError::UnterminatedList);
        }
        let ghost body = s.subrange(i + 1, self.current as int);
        if !current_item.as_str().is_empty() {
            list.push(current_item);
        }
        assert(list.deep_view() =~= list_items(body));
        self.ast.push(Primitive::List(list));
        assert(ast_view(self.ast@) =~= ast_view(old(self).ast@).push(
            PrimitiveView::List(list_items(body)),
        ));
        Ok(())
    }

    fn advance(&mut self)
        requires
            old(self).current < old(self).source.len(),
        ensures
            final(self).current == old(self).current + 1,
            final(self).source@ == old(self).source@,
            final(self).ast == old(self).ast,
    {
        self.current = self.current + 1;
    }

    fn peek(&self) -> (r: Option<char>)
        ensures
            r == (if self.current + 1 < self.source.len() {
                Some(self.source@[self.current + 1])
            } else {
                None::<char>
            }),
    {
        if self.current < self.source.len() && self.current + 1 < self.source.len() {
            Some(self.source[self.current + 1])
        } else {
            None
        }
    }

    fn push_primitive(&mut self, p: Primitive)
        ensures
            final(self).current == old(self).current,
            final(self).source@ == old(self).source@,
            final(self).ast_model() == old(self).ast_model().push(p@),
    {
        self.ast.push(p);
        assert(ast_view(self.ast@) =~= ast_view(old(self).ast@).push(p@));
    }

    fn parse(&mut self) -> (r: Result<(), ParseError>)
        requires
            old(self).wf(),
        ensures
            final(self).wf(),
            final(self).source@ == old(self).source@,
            match parse_from(old(self).source@, old(self).cursor(), old(self).ast_model()) {
                Ok(a) => {
                    &&& r is Ok
                    &&& final(self).ast_model() == a
                    &&& final(self).cursor() == final(self).source@.len()
                },
                Err(e) => r == Err::<(), ParseError>(e),
            },
    {
        let ghost s = self.source@;
        let ghost goal = parse_from(s, self.cursor(), self.ast_model());
        while !self.is_eol()
            invariant
                self.source@ == s,
                s == old(self).source@,
                goal == parse_from(s, old(self).cursor(), old(self).ast_model()),
                self.current <= s.len(),
                parse_from(s, self.current as int, self.ast_model()) == goal,
            decreases s.len() - self.current,
        {
            let c = self.char();
            if c == '\\' {
                self.advance();
                if !self.is_eol() {
                    self.parse_literal();
                    self.advance();
                }
            } else if c == '{' {
                proof {
                    lemma_find_from_bounds(s, self.current + 1, '}');
                }
                match self.parse_list() {
                    Ok(()) => self.advance(),
                    Err(e) => return Err(e),
                }
            } else if c == '[' {
                proof {
                    lemma_find_from_bounds(s, self.current + 1, ']');
                }
                match self.parse_range() {
                    Ok(()) => self.advance(),
                    Err(e) => return Err(e),
                }
            } else if c == '*' {
                if let Some('*') = self.peek() {
                    self.advance();
                    self.push_primitive(Primitive::Recursive);
                } else {
                    self.push_primitive(Primitive::Any);
                }
                self.advance();
            } else if c == '?' {
                self.push_primitive(Primitive::Single);
                self.advance();
            } else {
                self.parse_literal();
                self.advance();
            }
        }
        Ok(())
    }

    /// A parser at the start of `glob`, with nothing parsed yet.
    pub fn new(glob: &str) -> (p: Parser)
        ensures
            p.wf(),
            p.source_view() == glob@,
            p.cursor() == 0,
            p.ast_model() == Seq::<PrimitiveView>::empty(),
    {
        let mut source: Vec<char> = Vec::new();
        for c in it: glob.chars()
            invariant
                source@ == it.seq().take(it.index() as int),
        {
            source.push(c);
        }
        let ast: AST = Vec::new();
        let p = Parser { current: 0, source, ast };
        assert(ast_view(p.ast@) =~= Seq::<PrimitiveView>::empty());
        p
    }

    /// Parses the rest of the pattern and renders everything parsed as an anchored regex.
    pub fn to_regex(&mut self) -> (r: Result<String, ParseError>)
        requires
            old(self).wf(),
        ensures
            final(self).wf(),
            final(self).source_view() == old(self).source_view(),
            match parse_from(old(self).source_view(), old(self).cursor(), old(self).ast_model()) {
                Ok(a) => {
                    &&& r is Ok
                    &&& r->Ok_0@ == regex_of(a)
                    &&& final(self).ast_model() == a
                    &&& final(self).cursor() == final(self).source_view().len()
                },
                Err(e) => r == Err::<String, ParseError>(e),
            },
    {
        match self.parse() {
            Ok(()) => Ok(self.regex_generator()),
            Err(e) => Err(e),
        }
    }

    fn regex_generator(&self) -> (r: String)
        ensures
            r@ == regex_of(self.ast_model()),
    {
        let ghost model = self.ast_model();
        let mut regex_str = String::new();
        regex_str.push('^');
        let mut k: usize = 0;
        assert(model.take(0) =~= Seq::<PrimitiveView>::empty());
        while k < self.ast.len()
            invariant
                model == ast_view(self.ast@),
                k <= self.ast.len(),
                regex_str@ == seq!['^'] + render_all(model.take(k as int)),
            decreases self.ast.len() - k,
        {
            proof {
                lemma_render_all_step(model, k as int);
            }
            let ghost before = regex_str@;
            match &self.ast[k] {
                Primitive::Single => {
                    regex_str.push('.');
                },
                Primitive::Any => {
                    regex_str.push('.');
                    regex_str.push('*');
                },
                Primitive::Recursive => {
                    proof {
                        reveal_strlit("(?:.*/)*[^/]*");
                    }
                    regex_str.append("(?:.*/)*[^/]*");
                    assert("(?:.*/)*[^/]*"@ =~= recursive_pattern());
                },
                Primitive::Literal(literal) => {
                    regex_str.append(literal.as_str());
                },
                Primitive::Range(range) => {
                    regex_str.push('[');
                    regex_str.append(range.as_str());
                    regex_str.push(']');
                },
                Primitive::List(list) => {
                    let ghost items = list.deep_view();
                    regex_str.push('(');
                    regex_str.push('?');
                    regex_str.push(':');
                    let ghost opened = regex_str@;
                    let mut j: usize = 0;
                    assert(items.take(0) =~= Seq::<Seq<char>>::empty());
                    while j < list.len()
                        invariant
                            items == list.deep_view(),
                            j <= list.len(),
                            regex_str@ == opened + join_items(items.take(j as int)),
                        decreases list.len() - j,
                    {
                        proof {
                            lemma_join_items_step(items, j as int);
                        }
                        if j > 0 {
                            regex_str.push('|');
                        }
                        regex_str.append(list[j].as_str());
                        j = j + 1;
                    }
                    assert(items.take(list.len() as int) =~= items);
                    regex_str.push(')');
                },
            }
            assert(regex_str@ =~= before + render(model[k as int]));
            k = k + 1;
        }
        assert(model.take(self.ast.len() as int) =~= model);
        regex_str.push('$');
        regex_str
    }
}

} // verus!
