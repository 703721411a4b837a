//! Compiles shell-style glob patterns into anchored regular-expression source strings.
//!
//! A pattern is parsed in one forward pass into a sequence of [`primitives::Primitive`]s,
//! which are then rendered, in order, between `^` and `$`.

pub mod laws;
pub mod parser;
pub mod primitives;

use vstd::prelude::*;

pub use crate::parser::{parse, ParseError, Parser};
pub use crate::primitives::{Primitive, AST};

use crate::parser::compile_glob;

verus! {

/// Adds two numbers.
pub fn add(left: u64, right: u64) -> (r: u64)
    requires
        left + right <= u64::MAX,
    ensures
        r == left + right,
{
    left + right
}

/// Takes a haystack and a glob and does no matching: run a regex engine on the
/// output of [`compile`] for that.
pub fn is_match(haystack: &str, glob: &str) {
}

/// Compiles a glob pattern into an anchored regex source string.
///
/// Fails with `UnterminatedList` or `UnterminatedRange` when a `{` or `[` is
/// never closed. Literal text is copied as it stands, regex metacharacters
/// included; a `\` at the very end escapes nothing and is dropped. An empty
/// list `{}` renders as `(?:)`, which matches the empty string; an empty range
/// `[]` renders as `[]`, which most regex engines refuse.
pub fn compile(glob: &str) -> (r: Result<String, ParseError>)
    ensures
        match compile_glob(glob@) {
            Ok(x) => r is Ok && r->Ok_0@ == x,
            Err(e) => r == Err::<String, ParseError>(e),
        },
{
    let mut parser = Parser::new(glob);
    parser.to_regex()
}

} // verus!
