use glob_regex::{add, compile, parse, ParseError, Parser, Primitive};
use regex::Regex;

#[test]
fn it_works() {
    let result = add(2, 2);
    assert_eq!(result, 4);
}

#[test]
fn plain_pattern_is_copied_verbatim() {
    assert_eq!(compile("hello/world.txt").unwrap(), "^hello/world.txt$");
    assert_eq!(compile("héllo wörld").unwrap(), "^héllo wörld$");
}

#[test]
fn empty_pattern() {
    assert_eq!(compile("").unwrap(), "^$");
}

#[test]
fn star_is_any() {
    assert_eq!(compile("*").unwrap(), "^.*$");
}

#[test]
fn double_star_is_recursive() {
    assert_eq!(compile("**").unwrap(), "^(?:.*/)*[^/]*$");
}

#[test]
fn question_mark_is_single() {
    assert_eq!(compile("?").unwrap(), "^.$");
}

#[test]
fn triple_star_is_recursive_then_any() {
    assert_eq!(compile("***").unwrap(), "^(?:.*/)*[^/]*.*$");
}

#[test]
fn list_of_alternatives() {
    assert_eq!(compile("{meow,purr}").unwrap(), "^(?:meow|purr)$");
}

#[test]
fn list_skips_empty_alternatives() {
    assert_eq!(compile("{,a,,b,}").unwrap(), "^(?:a|b)$");
}

#[test]
fn empty_list() {
    assert_eq!(compile("{}").unwrap(), "^(?:)$");
}

#[test]
fn range_body_is_kept() {
    assert_eq!(compile("[abc]").unwrap(), "^[abc]$");
    assert_eq!(compile("[^a-z\\]").unwrap(), "^[^a-z\\]$");
}

#[test]
fn empty_range() {
    assert_eq!(compile("[]").unwrap(), "^[]$");
}

#[test]
fn list_inside_url() {
    assert_eq!(
        compile("https://{meow,purr}.cat.com").unwrap(),
        "^https://(?:meow|purr).cat.com$"
    );
}

#[test]
fn unterminated_list_is_an_error() {
    assert_eq!(compile("{a"), Err(ParseError::UnterminatedList));
    assert_eq!(compile("x{a,b"), Err(ParseError::UnterminatedList));
}

#[test]
fn unterminated_range_is_an_error() {
    assert_eq!(compile("[a"), Err(ParseError::UnterminatedRange));
    assert_eq!(compile("x*[ab"), Err(ParseError::UnterminatedRange));
}

#[test]
fn escape_makes_next_char_literal() {
    assert_eq!(compile("a\\*b").unwrap(), "^a*b$");
    assert_eq!(compile("\\{x}").unwrap(), "^{x}$");
    assert_eq!(compile("\\\\").unwrap(), "^\\$");
}

#[test]
fn trailing_backslash_is_dropped() {
    assert_eq!(compile("ab\\").unwrap(), "^ab$");
}

#[test]
fn plain_run_is_one_literal() {
    let ast = parse("abcdefghij").unwrap();
    assert_eq!(ast.len(), 1);
    assert!(matches!(&ast[0], Primitive::Literal(s) if s == "abcdefghij"));
    let ast = parse("a").unwrap();
    assert_eq!(ast.len(), 1);
    assert!(matches!(&ast[0], Primitive::Literal(s) if s == "a"));
}

#[test]
fn escaped_chars_merge_into_literal() {
    let ast = parse("a\\*b\\?c").unwrap();
    assert_eq!(ast.len(), 1);
    assert!(matches!(&ast[0], Primitive::Literal(s) if s == "a*b?c"));
}

#[test]
fn literals_split_by_other_primitives() {
    let ast = parse("ab*cd{x,y}ef[gh]?**").unwrap();
    assert_eq!(ast.len(), 8);
    assert!(matches!(&ast[0], Primitive::Literal(s) if s == "ab"));
    assert!(matches!(&ast[1], Primitive::Any));
    assert!(matches!(&ast[2], Primitive::Literal(s) if s == "cd"));
    assert!(matches!(&ast[3], Primitive::List(v) if v.len() == 2 && v[0] == "x" && v[1] == "y"));
    assert!(matches!(&ast[4], Primitive::Literal(s) if s == "ef"));
    assert!(matches!(&ast[5], Primitive::Range(s) if s == "gh"));
    assert!(matches!(&ast[6], Primitive::Single));
    assert!(matches!(&ast[7], Primitive::Recursive));
}

#[test]
fn parse_reports_errors() {
    assert!(matches!(parse("{a"), Err(ParseError::UnterminatedList)));
    assert!(matches!(parse("[a"), Err(ParseError::UnterminatedRange)));
}

#[test]
fn parser_to_regex_then_again() {
    let mut parser = Parser::new("src/{a,b}/*.rs");
    assert_eq!(parser.to_regex().unwrap(), "^src/(?:a|b)/.*.rs$");
    assert_eq!(parser.to_regex().unwrap(), "^src/(?:a|b)/.*.rs$");
}

#[test]
fn compiled_list_and_range_match_like_a_glob() {
    let re = Regex::new(&compile("{meow,purr}-[abc]x").unwrap()).unwrap();
    for s in ["meow-ax", "meow-bx", "purr-cx"] {
        assert!(re.is_match(s), "{}", s);
    }
    for s in ["woof-ax", "meow-dx", "meow-ax!", "xmeow-ax", "meow-x", "meowpurr-ax", ""] {
        assert!(!re.is_match(s), "{}", s);
    }
}

#[test]
fn compiled_plain_pattern_matches_only_itself() {
    let re = Regex::new(&compile("docs/readme").unwrap()).unwrap();
    assert!(re.is_match("docs/readme"));
    assert!(!re.is_match("docs/readme2"));
    assert!(!re.is_match("my/docs/readme"));
}

#[test]
fn compiled_wildcards_match() {
    let re = Regex::new(&compile("src/**").unwrap()).unwrap();
    assert!(re.is_match("src/a/b/c.rs"));
    assert!(!re.is_match("lib/a.rs"));
    let re = Regex::new(&compile("*.rs").unwrap()).unwrap();
    assert!(re.is_match("main.rs"));
    let re = Regex::new(&compile("?.rs").unwrap()).unwrap();
    assert!(re.is_match("a.rs"));
    assert!(!re.is_match("ab.rs"));
}
