use airl::lexer::Lexer;
use airl::sexpr::{parse_sexpr_all, Atom, AtomKind, SExpr};

fn parse(input: &str) -> Vec<SExpr> {
    let mut lexer = Lexer::new(input);
    let tokens = lexer.lex_all().unwrap();
    parse_sexpr_all(tokens).unwrap()
}

#[test]
fn parse_single_atom() {
    let exprs = parse("42");
    assert_eq!(exprs.len(), 1);
    assert!(matches!(&exprs[0], SExpr::Atom(Atom { kind: AtomKind::Integer(42), .. })));
}

#[test]
fn parse_simple_list() {
    let exprs = parse("(+ 1 2)");
    assert_eq!(exprs.len(), 1);
    if let SExpr::List(items, _) = &exprs[0] {
        assert_eq!(items.len(), 3);
        assert_eq!(items[0].as_symbol(), Some("+"));
    } else {
        panic!("expected list");
    }
}

#[test]
fn parse_nested_list() {
    let exprs = parse("(+ (* 2 3) 4)");
    assert_eq!(exprs.len(), 1);
    if let SExpr::List(items, _) = &exprs[0] {
        assert_eq!(items.len(), 3);
        assert!(matches!(&items[1], SExpr::List(..)));
    } else {
        panic!("expected list");
    }
}

#[test]
fn parse_bracket_list() {
    let exprs = parse("[a b c]");
    assert_eq!(exprs.len(), 1);
    assert!(matches!(&exprs[0], SExpr::BracketList(items, _) if items.len() == 3));
}

#[test]
fn parse_bracket_with_commas() {
    let exprs = parse("[T, E]");
    if let SExpr::BracketList(items, _) = &exprs[0] {
        assert_eq!(items.len(), 2);
    } else {
        panic!("expected bracket list");
    }
}

#[test]
fn parse_multiple_top_level() {
    let exprs = parse("(a) (b) (c)");
    assert_eq!(exprs.len(), 3);
}

#[test]
fn parse_defn_structure() {
    let exprs = parse(r#"(defn foo :sig [(a : i32) -> i32] :body (+ a 1))"#);
    assert_eq!(exprs.len(), 1);
    if let SExpr::List(items, _) = &exprs[0] {
        assert_eq!(items[0].as_symbol(), Some("defn"));
        assert_eq!(items[1].as_symbol(), Some("foo"));
        assert_eq!(items[2].as_keyword(), Some("sig"));
    } else {
        panic!("expected list");
    }
}

#[test]
fn parse_unclosed_paren_error() {
    let mut lexer = Lexer::new("(+ 1 2");
    let tokens = lexer.lex_all().unwrap();
    assert!(parse_sexpr_all(tokens).is_err());
}

#[test]
fn roundtrip_preserves_structure() {
    let input = "(defn foo :sig [(a : i32) -> i32] :body (+ a 1))";
    let exprs1 = parse(input);
    assert_eq!(exprs1.len(), 1);
}

#[test]
fn parse_depth_limit_exceeded() {
    let depth = 1002;
    let input = "(".repeat(depth) + "x" + &")".repeat(depth);
    let mut lexer = Lexer::new(&input);
    let tokens = lexer.lex_all().unwrap();
    let result = parse_sexpr_all(tokens);
    assert!(result.is_err());
    let err = result.unwrap_err();
    assert!(err.message.contains("maximum nesting depth exceeded"), "expected depth error, got: {}", err.message);
}

#[test]
fn parse_depth_limit_not_triggered_for_normal_nesting() {
    let depth = 50;
    let input = "(".repeat(depth) + "x" + &")".repeat(depth);
    let exprs = parse(&input);
    assert_eq!(exprs.len(), 1);
}

#[test]
fn parse_depth_limit_bracket_lists() {
    let depth = 1002;
    let input = "[".repeat(depth) + "x" + &"]".repeat(depth);
    let mut lexer = Lexer::new(&input);
    let tokens = lexer.lex_all().unwrap();
    let result = parse_sexpr_all(tokens);
    assert!(result.is_err());
    let err = result.unwrap_err();
    assert!(err.message.contains("maximum nesting depth exceeded"), "expected depth error, got: {}", err.message);
}

#[test]
fn parse_strings_moved_not_cloned() {
    let tokens = Lexer::new(r#""hello world""#).lex_all().unwrap();
    let exprs = parse_sexpr_all(tokens).unwrap();
    assert_eq!(exprs.len(), 1);
    assert!(matches!(&exprs[0], SExpr::Atom(Atom { kind: AtomKind::Str(s), .. }) if s == "hello world"));
}

#[test]
fn parse_symbol_moved_not_cloned() {
    let tokens = Lexer::new("foo-bar").lex_all().unwrap();
    let exprs = parse_sexpr_all(tokens).unwrap();
    assert_eq!(exprs.len(), 1);
    assert!(matches!(&exprs[0], SExpr::Atom(Atom { kind: AtomKind::Symbol(s), .. }) if s == "foo-bar"));
}

#[test]
fn depth_exactly_at_limit_is_accepted() {
    let depth = 1000;
    let input = "(".repeat(depth) + "x" + &")".repeat(depth);
    let exprs = parse(&input);
    assert_eq!(exprs.len(), 1);
    let over = "(".repeat(depth + 1) + "x" + &")".repeat(depth + 1);
    let tokens = Lexer::new(&over).lex_all().unwrap();
    let err = parse_sexpr_all(tokens).unwrap_err();
    assert_eq!(err.message, "maximum nesting depth exceeded (1000)");
}

#[test]
fn stray_close_is_an_error() {
    let tokens = Lexer::new(")").lex_all().unwrap();
    let err = parse_sexpr_all(tokens).unwrap_err();
    assert_eq!(err.message, "unexpected token: RParen");
}

#[test]
fn colon_becomes_symbol_and_list_span_covers_delimiters() {
    let exprs = parse("(a : b)");
    if let SExpr::List(items, span) = &exprs[0] {
        assert_eq!(items[1].as_symbol(), Some(":"));
        assert_eq!(span.start, 0);
        assert_eq!(span.end, 7);
    } else {
        panic!("expected list");
    }
}

#[test]
fn unclosed_error_points_at_opening() {
    let tokens = Lexer::new("  [a b").lex_all().unwrap();
    let err = parse_sexpr_all(tokens).unwrap_err();
    assert_eq!(err.message, "unclosed delimiter");
    assert_eq!(err.span.start, 2);
}
