use airl::ast::{Expr, LitPattern, Pattern, PatternKind};
use airl::diagnostic::Diagnostics;
use airl::forms::parse_expr;
use airl::lexer::Lexer;
use airl::prover::{body_contains_recursive_call, clause_references_result, collect_recursive_calls};
use airl::sexpr::parse_sexpr_all;
use airl::span::Span;

fn expr(input: &str) -> Expr {
    let mut lexer = Lexer::new(input);
    let tokens = lexer.lex_all().unwrap();
    let sexprs = parse_sexpr_all(tokens).unwrap();
    let mut diags = Diagnostics::new();
    parse_expr(&sexprs[0], &mut diags).unwrap()
}

#[test]
fn call_prints_back() {
    assert_eq!(expr("(+ 1 (* x 2))").to_airl(), "(+ 1 (* x 2))");
}

#[test]
fn atoms_print_back() {
    assert_eq!(expr("\"hi\"").to_airl(), "\"hi\"");
    assert_eq!(expr(":key").to_airl(), ":key");
    assert_eq!(expr("nil").to_airl(), "nil");
    assert_eq!(expr("true").to_airl(), "true");
    assert_eq!(expr("-7").to_airl(), "-7");
    assert_eq!(expr("2.50").to_airl(), "2.50");
}

#[test]
fn forms_print_back() {
    assert_eq!(expr("(if c 1 2)").to_airl(), "(if c 1 2)");
    assert_eq!(expr("(let (x : i32 1) (y : i32 2) (+ x y))").to_airl(), "(let (x : i32 1) (y : i32 2) (+ x y))");
    assert_eq!(expr("(do a b)").to_airl(), "(do a b)");
    assert_eq!(expr("(match v (Ok x) x _ 0)").to_airl(), "(match v (Ok x) x _ 0)");
    assert_eq!(expr("(fn [a b] a)").to_airl(), "(fn [a b] a)");
    assert_eq!(expr("(try (f))").to_airl(), "(try (f))");
    assert_eq!(expr("(forall [i : Nat] (where (< i n)) (>= i 0))").to_airl(), "(forall [i : Nat] (where (< i n)) (>= i 0))");
    assert_eq!(expr("(exists [i : Nat] (= i 3))").to_airl(), "(exists [i : Nat] (= i 3))");
    assert_eq!(expr("(Ok 1)").to_airl(), "(Ok 1)");
    assert_eq!(expr("[1 2 3]").to_airl(), "[1 2 3]");
}

#[test]
fn nullary_variant_pattern_prints_in_parens() {
    let p = Pattern { kind: PatternKind::Variant("None".to_string(), vec![]), span: Span::dummy() };
    assert_eq!(p.to_airl(), "(None)");
    let q = Pattern { kind: PatternKind::Literal(LitPattern::Str("a".to_string())), span: Span::dummy() };
    assert_eq!(q.to_airl(), "\"a\"");
}

#[test]
fn result_mentions_are_found() {
    assert!(clause_references_result(&expr("(>= result 0)")));
    assert!(clause_references_result(&expr("(let (y : i64 result) y)")));
    assert!(!clause_references_result(&expr("(>= x 0)")));
    assert!(!clause_references_result(&expr("\"result\"")));
}

#[test]
fn recursive_calls_are_collected_in_order() {
    let body = expr("(if (= n 0) 0 (+ n (sum (- n 1)) (sum (sum 1))))");
    let calls = collect_recursive_calls(&body, "sum");
    assert_eq!(calls.len(), 3);
    assert_eq!(calls[0][0].to_airl(), "(- n 1)");
    assert_eq!(calls[1][0].to_airl(), "(sum 1)");
    assert_eq!(calls[2][0].to_airl(), "1");
    assert!(body_contains_recursive_call(&body, "sum"));
    assert!(!body_contains_recursive_call(&body, "fact"));
}
