use airl::ast::{Expr, ExprKind, LitPattern, MatchArm, Pattern, PatternKind};
use airl::diagnostic::Diagnostics;
use airl::display::DisplayPiece;
use airl::forms::parse_expr;
use airl::lexer::Lexer;
use airl::sexpr::parse_sexpr_all;
use airl::span::Span;

fn expr(input: &str) -> Expr {
    let mut lexer = Lexer::new(input);
    let tokens = lexer.lex_all().unwrap();
    let sexprs = parse_sexpr_all(tokens).unwrap();
    let mut diags = Diagnostics::new();
    parse_expr(&sexprs[0], &mut diags).unwrap()
}

/// The pieces joined, each float in Rust's formatting.
fn joined(e: &Expr) -> String {
    e.to_airl_pieces()
        .into_iter()
        .map(|p| match p {
            DisplayPiece::Text(s) => s,
            DisplayPiece::Float(bits) => f64::from_bits(bits).to_string(),
        })
        .collect()
}

#[test]
fn pieces_read_as_the_source_text() {
    for src in [
        "(+ 1 (* x 2))", "\"hi\"", ":key", "nil", "true", "-7", "2.50", "(if c 1 2)",
        "(let (x : i32 1) (y : i32 2) (+ x y))", "(do a b)", "(match v (Ok x) x _ 0 \"s\" 1 nil 2 true 3 -4 5)",
        "(fn [a b] a)", "(try (f))", "(forall [i : Nat] (where (< i n)) (>= i 0))", "(exists [j : i64] (= j 0))",
        "[1 2 3]", "[]", "(f)", "(Ok 1 2)", "(None)",
    ] {
        let e = expr(src);
        assert_eq!(joined(&e), e.to_airl(), "for {}", src);
    }
}

#[test]
fn float_patterns_are_left_as_pieces() {
    let sp = Span::dummy();
    let body = Expr { kind: ExprKind::IntLit(1), span: sp };
    let arm = MatchArm {
        pattern: Pattern { kind: PatternKind::Literal(LitPattern::Float(2.5f64.to_bits())), span: sp },
        body,
        span: sp,
    };
    let m = Expr {
        kind: ExprKind::Match(Box::new(Expr { kind: ExprKind::SymbolRef("x".into()), span: sp }), vec![arm]),
        span: sp,
    };
    let pieces = m.to_airl_pieces();
    assert!(pieces.iter().any(|p| matches!(p, DisplayPiece::Float(b) if *b == 2.5f64.to_bits())));
    assert_eq!(joined(&m), "(match x 2.5 1)");
}
