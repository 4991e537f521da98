use airl::ast::{AstType, AstTypeKind, Expr, ExprKind, LitPattern, MatchArm, Ownership, Param, Pattern, PatternKind};
use airl::diagnostic::Diagnostics;
use airl::forms::parse_expr;
use airl::lexer::Lexer;
use airl::sexpr::parse_sexpr_all;
use airl::smt::{SmtOp, Term, VarSort};
use airl::solver::TranslateError;
use airl::span::Span;
use airl::translate::{check_arity, SeedVal, Translator};

fn expr(input: &str) -> Expr {
    let mut lexer = Lexer::new(input);
    let tokens = lexer.lex_all().unwrap();
    let sexprs = parse_sexpr_all(tokens).unwrap();
    let mut diags = Diagnostics::new();
    parse_expr(&sexprs[0], &mut diags).unwrap()
}

fn sym(name: &str) -> Expr {
    Expr { kind: ExprKind::SymbolRef(name.into()), span: Span::dummy() }
}

fn call(op: &str, args: Vec<Expr>) -> Expr {
    Expr { kind: ExprKind::FnCall(Box::new(sym(op)), args), span: Span::dummy() }
}

fn ilit(v: i64) -> Expr {
    Expr { kind: ExprKind::IntLit(v), span: Span::dummy() }
}

fn text(t: &Result<Term, TranslateError>) -> String {
    format!("{:?}", t)
}

fn konst(name: &str, sort: VarSort) -> Term {
    Term::Const(name.to_string(), sort)
}

#[test]
fn translate_int_literal() {
    let mut t = Translator::new();
    let expr = Expr { kind: ExprKind::IntLit(42), span: Span::dummy() };
    assert!(t.translate_int(&expr).is_ok());
}

#[test]
fn translate_bool_literal() {
    let mut t = Translator::new();
    let expr = Expr { kind: ExprKind::BoolLit(true), span: Span::dummy() };
    assert!(t.translate_bool(&expr).is_ok());
}

#[test]
fn translate_int_variable() {
    let mut t = Translator::new();
    t.declare_int("x");
    let expr = sym("x");
    assert!(t.translate_int(&expr).is_ok());
}

#[test]
fn translate_undefined_variable() {
    let mut t = Translator::new();
    let expr = sym("y");
    assert!(t.translate_int(&expr).is_err());
}

#[test]
fn translate_addition() {
    let mut t = Translator::new();
    t.declare_int("a");
    t.declare_int("b");
    let expr = call("+", vec![sym("a"), sym("b")]);
    assert!(t.translate_int(&expr).is_ok());
}

#[test]
fn translate_equality() {
    let mut t = Translator::new();
    t.declare_int("result");
    t.declare_int("a");
    let expr = call("=", vec![sym("result"), sym("a")]);
    assert!(t.translate_bool(&expr).is_ok());
}

#[test]
fn translate_valid_returns_error() {
    let mut t = Translator::new();
    t.declare_int("x");
    let expr = call("valid", vec![sym("x")]);
    assert!(t.translate_bool(&expr).is_err(), "valid() should return an error");
}

#[test]
fn translate_unsupported_string() {
    let mut t = Translator::new();
    let expr = Expr { kind: ExprKind::StrLit("hello".into()), span: Span::dummy() };
    assert!(t.translate_int(&expr).is_err());
}

#[test]
fn sort_from_type() {
    assert!(matches!(Translator::sort_from_type_name("i32"), Some(VarSort::Int)));
    assert!(matches!(Translator::sort_from_type_name("bool"), Some(VarSort::Bool)));
    assert!(matches!(Translator::sort_from_type_name("f32"), Some(VarSort::Real)));
    assert!(matches!(Translator::sort_from_type_name("f64"), Some(VarSort::Real)));
    assert!(matches!(Translator::sort_from_type_name("String"), Some(VarSort::Str)));
    assert!(matches!(Translator::sort_from_type_name("str"), Some(VarSort::Str)));
}

#[test]
fn translate_real_nan_and_inf_return_err() {
    let mut t = Translator::new();
    let nan = Expr { kind: ExprKind::FloatLit(f64::NAN.to_string()), span: Span::dummy() };
    assert!(t.translate_real(&nan).is_err(), "NaN should return Err");
    let inf = Expr { kind: ExprKind::FloatLit(f64::INFINITY.to_string()), span: Span::dummy() };
    assert!(t.translate_real(&inf).is_err(), "Infinity should return Err");
}

#[test]
fn translate_real_large_float_no_overflow() {
    let mut t = Translator::new();
    let expr = Expr { kind: ExprKind::FloatLit(3000.5f64.to_string()), span: Span::dummy() };
    assert!(t.translate_real(&expr).is_ok(), "large float should succeed via integer fallback");
}

#[test]
fn translate_cmp_mixed_int_real() {
    let mut t = Translator::new();
    t.declare_int("n");
    t.declare_real("x");
    let expr = call("=", vec![sym("n"), sym("x")]);
    assert!(t.translate_bool(&expr).is_ok(), "mixed Int/Real comparison should succeed via coercion");
}

fn arm(pattern: PatternKind, body: Expr) -> MatchArm {
    MatchArm { pattern: Pattern { kind: pattern, span: Span::dummy() }, body, span: Span::dummy() }
}

fn match_expr(scrutinee: Expr, arms: Vec<MatchArm>) -> Expr {
    Expr { kind: ExprKind::Match(Box::new(scrutinee), arms), span: Span::dummy() }
}

#[test]
fn translate_match_int_literal() {
    let mut t = Translator::new();
    t.declare_int("x");
    let expr = match_expr(sym("x"), vec![
        arm(PatternKind::Literal(LitPattern::Int(42)), ilit(1)),
        arm(PatternKind::Literal(LitPattern::Int(0)), ilit(2)),
    ]);
    assert!(t.translate_int(&expr).is_ok(), "match on int literals should succeed");
}

#[test]
fn translate_match_bool_literal() {
    let mut t = Translator::new();
    t.declare_bool("b");
    let expr = match_expr(sym("b"), vec![
        arm(PatternKind::Literal(LitPattern::Bool(true)), ilit(1)),
        arm(PatternKind::Literal(LitPattern::Bool(false)), ilit(0)),
    ]);
    assert!(t.translate_int(&expr).is_ok(), "match on bool literals should succeed");
}

#[test]
fn translate_match_with_wildcard() {
    let mut t = Translator::new();
    t.declare_int("x");
    let expr = match_expr(sym("x"), vec![
        arm(PatternKind::Literal(LitPattern::Int(42)), ilit(1)),
        arm(PatternKind::Wildcard, ilit(99)),
    ]);
    assert!(t.translate_int(&expr).is_ok(), "match with wildcard should succeed");
}

#[test]
fn translate_match_empty_error() {
    let mut t = Translator::new();
    t.declare_int("x");
    let expr = match_expr(sym("x"), vec![]);
    assert!(t.translate_int(&expr).is_err(), "match with no arms should error");
}

#[test]
fn translate_match_binding_uses_scrutinee() {
    let mut t = Translator::new();
    t.declare_int("x");
    let expr = match_expr(sym("x"), vec![arm(PatternKind::Binding("y".into()), call("+", vec![sym("y"), ilit(1)]))]);
    let result = t.translate_int(&expr);
    assert!(result.is_ok(), "match with binding pattern should succeed: {:?}", result.err());
}

#[test]
fn translate_match_binding_shadow_restores() {
    let mut t = Translator::new();
    t.declare_int("x");
    t.declare_int("y");
    let expr = match_expr(sym("x"), vec![arm(PatternKind::Binding("y".into()), sym("y"))]);
    let result = t.translate_int(&expr);
    assert!(result.is_ok(), "match binding shadow should work");
    assert!(t.get_int_var("y").is_some(), "outer y should still exist after match");
}

#[test]
fn sort_from_type_list() {
    assert!(matches!(Translator::sort_from_type_name("List"), Some(VarSort::IntSeq)));
}

#[test]
fn declare_seq_variable() {
    let mut t = Translator::new();
    t.declare_seq("xs");
    assert!(t.get_seq_var("xs").is_some());
}

#[test]
fn translate_length_of_seq() {
    let mut t = Translator::new();
    t.declare_seq("xs");
    let expr = call("length", vec![sym("xs")]);
    assert!(t.translate_int(&expr).is_ok(), "length on seq variable should translate to an integer");
}

#[test]
fn translate_length_of_non_seq_fails() {
    let mut t = Translator::new();
    t.declare_int("n");
    let expr = call("length", vec![sym("n")]);
    assert!(t.translate_int(&expr).is_err(), "length on non-seq should fail");
}

#[test]
fn translate_list_contains() {
    let mut t = Translator::new();
    t.declare_seq("xs");
    t.declare_int("x");
    let expr = call("list-contains?", vec![sym("xs"), sym("x")]);
    assert!(t.translate_bool(&expr).is_ok(), "list-contains? should translate to a boolean");
}

#[test]
fn uninterpreted_fn_call_translates_in_int_context() {
    let mut t = Translator::new();
    t.declare_int("x");
    let expr = call("f", vec![sym("x")]);
    assert!(t.translate_int(&expr).is_ok(), "uninterpreted fn call should translate in int context");
}

#[test]
fn uninterpreted_fn_call_translates_in_bool_context() {
    let mut t = Translator::new();
    t.declare_int("x");
    let expr = call("p", vec![sym("x")]);
    assert!(t.translate_bool(&expr).is_ok(), "uninterpreted fn call should translate in bool context");
}

// ── Exact terms ─────────────────────────────────────────────────────

#[test]
fn sum_translates_to_an_addition_of_the_variables() {
    let mut t = Translator::new();
    t.declare_int("a");
    t.declare_int("b");
    let r = t.translate_int(&expr("(+ a b 1)"));
    let want: Result<Term, TranslateError> = Ok(Term::App(SmtOp::Add, vec![konst("a", VarSort::Int), konst("b", VarSort::Int), Term::Int(1)]));
    assert_eq!(text(&r), text(&want));
}

#[test]
fn unary_minus_is_a_product_with_minus_one() {
    let mut t = Translator::new();
    t.declare_int("a");
    let r = t.translate_int(&expr("(- a)"));
    let want: Result<Term, TranslateError> = Ok(Term::App(SmtOp::Mul, vec![Term::Int(-1), konst("a", VarSort::Int)]));
    assert_eq!(text(&r), text(&want));
}

#[test]
fn equality_of_booleans_is_tried_first() {
    let mut t = Translator::new();
    t.declare_bool("p");
    let r = t.translate_bool(&expr("(= p true)"));
    let want: Result<Term, TranslateError> = Ok(Term::App(SmtOp::Eq, vec![konst("p", VarSort::Bool), Term::Bool(true)]));
    assert_eq!(text(&r), text(&want));
}

#[test]
fn mixed_comparison_reads_the_integer_as_a_real() {
    let mut t = Translator::new();
    t.declare_int("n");
    t.declare_real("x");
    let r = t.translate_bool(&expr("(< n x)"));
    let want: Result<Term, TranslateError> = Ok(Term::App(SmtOp::Lt, vec![
        Term::App(SmtOp::ToReal, vec![konst("n", VarSort::Int)]),
        konst("x", VarSort::Real),
    ]));
    assert_eq!(text(&r), text(&want));
}

#[test]
fn not_equal_negates_the_equality() {
    let mut t = Translator::new();
    t.declare_int("a");
    let r = t.translate_bool(&expr("(!= a 3)"));
    let want: Result<Term, TranslateError> = Ok(Term::App(SmtOp::Not, vec![Term::App(SmtOp::Eq, vec![konst("a", VarSort::Int), Term::Int(3)])]));
    assert_eq!(text(&r), text(&want));
}

#[test]
fn let_substitutes_the_bound_value_and_restores_scope() {
    let mut t = Translator::new();
    t.declare_int("a");
    let r = t.translate_int(&expr("(let (y : i64 (+ a 1)) (* y y))"));
    let y = Term::App(SmtOp::Add, vec![konst("a", VarSort::Int), Term::Int(1)]);
    let want: Result<Term, TranslateError> = Ok(Term::App(SmtOp::Mul, vec![y.clone(), y]));
    assert_eq!(text(&r), text(&want));
    assert!(t.get_int_var("y").is_none());
}

#[test]
fn let_with_unknown_type_is_refused() {
    let mut t = Translator::new();
    let r = t.translate_int(&expr("(let (y : Foo 1) y)"));
    match r {
        Err(TranslateError::UnsupportedExpression(m)) => assert_eq!(m, "let binding 'y': unsupported type"),
        _ => panic!("expected an unsupported-expression error"),
    }
}

#[test]
fn if_becomes_an_ite() {
    let mut t = Translator::new();
    t.declare_bool("c");
    let r = t.translate_int(&expr("(if c 1 2)"));
    let want: Result<Term, TranslateError> = Ok(Term::App(SmtOp::Ite, vec![konst("c", VarSort::Bool), Term::Int(1), Term::Int(2)]));
    assert_eq!(text(&r), text(&want));
}

#[test]
fn match_builds_a_chain_with_the_last_arm_innermost() {
    let mut t = Translator::new();
    t.declare_int("x");
    let e = match_expr(sym("x"), vec![
        arm(PatternKind::Literal(LitPattern::Int(42)), ilit(1)),
        arm(PatternKind::Wildcard, ilit(99)),
    ]);
    let r = t.translate_int(&e);
    let want: Result<Term, TranslateError> = Ok(Term::App(SmtOp::Ite, vec![
        Term::App(SmtOp::Eq, vec![konst("x", VarSort::Int), Term::Int(42)]),
        Term::Int(1),
        Term::Int(99),
    ]));
    assert_eq!(text(&r), text(&want));
}

#[test]
fn forall_with_guard_is_an_implication() {
    let mut t = Translator::new();
    t.declare_int("n");
    let r = t.translate_bool(&expr("(forall [i : Nat] (where (< i n)) (>= i 0))"));
    let i = konst("i", VarSort::Int);
    let want: Result<Term, TranslateError> = Ok(Term::Quant(true, "i".to_string(), VarSort::Int, Box::new(Term::App(SmtOp::Implies, vec![
        Term::App(SmtOp::Lt, vec![i.clone(), konst("n", VarSort::Int)]),
        Term::App(SmtOp::Ge, vec![i, Term::Int(0)]),
    ]))));
    assert_eq!(text(&r), text(&want));
    assert!(t.get_int_var("i").is_none());
}

#[test]
fn shadowing_quantifier_gets_a_fresh_name() {
    let mut t = Translator::new();
    t.declare_int("i");
    let r = t.translate_bool(&expr("(exists [i : Nat] (= i 3))"));
    let fresh = konst("i_q0", VarSort::Int);
    let want: Result<Term, TranslateError> = Ok(Term::Quant(false, "i_q0".to_string(), VarSort::Int, Box::new(
        Term::App(SmtOp::Eq, vec![fresh, Term::Int(3)]))));
    assert_eq!(text(&r), text(&want));
    let back = t.get_int_var("i").unwrap();
    assert_eq!(format!("{:?}", back), format!("{:?}", konst("i", VarSort::Int)));
}

#[test]
fn unknown_call_is_uninterpreted_with_integer_operands() {
    let mut t = Translator::new();
    t.declare_int("x");
    let r = t.translate_bool(&expr("(p x 2)"));
    let want: Result<Term, TranslateError> = Ok(Term::Uninterp("p".to_string(), VarSort::Bool, vec![konst("x", VarSort::Int), Term::Int(2)]));
    assert_eq!(text(&r), text(&want));
}

#[test]
fn bitwise_operators_need_their_operand_counts() {
    let mut t = Translator::new();
    t.declare_int("x");
    let r = t.translate_int(&expr("(bitwise-and x 1 2)"));
    match r {
        Err(TranslateError::UnsupportedExpression(m)) => assert_eq!(m, "bitwise-and requires exactly 2 arguments"),
        _ => panic!("expected an unsupported-expression error"),
    }
    let ok = t.translate_int(&expr("(bitwise-shr x 1)"));
    let want: Result<Term, TranslateError> = Ok(Term::App(SmtOp::BvLshr, vec![konst("x", VarSort::Int), Term::Int(1)]));
    assert_eq!(text(&ok), text(&want));
}

#[test]
fn integer_literal_in_real_context_is_a_ratio() {
    let mut t = Translator::new();
    assert_eq!(text(&t.translate_real(&ilit(7))), text(&Ok(Term::Real(7, 1))));
    match t.translate_real(&ilit(3_000_000_000)) {
        Err(TranslateError::UnsupportedExpression(m)) => {
            assert_eq!(m, "integer literal 3000000000 is too large for Z3 Real context")
        }
        _ => panic!("expected an unsupported-expression error"),
    }
}

#[test]
fn undefined_symbol_error_names_it() {
    let mut t = Translator::new();
    match t.translate_int(&sym("zz")) {
        Err(TranslateError::UndefinedVariable(v)) => assert_eq!(v, "zz"),
        _ => panic!("expected an undefined-variable error"),
    }
}

#[test]
fn strings_concatenate_and_nul_bytes_are_refused() {
    let mut t = Translator::new();
    t.declare_string("s");
    let r = t.translate_string(&expr("(str-concat s \"a\")"));
    let want: Result<Term, TranslateError> = Ok(Term::App(SmtOp::StrConcat, vec![konst("s", VarSort::Str), Term::Str("a".to_string())]));
    assert_eq!(text(&r), text(&want));
    let nul = Expr { kind: ExprKind::StrLit("ab\0c".into()), span: Span::dummy() };
    match t.translate_string(&nul) {
        Err(TranslateError::UnsupportedExpression(m)) => {
            assert_eq!(m, "string literal contains null byte: nul byte found in provided data at position: 2")
        }
        _ => panic!("expected an unsupported-expression error"),
    }
}

#[test]
fn operator_arity_check() {
    assert!(check_arity(&expr("(and (= a b) (not c))")));
    assert!(!check_arity(&call("=", vec![sym("a")])));
    assert!(!check_arity(&expr("(if c (not) 1)")));
}

fn named(t: &str) -> AstType {
    AstType { kind: AstTypeKind::Named(t.to_string()), span: Span::dummy() }
}

fn param(name: &str, ty: &str) -> Param {
    Param { ownership: Ownership::Default, name: name.to_string(), ty: named(ty), default: None, span: Span::dummy() }
}

#[test]
fn recursive_call_seeds_follow_parameter_sorts() {
    let mut t = Translator::new();
    t.declare_int("n");
    let args = vec![call("-", vec![sym("n"), ilit(1)])];
    let r = t.apply_recursive_fn_as_result("sum", &args, &named("i64"), &vec![param("k", "i64")]);
    let (seeds, res) = r.expect("seeds");
    assert_eq!(seeds.len(), 1);
    let arg = Term::App(SmtOp::Sub, vec![konst("n", VarSort::Int), Term::Int(1)]);
    match &seeds[0] {
        SeedVal::Int(v) => assert_eq!(format!("{:?}", v), format!("{:?}", arg)),
        _ => panic!("expected an integer seed"),
    }
    match res {
        SeedVal::Int(v) => assert_eq!(format!("{:?}", v), format!("{:?}", Term::Uninterp("sum".to_string(), VarSort::Int, vec![arg]))),
        _ => panic!("expected an integer result seed"),
    }
    let none = t.apply_recursive_fn_as_result("sum", &args, &named("String"), &vec![param("k", "i64")]);
    assert!(none.is_none());
}
