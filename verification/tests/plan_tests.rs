use airl::ast::{AstType, AstTypeKind, Expr, ExprKind, FnDef, LitPattern, MatchArm, Ownership, Param, Pattern, PatternKind, TopLevel};
use airl::span::Span;
use airl::diagnostic::Diagnostics;
use airl::lexer::Lexer;
use airl::plan::{is_translatable, is_translatable_inductive, ClauseCheck, SolverAnswer};
use airl::prover::Z3Prover;
use airl::sexpr::parse_sexpr_all;
use airl::smt::{SmtOp, Term, VarSort};
use airl::solver::VerifyResult;
use airl::toplevel::parse_top_level;

fn defn(input: &str) -> FnDef {
    let mut lexer = Lexer::new(input);
    let tokens = lexer.lex_all().unwrap();
    let sexprs = parse_sexpr_all(tokens).unwrap();
    let mut diags = Diagnostics::new();
    match parse_top_level(&sexprs[0], &mut diags).unwrap() {
        TopLevel::Defn(f) => f,
        _ => panic!("expected a function definition"),
    }
}

fn konst(name: &str, sort: VarSort) -> Term {
    Term::Const(name.to_string(), sort)
}

fn dbg<T: std::fmt::Debug>(x: &T) -> String {
    format!("{:?}", x)
}

#[test]
fn plan_assumes_requires_and_binds_the_body() {
    let def = defn(r#"
        (defn add
          :sig [(a : i64) (b : i64) -> i64]
          :requires [(>= a 0)]
          :ensures [(= result (+ a b)) (>= a 0)]
          :body (+ a b))
    "#);
    let plan = Z3Prover::new().plan_verification(&def);
    assert_eq!(plan.function_name, "add");
    let a = konst("a", VarSort::Int);
    let b = konst("b", VarSort::Int);
    let want = vec![
        Term::App(SmtOp::Ge, vec![a.clone(), Term::Int(0)]),
        Term::App(SmtOp::Eq, vec![konst("result", VarSort::Int), Term::App(SmtOp::Add, vec![a.clone(), b.clone()])]),
    ];
    assert_eq!(dbg(&plan.assumptions), dbg(&want));
    assert_eq!(plan.ensures.len(), 2);
    assert_eq!(plan.ensures[0].0, "(= result (+ a b))");
    match &plan.ensures[0].1 {
        ClauseCheck::Ask(goal, vars) => {
            let g = Term::App(SmtOp::Eq, vec![konst("result", VarSort::Int), Term::App(SmtOp::Add, vec![a.clone(), b.clone()])]);
            assert_eq!(dbg(goal), dbg(&g));
            let names: Vec<&str> = vars.iter().map(|v| v.0.as_str()).collect();
            assert_eq!(names, vec!["a", "b"]);
        }
        _ => panic!("expected a goal"),
    }
}

#[test]
fn plan_with_untyped_parameter_leaves_clauses_unknown() {
    let def = defn(r#"
        (defn f
          :sig [(x : Foo) -> i64]
          :ensures [(>= result 0)]
          :body 1)
    "#);
    let plan = Z3Prover::new().plan_verification(&def);
    assert!(plan.assumptions.is_empty());
    match &plan.ensures[0].1 {
        ClauseCheck::Done(VerifyResult::Unknown(m)) => assert_eq!(m, "unsupported parameter types"),
        _ => panic!("expected unknown"),
    }
}

#[test]
fn plan_with_untranslatable_requires_leaves_clauses_unknown() {
    let def = defn(r#"
        (defn f
          :sig [(x : i64) -> i64]
          :requires [(valid x)]
          :ensures [(>= result 0)]
          :body x)
    "#);
    let plan = Z3Prover::new().plan_verification(&def);
    match &plan.ensures[0].1 {
        ClauseCheck::Done(VerifyResult::Unknown(m)) => assert_eq!(m, "cannot translate requires"),
        _ => panic!("expected unknown"),
    }
}

#[test]
fn result_clause_without_body_is_unknown_and_errors_are_reported() {
    let def = defn(r#"
        (defn f
          :sig [(x : i64) -> i64]
          :ensures [(>= result 0) (valid x)]
          :body "s")
    "#);
    let plan = Z3Prover::new().plan_verification(&def);
    assert!(plan.assumptions.is_empty());
    match &plan.ensures[0].1 {
        ClauseCheck::Done(VerifyResult::Unknown(m)) => {
            assert_eq!(m, "result postconditions require body translation (not yet implemented)")
        }
        _ => panic!("expected unknown"),
    }
    match &plan.ensures[1].1 {
        ClauseCheck::Done(VerifyResult::TranslationError(m)) => {
            assert_eq!(m, "unsupported: valid() predicate is not yet encoded — contracts using valid() are unverified")
        }
        _ => panic!("expected a translation error"),
    }
}

#[test]
fn conclusions_follow_the_answers() {
    let def = defn(r#"
        (defn add
          :sig [(a : i64) (b : i64) -> i64]
          :ensures [(= result (+ a b)) (>= result a) (> a 1000)]
          :body (+ a b))
    "#);
    let prover = Z3Prover::new();
    let plan = prover.plan_verification(&def);
    let answers = vec![
        SolverAnswer::Unsat,
        SolverAnswer::Sat(vec![("a".to_string(), "0".to_string()), ("b".to_string(), "-1".to_string())]),
        SolverAnswer::Unknown("timeout".to_string()),
    ];
    let fv = prover.conclude(&plan, &answers, &vec![]);
    assert_eq!(fv.function_name, "add");
    assert!(matches!(fv.ensures_results[0].1, VerifyResult::Proven));
    match &fv.ensures_results[1].1 {
        VerifyResult::Disproven { counterexample } => {
            assert_eq!(counterexample, &vec![("a".to_string(), "0".to_string()), ("b".to_string(), "-1".to_string())])
        }
        _ => panic!("expected disproven"),
    }
    match &fv.ensures_results[2].1 {
        VerifyResult::Unknown(r) => assert_eq!(r, "timeout"),
        _ => panic!("expected unknown"),
    }
    assert_eq!(fv.ensures_results[2].0, "(> a 1000)");
}

#[test]
fn inductive_plan_needs_a_recursive_call() {
    let def = defn(r#"
        (defn id
          :sig [(n : i64) -> i64]
          :ensures [(= result n)]
          :body n)
    "#);
    assert!(Z3Prover::new().plan_inductive(&def).is_none());
}

#[test]
fn inductive_plan_assumes_the_postcondition_at_each_call() {
    let def = defn(r#"
        (defn sum
          :sig [(n : i64) -> i64]
          :requires [(>= n 0)]
          :ensures [(>= result 0)]
          :body (if (= n 0) 0 (+ n (sum (- n 1)))))
    "#);
    let plan = Z3Prover::new().plan_inductive(&def).expect("recursive");
    let n = konst("n", VarSort::Int);
    let arg = Term::App(SmtOp::Sub, vec![n.clone(), Term::Int(1)]);
    let call = Term::Uninterp("sum".to_string(), VarSort::Int, vec![arg]);
    let hyp = Term::App(SmtOp::Ge, vec![call.clone(), Term::Int(0)]);
    assert_eq!(plan.assumptions.len(), 3);
    assert_eq!(dbg(&plan.assumptions[1]), dbg(&hyp));
    let body = Term::App(SmtOp::Ite, vec![
        Term::App(SmtOp::Eq, vec![n.clone(), Term::Int(0)]),
        Term::Int(0),
        Term::App(SmtOp::Add, vec![n.clone(), call]),
    ]);
    let bind = Term::App(SmtOp::Eq, vec![konst("result", VarSort::Int), body]);
    assert_eq!(dbg(&plan.assumptions[2]), dbg(&bind));
    assert!(matches!(plan.ensures[0].1, ClauseCheck::Ask(_, _)));
}


fn make_fn(
    name: &str,
    params: Vec<(&str, &str)>,
    ret_type: &str,
    requires: Vec<Expr>,
    ensures: Vec<Expr>,
    body: Expr,
) -> FnDef {
    FnDef {
        name: name.into(),
        params: params.iter().map(|(pname, ptype)| Param {
            ownership: Ownership::Default,
            name: pname.to_string(),
            ty: AstType { kind: AstTypeKind::Named(ptype.to_string()), span: Span::dummy() },
            default: None,
            span: Span::dummy(),
        }).collect(),
        return_type: AstType { kind: AstTypeKind::Named(ret_type.into()), span: Span::dummy() },
        intent: None,
        requires,
        ensures,
        invariants: vec![],
        is_pure: false,
        is_total: false,
        body,
        execute_on: None,
        priority: None,
        is_public: false,
        span: Span::dummy(),
    }
}

fn sym(name: &str) -> Expr {
    Expr { kind: ExprKind::SymbolRef(name.into()), span: Span::dummy() }
}

fn ilit(v: i64) -> Expr {
    Expr { kind: ExprKind::IntLit(v), span: Span::dummy() }
}

fn call(op: &str, args: Vec<Expr>) -> Expr {
    Expr { kind: ExprKind::FnCall(Box::new(sym(op)), args), span: Span::dummy() }
}

fn undecided(_a: &Vec<Term>, _g: &Term, _v: &Vec<(String, VarSort, Term)>) -> SolverAnswer {
    SolverAnswer::Unknown("no solver".to_string())
}

#[test]
fn valid_ensures_yields_translation_error() {
    let def = make_fn("id",
        vec![("x", "i32")], "i32",
        vec![],
        vec![call("valid", vec![sym("result")])],
        sym("x"),
    );
    let prover = Z3Prover::new();
    let verification = prover.verify_function(&def, &undecided);
    assert_eq!(verification.ensures_results.len(), 1);
    assert!(
        matches!(&verification.ensures_results[0].1, VerifyResult::TranslationError(_)),
        "expected TranslationError for (valid result) ensures — valid() is unsupported, got: {:?}",
        verification,
    );
}

#[test]
fn string_params_now_supported() {
    let def = make_fn("greet",
        vec![("name", "String")], "String",
        vec![], vec![],
        sym("name"),
    );
    let prover = Z3Prover::new();
    let result = prover.verify_function(&def, &undecided);
    assert!(result.ensures_results.is_empty());
}

#[test]
fn body_translation_fallback_when_unsupported() {
    let unsupported_body = Expr {
        kind: ExprKind::StrLit("hello".into()),
        span: Span::dummy(),
    };
    let def = make_fn("opaque",
        vec![("a", "i32")], "i32",
        vec![],
        vec![call("=", vec![sym("result"), ilit(42)])],
        unsupported_body,
    );
    let prover = Z3Prover::new();
    let v = prover.verify_function(&def, &undecided);
    assert_eq!(v.ensures_results.len(), 1);
    assert!(
        matches!(&v.ensures_results[0].1, VerifyResult::Unknown(_)),
        "expected Unknown fallback for untranslatable body, got: {:?}", v,
    );
}

#[test]
fn inductive_verify_non_recursive_returns_none() {
    let def = make_fn("add",
        vec![("a", "i32"), ("b", "i32")], "i32",
        vec![],
        vec![call("=", vec![sym("result"), call("+", vec![sym("a"), sym("b")])])],
        call("+", vec![sym("a"), sym("b")]),
    );
    let prover = Z3Prover::new();
    assert!(
        prover.inductive_verify(&def, &undecided).is_none(),
        "non-recursive function should return None from inductive_verify",
    );
}

#[test]
fn verify_function_asks_only_about_goals() {
    let def = make_fn("add",
        vec![("a", "i64"), ("b", "i64")], "i64",
        vec![],
        vec![call("=", vec![sym("result"), call("+", vec![sym("a"), sym("b")])]), call("valid", vec![sym("a")])],
        call("+", vec![sym("a"), sym("b")]),
    );
    let calls = std::cell::Cell::new(0);
    let count = |_a: &Vec<Term>, _g: &Term, _v: &Vec<(String, VarSort, Term)>| {
        calls.set(calls.get() + 1);
        SolverAnswer::Unsat
    };
    let v = Z3Prover::new().verify_function(&def, &count);
    assert_eq!(calls.get(), 1);
    assert!(matches!(v.ensures_results[0].1, VerifyResult::Proven));
    assert!(matches!(v.ensures_results[1].1, VerifyResult::TranslationError(_)));
}

#[test]
fn translatable_demands_operands_only_where_the_plan_translates() {
    // An operator short of operands in a clause is refused once the clause is translated.
    let bad_clause = make_fn("f",
        vec![("a", "i64")], "i64",
        vec![],
        vec![call(">=", vec![sym("a")])],
        sym("a"),
    );
    assert!(!is_translatable(&bad_clause));
    // With a parameter type the solver has no sort for, nothing is translated.
    let unsupported = make_fn("g",
        vec![("a", "Foo")], "i64",
        vec![call(">=", vec![sym("a")])],
        vec![call(">=", vec![sym("result")])],
        sym("a"),
    );
    assert!(is_translatable(&unsupported));
    let v = Z3Prover::new().verify_function(&unsupported, &undecided);
    assert!(matches!(&v.ensures_results[0].1, VerifyResult::Unknown(m) if m == "unsupported parameter types"));
    // When a requires does not translate, the clauses after it are not read.
    let untranslatable = make_fn("h",
        vec![("a", "i64")], "i64",
        vec![call("valid", vec![sym("a")]), call(">=", vec![sym("a")])],
        vec![call(">=", vec![sym("result")])],
        sym("a"),
    );
    assert!(is_translatable(&untranslatable));
    let v = Z3Prover::new().verify_function(&untranslatable, &undecided);
    assert!(matches!(&v.ensures_results[0].1, VerifyResult::Unknown(m) if m == "cannot translate requires"));
    // A requires before the failing one is translated and must have its operands.
    let short_first = make_fn("k",
        vec![("a", "i64")], "i64",
        vec![call(">=", vec![sym("a")]), call("valid", vec![sym("a")])],
        vec![],
        sym("a"),
    );
    assert!(!is_translatable(&short_first));
}

#[test]
fn inductive_translatable_reads_the_recursive_calls() {
    let body = call("+", vec![sym("n"), call("count", vec![call("/", vec![sym("n")])])]);
    let def = make_fn("count",
        vec![("n", "i64")], "i64",
        vec![],
        vec![],
        body,
    );
    assert!(!is_translatable(&def));
    assert!(!is_translatable_inductive(&def));
    let ok = make_fn("count",
        vec![("n", "i64")], "i64",
        vec![],
        vec![],
        call("+", vec![sym("n"), call("count", vec![call("-", vec![sym("n"), ilit(1)])])]),
    );
    assert!(is_translatable_inductive(&ok));
}

#[test]
fn named_verification_takes_clauses_with_float_patterns() {
    let sp = Span::dummy();
    let arm = MatchArm {
        pattern: Pattern { kind: PatternKind::Literal(LitPattern::Float(2.5f64.to_bits())), span: sp },
        body: Expr { kind: ExprKind::BoolLit(true), span: sp },
        span: sp,
    };
    let clause = Expr { kind: ExprKind::Match(Box::new(sym("a")), vec![arm]), span: sp };
    let def = make_fn("f",
        vec![("a", "i64")], "i64",
        vec![],
        vec![clause, call(">=", vec![sym("a"), sym("a")])],
        sym("a"),
    );
    assert!(!is_translatable(&def));
    assert!(airl::plan::check_operands(&def));
    let en = vec!["(match a 2.5 true)".to_string(), "(>= a a)".to_string()];
    let v = Z3Prover::new().verify_function_named(&def, &en, &vec![], &undecided);
    assert_eq!(v.ensures_results.len(), 2);
    assert_eq!(v.ensures_results[0].0, "(match a 2.5 true)");
    assert_eq!(v.ensures_results[1].0, "(>= a a)");
    assert!(matches!(&v.ensures_results[1].1, VerifyResult::Unknown(m) if m == "no solver"));
}
