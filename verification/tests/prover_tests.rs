//! The prover's verdicts on small functions, with a solver that searches
//! every assignment of small values (integers from -4 to 4, a few strings and
//! integer lists, both booleans) for a counterexample. On these functions a
//! counterexample, when there is one, lies in that range.

use airl::ast::{AstType, AstTypeKind, Expr, ExprKind, FnDef, Ownership, Param};
use airl::plan::SolverAnswer;
use airl::prover::Z3Prover;
use airl::smt::{SmtOp, Term, VarSort};
use airl::solver::VerifyResult;
use airl::span::Span;

#[derive(Clone, Debug, PartialEq)]
enum Val {
    I(i64),
    B(bool),
    S(String),
    L(Vec<i64>),
}

fn domain(k: VarSort) -> Vec<Val> {
    match k {
        VarSort::Int | VarSort::Real => (-4..=4).map(Val::I).collect(),
        VarSort::Bool => vec![Val::B(false), Val::B(true)],
        VarSort::Str => ["", "a", "ab", "hello ", "b"].iter().map(|s| Val::S(s.to_string())).collect(),
        VarSort::IntSeq => vec![Val::L(vec![]), Val::L(vec![1]), Val::L(vec![0, -2]), Val::L(vec![3, 3, 3])],
    }
}

/// The unknowns of a term: its constants, and each uninterpreted application
/// taken as one unknown of its result sort.
fn unknowns(t: &Term, bound: &Vec<String>, out: &mut Vec<(String, VarSort)>) {
    let mut add = |key: String, k: VarSort| {
        if !out.iter().any(|(n, _)| *n == key) {
            out.push((key, k));
        }
    };
    match t {
        Term::Const(n, k) => {
            if !bound.contains(n) {
                add(n.clone(), *k);
            }
        }
        Term::Uninterp(_, k, _) => add(format!("{:?}", t), *k),
        Term::App(_, args) => {
            for a in args {
                unknowns(a, bound, out);
            }
        }
        Term::Quant(_, n, _, body) => {
            let mut b = bound.clone();
            b.push(n.clone());
            unknowns(body, &b, out);
        }
        _ => {}
    }
}

fn eval(t: &Term, env: &Vec<(String, Val)>) -> Option<Val> {
    let look = |key: &String| env.iter().rev().find(|(n, _)| n == key).map(|(_, v)| v.clone());
    let ints = |args: &Vec<Term>| -> Option<Vec<i64>> {
        args.iter().map(|a| match eval(a, env)? { Val::I(v) => Some(v), _ => None }).collect()
    };
    let bools = |args: &Vec<Term>| -> Option<Vec<bool>> {
        args.iter().map(|a| match eval(a, env)? { Val::B(v) => Some(v), _ => None }).collect()
    };
    let strs = |args: &Vec<Term>| -> Option<Vec<String>> {
        args.iter().map(|a| match eval(a, env)? { Val::S(v) => Some(v), _ => None }).collect()
    };
    match t {
        Term::Int(v) => Some(Val::I(*v)),
        Term::Bool(b) => Some(Val::B(*b)),
        Term::Str(s) => Some(Val::S(s.clone())),
        Term::Const(n, _) => look(n),
        Term::Uninterp(..) => look(&format!("{:?}", t)),
        Term::Quant(is_forall, n, k, body) => {
            let mut results = Vec::new();
            for v in domain(*k) {
                let mut e = env.clone();
                e.push((n.clone(), v));
                results.push(match eval(body, &e)? { Val::B(b) => b, _ => return None });
            }
            Some(Val::B(if *is_forall { results.iter().all(|b| *b) } else { results.iter().any(|b| *b) }))
        }
        Term::App(op, args) => Some(match op {
            SmtOp::Add => Val::I(ints(args)?.iter().sum()),
            SmtOp::Mul => Val::I(ints(args)?.iter().product()),
            SmtOp::Sub => {
                let xs = ints(args)?;
                if xs.len() == 1 { Val::I(-xs[0]) } else { Val::I(xs[0] - xs[1..].iter().sum::<i64>()) }
            }
            SmtOp::Div => {
                let xs = ints(args)?;
                if xs[1] == 0 { return None; }
                Val::I(xs[0].div_euclid(xs[1]))
            }
            SmtOp::Mod => {
                let xs = ints(args)?;
                if xs[1] == 0 { return None; }
                Val::I(xs[0].rem_euclid(xs[1]))
            }
            SmtOp::Eq => {
                let a = eval(&args[0], env)?;
                let b = eval(&args[1], env)?;
                Val::B(a == b)
            }
            SmtOp::Not => Val::B(!bools(args)?[0]),
            SmtOp::And => Val::B(bools(args)?.iter().all(|b| *b)),
            SmtOp::Or => Val::B(bools(args)?.iter().any(|b| *b)),
            SmtOp::Implies => {
                let bs = bools(args)?;
                Val::B(!bs[0] || bs[1])
            }
            SmtOp::Ite => match eval(&args[0], env)? {
                Val::B(c) => return eval(if c { &args[1] } else { &args[2] }, env),
                _ => return None,
            },
            SmtOp::Lt | SmtOp::Le | SmtOp::Gt | SmtOp::Ge => {
                let xs = ints(args)?;
                Val::B(match op {
                    SmtOp::Lt => xs[0] < xs[1],
                    SmtOp::Le => xs[0] <= xs[1],
                    SmtOp::Gt => xs[0] > xs[1],
                    _ => xs[0] >= xs[1],
                })
            }
            SmtOp::StrConcat => Val::S(strs(args)?.concat()),
            SmtOp::StrLen => Val::I(strs(args)?[0].chars().count() as i64),
            SmtOp::StrContains => {
                let ss = strs(args)?;
                Val::B(ss[0].contains(ss[1].as_str()))
            }
            SmtOp::StrPrefixOf => {
                let ss = strs(args)?;
                Val::B(ss[1].starts_with(ss[0].as_str()))
            }
            SmtOp::StrSuffixOf => {
                let ss = strs(args)?;
                Val::B(ss[1].ends_with(ss[0].as_str()))
            }
            SmtOp::SeqLen => match eval(&args[0], env)? {
                Val::L(xs) => Val::I(xs.len() as i64),
                Val::S(s) => Val::I(s.chars().count() as i64),
                _ => return None,
            },
            SmtOp::SeqContainsElem => match (eval(&args[0], env)?, eval(&args[1], env)?) {
                (Val::L(xs), Val::I(x)) => Val::B(xs.contains(&x)),
                _ => return None,
            },
            _ => return None,
        }),
        _ => None,
    }
}

fn show(v: &Val) -> String {
    match v {
        Val::I(x) => x.to_string(),
        Val::B(b) => b.to_string(),
        Val::S(s) => format!("{:?}", s),
        Val::L(xs) => format!("{:?}", xs),
    }
}

/// Searches every assignment of the unknowns for one under which all
/// assumptions hold and the goal fails.
fn bounded_solve(asms: &Vec<Term>, goal: &Term, vars: &Vec<(String, VarSort, Term)>) -> SolverAnswer {
    let mut us = Vec::new();
    for a in asms {
        unknowns(a, &vec![], &mut us);
    }
    unknowns(goal, &vec![], &mut us);
    let mut idx = vec![0usize; us.len()];
    loop {
        let env: Vec<(String, Val)> = us.iter().zip(idx.iter()).map(|((n, k), i)| (n.clone(), domain(*k)[*i].clone())).collect();
        let holds = asms.iter().all(|a| eval(a, &env) == Some(Val::B(true)));
        if holds && eval(goal, &env) == Some(Val::B(false)) {
            let values = vars.iter().filter_map(|(n, _, t)| eval(t, &env).map(|v| (n.clone(), show(&v)))).collect();
            return SolverAnswer::Sat(values);
        }
        let mut j = 0;
        loop {
            if j == idx.len() {
                return SolverAnswer::Unsat;
            }
            idx[j] += 1;
            if idx[j] < domain(us[j].1).len() {
                break;
            }
            idx[j] = 0;
            j += 1;
        }
    }
}

fn make_fn(
    name: &str,
    params: Vec<(&str, &str)>,
    ret_type: &str,
    requires: Vec<Expr>,
    ensures: Vec<Expr>,
    body: Expr,
) -> FnDef {
    FnDef {
        name: name.into(),
        params: params.iter().map(|(pname, ptype)| Param {
            ownership: Ownership::Default,
            name: pname.to_string(),
            ty: AstType { kind: AstTypeKind::Named(ptype.to_string()), span: Span::dummy() },
            default: None,
            span: Span::dummy(),
        }).collect(),
        return_type: AstType { kind: AstTypeKind::Named(ret_type.into()), span: Span::dummy() },
        intent: None,
        requires,
        ensures,
        invariants: vec![],
        is_pure: false,
        is_total: false,
        body,
        execute_on: None,
        priority: None,
        is_public: false,
        span: Span::dummy(),
    }
}

fn sym(name: &str) -> Expr {
    Expr { kind: ExprKind::SymbolRef(name.into()), span: Span::dummy() }
}

fn ilit(v: i64) -> Expr {
    Expr { kind: ExprKind::IntLit(v), span: Span::dummy() }
}

fn call(op: &str, args: Vec<Expr>) -> Expr {
    Expr { kind: ExprKind::FnCall(Box::new(sym(op)), args), span: Span::dummy() }
}

#[test]
fn bounded_solver_finds_and_rules_out_counterexamples() {
    let a = Term::Const("a".into(), VarSort::Int);
    let pos = Term::App(SmtOp::Ge, vec![Term::App(SmtOp::Mul, vec![a.clone(), a.clone()]), Term::Int(0)]);
    assert!(matches!(bounded_solve(&vec![], &pos, &vec![]), SolverAnswer::Unsat));
    let gt = Term::App(SmtOp::Gt, vec![a.clone(), Term::Int(0)]);
    match bounded_solve(&vec![], &gt, &vec![("a".into(), VarSort::Int, a.clone())]) {
        SolverAnswer::Sat(vals) => assert_eq!(vals, vec![("a".to_string(), "-4".to_string())]),
        _ => panic!("expected a counterexample"),
    }
}

#[test]
fn prove_addition_contract() {
    let def = make_fn("add",
        vec![("a", "i32"), ("b", "i32")], "i32",
        vec![], // valid() in requires would make Z3 bail with "cannot translate requires"
        vec![call("=", vec![sym("result"), call("+", vec![sym("a"), sym("b")])])],
        call("+", vec![sym("a"), sym("b")]),
    );
    let prover = Z3Prover::new();
    let verification = prover.verify_function(&def, &bounded_solve);
    assert_eq!(verification.ensures_results.len(), 1);
    assert!(
        matches!(&verification.ensures_results[0].1, VerifyResult::Proven),
        "expected Proven for (= result (+ a b)) with body (+ a b), got: {:?}",
        verification,
    );
}

#[test]
fn disprove_wrong_contract() {
    let def = make_fn("mul",
        vec![("a", "i32"), ("b", "i32")], "i32",
        vec![],
        vec![call("=", vec![sym("result"), call("+", vec![sym("a"), sym("b")])])],
        call("*", vec![sym("a"), sym("b")]),
    );
    let prover = Z3Prover::new();
    let verification = prover.verify_function(&def, &bounded_solve);
    assert_eq!(verification.ensures_results.len(), 1);
    assert!(
        matches!(&verification.ensures_results[0].1, VerifyResult::Disproven { .. }),
        "expected Disproven for (= result (+ a b)) with body (* a b), got: {:?}",
        verification,
    );
}

#[test]
fn prove_with_requires_constraint() {
    let def = make_fn("add_pos",
        vec![("a", "i32"), ("b", "i32")], "i32",
        vec![
            call(">=", vec![sym("a"), ilit(0)]),
            call(">=", vec![sym("b"), ilit(0)]),
        ],
        vec![call(">=", vec![sym("result"), ilit(0)])],
        call("+", vec![sym("a"), sym("b")]),
    );
    let prover = Z3Prover::new();
    let verification = prover.verify_function(&def, &bounded_solve);
    assert_eq!(verification.ensures_results.len(), 1);
    assert!(
        matches!(&verification.ensures_results[0].1, VerifyResult::Proven),
        "expected Proven for (>= result 0) with nonneg args and body (+ a b), got: {:?}",
        verification,
    );
}

#[test]
fn prove_parameter_relationship() {
    let def = make_fn("square_nonneg",
        vec![("a", "i32")], "i32",
        vec![],
        vec![call(">=", vec![call("*", vec![sym("a"), sym("a")]), ilit(0)])],
        call("*", vec![sym("a"), sym("a")]),
    );
    let prover = Z3Prover::new();
    let verification = prover.verify_function(&def, &bounded_solve);
    assert_eq!(verification.ensures_results.len(), 1);
    assert!(
        matches!(&verification.ensures_results[0].1, VerifyResult::Proven),
        "expected Proven for a²≥0, got: {:?}",
        verification,
    );
}

#[test]
fn disprove_false_parameter_relationship() {
    let def = make_fn("always_positive",
        vec![("a", "i32")], "i32",
        vec![],
        vec![call(">", vec![sym("a"), ilit(0)])],
        sym("a"),
    );
    let prover = Z3Prover::new();
    let verification = prover.verify_function(&def, &bounded_solve);
    assert_eq!(verification.ensures_results.len(), 1);
    assert!(
        matches!(&verification.ensures_results[0].1, VerifyResult::Disproven { .. }),
        "expected Disproven for unconstrained a>0, got: {:?}",
        verification,
    );
}

#[test]
fn prove_requires_implies_ensures() {
    let def = make_fn("passthrough",
        vec![("a", "i32")], "i32",
        vec![call(">=", vec![sym("a"), ilit(0)])],
        vec![call(">=", vec![sym("a"), ilit(0)])],
        sym("a"),
    );
    let prover = Z3Prover::new();
    let verification = prover.verify_function(&def, &bounded_solve);
    assert_eq!(verification.ensures_results.len(), 1);
    assert!(
        matches!(&verification.ensures_results[0].1, VerifyResult::Proven),
        "expected Proven for requires-implies-ensures tautology, got: {:?}",
        verification,
    );
}

#[test]
fn prove_string_length_nonneg() {
    let def = make_fn("slen",
        vec![("s", "String")], "i32",
        vec![],
        vec![call(">=", vec![sym("result"), ilit(0)])],
        call("string-length", vec![sym("s")]),
    );
    let prover = Z3Prover::new();
    let v = prover.verify_function(&def, &bounded_solve);
    assert_eq!(v.ensures_results.len(), 1);
    assert!(
        matches!(&v.ensures_results[0].1, VerifyResult::Proven),
        "expected Proven for string-length >= 0, got: {:?}", v,
    );
}

#[test]
fn prove_string_contains_self() {
    let def = make_fn("self_contains",
        vec![("s", "String")], "bool",
        vec![],
        vec![call("=", vec![sym("result"), Expr { kind: ExprKind::BoolLit(true), span: Span::dummy() }])],
        call("string-contains?", vec![sym("s"), sym("s")]),
    );
    let prover = Z3Prover::new();
    let v = prover.verify_function(&def, &bounded_solve);
    assert_eq!(v.ensures_results.len(), 1);
    assert!(
        matches!(&v.ensures_results[0].1, VerifyResult::Proven),
        "expected Proven for string-contains? self, got: {:?}", v,
    );
}

#[test]
fn prove_string_concat_result() {
    let hello = Expr { kind: ExprKind::StrLit("hello ".into()), span: Span::dummy() };
    let hello2 = Expr { kind: ExprKind::StrLit("hello ".into()), span: Span::dummy() };
    let def = make_fn("greet",
        vec![("name", "String")], "String",
        vec![],
        vec![call("=", vec![sym("result"), call("string-concat", vec![hello.clone(), sym("name")])])],
        call("string-concat", vec![hello2, sym("name")]),
    );
    let prover = Z3Prover::new();
    let v = prover.verify_function(&def, &bounded_solve);
    assert_eq!(v.ensures_results.len(), 1);
    assert!(
        matches!(&v.ensures_results[0].1, VerifyResult::Proven),
        "expected Proven for string-concat result, got: {:?}", v,
    );
}

#[test]
fn body_translation_proves_result_equals_sum() {
    let def = make_fn("add",
        vec![("a", "i32"), ("b", "i32")], "i32",
        vec![],
        vec![call("=", vec![sym("result"), call("+", vec![sym("a"), sym("b")])])],
        call("+", vec![sym("a"), sym("b")]),
    );
    let prover = Z3Prover::new();
    let v = prover.verify_function(&def, &bounded_solve);
    assert_eq!(v.ensures_results.len(), 1);
    assert!(
        matches!(&v.ensures_results[0].1, VerifyResult::Proven),
        "expected Proven, got: {:?}", v,
    );
}

#[test]
fn body_translation_proves_nonneg_result_from_nonneg_args() {
    let def = make_fn("add_pos",
        vec![("a", "i32"), ("b", "i32")], "i32",
        vec![
            call(">=", vec![sym("a"), ilit(0)]),
            call(">=", vec![sym("b"), ilit(0)]),
        ],
        vec![call(">=", vec![sym("result"), ilit(0)])],
        call("+", vec![sym("a"), sym("b")]),
    );
    let prover = Z3Prover::new();
    let v = prover.verify_function(&def, &bounded_solve);
    assert_eq!(v.ensures_results.len(), 1);
    assert!(
        matches!(&v.ensures_results[0].1, VerifyResult::Proven),
        "expected Proven, got: {:?}", v,
    );
}

#[test]
fn body_translation_disproves_false_postcondition() {
    let def = make_fn("wrong_add",
        vec![("a", "i32"), ("b", "i32")], "i32",
        vec![],
        vec![call("=", vec![sym("result"), call("*", vec![sym("a"), sym("b")])])],
        call("+", vec![sym("a"), sym("b")]),
    );
    let prover = Z3Prover::new();
    let v = prover.verify_function(&def, &bounded_solve);
    assert_eq!(v.ensures_results.len(), 1);
    assert!(
        matches!(&v.ensures_results[0].1, VerifyResult::Disproven { .. }),
        "expected Disproven, got: {:?}", v,
    );
}

#[test]
fn body_translation_handles_if_ite() {
    let def = make_fn("abs",
        vec![("a", "i32")], "i32",
        vec![],
        vec![call(">=", vec![sym("result"), ilit(0)])],
        Expr {
            kind: ExprKind::If(
                Box::new(call(">", vec![sym("a"), ilit(0)])),
                Box::new(sym("a")),
                Box::new(call("-", vec![ilit(0), sym("a")])),
            ),
            span: Span::dummy(),
        },
    );
    let prover = Z3Prover::new();
    let v = prover.verify_function(&def, &bounded_solve);
    assert_eq!(v.ensures_results.len(), 1);
    assert!(
        matches!(&v.ensures_results[0].1, VerifyResult::Proven),
        "expected Proven for abs result >= 0, got: {:?}", v,
    );
}

#[test]
fn prove_invariant_clause() {
    let mut def = make_fn("add_pos",
        vec![("a", "i32"), ("b", "i32")], "i32",
        vec![
            call(">=", vec![sym("a"), ilit(0)]),
            call(">=", vec![sym("b"), ilit(0)]),
        ],
        vec![],
        call("+", vec![sym("a"), sym("b")]),
    );
    def.invariants = vec![call(">=", vec![sym("result"), ilit(0)])];
    let prover = Z3Prover::new();
    let v = prover.verify_function(&def, &bounded_solve);
    assert!(v.ensures_results.is_empty());
    assert_eq!(v.invariants_results.len(), 1);
    assert!(
        matches!(&v.invariants_results[0].1, VerifyResult::Proven),
        "expected invariant Proven, got: {:?}", v,
    );
}

#[test]
fn disprove_invariant_clause() {
    let mut def = make_fn("sub",
        vec![("a", "i32"), ("b", "i32")], "i32",
        vec![], vec![],
        call("-", vec![sym("a"), sym("b")]),
    );
    def.invariants = vec![call(">=", vec![sym("result"), ilit(0)])];
    let prover = Z3Prover::new();
    let v = prover.verify_function(&def, &bounded_solve);
    assert_eq!(v.invariants_results.len(), 1);
    assert!(
        matches!(&v.invariants_results[0].1, VerifyResult::Disproven { .. }),
        "expected invariant Disproven, got: {:?}", v,
    );
}

#[test]
fn disprove_bool_param_false_ensures() {
    let def = make_fn("always_true",
        vec![("b", "bool")], "bool",
        vec![],
        vec![call("=", vec![sym("b"), Expr { kind: ExprKind::BoolLit(true), span: Span::dummy() }])],
        sym("b"),
    );
    let prover = Z3Prover::new();
    let v = prover.verify_function(&def, &bounded_solve);
    assert_eq!(v.ensures_results.len(), 1);
    assert!(
        matches!(&v.ensures_results[0].1, VerifyResult::Disproven { counterexample } if !counterexample.is_empty()),
        "expected Disproven with Bool counterexample, got: {:?}", v,
    );
}

#[test]
fn prove_list_length_nonneg() {
    let def = make_fn("list_len",
        vec![("xs", "List")], "i32",
        vec![],
        vec![call(">=", vec![sym("result"), ilit(0)])],
        call("length", vec![sym("xs")]),
    );
    let prover = Z3Prover::new();
    let v = prover.verify_function(&def, &bounded_solve);
    assert_eq!(v.ensures_results.len(), 1);
    assert!(
        matches!(&v.ensures_results[0].1, VerifyResult::Proven),
        "expected Proven for list length >= 0, got: {:?}", v,
    );
}

#[test]
fn prove_list_length_sum() {
    let body = call("+", vec![
        call("length", vec![sym("a")]),
        call("length", vec![sym("b")]),
    ]);
    let ensures = call("=", vec![
        sym("result"),
        call("+", vec![
            call("length", vec![sym("a")]),
            call("length", vec![sym("b")]),
        ]),
    ]);
    let def = make_fn("concat_len",
        vec![("a", "List"), ("b", "List")], "i32",
        vec![],
        vec![ensures],
        body,
    );
    let prover = Z3Prover::new();
    let v = prover.verify_function(&def, &bounded_solve);
    assert_eq!(v.ensures_results.len(), 1);
    assert!(
        matches!(&v.ensures_results[0].1, VerifyResult::Proven),
        "expected Proven for result == length(a) + length(b), got: {:?}", v,
    );
}

#[test]
fn list_param_with_int_return() {
    let def = make_fn("first_or_zero",
        vec![("xs", "List")], "i32",
        vec![],
        vec![call(">=", vec![call("length", vec![sym("xs")]), ilit(0)])],
        ilit(0),
    );
    let prover = Z3Prover::new();
    let v = prover.verify_function(&def, &bounded_solve);
    assert_eq!(v.ensures_results.len(), 1);
    assert!(
        matches!(&v.ensures_results[0].1, VerifyResult::Proven),
        "expected Proven for length(xs) >= 0, got: {:?}", v,
    );
}

#[test]
fn inductive_verify_recursive_sum_nonneg() {
    let body = Expr {
        kind: ExprKind::If(
            Box::new(call("=", vec![sym("n"), ilit(0)])),
            Box::new(ilit(0)),
            Box::new(call("+", vec![sym("n"), call("sum", vec![call("-", vec![sym("n"), ilit(1)])])])),
        ),
        span: Span::dummy(),
    };
    let def = make_fn("sum",
        vec![("n", "i32")], "i32",
        vec![call(">=", vec![sym("n"), ilit(0)])],
        vec![call(">=", vec![sym("result"), ilit(0)])],
        body,
    );
    let prover = Z3Prover::new();
    let v = prover.inductive_verify(&def, &bounded_solve).expect("should detect recursive call");
    assert_eq!(v.ensures_results.len(), 1);
    assert!(
        matches!(&v.ensures_results[0].1, VerifyResult::Proven),
        "expected Proven for recursive sum ≥ 0 with inductive hypothesis, got: {:?}", v,
    );
}

#[test]
fn inductive_verify_preserves_regular_verify_for_non_recursive() {
    let def = make_fn("mul",
        vec![("a", "i32"), ("b", "i32")], "i32",
        vec![],
        vec![call("=", vec![sym("result"), call("*", vec![sym("a"), sym("b")])])],
        call("*", vec![sym("a"), sym("b")]),
    );
    let prover = Z3Prover::new();
    assert!(prover.inductive_verify(&def, &bounded_solve).is_none());
    let v = prover.verify_function(&def, &bounded_solve);
    assert!(matches!(&v.ensures_results[0].1, VerifyResult::Proven));
}

#[test]
fn inductive_verify_detects_wrong_postcondition() {
    let body = Expr {
        kind: ExprKind::If(
            Box::new(call("=", vec![sym("n"), ilit(0)])),
            Box::new(ilit(0)),
            Box::new(call("+", vec![sym("n"), call("sum_wrong", vec![call("-", vec![sym("n"), ilit(1)])])])),
        ),
        span: Span::dummy(),
    };
    let def = make_fn("sum_wrong",
        vec![("n", "i32")], "i32",
        vec![call(">=", vec![sym("n"), ilit(0)])],
        vec![call(">", vec![sym("result"), sym("n")])],
        body,
    );
    let prover = Z3Prover::new();
    let v = prover.inductive_verify(&def, &bounded_solve).expect("should detect recursive call");
    assert_eq!(v.ensures_results.len(), 1);
    assert!(
        matches!(&v.ensures_results[0].1, VerifyResult::Disproven { .. }),
        "expected Disproven for wrong postcondition (> result n), got: {:?}", v,
    );
}
