use airl::ast::{ExprKind, LitPattern, Ownership, PatternKind, TopLevel, TypeDefBody, Version, AstTypeKind};
use airl::diagnostic::{Diagnostics, Severity};
use airl::forms::{parse_expr, parse_pattern, parse_param};
use airl::lexer::Lexer;
use airl::sexpr::{parse_sexpr_all, Atom, AtomKind, SExpr};
use airl::span::Span;
use airl::toplevel::{parse_top_level, parse_sig};

fn sexprs(input: &str) -> Vec<SExpr> {
    let mut lexer = Lexer::new(input);
    let tokens = lexer.lex_all().unwrap();
    parse_sexpr_all(tokens).unwrap()
}

#[test]
fn if_arity_message_counts_subforms() {
    let s = sexprs("(if true 1)");
    let mut d = Diagnostics::new();
    let err = parse_expr(&s[0], &mut d).unwrap_err();
    assert_eq!(err.message, "if requires exactly 3 subforms, found 2");
    assert_eq!(err.severity, Severity::Error);
}

#[test]
fn version_literal_outside_version_is_refused() {
    let v = SExpr::Atom(Atom { kind: AtomKind::Version(0, 1, 0), span: Span::dummy() });
    let mut d = Diagnostics::new();
    let err = parse_expr(&v, &mut d).unwrap_err();
    assert_eq!(err.message, "version literal is only valid in :version position");
}

#[test]
fn let_extra_forms_give_one_warning() {
    let s = sexprs("(let (x : i32 1) x y z)");
    let mut d = Diagnostics::new();
    let e = parse_expr(&s[0], &mut d).unwrap();
    assert!(matches!(e.kind, ExprKind::Let(..)));
    assert_eq!(d.items.len(), 1);
    assert_eq!(d.items[0].severity, Severity::Warning);
    assert_eq!(d.items[0].message, "let has 2 extra expression(s) after body that will be ignored");
}

#[test]
fn let_untyped_binding_message_names_it() {
    let s = sexprs("(let (x 42) x)");
    let mut d = Diagnostics::new();
    let err = parse_expr(&s[0], &mut d).unwrap_err();
    assert_eq!(err.message, "let binding 'x' is missing type annotation — use (let (x : Type value) body)");
}

#[test]
fn destructuring_temporaries_are_numbered_apart() {
    let s = sexprs("(let ([a b] p) ([c d] q) a)");
    let mut d = Diagnostics::new();
    let e = parse_expr(&s[0], &mut d).unwrap();
    if let ExprKind::Let(bs, _) = &e.kind {
        assert_eq!(bs.len(), 6);
        assert_eq!(bs[0].name, "__d0");
        assert_eq!(bs[3].name, "__d1");
        assert_ne!(bs[0].name, bs[3].name);
    } else {
        panic!("expected Let");
    }
    assert_eq!(d.gensym_counter, 2);
}

#[test]
fn fn_extra_forms_warning() {
    let s = sexprs("(fn [a] a b)");
    let mut d = Diagnostics::new();
    let _ = parse_expr(&s[0], &mut d).unwrap();
    assert_eq!(d.items.len(), 1);
    assert_eq!(d.items[0].message, "fn has 1 extra expression(s) after body that will be ignored");
}

#[test]
fn empty_list_is_nil_and_bracket_is_list() {
    let s = sexprs("() [1 2]");
    let mut d = Diagnostics::new();
    assert!(matches!(parse_expr(&s[0], &mut d).unwrap().kind, ExprKind::NilLit));
    if let ExprKind::ListLit(xs) = parse_expr(&s[1], &mut d).unwrap().kind {
        assert_eq!(xs.len(), 2);
    } else {
        panic!("expected ListLit");
    }
}

#[test]
fn capitalised_head_is_constructor() {
    let s = sexprs("(Ok 1 2)");
    let mut d = Diagnostics::new();
    let e = parse_expr(&s[0], &mut d).unwrap();
    assert!(matches!(&e.kind, ExprKind::VariantCtor(n, args) if n == "Ok" && args.len() == 2));
}

#[test]
fn forall_with_where_guard() {
    let s = sexprs("(forall [i : Nat] (where (< i 10)) (>= i 0))");
    let mut d = Diagnostics::new();
    let e = parse_expr(&s[0], &mut d).unwrap();
    if let ExprKind::Forall(p, g, _) = &e.kind {
        assert_eq!(p.name, "i");
        assert!(matches!(&p.ty.kind, AstTypeKind::Named(t) if t == "Nat"));
        assert!(g.is_some());
    } else {
        panic!("expected Forall");
    }
}

#[test]
fn exists_without_body_is_error() {
    let s = sexprs("(exists [i : Nat])");
    let mut d = Diagnostics::new();
    let err = parse_expr(&s[0], &mut d).unwrap_err();
    assert_eq!(err.message, "exists requires a parameter list and body");
}

#[test]
fn match_with_odd_arms_is_error() {
    let s = sexprs("(match x (Ok v))");
    let mut d = Diagnostics::new();
    let err = parse_expr(&s[0], &mut d).unwrap_err();
    assert_eq!(err.message, "match arms must come in pattern/body pairs");
}

#[test]
fn patterns_of_each_kind() {
    let s = sexprs("_ x 7 \"s\" true nil (Some (Ok y) _)");
    assert!(matches!(parse_pattern(&s[0]).unwrap().kind, PatternKind::Wildcard));
    assert!(matches!(parse_pattern(&s[1]).unwrap().kind, PatternKind::Binding(ref n) if n == "x"));
    assert!(matches!(parse_pattern(&s[2]).unwrap().kind, PatternKind::Literal(LitPattern::Int(7))));
    assert!(matches!(parse_pattern(&s[3]).unwrap().kind, PatternKind::Literal(LitPattern::Str(ref t)) if t == "s"));
    assert!(matches!(parse_pattern(&s[4]).unwrap().kind, PatternKind::Literal(LitPattern::Bool(true))));
    assert!(matches!(parse_pattern(&s[5]).unwrap().kind, PatternKind::Literal(LitPattern::Nil)));
    if let PatternKind::Variant(n, subs) = parse_pattern(&s[6]).unwrap().kind {
        assert_eq!(n, "Some");
        assert_eq!(subs.len(), 2);
    } else {
        panic!("expected Variant");
    }
}

#[test]
fn empty_pattern_is_error() {
    let s = sexprs("()");
    assert_eq!(parse_pattern(&s[0]).unwrap_err().message, "empty pattern");
}

#[test]
fn param_with_ownership_and_default() {
    let s = sexprs("(ref x : i32 5)");
    let mut d = Diagnostics::new();
    let p = parse_param(&s[0], &mut d).unwrap();
    assert_eq!(p.ownership, Ownership::Ref);
    assert_eq!(p.name, "x");
    assert!(matches!(p.default.as_ref().unwrap().kind, ExprKind::IntLit(5)));
}

#[test]
fn param_without_colon_is_error() {
    let s = sexprs("(x i32 5)");
    let mut d = Diagnostics::new();
    assert_eq!(parse_param(&s[0], &mut d).unwrap_err().message, "expected ':' in param");
}

#[test]
fn sig_without_arrow_returns_unit() {
    let s = sexprs("[(a : i32)]");
    let mut d = Diagnostics::new();
    let (ps, rt) = parse_sig(&s[0], &mut d).unwrap();
    assert_eq!(ps.len(), 1);
    assert_eq!(rt.to_airl(), "Unit");
}

#[test]
fn defn_without_intent_warns_and_unknown_keyword_warns() {
    let s = sexprs("(defn f :sig [(x : i32) -> i32] :requires [(valid x)] :colour red :body x)");
    let mut d = Diagnostics::new();
    let t = parse_top_level(&s[0], &mut d).unwrap();
    assert!(matches!(t, TopLevel::Defn(_)));
    assert_eq!(d.items.len(), 2);
    assert_eq!(d.items[0].message, "unknown keyword :colour in defn");
    assert_eq!(d.items[1].message, "function 'f' is missing :intent");
    assert!(!d.has_errors());
}

#[test]
fn defn_without_body_has_nil_body() {
    let s = sexprs("(defn f :intent \"i\" :requires [(valid x)])");
    let mut d = Diagnostics::new();
    if let TopLevel::Defn(f) = parse_top_level(&s[0], &mut d).unwrap() {
        assert!(matches!(f.body.kind, ExprKind::NilLit));
        assert_eq!(f.return_type.to_airl(), "Unit");
    } else {
        panic!("expected Defn");
    }
}

#[test]
fn module_version_written_as_symbol() {
    let s = sexprs("(module m :version v1.2.3)");
    let mut d = Diagnostics::new();
    if let TopLevel::Module(m) = parse_top_level(&s[0], &mut d).unwrap() {
        assert_eq!(m.version, Some(Version { major: 0, minor: 2, patch: 3 }));
    } else {
        panic!("expected Module");
    }
}

#[test]
fn module_version_bad_symbol_is_error() {
    let s = sexprs("(module m :version latest)");
    let mut d = Diagnostics::new();
    assert_eq!(parse_top_level(&s[0], &mut d).unwrap_err().message, "invalid version format");
}

#[test]
fn module_unknown_keyword_warns() {
    let s = sexprs("(module m :colour red)");
    let mut d = Diagnostics::new();
    let _ = parse_top_level(&s[0], &mut d).unwrap();
    assert_eq!(d.items.len(), 1);
    assert_eq!(d.items[0].message, "unknown keyword :colour in module");
}

#[test]
fn task_constraints_and_defaults() {
    let s = sexprs("(task \"t\" :constraints [(max-memory 10) (no-network) (retries 3) (odd)])");
    let mut d = Diagnostics::new();
    if let TopLevel::Task(t) = parse_top_level(&s[0], &mut d).unwrap() {
        assert_eq!(t.constraints.len(), 3);
        assert!(matches!(t.from.kind, ExprKind::NilLit));
        assert!(t.deadline.is_none());
    } else {
        panic!("expected Task");
    }
}

#[test]
fn import_unknown_option_is_error() {
    let s = sexprs("(import \"p\" :as)");
    let mut d = Diagnostics::new();
    assert_eq!(parse_top_level(&s[0], &mut d).unwrap_err().message, "expected name after :as");
    let s = sexprs("(import \"p\" :with x)");
    assert_eq!(parse_top_level(&s[0], &mut d).unwrap_err().message, "unknown import option :with");
}

#[test]
fn deftype_alias_body() {
    let s = sexprs("(deftype Id i64)");
    let mut d = Diagnostics::new();
    if let TopLevel::DefType(t) = parse_top_level(&s[0], &mut d).unwrap() {
        assert!(matches!(t.body, TypeDefBody::Alias(_)));
    } else {
        panic!("expected DefType");
    }
}

#[test]
fn bare_expression_at_top_level() {
    let s = sexprs("(+ 1 2) 7");
    let mut d = Diagnostics::new();
    assert!(matches!(parse_top_level(&s[0], &mut d).unwrap(), TopLevel::Expr(_)));
    assert!(matches!(parse_top_level(&s[1], &mut d).unwrap(), TopLevel::Expr(_)));
}
