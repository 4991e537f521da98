use airl::ast::{ExprKind, TopLevel, TypeDefBody, UseKind, VerifyLevel, Expr};
use airl::diagnostic::{Diagnostic, Diagnostics};
use airl::forms::parse_expr;
use airl::lexer::Lexer;
use airl::sexpr::parse_sexpr_all;
use airl::toplevel::parse_top_level;

fn parse_top(input: &str) -> Vec<TopLevel> {
    let mut lexer = Lexer::new(input);
    let tokens = lexer.lex_all().unwrap();
    let sexprs = parse_sexpr_all(tokens).unwrap();
    let mut diags = Diagnostics::new();
    let tops: Vec<TopLevel> = sexprs.iter().map(|s| parse_top_level(s, &mut diags)).collect::<Result<_, _>>().unwrap();
    assert!(!diags.has_errors(), "unexpected errors");
    tops
}

fn parse_expr_str(input: &str) -> Expr {
    let mut lexer = Lexer::new(input);
    let tokens = lexer.lex_all().unwrap();
    let sexprs = parse_sexpr_all(tokens).unwrap();
    let mut diags = Diagnostics::new();
    parse_expr(&sexprs[0], &mut diags).unwrap()
}

fn parse_expr_err(input: &str) -> Diagnostic {
    let mut lexer = Lexer::new(input);
    let tokens = lexer.lex_all().unwrap();
    let sexprs = parse_sexpr_all(tokens).unwrap();
    let mut diags = Diagnostics::new();
    parse_expr(&sexprs[0], &mut diags).expect_err("expected an error")
}

fn parse_top_err(input: &str) -> Diagnostic {
    let mut lexer = Lexer::new(input);
    let tokens = lexer.lex_all().unwrap();
    let sexprs = parse_sexpr_all(tokens).unwrap();
    let mut diags = Diagnostics::new();
    parse_top_level(&sexprs[0], &mut diags).expect_err("expected an error")
}

#[test]
fn parse_defn_safe_divide() {
    let tops = parse_top(r#"
        (defn safe-divide
          :sig [(a : i32) (b : i32) -> Result[i32, DivError]]
          :intent "Divide a by b"
          :requires [(valid a) (valid b)]
          :ensures [(pure)]
          :body (if (= b 0) (Err :division-by-zero) (Ok (/ a b))))
    "#);
    assert_eq!(tops.len(), 1);
    if let TopLevel::Defn(f) = &tops[0] {
        assert_eq!(f.name, "safe-divide");
        assert_eq!(f.params.len(), 2);
        assert_eq!(f.intent.as_deref(), Some("Divide a by b"));
        assert_eq!(f.requires.len(), 2);
        assert_eq!(f.ensures.len(), 1);
    } else {
        panic!("expected Defn");
    }
}

#[test]
fn parse_deftype_sum() {
    let tops = parse_top(r#"
        (deftype Result [T : Type, E : Type]
          (| (Ok T) (Err E)))
    "#);
    if let TopLevel::DefType(td) = &tops[0] {
        assert_eq!(td.name, "Result");
        assert_eq!(td.type_params.len(), 2);
        assert!(matches!(td.body, TypeDefBody::Sum(_)));
    } else {
        panic!("expected DefType");
    }
}

#[test]
fn parse_deftype_product() {
    let tops = parse_top(r#"
        (deftype AgentMessage
          (& (id : String) (from : AgentId)))
    "#);
    if let TopLevel::DefType(td) = &tops[0] {
        assert_eq!(td.name, "AgentMessage");
        if let TypeDefBody::Product(fields) = &td.body {
            assert_eq!(fields.len(), 2);
            assert_eq!(fields[0].name, "id");
        } else {
            panic!("expected Product");
        }
    } else {
        panic!("expected DefType");
    }
}

#[test]
fn parse_module() {
    let tops = parse_top(r#"
        (module my-service
          :version 0.1.0
          :requires [tensor]
          :provides [public-fn]
          :verify proven
          (defn public-fn
            :sig [(x : i32) -> i32]
            :intent "identity"
            :requires [(valid x)]
            :ensures [(= result x)]
            :body x))
    "#);
    if let TopLevel::Module(m) = &tops[0] {
        assert_eq!(m.name, "my-service");
        assert_eq!(m.verify, VerifyLevel::Proven);
        assert_eq!(m.body.len(), 1);
    } else {
        panic!("expected Module");
    }
}

#[test]
fn parse_use_symbols() {
    let tops = parse_top("(use tensor [matmul transpose])");
    if let TopLevel::UseDecl(u) = &tops[0] {
        assert_eq!(u.module, "tensor");
        assert!(matches!(&u.kind, UseKind::Symbols(syms) if syms.len() == 2));
    } else {
        panic!("expected UseDecl");
    }
}

#[test]
fn parse_use_prefixed() {
    let tops = parse_top("(use agent :as ag)");
    if let TopLevel::UseDecl(u) = &tops[0] {
        assert!(matches!(&u.kind, UseKind::Prefixed(p) if p == "ag"));
    } else {
        panic!("expected UseDecl");
    }
}

#[test]
fn parse_if_expr() {
    let e = parse_expr_str("(if true 1 2)");
    assert!(matches!(e.kind, ExprKind::If(..)));
}

#[test]
fn parse_let_expr() {
    let e = parse_expr_str("(let (x : i32 42) (+ x 1))");
    if let ExprKind::Let(bindings, _body) = &e.kind {
        assert_eq!(bindings.len(), 1);
        assert_eq!(bindings[0].name, "x");
    } else {
        panic!("expected Let");
    }
}

#[test]
fn parse_let_multi_binding() {
    let e = parse_expr_str("(let (x : i32 1) (y : i32 2) (+ x y))");
    if let ExprKind::Let(bindings, _) = &e.kind {
        assert_eq!(bindings.len(), 2);
    } else {
        panic!("expected Let");
    }
}

#[test]
fn parse_match_expr() {
    let e = parse_expr_str("(match x (Ok v) (use-v v) (Err e) (handle e))");
    assert!(matches!(e.kind, ExprKind::Match(..)));
}

#[test]
fn parse_do_expr() {
    let e = parse_expr_str("(do (step1) (step2) (step3))");
    if let ExprKind::Do(exprs) = &e.kind {
        assert_eq!(exprs.len(), 3);
    } else {
        panic!("expected Do");
    }
}

#[test]
fn parse_lambda() {
    let e = parse_expr_str("(fn [a b] (+ a b))");
    assert!(matches!(e.kind, ExprKind::Lambda(..)));
}

#[test]
fn parse_try() {
    let e = parse_expr_str("(try (parse data))");
    assert!(matches!(e.kind, ExprKind::Try(..)));
}

#[test]
fn parse_fn_call() {
    let e = parse_expr_str("(+ 1 2)");
    if let ExprKind::FnCall(callee, args) = &e.kind {
        assert_eq!(args.len(), 2);
        assert!(matches!(callee.kind, ExprKind::SymbolRef(ref s) if s == "+"));
    } else {
        panic!("expected FnCall");
    }
}

#[test]
fn parse_task() {
    let tops = parse_top(r#"
        (task "research-kv-cache"
          :from agent:orchestrator
          :to agent:research
          :intent "Find papers"
          :input [(query : String "test")]
          :on-success (send agent:orchestrator result))
    "#);
    if let TopLevel::Task(t) = &tops[0] {
        assert_eq!(t.id, "research-kv-cache");
        assert!(t.intent.is_some());
    } else {
        panic!("expected Task");
    }
}

#[test]
fn parse_import_basic() {
    let tops = parse_top(r#"(import "lib/math.airl")"#);
    if let TopLevel::Import { path, alias, only, .. } = &tops[0] {
        assert_eq!(path, "lib/math.airl");
        assert!(alias.is_none());
        assert!(only.is_none());
    } else {
        panic!("expected Import, got {:?}", tops[0]);
    }
}

#[test]
fn parse_import_with_alias() {
    let tops = parse_top(r#"(import "lib/math.airl" :as m)"#);
    if let TopLevel::Import { path, alias, only, .. } = &tops[0] {
        assert_eq!(path, "lib/math.airl");
        assert_eq!(alias.as_deref(), Some("m"));
        assert!(only.is_none());
    } else {
        panic!("expected Import");
    }
}

#[test]
fn parse_import_with_only() {
    let tops = parse_top(r#"(import "lib/math.airl" :only [abs min max])"#);
    if let TopLevel::Import { path, alias, only, .. } = &tops[0] {
        assert_eq!(path, "lib/math.airl");
        assert!(alias.is_none());
        assert_eq!(only.as_ref().unwrap(), &vec!["abs".to_string(), "min".to_string(), "max".to_string()]);
    } else {
        panic!("expected Import");
    }
}

#[test]
fn parse_defn_public() {
    let tops = parse_top(r#"
        (defn abs :pub
          :sig [(x : i64) -> i64]
          :intent "Absolute value"
          :requires [(valid x)]
          :ensures [(>= result 0)]
          :body (if (< x 0) (- 0 x) x))
    "#);
    if let TopLevel::Defn(f) = &tops[0] {
        assert_eq!(f.name, "abs");
        assert!(f.is_public);
    } else {
        panic!("expected Defn");
    }
}

#[test]
fn parse_defn_private_by_default() {
    let tops = parse_top(r#"
        (defn helper
          :sig [(x : i64) -> i64]
          :intent "identity"
          :requires [(valid x)]
          :ensures [(= result x)]
          :body x)
    "#);
    if let TopLevel::Defn(f) = &tops[0] {
        assert!(!f.is_public);
    } else {
        panic!("expected Defn");
    }
}

#[test]
fn parse_deftype_public() {
    let tops = parse_top(r#"
        (deftype Color :pub
          (| (Red) (Green) (Blue)))
    "#);
    if let TopLevel::DefType(td) = &tops[0] {
        assert_eq!(td.name, "Color");
        assert!(td.is_public);
    } else {
        panic!("expected DefType");
    }
}

#[test]
fn parse_deftype_private_by_default() {
    let tops = parse_top(r#"
        (deftype Color
          (| (Red) (Green) (Blue)))
    "#);
    if let TopLevel::DefType(td) = &tops[0] {
        assert_eq!(td.name, "Color");
        assert!(!td.is_public);
    } else {
        panic!("expected DefType");
    }
}

#[test]
fn parse_deftype_public_with_type_params() {
    let tops = parse_top(r#"
        (deftype MyResult :pub [T : Type, E : Type]
          (| (Ok T) (Err E)))
    "#);
    if let TopLevel::DefType(td) = &tops[0] {
        assert_eq!(td.name, "MyResult");
        assert!(td.is_public);
        assert_eq!(td.type_params.len(), 2);
    } else {
        panic!("expected DefType");
    }
}

#[test]
fn parse_missing_contracts_is_error() {
    let input = r#"(defn bad :sig [(x : i32) -> i32] :body x)"#;
    let mut lexer = Lexer::new(input);
    let tokens = lexer.lex_all().unwrap();
    let sexprs = parse_sexpr_all(tokens).unwrap();
    let mut diags = Diagnostics::new();
    let _ = parse_top_level(&sexprs[0], &mut diags);
    assert!(diags.has_errors(), "expected error for missing contracts");
}

#[test]
fn parse_extern_c_no_params() {
    let tops = parse_top(r#"(extern-c "airl_time_now" [-> Int])"#);
    assert_eq!(tops.len(), 1);
    if let TopLevel::ExternC(decl) = &tops[0] {
        assert_eq!(decl.c_name, "airl_time_now");
        assert!(decl.params.is_empty());
        assert_eq!(decl.return_type.to_airl(), "Int");
    } else {
        panic!("expected ExternC, got {:?}", tops[0]);
    }
}

#[test]
fn parse_extern_c_with_params() {
    let tops = parse_top(r#"(extern-c "airl_getenv" [(name : String) -> Any])"#);
    assert_eq!(tops.len(), 1);
    if let TopLevel::ExternC(decl) = &tops[0] {
        assert_eq!(decl.c_name, "airl_getenv");
        assert_eq!(decl.params.len(), 1);
        assert_eq!(decl.params[0].name, "name");
        assert_eq!(decl.return_type.to_airl(), "Any");
    } else {
        panic!("expected ExternC, got {:?}", tops[0]);
    }
}

#[test]
fn parse_extern_c_alongside_defn() {
    let input = r#"
        (extern-c "airl_time_now" [-> Int])
        (defn my-add :sig [(a : Int) (b : Int) -> Int]
          :requires ((>= a 0))
          :ensures ((>= %result 0))
          :body (+ a b))
    "#;
    let tops = parse_top(input);
    assert_eq!(tops.len(), 2);
    assert!(matches!(&tops[0], TopLevel::ExternC(_)));
    assert!(matches!(&tops[1], TopLevel::Defn(_)));
}

#[test]
fn parse_thread_first_basic() {
    let e = parse_expr_str("(-> 1 (+ 2) (+ 3))");
    if let ExprKind::FnCall(f, args) = &e.kind {
        assert!(matches!(f.kind, ExprKind::SymbolRef(ref s) if s == "+"));
        assert_eq!(args.len(), 2);
        if let ExprKind::FnCall(f2, args2) = &args[0].kind {
            assert!(matches!(f2.kind, ExprKind::SymbolRef(ref s) if s == "+"));
            assert_eq!(args2.len(), 2);
            assert!(matches!(args2[0].kind, ExprKind::IntLit(1)));
            assert!(matches!(args2[1].kind, ExprKind::IntLit(2)));
        } else {
            panic!("expected inner FnCall, got {:?}", args[0].kind);
        }
        assert!(matches!(args[1].kind, ExprKind::IntLit(3)));
    } else {
        panic!("expected FnCall, got {:?}", e.kind);
    }
}

#[test]
fn parse_thread_first_symbol_step() {
    let e = parse_expr_str("(-> [3 1 2] sort)");
    if let ExprKind::FnCall(f, args) = &e.kind {
        assert!(matches!(f.kind, ExprKind::SymbolRef(ref s) if s == "sort"));
        assert_eq!(args.len(), 1);
        assert!(matches!(args[0].kind, ExprKind::ListLit(_)));
    } else {
        panic!("expected FnCall, got {:?}", e.kind);
    }
}

#[test]
fn parse_thread_first_single_seed() {
    let e = parse_expr_str("(-> 5)");
    assert!(matches!(e.kind, ExprKind::IntLit(5)));
}

#[test]
fn parse_thread_last_basic() {
    let e = parse_expr_str("(->> [1 2 3] (map f))");
    if let ExprKind::FnCall(f, args) = &e.kind {
        assert!(matches!(f.kind, ExprKind::SymbolRef(ref s) if s == "map"));
        assert_eq!(args.len(), 2);
        assert!(matches!(args[0].kind, ExprKind::SymbolRef(ref s) if s == "f"));
        assert!(matches!(args[1].kind, ExprKind::ListLit(_)));
    } else {
        panic!("expected FnCall, got {:?}", e.kind);
    }
}

#[test]
fn parse_thread_last_chained() {
    let e = parse_expr_str("(->> [1 2 3] (filter p) (map f))");
    if let ExprKind::FnCall(f, args) = &e.kind {
        assert!(matches!(f.kind, ExprKind::SymbolRef(ref s) if s == "map"));
        assert_eq!(args.len(), 2);
        assert!(matches!(args[0].kind, ExprKind::SymbolRef(ref s) if s == "f"));
        if let ExprKind::FnCall(f2, args2) = &args[1].kind {
            assert!(matches!(f2.kind, ExprKind::SymbolRef(ref s) if s == "filter"));
            assert_eq!(args2.len(), 2);
            assert!(matches!(args2[1].kind, ExprKind::ListLit(_)));
        } else {
            panic!("expected inner FnCall");
        }
    } else {
        panic!("expected FnCall, got {:?}", e.kind);
    }
}

#[test]
fn parse_thread_first_error_no_args() {
    let mut lexer = Lexer::new("(->)");
    let tokens = lexer.lex_all().unwrap();
    let sexprs = parse_sexpr_all(tokens).unwrap();
    let mut diags = Diagnostics::new();
    let result = parse_expr(&sexprs[0], &mut diags);
    assert!(result.is_err(), "expected error for empty ->");
}

#[test]
fn parse_defn_pure_generates_contracts() {
    let tops = parse_top(r#"
        (defn double
          :pure
          :sig [(x : i64) -> i64]
          :intent "double x"
          :body (* x 2))
    "#);
    if let TopLevel::Defn(f) = &tops[0] {
        assert_eq!(f.name, "double");
        assert!(f.is_pure);
        assert!(!f.is_total);
        assert_eq!(f.requires.len(), 1);
        assert_eq!(f.ensures.len(), 1);
        if let ExprKind::FnCall(callee, args) = &f.requires[0].kind {
            assert!(matches!(callee.kind, ExprKind::SymbolRef(ref s) if s == "valid"));
            assert!(matches!(args[0].kind, ExprKind::SymbolRef(ref s) if s == "x"));
        } else {
            panic!("expected (valid x) in requires");
        }
    } else {
        panic!("expected Defn");
    }
}

#[test]
fn parse_defn_total_sets_both_flags() {
    let tops = parse_top(r#"
        (defn fib
          :total
          :sig [(n : i64) -> i64]
          :intent "fibonacci"
          :body n)
    "#);
    if let TopLevel::Defn(f) = &tops[0] {
        assert!(f.is_pure);
        assert!(f.is_total);
        assert!(!f.requires.is_empty());
    } else {
        panic!("expected Defn");
    }
}

#[test]
fn parse_defn_pre_post_aliases() {
    let tops = parse_top(r#"
        (defn safe-div
          :sig [(a : i64) (b : i64) -> i64]
          :intent "divide safely"
          :pre  [(not (= b 0))]
          :post [(valid result)]
          :body (/ a b))
    "#);
    if let TopLevel::Defn(f) = &tops[0] {
        assert_eq!(f.requires.len(), 1);
        assert_eq!(f.ensures.len(), 1);
        assert!(!f.is_pure);
    } else {
        panic!("expected Defn");
    }
}

#[test]
fn parse_defn_pure_plus_pre_merges() {
    let tops = parse_top(r#"
        (defn bounded
          :pure
          :sig [(x : i64) -> i64]
          :intent "clamp"
          :pre  [(>= x 0) (<= x 100)]
          :body x)
    "#);
    if let TopLevel::Defn(f) = &tops[0] {
        assert_eq!(f.requires.len(), 3);
        assert_eq!(f.ensures.len(), 1);
    } else {
        panic!("expected Defn");
    }
}

#[test]
fn parse_let_list_destructure_with_type() {
    let e = parse_expr_str("(let ([a b c] : _ lst) (+ a b))");
    if let ExprKind::Let(bindings, _body) = &e.kind {
        assert_eq!(bindings.len(), 4);
        assert!(matches!(bindings[0].value.kind, ExprKind::SymbolRef(ref s) if s == "lst"));
        assert_eq!(bindings[1].name, "a");
        assert_eq!(bindings[2].name, "b");
        assert_eq!(bindings[3].name, "c");
        if let ExprKind::FnCall(f, args) = &bindings[1].value.kind {
            assert!(matches!(f.kind, ExprKind::SymbolRef(ref s) if s == "at"));
            assert!(matches!(args[1].kind, ExprKind::IntLit(0)));
        } else {
            panic!("expected (at ...) for a");
        }
    } else {
        panic!("expected Let");
    }
}

#[test]
fn parse_let_list_destructure_rest() {
    let e = parse_expr_str("(let ([h & t] : _ lst) h)");
    if let ExprKind::Let(bindings, _body) = &e.kind {
        assert_eq!(bindings.len(), 3);
        assert_eq!(bindings[1].name, "h");
        assert_eq!(bindings[2].name, "t");
        if let ExprKind::FnCall(f, args) = &bindings[2].value.kind {
            assert!(matches!(f.kind, ExprKind::SymbolRef(ref s) if s == "drop"));
            assert!(matches!(args[0].kind, ExprKind::IntLit(1)));
        } else {
            panic!("expected (drop ...) for t");
        }
    } else {
        panic!("expected Let");
    }
}

#[test]
fn parse_let_map_destructure() {
    let e = parse_expr_str("(let ((name age) person) nil)");
    if let ExprKind::Let(bindings, _body) = &e.kind {
        assert_eq!(bindings.len(), 3);
        assert_eq!(bindings[1].name, "name");
        assert_eq!(bindings[2].name, "age");
        if let ExprKind::FnCall(f, args) = &bindings[1].value.kind {
            assert!(matches!(f.kind, ExprKind::SymbolRef(ref s) if s == "map-get"));
            assert!(matches!(args[1].kind, ExprKind::StrLit(ref s) if s == "name"));
        } else {
            panic!("expected (map-get ...) for name");
        }
    } else {
        panic!("expected Let");
    }
}

#[test]
fn parse_let_list_destructure_no_type_annotation() {
    let e = parse_expr_str("(let ([a b] mylist) (+ a b))");
    if let ExprKind::Let(bindings, _) = &e.kind {
        assert_eq!(bindings.len(), 3);
    } else {
        panic!("expected Let");
    }
}

#[test]
fn parse_let_mixed_normal_and_destructure() {
    let e = parse_expr_str("(let (n : i64 10) ([x y] pair) (+ n x))");
    if let ExprKind::Let(bindings, _) = &e.kind {
        assert_eq!(bindings.len(), 4);
        assert_eq!(bindings[0].name, "n");
    } else {
        panic!("expected Let");
    }
}

#[test]
fn parse_if_too_few_args_is_error() {
    let err = parse_expr_err("(if true 1)");
    assert!(err.message.contains("if"), "error should mention 'if': {}", err.message);
}

#[test]
fn parse_if_too_many_args_is_error() {
    let err = parse_expr_err("(if true 1 2 3)");
    assert!(err.message.contains("if"), "error should mention 'if': {}", err.message);
}

#[test]
fn parse_if_no_args_is_error() {
    let err = parse_expr_err("(if)");
    assert!(err.message.contains("if"), "error should mention 'if': {}", err.message);
}

#[test]
fn parse_let_binding_missing_type_is_error() {
    let err = parse_expr_err("(let (x 42) x)");
    assert!(
        err.message.contains("let") || err.message.contains("type") || err.message.contains("annotation"),
        "error should describe missing type annotation: {}", err.message
    );
}

#[test]
fn parse_map_destructure_missing_value_is_error() {
    let mut lexer = Lexer::new("(let ((name age)) x)");
    let tokens = lexer.lex_all().unwrap();
    let sexprs = parse_sexpr_all(tokens).unwrap();
    let mut diags = Diagnostics::new();
    let result = parse_expr(&sexprs[0], &mut diags);
    let _ = result;
}

#[test]
fn parse_define_missing_body_is_error() {
    let err = parse_top_err("(define f (x))");
    assert!(
        err.message.contains("define") || err.message.contains("body") || err.message.contains("requires"),
        "error should describe missing body: {}", err.message
    );
}

#[test]
fn parse_define_valid() {
    let tops = parse_top("(define double (x) (* x 2))");
    assert_eq!(tops.len(), 1);
    if let TopLevel::Define(d) = &tops[0] {
        assert_eq!(d.name, "double");
        assert_eq!(d.params, vec!["x".to_string()]);
    } else {
        panic!("expected Define");
    }
}

#[test]
fn parse_task_valid() {
    let tops = parse_top(r#"(task "work")"#);
    assert_eq!(tops.len(), 1);
    if let TopLevel::Task(t) = &tops[0] {
        assert_eq!(t.id, "work");
    } else {
        panic!("expected Task");
    }
}

#[test]
fn parse_task_missing_id_is_error() {
    let err = parse_top_err("(task)");
    assert!(
        err.message.contains("task") || err.message.contains("id"),
        "error should describe missing task id: {}", err.message
    );
}

#[test]
fn parse_field_missing_type_is_error() {
    let err = parse_top_err("(deftype Foo (& (x :)))");
    let _ = err;
}

#[test]
fn parse_module_version_minor_preserved() {
    let tops = parse_top(r#"
        (module mymod
          :version 0.10.0
          :provides [])
    "#);
    if let Some(TopLevel::Module(m)) = tops.first() {
        assert_eq!(m.version.as_ref().map(|v| v.major), Some(0));
        assert_eq!(m.version.as_ref().map(|v| v.minor), Some(10));
        assert_eq!(m.version.as_ref().map(|v| v.patch), Some(0));
    } else {
        panic!("expected module");
    }
}
