use airl::ast::{AstType, AstTypeKind, Expr, FnDef, NatExpr, NatOp, TopLevel};
use airl::span::Span;
use airl::debug_text::{expr_kind_debug_text, type_debug_text};
use airl::diagnostic::Diagnostics;
use airl::lexer::Lexer;
use airl::sexpr::parse_sexpr_all;
use airl::toplevel::parse_top_level;

fn defn(input: &str) -> FnDef {
    let mut lexer = Lexer::new(input);
    let tokens = lexer.lex_all().unwrap();
    let sexprs = parse_sexpr_all(tokens).unwrap();
    let mut diags = Diagnostics::new();
    match parse_top_level(&sexprs[0], &mut diags).unwrap() {
        TopLevel::Defn(f) => f,
        _ => panic!("expected a function definition"),
    }
}

fn same_as_derived(e: &Expr) {
    assert_eq!(expr_kind_debug_text(e), format!("{:?}", e.kind));
}

fn type_same_as_derived(t: &AstType) {
    assert_eq!(type_debug_text(t), format!("{:?}", t));
}

#[test]
fn expression_kinds_print_as_derived_debug() {
    let def = defn(r#"
        (defn many
          :sig [(n : i64) (xs : List[i64]) -> i64]
          :requires [(>= n 0) (not false) (= "a\"b" "c") :kw nil 2.5]
          :ensures [(forall [i : i64] (where (< i n)) (> i -1))
                    (exists [j : nat] (= j 0))
                    (match n 0 "zero" (Ok x) x _ 1 true 2 nil 3 "s" 4 -7 5)
                    (let (a : i64 1) (b : bool true) (do a b))
                    (fn [x y] (+ x y))
                    (try (Ok 1))
                    [1 2 3]
                    (Point :x 1 :y 2)
                    (if (> n 0) 1 2)]
          :body (+ n 1))
    "#);
    for e in def.requires.iter().chain(def.ensures.iter()) {
        same_as_derived(e);
    }
    same_as_derived(&def.body);
    for p in def.params.iter() {
        type_same_as_derived(&p.ty);
    }
    type_same_as_derived(&def.return_type);
}

#[test]
fn symbol_kind_text() {
    let def = defn("(defn id :sig [(x : i64) -> i64] :body x)");
    assert_eq!(expr_kind_debug_text(&def.body), "SymbolRef(\"x\")");
    assert!(type_debug_text(&def.return_type).starts_with("AstType { kind: Named(\"i64\"), span: Span { start: "));
}

fn ty(kind: AstTypeKind) -> AstType {
    AstType { kind, span: Span::new(3, 9, 2, 4) }
}

#[test]
fn function_and_nat_types_print_as_derived_debug() {
    let f = ty(AstTypeKind::Func(vec![ty(AstTypeKind::Named("i64".into()))], Box::new(ty(AstTypeKind::Named("bool".into())))));
    type_same_as_derived(&f);
    let n = NatExpr::BinOp(NatOp::Mul, Box::new(NatExpr::Lit(2)), Box::new(NatExpr::Var("n".into())));
    let t = ty(AstTypeKind::App("tensor".into(), vec![ty(AstTypeKind::Named("f32".into())), ty(AstTypeKind::Nat(n))]));
    type_same_as_derived(&t);
    assert_eq!(
        type_debug_text(&ty(AstTypeKind::Nat(NatExpr::Lit(7)))),
        "AstType { kind: Nat(Lit(7)), span: Span { start: 3, end: 9, line: 2, col: 4 } }"
    );
}
