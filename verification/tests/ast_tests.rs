use airl::ast::{AstType, AstTypeKind, Expr, ExprKind, FnDef, NatExpr, NatOp, TopLevel, VerifyLevel};
use airl::span::Span;

fn ty(kind: AstTypeKind) -> AstType {
    AstType { kind, span: Span::dummy() }
}

#[test]
fn verify_level_default_is_checked() {
    assert_eq!(VerifyLevel::default(), VerifyLevel::Checked);
}

#[test]
fn named_type_prints_its_name() {
    assert_eq!(ty(AstTypeKind::Named("i32".into())).to_airl(), "i32");
}

#[test]
fn applied_type_prints_with_brackets() {
    let t = ty(AstTypeKind::App(
        "Result".into(),
        vec![ty(AstTypeKind::Named("i32".into())), ty(AstTypeKind::Named("DivError".into()))],
    ));
    assert_eq!(t.to_airl(), "Result[i32, DivError]");
    assert_eq!(ty(AstTypeKind::App("List".into(), vec![])).to_airl(), "List[]");
}

#[test]
fn function_type_prints_arrow_form() {
    let t = ty(AstTypeKind::Func(
        vec![ty(AstTypeKind::Named("i32".into())), ty(AstTypeKind::Named("i32".into()))],
        Box::new(ty(AstTypeKind::Named("bool".into()))),
    ));
    assert_eq!(t.to_airl(), "(-> [i32 i32] bool)");
}

#[test]
fn nat_types_print() {
    assert_eq!(ty(AstTypeKind::Nat(NatExpr::Lit(64))).to_airl(), "64");
    assert_eq!(ty(AstTypeKind::Nat(NatExpr::Var("n".into()))).to_airl(), "n");
    let e = NatExpr::BinOp(NatOp::Add, Box::new(NatExpr::Lit(1)), Box::new(NatExpr::Var("n".into())));
    assert_eq!(ty(AstTypeKind::Nat(e)).to_airl(), "(+ 1 n)");
}

#[test]
fn nested_nat_operands_print_as_source() {
    let inner = NatExpr::BinOp(NatOp::Mul, Box::new(NatExpr::Lit(2)), Box::new(NatExpr::Lit(3)));
    let e = NatExpr::BinOp(NatOp::Sub, Box::new(inner), Box::new(NatExpr::Lit(4)));
    assert_eq!(ty(AstTypeKind::Nat(e.clone())).to_airl(), "(- (* 2 3) 4)");
    assert_eq!(e, e.clone());
}

#[test]
fn tensor_type_prints() {
    let t = ty(AstTypeKind::App(
        "tensor".into(),
        vec![ty(AstTypeKind::Named("f32".into())), ty(AstTypeKind::Nat(NatExpr::Lit(64))), ty(AstTypeKind::Nat(NatExpr::Lit(64)))],
    ));
    assert_eq!(t.clone().to_airl(), "tensor[f32, 64, 64]");
}

#[test]
fn ast_types_are_clone_and_debug() {
    let e = Expr {
        kind: ExprKind::IntLit(42),
        span: Span::dummy(),
    };
    let _ = e.clone();
    let _ = format!("{:?}", e);
}

#[test]
fn fn_def_has_is_public() {
    let f = FnDef {
        name: "test".to_string(),
        params: vec![],
        return_type: AstType { kind: AstTypeKind::Named("Unit".to_string()), span: Span::dummy() },
        intent: None,
        requires: vec![],
        ensures: vec![],
        invariants: vec![],
        is_pure: false,
        is_total: false,
        body: Expr { kind: ExprKind::NilLit, span: Span::dummy() },
        execute_on: None,
        priority: None,
        is_public: true,
        span: Span::dummy(),
    };
    assert!(f.is_public);
}

#[test]
fn cloned_expression_is_equal() {
    let e = Expr {
        kind: ExprKind::FnCall(
            Box::new(Expr { kind: ExprKind::SymbolRef("f".to_string()), span: Span::dummy() }),
            vec![Expr { kind: ExprKind::IntLit(1), span: Span::dummy() }],
        ),
        span: Span::dummy(),
    };
    assert_eq!(e.clone(), e);
}

#[test]
fn import_ast_node_constructable() {
    let import = TopLevel::Import {
        path: "lib/math.airl".to_string(),
        alias: Some("m".to_string()),
        only: None,
        span: Span::dummy(),
    };
    let _ = import.clone();
    let _ = format!("{:?}", import);
}
