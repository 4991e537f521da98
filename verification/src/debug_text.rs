//! The `{:?}` text of syntax trees, as `derive(Debug)` writes it: a struct
//! as `Name { field: value, .. }`, a variant as `Name(a, b)` or `Name`, a
//! list as `[a, b]`, an option as `Some(x)` or `None`, a box as what it
//! holds, a string in double quotes with `{:?}`'s escapes. The messages for
//! what the translator cannot take quote these texts.
use vstd::prelude::*;
use crate::span::Span;
use crate::ast::{AstType, AstTypeKind, NatExpr, NatOp, Ownership, Expr, ExprKind, LetBinding, MatchArm, Param,
    Pattern, PatternKind, LitPattern, SpecNat, SpecTypeKind, SpecAstType, SpecExpr, SpecExprKind, SpecLetBinding,
    SpecMatchArm, SpecParam, SpecPattern, SpecPatternKind, SpecLitPattern, str_debug, debug_str, nat_op_name,
    nat_view, ast_type_view, ast_types_view, expr_view, exprs_view, binding_view, bindings_view, arm_view, arms_view,
    param_view, params_view, pattern_view, patterns_view, opt_expr_view, opt_expr_box_view, field_inits_view};
use crate::text::{decimal, decimal_int, u64_to_string, i64_to_string};
use crate::printer::{joined, join_strings};
use crate::parser::strings_view;

verus! {

// ── The texts ───────────────────────────────────────────────────────

/// A list's items between square brackets, separated by `, `.
pub open spec fn list_debug(parts: Seq<Seq<char>>) -> Seq<char> {
    "["@ + joined(parts, ", "@) + "]"@
}

pub open spec fn bool_text(b: bool) -> Seq<char> {
    if b { "true"@ } else { "false"@ }
}

pub open spec fn span_debug(s: Span) -> Seq<char> {
    "Span { start: "@ + decimal(s.start as nat) + ", end: "@ + decimal(s.end as nat) + ", line: "@
        + decimal(s.line as nat) + ", col: "@ + decimal(s.col as nat) + " }"@
}

pub open spec fn ownership_debug(o: Ownership) -> Seq<char> {
    match o {
        Ownership::Own => "Own"@,
        Ownership::Ref => "Ref"@,
        Ownership::Mut => "Mut"@,
        Ownership::Copy => "Copy"@,
        Ownership::Default => "Default"@,
    }
}

/// A type-level expression, e.g. `BinOp(Add, Lit(1), Var("n"))`.
pub open spec fn nat_debug(n: SpecNat) -> Seq<char>
    decreases n,
{
    match n {
        SpecNat::Lit(v) => "Lit("@ + decimal(v as nat) + ")"@,
        SpecNat::Var(s) => "Var("@ + str_debug(s) + ")"@,
        SpecNat::BinOp(op, l, r) => "BinOp("@ + nat_op_name(op) + ", "@ + nat_debug(*l) + ", "@ + nat_debug(*r) + ")"@,
    }
}

/// A type: `AstType { kind: .., span: .. }`.
pub open spec fn type_debug(t: SpecAstType) -> Seq<char>
    decreases t, 2nat,
{
    "AstType { kind: "@ + type_kind_debug(t) + ", span: "@ + span_debug(t.span) + " }"@
}

/// A type's kind.
pub open spec fn type_kind_debug(t: SpecAstType) -> Seq<char>
    decreases t, 1nat,
{
    match t.kind {
        SpecTypeKind::Named(s) => "Named("@ + str_debug(s) + ")"@,
        SpecTypeKind::App(n, args) => "App("@ + str_debug(n) + ", "@ + list_debug(types_parts(args)) + ")"@,
        SpecTypeKind::Func(ps, r) => "Func("@ + list_debug(types_parts(ps)) + ", "@ + type_debug(*r) + ")"@,
        SpecTypeKind::Nat(n) => "Nat("@ + nat_debug(n) + ")"@,
    }
}

pub open spec fn types_parts(s: Seq<SpecAstType>) -> Seq<Seq<char>>
    decreases s, 0nat,
{
    if s.len() == 0 { Seq::empty() } else { types_parts(s.drop_last()).push(type_debug(s.last())) }
}

pub open spec fn lit_pattern_debug(l: SpecLitPattern) -> Seq<char> {
    match l {
        SpecLitPattern::Int(v) => "Int("@ + decimal_int(v as int) + ")"@,
        SpecLitPattern::Float(v) => "Float("@ + decimal(v as nat) + ")"@,
        SpecLitPattern::Str(s) => "Str("@ + str_debug(s) + ")"@,
        SpecLitPattern::Bool(b) => "Bool("@ + bool_text(b) + ")"@,
        SpecLitPattern::Nil => "Nil"@,
    }
}

/// A pattern: `Pattern { kind: .., span: .. }`.
pub open spec fn pattern_debug(p: SpecPattern) -> Seq<char>
    decreases p, 1nat,
{
    "Pattern { kind: "@ + match p.kind {
        SpecPatternKind::Wildcard => "Wildcard"@,
        SpecPatternKind::Binding(s) => "Binding("@ + str_debug(s) + ")"@,
        SpecPatternKind::Literal(l) => "Literal("@ + lit_pattern_debug(l) + ")"@,
        SpecPatternKind::Variant(n, subs) => "Variant("@ + str_debug(n) + ", "@ + list_debug(patterns_parts(subs)) + ")"@,
    } + ", span: "@ + span_debug(p.span) + " }"@
}

pub open spec fn patterns_parts(s: Seq<SpecPattern>) -> Seq<Seq<char>>
    decreases s, 0nat,
{
    if s.len() == 0 { Seq::empty() } else { patterns_parts(s.drop_last()).push(pattern_debug(s.last())) }
}

/// An expression: `Expr { kind: .., span: .. }`.
pub open spec fn expr_debug(e: SpecExpr) -> Seq<char>
    decreases e, 2nat,
{
    "Expr { kind: "@ + expr_kind_debug(e) + ", span: "@ + span_debug(e.span) + " }"@
}

pub open spec fn guard_debug(g: Option<Box<SpecExpr>>) -> Seq<char>
    decreases g, 3nat,
{
    match g {
        Some(x) => "Some("@ + expr_debug(*x) + ")"@,
        None => "None"@,
    }
}

/// An expression's kind.
pub open spec fn expr_kind_debug(e: SpecExpr) -> Seq<char>
    decreases e, 1nat,
{
    match e.kind {
        SpecExprKind::IntLit(v) => "IntLit("@ + decimal_int(v as int) + ")"@,
        SpecExprKind::FloatLit(t) => "FloatLit("@ + str_debug(t) + ")"@,
        SpecExprKind::StrLit(s) => "StrLit("@ + str_debug(s) + ")"@,
        SpecExprKind::BoolLit(b) => "BoolLit("@ + bool_text(b) + ")"@,
        SpecExprKind::NilLit => "NilLit"@,
        SpecExprKind::SymbolRef(s) => "SymbolRef("@ + str_debug(s) + ")"@,
        SpecExprKind::KeywordLit(s) => "KeywordLit("@ + str_debug(s) + ")"@,
        SpecExprKind::If(c, t, f) => "If("@ + expr_debug(*c) + ", "@ + expr_debug(*t) + ", "@ + expr_debug(*f) + ")"@,
        SpecExprKind::Let(bs, body) => "Let("@ + list_debug(bindings_parts(bs)) + ", "@ + expr_debug(*body) + ")"@,
        SpecExprKind::Do(es) => "Do("@ + list_debug(exprs_parts(es)) + ")"@,
        SpecExprKind::Match(s, arms) => "Match("@ + expr_debug(*s) + ", "@ + list_debug(arms_parts(arms)) + ")"@,
        SpecExprKind::Lambda(ps, body) => "Lambda("@ + list_debug(params_parts(ps)) + ", "@ + expr_debug(*body) + ")"@,
        SpecExprKind::FnCall(f, args) => "FnCall("@ + expr_debug(*f) + ", "@ + list_debug(exprs_parts(args)) + ")"@,
        SpecExprKind::Try(x) => "Try("@ + expr_debug(*x) + ")"@,
        SpecExprKind::Forall(p, g, b) => "Forall("@ + param_debug(*p) + ", "@ + guard_debug(g) + ", "@ + expr_debug(*b) + ")"@,
        SpecExprKind::Exists(p, g, b) => "Exists("@ + param_debug(*p) + ", "@ + guard_debug(g) + ", "@ + expr_debug(*b) + ")"@,
        SpecExprKind::VariantCtor(n, args) => "VariantCtor("@ + str_debug(n) + ", "@ + list_debug(exprs_parts(args)) + ")"@,
        SpecExprKind::StructLit(n, fs) => "StructLit("@ + str_debug(n) + ", "@ + list_debug(fields_parts(fs)) + ")"@,
        SpecExprKind::ListLit(es) => "ListLit("@ + list_debug(exprs_parts(es)) + ")"@,
    }
}

pub open spec fn exprs_parts(s: Seq<SpecExpr>) -> Seq<Seq<char>>
    decreases s, 0nat,
{
    if s.len() == 0 { Seq::empty() } else { exprs_parts(s.drop_last()).push(expr_debug(s.last())) }
}

pub open spec fn fields_parts(s: Seq<(Seq<char>, SpecExpr)>) -> Seq<Seq<char>>
    decreases s, 0nat,
{
    if s.len() == 0 {
        Seq::empty()
    } else {
        fields_parts(s.drop_last()).push("("@ + str_debug(s.last().0) + ", "@ + expr_debug(s.last().1) + ")"@)
    }
}

pub open spec fn binding_debug(b: SpecLetBinding) -> Seq<char>
    decreases b, 3nat,
{
    "LetBinding { name: "@ + str_debug(b.name) + ", ty: "@ + type_debug(b.ty) + ", value: "@ + expr_debug(b.value)
        + ", span: "@ + span_debug(b.span) + " }"@
}

pub open spec fn bindings_parts(s: Seq<SpecLetBinding>) -> Seq<Seq<char>>
    decreases s, 0nat,
{
    if s.len() == 0 { Seq::empty() } else { bindings_parts(s.drop_last()).push(binding_debug(s.last())) }
}

pub open spec fn arm_debug(a: SpecMatchArm) -> Seq<char>
    decreases a, 3nat,
{
    "MatchArm { pattern: "@ + pattern_debug(a.pattern) + ", body: "@ + expr_debug(a.body) + ", span: "@
        + span_debug(a.span) + " }"@
}

pub open spec fn arms_parts(s: Seq<SpecMatchArm>) -> Seq<Seq<char>>
    decreases s, 0nat,
{
    if s.len() == 0 { Seq::empty() } else { arms_parts(s.drop_last()).push(arm_debug(s.last())) }
}

pub open spec fn param_debug(p: SpecParam) -> Seq<char>
    decreases p, 3nat,
{
    "Param { ownership: "@ + ownership_debug(p.ownership) + ", name: "@ + str_debug(p.name) + ", ty: "@
        + type_debug(p.ty) + ", default: "@ + match p.default {
            Some(x) => "Some("@ + expr_debug(x) + ")"@,
            None => "None"@,
        } + ", span: "@ + span_debug(p.span) + " }"@
}

pub open spec fn params_parts(s: Seq<SpecParam>) -> Seq<Seq<char>>
    decreases s, 0nat,
{
    if s.len() == 0 { Seq::empty() } else { params_parts(s.drop_last()).push(param_debug(s.last())) }
}

// ── Writing them ────────────────────────────────────────────────────

fn bracketed(parts: &Vec<String>) -> (s: String)
    ensures
        s@ == list_debug(strings_view(parts@)),
{
    let mut s = String::from_str("[");
    let body = join_strings(parts, ", ");
    s.append(body.as_str());
    s.append("]");
    s
}

fn bool_text_exec(b: bool) -> (s: &'static str)
    ensures
        s@ == bool_text(b),
{
    if b { "true" } else { "false" }
}

fn span_debug_text(sp: Span) -> (s: String)
    ensures
        s@ == span_debug(sp),
{
    let mut s = String::from_str("Span { start: ");
    s.append(u64_to_string(sp.start as u64).as_str());
    s.append(", end: ");
    s.append(u64_to_string(sp.end as u64).as_str());
    s.append(", line: ");
    s.append(u64_to_string(sp.line as u64).as_str());
    s.append(", col: ");
    s.append(u64_to_string(sp.col as u64).as_str());
    s.append(" }");
    s
}

fn ownership_debug_exec(o: Ownership) -> (s: &'static str)
    ensures
        s@ == ownership_debug(o),
{
    match o {
        Ownership::Own => "Own",
        Ownership::Ref => "Ref",
        Ownership::Mut => "Mut",
        Ownership::Copy => "Copy",
        Ownership::Default => "Default",
    }
}

fn nat_op_name_exec(op: NatOp) -> (s: &'static str)
    ensures
        s@ == nat_op_name(op),
{
    match op {
        NatOp::Add => "Add",
        NatOp::Sub => "Sub",
        NatOp::Mul => "Mul",
    }
}

fn nat_debug_text(n: &NatExpr) -> (s: String)
    ensures
        s@ == nat_debug(nat_view(*n)),
    decreases n,
{
    match n {
        NatExpr::Lit(v) => {
            let mut s = String::from_str("Lit(");
            s.append(u64_to_string(*v).as_str());
            s.append(")");
            s
        },
        NatExpr::Var(name) => {
            let mut s = String::from_str("Var(");
            s.append(debug_str(name.as_str()).as_str());
            s.append(")");
            s
        },
        NatExpr::BinOp(op, l, r) => {
            let mut s = String::from_str("BinOp(");
            s.append(nat_op_name_exec(*op));
            s.append(", ");
            s.append(nat_debug_text(l).as_str());
            s.append(", ");
            s.append(nat_debug_text(r).as_str());
            s.append(")");
            s
        },
    }
}

/// A type's `{:?}` text.
pub fn type_debug_text(t: &AstType) -> (s: String)
    ensures
        s@ == type_debug(ast_type_view(*t)),
    decreases t, 2nat,
{
    let mut s = String::from_str("AstType { kind: ");
    s.append(type_kind_debug_text(t).as_str());
    s.append(", span: ");
    s.append(span_debug_text(t.span).as_str());
    s.append(" }");
    s
}

fn type_kind_debug_text(t: &AstType) -> (s: String)
    ensures
        s@ == type_kind_debug(ast_type_view(*t)),
    decreases t, 1nat,
{
    match &t.kind {
        AstTypeKind::Named(n) => {
            let mut s = String::from_str("Named(");
            s.append(debug_str(n.as_str()).as_str());
            s.append(")");
            s
        },
        AstTypeKind::App(n, args) => {
            let mut s = String::from_str("App(");
            s.append(debug_str(n.as_str()).as_str());
            s.append(", ");
            s.append(types_debug_text(args).as_str());
            s.append(")");
            s
        },
        AstTypeKind::Func(ps, r) => {
            let mut s = String::from_str("Func(");
            s.append(types_debug_text(ps).as_str());
            s.append(", ");
            s.append(type_debug_text(r).as_str());
            s.append(")");
            s
        },
        AstTypeKind::Nat(n) => {
            let mut s = String::from_str("Nat(");
            s.append(nat_debug_text(n).as_str());
            s.append(")");
            s
        },
    }
}

fn lit_pattern_debug_text(l: &LitPattern) -> (s: String)
    ensures
        s@ == lit_pattern_debug(match *l {
            LitPattern::Int(v) => SpecLitPattern::Int(v),
            LitPattern::Float(v) => SpecLitPattern::Float(v),
            LitPattern::Str(v) => SpecLitPattern::Str(v@),
            LitPattern::Bool(v) => SpecLitPattern::Bool(v),
            LitPattern::Nil => SpecLitPattern::Nil,
        }),
{
    match l {
        LitPattern::Int(v) => {
            let mut s = String::from_str("Int(");
            s.append(i64_to_string(*v).as_str());
            s.append(")");
            s
        },
        LitPattern::Float(v) => {
            let mut s = String::from_str("Float(");
            s.append(u64_to_string(*v).as_str());
            s.append(")");
            s
        },
        LitPattern::Str(v) => {
            let mut s = String::from_str("Str(");
            s.append(debug_str(v.as_str()).as_str());
            s.append(")");
            s
        },
        LitPattern::Bool(b) => {
            let mut s = String::from_str("Bool(");
            s.append(bool_text_exec(*b));
            s.append(")");
            s
        },
        LitPattern::Nil => String::from_str("Nil"),
    }
}

fn pattern_debug_text(p: &Pattern) -> (s: String)
    ensures
        s@ == pattern_debug(pattern_view(*p)),
    decreases p, 1nat,
{
    let mut s = String::from_str("Pattern { kind: ");
    match &p.kind {
        PatternKind::Wildcard => s.append("Wildcard"),
        PatternKind::Binding(n) => {
            s.append("Binding(");
            s.append(debug_str(n.as_str()).as_str());
            s.append(")");
        },
        PatternKind::Literal(l) => {
            s.append("Literal(");
            s.append(lit_pattern_debug_text(l).as_str());
            s.append(")");
        },
        PatternKind::Variant(n, subs) => {
            s.append("Variant(");
            s.append(debug_str(n.as_str()).as_str());
            s.append(", ");
            s.append(patterns_debug_text(subs).as_str());
            s.append(")");
        },
    }
    s.append(", span: ");
    s.append(span_debug_text(p.span).as_str());
    s.append(" }");
    s
}

fn expr_debug_text(e: &Expr) -> (s: String)
    ensures
        s@ == expr_debug(expr_view(*e)),
    decreases e, 2nat,
{
    let mut s = String::from_str("Expr { kind: ");
    s.append(expr_kind_debug_text(e).as_str());
    s.append(", span: ");
    s.append(span_debug_text(e.span).as_str());
    s.append(" }");
    s
}

fn guard_debug_text(g: &Option<Box<Expr>>) -> (s: String)
    ensures
        s@ == guard_debug(opt_expr_box_view(*g)),
    decreases g, 3nat,
{
    match g {
        Some(x) => {
            let mut s = String::from_str("Some(");
            s.append(expr_debug_text(x).as_str());
            s.append(")");
            s
        },
        None => String::from_str("None"),
    }
}

fn wrap1(tag: &str, a: &str) -> (s: String)
    ensures
        s@ == tag@ + a@ + ")"@,
{
    let mut s = String::from_str(tag);
    s.append(a);
    s.append(")");
    s
}

fn wrap2(tag: &str, a: &str, b: &str) -> (s: String)
    ensures
        s@ == tag@ + a@ + ", "@ + b@ + ")"@,
{
    let mut s = String::from_str(tag);
    s.append(a);
    s.append(", ");
    s.append(b);
    s.append(")");
    s
}

fn wrap3(tag: &str, a: &str, b: &str, c: &str) -> (s: String)
    ensures
        s@ == tag@ + a@ + ", "@ + b@ + ", "@ + c@ + ")"@,
{
    let mut s = String::from_str(tag);
    s.append(a);
    s.append(", ");
    s.append(b);
    s.append(", ");
    s.append(c);
    s.append(")");
    s
}

/// An expression's kind's `{:?}` text.
pub fn expr_kind_debug_text(e: &Expr) -> (s: String)
    ensures
        s@ == expr_kind_debug(expr_view(*e)),
    decreases e, 1nat,
{
    match &e.kind {
        ExprKind::IntLit(v) => wrap1("IntLit(", i64_to_string(*v).as_str()),
        ExprKind::FloatLit(t) => wrap1("FloatLit(", debug_str(t.as_str()).as_str()),
        ExprKind::StrLit(v) => wrap1("StrLit(", debug_str(v.as_str()).as_str()),
        ExprKind::BoolLit(b) => wrap1("BoolLit(", bool_text_exec(*b)),
        ExprKind::NilLit => String::from_str("NilLit"),
        ExprKind::SymbolRef(v) => wrap1("SymbolRef(", debug_str(v.as_str()).as_str()),
        ExprKind::KeywordLit(v) => wrap1("KeywordLit(", debug_str(v.as_str()).as_str()),
        ExprKind::If(c, t, f) => wrap3("If(", expr_debug_text(c).as_str(), expr_debug_text(t).as_str(),
            expr_debug_text(f).as_str()),
        ExprKind::Let(bs, body) => wrap2("Let(", bindings_debug_text(bs).as_str(), expr_debug_text(body).as_str()),
        ExprKind::Do(es) => wrap1("Do(", exprs_debug_text(es).as_str()),
        ExprKind::Match(sc, arms) => wrap2("Match(", expr_debug_text(sc).as_str(), arms_debug_text(arms).as_str()),
        ExprKind::Lambda(ps, body) => wrap2("Lambda(", params_debug_text(ps).as_str(), expr_debug_text(body).as_str()),
        ExprKind::FnCall(f, args) => wrap2("FnCall(", expr_debug_text(f).as_str(), exprs_debug_text(args).as_str()),
        ExprKind::Try(x) => wrap1("Try(", expr_debug_text(x).as_str()),
        ExprKind::Forall(p, g, b) => wrap3("Forall(", param_debug_text(p).as_str(), guard_debug_text(g).as_str(),
            expr_debug_text(b).as_str()),
        ExprKind::Exists(p, g, b) => wrap3("Exists(", param_debug_text(p).as_str(), guard_debug_text(g).as_str(),
            expr_debug_text(b).as_str()),
        ExprKind::VariantCtor(n, args) => wrap2("VariantCtor(", debug_str(n.as_str()).as_str(),
            exprs_debug_text(args).as_str()),
        ExprKind::StructLit(n, fs) => wrap2("StructLit(", debug_str(n.as_str()).as_str(), fields_debug_text(fs).as_str()),
        ExprKind::ListLit(es) => wrap1("ListLit(", exprs_debug_text(es).as_str()),
    }
}

fn field_debug_text(name: &String, e: &Expr) -> (s: String)
    ensures
        s@ == "("@ + str_debug(name@) + ", "@ + expr_debug(expr_view(*e)) + ")"@,
    decreases e, 3nat,
{
    let mut s = String::from_str("(");
    s.append(debug_str(name.as_str()).as_str());
    s.append(", ");
    s.append(expr_debug_text(e).as_str());
    s.append(")");
    s
}

fn binding_debug_text(b: &LetBinding) -> (s: String)
    ensures
        s@ == binding_debug(binding_view(*b)),
    decreases b, 3nat,
{
    let mut s = String::from_str("LetBinding { name: ");
    s.append(debug_str(b.name.as_str()).as_str());
    s.append(", ty: ");
    s.append(type_debug_text(&b.ty).as_str());
    s.append(", value: ");
    s.append(expr_debug_text(&b.value).as_str());
    s.append(", span: ");
    s.append(span_debug_text(b.span).as_str());
    s.append(" }");
    s
}

fn arm_debug_text(a: &MatchArm) -> (s: String)
    ensures
        s@ == arm_debug(arm_view(*a)),
    decreases a, 3nat,
{
    let mut s = String::from_str("MatchArm { pattern: ");
    s.append(pattern_debug_text(&a.pattern).as_str());
    s.append(", body: ");
    s.append(expr_debug_text(&a.body).as_str());
    s.append(", span: ");
    s.append(span_debug_text(a.span).as_str());
    s.append(" }");
    s
}

fn param_debug_text(p: &Param) -> (s: String)
    ensures
        s@ == param_debug(param_view(*p)),
    decreases p, 3nat,
{
    let mut s = String::from_str("Param { ownership: ");
    s.append(ownership_debug_exec(p.ownership));
    s.append(", name: ");
    s.append(debug_str(p.name.as_str()).as_str());
    s.append(", ty: ");
    s.append(type_debug_text(&p.ty).as_str());
    s.append(", default: ");
    match &p.default {
        Some(x) => {
            s.append("Some(");
            s.append(expr_debug_text(x).as_str());
            s.append(")");
        },
        None => s.append("None"),
    }
    s.append(", span: ");
    s.append(span_debug_text(p.span).as_str());
    s.append(" }");
    s
}

fn types_debug_text(v: &Vec<AstType>) -> (s: String)
    ensures
        s@ == list_debug(types_parts(ast_types_view(v@))),
    decreases v, 0nat,
{
    let mut parts: Vec<String> = Vec::new();
    let mut i: usize = 0;
    assert(v@.take(0) =~= Seq::<AstType>::empty());
    while i < v.len()
        invariant
            i <= v@.len(),
            strings_view(parts@) == types_parts(ast_types_view(v@.take(i as int))),
        decreases v@.len() - i,
    {
        proof {
            assert(decreases_to!(v => v@));
            assert(decreases_to!(v@ => v@[i as int]));
            
            assert(v@.take(i + 1).drop_last() =~= v@.take(i as int));
            assert(v@.take(i + 1).last() == v@[i as int]);
            assert(ast_types_view(v@.take(i + 1)).drop_last() =~= ast_types_view(v@.take(i as int)));
        }
        let d = type_debug_text(&v[i]);
        let ghost prev = parts@;
        parts.push(d);
        proof {
            assert(strings_view(parts@) =~= strings_view(prev).push(d@));
        }
        i += 1;
    }
    assert(v@.take(i as int) =~= v@);
    bracketed(&parts)
}

fn patterns_debug_text(v: &Vec<Pattern>) -> (s: String)
    ensures
        s@ == list_debug(patterns_parts(patterns_view(v@))),
    decreases v, 0nat,
{
    let mut parts: Vec<String> = Vec::new();
    let mut i: usize = 0;
    assert(v@.take(0) =~= Seq::<Pattern>::empty());
    while i < v.len()
        invariant
            i <= v@.len(),
            strings_view(parts@) == patterns_parts(patterns_view(v@.take(i as int))),
        decreases v@.len() - i,
    {
        proof {
            assert(decreases_to!(v => v@));
            assert(decreases_to!(v@ => v@[i as int]));
            
            assert(v@.take(i + 1).drop_last() =~= v@.take(i as int));
            assert(v@.take(i + 1).last() == v@[i as int]);
            assert(patterns_view(v@.take(i + 1)).drop_last() =~= patterns_view(v@.take(i as int)));
        }
        let d = pattern_debug_text(&v[i]);
        let ghost prev = parts@;
        parts.push(d);
        proof {
            assert(strings_view(parts@) =~= strings_view(prev).push(d@));
        }
        i += 1;
    }
    assert(v@.take(i as int) =~= v@);
    bracketed(&parts)
}

fn exprs_debug_text(v: &Vec<Expr>) -> (s: String)
    ensures
        s@ == list_debug(exprs_parts(exprs_view(v@))),
    decreases v, 0nat,
{
    let mut parts: Vec<String> = Vec::new();
    let mut i: usize = 0;
    assert(v@.take(0) =~= Seq::<Expr>::empty());
    while i < v.len()
        invariant
            i <= v@.len(),
            strings_view(parts@) == exprs_parts(exprs_view(v@.take(i as int))),
        decreases v@.len() - i,
    {
        proof {
            assert(decreases_to!(v => v@));
            assert(decreases_to!(v@ => v@[i as int]));
            
            assert(v@.take(i + 1).drop_last() =~= v@.take(i as int));
            assert(v@.take(i + 1).last() == v@[i as int]);
            assert(exprs_view(v@.take(i + 1)).drop_last() =~= exprs_view(v@.take(i as int)));
        }
        let d = expr_debug_text(&v[i]);
        let ghost prev = parts@;
        parts.push(d);
        proof {
            assert(strings_view(parts@) =~= strings_view(prev).push(d@));
        }
        i += 1;
    }
    assert(v@.take(i as int) =~= v@);
    bracketed(&parts)
}

fn bindings_debug_text(v: &Vec<LetBinding>) -> (s: String)
    ensures
        s@ == list_debug(bindings_parts(bindings_view(v@))),
    decreases v, 0nat,
{
    let mut parts: Vec<String> = Vec::new();
    let mut i: usize = 0;
    assert(v@.take(0) =~= Seq::<LetBinding>::empty());
    while i < v.len()
        invariant
            i <= v@.len(),
            strings_view(parts@) == bindings_parts(bindings_view(v@.take(i as int))),
        decreases v@.len() - i,
    {
        proof {
            assert(decreases_to!(v => v@));
            assert(decreases_to!(v@ => v@[i as int]));
            
            assert(v@.take(i + 1).drop_last() =~= v@.take(i as int));
            assert(v@.take(i + 1).last() == v@[i as int]);
            assert(bindings_view(v@.take(i + 1)).drop_last() =~= bindings_view(v@.take(i as int)));
        }
        let d = binding_debug_text(&v[i]);
        let ghost prev = parts@;
        parts.push(d);
        proof {
            assert(strings_view(parts@) =~= strings_view(prev).push(d@));
        }
        i += 1;
    }
    assert(v@.take(i as int) =~= v@);
    bracketed(&parts)
}

fn arms_debug_text(v: &Vec<MatchArm>) -> (s: String)
    ensures
        s@ == list_debug(arms_parts(arms_view(v@))),
    decreases v, 0nat,
{
    let mut parts: Vec<String> = Vec::new();
    let mut i: usize = 0;
    assert(v@.take(0) =~= Seq::<MatchArm>::empty());
    while i < v.len()
        invariant
            i <= v@.len(),
            strings_view(parts@) == arms_parts(arms_view(v@.take(i as int))),
        decreases v@.len() - i,
    {
        proof {
            assert(decreases_to!(v => v@));
            assert(decreases_to!(v@ => v@[i as int]));
            
            assert(v@.take(i + 1).drop_last() =~= v@.take(i as int));
            assert(v@.take(i + 1).last() == v@[i as int]);
            assert(arms_view(v@.take(i + 1)).drop_last() =~= arms_view(v@.take(i as int)));
        }
        let d = arm_debug_text(&v[i]);
        let ghost prev = parts@;
        parts.push(d);
        proof {
            assert(strings_view(parts@) =~= strings_view(prev).push(d@));
        }
        i += 1;
    }
    assert(v@.take(i as int) =~= v@);
    bracketed(&parts)
}

fn params_debug_text(v: &Vec<Param>) -> (s: String)
    ensures
        s@ == list_debug(params_parts(params_view(v@))),
    decreases v, 0nat,
{
    let mut parts: Vec<String> = Vec::new();
    let mut i: usize = 0;
    assert(v@.take(0) =~= Seq::<Param>::empty());
    while i < v.len()
        invariant
            i <= v@.len(),
            strings_view(parts@) == params_parts(params_view(v@.take(i as int))),
        decreases v@.len() - i,
    {
        proof {
            assert(decreases_to!(v => v@));
            assert(decreases_to!(v@ => v@[i as int]));
            
            assert(v@.take(i + 1).drop_last() =~= v@.take(i as int));
            assert(v@.take(i + 1).last() == v@[i as int]);
            assert(params_view(v@.take(i + 1)).drop_last() =~= params_view(v@.take(i as int)));
        }
        let d = param_debug_text(&v[i]);
        let ghost prev = parts@;
        parts.push(d);
        proof {
            assert(strings_view(parts@) =~= strings_view(prev).push(d@));
        }
        i += 1;
    }
    assert(v@.take(i as int) =~= v@);
    bracketed(&parts)
}

fn fields_debug_text(v: &Vec<(String, Expr)>) -> (s: String)
    ensures
        s@ == list_debug(fields_parts(field_inits_view(v@))),
    decreases v, 0nat,
{
    let mut parts: Vec<String> = Vec::new();
    let mut i: usize = 0;
    assert(v@.take(0) =~= Seq::<(String, Expr)>::empty());
    while i < v.len()
        invariant
            i <= v@.len(),
            strings_view(parts@) == fields_parts(field_inits_view(v@.take(i as int))),
        decreases v@.len() - i,
    {
        proof {
            assert(decreases_to!(v => v@));
            assert(decreases_to!(v@ => v@[i as int]));
            assert(decreases_to!(v@[i as int] => v@[i as int].1));
            assert(v@.take(i + 1).drop_last() =~= v@.take(i as int));
            assert(v@.take(i + 1).last() == v@[i as int]);
            assert(field_inits_view(v@.take(i + 1)).drop_last() =~= field_inits_view(v@.take(i as int)));
        }
        let d = field_debug_text(&v[i].0, &v[i].1);
        let ghost prev = parts@;
        parts.push(d);
        proof {
            assert(strings_view(parts@) =~= strings_view(prev).push(d@));
        }
        i += 1;
    }
    assert(v@.take(i as int) =~= v@);
    bracketed(&parts)
}

} // verus!
