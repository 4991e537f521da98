//! Reading IR trees from the value form the self-hosted compiler emits:
//! each node is a variant tagged `IRInt`, `IRIf`, ... whose payload holds
//! its children.
use vstd::prelude::*;
use crate::ir::{IRNode, IRBinding, IRArm, IRPattern};
use crate::value::{Value, value_same, clone_value};
use crate::error::RuntimeError;
use crate::bytecode::kind_name;
use crate::text::{decimal, str_eq, u64_to_string};

verus! {

/// Abstract IR tree: strings as character sequences.
pub enum SpecIR {
    Int(i64),
    Float(u64),
    Str(Seq<char>),
    Bool(bool),
    Nil,
    Load(Seq<char>),
    If(Box<SpecIR>, Box<SpecIR>, Box<SpecIR>),
    Do(Seq<SpecIR>),
    Let(Seq<(Seq<char>, SpecIR)>, Box<SpecIR>),
    Func(Seq<char>, Seq<Seq<char>>, Box<SpecIR>),
    Lambda(Seq<Seq<char>>, Box<SpecIR>),
    Call(Seq<char>, Seq<SpecIR>),
    CallExpr(Box<SpecIR>, Seq<SpecIR>),
    List(Seq<SpecIR>),
    Variant(Seq<char>, Seq<SpecIR>),
    Match(Box<SpecIR>, Seq<(SpecPat, SpecIR)>),
    Try(Box<SpecIR>),
}

/// Abstract IR pattern; a literal is the value it was read from.
pub enum SpecPat {
    Wild,
    Bind(Seq<char>),
    Lit(Value),
    Variant(Seq<char>, Seq<SpecPat>),
}

pub open spec fn ir_msg(detail: Seq<char>) -> Seq<char> {
    "IR marshal: "@ + detail
}

pub open spec fn is_ir_error(e: RuntimeError, detail: Seq<char>) -> bool {
    e matches RuntimeError::TypeError(m) && m@ == ir_msg(detail)
}

fn type_err(detail: String) -> (e: RuntimeError)
    ensures
        is_ir_error(e, detail@),
{
    let mut m = String::from_str("IR marshal: ");
    m.append(detail.as_str());
    RuntimeError::TypeError(m)
}

fn type_err_str(detail: &str) -> (e: RuntimeError)
    ensures
        is_ir_error(e, detail@),
{
    type_err(String::from_str(detail))
}

// ── Field access on payloads ────────────────────────────────────────

/// A payload that must be a list of at least `n` items.
pub open spec fn spec_expect_list(v: Value, ctx: Seq<char>, n: nat) -> Result<Seq<Value>, Seq<char>> {
    match v {
        Value::List(items) => if items@.len() >= n {
            Ok(items@)
        } else {
            Err(ctx + ": expected "@ + decimal(n) + " items, got "@ + decimal(items@.len()))
        },
        _ => Err(ctx + ": expected list"@),
    }
}

pub open spec fn spec_expect_inner_list(v: Value, ctx: Seq<char>) -> Result<Seq<Value>, Seq<char>> {
    match v {
        Value::List(items) => Ok(items@),
        _ => Err(ctx + ": expected list"@),
    }
}

pub open spec fn spec_expect_str(v: Value, ctx: Seq<char>) -> Result<Seq<char>, Seq<char>> {
    match v {
        Value::Str(s) => Ok(s@),
        _ => Err(ctx + ": expected string"@),
    }
}

/// Every item a string, the first other item reported.
pub open spec fn spec_strs(items: Seq<Value>, ctx: Seq<char>) -> Result<Seq<Seq<char>>, Seq<char>>
    decreases items.len(),
{
    if items.len() == 0 {
        Ok(Seq::empty())
    } else {
        match spec_strs(items.drop_last(), ctx) {
            Err(d) => Err(d),
            Ok(p) => match spec_expect_str(items.last(), ctx) {
                Err(d) => Err(d),
                Ok(s) => Ok(p.push(s)),
            },
        }
    }
}

pub open spec fn spec_expect_str_list(v: Value, ctx: Seq<char>) -> Result<Seq<Seq<char>>, Seq<char>> {
    match v {
        Value::List(items) => spec_strs(items@, ctx),
        _ => Err(ctx + ": expected list of strings"@),
    }
}

fn expect_list<'a>(val: &'a Value, ctx: &str, n: usize) -> (r: Result<&'a Vec<Value>, RuntimeError>)
    ensures
        match spec_expect_list(*val, ctx@, n as nat) {
            Ok(items) => r matches Ok(v) && v@ == items && *val == Value::List(*v),
            Err(d) => r matches Err(e) && is_ir_error(e, d),
        },
{
    match val {
        Value::List(items) => {
            if items.len() >= n {
                Ok(items)
            } else {
                let mut d = String::from_str(ctx);
                d.append(": expected ");
                let a = u64_to_string(n as u64);
                d.append(a.as_str());
                d.append(" items, got ");
                let b = u64_to_string(items.len() as u64);
                d.append(b.as_str());
                Err(type_err(d))
            }
        },
        _ => {
            let mut d = String::from_str(ctx);
            d.append(": expected list");
            Err(type_err(d))
        },
    }
}

fn expect_inner_list<'a>(val: &'a Value, ctx: &str) -> (r: Result<&'a Vec<Value>, RuntimeError>)
    ensures
        match spec_expect_inner_list(*val, ctx@) {
            Ok(items) => r matches Ok(v) && v@ == items && *val == Value::List(*v),
            Err(d) => r matches Err(e) && is_ir_error(e, d),
        },
{
    match val {
        Value::List(items) => Ok(items),
        _ => {
            let mut d = String::from_str(ctx);
            d.append(": expected list");
            Err(type_err(d))
        },
    }
}

fn expect_str(val: &Value, ctx: &str) -> (r: Result<String, RuntimeError>)
    ensures
        match spec_expect_str(*val, ctx@) {
            Ok(s) => r matches Ok(x) && x@ == s,
            Err(d) => r matches Err(e) && is_ir_error(e, d),
        },
{
    match val {
        Value::Str(s) => Ok(s.clone()),
        _ => {
            let mut d = String::from_str(ctx);
            d.append(": expected string");
            Err(type_err(d))
        },
    }
}

pub open spec fn strs_view(v: Seq<String>) -> Seq<Seq<char>> {
    Seq::new(v.len(), |i: int| v[i]@)
}

fn expect_str_list(val: &Value, ctx: &str) -> (r: Result<Vec<String>, RuntimeError>)
    ensures
        match spec_expect_str_list(*val, ctx@) {
            Ok(s) => r matches Ok(x) && strs_view(x@) == s,
            Err(d) => r matches Err(e) && is_ir_error(e, d),
        },
{
    match val {
        Value::List(items) => {
            let mut out: Vec<String> = Vec::new();
            let mut i: usize = 0;
            assert(items@.take(0) =~= Seq::<Value>::empty());
            assert(strs_view(out@) =~= Seq::<Seq<char>>::empty());
            while i < items.len()
                invariant
                    i <= items@.len(),
                    *val == Value::List(*items),
                    spec_strs(items@.take(i as int), ctx@) == Ok::<Seq<Seq<char>>, Seq<char>>(strs_view(out@)),
                decreases items@.len() - i,
            {
                assert(items@.take(i + 1).drop_last() =~= items@.take(i as int));
                assert(items@.take(i + 1).last() == items@[i as int]);
                match expect_str(&items[i], ctx) {
                    Ok(s) => {
                        let ghost prev = out@;
                        out.push(s);
                        assert(strs_view(out@) =~= strs_view(prev).push(out@.last()@));
                    },
                    Err(e) => {
                        proof {
                            lemma_strs_prefix_err(items@, ctx@, i as int + 1);
                        }
                        return Err(e);
                    },
                }
                i += 1;
            }
            assert(items@.take(items@.len() as int) =~= items@);
            Ok(out)
        },
        _ => {
            let mut d = String::from_str(ctx);
            d.append(": expected list of strings");
            Err(type_err(d))
        },
    }
}

pub proof fn lemma_strs_prefix_err(items: Seq<Value>, ctx: Seq<char>, n: int)
    requires
        0 <= n <= items.len(),
        spec_strs(items.take(n), ctx) is Err,
    ensures
        spec_strs(items, ctx) == spec_strs(items.take(n), ctx),
    decreases items.len() - n,
{
    if n < items.len() {
        assert(items.take(n + 1).drop_last() =~= items.take(n));
        lemma_strs_prefix_err(items, ctx, n + 1);
    } else {
        assert(items.take(n) =~= items);
    }
}

// ── The decoder, as a specification ─────────────────────────────────

/// Decoding an IR node.
pub open spec fn spec_value_to_ir(v: Value) -> Result<SpecIR, Seq<char>>
    decreases v, 2nat,
{
    match v {
        Value::Variant(tag, inner) => {
            let t = tag@;
            if t == "IRInt"@ {
                match *inner { Value::Int(n) => Ok(SpecIR::Int(n)), _ => Err("IRInt expects Int"@) }
            } else if t == "IRFloat"@ {
                match *inner { Value::Float(n) => Ok(SpecIR::Float(n)), _ => Err("IRFloat expects Float"@) }
            } else if t == "IRStr"@ {
                match *inner { Value::Str(s) => Ok(SpecIR::Str(s@)), _ => Err("IRStr expects Str"@) }
            } else if t == "IRBool"@ {
                match *inner { Value::Bool(b) => Ok(SpecIR::Bool(b)), _ => Err("IRBool expects Bool"@) }
            } else if t == "IRNil"@ {
                Ok(SpecIR::Nil)
            } else if t == "IRLoad"@ {
                match *inner { Value::Str(s) => Ok(SpecIR::Load(s@)), _ => Err("IRLoad expects Str"@) }
            } else if t == "IRIf"@ {
                match *inner {
                    Value::List(items) => if items@.len() >= 3 {
                        match spec_value_to_ir(items@[0]) {
                            Err(d) => Err(d),
                            Ok(c) => match spec_value_to_ir(items@[1]) {
                                Err(d) => Err(d),
                                Ok(th) => match spec_value_to_ir(items@[2]) {
                                    Err(d) => Err(d),
                                    Ok(el) => Ok(SpecIR::If(Box::new(c), Box::new(th), Box::new(el))),
                                },
                            },
                        }
                    } else {
                        Err("IRIf"@ + ": expected "@ + decimal(3) + " items, got "@ + decimal(items@.len()))
                    },
                    _ => Err("IRIf"@ + ": expected list"@),
                }
            } else if t == "IRDo"@ {
                match *inner {
                    Value::List(items) => match spec_nodes(items@) {
                        Err(d) => Err(d),
                        Ok(ns) => Ok(SpecIR::Do(ns)),
                    },
                    _ => Err("IRDo"@ + ": expected list"@),
                }
            } else if t == "IRTry"@ {
                match spec_value_to_ir(*inner) {
                    Err(d) => Err(d),
                    Ok(n) => Ok(SpecIR::Try(Box::new(n))),
                }
            } else if t == "IRList"@ {
                match *inner {
                    Value::List(items) => match spec_nodes(items@) {
                        Err(d) => Err(d),
                        Ok(ns) => Ok(SpecIR::List(ns)),
                    },
                    _ => Err("IRList"@ + ": expected list"@),
                }
            } else if t == "IRBinding"@ {
                Err("IRBinding is not a standalone node"@)
            } else if t == "IRLet"@ || t == "IRFunc"@ || t == "IRLambda"@ || t == "IRCall"@ || t == "IRCallExpr"@
                || t == "IRVariant"@ || t == "IRMatch"@ {
                match *inner {
                    Value::List(items) => spec_compound(t, items@),
                    _ => Err(t + ": expected list"@),
                }
            } else {
                Err("unknown IR node tag: "@ + t)
            }
        },
        _ => Err("expected IR variant, got: "@ + kind_name(v)),
    }
}

/// The number of fields each compound node needs.
pub open spec fn compound_arity(t: Seq<char>) -> nat {
    if t == "IRFunc"@ { 3 } else { 2 }
}

/// Decoding the fields of a compound node (`IRLet`, `IRFunc`, `IRLambda`,
/// `IRCall`, `IRCallExpr`, `IRVariant`, `IRMatch`).
pub open spec fn spec_compound(t: Seq<char>, items: Seq<Value>) -> Result<SpecIR, Seq<char>>
    decreases items, 1nat,
{
    if items.len() < compound_arity(t) {
        Err(t + ": expected "@ + decimal(compound_arity(t)) + " items, got "@ + decimal(items.len()))
    } else if t == "IRLet"@ {
        match items[0] {
            Value::List(bs) => match spec_bindings(bs@) {
                Err(d) => Err(d),
                Ok(b) => match spec_value_to_ir(items[1]) {
                    Err(d) => Err(d),
                    Ok(body) => Ok(SpecIR::Let(b, Box::new(body))),
                },
            },
            _ => Err("IRLet bindings"@ + ": expected list"@),
        }
    } else if t == "IRFunc"@ {
        match spec_expect_str(items[0], "IRFunc name"@) {
            Err(d) => Err(d),
            Ok(name) => match spec_expect_str_list(items[1], "IRFunc params"@) {
                Err(d) => Err(d),
                Ok(ps) => match spec_value_to_ir(items[2]) {
                    Err(d) => Err(d),
                    Ok(body) => Ok(SpecIR::Func(name, ps, Box::new(body))),
                },
            },
        }
    } else if t == "IRLambda"@ {
        match spec_expect_str_list(items[0], "IRLambda params"@) {
            Err(d) => Err(d),
            Ok(ps) => match spec_value_to_ir(items[1]) {
                Err(d) => Err(d),
                Ok(body) => Ok(SpecIR::Lambda(ps, Box::new(body))),
            },
        }
    } else if t == "IRCall"@ {
        match spec_expect_str(items[0], "IRCall name"@) {
            Err(d) => Err(d),
            Ok(name) => match items[1] {
                Value::List(args) => match spec_nodes(args@) {
                    Err(d) => Err(d),
                    Ok(ns) => Ok(SpecIR::Call(name, ns)),
                },
                _ => Err("IRCall args"@ + ": expected list"@),
            },
        }
    } else if t == "IRCallExpr"@ {
        match spec_value_to_ir(items[0]) {
            Err(d) => Err(d),
            Ok(callee) => match items[1] {
                Value::List(args) => match spec_nodes(args@) {
                    Err(d) => Err(d),
                    Ok(ns) => Ok(SpecIR::CallExpr(Box::new(callee), ns)),
                },
                _ => Err("IRCallExpr args"@ + ": expected list"@),
            },
        }
    } else if t == "IRVariant"@ {
        match spec_expect_str(items[0], "IRVariant tag"@) {
            Err(d) => Err(d),
            Ok(tag) => match items[1] {
                Value::List(args) => match spec_nodes(args@) {
                    Err(d) => Err(d),
                    Ok(ns) => Ok(SpecIR::Variant(tag, ns)),
                },
                _ => Err("IRVariant args"@ + ": expected list"@),
            },
        }
    } else {
        match spec_value_to_ir(items[0]) {
            Err(d) => Err(d),
            Ok(scrut) => match items[1] {
                Value::List(arms) => match spec_arms(arms@) {
                    Err(d) => Err(d),
                    Ok(a) => Ok(SpecIR::Match(Box::new(scrut), a)),
                },
                _ => Err("IRMatch arms"@ + ": expected list"@),
            },
        }
    }
}

/// Decoding a list of nodes; the first failure wins.
pub open spec fn spec_nodes(items: Seq<Value>) -> Result<Seq<SpecIR>, Seq<char>>
    decreases items, 0nat,
{
    if items.len() == 0 {
        Ok(Seq::empty())
    } else {
        match spec_nodes(items.drop_last()) {
            Err(d) => Err(d),
            Ok(p) => match spec_value_to_ir(items.last()) {
                Err(d) => Err(d),
                Ok(n) => Ok(p.push(n)),
            },
        }
    }
}

/// Decoding one `(IRBinding name expr)`.
pub open spec fn spec_binding(v: Value) -> Result<(Seq<char>, SpecIR), Seq<char>>
    decreases v, 1nat,
{
    match v {
        Value::Variant(tag, inner) => if tag@ == "IRBinding"@ {
            match *inner {
                Value::List(items) => if items@.len() >= 2 {
                    match spec_expect_str(items@[0], "IRBinding name"@) {
                        Err(d) => Err(d),
                        Ok(name) => match spec_value_to_ir(items@[1]) {
                            Err(d) => Err(d),
                            Ok(e) => Ok((name, e)),
                        },
                    }
                } else {
                    Err("IRBinding"@ + ": expected "@ + decimal(2) + " items, got "@ + decimal(items@.len()))
                },
                _ => Err("IRBinding"@ + ": expected list"@),
            }
        } else {
            Err("expected IRBinding variant"@)
        },
        _ => Err("expected IRBinding variant"@),
    }
}

pub open spec fn spec_bindings(items: Seq<Value>) -> Result<Seq<(Seq<char>, SpecIR)>, Seq<char>>
    decreases items, 0nat,
{
    if items.len() == 0 {
        Ok(Seq::empty())
    } else {
        match spec_bindings(items.drop_last()) {
            Err(d) => Err(d),
            Ok(p) => match spec_binding(items.last()) {
                Err(d) => Err(d),
                Ok(b) => Ok(p.push(b)),
            },
        }
    }
}

/// Decoding one `(IRArm pattern body)`.
pub open spec fn spec_arm(v: Value) -> Result<(SpecPat, SpecIR), Seq<char>>
    decreases v, 1nat,
{
    match v {
        Value::Variant(tag, inner) => if tag@ == "IRArm"@ {
            match *inner {
                Value::List(items) => if items@.len() >= 2 {
                    match spec_value_to_pattern(items@[0]) {
                        Err(d) => Err(d),
                        Ok(p) => match spec_value_to_ir(items@[1]) {
                            Err(d) => Err(d),
                            Ok(b) => Ok((p, b)),
                        },
                    }
                } else {
                    Err("IRArm"@ + ": expected "@ + decimal(2) + " items, got "@ + decimal(items@.len()))
                },
                _ => Err("IRArm"@ + ": expected list"@),
            }
        } else {
            Err("expected IRArm variant"@)
        },
        _ => Err("expected IRArm variant"@),
    }
}

pub open spec fn spec_arms(items: Seq<Value>) -> Result<Seq<(SpecPat, SpecIR)>, Seq<char>>
    decreases items, 0nat,
{
    if items.len() == 0 {
        Ok(Seq::empty())
    } else {
        match spec_arms(items.drop_last()) {
            Err(d) => Err(d),
            Ok(p) => match spec_arm(items.last()) {
                Err(d) => Err(d),
                Ok(a) => Ok(p.push(a)),
            },
        }
    }
}

/// Decoding an IR pattern.
pub open spec fn spec_value_to_pattern(v: Value) -> Result<SpecPat, Seq<char>>
    decreases v, 2nat,
{
    match v {
        Value::Variant(tag, inner) => {
            let t = tag@;
            if t == "IRPatWild"@ {
                Ok(SpecPat::Wild)
            } else if t == "IRPatBind"@ {
                match spec_expect_str(*inner, "IRPatBind"@) {
                    Err(d) => Err(d),
                    Ok(s) => Ok(SpecPat::Bind(s)),
                }
            } else if t == "IRPatLit"@ {
                Ok(SpecPat::Lit(*inner))
            } else if t == "IRPatVariant"@ {
                match *inner {
                    Value::List(items) => if items@.len() >= 2 {
                        match spec_expect_str(items@[0], "IRPatVariant tag"@) {
                            Err(d) => Err(d),
                            Ok(tg) => match items@[1] {
                                Value::List(subs) => match spec_pats(subs@) {
                                    Err(d) => Err(d),
                                    Ok(ps) => Ok(SpecPat::Variant(tg, ps)),
                                },
                                _ => Err("IRPatVariant sub-pats"@ + ": expected list"@),
                            },
                        }
                    } else {
                        Err("IRPatVariant"@ + ": expected "@ + decimal(2) + " items, got "@ + decimal(items@.len()))
                    },
                    _ => Err("IRPatVariant"@ + ": expected list"@),
                }
            } else {
                Err("unknown pattern tag: "@ + t)
            }
        },
        _ => Err("expected pattern variant"@),
    }
}

pub open spec fn spec_pats(items: Seq<Value>) -> Result<Seq<SpecPat>, Seq<char>>
    decreases items, 1nat,
{
    if items.len() == 0 {
        Ok(Seq::empty())
    } else {
        match spec_pats(items.drop_last()) {
            Err(d) => Err(d),
            Ok(p) => match spec_value_to_pattern(items.last()) {
                Err(d) => Err(d),
                Ok(x) => Ok(p.push(x)),
            },
        }
    }
}


// ── Exec trees standing for abstract ones ───────────────────────────

pub open spec fn ir_agrees(n: IRNode, s: SpecIR) -> bool
    decreases n, 1nat,
{
    match n {
        IRNode::Int(x) => s == SpecIR::Int(x),
        IRNode::Float(x) => s == SpecIR::Float(x),
        IRNode::Str(x) => s == SpecIR::Str(x@),
        IRNode::Bool(x) => s == SpecIR::Bool(x),
        IRNode::Nil => s is Nil,
        IRNode::Load(x) => s == SpecIR::Load(x@),
        IRNode::If(c, t, e) => s matches SpecIR::If(c2, t2, e2) && ir_agrees(*c, *c2) && ir_agrees(*t, *t2)
            && ir_agrees(*e, *e2),
        IRNode::Do(xs) => s matches SpecIR::Do(ys) && nodes_agree(xs@, ys),
        IRNode::Let(bs, body) => s matches SpecIR::Let(bs2, b2) && bindings_agree_ir(bs@, bs2) && ir_agrees(*body, *b2),
        IRNode::Func(name, ps, body) => s matches SpecIR::Func(n2, ps2, b2) && name@ == n2 && strs_view(ps@) == ps2
            && ir_agrees(*body, *b2),
        IRNode::Lambda(ps, body) => s matches SpecIR::Lambda(ps2, b2) && strs_view(ps@) == ps2 && ir_agrees(*body, *b2),
        IRNode::Call(name, args) => s matches SpecIR::Call(n2, a2) && name@ == n2 && nodes_agree(args@, a2),
        IRNode::CallExpr(c, args) => s matches SpecIR::CallExpr(c2, a2) && ir_agrees(*c, *c2) && nodes_agree(args@, a2),
        IRNode::List(xs) => s matches SpecIR::List(ys) && nodes_agree(xs@, ys),
        IRNode::Variant(t, xs) => s matches SpecIR::Variant(t2, ys) && t@ == t2 && nodes_agree(xs@, ys),
        IRNode::Match(sc, arms) => s matches SpecIR::Match(sc2, arms2) && ir_agrees(*sc, *sc2) && arms_agree(arms@, arms2),
        IRNode::Try(x) => s matches SpecIR::Try(y) && ir_agrees(*x, *y),
    }
}

pub open spec fn nodes_agree(xs: Seq<IRNode>, ys: Seq<SpecIR>) -> bool
    decreases xs, 0nat,
{
    if xs.len() != ys.len() {
        false
    } else if xs.len() == 0 {
        true
    } else {
        nodes_agree(xs.drop_last(), ys.drop_last()) && ir_agrees(xs.last(), ys.last())
    }
}

pub open spec fn bindings_agree_ir(xs: Seq<IRBinding>, ys: Seq<(Seq<char>, SpecIR)>) -> bool
    decreases xs, 0nat,
{
    if xs.len() != ys.len() {
        false
    } else if xs.len() == 0 {
        true
    } else {
        bindings_agree_ir(xs.drop_last(), ys.drop_last()) && xs.last().name@ == ys.last().0
            && ir_agrees(xs.last().expr, ys.last().1)
    }
}

pub open spec fn arms_agree(xs: Seq<IRArm>, ys: Seq<(SpecPat, SpecIR)>) -> bool
    decreases xs, 0nat,
{
    if xs.len() != ys.len() {
        false
    } else if xs.len() == 0 {
        true
    } else {
        arms_agree(xs.drop_last(), ys.drop_last()) && pat_agrees(xs.last().pattern, ys.last().0)
            && ir_agrees(xs.last().body, ys.last().1)
    }
}

pub open spec fn pat_agrees(p: IRPattern, s: SpecPat) -> bool
    decreases p, 1nat,
{
    match p {
        IRPattern::Wild => s is Wild,
        IRPattern::Bind(x) => s == SpecPat::Bind(x@),
        IRPattern::Lit(v) => s matches SpecPat::Lit(w) && value_same(w, v),
        IRPattern::Variant(t, ps) => s matches SpecPat::Variant(t2, ps2) && t@ == t2 && pats_agree(ps@, ps2),
    }
}

pub open spec fn pats_agree(xs: Seq<IRPattern>, ys: Seq<SpecPat>) -> bool
    decreases xs, 0nat,
{
    if xs.len() != ys.len() {
        false
    } else if xs.len() == 0 {
        true
    } else {
        pats_agree(xs.drop_last(), ys.drop_last()) && pat_agrees(xs.last(), ys.last())
    }
}


// ── The decoder ─────────────────────────────────────────────────────

pub open spec fn ir_result_agrees(r: Result<IRNode, RuntimeError>, s: Result<SpecIR, Seq<char>>) -> bool {
    match s {
        Ok(t) => r matches Ok(n) && ir_agrees(n, t),
        Err(d) => r matches Err(e) && is_ir_error(e, d),
    }
}

fn short_list_err(ctx: &str, n: usize, got: usize) -> (e: RuntimeError)
    ensures
        is_ir_error(e, ctx@ + ": expected "@ + decimal(n as nat) + " items, got "@ + decimal(got as nat)),
{
    let mut d = String::from_str(ctx);
    d.append(": expected ");
    let a = u64_to_string(n as u64);
    d.append(a.as_str());
    d.append(" items, got ");
    let b = u64_to_string(got as u64);
    d.append(b.as_str());
    type_err(d)
}

fn not_list_err(ctx: &str) -> (e: RuntimeError)
    ensures
        is_ir_error(e, ctx@ + ": expected list"@),
{
    let mut d = String::from_str(ctx);
    d.append(": expected list");
    type_err(d)
}

/// Reads an IR tree from its value form.
pub fn value_to_ir(val: &Value) -> (r: Result<IRNode, RuntimeError>)
    ensures
        ir_result_agrees(r, spec_value_to_ir(*val)),
    decreases val, 2nat,
{
    match val {
        Value::Variant(tag, inner) => {
            let t = tag.as_str();
            if str_eq(t, "IRInt") {
                match &**inner {
                    Value::Int(n) => Ok(IRNode::Int(*n)),
                    _ => Err(type_err_str("IRInt expects Int")),
                }
            } else if str_eq(t, "IRFloat") {
                match &**inner {
                    Value::Float(n) => Ok(IRNode::Float(*n)),
                    _ => Err(type_err_str("IRFloat expects Float")),
                }
            } else if str_eq(t, "IRStr") {
                match &**inner {
                    Value::Str(x) => Ok(IRNode::Str(x.clone())),
                    _ => Err(type_err_str("IRStr expects Str")),
                }
            } else if str_eq(t, "IRBool") {
                match &**inner {
                    Value::Bool(b) => Ok(IRNode::Bool(*b)),
                    _ => Err(type_err_str("IRBool expects Bool")),
                }
            } else if str_eq(t, "IRNil") {
                Ok(IRNode::Nil)
            } else if str_eq(t, "IRLoad") {
                match &**inner {
                    Value::Str(x) => Ok(IRNode::Load(x.clone())),
                    _ => Err(type_err_str("IRLoad expects Str")),
                }
            } else if str_eq(t, "IRIf") {
                match &**inner {
                    Value::List(items) => {
                        if items.len() < 3 {
                            return Err(short_list_err("IRIf", 3, items.len()));
                        }
                        proof {
                            assert(decreases_to!(*val => **inner));
                            assert(decreases_to!(**inner => *items));
                            assert(decreases_to!(*items => items@));
                            assert(decreases_to!(items@ => items@[0]));
                            assert(decreases_to!(items@ => items@[1]));
                            assert(decreases_to!(items@ => items@[2]));
                        }
                        let c = value_to_ir(&items[0])?;
                        let th = value_to_ir(&items[1])?;
                        let el = value_to_ir(&items[2])?;
                        Ok(IRNode::If(Box::new(c), Box::new(th), Box::new(el)))
                    },
                    _ => Err(not_list_err("IRIf")),
                }
            } else if str_eq(t, "IRDo") {
                match &**inner {
                    Value::List(items) => {
                        proof {
                            assert(decreases_to!(*val => **inner));
                            assert(decreases_to!(**inner => *items));
                        }
                        let ns = decode_nodes(items)?;
                        Ok(IRNode::Do(ns))
                    },
                    _ => Err(not_list_err("IRDo")),
                }
            } else if str_eq(t, "IRTry") {
                proof {
                    assert(decreases_to!(*val => **inner));
                }
                let n = value_to_ir(inner)?;
                Ok(IRNode::Try(Box::new(n)))
            } else if str_eq(t, "IRList") {
                match &**inner {
                    Value::List(items) => {
                        proof {
                            assert(decreases_to!(*val => **inner));
                            assert(decreases_to!(**inner => *items));
                        }
                        let ns = decode_nodes(items)?;
                        Ok(IRNode::List(ns))
                    },
                    _ => Err(not_list_err("IRList")),
                }
            } else if str_eq(t, "IRBinding") {
                Err(type_err_str("IRBinding is not a standalone node"))
            } else if str_eq(t, "IRLet") || str_eq(t, "IRFunc") || str_eq(t, "IRLambda") || str_eq(t, "IRCall")
                || str_eq(t, "IRCallExpr") || str_eq(t, "IRVariant") || str_eq(t, "IRMatch") {
                match &**inner {
                    Value::List(items) => {
                        proof {
                            assert(decreases_to!(*val => **inner));
                            assert(decreases_to!(**inner => *items));
                        }
                        decode_compound(t, items)
                    },
                    _ => Err(not_list_err(t)),
                }
            } else {
                let mut d = String::from_str("unknown IR node tag: ");
                d.append(t);
                Err(type_err(d))
            }
        },
        _ => {
            let mut d = String::from_str("expected IR variant, got: ");
            d.append(crate::bytecode::kind_name_exec(val));
            Err(type_err(d))
        },
    }
}

fn decode_nodes(items: &Vec<Value>) -> (r: Result<Vec<IRNode>, RuntimeError>)
    ensures
        match spec_nodes(items@) {
            Ok(s) => r matches Ok(v) && nodes_agree(v@, s),
            Err(d) => r matches Err(e) && is_ir_error(e, d),
        },
    decreases items, 0nat,
{
    let mut out: Vec<IRNode> = Vec::new();
    let mut i: usize = 0;
    let ghost mut acc: Seq<SpecIR> = Seq::empty();
    assert(items@.take(0) =~= Seq::<Value>::empty());
    while i < items.len()
        invariant
            i <= items@.len(),
            spec_nodes(items@.take(i as int)) == Ok::<Seq<SpecIR>, Seq<char>>(acc),
            nodes_agree(out@, acc),
        decreases items@.len() - i,
    {
        assert(items@.take(i + 1).drop_last() =~= items@.take(i as int));
        assert(items@.take(i + 1).last() == items@[i as int]);
        proof {
            assert(decreases_to!(*items => items@));
            assert(decreases_to!(items@ => items@[i as int]));
        }
        match value_to_ir(&items[i]) {
            Ok(n) => {
                let ghost sn = spec_value_to_ir(items@[i as int])->Ok_0;
                let ghost prev = out@;
                out.push(n);
                proof {
                    let old_acc = acc;
                    assert(out@.drop_last() =~= prev);
                    acc = acc.push(sn);
                    assert(acc.drop_last() =~= old_acc);
                    assert(ir_agrees(out@.last(), acc.last()));
                }
            },
            Err(e) => {
                proof {
                    lemma_nodes_prefix_err(items@, i as int + 1);
                }
                return Err(e);
            },
        }
        i += 1;
    }
    assert(items@.take(items@.len() as int) =~= items@);
    Ok(out)
}

pub proof fn lemma_nodes_prefix_err(items: Seq<Value>, n: int)
    requires
        0 <= n <= items.len(),
        spec_nodes(items.take(n)) is Err,
    ensures
        spec_nodes(items) == spec_nodes(items.take(n)),
    decreases items.len() - n,
{
    if n < items.len() {
        assert(items.take(n + 1).drop_last() =~= items.take(n));
        lemma_nodes_prefix_err(items, n + 1);
    } else {
        assert(items.take(n) =~= items);
    }
}


fn decode_compound(t: &str, items: &Vec<Value>) -> (r: Result<IRNode, RuntimeError>)
    requires
        t@ == "IRLet"@ || t@ == "IRFunc"@ || t@ == "IRLambda"@ || t@ == "IRCall"@ || t@ == "IRCallExpr"@
            || t@ == "IRVariant"@ || t@ == "IRMatch"@,
    ensures
        ir_result_agrees(r, spec_compound(t@, items@)),
    decreases items, 1nat,
{
    let is_func = str_eq(t, "IRFunc");
    let need: usize = if is_func { 3 } else { 2 };
    if items.len() < need {
        return Err(short_list_err(t, need, items.len()));
    }
    proof {
        assert(decreases_to!(*items => items@));
        assert(decreases_to!(items@ => items@[0]));
        assert(decreases_to!(items@ => items@[1]));
        if is_func {
            assert(decreases_to!(items@ => items@[2]));
        }
    }
    if str_eq(t, "IRLet") {
        let bs = match &items[0] {
            Value::List(bs) => {
                proof {
                    assert(decreases_to!(items@[0] => *bs));
                }
                decode_bindings(bs)?
            },
            _ => {
                return Err(not_list_err("IRLet bindings"));
            },
        };
        let body = value_to_ir(&items[1])?;
        Ok(IRNode::Let(bs, Box::new(body)))
    } else if is_func {
        let name = expect_str(&items[0], "IRFunc name")?;
        let ps = expect_str_list(&items[1], "IRFunc params")?;
        let body = value_to_ir(&items[2])?;
        Ok(IRNode::Func(name, ps, Box::new(body)))
    } else if str_eq(t, "IRLambda") {
        let ps = expect_str_list(&items[0], "IRLambda params")?;
        let body = value_to_ir(&items[1])?;
        Ok(IRNode::Lambda(ps, Box::new(body)))
    } else if str_eq(t, "IRCall") {
        let name = expect_str(&items[0], "IRCall name")?;
        let args = match &items[1] {
            Value::List(args) => {
                proof {
                    assert(decreases_to!(items@[1] => *args));
                }
                decode_nodes(args)?
            },
            _ => {
                return Err(not_list_err("IRCall args"));
            },
        };
        Ok(IRNode::Call(name, args))
    } else if str_eq(t, "IRCallExpr") {
        let callee = value_to_ir(&items[0])?;
        let args = match &items[1] {
            Value::List(args) => {
                proof {
                    assert(decreases_to!(items@[1] => *args));
                }
                decode_nodes(args)?
            },
            _ => {
                return Err(not_list_err("IRCallExpr args"));
            },
        };
        Ok(IRNode::CallExpr(Box::new(callee), args))
    } else if str_eq(t, "IRVariant") {
        let tag = expect_str(&items[0], "IRVariant tag")?;
        let args = match &items[1] {
            Value::List(args) => {
                proof {
                    assert(decreases_to!(items@[1] => *args));
                }
                decode_nodes(args)?
            },
            _ => {
                return Err(not_list_err("IRVariant args"));
            },
        };
        Ok(IRNode::Variant(tag, args))
    } else {
        let scrut = value_to_ir(&items[0])?;
        let arms = match &items[1] {
            Value::List(arms) => {
                proof {
                    assert(decreases_to!(items@[1] => *arms));
                }
                decode_arms(arms)?
            },
            _ => {
                return Err(not_list_err("IRMatch arms"));
            },
        };
        Ok(IRNode::Match(Box::new(scrut), arms))
    }
}

fn value_to_binding(val: &Value) -> (r: Result<IRBinding, RuntimeError>)
    ensures
        match spec_binding(*val) {
            Ok((n, e)) => r matches Ok(b) && b.name@ == n && ir_agrees(b.expr, e),
            Err(d) => r matches Err(e) && is_ir_error(e, d),
        },
    decreases val, 1nat,
{
    match val {
        Value::Variant(tag, inner) => {
            if !str_eq(tag.as_str(), "IRBinding") {
                return Err(type_err_str("expected IRBinding variant"));
            }
            match &**inner {
                Value::List(items) => {
                    if items.len() < 2 {
                        return Err(short_list_err("IRBinding", 2, items.len()));
                    }
                    proof {
                        assert(decreases_to!(*val => **inner));
                        assert(decreases_to!(**inner => *items));
                        assert(decreases_to!(*items => items@));
                        assert(decreases_to!(items@ => items@[1]));
                    }
                    let name = expect_str(&items[0], "IRBinding name")?;
                    let expr = value_to_ir(&items[1])?;
                    Ok(IRBinding { name, expr })
                },
                _ => Err(not_list_err("IRBinding")),
            }
        },
        _ => Err(type_err_str("expected IRBinding variant")),
    }
}

fn decode_bindings(items: &Vec<Value>) -> (r: Result<Vec<IRBinding>, RuntimeError>)
    ensures
        match spec_bindings(items@) {
            Ok(s) => r matches Ok(v) && bindings_agree_ir(v@, s),
            Err(d) => r matches Err(e) && is_ir_error(e, d),
        },
    decreases items, 0nat,
{
    let mut out: Vec<IRBinding> = Vec::new();
    let mut i: usize = 0;
    let ghost mut acc: Seq<(Seq<char>, SpecIR)> = Seq::empty();
    assert(items@.take(0) =~= Seq::<Value>::empty());
    while i < items.len()
        invariant
            i <= items@.len(),
            spec_bindings(items@.take(i as int)) == Ok::<Seq<(Seq<char>, SpecIR)>, Seq<char>>(acc),
            bindings_agree_ir(out@, acc),
        decreases items@.len() - i,
    {
        assert(items@.take(i + 1).drop_last() =~= items@.take(i as int));
        assert(items@.take(i + 1).last() == items@[i as int]);
        proof {
            assert(decreases_to!(*items => items@));
            assert(decreases_to!(items@ => items@[i as int]));
        }
        match value_to_binding(&items[i]) {
            Ok(b) => {
                let ghost sb = spec_binding(items@[i as int])->Ok_0;
                let ghost prev = out@;
                out.push(b);
                proof {
                    let old_acc = acc;
                    assert(out@.drop_last() =~= prev);
                    acc = acc.push(sb);
                    assert(acc.drop_last() =~= old_acc);
                }
            },
            Err(e) => {
                proof {
                    lemma_bindings_prefix_err(items@, i as int + 1);
                }
                return Err(e);
            },
        }
        i += 1;
    }
    assert(items@.take(items@.len() as int) =~= items@);
    Ok(out)
}

pub proof fn lemma_bindings_prefix_err(items: Seq<Value>, n: int)
    requires
        0 <= n <= items.len(),
        spec_bindings(items.take(n)) is Err,
    ensures
        spec_bindings(items) == spec_bindings(items.take(n)),
    decreases items.len() - n,
{
    if n < items.len() {
        assert(items.take(n + 1).drop_last() =~= items.take(n));
        lemma_bindings_prefix_err(items, n + 1);
    } else {
        assert(items.take(n) =~= items);
    }
}

fn value_to_arm(val: &Value) -> (r: Result<IRArm, RuntimeError>)
    ensures
        match spec_arm(*val) {
            Ok((p, b)) => r matches Ok(a) && pat_agrees(a.pattern, p) && ir_agrees(a.body, b),
            Err(d) => r matches Err(e) && is_ir_error(e, d),
        },
    decreases val, 1nat,
{
    match val {
        Value::Variant(tag, inner) => {
            if !str_eq(tag.as_str(), "IRArm") {
                return Err(type_err_str("expected IRArm variant"));
            }
            match &**inner {
                Value::List(items) => {
                    if items.len() < 2 {
                        return Err(short_list_err("IRArm", 2, items.len()));
                    }
                    proof {
                        assert(decreases_to!(*val => **inner));
                        assert(decreases_to!(**inner => *items));
                        assert(decreases_to!(*items => items@));
                        assert(decreases_to!(items@ => items@[0]));
                        assert(decreases_to!(items@ => items@[1]));
                    }
                    let pattern = value_to_pattern(&items[0])?;
                    let body = value_to_ir(&items[1])?;
                    Ok(IRArm { pattern, body })
                },
                _ => Err(not_list_err("IRArm")),
            }
        },
        _ => Err(type_err_str("expected IRArm variant")),
    }
}

fn decode_arms(items: &Vec<Value>) -> (r: Result<Vec<IRArm>, RuntimeError>)
    ensures
        match spec_arms(items@) {
            Ok(s) => r matches Ok(v) && arms_agree(v@, s),
            Err(d) => r matches Err(e) && is_ir_error(e, d),
        },
    decreases items, 0nat,
{
    let mut out: Vec<IRArm> = Vec::new();
    let mut i: usize = 0;
    let ghost mut acc: Seq<(SpecPat, SpecIR)> = Seq::empty();
    assert(items@.take(0) =~= Seq::<Value>::empty());
    while i < items.len()
        invariant
            i <= items@.len(),
            spec_arms(items@.take(i as int)) == Ok::<Seq<(SpecPat, SpecIR)>, Seq<char>>(acc),
            arms_agree(out@, acc),
        decreases items@.len() - i,
    {
        assert(items@.take(i + 1).drop_last() =~= items@.take(i as int));
        assert(items@.take(i + 1).last() == items@[i as int]);
        proof {
            assert(decreases_to!(*items => items@));
            assert(decreases_to!(items@ => items@[i as int]));
        }
        match value_to_arm(&items[i]) {
            Ok(a) => {
                let ghost sa = spec_arm(items@[i as int])->Ok_0;
                let ghost prev = out@;
                out.push(a);
                proof {
                    let old_acc = acc;
                    assert(out@.drop_last() =~= prev);
                    acc = acc.push(sa);
                    assert(acc.drop_last() =~= old_acc);
                }
            },
            Err(e) => {
                proof {
                    lemma_arms_prefix_err(items@, i as int + 1);
                }
                return Err(e);
            },
        }
        i += 1;
    }
    assert(items@.take(items@.len() as int) =~= items@);
    Ok(out)
}

pub proof fn lemma_arms_prefix_err(items: Seq<Value>, n: int)
    requires
        0 <= n <= items.len(),
        spec_arms(items.take(n)) is Err,
    ensures
        spec_arms(items) == spec_arms(items.take(n)),
    decreases items.len() - n,
{
    if n < items.len() {
        assert(items.take(n + 1).drop_last() =~= items.take(n));
        lemma_arms_prefix_err(items, n + 1);
    } else {
        assert(items.take(n) =~= items);
    }
}

pub open spec fn pat_result_agrees(r: Result<IRPattern, RuntimeError>, s: Result<SpecPat, Seq<char>>) -> bool {
    match s {
        Ok(t) => r matches Ok(p) && pat_agrees(p, t),
        Err(d) => r matches Err(e) && is_ir_error(e, d),
    }
}

/// Reads an IR pattern from its value form.
pub fn value_to_pattern(val: &Value) -> (r: Result<IRPattern, RuntimeError>)
    ensures
        pat_result_agrees(r, spec_value_to_pattern(*val)),
    decreases val, 2nat,
{
    match val {
        Value::Variant(tag, inner) => {
            let t = tag.as_str();
            if str_eq(t, "IRPatWild") {
                Ok(IRPattern::Wild)
            } else if str_eq(t, "IRPatBind") {
                let x = expect_str(inner, "IRPatBind")?;
                Ok(IRPattern::Bind(x))
            } else if str_eq(t, "IRPatLit") {
                Ok(IRPattern::Lit(clone_value(inner)))
            } else if str_eq(t, "IRPatVariant") {
                match &**inner {
                    Value::List(items) => {
                        if items.len() < 2 {
                            return Err(short_list_err("IRPatVariant", 2, items.len()));
                        }
                        let tg = expect_str(&items[0], "IRPatVariant tag")?;
                        match &items[1] {
                            Value::List(subs) => {
                                proof {
                                    assert(decreases_to!(*val => **inner));
                                    assert(decreases_to!(**inner => *items));
                                    assert(decreases_to!(*items => items@));
                                    assert(decreases_to!(items@ => items@[1]));
                                    assert(decreases_to!(items@[1] => *subs));
                                }
                                let ps = decode_pats(subs)?;
                                Ok(IRPattern::Variant(tg, ps))
                            },
                            _ => Err(not_list_err("IRPatVariant sub-pats")),
                        }
                    },
                    _ => Err(not_list_err("IRPatVariant")),
                }
            } else {
                let mut d = String::from_str("unknown pattern tag: ");
                d.append(t);
                Err(type_err(d))
            }
        },
        _ => Err(type_err_str("expected pattern variant")),
    }
}

fn decode_pats(items: &Vec<Value>) -> (r: Result<Vec<IRPattern>, RuntimeError>)
    ensures
        match spec_pats(items@) {
            Ok(s) => r matches Ok(v) && pats_agree(v@, s),
            Err(d) => r matches Err(e) && is_ir_error(e, d),
        },
    decreases items, 1nat,
{
    let mut out: Vec<IRPattern> = Vec::new();
    let mut i: usize = 0;
    let ghost mut acc: Seq<SpecPat> = Seq::empty();
    assert(items@.take(0) =~= Seq::<Value>::empty());
    while i < items.len()
        invariant
            i <= items@.len(),
            spec_pats(items@.take(i as int)) == Ok::<Seq<SpecPat>, Seq<char>>(acc),
            pats_agree(out@, acc),
        decreases items@.len() - i,
    {
        assert(items@.take(i + 1).drop_last() =~= items@.take(i as int));
        assert(items@.take(i + 1).last() == items@[i as int]);
        proof {
            assert(decreases_to!(*items => items@));
            assert(decreases_to!(items@ => items@[i as int]));
        }
        match value_to_pattern(&items[i]) {
            Ok(p) => {
                let ghost sp = spec_value_to_pattern(items@[i as int])->Ok_0;
                let ghost prev = out@;
                out.push(p);
                proof {
                    let old_acc = acc;
                    assert(out@.drop_last() =~= prev);
                    acc = acc.push(sp);
                    assert(acc.drop_last() =~= old_acc);
                }
            },
            Err(e) => {
                proof {
                    lemma_pats_prefix_err(items@, i as int + 1);
                }
                return Err(e);
            },
        }
        i += 1;
    }
    assert(items@.take(items@.len() as int) =~= items@);
    Ok(out)
}

pub proof fn lemma_pats_prefix_err(items: Seq<Value>, n: int)
    requires
        0 <= n <= items.len(),
        spec_pats(items.take(n)) is Err,
    ensures
        spec_pats(items) == spec_pats(items.take(n)),
    decreases items.len() - n,
{
    if n < items.len() {
        assert(items.take(n + 1).drop_last() =~= items.take(n));
        lemma_pats_prefix_err(items, n + 1);
    } else {
        assert(items.take(n) =~= items);
    }
}

} // verus!
