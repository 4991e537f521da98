//! Structural questions the prover asks of a function before it translates
//! anything: does a clause mention `result`, and where does a body call the
//! function itself.
use vstd::prelude::*;
use crate::ast::{Expr, ExprKind, LetBinding, MatchArm, SpecExpr, SpecExprKind, SpecLetBinding, SpecMatchArm, expr_view,
    exprs_view, bindings_view, arms_view, field_inits_view, opt_expr_box_view, clone_exprs};
use crate::text::str_eq;

verus! {

// ── Mentions of a symbol ────────────────────────────────────────────

/// The expression mentions the symbol `name` anywhere except in the names
/// of bindings, parameters and patterns (which the walk does not enter).
pub open spec fn mentions(e: SpecExpr, name: Seq<char>) -> bool
    decreases e, 1nat,
{
    match e.kind {
        SpecExprKind::SymbolRef(s) => s == name,
        SpecExprKind::FnCall(f, args) => mentions(*f, name) || mentions_any(args, name),
        SpecExprKind::If(c, t, f) => mentions(*c, name) || mentions(*t, name) || mentions(*f, name),
        SpecExprKind::Let(bs, body) => mentions_bindings(bs, name) || mentions(*body, name),
        SpecExprKind::Do(es) => mentions_any(es, name),
        SpecExprKind::Match(s, arms) => mentions(*s, name) || mentions_arms(arms, name),
        SpecExprKind::Lambda(_, body) => mentions(*body, name),
        SpecExprKind::VariantCtor(_, args) => mentions_any(args, name),
        SpecExprKind::StructLit(_, fs) => mentions_fields(fs, name),
        SpecExprKind::ListLit(es) => mentions_any(es, name),
        SpecExprKind::Try(x) => mentions(*x, name),
        SpecExprKind::Forall(_, g, b) => mentions_guard(g, name) || mentions(*b, name),
        SpecExprKind::Exists(_, g, b) => mentions_guard(g, name) || mentions(*b, name),
        _ => false,
    }
}

pub open spec fn mentions_guard(g: Option<Box<SpecExpr>>, name: Seq<char>) -> bool
    decreases g, 0nat,
{
    match g {
        Some(x) => mentions(*x, name),
        None => false,
    }
}

pub open spec fn mentions_any(s: Seq<SpecExpr>, name: Seq<char>) -> bool
    decreases s, 0nat,
{
    if s.len() == 0 {
        false
    } else {
        mentions_any(s.drop_last(), name) || mentions(s.last(), name)
    }
}

pub open spec fn mentions_bindings(s: Seq<SpecLetBinding>, name: Seq<char>) -> bool
    decreases s, 0nat,
{
    if s.len() == 0 {
        false
    } else {
        mentions_bindings(s.drop_last(), name) || mentions(s.last().value, name)
    }
}

pub open spec fn mentions_arms(s: Seq<SpecMatchArm>, name: Seq<char>) -> bool
    decreases s, 0nat,
{
    if s.len() == 0 {
        false
    } else {
        mentions_arms(s.drop_last(), name) || mentions(s.last().body, name)
    }
}

pub open spec fn mentions_fields(s: Seq<(Seq<char>, SpecExpr)>, name: Seq<char>) -> bool
    decreases s, 0nat,
{
    if s.len() == 0 {
        false
    } else {
        mentions_fields(s.drop_last(), name) || mentions(s.last().1, name)
    }
}

fn mentions_exec(e: &Expr, name: &str) -> (b: bool)
    ensures
        b == mentions(expr_view(*e), name@),
    decreases e, 1nat,
{
    match &e.kind {
        ExprKind::SymbolRef(s) => str_eq(s.as_str(), name),
        ExprKind::FnCall(f, args) => mentions_exec(f, name) || mentions_any_exec(args, name),
        ExprKind::If(c, t, f) => mentions_exec(c, name) || mentions_exec(t, name) || mentions_exec(f, name),
        ExprKind::Let(bs, body) => mentions_bindings_exec(bs, name) || mentions_exec(body, name),
        ExprKind::Do(es) => mentions_any_exec(es, name),
        ExprKind::Match(s, arms) => mentions_exec(s, name) || mentions_arms_exec(arms, name),
        ExprKind::Lambda(_, body) => mentions_exec(body, name),
        ExprKind::VariantCtor(_, args) => mentions_any_exec(args, name),
        ExprKind::StructLit(_, fs) => mentions_fields_exec(fs, name),
        ExprKind::ListLit(es) => mentions_any_exec(es, name),
        ExprKind::Try(x) => mentions_exec(x, name),
        ExprKind::Forall(_, g, b) => mentions_guard_exec(g, name) || mentions_exec(b, name),
        ExprKind::Exists(_, g, b) => mentions_guard_exec(g, name) || mentions_exec(b, name),
        _ => false,
    }
}

fn mentions_guard_exec(g: &Option<Box<Expr>>, name: &str) -> (b: bool)
    ensures
        b == mentions_guard(opt_expr_box_view(*g), name@),
    decreases g, 0nat,
{
    match g {
        Some(x) => mentions_exec(x, name),
        None => false,
    }
}

fn mentions_any_exec(v: &Vec<Expr>, name: &str) -> (b: bool)
    ensures
        b == mentions_any(exprs_view(v@), name@),
    decreases v, 0nat,
{
    let mut found = false;
    let mut i: usize = 0;
    assert(v@.take(0) =~= Seq::<Expr>::empty());
    while i < v.len()
        invariant
            i <= v@.len(),
            found == mentions_any(exprs_view(v@.take(i as int)), name@),
        decreases v@.len() - i,
    {
        proof {
            assert(decreases_to!(v => v@));
            assert(decreases_to!(v@ => v@[i as int]));
            assert(v@.take(i + 1).drop_last() =~= v@.take(i as int));
            assert(exprs_view(v@.take(i + 1)) == exprs_view(v@.take(i as int)).push(expr_view(v@[i as int])));
            assert(exprs_view(v@.take(i + 1)).drop_last() =~= exprs_view(v@.take(i as int)));
        }
        let m = mentions_exec(&v[i], name);
        found = found || m;
        i += 1;
    }
    assert(v@.take(i as int) =~= v@);
    found
}

fn mentions_bindings_exec(v: &Vec<LetBinding>, name: &str) -> (b: bool)
    ensures
        b == mentions_bindings(bindings_view(v@), name@),
    decreases v, 0nat,
{
    let mut found = false;
    let mut i: usize = 0;
    assert(v@.take(0) =~= Seq::<LetBinding>::empty());
    while i < v.len()
        invariant
            i <= v@.len(),
            found == mentions_bindings(bindings_view(v@.take(i as int)), name@),
        decreases v@.len() - i,
    {
        proof {
            assert(decreases_to!(v => v@));
            assert(decreases_to!(v@ => v@[i as int]));
            assert(decreases_to!(v@[i as int] => v@[i as int].value));
            assert(v@.take(i + 1).drop_last() =~= v@.take(i as int));
            assert(bindings_view(v@.take(i + 1)) == bindings_view(v@.take(i as int)).push(crate::ast::binding_view(v@[i as int])));
            assert(bindings_view(v@.take(i + 1)).drop_last() =~= bindings_view(v@.take(i as int)));
        }
        let m = mentions_exec(&v[i].value, name);
        found = found || m;
        i += 1;
    }
    assert(v@.take(i as int) =~= v@);
    found
}

fn mentions_arms_exec(v: &Vec<MatchArm>, name: &str) -> (b: bool)
    ensures
        b == mentions_arms(arms_view(v@), name@),
    decreases v, 0nat,
{
    let mut found = false;
    let mut i: usize = 0;
    assert(v@.take(0) =~= Seq::<MatchArm>::empty());
    while i < v.len()
        invariant
            i <= v@.len(),
            found == mentions_arms(arms_view(v@.take(i as int)), name@),
        decreases v@.len() - i,
    {
        proof {
            assert(decreases_to!(v => v@));
            assert(decreases_to!(v@ => v@[i as int]));
            assert(decreases_to!(v@[i as int] => v@[i as int].body));
            assert(v@.take(i + 1).drop_last() =~= v@.take(i as int));
            assert(arms_view(v@.take(i + 1)) == arms_view(v@.take(i as int)).push(crate::ast::arm_view(v@[i as int])));
            assert(arms_view(v@.take(i + 1)).drop_last() =~= arms_view(v@.take(i as int)));
        }
        let m = mentions_exec(&v[i].body, name);
        found = found || m;
        i += 1;
    }
    assert(v@.take(i as int) =~= v@);
    found
}

fn mentions_fields_exec(v: &Vec<(String, Expr)>, name: &str) -> (b: bool)
    ensures
        b == mentions_fields(field_inits_view(v@), name@),
    decreases v, 0nat,
{
    let mut found = false;
    let mut i: usize = 0;
    assert(v@.take(0) =~= Seq::<(String, Expr)>::empty());
    while i < v.len()
        invariant
            i <= v@.len(),
            found == mentions_fields(field_inits_view(v@.take(i as int)), name@),
        decreases v@.len() - i,
    {
        proof {
            assert(decreases_to!(v => v@));
            assert(decreases_to!(v@ => v@[i as int]));
            assert(decreases_to!(v@[i as int] => v@[i as int].1));
            assert(v@.take(i + 1).drop_last() =~= v@.take(i as int));
            assert(field_inits_view(v@.take(i + 1)) == field_inits_view(v@.take(i as int)).push((v@[i as int].0@, expr_view(v@[i as int].1))));
            assert(field_inits_view(v@.take(i + 1)).drop_last() =~= field_inits_view(v@.take(i as int)));
        }
        let m = mentions_exec(&v[i].1, name);
        found = found || m;
        i += 1;
    }
    assert(v@.take(i as int) =~= v@);
    found
}

/// The clause mentions `result`, so it cannot be checked without the body.
pub fn clause_references_result(expr: &Expr) -> (b: bool)
    ensures
        b == mentions(expr_view(*expr), "result"@),
{
    mentions_exec(expr, "result")
}

// ── Calls of a named function ───────────────────────────────────────

/// The argument lists of every call `(name ...)` in the expression, in the
/// order a left-to-right walk meets them (a call before the calls inside it).
pub open spec fn calls_of(e: SpecExpr, name: Seq<char>) -> Seq<Seq<SpecExpr>>
    decreases e, 1nat,
{
    match e.kind {
        SpecExprKind::FnCall(f, args) => {
            let here: Seq<Seq<SpecExpr>> = match f.kind {
                SpecExprKind::SymbolRef(s) => if s == name { seq![args] } else { Seq::empty() },
                _ => Seq::empty(),
            };
            here + calls_of(*f, name) + calls_in(args, name)
        },
        SpecExprKind::If(c, t, f) => calls_of(*c, name) + calls_of(*t, name) + calls_of(*f, name),
        SpecExprKind::Let(bs, body) => calls_in_bindings(bs, name) + calls_of(*body, name),
        SpecExprKind::Do(es) => calls_in(es, name),
        SpecExprKind::Match(s, arms) => calls_of(*s, name) + calls_in_arms(arms, name),
        SpecExprKind::Lambda(_, body) => calls_of(*body, name),
        SpecExprKind::VariantCtor(_, args) => calls_in(args, name),
        SpecExprKind::StructLit(_, fs) => calls_in_fields(fs, name),
        SpecExprKind::ListLit(es) => calls_in(es, name),
        SpecExprKind::Try(x) => calls_of(*x, name),
        SpecExprKind::Forall(_, g, b) => calls_in_guard(g, name) + calls_of(*b, name),
        SpecExprKind::Exists(_, g, b) => calls_in_guard(g, name) + calls_of(*b, name),
        _ => Seq::empty(),
    }
}

pub open spec fn calls_in_guard(g: Option<Box<SpecExpr>>, name: Seq<char>) -> Seq<Seq<SpecExpr>>
    decreases g, 0nat,
{
    match g {
        Some(x) => calls_of(*x, name),
        None => Seq::empty(),
    }
}

pub open spec fn calls_in(s: Seq<SpecExpr>, name: Seq<char>) -> Seq<Seq<SpecExpr>>
    decreases s, 0nat,
{
    if s.len() == 0 {
        Seq::empty()
    } else {
        calls_in(s.drop_last(), name) + calls_of(s.last(), name)
    }
}

pub open spec fn calls_in_bindings(s: Seq<SpecLetBinding>, name: Seq<char>) -> Seq<Seq<SpecExpr>>
    decreases s, 0nat,
{
    if s.len() == 0 {
        Seq::empty()
    } else {
        calls_in_bindings(s.drop_last(), name) + calls_of(s.last().value, name)
    }
}

pub open spec fn calls_in_arms(s: Seq<SpecMatchArm>, name: Seq<char>) -> Seq<Seq<SpecExpr>>
    decreases s, 0nat,
{
    if s.len() == 0 {
        Seq::empty()
    } else {
        calls_in_arms(s.drop_last(), name) + calls_of(s.last().body, name)
    }
}

pub open spec fn calls_in_fields(s: Seq<(Seq<char>, SpecExpr)>, name: Seq<char>) -> Seq<Seq<SpecExpr>>
    decreases s, 0nat,
{
    if s.len() == 0 {
        Seq::empty()
    } else {
        calls_in_fields(s.drop_last(), name) + calls_of(s.last().1, name)
    }
}

/// The argument lists recorded so far, as values.
pub open spec fn arg_lists_view(out: Seq<Vec<Expr>>) -> Seq<Seq<SpecExpr>> {
    Seq::new(out.len(), |k: int| exprs_view(out[k]@))
}

proof fn lemma_arg_lists_push(out: Seq<Vec<Expr>>, v: Vec<Expr>)
    ensures
        arg_lists_view(out.push(v)) == arg_lists_view(out).push(exprs_view(v@)),
{
    assert(arg_lists_view(out.push(v)) =~= arg_lists_view(out).push(exprs_view(v@)));
}

fn collect_recursive_calls_inner(expr: &Expr, fn_name: &str, out: &mut Vec<Vec<Expr>>)
    ensures
        arg_lists_view(final(out)@) == arg_lists_view(old(out)@) + calls_of(expr_view(*expr), fn_name@),
    decreases expr, 1nat,
{
    let ghost start = arg_lists_view(out@);
    match &expr.kind {
        ExprKind::FnCall(callee, args) => {
            let is_self = match &callee.kind {
                ExprKind::SymbolRef(name) => str_eq(name.as_str(), fn_name),
                _ => false,
            };
            if is_self {
                let copy = clone_exprs(args);
                proof {
                    lemma_arg_lists_push(out@, copy);
                }
                out.push(copy);
            }
            let ghost mid = arg_lists_view(out@);
            collect_recursive_calls_inner(callee, fn_name, out);
            collect_in_exprs(args, fn_name, out);
            proof {
                let here: Seq<Seq<SpecExpr>> = match expr_view(**callee).kind {
                    SpecExprKind::SymbolRef(s) => if s == fn_name@ { seq![exprs_view(args@)] } else { Seq::empty() },
                    _ => Seq::empty(),
                };
                assert(mid =~= start + here);
                assert(arg_lists_view(out@) =~= start + (here + calls_of(expr_view(**callee), fn_name@) + calls_in(exprs_view(args@), fn_name@)));
            }
        },
        ExprKind::If(c, t, e) => {
            collect_recursive_calls_inner(c, fn_name, out);
            collect_recursive_calls_inner(t, fn_name, out);
            collect_recursive_calls_inner(e, fn_name, out);
            assert(arg_lists_view(out@) =~= start + (calls_of(expr_view(**c), fn_name@) + calls_of(expr_view(**t), fn_name@)
                + calls_of(expr_view(**e), fn_name@)));
        },
        ExprKind::Let(bindings, body) => {
            collect_in_bindings(bindings, fn_name, out);
            collect_recursive_calls_inner(body, fn_name, out);
            assert(arg_lists_view(out@) =~= start + (calls_in_bindings(bindings_view(bindings@), fn_name@)
                + calls_of(expr_view(**body), fn_name@)));
        },
        ExprKind::Do(exprs) => {
            collect_in_exprs(exprs, fn_name, out);
        },
        ExprKind::Match(scrutinee, arms) => {
            collect_recursive_calls_inner(scrutinee, fn_name, out);
            collect_in_arms(arms, fn_name, out);
            assert(arg_lists_view(out@) =~= start + (calls_of(expr_view(**scrutinee), fn_name@)
                + calls_in_arms(arms_view(arms@), fn_name@)));
        },
        ExprKind::Lambda(_, body) => {
            collect_recursive_calls_inner(body, fn_name, out);
        },
        ExprKind::VariantCtor(_, args) => {
            collect_in_exprs(args, fn_name, out);
        },
        ExprKind::StructLit(_, fields) => {
            collect_in_fields(fields, fn_name, out);
        },
        ExprKind::ListLit(elems) => {
            collect_in_exprs(elems, fn_name, out);
        },
        ExprKind::Try(inner) => {
            collect_recursive_calls_inner(inner, fn_name, out);
        },
        ExprKind::Forall(_, guard, body) | ExprKind::Exists(_, guard, body) => {
            match guard {
                Some(g) => {
                    collect_recursive_calls_inner(g, fn_name, out);
                },
                None => {},
            }
            collect_recursive_calls_inner(body, fn_name, out);
            assert(arg_lists_view(out@) =~= start + (calls_in_guard(opt_expr_box_view(*guard), fn_name@)
                + calls_of(expr_view(**body), fn_name@)));
        },
        _ => {
            assert(arg_lists_view(out@) =~= start + Seq::<Seq<SpecExpr>>::empty());
        },
    }
}

fn collect_in_exprs(v: &Vec<Expr>, fn_name: &str, out: &mut Vec<Vec<Expr>>)
    ensures
        arg_lists_view(final(out)@) == arg_lists_view(old(out)@) + calls_in(exprs_view(v@), fn_name@),
    decreases v, 0nat,
{
    let ghost start = arg_lists_view(out@);
    let mut i: usize = 0;
    assert(v@.take(0) =~= Seq::<Expr>::empty());
    assert(start + calls_in(exprs_view(v@.take(0)), fn_name@) =~= start);
    while i < v.len()
        invariant
            i <= v@.len(),
            arg_lists_view(out@) == start + calls_in(exprs_view(v@.take(i as int)), fn_name@),
        decreases v@.len() - i,
    {
        proof {
            assert(decreases_to!(v => v@));
            assert(decreases_to!(v@ => v@[i as int]));
            assert(v@.take(i + 1).drop_last() =~= v@.take(i as int));
            assert(exprs_view(v@.take(i + 1)) == exprs_view(v@.take(i as int)).push(expr_view(v@[i as int])));
            assert(exprs_view(v@.take(i + 1)).drop_last() =~= exprs_view(v@.take(i as int)));
        }
        collect_recursive_calls_inner(&v[i], fn_name, out);
        proof {
            assert(arg_lists_view(out@) =~= start + calls_in(exprs_view(v@.take(i + 1)), fn_name@));
        }
        i += 1;
    }
    assert(v@.take(i as int) =~= v@);
}

fn collect_in_bindings(v: &Vec<LetBinding>, fn_name: &str, out: &mut Vec<Vec<Expr>>)
    ensures
        arg_lists_view(final(out)@) == arg_lists_view(old(out)@) + calls_in_bindings(bindings_view(v@), fn_name@),
    decreases v, 0nat,
{
    let ghost start = arg_lists_view(out@);
    let mut i: usize = 0;
    assert(v@.take(0) =~= Seq::<LetBinding>::empty());
    assert(start + calls_in_bindings(bindings_view(v@.take(0)), fn_name@) =~= start);
    while i < v.len()
        invariant
            i <= v@.len(),
            arg_lists_view(out@) == start + calls_in_bindings(bindings_view(v@.take(i as int)), fn_name@),
        decreases v@.len() - i,
    {
        proof {
            assert(decreases_to!(v => v@));
            assert(decreases_to!(v@ => v@[i as int]));
            assert(decreases_to!(v@[i as int] => v@[i as int].value));
            assert(v@.take(i + 1).drop_last() =~= v@.take(i as int));
            assert(bindings_view(v@.take(i + 1)) == bindings_view(v@.take(i as int)).push(crate::ast::binding_view(v@[i as int])));
            assert(bindings_view(v@.take(i + 1)).drop_last() =~= bindings_view(v@.take(i as int)));
        }
        collect_recursive_calls_inner(&v[i].value, fn_name, out);
        proof {
            assert(arg_lists_view(out@) =~= start + calls_in_bindings(bindings_view(v@.take(i + 1)), fn_name@));
        }
        i += 1;
    }
    assert(v@.take(i as int) =~= v@);
}

fn collect_in_arms(v: &Vec<MatchArm>, fn_name: &str, out: &mut Vec<Vec<Expr>>)
    ensures
        arg_lists_view(final(out)@) == arg_lists_view(old(out)@) + calls_in_arms(arms_view(v@), fn_name@),
    decreases v, 0nat,
{
    let ghost start = arg_lists_view(out@);
    let mut i: usize = 0;
    assert(v@.take(0) =~= Seq::<MatchArm>::empty());
    assert(start + calls_in_arms(arms_view(v@.take(0)), fn_name@) =~= start);
    while i < v.len()
        invariant
            i <= v@.len(),
            arg_lists_view(out@) == start + calls_in_arms(arms_view(v@.take(i as int)), fn_name@),
        decreases v@.len() - i,
    {
        proof {
            assert(decreases_to!(v => v@));
            assert(decreases_to!(v@ => v@[i as int]));
            assert(decreases_to!(v@[i as int] => v@[i as int].body));
            assert(v@.take(i + 1).drop_last() =~= v@.take(i as int));
            assert(arms_view(v@.take(i + 1)) == arms_view(v@.take(i as int)).push(crate::ast::arm_view(v@[i as int])));
            assert(arms_view(v@.take(i + 1)).drop_last() =~= arms_view(v@.take(i as int)));
        }
        collect_recursive_calls_inner(&v[i].body, fn_name, out);
        proof {
            assert(arg_lists_view(out@) =~= start + calls_in_arms(arms_view(v@.take(i + 1)), fn_name@));
        }
        i += 1;
    }
    assert(v@.take(i as int) =~= v@);
}

fn collect_in_fields(v: &Vec<(String, Expr)>, fn_name: &str, out: &mut Vec<Vec<Expr>>)
    ensures
        arg_lists_view(final(out)@) == arg_lists_view(old(out)@) + calls_in_fields(field_inits_view(v@), fn_name@),
    decreases v, 0nat,
{
    let ghost start = arg_lists_view(out@);
    let mut i: usize = 0;
    assert(v@.take(0) =~= Seq::<(String, Expr)>::empty());
    assert(start + calls_in_fields(field_inits_view(v@.take(0)), fn_name@) =~= start);
    while i < v.len()
        invariant
            i <= v@.len(),
            arg_lists_view(out@) == start + calls_in_fields(field_inits_view(v@.take(i as int)), fn_name@),
        decreases v@.len() - i,
    {
        proof {
            assert(decreases_to!(v => v@));
            assert(decreases_to!(v@ => v@[i as int]));
            assert(decreases_to!(v@[i as int] => v@[i as int].1));
            assert(v@.take(i + 1).drop_last() =~= v@.take(i as int));
            assert(field_inits_view(v@.take(i + 1)) == field_inits_view(v@.take(i as int)).push((v@[i as int].0@, expr_view(v@[i as int].1))));
            assert(field_inits_view(v@.take(i + 1)).drop_last() =~= field_inits_view(v@.take(i as int)));
        }
        collect_recursive_calls_inner(&v[i].1, fn_name, out);
        proof {
            assert(arg_lists_view(out@) =~= start + calls_in_fields(field_inits_view(v@.take(i + 1)), fn_name@));
        }
        i += 1;
    }
    assert(v@.take(i as int) =~= v@);
}

/// The argument lists of every direct call to `fn_name` in `expr`.
pub fn collect_recursive_calls(expr: &Expr, fn_name: &str) -> (r: Vec<Vec<Expr>>)
    ensures
        arg_lists_view(r@) == calls_of(expr_view(*expr), fn_name@),
{
    let mut out: Vec<Vec<Expr>> = Vec::new();
    assert(arg_lists_view(out@) =~= Seq::<Seq<SpecExpr>>::empty());
    collect_recursive_calls_inner(expr, fn_name, &mut out);
    assert(Seq::<Seq<SpecExpr>>::empty() + calls_of(expr_view(*expr), fn_name@) =~= calls_of(expr_view(*expr), fn_name@));
    out
}

/// The body calls `fn_name` directly somewhere.
pub fn body_contains_recursive_call(expr: &Expr, fn_name: &str) -> (b: bool)
    ensures
        b == (calls_of(expr_view(*expr), fn_name@).len() > 0),
{
    let calls = collect_recursive_calls(expr, fn_name);
    calls.len() > 0
}

/// The prover: plans what to ask the solver about a function and concludes
/// from its answers.
pub struct Z3Prover;

impl Z3Prover {
    pub fn new() -> (p: Z3Prover) {
        Z3Prover
    }
}

// ── Laws of the call walk ───────────────────────────────────────────

/// A call of the function itself is the first call site its walk meets: its
/// own argument list comes before the calls inside it.
pub proof fn law_self_call_found_first(e: SpecExpr, name: Seq<char>)
    requires
        e.kind matches SpecExprKind::FnCall(f, _) && f.kind == SpecExprKind::SymbolRef(name),
    ensures
        calls_of(e, name).len() > 0,
        e.kind matches SpecExprKind::FnCall(_, args) && calls_of(e, name)[0] == args,
{
    match e.kind {
        SpecExprKind::FnCall(f, args) => {
            assert((seq![args] + calls_of(*f, name) + calls_in(args, name))[0] == args);
        },
        _ => {},
    }
}

proof fn lemma_bindings_contain(bs: Seq<SpecLetBinding>, name: Seq<char>, i: int, j: int)
    requires
        0 <= i < bs.len(),
        0 <= j < calls_of(bs[i].value, name).len(),
    ensures
        calls_in_bindings(bs, name).contains(calls_of(bs[i].value, name)[j]),
    decreases bs.len(),
{
    let x = calls_of(bs[i].value, name)[j];
    let pre = calls_in_bindings(bs.drop_last(), name);
    let last = calls_of(bs.last().value, name);
    if i < bs.len() - 1 {
        lemma_bindings_contain(bs.drop_last(), name, i, j);
        assert(bs.drop_last()[i] == bs[i]);
        let k = choose|k: int| 0 <= k < pre.len() && pre[k] == x;
        assert((pre + last)[k] == x);
    } else {
        assert((pre + last)[pre.len() + j] == x);
    }
}

/// The call sites of a `let` include every call in each binding's value
/// and every call in its body.
pub proof fn law_let_calls_reach_bindings(e: SpecExpr, bs: Seq<SpecLetBinding>, body: SpecExpr, name: Seq<char>)
    requires
        e.kind == SpecExprKind::Let(bs, Box::new(body)),
    ensures
        forall|i: int, j: int| 0 <= i < bs.len() && 0 <= j < calls_of(bs[i].value, name).len()
            ==> calls_of(e, name).contains(#[trigger] calls_of(bs[i].value, name)[j]),
        forall|j: int| 0 <= j < calls_of(body, name).len() ==> calls_of(e, name).contains(#[trigger] calls_of(body, name)[j]),
{
    let pre = calls_in_bindings(bs, name);
    let post = calls_of(body, name);
    assert(calls_of(e, name) == pre + post);
    assert forall|i: int, j: int| 0 <= i < bs.len() && 0 <= j < calls_of(bs[i].value, name).len()
        implies calls_of(e, name).contains(#[trigger] calls_of(bs[i].value, name)[j]) by {
        lemma_bindings_contain(bs, name, i, j);
        let x = calls_of(bs[i].value, name)[j];
        let k = choose|k: int| 0 <= k < pre.len() && pre[k] == x;
        assert((pre + post)[k] == x);
    }
    assert forall|j: int| 0 <= j < post.len() implies calls_of(e, name).contains(#[trigger] calls_of(body, name)[j]) by {
        assert((pre + post)[pre.len() + j] == post[j]);
    }
}

} // verus!
