//! Expressions: reading an S-expression tree into the expression syntax,
//! with the `let` destructuring and threading macros expanded on the way.
use vstd::prelude::*;
use crate::span::{Span, spec_merge};
use crate::sexpr::{SExpr, Atom, AtomKind, SpecSExpr, SpecAtom, SpecAtomKind, sexpr_view, sexprs_view, spec_span_of};
use crate::diagnostic::{Diagnostic, Diagnostics, SpecDiagnostic, SpecDiags, spec_error, spec_warning, spec_add};
use crate::ast::{AstType, AstTypeKind, SpecAstType, SpecTypeKind, ast_type_view, Ownership, Expr, ExprKind, LetBinding,
    MatchArm, Param, Pattern, PatternKind, LitPattern, SpecExpr, SpecExprKind, SpecLetBinding, SpecMatchArm, SpecParam,
    SpecPattern, SpecPatternKind, SpecLitPattern, expr_view, exprs_view, binding_view, bindings_view, arm_view, arms_view,
    param_view, params_view, pattern_view, patterns_view};
use crate::parser::{spec_symbol_of, spec_expect_symbol, spec_parse_type, spec_type_from_slice, named_type,
    char_is_uppercase, gensym_name, next_counter, expect_symbol, parse_type, parse_type_from_slice, is_capitalized,
    gensym, lemma_sexprs_view};
use crate::text::{decimal, u64_to_string, str_eq};

verus! {

/// A parse result together with the diagnostics state after it.
pub type Parsed<T> = (Result<T, SpecDiagnostic>, SpecDiags);

pub open spec fn sx(kind: SpecExprKind, span: Span) -> SpecExpr {
    SpecExpr { kind, span }
}

/// `(name a1 ... an)` as a call of the symbol `name`.
pub open spec fn call_of(name: Seq<char>, args: Seq<SpecExpr>, span: Span) -> SpecExpr {
    sx(SpecExprKind::FnCall(Box::new(sx(SpecExprKind::SymbolRef(name), span)), args), span)
}

/// The type `_` left for the checker to infer.
pub open spec fn wild_type(span: Span) -> SpecAstType {
    named_type("_"@, span)
}

pub open spec fn spec_binding(name: Seq<char>, value: SpecExpr, span: Span) -> SpecLetBinding {
    SpecLetBinding { name, ty: wild_type(span), value, span }
}

/// The diagnostics state after a fresh temporary name is taken.
pub open spec fn after_gensym(st: SpecDiags) -> SpecDiags {
    SpecDiags { items: st.items, counter: next_counter(st.counter) }
}

/// Every item is a symbol.
pub open spec fn all_symbols(s: Seq<SpecSExpr>) -> bool {
    forall|k: int| 0 <= k < s.len() ==> (#[trigger] spec_symbol_of(s[k])) is Some
}

// ── Atoms and patterns ──────────────────────────────────────────────

pub open spec fn spec_atom_expr(a: SpecAtom) -> Result<SpecExpr, SpecDiagnostic> {
    let sp = a.span;
    match a.kind {
        SpecAtomKind::Integer(v) => Ok(sx(SpecExprKind::IntLit(v), sp)),
        SpecAtomKind::Float(t) => Ok(sx(SpecExprKind::FloatLit(t), sp)),
        SpecAtomKind::Str(s) => Ok(sx(SpecExprKind::StrLit(s), sp)),
        SpecAtomKind::Bool(b) => Ok(sx(SpecExprKind::BoolLit(b), sp)),
        SpecAtomKind::Nil => Ok(sx(SpecExprKind::NilLit, sp)),
        SpecAtomKind::Symbol(s) => Ok(sx(SpecExprKind::SymbolRef(s), sp)),
        SpecAtomKind::Keyword(s) => Ok(sx(SpecExprKind::KeywordLit(s), sp)),
        SpecAtomKind::Arrow => Ok(sx(SpecExprKind::SymbolRef("->"@), sp)),
        SpecAtomKind::Version(_, _, _) => Err(spec_error("version literal is only valid in :version position"@, sp)),
    }
}

/// A `match` pattern. A float literal cannot be a pattern here: the tree
/// keeps float literals as text, and a pattern needs the number itself.
pub open spec fn spec_pattern(e: SpecSExpr) -> Result<SpecPattern, SpecDiagnostic>
    decreases e, 1int,
{
    let span = spec_span_of(e);
    match e {
        SpecSExpr::Atom(a) => match a.kind {
            SpecAtomKind::Symbol(s) => if s == "_"@ {
                Ok(SpecPattern { kind: SpecPatternKind::Wildcard, span })
            } else {
                Ok(SpecPattern { kind: SpecPatternKind::Binding(s), span })
            },
            SpecAtomKind::Integer(v) => Ok(SpecPattern { kind: SpecPatternKind::Literal(SpecLitPattern::Int(v)), span }),
            SpecAtomKind::Str(v) => Ok(SpecPattern { kind: SpecPatternKind::Literal(SpecLitPattern::Str(v)), span }),
            SpecAtomKind::Bool(v) => Ok(SpecPattern { kind: SpecPatternKind::Literal(SpecLitPattern::Bool(v)), span }),
            SpecAtomKind::Nil => Ok(SpecPattern { kind: SpecPatternKind::Literal(SpecLitPattern::Nil), span }),
            _ => Err(spec_error("unexpected pattern atom"@, span)),
        },
        SpecSExpr::List(items, _) => if items.len() == 0 {
            Err(spec_error("empty pattern"@, span))
        } else {
            match spec_expect_symbol(items[0]) {
                Err(d) => Err(d),
                Ok(name) => match spec_patterns_acc(items, 1, Seq::empty()) {
                    Err(d) => Err(d),
                    Ok(subs) => Ok(SpecPattern { kind: SpecPatternKind::Variant(name, subs), span }),
                },
            }
        },
        _ => Err(spec_error("unexpected pattern form"@, span)),
    }
}

pub open spec fn spec_patterns_acc(items: Seq<SpecSExpr>, i: nat, acc: Seq<SpecPattern>) -> Result<Seq<SpecPattern>, SpecDiagnostic>
    decreases items, items.len() - i,
{
    if i >= items.len() {
        Ok(acc)
    } else {
        match spec_pattern(items[i as int]) {
            Err(d) => Err(d),
            Ok(p) => spec_patterns_acc(items, i + 1, acc.push(p)),
        }
    }
}

// ── Expressions ─────────────────────────────────────────────────────

pub open spec fn spec_expr(e: SpecSExpr, st: SpecDiags) -> Parsed<SpecExpr>
    decreases e, 0int,
{
    match e {
        SpecSExpr::Atom(a) => (spec_atom_expr(a), st),
        SpecSExpr::BracketList(items, sp) => match spec_exprs_acc(items, 0, Seq::empty(), st) {
            (Ok(xs), s) => (Ok(sx(SpecExprKind::ListLit(xs), sp)), s),
            (Err(d), s) => (Err(d), s),
        },
        SpecSExpr::List(items, sp) => spec_list_form(items, sp, st),
    }
}

/// The expressions `items[i..]`, appended to `acc`, read left to right.
pub open spec fn spec_exprs_acc(items: Seq<SpecSExpr>, i: nat, acc: Seq<SpecExpr>, st: SpecDiags) -> Parsed<Seq<SpecExpr>>
    decreases items, items.len() - i,
{
    if i >= items.len() {
        (Ok(acc), st)
    } else {
        match spec_expr(items[i as int], st) {
            (Err(d), s) => (Err(d), s),
            (Ok(x), s) => spec_exprs_acc(items, i + 1, acc.push(x), s),
        }
    }
}

/// A parenthesised form, dispatched on its head.
pub open spec fn spec_list_form(items: Seq<SpecSExpr>, sp: Span, st: SpecDiags) -> Parsed<SpecExpr>
    decreases items, items.len() + 2,
{
    if items.len() == 0 {
        (Ok(sx(SpecExprKind::NilLit, sp)), st)
    } else {
        match spec_symbol_of(items[0]) {
            Some(h) => if h == "if"@ {
                spec_if(items, sp, st)
            } else if h == "let"@ {
                spec_let(items, sp, st)
            } else if h == "do"@ {
                match spec_exprs_acc(items, 1, Seq::empty(), st) {
                    (Ok(xs), s) => (Ok(sx(SpecExprKind::Do(xs), sp)), s),
                    (Err(d), s) => (Err(d), s),
                }
            } else if h == "match"@ {
                spec_match(items, sp, st)
            } else if h == "fn"@ {
                spec_lambda(items, sp, st)
            } else if h == "try"@ {
                if items.len() != 2 {
                    (Err(spec_error("try requires exactly one expression"@, sp)), st)
                } else {
                    match spec_expr(items[1], st) {
                        (Ok(x), s) => (Ok(sx(SpecExprKind::Try(Box::new(x)), sp)), s),
                        (Err(d), s) => (Err(d), s),
                    }
                }
            } else if h == "forall"@ {
                spec_quant(items, sp, true, st)
            } else if h == "exists"@ {
                spec_quant(items, sp, false, st)
            } else if h == "->>"@ {
                spec_thread(items, sp, true, st)
            } else if h.len() > 0 && char_is_uppercase(h[0]) {
                match spec_exprs_acc(items, 1, Seq::empty(), st) {
                    (Ok(xs), s) => (Ok(sx(SpecExprKind::VariantCtor(h, xs), sp)), s),
                    (Err(d), s) => (Err(d), s),
                }
            } else {
                spec_call(items, sp, st)
            },
            None => if items[0] matches SpecSExpr::Atom(SpecAtom { kind: SpecAtomKind::Arrow, .. }) {
                spec_thread(items, sp, false, st)
            } else {
                spec_call(items, sp, st)
            },
        }
    }
}

/// `(if c t e)`: exactly three subforms.
pub open spec fn spec_if(items: Seq<SpecSExpr>, sp: Span, st: SpecDiags) -> Parsed<SpecExpr>
    decreases items, items.len() + 1,
{
    if items.len() != 4 {
        (Err(spec_error("if requires exactly 3 subforms, found "@ + decimal((items.len() - 1) as nat), sp)), st)
    } else {
        match spec_expr(items[1], st) {
            (Err(d), s) => (Err(d), s),
            (Ok(c), s1) => match spec_expr(items[2], s1) {
                (Err(d), s) => (Err(d), s),
                (Ok(t), s2) => match spec_expr(items[3], s2) {
                    (Err(d), s) => (Err(d), s),
                    (Ok(f), s3) => (Ok(sx(SpecExprKind::If(Box::new(c), Box::new(t), Box::new(f)), sp)), s3),
                },
            },
        }
    }
}

/// `(f a b ...)`: the head is an expression, then the arguments.
pub open spec fn spec_call(items: Seq<SpecSExpr>, sp: Span, st: SpecDiags) -> Parsed<SpecExpr>
    decreases items, items.len() + 1 when items.len() > 0
{
    match spec_expr(items[0], st) {
        (Err(d), s) => (Err(d), s),
        (Ok(f), s1) => match spec_exprs_acc(items, 1, Seq::empty(), s1) {
            (Err(d), s) => (Err(d), s),
            (Ok(args), s2) => (Ok(sx(SpecExprKind::FnCall(Box::new(f), args), sp)), s2),
        },
    }
}

// ── let ─────────────────────────────────────────────────────────────

/// What counts as a binding form: `(name : Type value)`, `([a b] value)`
/// (optionally with `: Type`), or `({k1 k2} value)` written as a list of
/// key symbols.
pub open spec fn spec_is_let_binding(e: SpecSExpr) -> bool {
    match e {
        SpecSExpr::List(items, _) => items.len() > 0 && (
            (items.len() >= 4 && spec_symbol_of(items[1]) == Some(":"@))
            || (items[0] is BracketList && items.len() >= 2)
            || (items[0] matches SpecSExpr::List(p, _) && p.len() > 0 && all_symbols(p) && items.len() >= 2)
        ),
        _ => false,
    }
}

/// The binding forms at the front of `items[i..]`; their bindings appended
/// to `acc`, and the index of the first item that is not one.
pub open spec fn spec_let_bindings(items: Seq<SpecSExpr>, i: nat, acc: Seq<SpecLetBinding>, st: SpecDiags)
    -> Parsed<(Seq<SpecLetBinding>, nat)>
    decreases items, items.len() - i,
{
    if i < items.len() && spec_is_let_binding(items[i as int]) {
        match spec_binding_from(items[i as int], st) {
            (Err(d), s) => (Err(d), s),
            (Ok(bs), s) => spec_let_bindings(items, i + 1, acc + bs, s),
        }
    } else {
        (Ok((acc, i)), st)
    }
}

/// One binding form, expanded into the bindings it stands for.
pub open spec fn spec_binding_from(e: SpecSExpr, st: SpecDiags) -> Parsed<Seq<SpecLetBinding>>
    decreases e, 1int,
{
    let span = spec_span_of(e);
    match e {
        SpecSExpr::List(items, _) => if items.len() == 0 {
            (Err(spec_error("expected let binding list"@, span)), st)
        } else {
            match items[0] {
                SpecSExpr::BracketList(pitems, _) => spec_list_destructure(items, pitems, span, st),
                SpecSExpr::List(pitems, _) if pitems.len() > 0 && all_symbols(pitems) => spec_map_destructure(items, pitems, span, st),
                _ => if items.len() < 4 {
                    (Err(spec_error("let binding requires (name : Type value)"@, span)), st)
                } else {
                    match spec_expect_symbol(items[0]) {
                        Err(d) => (Err(d), st),
                        Ok(name) => match spec_parse_type(items[2]) {
                            Err(d) => (Err(d), st),
                            Ok(ty) => match spec_expr(items[3], st) {
                                (Err(d), s) => (Err(d), s),
                                (Ok(v), s) => (Ok(seq![SpecLetBinding { name, ty, value: v, span }]), s),
                            },
                        },
                    }
                },
            }
        },
        _ => (Err(spec_error("expected let binding list"@, span)), st),
    }
}

/// `([a b & rest] value)`: the value under a fresh name, then `(at tmp i)`
/// for each element name and `(drop i tmp)` for the name after `&`.
pub open spec fn spec_list_destructure(items: Seq<SpecSExpr>, pitems: Seq<SpecSExpr>, span: Span, st: SpecDiags)
    -> Parsed<Seq<SpecLetBinding>>
    decreases items, 1int,
{
    if items.len() >= 4 && spec_symbol_of(items[1]) == Some(":"@) {
        match spec_parse_type(items[2]) {
            Err(d) => (Err(d), st),
            Ok(_) => spec_destructure_value(items, 3, pitems, span, st),
        }
    } else if items.len() >= 2 {
        spec_destructure_value(items, 1, pitems, span, st)
    } else {
        (Err(spec_error("list destructure binding missing value"@, span)), st)
    }
}

pub open spec fn spec_destructure_value(items: Seq<SpecSExpr>, k: int, pitems: Seq<SpecSExpr>, span: Span, st: SpecDiags)
    -> Parsed<Seq<SpecLetBinding>>
    decreases items, 0int when 0 <= k < items.len()
{
    let gs = gensym_name(st.counter);
    match spec_expr(items[k], after_gensym(st)) {
        (Err(d), s) => (Err(d), s),
        (Ok(v), s) => match spec_list_pattern(pitems, 0, 0, seq![spec_binding(gs, v, span)], gs, span) {
            Err(d) => (Err(d), s),
            Ok(bs) => (Ok(bs), s),
        },
    }
}

/// The bindings for the names of a list pattern, from `i` on; `idx` counts
/// the element names seen so far.
pub open spec fn spec_list_pattern(pitems: Seq<SpecSExpr>, i: nat, idx: nat, acc: Seq<SpecLetBinding>, gs: Seq<char>, span: Span)
    -> Result<Seq<SpecLetBinding>, SpecDiagnostic>
    decreases pitems.len() - i,
{
    if i >= pitems.len() {
        Ok(acc)
    } else if spec_symbol_of(pitems[i as int]) == Some("&"@) {
        if i + 1 >= pitems.len() {
            Err(spec_error("& in let pattern requires a name after it"@, span))
        } else {
            match spec_expect_symbol(pitems[i as int + 1]) {
                Err(d) => Err(d),
                Ok(rest) => spec_list_pattern(pitems, i + 2, idx, acc.push(spec_binding(rest,
                    call_of("drop"@, seq![sx(SpecExprKind::IntLit(idx as i64), span), sx(SpecExprKind::SymbolRef(gs), span)], span), span)), gs, span),
            }
        }
    } else {
        match spec_expect_symbol(pitems[i as int]) {
            Err(d) => Err(d),
            Ok(n) => spec_list_pattern(pitems, i + 1, idx + 1, acc.push(spec_binding(n,
                call_of("at"@, seq![sx(SpecExprKind::SymbolRef(gs), span), sx(SpecExprKind::IntLit(idx as i64), span)], span), span)), gs, span),
        }
    }
}

/// `({k1 k2} value)`: the value under a fresh name, then `(map-get tmp "k")`
/// for each key.
pub open spec fn spec_map_destructure(items: Seq<SpecSExpr>, pitems: Seq<SpecSExpr>, span: Span, st: SpecDiags)
    -> Parsed<Seq<SpecLetBinding>>
    decreases items, 1int,
{
    if items.len() < 2 {
        (Err(spec_error("map destructure binding missing value"@, span)), st)
    } else {
        let gs = gensym_name(st.counter);
        match spec_expr(items[1], after_gensym(st)) {
            (Err(d), s) => (Err(d), s),
            (Ok(v), s) => match spec_map_pattern(pitems, 0, seq![spec_binding(gs, v, span)], gs, span) {
                Err(d) => (Err(d), s),
                Ok(bs) => (Ok(bs), s),
            },
        }
    }
}

pub open spec fn spec_map_pattern(pitems: Seq<SpecSExpr>, i: nat, acc: Seq<SpecLetBinding>, gs: Seq<char>, span: Span)
    -> Result<Seq<SpecLetBinding>, SpecDiagnostic>
    decreases pitems.len() - i,
{
    if i >= pitems.len() {
        Ok(acc)
    } else {
        match spec_expect_symbol(pitems[i as int]) {
            Err(d) => Err(d),
            Ok(k) => spec_map_pattern(pitems, i + 1, acc.push(spec_binding(k,
                call_of("map-get"@, seq![sx(SpecExprKind::SymbolRef(gs), span), sx(SpecExprKind::StrLit(k), span)], span), span)), gs, span),
        }
    }
}

/// The message for `(name value)` written without a type.
pub open spec fn missing_type_message(name: Seq<char>) -> Seq<char> {
    "let binding '"@ + name + "' is missing type annotation — use (let ("@ + name + " : Type value) body)"@
}

/// `(x value)` or `(x v w)` whose second item is not `:`.
pub open spec fn untyped_binding_name(e: SpecSExpr) -> Option<Seq<char>> {
    match e {
        SpecSExpr::List(inner, _) => if 2 <= inner.len() <= 3 && spec_symbol_of(inner[0]) is Some
            && spec_symbol_of(inner[1]) != Some(":"@) {
            spec_symbol_of(inner[0])
        } else {
            None
        },
        _ => None,
    }
}

/// `(let b1 ... bn body)`; extra forms after the body are reported and dropped.
pub open spec fn spec_let(items: Seq<SpecSExpr>, sp: Span, st: SpecDiags) -> Parsed<SpecExpr>
    decreases items, items.len() + 1,
{
    if items.len() <= 1 {
        (Err(spec_error("let requires at least a body"@, sp)), st)
    } else {
        match spec_let_bindings(items, 1, Seq::empty(), st) {
            (Err(d), s) => (Err(d), s),
            (Ok((bs, i)), s1) => if bs.len() == 0 && untyped_binding_name(items[1]) is Some {
                (Err(spec_error(missing_type_message(untyped_binding_name(items[1])->0), spec_span_of(items[1]))), s1)
            } else if i >= items.len() {
                (Err(spec_error("let requires a body expression"@, sp)), s1)
            } else {
                match spec_expr(items[i as int], s1) {
                    (Err(d), s) => (Err(d), s),
                    (Ok(body), s2) => {
                        let s3 = if i + 1 < items.len() {
                            spec_add(s2, spec_warning("let has "@ + decimal((items.len() - i - 1) as nat)
                                + " extra expression(s) after body that will be ignored"@, spec_span_of(items[i as int + 1])))
                        } else {
                            s2
                        };
                        (Ok(sx(SpecExprKind::Let(bs, Box::new(body)), sp)), s3)
                    },
                }
            },
        }
    }
}

// ── match ───────────────────────────────────────────────────────────

/// `(match e p1 b1 ... pn bn)`.
pub open spec fn spec_match(items: Seq<SpecSExpr>, sp: Span, st: SpecDiags) -> Parsed<SpecExpr>
    decreases items, items.len() + 1,
{
    if items.len() <= 1 {
        (Err(spec_error("match requires a scrutinee"@, sp)), st)
    } else {
        match spec_expr(items[1], st) {
            (Err(d), s) => (Err(d), s),
            (Ok(scr), s1) => if (items.len() - 2) % 2 != 0 {
                (Err(spec_error("match arms must come in pattern/body pairs"@, sp)), s1)
            } else {
                match spec_arms(items, 2, Seq::empty(), s1) {
                    (Err(d), s) => (Err(d), s),
                    (Ok(arms), s2) => (Ok(sx(SpecExprKind::Match(Box::new(scr), arms), sp)), s2),
                }
            },
        }
    }
}

pub open spec fn spec_arms(items: Seq<SpecSExpr>, i: nat, acc: Seq<SpecMatchArm>, st: SpecDiags) -> Parsed<Seq<SpecMatchArm>>
    decreases items, items.len() - i,
{
    if i + 1 >= items.len() {
        (Ok(acc), st)
    } else {
        match spec_pattern(items[i as int]) {
            Err(d) => (Err(d), st),
            Ok(p) => match spec_expr(items[i as int + 1], st) {
                (Err(d), s) => (Err(d), s),
                (Ok(b), s) => spec_arms(items, i + 2, acc.push(SpecMatchArm {
                    pattern: p,
                    body: b,
                    span: spec_merge(spec_span_of(items[i as int]), spec_span_of(items[i as int + 1])),
                }), s),
            },
        }
    }
}

// ── fn and parameters ───────────────────────────────────────────────

/// `(fn [params] body)`; extra forms after the body are reported and dropped.
pub open spec fn spec_lambda(items: Seq<SpecSExpr>, sp: Span, st: SpecDiags) -> Parsed<SpecExpr>
    decreases items, items.len() + 1,
{
    if items.len() < 3 {
        (Err(spec_error("fn requires params and body"@, sp)), st)
    } else {
        match spec_lambda_params(items[1], st) {
            (Err(d), s) => (Err(d), s),
            (Ok(ps), s1) => match spec_expr(items[2], s1) {
                (Err(d), s) => (Err(d), s),
                (Ok(body), s2) => {
                    let s3 = if items.len() > 3 {
                        spec_add(s2, spec_warning("fn has "@ + decimal((items.len() - 3) as nat)
                            + " extra expression(s) after body that will be ignored"@, spec_span_of(items[3])))
                    } else {
                        s2
                    };
                    (Ok(sx(SpecExprKind::Lambda(ps, Box::new(body)), sp)), s3)
                },
            },
        }
    }
}

pub open spec fn spec_lambda_params(e: SpecSExpr, st: SpecDiags) -> Parsed<Seq<SpecParam>>
    decreases e, 1int,
{
    match e {
        SpecSExpr::BracketList(items, _) => spec_lparams_acc(items, 0, Seq::empty(), st),
        _ => (Err(spec_error("expected bracket list for parameters"@, spec_span_of(e))), st),
    }
}

/// A bare symbol is a parameter of inferred type; a list is a full parameter.
pub open spec fn spec_lparams_acc(items: Seq<SpecSExpr>, i: nat, acc: Seq<SpecParam>, st: SpecDiags) -> Parsed<Seq<SpecParam>>
    decreases items, items.len() - i,
{
    if i >= items.len() {
        (Ok(acc), st)
    } else {
        match items[i as int] {
            SpecSExpr::Atom(SpecAtom { kind: SpecAtomKind::Symbol(s), span }) => spec_lparams_acc(items, i + 1, acc.push(
                SpecParam { ownership: Ownership::Default, name: s, ty: wild_type(span), default: None, span }), st),
            SpecSExpr::List(_, _) => match spec_param(items[i as int], st) {
                (Err(d), s) => (Err(d), s),
                (Ok(p), s) => spec_lparams_acc(items, i + 1, acc.push(p), s),
            },
            _ => (Err(spec_error("expected parameter"@, spec_span_of(items[i as int]))), st),
        }
    }
}

/// An ownership word in front of a parameter's name.
pub open spec fn ownership_word(e: SpecSExpr) -> Option<Ownership> {
    match spec_symbol_of(e) {
        Some(s) => if s == "own"@ {
            Some(Ownership::Own)
        } else if s == "ref"@ {
            Some(Ownership::Ref)
        } else if s == "mut"@ {
            Some(Ownership::Mut)
        } else if s == "copy"@ {
            Some(Ownership::Copy)
        } else {
            None
        },
        None => None,
    }
}

/// `([own|ref|mut|copy] name : Type [default])`.
pub open spec fn spec_param(e: SpecSExpr, st: SpecDiags) -> Parsed<SpecParam>
    decreases e, 1int,
{
    let span = spec_span_of(e);
    match e {
        SpecSExpr::List(items, _) => if items.len() < 3 {
            (Err(spec_error("param requires at least (name : Type)"@, span)), st)
        } else {
            let own = ownership_word(items[0]);
            let i0: int = if own is Some { 1 } else { 0 };
            let ownership = match own { Some(o) => o, None => Ownership::Default };
            match spec_expect_symbol(items[i0]) {
                Err(d) => (Err(d), st),
                Ok(name) => if i0 + 1 >= items.len() || spec_symbol_of(items[i0 + 1]) != Some(":"@) {
                    (Err(spec_error("expected ':' in param"@, span)), st)
                } else if i0 + 2 >= items.len() {
                    (Err(spec_error("expected type in param"@, span)), st)
                } else {
                    match spec_type_from_slice(items, i0 + 2) {
                        Err(d) => (Err(d), st),
                        Ok((ty, c)) => if i0 + 2 + c < items.len() {
                            match spec_expr(items[i0 + 2 + c], st) {
                                (Err(d), s) => (Err(d), s),
                                (Ok(dv), s) => (Ok(SpecParam { ownership, name, ty, default: Some(dv), span }), s),
                            }
                        } else {
                            (Ok(SpecParam { ownership, name, ty, default: None, span }), st)
                        },
                    }
                },
            }
        },
        _ => (Err(spec_error("expected parameter list"@, span)), st),
    }
}

// ── Quantifiers ─────────────────────────────────────────────────────

pub open spec fn quant_word(is_forall: bool) -> Seq<char> {
    if is_forall { "forall"@ } else { "exists"@ }
}

/// `(forall [i : T] (where guard) body)` and the same with `exists`.
pub open spec fn spec_quant(items: Seq<SpecSExpr>, sp: Span, is_forall: bool, st: SpecDiags) -> Parsed<SpecExpr>
    decreases items, items.len() + 1,
{
    let w = quant_word(is_forall);
    if items.len() < 3 {
        (Err(spec_error(w + " requires a parameter list and body"@, sp)), st)
    } else {
        match items[1] {
            SpecSExpr::BracketList(pi, psp) => if pi.len() < 3 {
                (Err(spec_error(w + " parameter requires [name : Type]"@, psp)), st)
            } else {
                match spec_expect_symbol(pi[0]) {
                    Err(d) => (Err(d), st),
                    Ok(pname) => if spec_symbol_of(pi[1]) != Some(":"@) {
                        (Err(spec_error("expected ':' in parameter"@, psp)), st)
                    } else {
                        match spec_expect_symbol(pi[2]) {
                            Err(d) => (Err(d), st),
                            Ok(tn) => {
                                let param = SpecParam {
                                    ownership: Ownership::Default,
                                    name: pname,
                                    ty: SpecAstType { kind: SpecTypeKind::Named(tn), span: psp },
                                    default: None,
                                    span: psp,
                                };
                                match items[2] {
                                    SpecSExpr::List(inner, _) if items.len() >= 4 && inner.len() > 0
                                        && spec_symbol_of(inner[0]) == Some("where"@) => if inner.len() != 2 {
                                        (Err(spec_error("where clause requires exactly one expression"@, sp)), st)
                                    } else {
                                        match spec_expr(inner[1], st) {
                                            (Err(d), s) => (Err(d), s),
                                            (Ok(g), s1) => spec_quant_body(items, 3, sp, is_forall, param, Some(Box::new(g)), s1),
                                        }
                                    },
                                    _ => spec_quant_body(items, 2, sp, is_forall, param, None, st),
                                }
                            },
                        }
                    },
                }
            },
            _ => (Err(spec_error(w + " requires [name : Type] parameter list"@, sp)), st),
        }
    }
}

pub open spec fn spec_quant_body(items: Seq<SpecSExpr>, bi: int, sp: Span, is_forall: bool, param: SpecParam,
    guard: Option<Box<SpecExpr>>, st: SpecDiags) -> Parsed<SpecExpr>
    decreases items, items.len() when bi >= 0
{
    if bi >= items.len() {
        (Err(spec_error(quant_word(is_forall) + " requires a body expression"@, sp)), st)
    } else {
        match spec_expr(items[bi], st) {
            (Err(d), s) => (Err(d), s),
            (Ok(body), s) => (Ok(sx(if is_forall {
                SpecExprKind::Forall(Box::new(param), guard, Box::new(body))
            } else {
                SpecExprKind::Exists(Box::new(param), guard, Box::new(body))
            }, sp)), s),
        }
    }
}

// ── Threading macros ────────────────────────────────────────────────

/// `(-> seed steps...)` (`last` false) and `(->> seed steps...)` (`last` true).
pub open spec fn spec_thread(items: Seq<SpecSExpr>, sp: Span, last: bool, st: SpecDiags) -> Parsed<SpecExpr>
    decreases items, items.len() + 1,
{
    if items.len() < 2 {
        (Err(spec_error(if last { "->> requires at least one argument"@ } else { "-> requires at least one argument"@ }, sp)), st)
    } else {
        match spec_expr(items[1], st) {
            (Err(d), s) => (Err(d), s),
            (Ok(seed), s1) => spec_thread_steps(items, 2, seed, last, s1),
        }
    }
}

pub open spec fn spec_thread_steps(items: Seq<SpecSExpr>, i: nat, acc: SpecExpr, last: bool, st: SpecDiags) -> Parsed<SpecExpr>
    decreases items, items.len() - i,
{
    if i >= items.len() {
        (Ok(acc), st)
    } else {
        match spec_thread_step(acc, items[i as int], last, st) {
            (Err(d), s) => (Err(d), s),
            (Ok(a), s) => spec_thread_steps(items, i + 1, a, last, s),
        }
    }
}

/// Threading a seed through no steps gives the seed itself: `(-> x)` and
/// `(->> x)` read as `x`.
pub proof fn law_thread_seed_alone(items: Seq<SpecSExpr>, sp: Span, last: bool, st: SpecDiags)
    requires
        items.len() == 2,
    ensures
        spec_thread(items, sp, last, st) == spec_expr(items[1], st),
{
}

/// One step: a symbol `f` gives `(f acc)`; a list `(f a b)` gives
/// `(f acc a b)`, or `(f a b acc)` when threading last.
pub open spec fn spec_thread_step(acc: SpecExpr, step: SpecSExpr, last: bool, st: SpecDiags) -> Parsed<SpecExpr>
    decreases step, 1int,
{
    let ssp = spec_span_of(step);
    match step {
        SpecSExpr::Atom(SpecAtom { kind: SpecAtomKind::Symbol(s), span }) =>
            (Ok(sx(SpecExprKind::FnCall(Box::new(sx(SpecExprKind::SymbolRef(s), span)), seq![acc]), ssp)), st),
        SpecSExpr::List(elems, _) if elems.len() > 0 => match spec_expr(elems[0], st) {
            (Err(d), s) => (Err(d), s),
            (Ok(f), s1) => match spec_exprs_acc(elems, 1, Seq::empty(), s1) {
                (Err(d), s) => (Err(d), s),
                (Ok(extra), s2) => (Ok(sx(SpecExprKind::FnCall(Box::new(f),
                    if last { extra.push(acc) } else { seq![acc] + extra }), ssp)), s2),
            },
        },
        _ => (Err(spec_error("threading macro step must be a symbol or list"@, ssp)), st),
    }
}


// ── Results as values ───────────────────────────────────────────────

pub open spec fn expr_res(r: Result<Expr, Diagnostic>) -> Result<SpecExpr, SpecDiagnostic> {
    match r {
        Ok(x) => Ok(expr_view(x)),
        Err(d) => Err(d@),
    }
}

pub open spec fn exprs_res(r: Result<Vec<Expr>, Diagnostic>) -> Result<Seq<SpecExpr>, SpecDiagnostic> {
    match r {
        Ok(x) => Ok(exprs_view(x@)),
        Err(d) => Err(d@),
    }
}

pub open spec fn bindings_res(r: Result<Vec<LetBinding>, Diagnostic>) -> Result<Seq<SpecLetBinding>, SpecDiagnostic> {
    match r {
        Ok(x) => Ok(bindings_view(x@)),
        Err(d) => Err(d@),
    }
}

pub open spec fn param_res(r: Result<Param, Diagnostic>) -> Result<SpecParam, SpecDiagnostic> {
    match r {
        Ok(x) => Ok(param_view(x)),
        Err(d) => Err(d@),
    }
}

pub open spec fn params_res(r: Result<Vec<Param>, Diagnostic>) -> Result<Seq<SpecParam>, SpecDiagnostic> {
    match r {
        Ok(x) => Ok(params_view(x@)),
        Err(d) => Err(d@),
    }
}

pub open spec fn pattern_res(r: Result<Pattern, Diagnostic>) -> Result<SpecPattern, SpecDiagnostic> {
    match r {
        Ok(x) => Ok(pattern_view(x)),
        Err(d) => Err(d@),
    }
}

pub proof fn lemma_exprs_view_push(s: Seq<Expr>, x: Expr)
    ensures
        exprs_view(s.push(x)) == exprs_view(s).push(expr_view(x)),
{
    assert(s.push(x).drop_last() =~= s);
}

pub proof fn lemma_exprs_view_concat(a: Seq<Expr>, b: Seq<Expr>)
    ensures
        exprs_view(a + b) == exprs_view(a) + exprs_view(b),
    decreases b.len(),
{
    if b.len() == 0 {
        assert(a + b =~= a);
        assert(exprs_view(a) + exprs_view(b) =~= exprs_view(a));
    } else {
        lemma_exprs_view_concat(a, b.drop_last());
        assert((a + b).drop_last() =~= a + b.drop_last());
        assert(exprs_view(a) + exprs_view(b) =~= (exprs_view(a) + exprs_view(b.drop_last())).push(expr_view(b.last())));
    }
}

pub proof fn lemma_bindings_view_push(s: Seq<LetBinding>, x: LetBinding)
    ensures
        bindings_view(s.push(x)) == bindings_view(s).push(binding_view(x)),
{
    assert(s.push(x).drop_last() =~= s);
}

pub proof fn lemma_bindings_view_concat(a: Seq<LetBinding>, b: Seq<LetBinding>)
    ensures
        bindings_view(a + b) == bindings_view(a) + bindings_view(b),
    decreases b.len(),
{
    if b.len() == 0 {
        assert(a + b =~= a);
        assert(bindings_view(a) + bindings_view(b) =~= bindings_view(a));
    } else {
        lemma_bindings_view_concat(a, b.drop_last());
        assert((a + b).drop_last() =~= a + b.drop_last());
        assert(bindings_view(a) + bindings_view(b) =~= (bindings_view(a) + bindings_view(b.drop_last())).push(binding_view(b.last())));
    }
}

pub proof fn lemma_params_view_push(s: Seq<Param>, x: Param)
    ensures
        params_view(s.push(x)) == params_view(s).push(param_view(x)),
{
    assert(s.push(x).drop_last() =~= s);
}

pub proof fn lemma_arms_view_push(s: Seq<MatchArm>, x: MatchArm)
    ensures
        arms_view(s.push(x)) == arms_view(s).push(arm_view(x)),
{
    assert(s.push(x).drop_last() =~= s);
}

pub proof fn lemma_patterns_view_push(s: Seq<Pattern>, x: Pattern)
    ensures
        patterns_view(s.push(x)) == patterns_view(s).push(pattern_view(x)),
{
    assert(s.push(x).drop_last() =~= s);
}

// ── Building blocks ─────────────────────────────────────────────────

fn wild(span: Span) -> (t: AstType)
    ensures
        ast_type_view(t) == wild_type(span),
{
    AstType { kind: AstTypeKind::Named(String::from_str("_")), span }
}

fn sym(name: String, span: Span) -> (e: Expr)
    ensures
        expr_view(e) == sx(SpecExprKind::SymbolRef(name@), span),
{
    Expr { kind: ExprKind::SymbolRef(name), span }
}

fn two_exprs(a: Expr, b: Expr) -> (v: Vec<Expr>)
    ensures
        exprs_view(v@) == seq![expr_view(a), expr_view(b)],
{
    let mut v: Vec<Expr> = Vec::new();
    v.push(a);
    proof {
        lemma_exprs_view_push(Seq::empty(), a);
        assert(Seq::<Expr>::empty().push(a) =~= v@);
    }
    let ghost v1 = v@;
    v.push(b);
    proof {
        lemma_exprs_view_push(v1, b);
        assert(exprs_view(Seq::<Expr>::empty()) =~= Seq::<SpecExpr>::empty());
        assert(exprs_view(v@) =~= seq![expr_view(a), expr_view(b)]);
    }
    v
}

/// `(name a b)` as a call of the symbol `name`.
fn call_expr(name: &str, a: Expr, b: Expr, span: Span) -> (e: Expr)
    ensures
        expr_view(e) == call_of(name@, seq![expr_view(a), expr_view(b)], span),
{
    let f = sym(String::from_str(name), span);
    let args = two_exprs(a, b);
    Expr { kind: ExprKind::FnCall(Box::new(f), args), span }
}

/// An error whose message is `head`, a count, then `tail`.
fn count_message(head: &str, n: usize, tail: &str) -> (m: String)
    ensures
        m@ == head@ + decimal(n as nat) + tail@,
{
    let mut m = String::from_str(head);
    let d = u64_to_string(n as u64);
    m.append(d.as_str());
    m.append(tail);
    m
}

fn all_symbols_exec(p: &Vec<SExpr>) -> (b: bool)
    ensures
        b == all_symbols(sexprs_view(p@)),
{
    proof {
        lemma_sexprs_view(p@);
    }
    let mut i: usize = 0;
    while i < p.len()
        invariant
            i <= p@.len(),
            sexprs_view(p@).len() == p@.len(),
            forall|j: int| 0 <= j < p@.len() ==> #[trigger] sexprs_view(p@)[j] == sexpr_view(p@[j]),
            forall|k: int| 0 <= k < i ==> (#[trigger] spec_symbol_of(sexprs_view(p@)[k])) is Some,
        decreases p@.len() - i,
    {
        if p[i].as_symbol().is_none() {
            assert(spec_symbol_of(sexprs_view(p@)[i as int]) is None);
            return false;
        }
        i += 1;
    }
    true
}

fn is_colon(e: &SExpr) -> (b: bool)
    ensures
        b == (spec_symbol_of(e@) == Some(":"@)),
{
    match e.as_symbol() {
        Some(c) => str_eq(c, ":"),
        None => false,
    }
}

// ── Atoms and patterns ──────────────────────────────────────────────

fn parse_atom_expr(a: &Atom) -> (r: Result<Expr, Diagnostic>)
    ensures
        expr_res(r) == spec_atom_expr(SpecAtom { kind: crate::sexpr::atom_kind_view(a.kind), span: a.span }),
{
    let sp = a.span;
    let kind = match &a.kind {
        AtomKind::Integer(v) => ExprKind::IntLit(*v),
        AtomKind::Float(t) => ExprKind::FloatLit(t.clone()),
        AtomKind::Str(v) => ExprKind::StrLit(v.clone()),
        AtomKind::Bool(v) => ExprKind::BoolLit(*v),
        AtomKind::Nil => ExprKind::NilLit,
        AtomKind::Symbol(v) => ExprKind::SymbolRef(v.clone()),
        AtomKind::Keyword(v) => ExprKind::KeywordLit(v.clone()),
        AtomKind::Arrow => ExprKind::SymbolRef(String::from_str("->")),
        AtomKind::Version(_, _, _) => {
            return Err(Diagnostic::error_str("version literal is only valid in :version position", sp));
        },
    };
    Ok(Expr { kind, span: sp })
}

/// A `match` pattern.
#[verifier::loop_isolation(false)]
pub fn parse_pattern(e: &SExpr) -> (r: Result<Pattern, Diagnostic>)
    ensures
        pattern_res(r) == spec_pattern(e@),
    decreases e,
{
    let span = e.span();
    match e {
        SExpr::Atom(a) => {
            let kind = match &a.kind {
                AtomKind::Symbol(s) => if str_eq(s.as_str(), "_") {
                    PatternKind::Wildcard
                } else {
                    PatternKind::Binding(s.clone())
                },
                AtomKind::Integer(v) => PatternKind::Literal(LitPattern::Int(*v)),
                AtomKind::Str(v) => PatternKind::Literal(LitPattern::Str(v.clone())),
                AtomKind::Bool(v) => PatternKind::Literal(LitPattern::Bool(*v)),
                AtomKind::Nil => PatternKind::Literal(LitPattern::Nil),
                _ => {
                    return Err(Diagnostic::error_str("unexpected pattern atom", span));
                },
            };
            Ok(Pattern { kind, span })
        },
        SExpr::List(items, _) => {
            if items.len() == 0 {
                return Err(Diagnostic::error_str("empty pattern", span));
            }
            let ghost sv = sexprs_view(items@);
            proof {
                lemma_sexprs_view(items@);
            }
            let name = expect_symbol(&items[0])?;
            let mut subs: Vec<Pattern> = Vec::new();
            let mut i: usize = 1;
            assert(patterns_view(subs@) =~= Seq::<SpecPattern>::empty());
            while i < items.len()
                invariant
                    1 <= i <= items@.len(),
                    sv == sexprs_view(items@),
                    sv.len() == items@.len(),
                    forall|j: int| 0 <= j < items@.len() ==> #[trigger] sv[j] == sexpr_view(items@[j]),
                    spec_patterns_acc(sv, 1, Seq::empty()) == spec_patterns_acc(sv, i as nat, patterns_view(subs@)),
                decreases items@.len() - i,
            {
                proof {
                    assert(decreases_to!(*e => *items));
                    assert(decreases_to!(*items => items@));
                    assert(decreases_to!(items@ => items@[i as int]));
                }
                let p = parse_pattern(&items[i])?;
                proof {
                    lemma_patterns_view_push(subs@, p);
                }
                subs.push(p);
                i += 1;
            }
            Ok(Pattern { kind: PatternKind::Variant(name, subs), span })
        },
        _ => Err(Diagnostic::error_str("unexpected pattern form", span)),
    }
}

// ── Expressions ─────────────────────────────────────────────────────

/// Reads an expression. Diagnostics receives the warnings the reading
/// produces, and its counter names the temporaries of destructuring.
pub fn parse_expr(e: &SExpr, diags: &mut Diagnostics) -> (r: Result<Expr, Diagnostic>)
    ensures
        (expr_res(r), final(diags)@) == spec_expr(e@, old(diags)@),
    decreases e, 0nat,
{
    match e {
        SExpr::Atom(a) => parse_atom_expr(a),
        SExpr::BracketList(items, sp) => {
            proof {
                assert(decreases_to!(*e => *items));
            }
            let xs = parse_exprs_from(items, 0, diags)?;
            Ok(Expr { kind: ExprKind::ListLit(xs), span: *sp })
        },
        SExpr::List(items, sp) => {
            proof {
                assert(decreases_to!(*e => *items));
            }
            parse_list_form(items, *sp, diags)
        },
    }
}

/// The expressions `items[start..]`, left to right.
#[verifier::loop_isolation(false)]
pub(crate) fn parse_exprs_from(items: &Vec<SExpr>, start: usize, diags: &mut Diagnostics) -> (r: Result<Vec<Expr>, Diagnostic>)
    ensures
        (exprs_res(r), final(diags)@) == spec_exprs_acc(sexprs_view(items@), start as nat, Seq::empty(), old(diags)@),
    decreases items, 0nat,
{
    let ghost sv = sexprs_view(items@);
    let ghost st0 = diags@;
    proof {
        lemma_sexprs_view(items@);
    }
    let mut out: Vec<Expr> = Vec::new();
    let mut i: usize = start;
    assert(exprs_view(out@) =~= Seq::<SpecExpr>::empty());
    while i < items.len()
        invariant
            sv == sexprs_view(items@),
            sv.len() == items@.len(),
            forall|j: int| 0 <= j < items@.len() ==> #[trigger] sv[j] == sexpr_view(items@[j]),
            spec_exprs_acc(sv, start as nat, Seq::empty(), st0) == spec_exprs_acc(sv, i as nat, exprs_view(out@), diags@),
        decreases items@.len() - i,
    {
        proof {
            assert(decreases_to!(*items => items@));
            assert(decreases_to!(items@ => items@[i as int]));
        }
        let x = parse_expr(&items[i], diags)?;
        proof {
            lemma_exprs_view_push(out@, x);
        }
        out.push(x);
        i += 1;
    }
    Ok(out)
}

fn parse_list_form(items: &Vec<SExpr>, sp: Span, diags: &mut Diagnostics) -> (r: Result<Expr, Diagnostic>)
    ensures
        (expr_res(r), final(diags)@) == spec_list_form(sexprs_view(items@), sp, old(diags)@),
    decreases items, 2nat,
{
    let ghost sv = sexprs_view(items@);
    proof {
        lemma_sexprs_view(items@);
        reveal_strlit("if");
        reveal_strlit("let");
        reveal_strlit("do");
        reveal_strlit("match");
        reveal_strlit("fn");
        reveal_strlit("try");
        reveal_strlit("forall");
        reveal_strlit("exists");
        reveal_strlit("->>");
    }
    if items.len() == 0 {
        return Ok(Expr { kind: ExprKind::NilLit, span: sp });
    }
    match items[0].as_symbol() {
        Some(h) => {
            if str_eq(h, "if") {
                parse_if_expr(items, sp, diags)
            } else if str_eq(h, "let") {
                parse_let_expr(items, sp, diags)
            } else if str_eq(h, "do") {
                let xs = parse_exprs_from(items, 1, diags)?;
                Ok(Expr { kind: ExprKind::Do(xs), span: sp })
            } else if str_eq(h, "match") {
                parse_match_expr(items, sp, diags)
            } else if str_eq(h, "fn") {
                parse_lambda_expr(items, sp, diags)
            } else if str_eq(h, "try") {
                if items.len() != 2 {
                    return Err(Diagnostic::error_str("try requires exactly one expression", sp));
                }
                proof {
                    assert(decreases_to!(*items => items@));
                    assert(decreases_to!(items@ => items@[1]));
                }
                let x = parse_expr(&items[1], diags)?;
                Ok(Expr { kind: ExprKind::Try(Box::new(x)), span: sp })
            } else if str_eq(h, "forall") {
                parse_quantifier_expr(items, sp, true, diags)
            } else if str_eq(h, "exists") {
                parse_quantifier_expr(items, sp, false, diags)
            } else if str_eq(h, "->>") {
                parse_thread(items, sp, true, diags)
            } else if is_capitalized(h) {
                let name = String::from_str(h);
                let xs = parse_exprs_from(items, 1, diags)?;
                Ok(Expr { kind: ExprKind::VariantCtor(name, xs), span: sp })
            } else {
                parse_call(items, sp, diags)
            }
        },
        None => match &items[0] {
            SExpr::Atom(Atom { kind: AtomKind::Arrow, .. }) => parse_thread(items, sp, false, diags),
            _ => parse_call(items, sp, diags),
        },
    }
}

fn parse_if_expr(items: &Vec<SExpr>, sp: Span, diags: &mut Diagnostics) -> (r: Result<Expr, Diagnostic>)
    requires
        items@.len() > 0,
    ensures
        (expr_res(r), final(diags)@) == spec_if(sexprs_view(items@), sp, old(diags)@),
    decreases items, 1nat,
{
    proof {
        lemma_sexprs_view(items@);
    }
    if items.len() != 4 {
        let m = count_message("if requires exactly 3 subforms, found ", items.len() - 1, "");
        proof {
            reveal_strlit("");
        }
        assert(m@ =~= "if requires exactly 3 subforms, found "@ + decimal((items@.len() - 1) as nat));
        return Err(Diagnostic::error(m, sp));
    }
    proof {
        assert(decreases_to!(*items => items@));
        assert(decreases_to!(items@ => items@[1]));
        assert(decreases_to!(items@ => items@[2]));
        assert(decreases_to!(items@ => items@[3]));
    }
    let c = parse_expr(&items[1], diags)?;
    let t = parse_expr(&items[2], diags)?;
    let f = parse_expr(&items[3], diags)?;
    Ok(Expr { kind: ExprKind::If(Box::new(c), Box::new(t), Box::new(f)), span: sp })
}

fn parse_call(items: &Vec<SExpr>, sp: Span, diags: &mut Diagnostics) -> (r: Result<Expr, Diagnostic>)
    requires
        items@.len() > 0,
    ensures
        (expr_res(r), final(diags)@) == spec_call(sexprs_view(items@), sp, old(diags)@),
    decreases items, 1nat,
{
    proof {
        lemma_sexprs_view(items@);
        assert(decreases_to!(*items => items@));
        assert(decreases_to!(items@ => items@[0]));
    }
    let f = parse_expr(&items[0], diags)?;
    let args = parse_exprs_from(items, 1, diags)?;
    Ok(Expr { kind: ExprKind::FnCall(Box::new(f), args), span: sp })
}


// ── let ─────────────────────────────────────────────────────────────

fn is_let_binding(e: &SExpr) -> (b: bool)
    ensures
        b == spec_is_let_binding(e@),
{
    match e {
        SExpr::List(items, _) => {
            proof {
                lemma_sexprs_view(items@);
            }
            if items.len() == 0 {
                return false;
            }
            if items.len() >= 4 && is_colon(&items[1]) {
                return true;
            }
            match &items[0] {
                SExpr::BracketList(_, _) => items.len() >= 2,
                SExpr::List(p, _) => {
                    proof {
                        lemma_sexprs_view(p@);
                    }
                    p.len() > 0 && all_symbols_exec(p) && items.len() >= 2
                },
                _ => false,
            }
        },
        _ => false,
    }
}

#[verifier::loop_isolation(false)]
fn parse_let_expr(items: &Vec<SExpr>, sp: Span, diags: &mut Diagnostics) -> (r: Result<Expr, Diagnostic>)
    ensures
        (expr_res(r), final(diags)@) == spec_let(sexprs_view(items@), sp, old(diags)@),
    decreases items, 1nat,
{
    let ghost sv = sexprs_view(items@);
    let ghost st0 = diags@;
    proof {
        lemma_sexprs_view(items@);
    }
    if items.len() <= 1 {
        return Err(Diagnostic::error_str("let requires at least a body", sp));
    }
    let mut bindings: Vec<LetBinding> = Vec::new();
    let mut i: usize = 1;
    assert(bindings_view(bindings@) =~= Seq::<SpecLetBinding>::empty());
    while i < items.len() && is_let_binding(&items[i])
        invariant
            1 <= i <= items@.len(),
            spec_let_bindings(sv, 1, Seq::empty(), st0) == spec_let_bindings(sv, i as nat, bindings_view(bindings@), diags@),
            i == 1 ==> bindings@.len() == 0,
        decreases items@.len() - i,
    {
        proof {
            assert(decreases_to!(*items => items@));
            assert(decreases_to!(items@ => items@[i as int]));
        }
        let mut nb = parse_let_bindings_from(&items[i], diags)?;
        let ghost prev = bindings@;
        let ghost nbs = nb@;
        bindings.append(&mut nb);
        proof {
            lemma_bindings_view_concat(prev, nbs);
        }
        i += 1;
    }
    let ghost s1 = diags@;
    assert(spec_let_bindings(sv, 1, Seq::empty(), st0) == (Ok::<(Seq<SpecLetBinding>, nat), SpecDiagnostic>((bindings_view(bindings@), i as nat)), s1));
    if bindings.len() == 0 {
        match &items[1] {
            SExpr::List(inner, isp) => {
                proof {
                    lemma_sexprs_view(inner@);
                }
                if inner.len() >= 2 && inner.len() <= 3 {
                    match inner[0].as_symbol() {
                        Some(name) => {
                            if !is_colon(&inner[1]) {
                                let mut m = String::from_str("let binding '");
                                m.append(name);
                                m.append("' is missing type annotation — use (let (");
                                m.append(name);
                                m.append(" : Type value) body)");
                                assert(m@ =~= missing_type_message(name@));
                                return Err(Diagnostic::error(m, *isp));
                            }
                        },
                        None => {},
                    }
                }
            },
            _ => {},
        }
    }
    if i >= items.len() {
        return Err(Diagnostic::error_str("let requires a body expression", sp));
    }
    proof {
        assert(decreases_to!(*items => items@));
        assert(decreases_to!(items@ => items@[i as int]));
    }
    let body = parse_expr(&items[i], diags)?;
    if i + 1 < items.len() {
        let m = count_message("let has ", items.len() - i - 1, " extra expression(s) after body that will be ignored");
        diags.add(Diagnostic::warning(m, items[i + 1].span()));
    }
    Ok(Expr { kind: ExprKind::Let(bindings, Box::new(body)), span: sp })
}

fn one_binding(b: LetBinding) -> (v: Vec<LetBinding>)
    ensures
        bindings_view(v@) == seq![binding_view(b)],
{
    let mut v: Vec<LetBinding> = Vec::new();
    v.push(b);
    proof {
        lemma_bindings_view_push(Seq::empty(), b);
        assert(Seq::<LetBinding>::empty().push(b) =~= v@);
        assert(bindings_view(Seq::<LetBinding>::empty()).push(binding_view(b)) =~= seq![binding_view(b)]);
    }
    v
}

fn parse_let_bindings_from(e: &SExpr, diags: &mut Diagnostics) -> (r: Result<Vec<LetBinding>, Diagnostic>)
    ensures
        (bindings_res(r), final(diags)@) == spec_binding_from(e@, old(diags)@),
    decreases e, 1nat,
{
    let span = e.span();
    match e {
        SExpr::List(items, _) => {
            proof {
                lemma_sexprs_view(items@);
                assert(decreases_to!(*e => *items));
            }
            if items.len() == 0 {
                return Err(Diagnostic::error_str("expected let binding list", span));
            }
            match &items[0] {
                SExpr::BracketList(pitems, _) => {
                    return parse_list_destructure(items, pitems, span, diags);
                },
                SExpr::List(pitems, _) => {
                    if pitems.len() > 0 && all_symbols_exec(pitems) {
                        return parse_map_destructure(items, pitems, span, diags);
                    }
                },
                _ => {},
            }
            if items.len() < 4 {
                return Err(Diagnostic::error_str("let binding requires (name : Type value)", span));
            }
            let name = expect_symbol(&items[0])?;
            let ty = parse_type(&items[2])?;
            proof {
                assert(decreases_to!(*items => items@));
                assert(decreases_to!(items@ => items@[3]));
            }
            let value = parse_expr(&items[3], diags)?;
            Ok(one_binding(LetBinding { name, ty, value, span }))
        },
        _ => Err(Diagnostic::error_str("expected let binding list", span)),
    }
}

fn parse_list_destructure(items: &Vec<SExpr>, pitems: &Vec<SExpr>, span: Span, diags: &mut Diagnostics)
    -> (r: Result<Vec<LetBinding>, Diagnostic>)
    ensures
        (bindings_res(r), final(diags)@) == spec_list_destructure(sexprs_view(items@), sexprs_view(pitems@), span, old(diags)@),
    decreases items, 1nat,
{
    proof {
        lemma_sexprs_view(items@);
    }
    if items.len() >= 4 && is_colon(&items[1]) {
        let _ty = parse_type(&items[2])?;
        parse_destructure_value(items, 3, pitems, span, diags)
    } else if items.len() >= 2 {
        parse_destructure_value(items, 1, pitems, span, diags)
    } else {
        Err(Diagnostic::error_str("list destructure binding missing value", span))
    }
}

#[verifier::loop_isolation(false)]
fn parse_destructure_value(items: &Vec<SExpr>, k: usize, pitems: &Vec<SExpr>, span: Span, diags: &mut Diagnostics)
    -> (r: Result<Vec<LetBinding>, Diagnostic>)
    requires
        k < old(diags)@.items.len() + items@.len() + 1,
        k < items@.len(),
    ensures
        (bindings_res(r), final(diags)@) == spec_destructure_value(sexprs_view(items@), k as int, sexprs_view(pitems@), span, old(diags)@),
    decreases items, 0nat,
{
    let ghost psv = sexprs_view(pitems@);
    proof {
        lemma_sexprs_view(items@);
        lemma_sexprs_view(pitems@);
        reveal_strlit("&");
        assert(decreases_to!(*items => items@));
        assert(decreases_to!(items@ => items@[k as int]));
    }
    let gs = gensym(diags);
    let v = parse_expr(&items[k], diags)?;
    let mut bs = one_binding(LetBinding { name: gs.clone(), ty: wild(span), value: v, span });
    let ghost start = bs@;
    let mut idx: usize = 0;
    let mut i: usize = 0;
    while i < pitems.len()
        invariant
            i <= pitems@.len(),
            idx <= i,
            spec_list_pattern(psv, 0, 0, bindings_view(start), gs@, span)
                == spec_list_pattern(psv, i as nat, idx as nat, bindings_view(bs@), gs@, span),
        decreases pitems@.len() - i,
    {
        let amp = match pitems[i].as_symbol() {
            Some(s) => str_eq(s, "&"),
            None => false,
        };
        if amp {
            if i + 1 >= pitems.len() {
                return Err(Diagnostic::error_str("& in let pattern requires a name after it", span));
            }
            let rest_name = expect_symbol(&pitems[i + 1])?;
            let value = call_expr("drop", Expr { kind: ExprKind::IntLit(idx as i64), span }, sym(gs.clone(), span), span);
            let b = LetBinding { name: rest_name, ty: wild(span), value, span };
            proof {
                lemma_bindings_view_push(bs@, b);
            }
            bs.push(b);
            i += 2;
        } else {
            let n = expect_symbol(&pitems[i])?;
            let value = call_expr("at", sym(gs.clone(), span), Expr { kind: ExprKind::IntLit(idx as i64), span }, span);
            let b = LetBinding { name: n, ty: wild(span), value, span };
            proof {
                lemma_bindings_view_push(bs@, b);
            }
            bs.push(b);
            idx += 1;
            i += 1;
        }
    }
    Ok(bs)
}

#[verifier::loop_isolation(false)]
fn parse_map_destructure(items: &Vec<SExpr>, pitems: &Vec<SExpr>, span: Span, diags: &mut Diagnostics)
    -> (r: Result<Vec<LetBinding>, Diagnostic>)
    ensures
        (bindings_res(r), final(diags)@) == spec_map_destructure(sexprs_view(items@), sexprs_view(pitems@), span, old(diags)@),
    decreases items, 1nat,
{
    let ghost psv = sexprs_view(pitems@);
    proof {
        lemma_sexprs_view(items@);
        lemma_sexprs_view(pitems@);
    }
    if items.len() < 2 {
        return Err(Diagnostic::error_str("map destructure binding missing value", span));
    }
    proof {
        assert(decreases_to!(*items => items@));
        assert(decreases_to!(items@ => items@[1]));
    }
    let gs = gensym(diags);
    let v = parse_expr(&items[1], diags)?;
    let mut bs = one_binding(LetBinding { name: gs.clone(), ty: wild(span), value: v, span });
    let ghost start = bs@;
    let mut i: usize = 0;
    while i < pitems.len()
        invariant
            i <= pitems@.len(),
            spec_map_pattern(psv, 0, bindings_view(start), gs@, span)
                == spec_map_pattern(psv, i as nat, bindings_view(bs@), gs@, span),
        decreases pitems@.len() - i,
    {
        let key = expect_symbol(&pitems[i])?;
        let value = call_expr("map-get", sym(gs.clone(), span), Expr { kind: ExprKind::StrLit(key.clone()), span }, span);
        let b = LetBinding { name: key, ty: wild(span), value, span };
        proof {
            lemma_bindings_view_push(bs@, b);
        }
        bs.push(b);
        i += 1;
    }
    Ok(bs)
}

// ── match ───────────────────────────────────────────────────────────

#[verifier::loop_isolation(false)]
fn parse_match_expr(items: &Vec<SExpr>, sp: Span, diags: &mut Diagnostics) -> (r: Result<Expr, Diagnostic>)
    ensures
        (expr_res(r), final(diags)@) == spec_match(sexprs_view(items@), sp, old(diags)@),
    decreases items, 1nat,
{
    let ghost sv = sexprs_view(items@);
    proof {
        lemma_sexprs_view(items@);
        assert(decreases_to!(*items => items@));
    }
    if items.len() <= 1 {
        return Err(Diagnostic::error_str("match requires a scrutinee", sp));
    }
    proof {
        assert(decreases_to!(items@ => items@[1]));
    }
    let scr = parse_expr(&items[1], diags)?;
    if (items.len() - 2) % 2 != 0 {
        return Err(Diagnostic::error_str("match arms must come in pattern/body pairs", sp));
    }
    let ghost s1 = diags@;
    let mut arms: Vec<MatchArm> = Vec::new();
    let mut i: usize = 2;
    assert(arms_view(arms@) =~= Seq::<SpecMatchArm>::empty());
    while i < items.len()
        invariant
            2 <= i <= items@.len(),
            (items@.len() - i) % 2 == 0,
            spec_arms(sv, 2, Seq::empty(), s1) == spec_arms(sv, i as nat, arms_view(arms@), diags@),
        decreases items@.len() - i,
    {
        let p = parse_pattern(&items[i])?;
        proof {
            assert(decreases_to!(items@ => items@[i + 1]));
        }
        let b = parse_expr(&items[i + 1], diags)?;
        let arm_span = items[i].span().merge(items[i + 1].span());
        let arm = MatchArm { pattern: p, body: b, span: arm_span };
        proof {
            lemma_arms_view_push(arms@, arm);
        }
        arms.push(arm);
        i += 2;
    }
    Ok(Expr { kind: ExprKind::Match(Box::new(scr), arms), span: sp })
}

// ── fn and parameters ───────────────────────────────────────────────

fn parse_lambda_expr(items: &Vec<SExpr>, sp: Span, diags: &mut Diagnostics) -> (r: Result<Expr, Diagnostic>)
    ensures
        (expr_res(r), final(diags)@) == spec_lambda(sexprs_view(items@), sp, old(diags)@),
    decreases items, 1nat,
{
    proof {
        lemma_sexprs_view(items@);
        assert(decreases_to!(*items => items@));
    }
    if items.len() < 3 {
        return Err(Diagnostic::error_str("fn requires params and body", sp));
    }
    proof {
        assert(decreases_to!(items@ => items@[1]));
        assert(decreases_to!(items@ => items@[2]));
    }
    let params = parse_lambda_params(&items[1], diags)?;
    let body = parse_expr(&items[2], diags)?;
    if items.len() > 3 {
        let m = count_message("fn has ", items.len() - 3, " extra expression(s) after body that will be ignored");
        diags.add(Diagnostic::warning(m, items[3].span()));
    }
    Ok(Expr { kind: ExprKind::Lambda(params, Box::new(body)), span: sp })
}

#[verifier::loop_isolation(false)]
fn parse_lambda_params(e: &SExpr, diags: &mut Diagnostics) -> (r: Result<Vec<Param>, Diagnostic>)
    ensures
        (params_res(r), final(diags)@) == spec_lambda_params(e@, old(diags)@),
    decreases e, 1nat,
{
    match e {
        SExpr::BracketList(items, _) => {
            let ghost sv = sexprs_view(items@);
            let ghost st0 = diags@;
            proof {
                lemma_sexprs_view(items@);
                assert(decreases_to!(*e => *items));
                assert(decreases_to!(*items => items@));
            }
            let mut params: Vec<Param> = Vec::new();
            let mut i: usize = 0;
            assert(params_view(params@) =~= Seq::<SpecParam>::empty());
            while i < items.len()
                invariant
                    i <= items@.len(),
                    spec_lparams_acc(sv, 0, Seq::empty(), st0) == spec_lparams_acc(sv, i as nat, params_view(params@), diags@),
                decreases items@.len() - i,
            {
                let p = match &items[i] {
                    SExpr::Atom(Atom { kind: AtomKind::Symbol(s), span }) => {
                        Param { ownership: Ownership::Default, name: s.clone(), ty: wild(*span), default: None, span: *span }
                    },
                    SExpr::List(_, _) => {
                        proof {
                            assert(decreases_to!(items@ => items@[i as int]));
                        }
                        parse_param(&items[i], diags)?
                    },
                    _ => {
                        return Err(Diagnostic::error_str("expected parameter", items[i].span()));
                    },
                };
                proof {
                    lemma_params_view_push(params@, p);
                }
                params.push(p);
                i += 1;
            }
            Ok(params)
        },
        _ => Err(Diagnostic::error_str("expected bracket list for parameters", e.span())),
    }
}

fn ownership_word_exec(e: &SExpr) -> (o: Option<Ownership>)
    ensures
        o == ownership_word(e@),
{
    proof {
        reveal_strlit("own");
        reveal_strlit("ref");
        reveal_strlit("mut");
        reveal_strlit("copy");
    }
    match e.as_symbol() {
        Some(s) => if str_eq(s, "own") {
            Some(Ownership::Own)
        } else if str_eq(s, "ref") {
            Some(Ownership::Ref)
        } else if str_eq(s, "mut") {
            Some(Ownership::Mut)
        } else if str_eq(s, "copy") {
            Some(Ownership::Copy)
        } else {
            None
        },
        None => None,
    }
}

/// `([own|ref|mut|copy] name : Type [default])`.
pub fn parse_param(e: &SExpr, diags: &mut Diagnostics) -> (r: Result<Param, Diagnostic>)
    ensures
        (param_res(r), final(diags)@) == spec_param(e@, old(diags)@),
    decreases e, 1nat,
{
    let span = e.span();
    match e {
        SExpr::List(items, _) => {
            proof {
                lemma_sexprs_view(items@);
                assert(decreases_to!(*e => *items));
                assert(decreases_to!(*items => items@));
            }
            if items.len() < 3 {
                return Err(Diagnostic::error_str("param requires at least (name : Type)", span));
            }
            let own = ownership_word_exec(&items[0]);
            let i0: usize = if own.is_some() { 1 } else { 0 };
            let ownership = match own {
                Some(o) => o,
                None => Ownership::Default,
            };
            let name = expect_symbol(&items[i0])?;
            if i0 + 1 >= items.len() || !is_colon(&items[i0 + 1]) {
                return Err(Diagnostic::error_str("expected ':' in param", span));
            }
            if i0 + 2 >= items.len() {
                return Err(Diagnostic::error_str("expected type in param", span));
            }
            let (ty, c) = parse_type_from_slice(items.as_slice(), i0 + 2)?;
            proof {
                crate::parser::lemma_from_slice_consumes(sexprs_view(items@), i0 + 2);
            }
            let j = i0 + 2 + c;
            if j < items.len() {
                proof {
                    assert(decreases_to!(items@ => items@[j as int]));
                }
                let dv = parse_expr(&items[j], diags)?;
                Ok(Param { ownership, name, ty, default: Some(dv), span })
            } else {
                Ok(Param { ownership, name, ty, default: None, span })
            }
        },
        _ => Err(Diagnostic::error_str("expected parameter list", span)),
    }
}

// ── Quantifiers ─────────────────────────────────────────────────────

fn quant_message(is_forall: bool, tail: &str) -> (m: String)
    ensures
        m@ == quant_word(is_forall) + tail@,
{
    let mut m = if is_forall { String::from_str("forall") } else { String::from_str("exists") };
    m.append(tail);
    m
}

#[verifier::rlimit(40)]
fn parse_quantifier_expr(items: &Vec<SExpr>, sp: Span, is_forall: bool, diags: &mut Diagnostics) -> (r: Result<Expr, Diagnostic>)
    ensures
        (expr_res(r), final(diags)@) == spec_quant(sexprs_view(items@), sp, is_forall, old(diags)@),
    decreases items, 1nat,
{
    proof {
        lemma_sexprs_view(items@);
        reveal_strlit("where");
        assert(decreases_to!(*items => items@));
    }
    if items.len() < 3 {
        return Err(Diagnostic::error(quant_message(is_forall, " requires a parameter list and body"), sp));
    }
    let param = match &items[1] {
        SExpr::BracketList(pi, psp) => {
            proof {
                lemma_sexprs_view(pi@);
            }
            if pi.len() < 3 {
                return Err(Diagnostic::error(quant_message(is_forall, " parameter requires [name : Type]"), *psp));
            }
            let pname = expect_symbol(&pi[0])?;
            if !is_colon(&pi[1]) {
                return Err(Diagnostic::error_str("expected ':' in parameter", *psp));
            }
            let tn = expect_symbol(&pi[2])?;
            Param {
                ownership: Ownership::Default,
                name: pname,
                ty: AstType { kind: AstTypeKind::Named(tn), span: *psp },
                default: None,
                span: *psp,
            }
        },
        _ => {
            return Err(Diagnostic::error(quant_message(is_forall, " requires [name : Type] parameter list"), sp));
        },
    };
    let mut guard: Option<Box<Expr>> = None;
    let mut bi: usize = 2;
    if items.len() >= 4 {
        match &items[2] {
            SExpr::List(inner, _) => {
                proof {
                    lemma_sexprs_view(inner@);
                }
                let is_where = inner.len() > 0 && match inner[0].as_symbol() {
                    Some(w) => str_eq(w, "where"),
                    None => false,
                };
                if is_where {
                    if inner.len() != 2 {
                        return Err(Diagnostic::error_str("where clause requires exactly one expression", sp));
                    }
                    proof {
                        assert(decreases_to!(items@ => items@[2]));
                        assert(decreases_to!(items@[2] => *inner));
                        assert(decreases_to!(*inner => inner@));
                        assert(decreases_to!(inner@ => inner@[1]));
                    }
                    let g = parse_expr(&inner[1], diags)?;
                    guard = Some(Box::new(g));
                    bi = 3;
                }
            },
            _ => {},
        }
    }
    parse_quant_body(items, bi, sp, is_forall, param, guard, diags)
}

fn parse_quant_body(items: &Vec<SExpr>, bi: usize, sp: Span, is_forall: bool, param: Param, guard: Option<Box<Expr>>,
    diags: &mut Diagnostics) -> (r: Result<Expr, Diagnostic>)
    ensures
        (expr_res(r), final(diags)@) == spec_quant_body(sexprs_view(items@), bi as int, sp, is_forall, param_view(param),
            crate::ast::opt_expr_box_view(guard), old(diags)@),
    decreases items, 0nat,
{
    proof {
        lemma_sexprs_view(items@);
        assert(decreases_to!(*items => items@));
    }
    if bi >= items.len() {
        return Err(Diagnostic::error(quant_message(is_forall, " requires a body expression"), sp));
    }
    proof {
        assert(decreases_to!(items@ => items@[bi as int]));
    }
    let body = parse_expr(&items[bi], diags)?;
    let kind = if is_forall {
        ExprKind::Forall(Box::new(param), guard, Box::new(body))
    } else {
        ExprKind::Exists(Box::new(param), guard, Box::new(body))
    };
    Ok(Expr { kind, span: sp })
}

// ── Threading macros ────────────────────────────────────────────────

#[verifier::loop_isolation(false)]
fn parse_thread(items: &Vec<SExpr>, sp: Span, last: bool, diags: &mut Diagnostics) -> (r: Result<Expr, Diagnostic>)
    ensures
        (expr_res(r), final(diags)@) == spec_thread(sexprs_view(items@), sp, last, old(diags)@),
    decreases items, 1nat,
{
    let ghost sv = sexprs_view(items@);
    proof {
        lemma_sexprs_view(items@);
        assert(decreases_to!(*items => items@));
    }
    if items.len() < 2 {
        let m = if last { "->> requires at least one argument" } else { "-> requires at least one argument" };
        return Err(Diagnostic::error_str(m, sp));
    }
    proof {
        assert(decreases_to!(items@ => items@[1]));
    }
    let mut acc = parse_expr(&items[1], diags)?;
    let ghost seed = expr_view(acc);
    let ghost s1 = diags@;
    let mut i: usize = 2;
    while i < items.len()
        invariant
            2 <= i <= items@.len(),
            spec_thread_steps(sv, 2, seed, last, s1) == spec_thread_steps(sv, i as nat, expr_view(acc), last, diags@),
        decreases items@.len() - i,
    {
        proof {
            assert(decreases_to!(items@ => items@[i as int]));
        }
        acc = thread_step(acc, &items[i], last, diags)?;
        i += 1;
    }
    Ok(acc)
}

fn thread_step(acc: Expr, step: &SExpr, last: bool, diags: &mut Diagnostics) -> (r: Result<Expr, Diagnostic>)
    ensures
        (expr_res(r), final(diags)@) == spec_thread_step(expr_view(acc), step@, last, old(diags)@),
    decreases step, 1nat,
{
    let ssp = step.span();
    match step {
        SExpr::Atom(Atom { kind: AtomKind::Symbol(s), span }) => {
            let f = sym(s.clone(), *span);
            let mut args: Vec<Expr> = Vec::new();
            args.push(acc);
            proof {
                lemma_exprs_view_push(Seq::empty(), acc);
                assert(Seq::<Expr>::empty().push(acc) =~= args@);
                assert(exprs_view(Seq::<Expr>::empty()).push(expr_view(acc)) =~= seq![expr_view(acc)]);
            }
            Ok(Expr { kind: ExprKind::FnCall(Box::new(f), args), span: ssp })
        },
        SExpr::List(elems, _) => {
            proof {
                lemma_sexprs_view(elems@);
                assert(decreases_to!(*step => *elems));
                assert(decreases_to!(*elems => elems@));
            }
            if elems.len() == 0 {
                return Err(Diagnostic::error_str("threading macro step must be a symbol or list", ssp));
            }
            proof {
                assert(decreases_to!(elems@ => elems@[0]));
            }
            let f = parse_expr(&elems[0], diags)?;
            let mut extra = parse_exprs_from(elems, 1, diags)?;
            let ghost ex = extra@;
            let args = if last {
                proof {
                    lemma_exprs_view_push(extra@, acc);
                }
                extra.push(acc);
                extra
            } else {
                let mut a: Vec<Expr> = Vec::new();
                a.push(acc);
                proof {
                    lemma_exprs_view_push(Seq::empty(), acc);
                    assert(Seq::<Expr>::empty().push(acc) =~= a@);
                    assert(exprs_view(Seq::<Expr>::empty()).push(expr_view(acc)) =~= seq![expr_view(acc)]);
                    lemma_exprs_view_concat(a@, ex);
                }
                a.append(&mut extra);
                a
            };
            Ok(Expr { kind: ExprKind::FnCall(Box::new(f), args), span: ssp })
        },
        _ => Err(Diagnostic::error_str("threading macro step must be a symbol or list", ssp)),
    }
}

} // verus!
