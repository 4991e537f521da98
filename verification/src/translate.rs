//! Translating contract expressions into solver terms: integer, real, boolean
//! and string contexts, `let` and `match` scoping, quantifiers, comparisons
//! across sorts and uninterpreted calls of user functions.
use vstd::prelude::*;
use crate::span::Span;
use crate::ast::{Expr, ExprKind, LetBinding, MatchArm, Param, Pattern, PatternKind, LitPattern, AstType, AstTypeKind,
    SpecExpr, SpecExprKind, SpecLetBinding, SpecMatchArm, SpecParam, SpecPattern, SpecPatternKind, SpecLitPattern,
    SpecAstType, SpecTypeKind, expr_view, exprs_view, bindings_view, arms_view, param_view, params_view,
    ast_type_view, opt_expr_box_view, binding_view, arm_view};
use crate::smt::{VarSort, SmtOp, Term, SpecTerm, TermMap, term_view, terms_view};
use crate::solver::TranslateError;
use crate::text::{str_eq, decimal, decimal_int, u64_to_string, i64_to_string};
use crate::debug_text::{expr_kind_debug, type_debug, expr_kind_debug_text, type_debug_text};

verus! {

// ── The model ───────────────────────────────────────────────────────

pub enum SpecTErr {
    Expr(Seq<char>),
    Type(Seq<char>),
    Undef(Seq<char>),
}

pub open spec fn terr_view(e: TranslateError) -> SpecTErr {
    match e {
        TranslateError::UnsupportedExpression(s) => SpecTErr::Expr(s@),
        TranslateError::UnsupportedType(s) => SpecTErr::Type(s@),
        TranslateError::UndefinedVariable(s) => SpecTErr::Undef(s@),
    }
}

/// The translator's variables by sort, and the count of fresh names handed out.
pub struct TrState {
    pub ints: Map<Seq<char>, SpecTerm>,
    pub bools: Map<Seq<char>, SpecTerm>,
    pub reals: Map<Seq<char>, SpecTerm>,
    pub strs: Map<Seq<char>, SpecTerm>,
    pub seqs: Map<Seq<char>, SpecTerm>,
    pub counter: u64,
}

pub open spec fn vars_of(st: TrState, k: VarSort) -> Map<Seq<char>, SpecTerm> {
    match k {
        VarSort::Int => st.ints,
        VarSort::Bool => st.bools,
        VarSort::Real => st.reals,
        VarSort::Str => st.strs,
        VarSort::IntSeq => st.seqs,
    }
}

pub open spec fn with_vars(st: TrState, k: VarSort, m: Map<Seq<char>, SpecTerm>) -> TrState {
    match k {
        VarSort::Int => TrState { ints: m, ..st },
        VarSort::Bool => TrState { bools: m, ..st },
        VarSort::Real => TrState { reals: m, ..st },
        VarSort::Str => TrState { strs: m, ..st },
        VarSort::IntSeq => TrState { seqs: m, ..st },
    }
}

/// Binds `name` in the table of sort `k`.
pub open spec fn bind(st: TrState, k: VarSort, name: Seq<char>, t: SpecTerm) -> TrState {
    with_vars(st, k, vars_of(st, k).insert(name, t))
}

/// What `name` was bound to in the table of sort `k`.
pub open spec fn prior(st: TrState, k: VarSort, name: Seq<char>) -> Option<SpecTerm> {
    if vars_of(st, k).contains_key(name) { Some(vars_of(st, k)[name]) } else { None }
}

/// Puts back a binding saved by `prior`.
pub open spec fn restore(st: TrState, k: VarSort, name: Seq<char>, prev: Option<SpecTerm>) -> TrState {
    match prev {
        Some(t) => with_vars(st, k, vars_of(st, k).insert(name, t)),
        None => with_vars(st, k, vars_of(st, k).remove(name)),
    }
}

/// Puts back every saved binding, the latest first.
pub open spec fn restore_all(st: TrState, saved: Seq<(VarSort, Seq<char>, Option<SpecTerm>)>) -> TrState
    decreases saved.len(),
{
    if saved.len() == 0 {
        st
    } else {
        restore_all(restore(st, saved.last().0, saved.last().1, saved.last().2), saved.drop_last())
    }
}

pub open spec fn next_counter(c: u64) -> u64 {
    if c == u64::MAX { 0 } else { (c + 1) as u64 }
}

/// The sort an AIRL type name is given.
pub open spec fn sort_of_type_name(n: Seq<char>) -> Option<VarSort> {
    if n == "i8"@ || n == "i16"@ || n == "i32"@ || n == "i64"@ || n == "u8"@ || n == "u16"@ || n == "u32"@
        || n == "u64"@ || n == "Nat"@ {
        Some(VarSort::Int)
    } else if n == "bool"@ {
        Some(VarSort::Bool)
    } else if n == "f16"@ || n == "f32"@ || n == "f64"@ || n == "bf16"@ {
        Some(VarSort::Real)
    } else if n == "String"@ || n == "str"@ {
        Some(VarSort::Str)
    } else if n == "List"@ {
        Some(VarSort::IntSeq)
    } else {
        None
    }
}

/// The sort of a named type; `None` for other types.
pub open spec fn sort_of_type(t: SpecAstType) -> Option<VarSort> {
    match t.kind {
        SpecTypeKind::Named(n) => sort_of_type_name(n),
        _ => None,
    }
}

pub open spec fn unsupported(msg: Seq<char>) -> SpecTErr {
    SpecTErr::Expr(msg)
}

/// The message for an expression no rule of a context covers.
pub open spec fn other_msg(k: VarSort, e: SpecExpr) -> Seq<char> {
    match k {
        VarSort::Int => "int context: "@ + expr_kind_debug(e),
        VarSort::Real => "real context: "@ + expr_kind_debug(e),
        VarSort::Str => "string context: "@ + expr_kind_debug(e),
        _ => expr_kind_debug(e),
    }
}

pub open spec fn lambda_msg() -> Seq<char> {
    "lambda expressions cannot appear in Z3 contracts (must be immediately applied)"@
}

/// First position of a NUL character.
pub open spec fn nul_at(s: Seq<char>) -> Option<int> {
    if exists|i: int| 0 <= i < s.len() && s[i] == '\0' {
        Some(choose|i: int| 0 <= i < s.len() && s[i] == '\0' && forall|j: int| 0 <= j < i ==> s[j] != '\0')
    } else {
        None
    }
}

/// `c` is the lower-case letter `lc` in either case.
pub open spec fn ci_eq(c: char, lc: char) -> bool {
    c == lc || (c as u32) + 32 == (lc as u32)
}

pub open spec fn same_ignoring_case(a: Seq<char>, lower: Seq<char>) -> bool {
    a.len() == lower.len() && forall|i: int| 0 <= i < a.len() ==> ci_eq(#[trigger] a[i], lower[i])
}

/// A float literal's text without its sign.
pub open spec fn unsigned_part(t: Seq<char>) -> Seq<char> {
    if t.len() > 0 && (t[0] == '+' || t[0] == '-') { t.drop_first() } else { t }
}

/// The text reads as NaN.
pub open spec fn float_text_is_nan(t: Seq<char>) -> bool {
    same_ignoring_case(unsigned_part(t), "nan"@)
}

/// The text reads as an infinity.
pub open spec fn float_text_is_inf(t: Seq<char>) -> bool {
    same_ignoring_case(unsigned_part(t), "inf"@) || same_ignoring_case(unsigned_part(t), "infinity"@)
}

pub open spec fn fits_i32(v: i64) -> bool {
    i32::MIN <= v <= i32::MAX
}

pub open spec fn app(op: SmtOp, args: Seq<SpecTerm>) -> SpecTerm {
    SpecTerm::App(op, args)
}

/// `a = b`, or its negation.
pub open spec fn eq_term(l: SpecTerm, r: SpecTerm, negate: bool) -> SpecTerm {
    if negate { app(SmtOp::Not, seq![app(SmtOp::Eq, seq![l, r])]) } else { app(SmtOp::Eq, seq![l, r]) }
}

pub open spec fn to_real(t: SpecTerm) -> SpecTerm {
    app(SmtOp::ToReal, seq![t])
}

/// An operator call whose operator the translator indexes into.
pub open spec fn min_arity(op: Seq<char>) -> nat {
    if op == "="@ || op == "!="@ || op == "<"@ || op == ">"@ || op == "<="@ || op == ">="@ || op == "and"@
        || op == "or"@ || op == "string-contains?"@ || op == "string-prefix?"@ || op == "string-suffix?"@
        || op == "list-contains?"@ || op == "/"@ || op == "%"@ {
        2
    } else if op == "not"@ || op == "string-length"@ || op == "length"@ {
        1
    } else {
        0
    }
}

/// Every operator call the translator may reach has the operands it reads.
pub open spec fn arity_ok(e: SpecExpr) -> bool
    decreases e, 1nat,
{
    match e.kind {
        SpecExprKind::FnCall(f, args) => (match f.kind {
            SpecExprKind::SymbolRef(op) => args.len() >= min_arity(op),
            _ => true,
        }) && arity_ok_all(args),
        SpecExprKind::If(c, t, f) => arity_ok(*c) && arity_ok(*t) && arity_ok(*f),
        SpecExprKind::Let(bs, body) => arity_ok_bindings(bs) && arity_ok(*body),
        SpecExprKind::Do(es) => arity_ok_all(es),
        SpecExprKind::Match(s, arms) => arity_ok(*s) && arity_ok_arms(arms),
        SpecExprKind::Forall(_, g, b) => arity_ok_guard(g) && arity_ok(*b),
        SpecExprKind::Exists(_, g, b) => arity_ok_guard(g) && arity_ok(*b),
        _ => true,
    }
}

pub open spec fn arity_ok_guard(g: Option<Box<SpecExpr>>) -> bool
    decreases g, 0nat,
{
    match g {
        Some(x) => arity_ok(*x),
        None => true,
    }
}

pub open spec fn arity_ok_all(s: Seq<SpecExpr>) -> bool
    decreases s, 0nat,
{
    if s.len() == 0 {
        true
    } else {
        arity_ok_all(s.drop_last()) && arity_ok(s.last())
    }
}

pub open spec fn arity_ok_bindings(s: Seq<SpecLetBinding>) -> bool
    decreases s, 0nat,
{
    if s.len() == 0 {
        true
    } else {
        arity_ok_bindings(s.drop_last()) && arity_ok(s.last().value)
    }
}

pub open spec fn arity_ok_arms(s: Seq<SpecMatchArm>) -> bool
    decreases s, 0nat,
{
    if s.len() == 0 {
        true
    } else {
        arity_ok_arms(s.drop_last()) && arity_ok(s.last().body)
    }
}

/// A translation's outcome and the state after it.
pub type Tr = (Result<SpecTerm, SpecTErr>, TrState);

pub type TrList = (Result<Seq<SpecTerm>, SpecTErr>, TrState);

pub open spec fn bad(st: TrState, msg: Seq<char>) -> Tr {
    (Err(SpecTErr::Expr(msg)), st)
}

// ── The translation ─────────────────────────────────────────────────

/// Translating `e` in context `k` (integer, real, boolean or string) from
/// state `st`.
pub open spec fn tr(k: VarSort, st: TrState, e: SpecExpr) -> Tr
    decreases e, 9nat, 0nat,
{
    match e.kind {
        SpecExprKind::IntLit(v) => match k {
            VarSort::Int => (Ok(SpecTerm::Int(v)), st),
            VarSort::Real => if fits_i32(v) {
                (Ok(SpecTerm::Real(v, 1)), st)
            } else {
                bad(st, "integer literal "@ + decimal_int(v as int) + " is too large for Z3 Real context"@)
            },
            _ => bad(st, other_msg(k, e)),
        },
        SpecExprKind::FloatLit(t) => match k {
            VarSort::Real => if float_text_is_nan(t) {
                bad(st, "NaN cannot be represented as a Z3 Real"@)
            } else if float_text_is_inf(t) {
                bad(st, "Infinity cannot be represented as a Z3 Real"@)
            } else {
                (Ok(SpecTerm::FloatText(t)), st)
            },
            _ => bad(st, other_msg(k, e)),
        },
        SpecExprKind::StrLit(s) => match k {
            VarSort::Str => match nul_at(s) {
                Some(i) => bad(st, "string literal contains null byte: nul byte found in provided data at position: "@
                    + decimal(i as nat)),
                None => (Ok(SpecTerm::Str(s)), st),
            },
            _ => bad(st, other_msg(k, e)),
        },
        SpecExprKind::BoolLit(b) => match k {
            VarSort::Bool => (Ok(SpecTerm::Bool(b)), st),
            _ => bad(st, other_msg(k, e)),
        },
        SpecExprKind::SymbolRef(n) => if vars_of(st, k).contains_key(n) {
            (Ok(vars_of(st, k)[n]), st)
        } else {
            (Err(SpecTErr::Undef(n)), st)
        },
        SpecExprKind::FnCall(f, args) => match f.kind {
            SpecExprKind::SymbolRef(op) => tr_op(k, st, op, args),
            _ => bad(st, "non-symbol callee"@),
        },
        SpecExprKind::If(c, t, f) => {
            let (rc, s1) = tr(VarSort::Bool, st, *c);
            match rc {
                Err(x) => (Err(x), s1),
                Ok(ct) => {
                    let (rt, s2) = tr(k, s1, *t);
                    match rt {
                        Err(x) => (Err(x), s2),
                        Ok(tt) => {
                            let (rf, s3) = tr(k, s2, *f);
                            match rf {
                                Err(x) => (Err(x), s3),
                                Ok(ft) => (Ok(app(SmtOp::Ite, seq![ct, tt, ft])), s3),
                            }
                        },
                    }
                },
            }
        },
        SpecExprKind::Let(bs, body) => tr_let(k, st, e),
        SpecExprKind::Do(es) => if es.len() == 0 {
            bad(st, "empty do block"@)
        } else {
            tr(k, st, es.last())
        },
        SpecExprKind::Lambda(_, _) => match k {
            VarSort::Str => bad(st, other_msg(k, e)),
            _ => bad(st, lambda_msg()),
        },
        SpecExprKind::Match(_, _) => match k {
            VarSort::Str => bad(st, other_msg(k, e)),
            _ => tr_match(k, st, e),
        },
        SpecExprKind::Forall(_, _, _) => match k {
            VarSort::Bool => tr_quant(st, e, true),
            _ => bad(st, other_msg(k, e)),
        },
        SpecExprKind::Exists(_, _, _) => match k {
            VarSort::Bool => tr_quant(st, e, false),
            _ => bad(st, other_msg(k, e)),
        },
        _ => bad(st, other_msg(k, e)),
    }
}

/// Translating two operands in context `k`, then combining them with `op`.
pub open spec fn tr_binary(k: VarSort, st: TrState, args: Seq<SpecExpr>, op: SmtOp) -> Tr
    decreases args, 7nat, 0nat,
{
    if args.len() < 2 {
        (Err(SpecTErr::Expr(Seq::empty())), st)
    } else {
        let (ra, s1) = tr(k, st, args[0]);
        match ra {
            Err(x) => (Err(x), s1),
            Ok(a) => {
                let (rb, s2) = tr(k, s1, args[1]);
                match rb {
                    Err(x) => (Err(x), s2),
                    Ok(b) => (Ok(app(op, seq![a, b])), s2),
                }
            },
        }
    }
}

/// Translating one operand in context `k`, then applying `op` to it.
pub open spec fn tr_unary(k: VarSort, st: TrState, args: Seq<SpecExpr>, op: SmtOp) -> Tr
    decreases args, 7nat, 0nat,
{
    if args.len() < 1 {
        (Err(SpecTErr::Expr(Seq::empty())), st)
    } else {
        let (ra, s1) = tr(k, st, args[0]);
        match ra {
            Err(x) => (Err(x), s1),
            Ok(a) => (Ok(app(op, seq![a])), s1),
        }
    }
}

/// Translating all operands in context `k`, in order, up to the first failure.
pub open spec fn tr_list(k: VarSort, st: TrState, args: Seq<SpecExpr>) -> TrList
    decreases args, 5nat, 0nat,
{
    if args.len() == 0 {
        (Ok(Seq::empty()), st)
    } else {
        let (rs, s1) = tr_list(k, st, args.drop_last());
        match rs {
            Err(x) => (Err(x), s1),
            Ok(ts) => {
                let (r, s2) = tr(k, s1, args.last());
                match r {
                    Err(x) => (Err(x), s2),
                    Ok(t) => (Ok(ts.push(t)), s2),
                }
            },
        }
    }
}

pub open spec fn tr_nary(k: VarSort, st: TrState, args: Seq<SpecExpr>, op: SmtOp) -> Tr
    decreases args, 7nat, 0nat,
{
    let (rs, s1) = tr_list(k, st, args);
    match rs {
        Err(x) => (Err(x), s1),
        Ok(ts) => (Ok(app(op, ts)), s1),
    }
}

/// A call of a user function the solver knows nothing about: its operands
/// are translated as integers.
pub open spec fn tr_uninterp(st: TrState, name: Seq<char>, args: Seq<SpecExpr>, sort: VarSort) -> Tr
    decreases args, 7nat, 0nat,
{
    match sort {
        VarSort::IntSeq => bad(st, "uninterpreted function '"@ + name + "': Seq return sort not supported"@),
        _ => {
            let (rs, s1) = tr_list(VarSort::Int, st, args);
            match rs {
                Err(x) => (Err(x), s1),
                Ok(ts) => (Ok(SpecTerm::Uninterp(name, sort, ts)), s1),
            }
        },
    }
}

/// The operand named by a symbol, when it is a declared list.
pub open spec fn seq_var(st: TrState, a: SpecExpr) -> Option<SpecTerm> {
    match a.kind {
        SpecExprKind::SymbolRef(n) => if st.seqs.contains_key(n) { Some(st.seqs[n]) } else { None },
        _ => None,
    }
}

pub open spec fn is_bitwise_binary(op: Seq<char>) -> bool {
    op == "bitwise-and"@ || op == "bitwise-or"@ || op == "bitwise-xor"@ || op == "bitwise-shl"@ || op == "bitwise-shr"@
}

pub open spec fn bitwise_op(op: Seq<char>) -> SmtOp {
    if op == "bitwise-and"@ {
        SmtOp::BvAnd
    } else if op == "bitwise-or"@ {
        SmtOp::BvOr
    } else if op == "bitwise-xor"@ {
        SmtOp::BvXor
    } else if op == "bitwise-shl"@ {
        SmtOp::BvShl
    } else {
        SmtOp::BvLshr
    }
}

/// A call of the operator `op` in context `k`.
pub open spec fn tr_op(k: VarSort, st: TrState, op: Seq<char>, args: Seq<SpecExpr>) -> Tr
    decreases args, 8nat, 0nat,
{
    match k {
        VarSort::Bool => if op == "="@ {
            tr_cmp_eq(st, args, false)
        } else if op == "!="@ {
            tr_cmp_eq(st, args, true)
        } else if op == "<"@ {
            tr_cmp_ord(st, args, SmtOp::Lt)
        } else if op == ">"@ {
            tr_cmp_ord(st, args, SmtOp::Gt)
        } else if op == "<="@ {
            tr_cmp_ord(st, args, SmtOp::Le)
        } else if op == ">="@ {
            tr_cmp_ord(st, args, SmtOp::Ge)
        } else if op == "and"@ {
            tr_binary(VarSort::Bool, st, args, SmtOp::And)
        } else if op == "or"@ {
            tr_binary(VarSort::Bool, st, args, SmtOp::Or)
        } else if op == "not"@ {
            tr_unary(VarSort::Bool, st, args, SmtOp::Not)
        } else if op == "string-contains?"@ {
            tr_binary(VarSort::Str, st, args, SmtOp::StrContains)
        } else if op == "string-prefix?"@ {
            tr_binary(VarSort::Str, st, args, SmtOp::StrPrefixOf)
        } else if op == "string-suffix?"@ {
            tr_binary(VarSort::Str, st, args, SmtOp::StrSuffixOf)
        } else if op == "list-contains?"@ && args.len() >= 2 {
            match seq_var(st, args[0]) {
                Some(sv) => {
                    let (re, s1) = tr(VarSort::Int, st, args[1]);
                    match re {
                        Err(x) => (Err(x), s1),
                        Ok(el) => (Ok(app(SmtOp::SeqContainsElem, seq![sv, el])), s1),
                    }
                },
                None => bad(st, "list-contains? requires a declared list/seq variable"@),
            }
        } else if op == "valid"@ {
            bad(st, "valid() predicate is not yet encoded — contracts using valid() are unverified"@)
        } else {
            tr_uninterp(st, op, args, VarSort::Bool)
        },
        VarSort::Int => if op == "+"@ {
            tr_nary(VarSort::Int, st, args, SmtOp::Add)
        } else if op == "-"@ {
            if args.len() == 2 {
                tr_binary(VarSort::Int, st, args, SmtOp::Sub)
            } else if args.len() == 1 {
                let (ra, s1) = tr(VarSort::Int, st, args[0]);
                match ra {
                    Err(x) => (Err(x), s1),
                    Ok(a) => (Ok(app(SmtOp::Mul, seq![SpecTerm::Int(-1i64), a])), s1),
                }
            } else {
                bad(st, "unary minus"@)
            }
        } else if op == "*"@ {
            tr_nary(VarSort::Int, st, args, SmtOp::Mul)
        } else if op == "/"@ {
            tr_binary(VarSort::Int, st, args, SmtOp::Div)
        } else if op == "%"@ {
            tr_binary(VarSort::Int, st, args, SmtOp::Mod)
        } else if op == "string-length"@ {
            tr_unary(VarSort::Str, st, args, SmtOp::StrLen)
        } else if op == "length"@ {
            match seq_var(st, args[0]) {
                Some(sv) => (Ok(app(SmtOp::SeqLen, seq![sv])), st),
                None => bad(st, "length requires a declared list/seq variable"@),
            }
        } else if is_bitwise_binary(op) {
            if args.len() != 2 {
                bad(st, op + " requires exactly 2 arguments"@)
            } else {
                tr_binary(VarSort::Int, st, args, bitwise_op(op))
            }
        } else if op == "bitwise-not"@ {
            if args.len() != 1 {
                bad(st, "bitwise-not requires exactly 1 argument"@)
            } else {
                tr_unary(VarSort::Int, st, args, SmtOp::BvNot)
            }
        } else {
            tr_uninterp(st, op, args, VarSort::Int)
        },
        VarSort::Real => if op == "+"@ {
            tr_nary(VarSort::Real, st, args, SmtOp::Add)
        } else if op == "-"@ {
            if args.len() == 2 {
                tr_binary(VarSort::Real, st, args, SmtOp::Sub)
            } else {
                bad(st, "unary minus"@)
            }
        } else if op == "*"@ {
            tr_nary(VarSort::Real, st, args, SmtOp::Mul)
        } else if op == "/"@ {
            tr_binary(VarSort::Real, st, args, SmtOp::Div)
        } else {
            bad(st, "real context: "@ + op)
        },
        _ => if op == "string-concat"@ || op == "str-concat"@ {
            tr_nary(VarSort::Str, st, args, SmtOp::StrConcat)
        } else {
            bad(st, "string context: "@ + op)
        },
    }
}

/// Both operands translated in context `k`, the right one even when the
/// left one failed.
pub open spec fn tr_pair(kl: VarSort, kr: VarSort, st: TrState, args: Seq<SpecExpr>)
    -> (Option<(SpecTerm, SpecTerm)>, TrState)
    decreases args, 6nat, 0nat,
{
    if args.len() < 2 {
        (None, st)
    } else {
        let (rl, s1) = tr(kl, st, args[0]);
        let (rr, s2) = tr(kr, s1, args[1]);
        match (rl, rr) {
            (Ok(l), Ok(r)) => (Some((l, r)), s2),
            _ => (None, s2),
        }
    }
}

/// A call of one of the comparison operators.
pub open spec fn is_cmp_call(e: SpecExpr) -> bool {
    match e.kind {
        SpecExprKind::FnCall(f, _) => match f.kind {
            SpecExprKind::SymbolRef(op) => op == "="@ || op == "!="@ || op == "<"@ || op == ">"@ || op == "<="@
                || op == ">="@,
            _ => false,
        },
        _ => false,
    }
}

/// `=` (or `!=`): tried as booleans, integers, reals, integer against real,
/// real against integer, then strings.
pub open spec fn tr_cmp_eq(st: TrState, args: Seq<SpecExpr>, negate: bool) -> Tr
    decreases args, 7nat, 0nat,
{
    let (pb, s1) = tr_pair(VarSort::Bool, VarSort::Bool, st, args);
    if pb is Some && !is_cmp_call(args[0]) && !is_cmp_call(args[1]) {
        (Ok(eq_term(pb.unwrap().0, pb.unwrap().1, negate)), s1)
    } else {
        let (pi, s2) = tr_pair(VarSort::Int, VarSort::Int, s1, args);
        if pi is Some {
            (Ok(eq_term(pi.unwrap().0, pi.unwrap().1, negate)), s2)
        } else {
            let (pr, s3) = tr_pair(VarSort::Real, VarSort::Real, s2, args);
            if pr is Some {
                (Ok(eq_term(pr.unwrap().0, pr.unwrap().1, negate)), s3)
            } else {
                let (pir, s4) = tr_pair(VarSort::Int, VarSort::Real, s3, args);
                if pir is Some {
                    (Ok(eq_term(to_real(pir.unwrap().0), pir.unwrap().1, negate)), s4)
                } else {
                    let (pri, s5) = tr_pair(VarSort::Real, VarSort::Int, s4, args);
                    if pri is Some {
                        (Ok(eq_term(pri.unwrap().0, to_real(pri.unwrap().1), negate)), s5)
                    } else {
                        let (ps, s6) = tr_pair(VarSort::Str, VarSort::Str, s5, args);
                        if ps is Some {
                            (Ok(eq_term(ps.unwrap().0, ps.unwrap().1, negate)), s6)
                        } else {
                            bad(s6, "cannot translate comparison operands"@)
                        }
                    }
                }
            }
        }
    }
}

pub open spec fn ord_name(op: SmtOp) -> Seq<char> {
    match op {
        SmtOp::Lt => "lt"@,
        SmtOp::Le => "le"@,
        SmtOp::Gt => "gt"@,
        _ => "ge"@,
    }
}

/// An ordering comparison: tried as integers, reals, integer against real,
/// then real against integer.
pub open spec fn tr_cmp_ord(st: TrState, args: Seq<SpecExpr>, op: SmtOp) -> Tr
    decreases args, 7nat, 0nat,
{
    let (pi, s1) = tr_pair(VarSort::Int, VarSort::Int, st, args);
    if pi is Some {
        (Ok(app(op, seq![pi.unwrap().0, pi.unwrap().1])), s1)
    } else {
        let (pr, s2) = tr_pair(VarSort::Real, VarSort::Real, s1, args);
        if pr is Some {
            (Ok(app(op, seq![pr.unwrap().0, pr.unwrap().1])), s2)
        } else {
            let (pir, s3) = tr_pair(VarSort::Int, VarSort::Real, s2, args);
            if pir is Some {
                (Ok(app(op, seq![to_real(pir.unwrap().0), pir.unwrap().1])), s3)
            } else {
                let (pri, s4) = tr_pair(VarSort::Real, VarSort::Int, s3, args);
                if pri is Some {
                    (Ok(app(op, seq![pri.unwrap().0, to_real(pri.unwrap().1)])), s4)
                } else {
                    bad(s4, "cannot translate "@ + ord_name(op) + " operands"@)
                }
            }
        }
    }
}

/// The bindings saved while a `let` is in scope.
pub type Saved = Seq<(VarSort, Seq<char>, Option<SpecTerm>)>;

/// Binding one `let` binding after those saved in `saved`: its value is
/// translated in the sort its type gives; on a failure every saved binding
/// is undone.
pub open spec fn push_step(st: TrState, saved: Saved, b: SpecLetBinding) -> (Result<Saved, SpecTErr>, TrState)
    decreases b, 8nat, 0nat,
{
    match sort_of_type(b.ty) {
        Some(VarSort::IntSeq) => (Err(unsupported("let binding '"@ + b.name
            + "': Seq values cannot be constructed in contracts"@)), restore_all(st, saved)),
        None => (Err(unsupported("let binding '"@ + b.name + "': unsupported type"@)), restore_all(st, saved)),
        Some(k) => {
            let (rv, s2) = tr(k, st, b.value);
            match rv {
                Err(x) => (Err(x), restore_all(s2, saved)),
                Ok(v) => (Ok(saved.push((k, b.name, prior(s2, k, b.name)))), bind(s2, k, b.name, v)),
            }
        },
    }
}

/// Binding a `let`'s first `n` bindings in order.
pub open spec fn tr_push(st: TrState, e: SpecExpr, n: nat) -> (Result<Saved, SpecTErr>, TrState)
    decreases e, 7nat, n,
{
    let bs = e.kind->Let_0;
    if n == 0 || !(e.kind is Let) || n > bs.len() {
        (Ok(Seq::empty()), st)
    } else {
        let (rs, s1) = tr_push(st, e, (n - 1) as nat);
        match rs {
            Err(x) => (Err(x), s1),
            Ok(saved) => push_step(s1, saved, bs[n - 1]),
        }
    }
}

/// A `let`: bind, translate the body, then undo the bindings.
pub open spec fn tr_let(k: VarSort, st: TrState, e: SpecExpr) -> Tr
    decreases e, 8nat, 0nat,
{
    match e.kind {
        SpecExprKind::Let(bs, body) => {
            let (rs, s1) = tr_push(st, e, bs.len());
            match rs {
                Err(x) => (Err(x), s1),
                Ok(saved) => {
                    let (rb, s2) = tr(k, s1, *body);
                    (rb, restore_all(s2, saved))
                },
            }
        },
        _ => (Err(SpecTErr::Expr(Seq::empty())), st),
    }
}

/// The condition under which an arm's pattern matches the scrutinee.
pub open spec fn tr_pattern_cond(st: TrState, e: SpecExpr, p: SpecPattern) -> Tr
    decreases e, 6nat, 0nat,
{
    let scr = match e.kind {
        SpecExprKind::Match(s, _) => *s,
        _ => e,
    };
    if !(e.kind is Match) {
        (Err(SpecTErr::Expr(Seq::empty())), st)
    } else {
    match p.kind {
        SpecPatternKind::Wildcard => (Ok(SpecTerm::Bool(true)), st),
        SpecPatternKind::Binding(_) => (Ok(SpecTerm::Bool(true)), st),
        SpecPatternKind::Literal(lit) => match lit {
            SpecLitPattern::Int(v) => {
                let (rs, s1) = tr(VarSort::Int, st, scr);
                match rs {
                    Err(x) => (Err(x), s1),
                    Ok(s) => (Ok(app(SmtOp::Eq, seq![s, SpecTerm::Int(v)])), s1),
                }
            },
            SpecLitPattern::Bool(b) => {
                let (rs, s1) = tr(VarSort::Bool, st, scr);
                match rs {
                    Err(x) => (Err(x), s1),
                    Ok(s) => (Ok(app(SmtOp::Eq, seq![s, SpecTerm::Bool(b)])), s1),
                }
            },
            SpecLitPattern::Float(bits) => {
                let (rs, s1) = tr(VarSort::Real, st, scr);
                match rs {
                    Err(x) => (Err(x), s1),
                    Ok(s) => (Ok(app(SmtOp::Eq, seq![s, SpecTerm::FloatBits(bits)])), s1),
                }
            },
            SpecLitPattern::Str(_) => bad(st, "string literals in match patterns are not yet supported"@),
            SpecLitPattern::Nil => bad(st, "nil pattern matching is not yet supported"@),
        },
        SpecPatternKind::Variant(_, _) => bad(st,
            "variant pattern matching requires type information and constructor awareness not yet integrated"@),
    }
    }
}

/// Translating an arm's body in context `k`, with the scrutinee bound to the
/// arm's name when its pattern is a bare binding. The binding is undone
/// only when the body translates.
pub open spec fn tr_arm_body(k: VarSort, st: TrState, e: SpecExpr, i: int) -> Tr
    decreases e, 6nat, 0nat,
{
    match e.kind {
        SpecExprKind::Match(scr, arms) => if 0 <= i < arms.len() {
            let arm = arms[i];
            match arm.pattern.kind {
                SpecPatternKind::Binding(name) => {
                    let (rs, s1) = tr(k, st, *scr);
                    match rs {
                        Err(x) => (Err(x), s1),
                        Ok(sv) => {
                            let prev = prior(s1, k, name);
                            let (rb, s2) = tr(k, bind(s1, k, name, sv), arms[i].body);
                            match rb {
                                Err(x) => (Err(x), s2),
                                Ok(b) => (Ok(b), restore(s2, k, name, prev)),
                            }
                        },
                    }
                },
                _ => tr(k, st, arms[i].body),
            }
        } else {
            (Err(SpecTErr::Expr(Seq::empty())), st)
        },
        _ => (Err(SpecTErr::Expr(Seq::empty())), st),
    }
}

/// Wrapping `acc` in the `if`-chain of the first `n` arms, the `n`-th first.
pub open spec fn tr_arms(k: VarSort, st: TrState, e: SpecExpr, n: nat, acc: SpecTerm) -> Tr
    decreases e, 7nat, n,
{
    let arms = e.kind->Match_1;
    if n == 0 || n > arms.len() {
        (Ok(acc), st)
    } else {
        let arm = arms[n - 1];
        let (rc, s1) = tr_pattern_cond(st, e, arm.pattern);
        match rc {
            Err(x) => (Err(x), s1),
            Ok(c) => {
                let (rb, s2) = tr_arm_body(k, s1, e, n - 1);
                match rb {
                    Err(x) => (Err(x), s2),
                    Ok(b) => tr_arms(k, s2, e, (n - 1) as nat, app(SmtOp::Ite, seq![c, b, acc])),
                }
            },
        }
    }
}

/// A `match` as an `if`-chain over its arms, the last arm innermost.
pub open spec fn tr_match(k: VarSort, st: TrState, e: SpecExpr) -> Tr
    decreases e, 8nat, 0nat,
{
    let arms = e.kind->Match_1;
    if arms.len() == 0 {
        bad(st, "match with no arms"@)
    } else {
        let (rl, s1) = tr_arm_body(k, st, e, arms.len() - 1);
        match rl {
            Err(x) => (Err(x), s1),
            Ok(last) => tr_arms(k, s1, e, (arms.len() - 1) as nat, last),
        }
    }
}

/// The bound variable, guard and body of a quantifier.
pub open spec fn quant_parts(e: SpecExpr) -> (SpecParam, Option<Box<SpecExpr>>, SpecExpr) {
    match e.kind {
        SpecExprKind::Forall(p, g, b) => (*p, g, *b),
        SpecExprKind::Exists(p, g, b) => (*p, g, *b),
        _ => arbitrary(),
    }
}

/// The quantifier's formula once its variable is bound: the body, joined
/// with the guard (`=>` under `forall`, `and` under `exists`) when there is one.
pub open spec fn tr_quant_formula(st: TrState, e: SpecExpr, is_forall: bool) -> Tr
    decreases e, 7nat, 0nat,
{
    let (g, b) = match e.kind {
        SpecExprKind::Forall(_, g, b) => (g, *b),
        SpecExprKind::Exists(_, g, b) => (g, *b),
        _ => (None, e),
    };
    if !(e.kind is Forall || e.kind is Exists) {
        (Err(SpecTErr::Expr(Seq::empty())), st)
    } else {
    let (rb, s1) = tr(VarSort::Bool, st, b);
    match rb {
        Err(x) => (Err(x), s1),
        Ok(body) => match g {
            None => (Ok(body), s1),
            Some(gx) => {
                let (rg, s2) = tr(VarSort::Bool, s1, *gx);
                match rg {
                    Err(x) => (Err(x), s2),
                    Ok(guard) => (Ok(if is_forall {
                        app(SmtOp::Implies, seq![guard, body])
                    } else {
                        app(SmtOp::And, seq![guard, body])
                    }), s2),
                }
            },
        },
    }
    }
}

/// The name the solver gives a bound variable: its own, or a fresh
/// `name_qN` when it shadows a variable of its sort.
pub open spec fn bound_name(st: TrState, k: VarSort, name: Seq<char>) -> (Seq<char>, TrState) {
    if vars_of(st, k).contains_key(name) {
        (name + "_q"@ + decimal(st.counter as nat), TrState { counter: next_counter(st.counter), ..st })
    } else {
        (name, st)
    }
}

/// A `forall` or `exists` over one typed variable.
pub open spec fn tr_quant(st: TrState, e: SpecExpr, is_forall: bool) -> Tr
    decreases e, 8nat, 0nat,
{
    let (p, g, b) = quant_parts(e);
    match p.ty.kind {
        SpecTypeKind::Named(tn) => match sort_of_type_name(tn) {
            None => (Err(SpecTErr::Type(tn)), st),
            Some(VarSort::IntSeq) => bad(st, "quantifiers over List/Seq variables are not supported"@),
            Some(k) => {
                let (zn, s1) = bound_name(st, k, p.name);
                let bound = SpecTerm::Const(zn, k);
                let prev = prior(s1, k, p.name);
                let (rf, s2) = tr_quant_formula(bind(s1, k, p.name, bound), e, is_forall);
                let s3 = restore(s2, k, p.name, prev);
                match rf {
                    Err(x) => (Err(x), s3),
                    Ok(f) => (Ok(SpecTerm::Quant(is_forall, zn, k, Box::new(f))), s3),
                }
            },
        },
        _ => (Err(SpecTErr::Type(type_debug(p.ty))), st),
    }
}

// ── Laws ────────────────────────────────────────────────────────────

/// A quantifier puts back whatever its variable's name was bound to before
/// it, whether its body translates or not.
pub proof fn law_quantifier_restores_binding(st: TrState, e: SpecExpr, is_forall: bool, k: VarSort)
    requires
        e.kind is Forall || e.kind is Exists,
        sort_of_type(quant_parts(e).0.ty) == Some(k),
        k != VarSort::IntSeq,
    ensures
        prior(tr_quant(st, e, is_forall).1, k, quant_parts(e).0.name) == prior(st, k, quant_parts(e).0.name),
{
    let p = quant_parts(e).0;
    let (zn, s1) = bound_name(st, k, p.name);
    assert(vars_of(s1, k) == vars_of(st, k));
    let prev = prior(s1, k, p.name);
    let s2 = tr_quant_formula(bind(s1, k, p.name, SpecTerm::Const(zn, k)), e, is_forall).1;
    let s3 = restore(s2, k, p.name, prev);
    assert(vars_of(s3, k).contains_key(p.name) == vars_of(st, k).contains_key(p.name));
}

// ── Failures carry through ──────────────────────────────────────────

proof fn lemma_tr_list_err(k: VarSort, st: TrState, args: Seq<SpecExpr>, n: int)
    requires
        0 <= n <= args.len(),
        tr_list(k, st, args.take(n)).0 is Err,
    ensures
        tr_list(k, st, args) == tr_list(k, st, args.take(n)),
    decreases args.len() - n,
{
    if n < args.len() {
        let t = args.take(n + 1);
        assert(t.drop_last() =~= args.take(n));
        lemma_tr_list_err(k, st, args, n + 1);
    } else {
        assert(args.take(n) =~= args);
    }
}

proof fn lemma_tr_push_err(st: TrState, e: SpecExpr, n: nat, m: nat)
    requires
        n <= m,
        tr_push(st, e, n).0 is Err,
    ensures
        tr_push(st, e, m) == tr_push(st, e, n) || m > e.kind->Let_0.len(),
    decreases m - n,
{
    if n < m {
        lemma_tr_push_err(st, e, n, (m - 1) as nat);
    }
}

// ── Views of the pieces ─────────────────────────────────────────────

pub open spec fn res_view(r: Result<Term, TranslateError>) -> Result<SpecTerm, SpecTErr> {
    match r {
        Ok(t) => Ok(term_view(t)),
        Err(x) => Err(terr_view(x)),
    }
}

pub open spec fn pair_view(r: Option<(Term, Term)>) -> Option<(SpecTerm, SpecTerm)> {
    match r {
        Some((l, rr)) => Some((term_view(l), term_view(rr))),
        None => None,
    }
}

pub open spec fn saved_view(s: Seq<(VarSort, String, Option<Term>)>) -> Saved
    decreases s.len(),
{
    if s.len() == 0 {
        Seq::empty()
    } else {
        saved_view(s.drop_last()).push((s.last().0, s.last().1@, match s.last().2 {
            Some(t) => Some(term_view(t)),
            None => None,
        }))
    }
}

pub(crate) proof fn lemma_exprs_view_index(s: Seq<Expr>, i: int)
    requires
        0 <= i < s.len(),
    ensures
        exprs_view(s).len() == s.len(),
        exprs_view(s)[i] == expr_view(s[i]),
    decreases s.len(),
{
    lemma_exprs_view_len(s);
    if i < s.len() - 1 {
        lemma_exprs_view_index(s.drop_last(), i);
    }
}

pub(crate) proof fn lemma_exprs_view_len(s: Seq<Expr>)
    ensures
        exprs_view(s).len() == s.len(),
    decreases s.len(),
{
    if s.len() > 0 {
        lemma_exprs_view_len(s.drop_last());
    }
}

proof fn lemma_bindings_view_index(s: Seq<LetBinding>, i: int)
    requires
        0 <= i < s.len(),
    ensures
        bindings_view(s).len() == s.len(),
        bindings_view(s)[i] == binding_view(s[i]),
    decreases s.len(),
{
    lemma_bindings_view_len(s);
    if i < s.len() - 1 {
        lemma_bindings_view_index(s.drop_last(), i);
    }
}

proof fn lemma_bindings_view_len(s: Seq<LetBinding>)
    ensures
        bindings_view(s).len() == s.len(),
    decreases s.len(),
{
    if s.len() > 0 {
        lemma_bindings_view_len(s.drop_last());
    }
}

proof fn lemma_arms_view_index(s: Seq<MatchArm>, i: int)
    requires
        0 <= i < s.len(),
    ensures
        arms_view(s).len() == s.len(),
        arms_view(s)[i] == arm_view(s[i]),
    decreases s.len(),
{
    lemma_arms_view_len(s);
    if i < s.len() - 1 {
        lemma_arms_view_index(s.drop_last(), i);
    }
}

proof fn lemma_arms_view_len(s: Seq<MatchArm>)
    ensures
        arms_view(s).len() == s.len(),
    decreases s.len(),
{
    if s.len() > 0 {
        lemma_arms_view_len(s.drop_last());
    }
}

pub(crate) proof fn lemma_arity_all(s: Seq<SpecExpr>, i: int)
    requires
        arity_ok_all(s),
        0 <= i < s.len(),
    ensures
        arity_ok(s[i]),
    decreases s.len(),
{
    if i < s.len() - 1 {
        lemma_arity_all(s.drop_last(), i);
    }
}

proof fn lemma_arity_bindings(s: Seq<SpecLetBinding>, i: int)
    requires
        arity_ok_bindings(s),
        0 <= i < s.len(),
    ensures
        arity_ok(s[i].value),
    decreases s.len(),
{
    if i < s.len() - 1 {
        lemma_arity_bindings(s.drop_last(), i);
    }
}

proof fn lemma_arity_arms(s: Seq<SpecMatchArm>, i: int)
    requires
        arity_ok_arms(s),
        0 <= i < s.len(),
    ensures
        arity_ok(s[i].body),
    decreases s.len(),
{
    if i < s.len() - 1 {
        lemma_arity_arms(s.drop_last(), i);
    }
}

// ── Messages ────────────────────────────────────────────────────────

fn unsupported_exec(msg: &str) -> (e: TranslateError)
    ensures
        terr_view(e) == SpecTErr::Expr(msg@),
{
    TranslateError::UnsupportedExpression(String::from_str(msg))
}

fn concat3(a: &str, b: &str, c: &str) -> (s: String)
    ensures
        s@ == a@ + b@ + c@,
{
    let mut s = String::from_str(a);
    s.append(b);
    s.append(c);
    s
}

fn concat2(a: &str, b: &str) -> (s: String)
    ensures
        s@ == a@ + b@,
{
    let mut s = String::from_str(a);
    s.append(b);
    s
}

fn other_msg_exec(k: VarSort, e: &Expr) -> (s: String)
    ensures
        s@ == other_msg(k, expr_view(*e)),
{
    let d = expr_kind_debug_text(e);
    match k {
        VarSort::Int => concat2("int context: ", d.as_str()),
        VarSort::Real => concat2("real context: ", d.as_str()),
        VarSort::Str => concat2("string context: ", d.as_str()),
        _ => d,
    }
}

fn other_exec(k: VarSort, e: &Expr) -> (r: Result<Term, TranslateError>)
    ensures
        res_view(r) == Err::<SpecTerm, SpecTErr>(SpecTErr::Expr(other_msg(k, expr_view(*e)))),
{
    Err(TranslateError::UnsupportedExpression(other_msg_exec(k, e)))
}

/// The text, without its sign, is `lower` in any letter case.
fn text_is(cs: &Vec<char>, lower: &str) -> (b: bool)
    ensures
        b == same_ignoring_case(unsigned_part(cs@), lower@),
{
    let lc = crate::text::str_chars(lower);
    let start: usize = if cs.len() > 0 && (cs[0] == '+' || cs[0] == '-') { 1 } else { 0 };
    let ghost u = unsigned_part(cs@);
    assert(u =~= cs@.subrange(start as int, cs@.len() as int));
    if cs.len() - start != lc.len() {
        return false;
    }
    let mut i: usize = 0;
    while i < lc.len()
        invariant
            lc@ == lower@,
            u == cs@.subrange(start as int, cs@.len() as int),
            cs@.len() - start == lc@.len(),
            start <= cs@.len(),
            cs@.len() <= usize::MAX,
            i <= lc@.len(),
            forall|j: int| 0 <= j < i ==> ci_eq(#[trigger] u[j], lc@[j]),
        decreases lc@.len() - i,
    {
        let c = cs[start + i];
        let l = lc[i];
        assert(u[i as int] == c);
        if !(c == l || (c as u32) as u64 + 32 == (l as u32) as u64) {
            return false;
        }
        i += 1;
    }
    true
}

/// Position of the first NUL character.
fn find_nul(s: &str) -> (r: Option<usize>)
    ensures
        match r {
            Some(i) => nul_at(s@) == Some(i as int),
            None => nul_at(s@) is None,
        },
{
    let cs = crate::text::str_chars(s);
    let mut i: usize = 0;
    while i < cs.len()
        invariant
            cs@ == s@,
            i <= cs@.len(),
            forall|j: int| 0 <= j < i ==> cs@[j] != '\0',
        decreases cs@.len() - i,
    {
        if cs[i] == '\0' {
            proof {
                let c = choose|q: int| 0 <= q < s@.len() && s@[q] == '\0' && forall|j: int| 0 <= j < q ==> s@[j] != '\0';
                assert(0 <= c < s@.len() && s@[c] == '\0' && forall|j: int| 0 <= j < c ==> s@[j] != '\0');
                if c < i {
                } else if c > i {
                    assert(s@[i as int] == '\0');
                }
            }
            return Some(i);
        }
        i += 1;
    }
    None
}

pub(crate) fn sort_of_type_exec(t: &AstType) -> (r: Option<VarSort>)
    ensures
        r == sort_of_type(ast_type_view(*t)),
{
    match &t.kind {
        AstTypeKind::Named(n) => Translator::sort_from_type_name(n.as_str()),
        _ => None,
    }
}

// ── The translator ──────────────────────────────────────────────────

/// A seed for a call-site translation: a term with its sort.
#[derive(Debug)]
pub enum SeedVal {
    Int(Term),
    Bool(Term),
    Real(Term),
}

/// Translates contract expressions into solver terms, keeping the
/// variables in scope by sort.
pub struct Translator {
    int_vars: TermMap,
    bool_vars: TermMap,
    real_vars: TermMap,
    string_vars: TermMap,
    seq_vars: TermMap,
    quant_counter: u64,
}

impl View for Translator {
    type V = TrState;

    closed spec fn view(&self) -> TrState {
        TrState {
            ints: self.int_vars@,
            bools: self.bool_vars@,
            reals: self.real_vars@,
            strs: self.string_vars@,
            seqs: self.seq_vars@,
            counter: self.quant_counter,
        }
    }
}

impl Translator {
    /// The sort an AIRL type name is given: the integer types and `Nat`, `bool`,
    /// the float types, `String` and `str`, and `List`.
    pub fn sort_from_type_name(name: &str) -> (r: Option<VarSort>)
        ensures
            r == sort_of_type_name(name@),
    {
        if str_eq(name, "i8") || str_eq(name, "i16") || str_eq(name, "i32") || str_eq(name, "i64") || str_eq(name, "u8")
            || str_eq(name, "u16") || str_eq(name, "u32") || str_eq(name, "u64") || str_eq(name, "Nat") {
            Some(VarSort::Int)
        } else if str_eq(name, "bool") {
            Some(VarSort::Bool)
        } else if str_eq(name, "f16") || str_eq(name, "f32") || str_eq(name, "f64") || str_eq(name, "bf16") {
            Some(VarSort::Real)
        } else if str_eq(name, "String") || str_eq(name, "str") {
            Some(VarSort::Str)
        } else if str_eq(name, "List") {
            Some(VarSort::IntSeq)
        } else {
            None
        }
    }

    pub fn new() -> (t: Translator)
        ensures
            t@ == (TrState {
                ints: Map::empty(),
                bools: Map::empty(),
                reals: Map::empty(),
                strs: Map::empty(),
                seqs: Map::empty(),
                counter: 0,
            }),
    {
        Translator {
            int_vars: TermMap::new(),
            bool_vars: TermMap::new(),
            real_vars: TermMap::new(),
            string_vars: TermMap::new(),
            seq_vars: TermMap::new(),
            quant_counter: 0,
        }
    }

    fn var_get(&self, k: VarSort, name: &str) -> (r: Option<Term>)
        ensures
            match r {
                Some(t) => vars_of(self@, k).contains_key(name@) && term_view(t) == vars_of(self@, k)[name@],
                None => !vars_of(self@, k).contains_key(name@),
            },
    {
        match k {
            VarSort::Int => self.int_vars.get(name),
            VarSort::Bool => self.bool_vars.get(name),
            VarSort::Real => self.real_vars.get(name),
            VarSort::Str => self.string_vars.get(name),
            VarSort::IntSeq => self.seq_vars.get(name),
        }
    }

    fn var_contains(&self, k: VarSort, name: &str) -> (b: bool)
        ensures
            b == vars_of(self@, k).contains_key(name@),
    {
        match k {
            VarSort::Int => self.int_vars.contains_key(name),
            VarSort::Bool => self.bool_vars.contains_key(name),
            VarSort::Real => self.real_vars.contains_key(name),
            VarSort::Str => self.string_vars.contains_key(name),
            VarSort::IntSeq => self.seq_vars.contains_key(name),
        }
    }

    fn var_insert(&mut self, k: VarSort, name: String, t: Term) -> (r: Option<Term>)
        ensures
            final(self)@ == bind(old(self)@, k, name@, term_view(t)),
            match r {
                Some(p) => prior(old(self)@, k, name@) == Some(term_view(p)),
                None => prior(old(self)@, k, name@) is None,
            },
    {
        let r = match k {
            VarSort::Int => self.int_vars.insert(name, t),
            VarSort::Bool => self.bool_vars.insert(name, t),
            VarSort::Real => self.real_vars.insert(name, t),
            VarSort::Str => self.string_vars.insert(name, t),
            VarSort::IntSeq => self.seq_vars.insert(name, t),
        };
        r
    }

    fn var_restore(&mut self, k: VarSort, name: String, prev: Option<Term>)
        ensures
            final(self)@ == restore(old(self)@, k, name@, match prev {
                Some(t) => Some(term_view(t)),
                None => None,
            }),
    {
        match k {
            VarSort::Int => self.int_vars.restore(name, prev),
            VarSort::Bool => self.bool_vars.restore(name, prev),
            VarSort::Real => self.real_vars.restore(name, prev),
            VarSort::Str => self.string_vars.restore(name, prev),
            VarSort::IntSeq => self.seq_vars.restore(name, prev),
        }
    }

    fn pop_let_bindings(&mut self, saved_in: Vec<(VarSort, String, Option<Term>)>)
        ensures
            final(self)@ == restore_all(old(self)@, saved_view(saved_in@)),
    {
        let mut saved = saved_in;
        while saved.len() > 0
            invariant
                restore_all(self@, saved_view(saved@)) == restore_all(old(self)@, saved_view(saved_in@)),
            decreases saved@.len(),
        {
            let ghost before = saved@;
            let (k, name, prev) = saved.pop().unwrap();
            proof {
                assert(saved@ =~= before.drop_last());
                assert(saved_view(before).drop_last() =~= saved_view(saved@));
                assert(saved_view(before).last() == (k, name@, match prev {
                    Some(t) => Some(term_view(t)),
                    None => None,
                }));
            }
            self.var_restore(k, name, prev);
        }
    }

    /// Declares an integer variable (a parameter or the result).
    pub fn declare_int(&mut self, name: &str)
        ensures
            final(self)@ == bind(old(self)@, VarSort::Int, name@, SpecTerm::Const(name@, VarSort::Int)),
    {
        self.var_insert(VarSort::Int, String::from_str(name), Term::Const(String::from_str(name), VarSort::Int));
    }

    /// Declares a boolean variable.
    pub fn declare_bool(&mut self, name: &str)
        ensures
            final(self)@ == bind(old(self)@, VarSort::Bool, name@, SpecTerm::Const(name@, VarSort::Bool)),
    {
        self.var_insert(VarSort::Bool, String::from_str(name), Term::Const(String::from_str(name), VarSort::Bool));
    }

    /// Declares a real variable.
    pub fn declare_real(&mut self, name: &str)
        ensures
            final(self)@ == bind(old(self)@, VarSort::Real, name@, SpecTerm::Const(name@, VarSort::Real)),
    {
        self.var_insert(VarSort::Real, String::from_str(name), Term::Const(String::from_str(name), VarSort::Real));
    }

    /// Declares a string variable.
    pub fn declare_string(&mut self, name: &str)
        ensures
            final(self)@ == bind(old(self)@, VarSort::Str, name@, SpecTerm::Const(name@, VarSort::Str)),
    {
        self.var_insert(VarSort::Str, String::from_str(name), Term::Const(String::from_str(name), VarSort::Str));
    }

    /// Declares a list variable, an integer sequence for the solver.
    pub fn declare_seq(&mut self, name: &str)
        ensures
            final(self)@ == bind(old(self)@, VarSort::IntSeq, name@, SpecTerm::Const(name@, VarSort::IntSeq)),
    {
        self.var_insert(VarSort::IntSeq, String::from_str(name), Term::Const(String::from_str(name), VarSort::IntSeq));
    }

    /// Binds an integer variable to a term computed elsewhere.
    pub fn seed_int(&mut self, name: &str, val: Term)
        ensures
            final(self)@ == bind(old(self)@, VarSort::Int, name@, term_view(val)),
    {
        self.var_insert(VarSort::Int, String::from_str(name), val);
    }

    /// Binds a boolean variable to a term computed elsewhere.
    pub fn seed_bool(&mut self, name: &str, val: Term)
        ensures
            final(self)@ == bind(old(self)@, VarSort::Bool, name@, term_view(val)),
    {
        self.var_insert(VarSort::Bool, String::from_str(name), val);
    }

    /// Binds a real variable to a term computed elsewhere.
    pub fn seed_real(&mut self, name: &str, val: Term)
        ensures
            final(self)@ == bind(old(self)@, VarSort::Real, name@, term_view(val)),
    {
        self.var_insert(VarSort::Real, String::from_str(name), val);
    }

    pub fn get_int_var(&self, name: &str) -> (r: Option<Term>)
        ensures
            match r {
                Some(t) => self@.ints.contains_key(name@) && term_view(t) == self@.ints[name@],
                None => !self@.ints.contains_key(name@),
            },
    {
        self.var_get(VarSort::Int, name)
    }

    pub fn get_bool_var(&self, name: &str) -> (r: Option<Term>)
        ensures
            match r {
                Some(t) => self@.bools.contains_key(name@) && term_view(t) == self@.bools[name@],
                None => !self@.bools.contains_key(name@),
            },
    {
        self.var_get(VarSort::Bool, name)
    }

    pub fn get_real_var(&self, name: &str) -> (r: Option<Term>)
        ensures
            match r {
                Some(t) => self@.reals.contains_key(name@) && term_view(t) == self@.reals[name@],
                None => !self@.reals.contains_key(name@),
            },
    {
        self.var_get(VarSort::Real, name)
    }

    pub fn get_string_var(&self, name: &str) -> (r: Option<Term>)
        ensures
            match r {
                Some(t) => self@.strs.contains_key(name@) && term_view(t) == self@.strs[name@],
                None => !self@.strs.contains_key(name@),
            },
    {
        self.var_get(VarSort::Str, name)
    }

    pub fn get_seq_var(&self, name: &str) -> (r: Option<Term>)
        ensures
            match r {
                Some(t) => self@.seqs.contains_key(name@) && term_view(t) == self@.seqs[name@],
                None => !self@.seqs.contains_key(name@),
            },
    {
        self.var_get(VarSort::IntSeq, name)
    }
}

impl Translator {
    /// Literals and variables.
    fn tr_leaf(&self, k: VarSort, e: &Expr) -> (r: Result<Term, TranslateError>)
        requires
            e.kind is IntLit || e.kind is FloatLit || e.kind is StrLit || e.kind is BoolLit || e.kind is SymbolRef,
        ensures
            (res_view(r), self@) == tr(k, self@, expr_view(*e)),
    {
        match &e.kind {
            ExprKind::IntLit(v) => match k {
                VarSort::Int => Ok(Term::Int(*v)),
                VarSort::Real => if -2147483648i64 <= *v && *v <= 2147483647i64 {
                    Ok(Term::Real(*v, 1))
                } else {
                    let d = i64_to_string(*v);
                    Err(TranslateError::UnsupportedExpression(concat3("integer literal ", d.as_str(),
                        " is too large for Z3 Real context")))
                },
                _ => other_exec(k, e),
            },
            ExprKind::FloatLit(t) => match k {
                VarSort::Real => {
                    let cs = crate::text::str_chars(t.as_str());
                    if text_is(&cs, "nan") {
                        Err(unsupported_exec("NaN cannot be represented as a Z3 Real"))
                    } else if text_is(&cs, "inf") || text_is(&cs, "infinity") {
                        Err(unsupported_exec("Infinity cannot be represented as a Z3 Real"))
                    } else {
                        Ok(Term::FloatText(t.clone()))
                    }
                },
                _ => other_exec(k, e),
            },
            ExprKind::StrLit(sv) => match k {
                VarSort::Str => match find_nul(sv.as_str()) {
                    Some(i) => {
                        let d = u64_to_string(i as u64);
                        Err(TranslateError::UnsupportedExpression(concat2(
                            "string literal contains null byte: nul byte found in provided data at position: ",
                            d.as_str())))
                    },
                    None => Ok(Term::Str(sv.clone())),
                },
                _ => other_exec(k, e),
            },
            ExprKind::BoolLit(b) => match k {
                VarSort::Bool => Ok(Term::Bool(*b)),
                _ => other_exec(k, e),
            },
            ExprKind::SymbolRef(n) => match self.var_get(k, n.as_str()) {
                Some(t) => Ok(t),
                None => Err(TranslateError::UndefinedVariable(n.clone())),
            },
            _ => Ok(Term::Bool(true)),
        }
    }

    /// `if`: the condition as a boolean, the branches in context `k`.
    fn tr_if(&mut self, k: VarSort, e: &Expr) -> (r: Result<Term, TranslateError>)
        requires
            e.kind is If,
            arity_ok(expr_view(*e)),
        ensures
            (res_view(r), final(self)@) == tr(k, old(self)@, expr_view(*e)),
        decreases e, 8nat, 0nat,
    {
        match &e.kind {
            ExprKind::If(c, t, f) => {
                let rc = self.tr_exec(VarSort::Bool, c);
                match rc {
                    Err(x) => Err(x),
                    Ok(ct) => {
                        let rt = self.tr_exec(k, t);
                        match rt {
                            Err(x) => Err(x),
                            Ok(tt) => {
                                let rf = self.tr_exec(k, f);
                                match rf {
                                    Err(x) => Err(x),
                                    Ok(ft) => {
                                        let r = Term::App(SmtOp::Ite, vec3(ct, tt, ft));
                                        proof {
                                            lemma_terms3(ct, tt, ft);
                                        }
                                        Ok(r)
                                    },
                                }
                            },
                        }
                    },
                }
            },
            _ => Ok(Term::Bool(true)),
        }
    }

    /// Translates `e` in context `k`.
    #[verifier::rlimit(40)]
    fn tr_exec(&mut self, k: VarSort, e: &Expr) -> (r: Result<Term, TranslateError>)
        requires
            arity_ok(expr_view(*e)),
        ensures
            (res_view(r), final(self)@) == tr(k, old(self)@, expr_view(*e)),
        decreases e, 9nat, 0nat,
    {
        let ghost ev = expr_view(*e);
        match &e.kind {
            ExprKind::IntLit(_) | ExprKind::FloatLit(_) | ExprKind::StrLit(_) | ExprKind::BoolLit(_)
            | ExprKind::SymbolRef(_) => self.tr_leaf(k, e),
            ExprKind::FnCall(f, args) => match &f.kind {
                ExprKind::SymbolRef(op) => {
                    proof {
                        assert(decreases_to!(e => args));
                        lemma_exprs_view_len(args@);
                        assert(expr_view(**f).kind == SpecExprKind::SymbolRef(op@));
                    }
                    self.tr_op(k, op.as_str(), args)
                },
                _ => {
                    proof {
                        assert(!(expr_view(**f).kind is SymbolRef));
                    }
                    Err(unsupported_exec("non-symbol callee"))
                },
            },
            ExprKind::If(_, _, _) => self.tr_if(k, e),
            ExprKind::Let(_, _) => self.translate_let(k, e),
            ExprKind::Do(es) => if es.len() == 0 {
                proof {
                    lemma_exprs_view_len(es@);
                }
                Err(unsupported_exec("empty do block"))
            } else {
                proof {
                    lemma_exprs_view_index(es@, es@.len() - 1);
                    lemma_arity_all(exprs_view(es@), es@.len() - 1);
                    assert(decreases_to!(e => es));
                    assert(decreases_to!(es => es@));
                    assert(decreases_to!(es@ => es@[es@.len() - 1]));
                }
                self.tr_exec(k, &es[es.len() - 1])
            },
            ExprKind::Lambda(_, _) => match k {
                VarSort::Str => other_exec(k, e),
                _ => Err(unsupported_exec("lambda expressions cannot appear in Z3 contracts (must be immediately applied)")),
            },
            ExprKind::Match(_, _) => match k {
                VarSort::Str => other_exec(k, e),
                _ => self.translate_match(k, e),
            },
            ExprKind::Forall(_, _, _) => match k {
                VarSort::Bool => self.translate_quantifier(e, true),
                _ => other_exec(k, e),
            },
            ExprKind::Exists(_, _, _) => match k {
                VarSort::Bool => self.translate_quantifier(e, false),
                _ => other_exec(k, e),
            },
            _ => other_exec(k, e),
        }
    }
}

fn vec1(a: Term) -> (v: Vec<Term>)
    ensures
        terms_view(v@) == seq![term_view(a)],
{
    let mut v = Vec::new();
    v.push(a);
    proof {
        lemma_terms1(a);
        assert(v@ =~= seq![a]);
    }
    v
}

fn vec2(a: Term, b: Term) -> (v: Vec<Term>)
    ensures
        terms_view(v@) == seq![term_view(a), term_view(b)],
{
    let mut v = Vec::new();
    v.push(a);
    v.push(b);
    proof {
        lemma_terms2(a, b);
        assert(v@ =~= seq![a, b]);
    }
    v
}

fn vec3(a: Term, b: Term, c: Term) -> (v: Vec<Term>)
    ensures
        terms_view(v@) == seq![term_view(a), term_view(b), term_view(c)],
{
    let mut v = Vec::new();
    v.push(a);
    v.push(b);
    v.push(c);
    proof {
        lemma_terms3(a, b, c);
        assert(v@ =~= seq![a, b, c]);
    }
    v
}

proof fn lemma_terms1(a: Term)
    ensures
        terms_view(seq![a]) == seq![term_view(a)],
{
    let s = seq![a];
    assert(s.drop_last() =~= Seq::<Term>::empty());
    assert(s.last() == a);
    assert(terms_view(s) == terms_view(s.drop_last()).push(term_view(a)));
    assert(terms_view(s) =~= seq![term_view(a)]);
}

proof fn lemma_terms2(a: Term, b: Term)
    ensures
        terms_view(seq![a, b]) == seq![term_view(a), term_view(b)],
{
    let s = seq![a, b];
    assert(s.drop_last() =~= seq![a]);
    assert(s.last() == b);
    lemma_terms1(a);
    assert(terms_view(s) == terms_view(s.drop_last()).push(term_view(b)));
    assert(terms_view(s) =~= seq![term_view(a), term_view(b)]);
}

proof fn lemma_terms3(a: Term, b: Term, c: Term)
    ensures
        terms_view(seq![a, b, c]) == seq![term_view(a), term_view(b), term_view(c)],
{
    let s = seq![a, b, c];
    assert(s.drop_last() =~= seq![a, b]);
    assert(s.last() == c);
    lemma_terms2(a, b);
    assert(terms_view(s) == terms_view(s.drop_last()).push(term_view(c)));
    assert(terms_view(s) =~= seq![term_view(a), term_view(b), term_view(c)]);
}

impl Translator {
    fn tr_binary_exec(&mut self, k: VarSort, args: &Vec<Expr>, op: SmtOp) -> (r: Result<Term, TranslateError>)
        requires
            args@.len() >= 2,
            arity_ok_all(exprs_view(args@)),
        ensures
            (res_view(r), final(self)@) == tr_binary(k, old(self)@, exprs_view(args@), op),
        decreases args, 7nat, 0nat,
    {
        proof {
            lemma_exprs_view_index(args@, 0);
            lemma_exprs_view_index(args@, 1);
            lemma_arity_all(exprs_view(args@), 0);
            lemma_arity_all(exprs_view(args@), 1);
            assert(decreases_to!(args => args@));
            assert(decreases_to!(args@ => args@[0]));
            assert(decreases_to!(args@ => args@[1]));
        }
        let ra = self.tr_exec(k, &args[0]);
        match ra {
            Err(x) => Err(x),
            Ok(a) => {
                let rb = self.tr_exec(k, &args[1]);
                match rb {
                    Err(x) => Err(x),
                    Ok(b) => {
                        proof {
                            lemma_terms2(a, b);
                        }
                        Ok(Term::App(op, vec2(a, b)))
                    },
                }
            },
        }
    }

    fn tr_unary_exec(&mut self, k: VarSort, args: &Vec<Expr>, op: SmtOp) -> (r: Result<Term, TranslateError>)
        requires
            args@.len() >= 1,
            arity_ok_all(exprs_view(args@)),
        ensures
            (res_view(r), final(self)@) == tr_unary(k, old(self)@, exprs_view(args@), op),
        decreases args, 7nat, 0nat,
    {
        proof {
            lemma_exprs_view_index(args@, 0);
            lemma_arity_all(exprs_view(args@), 0);
            assert(decreases_to!(args => args@));
            assert(decreases_to!(args@ => args@[0]));
        }
        let ra = self.tr_exec(k, &args[0]);
        match ra {
            Err(x) => Err(x),
            Ok(a) => {
                proof {
                    lemma_terms1(a);
                }
                Ok(Term::App(op, vec1(a)))
            },
        }
    }

    /// All operands in context `k`, in order, up to the first failure.
    fn tr_list_exec(&mut self, k: VarSort, args: &Vec<Expr>) -> (r: Result<Vec<Term>, TranslateError>)
        requires
            arity_ok_all(exprs_view(args@)),
        ensures
            (match r {
                Ok(ts) => Ok(terms_view(ts@)),
                Err(x) => Err(terr_view(x)),
            }, final(self)@) == tr_list(k, old(self)@, exprs_view(args@)),
        decreases args, 5nat, 0nat,
    {
        let ghost st0 = self@;
        let ghost av = exprs_view(args@);
        let mut out: Vec<Term> = Vec::new();
        let mut i: usize = 0;
        proof {
            lemma_exprs_view_len(args@);
            assert(av.take(0) =~= Seq::<SpecExpr>::empty());
        }
        while i < args.len()
            invariant
                st0 == old(self)@,
                i <= args@.len(),
                av == exprs_view(args@),
                av.len() == args@.len(),
                arity_ok_all(av),
                tr_list(k, st0, av.take(i as int)) == (Ok::<Seq<SpecTerm>, SpecTErr>(terms_view(out@)), self@),
            decreases args@.len() - i,
        {
            proof {
                lemma_exprs_view_index(args@, i as int);
                lemma_arity_all(av, i as int);
                assert(decreases_to!(args => args@));
                assert(decreases_to!(args@ => args@[i as int]));
                assert(av.take(i + 1).drop_last() =~= av.take(i as int));
                assert(av.take(i + 1).last() == av[i as int]);
            }
            let ghost before = self@;
            let r = self.tr_exec(k, &args[i]);
            match r {
                Err(x) => {
                    proof {
                        assert(tr_list(k, st0, av.take(i + 1)) == (Err::<Seq<SpecTerm>, SpecTErr>(terr_view(x)), self@));
                        lemma_tr_list_err(k, st0, av, i + 1);
                    }
                    return Err(x);
                },
                Ok(t) => {
                    let ghost prev = out@;
                    out.push(t);
                    proof {
                        assert(out@.drop_last() =~= prev);
                    }
                },
            }
            i += 1;
        }
        proof {
            assert(av.take(i as int) =~= av);
        }
        Ok(out)
    }

    fn tr_nary_exec(&mut self, k: VarSort, args: &Vec<Expr>, op: SmtOp) -> (r: Result<Term, TranslateError>)
        requires
            arity_ok_all(exprs_view(args@)),
        ensures
            (res_view(r), final(self)@) == tr_nary(k, old(self)@, exprs_view(args@), op),
        decreases args, 7nat, 0nat,
    {
        match self.tr_list_exec(k, args) {
            Err(x) => Err(x),
            Ok(ts) => Ok(Term::App(op, ts)),
        }
    }

    /// A call of a function the solver knows nothing about.
    fn apply_uninterpreted_fn(&mut self, name: &str, args: &Vec<Expr>, sort: VarSort) -> (r: Result<Term, TranslateError>)
        requires
            arity_ok_all(exprs_view(args@)),
        ensures
            (res_view(r), final(self)@) == tr_uninterp(old(self)@, name@, exprs_view(args@), sort),
        decreases args, 7nat, 0nat,
    {
        match sort {
            VarSort::IntSeq => Err(TranslateError::UnsupportedExpression(concat3("uninterpreted function '", name,
                "': Seq return sort not supported"))),
            _ => match self.tr_list_exec(VarSort::Int, args) {
                Err(x) => Err(x),
                Ok(ts) => Ok(Term::Uninterp(String::from_str(name), sort, ts)),
            },
        }
    }

    fn seq_var_exec(&self, a: &Expr) -> (r: Option<Term>)
        ensures
            match r {
                Some(t) => seq_var(self@, expr_view(*a)) == Some(term_view(t)),
                None => seq_var(self@, expr_view(*a)) is None,
            },
    {
        match &a.kind {
            ExprKind::SymbolRef(n) => self.seq_vars.get(n.as_str()),
            _ => None,
        }
    }

    /// A call of the operator `op` in context `k`.
    fn tr_op(&mut self, k: VarSort, op: &str, args: &Vec<Expr>) -> (r: Result<Term, TranslateError>)
        requires
            args@.len() >= min_arity(op@),
            arity_ok_all(exprs_view(args@)),
        ensures
            (res_view(r), final(self)@) == tr_op(k, old(self)@, op@, exprs_view(args@)),
        decreases args, 8nat, 0nat,
    {
        proof {
            lemma_exprs_view_len(args@);
        }
        match k {
            VarSort::Bool => if str_eq(op, "=") {
                self.translate_cmp_eq(args, false)
            } else if str_eq(op, "!=") {
                self.translate_cmp_eq(args, true)
            } else if str_eq(op, "<") {
                self.translate_cmp_ord(args, SmtOp::Lt)
            } else if str_eq(op, ">") {
                self.translate_cmp_ord(args, SmtOp::Gt)
            } else if str_eq(op, "<=") {
                self.translate_cmp_ord(args, SmtOp::Le)
            } else if str_eq(op, ">=") {
                self.translate_cmp_ord(args, SmtOp::Ge)
            } else if str_eq(op, "and") {
                self.tr_binary_exec(VarSort::Bool, args, SmtOp::And)
            } else if str_eq(op, "or") {
                self.tr_binary_exec(VarSort::Bool, args, SmtOp::Or)
            } else if str_eq(op, "not") {
                self.tr_unary_exec(VarSort::Bool, args, SmtOp::Not)
            } else if str_eq(op, "string-contains?") {
                self.tr_binary_exec(VarSort::Str, args, SmtOp::StrContains)
            } else if str_eq(op, "string-prefix?") {
                self.tr_binary_exec(VarSort::Str, args, SmtOp::StrPrefixOf)
            } else if str_eq(op, "string-suffix?") {
                self.tr_binary_exec(VarSort::Str, args, SmtOp::StrSuffixOf)
            } else if str_eq(op, "list-contains?") {
                proof {
                    lemma_exprs_view_index(args@, 0);
                    lemma_exprs_view_index(args@, 1);
                    lemma_arity_all(exprs_view(args@), 1);
                    assert(decreases_to!(args => args@));
                    assert(decreases_to!(args@ => args@[1]));
                }
                match self.seq_var_exec(&args[0]) {
                    Some(sv) => {
                        let re = self.tr_exec(VarSort::Int, &args[1]);
                        match re {
                            Err(x) => Err(x),
                            Ok(el) => {
                                proof {
                                    lemma_terms2(sv, el);
                                }
                                Ok(Term::App(SmtOp::SeqContainsElem, vec2(sv, el)))
                            },
                        }
                    },
                    None => Err(unsupported_exec("list-contains? requires a declared list/seq variable")),
                }
            } else if str_eq(op, "valid") {
                Err(unsupported_exec("valid() predicate is not yet encoded — contracts using valid() are unverified"))
            } else {
                self.apply_uninterpreted_fn(op, args, VarSort::Bool)
            },
            VarSort::Int => if str_eq(op, "+") {
                self.tr_nary_exec(VarSort::Int, args, SmtOp::Add)
            } else if str_eq(op, "-") {
                if args.len() == 2 {
                    self.tr_binary_exec(VarSort::Int, args, SmtOp::Sub)
                } else if args.len() == 1 {
                    proof {
                        lemma_exprs_view_index(args@, 0);
                        lemma_arity_all(exprs_view(args@), 0);
                        assert(decreases_to!(args => args@));
                        assert(decreases_to!(args@ => args@[0]));
                    }
                    let ra = self.tr_exec(VarSort::Int, &args[0]);
                    match ra {
                        Err(x) => Err(x),
                        Ok(a) => {
                            let m = Term::Int(-1i64);
                            proof {
                                lemma_terms2(m, a);
                            }
                            Ok(Term::App(SmtOp::Mul, vec2(m, a)))
                        },
                    }
                } else {
                    Err(unsupported_exec("unary minus"))
                }
            } else if str_eq(op, "*") {
                self.tr_nary_exec(VarSort::Int, args, SmtOp::Mul)
            } else if str_eq(op, "/") {
                self.tr_binary_exec(VarSort::Int, args, SmtOp::Div)
            } else if str_eq(op, "%") {
                self.tr_binary_exec(VarSort::Int, args, SmtOp::Mod)
            } else if str_eq(op, "string-length") {
                self.tr_unary_exec(VarSort::Str, args, SmtOp::StrLen)
            } else if str_eq(op, "length") {
                proof {
                    lemma_exprs_view_index(args@, 0);
                }
                match self.seq_var_exec(&args[0]) {
                    Some(sv) => {
                        proof {
                            lemma_terms1(sv);
                        }
                        Ok(Term::App(SmtOp::SeqLen, vec1(sv)))
                    },
                    None => Err(unsupported_exec("length requires a declared list/seq variable")),
                }
            } else if str_eq(op, "bitwise-and") || str_eq(op, "bitwise-or") || str_eq(op, "bitwise-xor")
                || str_eq(op, "bitwise-shl") || str_eq(op, "bitwise-shr") {
                if args.len() != 2 {
                    Err(TranslateError::UnsupportedExpression(concat2(op, " requires exactly 2 arguments")))
                } else {
                    let bop = if str_eq(op, "bitwise-and") {
                        SmtOp::BvAnd
                    } else if str_eq(op, "bitwise-or") {
                        SmtOp::BvOr
                    } else if str_eq(op, "bitwise-xor") {
                        SmtOp::BvXor
                    } else if str_eq(op, "bitwise-shl") {
                        SmtOp::BvShl
                    } else {
                        SmtOp::BvLshr
                    };
                    self.tr_binary_exec(VarSort::Int, args, bop)
                }
            } else if str_eq(op, "bitwise-not") {
                if args.len() != 1 {
                    Err(unsupported_exec("bitwise-not requires exactly 1 argument"))
                } else {
                    self.tr_unary_exec(VarSort::Int, args, SmtOp::BvNot)
                }
            } else {
                self.apply_uninterpreted_fn(op, args, VarSort::Int)
            },
            VarSort::Real => if str_eq(op, "+") {
                self.tr_nary_exec(VarSort::Real, args, SmtOp::Add)
            } else if str_eq(op, "-") {
                if args.len() == 2 {
                    self.tr_binary_exec(VarSort::Real, args, SmtOp::Sub)
                } else {
                    Err(unsupported_exec("unary minus"))
                }
            } else if str_eq(op, "*") {
                self.tr_nary_exec(VarSort::Real, args, SmtOp::Mul)
            } else if str_eq(op, "/") {
                self.tr_binary_exec(VarSort::Real, args, SmtOp::Div)
            } else {
                Err(TranslateError::UnsupportedExpression(concat2("real context: ", op)))
            },
            _ => if str_eq(op, "string-concat") || str_eq(op, "str-concat") {
                self.tr_nary_exec(VarSort::Str, args, SmtOp::StrConcat)
            } else {
                Err(TranslateError::UnsupportedExpression(concat2("string context: ", op)))
            },
        }
    }
}

fn is_cmp_call_exec(e: &Expr) -> (b: bool)
    ensures
        b == is_cmp_call(expr_view(*e)),
{
    match &e.kind {
        ExprKind::FnCall(f, _) => match &f.kind {
            ExprKind::SymbolRef(op) => {
                proof {
                    assert(expr_view(**f).kind == SpecExprKind::SymbolRef(op@));
                }
                str_eq(op.as_str(), "=") || str_eq(op.as_str(), "!=") || str_eq(op.as_str(), "<")
                || str_eq(op.as_str(), ">") || str_eq(op.as_str(), "<=") || str_eq(op.as_str(), ">=")
            },
            _ => {
                proof {
                    assert(!(expr_view(**f).kind is SymbolRef));
                }
                false
            },
        },
        _ => false,
    }
}

fn eq_term_exec(l: Term, r: Term, negate: bool) -> (t: Term)
    ensures
        term_view(t) == eq_term(term_view(l), term_view(r), negate),
{
    proof {
        lemma_terms2(l, r);
    }
    let eq = Term::App(SmtOp::Eq, vec2(l, r));
    if negate {
        proof {
            lemma_terms1(eq);
        }
        Term::App(SmtOp::Not, vec1(eq))
    } else {
        eq
    }
}

fn to_real_exec(t: Term) -> (r: Term)
    ensures
        term_view(r) == to_real(term_view(t)),
{
    proof {
        lemma_terms1(t);
    }
    Term::App(SmtOp::ToReal, vec1(t))
}

fn app2(op: SmtOp, a: Term, b: Term) -> (r: Term)
    ensures
        term_view(r) == app(op, seq![term_view(a), term_view(b)]),
{
    proof {
        lemma_terms2(a, b);
    }
    Term::App(op, vec2(a, b))
}

impl Translator {
    /// Both operands, the left in `kl` and the right in `kr`; the right one
    /// is translated even when the left one failed.
    fn tr_pair_exec(&mut self, kl: VarSort, kr: VarSort, args: &Vec<Expr>) -> (r: Option<(Term, Term)>)
        requires
            args@.len() >= 2,
            arity_ok_all(exprs_view(args@)),
        ensures
            (pair_view(r), final(self)@) == tr_pair(kl, kr, old(self)@, exprs_view(args@)),
        decreases args, 6nat, 0nat,
    {
        proof {
            lemma_exprs_view_index(args@, 0);
            lemma_exprs_view_index(args@, 1);
            lemma_arity_all(exprs_view(args@), 0);
            lemma_arity_all(exprs_view(args@), 1);
            assert(decreases_to!(args => args@));
            assert(decreases_to!(args@ => args@[0]));
            assert(decreases_to!(args@ => args@[1]));
        }
        let rl = self.tr_exec(kl, &args[0]);
        let rr = self.tr_exec(kr, &args[1]);
        match (rl, rr) {
            (Ok(l), Ok(r)) => Some((l, r)),
            _ => None,
        }
    }

    fn translate_cmp_eq(&mut self, args: &Vec<Expr>, negate: bool) -> (r: Result<Term, TranslateError>)
        requires
            args@.len() >= 2,
            arity_ok_all(exprs_view(args@)),
        ensures
            (res_view(r), final(self)@) == tr_cmp_eq(old(self)@, exprs_view(args@), negate),
        decreases args, 7nat, 0nat,
    {
        proof {
            lemma_exprs_view_index(args@, 0);
            lemma_exprs_view_index(args@, 1);
        }
        let pb = self.tr_pair_exec(VarSort::Bool, VarSort::Bool, args);
        if let Some((l, r)) = pb {
            if !is_cmp_call_exec(&args[0]) && !is_cmp_call_exec(&args[1]) {
                return Ok(eq_term_exec(l, r, negate));
            }
        }
        if let Some((l, r)) = self.tr_pair_exec(VarSort::Int, VarSort::Int, args) {
            return Ok(eq_term_exec(l, r, negate));
        }
        if let Some((l, r)) = self.tr_pair_exec(VarSort::Real, VarSort::Real, args) {
            return Ok(eq_term_exec(l, r, negate));
        }
        if let Some((l, r)) = self.tr_pair_exec(VarSort::Int, VarSort::Real, args) {
            return Ok(eq_term_exec(to_real_exec(l), r, negate));
        }
        if let Some((l, r)) = self.tr_pair_exec(VarSort::Real, VarSort::Int, args) {
            return Ok(eq_term_exec(l, to_real_exec(r), negate));
        }
        if let Some((l, r)) = self.tr_pair_exec(VarSort::Str, VarSort::Str, args) {
            return Ok(eq_term_exec(l, r, negate));
        }
        Err(unsupported_exec("cannot translate comparison operands"))
    }

    fn translate_cmp_ord(&mut self, args: &Vec<Expr>, op: SmtOp) -> (r: Result<Term, TranslateError>)
        requires
            args@.len() >= 2,
            arity_ok_all(exprs_view(args@)),
        ensures
            (res_view(r), final(self)@) == tr_cmp_ord(old(self)@, exprs_view(args@), op),
        decreases args, 7nat, 0nat,
    {
        if let Some((l, r)) = self.tr_pair_exec(VarSort::Int, VarSort::Int, args) {
            return Ok(app2(op, l, r));
        }
        if let Some((l, r)) = self.tr_pair_exec(VarSort::Real, VarSort::Real, args) {
            return Ok(app2(op, l, r));
        }
        if let Some((l, r)) = self.tr_pair_exec(VarSort::Int, VarSort::Real, args) {
            return Ok(app2(op, to_real_exec(l), r));
        }
        if let Some((l, r)) = self.tr_pair_exec(VarSort::Real, VarSort::Int, args) {
            return Ok(app2(op, l, to_real_exec(r)));
        }
        let name = match op {
            SmtOp::Lt => "lt",
            SmtOp::Le => "le",
            SmtOp::Gt => "gt",
            _ => "ge",
        };
        Err(TranslateError::UnsupportedExpression(concat3("cannot translate ", name, " operands")))
    }
}

impl Translator {
    /// Binds one `let` binding, saving what its name was bound to; on a
    /// failure every saved binding is undone.
    fn push_one(&mut self, b: &LetBinding, saved: &mut Vec<(VarSort, String, Option<Term>)>) -> (r: Result<(), TranslateError>)
        requires
            arity_ok(binding_view(*b).value),
        ensures
            push_step(old(self)@, saved_view(old(saved)@), binding_view(*b)) == (match r {
                Ok(_) => (Ok::<Saved, SpecTErr>(saved_view(final(saved)@)), final(self)@),
                Err(x) => (Err::<Saved, SpecTErr>(terr_view(x)), final(self)@),
            }),
        decreases b, 8nat, 0nat,
    {
        let mut taken: Vec<(VarSort, String, Option<Term>)> = Vec::new();
        match sort_of_type_exec(&b.ty) {
            Some(VarSort::IntSeq) => {
                let m = concat3("let binding '", b.name.as_str(), "': Seq values cannot be constructed in contracts");
                std::mem::swap(&mut taken, saved);
                self.pop_let_bindings(taken);
                Err(TranslateError::UnsupportedExpression(m))
            },
            None => {
                let m = concat3("let binding '", b.name.as_str(), "': unsupported type");
                std::mem::swap(&mut taken, saved);
                self.pop_let_bindings(taken);
                Err(TranslateError::UnsupportedExpression(m))
            },
            Some(k) => {
                proof {
                    assert(decreases_to!(b => b.value));
                }
                let rv = self.tr_exec(k, &b.value);
                match rv {
                    Err(x) => {
                        std::mem::swap(&mut taken, saved);
                        self.pop_let_bindings(taken);
                        Err(x)
                    },
                    Ok(v) => {
                        let prev = self.var_insert(k, b.name.clone(), v);
                        let ghost before = saved@;
                        saved.push((k, b.name.clone(), prev));
                        proof {
                            assert(saved@.drop_last() =~= before);
                        }
                        Ok(())
                    },
                }
            },
        }
    }

    /// Binds a `let`'s bindings in order, each translated in the sort its
    /// type gives; on a failure the bindings made so far are undone.
    fn push_let_bindings(&mut self, e: &Expr) -> (r: Result<Vec<(VarSort, String, Option<Term>)>, TranslateError>)
        requires
            e.kind is Let,
            arity_ok(expr_view(*e)),
        ensures
            (match r {
                Ok(sv) => Ok(saved_view(sv@)),
                Err(x) => Err(terr_view(x)),
            }, final(self)@) == tr_push(old(self)@, expr_view(*e), expr_view(*e).kind->Let_0.len()),
        decreases e, 7nat, 0nat,
    {
        let ghost st0 = self@;
        let ghost ev = expr_view(*e);
        let bs = match &e.kind {
            ExprKind::Let(bs, _) => {
                proof {
                    assert(decreases_to!(e => bs));
                }
                bs
            },
            _ => { return Ok(Vec::new()); },
        };
        let ghost bv = bindings_view(bs@);
        assert(ev.kind->Let_0 == bv);
        proof {
            lemma_bindings_view_len(bs@);
        }
        let mut saved: Vec<(VarSort, String, Option<Term>)> = Vec::new();
        let mut i: usize = 0;
        while i < bs.len()
            invariant
                st0 == old(self)@,
                i <= bs@.len(),
                bv == bindings_view(bs@),
                bv.len() == bs@.len(),
                ev == expr_view(*e),
                ev.kind == SpecExprKind::Let(bv, ev.kind->Let_1),
                arity_ok_bindings(bv),
                decreases_to!(e => bs),
                tr_push(st0, ev, i as nat) == (Ok::<Saved, SpecTErr>(saved_view(saved@)), self@),
            decreases bs@.len() - i,
        {
            proof {
                lemma_bindings_view_index(bs@, i as int);
                lemma_arity_bindings(bv, i as int);
                assert(decreases_to!(bs => bs@));
                assert(decreases_to!(bs@ => bs@[i as int]));
                assert(decreases_to!(bs@[i as int] => bs@[i as int].value));
            }
            match self.push_one(&bs[i], &mut saved) {
                Err(x) => {
                    proof {
                        lemma_tr_push_err(st0, ev, (i + 1) as nat, bv.len());
                        assert(ev.kind->Let_0.len() == bv.len());
                    }
                    return Err(x);
                },
                Ok(()) => {},
            }
            i += 1;
        }
        Ok(saved)
    }

    fn translate_let(&mut self, k: VarSort, e: &Expr) -> (r: Result<Term, TranslateError>)
        requires
            e.kind is Let,
            arity_ok(expr_view(*e)),
        ensures
            (res_view(r), final(self)@) == tr_let(k, old(self)@, expr_view(*e)),
        decreases e, 8nat, 0nat,
    {
        let saved = match self.push_let_bindings(e) {
            Err(x) => { return Err(x); },
            Ok(sv) => sv,
        };
        match &e.kind {
            ExprKind::Let(_, body) => {
                let rb = self.tr_exec(k, body);
                self.pop_let_bindings(saved);
                rb
            },
            _ => Ok(Term::Bool(true)),
        }
    }
}

impl Translator {
    /// The condition under which a pattern matches the scrutinee of `e`.
    fn translate_pattern_condition(&mut self, e: &Expr, p: &Pattern) -> (r: Result<Term, TranslateError>)
        requires
            e.kind is Match,
            arity_ok(expr_view(*e)),
        ensures
            (res_view(r), final(self)@) == tr_pattern_cond(old(self)@, expr_view(*e), crate::ast::pattern_view(*p)),
        decreases e, 6nat, 0nat,
    {
        let scr = match &e.kind {
            ExprKind::Match(s, _) => s,
            _ => { return Ok(Term::Bool(true)); },
        };
        match &p.kind {
            PatternKind::Wildcard => Ok(Term::Bool(true)),
            PatternKind::Binding(_) => Ok(Term::Bool(true)),
            PatternKind::Literal(lit) => match lit {
                LitPattern::Int(v) => match self.tr_exec(VarSort::Int, scr) {
                    Err(x) => Err(x),
                    Ok(sv) => Ok(app2(SmtOp::Eq, sv, Term::Int(*v))),
                },
                LitPattern::Bool(b) => match self.tr_exec(VarSort::Bool, scr) {
                    Err(x) => Err(x),
                    Ok(sv) => Ok(app2(SmtOp::Eq, sv, Term::Bool(*b))),
                },
                LitPattern::Float(bits) => match self.tr_exec(VarSort::Real, scr) {
                    Err(x) => Err(x),
                    Ok(sv) => Ok(app2(SmtOp::Eq, sv, Term::FloatBits(*bits))),
                },
                LitPattern::Str(_) => Err(unsupported_exec("string literals in match patterns are not yet supported")),
                LitPattern::Nil => Err(unsupported_exec("nil pattern matching is not yet supported")),
            },
            PatternKind::Variant(_, _) => Err(unsupported_exec(
                "variant pattern matching requires type information and constructor awareness not yet integrated")),
        }
    }

    /// The body of arm `i` of the `match` `e`, with the scrutinee bound to
    /// the arm's name when its pattern is a bare binding.
    fn tr_arm_body_exec(&mut self, k: VarSort, e: &Expr, i: usize) -> (r: Result<Term, TranslateError>)
        requires
            e.kind is Match,
            i < e.kind->Match_1@.len(),
            arity_ok(expr_view(*e)),
        ensures
            (res_view(r), final(self)@) == tr_arm_body(k, old(self)@, expr_view(*e), i as int),
        decreases e, 6nat, 0nat,
    {
        let (scr, arms) = match &e.kind {
            ExprKind::Match(s, a) => (s, a),
            _ => { return Ok(Term::Bool(true)); },
        };
        proof {
            lemma_arms_view_index(arms@, i as int);
            lemma_arity_arms(arms_view(arms@), i as int);
            assert(decreases_to!(e => arms));
            assert(decreases_to!(arms => arms@));
            assert(decreases_to!(arms@ => arms@[i as int]));
            assert(decreases_to!(arms@[i as int] => arms@[i as int].body));
        }
        let arm = &arms[i];
        match &arm.pattern.kind {
            PatternKind::Binding(name) => {
                match self.tr_exec(k, scr) {
                    Err(x) => Err(x),
                    Ok(sv) => {
                        let prev = self.var_insert(k, name.clone(), sv);
                        match self.tr_exec(k, &arm.body) {
                            Err(x) => Err(x),
                            Ok(b) => {
                                self.var_restore(k, name.clone(), prev);
                                Ok(b)
                            },
                        }
                    },
                }
            },
            _ => self.tr_exec(k, &arm.body),
        }
    }

    /// One arm of the `if`-chain: the `n`-th arm wrapped around `acc`.
    fn tr_arms_step(&mut self, k: VarSort, e: &Expr, n: usize, acc: Term) -> (r: Result<Term, TranslateError>)
        requires
            e.kind is Match,
            0 < n < e.kind->Match_1@.len(),
            arity_ok(expr_view(*e)),
        ensures
            tr_arms(k, old(self)@, expr_view(*e), n as nat, term_view(acc)) == (match r {
                Ok(t) => tr_arms(k, final(self)@, expr_view(*e), (n - 1) as nat, term_view(t)),
                Err(x) => (Err(terr_view(x)), final(self)@),
            }),
        decreases e, 7nat, 0nat,
    {
        let arms = match &e.kind {
            ExprKind::Match(_, a) => a,
            _ => { return Ok(acc); },
        };
        proof {
            lemma_arms_view_index(arms@, n - 1);
        }
        let c = match self.translate_pattern_condition(e, &arms[n - 1].pattern) {
            Err(x) => { return Err(x); },
            Ok(c) => c,
        };
        let b = match self.tr_arm_body_exec(k, e, n - 1) {
            Err(x) => { return Err(x); },
            Ok(b) => b,
        };
        Ok(Term::App(SmtOp::Ite, vec3(c, b, acc)))
    }

    /// A `match` as an `if`-chain over its arms, the last arm innermost.
    fn translate_match(&mut self, k: VarSort, e: &Expr) -> (r: Result<Term, TranslateError>)
        requires
            e.kind is Match,
            arity_ok(expr_view(*e)),
        ensures
            (res_view(r), final(self)@) == tr_match(k, old(self)@, expr_view(*e)),
        decreases e, 8nat, 0nat,
    {
        let arms = match &e.kind {
            ExprKind::Match(_, a) => a,
            _ => { return Ok(Term::Bool(true)); },
        };
        let ghost ev = expr_view(*e);
        proof {
            lemma_arms_view_len(arms@);
        }
        if arms.len() == 0 {
            return Err(unsupported_exec("match with no arms"));
        }
        let mut acc = match self.tr_arm_body_exec(k, e, arms.len() - 1) {
            Err(x) => { return Err(x); },
            Ok(t) => t,
        };
        let ghost target = tr_arms(k, self@, ev, (arms@.len() - 1) as nat, term_view(acc));
        assert(tr_match(k, old(self)@, ev) == target);
        let mut n: usize = arms.len() - 1;
        while n > 0
            invariant
                tr_match(k, old(self)@, ev) == target,
                n < arms@.len(),
                ev == expr_view(*e),
                e.kind is Match,
                arity_ok(ev),
                arms@ == e.kind->Match_1@,
                tr_arms(k, self@, ev, n as nat, term_view(acc)) == target,
            decreases n,
        {
            match self.tr_arms_step(k, e, n, acc) {
                Err(x) => { return Err(x); },
                Ok(t) => { acc = t; },
            }
            n -= 1;
        }
        Ok(acc)
    }

    /// The quantifier's formula once its variable is bound.
    fn tr_quant_formula_exec(&mut self, e: &Expr, is_forall: bool) -> (r: Result<Term, TranslateError>)
        requires
            e.kind is Forall || e.kind is Exists,
            arity_ok(expr_view(*e)),
        ensures
            (res_view(r), final(self)@) == tr_quant_formula(old(self)@, expr_view(*e), is_forall),
        decreases e, 7nat, 0nat,
    {
        let (g, b) = match &e.kind {
            ExprKind::Forall(_, g, b) => (g, b),
            ExprKind::Exists(_, g, b) => (g, b),
            _ => { return Ok(Term::Bool(true)); },
        };
        let body = match self.tr_exec(VarSort::Bool, b) {
            Err(x) => { return Err(x); },
            Ok(t) => t,
        };
        match g {
            None => Ok(body),
            Some(gx) => {
                proof {
                    assert(decreases_to!(e => g));
                    assert(arity_ok_guard(opt_expr_box_view(*g)));
                    assert(opt_expr_box_view(*g) == Some(Box::new(expr_view(**gx))));
                }
                match self.tr_exec(VarSort::Bool, gx) {
                    Err(x) => Err(x),
                    Ok(guard) => if is_forall {
                        Ok(app2(SmtOp::Implies, guard, body))
                    } else {
                        Ok(app2(SmtOp::And, guard, body))
                    },
                }
            },
        }
    }

    /// A `forall` or `exists` over one typed variable: a shadowing name gets
    /// a fresh solver name, and the outer binding comes back afterwards.
    fn translate_quantifier(&mut self, e: &Expr, is_forall: bool) -> (r: Result<Term, TranslateError>)
        requires
            e.kind is Forall || e.kind is Exists,
            arity_ok(expr_view(*e)),
        ensures
            (res_view(r), final(self)@) == tr_quant(old(self)@, expr_view(*e), is_forall),
        decreases e, 8nat, 0nat,
    {
        let p = match &e.kind {
            ExprKind::Forall(p, _, _) => p,
            ExprKind::Exists(p, _, _) => p,
            _ => { return Ok(Term::Bool(true)); },
        };
        assert(quant_parts(expr_view(*e)).0 == param_view(**p));
        let tn = match &p.ty.kind {
            AstTypeKind::Named(tn) => tn,
            _ => { return Err(TranslateError::UnsupportedType(type_debug_text(&p.ty))); },
        };
        let k = match Translator::sort_from_type_name(tn.as_str()) {
            None => { return Err(TranslateError::UnsupportedType(tn.clone())); },
            Some(VarSort::IntSeq) => {
                return Err(unsupported_exec("quantifiers over List/Seq variables are not supported"));
            },
            Some(k) => k,
        };
        let zn = if self.var_contains(k, p.name.as_str()) {
            let n = self.quant_counter;
            self.quant_counter = if n == u64::MAX { 0 } else { n + 1 };
            let d = u64_to_string(n);
            concat3(p.name.as_str(), "_q", d.as_str())
        } else {
            p.name.clone()
        };
        let prev = self.var_insert(k, p.name.clone(), Term::Const(zn.clone(), k));
        let rf = self.tr_quant_formula_exec(e, is_forall);
        self.var_restore(k, p.name.clone(), prev);
        match rf {
            Err(x) => Err(x),
            Ok(f) => Ok(Term::Quant(is_forall, zn, k, Box::new(f))),
        }
    }
}

// ── Seeds for a recursive call ──────────────────────────────────────

pub open spec fn seed_view(v: SeedVal) -> (VarSort, SpecTerm) {
    match v {
        SeedVal::Int(t) => (VarSort::Int, term_view(t)),
        SeedVal::Bool(t) => (VarSort::Bool, term_view(t)),
        SeedVal::Real(t) => (VarSort::Real, term_view(t)),
    }
}

pub open spec fn seeds_view(s: Seq<SeedVal>) -> Seq<(VarSort, SpecTerm)>
    decreases s.len(),
{
    if s.len() == 0 {
        Seq::empty()
    } else {
        seeds_view(s.drop_last()).push(seed_view(s.last()))
    }
}

/// The seeds of the first `n` parameter/argument pairs: each argument
/// translated in its parameter's sort (integer, boolean or real); `None`
/// when one cannot be.
pub open spec fn arg_seeds(st: TrState, params: Seq<SpecParam>, args: Seq<SpecExpr>, n: nat)
    -> (Option<Seq<(VarSort, SpecTerm)>>, TrState)
    decreases n,
{
    if n == 0 || n > params.len() || n > args.len() {
        (Some(Seq::empty()), st)
    } else {
        let (rs, s1) = arg_seeds(st, params, args, (n - 1) as nat);
        match rs {
            None => (None, s1),
            Some(seeds) => match sort_of_type(params[n - 1].ty) {
                Some(VarSort::Int) | Some(VarSort::Bool) | Some(VarSort::Real) => {
                    let k = sort_of_type(params[n - 1].ty).unwrap();
                    let (r, s2) = tr(k, s1, args[n - 1]);
                    match r {
                        Err(_) => (None, s2),
                        Ok(t) => (Some(seeds.push((k, t))), s2),
                    }
                },
                _ => (None, s1),
            },
        }
    }
}

pub open spec fn min_len(a: nat, b: nat) -> nat {
    if a < b { a } else { b }
}

/// The seeds for one recursive call: the arguments in their parameters'
/// sorts, and the call itself as an uninterpreted application of the
/// function with its return sort.
pub open spec fn recursive_seeds(st: TrState, name: Seq<char>, args: Seq<SpecExpr>, ret: SpecAstType,
    params: Seq<SpecParam>) -> (Option<(Seq<(VarSort, SpecTerm)>, (VarSort, SpecTerm))>, TrState) {
    let (ra, s1) = arg_seeds(st, params, args, min_len(params.len(), args.len()));
    match ra {
        None => (None, s1),
        Some(seeds) => match sort_of_type(ret) {
            None => (None, s1),
            Some(k) => {
                let (rc, s2) = tr_uninterp(s1, name, args, k);
                match rc {
                    Err(_) => (None, s2),
                    Ok(call) => match k {
                        VarSort::Int | VarSort::Bool | VarSort::Real => (Some((seeds, (k, call))), s2),
                        _ => (None, s2),
                    },
                }
            },
        },
    }
}

pub(crate) proof fn lemma_params_view_index(s: Seq<Param>, i: int)
    requires
        0 <= i < s.len(),
    ensures
        params_view(s).len() == s.len(),
        params_view(s)[i] == param_view(s[i]),
    decreases s.len(),
{
    lemma_params_view_len(s);
    if i < s.len() - 1 {
        lemma_params_view_index(s.drop_last(), i);
    }
}

pub(crate) proof fn lemma_params_view_len(s: Seq<Param>)
    ensures
        params_view(s).len() == s.len(),
    decreases s.len(),
{
    if s.len() > 0 {
        lemma_params_view_len(s.drop_last());
    }
}

proof fn lemma_arg_seeds_none(st: TrState, params: Seq<SpecParam>, args: Seq<SpecExpr>, n: nat, m: nat)
    requires
        n <= m <= params.len(),
        m <= args.len(),
        arg_seeds(st, params, args, n).0 is None,
    ensures
        arg_seeds(st, params, args, m) == arg_seeds(st, params, args, n),
    decreases m - n,
{
    if n < m {
        lemma_arg_seeds_none(st, params, args, n, (m - 1) as nat);
    }
}

impl Translator {
    /// Translates `expr` as a boolean (a contract clause).
    pub fn translate_bool(&mut self, expr: &Expr) -> (r: Result<Term, TranslateError>)
        requires
            arity_ok(expr_view(*expr)),
        ensures
            (res_view(r), final(self)@) == tr(VarSort::Bool, old(self)@, expr_view(*expr)),
    {
        self.tr_exec(VarSort::Bool, expr)
    }

    /// Translates `expr` as an integer.
    pub fn translate_int(&mut self, expr: &Expr) -> (r: Result<Term, TranslateError>)
        requires
            arity_ok(expr_view(*expr)),
        ensures
            (res_view(r), final(self)@) == tr(VarSort::Int, old(self)@, expr_view(*expr)),
    {
        self.tr_exec(VarSort::Int, expr)
    }

    /// Translates `expr` as a real.
    pub fn translate_real(&mut self, expr: &Expr) -> (r: Result<Term, TranslateError>)
        requires
            arity_ok(expr_view(*expr)),
        ensures
            (res_view(r), final(self)@) == tr(VarSort::Real, old(self)@, expr_view(*expr)),
    {
        self.tr_exec(VarSort::Real, expr)
    }

    /// Translates `expr` as a string.
    pub fn translate_string(&mut self, expr: &Expr) -> (r: Result<Term, TranslateError>)
        requires
            arity_ok(expr_view(*expr)),
        ensures
            (res_view(r), final(self)@) == tr(VarSort::Str, old(self)@, expr_view(*expr)),
    {
        self.tr_exec(VarSort::Str, expr)
    }

    /// The seeds for a recursive call `fn_name(call_args)` of a function with
    /// these parameters and return type; `None` when an argument or the
    /// return type has no integer, boolean or real translation.
    pub fn apply_recursive_fn_as_result(&mut self, fn_name: &str, call_args: &Vec<Expr>, return_type: &AstType,
        params: &Vec<Param>) -> (r: Option<(Vec<SeedVal>, SeedVal)>)
        requires
            arity_ok_all(exprs_view(call_args@)),
        ensures
            (match r {
                Some((seeds, res)) => Some((seeds_view(seeds@), seed_view(res))),
                None => None,
            }, final(self)@) == recursive_seeds(old(self)@, fn_name@, exprs_view(call_args@), ast_type_view(*return_type),
                params_view(params@)),
    {
        let ghost st0 = self@;
        let ghost pv = params_view(params@);
        let ghost av = exprs_view(call_args@);
        proof {
            lemma_params_view_len(params@);
            lemma_exprs_view_len(call_args@);
        }
        let n = if params.len() < call_args.len() { params.len() } else { call_args.len() };
        let mut seeds: Vec<SeedVal> = Vec::new();
        let mut i: usize = 0;
        while i < n
            invariant
                st0 == old(self)@,
                pv == params_view(params@),
                av == exprs_view(call_args@),
                pv.len() == params@.len(),
                av.len() == call_args@.len(),
                n == min_len(pv.len(), av.len()),
                i <= n,
                arity_ok_all(av),
                arg_seeds(st0, pv, av, i as nat) == (Some(seeds_view(seeds@)), self@),
            decreases n - i,
        {
            proof {
                lemma_params_view_index(params@, i as int);
                lemma_exprs_view_index(call_args@, i as int);
                lemma_arity_all(av, i as int);
            }
            let k = match sort_of_type_exec(&params[i].ty) {
                Some(VarSort::Int) => VarSort::Int,
                Some(VarSort::Bool) => VarSort::Bool,
                Some(VarSort::Real) => VarSort::Real,
                _ => {
                    proof {
                        lemma_arg_seeds_none(st0, pv, av, (i + 1) as nat, n as nat);
                    }
                    return None;
                },
            };
            match self.tr_exec(k, &call_args[i]) {
                Err(_) => {
                    proof {
                        lemma_arg_seeds_none(st0, pv, av, (i + 1) as nat, n as nat);
                    }
                    return None;
                },
                Ok(t) => {
                    let ghost before = seeds@;
                    let sv = match k {
                        VarSort::Int => SeedVal::Int(t),
                        VarSort::Bool => SeedVal::Bool(t),
                        _ => SeedVal::Real(t),
                    };
                    seeds.push(sv);
                    proof {
                        assert(seeds@.drop_last() =~= before);
                    }
                },
            }
            i += 1;
        }
        let k = match sort_of_type_exec(return_type) {
            None => { return None; },
            Some(k) => k,
        };
        match self.apply_uninterpreted_fn(fn_name, call_args, k) {
            Err(_) => None,
            Ok(call) => match k {
                VarSort::Int => Some((seeds, SeedVal::Int(call))),
                VarSort::Bool => Some((seeds, SeedVal::Bool(call))),
                VarSort::Real => Some((seeds, SeedVal::Real(call))),
                _ => None,
            },
        }
    }
}

/// Whether every operator call the translator may reach in `e` has the
/// operands it reads.
pub fn check_arity(e: &Expr) -> (b: bool)
    ensures
        b == arity_ok(expr_view(*e)),
    decreases e, 1nat,
{
    match &e.kind {
        ExprKind::FnCall(f, args) => {
            proof {
                lemma_exprs_view_len(args@);
            }
            let head = match &f.kind {
                ExprKind::SymbolRef(op) => {
                    proof {
                        assert(expr_view(**f).kind == SpecExprKind::SymbolRef(op@));
                    }
                    let o = op.as_str();
                    let need: usize = if str_eq(o, "=") || str_eq(o, "!=") || str_eq(o, "<") || str_eq(o, ">")
                        || str_eq(o, "<=") || str_eq(o, ">=") || str_eq(o, "and") || str_eq(o, "or")
                        || str_eq(o, "string-contains?") || str_eq(o, "string-prefix?") || str_eq(o, "string-suffix?")
                        || str_eq(o, "list-contains?") || str_eq(o, "/") || str_eq(o, "%") {
                        2
                    } else if str_eq(o, "not") || str_eq(o, "string-length") || str_eq(o, "length") {
                        1
                    } else {
                        0
                    };
                    args.len() >= need
                },
                _ => {
                    proof {
                        assert(!(expr_view(**f).kind is SymbolRef));
                    }
                    true
                },
            };
            head && check_arity_all(args)
        },
        ExprKind::If(c, t, f) => check_arity(c) && check_arity(t) && check_arity(f),
        ExprKind::Let(bs, body) => check_arity_bindings(bs) && check_arity(body),
        ExprKind::Do(es) => check_arity_all(es),
        ExprKind::Match(sc, arms) => check_arity(sc) && check_arity_arms(arms),
        ExprKind::Forall(_, g, b) => check_arity_guard(g) && check_arity(b),
        ExprKind::Exists(_, g, b) => check_arity_guard(g) && check_arity(b),
        _ => true,
    }
}

fn check_arity_guard(g: &Option<Box<Expr>>) -> (b: bool)
    ensures
        b == arity_ok_guard(opt_expr_box_view(*g)),
    decreases g, 0nat,
{
    match g {
        Some(x) => check_arity(x),
        None => true,
    }
}

pub(crate) fn check_arity_all(v: &Vec<Expr>) -> (b: bool)
    ensures
        b == arity_ok_all(exprs_view(v@)),
    decreases v, 0nat,
{
    let mut ok = true;
    let mut i: usize = 0;
    assert(v@.take(0) =~= Seq::<Expr>::empty());
    while i < v.len()
        invariant
            i <= v@.len(),
            ok == arity_ok_all(exprs_view(v@.take(i as int))),
        decreases v@.len() - i,
    {
        proof {
            assert(decreases_to!(v => v@));
            assert(decreases_to!(v@ => v@[i as int]));
            assert(v@.take(i + 1).drop_last() =~= v@.take(i as int));
            assert(exprs_view(v@.take(i + 1)) == exprs_view(v@.take(i as int)).push(expr_view(v@[i as int])));
            assert(exprs_view(v@.take(i + 1)).drop_last() =~= exprs_view(v@.take(i as int)));
        }
        let c = check_arity(&v[i]);
        ok = ok && c;
        i += 1;
    }
    assert(v@.take(i as int) =~= v@);
    ok
}

fn check_arity_bindings(v: &Vec<LetBinding>) -> (b: bool)
    ensures
        b == arity_ok_bindings(bindings_view(v@)),
    decreases v, 0nat,
{
    let mut ok = true;
    let mut i: usize = 0;
    assert(v@.take(0) =~= Seq::<LetBinding>::empty());
    while i < v.len()
        invariant
            i <= v@.len(),
            ok == arity_ok_bindings(bindings_view(v@.take(i as int))),
        decreases v@.len() - i,
    {
        proof {
            assert(decreases_to!(v => v@));
            assert(decreases_to!(v@ => v@[i as int]));
            assert(decreases_to!(v@[i as int] => v@[i as int].value));
            assert(v@.take(i + 1).drop_last() =~= v@.take(i as int));
            assert(bindings_view(v@.take(i + 1)) == bindings_view(v@.take(i as int)).push(binding_view(v@[i as int])));
            assert(bindings_view(v@.take(i + 1)).drop_last() =~= bindings_view(v@.take(i as int)));
        }
        let c = check_arity(&v[i].value);
        ok = ok && c;
        i += 1;
    }
    assert(v@.take(i as int) =~= v@);
    ok
}

fn check_arity_arms(v: &Vec<MatchArm>) -> (b: bool)
    ensures
        b == arity_ok_arms(arms_view(v@)),
    decreases v, 0nat,
{
    let mut ok = true;
    let mut i: usize = 0;
    assert(v@.take(0) =~= Seq::<MatchArm>::empty());
    while i < v.len()
        invariant
            i <= v@.len(),
            ok == arity_ok_arms(arms_view(v@.take(i as int))),
        decreases v@.len() - i,
    {
        proof {
            assert(decreases_to!(v => v@));
            assert(decreases_to!(v@ => v@[i as int]));
            assert(decreases_to!(v@[i as int] => v@[i as int].body));
            assert(v@.take(i + 1).drop_last() =~= v@.take(i as int));
            assert(arms_view(v@.take(i + 1)) == arms_view(v@.take(i as int)).push(arm_view(v@[i as int])));
            assert(arms_view(v@.take(i + 1)).drop_last() =~= arms_view(v@.take(i as int)));
        }
        let c = check_arity(&v[i].body);
        ok = ok && c;
        i += 1;
    }
    assert(v@.take(i as int) =~= v@);
    ok
}


// ── What the comparisons mean ───────────────────────────────────────

/// The integer an integer term stands for, given the integer constants'
/// values.
pub open spec fn int_value(t: SpecTerm, env: spec_fn(Seq<char>) -> int) -> Option<int> {
    match t {
        SpecTerm::Int(v) => Some(v as int),
        SpecTerm::Const(n, VarSort::Int) => Some(env(n)),
        _ => None,
    }
}

/// The truth of a comparison term between two integer terms, by the SMT
/// meaning of its operator.
pub open spec fn comparison_value(t: SpecTerm, env: spec_fn(Seq<char>) -> int) -> Option<bool> {
    match t {
        SpecTerm::App(op, args) => if args.len() == 2 {
            match (int_value(args[0], env), int_value(args[1], env)) {
                (Some(x), Some(y)) => match op {
                    SmtOp::Lt => Some(x < y),
                    SmtOp::Le => Some(x <= y),
                    SmtOp::Gt => Some(x > y),
                    SmtOp::Ge => Some(x >= y),
                    SmtOp::Eq => Some(x == y),
                    _ => None,
                },
                _ => None,
            }
        } else {
            None
        },
        _ => None,
    }
}

/// What an AIRL comparison symbol says of two integers.
pub open spec fn airl_comparison(op: Seq<char>, x: int, y: int) -> bool {
    if op == "<"@ {
        x < y
    } else if op == "<="@ {
        x <= y
    } else if op == ">"@ {
        x > y
    } else {
        x >= y
    }
}

pub open spec fn call2(op: Seq<char>, a: SpecExpr, b: SpecExpr, sp: Span) -> SpecExpr {
    SpecExpr {
        kind: SpecExprKind::FnCall(Box::new(SpecExpr { kind: SpecExprKind::SymbolRef(op), span: sp }), seq![a, b]),
        span: sp,
    }
}

proof fn lemma_cmp_symbols_distinct()
    ensures
        "<"@ != "="@, "<"@ != "!="@,
        "<="@ != "="@, "<="@ != "!="@, "<="@ != "<"@, "<="@ != ">"@,
        ">"@ != "="@, ">"@ != "!="@, ">"@ != "<"@,
        ">="@ != "="@, ">="@ != "!="@, ">="@ != "<"@, ">="@ != ">"@, ">="@ != "<="@,
{
    reveal_strlit("=");
    reveal_strlit("!=");
    reveal_strlit("<");
    reveal_strlit(">");
    reveal_strlit("<=");
    reveal_strlit(">=");
    assert("<"@[0] != "="@[0]);
    assert("<"@.len() != "!="@.len());
    assert("<="@.len() != "="@.len());
    assert("<="@[0] != "!="@[0]);
    assert("<="@.len() != "<"@.len());
    assert("<="@.len() != ">"@.len());
    assert(">"@[0] != "="@[0]);
    assert(">"@.len() != "!="@.len());
    assert(">"@[0] != "<"@[0]);
    assert(">="@.len() != "="@.len());
    assert(">="@[0] != "!="@[0]);
    assert(">="@.len() != "<"@.len());
    assert(">="@.len() != ">"@.len());
    assert(">="@[0] != "<="@[0]);
}

/// The SMT operator an ordered comparison symbol translates to.
proof fn lemma_cmp_dispatch(st: TrState, op: Seq<char>, args: Seq<SpecExpr>, smt: SmtOp)
    requires
        (op == "<"@ && smt == SmtOp::Lt) || (op == "<="@ && smt == SmtOp::Le) || (op == ">"@ && smt == SmtOp::Gt)
            || (op == ">="@ && smt == SmtOp::Ge),
    ensures
        tr_op(VarSort::Bool, st, op, args) == tr_cmp_ord(st, args, smt),
{
    lemma_cmp_symbols_distinct();
}

/// An ordered comparison `(op a b)` of two integer operands translates to a
/// term that holds exactly when the operands' values stand in the relation
/// `op` names: `<` strictly less, `<=` less or equal, `>` strictly greater,
/// `>=` greater or equal.
pub proof fn law_comparisons_keep_their_meaning(st: TrState, op: Seq<char>, a: SpecExpr, b: SpecExpr, sp: Span,
    env: spec_fn(Seq<char>) -> int)
    requires
        op == "<"@ || op == "<="@ || op == ">"@ || op == ">="@,
        tr(VarSort::Int, st, a).0 is Ok,
        tr(VarSort::Int, tr(VarSort::Int, st, a).1, b).0 is Ok,
        int_value(tr(VarSort::Int, st, a).0->Ok_0, env) is Some,
        int_value(tr(VarSort::Int, tr(VarSort::Int, st, a).1, b).0->Ok_0, env) is Some,
    ensures
        tr(VarSort::Bool, st, call2(op, a, b, sp)).0 is Ok,
        comparison_value(tr(VarSort::Bool, st, call2(op, a, b, sp)).0->Ok_0, env) == Some(airl_comparison(op,
            int_value(tr(VarSort::Int, st, a).0->Ok_0, env)->Some_0,
            int_value(tr(VarSort::Int, tr(VarSort::Int, st, a).1, b).0->Ok_0, env)->Some_0)),
{
    let e = call2(op, a, b, sp);
    let args = seq![a, b];
    assert(args.len() == 2 && args[0] == a && args[1] == b);
    assert(tr(VarSort::Bool, st, e) == tr_op(VarSort::Bool, st, op, args));
    let (ra, s1) = tr(VarSort::Int, st, a);
    let (rb, s2) = tr(VarSort::Int, s1, b);
    assert(tr_pair(VarSort::Int, VarSort::Int, st, args) == (Some((ra->Ok_0, rb->Ok_0)), s2));
    lemma_cmp_symbols_distinct();
    let smt = if op == "<"@ {
        SmtOp::Lt
    } else if op == "<="@ {
        SmtOp::Le
    } else if op == ">"@ {
        SmtOp::Gt
    } else {
        SmtOp::Ge
    };
    lemma_cmp_dispatch(st, op, args, smt);
    assert(tr_cmp_ord(st, args, smt).0 == Ok::<SpecTerm, SpecTErr>(app(smt, seq![ra->Ok_0, rb->Ok_0])));
}

/// The integer an arithmetic term between two integer terms stands for, by
/// the SMT meaning of its operator.
pub open spec fn arithmetic_value(t: SpecTerm, env: spec_fn(Seq<char>) -> int) -> Option<int> {
    match t {
        SpecTerm::App(op, args) => if args.len() == 2 {
            match (int_value(args[0], env), int_value(args[1], env)) {
                (Some(x), Some(y)) => match op {
                    SmtOp::Add => Some(x + y),
                    SmtOp::Sub => Some(x - y),
                    SmtOp::Mul => Some(x * y),
                    _ => None,
                },
                _ => None,
            }
        } else {
            None
        },
        _ => None,
    }
}

/// What an AIRL arithmetic symbol computes of two integers.
pub open spec fn airl_arithmetic(op: Seq<char>, x: int, y: int) -> int {
    if op == "+"@ {
        x + y
    } else if op == "-"@ {
        x - y
    } else {
        x * y
    }
}

proof fn lemma_arith_symbols_distinct()
    ensures
        "+"@ != "-"@, "+"@ != "*"@, "-"@ != "*"@,
{
    reveal_strlit("+");
    reveal_strlit("-");
    reveal_strlit("*");
    assert("+"@[0] != "-"@[0]);
    assert("+"@[0] != "*"@[0]);
    assert("-"@[0] != "*"@[0]);
}

/// An integer `(op a b)` with `op` one of `+`, `-`, `*` translates to a term
/// whose value is the sum, difference or product of the operands' values.
pub proof fn law_arithmetic_keeps_its_meaning(st: TrState, op: Seq<char>, a: SpecExpr, b: SpecExpr, sp: Span,
    env: spec_fn(Seq<char>) -> int)
    requires
        op == "+"@ || op == "-"@ || op == "*"@,
        tr(VarSort::Int, st, a).0 is Ok,
        tr(VarSort::Int, tr(VarSort::Int, st, a).1, b).0 is Ok,
        int_value(tr(VarSort::Int, st, a).0->Ok_0, env) is Some,
        int_value(tr(VarSort::Int, tr(VarSort::Int, st, a).1, b).0->Ok_0, env) is Some,
    ensures
        tr(VarSort::Int, st, call2(op, a, b, sp)).0 is Ok,
        arithmetic_value(tr(VarSort::Int, st, call2(op, a, b, sp)).0->Ok_0, env) == Some(airl_arithmetic(op,
            int_value(tr(VarSort::Int, st, a).0->Ok_0, env)->Some_0,
            int_value(tr(VarSort::Int, tr(VarSort::Int, st, a).1, b).0->Ok_0, env)->Some_0)),
{
    lemma_arith_symbols_distinct();
    let e = call2(op, a, b, sp);
    let args = seq![a, b];
    assert(args.len() == 2 && args[0] == a && args[1] == b);
    assert(tr(VarSort::Int, st, e) == tr_op(VarSort::Int, st, op, args));
    let (ra, s1) = tr(VarSort::Int, st, a);
    let (rb, s2) = tr(VarSort::Int, s1, b);
    assert(args.drop_last() =~= seq![a]);
    assert(seq![a].drop_last() =~= Seq::<SpecExpr>::empty());
    assert(tr_list(VarSort::Int, st, seq![a]) == (Ok::<Seq<SpecTerm>, SpecTErr>(seq![ra->Ok_0]), s1)) by {
        assert(seq![a].drop_last() =~= Seq::<SpecExpr>::empty());
        assert(seq![a].last() == a);
        assert(tr_list(VarSort::Int, st, Seq::<SpecExpr>::empty()) == (Ok::<Seq<SpecTerm>, SpecTErr>(Seq::empty()), st));
        assert(Seq::<SpecTerm>::empty().push(ra->Ok_0) =~= seq![ra->Ok_0]);
    }
    assert(tr_list(VarSort::Int, st, args) == (Ok::<Seq<SpecTerm>, SpecTErr>(seq![ra->Ok_0, rb->Ok_0]), s2)) by {
        assert(args.last() == b);
        assert(seq![ra->Ok_0].push(rb->Ok_0) =~= seq![ra->Ok_0, rb->Ok_0]);
    }
    if op == "+"@ {
        assert(tr_op(VarSort::Int, st, op, args) == tr_nary(VarSort::Int, st, args, SmtOp::Add));
    } else if op == "-"@ {
        assert(tr_op(VarSort::Int, st, op, args) == tr_binary(VarSort::Int, st, args, SmtOp::Sub));
    } else {
        assert(tr_op(VarSort::Int, st, op, args) == tr_nary(VarSort::Int, st, args, SmtOp::Mul));
    }
}

} // verus!
