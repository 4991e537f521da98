//! Top-level forms: `defn`, `define`, `deftype`, `module`, `task`, `use`,
//! `import`, `extern-c`, and bare expressions.
use vstd::prelude::*;
use crate::span::Span;
use crate::sexpr::{SExpr, Atom, AtomKind, SpecSExpr, SpecAtom, SpecAtomKind, sexpr_view, sexprs_view, spec_span_of};
use crate::diagnostic::{Diagnostic, Diagnostics, SpecDiagnostic, SpecDiags, spec_error, spec_warning, spec_add};
use crate::ast::{AstType, AstTypeKind, SpecAstType, ast_type_view, Expr, ExprKind, Param, SpecExpr, SpecExprKind, SpecParam,
    expr_view, exprs_view, param_view, params_view, opt_expr_view, TopLevel, ModuleDef, FnDef, SimpleFnDef, ExternCDecl,
    TaskDef, ExpectedOutput, Constraint, ConstraintKind, Version, VerifyLevel, ExecTarget, Priority, UseDef, UseKind,
    SpecTypeDef, type_def_view, TypeDef};
use crate::parser::{spec_symbol_of, spec_keyword_of, spec_expect_symbol, spec_expect_string, spec_type_from_slice,
    named_type, SpecExecTarget, exec_target_view, spec_parse_exec_target, spec_parse_priority, spec_parse_verify_level,
    spec_parse_symbol_list, strings_view, SpecUseKind, use_kind_view, spec_parse_use, spec_parse_deftype,
    spec_parse_version, expect_symbol, expect_string, parse_type_from_slice, parse_exec_target, parse_priority,
    parse_verify_level, parse_symbol_list, parse_use, parse_deftype, lemma_sexprs_view};
use crate::forms::{Parsed, sx, call_of, spec_expr, spec_exprs_acc, spec_param, parse_expr, parse_param, expr_res,
    exprs_res, params_res, lemma_exprs_view_push, lemma_exprs_view_concat, lemma_params_view_push};
use crate::text::str_eq;

verus! {

// ── Top-level forms as values ───────────────────────────────────────

pub struct SpecFnDef {
    pub name: Seq<char>,
    pub params: Seq<SpecParam>,
    pub return_type: SpecAstType,
    pub intent: Option<Seq<char>>,
    pub requires: Seq<SpecExpr>,
    pub ensures: Seq<SpecExpr>,
    pub invariants: Seq<SpecExpr>,
    pub is_pure: bool,
    pub is_total: bool,
    pub body: SpecExpr,
    pub execute_on: Option<SpecExecTarget>,
    pub priority: Option<Priority>,
    pub is_public: bool,
    pub span: Span,
}

pub struct SpecSimpleFnDef {
    pub name: Seq<char>,
    pub params: Seq<Seq<char>>,
    pub body: SpecExpr,
    pub span: Span,
}

pub struct SpecExternC {
    pub c_name: Seq<char>,
    pub params: Seq<SpecParam>,
    pub return_type: SpecAstType,
    pub span: Span,
}

pub struct SpecExpectedOutput {
    pub params: Seq<SpecParam>,
    pub ensures: Seq<SpecExpr>,
    pub span: Span,
}

pub enum SpecConstraintKind {
    MaxMemory(SpecExpr),
    MaxTokens(SpecExpr),
    NoNetwork(bool),
    Custom(Seq<char>, SpecExpr),
}

pub struct SpecConstraint {
    pub kind: SpecConstraintKind,
    pub span: Span,
}

pub struct SpecTaskDef {
    pub id: Seq<char>,
    pub from: SpecExpr,
    pub to: SpecExpr,
    pub deadline: Option<SpecExpr>,
    pub intent: Option<Seq<char>>,
    pub input: Seq<SpecParam>,
    pub expected_output: Option<SpecExpectedOutput>,
    pub constraints: Seq<SpecConstraint>,
    pub on_success: Option<SpecExpr>,
    pub on_failure: Option<SpecExpr>,
    pub on_timeout: Option<SpecExpr>,
    pub span: Span,
}

pub struct SpecModuleDef {
    pub name: Seq<char>,
    pub version: Option<Version>,
    pub requires: Seq<Seq<char>>,
    pub provides: Seq<Seq<char>>,
    pub verify: VerifyLevel,
    pub execute_on: Option<SpecExecTarget>,
    pub body: Seq<SpecTopLevel>,
    pub span: Span,
}

pub enum SpecTopLevel {
    Module(SpecModuleDef),
    Defn(SpecFnDef),
    Define(SpecSimpleFnDef),
    DefType(SpecTypeDef),
    Task(SpecTaskDef),
    UseDecl(Seq<char>, SpecUseKind, Span),
    Import(Seq<char>, Option<Seq<char>>, Option<Seq<Seq<char>>>, Span),
    ExternC(SpecExternC),
    Expr(SpecExpr),
}

pub open spec fn opt_str_view(s: Option<String>) -> Option<Seq<char>> {
    match s {
        Some(x) => Some(x@),
        None => None,
    }
}

pub open spec fn opt_target_view(t: Option<ExecTarget>) -> Option<SpecExecTarget> {
    match t {
        Some(x) => Some(exec_target_view(x)),
        None => None,
    }
}

pub open spec fn fn_def_view(f: FnDef) -> SpecFnDef {
    SpecFnDef {
        name: f.name@,
        params: params_view(f.params@),
        return_type: ast_type_view(f.return_type),
        intent: opt_str_view(f.intent),
        requires: exprs_view(f.requires@),
        ensures: exprs_view(f.ensures@),
        invariants: exprs_view(f.invariants@),
        is_pure: f.is_pure,
        is_total: f.is_total,
        body: expr_view(f.body),
        execute_on: opt_target_view(f.execute_on),
        priority: f.priority,
        is_public: f.is_public,
        span: f.span,
    }
}

pub open spec fn expected_output_view(o: ExpectedOutput) -> SpecExpectedOutput {
    SpecExpectedOutput { params: params_view(o.params@), ensures: exprs_view(o.ensures@), span: o.span }
}

pub open spec fn constraint_view(c: Constraint) -> SpecConstraint {
    SpecConstraint {
        kind: match c.kind {
            ConstraintKind::MaxMemory(e) => SpecConstraintKind::MaxMemory(expr_view(e)),
            ConstraintKind::MaxTokens(e) => SpecConstraintKind::MaxTokens(expr_view(e)),
            ConstraintKind::NoNetwork(b) => SpecConstraintKind::NoNetwork(b),
            ConstraintKind::Custom(n, e) => SpecConstraintKind::Custom(n@, expr_view(e)),
        },
        span: c.span,
    }
}

pub open spec fn constraints_view(s: Seq<Constraint>) -> Seq<SpecConstraint> {
    Seq::new(s.len(), |k: int| constraint_view(s[k]))
}

pub open spec fn task_view(t: TaskDef) -> SpecTaskDef {
    SpecTaskDef {
        id: t.id@,
        from: expr_view(t.from),
        to: expr_view(t.to),
        deadline: opt_expr_view(t.deadline),
        intent: opt_str_view(t.intent),
        input: params_view(t.input@),
        expected_output: match t.expected_output {
            Some(o) => Some(expected_output_view(o)),
            None => None,
        },
        constraints: constraints_view(t.constraints@),
        on_success: opt_expr_view(t.on_success),
        on_failure: opt_expr_view(t.on_failure),
        on_timeout: opt_expr_view(t.on_timeout),
        span: t.span,
    }
}

pub open spec fn top_level_view(t: TopLevel) -> SpecTopLevel
    decreases t, 2nat,
{
    match t {
        TopLevel::Module(m) => SpecTopLevel::Module(module_view(m)),
        TopLevel::Defn(f) => SpecTopLevel::Defn(fn_def_view(f)),
        TopLevel::Define(d) => SpecTopLevel::Define(SpecSimpleFnDef {
            name: d.name@,
            params: strings_view(d.params@),
            body: expr_view(d.body),
            span: d.span,
        }),
        TopLevel::DefType(d) => SpecTopLevel::DefType(type_def_view(d)),
        TopLevel::Task(k) => SpecTopLevel::Task(task_view(k)),
        TopLevel::UseDecl(u) => SpecTopLevel::UseDecl(u.module@, use_kind_view(u.kind), u.span),
        TopLevel::Import { path, alias, only, span } => SpecTopLevel::Import(path@, opt_str_view(alias), match only {
            Some(v) => Some(strings_view(v@)),
            None => None,
        }, span),
        TopLevel::ExternC(x) => SpecTopLevel::ExternC(SpecExternC {
            c_name: x.c_name@,
            params: params_view(x.params@),
            return_type: ast_type_view(x.return_type),
            span: x.span,
        }),
        TopLevel::Expr(e) => SpecTopLevel::Expr(expr_view(e)),
    }
}

pub open spec fn module_view(m: ModuleDef) -> SpecModuleDef
    decreases m, 1nat,
{
    SpecModuleDef {
        name: m.name@,
        version: m.version,
        requires: strings_view(m.requires@),
        provides: strings_view(m.provides@),
        verify: m.verify,
        execute_on: opt_target_view(m.execute_on),
        body: top_levels_view(m.body@),
        span: m.span,
    }
}

pub open spec fn top_levels_view(s: Seq<TopLevel>) -> Seq<SpecTopLevel>
    decreases s, 0nat,
{
    if s.len() == 0 {
        Seq::empty()
    } else {
        top_levels_view(s.drop_last()).push(top_level_view(s.last()))
    }
}

// ── Lists of expressions and of parameters ──────────────────────────

/// `[e1 e2 ...]`, or a single expression standing for a list of one.
pub open spec fn spec_expr_list(e: SpecSExpr, st: SpecDiags) -> Parsed<Seq<SpecExpr>> {
    match e {
        SpecSExpr::BracketList(items, _) => spec_exprs_acc(items, 0, Seq::empty(), st),
        _ => match spec_expr(e, st) {
            (Err(d), s) => (Err(d), s),
            (Ok(x), s) => (Ok(seq![x]), s),
        },
    }
}

pub open spec fn spec_params_acc(items: Seq<SpecSExpr>, i: nat, acc: Seq<SpecParam>, st: SpecDiags) -> Parsed<Seq<SpecParam>>
    decreases items.len() - i,
{
    if i >= items.len() {
        (Ok(acc), st)
    } else {
        match spec_param(items[i as int], st) {
            (Err(d), s) => (Err(d), s),
            (Ok(p), s) => spec_params_acc(items, i + 1, acc.push(p), s),
        }
    }
}

/// `[p1 p2 ...]`: full parameters.
pub open spec fn spec_param_list(e: SpecSExpr, st: SpecDiags) -> Parsed<Seq<SpecParam>> {
    match e {
        SpecSExpr::BracketList(items, _) => spec_params_acc(items, 0, Seq::empty(), st),
        _ => (Err(spec_error("expected bracket list for params"@, spec_span_of(e))), st),
    }
}

/// The index of the first `->` in `items`.
pub open spec fn arrow_position(items: Seq<SpecSExpr>, from: nat) -> Option<nat>
    decreases items.len() - from,
{
    if from >= items.len() {
        None
    } else if items[from as int] matches SpecSExpr::Atom(SpecAtom { kind: SpecAtomKind::Arrow, .. }) {
        Some(from)
    } else {
        arrow_position(items, from + 1)
    }
}

/// `[params... -> Ret]`: the parameters before the arrow and the type after
/// it (`Unit` when there is no arrow or nothing after it).
pub open spec fn spec_sig(e: SpecSExpr, st: SpecDiags) -> Parsed<(Seq<SpecParam>, SpecAstType)> {
    let span = spec_span_of(e);
    match e {
        SpecSExpr::BracketList(items, _) => {
            let pend: nat = match arrow_position(items, 0) { Some(p) => p, None => items.len() };
            match spec_params_acc(items.subrange(0, pend as int), 0, Seq::empty(), st) {
                (Err(d), s) => (Err(d), s),
                (Ok(ps), s) => {
                    let ret_items = if pend < items.len() { items.subrange(pend as int + 1, items.len() as int) } else { Seq::empty() };
                    if ret_items.len() == 0 {
                        (Ok((ps, named_type("Unit"@, span))), s)
                    } else {
                        match spec_type_from_slice(ret_items, 0) {
                            Err(d) => (Err(d), s),
                            Ok((t, _)) => (Ok((ps, t)), s),
                        }
                    }
                },
            }
        },
        _ => (Err(spec_error("expected bracket list for :sig"@, span)), st),
    }
}

// ── defn ────────────────────────────────────────────────────────────

/// What the keyword clauses of a `defn` have set so far.
pub struct DefnAcc {
    pub params: Seq<SpecParam>,
    pub ret: SpecAstType,
    pub intent: Option<Seq<char>>,
    pub requires: Seq<SpecExpr>,
    pub ensures: Seq<SpecExpr>,
    pub invariants: Seq<SpecExpr>,
    pub is_pure: bool,
    pub is_total: bool,
    pub body: Option<SpecExpr>,
    pub execute_on: Option<SpecExecTarget>,
    pub priority: Option<Priority>,
}

pub open spec fn defn_start(span: Span) -> DefnAcc {
    DefnAcc {
        params: Seq::empty(),
        ret: named_type("Unit"@, span),
        intent: None,
        requires: Seq::empty(),
        ensures: Seq::empty(),
        invariants: Seq::empty(),
        is_pure: false,
        is_total: false,
        body: None,
        execute_on: None,
        priority: None,
    }
}

pub open spec fn unknown_keyword(kw: Seq<char>, place: Seq<char>) -> Seq<char> {
    "unknown keyword :"@ + kw + " in "@ + place
}

/// The keyword clauses of a `defn`, from `i` on. Items that are not keywords
/// are passed over; an unknown keyword is reported and passed over.
pub open spec fn spec_defn_loop(items: Seq<SpecSExpr>, i: nat, a: DefnAcc, span: Span, st: SpecDiags) -> Parsed<DefnAcc>
    decreases items.len() - i,
{
    if i >= items.len() {
        (Ok(a), st)
    } else {
        match spec_keyword_of(items[i as int]) {
            None => spec_defn_loop(items, i + 1, a, span, st),
            Some(kw) => {
                let has_next = i + 1 < items.len();
                let next = items[i as int + 1];
                if kw == "sig"@ {
                    if !has_next { (Err(spec_error("expected signature after :sig"@, span)), st) } else {
                        match spec_sig(next, st) {
                            (Err(d), s) => (Err(d), s),
                            (Ok((ps, rt)), s) => spec_defn_loop(items, i + 2, DefnAcc { params: ps, ret: rt, ..a }, span, s),
                        }
                    }
                } else if kw == "intent"@ {
                    if !has_next { (Err(spec_error("expected string after :intent"@, span)), st) } else {
                        match spec_expect_string(next) {
                            Err(d) => (Err(d), st),
                            Ok(t) => spec_defn_loop(items, i + 2, DefnAcc { intent: Some(t), ..a }, span, st),
                        }
                    }
                } else if kw == "requires"@ || kw == "ensures"@ || kw == "invariant"@ || kw == "pre"@ || kw == "post"@ {
                    if !has_next {
                        (Err(spec_error("expected list after :"@ + kw, span)), st)
                    } else {
                        match spec_expr_list(next, st) {
                            (Err(d), s) => (Err(d), s),
                            (Ok(l), s) => spec_defn_loop(items, i + 2,
                                if kw == "requires"@ { DefnAcc { requires: l, ..a } }
                                else if kw == "ensures"@ { DefnAcc { ensures: l, ..a } }
                                else if kw == "invariant"@ { DefnAcc { invariants: l, ..a } }
                                else if kw == "pre"@ { DefnAcc { requires: a.requires + l, ..a } }
                                else { DefnAcc { ensures: a.ensures + l, ..a } },
                                span, s),
                        }
                    }
                } else if kw == "pure"@ {
                    spec_defn_loop(items, i + 1, DefnAcc { is_pure: true, ..a }, span, st)
                } else if kw == "total"@ {
                    spec_defn_loop(items, i + 1, DefnAcc { is_pure: true, is_total: true, ..a }, span, st)
                } else if kw == "body"@ {
                    if !has_next { (Err(spec_error("expected expression after :body"@, span)), st) } else {
                        match spec_expr(next, st) {
                            (Err(d), s) => (Err(d), s),
                            (Ok(b), s) => spec_defn_loop(items, i + 2, DefnAcc { body: Some(b), ..a }, span, s),
                        }
                    }
                } else if kw == "execute-on"@ {
                    if !has_next { (Err(spec_error("expected target after :execute-on"@, span)), st) } else {
                        match spec_parse_exec_target(next) {
                            Err(d) => (Err(d), st),
                            Ok(t) => spec_defn_loop(items, i + 2, DefnAcc { execute_on: Some(t), ..a }, span, st),
                        }
                    }
                } else if kw == "priority"@ {
                    if !has_next { (Err(spec_error("expected priority after :priority"@, span)), st) } else {
                        match spec_parse_priority(next) {
                            Err(d) => (Err(d), st),
                            Ok(p) => spec_defn_loop(items, i + 2, DefnAcc { priority: Some(p), ..a }, span, st),
                        }
                    }
                } else {
                    spec_defn_loop(items, i + 1, a, span,
                        spec_add(st, spec_warning(unknown_keyword(kw, "defn"@), spec_span_of(items[i as int]))))
                }
            },
        }
    }
}

proof fn lemma_invariant_keyword_distinct()
    ensures
        "invariant"@ != "sig"@,
        "invariant"@ != "intent"@,
        "invariant"@ != "requires"@,
        "invariant"@ != "ensures"@,
{
    reveal_strlit("invariant");
    reveal_strlit("sig");
    reveal_strlit("intent");
    reveal_strlit("requires");
    reveal_strlit("ensures");
    assert("invariant"@.len() != "sig"@.len());
    assert("invariant"@.len() != "intent"@.len());
    assert("invariant"@.len() != "requires"@.len());
    assert("invariant"@.len() != "ensures"@.len());
}

/// Clauses other than `:invariant` leave the invariants as they were.
proof fn lemma_invariants_kept(items: Seq<SpecSExpr>, j: nat, span: Span)
    requires
        forall|m: int| j <= m < items.len() ==> spec_keyword_of(#[trigger] items[m]) != Some("invariant"@),
    ensures
        forall|a: DefnAcc, st: SpecDiags| (#[trigger] spec_defn_loop(items, j, a, span, st)).0 is Ok
            ==> spec_defn_loop(items, j, a, span, st).0->Ok_0.invariants == a.invariants,
    decreases items.len() - j,
{
    if j < items.len() {
        lemma_invariants_kept(items, j + 1, span);
        if j + 2 <= items.len() {
            lemma_invariants_kept(items, j + 2, span);
        }
        assert forall|a: DefnAcc, st: SpecDiags| (#[trigger] spec_defn_loop(items, j, a, span, st)).0 is Ok
            implies spec_defn_loop(items, j, a, span, st).0->Ok_0.invariants == a.invariants by {
            assert(spec_keyword_of(items[j as int]) != Some("invariant"@));
            let next = items[j as int + 1];
            match spec_keyword_of(items[j as int]) {
                None => {
                    assert(spec_defn_loop(items, j, a, span, st) == spec_defn_loop(items, (j + 1) as nat, a, span, st));
                    assert(spec_defn_loop(items, j, a, span, st).0->Ok_0.invariants == a.invariants);
                },
                Some(kw) => {
                    let r = spec_defn_loop(items, j, a, span, st);
                    if kw == "sig"@ {
                        if j + 1 < items.len() {
                            match spec_sig(next, st) {
                                (Ok((ps, rt)), s) => {
                                    assert(r == spec_defn_loop(items, (j + 2) as nat, DefnAcc { params: ps, ret: rt, ..a }, span, s));
                                },
                                _ => {},
                            }
                        }
                    } else if kw == "intent"@ {
                        if j + 1 < items.len() {
                            match spec_expect_string(next) {
                                Ok(t) => {
                                    assert(r == spec_defn_loop(items, (j + 2) as nat, DefnAcc { intent: Some(t), ..a }, span, st));
                                },
                                _ => {},
                            }
                        }
                    } else if kw == "requires"@ || kw == "ensures"@ || kw == "invariant"@ || kw == "pre"@ || kw == "post"@ {
                    } else if kw == "pure"@ {
                        assert(r == spec_defn_loop(items, (j + 1) as nat, DefnAcc { is_pure: true, ..a }, span, st));
                    } else if kw == "total"@ {
                        assert(r == spec_defn_loop(items, (j + 1) as nat, DefnAcc { is_pure: true, is_total: true, ..a }, span, st));
                    } else if kw == "body"@ {
                        if j + 1 < items.len() {
                            match spec_expr(next, st) {
                                (Ok(b), s) => {
                                    assert(r == spec_defn_loop(items, (j + 2) as nat, DefnAcc { body: Some(b), ..a }, span, s));
                                },
                                _ => {},
                            }
                        }
                    } else if kw == "execute-on"@ {
                        if j + 1 < items.len() {
                            match spec_parse_exec_target(next) {
                                Ok(t) => {
                                    assert(r == spec_defn_loop(items, (j + 2) as nat, DefnAcc { execute_on: Some(t), ..a }, span, st));
                                },
                                _ => {},
                            }
                        }
                    } else if kw == "priority"@ {
                        if j + 1 < items.len() {
                            match spec_parse_priority(next) {
                                Ok(p) => {
                                    assert(r == spec_defn_loop(items, (j + 2) as nat, DefnAcc { priority: Some(p), ..a }, span, st));
                                },
                                _ => {},
                            }
                        }
                    } else {
                        let st2 = spec_add(st, spec_warning(unknown_keyword(kw, "defn"@), spec_span_of(items[j as int])));
                        assert(r == spec_defn_loop(items, (j + 1) as nat, a, span, st2));
                    }
                    if kw == "requires"@ || kw == "ensures"@ || kw == "invariant"@ || kw == "pre"@ || kw == "post"@ {
                        if j + 1 < items.len() {
                            let (rl, s) = spec_expr_list(next, st);
                            if rl is Ok {
                                let l = rl->Ok_0;
                                let a2 = if kw == "requires"@ { DefnAcc { requires: l, ..a } }
                                    else if kw == "ensures"@ { DefnAcc { ensures: l, ..a } }
                                    else if kw == "invariant"@ { DefnAcc { invariants: l, ..a } }
                                    else if kw == "pre"@ { DefnAcc { requires: a.requires + l, ..a } }
                                    else { DefnAcc { ensures: a.ensures + l, ..a } };
                                assert(a2.invariants == a.invariants);
                                if kw != "sig"@ && kw != "intent"@ {
                                    assert(spec_defn_loop(items, j, a, span, st)
                                        == spec_defn_loop(items, (j + 2) as nat, a2, span, s));
                                    assert(spec_defn_loop(items, j, a, span, st).0->Ok_0.invariants == a.invariants);
                                }
                            }
                        }
                    }
                },
            }
        }
    }
}

/// When the clause parse meets `:invariant L` and no later item is another
/// `:invariant`, the function's invariants are the expressions parsed from
/// `L`, whatever came before and whatever other clauses follow.
pub proof fn law_invariant_clause_lands(items: Seq<SpecSExpr>, i: nat, a: DefnAcc, span: Span, st: SpecDiags)
    requires
        i + 1 < items.len(),
        spec_keyword_of(items[i as int]) == Some("invariant"@),
        spec_expr_list(items[i as int + 1], st).0 is Ok,
        forall|m: int| i + 2 <= m < items.len() ==> spec_keyword_of(#[trigger] items[m]) != Some("invariant"@),
    ensures
        spec_defn_loop(items, i, a, span, st).0 is Ok
            ==> spec_defn_loop(items, i, a, span, st).0->Ok_0.invariants == spec_expr_list(items[i as int + 1], st).0->Ok_0,
{
    lemma_invariant_keyword_distinct();
    lemma_invariants_kept(items, i + 2, span);
    let (l, s) = (spec_expr_list(items[i as int + 1], st).0->Ok_0, spec_expr_list(items[i as int + 1], st).1);
    assert(spec_defn_loop(items, i, a, span, st)
        == spec_defn_loop(items, i + 2, DefnAcc { invariants: l, ..a }, span, s));
}

/// `(valid name)`.
pub open spec fn valid_call(name: Seq<char>, span: Span) -> SpecExpr {
    call_of("valid"@, seq![sx(SpecExprKind::SymbolRef(name), span)], span)
}

/// `(valid p)` for each parameter, in order.
pub open spec fn valid_calls(ps: Seq<SpecParam>, span: Span) -> Seq<SpecExpr> {
    Seq::new(ps.len(), |k: int| valid_call(ps[k].name, span))
}

/// A function's contracts after `:pure`/`:total` are applied: `(valid p)`
/// for every parameter before the written requirements, and `(valid result)`
/// when nothing is ensured.
pub open spec fn pure_contracts(a: DefnAcc, span: Span) -> (Seq<SpecExpr>, Seq<SpecExpr>) {
    if a.is_pure {
        (valid_calls(a.params, span) + a.requires,
            if a.ensures.len() == 0 { seq![valid_call("result"@, span)] } else { a.ensures })
    } else {
        (a.requires, a.ensures)
    }
}

/// `(defn name [:pub] clauses...)`, given the items after `defn`. A function
/// with no contract at all is recorded as an error, one without `:intent`
/// as a warning; the definition is returned either way.
pub open spec fn spec_parse_defn(items: Seq<SpecSExpr>, span: Span, st: SpecDiags) -> Parsed<SpecFnDef> {
    if items.len() == 0 {
        (Err(spec_error("defn requires a name"@, span)), st)
    } else {
        match spec_expect_symbol(items[0]) {
            Err(d) => (Err(d), st),
            Ok(name) => {
                let is_public = items.len() > 1 && spec_keyword_of(items[1]) == Some("pub"@);
                let start: nat = if is_public { 2 } else { 1 };
                match spec_defn_loop(items, start, defn_start(span), span, st) {
                    (Err(d), s) => (Err(d), s),
                    (Ok(a), s1) => {
                        let (req, ens) = pure_contracts(a, span);
                        let s2 = if req.len() == 0 && ens.len() == 0 {
                            spec_add(s1, spec_error("function '"@ + name + "' must have :requires and/or :ensures contracts"@, span))
                        } else {
                            s1
                        };
                        let s3 = if a.intent is None {
                            spec_add(s2, spec_warning("function '"@ + name + "' is missing :intent"@, span))
                        } else {
                            s2
                        };
                        (Ok(SpecFnDef {
                            name,
                            params: a.params,
                            return_type: a.ret,
                            intent: a.intent,
                            requires: req,
                            ensures: ens,
                            invariants: a.invariants,
                            is_pure: a.is_pure,
                            is_total: a.is_total,
                            body: match a.body { Some(b) => b, None => sx(SpecExprKind::NilLit, span) },
                            execute_on: a.execute_on,
                            priority: a.priority,
                            is_public,
                            span,
                        }), s3)
                    },
                }
            },
        }
    }
}


// ── Reading, with proofs ────────────────────────────────────────────

/// Views of a sub-range are the sub-range of the views.
pub proof fn lemma_sexprs_view_subrange(s: Seq<SExpr>, a: int, b: int)
    requires
        0 <= a <= b <= s.len(),
    ensures
        sexprs_view(s.subrange(a, b)) == sexprs_view(s).subrange(a, b),
{
    lemma_sexprs_view(s);
    lemma_sexprs_view(s.subrange(a, b));
    assert(sexprs_view(s.subrange(a, b)) =~= sexprs_view(s).subrange(a, b));
}

pub open spec fn params_res_pair(r: Result<(Vec<Param>, AstType), Diagnostic>) -> Result<(Seq<SpecParam>, SpecAstType), SpecDiagnostic> {
    match r {
        Ok((ps, t)) => Ok((params_view(ps@), ast_type_view(t))),
        Err(d) => Err(d@),
    }
}

pub fn parse_expr_list(e: &SExpr, diags: &mut Diagnostics) -> (r: Result<Vec<Expr>, Diagnostic>)
    ensures
        (exprs_res(r), final(diags)@) == spec_expr_list(e@, old(diags)@),
{
    match e {
        SExpr::BracketList(items, _) => crate::forms::parse_exprs_from(items, 0, diags),
        _ => {
            let x = parse_expr(e, diags)?;
            let mut v: Vec<Expr> = Vec::new();
            v.push(x);
            proof {
                lemma_exprs_view_push(Seq::empty(), x);
                assert(Seq::<Expr>::empty().push(x) =~= v@);
                assert(exprs_view(Seq::<Expr>::empty()).push(expr_view(x)) =~= seq![expr_view(x)]);
            }
            Ok(v)
        },
    }
}

/// The full parameters `items[..end]`.
#[verifier::loop_isolation(false)]
fn parse_params_range(items: &Vec<SExpr>, end: usize, diags: &mut Diagnostics) -> (r: Result<Vec<Param>, Diagnostic>)
    requires
        end <= items@.len(),
    ensures
        (params_res(r), final(diags)@) == spec_params_acc(sexprs_view(items@).subrange(0, end as int), 0, Seq::empty(), old(diags)@),
{
    let ghost sub = sexprs_view(items@).subrange(0, end as int);
    let ghost st0 = diags@;
    proof {
        lemma_sexprs_view(items@);
    }
    let mut ps: Vec<Param> = Vec::new();
    let mut i: usize = 0;
    assert(params_view(ps@) =~= Seq::<SpecParam>::empty());
    while i < end
        invariant
            i <= end,
            spec_params_acc(sub, 0, Seq::empty(), st0) == spec_params_acc(sub, i as nat, params_view(ps@), diags@),
        decreases end - i,
    {
        assert(sub[i as int] == sexpr_view(items@[i as int]));
        let p = parse_param(&items[i], diags)?;
        proof {
            lemma_params_view_push(ps@, p);
        }
        ps.push(p);
        i += 1;
    }
    Ok(ps)
}

pub fn parse_param_list(e: &SExpr, diags: &mut Diagnostics) -> (r: Result<Vec<Param>, Diagnostic>)
    ensures
        (params_res(r), final(diags)@) == spec_param_list(e@, old(diags)@),
{
    match e {
        SExpr::BracketList(items, _) => {
            proof {
                lemma_sexprs_view(items@);
                assert(sexprs_view(items@).subrange(0, items@.len() as int) =~= sexprs_view(items@));
            }
            parse_params_range(items, items.len(), diags)
        },
        _ => Err(Diagnostic::error_str("expected bracket list for params", e.span())),
    }
}

fn arrow_pos(items: &Vec<SExpr>) -> (p: usize)
    ensures
        p <= items@.len(),
        p == (match arrow_position(sexprs_view(items@), 0) {
            Some(k) => k,
            None => items@.len(),
        }),
{
    let ghost sv = sexprs_view(items@);
    proof {
        lemma_sexprs_view(items@);
    }
    let mut i: usize = 0;
    while i < items.len()
        invariant
            i <= items@.len(),
            sv == sexprs_view(items@),
            sv.len() == items@.len(),
            forall|j: int| 0 <= j < items@.len() ==> #[trigger] sv[j] == sexpr_view(items@[j]),
            arrow_position(sv, 0) == arrow_position(sv, i as nat),
        decreases items@.len() - i,
    {
        match &items[i] {
            SExpr::Atom(Atom { kind: AtomKind::Arrow, .. }) => {
                return i;
            },
            _ => {},
        }
        i += 1;
    }
    i
}

pub fn parse_sig(e: &SExpr, diags: &mut Diagnostics) -> (r: Result<(Vec<Param>, AstType), Diagnostic>)
    ensures
        (params_res_pair(r), final(diags)@) == spec_sig(e@, old(diags)@),
{
    let span = e.span();
    match e {
        SExpr::BracketList(items, _) => {
            proof {
                lemma_sexprs_view(items@);
            }
            let pend = arrow_pos(items);
            let params = parse_params_range(items, pend, diags)?;
            if pend < items.len() && pend + 1 < items.len() {
                let (_, rest) = items.as_slice().split_at(pend + 1);
                proof {
                    lemma_sexprs_view_subrange(items@, pend + 1, items@.len() as int);
                }
                let (t, _) = parse_type_from_slice(rest, 0)?;
                Ok((params, t))
            } else {
                proof {
                    if pend < items@.len() {
                        assert(sexprs_view(items@).subrange(pend + 1, items@.len() as int) =~= Seq::<SpecSExpr>::empty());
                    }
                }
                Ok((params, AstType { kind: AstTypeKind::Named(String::from_str("Unit")), span }))
            }
        },
        _ => Err(Diagnostic::error_str("expected bracket list for :sig", span)),
    }
}

pub open spec fn defn_acc_view(params: Seq<Param>, ret: AstType, intent: Option<String>, reqs: Seq<Expr>,
    ens: Seq<Expr>, invariants: Seq<Expr>, is_pure: bool, is_total: bool, body: Option<Expr>,
    execute_on: Option<ExecTarget>, priority: Option<Priority>) -> DefnAcc {
    DefnAcc {
        params: params_view(params),
        ret: ast_type_view(ret),
        intent: opt_str_view(intent),
        requires: exprs_view(reqs),
        ensures: exprs_view(ens),
        invariants: exprs_view(invariants),
        is_pure,
        is_total,
        body: opt_expr_view(body),
        execute_on: opt_target_view(execute_on),
        priority,
    }
}

/// `(valid name)` as an expression.
fn make_valid_call(name: &str, span: Span) -> (e: Expr)
    ensures
        expr_view(e) == valid_call(name@, span),
{
    let callee = Expr { kind: ExprKind::SymbolRef(String::from_str("valid")), span };
    let arg = Expr { kind: ExprKind::SymbolRef(String::from_str(name)), span };
    let mut args: Vec<Expr> = Vec::new();
    args.push(arg);
    proof {
        lemma_exprs_view_push(Seq::empty(), arg);
        assert(Seq::<Expr>::empty().push(arg) =~= args@);
        assert(exprs_view(Seq::<Expr>::empty()) =~= Seq::<SpecExpr>::empty());
        assert(exprs_view(Seq::<Expr>::empty()).push(expr_view(arg)) =~= seq![expr_view(arg)]);
        assert(exprs_view(args@) == seq![expr_view(arg)]);
    }
    let e = Expr { kind: ExprKind::FnCall(Box::new(callee), args), span };
    assert(expr_view(callee) == sx(SpecExprKind::SymbolRef("valid"@), span));
    assert(expr_view(arg) == sx(SpecExprKind::SymbolRef(name@), span));
    assert(expr_view(e) == sx(SpecExprKind::FnCall(Box::new(expr_view(callee)), exprs_view(args@)), span));
    e
}

pub proof fn lemma_params_view_index(s: Seq<Param>)
    ensures
        params_view(s).len() == s.len(),
        forall|k: int| 0 <= k < s.len() ==> #[trigger] params_view(s)[k] == param_view(s[k]),
    decreases s.len(),
{
    if s.len() > 0 {
        lemma_params_view_index(s.drop_last());
        assert forall|k: int| 0 <= k < s.len() implies #[trigger] params_view(s)[k] == param_view(s[k]) by {
            if k < s.len() - 1 {
                assert(s.drop_last()[k] == s[k]);
            }
        }
    }
}

/// `(valid p)` for each parameter.
fn valid_calls_exec(params: &Vec<Param>, span: Span) -> (v: Vec<Expr>)
    ensures
        exprs_view(v@) == valid_calls(params_view(params@), span),
{
    proof {
        lemma_params_view_index(params@);
    }
    let mut v: Vec<Expr> = Vec::new();
    let mut i: usize = 0;
    assert(exprs_view(v@) =~= valid_calls(params_view(params@).take(0), span));
    while i < params.len()
        invariant
            i <= params@.len(),
            params_view(params@).len() == params@.len(),
            forall|k: int| 0 <= k < params@.len() ==> #[trigger] params_view(params@)[k] == param_view(params@[k]),
            exprs_view(v@) == valid_calls(params_view(params@).take(i as int), span),
        decreases params@.len() - i,
    {
        let c = make_valid_call(params[i].name.as_str(), span);
        proof {
            lemma_exprs_view_push(v@, c);
            assert(valid_calls(params_view(params@).take(i + 1), span)
                =~= valid_calls(params_view(params@).take(i as int), span).push(valid_call(params@[i as int].name@, span)));
        }
        v.push(c);
        i += 1;
    }
    assert(params_view(params@).take(i as int) =~= params_view(params@));
    v
}

fn unknown_keyword_message(kw: &str, place: &str) -> (m: String)
    ensures
        m@ == unknown_keyword(kw@, place@),
{
    let mut m = String::from_str("unknown keyword :");
    m.append(kw);
    m.append(" in ");
    m.append(place);
    m
}

fn quoted_name_message(head: &str, name: &str, tail: &str) -> (m: String)
    ensures
        m@ == head@ + name@ + tail@,
{
    let mut m = String::from_str(head);
    m.append(name);
    m.append(tail);
    m
}

/// `(defn name [:pub] clauses...)`, given the items after `defn`.
#[verifier::loop_isolation(false)]
#[verifier::rlimit(80)]
pub fn parse_defn(items: &[SExpr], span: Span, diags: &mut Diagnostics) -> (r: Result<FnDef, Diagnostic>)
    ensures
        (match r {
            Ok(f) => Ok::<SpecFnDef, SpecDiagnostic>(fn_def_view(f)),
            Err(d) => Err(d@),
        }, final(diags)@) == spec_parse_defn(sexprs_view(items@), span, old(diags)@),
{
    let ghost sv = sexprs_view(items@);
    proof {
        lemma_sexprs_view(items@);
        reveal_strlit("pub");
        reveal_strlit("sig");
        reveal_strlit("intent");
        reveal_strlit("requires");
        reveal_strlit("ensures");
        reveal_strlit("invariant");
        reveal_strlit("pre");
        reveal_strlit("post");
        reveal_strlit("pure");
        reveal_strlit("total");
        reveal_strlit("body");
        reveal_strlit("execute-on");
        reveal_strlit("priority");
        reveal_strlit("defn");
    }
    if items.len() == 0 {
        return Err(Diagnostic::error_str("defn requires a name", span));
    }
    let name = expect_symbol(&items[0])?;
    let mut is_public = false;
    let mut i: usize = 1;
    if i < items.len() {
        match items[i].as_keyword() {
            Some(k) => {
                if str_eq(k, "pub") {
                    is_public = true;
                    i += 1;
                }
            },
            None => {},
        }
    }
    let ghost start = i as nat;
    let ghost st0 = diags@;
    let mut params: Vec<Param> = Vec::new();
    let mut return_type = AstType { kind: AstTypeKind::Named(String::from_str("Unit")), span };
    let mut intent: Option<String> = None;
    let mut reqs: Vec<Expr> = Vec::new();
    let mut ens: Vec<Expr> = Vec::new();
    let mut invariants: Vec<Expr> = Vec::new();
    let mut is_pure = false;
    let mut is_total = false;
    let mut body: Option<Expr> = None;
    let mut execute_on: Option<ExecTarget> = None;
    let mut priority: Option<Priority> = None;
    assert(defn_acc_view(params@, return_type, intent, reqs@, ens@, invariants@, is_pure, is_total, body,
        execute_on, priority) == defn_start(span)) by {
        assert(params_view(params@) =~= Seq::<SpecParam>::empty());
        assert(exprs_view(reqs@) =~= Seq::<SpecExpr>::empty());
        assert(exprs_view(ens@) =~= Seq::<SpecExpr>::empty());
        assert(exprs_view(invariants@) =~= Seq::<SpecExpr>::empty());
    }
    while i < items.len()
        invariant
            start <= i <= items@.len(),
            spec_defn_loop(sv, start, defn_start(span), span, st0) == spec_defn_loop(sv, i as nat,
                defn_acc_view(params@, return_type, intent, reqs@, ens@, invariants@, is_pure, is_total, body,
                    execute_on, priority), span, diags@),
        decreases items@.len() - i,
    {
        match items[i].as_keyword() {
            None => {
                i += 1;
            },
            Some(kw) => {
                let has_next = i + 1 < items.len();
                if str_eq(kw, "sig") {
                    if !has_next {
                        return Err(Diagnostic::error_str("expected signature after :sig", span));
                    }
                    let (p, rt) = parse_sig(&items[i + 1], diags)?;
                    params = p;
                    return_type = rt;
                    i += 2;
                } else if str_eq(kw, "intent") {
                    if !has_next {
                        return Err(Diagnostic::error_str("expected string after :intent", span));
                    }
                    intent = Some(expect_string(&items[i + 1])?);
                    i += 2;
                } else if str_eq(kw, "requires") || str_eq(kw, "ensures") || str_eq(kw, "invariant") || str_eq(kw, "pre")
                    || str_eq(kw, "post") {
                    if !has_next {
                        let mut m = String::from_str("expected list after :");
                        m.append(kw);
                        return Err(Diagnostic::error(m, span));
                    }
                    let mut l = parse_expr_list(&items[i + 1], diags)?;
                    if str_eq(kw, "requires") {
                        reqs = l;
                    } else if str_eq(kw, "ensures") {
                        ens = l;
                    } else if str_eq(kw, "invariant") {
                        invariants = l;
                    } else if str_eq(kw, "pre") {
                        proof {
                            lemma_exprs_view_concat(reqs@, l@);
                        }
                        reqs.append(&mut l);
                    } else {
                        proof {
                            lemma_exprs_view_concat(ens@, l@);
                        }
                        ens.append(&mut l);
                    }
                    i += 2;
                } else if str_eq(kw, "pure") {
                    is_pure = true;
                    i += 1;
                } else if str_eq(kw, "total") {
                    is_total = true;
                    is_pure = true;
                    i += 1;
                } else if str_eq(kw, "body") {
                    if !has_next {
                        return Err(Diagnostic::error_str("expected expression after :body", span));
                    }
                    body = Some(parse_expr(&items[i + 1], diags)?);
                    i += 2;
                } else if str_eq(kw, "execute-on") {
                    if !has_next {
                        return Err(Diagnostic::error_str("expected target after :execute-on", span));
                    }
                    execute_on = Some(parse_exec_target(&items[i + 1])?);
                    i += 2;
                } else if str_eq(kw, "priority") {
                    if !has_next {
                        return Err(Diagnostic::error_str("expected priority after :priority", span));
                    }
                    priority = Some(parse_priority(&items[i + 1])?);
                    i += 2;
                } else {
                    let m = unknown_keyword_message(kw, "defn");
                    diags.add(Diagnostic::warning(m, items[i].span()));
                    i += 1;
                }
            },
        }
    }
    let ghost a = defn_acc_view(params@, return_type, intent, reqs@, ens@, invariants@, is_pure, is_total, body,
        execute_on, priority);
    if is_pure {
        let mut generated = valid_calls_exec(&params, span);
        proof {
            lemma_exprs_view_concat(generated@, reqs@);
        }
        generated.append(&mut reqs);
        reqs = generated;
        if ens.len() == 0 {
            let v = make_valid_call("result", span);
            proof {
                lemma_exprs_view_push(ens@, v);
                assert(exprs_view(Seq::<Expr>::empty()) =~= Seq::<SpecExpr>::empty());
                assert(ens@ =~= Seq::<Expr>::empty());
            }
            ens.push(v);
        }
    }
    assert(pure_contracts(a, span) == (exprs_view(reqs@), exprs_view(ens@)));
    if reqs.len() == 0 && ens.len() == 0 {
        let m = quoted_name_message("function '", name.as_str(), "' must have :requires and/or :ensures contracts");
        diags.add(Diagnostic::error(m, span));
    }
    if intent.is_none() {
        let m = quoted_name_message("function '", name.as_str(), "' is missing :intent");
        diags.add(Diagnostic::warning(m, span));
    }
    let body = match body {
        Some(b) => b,
        None => Expr { kind: ExprKind::NilLit, span },
    };
    Ok(FnDef {
        name,
        params,
        return_type,
        intent,
        requires: reqs,
        ensures: ens,
        invariants,
        is_pure,
        is_total,
        body,
        execute_on,
        priority,
        is_public,
        span,
    })
}


// ── define ──────────────────────────────────────────────────────────

pub open spec fn spec_define_params(items: Seq<SpecSExpr>, i: nat, acc: Seq<Seq<char>>) -> Result<Seq<Seq<char>>, SpecDiagnostic>
    decreases items.len() - i,
{
    if i >= items.len() {
        Ok(acc)
    } else {
        match spec_symbol_of(items[i as int]) {
            Some(n) => spec_define_params(items, i + 1, acc.push(n)),
            None => Err(spec_error("define: parameter must be a symbol"@, spec_span_of(items[i as int]))),
        }
    }
}

/// `(define name (p1 p2 ...) body)`, given the items after `define`.
pub open spec fn spec_parse_define(items: Seq<SpecSExpr>, span: Span, st: SpecDiags) -> Parsed<SpecSimpleFnDef> {
    if items.len() < 3 {
        (Err(spec_error("define requires name, parameter list, and body"@, span)), st)
    } else {
        match spec_symbol_of(items[0]) {
            None => (Err(spec_error("define: expected function name"@, spec_span_of(items[0]))), st),
            Some(name) => match items[1] {
                SpecSExpr::List(pitems, _) => match spec_define_params(pitems, 0, Seq::empty()) {
                    Err(d) => (Err(d), st),
                    Ok(ps) => match spec_expr(items[2], st) {
                        (Err(d), s) => (Err(d), s),
                        (Ok(b), s) => (Ok(SpecSimpleFnDef { name, params: ps, body: b, span }), s),
                    },
                },
                _ => (Err(spec_error("define: expected parameter list"@, spec_span_of(items[1]))), st),
            },
        }
    }
}

#[verifier::loop_isolation(false)]
pub fn parse_define(items: &[SExpr], span: Span, diags: &mut Diagnostics) -> (r: Result<SimpleFnDef, Diagnostic>)
    ensures
        (match r {
            Ok(d) => Ok::<SpecSimpleFnDef, SpecDiagnostic>(SpecSimpleFnDef { name: d.name@, params: strings_view(d.params@), body: expr_view(d.body), span: d.span }),
            Err(d) => Err(d@),
        }, final(diags)@) == spec_parse_define(sexprs_view(items@), span, old(diags)@),
{
    proof {
        lemma_sexprs_view(items@);
    }
    if items.len() < 3 {
        return Err(Diagnostic::error_str("define requires name, parameter list, and body", span));
    }
    let name = match items[0].as_symbol() {
        Some(n) => String::from_str(n),
        None => {
            return Err(Diagnostic::error_str("define: expected function name", items[0].span()));
        },
    };
    let params = match &items[1] {
        SExpr::List(pitems, _) => {
            let ghost pv = sexprs_view(pitems@);
            proof {
                lemma_sexprs_view(pitems@);
            }
            let mut ps: Vec<String> = Vec::new();
            let mut i: usize = 0;
            assert(strings_view(ps@) =~= Seq::<Seq<char>>::empty());
            while i < pitems.len()
                invariant
                    i <= pitems@.len(),
                    pv == sexprs_view(pitems@),
                    pv.len() == pitems@.len(),
                    forall|j: int| 0 <= j < pitems@.len() ==> #[trigger] pv[j] == sexpr_view(pitems@[j]),
                    spec_define_params(pv, 0, Seq::empty()) == spec_define_params(pv, i as nat, strings_view(ps@)),
                decreases pitems@.len() - i,
            {
                match pitems[i].as_symbol() {
                    Some(n) => {
                        let ghost prev = ps@;
                        ps.push(String::from_str(n));
                        assert(strings_view(ps@) =~= strings_view(prev).push(n@));
                    },
                    None => {
                        return Err(Diagnostic::error_str("define: parameter must be a symbol", pitems[i].span()));
                    },
                }
                i += 1;
            }
            ps
        },
        _ => {
            return Err(Diagnostic::error_str("define: expected parameter list", items[1].span()));
        },
    };
    let body = parse_expr(&items[2], diags)?;
    Ok(SimpleFnDef { name, params, body, span })
}

// ── extern-c ────────────────────────────────────────────────────────

/// `(extern-c "c_name" [params -> Ret])`, given the items after `extern-c`.
pub open spec fn spec_parse_extern_c(items: Seq<SpecSExpr>, span: Span, st: SpecDiags) -> Parsed<SpecExternC> {
    if items.len() == 0 {
        (Err(spec_error("extern-c requires a C function name string"@, span)), st)
    } else {
        match spec_expect_string(items[0]) {
            Err(d) => (Err(d), st),
            Ok(c_name) => if items.len() < 2 {
                (Err(spec_error("extern-c requires a signature after the C name"@, span)), st)
            } else {
                match spec_sig(items[1], st) {
                    (Err(d), s) => (Err(d), s),
                    (Ok((ps, rt)), s) => (Ok(SpecExternC { c_name, params: ps, return_type: rt, span }), s),
                }
            },
        }
    }
}

pub fn parse_extern_c(items: &[SExpr], span: Span, diags: &mut Diagnostics) -> (r: Result<ExternCDecl, Diagnostic>)
    ensures
        (match r {
            Ok(x) => Ok::<SpecExternC, SpecDiagnostic>(SpecExternC { c_name: x.c_name@, params: params_view(x.params@), return_type: ast_type_view(x.return_type), span: x.span }),
            Err(d) => Err(d@),
        }, final(diags)@) == spec_parse_extern_c(sexprs_view(items@), span, old(diags)@),
{
    proof {
        lemma_sexprs_view(items@);
    }
    if items.len() == 0 {
        return Err(Diagnostic::error_str("extern-c requires a C function name string", span));
    }
    let c_name = expect_string(&items[0])?;
    if items.len() < 2 {
        return Err(Diagnostic::error_str("extern-c requires a signature after the C name", span));
    }
    let (params, return_type) = parse_sig(&items[1], diags)?;
    Ok(ExternCDecl { c_name, params, return_type, span })
}

// ── import ──────────────────────────────────────────────────────────

pub open spec fn spec_import_loop(items: Seq<SpecSExpr>, i: nat, alias: Option<Seq<char>>, only: Option<Seq<Seq<char>>>, span: Span)
    -> Result<(Option<Seq<char>>, Option<Seq<Seq<char>>>), SpecDiagnostic>
    decreases items.len() - i,
{
    if i >= items.len() {
        Ok((alias, only))
    } else {
        match spec_keyword_of(items[i as int]) {
            None => spec_import_loop(items, i + 1, alias, only, span),
            Some(kw) => if kw == "as"@ {
                if i + 1 >= items.len() {
                    Err(spec_error("expected name after :as"@, span))
                } else {
                    match spec_expect_symbol(items[i as int + 1]) {
                        Err(d) => Err(d),
                        Ok(a) => spec_import_loop(items, i + 2, Some(a), only, span),
                    }
                }
            } else if kw == "only"@ {
                if i + 1 >= items.len() {
                    Err(spec_error("expected symbol list after :only"@, span))
                } else {
                    match spec_parse_symbol_list(items[i as int + 1]) {
                        Err(d) => Err(d),
                        Ok(l) => spec_import_loop(items, i + 2, alias, Some(l), span),
                    }
                }
            } else {
                Err(spec_error("unknown import option :"@ + kw, span))
            },
        }
    }
}

/// `(import "path" [:as name] [:only [names]])`, given the items after
/// `import`: the path, the alias and the names imported.
pub open spec fn spec_parse_import(items: Seq<SpecSExpr>, span: Span)
    -> Result<(Seq<char>, Option<Seq<char>>, Option<Seq<Seq<char>>>), SpecDiagnostic> {
    if items.len() == 0 {
        Err(spec_error("import requires a path string"@, span))
    } else {
        match spec_expect_string(items[0]) {
            Err(d) => Err(d),
            Ok(path) => match spec_import_loop(items, 1, None, None, span) {
                Err(d) => Err(d),
                Ok((a, o)) => Ok((path, a, o)),
            },
        }
    }
}

pub open spec fn opt_strings_view(o: Option<Vec<String>>) -> Option<Seq<Seq<char>>> {
    match o {
        Some(v) => Some(strings_view(v@)),
        None => None,
    }
}

#[verifier::loop_isolation(false)]
pub fn parse_import(items: &[SExpr], span: Span) -> (r: Result<TopLevel, Diagnostic>)
    ensures
        match spec_parse_import(sexprs_view(items@), span) {
            Ok((p, a, o)) => r matches Ok(t) && top_level_view(t) == SpecTopLevel::Import(p, a, o, span),
            Err(d) => r matches Err(x) && x@ == d,
        },
{
    let ghost sv = sexprs_view(items@);
    proof {
        lemma_sexprs_view(items@);
        reveal_strlit("as");
        reveal_strlit("only");
    }
    if items.len() == 0 {
        return Err(Diagnostic::error_str("import requires a path string", span));
    }
    let path = expect_string(&items[0])?;
    let mut alias: Option<String> = None;
    let mut only: Option<Vec<String>> = None;
    let mut i: usize = 1;
    while i < items.len()
        invariant
            1 <= i <= items@.len(),
            spec_import_loop(sv, 1, None, None, span) == spec_import_loop(sv, i as nat, opt_str_view(alias), opt_strings_view(only), span),
        decreases items@.len() - i,
    {
        match items[i].as_keyword() {
            None => {
                i += 1;
            },
            Some(kw) => {
                if str_eq(kw, "as") {
                    if i + 1 >= items.len() {
                        return Err(Diagnostic::error_str("expected name after :as", span));
                    }
                    alias = Some(expect_symbol(&items[i + 1])?);
                    i += 2;
                } else if str_eq(kw, "only") {
                    if i + 1 >= items.len() {
                        return Err(Diagnostic::error_str("expected symbol list after :only", span));
                    }
                    only = Some(parse_symbol_list(&items[i + 1])?);
                    i += 2;
                } else {
                    let mut m = String::from_str("unknown import option :");
                    m.append(kw);
                    return Err(Diagnostic::error(m, span));
                }
            },
        }
    }
    Ok(TopLevel::Import { path, alias, only, span })
}


// ── task ────────────────────────────────────────────────────────────

/// `[params...]` for `:expected-output`.
pub open spec fn spec_expected_output(e: SpecSExpr, st: SpecDiags) -> Parsed<SpecExpectedOutput> {
    let span = spec_span_of(e);
    match e {
        SpecSExpr::BracketList(items, _) => match spec_params_acc(items, 0, Seq::empty(), st) {
            (Err(d), s) => (Err(d), s),
            (Ok(ps), s) => (Ok(SpecExpectedOutput { params: ps, ensures: Seq::empty(), span }), s),
        },
        _ => (Err(spec_error("expected bracket list for expected-output"@, span)), st),
    }
}

/// One constraint: `(max-memory e)`, `(max-tokens e)`, `(no-network ...)`,
/// or `(name e)`; anything else is passed over.
pub open spec fn spec_constraint_of(item: SpecSExpr, st: SpecDiags) -> Parsed<Option<SpecConstraint>> {
    match item {
        SpecSExpr::List(parts, cspan) => if parts.len() > 0 && spec_symbol_of(parts[0]) is Some {
            let k = spec_symbol_of(parts[0])->0;
            if k == "no-network"@ {
                (Ok(Some(SpecConstraint { kind: SpecConstraintKind::NoNetwork(true), span: cspan })), st)
            } else if parts.len() > 1 {
                match spec_expr(parts[1], st) {
                    (Err(d), s) => (Err(d), s),
                    (Ok(x), s) => (Ok(Some(SpecConstraint {
                        kind: if k == "max-memory"@ {
                            SpecConstraintKind::MaxMemory(x)
                        } else if k == "max-tokens"@ {
                            SpecConstraintKind::MaxTokens(x)
                        } else {
                            SpecConstraintKind::Custom(k, x)
                        },
                        span: cspan,
                    })), s),
                }
            } else {
                (Ok(None), st)
            }
        } else {
            (Ok(None), st)
        },
        _ => (Ok(None), st),
    }
}

pub open spec fn spec_constraints_acc(items: Seq<SpecSExpr>, i: nat, acc: Seq<SpecConstraint>, st: SpecDiags)
    -> Parsed<Seq<SpecConstraint>>
    decreases items.len() - i,
{
    if i >= items.len() {
        (Ok(acc), st)
    } else {
        match spec_constraint_of(items[i as int], st) {
            (Err(d), s) => (Err(d), s),
            (Ok(Some(c)), s) => spec_constraints_acc(items, i + 1, acc.push(c), s),
            (Ok(None), s) => spec_constraints_acc(items, i + 1, acc, s),
        }
    }
}

pub open spec fn spec_constraints(e: SpecSExpr, st: SpecDiags) -> Parsed<Seq<SpecConstraint>> {
    match e {
        SpecSExpr::BracketList(items, _) => spec_constraints_acc(items, 0, Seq::empty(), st),
        _ => (Err(spec_error("expected bracket list for constraints"@, spec_span_of(e))), st),
    }
}

pub struct TaskAcc {
    pub from: Option<SpecExpr>,
    pub to: Option<SpecExpr>,
    pub deadline: Option<SpecExpr>,
    pub intent: Option<Seq<char>>,
    pub input: Seq<SpecParam>,
    pub expected_output: Option<SpecExpectedOutput>,
    pub constraints: Seq<SpecConstraint>,
    pub on_success: Option<SpecExpr>,
    pub on_failure: Option<SpecExpr>,
    pub on_timeout: Option<SpecExpr>,
}

pub open spec fn task_start() -> TaskAcc {
    TaskAcc {
        from: None,
        to: None,
        deadline: None,
        intent: None,
        input: Seq::empty(),
        expected_output: None,
        constraints: Seq::empty(),
        on_success: None,
        on_failure: None,
        on_timeout: None,
    }
}

/// The keywords of a task whose value is an expression.
pub open spec fn task_expr_keyword(kw: Seq<char>) -> bool {
    kw == "from"@ || kw == "to"@ || kw == "deadline"@ || kw == "on-success"@ || kw == "on-failure"@ || kw == "on-timeout"@
}

pub open spec fn task_set_expr(a: TaskAcc, kw: Seq<char>, x: SpecExpr) -> TaskAcc {
    if kw == "from"@ {
        TaskAcc { from: Some(x), ..a }
    } else if kw == "to"@ {
        TaskAcc { to: Some(x), ..a }
    } else if kw == "deadline"@ {
        TaskAcc { deadline: Some(x), ..a }
    } else if kw == "on-success"@ {
        TaskAcc { on_success: Some(x), ..a }
    } else if kw == "on-failure"@ {
        TaskAcc { on_failure: Some(x), ..a }
    } else {
        TaskAcc { on_timeout: Some(x), ..a }
    }
}

/// The keyword clauses of a task, from `i` on.
pub open spec fn spec_task_loop(items: Seq<SpecSExpr>, i: nat, a: TaskAcc, span: Span, st: SpecDiags) -> Parsed<TaskAcc>
    decreases items.len() - i,
{
    if i >= items.len() {
        (Ok(a), st)
    } else {
        match spec_keyword_of(items[i as int]) {
            None => spec_task_loop(items, i + 1, a, span, st),
            Some(kw) => {
                let has_next = i + 1 < items.len();
                let next = items[i as int + 1];
                if task_expr_keyword(kw) {
                    if !has_next {
                        (Err(spec_error((if kw == "on-success"@ || kw == "on-failure"@ || kw == "on-timeout"@ {
                            "expected expr after :"@
                        } else {
                            "expected value after :"@
                        }) + kw, span)), st)
                    } else {
                        match spec_expr(next, st) {
                            (Err(d), s) => (Err(d), s),
                            (Ok(x), s) => spec_task_loop(items, i + 2, task_set_expr(a, kw, x), span, s),
                        }
                    }
                } else if kw == "intent"@ {
                    if !has_next { (Err(spec_error("expected string after :intent"@, span)), st) } else {
                        match spec_expect_string(next) {
                            Err(d) => (Err(d), st),
                            Ok(t) => spec_task_loop(items, i + 2, TaskAcc { intent: Some(t), ..a }, span, st),
                        }
                    }
                } else if kw == "input"@ {
                    if !has_next { (Err(spec_error("expected list after :input"@, span)), st) } else {
                        match spec_param_list(next, st) {
                            (Err(d), s) => (Err(d), s),
                            (Ok(ps), s) => spec_task_loop(items, i + 2, TaskAcc { input: ps, ..a }, span, s),
                        }
                    }
                } else if kw == "expected-output"@ {
                    if !has_next { (Err(spec_error("expected value after :expected-output"@, span)), st) } else {
                        match spec_expected_output(next, st) {
                            (Err(d), s) => (Err(d), s),
                            (Ok(o), s) => spec_task_loop(items, i + 2, TaskAcc { expected_output: Some(o), ..a }, span, s),
                        }
                    }
                } else if kw == "constraints"@ {
                    if !has_next { (Err(spec_error("expected list after :constraints"@, span)), st) } else {
                        match spec_constraints(next, st) {
                            (Err(d), s) => (Err(d), s),
                            (Ok(cs), s) => spec_task_loop(items, i + 2, TaskAcc { constraints: cs, ..a }, span, s),
                        }
                    }
                } else {
                    spec_task_loop(items, i + 1, a, span,
                        spec_add(st, spec_warning(unknown_keyword(kw, "task"@), spec_span_of(items[i as int]))))
                }
            },
        }
    }
}

pub open spec fn or_nil(x: Option<SpecExpr>, span: Span) -> SpecExpr {
    match x {
        Some(v) => v,
        None => sx(SpecExprKind::NilLit, span),
    }
}

/// `(task "id" clauses...)`, given the items after `task`; a missing
/// `:from` or `:to` is `nil`.
pub open spec fn spec_parse_task(items: Seq<SpecSExpr>, span: Span, st: SpecDiags) -> Parsed<SpecTaskDef> {
    if items.len() == 0 {
        (Err(spec_error("task requires an id"@, span)), st)
    } else {
        match spec_expect_string(items[0]) {
            Err(d) => (Err(d), st),
            Ok(id) => match spec_task_loop(items, 1, task_start(), span, st) {
                (Err(d), s) => (Err(d), s),
                (Ok(a), s) => (Ok(SpecTaskDef {
                    id,
                    from: or_nil(a.from, span),
                    to: or_nil(a.to, span),
                    deadline: a.deadline,
                    intent: a.intent,
                    input: a.input,
                    expected_output: a.expected_output,
                    constraints: a.constraints,
                    on_success: a.on_success,
                    on_failure: a.on_failure,
                    on_timeout: a.on_timeout,
                    span,
                }), s),
            },
        }
    }
}

pub fn parse_expected_output(e: &SExpr, diags: &mut Diagnostics) -> (r: Result<ExpectedOutput, Diagnostic>)
    ensures
        (match r {
            Ok(o) => Ok::<SpecExpectedOutput, SpecDiagnostic>(expected_output_view(o)),
            Err(d) => Err(d@),
        }, final(diags)@) == spec_expected_output(e@, old(diags)@),
{
    let span = e.span();
    match e {
        SExpr::BracketList(items, _) => {
            proof {
                lemma_sexprs_view(items@);
                assert(sexprs_view(items@).subrange(0, items@.len() as int) =~= sexprs_view(items@));
            }
            let params = parse_params_range(items, items.len(), diags)?;
            let ens: Vec<Expr> = Vec::new();
            assert(exprs_view(ens@) =~= Seq::<SpecExpr>::empty());
            Ok(ExpectedOutput { params, ensures: ens, span })
        },
        _ => Err(Diagnostic::error_str("expected bracket list for expected-output", span)),
    }
}

fn parse_constraint_of(item: &SExpr, diags: &mut Diagnostics) -> (r: Result<Option<Constraint>, Diagnostic>)
    ensures
        (match r {
            Ok(Some(c)) => Ok::<Option<SpecConstraint>, SpecDiagnostic>(Some(constraint_view(c))),
            Ok(None) => Ok::<Option<SpecConstraint>, SpecDiagnostic>(None),
            Err(d) => Err(d@),
        }, final(diags)@) == spec_constraint_of(item@, old(diags)@),
{
    proof {
        reveal_strlit("no-network");
        reveal_strlit("max-memory");
        reveal_strlit("max-tokens");
    }
    match item {
        SExpr::List(parts, cspan) => {
            proof {
                lemma_sexprs_view(parts@);
            }
            if parts.len() == 0 {
                return Ok(None);
            }
            match parts[0].as_symbol() {
                Some(k) => {
                    if str_eq(k, "no-network") {
                        Ok(Some(Constraint { kind: ConstraintKind::NoNetwork(true), span: *cspan }))
                    } else if parts.len() > 1 {
                        let x = parse_expr(&parts[1], diags)?;
                        let kind = if str_eq(k, "max-memory") {
                            ConstraintKind::MaxMemory(x)
                        } else if str_eq(k, "max-tokens") {
                            ConstraintKind::MaxTokens(x)
                        } else {
                            ConstraintKind::Custom(String::from_str(k), x)
                        };
                        Ok(Some(Constraint { kind, span: *cspan }))
                    } else {
                        Ok(None)
                    }
                },
                None => Ok(None),
            }
        },
        _ => Ok(None),
    }
}

#[verifier::loop_isolation(false)]
pub fn parse_constraints(e: &SExpr, diags: &mut Diagnostics) -> (r: Result<Vec<Constraint>, Diagnostic>)
    ensures
        (match r {
            Ok(v) => Ok::<Seq<SpecConstraint>, SpecDiagnostic>(constraints_view(v@)),
            Err(d) => Err(d@),
        }, final(diags)@) == spec_constraints(e@, old(diags)@),
{
    match e {
        SExpr::BracketList(items, _) => {
            let ghost sv = sexprs_view(items@);
            let ghost st0 = diags@;
            proof {
                lemma_sexprs_view(items@);
            }
            let mut cs: Vec<Constraint> = Vec::new();
            let mut i: usize = 0;
            assert(constraints_view(cs@) =~= Seq::<SpecConstraint>::empty());
            while i < items.len()
                invariant
                    i <= items@.len(),
                    spec_constraints_acc(sv, 0, Seq::empty(), st0) == spec_constraints_acc(sv, i as nat, constraints_view(cs@), diags@),
                decreases items@.len() - i,
            {
                match parse_constraint_of(&items[i], diags)? {
                    Some(c) => {
                        let ghost prev = cs@;
                        cs.push(c);
                        assert(constraints_view(cs@) =~= constraints_view(prev).push(constraint_view(c)));
                    },
                    None => {},
                }
                i += 1;
            }
            Ok(cs)
        },
        _ => Err(Diagnostic::error_str("expected bracket list for constraints", e.span())),
    }
}

pub open spec fn task_acc_view(from: Option<Expr>, to: Option<Expr>, deadline: Option<Expr>, intent: Option<String>,
    input: Seq<Param>, expected_output: Option<ExpectedOutput>, constraints: Seq<Constraint>, on_success: Option<Expr>,
    on_failure: Option<Expr>, on_timeout: Option<Expr>) -> TaskAcc {
    TaskAcc {
        from: opt_expr_view(from),
        to: opt_expr_view(to),
        deadline: opt_expr_view(deadline),
        intent: opt_str_view(intent),
        input: params_view(input),
        expected_output: match expected_output {
            Some(o) => Some(expected_output_view(o)),
            None => None,
        },
        constraints: constraints_view(constraints),
        on_success: opt_expr_view(on_success),
        on_failure: opt_expr_view(on_failure),
        on_timeout: opt_expr_view(on_timeout),
    }
}

fn keyword_message(head: &str, kw: &str) -> (m: String)
    ensures
        m@ == head@ + kw@,
{
    let mut m = String::from_str(head);
    m.append(kw);
    m
}

/// `(task "id" clauses...)`, given the items after `task`.
#[verifier::loop_isolation(false)]
#[verifier::rlimit(80)]
pub fn parse_task(items: &[SExpr], span: Span, diags: &mut Diagnostics) -> (r: Result<TaskDef, Diagnostic>)
    ensures
        (match r {
            Ok(t) => Ok::<SpecTaskDef, SpecDiagnostic>(task_view(t)),
            Err(d) => Err(d@),
        }, final(diags)@) == spec_parse_task(sexprs_view(items@), span, old(diags)@),
{
    let ghost sv = sexprs_view(items@);
    proof {
        lemma_sexprs_view(items@);
        reveal_strlit("from");
        reveal_strlit("to");
        reveal_strlit("deadline");
        reveal_strlit("on-success");
        reveal_strlit("on-failure");
        reveal_strlit("on-timeout");
        reveal_strlit("intent");
        reveal_strlit("input");
        reveal_strlit("expected-output");
        reveal_strlit("constraints");
    }
    if items.len() == 0 {
        return Err(Diagnostic::error_str("task requires an id", span));
    }
    let id = expect_string(&items[0])?;
    let ghost st0 = diags@;
    let mut from: Option<Expr> = None;
    let mut to: Option<Expr> = None;
    let mut deadline: Option<Expr> = None;
    let mut intent: Option<String> = None;
    let mut input: Vec<Param> = Vec::new();
    let mut expected_output: Option<ExpectedOutput> = None;
    let mut constraints: Vec<Constraint> = Vec::new();
    let mut on_success: Option<Expr> = None;
    let mut on_failure: Option<Expr> = None;
    let mut on_timeout: Option<Expr> = None;
    assert(task_acc_view(from, to, deadline, intent, input@, expected_output, constraints@, on_success, on_failure,
        on_timeout) == task_start()) by {
        assert(params_view(input@) =~= Seq::<SpecParam>::empty());
        assert(constraints_view(constraints@) =~= Seq::<SpecConstraint>::empty());
    }
    let mut i: usize = 1;
    while i < items.len()
        invariant
            1 <= i <= items@.len(),
            spec_task_loop(sv, 1, task_start(), span, st0) == spec_task_loop(sv, i as nat, task_acc_view(from, to,
                deadline, intent, input@, expected_output, constraints@, on_success, on_failure, on_timeout), span, diags@),
        decreases items@.len() - i,
    {
        match items[i].as_keyword() {
            None => {
                i += 1;
            },
            Some(kw) => {
                let has_next = i + 1 < items.len();
                if str_eq(kw, "from") || str_eq(kw, "to") || str_eq(kw, "deadline") || str_eq(kw, "on-success")
                    || str_eq(kw, "on-failure") || str_eq(kw, "on-timeout") {
                    if !has_next {
                        let head = if str_eq(kw, "on-success") || str_eq(kw, "on-failure") || str_eq(kw, "on-timeout") {
                            "expected expr after :"
                        } else {
                            "expected value after :"
                        };
                        return Err(Diagnostic::error(keyword_message(head, kw), span));
                    }
                    let x = parse_expr(&items[i + 1], diags)?;
                    if str_eq(kw, "from") {
                        from = Some(x);
                    } else if str_eq(kw, "to") {
                        to = Some(x);
                    } else if str_eq(kw, "deadline") {
                        deadline = Some(x);
                    } else if str_eq(kw, "on-success") {
                        on_success = Some(x);
                    } else if str_eq(kw, "on-failure") {
                        on_failure = Some(x);
                    } else {
                        on_timeout = Some(x);
                    }
                    i += 2;
                } else if str_eq(kw, "intent") {
                    if !has_next {
                        return Err(Diagnostic::error_str("expected string after :intent", span));
                    }
                    intent = Some(expect_string(&items[i + 1])?);
                    i += 2;
                } else if str_eq(kw, "input") {
                    if !has_next {
                        return Err(Diagnostic::error_str("expected list after :input", span));
                    }
                    input = parse_param_list(&items[i + 1], diags)?;
                    i += 2;
                } else if str_eq(kw, "expected-output") {
                    if !has_next {
                        return Err(Diagnostic::error_str("expected value after :expected-output", span));
                    }
                    expected_output = Some(parse_expected_output(&items[i + 1], diags)?);
                    i += 2;
                } else if str_eq(kw, "constraints") {
                    if !has_next {
                        return Err(Diagnostic::error_str("expected list after :constraints", span));
                    }
                    constraints = parse_constraints(&items[i + 1], diags)?;
                    i += 2;
                } else {
                    let m = unknown_keyword_message(kw, "task");
                    diags.add(Diagnostic::warning(m, items[i].span()));
                    i += 1;
                }
            },
        }
    }
    let from = match from {
        Some(x) => x,
        None => Expr { kind: ExprKind::NilLit, span },
    };
    let to = match to {
        Some(x) => x,
        None => Expr { kind: ExprKind::NilLit, span },
    };
    Ok(TaskDef {
        id,
        from,
        to,
        deadline,
        intent,
        input,
        expected_output,
        constraints,
        on_success,
        on_failure,
        on_timeout,
        span,
    })
}


// ── module, and the dispatch on a form's head ───────────────────────

/// What the clauses of a module have set so far.
pub struct ModAcc {
    pub version: Option<Version>,
    pub requires: Seq<Seq<char>>,
    pub provides: Seq<Seq<char>>,
    pub verify: VerifyLevel,
    pub execute_on: Option<SpecExecTarget>,
    pub body: Seq<SpecTopLevel>,
}

pub open spec fn module_start() -> ModAcc {
    ModAcc {
        version: None,
        requires: Seq::empty(),
        provides: Seq::empty(),
        verify: VerifyLevel::Checked,
        execute_on: None,
        body: Seq::empty(),
    }
}

/// A version read at `j` ends one or two items later, within the list.
pub proof fn lemma_version_advances(items: Seq<SpecSExpr>, j: int)
    requires
        0 <= j < items.len(),
    ensures
        spec_parse_version(items, j) matches Ok((_, n)) ==> j < n <= items.len(),
{
}

/// The clauses and body forms of a module, from `i` on (`items` includes
/// the `module` head and the name).
pub open spec fn spec_module_loop(items: Seq<SpecSExpr>, i: nat, a: ModAcc, span: Span, st: SpecDiags) -> Parsed<ModAcc>
    decreases items, items.len() - i,
{
    if i >= items.len() {
        (Ok(a), st)
    } else {
        match spec_keyword_of(items[i as int]) {
            Some(kw) => {
                let has_next = i + 1 < items.len();
                let next = items[i as int + 1];
                if kw == "version"@ {
                    if !has_next {
                        (Err(spec_error("expected version after :version"@, span)), st)
                    } else {
                        proof {
                            lemma_version_advances(items, i as int + 1);
                        }
                        match spec_parse_version(items, i as int + 1) {
                            Err(d) => (Err(d), st),
                            Ok((v, n)) => spec_module_loop(items, n as nat, ModAcc { version: Some(v), ..a }, span, st),
                        }
                    }
                } else if kw == "requires"@ || kw == "provides"@ {
                    if !has_next {
                        (Err(spec_error("expected list after :"@ + kw, span)), st)
                    } else {
                        match spec_parse_symbol_list(next) {
                            Err(d) => (Err(d), st),
                            Ok(l) => spec_module_loop(items, i + 2,
                                if kw == "requires"@ { ModAcc { requires: l, ..a } } else { ModAcc { provides: l, ..a } }, span, st),
                        }
                    }
                } else if kw == "verify"@ {
                    if !has_next {
                        (Err(spec_error("expected verify level after :verify"@, span)), st)
                    } else {
                        match spec_parse_verify_level(next) {
                            Err(d) => (Err(d), st),
                            Ok(v) => spec_module_loop(items, i + 2, ModAcc { verify: v, ..a }, span, st),
                        }
                    }
                } else if kw == "execute-on"@ {
                    if !has_next {
                        (Err(spec_error("expected target after :execute-on"@, span)), st)
                    } else {
                        match spec_parse_exec_target(next) {
                            Err(d) => (Err(d), st),
                            Ok(t) => spec_module_loop(items, i + 2, ModAcc { execute_on: Some(t), ..a }, span, st),
                        }
                    }
                } else {
                    spec_module_loop(items, i + 1, a, span,
                        spec_add(st, spec_warning(unknown_keyword(kw, "module"@), spec_span_of(items[i as int]))))
                }
            },
            None => match spec_top_level(items[i as int], st) {
                (Err(d), s) => (Err(d), s),
                (Ok(t), s) => spec_module_loop(items, i + 1, ModAcc { body: a.body.push(t), ..a }, span, s),
            },
        }
    }
}

/// `(module name clauses-and-forms...)`; `items` includes the head.
pub open spec fn spec_module(items: Seq<SpecSExpr>, span: Span, st: SpecDiags) -> Parsed<SpecModuleDef>
    decreases items, items.len() + 1,
{
    if items.len() <= 1 {
        (Err(spec_error("module requires a name"@, span)), st)
    } else {
        match spec_expect_symbol(items[1]) {
            Err(d) => (Err(d), st),
            Ok(name) => match spec_module_loop(items, 2, module_start(), span, st) {
                (Err(d), s) => (Err(d), s),
                (Ok(a), s) => (Ok(SpecModuleDef {
                    name,
                    version: a.version,
                    requires: a.requires,
                    provides: a.provides,
                    verify: a.verify,
                    execute_on: a.execute_on,
                    body: a.body,
                    span,
                }), s),
            },
        }
    }
}

/// A top-level form, dispatched on its head symbol; anything else is read
/// as an expression.
pub open spec fn spec_top_level(e: SpecSExpr, st: SpecDiags) -> Parsed<SpecTopLevel>
    decreases e, 0int,
{
    let as_expr = match spec_expr(e, st) {
        (Err(d), s) => (Err(d), s),
        (Ok(x), s) => (Ok(SpecTopLevel::Expr(x)), s),
    };
    match e {
        SpecSExpr::List(items, span) => if items.len() > 0 && spec_symbol_of(items[0]) is Some {
            let h = spec_symbol_of(items[0])->0;
            let rest = items.subrange(1, items.len() as int);
            if h == "defn"@ {
                match spec_parse_defn(rest, span, st) {
                    (Err(d), s) => (Err(d), s),
                    (Ok(f), s) => (Ok(SpecTopLevel::Defn(f)), s),
                }
            } else if h == "define"@ {
                match spec_parse_define(rest, span, st) {
                    (Err(d), s) => (Err(d), s),
                    (Ok(f), s) => (Ok(SpecTopLevel::Define(f)), s),
                }
            } else if h == "deftype"@ {
                match spec_parse_deftype(rest, span) {
                    Err(d) => (Err(d), st),
                    Ok(t) => (Ok(SpecTopLevel::DefType(t)), st),
                }
            } else if h == "module"@ {
                match spec_module(items, span, st) {
                    (Err(d), s) => (Err(d), s),
                    (Ok(m), s) => (Ok(SpecTopLevel::Module(m)), s),
                }
            } else if h == "task"@ {
                match spec_parse_task(rest, span, st) {
                    (Err(d), s) => (Err(d), s),
                    (Ok(t), s) => (Ok(SpecTopLevel::Task(t)), s),
                }
            } else if h == "use"@ {
                match spec_parse_use(rest, span) {
                    Err(d) => (Err(d), st),
                    Ok((m, k)) => (Ok(SpecTopLevel::UseDecl(m, k, span)), st),
                }
            } else if h == "import"@ {
                match spec_parse_import(rest, span) {
                    Err(d) => (Err(d), st),
                    Ok((p, al, o)) => (Ok(SpecTopLevel::Import(p, al, o, span)), st),
                }
            } else if h == "extern-c"@ {
                match spec_parse_extern_c(rest, span, st) {
                    (Err(d), s) => (Err(d), s),
                    (Ok(x), s) => (Ok(SpecTopLevel::ExternC(x)), s),
                }
            } else {
                as_expr
            }
        } else {
            as_expr
        },
        _ => as_expr,
    }
}


pub open spec fn mod_acc_view(version: Option<Version>, reqs: Seq<String>, provs: Seq<String>, verify: VerifyLevel,
    execute_on: Option<ExecTarget>, body: Seq<TopLevel>) -> ModAcc {
    ModAcc {
        version,
        requires: strings_view(reqs),
        provides: strings_view(provs),
        verify,
        execute_on: opt_target_view(execute_on),
        body: top_levels_view(body),
    }
}

pub open spec fn top_level_res(r: Result<TopLevel, Diagnostic>) -> Result<SpecTopLevel, SpecDiagnostic> {
    match r {
        Ok(t) => Ok(top_level_view(t)),
        Err(d) => Err(d@),
    }
}

pub proof fn lemma_top_levels_view_push(s: Seq<TopLevel>, x: TopLevel)
    ensures
        top_levels_view(s.push(x)) == top_levels_view(s).push(top_level_view(x)),
{
    assert(s.push(x).drop_last() =~= s);
}

/// `(module name clauses-and-forms...)`; `items` includes the head.
#[verifier::loop_isolation(false)]
#[verifier::rlimit(60)]
fn parse_module(items: &Vec<SExpr>, span: Span, diags: &mut Diagnostics) -> (r: Result<ModuleDef, Diagnostic>)
    ensures
        (match r {
            Ok(m) => Ok::<SpecModuleDef, SpecDiagnostic>(module_view(m)),
            Err(d) => Err(d@),
        }, final(diags)@) == spec_module(sexprs_view(items@), span, old(diags)@),
    decreases items, 1nat,
{
    let ghost sv = sexprs_view(items@);
    proof {
        lemma_sexprs_view(items@);
        reveal_strlit("version");
        reveal_strlit("requires");
        reveal_strlit("provides");
        reveal_strlit("verify");
        reveal_strlit("execute-on");
        assert(decreases_to!(*items => items@));
    }
    if items.len() <= 1 {
        return Err(Diagnostic::error_str("module requires a name", span));
    }
    let name = expect_symbol(&items[1])?;
    let ghost st0 = diags@;
    let mut version: Option<Version> = None;
    let mut reqs: Vec<String> = Vec::new();
    let mut provs: Vec<String> = Vec::new();
    let mut verify = VerifyLevel::Checked;
    let mut execute_on: Option<ExecTarget> = None;
    let mut body: Vec<TopLevel> = Vec::new();
    assert(mod_acc_view(version, reqs@, provs@, verify, execute_on, body@) == module_start()) by {
        assert(strings_view(reqs@) =~= Seq::<Seq<char>>::empty());
        assert(strings_view(provs@) =~= Seq::<Seq<char>>::empty());
        assert(top_levels_view(body@) =~= Seq::<SpecTopLevel>::empty());
    }
    let mut i: usize = 2;
    while i < items.len()
        invariant
            2 <= i <= items@.len(),
            spec_module_loop(sv, 2, module_start(), span, st0)
                == spec_module_loop(sv, i as nat, mod_acc_view(version, reqs@, provs@, verify, execute_on, body@), span, diags@),
        decreases items@.len() - i,
    {
        match items[i].as_keyword() {
            Some(kw) => {
                let has_next = i + 1 < items.len();
                if str_eq(kw, "version") {
                    if !has_next {
                        return Err(Diagnostic::error_str("expected version after :version", span));
                    }
                    let mut j: usize = i + 1;
                    proof {
                        lemma_version_advances(sv, i + 1);
                    }
                    let v = crate::parser::parse_version(items.as_slice(), &mut j)?;
                    version = Some(v);
                    i = j;
                } else if str_eq(kw, "requires") || str_eq(kw, "provides") {
                    if !has_next {
                        return Err(Diagnostic::error(keyword_message("expected list after :", kw), span));
                    }
                    let l = parse_symbol_list(&items[i + 1])?;
                    if str_eq(kw, "requires") {
                        reqs = l;
                    } else {
                        provs = l;
                    }
                    i += 2;
                } else if str_eq(kw, "verify") {
                    if !has_next {
                        return Err(Diagnostic::error_str("expected verify level after :verify", span));
                    }
                    verify = parse_verify_level(&items[i + 1])?;
                    i += 2;
                } else if str_eq(kw, "execute-on") {
                    if !has_next {
                        return Err(Diagnostic::error_str("expected target after :execute-on", span));
                    }
                    execute_on = Some(parse_exec_target(&items[i + 1])?);
                    i += 2;
                } else {
                    let m = unknown_keyword_message(kw, "module");
                    diags.add(Diagnostic::warning(m, items[i].span()));
                    i += 1;
                }
            },
            None => {
                proof {
                    assert(decreases_to!(items@ => items@[i as int]));
                }
                let t = parse_top_level(&items[i], diags)?;
                proof {
                    lemma_top_levels_view_push(body@, t);
                }
                body.push(t);
                i += 1;
            },
        }
    }
    Ok(ModuleDef { name, version, requires: reqs, provides: provs, verify, execute_on, body, span })
}

/// Reads one top-level form. Diagnostics receives the warnings and errors
/// that do not stop the reading (an unknown keyword, a function without
/// contracts or intent, ignored trailing forms).
#[verifier::rlimit(60)]
pub fn parse_top_level(e: &SExpr, diags: &mut Diagnostics) -> (r: Result<TopLevel, Diagnostic>)
    ensures
        (top_level_res(r), final(diags)@) == spec_top_level(e@, old(diags)@),
    decreases e, 0nat,
{
    proof {
        reveal_strlit("defn");
        reveal_strlit("define");
        reveal_strlit("deftype");
        reveal_strlit("module");
        reveal_strlit("task");
        reveal_strlit("use");
        reveal_strlit("import");
        reveal_strlit("extern-c");
    }
    match e {
        SExpr::List(items, span) => {
            proof {
                lemma_sexprs_view(items@);
            }
            if items.len() > 0 {
                match items[0].as_symbol() {
                    Some(h) => {
                        let (_, rest) = items.as_slice().split_at(1);
                        proof {
                            lemma_sexprs_view_subrange(items@, 1, items@.len() as int);
                        }
                        if str_eq(h, "defn") {
                            let f = parse_defn(rest, *span, diags)?;
                            return Ok(TopLevel::Defn(f));
                        } else if str_eq(h, "define") {
                            let f = parse_define(rest, *span, diags)?;
                            return Ok(TopLevel::Define(f));
                        } else if str_eq(h, "deftype") {
                            let t = parse_deftype(rest, *span)?;
                            return Ok(TopLevel::DefType(t));
                        } else if str_eq(h, "module") {
                            proof {
                                assert(decreases_to!(*e => *items));
                            }
                            let m = parse_module(items, *span, diags)?;
                            return Ok(TopLevel::Module(m));
                        } else if str_eq(h, "task") {
                            let t = parse_task(rest, *span, diags)?;
                            return Ok(TopLevel::Task(t));
                        } else if str_eq(h, "use") {
                            let u = parse_use(rest, *span)?;
                            return Ok(TopLevel::UseDecl(u));
                        } else if str_eq(h, "import") {
                            return parse_import(rest, *span);
                        } else if str_eq(h, "extern-c") {
                            let x = parse_extern_c(rest, *span, diags)?;
                            return Ok(TopLevel::ExternC(x));
                        }
                    },
                    None => {},
                }
            }
            let x = parse_expr(e, diags)?;
            Ok(TopLevel::Expr(x))
        },
        _ => {
            let x = parse_expr(e, diags)?;
            Ok(TopLevel::Expr(x))
        },
    }
}


// ── Copies ──────────────────────────────────────────────────────────

fn clone_strings(v: &Vec<String>) -> (r: Vec<String>)
    ensures
        strings_view(r@) == strings_view(v@),
{
    let mut out: Vec<String> = Vec::new();
    let mut i: usize = 0;
    while i < v.len()
        invariant
            i <= v@.len(),
            strings_view(out@) == strings_view(v@.take(i as int)),
        decreases v@.len() - i,
    {
        let ghost prev = out@;
        out.push(v[i].clone());
        assert(strings_view(out@) =~= strings_view(prev).push(v@[i as int]@));
        assert(strings_view(v@.take(i + 1)) =~= strings_view(v@.take(i as int)).push(v@[i as int]@));
        i += 1;
    }
    assert(v@.take(i as int) =~= v@);
    out
}

fn clone_target(t: &ExecTarget) -> (r: ExecTarget)
    ensures
        exec_target_view(r) == exec_target_view(*t),
{
    match t {
        ExecTarget::Cpu => ExecTarget::Cpu,
        ExecTarget::Gpu => ExecTarget::Gpu,
        ExecTarget::Any => ExecTarget::Any,
        ExecTarget::Agent(s) => ExecTarget::Agent(s.clone()),
    }
}

fn clone_opt_target(t: &Option<ExecTarget>) -> (r: Option<ExecTarget>)
    ensures
        opt_target_view(r) == opt_target_view(*t),
{
    match t {
        Some(x) => Some(clone_target(x)),
        None => None,
    }
}

fn clone_opt_string(s: &Option<String>) -> (r: Option<String>)
    ensures
        opt_str_view(r) == opt_str_view(*s),
{
    match s {
        Some(x) => Some(x.clone()),
        None => None,
    }
}

fn clone_opt_expr(e: &Option<Expr>) -> (r: Option<Expr>)
    ensures
        opt_expr_view(r) == opt_expr_view(*e),
{
    match e {
        Some(x) => Some(x.clone()),
        None => None,
    }
}

fn clone_type_def(d: &TypeDef) -> (r: TypeDef)
    ensures
        type_def_view(r) == type_def_view(*d),
{
    let mut ps: Vec<crate::ast::TypeParam> = Vec::new();
    let mut i: usize = 0;
    while i < d.type_params.len()
        invariant
            i <= d.type_params@.len(),
            ps@.len() == i,
            forall|k: int| 0 <= k < i ==> crate::ast::type_param_view(#[trigger] ps@[k]) == crate::ast::type_param_view(d.type_params@[k]),
        decreases d.type_params@.len() - i,
    {
        let p = &d.type_params[i];
        ps.push(crate::ast::TypeParam { name: p.name.clone(), bound: p.bound.clone(), span: p.span });
        i += 1;
    }
    let body = match &d.body {
        crate::ast::TypeDefBody::Sum(vs) => {
            let mut out: Vec<crate::ast::Variant> = Vec::new();
            let mut i: usize = 0;
            while i < vs.len()
                invariant
                    i <= vs@.len(),
                    out@.len() == i,
                    forall|k: int| 0 <= k < i ==> crate::ast::variant_view(#[trigger] out@[k]) == crate::ast::variant_view(vs@[k]),
                decreases vs@.len() - i,
            {
                let v = &vs[i];
                let mut fs: Vec<AstType> = Vec::new();
                let mut j: usize = 0;
                assert(crate::ast::ast_types_view(fs@) =~= crate::ast::ast_types_view(v.fields@.take(0)));
                while j < v.fields.len()
                    invariant
                        j <= v.fields@.len(),
                        crate::ast::ast_types_view(fs@) == crate::ast::ast_types_view(v.fields@.take(j as int)),
                    decreases v.fields@.len() - j,
                {
                    let t = v.fields[j].clone();
                    let ghost prev = fs@;
                    fs.push(t);
                    assert(fs@.drop_last() =~= prev);
                    assert(v.fields@.take(j + 1).drop_last() =~= v.fields@.take(j as int));
                    j += 1;
                }
                assert(v.fields@.take(j as int) =~= v.fields@);
                out.push(crate::ast::Variant { name: v.name.clone(), fields: fs, span: v.span });
                i += 1;
            }
            assert(Seq::new(out@.len(), |k: int| crate::ast::variant_view(out@[k])) =~= Seq::new(vs@.len(), |k: int| crate::ast::variant_view(vs@[k])));
            crate::ast::TypeDefBody::Sum(out)
        },
        crate::ast::TypeDefBody::Product(fs) => {
            let mut out: Vec<crate::ast::Field> = Vec::new();
            let mut i: usize = 0;
            while i < fs.len()
                invariant
                    i <= fs@.len(),
                    out@.len() == i,
                    forall|k: int| 0 <= k < i ==> crate::ast::field_view(#[trigger] out@[k]) == crate::ast::field_view(fs@[k]),
                decreases fs@.len() - i,
            {
                let f = &fs[i];
                out.push(crate::ast::Field { name: f.name.clone(), ty: f.ty.clone(), span: f.span });
                i += 1;
            }
            assert(Seq::new(out@.len(), |k: int| crate::ast::field_view(out@[k])) =~= Seq::new(fs@.len(), |k: int| crate::ast::field_view(fs@[k])));
            crate::ast::TypeDefBody::Product(out)
        },
        crate::ast::TypeDefBody::Alias(t) => crate::ast::TypeDefBody::Alias(t.clone()),
    };
    let r = TypeDef { name: d.name.clone(), type_params: ps, body, is_public: d.is_public, span: d.span };
    assert(type_def_view(r).type_params =~= type_def_view(*d).type_params);
    r
}

fn clone_fn_def(f: &FnDef) -> (r: FnDef)
    ensures
        fn_def_view(r) == fn_def_view(*f),
{
    FnDef {
        name: f.name.clone(),
        params: crate::ast::clone_params(&f.params),
        return_type: f.return_type.clone(),
        intent: clone_opt_string(&f.intent),
        requires: crate::ast::clone_exprs(&f.requires),
        ensures: crate::ast::clone_exprs(&f.ensures),
        invariants: crate::ast::clone_exprs(&f.invariants),
        is_pure: f.is_pure,
        is_total: f.is_total,
        body: f.body.clone(),
        execute_on: clone_opt_target(&f.execute_on),
        priority: f.priority,
        is_public: f.is_public,
        span: f.span,
    }
}

fn clone_constraints(v: &Vec<Constraint>) -> (r: Vec<Constraint>)
    ensures
        constraints_view(r@) == constraints_view(v@),
{
    let mut out: Vec<Constraint> = Vec::new();
    let mut i: usize = 0;
    while i < v.len()
        invariant
            i <= v@.len(),
            out@.len() == i,
            forall|k: int| 0 <= k < i ==> constraint_view(#[trigger] out@[k]) == constraint_view(v@[k]),
        decreases v@.len() - i,
    {
        let c = &v[i];
        let kind = match &c.kind {
            ConstraintKind::MaxMemory(e) => ConstraintKind::MaxMemory(e.clone()),
            ConstraintKind::MaxTokens(e) => ConstraintKind::MaxTokens(e.clone()),
            ConstraintKind::NoNetwork(b) => ConstraintKind::NoNetwork(*b),
            ConstraintKind::Custom(n, e) => ConstraintKind::Custom(n.clone(), e.clone()),
        };
        out.push(Constraint { kind, span: c.span });
        i += 1;
    }
    assert(constraints_view(out@) =~= constraints_view(v@));
    out
}

fn clone_task(t: &TaskDef) -> (r: TaskDef)
    ensures
        task_view(r) == task_view(*t),
{
    let expected_output = match &t.expected_output {
        Some(o) => Some(ExpectedOutput {
            params: crate::ast::clone_params(&o.params),
            ensures: crate::ast::clone_exprs(&o.ensures),
            span: o.span,
        }),
        None => None,
    };
    TaskDef {
        id: t.id.clone(),
        from: t.from.clone(),
        to: t.to.clone(),
        deadline: clone_opt_expr(&t.deadline),
        intent: clone_opt_string(&t.intent),
        input: crate::ast::clone_params(&t.input),
        expected_output,
        constraints: clone_constraints(&t.constraints),
        on_success: clone_opt_expr(&t.on_success),
        on_failure: clone_opt_expr(&t.on_failure),
        on_timeout: clone_opt_expr(&t.on_timeout),
        span: t.span,
    }
}

fn clone_top_level(t: &TopLevel) -> (r: TopLevel)
    ensures
        top_level_view(r) == top_level_view(*t),
    decreases t, 1nat,
{
    match t {
        TopLevel::Module(m) => {
            proof {
                assert(decreases_to!(*t => *m));
                assert(decreases_to!(*m => m.body));
            }
            let body = clone_top_levels(&m.body);
            TopLevel::Module(ModuleDef {
                name: m.name.clone(),
                version: m.version,
                requires: clone_strings(&m.requires),
                provides: clone_strings(&m.provides),
                verify: m.verify,
                execute_on: clone_opt_target(&m.execute_on),
                body,
                span: m.span,
            })
        },
        TopLevel::Defn(f) => TopLevel::Defn(clone_fn_def(f)),
        TopLevel::Define(d) => TopLevel::Define(SimpleFnDef {
            name: d.name.clone(),
            params: clone_strings(&d.params),
            body: d.body.clone(),
            span: d.span,
        }),
        TopLevel::DefType(d) => TopLevel::DefType(clone_type_def(d)),
        TopLevel::Task(k) => TopLevel::Task(clone_task(k)),
        TopLevel::UseDecl(u) => TopLevel::UseDecl(UseDef {
            module: u.module.clone(),
            kind: match &u.kind {
                UseKind::Symbols(v) => UseKind::Symbols(clone_strings(v)),
                UseKind::Prefixed(p) => UseKind::Prefixed(p.clone()),
                UseKind::All => UseKind::All,
            },
            span: u.span,
        }),
        TopLevel::Import { path, alias, only, span } => TopLevel::Import {
            path: path.clone(),
            alias: clone_opt_string(alias),
            only: match only {
                Some(v) => Some(clone_strings(v)),
                None => None,
            },
            span: *span,
        },
        TopLevel::ExternC(x) => TopLevel::ExternC(ExternCDecl {
            c_name: x.c_name.clone(),
            params: crate::ast::clone_params(&x.params),
            return_type: x.return_type.clone(),
            span: x.span,
        }),
        TopLevel::Expr(e) => TopLevel::Expr(e.clone()),
    }
}

fn clone_top_levels(v: &Vec<TopLevel>) -> (r: Vec<TopLevel>)
    ensures
        top_levels_view(r@) == top_levels_view(v@),
    decreases v, 0nat,
{
    let mut out: Vec<TopLevel> = Vec::new();
    let mut i: usize = 0;
    assert(v@.take(0) =~= Seq::<TopLevel>::empty());
    while i < v.len()
        invariant
            i <= v@.len(),
            top_levels_view(out@) == top_levels_view(v@.take(i as int)),
        decreases v@.len() - i,
    {
        proof {
            assert(decreases_to!(v => v@));
            assert(decreases_to!(v@ => v@[i as int]));
        }
        let c = clone_top_level(&v[i]);
        let ghost prev = out@;
        out.push(c);
        proof {
            assert(out@.drop_last() =~= prev);
            assert(v@.take(i + 1).drop_last() =~= v@.take(i as int));
        }
        i += 1;
    }
    assert(v@.take(i as int) =~= v@);
    out
}

impl Clone for TopLevel {
    /// A copy with the same view.
    fn clone(&self) -> (r: TopLevel)
        ensures
            top_level_view(r) == top_level_view(*self),
    {
        clone_top_level(self)
    }
}

} // verus!
