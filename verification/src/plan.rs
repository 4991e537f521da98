//! What the prover asks the solver about a function, and what it concludes
//! from the answers: the assumptions (`:requires`, the body bound to
//! `result`, inductive hypotheses for recursive calls), and for every
//! `:ensures` and `:invariant` clause either a result decided without the
//! solver or the goal whose negation the solver checks.
use vstd::prelude::*;
use crate::ast::{AstType, Expr, FnDef, Param, SpecExpr, SpecExprKind, SpecLetBinding, SpecParam, SpecAstType, expr_view, exprs_view, params_view,
    ast_type_view, param_view};
use crate::smt::{VarSort, SmtOp, Term, SpecTerm, term_view, terms_view};
use crate::solver::{VerifyResult, SpecVerifyResult, FunctionVerification, SpecFunctionVerification, view_pairs,
    view_results};
use crate::translate::{Translator, TrState, SpecTErr, SeedVal, tr, bind, vars_of, sort_of_type, recursive_seeds,
    sort_of_type_exec, seed_view, seeds_view, arity_ok, arity_ok_all, app, lemma_exprs_view_len, lemma_exprs_view_index,
    lemma_params_view_len, lemma_params_view_index, lemma_arity_all, check_arity, check_arity_all};
use crate::prover::{Z3Prover, mentions, calls_of, law_self_call_found_first, law_let_calls_reach_bindings, clause_references_result, collect_recursive_calls, arg_lists_view};
use crate::printer::{expr_printable, expr_text, check_all_printable, lemma_exprs_printable_each};
use crate::parser::strings_view;

verus! {

// ── The model ───────────────────────────────────────────────────────

/// A clause's fate before the solver: decided already, or a goal to check
/// (with the parameters whose values a counterexample reports).
pub enum SpecCheck {
    Done(SpecVerifyResult),
    Ask(SpecTerm, Seq<(Seq<char>, VarSort, SpecTerm)>),
}

pub struct SpecPlan {
    pub function_name: Seq<char>,
    pub assumptions: Seq<SpecTerm>,
    pub ensures: Seq<(Seq<char>, SpecCheck)>,
    pub invariants: Seq<(Seq<char>, SpecCheck)>,
}

pub open spec fn empty_state() -> TrState {
    TrState {
        ints: Map::empty(),
        bools: Map::empty(),
        reals: Map::empty(),
        strs: Map::empty(),
        seqs: Map::empty(),
        counter: 0,
    }
}

/// The translator state with the first `n` parameters declared; `None`
/// when one has no sort.
pub open spec fn declare_params(st: TrState, ps: Seq<SpecParam>, n: nat) -> Option<TrState>
    decreases n,
{
    if n == 0 || n > ps.len() {
        Some(st)
    } else {
        match declare_params(st, ps, (n - 1) as nat) {
            None => None,
            Some(s) => match sort_of_type(ps[n - 1].ty) {
                None => None,
                Some(k) => Some(bind(s, k, ps[n - 1].name, SpecTerm::Const(ps[n - 1].name, k))),
            },
        }
    }
}

/// The parameters and `result` declared, when all of them have sorts.
pub open spec fn setup(ps: Seq<SpecParam>, ret: SpecAstType) -> Option<TrState> {
    match declare_params(empty_state(), ps, ps.len()) {
        None => None,
        Some(s) => match sort_of_type(ret) {
            None => None,
            Some(k) => Some(bind(s, k, "result"@, SpecTerm::Const("result"@, k))),
        },
    }
}

/// The `:requires` clauses as booleans; `None` at the first that fails.
pub open spec fn assume_all(st: TrState, reqs: Seq<SpecExpr>) -> (Option<Seq<SpecTerm>>, TrState)
    decreases reqs.len(),
{
    if reqs.len() == 0 {
        (Some(Seq::empty()), st)
    } else {
        let (r, s1) = assume_all(st, reqs.drop_last());
        match r {
            None => (None, s1),
            Some(ts) => {
                let (x, s2) = tr(VarSort::Bool, s1, reqs.last());
                match x {
                    Err(_) => (None, s2),
                    Ok(t) => (Some(ts.push(t)), s2),
                }
            },
        }
    }
}

/// `result = body`, when the body translates in the return sort (strings
/// only when `with_str`).
pub open spec fn bind_body(st: TrState, ret: SpecAstType, body: SpecExpr, with_str: bool) -> (Option<SpecTerm>, TrState) {
    match sort_of_type(ret) {
        Some(k) => if k is Int || k is Bool || k is Real || (k is Str && with_str) {
            let (r, s1) = tr(k, st, body);
            match r {
                Err(_) => (None, s1),
                Ok(b) => if vars_of(s1, k).contains_key("result"@) {
                    (Some(app(SmtOp::Eq, seq![vars_of(s1, k)["result"@], b])), s1)
                } else {
                    (None, s1)
                },
            }
        } else {
            (None, st)
        },
        None => (None, st),
    }
}

/// Which parameter sorts a counterexample reports.
#[derive(Clone, Copy)]
pub enum Reported {
    AllSorts,
    Numeric,
    Nothing,
}

pub open spec fn reported(r: Reported, k: VarSort) -> bool {
    match r {
        Reported::AllSorts => true,
        Reported::Numeric => k is Int || k is Bool || k is Real,
        Reported::Nothing => false,
    }
}

/// The first `n` parameters a counterexample reports, with their terms.
pub open spec fn model_vars(st: TrState, ps: Seq<SpecParam>, r: Reported, n: nat) -> Seq<(Seq<char>, VarSort, SpecTerm)>
    decreases n,
{
    if n == 0 || n > ps.len() {
        Seq::empty()
    } else {
        let prev = model_vars(st, ps, r, (n - 1) as nat);
        let p = ps[n - 1];
        match sort_of_type(p.ty) {
            Some(k) => if reported(r, k) && vars_of(st, k).contains_key(p.name) {
                prev.push((p.name, k, vars_of(st, k)[p.name]))
            } else {
                prev
            },
            None => prev,
        }
    }
}

pub open spec fn terr_display(e: SpecTErr) -> Seq<char> {
    match e {
        SpecTErr::Expr(s) => "unsupported: "@ + s,
        SpecTErr::Type(s) => "unsupported type: "@ + s,
        SpecTErr::Undef(s) => "undefined: "@ + s,
    }
}

/// What becomes of each clause: `Unknown(msg)` for one that mentions
/// `result` when the body was not bound, a translation error, or a goal.
pub open spec fn check_clauses(st: TrState, cs: Seq<Expr>, names: Seq<Seq<char>>, body_ok: bool, msg: Seq<char>, ps: Seq<SpecParam>,
    r: Reported) -> (Seq<(Seq<char>, SpecCheck)>, TrState)
    decreases cs.len(),
{
    if cs.len() == 0 {
        (Seq::empty(), st)
    } else {
        let (prev, s1) = check_clauses(st, cs.drop_last(), names, body_ok, msg, ps, r);
        let c = cs.last();
        let src = names[cs.len() - 1];
        if mentions(expr_view(c), "result"@) && !body_ok {
            (prev.push((src, SpecCheck::Done(SpecVerifyResult::Unknown(msg)))), s1)
        } else {
            let (x, s2) = tr(VarSort::Bool, s1, expr_view(c));
            match x {
                Ok(t) => (prev.push((src, SpecCheck::Ask(t, model_vars(s2, ps, r, ps.len())))), s2),
                Err(e) => (prev.push((src, SpecCheck::Done(SpecVerifyResult::TranslationError(terr_display(e))))), s2),
            }
        }
    }
}

/// Every clause `Unknown(msg)`, under its name.
pub open spec fn all_unknown(names: Seq<Seq<char>>, msg: Seq<char>) -> Seq<(Seq<char>, SpecCheck)> {
    Seq::new(names.len(), |i: int| (names[i], SpecCheck::Done(SpecVerifyResult::Unknown(msg))))
}

pub open spec fn unknown_plan(def: FnDef, en: Seq<Seq<char>>, iv: Seq<Seq<char>>, msg: Seq<char>) -> SpecPlan {
    SpecPlan {
        function_name: def.name@,
        assumptions: Seq::empty(),
        ensures: all_unknown(en, msg),
        invariants: all_unknown(iv, msg),
    }
}

/// The clauses written back as source: the names results carry.
pub open spec fn clause_texts(cs: Seq<Expr>) -> Seq<Seq<char>> {
    Seq::new(cs.len(), |i: int| expr_text(cs[i]))
}

pub open spec fn ens_unbound_msg() -> Seq<char> {
    "result postconditions require body translation (not yet implemented)"@
}

pub open spec fn inv_unbound_msg() -> Seq<char> {
    "invariant references result but body translation failed"@
}

pub open spec fn ens_unbound_msg_rec() -> Seq<char> {
    "result postconditions require body translation (recursive body unsupported)"@
}

/// The plan for checking a function's clauses directly, its clauses written
/// back as source.
pub open spec fn spec_plan(def: FnDef) -> SpecPlan {
    spec_plan_named(def, clause_texts(def.ensures@), clause_texts(def.invariants@))
}

/// The plan for checking a function's clauses directly, the `:ensures`
/// named by `en` and the `:invariant` clauses by `iv`.
pub open spec fn spec_plan_named(def: FnDef, en: Seq<Seq<char>>, iv: Seq<Seq<char>>) -> SpecPlan {
    let ps = params_view(def.params@);
    let ret = ast_type_view(def.return_type);
    match setup(ps, ret) {
        None => unknown_plan(def, en, iv, "unsupported parameter types"@),
        Some(s0) => {
            let (ra, s1) = assume_all(s0, exprs_view(def.requires@));
            match ra {
                None => unknown_plan(def, en, iv, "cannot translate requires"@),
                Some(asms) => {
                    let (rb, s2) = bind_body(s1, ret, expr_view(def.body), true);
                    let body_ok = rb is Some;
                    let asms2 = if body_ok { asms.push(rb.unwrap()) } else { asms };
                    let (ens, s3) = check_clauses(s2, def.ensures@, en, body_ok, ens_unbound_msg(), ps, Reported::AllSorts);
                    let (inv, _) = check_clauses(s3, def.invariants@, iv, body_ok, inv_unbound_msg(), ps, Reported::AllSorts);
                    SpecPlan { function_name: def.name@, assumptions: asms2, ensures: ens, invariants: inv }
                },
            }
        },
    }
}

// ── Inductive hypotheses ────────────────────────────────────────────

/// A fresh state with the first `n` parameters bound to the seeds.
pub open spec fn seed_params(st: TrState, ps: Seq<SpecParam>, seeds: Seq<(VarSort, SpecTerm)>, n: nat) -> TrState
    decreases n,
{
    if n == 0 || n > ps.len() || n > seeds.len() {
        st
    } else {
        let s = seed_params(st, ps, seeds, (n - 1) as nat);
        bind(s, seeds[n - 1].0, ps[n - 1].name, seeds[n - 1].1)
    }
}

/// The `:ensures` clauses that translate in the call-site state, as axioms.
pub open spec fn site_axioms(st: TrState, es: Seq<SpecExpr>) -> (Seq<SpecTerm>, TrState)
    decreases es.len(),
{
    if es.len() == 0 {
        (Seq::empty(), st)
    } else {
        let (prev, s1) = site_axioms(st, es.drop_last());
        let (x, s2) = tr(VarSort::Bool, s1, es.last());
        match x {
            Ok(t) => (prev.push(t), s2),
            Err(_) => (prev, s2),
        }
    }
}

/// The inductive hypotheses of the first `n` recursive call sites: for each
/// whose argument count matches, the `:ensures` clauses with the parameters
/// bound to the arguments and `result` to the call.
pub open spec fn hypotheses(st: TrState, def: FnDef, calls: Seq<Seq<SpecExpr>>, n: nat) -> (Seq<SpecTerm>, TrState)
    decreases n,
{
    if n == 0 || n > calls.len() {
        (Seq::empty(), st)
    } else {
        let (prev, s1) = hypotheses(st, def, calls, (n - 1) as nat);
        let args = calls[n - 1];
        let ps = params_view(def.params@);
        if args.len() != ps.len() {
            (prev, s1)
        } else {
            let (r, s2) = recursive_seeds(s1, def.name@, args, ast_type_view(def.return_type), ps);
            match r {
                None => (prev, s2),
                Some((seeds, res)) => {
                    let site = bind(seed_params(empty_state(), ps, seeds, crate::translate::min_len(ps.len(), seeds.len())),
                        res.0, "result"@, res.1);
                    (prev + site_axioms(site, exprs_view(def.ensures@)).0, s2)
                },
            }
        }
    }
}

/// The plan for checking a recursive function's clauses with the
/// inductive hypotheses assumed; `None` when the body makes no recursive call.
pub open spec fn spec_plan_inductive(def: FnDef) -> Option<SpecPlan> {
    spec_plan_inductive_named(def, clause_texts(def.ensures@), clause_texts(def.invariants@))
}

/// `spec_plan_inductive` with the clauses named by `en` and `iv`.
pub open spec fn spec_plan_inductive_named(def: FnDef, en: Seq<Seq<char>>, iv: Seq<Seq<char>>) -> Option<SpecPlan> {
    let ps = params_view(def.params@);
    let ret = ast_type_view(def.return_type);
    let calls = calls_of(expr_view(def.body), def.name@);
    if calls.len() == 0 {
        None
    } else {
        Some(match setup(ps, ret) {
            None => unknown_plan(def, en, iv, "unsupported parameter types"@),
            Some(s0) => {
                let (ra, s1) = assume_all(s0, exprs_view(def.requires@));
                match ra {
                    None => unknown_plan(def, en, iv, "cannot translate requires"@),
                    Some(asms) => {
                        let (ih, s2) = hypotheses(s1, def, calls, calls.len());
                        let (rb, s3) = bind_body(s2, ret, expr_view(def.body), false);
                        let body_ok = rb is Some;
                        let asms2 = if body_ok { (asms + ih).push(rb.unwrap()) } else { asms + ih };
                        let (ens, s4) = check_clauses(s3, def.ensures@, en, body_ok, ens_unbound_msg_rec(), ps,
                            Reported::Numeric);
                        let (inv, _) = check_clauses(s4, def.invariants@, iv, body_ok, inv_unbound_msg(), ps,
                            Reported::Nothing);
                        SpecPlan { function_name: def.name@, assumptions: asms2, ensures: ens, invariants: inv }
                    },
                }
            },
        })
    }
}

/// The `:requires` clauses the prover translates have their operands: each
/// one whose predecessors all translated.
pub open spec fn requires_arity_ok(st: TrState, reqs: Seq<SpecExpr>) -> bool {
    forall|i: int| 0 <= i < reqs.len() && assume_all(st, reqs.take(i)).0 is Some ==> arity_ok(#[trigger] reqs[i])
}

/// Every operator call the prover translates in a function has its
/// operands. It translates the `:requires` once the parameters are declared
/// (up to the first that fails), and the body and the other clauses only
/// when all `:requires` translate.
pub open spec fn operands_ok(def: FnDef) -> bool {
    match setup(params_view(def.params@), ast_type_view(def.return_type)) {
        None => true,
        Some(s0) => {
            &&& requires_arity_ok(s0, exprs_view(def.requires@))
            &&& (assume_all(s0, exprs_view(def.requires@)).0 is Some ==> {
                &&& arity_ok_all(exprs_view(def.ensures@))
                &&& arity_ok_all(exprs_view(def.invariants@))
                &&& arity_ok(expr_view(def.body))
            })
        },
    }
}

/// `operands_ok`, and for the inductive plan also the arguments of every
/// recursive call, which it translates when all `:requires` translate.
pub open spec fn operands_ok_inductive(def: FnDef) -> bool {
    &&& operands_ok(def)
    &&& match setup(params_view(def.params@), ast_type_view(def.return_type)) {
        None => true,
        Some(s0) => assume_all(s0, exprs_view(def.requires@)).0 is Some ==>
            forall|i: int| 0 <= i < calls_of(expr_view(def.body), def.name@).len()
                ==> arity_ok_all(#[trigger] calls_of(expr_view(def.body), def.name@)[i]),
    }
}

/// The clauses print back as source (no float-literal pattern in them).
pub open spec fn clauses_printable(def: FnDef) -> bool {
    &&& forall|i: int| 0 <= i < def.ensures@.len() ==> expr_printable(#[trigger] def.ensures@[i])
    &&& forall|i: int| 0 <= i < def.invariants@.len() ==> expr_printable(#[trigger] def.invariants@[i])
}

/// What the prover takes with its clauses named by their source text.
pub open spec fn def_translatable(def: FnDef) -> bool {
    clauses_printable(def) && operands_ok(def)
}

pub open spec fn def_translatable_inductive(def: FnDef) -> bool {
    clauses_printable(def) && operands_ok_inductive(def)
}

// ── Concluding from the answers ─────────────────────────────────────

/// The solver's answer about one goal's negation.
pub enum SolverAnswer {
    /// No counterexample: the clause holds.
    Unsat,
    /// A counterexample, with the values it gives the reported parameters.
    Sat(Vec<(String, String)>),
    /// Undecided, with the solver's reason.
    Unknown(String),
}

pub enum SpecAnswer {
    Unsat,
    Sat(Seq<(Seq<char>, Seq<char>)>),
    Unknown(Seq<char>),
}

pub open spec fn answer_view(a: SolverAnswer) -> SpecAnswer {
    match a {
        SolverAnswer::Unsat => SpecAnswer::Unsat,
        SolverAnswer::Sat(v) => SpecAnswer::Sat(view_pairs(v@)),
        SolverAnswer::Unknown(s) => SpecAnswer::Unknown(s@),
    }
}

/// The result a clause gets: decided already, or from the solver's answer.
pub open spec fn conclusion(c: SpecCheck, a: SpecAnswer) -> SpecVerifyResult {
    match c {
        SpecCheck::Done(r) => r,
        SpecCheck::Ask(_, _) => match a {
            SpecAnswer::Unsat => SpecVerifyResult::Proven,
            SpecAnswer::Sat(ce) => SpecVerifyResult::Disproven(ce),
            SpecAnswer::Unknown(reason) => SpecVerifyResult::Unknown(reason),
        },
    }
}

pub open spec fn conclusions(cs: Seq<(Seq<char>, SpecCheck)>, answers: Seq<SpecAnswer>) -> Seq<(Seq<char>, SpecVerifyResult)> {
    Seq::new(cs.len(), |i: int| (cs[i].0, conclusion(cs[i].1, answers[i])))
}

// ── The plan as data ────────────────────────────────────────────────

/// A clause decided without the solver, or a goal for it with the
/// parameters a counterexample reports.
#[derive(Debug)]
pub enum ClauseCheck {
    Done(VerifyResult),
    Ask(Term, Vec<(String, VarSort, Term)>),
}

/// What to ask the solver about one function.
#[derive(Debug)]
pub struct ProofPlan {
    pub function_name: String,
    /// Assumed facts: the `:requires`, inductive hypotheses, `result = body`.
    pub assumptions: Vec<Term>,
    pub ensures: Vec<(String, ClauseCheck)>,
    pub invariants: Vec<(String, ClauseCheck)>,
}

pub open spec fn vars_view(s: Seq<(String, VarSort, Term)>) -> Seq<(Seq<char>, VarSort, SpecTerm)> {
    Seq::new(s.len(), |i: int| (s[i].0@, s[i].1, term_view(s[i].2)))
}

pub open spec fn check_view(c: ClauseCheck) -> SpecCheck {
    match c {
        ClauseCheck::Done(r) => SpecCheck::Done(r@),
        ClauseCheck::Ask(t, vs) => SpecCheck::Ask(term_view(t), vars_view(vs@)),
    }
}

pub open spec fn checks_view(s: Seq<(String, ClauseCheck)>) -> Seq<(Seq<char>, SpecCheck)> {
    Seq::new(s.len(), |i: int| (s[i].0@, check_view(s[i].1)))
}

impl View for ProofPlan {
    type V = SpecPlan;

    open spec fn view(&self) -> SpecPlan {
        SpecPlan {
            function_name: self.function_name@,
            assumptions: terms_view(self.assumptions@),
            ensures: checks_view(self.ensures@),
            invariants: checks_view(self.invariants@),
        }
    }
}

/// Declares the parameters and `result` by their sorts; false (with the
/// state unspecified) when one has none.
fn declare_all(t: &mut Translator, params: &Vec<Param>, ret: &AstType) -> (ok: bool)
    requires
        old(t)@ == empty_state(),
    ensures
        ok == setup(params_view(params@), ast_type_view(*ret)) is Some,
        ok ==> final(t)@ == setup(params_view(params@), ast_type_view(*ret)).unwrap(),
{
    let ghost ps = params_view(params@);
    proof {
        lemma_params_view_len(params@);
    }
    let mut i: usize = 0;
    while i < params.len()
        invariant
            ps == params_view(params@),
            ps.len() == params@.len(),
            i <= params@.len(),
            declare_params(empty_state(), ps, i as nat) == Some(t@),
        decreases params@.len() - i,
    {
        proof {
            lemma_params_view_index(params@, i as int);
        }
        let p = &params[i];
        match sort_of_type_exec(&p.ty) {
            None => {
                proof {
                    lemma_declare_none(ps, (i + 1) as nat, ps.len());
                }
                return false;
            },
            Some(VarSort::Int) => t.declare_int(p.name.as_str()),
            Some(VarSort::Bool) => t.declare_bool(p.name.as_str()),
            Some(VarSort::Real) => t.declare_real(p.name.as_str()),
            Some(VarSort::Str) => t.declare_string(p.name.as_str()),
            Some(VarSort::IntSeq) => t.declare_seq(p.name.as_str()),
        }
        i += 1;
    }
    match sort_of_type_exec(ret) {
        None => false,
        Some(VarSort::Int) => { t.declare_int("result"); true },
        Some(VarSort::Bool) => { t.declare_bool("result"); true },
        Some(VarSort::Real) => { t.declare_real("result"); true },
        Some(VarSort::Str) => { t.declare_string("result"); true },
        Some(VarSort::IntSeq) => { t.declare_seq("result"); true },
    }
}

proof fn lemma_declare_none(ps: Seq<SpecParam>, n: nat, m: nat)
    requires
        n <= m <= ps.len(),
        declare_params(empty_state(), ps, n) is None,
    ensures
        declare_params(empty_state(), ps, m) is None,
    decreases m - n,
{
    if n < m {
        lemma_declare_none(ps, n, (m - 1) as nat);
    }
}

/// The `:requires` clauses as booleans, up to the first that fails.
fn assume_requires(t: &mut Translator, reqs: &Vec<Expr>) -> (r: Option<Vec<Term>>)
    requires
        requires_arity_ok(old(t)@, exprs_view(reqs@)),
    ensures
        (match r {
            Some(ts) => Some(terms_view(ts@)),
            None => None,
        }, final(t)@) == assume_all(old(t)@, exprs_view(reqs@)),
{
    let ghost st0 = t@;
    let ghost rv = exprs_view(reqs@);
    proof {
        lemma_exprs_view_len(reqs@);
        assert(rv.take(0) =~= Seq::<SpecExpr>::empty());
    }
    let mut out: Vec<Term> = Vec::new();
    let mut i: usize = 0;
    while i < reqs.len()
        invariant
            st0 == old(t)@,
            rv == exprs_view(reqs@),
            rv.len() == reqs@.len(),
            requires_arity_ok(st0, rv),
            i <= reqs@.len(),
            assume_all(st0, rv.take(i as int)) == (Some(terms_view(out@)), t@),
        decreases reqs@.len() - i,
    {
        proof {
            lemma_exprs_view_index(reqs@, i as int);
            assert(arity_ok(rv[i as int]));
            assert(rv.take(i + 1).drop_last() =~= rv.take(i as int));
            assert(rv.take(i + 1).last() == rv[i as int]);
        }
        match t.translate_bool(&reqs[i]) {
            Err(_) => {
                proof {
                    lemma_assume_none(st0, rv, (i + 1) as nat, rv.len());
                    assert(rv.take(rv.len() as int) =~= rv);
                }
                return None;
            },
            Ok(x) => {
                let ghost prev = out@;
                out.push(x);
                proof {
                    assert(out@.drop_last() =~= prev);
                }
            },
        }
        i += 1;
    }
    proof {
        assert(rv.take(i as int) =~= rv);
    }
    Some(out)
}

proof fn lemma_assume_none(st: TrState, reqs: Seq<SpecExpr>, n: nat, m: nat)
    requires
        n <= m <= reqs.len(),
        assume_all(st, reqs.take(n as int)).0 is None,
    ensures
        assume_all(st, reqs.take(m as int)) == assume_all(st, reqs.take(n as int)),
    decreases m - n,
{
    if n < m {
        lemma_assume_none(st, reqs, n, (m - 1) as nat);
        assert(reqs.take(m as int).drop_last() =~= reqs.take(m - 1));
    }
}

/// `result = body` when the body translates in the return sort.
fn bind_body_exec(t: &mut Translator, ret: &AstType, body: &Expr, with_str: bool) -> (r: Option<Term>)
    requires
        arity_ok(expr_view(*body)),
    ensures
        (match r {
            Some(x) => Some(term_view(x)),
            None => None,
        }, final(t)@) == bind_body(old(t)@, ast_type_view(*ret), expr_view(*body), with_str),
{
    let k = match sort_of_type_exec(ret) {
        None => { return None; },
        Some(k) => k,
    };
    let translated = match k {
        VarSort::Int => t.translate_int(body),
        VarSort::Bool => t.translate_bool(body),
        VarSort::Real => t.translate_real(body),
        VarSort::Str => if with_str { t.translate_string(body) } else { return None; },
        VarSort::IntSeq => { return None; },
    };
    let b = match translated {
        Err(_) => { return None; },
        Ok(b) => b,
    };
    let rv = match k {
        VarSort::Int => t.get_int_var("result"),
        VarSort::Bool => t.get_bool_var("result"),
        VarSort::Real => t.get_real_var("result"),
        _ => t.get_string_var("result"),
    };
    match rv {
        None => None,
        Some(rt) => {
            let mut v: Vec<Term> = Vec::new();
            v.push(rt);
            v.push(b);
            proof {
                assert(v@.drop_last().drop_last() =~= Seq::<Term>::empty());
                assert(terms_view(v@.drop_last()) == terms_view(v@.drop_last().drop_last()).push(term_view(v@[0])));
                assert(terms_view(v@) =~= seq![term_view(v@[0]), term_view(v@[1])]);
            }
            Some(Term::App(SmtOp::Eq, v))
        },
    }
}

/// The parameters a counterexample reports, with their current terms.
fn model_vars_exec(t: &Translator, params: &Vec<Param>, r: Reported) -> (out: Vec<(String, VarSort, Term)>)
    ensures
        vars_view(out@) == model_vars(t@, params_view(params@), r, params@.len() as nat),
{
    let ghost ps = params_view(params@);
    proof {
        lemma_params_view_len(params@);
    }
    let mut out: Vec<(String, VarSort, Term)> = Vec::new();
    let mut i: usize = 0;
    while i < params.len()
        invariant
            ps == params_view(params@),
            ps.len() == params@.len(),
            i <= params@.len(),
            vars_view(out@) == model_vars(t@, ps, r, i as nat),
        decreases params@.len() - i,
    {
        proof {
            lemma_params_view_index(params@, i as int);
        }
        let p = &params[i];
        if let Some(k) = sort_of_type_exec(&p.ty) {
            let wanted = match r {
                Reported::AllSorts => true,
                Reported::Numeric => match k {
                    VarSort::Int | VarSort::Bool | VarSort::Real => true,
                    _ => false,
                },
                Reported::Nothing => false,
            };
            if wanted {
                let v = match k {
                    VarSort::Int => t.get_int_var(p.name.as_str()),
                    VarSort::Bool => t.get_bool_var(p.name.as_str()),
                    VarSort::Real => t.get_real_var(p.name.as_str()),
                    VarSort::Str => t.get_string_var(p.name.as_str()),
                    VarSort::IntSeq => t.get_seq_var(p.name.as_str()),
                };
                if let Some(term) = v {
                    let ghost prev = out@;
                    out.push((p.name.clone(), k, term));
                    proof {
                        assert(vars_view(out@) =~= vars_view(prev).push((p.name@, k, term_view(term))));
                    }
                }
            }
        }
        i += 1;
    }
    out
}

/// What becomes of each clause, under its name.
fn check_clauses_exec(t: &mut Translator, cs: &Vec<Expr>, names: &Vec<String>, body_ok: bool, msg: &str,
    params: &Vec<Param>, r: Reported) -> (out: Vec<(String, ClauseCheck)>)
    requires
        arity_ok_all(exprs_view(cs@)),
        names@.len() == cs@.len(),
    ensures
        (checks_view(out@), final(t)@) == check_clauses(old(t)@, cs@, strings_view(names@), body_ok, msg@,
            params_view(params@), r),
{
    let ghost st0 = t@;
    let ghost cv = exprs_view(cs@);
    let ghost nv = strings_view(names@);
    proof {
        lemma_exprs_view_len(cs@);
        lemma_params_view_len(params@);
        assert(cs@.take(0) =~= Seq::<Expr>::empty());
    }
    let mut out: Vec<(String, ClauseCheck)> = Vec::new();
    let mut i: usize = 0;
    while i < cs.len()
        invariant
            st0 == old(t)@,
            cv == exprs_view(cs@),
            cv.len() == cs@.len(),
            nv == strings_view(names@),
            names@.len() == cs@.len(),
            arity_ok_all(cv),
            params_view(params@).len() == params@.len(),
            i <= cs@.len(),
            check_clauses(st0, cs@.take(i as int), nv, body_ok, msg@, params_view(params@), r) == (checks_view(out@), t@),
        decreases cs@.len() - i,
    {
        proof {
            lemma_exprs_view_index(cs@, i as int);
            lemma_arity_all(cv, i as int);
            assert(cs@.take(i + 1).drop_last() =~= cs@.take(i as int));
            assert(cs@.take(i + 1).last() == cs@[i as int]);
        }
        let c = &cs[i];
        let src = names[i].clone();
        let check = if clause_references_result(c) && !body_ok {
            ClauseCheck::Done(VerifyResult::Unknown(String::from_str(msg)))
        } else {
            match t.translate_bool(c) {
                Ok(x) => {
                    let vars = model_vars_exec(t, params, r);
                    ClauseCheck::Ask(x, vars)
                },
                Err(e) => ClauseCheck::Done(VerifyResult::TranslationError(e.to_display_string())),
            }
        };
        let ghost prev = out@;
        out.push((src, check));
        proof {
            assert(checks_view(out@) =~= checks_view(prev).push((src@, check_view(check))));
        }
        i += 1;
    }
    proof {
        assert(cs@.take(i as int) =~= cs@);
    }
    out
}

/// Every clause `Unknown(msg)`, under its name.
fn unknown_checks(names: &Vec<String>, msg: &str) -> (out: Vec<(String, ClauseCheck)>)
    ensures
        checks_view(out@) == all_unknown(strings_view(names@), msg@),
{
    let mut out: Vec<(String, ClauseCheck)> = Vec::new();
    let mut i: usize = 0;
    while i < names.len()
        invariant
            i <= names@.len(),
            out@.len() == i,
            forall|j: int| 0 <= j < i ==> (#[trigger] checks_view(out@)[j]) == all_unknown(strings_view(names@), msg@)[j],
        decreases names@.len() - i,
    {
        let ghost prev = out@;
        out.push((names[i].clone(), ClauseCheck::Done(VerifyResult::Unknown(String::from_str(msg)))));
        proof {
            assert forall|j: int| 0 <= j < i + 1 implies (#[trigger] checks_view(out@)[j])
                == all_unknown(strings_view(names@), msg@)[j] by {
                if j < i {
                    assert(out@[j] == prev[j]);
                    assert(checks_view(prev)[j] == all_unknown(strings_view(names@), msg@)[j]);
                }
            }
        }
        i += 1;
    }
    assert(checks_view(out@) =~= all_unknown(strings_view(names@), msg@));
    out
}

fn unknown_plan_exec(def: &FnDef, en: &Vec<String>, iv: &Vec<String>, msg: &str) -> (p: ProofPlan)
    ensures
        p@ == unknown_plan(*def, strings_view(en@), strings_view(iv@), msg@),
{
    let p = ProofPlan {
        function_name: def.name.clone(),
        assumptions: Vec::new(),
        ensures: unknown_checks(en, msg),
        invariants: unknown_checks(iv, msg),
    };
    proof {
        assert(terms_view(p.assumptions@) =~= Seq::<SpecTerm>::empty());
    }
    p
}

/// The clauses written back as source.
fn clause_texts_exec(cs: &Vec<Expr>) -> (r: Vec<String>)
    requires
        forall|i: int| 0 <= i < cs@.len() ==> expr_printable(#[trigger] cs@[i]),
    ensures
        r@.len() == cs@.len(),
        strings_view(r@) == clause_texts(cs@),
{
    let mut out: Vec<String> = Vec::new();
    let mut i: usize = 0;
    while i < cs.len()
        invariant
            i <= cs@.len(),
            forall|j: int| 0 <= j < cs@.len() ==> expr_printable(#[trigger] cs@[j]),
            out@.len() == i,
            forall|j: int| 0 <= j < i ==> (#[trigger] out@[j])@ == expr_text(cs@[j]),
        decreases cs@.len() - i,
    {
        let t = cs[i].to_airl();
        out.push(t);
        i += 1;
    }
    assert(strings_view(out@) =~= clause_texts(cs@));
    out
}

/// Whether the `:requires` the prover translates have their operands and,
/// when they do, whether all of them translate.
fn probe_requires(t: &mut Translator, reqs: &Vec<Expr>) -> (r: (bool, bool))
    ensures
        r.0 == requires_arity_ok(old(t)@, exprs_view(reqs@)),
        r.0 ==> (r.1 == (assume_all(old(t)@, exprs_view(reqs@)).0 is Some)),
{
    let ghost st0 = t@;
    let ghost rv = exprs_view(reqs@);
    proof {
        lemma_exprs_view_len(reqs@);
        assert(rv.take(0) =~= Seq::<SpecExpr>::empty());
    }
    let mut i: usize = 0;
    while i < reqs.len()
        invariant
            st0 == old(t)@,
            rv == exprs_view(reqs@),
            rv.len() == reqs@.len(),
            i <= reqs@.len(),
            forall|j: int| 0 <= j < i ==> arity_ok(#[trigger] rv[j]),
            assume_all(st0, rv.take(i as int)).0 is Some,
            assume_all(st0, rv.take(i as int)).1 == t@,
        decreases reqs@.len() - i,
    {
        proof {
            lemma_exprs_view_index(reqs@, i as int);
            assert(rv.take(i + 1).drop_last() =~= rv.take(i as int));
            assert(rv.take(i + 1).last() == rv[i as int]);
        }
        if !check_arity(&reqs[i]) {
            proof {
                assert(!arity_ok(rv[i as int]));
            }
            return (false, false);
        }
        match t.translate_bool(&reqs[i]) {
            Err(_) => {
                proof {
                    lemma_assume_none(st0, rv, (i + 1) as nat, rv.len());
                    assert(rv.take(rv.len() as int) =~= rv);
                    assert forall|j: int| 0 <= j < rv.len() && assume_all(st0, rv.take(j)).0 is Some
                        implies arity_ok(#[trigger] rv[j]) by {
                        if j > i {
                            lemma_assume_none(st0, rv, (i + 1) as nat, j as nat);
                        }
                    }
                }
                return (true, false);
            },
            Ok(_) => {},
        }
        i += 1;
    }
    proof {
        assert(rv.take(i as int) =~= rv);
    }
    (true, true)
}

/// Whether every operator call the prover translates in the function has
/// its operands (`operands_ok`): the named plans and `verify_function_named`
/// require it.
pub fn check_operands(def: &FnDef) -> (b: bool)
    ensures
        b == operands_ok(*def),
{
    let mut t = Translator::new();
    if !declare_all(&mut t, &def.params, &def.return_type) {
        return true;
    }
    let (ok, all) = probe_requires(&mut t, &def.requires);
    if !ok {
        return false;
    }
    if !all {
        return true;
    }
    check_arity_all(&def.ensures) && check_arity_all(&def.invariants) && check_arity(&def.body)
}

/// `check_operands` for the inductive plan (`operands_ok_inductive`).
pub fn check_operands_inductive(def: &FnDef) -> (b: bool)
    ensures
        b == operands_ok_inductive(*def),
{
    if !check_operands(def) {
        return false;
    }
    let mut t = Translator::new();
    if !declare_all(&mut t, &def.params, &def.return_type) {
        return true;
    }
    let ghost s0 = t@;
    let (_, all) = probe_requires(&mut t, &def.requires);
    if !all {
        return true;
    }
    let calls = collect_recursive_calls(&def.body, def.name.as_str());
    let ghost cv = arg_lists_view(calls@);
    let mut i: usize = 0;
    while i < calls.len()
        invariant
            cv == arg_lists_view(calls@),
            cv == calls_of(expr_view(def.body), def.name@),
            operands_ok(*def),
            setup(params_view(def.params@), ast_type_view(def.return_type)) == Some(s0),
            assume_all(s0, exprs_view(def.requires@)).0 is Some,
            i <= calls@.len(),
            forall|j: int| 0 <= j < i ==> arity_ok_all(#[trigger] cv[j]),
        decreases calls@.len() - i,
    {
        proof {
            assert(cv[i as int] == exprs_view(calls@[i as int]@));
        }
        if !check_arity_all(&calls[i]) {
            return false;
        }
        i += 1;
    }
    true
}

/// Whether the clauses print back as source (`clauses_printable`).
fn check_clauses_printable(def: &FnDef) -> (b: bool)
    ensures
        b == clauses_printable(*def),
{
    proof {
        lemma_exprs_printable_each(def.ensures@);
        lemma_exprs_printable_each(def.invariants@);
    }
    check_all_printable(&def.ensures) && check_all_printable(&def.invariants)
}

/// Whether the prover can take the function with its clauses named by their
/// source text (`def_translatable`): `plan_verification` and
/// `verify_function` require it.
pub fn is_translatable(def: &FnDef) -> (b: bool)
    ensures
        b == def_translatable(*def),
{
    check_clauses_printable(def) && check_operands(def)
}

/// `is_translatable` for the inductive plan (`def_translatable_inductive`).
pub fn is_translatable_inductive(def: &FnDef) -> (b: bool)
    ensures
        b == def_translatable_inductive(*def),
{
    check_clauses_printable(def) && check_operands_inductive(def)
}

impl Z3Prover {
    /// The plan for checking all `:ensures` and `:invariant` clauses of a
    /// function given its `:requires`, with the body bound to `result`; the
    /// results are named by the clauses' source text.
    pub fn plan_verification(&self, def: &FnDef) -> (p: ProofPlan)
        requires
            def_translatable(*def),
        ensures
            p@ == spec_plan(*def),
    {
        let en = clause_texts_exec(&def.ensures);
        let iv = clause_texts_exec(&def.invariants);
        self.plan_verification_named(def, &en, &iv)
    }

    /// `plan_verification` with the `:ensures` named by `en` and the
    /// `:invariant` clauses by `iv`, for any clauses.
    pub fn plan_verification_named(&self, def: &FnDef, en: &Vec<String>, iv: &Vec<String>) -> (p: ProofPlan)
        requires
            operands_ok(*def),
            en@.len() == def.ensures@.len(),
            iv@.len() == def.invariants@.len(),
        ensures
            p@ == spec_plan_named(*def, strings_view(en@), strings_view(iv@)),
    {
        let mut t = Translator::new();
        if !declare_all(&mut t, &def.params, &def.return_type) {
            return unknown_plan_exec(def, en, iv, "unsupported parameter types");
        }
        let mut asms = match assume_requires(&mut t, &def.requires) {
            None => { return unknown_plan_exec(def, en, iv, "cannot translate requires"); },
            Some(a) => a,
        };
        let rb = bind_body_exec(&mut t, &def.return_type, &def.body, true);
        let body_ok = rb.is_some();
        match rb {
            Some(b) => {
                let ghost prev = asms@;
                asms.push(b);
                proof {
                    assert(asms@.drop_last() =~= prev);
                }
            },
            None => {},
        }
        let ens = check_clauses_exec(&mut t, &def.ensures, en, body_ok,
            "result postconditions require body translation (not yet implemented)", &def.params, Reported::AllSorts);
        let inv = check_clauses_exec(&mut t, &def.invariants, iv, body_ok,
            "invariant references result but body translation failed", &def.params, Reported::AllSorts);
        ProofPlan { function_name: def.name.clone(), assumptions: asms, ensures: ens, invariants: inv }
    }
}

// ── Inductive hypotheses, executed ──────────────────────────────────

proof fn lemma_terms_view_append(a: Seq<Term>, b: Seq<Term>)
    ensures
        terms_view(a + b) == terms_view(a) + terms_view(b),
    decreases b.len(),
{
    if b.len() == 0 {
        assert(a + b =~= a);
        assert(terms_view(a) + terms_view(b) =~= terms_view(a));
    } else {
        lemma_terms_view_append(a, b.drop_last());
        assert((a + b).drop_last() =~= a + b.drop_last());
        assert((a + b).last() == b.last());
        assert(terms_view(a + b) =~= terms_view(a) + terms_view(b));
    }
}

proof fn lemma_seeds_view(s: Seq<SeedVal>, i: int)
    requires
        0 <= i < s.len(),
    ensures
        seeds_view(s).len() == s.len(),
        seeds_view(s)[i] == seed_view(s[i]),
    decreases s.len(),
{
    lemma_seeds_view_len(s);
    if i < s.len() - 1 {
        lemma_seeds_view(s.drop_last(), i);
    }
}

proof fn lemma_seeds_view_len(s: Seq<SeedVal>)
    ensures
        seeds_view(s).len() == s.len(),
    decreases s.len(),
{
    if s.len() > 0 {
        lemma_seeds_view_len(s.drop_last());
    }
}

/// The `:ensures` clauses that translate at the call site, as axioms.
fn site_axioms_exec(site: &mut Translator, es: &Vec<Expr>) -> (out: Vec<Term>)
    requires
        arity_ok_all(exprs_view(es@)),
    ensures
        (terms_view(out@), final(site)@) == site_axioms(old(site)@, exprs_view(es@)),
{
    let ghost st0 = site@;
    let ghost ev = exprs_view(es@);
    proof {
        lemma_exprs_view_len(es@);
        assert(ev.take(0) =~= Seq::<SpecExpr>::empty());
    }
    let mut out: Vec<Term> = Vec::new();
    let mut i: usize = 0;
    while i < es.len()
        invariant
            st0 == old(site)@,
            ev == exprs_view(es@),
            ev.len() == es@.len(),
            arity_ok_all(ev),
            i <= es@.len(),
            site_axioms(st0, ev.take(i as int)) == (terms_view(out@), site@),
        decreases es@.len() - i,
    {
        proof {
            lemma_exprs_view_index(es@, i as int);
            lemma_arity_all(ev, i as int);
            assert(ev.take(i + 1).drop_last() =~= ev.take(i as int));
            assert(ev.take(i + 1).last() == ev[i as int]);
        }
        match site.translate_bool(&es[i]) {
            Ok(x) => {
                let ghost prev = out@;
                out.push(x);
                proof {
                    assert(out@.drop_last() =~= prev);
                }
            },
            Err(_) => {},
        }
        i += 1;
    }
    proof {
        assert(ev.take(i as int) =~= ev);
    }
    out
}

/// A call-site translator: the parameters bound to the seeds, `result` to
/// the call.
fn site_translator(params: &Vec<Param>, seeds: Vec<SeedVal>, res: SeedVal) -> (t: Translator)
    ensures
        t@ == bind(seed_params(empty_state(), params_view(params@), seeds_view(seeds@),
            crate::translate::min_len(params@.len(), seeds@.len())), seed_view(res).0, "result"@, seed_view(res).1),
{
    let ghost ps = params_view(params@);
    let ghost sv = seeds_view(seeds@);
    proof {
        lemma_params_view_len(params@);
        lemma_seeds_view_len(seeds@);
    }
    let mut t = Translator::new();
    let n = if params.len() < seeds.len() { params.len() } else { seeds.len() };
    let ghost orig = seeds@;
    let mut rest = seeds;
    let mut j: usize = 0;
    while j < n
        invariant
            ps == params_view(params@),
            ps.len() == params@.len(),
            sv == seeds_view(orig),
            sv.len() == orig.len(),
            n <= params@.len(),
            n <= orig.len(),
            j <= n,
            rest@ == orig.skip(j as int),
            t@ == seed_params(empty_state(), ps, sv, j as nat),
        decreases n - j,
    {
        proof {
            lemma_params_view_index(params@, j as int);
            lemma_seeds_view(orig, j as int);
        }
        let v = rest.remove(0);
        assert(v == orig[j as int]);
        assert(rest@ =~= orig.skip(j + 1));
        let name = params[j].name.as_str();
        match v {
            SeedVal::Int(x) => t.seed_int(name, x),
            SeedVal::Bool(x) => t.seed_bool(name, x),
            SeedVal::Real(x) => t.seed_real(name, x),
        }
        j += 1;
    }
    match res {
        SeedVal::Int(x) => t.seed_int("result", x),
        SeedVal::Bool(x) => t.seed_bool("result", x),
        SeedVal::Real(x) => t.seed_real("result", x),
    }
    t
}

/// The inductive hypotheses of every recursive call site.
fn hypotheses_exec(t: &mut Translator, def: &FnDef, calls: &Vec<Vec<Expr>>) -> (ih: Vec<Term>)
    requires
        forall|i: int| 0 <= i < calls@.len() ==> arity_ok_all(#[trigger] exprs_view(calls@[i]@)),
        arity_ok_all(exprs_view(def.ensures@)),
    ensures
        (terms_view(ih@), final(t)@) == hypotheses(old(t)@, *def, arg_lists_view(calls@), calls@.len() as nat),
{
    let ghost st0 = t@;
    let ghost cv = arg_lists_view(calls@);
    proof {
        lemma_params_view_len(def.params@);
    }
    let mut out: Vec<Term> = Vec::new();
    let mut i: usize = 0;
    while i < calls.len()
        invariant
            st0 == old(t)@,
            cv == arg_lists_view(calls@),
            cv.len() == calls@.len(),
            params_view(def.params@).len() == def.params@.len(),
            forall|k: int| 0 <= k < calls@.len() ==> arity_ok_all(#[trigger] exprs_view(calls@[k]@)),
            arity_ok_all(exprs_view(def.ensures@)),
            i <= calls@.len(),
            hypotheses(st0, *def, cv, i as nat) == (terms_view(out@), t@),
        decreases calls@.len() - i,
    {
        let args = &calls[i];
        proof {
            assert(cv[i as int] == exprs_view(args@));
            lemma_exprs_view_len(args@);
        }
        if args.len() == def.params.len() {
            let r = t.apply_recursive_fn_as_result(def.name.as_str(), args, &def.return_type, &def.params);
            match r {
                None => {},
                Some((seeds, res)) => {
                    proof {
                        lemma_seeds_view_len(seeds@);
                    }
                    let ghost sd = seeds_view(seeds@);
                    let ghost rs = seed_view(res);
                    let mut site = site_translator(&def.params, seeds, res);
                    assert(site@ == bind(seed_params(empty_state(), params_view(def.params@), sd,
                        crate::translate::min_len(params_view(def.params@).len(), sd.len())), rs.0, "result"@, rs.1));
                    let axioms = site_axioms_exec(&mut site, &def.ensures);
                    let ghost prev = out@;
                    let mut ax = axioms;
                    out.append(&mut ax);
                    proof {
                        lemma_terms_view_append(prev, axioms@);
                    }
                },
            }
        }
        i += 1;
    }
    out
}

impl Z3Prover {
    /// The plan for checking a recursive function with the inductive
    /// hypotheses assumed; `None` when the body makes no recursive call. The
    /// results are named by the clauses' source text.
    pub fn plan_inductive(&self, def: &FnDef) -> (p: Option<ProofPlan>)
        requires
            def_translatable_inductive(*def),
        ensures
            match p {
                Some(x) => spec_plan_inductive(*def) == Some(x@),
                None => spec_plan_inductive(*def) is None,
            },
    {
        let en = clause_texts_exec(&def.ensures);
        let iv = clause_texts_exec(&def.invariants);
        self.plan_inductive_named(def, &en, &iv)
    }

    /// `plan_inductive` with the `:ensures` named by `en` and the
    /// `:invariant` clauses by `iv`, for any clauses.
    pub fn plan_inductive_named(&self, def: &FnDef, en: &Vec<String>, iv: &Vec<String>) -> (p: Option<ProofPlan>)
        requires
            operands_ok_inductive(*def),
            en@.len() == def.ensures@.len(),
            iv@.len() == def.invariants@.len(),
        ensures
            match p {
                Some(x) => spec_plan_inductive_named(*def, strings_view(en@), strings_view(iv@)) == Some(x@),
                None => spec_plan_inductive_named(*def, strings_view(en@), strings_view(iv@)) is None,
            },
    {
        let calls = collect_recursive_calls(&def.body, def.name.as_str());
        if calls.len() == 0 {
            return None;
        }
        let mut t = Translator::new();
        if !declare_all(&mut t, &def.params, &def.return_type) {
            return Some(unknown_plan_exec(def, en, iv, "unsupported parameter types"));
        }
        let mut asms = match assume_requires(&mut t, &def.requires) {
            None => { return Some(unknown_plan_exec(def, en, iv, "cannot translate requires")); },
            Some(a) => a,
        };
        proof {
            let cv = arg_lists_view(calls@);
            assert forall|i: int| 0 <= i < calls@.len() implies arity_ok_all(#[trigger] exprs_view(calls@[i]@)) by {
                assert(cv[i] == exprs_view(calls@[i]@));
            }
        }
        let ih = hypotheses_exec(&mut t, def, &calls);
        let rb = bind_body_exec(&mut t, &def.return_type, &def.body, false);
        let body_ok = rb.is_some();
        let ghost a0 = asms@;
        let mut ihv = ih;
        let ghost ihs = ihv@;
        asms.append(&mut ihv);
        proof {
            lemma_terms_view_append(a0, ihs);
        }
        match rb {
            Some(b) => {
                let ghost prev = asms@;
                asms.push(b);
                proof {
                    assert(asms@.drop_last() =~= prev);
                }
            },
            None => {},
        }
        let ens = check_clauses_exec(&mut t, &def.ensures, en, body_ok,
            "result postconditions require body translation (recursive body unsupported)", &def.params, Reported::Numeric);
        let inv = check_clauses_exec(&mut t, &def.invariants, iv, body_ok,
            "invariant references result but body translation failed", &def.params, Reported::Nothing);
        Some(ProofPlan { function_name: def.name.clone(), assumptions: asms, ensures: ens, invariants: inv })
    }
}

// ── Concluding ──────────────────────────────────────────────────────

pub open spec fn answers_view(s: Seq<SolverAnswer>) -> Seq<SpecAnswer> {
    Seq::new(s.len(), |i: int| answer_view(s[i]))
}

fn clone_pairs(v: &Vec<(String, String)>) -> (r: Vec<(String, String)>)
    ensures
        view_pairs(r@) == view_pairs(v@),
{
    let mut out: Vec<(String, String)> = Vec::new();
    let mut i: usize = 0;
    while i < v.len()
        invariant
            i <= v@.len(),
            out@.len() == i,
            forall|j: int| 0 <= j < i ==> (#[trigger] out@[j]).0@ == v@[j].0@ && out@[j].1@ == v@[j].1@,
        decreases v@.len() - i,
    {
        out.push((v[i].0.clone(), v[i].1.clone()));
        i += 1;
    }
    assert(view_pairs(out@) =~= view_pairs(v@));
    out
}

fn conclude_one(c: &ClauseCheck, a: &SolverAnswer) -> (r: VerifyResult)
    ensures
        r@ == conclusion(check_view(*c), answer_view(*a)),
{
    match c {
        ClauseCheck::Done(r) => r.duplicate(),
        ClauseCheck::Ask(_, _) => match a {
            SolverAnswer::Unsat => VerifyResult::Proven,
            SolverAnswer::Sat(v) => VerifyResult::Disproven { counterexample: clone_pairs(v) },
            SolverAnswer::Unknown(s) => VerifyResult::Unknown(s.clone()),
        },
    }
}

fn conclude_all(cs: &Vec<(String, ClauseCheck)>, answers: &Vec<SolverAnswer>) -> (r: Vec<(String, VerifyResult)>)
    requires
        answers@.len() == cs@.len(),
    ensures
        view_results(r@) == conclusions(checks_view(cs@), answers_view(answers@)),
{
    let mut out: Vec<(String, VerifyResult)> = Vec::new();
    let mut i: usize = 0;
    while i < cs.len()
        invariant
            answers@.len() == cs@.len(),
            i <= cs@.len(),
            out@.len() == i,
            forall|j: int| 0 <= j < i ==> (#[trigger] out@[j]).0@ == cs@[j].0@
                && out@[j].1@ == conclusion(check_view(cs@[j].1), answer_view(answers@[j])),
        decreases cs@.len() - i,
    {
        let r = conclude_one(&cs[i].1, &answers[i]);
        out.push((cs[i].0.clone(), r));
        i += 1;
    }
    assert(view_results(out@) =~= conclusions(checks_view(cs@), answers_view(answers@)));
    out
}

impl Z3Prover {
    /// The results of a plan's clauses, given the solver's answer for each
    /// (an answer for a clause decided already is not read).
    pub fn conclude(&self, plan: &ProofPlan, ensures_answers: &Vec<SolverAnswer>,
        invariants_answers: &Vec<SolverAnswer>) -> (fv: FunctionVerification)
        requires
            ensures_answers@.len() == plan.ensures@.len(),
            invariants_answers@.len() == plan.invariants@.len(),
        ensures
            fv@ == (SpecFunctionVerification {
                function_name: plan@.function_name,
                ensures_results: conclusions(plan@.ensures, answers_view(ensures_answers@)),
                invariants_results: conclusions(plan@.invariants, answers_view(invariants_answers@)),
            }),
    {
        FunctionVerification {
            function_name: plan.function_name.clone(),
            ensures_results: conclude_all(&plan.ensures, ensures_answers),
            invariants_results: conclude_all(&plan.invariants, invariants_answers),
        }
    }
}

/// A clause the plan decided without the solver keeps that result, whatever
/// the solver answers; a goal is proven exactly when the solver finds no
/// counterexample.
pub proof fn law_conclusions_follow_checks(cs: Seq<(Seq<char>, SpecCheck)>, a: Seq<SpecAnswer>, b: Seq<SpecAnswer>, i: int)
    requires
        a.len() == cs.len(),
        b.len() == cs.len(),
        0 <= i < cs.len(),
    ensures
        cs[i].1 is Done ==> conclusions(cs, a)[i] == conclusions(cs, b)[i],
        cs[i].1 is Ask ==> (conclusions(cs, a)[i].1 is Proven <==> a[i] is Unsat),
        conclusions(cs, a)[i].0 == cs[i].0,
{
}

// ── Running a plan ──────────────────────────────────────────────────

/// The answers are those `solve` gave, one per clause: for each goal, an
/// answer `solve` may return for the assumptions, that goal and its
/// reported parameters (a clause decided already takes no answer).
pub open spec fn answered<F>(solve: F, asms: Vec<Term>, cs: Seq<(String, ClauseCheck)>, ans: Seq<SolverAnswer>) -> bool
    where
        F: Fn(&Vec<Term>, &Term, &Vec<(String, VarSort, Term)>) -> SolverAnswer,
{
    &&& ans.len() == cs.len()
    &&& forall|i: int| 0 <= i < cs.len() ==> match #[trigger] cs[i].1 {
        ClauseCheck::Ask(g, v) => call_ensures(solve, (&asms, &g, &v), ans[i]),
        ClauseCheck::Done(_) => true,
    }
}

/// What running a plan gives: each clause concluded from the answer `solve`
/// gave about its goal under the plan's assumptions.
pub open spec fn ran<F>(solve: F, p: ProofPlan, ea: Seq<SolverAnswer>, ia: Seq<SolverAnswer>,
    fv: SpecFunctionVerification) -> bool
    where
        F: Fn(&Vec<Term>, &Term, &Vec<(String, VarSort, Term)>) -> SolverAnswer,
{
    &&& answered(solve, p.assumptions, p.ensures@, ea)
    &&& answered(solve, p.assumptions, p.invariants@, ia)
    &&& fv == (SpecFunctionVerification {
        function_name: p@.function_name,
        ensures_results: conclusions(p@.ensures, answers_view(ea)),
        invariants_results: conclusions(p@.invariants, answers_view(ia)),
    })
}

/// One answer per clause: the solver is asked about each goal (its
/// negation under the assumptions); a clause decided already gets no call.
fn ask_all<F>(asms: &Vec<Term>, cs: &Vec<(String, ClauseCheck)>, solve: &F) -> (r: Vec<SolverAnswer>)
    where
        F: Fn(&Vec<Term>, &Term, &Vec<(String, VarSort, Term)>) -> SolverAnswer,
    requires
        forall|a: &Vec<Term>, g: &Term, v: &Vec<(String, VarSort, Term)>| solve.requires((a, g, v)),
    ensures
        answered(*solve, *asms, cs@, r@),
{
    let mut out: Vec<SolverAnswer> = Vec::new();
    let mut i: usize = 0;
    while i < cs.len()
        invariant
            i <= cs@.len(),
            out@.len() == i,
            forall|a: &Vec<Term>, g: &Term, v: &Vec<(String, VarSort, Term)>| solve.requires((a, g, v)),
            forall|j: int| 0 <= j < i ==> match #[trigger] cs@[j].1 {
                ClauseCheck::Ask(g, v) => call_ensures(*solve, (asms, &g, &v), out@[j]),
                ClauseCheck::Done(_) => true,
            },
        decreases cs@.len() - i,
    {
        let a = match &cs[i].1 {
            ClauseCheck::Done(_) => SolverAnswer::Unsat,
            ClauseCheck::Ask(goal, vars) => solve(asms, goal, vars),
        };
        let ghost prev = out@;
        out.push(a);
        proof {
            assert forall|j: int| 0 <= j < i + 1 implies match #[trigger] cs@[j].1 {
                ClauseCheck::Ask(g, v) => call_ensures(*solve, (asms, &g, &v), out@[j]),
                ClauseCheck::Done(_) => true,
            } by {
                if j < i {
                    assert(out@[j] == prev[j]);
                }
            }
        }
        i += 1;
    }
    out
}

impl Z3Prover {
    /// Checks every `:ensures` and `:invariant` clause of a function given its
    /// `:requires`: the plan decides what it can, and `solve` answers for each
    /// remaining goal whether its negation is satisfiable under the
    /// assumptions (with the reported parameters' values when it is). The
    /// results are named by the clauses' source text.
    pub fn verify_function<F>(&self, def: &FnDef, solve: &F) -> (fv: FunctionVerification)
        where
            F: Fn(&Vec<Term>, &Term, &Vec<(String, VarSort, Term)>) -> SolverAnswer,
        requires
            def_translatable(*def),
            forall|a: &Vec<Term>, g: &Term, v: &Vec<(String, VarSort, Term)>| solve.requires((a, g, v)),
        ensures
            exists|p: ProofPlan, ea: Seq<SolverAnswer>, ia: Seq<SolverAnswer>|
                p@ == spec_plan(*def) && #[trigger] ran(*solve, p, ea, ia, fv@),
    {
        let en = clause_texts_exec(&def.ensures);
        let iv = clause_texts_exec(&def.invariants);
        self.verify_function_named(def, &en, &iv, solve)
    }

    /// `verify_function` for any clauses, the `:ensures` named by `en` and the
    /// `:invariant` clauses by `iv` (such as their source text written with
    /// `to_airl_pieces` and a float formatting).
    pub fn verify_function_named<F>(&self, def: &FnDef, en: &Vec<String>, iv: &Vec<String>, solve: &F)
        -> (fv: FunctionVerification)
        where
            F: Fn(&Vec<Term>, &Term, &Vec<(String, VarSort, Term)>) -> SolverAnswer,
        requires
            operands_ok(*def),
            en@.len() == def.ensures@.len(),
            iv@.len() == def.invariants@.len(),
            forall|a: &Vec<Term>, g: &Term, v: &Vec<(String, VarSort, Term)>| solve.requires((a, g, v)),
        ensures
            exists|p: ProofPlan, ea: Seq<SolverAnswer>, ia: Seq<SolverAnswer>|
                p@ == spec_plan_named(*def, strings_view(en@), strings_view(iv@)) && #[trigger] ran(*solve, p, ea, ia, fv@),
    {
        let plan = self.plan_verification_named(def, en, iv);
        let ens = ask_all(&plan.assumptions, &plan.ensures, solve);
        let inv = ask_all(&plan.assumptions, &plan.invariants, solve);
        let fv = self.conclude(&plan, &ens, &inv);
        proof {
            assert(ran(*solve, plan, ens@, inv@, fv@));
        }
        fv
    }

    /// `verify_function` for a recursive function, with an inductive
    /// hypothesis assumed at every recursive call; `None` when the body makes
    /// no recursive call.
    pub fn inductive_verify<F>(&self, def: &FnDef, solve: &F) -> (fv: Option<FunctionVerification>)
        where
            F: Fn(&Vec<Term>, &Term, &Vec<(String, VarSort, Term)>) -> SolverAnswer,
        requires
            def_translatable_inductive(*def),
            forall|a: &Vec<Term>, g: &Term, v: &Vec<(String, VarSort, Term)>| solve.requires((a, g, v)),
        ensures
            fv is None <==> spec_plan_inductive(*def) is None,
            fv matches Some(f) ==> exists|p: ProofPlan, ea: Seq<SolverAnswer>, ia: Seq<SolverAnswer>|
                Some(p@) == spec_plan_inductive(*def) && #[trigger] ran(*solve, p, ea, ia, f@),
    {
        let en = clause_texts_exec(&def.ensures);
        let iv = clause_texts_exec(&def.invariants);
        self.inductive_verify_named(def, &en, &iv, solve)
    }

    /// `inductive_verify` for any clauses, named by `en` and `iv`.
    pub fn inductive_verify_named<F>(&self, def: &FnDef, en: &Vec<String>, iv: &Vec<String>, solve: &F)
        -> (fv: Option<FunctionVerification>)
        where
            F: Fn(&Vec<Term>, &Term, &Vec<(String, VarSort, Term)>) -> SolverAnswer,
        requires
            operands_ok_inductive(*def),
            en@.len() == def.ensures@.len(),
            iv@.len() == def.invariants@.len(),
            forall|a: &Vec<Term>, g: &Term, v: &Vec<(String, VarSort, Term)>| solve.requires((a, g, v)),
        ensures
            fv is None <==> spec_plan_inductive_named(*def, strings_view(en@), strings_view(iv@)) is None,
            fv matches Some(f) ==> exists|p: ProofPlan, ea: Seq<SolverAnswer>, ia: Seq<SolverAnswer>|
                Some(p@) == spec_plan_inductive_named(*def, strings_view(en@), strings_view(iv@))
                && #[trigger] ran(*solve, p, ea, ia, f@),
    {
        let plan = match self.plan_inductive_named(def, en, iv) {
            None => { return None; },
            Some(p) => p,
        };
        let ens = ask_all(&plan.assumptions, &plan.ensures, solve);
        let inv = ask_all(&plan.assumptions, &plan.invariants, solve);
        let fv = self.conclude(&plan, &ens, &inv);
        let r = Some(fv);
        proof {
            assert(Some(plan@) == spec_plan_inductive_named(*def, strings_view(en@), strings_view(iv@)));
            assert(ran(*solve, plan, ens@, inv@, r.unwrap()@));
        }
        r
    }
}

/// A body that calls the function itself in a `let` binding's value is
/// recursive: the inductive plan is made (with any clause names), and
/// `inductive_verify` returns results rather than `None`.
pub proof fn law_let_bound_self_call_is_inductive(def: FnDef, bs: Seq<SpecLetBinding>, inner: SpecExpr, i: int)
    requires
        expr_view(def.body).kind == SpecExprKind::Let(bs, Box::new(inner)),
        0 <= i < bs.len(),
        bs[i].value.kind matches SpecExprKind::FnCall(f, _) && f.kind == SpecExprKind::SymbolRef(def.name@),
    ensures
        calls_of(expr_view(def.body), def.name@).len() > 0,
        spec_plan_inductive(def) is Some,
        forall|en: Seq<Seq<char>>, iv: Seq<Seq<char>>| #[trigger] spec_plan_inductive_named(def, en, iv) is Some,
{
    law_self_call_found_first(bs[i].value, def.name@);
    law_let_calls_reach_bindings(expr_view(def.body), bs, inner, def.name@);
    let x = calls_of(bs[i].value, def.name@)[0];
    assert(calls_of(expr_view(def.body), def.name@).contains(x));
}

} // verus!
