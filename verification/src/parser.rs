//! Turning S-expressions into declarations: type expressions, type
//! definitions, `use` declarations, module header fields, and the small
//! helpers the expression parser shares.
use vstd::prelude::*;
use crate::span::Span;
use crate::sexpr::{SExpr, Atom, AtomKind, SpecSExpr, SpecAtom, SpecAtomKind, sexpr_view, sexprs_view};
use crate::diagnostic::{Diagnostic, Diagnostics, SpecDiagnostic, spec_error};
use crate::ast::{str_debug, debug_str, VerifyLevel, ExecTarget, Priority, UseDef, UseKind, AstType, AstTypeKind, NatExpr,
    SpecAstType, SpecTypeKind, SpecNat, ast_type_view, ast_types_view, TypeDef, TypeParam, TypeDefBody, Variant, Field,
    SpecTypeDef, SpecTypeParam, SpecTypeDefBody, SpecVariant, SpecField, type_def_view, type_param_view, variant_view,
    field_view, type_def_body_view, Version};
use crate::span::spec_merge;
use crate::text::{decimal, decimal_int, u64_to_string, i64_to_string, str_eq, str_chars, spec_parse_u32, parse_u32, split_on, split_chars};

verus! {

// ── Debug text of S-expressions (for error messages) ────────────────

pub open spec fn span_debug(s: Span) -> Seq<char> {
    "Span { start: "@ + decimal(s.start as nat) + ", end: "@ + decimal(s.end as nat) + ", line: "@
        + decimal(s.line as nat) + ", col: "@ + decimal(s.col as nat) + " }"@
}

pub open spec fn atom_kind_debug(k: SpecAtomKind) -> Seq<char> {
    match k {
        SpecAtomKind::Integer(v) => "Integer("@ + decimal_int(v as int) + ")"@,
        SpecAtomKind::Float(t) => "Float("@ + t + ")"@,
        SpecAtomKind::Str(s) => "Str("@ + str_debug(s) + ")"@,
        SpecAtomKind::Symbol(s) => "Symbol("@ + str_debug(s) + ")"@,
        SpecAtomKind::Keyword(s) => "Keyword("@ + str_debug(s) + ")"@,
        SpecAtomKind::Bool(b) => if b { "Bool(true)"@ } else { "Bool(false)"@ },
        SpecAtomKind::Nil => "Nil"@,
        SpecAtomKind::Arrow => "Arrow"@,
        SpecAtomKind::Version(a, b, c) => "Version("@ + decimal(a as nat) + ", "@ + decimal(b as nat) + ", "@
            + decimal(c as nat) + ")"@,
    }
}

/// The derived `Debug` form of an S-expression, as error messages quote it.
pub open spec fn sexpr_debug(e: SpecSExpr) -> Seq<char>
    decreases e, 1nat,
{
    match e {
        SpecSExpr::Atom(a) => "Atom(Atom { kind: "@ + atom_kind_debug(a.kind) + ", span: "@ + span_debug(a.span) + " })"@,
        SpecSExpr::List(items, sp) => "List(["@ + sexprs_debug(items) + "], "@ + span_debug(sp) + ")"@,
        SpecSExpr::BracketList(items, sp) => "BracketList(["@ + sexprs_debug(items) + "], "@ + span_debug(sp) + ")"@,
    }
}

pub open spec fn sexprs_debug(s: Seq<SpecSExpr>) -> Seq<char>
    decreases s, 0nat,
{
    if s.len() == 0 {
        Seq::empty()
    } else if s.len() == 1 {
        sexpr_debug(s[0])
    } else {
        sexprs_debug(s.drop_last()) + ", "@ + sexpr_debug(s.last())
    }
}

/// The views of a list of expressions are the expressions' views.
pub proof fn lemma_sexprs_view(s: Seq<SExpr>)
    ensures
        sexprs_view(s).len() == s.len(),
        forall|i: int| 0 <= i < s.len() ==> #[trigger] sexprs_view(s)[i] == sexpr_view(s[i]),
    decreases s.len(),
{
    if s.len() > 0 {
        lemma_sexprs_view(s.drop_last());
        assert forall|i: int| 0 <= i < s.len() implies #[trigger] sexprs_view(s)[i] == sexpr_view(s[i]) by {
            if i < s.len() - 1 {
                assert(s.drop_last()[i] == s[i]);
            }
        }
    }
}

fn span_debug_exec(s: Span) -> (r: String)
    ensures
        r@ == span_debug(s),
{
    let mut r = String::from_str("Span { start: ");
    let a = u64_to_string(s.start as u64);
    r.append(a.as_str());
    r.append(", end: ");
    let b = u64_to_string(s.end as u64);
    r.append(b.as_str());
    r.append(", line: ");
    let c = u64_to_string(s.line as u64);
    r.append(c.as_str());
    r.append(", col: ");
    let d = u64_to_string(s.col as u64);
    r.append(d.as_str());
    r.append(" }");
    r
}

fn atom_kind_debug_exec(k: &AtomKind) -> (r: String)
    ensures
        r@ == atom_kind_debug(crate::sexpr::atom_kind_view(*k)),
{
    match k {
        AtomKind::Integer(v) => {
            let mut r = String::from_str("Integer(");
            let t = i64_to_string(*v);
            r.append(t.as_str());
            r.append(")");
            r
        },
        AtomKind::Float(t) => {
            let mut r = String::from_str("Float(");
            r.append(t.as_str());
            r.append(")");
            r
        },
        AtomKind::Str(s) => {
            let mut r = String::from_str("Str(");
            let d = debug_str(s.as_str());
            r.append(d.as_str());
            r.append(")");
            r
        },
        AtomKind::Symbol(s) => {
            let mut r = String::from_str("Symbol(");
            let d = debug_str(s.as_str());
            r.append(d.as_str());
            r.append(")");
            r
        },
        AtomKind::Keyword(s) => {
            let mut r = String::from_str("Keyword(");
            let d = debug_str(s.as_str());
            r.append(d.as_str());
            r.append(")");
            r
        },
        AtomKind::Bool(b) => if *b { String::from_str("Bool(true)") } else { String::from_str("Bool(false)") },
        AtomKind::Nil => String::from_str("Nil"),
        AtomKind::Arrow => String::from_str("Arrow"),
        AtomKind::Version(a, b, c) => {
            let mut r = String::from_str("Version(");
            let x = u64_to_string(*a as u64);
            r.append(x.as_str());
            r.append(", ");
            let y = u64_to_string(*b as u64);
            r.append(y.as_str());
            r.append(", ");
            let z = u64_to_string(*c as u64);
            r.append(z.as_str());
            r.append(")");
            r
        },
    }
}

/// The debug text of an S-expression.
pub fn sexpr_debug_exec(e: &SExpr) -> (r: String)
    ensures
        r@ == sexpr_debug(e@),
    decreases e, 1nat,
{
    match e {
        SExpr::Atom(a) => {
            let mut r = String::from_str("Atom(Atom { kind: ");
            let k = atom_kind_debug_exec(&a.kind);
            r.append(k.as_str());
            r.append(", span: ");
            let s = span_debug_exec(a.span);
            r.append(s.as_str());
            r.append(" })");
            r
        },
        SExpr::List(items, sp) => {
            let mut r = String::from_str("List([");
            proof {
                assert(decreases_to!(*e => *items));
            }
            let body = sexprs_debug_exec(items);
            r.append(body.as_str());
            r.append("], ");
            let s = span_debug_exec(*sp);
            r.append(s.as_str());
            r.append(")");
            r
        },
        SExpr::BracketList(items, sp) => {
            let mut r = String::from_str("BracketList([");
            proof {
                assert(decreases_to!(*e => *items));
            }
            let body = sexprs_debug_exec(items);
            r.append(body.as_str());
            r.append("], ");
            let s = span_debug_exec(*sp);
            r.append(s.as_str());
            r.append(")");
            r
        },
    }
}

fn sexprs_debug_exec(items: &Vec<SExpr>) -> (r: String)
    ensures
        r@ == sexprs_debug(sexprs_view(items@)),
    decreases items, 0nat,
{
    let ghost sv = sexprs_view(items@);
    proof {
        lemma_sexprs_view(items@);
    }
    let mut out = String::new();
    let mut i: usize = 0;
    while i < items.len()
        invariant
            i <= items@.len(),
            sv == sexprs_view(items@),
            sv.len() == items@.len(),
            forall|j: int| 0 <= j < items@.len() ==> #[trigger] sv[j] == sexpr_view(items@[j]),
            out@ == sexprs_debug(sv.take(i as int)),
        decreases items@.len() - i,
    {
        assert(sv.take(i + 1).drop_last() =~= sv.take(i as int));
        assert(sv.take(i + 1).last() == sv[i as int]);
        if i > 0 {
            out.append(", ");
        }
        proof {
            assert(decreases_to!(*items => items@));
            assert(decreases_to!(items@ => items@[i as int]));
        }
        let d = sexpr_debug_exec(&items[i]);
        out.append(d.as_str());
        i += 1;
    }
    assert(sv.take(sv.len() as int) =~= sv);
    out
}

// ── Small helpers ───────────────────────────────────────────────────

pub open spec fn spec_symbol_of(e: SpecSExpr) -> Option<Seq<char>> {
    match e {
        SpecSExpr::Atom(SpecAtom { kind: SpecAtomKind::Symbol(s), .. }) => Some(s),
        _ => None,
    }
}

pub open spec fn spec_keyword_of(e: SpecSExpr) -> Option<Seq<char>> {
    match e {
        SpecSExpr::Atom(SpecAtom { kind: SpecAtomKind::Keyword(s), .. }) => Some(s),
        _ => None,
    }
}

pub open spec fn spec_expect_symbol(e: SpecSExpr) -> Result<Seq<char>, SpecDiagnostic> {
    match spec_symbol_of(e) {
        Some(s) => Ok(s),
        None => Err(spec_error("expected symbol, found "@ + sexpr_debug(e), crate::sexpr::spec_span_of(e))),
    }
}

pub open spec fn spec_expect_string(e: SpecSExpr) -> Result<Seq<char>, SpecDiagnostic> {
    match e {
        SpecSExpr::Atom(SpecAtom { kind: SpecAtomKind::Str(s), .. }) => Ok(s),
        _ => Err(spec_error("expected string, found "@ + sexpr_debug(e), crate::sexpr::spec_span_of(e))),
    }
}

/// A symbol atom's name.
pub fn expect_symbol(e: &SExpr) -> (r: Result<String, Diagnostic>)
    ensures
        match spec_expect_symbol(e@) {
            Ok(s) => r matches Ok(x) && x@ == s,
            Err(d) => r matches Err(x) && x@ == d,
        },
{
    match e {
        SExpr::Atom(Atom { kind: AtomKind::Symbol(s), .. }) => Ok(s.clone()),
        _ => {
            let mut m = String::from_str("expected symbol, found ");
            let d = sexpr_debug_exec(e);
            m.append(d.as_str());
            Err(Diagnostic::error(m, e.span()))
        },
    }
}

/// A string atom's text.
pub fn expect_string(e: &SExpr) -> (r: Result<String, Diagnostic>)
    ensures
        match spec_expect_string(e@) {
            Ok(s) => r matches Ok(x) && x@ == s,
            Err(d) => r matches Err(x) && x@ == d,
        },
{
    match e {
        SExpr::Atom(Atom { kind: AtomKind::Str(s), .. }) => Ok(s.clone()),
        _ => {
            let mut m = String::from_str("expected string, found ");
            let d = sexpr_debug_exec(e);
            m.append(d.as_str());
            Err(Diagnostic::error(m, e.span()))
        },
    }
}

/// Whether Unicode classes a character as uppercase (`char::is_uppercase`).
pub uninterp spec fn char_is_uppercase(c: char) -> bool;

/// `char::is_uppercase`: the character's Unicode `Uppercase` property. The
/// ASCII capitals have it, ASCII lower-case letters and digits do not; for
/// other characters the Unicode tables decide and nothing more is said.
#[verifier::external_body]
fn is_uppercase_char(c: char) -> (b: bool)
    ensures
        b == char_is_uppercase(c),
        'A' <= c <= 'Z' ==> b,
        ('a' <= c <= 'z') || ('0' <= c <= '9') ==> !b,
{
    c.is_uppercase()
}

/// The first character is an uppercase letter (a constructor name).
pub fn is_capitalized(s: &str) -> (b: bool)
    ensures
        b == (s@.len() > 0 && char_is_uppercase(s@[0])),
{
    let cs = str_chars(s);
    if cs.len() == 0 {
        false
    } else {
        is_uppercase_char(cs[0])
    }
}

/// The counter value after `c` (wrapping at the top).
pub open spec fn next_counter(c: usize) -> usize {
    if c == usize::MAX { 0 } else { (c + 1) as usize }
}

/// The temporary name for counter value `c`.
pub open spec fn gensym_name(c: usize) -> Seq<char> {
    "__d"@ + decimal(c as nat)
}

/// `__d` followed by the counter, which then moves on (wrapping at the top).
pub fn gensym(diags: &mut Diagnostics) -> (s: String)
    ensures
        s@ == gensym_name(old(diags).gensym_counter),
        final(diags).gensym_counter == next_counter(old(diags).gensym_counter),
        final(diags).items@ == old(diags).items@,
        final(diags)@ == (crate::diagnostic::SpecDiags { items: old(diags)@.items, counter: next_counter(old(diags)@.counter) }),
{
    let n = diags.gensym_counter;
    diags.gensym_counter = if n == usize::MAX { 0 } else { n + 1 };
    let mut s = String::from_str("__d");
    let t = u64_to_string(n as u64);
    s.append(t.as_str());
    s
}

/// Distinct counter values give distinct names.
pub proof fn law_gensym_names_distinct(a: usize, b: usize)
    requires
        a != b,
    ensures
        "__d"@ + decimal(a as nat) != "__d"@ + decimal(b as nat),
{
    crate::text::lemma_decimal_injective(a as nat, b as nat);
    if "__d"@ + decimal(a as nat) == "__d"@ + decimal(b as nat) {
        assert(("__d"@ + decimal(a as nat)).subrange(3, ("__d"@ + decimal(a as nat)).len() as int) =~= decimal(a as nat)) by {
            reveal_strlit("__d");
        }
        assert(("__d"@ + decimal(b as nat)).subrange(3, ("__d"@ + decimal(b as nat)).len() as int) =~= decimal(b as nat)) by {
            reveal_strlit("__d");
        }
    }
}


// ── Module header fields ────────────────────────────────────────────

pub open spec fn spec_parse_verify_level(e: SpecSExpr) -> Result<VerifyLevel, SpecDiagnostic> {
    match spec_expect_symbol(e) {
        Err(d) => Err(d),
        Ok(s) => if s == "checked"@ {
            Ok(VerifyLevel::Checked)
        } else if s == "proven"@ {
            Ok(VerifyLevel::Proven)
        } else if s == "trusted"@ {
            Ok(VerifyLevel::Trusted)
        } else {
            Err(spec_error("unknown verify level: "@ + s, crate::sexpr::spec_span_of(e)))
        },
    }
}

/// `checked`, `proven` or `trusted`.
pub fn parse_verify_level(e: &SExpr) -> (r: Result<VerifyLevel, Diagnostic>)
    ensures
        match spec_parse_verify_level(e@) {
            Ok(v) => r == Ok::<VerifyLevel, Diagnostic>(v),
            Err(d) => r matches Err(x) && x@ == d,
        },
{
    let s = expect_symbol(e)?;
    if str_eq(s.as_str(), "checked") {
        Ok(VerifyLevel::Checked)
    } else if str_eq(s.as_str(), "proven") {
        Ok(VerifyLevel::Proven)
    } else if str_eq(s.as_str(), "trusted") {
        Ok(VerifyLevel::Trusted)
    } else {
        let mut m = String::from_str("unknown verify level: ");
        m.append(s.as_str());
        Err(Diagnostic::error(m, e.span()))
    }
}

pub enum SpecExecTarget {
    Cpu,
    Gpu,
    Any,
    Agent(Seq<char>),
}

pub open spec fn exec_target_view(t: ExecTarget) -> SpecExecTarget {
    match t {
        ExecTarget::Cpu => SpecExecTarget::Cpu,
        ExecTarget::Gpu => SpecExecTarget::Gpu,
        ExecTarget::Any => SpecExecTarget::Any,
        ExecTarget::Agent(s) => SpecExecTarget::Agent(s@),
    }
}

pub open spec fn spec_parse_exec_target(e: SpecSExpr) -> Result<SpecExecTarget, SpecDiagnostic> {
    match spec_expect_symbol(e) {
        Err(d) => Err(d),
        Ok(s) => if s == "cpu"@ {
            Ok(SpecExecTarget::Cpu)
        } else if s == "gpu"@ {
            Ok(SpecExecTarget::Gpu)
        } else if s == "any"@ {
            Ok(SpecExecTarget::Any)
        } else {
            Ok(SpecExecTarget::Agent(s))
        },
    }
}

/// `cpu`, `gpu`, `any`, or the name of an agent.
pub fn parse_exec_target(e: &SExpr) -> (r: Result<ExecTarget, Diagnostic>)
    ensures
        match spec_parse_exec_target(e@) {
            Ok(t) => r matches Ok(x) && exec_target_view(x) == t,
            Err(d) => r matches Err(x) && x@ == d,
        },
{
    let s = expect_symbol(e)?;
    if str_eq(s.as_str(), "cpu") {
        Ok(ExecTarget::Cpu)
    } else if str_eq(s.as_str(), "gpu") {
        Ok(ExecTarget::Gpu)
    } else if str_eq(s.as_str(), "any") {
        Ok(ExecTarget::Any)
    } else {
        Ok(ExecTarget::Agent(s))
    }
}

pub open spec fn spec_parse_priority(e: SpecSExpr) -> Result<Priority, SpecDiagnostic> {
    match spec_expect_symbol(e) {
        Err(d) => Err(d),
        Ok(s) => if s == "low"@ {
            Ok(Priority::Low)
        } else if s == "normal"@ {
            Ok(Priority::Normal)
        } else if s == "high"@ {
            Ok(Priority::High)
        } else if s == "critical"@ {
            Ok(Priority::Critical)
        } else {
            Err(spec_error("unknown priority: "@ + s, crate::sexpr::spec_span_of(e)))
        },
    }
}

/// `low`, `normal`, `high` or `critical`.
pub fn parse_priority(e: &SExpr) -> (r: Result<Priority, Diagnostic>)
    ensures
        match spec_parse_priority(e@) {
            Ok(p) => r == Ok::<Priority, Diagnostic>(p),
            Err(d) => r matches Err(x) && x@ == d,
        },
{
    let s = expect_symbol(e)?;
    if str_eq(s.as_str(), "low") {
        Ok(Priority::Low)
    } else if str_eq(s.as_str(), "normal") {
        Ok(Priority::Normal)
    } else if str_eq(s.as_str(), "high") {
        Ok(Priority::High)
    } else if str_eq(s.as_str(), "critical") {
        Ok(Priority::Critical)
    } else {
        let mut m = String::from_str("unknown priority: ");
        m.append(s.as_str());
        Err(Diagnostic::error(m, e.span()))
    }
}

/// Every element a symbol, the first other one reported.
pub open spec fn spec_symbols(items: Seq<SpecSExpr>) -> Result<Seq<Seq<char>>, SpecDiagnostic>
    decreases items.len(),
{
    if items.len() == 0 {
        Ok(Seq::empty())
    } else {
        match spec_symbols(items.drop_last()) {
            Err(d) => Err(d),
            Ok(p) => match spec_expect_symbol(items.last()) {
                Err(d) => Err(d),
                Ok(x) => Ok(p.push(x)),
            },
        }
    }
}

pub open spec fn strings_view(v: Seq<String>) -> Seq<Seq<char>> {
    Seq::new(v.len(), |i: int| v[i]@)
}

fn symbols_of(items: &Vec<SExpr>) -> (r: Result<Vec<String>, Diagnostic>)
    ensures
        match spec_symbols(sexprs_view(items@)) {
            Ok(s) => r matches Ok(v) && strings_view(v@) == s,
            Err(d) => r matches Err(x) && x@ == d,
        },
{
    let ghost sv = sexprs_view(items@);
    proof {
        lemma_sexprs_view(items@);
    }
    let mut out: Vec<String> = Vec::new();
    let mut i: usize = 0;
    assert(strings_view(out@) =~= Seq::<Seq<char>>::empty());
    while i < items.len()
        invariant
            i <= items@.len(),
            sv == sexprs_view(items@),
            sv.len() == items@.len(),
            forall|j: int| 0 <= j < items@.len() ==> #[trigger] sv[j] == sexpr_view(items@[j]),
            spec_symbols(sv.take(i as int)) == Ok::<Seq<Seq<char>>, SpecDiagnostic>(strings_view(out@)),
        decreases items@.len() - i,
    {
        assert(sv.take(i + 1).drop_last() =~= sv.take(i as int));
        assert(sv.take(i + 1).last() == sv[i as int]);
        match expect_symbol(&items[i]) {
            Ok(x) => {
                let ghost prev = out@;
                out.push(x);
                assert(strings_view(out@) =~= strings_view(prev).push(out@.last()@));
            },
            Err(d) => {
                proof {
                    lemma_symbols_prefix_err(sv, i as int + 1);
                }
                return Err(d);
            },
        }
        i += 1;
    }
    assert(sv.take(sv.len() as int) =~= sv);
    Ok(out)
}

pub proof fn lemma_symbols_prefix_err(items: Seq<SpecSExpr>, n: int)
    requires
        0 <= n <= items.len(),
        spec_symbols(items.take(n)) is Err,
    ensures
        spec_symbols(items) == spec_symbols(items.take(n)),
    decreases items.len() - n,
{
    if n < items.len() {
        assert(items.take(n + 1).drop_last() =~= items.take(n));
        lemma_symbols_prefix_err(items, n + 1);
    } else {
        assert(items.take(n) =~= items);
    }
}

pub open spec fn spec_parse_symbol_list(e: SpecSExpr) -> Result<Seq<Seq<char>>, SpecDiagnostic> {
    match e {
        SpecSExpr::BracketList(items, _) => spec_symbols(items),
        _ => Err(spec_error("expected bracket list"@, crate::sexpr::spec_span_of(e))),
    }
}

/// `[a b c]`: the names in a bracket list of symbols.
pub fn parse_symbol_list(e: &SExpr) -> (r: Result<Vec<String>, Diagnostic>)
    ensures
        match spec_parse_symbol_list(e@) {
            Ok(s) => r matches Ok(v) && strings_view(v@) == s,
            Err(d) => r matches Err(x) && x@ == d,
        },
{
    match e {
        SExpr::BracketList(items, _) => symbols_of(items),
        _ => Err(Diagnostic::error_str("expected bracket list", e.span())),
    }
}

// ── `use` declarations ──────────────────────────────────────────────

pub enum SpecUseKind {
    Symbols(Seq<Seq<char>>),
    Prefixed(Seq<char>),
    All,
}

pub open spec fn use_kind_view(k: UseKind) -> SpecUseKind {
    match k {
        UseKind::Symbols(v) => SpecUseKind::Symbols(strings_view(v@)),
        UseKind::Prefixed(s) => SpecUseKind::Prefixed(s@),
        UseKind::All => SpecUseKind::All,
    }
}

pub open spec fn spec_parse_use_symbols(e: SpecSExpr) -> Result<SpecUseKind, SpecDiagnostic> {
    match e {
        SpecSExpr::BracketList(items, _) => match spec_symbols(items) {
            Err(d) => Err(d),
            Ok(s) => Ok(SpecUseKind::Symbols(s)),
        },
        _ => if spec_symbol_of(e) == Some("*"@) {
            Ok(SpecUseKind::All)
        } else {
            Err(spec_error("expected symbol list or :as alias in use"@, crate::sexpr::spec_span_of(e)))
        },
    }
}

/// What a `use` imports: everything, the listed names, or all under a prefix.
pub open spec fn spec_parse_use(items: Seq<SpecSExpr>, span: Span) -> Result<(Seq<char>, SpecUseKind), SpecDiagnostic> {
    if items.len() == 0 {
        Err(spec_error("use requires a module name"@, span))
    } else {
        match spec_expect_symbol(items[0]) {
            Err(d) => Err(d),
            Ok(module) => if items.len() == 1 {
                Ok((module, SpecUseKind::All))
            } else if items.len() >= 3 {
                match spec_keyword_of(items[1]) {
                    Some(kw) => if kw == "as"@ {
                        match spec_expect_symbol(items[2]) {
                            Err(d) => Err(d),
                            Ok(p) => Ok((module, SpecUseKind::Prefixed(p))),
                        }
                    } else {
                        Ok((module, SpecUseKind::All))
                    },
                    None => match spec_parse_use_symbols(items[1]) {
                        Err(d) => Err(d),
                        Ok(k) => Ok((module, k)),
                    },
                }
            } else {
                match spec_parse_use_symbols(items[1]) {
                    Err(d) => Err(d),
                    Ok(k) => Ok((module, k)),
                }
            },
        }
    }
}

fn parse_use_symbols(e: &SExpr) -> (r: Result<UseKind, Diagnostic>)
    ensures
        match spec_parse_use_symbols(e@) {
            Ok(k) => r matches Ok(x) && use_kind_view(x) == k,
            Err(d) => r matches Err(x) && x@ == d,
        },
{
    match e {
        SExpr::BracketList(items, _) => {
            let syms = symbols_of(items)?;
            Ok(UseKind::Symbols(syms))
        },
        SExpr::Atom(Atom { kind: AtomKind::Symbol(s), .. }) => {
            if str_eq(s.as_str(), "*") {
                Ok(UseKind::All)
            } else {
                Err(Diagnostic::error_str("expected symbol list or :as alias in use", e.span()))
            }
        },
        _ => Err(Diagnostic::error_str("expected symbol list or :as alias in use", e.span())),
    }
}

/// The arguments of `(use module ...)`, after the `use` itself.
pub fn parse_use(items: &[SExpr], span: Span) -> (r: Result<UseDef, Diagnostic>)
    ensures
        match spec_parse_use(sexprs_view(items@), span) {
            Ok((m, k)) => r matches Ok(u) && u.module@ == m && use_kind_view(u.kind) == k && u.span == span,
            Err(d) => r matches Err(x) && x@ == d,
        },
{
    proof {
        lemma_sexprs_view(items@);
    }
    if items.len() == 0 {
        return Err(Diagnostic::error_str("use requires a module name", span));
    }
    let module = expect_symbol(&items[0])?;
    let kind = if items.len() == 1 {
        UseKind::All
    } else if items.len() >= 3 {
        match items[1].as_keyword() {
            Some(kw) => {
                if str_eq(kw, "as") {
                    UseKind::Prefixed(expect_symbol(&items[2])?)
                } else {
                    UseKind::All
                }
            },
            None => parse_use_symbols(&items[1])?,
        }
    } else {
        parse_use_symbols(&items[1])?
    };
    Ok(UseDef { module, kind, span })
}


// ── Type expressions ────────────────────────────────────────────────

pub open spec fn named_type(s: Seq<char>, span: Span) -> SpecAstType {
    SpecAstType { kind: SpecTypeKind::Named(s), span }
}

/// A type in its own S-expression: a name, a number (a type-level natural),
/// or `(-> [params] return)`.
pub open spec fn spec_parse_type(e: SpecSExpr) -> Result<SpecAstType, SpecDiagnostic>
    decreases e, 1nat,
{
    match e {
        SpecSExpr::Atom(a) => match a.kind {
            SpecAtomKind::Symbol(s) => Ok(named_type(s, a.span)),
            SpecAtomKind::Integer(v) => Ok(SpecAstType { kind: SpecTypeKind::Nat(SpecNat::Lit(v as u64)), span: a.span }),
            _ => Err(spec_error("unexpected type form"@, a.span)),
        },
        SpecSExpr::List(items, sp) => if items.len() == 0 {
            Err(spec_error("empty type expression"@, sp))
        } else if spec_symbol_of(items[0]) == Some("->"@) {
            if items.len() != 3 {
                Err(spec_error("function type requires (-> [params] return)"@, sp))
            } else {
                match items[1] {
                    SpecSExpr::BracketList(params, _) => match spec_parse_types(params) {
                        Err(d) => Err(d),
                        Ok(ps) => match spec_parse_type(items[2]) {
                            Err(d) => Err(d),
                            Ok(r) => Ok(SpecAstType { kind: SpecTypeKind::Func(ps, Box::new(r)), span: sp }),
                        },
                    },
                    _ => Err(spec_error("function type params must be a bracket list"@, sp)),
                }
            }
        } else {
            Err(spec_error("unexpected type form"@, sp))
        },
        SpecSExpr::BracketList(_, sp) => Err(spec_error("unexpected bracket list in type position"@, sp)),
    }
}

/// Types, one per S-expression; the first failure wins.
pub open spec fn spec_parse_types(s: Seq<SpecSExpr>) -> Result<Seq<SpecAstType>, SpecDiagnostic>
    decreases s, 0nat,
{
    if s.len() == 0 {
        Ok(Seq::empty())
    } else {
        match spec_parse_types(s.drop_last()) {
            Err(d) => Err(d),
            Ok(p) => match spec_parse_type(s.last()) {
                Err(d) => Err(d),
                Ok(t) => Ok(p.push(t)),
            },
        }
    }
}

/// A type starting at `pos` of a sequence, where a name followed by a bracket
/// list is an application `Name[args]`; also how many items it took.
pub open spec fn spec_type_from_slice(items: Seq<SpecSExpr>, pos: int) -> Result<(SpecAstType, int), SpecDiagnostic>
    decreases items, 1nat, 0nat,
{
    if pos < 0 || pos >= items.len() {
        Err(spec_error("expected type"@, crate::sexpr::dummy_span()))
    } else {
        match items[pos] {
            SpecSExpr::Atom(SpecAtom { kind: SpecAtomKind::Symbol(name), span }) => {
                if pos + 1 < items.len() && items[pos + 1] is BracketList {
                    match items[pos + 1] {
                        SpecSExpr::BracketList(args, bspan) => match spec_type_args(args, 0, Seq::empty()) {
                            Err(d) => Err(d),
                            Ok(targs) => Ok((SpecAstType { kind: SpecTypeKind::App(name, targs), span: spec_merge(span, bspan) }, 2)),
                        },
                        _ => Ok((named_type(name, span), 1)),
                    }
                } else {
                    Ok((named_type(name, span), 1))
                }
            },
            _ => match spec_parse_type(items[pos]) {
                Err(d) => Err(d),
                Ok(t) => Ok((t, 1)),
            },
        }
    }
}

/// The arguments of an application, read from `i` on after `acc`.
pub open spec fn spec_type_args(args: Seq<SpecSExpr>, i: int, acc: Seq<SpecAstType>) -> Result<Seq<SpecAstType>, SpecDiagnostic>
    decreases args, 2nat, args.len() - i,
{
    if i < 0 || i >= args.len() {
        Ok(acc)
    } else {
        match spec_type_from_slice(args, i) {
            Err(d) => Err(d),
            Ok((t, c)) => if i < i + c <= args.len() {
                spec_type_args(args, i + c, acc.push(t))
            } else {
                Ok(acc.push(t))
            },
        }
    }
}

pub proof fn lemma_ast_types_view(s: Seq<AstType>)
    ensures
        ast_types_view(s).len() == s.len(),
        forall|i: int| 0 <= i < s.len() ==> #[trigger] ast_types_view(s)[i] == ast_type_view(s[i]),
    decreases s.len(),
{
    if s.len() > 0 {
        lemma_ast_types_view(s.drop_last());
        assert forall|i: int| 0 <= i < s.len() implies #[trigger] ast_types_view(s)[i] == ast_type_view(s[i]) by {
            if i < s.len() - 1 {
                assert(s.drop_last()[i] == s[i]);
            }
        }
    }
}

/// A type written in its own S-expression.
pub fn parse_type(e: &SExpr) -> (r: Result<AstType, Diagnostic>)
    ensures
        match spec_parse_type(e@) {
            Ok(t) => r matches Ok(x) && ast_type_view(x) == t,
            Err(d) => r matches Err(x) && x@ == d,
        },
    decreases e, 1nat,
{
    let span = e.span();
    match e {
        SExpr::Atom(a) => match &a.kind {
            AtomKind::Symbol(s) => Ok(AstType { kind: AstTypeKind::Named(s.clone()), span }),
            AtomKind::Integer(v) => Ok(AstType { kind: AstTypeKind::Nat(NatExpr::Lit(*v as u64)), span }),
            _ => Err(Diagnostic::error_str("unexpected type form", span)),
        },
        SExpr::List(items, _) => {
            proof {
                lemma_sexprs_view(items@);
            }
            if items.len() == 0 {
                return Err(Diagnostic::error_str("empty type expression", span));
            }
            let is_arrow = match items[0].as_symbol() {
                Some(h) => str_eq(h, "->"),
                None => false,
            };
            if is_arrow {
                if items.len() != 3 {
                    return Err(Diagnostic::error_str("function type requires (-> [params] return)", span));
                }
                match &items[1] {
                    SExpr::BracketList(params, _) => {
                        proof {
                            assert(decreases_to!(*e => *items));
                            assert(decreases_to!(*items => items@));
                            assert(decreases_to!(items@ => items@[1]));
                            assert(decreases_to!(items@[1] => *params));
                            assert(decreases_to!(items@ => items@[2]));
                        }
                        let ps = parse_types(params)?;
                        let r = parse_type(&items[2])?;
                        Ok(AstType { kind: AstTypeKind::Func(ps, Box::new(r)), span })
                    },
                    _ => Err(Diagnostic::error_str("function type params must be a bracket list", span)),
                }
            } else {
                Err(Diagnostic::error_str("unexpected type form", span))
            }
        },
        SExpr::BracketList(_, _) => Err(Diagnostic::error_str("unexpected bracket list in type position", span)),
    }
}

fn parse_types(items: &Vec<SExpr>) -> (r: Result<Vec<AstType>, Diagnostic>)
    ensures
        match spec_parse_types(sexprs_view(items@)) {
            Ok(s) => r matches Ok(v) && ast_types_view(v@) == s,
            Err(d) => r matches Err(x) && x@ == d,
        },
    decreases items, 0nat,
{
    let ghost sv = sexprs_view(items@);
    proof {
        lemma_sexprs_view(items@);
    }
    let mut out: Vec<AstType> = Vec::new();
    let mut i: usize = 0;
    while i < items.len()
        invariant
            i <= items@.len(),
            sv == sexprs_view(items@),
            sv.len() == items@.len(),
            forall|j: int| 0 <= j < items@.len() ==> #[trigger] sv[j] == sexpr_view(items@[j]),
            spec_parse_types(sv.take(i as int)) == Ok::<Seq<SpecAstType>, SpecDiagnostic>(ast_types_view(out@)),
        decreases items@.len() - i,
    {
        assert(sv.take(i + 1).drop_last() =~= sv.take(i as int));
        assert(sv.take(i + 1).last() == sv[i as int]);
        proof {
            assert(decreases_to!(*items => items@));
            assert(decreases_to!(items@ => items@[i as int]));
        }
        match parse_type(&items[i]) {
            Ok(t) => {
                let ghost prev = out@;
                out.push(t);
                assert(out@.drop_last() =~= prev);
            },
            Err(d) => {
                proof {
                    lemma_types_prefix_err(sv, i as int + 1);
                }
                return Err(d);
            },
        }
        i += 1;
    }
    assert(sv.take(sv.len() as int) =~= sv);
    Ok(out)
}

pub proof fn lemma_types_prefix_err(items: Seq<SpecSExpr>, n: int)
    requires
        0 <= n <= items.len(),
        spec_parse_types(items.take(n)) is Err,
    ensures
        spec_parse_types(items) == spec_parse_types(items.take(n)),
    decreases items.len() - n,
{
    if n < items.len() {
        assert(items.take(n + 1).drop_last() =~= items.take(n));
        lemma_types_prefix_err(items, n + 1);
    } else {
        assert(items.take(n) =~= items);
    }
}


/// A type starting at `pos`: a name, a name applied to a bracket list of
/// argument types (`Result[i32, DivError]`), or any other type form; with
/// the number of items it took.
#[verifier::loop_isolation(false)]
pub fn parse_type_from_slice(items: &[SExpr], pos: usize) -> (r: Result<(AstType, usize), Diagnostic>)
    ensures
        match spec_type_from_slice(sexprs_view(items@), pos as int) {
            Ok((t, c)) => r matches Ok((x, m)) && ast_type_view(x) == t && m == c,
            Err(d) => r matches Err(x) && x@ == d,
        },
    decreases items@, 1nat,
{
    let ghost sv = sexprs_view(items@);
    proof {
        lemma_sexprs_view(items@);
    }
    if pos >= items.len() {
        return Err(Diagnostic::error_str("expected type", Span::dummy()));
    }
    match &items[pos] {
        SExpr::Atom(Atom { kind: AtomKind::Symbol(name), span }) => {
            if pos + 1 < items.len() {
                match &items[pos + 1] {
                    SExpr::BracketList(args, bspan) => {
                        let ghost av = sexprs_view(args@);
                        proof {
                            lemma_sexprs_view(args@);
                            assert(sv[pos + 1] == sexpr_view(items@[pos + 1]));
                        }
                        let mut targs: Vec<AstType> = Vec::new();
                        let mut i: usize = 0;
                        assert(ast_types_view(targs@) =~= Seq::<SpecAstType>::empty());
                        while i < args.len()
                            invariant
                                i <= args@.len(),
                                av == sexprs_view(args@),
                                av.len() == args@.len(),
                                decreases_to!(items@ => args@),
                                spec_type_args(av, 0, Seq::empty()) == spec_type_args(av, i as int, ast_types_view(targs@)),
                            decreases args@.len() - i,
                        {
                            let slice = args.as_slice();
                            match parse_type_from_slice(slice, i) {
                                Err(d) => {
                                    return Err(d);
                                },
                                Ok((t, consumed)) => {
                                    proof {
                                        lemma_from_slice_consumes(av, i as int);
                                    }
                                    let ghost prev = targs@;
                                    targs.push(t);
                                    assert(targs@.drop_last() =~= prev);
                                    i = i + consumed;
                                },
                            }
                        }
                        let full = span.merge(*bspan);
                        return Ok((AstType { kind: AstTypeKind::App(name.clone(), targs), span: full }, 2));
                    },
                    _ => {},
                }
            }
            Ok((AstType { kind: AstTypeKind::Named(name.clone()), span: *span }, 1))
        },
        _ => {
            let t = parse_type(&items[pos])?;
            Ok((t, 1))
        },
    }
}

/// A type read from the middle of a sequence takes one or two items and
/// does not run past the end.
pub proof fn lemma_from_slice_consumes(items: Seq<SpecSExpr>, pos: int)
    ensures
        spec_type_from_slice(items, pos) matches Ok((_, c)) ==> 1 <= c <= 2 && pos + c <= items.len(),
{
}


// ── Type definitions ────────────────────────────────────────────────

/// Type parameters `T : Bound` (or a bare `T`, bounded by `Type`), from `i` on.
pub open spec fn spec_type_params(items: Seq<SpecSExpr>, i: int, acc: Seq<SpecTypeParam>) -> Result<Seq<SpecTypeParam>, SpecDiagnostic>
    decreases items.len() - i,
{
    if i < 0 || i >= items.len() {
        Ok(acc)
    } else {
        match spec_expect_symbol(items[i]) {
            Err(d) => Err(d),
            Ok(name) => {
                let span = crate::sexpr::spec_span_of(items[i]);
                let j = i + 1;
                if j < items.len() && spec_symbol_of(items[j]) == Some(":"@) {
                    if j + 1 >= items.len() {
                        Err(spec_error("expected type bound"@, span))
                    } else {
                        match spec_parse_type(items[j + 1]) {
                            Err(d) => Err(d),
                            Ok(b) => spec_type_params(items, j + 2, acc.push(SpecTypeParam { name, bound: b, span })),
                        }
                    }
                } else {
                    spec_type_params(items, j, acc.push(SpecTypeParam { name, bound: named_type("Type"@, span), span }))
                }
            },
        }
    }
}

pub open spec fn type_params_view(v: Seq<TypeParam>) -> Seq<SpecTypeParam> {
    Seq::new(v.len(), |i: int| type_param_view(v[i]))
}

fn parse_type_params(items: &Vec<SExpr>) -> (r: Result<Vec<TypeParam>, Diagnostic>)
    ensures
        match spec_type_params(sexprs_view(items@), 0, Seq::empty()) {
            Ok(s) => r matches Ok(v) && type_params_view(v@) == s,
            Err(d) => r matches Err(x) && x@ == d,
        },
{
    let ghost sv = sexprs_view(items@);
    proof {
        lemma_sexprs_view(items@);
    }
    let mut params: Vec<TypeParam> = Vec::new();
    let mut i: usize = 0;
    assert(type_params_view(params@) =~= Seq::<SpecTypeParam>::empty());
    while i < items.len()
        invariant
            i <= items@.len(),
            sv == sexprs_view(items@),
            sv.len() == items@.len(),
            forall|j: int| 0 <= j < items@.len() ==> #[trigger] sv[j] == sexpr_view(items@[j]),
            spec_type_params(sv, 0, Seq::empty()) == spec_type_params(sv, i as int, type_params_view(params@)),
        decreases items@.len() - i,
    {
        let name = expect_symbol(&items[i])?;
        let span = items[i].span();
        i += 1;
        let is_colon = if i < items.len() {
            match items[i].as_symbol() {
                Some(c) => str_eq(c, ":"),
                None => false,
            }
        } else {
            false
        };
        let bound = if is_colon {
            i += 1;
            if i >= items.len() {
                return Err(Diagnostic::error_str("expected type bound", span));
            }
            let b = parse_type(&items[i])?;
            i += 1;
            b
        } else {
            AstType { kind: AstTypeKind::Named(String::from_str("Type")), span }
        };
        let ghost prev = params@;
        params.push(TypeParam { name, bound, span });
        assert(type_params_view(params@) =~= type_params_view(prev).push(type_param_view(params@.last())));
    }
    Ok(params)
}

pub open spec fn spec_variant(e: SpecSExpr) -> Result<SpecVariant, SpecDiagnostic> {
    match e {
        SpecSExpr::List(items, sp) => if items.len() > 0 {
            match spec_expect_symbol(items[0]) {
                Err(d) => Err(d),
                Ok(name) => match spec_parse_types(items.subrange(1, items.len() as int)) {
                    Err(d) => Err(d),
                    Ok(fs) => Ok(SpecVariant { name, fields: fs, span: sp }),
                },
            }
        } else {
            Err(spec_error("expected variant"@, sp))
        },
        SpecSExpr::Atom(SpecAtom { kind: SpecAtomKind::Symbol(s), span }) => Ok(SpecVariant { name: s, fields: Seq::empty(), span }),
        _ => Err(spec_error("expected variant"@, crate::sexpr::spec_span_of(e))),
    }
}

pub open spec fn spec_field(e: SpecSExpr) -> Result<SpecField, SpecDiagnostic> {
    match e {
        SpecSExpr::List(items, sp) => if items.len() < 3 {
            Err(spec_error("field requires (name : Type)"@, sp))
        } else {
            match spec_expect_symbol(items[0]) {
                Err(d) => Err(d),
                Ok(name) => match spec_parse_type(items[2]) {
                    Err(d) => Err(d),
                    Ok(t) => Ok(SpecField { name, ty: t, span: sp }),
                },
            }
        },
        _ => Err(spec_error("expected field"@, crate::sexpr::spec_span_of(e))),
    }
}

pub open spec fn spec_variants(s: Seq<SpecSExpr>) -> Result<Seq<SpecVariant>, SpecDiagnostic>
    decreases s.len(),
{
    if s.len() == 0 {
        Ok(Seq::empty())
    } else {
        match spec_variants(s.drop_last()) {
            Err(d) => Err(d),
            Ok(p) => match spec_variant(s.last()) {
                Err(d) => Err(d),
                Ok(v) => Ok(p.push(v)),
            },
        }
    }
}

pub open spec fn spec_fields(s: Seq<SpecSExpr>) -> Result<Seq<SpecField>, SpecDiagnostic>
    decreases s.len(),
{
    if s.len() == 0 {
        Ok(Seq::empty())
    } else {
        match spec_fields(s.drop_last()) {
            Err(d) => Err(d),
            Ok(p) => match spec_field(s.last()) {
                Err(d) => Err(d),
                Ok(f) => Ok(p.push(f)),
            },
        }
    }
}

/// A type definition's body: `(| variants...)`, `(& fields...)`, or an alias.
pub open spec fn spec_type_def_body(e: SpecSExpr) -> Result<SpecTypeDefBody, SpecDiagnostic> {
    let alias = match spec_parse_type(e) {
        Err(d) => Err(d),
        Ok(t) => Ok(SpecTypeDefBody::Alias(t)),
    };
    match e {
        SpecSExpr::List(items, _) => if items.len() > 0 && spec_symbol_of(items[0]) == Some("|"@) {
            match spec_variants(items.subrange(1, items.len() as int)) {
                Err(d) => Err(d),
                Ok(vs) => Ok(SpecTypeDefBody::Sum(vs)),
            }
        } else if items.len() > 0 && spec_symbol_of(items[0]) == Some("&"@) {
            match spec_fields(items.subrange(1, items.len() as int)) {
                Err(d) => Err(d),
                Ok(fs) => Ok(SpecTypeDefBody::Product(fs)),
            }
        } else {
            alias
        },
        _ => alias,
    }
}

#[verifier::loop_isolation(false)]
fn parse_variant(e: &SExpr) -> (r: Result<Variant, Diagnostic>)
    ensures
        match spec_variant(e@) {
            Ok(v) => r matches Ok(x) && variant_view(x) == v,
            Err(d) => r matches Err(x) && x@ == d,
        },
{
    let span = e.span();
    match e {
        SExpr::List(items, _) => {
            if items.len() == 0 {
                return Err(Diagnostic::error_str("expected variant", span));
            }
            let ghost sv = sexprs_view(items@);
            proof {
                lemma_sexprs_view(items@);
            }
            let name = expect_symbol(&items[0])?;
            let mut fields: Vec<AstType> = Vec::new();
            let mut i: usize = 1;
            assert(sv.subrange(1, 1) =~= Seq::<SpecSExpr>::empty());
            while i < items.len()
                invariant
                    1 <= i <= items@.len(),
                    sv == sexprs_view(items@),
                    sv.len() == items@.len(),
                    forall|j: int| 0 <= j < items@.len() ==> #[trigger] sv[j] == sexpr_view(items@[j]),
                    spec_parse_types(sv.subrange(1, i as int)) == Ok::<Seq<SpecAstType>, SpecDiagnostic>(ast_types_view(fields@)),
                decreases items@.len() - i,
            {
                assert(sv.subrange(1, i + 1).drop_last() =~= sv.subrange(1, i as int));
                assert(sv.subrange(1, i + 1).last() == sv[i as int]);
                match parse_type(&items[i]) {
                    Ok(t) => {
                        let ghost prev = fields@;
                        fields.push(t);
                        assert(fields@.drop_last() =~= prev);
                    },
                    Err(d) => {
                        proof {
                            assert(sv.subrange(1, sv.len() as int).take(i as int) =~= sv.subrange(1, i + 1));
                            lemma_types_prefix_err(sv.subrange(1, sv.len() as int), i as int);
                        }
                        return Err(d);
                    },
                }
                i += 1;
            }
            assert(sv.subrange(1, sv.len() as int) =~= sv.subrange(1, i as int));
            Ok(Variant { name, fields, span })
        },
        SExpr::Atom(Atom { kind: AtomKind::Symbol(s), .. }) => Ok(Variant { name: s.clone(), fields: Vec::new(), span }),
        _ => Err(Diagnostic::error_str("expected variant", span)),
    }
}

fn parse_field(e: &SExpr) -> (r: Result<Field, Diagnostic>)
    ensures
        match spec_field(e@) {
            Ok(f) => r matches Ok(x) && field_view(x) == f,
            Err(d) => r matches Err(x) && x@ == d,
        },
{
    let span = e.span();
    match e {
        SExpr::List(items, _) => {
            proof {
                lemma_sexprs_view(items@);
            }
            if items.len() < 3 {
                return Err(Diagnostic::error_str("field requires (name : Type)", span));
            }
            let name = expect_symbol(&items[0])?;
            let ty = parse_type(&items[2])?;
            Ok(Field { name, ty, span })
        },
        _ => Err(Diagnostic::error_str("expected field", span)),
    }
}


pub open spec fn variants_view(v: Seq<Variant>) -> Seq<SpecVariant> {
    Seq::new(v.len(), |k: int| variant_view(v[k]))
}

pub open spec fn fields_view(v: Seq<Field>) -> Seq<SpecField> {
    Seq::new(v.len(), |k: int| field_view(v[k]))
}

/// The variants after the `|` head of a sum-type body.
fn parse_variants_after_head(items: &Vec<SExpr>) -> (r: Result<Vec<Variant>, Diagnostic>)
    requires
        items@.len() >= 1,
    ensures
        match spec_variants(sexprs_view(items@).subrange(1, items@.len() as int)) {
            Ok(vs) => r matches Ok(x) && variants_view(x@) == vs,
            Err(d) => r matches Err(x) && x@ == d,
        },
{
    let ghost sv = sexprs_view(items@);
    proof {
        lemma_sexprs_view(items@);
    }
    let mut vs: Vec<Variant> = Vec::new();
    let mut i: usize = 1;
    assert(sv.subrange(1, 1) =~= Seq::<SpecSExpr>::empty());
    assert(variants_view(vs@) =~= Seq::<SpecVariant>::empty());
    while i < items.len()
        invariant
            1 <= i <= items@.len(),
            sv == sexprs_view(items@),
            sv.len() == items@.len(),
            forall|j: int| 0 <= j < items@.len() ==> #[trigger] sv[j] == sexpr_view(items@[j]),
            spec_variants(sv.subrange(1, i as int)) == Ok::<Seq<SpecVariant>, SpecDiagnostic>(variants_view(vs@)),
        decreases items@.len() - i,
    {
        assert(sv.subrange(1, i + 1).drop_last() =~= sv.subrange(1, i as int));
        assert(sv.subrange(1, i + 1).last() == sv[i as int]);
        match parse_variant(&items[i]) {
            Ok(v) => {
                let ghost prev = vs@;
                vs.push(v);
                assert(variants_view(vs@) =~= variants_view(prev).push(variant_view(v)));
            },
            Err(d) => {
                proof {
                    assert(sv.subrange(1, sv.len() as int).take(i as int) =~= sv.subrange(1, i + 1));
                    lemma_variants_prefix_err(sv.subrange(1, sv.len() as int), i as int);
                }
                return Err(d);
            },
        }
        i += 1;
    }
    assert(sv.subrange(1, sv.len() as int) =~= sv.subrange(1, i as int));
    Ok(vs)
}

/// The fields after the `&` head of a product-type body.
fn parse_fields_after_head(items: &Vec<SExpr>) -> (r: Result<Vec<Field>, Diagnostic>)
    requires
        items@.len() >= 1,
    ensures
        match spec_fields(sexprs_view(items@).subrange(1, items@.len() as int)) {
            Ok(fs) => r matches Ok(x) && fields_view(x@) == fs,
            Err(d) => r matches Err(x) && x@ == d,
        },
{
    let ghost sv = sexprs_view(items@);
    proof {
        lemma_sexprs_view(items@);
    }
    let mut fs: Vec<Field> = Vec::new();
    let mut i: usize = 1;
    assert(sv.subrange(1, 1) =~= Seq::<SpecSExpr>::empty());
    assert(fields_view(fs@) =~= Seq::<SpecField>::empty());
    while i < items.len()
        invariant
            1 <= i <= items@.len(),
            sv == sexprs_view(items@),
            sv.len() == items@.len(),
            forall|j: int| 0 <= j < items@.len() ==> #[trigger] sv[j] == sexpr_view(items@[j]),
            spec_fields(sv.subrange(1, i as int)) == Ok::<Seq<SpecField>, SpecDiagnostic>(fields_view(fs@)),
        decreases items@.len() - i,
    {
        assert(sv.subrange(1, i + 1).drop_last() =~= sv.subrange(1, i as int));
        assert(sv.subrange(1, i + 1).last() == sv[i as int]);
        match parse_field(&items[i]) {
            Ok(f) => {
                let ghost prev = fs@;
                fs.push(f);
                assert(fields_view(fs@) =~= fields_view(prev).push(field_view(f)));
            },
            Err(d) => {
                proof {
                    assert(sv.subrange(1, sv.len() as int).take(i as int) =~= sv.subrange(1, i + 1));
                    lemma_fields_prefix_err(sv.subrange(1, sv.len() as int), i as int);
                }
                return Err(d);
            },
        }
        i += 1;
    }
    assert(sv.subrange(1, sv.len() as int) =~= sv.subrange(1, i as int));
    Ok(fs)
}

fn parse_type_def_body(e: &SExpr) -> (r: Result<TypeDefBody, Diagnostic>)
    ensures
        match spec_type_def_body(e@) {
            Ok(b) => r matches Ok(x) && type_def_body_view(x) == b,
            Err(d) => r matches Err(x) && x@ == d,
        },
{
    proof {
        reveal_strlit("|");
        reveal_strlit("&");
    }
    match e {
        SExpr::List(items, _) => {
            proof {
                lemma_sexprs_view(items@);
            }
            if items.len() > 0 {
                match items[0].as_symbol() {
                    Some(h) => {
                        if str_eq(h, "|") {
                            let vs = parse_variants_after_head(items)?;
                            let r = TypeDefBody::Sum(vs);
                            assert(type_def_body_view(r) == SpecTypeDefBody::Sum(variants_view(vs@)));
                            return Ok(r);
                        } else if str_eq(h, "&") {
                            let fs = parse_fields_after_head(items)?;
                            let r = TypeDefBody::Product(fs);
                            assert(type_def_body_view(r) == SpecTypeDefBody::Product(fields_view(fs@)));
                            return Ok(r);
                        }
                    },
                    None => {},
                }
            }
            let t = parse_type(e)?;
            Ok(TypeDefBody::Alias(t))
        },
        _ => {
            let t = parse_type(e)?;
            Ok(TypeDefBody::Alias(t))
        },
    }
}

/// An error among the first `n` variants is the error of the whole list.
pub proof fn lemma_variants_prefix_err(items: Seq<SpecSExpr>, n: int)
    requires
        0 <= n <= items.len(),
        spec_variants(items.take(n)) is Err,
    ensures
        spec_variants(items) == spec_variants(items.take(n)),
    decreases items.len() - n,
{
    if n < items.len() {
        assert(items.take(n + 1).drop_last() =~= items.take(n));
        lemma_variants_prefix_err(items, n + 1);
    } else {
        assert(items.take(n) =~= items);
    }
}

/// An error among the first `n` fields is the error of the whole list.
pub proof fn lemma_fields_prefix_err(items: Seq<SpecSExpr>, n: int)
    requires
        0 <= n <= items.len(),
        spec_fields(items.take(n)) is Err,
    ensures
        spec_fields(items) == spec_fields(items.take(n)),
    decreases items.len() - n,
{
    if n < items.len() {
        assert(items.take(n + 1).drop_last() =~= items.take(n));
        lemma_fields_prefix_err(items, n + 1);
    } else {
        assert(items.take(n) =~= items);
    }
}

/// `(deftype Name [:pub] [[params]] body)`, given the items after `deftype`.
pub open spec fn spec_parse_deftype(items: Seq<SpecSExpr>, span: Span) -> Result<SpecTypeDef, SpecDiagnostic> {
    if items.len() == 0 {
        Err(spec_error("deftype requires a name"@, span))
    } else {
        match spec_expect_symbol(items[0]) {
            Err(d) => Err(d),
            Ok(name) => {
                let is_public = items.len() > 1 && spec_keyword_of(items[1]) == Some("pub"@);
                let idx: int = if is_public { 2 } else { 1 };
                let params: Result<Seq<SpecTypeParam>, SpecDiagnostic> = if idx < items.len() {
                    match items[idx] {
                        SpecSExpr::BracketList(tp, _) => spec_type_params(tp, 0, Seq::empty()),
                        _ => Ok(Seq::empty()),
                    }
                } else {
                    Ok(Seq::empty())
                };
                let idx2: int = if idx < items.len() && items[idx] is BracketList { idx + 1 } else { idx };
                match params {
                    Err(d) => Err(d),
                    Ok(ps) => if idx2 >= items.len() {
                        Err(spec_error("deftype requires a body"@, span))
                    } else {
                        match spec_type_def_body(items[idx2]) {
                            Err(d) => Err(d),
                            Ok(b) => Ok(SpecTypeDef { name, type_params: ps, body: b, is_public, span }),
                        }
                    },
                }
            },
        }
    }
}

#[verifier::rlimit(30)]
pub fn parse_deftype(items: &[SExpr], span: Span) -> (r: Result<TypeDef, Diagnostic>)
    ensures
        match spec_parse_deftype(sexprs_view(items@), span) {
            Ok(t) => r matches Ok(x) && type_def_view(x) == t,
            Err(d) => r matches Err(x) && x@ == d,
        },
{
    let ghost sv = sexprs_view(items@);
    proof {
        lemma_sexprs_view(items@);
    }
    if items.len() == 0 {
        return Err(Diagnostic::error_str("deftype requires a name", span));
    }
    proof {
        reveal_strlit("pub");
    }
    let name = expect_symbol(&items[0])?;
    let mut idx: usize = 1;
    let mut is_public = false;
    if idx < items.len() {
        match items[idx].as_keyword() {
            Some(k) => {
                if str_eq(k, "pub") {
                    is_public = true;
                    idx += 1;
                }
            },
            None => {},
        }
    }
    let ghost pubv = sv.len() > 1 && crate::parser::spec_keyword_of(sv[1]) == Some("pub"@);
    assert(is_public == pubv);
    assert(idx == (if pubv { 2int } else { 1int }));
    let ghost idx1 = idx as int;
    let mut type_params: Vec<TypeParam> = Vec::new();
    assert(type_params_view(type_params@) =~= Seq::<SpecTypeParam>::empty());
    if idx < items.len() {
        match &items[idx] {
            SExpr::BracketList(tp, _) => {
                assert(sv[idx as int] matches SpecSExpr::BracketList(q, _) && q == sexprs_view(tp@));
                type_params = parse_type_params(tp)?;
                idx += 1;
            },
            _ => {},
        }
    }
    assert(idx == (if idx1 < sv.len() && sv[idx1] is BracketList { idx1 + 1 } else { idx1 }));
    if idx >= items.len() {
        return Err(Diagnostic::error_str("deftype requires a body", span));
    }
    let body = parse_type_def_body(&items[idx])?;
    let r = TypeDef { name, type_params, body, is_public, span };
    assert(type_def_view(r).type_params =~= type_params_view(r.type_params@));
    Ok(r)
}


// ── Module versions ─────────────────────────────────────────────────

/// A version component: its `u32` reading, or 0 where it has none.
pub open spec fn part_or_zero(p: Seq<char>) -> u32 {
    match spec_parse_u32(p) {
        Some(v) => v,
        None => 0,
    }
}

/// A patch component written as a symbol `.N` right after a decimal literal.
pub open spec fn dotted_patch(e: SpecSExpr) -> Option<u32> {
    match e {
        SpecSExpr::Atom(SpecAtom { kind: SpecAtomKind::Symbol(s), .. }) => if s.len() > 0 && s[0] == '.' {
            spec_parse_u32(s.subrange(1, s.len() as int))
        } else {
            None
        },
        _ => None,
    }
}

/// The version at `items[i]` and the index just past it: a version literal;
/// a decimal literal `major.minor`, optionally followed by a `.patch` symbol;
/// or a symbol `major.minor.patch`. Unreadable components count as 0.
pub open spec fn spec_parse_version(items: Seq<SpecSExpr>, i: int) -> Result<(Version, int), SpecDiagnostic> {
    let span = crate::sexpr::spec_span_of(items[i]);
    match items[i] {
        SpecSExpr::Atom(SpecAtom { kind: SpecAtomKind::Version(a, b, c), .. }) => Ok((Version { major: a, minor: b, patch: c }, i + 1)),
        SpecSExpr::Atom(SpecAtom { kind: SpecAtomKind::Float(t), .. }) => {
            let parts = split_on(t, '.');
            let major = part_or_zero(parts[0]);
            let minor = if parts.len() > 1 { part_or_zero(parts[1]) } else { 0u32 };
            let patch = if i + 1 < items.len() { dotted_patch(items[i + 1]) } else { None };
            match patch {
                Some(p) => Ok((Version { major, minor, patch: p }, i + 2)),
                None => Ok((Version { major, minor, patch: 0 }, i + 1)),
            }
        },
        SpecSExpr::Atom(SpecAtom { kind: SpecAtomKind::Symbol(s), .. }) => {
            let parts = split_on(s, '.');
            if parts.len() == 3 {
                Ok((Version { major: part_or_zero(parts[0]), minor: part_or_zero(parts[1]), patch: part_or_zero(parts[2]) }, i + 1))
            } else {
                Err(spec_error("invalid version format"@, span))
            }
        },
        _ => Err(spec_error("expected version"@, span)),
    }
}

fn part_value(parts: &Vec<Vec<char>>, k: usize) -> (v: u32)
    requires
        k < parts@.len(),
    ensures
        v == part_or_zero(parts@[k as int]@),
{
    let p = &parts[k];
    assert(p@.subrange(0, p@.len() as int) =~= p@);
    match parse_u32(p, 0, p.len()) {
        Some(v) => v,
        None => 0,
    }
}

fn dotted_patch_exec(e: &SExpr) -> (r: Option<u32>)
    ensures
        r == dotted_patch(e@),
{
    match e {
        SExpr::Atom(Atom { kind: AtomKind::Symbol(s), .. }) => {
            let cs = str_chars(s.as_str());
            if cs.len() > 0 && cs[0] == '.' {
                parse_u32(&cs, 1, cs.len())
            } else {
                None
            }
        },
        _ => None,
    }
}

/// Reads the version at `items[*i]` and moves `*i` past it.
pub(crate) fn parse_version(items: &[SExpr], i: &mut usize) -> (r: Result<Version, Diagnostic>)
    requires
        *old(i) < items@.len(),
    ensures
        match spec_parse_version(sexprs_view(items@), *old(i) as int) {
            Ok((v, n)) => r == Ok::<Version, Diagnostic>(v) && *final(i) == n,
            Err(d) => r matches Err(x) && x@ == d && *final(i) == *old(i),
        },
{
    proof {
        lemma_sexprs_view(items@);
    }
    let span = items[*i].span();
    match &items[*i] {
        SExpr::Atom(Atom { kind: AtomKind::Version(a, b, c), .. }) => {
            *i = *i + 1;
            Ok(Version { major: *a, minor: *b, patch: *c })
        },
        SExpr::Atom(Atom { kind: AtomKind::Float(t), .. }) => {
            let cs = str_chars(t.as_str());
            let parts = split_chars(&cs, '.');
            proof {
                crate::text::lemma_split_on_nonempty(cs@, '.');
            }
            let major = part_value(&parts, 0);
            let minor = if parts.len() > 1 { part_value(&parts, 1) } else { 0 };
            let patch = if *i + 1 < items.len() { dotted_patch_exec(&items[*i + 1]) } else { None };
            match patch {
                Some(p) => {
                    *i = *i + 2;
                    Ok(Version { major, minor, patch: p })
                },
                None => {
                    *i = *i + 1;
                    Ok(Version { major, minor, patch: 0 })
                },
            }
        },
        SExpr::Atom(Atom { kind: AtomKind::Symbol(s), .. }) => {
            let cs = str_chars(s.as_str());
            let parts = split_chars(&cs, '.');
            if parts.len() == 3 {
                let v = Version { major: part_value(&parts, 0), minor: part_value(&parts, 1), patch: part_value(&parts, 2) };
                *i = *i + 1;
                Ok(v)
            } else {
                Err(Diagnostic::error_str("invalid version format", span))
            }
        },
        _ => Err(Diagnostic::error_str("expected version", span)),
    }
}

} // verus!
