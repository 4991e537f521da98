//! The S-expression reader: turns the token stream into atoms, `(...)` lists
//! and `[...]` lists, with a bound on nesting depth.
use vstd::prelude::*;
use crate::span::{Span, spec_merge};
use crate::token::{Token, TokenKind, SpecToken, SpecTokenKind};
use crate::diagnostic::{Diagnostic, SpecDiagnostic, spec_error};

verus! {

/// A generic S-expression: an atom or a list of S-expressions.
#[derive(Debug, PartialEq)]
pub enum SExpr {
    Atom(Atom),
    /// `(...)`; the span covers the parentheses.
    List(Vec<SExpr>, Span),
    /// `[...]`
    BracketList(Vec<SExpr>, Span),
}

#[derive(Debug, Clone, PartialEq)]
pub struct Atom {
    pub kind: AtomKind,
    pub span: Span,
}

/// An atom. A float keeps its source text, as the token did.
#[derive(Debug, Clone, PartialEq)]
pub enum AtomKind {
    Integer(i64),
    Float(String),
    Str(String),
    Symbol(String),
    Keyword(String),
    Bool(bool),
    Nil,
    /// `->`, kept as an atom for signatures.
    Arrow,
    /// `major.minor.patch`
    Version(u32, u32, u32),
}

pub enum SpecAtomKind {
    Integer(i64),
    Float(Seq<char>),
    Str(Seq<char>),
    Symbol(Seq<char>),
    Keyword(Seq<char>),
    Bool(bool),
    Nil,
    Arrow,
    Version(u32, u32, u32),
}

pub struct SpecAtom {
    pub kind: SpecAtomKind,
    pub span: Span,
}

pub enum SpecSExpr {
    Atom(SpecAtom),
    List(Seq<SpecSExpr>, Span),
    BracketList(Seq<SpecSExpr>, Span),
}

pub open spec fn atom_kind_view(k: AtomKind) -> SpecAtomKind {
    match k {
        AtomKind::Integer(v) => SpecAtomKind::Integer(v),
        AtomKind::Float(t) => SpecAtomKind::Float(t@),
        AtomKind::Str(s) => SpecAtomKind::Str(s@),
        AtomKind::Symbol(s) => SpecAtomKind::Symbol(s@),
        AtomKind::Keyword(s) => SpecAtomKind::Keyword(s@),
        AtomKind::Bool(b) => SpecAtomKind::Bool(b),
        AtomKind::Nil => SpecAtomKind::Nil,
        AtomKind::Arrow => SpecAtomKind::Arrow,
        AtomKind::Version(a, b, c) => SpecAtomKind::Version(a, b, c),
    }
}

pub open spec fn sexpr_view(e: SExpr) -> SpecSExpr
    decreases e, 1nat,
{
    match e {
        SExpr::Atom(a) => SpecSExpr::Atom(SpecAtom { kind: atom_kind_view(a.kind), span: a.span }),
        SExpr::List(items, sp) => SpecSExpr::List(sexprs_view(items@), sp),
        SExpr::BracketList(items, sp) => SpecSExpr::BracketList(sexprs_view(items@), sp),
    }
}

pub open spec fn sexprs_view(s: Seq<SExpr>) -> Seq<SpecSExpr>
    decreases s, 0nat,
{
    if s.len() == 0 {
        Seq::empty()
    } else {
        sexprs_view(s.drop_last()).push(sexpr_view(s.last()))
    }
}

impl View for SExpr {
    type V = SpecSExpr;

    open spec fn view(&self) -> SpecSExpr {
        sexpr_view(*self)
    }
}

pub open spec fn spec_span_of(e: SpecSExpr) -> Span {
    match e {
        SpecSExpr::Atom(a) => a.span,
        SpecSExpr::List(_, s) => s,
        SpecSExpr::BracketList(_, s) => s,
    }
}

impl SExpr {
    /// The span the expression covers.
    pub fn span(&self) -> (s: Span)
        ensures
            s == spec_span_of(self@),
    {
        match self {
            SExpr::Atom(a) => a.span,
            SExpr::List(_, s) => *s,
            SExpr::BracketList(_, s) => *s,
        }
    }

    /// The symbol's name when the expression is a symbol atom.
    pub fn as_symbol(&self) -> (r: Option<&str>)
        ensures
            match self@ {
                SpecSExpr::Atom(SpecAtom { kind: SpecAtomKind::Symbol(s), .. }) => r matches Some(x) && x@ == s,
                _ => r is None,
            },
    {
        match self {
            SExpr::Atom(Atom { kind: AtomKind::Symbol(s), .. }) => Some(s.as_str()),
            _ => None,
        }
    }

    /// The keyword's name (without the colon) when the expression is a keyword atom.
    pub fn as_keyword(&self) -> (r: Option<&str>)
        ensures
            match self@ {
                SpecSExpr::Atom(SpecAtom { kind: SpecAtomKind::Keyword(s), .. }) => r matches Some(x) && x@ == s,
                _ => r is None,
            },
    {
        match self {
            SExpr::Atom(Atom { kind: AtomKind::Keyword(s), .. }) => Some(s.as_str()),
            _ => None,
        }
    }
}

// ── The reader, as a specification ──────────────────────────────────

/// Deepest list nesting accepted.
pub const MAX_PARSE_DEPTH: usize = 1000;

pub open spec fn dummy_span() -> Span {
    Span { start: 0, end: 0, line: 0, col: 0 }
}

pub open spec fn tokens_view(ts: Seq<Token>) -> Seq<SpecToken> {
    Seq::new(ts.len(), |i: int| ts[i]@)
}

pub open spec fn msg_depth() -> Seq<char> {
    "maximum nesting depth exceeded (1000)"@
}

pub open spec fn msg_unexpected_end() -> Seq<char> {
    "unexpected end of input"@
}

pub open spec fn msg_unclosed() -> Seq<char> {
    "unclosed delimiter"@
}

/// The atom a token stands for, or the message for a token that cannot
/// start an expression.
pub open spec fn spec_token_atom(t: SpecToken) -> Result<SpecAtom, SpecDiagnostic> {
    match t.kind {
        SpecTokenKind::Integer(v) => Ok(SpecAtom { kind: SpecAtomKind::Integer(v), span: t.span }),
        SpecTokenKind::Float(x) => Ok(SpecAtom { kind: SpecAtomKind::Float(x), span: t.span }),
        SpecTokenKind::Str(x) => Ok(SpecAtom { kind: SpecAtomKind::Str(x), span: t.span }),
        SpecTokenKind::Symbol(x) => Ok(SpecAtom { kind: SpecAtomKind::Symbol(x), span: t.span }),
        SpecTokenKind::Keyword(x) => Ok(SpecAtom { kind: SpecAtomKind::Keyword(x), span: t.span }),
        SpecTokenKind::Bool(b) => Ok(SpecAtom { kind: SpecAtomKind::Bool(b), span: t.span }),
        SpecTokenKind::Nil => Ok(SpecAtom { kind: SpecAtomKind::Nil, span: t.span }),
        SpecTokenKind::Arrow => Ok(SpecAtom { kind: SpecAtomKind::Arrow, span: t.span }),
        SpecTokenKind::Colon => Ok(SpecAtom { kind: SpecAtomKind::Symbol(":"@), span: t.span }),
        SpecTokenKind::LParen => Err(spec_error("unexpected token: LParen"@, t.span)),
        SpecTokenKind::RParen => Err(spec_error("unexpected token: RParen"@, t.span)),
        SpecTokenKind::LBracket => Err(spec_error("unexpected token: LBracket"@, t.span)),
        SpecTokenKind::RBracket => Err(spec_error("unexpected token: RBracket"@, t.span)),
        SpecTokenKind::Comma => Err(spec_error("unexpected token: Comma"@, t.span)),
        SpecTokenKind::Eof => Err(spec_error("unexpected token: Eof"@, t.span)),
    }
}

/// One expression starting at `pos`, at nesting `depth`: the expression and
/// the position after it.
pub open spec fn parse_at(ts: Seq<SpecToken>, pos: int, depth: int) -> Result<(SpecSExpr, int), SpecDiagnostic>
    decreases ts.len() - pos, 1nat,
{
    if depth > MAX_PARSE_DEPTH {
        Err(spec_error(msg_depth(), if 0 <= pos < ts.len() { ts[pos].span } else { dummy_span() }))
    } else if pos < 0 || pos >= ts.len() {
        Err(spec_error(msg_unexpected_end(), dummy_span()))
    } else if ts[pos].kind is LParen {
        parse_items(ts, pos + 1, depth, false, ts[pos].span, Seq::empty())
    } else if ts[pos].kind is LBracket {
        parse_items(ts, pos + 1, depth, true, ts[pos].span, Seq::empty())
    } else {
        match spec_token_atom(ts[pos]) {
            Ok(a) => Ok((SpecSExpr::Atom(a), pos + 1)),
            Err(d) => Err(d),
        }
    }
}

/// The rest of a list whose items so far are `acc`: commas are skipped, the
/// matching close token ends it, running out of tokens (or reaching the end
/// marker) leaves it unclosed.
pub open spec fn parse_items(ts: Seq<SpecToken>, pos: int, depth: int, bracket: bool, start: Span, acc: Seq<SpecSExpr>)
    -> Result<(SpecSExpr, int), SpecDiagnostic>
    decreases ts.len() - pos, 2nat,
{
    if pos < 0 || pos >= ts.len() || ts[pos].kind is Eof {
        Err(spec_error(msg_unclosed(), start))
    } else if ts[pos].kind is Comma {
        parse_items(ts, pos + 1, depth, bracket, start, acc)
    } else if (bracket && ts[pos].kind is RBracket) || (!bracket && ts[pos].kind is RParen) {
        let sp = spec_merge(start, ts[pos].span);
        Ok((if bracket { SpecSExpr::BracketList(acc, sp) } else { SpecSExpr::List(acc, sp) }, pos + 1))
    } else {
        match parse_at(ts, pos, depth + 1) {
            Err(d) => Err(d),
            Ok((e, next)) => if pos < next <= ts.len() {
                parse_items(ts, next, depth, bracket, start, acc.push(e))
            } else {
                Err(spec_error(msg_unclosed(), start))
            },
        }
    }
}

/// All top-level expressions from `pos` on, up to the end marker.
pub open spec fn parse_all_from(ts: Seq<SpecToken>, pos: int, acc: Seq<SpecSExpr>) -> Result<Seq<SpecSExpr>, SpecDiagnostic>
    decreases ts.len() - pos,
{
    if pos < 0 || pos >= ts.len() || ts[pos].kind is Eof {
        Ok(acc)
    } else {
        match parse_at(ts, pos, 0) {
            Err(d) => Err(d),
            Ok((e, next)) => if pos < next <= ts.len() {
                parse_all_from(ts, next, acc.push(e))
            } else {
                Ok(acc)
            },
        }
    }
}

/// An expression read from `pos` ends after `pos`.
pub proof fn lemma_parse_advances(ts: Seq<SpecToken>, pos: int, depth: int)
    ensures
        parse_at(ts, pos, depth) matches Ok((_, next)) ==> pos < next <= ts.len(),
    decreases ts.len() - pos, 1nat,
{
    if depth <= MAX_PARSE_DEPTH && 0 <= pos < ts.len() {
        if ts[pos].kind is LParen || ts[pos].kind is LBracket {
            lemma_items_advance(ts, pos + 1, depth, ts[pos].kind is LBracket, ts[pos].span, Seq::empty());
        }
    }
}

pub proof fn lemma_items_advance(ts: Seq<SpecToken>, pos: int, depth: int, bracket: bool, start: Span, acc: Seq<SpecSExpr>)
    ensures
        parse_items(ts, pos, depth, bracket, start, acc) matches Ok((_, next)) ==> pos < next <= ts.len(),
    decreases ts.len() - pos, 2nat,
{
    if 0 <= pos < ts.len() && !(ts[pos].kind is Eof) {
        if ts[pos].kind is Comma {
            lemma_items_advance(ts, pos + 1, depth, bracket, start, acc);
        } else if (bracket && ts[pos].kind is RBracket) || (!bracket && ts[pos].kind is RParen) {
        } else {
            lemma_parse_advances(ts, pos, depth + 1);
            match parse_at(ts, pos, depth + 1) {
                Ok((e, next)) => {
                    if pos < next <= ts.len() {
                        lemma_items_advance(ts, next, depth, bracket, start, acc.push(e));
                    }
                },
                Err(_) => {},
            }
        }
    }
}


// ── The reader ──────────────────────────────────────────────────────

pub open spec fn parse_result_agrees(r: Result<(SExpr, usize), Diagnostic>, s: Result<(SpecSExpr, int), SpecDiagnostic>) -> bool {
    match s {
        Ok((e, n)) => r matches Ok((x, m)) && x@ == e && m == n,
        Err(d) => r matches Err(x) && x@ == d,
    }
}

fn token_to_atom(t: &Token) -> (r: Result<Atom, Diagnostic>)
    ensures
        match spec_token_atom(t@) {
            Ok(a) => r matches Ok(x) && a == (SpecAtom { kind: atom_kind_view(x.kind), span: x.span }),
            Err(d) => r matches Err(x) && x@ == d,
        },
{
    let span = t.span;
    let kind = match &t.kind {
        TokenKind::Integer(v) => AtomKind::Integer(*v),
        TokenKind::Float(x) => AtomKind::Float(x.clone()),
        TokenKind::Str(x) => AtomKind::Str(x.clone()),
        TokenKind::Symbol(x) => AtomKind::Symbol(x.clone()),
        TokenKind::Keyword(x) => AtomKind::Keyword(x.clone()),
        TokenKind::Bool(b) => AtomKind::Bool(*b),
        TokenKind::Nil => AtomKind::Nil,
        TokenKind::Arrow => AtomKind::Arrow,
        TokenKind::Colon => AtomKind::Symbol(String::from_str(":")),
        TokenKind::LParen => {
            return Err(Diagnostic::error_str("unexpected token: LParen", span));
        },
        TokenKind::RParen => {
            return Err(Diagnostic::error_str("unexpected token: RParen", span));
        },
        TokenKind::LBracket => {
            return Err(Diagnostic::error_str("unexpected token: LBracket", span));
        },
        TokenKind::RBracket => {
            return Err(Diagnostic::error_str("unexpected token: RBracket", span));
        },
        TokenKind::Comma => {
            return Err(Diagnostic::error_str("unexpected token: Comma", span));
        },
        TokenKind::Eof => {
            return Err(Diagnostic::error_str("unexpected token: Eof", span));
        },
    };
    Ok(Atom { kind, span })
}

fn parse_sexpr(ts: &Vec<Token>, pos: usize, depth: usize) -> (r: Result<(SExpr, usize), Diagnostic>)
    ensures
        parse_result_agrees(r, parse_at(tokens_view(ts@), pos as int, depth as int)),
    decreases ts@.len() - pos, 1nat,
{
    let ghost tv = tokens_view(ts@);
    if depth > MAX_PARSE_DEPTH {
        let span = if pos < ts.len() { ts[pos].span } else { Span::dummy() };
        return Err(Diagnostic::error_str("maximum nesting depth exceeded (1000)", span));
    }
    if pos >= ts.len() {
        return Err(Diagnostic::error_str("unexpected end of input", Span::dummy()));
    }
    match &ts[pos].kind {
        TokenKind::LParen => parse_list(ts, pos + 1, depth, false, ts[pos].span),
        TokenKind::LBracket => parse_list(ts, pos + 1, depth, true, ts[pos].span),
        _ => {
            let atom = token_to_atom(&ts[pos])?;
            Ok((SExpr::Atom(atom), pos + 1))
        },
    }
}

fn parse_list(ts: &Vec<Token>, pos: usize, depth: usize, bracket: bool, start: Span) -> (r: Result<(SExpr, usize), Diagnostic>)
    requires
        depth <= MAX_PARSE_DEPTH,
    ensures
        parse_result_agrees(r, parse_items(tokens_view(ts@), pos as int, depth as int, bracket, start, Seq::empty())),
    decreases ts@.len() - pos, 2nat,
{
    let ghost tv = tokens_view(ts@);
    let mut items: Vec<SExpr> = Vec::new();
    let mut p = pos;
    assert(sexprs_view(items@) =~= Seq::<SpecSExpr>::empty());
    loop
        invariant
            pos <= p,
            depth <= MAX_PARSE_DEPTH,
            tv == tokens_view(ts@),
            parse_items(tv, pos as int, depth as int, bracket, start, Seq::empty())
                == parse_items(tv, p as int, depth as int, bracket, start, sexprs_view(items@)),
        decreases ts@.len() - p,
    {
        if p >= ts.len() {
            return Err(Diagnostic::error_str("unclosed delimiter", start));
        }
        let is_eof = ts[p].kind.is_eof();
        if is_eof {
            return Err(Diagnostic::error_str("unclosed delimiter", start));
        }
        let is_comma = match &ts[p].kind { TokenKind::Comma => true, _ => false };
        if is_comma {
            p = p + 1;
            continue;
        }
        let is_close = match &ts[p].kind {
            TokenKind::RBracket => bracket,
            TokenKind::RParen => !bracket,
            _ => false,
        };
        if is_close {
            let span = start.merge(ts[p].span);
            let e = if bracket { SExpr::BracketList(items, span) } else { SExpr::List(items, span) };
            return Ok((e, p + 1));
        }
        proof {
            lemma_parse_advances(tv, p as int, depth + 1);
        }
        match parse_sexpr(ts, p, depth + 1) {
            Err(d) => {
                return Err(d);
            },
            Ok((item, next)) => {
                let ghost prev = items@;
                items.push(item);
                assert(items@.drop_last() =~= prev);
                p = next;
            },
        }
    }
}

/// Reads every top-level expression up to the end marker.
pub fn parse_sexpr_all(tokens: Vec<Token>) -> (r: Result<Vec<SExpr>, Diagnostic>)
    ensures
        match parse_all_from(tokens_view(tokens@), 0, Seq::empty()) {
            Ok(es) => r matches Ok(v) && sexprs_view(v@) == es,
            Err(d) => r matches Err(x) && x@ == d,
        },
{
    let ghost tv = tokens_view(tokens@);
    let mut exprs: Vec<SExpr> = Vec::new();
    let mut pos: usize = 0;
    assert(sexprs_view(exprs@) =~= Seq::<SpecSExpr>::empty());
    while pos < tokens.len()
        invariant
            tv == tokens_view(tokens@),
            parse_all_from(tv, 0, Seq::empty()) == parse_all_from(tv, pos as int, sexprs_view(exprs@)),
        decreases tokens@.len() - pos,
    {
        if tokens[pos].kind.is_eof() {
            return Ok(exprs);
        }
        proof {
            lemma_parse_advances(tv, pos as int, 0);
        }
        match parse_sexpr(&tokens, pos, 0) {
            Err(d) => {
                return Err(d);
            },
            Ok((e, next)) => {
                let ghost prev = exprs@;
                exprs.push(e);
                assert(exprs@.drop_last() =~= prev);
                pos = next;
            },
        }
    }
    Ok(exprs)
}

} // verus!
