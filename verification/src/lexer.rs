//! Byte-level lexer. The contracts describe the token stream through spec
//! functions over the source bytes; the executable lexer is proved to produce
//! exactly that stream, or the first error it describes.
use vstd::prelude::*;
use crate::span::Span;
use crate::token::{Token, TokenKind, SpecToken, SpecTokenKind};
use crate::diagnostic::{Diagnostic, SpecDiagnostic, spec_error};
use crate::text::{push_char, bytes_as_chars, string_from_bytes};
use vstd::string::StringSliceAdditionalSpecFns;
use vstd::string::StrSliceExecFns;

verus! {

pub const MAX_TOKEN_COUNT: usize = 10_000_000;
pub const MAX_STRING_LENGTH: usize = 10_000_000;
/// Longest source the lexer accepts: line and column numbers are `u32`.
pub const MAX_SOURCE_LEN: usize = 0xFFFF_FF00;

// ── Character classes ───────────────────────────────────────────────

pub open spec fn spec_is_ws(b: u8) -> bool {
    b == 32 || b == 9 || b == 10 || b == 12 || b == 13
}

pub open spec fn spec_is_digit(b: u8) -> bool {
    48 <= b <= 57
}

pub open spec fn spec_is_alpha(b: u8) -> bool {
    (65 <= b <= 90) || (97 <= b <= 122)
}

pub open spec fn spec_is_hex(b: u8) -> bool {
    spec_is_digit(b) || (65 <= b <= 70) || (97 <= b <= 102)
}

pub open spec fn spec_is_bin(b: u8) -> bool {
    b == 48 || b == 49
}

/// `_ + - * / % < > = ! & | ? .` or an ASCII letter.
pub open spec fn spec_symbol_start(b: u8) -> bool {
    spec_is_alpha(b) || b == 95 || b == 43 || b == 45 || b == 42 || b == 47 || b == 37
        || b == 60 || b == 62 || b == 61 || b == 33 || b == 38 || b == 124 || b == 63 || b == 46
}

pub open spec fn spec_symbol_char(b: u8) -> bool {
    spec_symbol_start(b) || spec_is_digit(b) || b == 45 || b == 58
}

pub fn is_symbol_start(ch: u8) -> (b: bool)
    ensures
        b == spec_symbol_start(ch),
{
    (ch >= 65 && ch <= 90) || (ch >= 97 && ch <= 122) || ch == 95 || ch == 43 || ch == 45
        || ch == 42 || ch == 47 || ch == 37 || ch == 60 || ch == 62 || ch == 61 || ch == 33
        || ch == 38 || ch == 124 || ch == 63 || ch == 46
}

pub fn is_symbol_char(ch: u8) -> (b: bool)
    ensures
        b == spec_symbol_char(ch),
{
    is_symbol_start(ch) || (ch >= 48 && ch <= 57) || ch == 45 || ch == 58
}

fn is_digit(ch: u8) -> (b: bool)
    ensures
        b == spec_is_digit(ch),
{
    ch >= 48 && ch <= 57
}

fn is_ws(ch: u8) -> (b: bool)
    ensures
        b == spec_is_ws(ch),
{
    ch == 32 || ch == 9 || ch == 10 || ch == 12 || ch == 13
}

// ── Positions ───────────────────────────────────────────────────────

/// Line (1-based) and column (0-based) reached after reading `pos` bytes.
pub open spec fn line_col(s: Seq<u8>, pos: int) -> (int, int)
    decreases pos,
{
    if pos <= 0 {
        (1, 0)
    } else {
        let (l, c) = line_col(s, pos - 1);
        if s[pos - 1] == 10 {
            (l + 1, 0)
        } else {
            (l, c + 1)
        }
    }
}

pub proof fn lemma_line_col_bounds(s: Seq<u8>, pos: int)
    requires
        pos >= 0,
    ensures
        1 <= line_col(s, pos).0 <= pos + 1,
        0 <= line_col(s, pos).1 <= pos,
    decreases pos,
{
    if pos > 0 {
        lemma_line_col_bounds(s, pos - 1);
    }
}

pub open spec fn span_at(s: Seq<u8>, start: int, end: int) -> Span {
    Span {
        start: start as usize,
        end: end as usize,
        line: line_col(s, start).0 as u32,
        col: line_col(s, start).1 as u32,
    }
}

/// A span whose line and column are those of offset `at`.
pub open spec fn span_with_pos(s: Seq<u8>, start: int, end: int, at: int) -> Span {
    Span {
        start: start as usize,
        end: end as usize,
        line: line_col(s, at).0 as u32,
        col: line_col(s, at).1 as u32,
    }
}

// ── Scanning helpers ────────────────────────────────────────────────

/// Byte classes scanned by the lexer: 16 hex digits, 2 binary digits,
/// 1 anything but a newline, 3 symbol characters, otherwise decimal digits.
pub open spec fn byte_class(kind: u8, b: u8) -> bool {
    if kind == 16 {
        spec_is_hex(b)
    } else if kind == 2 {
        spec_is_bin(b)
    } else if kind == 1 {
        b != 10
    } else if kind == 3 {
        spec_symbol_char(b)
    } else {
        spec_is_digit(b)
    }
}

pub open spec fn class_pred(kind: u8) -> spec_fn(u8) -> bool {
    |b: u8| byte_class(kind, b)
}

/// First index at or after `p` whose byte fails `f` (or the end).
pub open spec fn scan_while(s: Seq<u8>, p: int, f: spec_fn(u8) -> bool) -> int
    decreases s.len() - p,
{
    if p < 0 || p >= s.len() || !f(s[p]) {
        p
    } else {
        scan_while(s, p + 1, f)
    }
}

pub proof fn lemma_scan_while(s: Seq<u8>, p: int, f: spec_fn(u8) -> bool)
    requires
        0 <= p <= s.len(),
    ensures
        p <= scan_while(s, p, f) <= s.len(),
        forall|i: int| p <= i < scan_while(s, p, f) ==> f(#[trigger] s[i]),
        scan_while(s, p, f) < s.len() ==> !f(s[scan_while(s, p, f)]),
    decreases s.len() - p,
{
    if p < s.len() && f(s[p]) {
        lemma_scan_while(s, p + 1, f);
    }
}

/// End of a `;` comment body: the next newline or the end of input.
pub open spec fn line_end(s: Seq<u8>, p: int) -> int {
    scan_while(s, p, class_pred(1))
}

/// End of a block comment body opened at nesting `depth`, or `None` when
/// the input ends first.
pub open spec fn block_end(s: Seq<u8>, p: int, depth: nat) -> Option<int>
    decreases s.len() - p,
{
    if depth == 0 {
        Some(p)
    } else if p < 0 || p >= s.len() {
        None
    } else if p + 1 < s.len() && s[p] == 35 && s[p + 1] == 124 {
        block_end(s, p + 2, depth + 1)
    } else if p + 1 < s.len() && s[p] == 124 && s[p + 1] == 35 {
        block_end(s, p + 2, (depth - 1) as nat)
    } else {
        block_end(s, p + 1, depth)
    }
}

/// Skips whitespace, `;` line comments and nested `#| ... |#` block
/// comments. `Err(start)` reports an unterminated block comment opened at
/// `start`.
pub open spec fn skip_ws(s: Seq<u8>, p: int) -> Result<int, int>
    decreases s.len() - p,
{
    if p < 0 || p >= s.len() {
        Ok(p)
    } else if spec_is_ws(s[p]) {
        skip_ws(s, p + 1)
    } else if s[p] == 59 {
        let e = line_end(s, p + 1);
        if p < e <= s.len() { skip_ws(s, e) } else { Ok(p) }
    } else if p + 1 < s.len() && s[p] == 35 && s[p + 1] == 124 {
        match block_end(s, p + 2, 1) {
            Some(e) => if p < e <= s.len() { skip_ws(s, e) } else { Ok(p) },
            None => Err(p),
        }
    } else {
        Ok(p)
    }
}

// ── Numbers ─────────────────────────────────────────────────────────

pub open spec fn digit_value(b: u8) -> nat {
    if 48 <= b <= 57 {
        (b - 48) as nat
    } else if 65 <= b <= 70 {
        (b - 55) as nat
    } else {
        (b - 87) as nat
    }
}

/// Digits are worth their face value: `0`-`9` are 0-9, and `a`-`f` and
/// `A`-`F` alike are 10-15, so a lowercase hex digit is worth what the same
/// uppercase digit is.
pub proof fn law_digit_values(k: u8)
    ensures
        k < 10 ==> digit_value((48 + k) as u8) == k,
        k < 6 ==> digit_value((97 + k) as u8) == 10 + k,
        k < 6 ==> digit_value((65 + k) as u8) == 10 + k,
        k < 6 ==> digit_value((97 + k) as u8) == digit_value((65 + k) as u8),
{
}

/// Value of a digit string in the given radix (0 for the empty string).
pub open spec fn digits_value(d: Seq<u8>, radix: nat) -> nat
    decreases d.len(),
{
    if d.len() == 0 {
        0
    } else {
        digits_value(d.drop_last(), radix) * radix + digit_value(d.last())
    }
}

/// `i64::from_str_radix` on an unsigned digit string: empty or too large
/// strings fail.
pub open spec fn radix_parse(d: Seq<u8>, radix: nat) -> Option<i64> {
    if d.len() == 0 || digits_value(d, radix) > i64::MAX {
        None
    } else {
        Some(digits_value(d, radix) as i64)
    }
}

/// Decimal `i64` parse of an optionally `-`-prefixed digit string.
pub open spec fn decimal_parse(neg: bool, d: Seq<u8>) -> Option<i64> {
    if d.len() == 0 {
        None
    } else if neg {
        if digits_value(d, 10) > 0x8000_0000_0000_0000 {
            None
        } else {
            Some((-(digits_value(d, 10) as int)) as i64)
        }
    } else {
        radix_parse(d, 10)
    }
}

pub open spec fn msg_invalid_hex() -> Seq<char> { "invalid hex literal"@ }
pub open spec fn msg_invalid_bin() -> Seq<char> { "invalid binary literal"@ }
pub open spec fn msg_invalid_float() -> Seq<char> { "invalid float literal"@ }
pub open spec fn msg_invalid_int() -> Seq<char> { "invalid integer literal"@ }

/// A number token starting at `start` (a digit, or `-` followed by a digit).
/// Returns the token kind and the end offset.
pub open spec fn spec_lex_number(s: Seq<u8>, start: int) -> Result<(SpecTokenKind, int), SpecDiagnostic> {
    let neg = s[start] == 45;
    let p = if neg { start + 1 } else { start };
    if s[p] == 48 && p + 1 < s.len() && (s[p + 1] == 120 || s[p + 1] == 88) {
        let e = scan_while(s, p + 2, class_pred(16));
        match radix_parse(s.subrange(p + 2, e), 16) {
            Some(v) => Ok((SpecTokenKind::Integer(if neg { (-v) as i64 } else { v }), e)),
            None => Err(spec_error(msg_invalid_hex(), span_at(s, start, e))),
        }
    } else if s[p] == 48 && p + 1 < s.len() && (s[p + 1] == 98 || s[p + 1] == 66) {
        let e = scan_while(s, p + 2, class_pred(2));
        match radix_parse(s.subrange(p + 2, e), 2) {
            Some(v) => Ok((SpecTokenKind::Integer(if neg { (-v) as i64 } else { v }), e)),
            None => Err(spec_error(msg_invalid_bin(), span_at(s, start, e))),
        }
    } else {
        let e1 = scan_while(s, p, class_pred(10));
        let has_frac = e1 + 1 < s.len() && s[e1] == 46 && spec_is_digit(s[e1 + 1]);
        let e2 = if has_frac { scan_while(s, e1 + 1, class_pred(10)) } else { e1 };
        let has_exp = e2 < s.len() && (s[e2] == 101 || s[e2] == 69);
        let x = if has_exp && e2 + 1 < s.len() && (s[e2 + 1] == 43 || s[e2 + 1] == 45) {
            e2 + 2
        } else {
            e2 + 1
        };
        let e3 = if has_exp { scan_while(s, x, class_pred(10)) } else { e2 };
        let has_suffix = e3 < s.len() && s[e3] == 102;
        let e4 = if has_suffix { scan_while(s, e3 + 1, class_pred(10)) } else { e3 };
        if has_frac || has_exp || has_suffix {
            // `f64::from_str` accepts this text unless the exponent has no digits.
            if has_exp && e3 == x {
                Err(spec_error(msg_invalid_float(), span_at(s, start, e4)))
            } else {
                Ok((SpecTokenKind::Float(bytes_as_chars(s.subrange(start, e3))), e4))
            }
        } else {
            match decimal_parse(neg, s.subrange(p, e1)) {
                Some(v) => Ok((SpecTokenKind::Integer(v), e1)),
                None => Err(spec_error(msg_invalid_int(), span_at(s, start, e1))),
            }
        }
    }
}

// ── Keywords and symbols ────────────────────────────────────────────

/// End of a symbol starting at `p`: symbol characters, where a `:` is kept
/// only when a symbol-start character follows it.
pub open spec fn symbol_end(s: Seq<u8>, p: int) -> int
    decreases s.len() - p,
{
    if p < 0 || p >= s.len() || !spec_symbol_char(s[p]) {
        p
    } else if s[p] == 58 {
        if p + 1 < s.len() && spec_symbol_start(s[p + 1]) {
            symbol_end(s, p + 1)
        } else {
            p
        }
    } else {
        symbol_end(s, p + 1)
    }
}

/// `true`, `false` and `nil` are literals; any other symbol text is a symbol.
pub open spec fn spec_symbol_kind(t: Seq<u8>) -> SpecTokenKind {
    if t == seq![116u8, 114u8, 117u8, 101u8] {
        SpecTokenKind::Bool(true)
    } else if t == seq![102u8, 97u8, 108u8, 115u8, 101u8] {
        SpecTokenKind::Bool(false)
    } else if t == seq![110u8, 105u8, 108u8] {
        SpecTokenKind::Nil
    } else {
        SpecTokenKind::Symbol(bytes_as_chars(t))
    }
}

// ── Strings ─────────────────────────────────────────────────────────

/// Width a UTF-8 leading byte announces (1 for bytes that cannot lead).
pub open spec fn utf8_width(b: u8) -> int {
    if b & 0xE0 == 0xC0 {
        2
    } else if b & 0xF0 == 0xE0 {
        3
    } else if b & 0xF8 == 0xF0 {
        4
    } else {
        1
    }
}

pub open spec fn escape_char(b: u8) -> Option<char> {
    if b == 110 {
        Some('\n')
    } else if b == 116 {
        Some('\t')
    } else if b == 114 {
        Some('\r')
    } else if b == 92 {
        Some('\\')
    } else if b == 34 {
        Some('"')
    } else if b == 48 {
        Some('\0')
    } else {
        None
    }
}

pub open spec fn hex_digit_upper(d: nat) -> char {
    if d < 10 { ((d + 48) as u8) as char } else { ((d + 55) as u8) as char }
}

pub open spec fn msg_unterminated_string() -> Seq<char> { "unterminated string literal"@ }
pub open spec fn msg_string_too_long() -> Seq<char> { "string literal exceeds maximum length (10000000)"@ }
pub open spec fn msg_unterminated_escape() -> Seq<char> { "unterminated escape sequence"@ }

pub open spec fn msg_unknown_escape(b: u8) -> Seq<char> {
    "unknown escape sequence: \\"@.push(b as char)
}

pub open spec fn msg_invalid_utf8(b: u8) -> Seq<char> {
    "invalid UTF-8 byte: 0x"@.push(hex_digit_upper((b / 16) as nat)).push(hex_digit_upper((b % 16) as nat))
}

/// Body of a string literal opened at `start`, with `p` the next byte to
/// read, `acc` the characters read so far and `nbytes` their UTF-8 length.
pub open spec fn spec_string_body(s: Seq<u8>, start: int, p: int, acc: Seq<char>, nbytes: nat) -> Result<(SpecTokenKind, int), SpecDiagnostic>
    decreases s.len() - p,
{
    if p < 0 || p >= s.len() {
        Err(spec_error(msg_unterminated_string(), span_at(s, start, s.len() as int)))
    } else if nbytes >= MAX_STRING_LENGTH {
        Err(spec_error(msg_string_too_long(), span_at(s, start, p)))
    } else if s[p] == 34 {
        Ok((SpecTokenKind::Str(acc), p + 1))
    } else if s[p] == 92 {
        if p + 1 >= s.len() {
            Err(spec_error(msg_unterminated_escape(), span_at(s, start, p + 1)))
        } else {
            match escape_char(s[p + 1]) {
                Some(c) => spec_string_body(s, start, p + 2, acc.push(c), nbytes + 1),
                None => Err(spec_error(msg_unknown_escape(s[p + 1]), span_with_pos(s, p, p + 2, p + 1))),
            }
        }
    } else if s[p] < 0x80 {
        spec_string_body(s, start, p + 1, acc.push(s[p] as char), nbytes + 1)
    } else {
        let w = utf8_width(s[p]);
        let end = if p + w <= s.len() { p + w } else { s.len() as int };
        let piece = s.subrange(p, end);
        if vstd::utf8::valid_utf8(piece) && vstd::utf8::decode_utf8(piece).len() > 0 && end > p {
            spec_string_body(s, start, end, acc.push(vstd::utf8::decode_utf8(piece)[0]), nbytes + (end - p) as nat)
        } else {
            Err(spec_error(msg_invalid_utf8(s[p]), span_at(s, p, p + 1)))
        }
    }
}

// ── One token ───────────────────────────────────────────────────────

pub open spec fn msg_unexpected_char(b: u8) -> Seq<char> {
    "unexpected character: '"@.push(b as char) + "'"@
}

/// The token starting at `p` (no whitespace before it, `p` in bounds):
/// its kind and end offset, or the error the lexer reports there.
pub open spec fn spec_token_at(s: Seq<u8>, p: int) -> Result<(SpecTokenKind, int), SpecDiagnostic> {
    let ch = s[p];
    if ch == 40 {
        Ok((SpecTokenKind::LParen, p + 1))
    } else if ch == 41 {
        Ok((SpecTokenKind::RParen, p + 1))
    } else if ch == 91 {
        Ok((SpecTokenKind::LBracket, p + 1))
    } else if ch == 93 {
        Ok((SpecTokenKind::RBracket, p + 1))
    } else if ch == 44 {
        Ok((SpecTokenKind::Comma, p + 1))
    } else if ch == 34 {
        spec_string_body(s, p, p + 1, Seq::empty(), 0)
    } else if ch == 58 {
        if p + 1 < s.len() && spec_symbol_char(s[p + 1]) {
            let e = scan_while(s, p + 1, class_pred(3));
            Ok((SpecTokenKind::Keyword(bytes_as_chars(s.subrange(p + 1, e))), e))
        } else {
            Ok((SpecTokenKind::Colon, p + 1))
        }
    } else if ch == 45 && p + 2 < s.len() && s[p + 1] == 62 && s[p + 2] == 62 {
        Ok((SpecTokenKind::Symbol(seq!['-', '>', '>']), p + 3))
    } else if ch == 45 && p + 1 < s.len() && s[p + 1] == 62 {
        Ok((SpecTokenKind::Arrow, p + 2))
    } else if spec_is_digit(ch) || (ch == 45 && p + 1 < s.len() && spec_is_digit(s[p + 1])) {
        spec_lex_number(s, p)
    } else if spec_symbol_start(ch) {
        let e = symbol_end(s, p);
        Ok((spec_symbol_kind(s.subrange(p, e)), e))
    } else {
        Err(spec_error(msg_unexpected_char(ch), span_at(s, p, p + 1)))
    }
}

pub open spec fn msg_unterminated_block() -> Seq<char> { "unterminated block comment"@ }
pub open spec fn msg_token_limit() -> Seq<char> { "token limit exceeded (10000000)"@ }

/// One step of the lexer from offset `p`: skip blanks and comments, then
/// read a token (or the end-of-input marker). Returns the token and the
/// offset after it.
pub open spec fn spec_next(s: Seq<u8>, p: int) -> Result<(SpecToken, int), SpecDiagnostic> {
    match skip_ws(s, p) {
        Err(st) => Err(spec_error(msg_unterminated_block(), span_at(s, st, s.len() as int))),
        Ok(q) => {
            if q < 0 || q >= s.len() {
                Ok((SpecToken { kind: SpecTokenKind::Eof, span: span_at(s, q, q) }, q))
            } else {
                match spec_token_at(s, q) {
                    Err(d) => Err(d),
                    Ok((k, e)) => Ok((SpecToken { kind: k, span: span_at(s, q, e) }, e)),
                }
            }
        },
    }
}

/// The tokens of `s` from offset `p`, given that `n` tokens were produced
/// before: every token up to and including the end-of-input marker, or the
/// first error.
pub open spec fn spec_lex_from(s: Seq<u8>, p: int, n: nat) -> Result<Seq<SpecToken>, SpecDiagnostic>
    decreases s.len() - p,
{
    match spec_next(s, p) {
        Err(d) => Err(d),
        Ok((tok, e)) => {
            if tok.kind is Eof {
                Ok(seq![tok])
            } else if n + 1 >= MAX_TOKEN_COUNT {
                Err(spec_error(msg_token_limit(), tok.span))
            } else if p < e <= s.len() {
                match spec_lex_from(s, e, n + 1) {
                    Ok(rest) => Ok(seq![tok] + rest),
                    Err(d) => Err(d),
                }
            } else {
                Err(spec_error(Seq::empty(), tok.span))
            }
        },
    }
}

/// All tokens of a source text.
pub open spec fn spec_lex(s: Seq<u8>) -> Result<Seq<SpecToken>, SpecDiagnostic> {
    spec_lex_from(s, 0, 0)
}


pub open spec fn view_tokens(v: Seq<Token>) -> Seq<SpecToken> {
    Seq::new(v.len(), |i: int| v[i]@)
}

/// `Ok(rest)` becomes `Ok(done + rest)`; errors pass through.
pub open spec fn prepend_tokens(done: Seq<SpecToken>, r: Result<Seq<SpecToken>, SpecDiagnostic>) -> Result<Seq<SpecToken>, SpecDiagnostic> {
    match r {
        Ok(rest) => Ok(done + rest),
        Err(d) => Err(d),
    }
}

/// UTF-8 validation of a byte slice (`std::str::from_utf8`): succeeds exactly
/// on valid UTF-8, and the resulting string slice has those bytes.
#[verifier::external_body]
fn str_from_utf8(b: &[u8]) -> (res: Option<&str>)
    ensures
        res is Some <==> vstd::utf8::valid_utf8(b@),
        res matches Some(t) ==> t.spec_bytes() == b@,
{
    std::str::from_utf8(b).ok()
}

fn hex_upper(d: u8) -> (c: char)
    requires
        d < 16,
    ensures
        c == hex_digit_upper(d as nat),
{
    if d < 10 { ((d + 48) as u8) as char } else { ((d + 55) as u8) as char }
}

fn utf8_width_exec(b: u8) -> (w: usize)
    ensures
        w == utf8_width(b),
        1 <= w <= 4,
{
    if b & 0xE0 == 0xC0 {
        2
    } else if b & 0xF0 == 0xE0 {
        3
    } else if b & 0xF8 == 0xF0 {
        4
    } else {
        1
    }
}

pub struct Lexer<'src> {
    source: &'src [u8],
    pos: usize,
    line: u32,
    col: u32,
}

fn digit_value_exec(b: u8) -> (d: u64)
    requires
        spec_is_hex(b),
    ensures
        d == digit_value(b),
        d < 16,
{
    if b >= 48 && b <= 57 {
        (b - 48) as u64
    } else if b >= 65 && b <= 70 {
        (b - 55) as u64
    } else {
        (b - 87) as u64
    }
}

proof fn lemma_digits_step(d: Seq<u8>, a: int, i: int, radix: nat)
    requires
        0 <= a <= i < d.len(),
    ensures
        digits_value(d.subrange(a, i + 1), radix) == digits_value(d.subrange(a, i), radix) * radix + digit_value(d[i]),
{
    assert(d.subrange(a, i + 1).drop_last() =~= d.subrange(a, i));
}

proof fn lemma_grow(v: nat, radix: nat, dg: nat)
    requires
        radix >= 1,
    ensures
        v * radix + dg >= v,
{
    assert(v * radix >= v) by (nonlinear_arith)
        requires
            radix >= 1,
    ;
}

/// Value of the digits `s[a..b]` in `radix`, if it is at most `bound`.
fn parse_magnitude(s: &[u8], a: usize, b: usize, radix: u64, bound: u64) -> (r: Option<u64>)
    requires
        a <= b <= s@.len(),
        radix == 2 || radix == 10 || radix == 16,
        bound <= 0x8000_0000_0000_0000u64,
        forall|i: int| a <= i < b ==> #[trigger] spec_is_hex(s@[i]),
    ensures
        r == if digits_value(s@.subrange(a as int, b as int), radix as nat) <= bound {
            Some(digits_value(s@.subrange(a as int, b as int), radix as nat) as u64)
        } else {
            None::<u64>
        },
{
    let mut v: u64 = 0;
    let mut over = false;
    let mut i = a;
    assert(s@.subrange(a as int, a as int).len() == 0);
    while i < b
        invariant
            a <= i <= b <= s@.len(),
            radix == 2 || radix == 10 || radix == 16,
            bound <= 0x8000_0000_0000_0000u64,
            forall|k: int| a <= k < b ==> #[trigger] spec_is_hex(s@[k]),
            !over ==> v == digits_value(s@.subrange(a as int, i as int), radix as nat) && v <= bound,
            over ==> digits_value(s@.subrange(a as int, i as int), radix as nat) > bound,
        decreases b - i,
    {
        let d = digit_value_exec(s[i]);
        proof {
            lemma_digits_step(s@, a as int, i as int, radix as nat);
            lemma_grow(digits_value(s@.subrange(a as int, i as int), radix as nat), radix as nat, d as nat);
        }
        if !over {
            let nv: u128 = (v as u128) * (radix as u128) + (d as u128);
            if nv > bound as u128 {
                over = true;
            } else {
                v = nv as u64;
            }
        }
        i += 1;
    }
    if over { None } else { Some(v) }
}

fn radix_parse_exec(s: &[u8], a: usize, b: usize, radix: u64) -> (r: Option<i64>)
    requires
        a <= b <= s@.len(),
        radix == 2 || radix == 16,
        forall|i: int| a <= i < b ==> #[trigger] spec_is_hex(s@[i]),
    ensures
        r == radix_parse(s@.subrange(a as int, b as int), radix as nat),
{
    if a == b {
        return None;
    }
    match parse_magnitude(s, a, b, radix, 0x7fff_ffff_ffff_ffffu64) {
        Some(v) => Some(v as i64),
        None => None,
    }
}

fn decimal_parse_exec(s: &[u8], neg: bool, a: usize, b: usize) -> (r: Option<i64>)
    requires
        a <= b <= s@.len(),
        forall|i: int| a <= i < b ==> #[trigger] spec_is_hex(s@[i]),
    ensures
        r == decimal_parse(neg, s@.subrange(a as int, b as int)),
{
    if a == b {
        return None;
    }
    if neg {
        match parse_magnitude(s, a, b, 10, 0x8000_0000_0000_0000u64) {
            Some(v) => {
                if v == 0x8000_0000_0000_0000u64 {
                    Some(i64::MIN)
                } else {
                    Some(-(v as i64))
                }
            },
            None => None,
        }
    } else {
        match parse_magnitude(s, a, b, 10, 0x7fff_ffff_ffff_ffffu64) {
            Some(v) => Some(v as i64),
            None => None,
        }
    }
}

impl<'src> Lexer<'src> {
    /// The lexer's state is consistent: the position is inside the source and
    /// the line and column are those of the position.
    pub closed spec fn wf(&self) -> bool {
        &&& self.pos <= self.source@.len()
        &&& self.source@.len() <= MAX_SOURCE_LEN
        &&& self.line as int == line_col(self.source@, self.pos as int).0
        &&& self.col as int == line_col(self.source@, self.pos as int).1
    }

    pub closed spec fn src(&self) -> Seq<u8> {
        self.source@
    }

    pub closed spec fn position(&self) -> int {
        self.pos as int
    }

    /// A lexer over the UTF-8 bytes of `source`, at the start.
    pub fn new(source: &'src str) -> (l: Lexer<'src>)
        requires
            source.spec_bytes().len() <= MAX_SOURCE_LEN,
        ensures
            l.wf(),
            l.src() == source.spec_bytes(),
            l.position() == 0,
    {
        Lexer { source: source.as_bytes(), pos: 0, line: 1, col: 0 }
    }

    /// A lexer over raw bytes (which need not be valid UTF-8), at the start.
    pub fn from_bytes(source: &'src [u8]) -> (l: Lexer<'src>)
        requires
            source@.len() <= MAX_SOURCE_LEN,
        ensures
            l.wf(),
            l.src() == source@,
            l.position() == 0,
    {
        Lexer { source, pos: 0, line: 1, col: 0 }
    }

    /// Moves one byte forward (no-op at the end), keeping line and column.
    pub fn advance(&mut self)
        requires
            old(self).wf(),
        ensures
            final(self).wf(),
            final(self).src() == old(self).src(),
            final(self).position() == if old(self).position() < old(self).src().len() {
                old(self).position() + 1
            } else {
                old(self).position()
            },
    {
        if self.pos < self.source.len() {
            proof {
                lemma_line_col_bounds(self.source@, self.pos as int);
            }
            if self.source[self.pos] == 10 {
                self.line = self.line + 1;
                self.col = 0;
            } else {
                self.col = self.col + 1;
            }
            self.pos = self.pos + 1;
        }
    }

    fn advance_to(&mut self, target: usize)
        requires
            old(self).wf(),
            old(self).pos <= target <= old(self).source@.len(),
        ensures
            final(self).wf(),
            final(self).source == old(self).source,
            final(self).pos == target,
    {
        while self.pos < target
            invariant
                self.wf(),
                self.source == old(self).source,
                self.pos <= target <= self.source@.len(),
            decreases target - self.pos,
        {
            self.advance();
        }
    }

    /// The byte `offset` positions ahead, if any.
    pub fn peek_at(&self, offset: usize) -> (r: Option<u8>)
        requires
            self.position() + offset <= usize::MAX,
        ensures
            r == if self.position() + offset < self.src().len() {
                Some(self.src()[self.position() + offset])
            } else {
                None::<u8>
            },
    {
        let i = self.pos + offset;
        if i < self.source.len() {
            Some(self.source[i])
        } else {
            None
        }
    }

    /// A span of `len` bytes starting at the current position.
    pub fn current_span(&self, len: usize) -> (sp: Span)
        requires
            self.wf(),
            self.position() + len <= usize::MAX,
        ensures
            sp == span_at(self.src(), self.position(), self.position() + len),
    {
        Span::new(self.pos, self.pos + len, self.line, self.col)
    }

    fn scan_digits(&mut self, kind: u8)
        requires
            old(self).wf(),
        ensures
            final(self).wf(),
            final(self).source == old(self).source,
            final(self).pos == scan_while(old(self).source@, old(self).pos as int, class_pred(kind)),
    {
        let ghost f = class_pred(kind);
        let ghost p0 = self.pos as int;
        loop
            invariant
                self.wf(),
                self.source == old(self).source,
                p0 <= self.pos,
                p0 == old(self).pos,
                f == class_pred(kind),
                scan_while(self.source@, p0, f) == scan_while(self.source@, self.pos as int, f),
            ensures
                self.wf(),
                self.source == old(self).source,
                self.pos == scan_while(self.source@, p0, f),
            decreases self.source@.len() - self.pos,
        {
            if self.pos >= self.source.len() {
                break;
            }
            let b = self.source[self.pos];
            let ok = if kind == 16 {
                is_digit(b) || (b >= 65 && b <= 70) || (b >= 97 && b <= 102)
            } else if kind == 2 {
                b == 48 || b == 49
            } else if kind == 1 {
                b != 10
            } else if kind == 3 {
                is_symbol_char(b)
            } else {
                is_digit(b)
            };
            assert(f(b) == byte_class(kind, b));
            assert(ok == byte_class(kind, b));
            if !ok {
                break;
            }
            assert(scan_while(self.source@, self.pos as int, f) == scan_while(self.source@, self.pos + 1, f));
            self.advance();
        }
    }
}



impl<'src> Lexer<'src> {
    /// Skips blanks, `;` comments and nested block comments.
    pub fn skip_whitespace_and_comments(&mut self) -> (r: Result<(), Diagnostic>)
        requires
            old(self).wf(),
        ensures
            final(self).wf(),
            final(self).src() == old(self).src(),
            final(self).position() >= old(self).position(),
            match skip_ws(old(self).src(), old(self).position()) {
                Ok(q) => r is Ok && final(self).position() == q,
                Err(st) => r matches Err(d) && d@ == spec_error(
                    msg_unterminated_block(),
                    span_at(old(self).src(), st, old(self).src().len() as int),
                ),
            },
    {
        let ghost s = self.source@;
        let ghost p0 = self.pos as int;
        loop
            invariant
                self.wf(),
                self.source@ == s,
                s == old(self).source@,
                p0 == old(self).pos,
                p0 <= self.pos,
                skip_ws(s, p0) == skip_ws(s, self.pos as int),
            decreases s.len() - self.pos,
        {
            if self.pos >= self.source.len() {
                return Ok(());
            }
            let b = self.source[self.pos];
            if is_ws(b) {
                self.advance();
                continue;
            }
            if b == 59 {
                let ghost p = self.pos as int;
                self.advance();
                self.scan_digits(1);
                proof {
                    lemma_scan_while(s, p + 1, class_pred(1));
                }
                continue;
            }
            if self.pos + 1 < self.source.len() && b == 35 && self.source[self.pos + 1] == 124 {
                let start = self.pos;
                let start_line = self.line;
                let start_col = self.col;
                self.advance();
                self.advance();
                let mut depth: u32 = 1;
                while self.pos < self.source.len() && depth > 0
                    invariant
                        self.wf(),
                        self.source@ == s,
                        start + 2 <= self.pos,
                        depth <= self.pos,
                        block_end(s, start + 2, 1) == block_end(s, self.pos as int, depth as nat),
                    decreases s.len() - self.pos,
                {
                    if self.pos + 1 < self.source.len() && self.source[self.pos] == 35
                        && self.source[self.pos + 1] == 124 {
                        depth = depth + 1;
                        self.advance();
                        self.advance();
                    } else if self.pos + 1 < self.source.len() && self.source[self.pos] == 124
                        && self.source[self.pos + 1] == 35 {
                        depth = depth - 1;
                        self.advance();
                        self.advance();
                    } else {
                        self.advance();
                    }
                }
                if depth > 0 {
                    assert(block_end(s, self.pos as int, depth as nat) is None);
                    return Err(Diagnostic::error_str(
                        "unterminated block comment",
                        Span::new(start, self.pos, start_line, start_col),
                    ));
                }
                continue;
            }
            return Ok(());
        }
    }
}


impl<'src> Lexer<'src> {
    fn lex_string(&mut self) -> (r: Result<TokenKind, Diagnostic>)
        requires
            old(self).wf(),
            old(self).pos < old(self).source@.len(),
            old(self).source@[old(self).pos as int] == 34,
        ensures
            final(self).wf(),
            final(self).source == old(self).source,
            final(self).pos > old(self).pos,
            match spec_string_body(old(self).source@, old(self).pos as int, old(self).pos + 1, Seq::empty(), 0) {
                Ok((k, e)) => r matches Ok(t) && t@ == k && final(self).pos == e,
                Err(d) => r matches Err(x) && x@ == d,
            },
    {
        let ghost s = self.source@;
        let start = self.pos;
        let start_line = self.line;
        let start_col = self.col;
        self.advance();
        let mut value = String::new();
        let mut nbytes: usize = 0;
        loop
            invariant
                self.wf(),
                self.source@ == s,
                s == old(self).source@,
                start == old(self).pos,
                start < self.pos <= s.len(),
                start_line as int == line_col(s, start as int).0,
                start_col as int == line_col(s, start as int).1,
                nbytes <= MAX_STRING_LENGTH + 4,
                spec_string_body(s, start as int, start + 1, Seq::empty(), 0)
                    == spec_string_body(s, start as int, self.pos as int, value@, nbytes as nat),
            decreases s.len() - self.pos,
        {
            if self.pos >= self.source.len() {
                return Err(Diagnostic::error_str(
                    "unterminated string literal",
                    Span::new(start, self.pos, start_line, start_col),
                ));
            }
            if nbytes >= MAX_STRING_LENGTH {
                return Err(Diagnostic::error_str(
                    "string literal exceeds maximum length (10000000)",
                    Span::new(start, self.pos, start_line, start_col),
                ));
            }
            let b = self.source[self.pos];
            if b == 34 {
                self.advance();
                return Ok(TokenKind::Str(value));
            }
            if b == 92 {
                self.advance();
                if self.pos >= self.source.len() {
                    return Err(Diagnostic::error_str(
                        "unterminated escape sequence",
                        Span::new(start, self.pos, start_line, start_col),
                    ));
                }
                let e = self.source[self.pos];
                let c: char = if e == 110 {
                    '\n'
                } else if e == 116 {
                    '\t'
                } else if e == 114 {
                    '\r'
                } else if e == 92 {
                    '\\'
                } else if e == 34 {
                    '"'
                } else if e == 48 {
                    '\0'
                } else {
                    let mut msg = String::from_str("unknown escape sequence: \\");
                    push_char(&mut msg, e as char);
                    return Err(Diagnostic::error(msg, Span::new(self.pos - 1, self.pos + 1, self.line, self.col)));
                };
                push_char(&mut value, c);
                self.advance();
                nbytes = nbytes + 1;
                continue;
            }
            if b < 0x80 {
                push_char(&mut value, b as char);
                self.advance();
                nbytes = nbytes + 1;
                continue;
            }
            let w = utf8_width_exec(b);
            let end = if self.pos + w <= self.source.len() { self.pos + w } else { self.source.len() };
            let piece = vstd::slice::slice_subrange(self.source, self.pos, end);
            match str_from_utf8(piece) {
                Some(t) => {
                    proof {
                        vstd::utf8::encode_utf8_decode_utf8(t@);
                    }
                    if t.is_empty() {
                        let mut msg = String::from_str("invalid UTF-8 byte: 0x");
                        push_char(&mut msg, hex_upper(b / 16));
                        push_char(&mut msg, hex_upper(b % 16));
                        return Err(Diagnostic::error(msg, Span::new(self.pos, self.pos + 1, self.line, self.col)));
                    }
                    let ch = t.get_char(0);
                    push_char(&mut value, ch);
                    let consumed = end - self.pos;
                    self.advance_to(end);
                    nbytes = nbytes + consumed;
                },
                None => {
                    let mut msg = String::from_str("invalid UTF-8 byte: 0x");
                    push_char(&mut msg, hex_upper(b / 16));
                    push_char(&mut msg, hex_upper(b % 16));
                    return Err(Diagnostic::error(msg, Span::new(self.pos, self.pos + 1, self.line, self.col)));
                },
            }
        }
    }
}


impl<'src> Lexer<'src> {
    #[verifier::rlimit(60)]
    fn lex_number(&mut self) -> (r: Result<TokenKind, Diagnostic>)
        requires
            old(self).wf(),
            old(self).pos < old(self).source@.len(),
            spec_is_digit(old(self).source@[old(self).pos as int]) || (old(self).source@[old(self).pos as int] == 45
                && old(self).pos + 1 < old(self).source@.len() && spec_is_digit(old(self).source@[old(self).pos + 1])),
        ensures
            final(self).wf(),
            final(self).source == old(self).source,
            final(self).pos > old(self).pos,
            match spec_lex_number(old(self).source@, old(self).pos as int) {
                Ok((k, e)) => r matches Ok(t) && t@ == k && final(self).pos == e,
                Err(d) => r matches Err(x) && x@ == d,
            },
    {
        let ghost s = self.source@;
        let start = self.pos;
        let start_line = self.line;
        let start_col = self.col;
        let neg = self.source[self.pos] == 45;
        if neg {
            self.advance();
        }
        let p = self.pos;
        if self.source[p] == 48 && p + 1 < self.source.len() && (self.source[p + 1] == 120
            || self.source[p + 1] == 88) {
            self.advance();
            self.advance();
            let q = self.pos;
            self.scan_digits(16);
            let e = self.pos;
            proof {
                lemma_scan_while(s, q as int, class_pred(16));
            }
            match radix_parse_exec(self.source, q, e, 16) {
                Some(v) => {
                    return Ok(TokenKind::Integer(if neg { -v } else { v }));
                },
                None => {
                    return Err(Diagnostic::error_str("invalid hex literal", Span::new(start, e, start_line, start_col)));
                },
            }
        }
        if self.source[p] == 48 && p + 1 < self.source.len() && (self.source[p + 1] == 98
            || self.source[p + 1] == 66) {
            self.advance();
            self.advance();
            let q = self.pos;
            self.scan_digits(2);
            let e = self.pos;
            proof {
                lemma_scan_while(s, q as int, class_pred(2));
            }
            match radix_parse_exec(self.source, q, e, 2) {
                Some(v) => {
                    return Ok(TokenKind::Integer(if neg { -v } else { v }));
                },
                None => {
                    return Err(Diagnostic::error_str("invalid binary literal", Span::new(start, e, start_line, start_col)));
                },
            }
        }
        self.scan_digits(10);
        let e1 = self.pos;
        proof {
            lemma_scan_while(s, p as int, class_pred(10));
        }
        let has_frac = self.pos + 1 < self.source.len() && self.source[self.pos] == 46 && is_digit(
            self.source[self.pos + 1],
        );
        if has_frac {
            self.advance();
            self.scan_digits(10);
            proof {
                lemma_scan_while(s, e1 + 1, class_pred(10));
            }
        }
        let e2 = self.pos;
        let has_exp = self.pos < self.source.len() && (self.source[self.pos] == 101 || self.source[self.pos] == 69);
        let mut x = self.pos;
        if has_exp {
            self.advance();
            if self.pos < self.source.len() && (self.source[self.pos] == 43 || self.source[self.pos] == 45) {
                self.advance();
            }
            x = self.pos;
            self.scan_digits(10);
            proof {
                lemma_scan_while(s, x as int, class_pred(10));
            }
        }
        let e3 = self.pos;
        let has_suffix = self.pos < self.source.len() && self.source[self.pos] == 102;
        if has_suffix {
            self.advance();
            self.scan_digits(10);
            proof {
                lemma_scan_while(s, e3 + 1, class_pred(10));
            }
        }
        let e4 = self.pos;
        if has_frac || has_exp || has_suffix {
            if has_exp && e3 == x {
                return Err(Diagnostic::error_str("invalid float literal", Span::new(start, e4, start_line, start_col)));
            }
            return Ok(TokenKind::Float(string_from_bytes(self.source, start, e3)));
        }
        match decimal_parse_exec(self.source, neg, p, e1) {
            Some(v) => Ok(TokenKind::Integer(v)),
            None => Err(Diagnostic::error_str("invalid integer literal", Span::new(start, e1, start_line, start_col))),
        }
    }

    fn lex_keyword_or_colon(&mut self) -> (k: TokenKind)
        requires
            old(self).wf(),
            old(self).pos < old(self).source@.len(),
            old(self).source@[old(self).pos as int] == 58,
        ensures
            final(self).wf(),
            final(self).source == old(self).source,
            spec_token_at(old(self).source@, old(self).pos as int) == Ok::<(SpecTokenKind, int), SpecDiagnostic>((k@, final(self).pos as int)),
            final(self).pos > old(self).pos,
    {
        let ghost s = self.source@;
        self.advance();
        if self.pos < self.source.len() && is_symbol_char(self.source[self.pos]) {
            let start = self.pos;
            self.scan_digits(3);
            proof {
                lemma_scan_while(s, start as int, class_pred(3));
            }
            TokenKind::Keyword(string_from_bytes(self.source, start, self.pos))
        } else {
            TokenKind::Colon
        }
    }

    fn lex_symbol(&mut self) -> (k: TokenKind)
        requires
            old(self).wf(),
            old(self).pos < old(self).source@.len(),
            spec_symbol_start(old(self).source@[old(self).pos as int]),
        ensures
            final(self).wf(),
            final(self).source == old(self).source,
            final(self).pos == symbol_end(old(self).source@, old(self).pos as int),
            final(self).pos > old(self).pos,
            k@ == spec_symbol_kind(old(self).source@.subrange(old(self).pos as int, final(self).pos as int)),
    {
        let ghost s = self.source@;
        let start = self.pos;
        loop
            invariant
                self.wf(),
                self.source@ == s,
                s == old(self).source@,
                start == old(self).pos,
                start <= self.pos,
                start < s.len(),
                symbol_end(s, start as int) == symbol_end(s, self.pos as int),
                self.pos == start ==> spec_symbol_start(s[start as int]),
            ensures
                self.wf(),
                self.source@ == s,
                start < self.pos,
                self.pos == symbol_end(s, start as int),
            decreases s.len() - self.pos,
        {
            if self.pos >= self.source.len() {
                break;
            }
            let b = self.source[self.pos];
            if !is_symbol_char(b) {
                break;
            }
            if b == 58 {
                if self.pos + 1 < self.source.len() && is_symbol_start(self.source[self.pos + 1]) {
                    self.advance();
                    continue;
                } else {
                    break;
                }
            }
            self.advance();
        }
        let e = self.pos;
        let n = e - start;
        let ghost t = s.subrange(start as int, e as int);
        if n == 4 && self.source[start] == 116 && self.source[start + 1] == 114 && self.source[start + 2] == 117
            && self.source[start + 3] == 101 {
            assert(t =~= seq![116u8, 114u8, 117u8, 101u8]);
            TokenKind::Bool(true)
        } else if n == 5 && self.source[start] == 102 && self.source[start + 1] == 97 && self.source[start + 2] == 108
            && self.source[start + 3] == 115 && self.source[start + 4] == 101 {
            assert(t =~= seq![102u8, 97u8, 108u8, 115u8, 101u8]);
            TokenKind::Bool(false)
        } else if n == 3 && self.source[start] == 110 && self.source[start + 1] == 105 && self.source[start + 2] == 108 {
            assert(t =~= seq![110u8, 105u8, 108u8]);
            TokenKind::Nil
        } else {
            proof {
                if t == seq![116u8, 114u8, 117u8, 101u8] {
                    assert(t[0] == 116 && t[1] == 114 && t[2] == 117 && t[3] == 101);
                }
                if t == seq![102u8, 97u8, 108u8, 115u8, 101u8] {
                    assert(t[0] == 102 && t[1] == 97 && t[2] == 108 && t[3] == 115 && t[4] == 101);
                }
                if t == seq![110u8, 105u8, 108u8] {
                    assert(t[0] == 110 && t[1] == 105 && t[2] == 108);
                }
            }
            TokenKind::Symbol(string_from_bytes(self.source, start, e))
        }
    }
}


impl<'src> Lexer<'src> {
    fn next_token(&mut self) -> (r: Result<Token, Diagnostic>)
        requires
            old(self).wf(),
        ensures
            final(self).wf(),
            final(self).source == old(self).source,
            match spec_next(old(self).source@, old(self).pos as int) {
                Ok((t, e)) => r matches Ok(x) && x@ == t && final(self).pos == e,
                Err(d) => r matches Err(x) && x@ == d,
            },
            r matches Ok(x) && !(x.kind@ is Eof) ==> final(self).pos > old(self).pos,
    {
        let ghost s = self.source@;
        match self.skip_whitespace_and_comments() {
            Ok(()) => {},
            Err(d) => {
                return Err(d);
            },
        }
        if self.pos >= self.source.len() {
            return Ok(Token::new(TokenKind::Eof, self.current_span(0)));
        }
        let start = self.pos;
        let start_line = self.line;
        let start_col = self.col;
        let ch = self.source[self.pos];
        let kind = if ch == 40 {
            self.advance();
            TokenKind::LParen
        } else if ch == 41 {
            self.advance();
            TokenKind::RParen
        } else if ch == 91 {
            self.advance();
            TokenKind::LBracket
        } else if ch == 93 {
            self.advance();
            TokenKind::RBracket
        } else if ch == 44 {
            self.advance();
            TokenKind::Comma
        } else if ch == 34 {
            match self.lex_string() {
                Ok(k) => k,
                Err(d) => {
                    return Err(d);
                },
            }
        } else if ch == 58 {
            self.lex_keyword_or_colon()
        } else if ch == 45 && self.peek_at(1) == Some(62u8) && self.peek_at(2) == Some(62u8) {
            self.advance();
            self.advance();
            self.advance();
            let mut t = String::new();
            push_char(&mut t, '-');
            push_char(&mut t, '>');
            push_char(&mut t, '>');
            assert(t@ =~= seq!['-', '>', '>']);
            TokenKind::Symbol(t)
        } else if ch == 45 && self.peek_at(1) == Some(62u8) {
            self.advance();
            self.advance();
            TokenKind::Arrow
        } else if is_digit(ch) || (ch == 45 && self.pos + 1 < self.source.len() && is_digit(self.source[self.pos + 1])) {
            match self.lex_number() {
                Ok(k) => k,
                Err(d) => {
                    return Err(d);
                },
            }
        } else if is_symbol_start(ch) {
            self.lex_symbol()
        } else {
            let mut msg = String::from_str("unexpected character: '");
            push_char(&mut msg, ch as char);
            msg.append("'");
            return Err(Diagnostic::error(msg, Span::new(start, start + 1, start_line, start_col)));
        };
        Ok(Token::new(kind, Span::new(start, self.pos, start_line, start_col)))
    }

    /// Lexes the rest of the input: every token through the end-of-input
    /// marker, or the first error.
    pub fn lex_all(&mut self) -> (r: Result<Vec<Token>, Diagnostic>)
        requires
            old(self).wf(),
        ensures
            match spec_lex_from(old(self).src(), old(self).position(), 0) {
                Ok(ts) => r matches Ok(v) && view_tokens(v@) == ts,
                Err(d) => r matches Err(x) && x@ == d,
            },
    {
        let ghost s = self.source@;
        let ghost p0 = self.pos as int;
        let mut tokens: Vec<Token> = Vec::new();
        assert(view_tokens(tokens@) =~= Seq::<SpecToken>::empty());
        loop
            invariant
                self.wf(),
                self.source@ == s,
                s == old(self).source@,
                p0 == old(self).pos,
                tokens@.len() < MAX_TOKEN_COUNT,
                spec_lex_from(s, p0, 0) == prepend_tokens(
                    view_tokens(tokens@),
                    spec_lex_from(s, self.pos as int, tokens@.len() as nat),
                ),
            decreases s.len() - self.pos,
        {
            let ghost p = self.pos as int;
            let ghost n = tokens@.len() as nat;
            let tok = match self.next_token() {
                Ok(t) => t,
                Err(d) => {
                    return Err(d);
                },
            };
            let ghost tv = tok@;
            let ghost done = view_tokens(tokens@);
            assert(view_tokens(tokens@.push(tok)) =~= view_tokens(tokens@).push(tv));
            if tok.kind.is_eof() {
                tokens.push(tok);
                assert(view_tokens(tokens@) =~= done + seq![tv]);
                return Ok(tokens);
            }
            let tok_span = tok.span;
            tokens.push(tok);
            if tokens.len() >= MAX_TOKEN_COUNT {
                return Err(Diagnostic::error_str("token limit exceeded (10000000)", tok_span));
            }
            proof {
                assert(spec_next(s, p) == Ok::<(SpecToken, int), SpecDiagnostic>((tv, self.pos as int)));
                assert(p < self.pos <= s.len());
                assert(spec_lex_from(s, p, n) == prepend_tokens(seq![tv], spec_lex_from(s, self.pos as int, (n + 1) as nat)));
                assert(view_tokens(tokens@) =~= done.push(tv));
                match spec_lex_from(s, self.pos as int, (n + 1) as nat) {
                    Ok(rest) => {
                        assert(done + (seq![tv] + rest) =~= view_tokens(tokens@) + rest);
                    },
                    Err(_) => {},
                }
            }
        }
    }
}

} // verus!
