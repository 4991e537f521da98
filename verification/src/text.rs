//! Small string utilities shared by the lexer, the parser and the caches.
use vstd::prelude::*;
use vstd::std_specs::iter::IteratorSpec;

verus! {

/// Appends one character to a string (`String::push`): the string's characters
/// become the old ones followed by `c`.
#[verifier::external_body]
pub fn push_char(s: &mut String, c: char)
    ensures
        final(s)@ == old(s)@.push(c),
{
    s.push(c);
}

/// String-slice equality (`<str as PartialEq>::eq`): true exactly when both
/// slices hold the same characters.
#[verifier::external_body]
pub fn str_eq(a: &str, b: &str) -> (res: bool)
    ensures
        res == (a@ == b@),
{
    a == b
}

/// The characters of a byte range read as Latin-1 / ASCII (each byte one char).
pub open spec fn bytes_as_chars(s: Seq<u8>) -> Seq<char> {
    Seq::new(s.len(), |i: int| s[i] as char)
}

/// A decimal digit character for `d < 10`.
pub open spec fn digit_char(d: nat) -> char {
    ((d + 48) as u8) as char
}

/// Decimal rendering of a natural number, most significant digit first.
pub open spec fn decimal(n: nat) -> Seq<char>
    decreases n,
{
    if n < 10 {
        seq![digit_char(n)]
    } else {
        decimal(n / 10).push(digit_char(n % 10))
    }
}

/// Decimal rendering of a signed integer as Rust's `Display` writes it.
pub open spec fn decimal_int(n: int) -> Seq<char> {
    if n < 0 {
        seq!['-'] + decimal((-n) as nat)
    } else {
        decimal(n as nat)
    }
}

/// Decimal renderings are never empty.
pub proof fn lemma_decimal_nonempty(n: nat)
    ensures
        decimal(n).len() >= 1,
        n >= 10 ==> decimal(n).len() >= 2,
    decreases n,
{
    if n >= 10 {
        lemma_decimal_nonempty(n / 10);
    }
}

/// Different numbers have different decimal renderings.
pub proof fn lemma_decimal_injective(a: nat, b: nat)
    ensures
        decimal(a) == decimal(b) ==> a == b,
    decreases a,
{
    if decimal(a) == decimal(b) {
        lemma_decimal_nonempty(a);
        lemma_decimal_nonempty(b);
        if a < 10 && b < 10 {
            assert(decimal(a)[0] == digit_char(a));
            assert(decimal(b)[0] == digit_char(b));
        } else if a >= 10 && b >= 10 {
            assert(decimal(a).last() == digit_char(a % 10));
            assert(decimal(b).last() == digit_char(b % 10));
            assert(decimal(a).drop_last() =~= decimal(a / 10));
            assert(decimal(b).drop_last() =~= decimal(b / 10));
            lemma_decimal_injective(a / 10, b / 10);
        } else if a < 10 {
            assert(decimal(a).len() == 1);
        } else {
            assert(decimal(b).len() == 1);
        }
    }
}

fn digit_to_char(d: u64) -> (c: char)
    requires
        d < 10,
    ensures
        c == digit_char(d as nat),
{
    let b: u8 = (d as u8) + 48;
    b as char
}

/// Renders an unsigned number in decimal.
pub fn u64_to_string(n: u64) -> (s: String)
    ensures
        s@ == decimal(n as nat),
    decreases n,
{
    if n < 10 {
        let mut s = String::new();
        push_char(&mut s, digit_to_char(n));
        s
    } else {
        let mut s = u64_to_string(n / 10);
        push_char(&mut s, digit_to_char(n % 10));
        s
    }
}

/// Renders a signed number in decimal, with a leading `-` when negative.
pub fn i64_to_string(n: i64) -> (s: String)
    ensures
        s@ == decimal_int(n as int),
{
    if n < 0 {
        let mag: u64 = if n == i64::MIN {
            9223372036854775808u64
        } else {
            (-n) as u64
        };
        let mut s = String::new();
        push_char(&mut s, '-');
        let t = u64_to_string(mag);
        s.append(t.as_str());
        s
    } else {
        u64_to_string(n as u64)
    }
}

/// Builds a string from a byte slice, one character per byte.
pub fn string_from_bytes(b: &[u8], start: usize, end: usize) -> (s: String)
    requires
        start <= end <= b@.len(),
    ensures
        s@ == bytes_as_chars(b@.subrange(start as int, end as int)),
{
    let mut s = String::new();
    let mut i = start;
    while i < end
        invariant
            start <= i <= end <= b@.len(),
            s@ == bytes_as_chars(b@.subrange(start as int, i as int)),
        decreases end - i,
    {
        push_char(&mut s, b[i] as char);
        i += 1;
        assert(bytes_as_chars(b@.subrange(start as int, i as int)) =~= bytes_as_chars(
            b@.subrange(start as int, (i - 1) as int),
        ).push(b@[i - 1] as char));
    }
    s
}

/// The characters of a string slice, in order.
pub fn str_chars(s: &str) -> (v: Vec<char>)
    ensures
        v@ == s@,
{
    broadcast use vstd::string::group_string_axioms, vstd::string::next_postcondition;

    let mut it = s.chars();
    let mut v: Vec<char> = Vec::new();
    assert(v@ + it.remaining() =~= s@);
    loop
        invariant
            v@ + it.remaining() == s@,
            it.obeys_prophetic_iter_laws(),
        decreases s@.len() - v@.len(),
    {
        let ghost before = it.remaining();
        match it.next() {
            Some(c) => {
                assert(v@.push(c) + it.remaining() =~= v@ + before);
                v.push(c);
            },
            None => {
                assert(v@ =~= s@);
                return v;
            },
        }
    }
}

/// A string holding exactly the given characters.
pub fn string_from_chars(c: &[char], start: usize, end: usize) -> (s: String)
    requires
        start <= end <= c@.len(),
    ensures
        s@ == c@.subrange(start as int, end as int),
{
    let mut s = String::new();
    let mut i = start;
    while i < end
        invariant
            start <= i <= end <= c@.len(),
            s@ == c@.subrange(start as int, i as int),
        decreases end - i,
    {
        push_char(&mut s, c[i]);
        i += 1;
        assert(c@.subrange(start as int, i as int) =~= c@.subrange(start as int, (i - 1) as int).push(c@[i - 1]));
    }
    s
}

/// String equality on owned strings: same characters.
pub fn string_eq(a: &String, b: &String) -> (r: bool)
    ensures
        r == (a@ == b@),
{
    str_eq(a.as_str(), b.as_str())
}


/// `c` is an ASCII decimal digit.
pub open spec fn is_digit(c: char) -> bool {
    '0' <= c && c <= '9'
}

pub open spec fn all_digits(s: Seq<char>) -> bool {
    forall|i: int| 0 <= i < s.len() ==> #[trigger] is_digit(s[i])
}

/// The number written by a run of decimal digits.
pub open spec fn digits_value(s: Seq<char>) -> nat
    decreases s.len(),
{
    if s.len() == 0 {
        0
    } else {
        digits_value(s.drop_last()) * 10 + ((s.last() as int - '0' as int) as nat)
    }
}

/// `u32::from_str`: an optional `+`, then one or more decimal digits whose
/// value fits in 32 bits; anything else is refused.
pub open spec fn spec_parse_u32(s: Seq<char>) -> Option<u32> {
    let body = if s.len() > 0 && s[0] == '+' { s.subrange(1, s.len() as int) } else { s };
    if body.len() > 0 && all_digits(body) && digits_value(body) <= u32::MAX {
        Some(digits_value(body) as u32)
    } else {
        None
    }
}

/// Digit values only grow as digits are appended.
pub proof fn lemma_digits_value_prefix(s: Seq<char>, k: int)
    requires
        0 <= k <= s.len(),
        all_digits(s),
    ensures
        digits_value(s.take(k)) <= digits_value(s),
    decreases s.len() - k,
{
    if k < s.len() {
        lemma_digits_value_prefix(s, k + 1);
        assert(s.take(k + 1).drop_last() =~= s.take(k));
        assert(is_digit(s[k]));
    } else {
        assert(s.take(k) =~= s);
    }
}

/// Parses `c[start..end]` as `u32::from_str` does.
#[verifier::loop_isolation(false)]
pub fn parse_u32(c: &Vec<char>, start: usize, end: usize) -> (r: Option<u32>)
    requires
        start <= end <= c@.len(),
    ensures
        r == spec_parse_u32(c@.subrange(start as int, end as int)),
{
    let ghost s = c@.subrange(start as int, end as int);
    let mut i = start;
    if i < end && c[i] == '+' {
        i += 1;
    }
    let ghost body = c@.subrange(i as int, end as int);
    assert(body =~= (if s.len() > 0 && s[0] == '+' { s.subrange(1, s.len() as int) } else { s }));
    if i == end {
        return None;
    }
    let first = i;
    let mut acc: u64 = 0;
    assert(body.take(0) =~= Seq::<char>::empty());
    while i < end
        invariant
            first <= i <= end <= c@.len(),
            body == c@.subrange(first as int, end as int),
            all_digits(body.take(i - first)),
            acc == digits_value(body.take(i - first)),
            acc <= u32::MAX,
        decreases end - i,
    {
        let ch = c[i];
        if !('0' <= ch && ch <= '9') {
            assert(!is_digit(body[i - first]));
            return None;
        }
        let d = (ch as u64) - ('0' as u64);
        let next = acc * 10 + d;
        assert(body.take(i - first + 1).drop_last() =~= body.take(i - first));
        if next > 0xffff_ffff {
            proof {
                if all_digits(body) {
                    lemma_digits_value_prefix(body, i - first + 1);
                }
            }
            return None;
        }
        acc = next;
        i += 1;
    }
    assert(body.take(i - first) =~= body);
    Some(acc as u32)
}

/// The pieces of `s` between occurrences of `sep` (`str::split` on a char):
/// always at least one piece.
pub open spec fn split_on(s: Seq<char>, sep: char) -> Seq<Seq<char>>
    decreases s.len(),
{
    if s.len() == 0 {
        seq![Seq::<char>::empty()]
    } else {
        let p = split_on(s.drop_last(), sep);
        if s.last() == sep {
            p.push(Seq::<char>::empty())
        } else {
            p.update(p.len() - 1, p.last().push(s.last()))
        }
    }
}

pub proof fn lemma_split_on_nonempty(s: Seq<char>, sep: char)
    ensures
        split_on(s, sep).len() >= 1,
    decreases s.len(),
{
    if s.len() > 0 {
        lemma_split_on_nonempty(s.drop_last(), sep);
    }
}

/// The pieces of `c` between occurrences of `sep`.
pub fn split_chars(c: &Vec<char>, sep: char) -> (r: Vec<Vec<char>>)
    ensures
        r@.len() == split_on(c@, sep).len(),
        forall|k: int| 0 <= k < r@.len() ==> #[trigger] r@[k]@ == split_on(c@, sep)[k],
{
    let mut parts: Vec<Vec<char>> = Vec::new();
    let mut cur: Vec<char> = Vec::new();
    let mut i: usize = 0;
    assert(c@.take(0) =~= Seq::<char>::empty());
    while i < c.len()
        invariant
            i <= c@.len(),
            parts@.len() + 1 == split_on(c@.take(i as int), sep).len(),
            forall|k: int| 0 <= k < parts@.len() ==> #[trigger] parts@[k]@ == split_on(c@.take(i as int), sep)[k],
            cur@ == split_on(c@.take(i as int), sep).last(),
        decreases c@.len() - i,
    {
        let ch = c[i];
        proof {
            assert(c@.take(i + 1).drop_last() =~= c@.take(i as int));
            lemma_split_on_nonempty(c@.take(i as int), sep);
        }
        if ch == sep {
            parts.push(cur);
            cur = Vec::new();
            assert(cur@ =~= Seq::<char>::empty());
        } else {
            cur.push(ch);
        }
        i += 1;
    }
    assert(c@.take(i as int) =~= c@);
    parts.push(cur);
    parts
}


// ── Lexicographic order ─────────────────────────────────────────────

/// `a` sorts before `b`, comparing from position `i` on: the first differing
/// character decides by code point, and a proper prefix comes first.
pub open spec fn lt_from(a: Seq<char>, b: Seq<char>, i: nat) -> bool
    decreases a.len() - i,
{
    if i >= a.len() {
        i < b.len()
    } else if i >= b.len() {
        false
    } else if a[i as int] != b[i as int] {
        (a[i as int] as int) < (b[i as int] as int)
    } else {
        lt_from(a, b, i + 1)
    }
}

/// The order `str` has: lexicographic by code point (the same order as on
/// the UTF-8 bytes).
pub open spec fn seq_lt(a: Seq<char>, b: Seq<char>) -> bool {
    lt_from(a, b, 0)
}

pub proof fn lemma_lt_irreflexive(a: Seq<char>, i: nat)
    ensures
        !lt_from(a, a, i),
    decreases a.len() - i,
{
    if i < a.len() {
        lemma_lt_irreflexive(a, i + 1);
    }
}

pub proof fn lemma_lt_transitive(a: Seq<char>, b: Seq<char>, c: Seq<char>, i: nat)
    requires
        lt_from(a, b, i),
        lt_from(b, c, i),
    ensures
        lt_from(a, c, i),
    decreases a.len() - i,
{
    if i < a.len() && i < b.len() && i < c.len() && a[i as int] == b[i as int] && b[i as int] == c[i as int] {
        lemma_lt_transitive(a, b, c, i + 1);
    }
}

/// Two sequences that agree from `i` on are equal there; otherwise one sorts
/// before the other.
pub proof fn lemma_lt_total(a: Seq<char>, b: Seq<char>, i: nat)
    requires
        i <= a.len(),
        i <= b.len(),
    ensures
        lt_from(a, b, i) || lt_from(b, a, i)
            || (a.len() == b.len() && forall|k: int| i <= k < a.len() ==> a[k] == b[k]),
    decreases a.len() - i,
{
    if i < a.len() && i < b.len() && a[i as int] == b[i as int] {
        lemma_lt_total(a, b, i + 1);
        if a.len() == b.len() && (forall|k: int| i + 1 <= k < a.len() ==> a[k] == b[k]) {
            assert forall|k: int| i <= k < a.len() implies a[k] == b[k] by {
                if k > i {
                    assert(i + 1 <= k);
                }
            }
        }
    } else if i < a.len() && i < b.len() {
        assert((a[i as int] as int) != (b[i as int] as int));
    }
}

/// Distinct sequences are ordered one way or the other.
pub proof fn lemma_seq_lt_total(a: Seq<char>, b: Seq<char>)
    requires
        a != b,
    ensures
        seq_lt(a, b) || seq_lt(b, a),
{
    lemma_lt_total(a, b, 0);
    if a.len() == b.len() && (forall|k: int| 0 <= k < a.len() ==> a[k] == b[k]) {
        assert(a =~= b);
    }
}

/// `a < b` in the order of strings.
pub fn str_lt(a: &str, b: &str) -> (r: bool)
    ensures
        r == seq_lt(a@, b@),
{
    let cs = str_chars(a);
    let ds = str_chars(b);
    let mut i: usize = 0;
    while i < cs.len() && i < ds.len()
        invariant
            i <= cs@.len(),
            i <= ds@.len(),
            cs@ == a@,
            ds@ == b@,
            seq_lt(a@, b@) == lt_from(a@, b@, i as nat),
        decreases cs@.len() - i,
    {
        if cs[i] != ds[i] {
            return cs[i] < ds[i];
        }
        i += 1;
    }
    i >= cs.len() && i < ds.len()
}

} // verus!
