//! Reading back what the cache writes: a rendered line parses to the entry
//! it was rendered from, and the lines written for a cache load back to it.
use vstd::prelude::*;
use crate::chars::{find_char_from, find_seq_from, occurs_at, trim_by, lead_count, trail_count, ws_pred, quote_pred,
    lemma_lead_count, lemma_trail_count, is_unicode_ws};
use crate::text::{decimal, digit_char, lemma_decimal_nonempty};
use crate::cache::{SpecCacheEntry, render_line, spec_parse_line, spec_parse_line_panics, load_map, renders_some_entry,
    escape_quotes, pair_json, json_pairs, clauses_json, parse_pairs, close_of, clean_part, first_comma,
    spec_extract_u64, spec_extract_string, spec_extract_clause_results, clause_list_bounds, clause_list_unclosed,
    first_non_digit, parse_u64_digits, digits_u64, is_ascii_digit_char, key_prefix, fn_prefix, ensures_prefix,
    invariants_prefix};

verus! {

// ── Which texts survive the trip ────────────────────────────────────

pub open spec fn no_char(s: Seq<char>, c: char) -> bool {
    forall|i: int| 0 <= i < s.len() ==> s[i] != c
}

/// A clause text: no `"`, `[`, `]` or `,`.
pub open spec fn clause_plain(s: Seq<char>) -> bool {
    no_char(s, '"') && no_char(s, '[') && no_char(s, ']') && no_char(s, ',')
}

/// A result tag: no `"`, `[` or `]`.
pub open spec fn tag_plain(s: Seq<char>) -> bool {
    no_char(s, '"') && no_char(s, '[') && no_char(s, ']')
}

pub open spec fn pairs_plain(s: Seq<(Seq<char>, Seq<char>)>) -> bool {
    forall|i: int| 0 <= i < s.len() ==> clause_plain(#[trigger] s[i].0) && tag_plain(s[i].1)
}

/// An entry whose texts the line format carries unchanged.
pub open spec fn entry_plain(e: SpecCacheEntry) -> bool {
    no_char(e.function_name, '"') && pairs_plain(e.ensures_results) && pairs_plain(e.invariants_results)
}

// ── Finding things ──────────────────────────────────────────────────

proof fn lemma_find_seq_first(s: Seq<char>, p: Seq<char>, from: int, i: int)
    requires
        0 <= from <= i,
        occurs_at(s, i, p),
        forall|j: int| from <= j < i ==> !occurs_at(s, j, p),
    ensures
        find_seq_from(s, from, p) == Some(i),
    decreases i - from,
{
    if from < i {
        lemma_find_seq_first(s, p, from + 1, i);
    }
}

proof fn lemma_find_char_first(s: Seq<char>, from: int, c: char, i: int)
    requires
        0 <= from <= i < s.len(),
        s[i] == c,
        forall|j: int| from <= j < i ==> s[j] != c,
    ensures
        find_char_from(s, from, c) == Some(i),
    decreases i - from,
{
    if from < i {
        lemma_find_char_first(s, from + 1, c, i);
    }
}

proof fn lemma_find_char_none(s: Seq<char>, from: int, c: char)
    requires
        0 <= from,
        forall|j: int| from <= j < s.len() ==> s[j] != c,
    ensures
        find_char_from(s, from, c) is None,
    decreases s.len() - from,
{
    if from < s.len() {
        lemma_find_char_none(s, from + 1, c);
    }
}

/// A pattern starting with a quote occurs only where the text has one.
proof fn lemma_no_occ_not_quote(s: Seq<char>, j: int, p: Seq<char>)
    requires
        p.len() >= 1,
        p[0] == '"',
        0 <= j < s.len(),
        s[j] != '"',
    ensures
        !occurs_at(s, j, p),
{
    if occurs_at(s, j, p) {
        assert(s.subrange(j, j + p.len())[0] == s[j]);
    }
}

/// A field-name pattern `"X":`: a quote, `n` characters without quotes,
/// a quote and a colon.
pub open spec fn name_pattern(p: Seq<char>, n: int) -> bool {
    &&& p.len() >= n + 3
    &&& n >= 1
    &&& p[0] == '"'
    &&& (forall|t: int| 1 <= t <= n ==> p[t] != '"')
    &&& p[n + 1] == '"'
    &&& p[n + 2] == ':'
    &&& p[1] != ',' && p[1] != ']' && p[1] != ':'
}

/// At a quote whose next character differs from the pattern's, no match.
proof fn lemma_no_occ_second(s: Seq<char>, j: int, p: Seq<char>)
    requires
        p.len() >= 2,
        0 <= j,
        j + 1 < s.len(),
        s[j + 1] != p[1],
    ensures
        !occurs_at(s, j, p),
{
    if occurs_at(s, j, p) {
        assert(s.subrange(j, j + p.len())[1] == s[j + 1]);
    }
}

/// At a quote opening `l` characters without quotes, closed by a quote that
/// is not followed by a colon (or when the lengths differ), no match.
proof fn lemma_no_occ_open(s: Seq<char>, q: int, l: int, p: Seq<char>, n: int)
    requires
        name_pattern(p, n),
        0 <= q,
        0 <= l,
        q + l + 2 < s.len(),
        forall|u: int| q + 1 <= u <= q + l ==> s[u] != '"',
        s[q + l + 1] == '"',
        l != n || s[q + l + 2] != ':',
    ensures
        !occurs_at(s, q, p),
{
    if occurs_at(s, q, p) {
        let w = s.subrange(q, q + p.len());
        if l < n {
            assert(w[l + 1] == s[q + l + 1]);
            assert(p[l + 1] != '"');
        } else if l > n {
            assert(w[n + 1] == s[q + n + 1]);
        } else {
            assert(w[n + 2] == s[q + n + 2]);
        }
    }
}


// ── The JSON of clause lists ────────────────────────────────────────

proof fn lemma_escape_plain(s: Seq<char>)
    requires
        no_char(s, '"'),
    ensures
        escape_quotes(s) == s,
    decreases s.len(),
{
    if s.len() > 0 {
        lemma_escape_plain(s.drop_last());
        assert(s.drop_last().push(s.last()) =~= s);
    }
}

/// Where each character of a pair's JSON sits.
proof fn lemma_pair_layout(c: Seq<char>, t: Seq<char>)
    requires
        no_char(c, '"'),
        no_char(t, '"'),
    ensures
        pair_json((c, t)).len() == c.len() + t.len() + 7,
        pair_json((c, t))[0] == '[',
        pair_json((c, t))[1] == '"',
        forall|k: int| 0 <= k < c.len() ==> pair_json((c, t))[2 + k] == c[k],
        pair_json((c, t))[(2 + c.len()) as int] == '"',
        pair_json((c, t))[(3 + c.len()) as int] == ',',
        pair_json((c, t))[(4 + c.len()) as int] == '"',
        forall|k: int| 0 <= k < t.len() ==> pair_json((c, t))[5 + c.len() + k] == t[k],
        pair_json((c, t))[(5 + c.len() + t.len()) as int] == '"',
        pair_json((c, t))[(6 + c.len() + t.len()) as int] == ']',
{
    lemma_escape_plain(c);
    lemma_escape_plain(t);
    reveal_strlit("[\"");
    reveal_strlit("\",\"");
    reveal_strlit("\"]");
    let pj = pair_json((c, t));
    assert(pj =~= seq!['[', '"'] + c + seq!['"', ',', '"'] + t + seq!['"', ']']);
}

/// No field-name pattern occurs inside a pair's JSON.
proof fn lemma_pair_no_occ(s: Seq<char>, b: int, c: Seq<char>, t: Seq<char>, p: Seq<char>, n: int)
    requires
        clause_plain(c),
        tag_plain(t),
        name_pattern(p, n),
        0 <= b,
        b + pair_json((c, t)).len() <= s.len(),
        s.subrange(b, b + pair_json((c, t)).len()) == pair_json((c, t)),
    ensures
        forall|j: int| b <= j < b + pair_json((c, t)).len() ==> !occurs_at(s, j, p),
{
    lemma_pair_layout(c, t);
    let pj = pair_json((c, t));
    assert forall|j: int| b <= j < b + pj.len() implies !occurs_at(s, j, p) by {
        assert(s[j] == pj[j - b]);
        let k = j - b;
        if k == 1 {
            assert forall|u: int| j + 1 <= u <= j + c.len() implies s[u] != '"' by {
                assert(s[u] == pj[u - b]);
                assert(pj[u - b] == c[u - b - 2]);
            }
            assert(s[j + c.len() + 1] == pj[k + c.len() + 1]);
            assert(s[j + c.len() + 2] == pj[k + c.len() + 2]);
            lemma_no_occ_open(s, j, c.len() as int, p, n);
        } else if k == 2 + c.len() {
            assert(s[j + 1] == pj[k + 1]);
            lemma_no_occ_second(s, j, p);
        } else if k == 4 + c.len() {
            assert forall|u: int| j + 1 <= u <= j + t.len() implies s[u] != '"' by {
                assert(s[u] == pj[u - b]);
                assert(pj[u - b] == t[u - b - 5 - c.len()]);
            }
            assert(s[j + t.len() + 1] == pj[k + t.len() + 1]);
            assert(s[j + t.len() + 2] == pj[k + t.len() + 2]);
            lemma_no_occ_open(s, j, t.len() as int, p, n);
        } else if k == 5 + c.len() + t.len() {
            assert(s[j + 1] == pj[k + 1]);
            lemma_no_occ_second(s, j, p);
        } else {
            if 2 <= k < 2 + c.len() {
                assert(pj[k] == c[k - 2]);
            } else if 5 + c.len() <= k < 5 + c.len() + t.len() {
                assert(pj[k] == t[k - 5 - c.len()]);
            }
            lemma_no_occ_not_quote(s, j, p);
        }
    }
}

proof fn lemma_json_pairs_split(l: Seq<(Seq<char>, Seq<char>)>)
    requires
        l.len() >= 2,
    ensures
        json_pairs(l) == json_pairs(l.drop_last()) + seq![','] + pair_json(l.last()),
{
    reveal_strlit(",");
    assert(","@ =~= seq![',']);
}

/// No field-name pattern occurs inside the JSON of a clause list.
proof fn lemma_json_no_occ(s: Seq<char>, o: int, l: Seq<(Seq<char>, Seq<char>)>, p: Seq<char>, n: int)
    requires
        pairs_plain(l),
        name_pattern(p, n),
        0 <= o,
        o + json_pairs(l).len() <= s.len(),
        s.subrange(o, o + json_pairs(l).len()) == json_pairs(l),
    ensures
        forall|j: int| o <= j < o + json_pairs(l).len() ==> !occurs_at(s, j, p),
    decreases l.len(),
{
    if l.len() == 1 {
        assert(pairs_plain(l) ==> clause_plain(l[0].0) && tag_plain(l[0].1));
        lemma_pair_no_occ(s, o, l[0].0, l[0].1, p, n);
    } else if l.len() >= 2 {
        lemma_json_pairs_split(l);
        let init = l.drop_last();
        let a = json_pairs(init);
        let pj = pair_json(l.last());
        assert(pairs_plain(init)) by {
            assert forall|i: int| 0 <= i < init.len() implies clause_plain(#[trigger] init[i].0) && tag_plain(init[i].1) by {
                assert(init[i] == l[i]);
            }
        }
        assert(s.subrange(o, o + a.len()) =~= a) by {
            assert forall|u: int| 0 <= u < a.len() implies s.subrange(o, o + a.len())[u] == a[u] by {
                assert(s.subrange(o, o + json_pairs(l).len())[u] == json_pairs(l)[u]);
            }
        }
        lemma_json_no_occ(s, o, init, p, n);
        let b = o + a.len() + 1;
        assert(s.subrange(b, b + pj.len()) =~= pj) by {
            assert forall|u: int| 0 <= u < pj.len() implies s.subrange(b, b + pj.len())[u] == pj[u] by {
                assert(s.subrange(o, o + json_pairs(l).len())[a.len() + 1 + u] == json_pairs(l)[a.len() + 1 + u]);
            }
        }
        assert(clause_plain(l[l.len() - 1].0) && tag_plain(l[l.len() - 1].1));
        lemma_pair_no_occ(s, b, l.last().0, l.last().1, p, n);
        assert(s[o + a.len()] == ',') by {
            assert(s.subrange(o, o + json_pairs(l).len())[a.len() as int] == json_pairs(l)[a.len() as int]);
        }
        assert forall|j: int| o <= j < o + json_pairs(l).len() implies !occurs_at(s, j, p) by {
            if j == o + a.len() {
                lemma_no_occ_not_quote(s, j, p);
            }
        }
    }
}


// ── Matching the brackets ───────────────────────────────────────────

proof fn lemma_close_plain_run(s: Seq<char>, j: int, k: int, d: int)
    requires
        0 <= j <= k <= s.len(),
        forall|u: int| j <= u < k ==> s[u] != '[' && s[u] != ']',
    ensures
        close_of(s, j, d) == close_of(s, k, d),
    decreases k - j,
{
    if j < k {
        lemma_close_plain_run(s, j + 1, k, d);
    }
}

/// A pair's JSON takes the bracket depth back to where it was.
proof fn lemma_close_pair(s: Seq<char>, b: int, c: Seq<char>, t: Seq<char>, d: int)
    requires
        clause_plain(c),
        tag_plain(t),
        d >= 1,
        0 <= b,
        b + pair_json((c, t)).len() <= s.len(),
        s.subrange(b, b + pair_json((c, t)).len()) == pair_json((c, t)),
    ensures
        close_of(s, b, d) == close_of(s, b + pair_json((c, t)).len(), d),
{
    lemma_pair_layout(c, t);
    let pj = pair_json((c, t));
    let e = b + 6 + c.len() + t.len();
    assert(s[b] == pj[0]);
    assert(s[e] == pj[e - b]);
    assert forall|u: int| b + 1 <= u < e implies s[u] != '[' && s[u] != ']' by {
        assert(s[u] == pj[u - b]);
        let k = u - b;
        if 2 <= k < 2 + c.len() {
            assert(pj[k] == c[k - 2]);
        } else if 5 + c.len() <= k < 5 + c.len() + t.len() {
            assert(pj[k] == t[k - 5 - c.len()]);
        }
    }
    lemma_close_plain_run(s, b + 1, e, d + 1);
}

/// A clause list's JSON takes the bracket depth back to where it was.
proof fn lemma_close_json(s: Seq<char>, o: int, l: Seq<(Seq<char>, Seq<char>)>, d: int)
    requires
        pairs_plain(l),
        d >= 1,
        0 <= o,
        o + json_pairs(l).len() <= s.len(),
        s.subrange(o, o + json_pairs(l).len()) == json_pairs(l),
    ensures
        close_of(s, o, d) == close_of(s, o + json_pairs(l).len(), d),
    decreases l.len(),
{
    if l.len() == 1 {
        assert(clause_plain(l[0].0) && tag_plain(l[0].1));
        lemma_close_pair(s, o, l[0].0, l[0].1, d);
    } else if l.len() >= 2 {
        lemma_json_pairs_split(l);
        let init = l.drop_last();
        let a = json_pairs(init);
        let pj = pair_json(l.last());
        assert(pairs_plain(init)) by {
            assert forall|i: int| 0 <= i < init.len() implies clause_plain(#[trigger] init[i].0) && tag_plain(init[i].1) by {
                assert(init[i] == l[i]);
            }
        }
        assert(s.subrange(o, o + a.len()) =~= a) by {
            assert forall|u: int| 0 <= u < a.len() implies s.subrange(o, o + a.len())[u] == a[u] by {
                assert(s.subrange(o, o + json_pairs(l).len())[u] == json_pairs(l)[u]);
            }
        }
        lemma_close_json(s, o, init, d);
        let b = o + a.len() + 1;
        assert(s.subrange(b, b + pj.len()) =~= pj) by {
            assert forall|u: int| 0 <= u < pj.len() implies s.subrange(b, b + pj.len())[u] == pj[u] by {
                assert(s.subrange(o, o + json_pairs(l).len())[a.len() + 1 + u] == json_pairs(l)[a.len() + 1 + u]);
            }
        }
        assert(s[o + a.len()] == ',') by {
            assert(s.subrange(o, o + json_pairs(l).len())[a.len() as int] == json_pairs(l)[a.len() as int]);
        }
        assert(clause_plain(l[l.len() - 1].0) && tag_plain(l[l.len() - 1].1));
        lemma_close_pair(s, b, l.last().0, l.last().1, d);
    }
}

proof fn lemma_clauses_json_form(l: Seq<(Seq<char>, Seq<char>)>)
    ensures
        clauses_json(l) == seq!['['] + json_pairs(l) + seq![']'],
{
    reveal_strlit("[]");
    reveal_strlit("[");
    reveal_strlit("]");
    if l.len() == 0 {
        assert(clauses_json(l) =~= seq!['['] + json_pairs(l) + seq![']']);
    } else {
        assert(clauses_json(l) =~= seq!['['] + json_pairs(l) + seq![']']);
    }
}

// ── Reading the pairs back ──────────────────────────────────────────

proof fn lemma_json_front(l: Seq<(Seq<char>, Seq<char>)>)
    requires
        l.len() >= 2,
    ensures
        json_pairs(l) == pair_json(l[0]) + seq![','] + json_pairs(l.drop_first()),
    decreases l.len(),
{
    lemma_json_pairs_split(l);
    if l.len() == 2 {
        assert(l.drop_last().len() == 1);
        assert(l.drop_first().len() == 1);
        assert(json_pairs(l.drop_first()) == pair_json(l.drop_first()[0]));
        assert(l.drop_first()[0] == l.last());
    } else {
        let init = l.drop_last();
        lemma_json_front(init);
        lemma_json_pairs_split(l.drop_first());
        assert(l.drop_first().drop_last() =~= init.drop_first());
        assert(l.drop_first().last() == l.last());
        assert(init[0] == l[0]);
    }
}

/// `"x"` cleaned is `x`, for `x` without quotes.
proof fn lemma_clean_quoted(x: Seq<char>)
    requires
        no_char(x, '"'),
    ensures
        clean_part(seq!['"'] + x + seq!['"']) == x,
{
    let p = seq!['"'] + x + seq!['"'];
    assert(p[0] == '"');
    assert(p[p.len() - 1] == '"');
    assert(!is_unicode_ws('"'));
    assert(lead_count(p, ws_pred()) == 0);
    assert(trail_count(p, ws_pred()) == 0);
    assert(trim_by(p, ws_pred()) =~= p);
    if x.len() == 0 {
        let p1 = p.drop_first();
        assert(p1.len() == 1 && p1[0] == '"');
        assert(p1.drop_first().len() == 0);
        assert(lead_count(p1.drop_first(), quote_pred()) == 0);
        assert((quote_pred())(p1[0]));
        assert(lead_count(p1, quote_pred()) == 1);
        assert(lead_count(p, quote_pred()) == 2);
        assert(trim_by(p, quote_pred()) =~= x);
    } else {
        assert(p.drop_first()[0] == x[0]);
        assert(lead_count(p.drop_first(), quote_pred()) == 0);
        assert(lead_count(p, quote_pred()) == 1);
        assert(p.drop_last()[p.drop_last().len() - 1] == x[x.len() - 1]);
        assert(trail_count(p.drop_last(), quote_pred()) == 0);
        assert(trail_count(p, quote_pred()) == 1);
        assert(trim_by(p, quote_pred()) =~= x);
    }
}

/// The first pair of a list's JSON, read where it stands.
proof fn lemma_read_pair(tx: Seq<char>, pos: int, o: int, c: Seq<char>, t: Seq<char>)
    requires
        clause_plain(c),
        tag_plain(t),
        0 <= pos <= o,
        o + pair_json((c, t)).len() <= tx.len(),
        forall|u: int| 0 <= u < pair_json((c, t)).len() ==> tx[o + u] == pair_json((c, t))[u],
        forall|u: int| pos <= u < o ==> tx[u] != '[',
    ensures
        find_char_from(tx, pos, '[') == Some(o),
        find_char_from(tx, o, ']') == Some(o + 6 + c.len() + t.len()),
        ({
            let pair = tx.subrange(o + 1, o + 6 + c.len() + t.len());
            &&& first_comma(pair) == Some(c.len() as int + 2)
            &&& clean_part(pair.subrange(0, c.len() as int + 2)) == c
            &&& clean_part(pair.subrange(c.len() as int + 3, pair.len() as int)) == t
        }),
{
    lemma_pair_layout(c, t);
    let pj = pair_json((c, t));
    let b = o + 6 + c.len() + t.len();
    assert(tx[o] == pj[0]);
    lemma_find_char_first(tx, pos, '[', o);
    assert forall|u: int| o <= u < b implies tx[u] != ']' by {
        assert(tx[o + (u - o)] == pj[u - o]);
        let k = u - o;
        if 2 <= k < 2 + c.len() {
            assert(pj[k] == c[k - 2]);
        } else if 5 + c.len() <= k < 5 + c.len() + t.len() {
            assert(pj[k] == t[k - 5 - c.len()]);
        }
    }
    assert(tx[o + (b - o)] == pj[b - o]);
    lemma_find_char_first(tx, o, ']', b);
    let pair = tx.subrange(o + 1, b);
    let want = seq!['"'] + c + seq!['"', ','] + seq!['"'] + t + seq!['"'];
    assert(pair =~= want) by {
        assert forall|u: int| 0 <= u < pair.len() implies pair[u] == want[u] by {
            assert(pair[u] == tx[o + (1 + u)]);
            assert(tx[o + (1 + u)] == pj[1 + u]);
            if 1 <= u < 1 + c.len() {
                assert(pj[1 + u] == c[u - 1]);
            } else if 4 + c.len() <= u < 4 + c.len() + t.len() {
                assert(pj[1 + u] == t[u - 4 - c.len()]);
            }
        }
    }
    let cm: int = c.len() as int + 2;
    assert forall|u: int| 0 <= u < cm implies pair[u] != ',' by {
        if 1 <= u < 1 + c.len() {
            assert(pair[u] == c[u - 1]);
        }
    }
    assert(pair[cm] == ',');
    lemma_find_char_first(pair, 0, ',', cm);
    assert(pair.subrange(0, cm) =~= seq!['"'] + c + seq!['"']);
    assert(pair.subrange(cm + 1, pair.len() as int) =~= seq!['"'] + t + seq!['"']);
    lemma_clean_quoted(c);
    lemma_clean_quoted(t);
}

/// Reading the pairs of a list's JSON that ends the text, from any position
/// before its first bracket with no `[` in between.
proof fn lemma_parse_pairs_json(tx: Seq<char>, pos: int, o: int, l: Seq<(Seq<char>, Seq<char>)>)
    requires
        pairs_plain(l),
        l.len() >= 1,
        0 <= pos <= o,
        o + json_pairs(l).len() == tx.len(),
        tx.subrange(o, tx.len() as int) == json_pairs(l),
        forall|u: int| pos <= u < o ==> tx[u] != '[',
    ensures
        parse_pairs(tx, pos) == l,
    decreases l.len(),
{
    let c = l[0].0;
    let t = l[0].1;
    assert(clause_plain(c) && tag_plain(t));
    let pj = pair_json((c, t));
    let jp = json_pairs(l);
    let b = o + 6 + c.len() + t.len();
    lemma_pair_layout(c, t);
    if l.len() >= 2 {
        lemma_json_front(l);
        assert(jp =~= pj + seq![','] + json_pairs(l.drop_first()));
    } else {
        assert(jp == pj);
    }
    assert forall|u: int| 0 <= u < pj.len() implies tx[o + u] == pj[u] by {
        assert(tx.subrange(o, tx.len() as int)[u] == jp[u]);
    }
    lemma_read_pair(tx, pos, o, c, t);
    if l.len() == 1 {
        assert(b + 1 == tx.len());
        lemma_find_char_none(tx, b + 1, '[');
        assert(parse_pairs(tx, b + 1) =~= Seq::<(Seq<char>, Seq<char>)>::empty());
        assert(l =~= seq![(c, t)]);
        assert(seq![(c, t)] + Seq::<(Seq<char>, Seq<char>)>::empty() =~= seq![(c, t)]);
    } else {
        let rest = l.drop_first();
        assert(pairs_plain(rest)) by {
            assert forall|i: int| 0 <= i < rest.len() implies clause_plain(#[trigger] rest[i].0) && tag_plain(rest[i].1) by {
                assert(rest[i] == l[i + 1]);
            }
        }
        let o2 = b + 2;
        let jr = json_pairs(rest);
        assert(tx[b + 1] == ',') by {
            assert(tx.subrange(o, tx.len() as int)[pj.len() as int] == jp[pj.len() as int]);
        }
        assert(tx.subrange(o2, tx.len() as int) =~= jr) by {
            assert forall|u: int| 0 <= u < jr.len() implies tx.subrange(o2, tx.len() as int)[u] == jr[u] by {
                assert(tx.subrange(o, tx.len() as int)[pj.len() + 1 + u] == jp[pj.len() + 1 + u]);
            }
        }
        lemma_parse_pairs_json(tx, b + 1, o2, rest);
        assert(l =~= seq![(c, t)] + rest);
    }
}

// ── The number ──────────────────────────────────────────────────────

proof fn lemma_decimal_reads_back(n: nat)
    ensures
        forall|i: int| 0 <= i < decimal(n).len() ==> is_ascii_digit_char(#[trigger] decimal(n)[i]),
        digits_u64(decimal(n)) == n,
    decreases n,
{
    let d = decimal(n);
    if n < 10 {
        assert(digit_char(n) as u32 == n + 48);
        assert(d.drop_last() =~= Seq::<char>::empty());
        assert(d.last() == digit_char(n));
        assert(digits_u64(d) == digits_u64(d.drop_last()) * 10 + ((d.last() as u32) - 48) as nat);
    } else {
        lemma_decimal_reads_back(n / 10);
        assert(digit_char(n % 10) as u32 == n % 10 + 48);
        assert(d.drop_last() =~= decimal(n / 10));
        assert(d.last() == digit_char(n % 10));
        assert((n / 10) * 10 + n % 10 == n) by (nonlinear_arith);
        assert(digits_u64(d) == digits_u64(decimal(n / 10)) * 10 + ((d.last() as u32) - 48) as nat);
        assert forall|i: int| 0 <= i < d.len() implies is_ascii_digit_char(#[trigger] d[i]) by {
            if i < d.len() - 1 {
                assert(d[i] == decimal(n / 10)[i]);
            }
        }
    }
}

proof fn lemma_first_non_digit_run(s: Seq<char>, from: int, to: int)
    requires
        0 <= from <= to < s.len(),
        forall|u: int| from <= u < to ==> is_ascii_digit_char(s[u]),
        !is_ascii_digit_char(s[to]),
    ensures
        first_non_digit(s, from) == Some(to),
    decreases to - from,
{
    if from < to {
        lemma_first_non_digit_run(s, from + 1, to);
    }
}

// ── Where each part of a line sits ──────────────────────────────────

/// Start of the `,"fn":"` piece.
pub open spec fn off_fn(key: u64) -> int {
    7 + decimal(key as nat).len() as int
}

/// Start of the `","ensures":` piece (the name's closing quote).
pub open spec fn off_ens(key: u64, e: SpecCacheEntry) -> int {
    off_fn(key) + 7 + e.function_name.len()
}

/// Start of the `,"invariants":` piece.
pub open spec fn off_inv(key: u64, e: SpecCacheEntry) -> int {
    off_ens(key, e) + 12 + clauses_json(e.ensures_results).len()
}

/// The shape of a rendered line: every fixed character in place, and the
/// variable parts where the offsets say.
pub open spec fn line_shape(s: Seq<char>, key: u64, e: SpecCacheEntry) -> bool {
    let d = decimal(key as nat);
    let nm = e.function_name;
    let ce = clauses_json(e.ensures_results);
    let ci = clauses_json(e.invariants_results);
    let b = off_fn(key);
    let c = off_ens(key, e);
    let f = off_inv(key, e);
    &&& s.len() == f + 14 + ci.len() + 1
    &&& s[0] == '{' && s[1] == '"' && s[2] == 'k' && s[3] == 'e' && s[4] == 'y' && s[5] == '"' && s[6] == ':'
    &&& (forall|k: int| 0 <= k < d.len() ==> s[7 + k] == d[k])
    &&& s[b] == ',' && s[b + 1] == '"' && s[b + 2] == 'f' && s[b + 3] == 'n' && s[b + 4] == '"'
    &&& s[b + 5] == ':' && s[b + 6] == '"'
    &&& (forall|k: int| 0 <= k < nm.len() ==> s[b + 7 + k] == nm[k])
    &&& s[c] == '"' && s[c + 1] == ',' && s[c + 2] == '"' && s[c + 3] == 'e' && s[c + 4] == 'n'
    &&& s[c + 5] == 's' && s[c + 6] == 'u' && s[c + 7] == 'r' && s[c + 8] == 'e' && s[c + 9] == 's'
    &&& s[c + 10] == '"' && s[c + 11] == ':'
    &&& (forall|k: int| 0 <= k < ce.len() ==> s[c + 12 + k] == ce[k])
    &&& s[f] == ',' && s[f + 1] == '"' && s[f + 2] == 'i' && s[f + 3] == 'n' && s[f + 4] == 'v'
    &&& s[f + 5] == 'a' && s[f + 6] == 'r' && s[f + 7] == 'i' && s[f + 8] == 'a' && s[f + 9] == 'n'
    &&& s[f + 10] == 't' && s[f + 11] == 's' && s[f + 12] == '"' && s[f + 13] == ':'
    &&& (forall|k: int| 0 <= k < ci.len() ==> s[f + 14 + k] == ci[k])
    &&& s[f + 14 + ci.len()] == '}'
}

proof fn lemma_line_layout(key: u64, e: SpecCacheEntry)
    ensures
        line_shape(render_line(key, e), key, e),
{
    reveal_strlit("{\"key\":");
    reveal_strlit(",\"fn\":\"");
    reveal_strlit("\",\"ensures\":");
    reveal_strlit(",\"invariants\":");
    reveal_strlit("}");
    let d = decimal(key as nat);
    let nm = e.function_name;
    let ce = clauses_json(e.ensures_results);
    let ci = clauses_json(e.invariants_results);
    let p1 = seq!['{', '"', 'k', 'e', 'y', '"', ':'];
    let p2 = seq![',', '"', 'f', 'n', '"', ':', '"'];
    let p3 = seq!['"', ',', '"', 'e', 'n', 's', 'u', 'r', 'e', 's', '"', ':'];
    let p4 = seq![',', '"', 'i', 'n', 'v', 'a', 'r', 'i', 'a', 'n', 't', 's', '"', ':'];
    assert("{\"key\":"@ =~= p1);
    assert(",\"fn\":\""@ =~= p2);
    assert("\",\"ensures\":"@ =~= p3);
    assert(",\"invariants\":"@ =~= p4);
    let s1 = p1 + d;
    let s2 = s1 + p2;
    let s3 = s2 + nm;
    let s4 = s3 + p3;
    let s5 = s4 + ce;
    let s6 = s5 + p4;
    let s7 = s6 + ci;
    let s8 = s7 + seq!['}'];
    assert(render_line(key, e) =~= s8);
    let b = off_fn(key);
    let c = off_ens(key, e);
    let f = off_inv(key, e);
    assert forall|k: int| 0 <= k < d.len() implies s8[7 + k] == d[k] by {
        assert(s1[7 + k] == d[k]);
    }
    assert forall|k: int| 0 <= k < nm.len() implies s8[b + 7 + k] == nm[k] by {
        assert(s3[b + 7 + k] == nm[k]);
    }
    assert forall|k: int| 0 <= k < ce.len() implies s8[c + 12 + k] == ce[k] by {
        assert(s5[c + 12 + k] == ce[k]);
    }
    assert forall|k: int| 0 <= k < ci.len() implies s8[f + 14 + k] == ci[k] by {
        assert(s7[f + 14 + k] == ci[k]);
    }
}

proof fn lemma_prefixes()
    ensures
        key_prefix() =~= seq!['"', 'k', 'e', 'y', '"', ':'],
        fn_prefix() =~= seq!['"', 'f', 'n', '"', ':', '"'],
        ensures_prefix() =~= seq!['"', 'e', 'n', 's', 'u', 'r', 'e', 's', '"', ':'],
        invariants_prefix() =~= seq!['"', 'i', 'n', 'v', 'a', 'r', 'i', 'a', 'n', 't', 's', '"', ':'],
        name_pattern(key_prefix(), 3),
        name_pattern(fn_prefix(), 2),
        name_pattern(ensures_prefix(), 7),
        name_pattern(invariants_prefix(), 10),
{
    reveal_strlit("\"key\":");
    reveal_strlit("\"fn\":\"");
    reveal_strlit("\"ensures\":");
    reveal_strlit("\"invariants\":");
}

// ── No field name turns up early ────────────────────────────────────

/// Up to and including the comma before `"fn"`: the opening brace, the key
/// field and its digits.
proof fn lemma_no_occ_head(s: Seq<char>, key: u64, e: SpecCacheEntry, p: Seq<char>, n: int)
    requires
        line_shape(s, key, e),
        name_pattern(p, n),
        n != 3,
    ensures
        forall|j: int| 0 <= j <= off_fn(key) ==> !occurs_at(s, j, p),
{
    lemma_decimal_reads_back(key as nat);
    let d = decimal(key as nat);
    let b = off_fn(key);
    assert forall|j: int| 0 <= j <= b implies !occurs_at(s, j, p) by {
        if j == 1 {
            lemma_no_occ_open(s, 1, 3, p, n);
        } else if j == 5 {
            lemma_no_occ_second(s, 5, p);
        } else {
            if 7 <= j < b {
                assert(s[7 + (j - 7)] == d[j - 7]);
                assert(is_ascii_digit_char(d[j - 7]));
            }
            lemma_no_occ_not_quote(s, j, p);
        }
    }
}

/// From the `"fn"` field to the comma after the function name.
proof fn lemma_no_occ_name(s: Seq<char>, key: u64, e: SpecCacheEntry, p: Seq<char>, n: int)
    requires
        line_shape(s, key, e),
        name_pattern(p, n),
        n != 2,
        no_char(e.function_name, '"'),
    ensures
        forall|j: int| off_fn(key) < j <= off_ens(key, e) + 1 ==> !occurs_at(s, j, p),
{
    let nm = e.function_name;
    let b = off_fn(key);
    let c = off_ens(key, e);
    assert forall|j: int| b < j <= c + 1 implies !occurs_at(s, j, p) by {
        if j == b + 1 {
            lemma_no_occ_open(s, b + 1, 2, p, n);
        } else if j == b + 4 {
            lemma_no_occ_second(s, b + 4, p);
        } else if j == b + 6 {
            assert forall|u: int| b + 7 <= u <= b + 6 + nm.len() implies s[u] != '"' by {
                assert(s[b + 7 + (u - b - 7)] == nm[u - b - 7]);
            }
            lemma_no_occ_open(s, b + 6, nm.len() as int, p, n);
        } else if j == c {
            lemma_no_occ_second(s, c, p);
        } else {
            if b + 7 <= j < c {
                assert(s[b + 7 + (j - b - 7)] == nm[j - b - 7]);
            }
            lemma_no_occ_not_quote(s, j, p);
        }
    }
}

/// From the `"ensures"` field to the comma before `"invariants"`.
proof fn lemma_no_occ_ensures(s: Seq<char>, key: u64, e: SpecCacheEntry, p: Seq<char>, n: int)
    requires
        line_shape(s, key, e),
        name_pattern(p, n),
        n != 7,
        pairs_plain(e.ensures_results),
    ensures
        forall|j: int| off_ens(key, e) + 1 < j <= off_inv(key, e) ==> !occurs_at(s, j, p),
{
    let l = e.ensures_results;
    let ce = clauses_json(l);
    let jp = json_pairs(l);
    let c = off_ens(key, e);
    let f = off_inv(key, e);
    lemma_clauses_json_form(l);
    assert(ce =~= seq!['['] + jp + seq![']']);
    assert(s[c + 12 + 0] == ce[0]);
    assert(s[c + 12 + (ce.len() - 1)] == ce[ce.len() - 1]);
    if l.len() >= 1 {
        assert(s.subrange(c + 13, c + 13 + jp.len()) =~= jp) by {
            assert forall|u: int| 0 <= u < jp.len() implies s.subrange(c + 13, c + 13 + jp.len())[u] == jp[u] by {
                assert(s[c + 12 + (1 + u)] == ce[1 + u]);
            }
        }
        lemma_json_no_occ(s, c + 13, l, p, n);
    } else {
        assert(jp.len() == 0);
    }
    assert forall|j: int| c + 1 < j <= f implies !occurs_at(s, j, p) by {
        if j == c + 2 {
            lemma_no_occ_open(s, c + 2, 7, p, n);
        } else if j == c + 10 {
            lemma_no_occ_second(s, c + 10, p);
        } else if c + 13 <= j < c + 13 + jp.len() {
        } else {
            lemma_no_occ_not_quote(s, j, p);
        }
    }
}

proof fn lemma_occurs_here(s: Seq<char>, i: int, p: Seq<char>)
    requires
        0 <= i,
        i + p.len() <= s.len(),
        forall|k: int| 0 <= k < p.len() ==> s[i + k] == p[k],
    ensures
        occurs_at(s, i, p),
{
    assert(s.subrange(i, i + p.len()) =~= p) by {
        assert forall|k: int| 0 <= k < p.len() implies s.subrange(i, i + p.len())[k] == p[k] by {
            assert(s[i + k] == p[k]);
        }
    }
}

/// Each field name of a rendered line is found where the line writes it.
proof fn lemma_find_fields(s: Seq<char>, key: u64, e: SpecCacheEntry)
    requires
        line_shape(s, key, e),
        entry_plain(e),
    ensures
        find_seq_from(s, 0, key_prefix()) == Some(1int),
        find_seq_from(s, 0, fn_prefix()) == Some(off_fn(key) + 1),
        find_seq_from(s, 0, ensures_prefix()) == Some(off_ens(key, e) + 2),
        find_seq_from(s, 0, invariants_prefix()) == Some(off_inv(key, e) + 1),
{
    lemma_prefixes();
    let b = off_fn(key);
    let c = off_ens(key, e);
    let f = off_inv(key, e);
    lemma_decimal_nonempty(key as nat);
    lemma_occurs_here(s, 1, key_prefix());
    lemma_no_occ_not_quote(s, 0, key_prefix());
    lemma_find_seq_first(s, key_prefix(), 0, 1);

    lemma_occurs_here(s, b + 1, fn_prefix());
    lemma_no_occ_head(s, key, e, fn_prefix(), 2);
    lemma_find_seq_first(s, fn_prefix(), 0, b + 1);

    lemma_occurs_here(s, c + 2, ensures_prefix());
    lemma_no_occ_head(s, key, e, ensures_prefix(), 7);
    lemma_no_occ_name(s, key, e, ensures_prefix(), 7);
    lemma_find_seq_first(s, ensures_prefix(), 0, c + 2);

    lemma_occurs_here(s, f + 1, invariants_prefix());
    lemma_no_occ_head(s, key, e, invariants_prefix(), 10);
    lemma_no_occ_name(s, key, e, invariants_prefix(), 10);
    lemma_no_occ_ensures(s, key, e, invariants_prefix(), 10);
    lemma_find_seq_first(s, invariants_prefix(), 0, f + 1);
}

/// A clause list written right after its field name reads back as itself.
proof fn lemma_extract_list(s: Seq<char>, prefix: Seq<char>, i: int, l: Seq<(Seq<char>, Seq<char>)>)
    requires
        find_seq_from(s, 0, prefix) == Some(i),
        pairs_plain(l),
        0 <= i,
        i + prefix.len() + clauses_json(l).len() <= s.len(),
        forall|k: int| 0 <= k < clauses_json(l).len() ==> s[i + prefix.len() + k] == clauses_json(l)[k],
    ensures
        spec_extract_clause_results(s, prefix) == Some(l),
        !clause_list_unclosed(s, prefix),
{
    let o = i + prefix.len();
    let cj = clauses_json(l);
    let jp = json_pairs(l);
    lemma_clauses_json_form(l);
    assert(cj =~= seq!['['] + jp + seq![']']);
    assert(s[o + 0] == cj[0]);
    lemma_find_char_first(s, o, '[', o);
    let e = o + 1 + jp.len();
    assert(s[o + (cj.len() - 1)] == cj[cj.len() - 1]);
    assert(s[e] == ']');
    assert(close_of(s, o, 0) == close_of(s, o + 1, 1));
    if l.len() >= 1 {
        assert(s.subrange(o + 1, e) =~= jp) by {
            assert forall|u: int| 0 <= u < jp.len() implies s.subrange(o + 1, e)[u] == jp[u] by {
                assert(s[o + (1 + u)] == cj[1 + u]);
            }
        }
        lemma_close_json(s, o + 1, l, 1);
    }
    assert(close_of(s, e, 1) == Some(e));
    assert(close_of(s, o, 0) == Some(e));
    assert(clause_list_bounds(s, prefix) == Some((o, Some(e))));
    let inner = s.subrange(o + 1, e);
    if l.len() == 0 {
        assert(inner.len() == 0);
        assert(trim_by(inner, ws_pred()).len() == 0);
    } else {
        assert(inner =~= jp) by {
            assert forall|u: int| 0 <= u < jp.len() implies inner[u] == jp[u] by {
                assert(s[o + (1 + u)] == cj[1 + u]);
            }
        }
        let c0 = l[0].0;
        let t0 = l[0].1;
        assert(clause_plain(c0) && tag_plain(t0));
        lemma_pair_layout(c0, t0);
        if l.len() >= 2 {
            lemma_json_front(l);
            assert(jp[0] == pair_json(l[0])[0]);
        }
        assert(jp[0] == '[');
        assert(!is_unicode_ws('['));
        assert(lead_count(inner, ws_pred()) == 0);
        lemma_trail_count(inner, ws_pred());
        assert(trim_by(inner, ws_pred()).len() != 0);
        assert(inner.subrange(0, inner.len() as int) =~= inner);
        lemma_parse_pairs_json(inner, 0, 0, l);
    }
}

// ── The laws ────────────────────────────────────────────────────────

proof fn lemma_shaped_line_parses(s: Seq<char>, key: u64, e: SpecCacheEntry)
    requires
        line_shape(s, key, e),
        entry_plain(e),
    ensures
        spec_parse_line(s) == Some((key, e)),
        !spec_parse_line_panics(s),
{
    lemma_find_fields(s, key, e);
    lemma_prefixes();
    let d = decimal(key as nat);
    let nm = e.function_name;
    let b = off_fn(key);
    let c = off_ens(key, e);
    let f = off_inv(key, e);
    lemma_decimal_reads_back(key as nat);
    lemma_decimal_nonempty(key as nat);
    assert forall|u: int| 7 <= u < b implies is_ascii_digit_char(s[u]) by {
        assert(s[7 + (u - 7)] == d[u - 7]);
    }
    lemma_first_non_digit_run(s, 7, b);
    assert(s.subrange(7, b) =~= d) by {
        assert forall|u: int| 0 <= u < d.len() implies s.subrange(7, b)[u] == d[u] by {
            assert(s[7 + u] == d[u]);
        }
    }
    assert(spec_extract_u64(s, key_prefix()) == Some(key));
    assert forall|u: int| b + 7 <= u < c implies s[u] != '"' by {
        assert(s[b + 7 + (u - b - 7)] == nm[u - b - 7]);
    }
    lemma_find_char_first(s, b + 7, '"', c);
    assert(s.subrange(b + 7, c) =~= nm) by {
        assert forall|u: int| 0 <= u < nm.len() implies s.subrange(b + 7, c)[u] == nm[u] by {
            assert(s[b + 7 + u] == nm[u]);
        }
    }
    assert(spec_extract_string(s, fn_prefix()) == Some(nm));
    lemma_extract_list(s, ensures_prefix(), c + 2, e.ensures_results);
    lemma_extract_list(s, invariants_prefix(), f + 1, e.invariants_results);
}

/// A cache line reads back as the entry it was written from, under its key,
/// and reading it never fails midway, whenever the function name holds no
/// `"`, no clause text holds `"`, `[`, `]` or `,`, and no result tag holds
/// `"`, `[` or `]`.
pub proof fn law_line_roundtrip(key: u64, e: SpecCacheEntry)
    requires
        entry_plain(e),
    ensures
        spec_parse_line(render_line(key, e)) == Some((key, e)),
        !spec_parse_line_panics(render_line(key, e)),
{
    lemma_line_layout(key, e);
    lemma_shaped_line_parses(render_line(key, e), key, e);
}

/// A line that renders one of the map's entries.
proof fn lemma_rendered_line_parses(m: Map<u64, SpecCacheEntry>, line: Seq<char>) -> (k: u64)
    requires
        renders_some_entry(m, line),
        forall|k: u64| #[trigger] m.contains_key(k) ==> entry_plain(m[k]),
    ensures
        m.contains_key(k),
        line == render_line(k, m[k]),
        spec_parse_line(line) == Some((k, m[k])),
{
    let k = choose|k: u64| #[trigger] m.contains_key(k) && line == render_line(k, m[k]);
    law_line_roundtrip(k, m[k]);
    k
}

proof fn lemma_load_within(m: Map<u64, SpecCacheEntry>, lines: Seq<Seq<char>>)
    requires
        forall|i: int| 0 <= i < lines.len() ==> renders_some_entry(m, #[trigger] lines[i]),
        forall|k: u64| #[trigger] m.contains_key(k) ==> entry_plain(m[k]),
    ensures
        forall|k: u64| #[trigger] load_map(lines).contains_key(k) ==> m.contains_key(k) && load_map(lines)[k] == m[k],
        forall|k: u64, i: int| 0 <= i < lines.len() && m.contains_key(k) && #[trigger] lines[i] == render_line(k, m[k])
            ==> #[trigger] load_map(lines).contains_key(k),
    decreases lines.len(),
{
    if lines.len() > 0 {
        let init = lines.drop_last();
        assert forall|i: int| 0 <= i < init.len() implies renders_some_entry(m, #[trigger] init[i]) by {
            assert(init[i] == lines[i]);
        }
        lemma_load_within(m, init);
        let k0 = lemma_rendered_line_parses(m, lines.last());
        assert(load_map(lines) == load_map(init).insert(k0, m[k0]));
        assert forall|k: u64, i: int| 0 <= i < lines.len() && m.contains_key(k) && #[trigger] lines[i] == render_line(k, m[k])
            implies #[trigger] load_map(lines).contains_key(k) by {
            if i < lines.len() - 1 {
                assert(init[i] == lines[i]);
            } else {
                law_line_roundtrip(k, m[k]);
            }
        }
    }
}

/// The lines written for a cache load back to exactly its entries: every
/// line renders one of its entries, every entry has a line, and no text in
/// an entry holds a character that the line format reserves (see
/// `entry_plain`).
pub proof fn law_written_cache_loads_back(m: Map<u64, SpecCacheEntry>, lines: Seq<Seq<char>>)
    requires
        forall|i: int| 0 <= i < lines.len() ==> renders_some_entry(m, #[trigger] lines[i]),
        forall|k: u64| #[trigger] m.contains_key(k) ==> exists|i: int| 0 <= i < lines.len() && #[trigger] lines[i] == render_line(k, m[k]),
        forall|k: u64| #[trigger] m.contains_key(k) ==> entry_plain(m[k]),
    ensures
        load_map(lines) == m,
{
    lemma_load_within(m, lines);
    assert forall|k: u64| m.contains_key(k) implies #[trigger] load_map(lines).contains_key(k) by {
        let i = choose|i: int| 0 <= i < lines.len() && #[trigger] lines[i] == render_line(k, m[k]);
        assert(lines[i] == render_line(k, m[k]));
    }
    assert(load_map(lines) =~= m);
}

/// The tags the cache stores for results: the four results' names.
pub open spec fn result_word(t: Seq<char>) -> bool {
    t == "Proven"@ || t == "Disproven"@ || t == "Unknown"@ || t == "TranslationError"@
}

/// Clause texts that the line format carries unchanged, each with one of
/// the result tags the cache stores.
pub open spec fn pairs_with_result_words(s: Seq<(Seq<char>, Seq<char>)>) -> bool {
    forall|i: int| 0 <= i < s.len() ==> clause_plain(#[trigger] s[i].0) && result_word(s[i].1)
}

proof fn lemma_result_word_plain(t: Seq<char>)
    requires
        result_word(t),
    ensures
        tag_plain(t),
{
    reveal_strlit("Proven");
    reveal_strlit("Disproven");
    reveal_strlit("Unknown");
    reveal_strlit("TranslationError");
}

/// Every tag the cache makes of a result is one of the four words.
pub proof fn lemma_result_tag_is_word(r: crate::solver::SpecVerifyResult)
    ensures
        result_word(crate::cache::spec_result_tag(r)),
{
}

/// The lines written for a cache load back to the same cache whenever its
/// function names hold no double quote and its clause texts no `"`, `[`,
/// `]` or `,`: the result tags the cache stores never stand in the way.
pub proof fn law_written_results_load_back(m: Map<u64, SpecCacheEntry>, lines: Seq<Seq<char>>)
    requires
        forall|i: int| 0 <= i < lines.len() ==> renders_some_entry(m, #[trigger] lines[i]),
        forall|k: u64| #[trigger] m.contains_key(k) ==> exists|i: int| 0 <= i < lines.len() && #[trigger] lines[i] == render_line(k, m[k]),
        forall|k: u64| #[trigger] m.contains_key(k) ==> no_char(m[k].function_name, '"')
            && pairs_with_result_words(m[k].ensures_results) && pairs_with_result_words(m[k].invariants_results),
    ensures
        load_map(lines) == m,
{
    assert forall|k: u64| #[trigger] m.contains_key(k) implies entry_plain(m[k]) by {
        let e = m[k];
        assert forall|i: int| 0 <= i < e.ensures_results.len() implies clause_plain(#[trigger] e.ensures_results[i].0)
            && tag_plain(e.ensures_results[i].1) by {
            assert(pairs_with_result_words(e.ensures_results));
            assert(clause_plain(e.ensures_results[i].0));
            lemma_result_word_plain(e.ensures_results[i].1);
        }
        assert forall|i: int| 0 <= i < e.invariants_results.len() implies clause_plain(#[trigger] e.invariants_results[i].0)
            && tag_plain(e.invariants_results[i].1) by {
            assert(pairs_with_result_words(e.invariants_results));
            assert(clause_plain(e.invariants_results[i].0));
            lemma_result_word_plain(e.invariants_results[i].1);
        }
    }
    law_written_cache_loads_back(m, lines);
}

} // verus!
