//! Parsing of the address-lookup service's response body: a JSON object with
//! a single address-bearing field, `{"ip":"<address>"}`, with JSON
//! whitespace allowed around the punctuation. The address must stand
//! escape-free inside its quotes (no quote, no backslash, no control
//! character); any other shape is a parse failure.
use vstd::prelude::*;

verus! {

/// JSON whitespace: space, tab, line feed, carriage return.
pub open spec fn is_json_ws(c: char) -> bool {
    c == ' ' || c == '\t' || c == '\n' || c == '\r'
}

pub open spec fn all_ws(w: Seq<char>) -> bool {
    forall|i: int| 0 <= i < w.len() ==> is_json_ws(#[trigger] w[i])
}

/// An address value stands escape-free inside its quotes: no quote, no
/// backslash, no control character.
pub open spec fn plain_value(v: Seq<char>) -> bool {
    forall|i: int| 0 <= i < v.len()
        ==> (#[trigger] v[i]) != '"' && v[i] != '\\' && v[i] as int >= 32
}

/// The quoted field name.
pub open spec fn name_token() -> Seq<char> {
    seq!['"', 'i', 'p', '"']
}

/// A response body put together from the address `v` and the six whitespace
/// runs around the punctuation.
pub open spec fn assembled(
    v: Seq<char>,
    w1: Seq<char>,
    w2: Seq<char>,
    w3: Seq<char>,
    w4: Seq<char>,
    w5: Seq<char>,
    w6: Seq<char>,
) -> Seq<char> {
    w1 + seq!['{'] + w2 + name_token() + w3 + seq![':'] + w4 + seq!['"'] + v + seq!['"'] + w5
        + seq!['}'] + w6
}

/// `s` is an accepted response body carrying the address `v`: the object,
/// the field name, the colon and the quoted escape-free value, with any JSON
/// whitespace between the tokens.
pub open spec fn ip_response_matches(s: Seq<char>, v: Seq<char>) -> bool {
    &&& plain_value(v)
    &&& exists|w1: Seq<char>, w2: Seq<char>, w3: Seq<char>, w4: Seq<char>, w5: Seq<char>, w6: Seq<char>|
        {
            &&& all_ws(w1)
            &&& all_ws(w2)
            &&& all_ws(w3)
            &&& all_ws(w4)
            &&& all_ws(w5)
            &&& all_ws(w6)
            &&& s == #[trigger] assembled(v, w1, w2, w3, w4, w5, w6)
        }
}

/// The first position at or after `i` holding no JSON whitespace; `s.len()`
/// if only whitespace is left.
pub open spec fn ws_end(s: Seq<char>, i: int) -> int
    decreases s.len() - i when 0 <= i <= s.len()
{
    if i >= s.len() {
        s.len() as int
    } else if is_json_ws(s[i]) {
        ws_end(s, i + 1)
    } else {
        i
    }
}

/// The scanner positions that any accepted body forces: the object brace,
/// the field name, the colon and the value's opening quote, each after a
/// maximal whitespace run.
pub open spec fn pos_a(s: Seq<char>) -> int {
    ws_end(s, 0)
}

pub open spec fn pos_b(s: Seq<char>) -> int {
    ws_end(s, pos_a(s) + 1)
}

pub open spec fn pos_c(s: Seq<char>) -> int {
    ws_end(s, pos_b(s) + 4)
}

pub open spec fn pos_d(s: Seq<char>) -> int {
    ws_end(s, pos_c(s) + 1)
}

proof fn lemma_ws_end_bounds(s: Seq<char>, i: int)
    requires
        0 <= i <= s.len(),
    ensures
        i <= ws_end(s, i) <= s.len(),
        forall|k: int| i <= k < ws_end(s, i) ==> is_json_ws(#[trigger] s[k]),
        ws_end(s, i) < s.len() ==> !is_json_ws(s[ws_end(s, i)]),
    decreases s.len() - i,
{
    if i >= s.len() {
    } else if is_json_ws(s[i]) {
        lemma_ws_end_bounds(s, i + 1);
    } else {
    }
}

proof fn lemma_ws_run(s: Seq<char>, i: int, m: int)
    requires
        0 <= i <= m <= s.len(),
        forall|k: int| i <= k < m ==> is_json_ws(#[trigger] s[k]),
        m == s.len() || !is_json_ws(s[m]),
    ensures
        ws_end(s, i) == m,
    decreases m - i,
{
    if i == m {
    } else {
        lemma_ws_run(s, i + 1, m);
    }
}

/// From any decomposition of `s`, the scanner positions are forced: each
/// whitespace run is the maximal one, the tokens stand at the ends of the
/// runs, and the value fills the quotes at the forced positions.
#[verifier::rlimit(60)]
proof fn lemma_match_positions(s: Seq<char>, v: Seq<char>)
    requires
        ip_response_matches(s, v),
    ensures
        0 <= pos_a(s) < s.len() && s[pos_a(s)] == '{',
        pos_b(s) + 4 <= s.len() && s[pos_b(s)] == '"' && s[pos_b(s) + 1] == 'i'
            && s[pos_b(s) + 2] == 'p' && s[pos_b(s) + 3] == '"',
        pos_c(s) < s.len() && s[pos_c(s)] == ':',
        pos_d(s) < s.len() && s[pos_d(s)] == '"',
        pos_d(s) + 1 + v.len() < s.len() && s[pos_d(s) + 1 + v.len()] == '"',
        s.subrange(pos_d(s) + 1, pos_d(s) + 1 + v.len()) == v,
        ws_end(s, pos_d(s) + 2 + v.len()) < s.len(),
        s[ws_end(s, pos_d(s) + 2 + v.len())] == '}',
        ws_end(s, ws_end(s, pos_d(s) + 2 + v.len()) + 1) == s.len(),
{
    let (w1, w2, w3, w4, w5, w6) = choose|w1: Seq<char>, w2: Seq<char>, w3: Seq<char>, w4: Seq<
        char,
    >, w5: Seq<char>, w6: Seq<char>|
        {
            &&& all_ws(w1)
            &&& all_ws(w2)
            &&& all_ws(w3)
            &&& all_ws(w4)
            &&& all_ws(w5)
            &&& all_ws(w6)
            &&& s == #[trigger] assembled(v, w1, w2, w3, w4, w5, w6)
        };
    let la = w1.len() as int;
    let lb = la + 1 + w2.len();
    let lc = lb + 4 + w3.len();
    let ld = lc + 1 + w4.len();
    let lq = ld + 1 + v.len();
    let le = lq + 1 + w5.len();
    let p1 = w1 + seq!['{'];
    let p2 = p1 + w2;
    let p3 = p2 + name_token();
    let p4 = p3 + w3;
    let p5 = p4 + seq![':'];
    let p6 = p5 + w4;
    let p7 = p6 + seq!['"'];
    let p8 = p7 + v;
    let p9 = p8 + seq!['"'];
    let p10 = p9 + w5;
    let p11 = p10 + seq!['}'];
    let p12 = p11 + w6;
    assert(s == p12);
    assert(s.len() == le + 1 + w6.len());
    assert(p11 =~= s.subrange(0, le + 1));
    assert(p10 =~= s.subrange(0, le));
    assert(p9 =~= s.subrange(0, lq + 1));
    assert(p8 =~= s.subrange(0, lq));
    assert(p7 =~= s.subrange(0, ld + 1));
    assert(p6 =~= s.subrange(0, ld));
    assert(p5 =~= s.subrange(0, lc + 1));
    assert(p4 =~= s.subrange(0, lc));
    assert(p3 =~= s.subrange(0, lb + 4));
    assert(p2 =~= s.subrange(0, lb));
    assert(p1 =~= s.subrange(0, la + 1));
    assert(s[la] == '{');
    assert(s[lb] == '"' && s[lb + 1] == 'i' && s[lb + 2] == 'p' && s[lb + 3] == '"');
    assert(s[lc] == ':');
    assert(s[ld] == '"');
    assert(s.subrange(ld + 1, lq) =~= v);
    assert(s[lq] == '"');
    assert(s[le] == '}');
    assert forall|k: int| 0 <= k < la implies is_json_ws(#[trigger] s[k]) by {
        assert(s[k] == w1[k]);
    }
    assert forall|k: int| la + 1 <= k < lb implies is_json_ws(#[trigger] s[k]) by {
        assert(s[k] == w2[k - (la + 1)]);
    }
    assert forall|k: int| lb + 4 <= k < lc implies is_json_ws(#[trigger] s[k]) by {
        assert(s[k] == w3[k - (lb + 4)]);
    }
    assert forall|k: int| lc + 1 <= k < ld implies is_json_ws(#[trigger] s[k]) by {
        assert(s[k] == w4[k - (lc + 1)]);
    }
    assert forall|k: int| lq + 1 <= k < le implies is_json_ws(#[trigger] s[k]) by {
        assert(s[k] == w5[k - (lq + 1)]);
    }
    assert forall|k: int| le + 1 <= k < s.len() implies is_json_ws(#[trigger] s[k]) by {
        assert(s[k] == w6[k - (le + 1)]);
    }
    lemma_ws_run(s, 0, la);
    lemma_ws_run(s, la + 1, lb);
    lemma_ws_run(s, lb + 4, lc);
    lemma_ws_run(s, lc + 1, ld);
    lemma_ws_run(s, lq + 1, le);
    lemma_ws_run(s, le + 1, s.len() as int);
    assert(pos_a(s) == la);
    assert(pos_b(s) == lb);
    assert(pos_c(s) == lc);
    assert(pos_d(s) == ld);
}

/// In an accepted body, once no quote stands in `[pos_d + 1, j)`, the
/// value's closing quote is at or after `j`, and a position short of it
/// holds a value character.
proof fn lemma_value_region(s: Seq<char>, v: Seq<char>, j: int)
    requires
        ip_response_matches(s, v),
        pos_d(s) + 1 <= j,
        forall|k: int| pos_d(s) + 1 <= k < j ==> (#[trigger] s[k]) != '"',
    ensures
        j <= pos_d(s) + 1 + v.len() < s.len(),
        s[pos_d(s) + 1 + v.len()] == '"',
        j < pos_d(s) + 1 + v.len()
            ==> s[j] != '"' && s[j] != '\\' && s[j] as int >= 32,
{
    lemma_match_positions(s, v);
    lemma_ws_end_bounds(s, 0);
    lemma_ws_end_bounds(s, pos_a(s) + 1);
    lemma_ws_end_bounds(s, pos_b(s) + 4);
    lemma_ws_end_bounds(s, pos_c(s) + 1);
    let d = pos_d(s);
    let q = d + 1 + v.len();
    assert(0 <= d);
    assert(d + 1 <= q < s.len());
    if q < j {
        assert(s[q] != '"');
        assert(false);
    }
    if j < q {
        assert(s.subrange(d + 1, q)[j - d - 1] == s[j]);
        assert(v[j - d - 1] == s[j]);
    }
}

/// From the scanner positions, `s` carries the value between the quotes.
#[verifier::rlimit(100)]
#[verifier::spinoff_prover]
proof fn lemma_positions_match(s: Seq<char>, a: int, b: int, c: int, d: int, q: int, e: int)
    requires
        0 <= a < s.len(),
        ws_end(s, 0) == a,
        s[a] == '{',
        ws_end(s, a + 1) == b,
        b + 4 <= s.len(),
        s[b] == '"' && s[b + 1] == 'i' && s[b + 2] == 'p' && s[b + 3] == '"',
        ws_end(s, b + 4) == c,
        c < s.len(),
        s[c] == ':',
        ws_end(s, c + 1) == d,
        d < s.len(),
        s[d] == '"',
        d + 1 <= q < s.len(),
        s[q] == '"',
        forall|k: int| d + 1 <= k < q
            ==> (#[trigger] s[k]) != '"' && s[k] != '\\' && s[k] as int >= 32,
        ws_end(s, q + 1) == e,
        e < s.len(),
        s[e] == '}',
        ws_end(s, e + 1) == s.len(),
    ensures
        ip_response_matches(s, s.subrange(d + 1, q)),
{
    lemma_ws_end_bounds(s, 0);
    lemma_ws_end_bounds(s, a + 1);
    lemma_ws_end_bounds(s, b + 4);
    lemma_ws_end_bounds(s, c + 1);
    lemma_ws_end_bounds(s, q + 1);
    lemma_ws_end_bounds(s, e + 1);
    let v = s.subrange(d + 1, q);
    let w1 = s.subrange(0, a);
    let w2 = s.subrange(a + 1, b);
    let w3 = s.subrange(b + 4, c);
    let w4 = s.subrange(c + 1, d);
    let w5 = s.subrange(q + 1, e);
    let w6 = s.subrange(e + 1, s.len() as int);
    let p1 = w1 + seq!['{'];
    assert(p1 =~= s.subrange(0, a + 1));
    let p2 = p1 + w2;
    assert(p2 =~= s.subrange(0, b));
    let p3 = p2 + name_token();
    assert(p3 =~= s.subrange(0, b + 4));
    let p4 = p3 + w3;
    assert(p4 =~= s.subrange(0, c));
    let p5 = p4 + seq![':'];
    assert(p5 =~= s.subrange(0, c + 1));
    let p6 = p5 + w4;
    assert(p6 =~= s.subrange(0, d));
    let p7 = p6 + seq!['"'];
    assert(p7 =~= s.subrange(0, d + 1));
    let p8 = p7 + v;
    assert(p8 =~= s.subrange(0, q));
    let p9 = p8 + seq!['"'];
    assert(p9 =~= s.subrange(0, q + 1));
    let p10 = p9 + w5;
    assert(p10 =~= s.subrange(0, e));
    let p11 = p10 + seq!['}'];
    assert(p11 =~= s.subrange(0, e + 1));
    let p12 = p11 + w6;
    assert(p12 =~= s);
    assert(s == assembled(v, w1, w2, w3, w4, w5, w6));
    assert(plain_value(v));
    assert forall|k: int| 0 <= k < w1.len() implies is_json_ws(#[trigger] w1[k]) by {
        assert(w1[k] == s[k]);
    }
    assert forall|k: int| 0 <= k < w2.len() implies is_json_ws(#[trigger] w2[k]) by {
        assert(w2[k] == s[a + 1 + k]);
    }
    assert forall|k: int| 0 <= k < w3.len() implies is_json_ws(#[trigger] w3[k]) by {
        assert(w3[k] == s[b + 4 + k]);
    }
    assert forall|k: int| 0 <= k < w4.len() implies is_json_ws(#[trigger] w4[k]) by {
        assert(w4[k] == s[c + 1 + k]);
    }
    assert forall|k: int| 0 <= k < w5.len() implies is_json_ws(#[trigger] w5[k]) by {
        assert(w5[k] == s[q + 1 + k]);
    }
    assert forall|k: int| 0 <= k < w6.len() implies is_json_ws(#[trigger] w6[k]) by {
        assert(w6[k] == s[e + 1 + k]);
    }
    assert(all_ws(w1) && all_ws(w2) && all_ws(w3) && all_ws(w4) && all_ws(w5) && all_ws(w6));
}

/// The index of the first character at or after `from` that is not JSON
/// whitespace.
fn skip_ws(s: &str, from: usize) -> (r: usize)
    requires
        from as int <= s@.len(),
    ensures
        r as int == ws_end(s@, from as int),
        from <= r <= s@.len(),
{
    let n = s.unicode_len();
    let mut i = from;
    while i < n
        invariant
            from <= i <= n,
            n == s@.len(),
            ws_end(s@, from as int) == ws_end(s@, i as int),
        decreases n - i,
    {
        let c = s.get_char(i);
        if !(c == ' ' || c == '\t' || c == '\n' || c == '\r') {
            return i;
        }
        i += 1;
    }
    i
}

/// Extracts the address from a response body, or `None` when the body does
/// not have the accepted shape — for no candidate address at all. A body
/// whose value carries an escape sequence is rejected: accepted values are
/// escape-free.
pub fn parse_ip_response(body: &str) -> (r: Option<String>)
    ensures
        (match r {
            Some(v) => ip_response_matches(body@, v@),
            None => forall|v: Seq<char>| !ip_response_matches(body@, v),
        }),
{
    let n = body.unicode_len();
    let a = skip_ws(body, 0);
    if a >= n || body.get_char(a) != '{' {
        proof {
            assert forall|v: Seq<char>| !ip_response_matches(body@, v) by {
                if ip_response_matches(body@, v) {
                    lemma_match_positions(body@, v);
                }
            }
        }
        return None;
    }
    let b = skip_ws(body, a + 1);
    if n - b < 4 || body.get_char(b) != '"' || body.get_char(b + 1) != 'i'
        || body.get_char(b + 2) != 'p' || body.get_char(b + 3) != '"' {
        proof {
            assert forall|v: Seq<char>| !ip_response_matches(body@, v) by {
                if ip_response_matches(body@, v) {
                    lemma_match_positions(body@, v);
                }
            }
        }
        return None;
    }
    let c = skip_ws(body, b + 4);
    if c >= n || body.get_char(c) != ':' {
        proof {
            assert forall|v: Seq<char>| !ip_response_matches(body@, v) by {
                if ip_response_matches(body@, v) {
                    lemma_match_positions(body@, v);
                }
            }
        }
        return None;
    }
    let d = skip_ws(body, c + 1);
    if d >= n || body.get_char(d) != '"' {
        proof {
            assert forall|v: Seq<char>| !ip_response_matches(body@, v) by {
                if ip_response_matches(body@, v) {
                    lemma_match_positions(body@, v);
                }
            }
        }
        return None;
    }
    let mut j = d + 1;
    while j < n && body.get_char(j) != '"'
        invariant
            d + 1 <= j <= n,
            n == body@.len(),
            d < n,
            d as int == pos_d(body@),
            forall|k: int| d + 1 <= k < j
                ==> (#[trigger] body@[k]) != '"' && body@[k] != '\\' && body@[k] as int >= 32,
        decreases n - j,
    {
        let ch = body.get_char(j);
        if ch == '\\' || (ch as u32) < 32 {
            proof {
                assert forall|v: Seq<char>| !ip_response_matches(body@, v) by {
                    if ip_response_matches(body@, v) {
                        lemma_value_region(body@, v, j as int);
                    }
                }
            }
            return None;
        }
        j += 1;
    }
    if j >= n {
        proof {
            assert forall|v: Seq<char>| !ip_response_matches(body@, v) by {
                if ip_response_matches(body@, v) {
                    lemma_value_region(body@, v, j as int);
                }
            }
        }
        return None;
    }
    let e = skip_ws(body, j + 1);
    if e >= n || body.get_char(e) != '}' {
        proof {
            assert forall|v: Seq<char>| !ip_response_matches(body@, v) by {
                if ip_response_matches(body@, v) {
                    lemma_value_region(body@, v, j as int);
                    assert(pos_d(body@) + 1 + v.len() == j);
                    lemma_match_positions(body@, v);
                }
            }
        }
        return None;
    }
    let f = skip_ws(body, e + 1);
    if f < n {
        proof {
            assert forall|v: Seq<char>| !ip_response_matches(body@, v) by {
                if ip_response_matches(body@, v) {
                    lemma_value_region(body@, v, j as int);
                    assert(pos_d(body@) + 1 + v.len() == j);
                    lemma_match_positions(body@, v);
                }
            }
        }
        return None;
    }
    let v = body.substring_char(d + 1, j).to_owned();
    proof {
        lemma_positions_match(body@, a as int, b as int, c as int, d as int, j as int, e as int);
    }
    Some(v)
}

} // verus!
