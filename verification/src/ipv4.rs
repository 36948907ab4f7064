//! Validation of pushed addresses: a dotted-quad IPv4 literal is four
//! dot-separated decimal groups, each of one to three digits with a value of
//! at most 255.
use vstd::prelude::*;
use crate::splitting::{split, split_spec};

verus! {

pub open spec fn is_digit(c: char) -> bool {
    48 <= c as int <= 57
}

/// The number denoted by a sequence of decimal digits, most significant first.
pub open spec fn decimal_value(g: Seq<char>) -> int
    decreases g.len(),
{
    if g.len() == 0 {
        0
    } else {
        decimal_value(g.drop_last()) * 10 + (g.last() as int - 48)
    }
}

/// One group of a dotted quad: one to three digits denoting at most 255.
pub open spec fn is_octet(g: Seq<char>) -> bool {
    &&& 1 <= g.len() <= 3
    &&& forall|i: int| 0 <= i < g.len() ==> is_digit(#[trigger] g[i])
    &&& decimal_value(g) <= 255
}

/// A dotted-quad IPv4 literal: exactly four dot-separated octets.
pub open spec fn is_ipv4(s: Seq<char>) -> bool {
    &&& split_spec(s, '.').len() == 4
    &&& forall|i: int| 0 <= i < 4 ==> is_octet(#[trigger] split_spec(s, '.')[i])
}

proof fn lemma_decimal_bound(g: Seq<char>, k: int)
    requires
        0 <= k <= g.len(),
        k <= 3,
        forall|j: int| 0 <= j < k ==> is_digit(#[trigger] g[j]),
    ensures
        0 <= decimal_value(g.subrange(0, k)) <= (if k == 0 {
            0int
        } else if k == 1 {
            9int
        } else if k == 2 {
            99int
        } else {
            999int
        }),
    decreases k,
{
    let pre = g.subrange(0, k);
    if k == 0 {
        assert(pre =~= Seq::<char>::empty());
    } else {
        lemma_decimal_bound(g, k - 1);
        assert(pre.drop_last() =~= g.subrange(0, k - 1));
        assert(pre.last() == g[k - 1]);
        assert(is_digit(g[k - 1]));
    }
}

fn check_octet(g: &str) -> (r: bool)
    ensures
        r == is_octet(g@),
{
    let n = g.unicode_len();
    if n < 1 || n > 3 {
        return false;
    }
    let mut v: u32 = 0;
    let mut i: usize = 0;
    proof {
        assert(g@.subrange(0, 0) =~= Seq::<char>::empty());
    }
    while i < n
        invariant
            i <= n <= 3,
            n == g@.len(),
            forall|j: int| 0 <= j < i ==> is_digit(#[trigger] g@[j]),
            v == decimal_value(g@.subrange(0, i as int)),
            v <= 999,
        decreases n - i,
    {
        let c = g.get_char(i);
        let u = c as u32;
        if u < 48 || u > 57 {
            return false;
        }
        proof {
            let pre = g@.subrange(0, i + 1);
            assert(pre.drop_last() =~= g@.subrange(0, i as int));
            assert(pre.last() == g@[i as int]);
            lemma_decimal_bound(g@, i as int);
        }
        v = v * 10 + (u - 48);
        i += 1;
    }
    proof {
        assert(g@.subrange(0, n as int) =~= g@);
    }
    v <= 255
}

/// Whether `ip` is a dotted-quad IPv4 literal, as the push endpoint demands.
pub fn check_if_ipv4(ip: &str) -> (r: bool)
    ensures
        r == is_ipv4(ip@),
{
    let groups = split(ip, '.');
    if groups.len() != 4 {
        proof {
            assert(groups@.map_values(|p: String| p@).len() == groups@.len());
        }
        return false;
    }
    let mut i: usize = 0;
    while i < 4
        invariant
            i <= 4,
            groups@.len() == 4,
            groups@.map_values(|p: String| p@) == split_spec(ip@, '.'),
            forall|j: int| 0 <= j < i ==> is_octet(#[trigger] split_spec(ip@, '.')[j]),
        decreases 4 - i,
    {
        proof {
            let fp = |p: String| p@;
            assert(groups@.map_values(fp)[i as int] == fp(groups@[i as int]));
        }
        if !check_octet(groups[i].as_str()) {
            return false;
        }
        i += 1;
    }
    true
}

} // verus!
