//! Separator-based splitting of character sequences, the common ground of
//! configuration parsing and IPv4 validation.
use vstd::prelude::*;

verus! {

/// Number of occurrences of `sep` in `s`.
pub open spec fn count_char(s: Seq<char>, sep: char) -> nat
    decreases s.len(),
{
    if s.len() == 0 {
        0
    } else {
        count_char(s.drop_last(), sep) + if s.last() == sep {
            1nat
        } else {
            0nat
        }
    }
}

/// The pieces of `s` between occurrences of `sep`, in order. There is always
/// at least one piece; a separator at either end or two adjacent separators
/// contribute an empty piece.
pub open spec fn split_spec(s: Seq<char>, sep: char) -> Seq<Seq<char>>
    decreases s.len(),
{
    if s.len() == 0 {
        seq![Seq::<char>::empty()]
    } else if s.last() == sep {
        split_spec(s.drop_last(), sep).push(Seq::<char>::empty())
    } else {
        let r = split_spec(s.drop_last(), sep);
        r.update(r.len() - 1, r.last().push(s.last()))
    }
}

/// Splitting yields exactly one more piece than there are separators.
pub proof fn lemma_split_count(s: Seq<char>, sep: char)
    ensures
        split_spec(s, sep).len() == count_char(s, sep) + 1,
    decreases s.len(),
{
    if s.len() == 0 {
    } else {
        lemma_split_count(s.drop_last(), sep);
    }
}

/// Splits `s` at every occurrence of `sep`.
pub fn split(s: &str, sep: char) -> (r: Vec<String>)
    ensures
        r@.map_values(|p: String| p@) == split_spec(s@, sep),
        r@.len() >= 1,
{
    let n = s.unicode_len();
    let mut pieces: Vec<String> = Vec::new();
    let mut start: usize = 0;
    let mut i: usize = 0;
    proof {
        let f = |p: String| p@;
        assert(s@.subrange(0, 0) =~= Seq::<char>::empty());
        assert(pieces@.map_values(f).push(s@.subrange(0, 0))
            =~= split_spec(s@.subrange(0, 0), sep));
    }
    while i < n
        invariant
            start <= i <= n,
            n == s@.len(),
            pieces@.map_values(|p: String| p@).push(s@.subrange(start as int, i as int))
                == split_spec(s@.subrange(0, i as int), sep),
        decreases n - i,
    {
        let c = s.get_char(i);
        proof {
            assert(s@.subrange(0, i + 1) == s@.subrange(0, i as int).push(s@[i as int]));
            assert(s@.subrange(0, i + 1).drop_last() == s@.subrange(0, i as int));
        }
        if c == sep {
            let piece = s.substring_char(start, i).to_owned();
            proof {
                let f = |p: String| p@;
                assert(pieces@.push(piece).map_values(f)
                    =~= pieces@.map_values(f).push(s@.subrange(start as int, i as int)));
                assert(pieces@.push(piece).map_values(f).push(Seq::<char>::empty())
                    =~= split_spec(s@.subrange(0, i + 1), sep));
            }
            pieces.push(piece);
            start = i + 1;
            proof {
                assert(s@.subrange(start as int, i + 1) =~= Seq::<char>::empty());
            }
        } else {
            proof {
                let f = |p: String| p@;
                let prev = split_spec(s@.subrange(0, i as int), sep);
                assert(prev.last() == s@.subrange(start as int, i as int));
                assert(s@.subrange(start as int, i + 1)
                    =~= s@.subrange(start as int, i as int).push(s@[i as int]));
                assert(pieces@.map_values(f).push(s@.subrange(start as int, i + 1))
                    =~= prev.update(prev.len() - 1, prev.last().push(s@[i as int])));
            }
        }
        i += 1;
    }
    let piece = s.substring_char(start, n).to_owned();
    proof {
        let f = |p: String| p@;
        assert(s@.subrange(0, n as int) == s@);
        assert(pieces@.push(piece).map_values(f)
            =~= pieces@.map_values(f).push(s@.subrange(start as int, n as int)));
    }
    pieces.push(piece);
    pieces
}

} // verus!
