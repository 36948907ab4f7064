//! The propagation plan: the configured domains, each owning an ordered list
//! of record identifiers, parsed once from the configuration string.
//!
//! The configuration grammar: domains are separated by `;`; within a domain
//! segment, the part before the first `:` is the domain identifier and the
//! part after the last `:` is the comma-separated list of record identifiers.
//! A segment without a `:` serves as both its own identifier and record list.
use vstd::prelude::*;
use crate::splitting::{count_char, lemma_split_count, split, split_spec};

verus! {

/// One DNS record, an opaque identifier used in the provider's URL path.
pub struct Record {
    pub id: String,
}

impl View for Record {
    type V = Seq<char>;

    open spec fn view(&self) -> Seq<char> {
        self.id@
    }
}

/// One domain: its identifier and the ordered records it owns.
pub struct Domain {
    pub id: String,
    pub records: Vec<Record>,
}

impl View for Domain {
    type V = (Seq<char>, Seq<Seq<char>>);

    open spec fn view(&self) -> (Seq<char>, Seq<Seq<char>>) {
        (self.id@, self.records@.map_values(|r: Record| r@))
    }
}

/// The ordered collection of domains to which every new address is propagated.
pub struct PropagationPlan {
    pub domains: Vec<Domain>,
}

impl View for PropagationPlan {
    type V = Seq<(Seq<char>, Seq<Seq<char>>)>;

    open spec fn view(&self) -> Seq<(Seq<char>, Seq<Seq<char>>)> {
        self.domains@.map_values(|d: Domain| d@)
    }
}

/// What one `;`-separated configuration segment denotes: the identifier before
/// the first `:` and the records after the last `:`, comma-separated.
pub open spec fn domain_spec(seg: Seq<char>) -> (Seq<char>, Seq<Seq<char>>) {
    let parts = split_spec(seg, ':');
    (parts.first(), split_spec(parts.last(), ','))
}

/// What a whole configuration string denotes.
pub open spec fn plan_spec(s: Seq<char>) -> Seq<(Seq<char>, Seq<Seq<char>>)> {
    split_spec(s, ';').map_values(|seg: Seq<char>| domain_spec(seg))
}

/// Parses one configuration segment into a domain.
pub fn parse_domain(seg: &str) -> (d: Domain)
    ensures
        d@ == domain_spec(seg@),
{
    let parts = split(seg, ':');
    let id = parts[0].clone();
    let last = parts[parts.len() - 1].as_str();
    let rec_ids = split(last, ',');
    let mut records: Vec<Record> = Vec::new();
    let mut j: usize = 0;
    proof {
        let fp = |p: String| p@;
        assert(fp(parts@[0]) == split_spec(seg@, ':').first());
        assert(fp(parts@[parts@.len() - 1]) == split_spec(seg@, ':').last());
    }
    while j < rec_ids.len()
        invariant
            j <= rec_ids@.len(),
            rec_ids@.map_values(|p: String| p@) == split_spec(last@, ','),
            records@.map_values(|r: Record| r@)
                == split_spec(last@, ',').subrange(0, j as int),
        decreases rec_ids@.len() - j,
    {
        let rec = Record { id: rec_ids[j].clone() };
        proof {
            let fr = |r: Record| r@;
            let fp = |p: String| p@;
            let sp = split_spec(last@, ',');
            assert(records@.map_values(fr).len() == records@.len());
            assert(records@.len() == j);
            assert(rec_ids@.map_values(fp)[j as int] == fp(rec_ids@[j as int]));
            assert(rec@ == sp[j as int]);
            assert forall|x: int| 0 <= x < j + 1 implies
                records@.push(rec).map_values(fr)[x] == sp.subrange(0, j + 1)[x] by {
                if x < j {
                    assert(records@.push(rec)[x] == records@[x]);
                    assert(records@.map_values(fr)[x] == sp.subrange(0, j as int)[x]);
                } else {
                    assert(records@.push(rec)[x] == rec);
                }
            }
            assert(records@.push(rec).map_values(fr) =~= sp.subrange(0, j + 1));
        }
        records.push(rec);
        j += 1;
    }
    proof {
        assert(split_spec(last@, ',').subrange(0, split_spec(last@, ',').len() as int)
            =~= split_spec(last@, ','));
    }
    Domain { id, records }
}

/// Parses the full configuration string into the propagation plan. Parsing
/// never fails; the plan always holds at least one domain, and every domain
/// at least one record.
pub fn parse_plan(s: &str) -> (plan: PropagationPlan)
    ensures
        plan@ == plan_spec(s@),
        plan@.len() >= 1,
{
    let segs = split(s, ';');
    let mut domains: Vec<Domain> = Vec::new();
    let mut k: usize = 0;
    proof {
        let fd = |d: Domain| d@;
        assert(domains@.map_values(fd) =~= plan_spec(s@).subrange(0, 0));
    }
    while k < segs.len()
        invariant
            k <= segs@.len(),
            segs@.map_values(|p: String| p@) == split_spec(s@, ';'),
            segs@.len() == plan_spec(s@).len(),
            domains@.map_values(|d: Domain| d@) == plan_spec(s@).subrange(0, k as int),
        decreases segs@.len() - k,
    {
        let seg = segs[k].as_str();
        proof {
            let fp = |p: String| p@;
            assert(fp(segs@[k as int]) == split_spec(s@, ';')[k as int]);
        }
        let d = parse_domain(seg);
        proof {
            let fd = |d: Domain| d@;
            let sp = plan_spec(s@);
            assert(domains@.map_values(fd).len() == domains@.len());
            assert(domains@.len() == k);
            assert(split_spec(s@, ';').map_values(|t: Seq<char>| domain_spec(t))[k as int]
                == domain_spec(split_spec(s@, ';')[k as int]));
            assert(d@ == sp[k as int]);
            assert forall|x: int| 0 <= x < k + 1 implies
                domains@.push(d).map_values(fd)[x] == sp.subrange(0, k + 1)[x] by {
                if x < k {
                    assert(domains@.push(d)[x] == domains@[x]);
                    assert(domains@.map_values(fd)[x] == sp.subrange(0, k as int)[x]);
                } else {
                    assert(domains@.push(d)[x] == d);
                }
            }
            assert(domains@.push(d).map_values(fd) =~= sp.subrange(0, k + 1));
        }
        domains.push(d);
        k += 1;
    }
    proof {
        assert(plan_spec(s@).subrange(0, plan_spec(s@).len() as int) =~= plan_spec(s@));
    }
    PropagationPlan { domains }
}

/// For every configuration string, the parsed plan's domain count matches the
/// semicolon structure of the input exactly, and each domain's record count
/// matches the comma structure of its segment's record part (the part after
/// the last colon) exactly.
pub proof fn lemma_plan_structure(s: Seq<char>)
    ensures
        plan_spec(s).len() == count_char(s, ';') + 1,
        forall|i: int| 0 <= i < plan_spec(s).len()
            ==> (#[trigger] plan_spec(s)[i]).1.len()
                == count_char(split_spec(split_spec(s, ';')[i], ':').last(), ',') + 1,
{
    lemma_split_count(s, ';');
    assert forall|i: int| 0 <= i < plan_spec(s).len()
        implies (#[trigger] plan_spec(s)[i]).1.len()
            == count_char(split_spec(split_spec(s, ';')[i], ':').last(), ',') + 1 by {
        let seg = split_spec(s, ';')[i];
        assert(plan_spec(s)[i] == domain_spec(seg));
        lemma_split_count(split_spec(seg, ':').last(), ',');
    }
}

} // verus!
