//! Propagation of a new address across the plan, as a cursor machine: the
//! driver asks for the next (domain, record) target, performs the provider
//! call, and reports whether it succeeded. A failure skips the remaining
//! records of that domain; subsequent domains are attempted regardless.
use vstd::prelude::*;
use crate::plan::PropagationPlan;

verus! {

/// A position in the plan while propagating: the next domain and record to
/// attempt. `domain == plan.len()` once every domain has been handled.
pub struct PropagationCursor {
    pub domain: usize,
    pub record: usize,
}

/// The first position at or after `(d, r)` that names an existing record,
/// skipping exhausted or empty domains; `(plan.len(), 0)` if none is left.
pub open spec fn norm_spec(plan: Seq<(Seq<char>, Seq<Seq<char>>)>, d: int, r: int) -> (int, int)
    decreases plan.len() - d when 0 <= d
{
    if d >= plan.len() {
        (plan.len() as int, 0)
    } else if r >= plan[d].1.len() {
        norm_spec(plan, d + 1, 0)
    } else {
        (d, r)
    }
}

/// The ordered (domain, record) index pairs attempted from position `(d, r)`
/// on, when the provider call on pair `(x, y)` succeeds exactly if `ok(x, y)`:
/// a successful record is followed by the next record of the same domain, a
/// failed one by the first record of the next domain.
pub open spec fn trace_from(
    plan: Seq<(Seq<char>, Seq<Seq<char>>)>,
    ok: spec_fn(int, int) -> bool,
    d: int,
    r: int,
) -> Seq<(int, int)>
    decreases plan.len() - d, plan[d].1.len() - r when 0 <= d && 0 <= r
{
    if d >= plan.len() {
        Seq::empty()
    } else if r >= plan[d].1.len() {
        trace_from(plan, ok, d + 1, 0)
    } else if ok(d, r) {
        seq![(d, r)] + trace_from(plan, ok, d, r + 1)
    } else {
        seq![(d, r)] + trace_from(plan, ok, d + 1, 0)
    }
}

/// The full propagation: every attempted (domain, record) pair, in order.
pub open spec fn trace(
    plan: Seq<(Seq<char>, Seq<Seq<char>>)>,
    ok: spec_fn(int, int) -> bool,
) -> Seq<(int, int)> {
    trace_from(plan, ok, 0, 0)
}

/// Record `r` of domain `d` is attempted exactly when it exists and every
/// earlier record of the same domain succeeded.
pub open spec fn attempted(
    plan: Seq<(Seq<char>, Seq<Seq<char>>)>,
    ok: spec_fn(int, int) -> bool,
    d: int,
    r: int,
) -> bool {
    &&& 0 <= d < plan.len()
    &&& 0 <= r < plan[d].1.len()
    &&& forall|j: int| 0 <= j < r ==> #[trigger] ok(d, j)
}

/// Membership condition for `trace_from(plan, ok, d0, r0)`: within the
/// starting domain only records from `r0` on whose predecessors from `r0` on
/// succeeded; in later domains the plain `attempted` condition.
spec fn reach(
    plan: Seq<(Seq<char>, Seq<Seq<char>>)>,
    ok: spec_fn(int, int) -> bool,
    d0: int,
    r0: int,
    d: int,
    r: int,
) -> bool {
    if d == d0 {
        &&& 0 <= d < plan.len()
        &&& r0 <= r < plan[d].1.len()
        &&& forall|j: int| r0 <= j < r ==> #[trigger] ok(d, j)
    } else {
        &&& d0 < d < plan.len()
        &&& 0 <= r < plan[d].1.len()
        &&& forall|j: int| 0 <= j < r ==> #[trigger] ok(d, j)
    }
}

proof fn lemma_trace_membership_from(
    plan: Seq<(Seq<char>, Seq<Seq<char>>)>,
    ok: spec_fn(int, int) -> bool,
    d0: int,
    r0: int,
)
    requires
        0 <= d0,
        0 <= r0,
    ensures
        forall|d: int, r: int| #[trigger] trace_from(plan, ok, d0, r0).contains((d, r))
            <==> reach(plan, ok, d0, r0, d, r),
    decreases plan.len() - d0, plan[d0].1.len() - r0,
{
    let t = trace_from(plan, ok, d0, r0);
    if d0 >= plan.len() {
        assert forall|d: int, r: int| #[trigger] t.contains((d, r))
            <==> reach(plan, ok, d0, r0, d, r) by {
            assert(!t.contains((d, r)));
            assert(!reach(plan, ok, d0, r0, d, r));
        }
    } else if r0 >= plan[d0].1.len() {
        lemma_trace_membership_from(plan, ok, d0 + 1, 0);
        assert(t == trace_from(plan, ok, d0 + 1, 0));
        assert forall|d: int, r: int| #[trigger] t.contains((d, r))
            <==> reach(plan, ok, d0, r0, d, r) by {
            assert(trace_from(plan, ok, d0 + 1, 0).contains((d, r))
                <==> reach(plan, ok, d0 + 1, 0, d, r));
            if d == d0 {
                assert(!reach(plan, ok, d0, r0, d, r));
                assert(!reach(plan, ok, d0 + 1, 0, d, r));
            }
        }
    } else {
        let rest = if ok(d0, r0) {
            trace_from(plan, ok, d0, r0 + 1)
        } else {
            trace_from(plan, ok, d0 + 1, 0)
        };
        if ok(d0, r0) {
            lemma_trace_membership_from(plan, ok, d0, r0 + 1);
        } else {
            lemma_trace_membership_from(plan, ok, d0 + 1, 0);
        }
        assert(t == seq![(d0, r0)] + rest);
        assert forall|d: int, r: int| #[trigger] t.contains((d, r))
            <==> reach(plan, ok, d0, r0, d, r) by {
            assert(t[0] == (d0, r0));
            if t.contains((d, r)) {
                let idx = choose|idx: int| 0 <= idx < t.len() && t[idx] == (d, r);
                if idx == 0 {
                    assert((d, r) == (d0, r0));
                    assert(reach(plan, ok, d0, r0, d0, r0));
                } else {
                    assert(rest[idx - 1] == (d, r));
                    assert(rest.contains((d, r)));
                    if ok(d0, r0) {
                        assert(reach(plan, ok, d0, r0 + 1, d, r));
                        if d == d0 {
                            assert forall|j: int| r0 <= j < r implies #[trigger] ok(d, j) by {
                                if j > r0 {
                                    assert(ok(d, j));
                                }
                            }
                        }
                        assert(reach(plan, ok, d0, r0, d, r));
                    } else {
                        assert(reach(plan, ok, d0 + 1, 0, d, r));
                        assert(reach(plan, ok, d0, r0, d, r));
                    }
                }
            }
            if reach(plan, ok, d0, r0, d, r) {
                if d == d0 && r == r0 {
                    assert(t.contains((d, r)));
                } else {
                    if ok(d0, r0) {
                        assert(reach(plan, ok, d0, r0 + 1, d, r));
                        assert(rest.contains((d, r)));
                    } else {
                        if d == d0 {
                            assert(r > r0);
                            assert(ok(d0, r0));
                            assert(false);
                        }
                        assert(reach(plan, ok, d0 + 1, 0, d, r));
                        assert(rest.contains((d, r)));
                    }
                    let idx = choose|idx: int| 0 <= idx < rest.len() && rest[idx] == (d, r);
                    assert(t[idx + 1] == (d, r));
                    assert(t.contains((d, r)));
                }
            }
        }
    }
}

/// The pairs attempted in a propagation are exactly those whose earlier
/// records in the same domain all succeeded: a failed record prevents the
/// later records of its own domain and nothing else.
pub proof fn lemma_trace_membership(
    plan: Seq<(Seq<char>, Seq<Seq<char>>)>,
    ok: spec_fn(int, int) -> bool,
)
    ensures
        forall|d: int, r: int| #[trigger] trace(plan, ok).contains((d, r))
            <==> attempted(plan, ok, d, r),
{
    lemma_trace_membership_from(plan, ok, 0, 0);
    assert forall|d: int, r: int| #[trigger] trace(plan, ok).contains((d, r))
        <==> attempted(plan, ok, d, r) by {
        assert(trace(plan, ok).contains((d, r)) <==> reach(plan, ok, 0, 0, d, r));
    }
}

/// A record update that fails does not prevent subsequent domains from being
/// attempted — every later domain still has its first record attempted — but
/// it does prevent the remaining records of its own domain.
pub proof fn lemma_failure_isolated(
    plan: Seq<(Seq<char>, Seq<Seq<char>>)>,
    ok: spec_fn(int, int) -> bool,
    d: int,
    r: int,
)
    requires
        0 <= d < plan.len(),
        0 <= r < plan[d].1.len(),
        !ok(d, r),
    ensures
        forall|r2: int| r < r2 < plan[d].1.len() ==> !trace(plan, ok).contains((d, r2)),
        forall|d2: int| d < d2 < plan.len() && plan[d2].1.len() > 0
            ==> trace(plan, ok).contains((d2, 0)),
{
    lemma_trace_membership(plan, ok);
    assert forall|r2: int| r < r2 < plan[d].1.len()
        implies !trace(plan, ok).contains((d, r2)) by {
        assert(!attempted(plan, ok, d, r2));
    }
    assert forall|d2: int| d < d2 < plan.len() && plan[d2].1.len() > 0
        implies trace(plan, ok).contains((d2, 0)) by {
        assert(attempted(plan, ok, d2, 0));
    }
}

/// The ordered enumeration of every (domain, record) pair of the plan.
pub open spec fn plan_pairs_from(plan: Seq<(Seq<char>, Seq<Seq<char>>)>, d: int) -> Seq<(int, int)>
    decreases plan.len() - d when 0 <= d
{
    if d >= plan.len() {
        Seq::empty()
    } else {
        Seq::new(plan[d].1.len(), |j: int| (d, j)) + plan_pairs_from(plan, d + 1)
    }
}

proof fn lemma_all_success_from(
    plan: Seq<(Seq<char>, Seq<Seq<char>>)>,
    ok: spec_fn(int, int) -> bool,
    d: int,
    r: int,
)
    requires
        0 <= d,
        0 <= r,
        d < plan.len() ==> r <= plan[d].1.len(),
        forall|x: int, y: int| 0 <= x < plan.len() && 0 <= y < plan[x].1.len()
            ==> #[trigger] ok(x, y),
    ensures
        d < plan.len() ==> trace_from(plan, ok, d, r)
            == Seq::new((plan[d].1.len() - r) as nat, |j: int| (d, r + j)) + plan_pairs_from(plan, d + 1),
        d >= plan.len() ==> trace_from(plan, ok, d, r) == Seq::<(int, int)>::empty(),
    decreases plan.len() - d, plan[d].1.len() - r,
{
    if d >= plan.len() {
    } else if r >= plan[d].1.len() {
        lemma_all_success_from(plan, ok, d + 1, 0);
        if d + 1 < plan.len() {
            assert(Seq::new((plan[d + 1].1.len() - 0) as nat, |j: int| (d + 1, 0 + j))
                =~= Seq::new(plan[d + 1].1.len(), |j: int| (d + 1, j)));
            assert(trace_from(plan, ok, d, r)
                =~= Seq::new((plan[d].1.len() - r) as nat, |j: int| (d, r + j)) + plan_pairs_from(plan, d + 1));
        } else {
            assert(trace_from(plan, ok, d, r)
                =~= Seq::new((plan[d].1.len() - r) as nat, |j: int| (d, r + j)) + plan_pairs_from(plan, d + 1));
        }
    } else {
        assert(ok(d, r));
        lemma_all_success_from(plan, ok, d, r + 1);
        assert(trace_from(plan, ok, d, r)
            =~= Seq::new((plan[d].1.len() - r) as nat, |j: int| (d, r + j)) + plan_pairs_from(plan, d + 1));
    }
}

/// When every provider call succeeds, propagation attempts every
/// (domain, record) pair of the plan exactly once, in configured order.
pub proof fn lemma_all_success_order(
    plan: Seq<(Seq<char>, Seq<Seq<char>>)>,
    ok: spec_fn(int, int) -> bool,
)
    requires
        forall|x: int, y: int| 0 <= x < plan.len() && 0 <= y < plan[x].1.len()
            ==> #[trigger] ok(x, y),
    ensures
        trace(plan, ok) == plan_pairs_from(plan, 0),
{
    lemma_all_success_from(plan, ok, 0, 0);
    if plan.len() > 0 {
        assert(Seq::new((plan[0].1.len() - 0) as nat, |j: int| (0, 0 + j))
            =~= Seq::new(plan[0].1.len(), |j: int| (0int, j)));
        assert(trace(plan, ok) =~= plan_pairs_from(plan, 0));
    } else {
        assert(trace(plan, ok) =~= plan_pairs_from(plan, 0));
    }
}

impl PropagationPlan {
    /// The cursor from which a fresh propagation starts.
    pub fn cursor_start(&self) -> (c: PropagationCursor)
        ensures
            c.domain == 0,
            c.record == 0,
    {
        PropagationCursor { domain: 0, record: 0 }
    }

    /// The next target at or after the cursor: the normalized cursor and the
    /// domain and record identifiers to address, or `None` when the
    /// propagation is complete.
    pub fn cursor_next(&self, c: &PropagationCursor) -> (r: Option<(PropagationCursor, String, String)>)
        ensures
            (match r {
                None => norm_spec(self@, c.domain as int, c.record as int).0 == self@.len(),
                Some((c2, dom, rec)) => {
                    let n = norm_spec(self@, c.domain as int, c.record as int);
                    &&& n.0 < self@.len()
                    &&& c2.domain == n.0
                    &&& c2.record == n.1
                    &&& dom@ == self@[n.0].0
                    &&& rec@ == self@[n.0].1[n.1]
                },
            }),
    {
        let mut d = c.domain;
        let mut r = c.record;
        proof {
            assert(self.domains@.map_values(|x: crate::plan::Domain| x@).len()
                == self.domains@.len());
        }
        while d < self.domains.len() && r >= self.domains[d].records.len()
            invariant
                self@.len() == self.domains@.len(),
                norm_spec(self@, d as int, r as int)
                    == norm_spec(self@, c.domain as int, c.record as int),
                d > c.domain ==> r == 0,
            decreases self.domains@.len() - d,
        {
            proof {
                let fd = |x: crate::plan::Domain| x@;
                assert(self@[d as int] == fd(self.domains@[d as int]));
                assert(self.domains@[d as int].records@.map_values(|y: crate::plan::Record| y@).len()
                    == self.domains@[d as int].records@.len());
            }
            d = d + 1;
            r = 0;
        }
        if d >= self.domains.len() {
            return None;
        }
        proof {
            let fd = |x: crate::plan::Domain| x@;
            assert(self@[d as int] == fd(self.domains@[d as int]));
            assert(self.domains@[d as int].records@.map_values(|y: crate::plan::Record| y@).len()
                == self.domains@[d as int].records@.len());
            assert(norm_spec(self@, d as int, r as int) == (d as int, r as int));
        }
        let domain = &self.domains[d];
        let dom_id = domain.id.clone();
        let rec_id = domain.records[r].id.clone();
        proof {
            let fd = |x: crate::plan::Domain| x@;
            let fr = |y: crate::plan::Record| y@;
            assert(self@[d as int] == fd(self.domains@[d as int]));
            assert(self@[d as int].1[r as int]
                == fr(self.domains@[d as int].records@[r as int]));
        }
        Some((PropagationCursor { domain: d, record: r }, dom_id, rec_id))
    }

    /// Advances past the target the cursor names, to the next record of the
    /// same domain after a success, or to the next domain after a failure.
    pub fn cursor_advance(&self, c: &PropagationCursor, success: bool) -> (c2: PropagationCursor)
        requires
            (c.domain as int) < self@.len(),
            (c.record as int) < self@[c.domain as int].1.len(),
        ensures
            success ==> c2.domain == c.domain && c2.record == c.record + 1,
            !success ==> c2.domain == c.domain + 1 && c2.record == 0,
    {
        proof {
            assert(self.domains@.map_values(|x: crate::plan::Domain| x@).len()
                == self.domains@.len());
            let fd = |x: crate::plan::Domain| x@;
            assert(self@[c.domain as int] == fd(self.domains@[c.domain as int]));
            assert(self.domains@[c.domain as int].records@
                .map_values(|y: crate::plan::Record| y@).len()
                == self.domains@[c.domain as int].records@.len());
            // The vectors' lengths fit in usize, so both successors do too.
            assert(self.domains.len() == self.domains@.len());
            assert(self.domains@[c.domain as int].records.len()
                == self.domains@[c.domain as int].records@.len());
        }
        if success {
            PropagationCursor { domain: c.domain, record: c.record + 1 }
        } else {
            PropagationCursor { domain: c.domain + 1, record: 0 }
        }
    }
}

/// One step of the cursor machine generates the trace: from any position the
/// trace is empty when normalization runs off the plan, and otherwise starts
/// with the normalized target and continues from the advanced cursor.
pub proof fn lemma_trace_step(
    plan: Seq<(Seq<char>, Seq<Seq<char>>)>,
    ok: spec_fn(int, int) -> bool,
    d: int,
    r: int,
)
    requires
        0 <= d,
        0 <= r,
    ensures
        ({
            let n = norm_spec(plan, d, r);
            trace_from(plan, ok, d, r) == if n.0 >= plan.len() {
                Seq::<(int, int)>::empty()
            } else if ok(n.0, n.1) {
                seq![(n.0, n.1)] + trace_from(plan, ok, n.0, n.1 + 1)
            } else {
                seq![(n.0, n.1)] + trace_from(plan, ok, n.0 + 1, 0)
            }
        }),
    decreases plan.len() - d,
{
    if d >= plan.len() {
    } else if r >= plan[d].1.len() {
        lemma_trace_step(plan, ok, d + 1, 0);
    } else {
    }
}

} // verus!
