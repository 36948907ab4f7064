use ddns_core::plan::{parse_plan, Domain, PropagationPlan, Record};

// Drives a full propagation over `plan`, failing exactly the (domain, record)
// identifier pairs listed in `failures`, and returns the attempted pairs in
// order.
fn drive(plan: &PropagationPlan, failures: &[(&str, &str)]) -> Vec<(String, String)> {
    let mut attempted = Vec::new();
    let mut cursor = plan.cursor_start();
    while let Some((at, dom, rec)) = plan.cursor_next(&cursor) {
        attempted.push((dom.clone(), rec.clone()));
        let success = !failures.iter().any(|(d, r)| *d == dom && *r == rec);
        cursor = plan.cursor_advance(&at, success);
    }
    attempted
}

fn pairs(v: &[(&str, &str)]) -> Vec<(String, String)> {
    v.iter().map(|(d, r)| (d.to_string(), r.to_string())).collect()
}

#[test]
fn all_success_attempts_every_record_in_order() {
    let plan = parse_plan("a:1,2;b:3");
    let attempted = drive(&plan, &[]);
    assert_eq!(attempted, pairs(&[("a", "1"), ("a", "2"), ("b", "3")]));
}

#[test]
fn failure_skips_rest_of_domain_but_not_later_domains() {
    let plan = parse_plan("a:1,2,3;b:4;c:5,6");
    let attempted = drive(&plan, &[("a", "1")]);
    assert_eq!(attempted, pairs(&[("a", "1"), ("b", "4"), ("c", "5"), ("c", "6")]));
}

#[test]
fn failure_on_last_record_of_domain_changes_nothing_after() {
    let plan = parse_plan("a:1,2;b:3");
    let attempted = drive(&plan, &[("a", "2")]);
    assert_eq!(attempted, pairs(&[("a", "1"), ("a", "2"), ("b", "3")]));
}

#[test]
fn failures_in_every_domain_still_visit_every_domain() {
    let plan = parse_plan("a:1,2;b:3,4;c:5,6");
    let attempted = drive(&plan, &[("a", "1"), ("b", "3"), ("c", "5")]);
    assert_eq!(attempted, pairs(&[("a", "1"), ("b", "3"), ("c", "5")]));
}

#[test]
fn empty_domain_is_a_no_op() {
    let plan = PropagationPlan {
        domains: vec![
            Domain { id: "a".to_string(), records: vec![Record { id: "1".to_string() }] },
            Domain { id: "empty".to_string(), records: vec![] },
            Domain { id: "c".to_string(), records: vec![Record { id: "2".to_string() }] },
        ],
    };
    let attempted = drive(&plan, &[]);
    assert_eq!(attempted, pairs(&[("a", "1"), ("c", "2")]));
}
