use ddns_core::plan::{parse_plan, Domain, PropagationPlan, Record};

fn record_ids(d: &Domain) -> Vec<String> {
    let mut out = Vec::new();
    for r in &d.records {
        out.push(r.id.clone());
    }
    out
}

#[test]
fn parses_example_configuration() {
    let plan = parse_plan("abc:1,2;def:3");
    assert_eq!(plan.domains.len(), 2);
    assert_eq!(plan.domains[0].id, "abc");
    assert_eq!(record_ids(&plan.domains[0]), vec!["1".to_string(), "2".to_string()]);
    assert_eq!(plan.domains[1].id, "def");
    assert_eq!(record_ids(&plan.domains[1]), vec!["3".to_string()]);
}

#[test]
fn counts_match_structure() {
    let plan = parse_plan("a:1;b:2,3;c:4,5,6");
    assert_eq!(plan.domains.len(), 3);
    assert_eq!(plan.domains[0].records.len(), 1);
    assert_eq!(plan.domains[1].records.len(), 2);
    assert_eq!(plan.domains[2].records.len(), 3);
}

#[test]
fn segment_without_colon_is_its_own_record_list() {
    let plan = parse_plan("abc");
    assert_eq!(plan.domains.len(), 1);
    assert_eq!(plan.domains[0].id, "abc");
    assert_eq!(record_ids(&plan.domains[0]), vec!["abc".to_string()]);
}

#[test]
fn multi_colon_segment_takes_first_and_last_parts() {
    let plan = parse_plan("a:b:1,2");
    assert_eq!(plan.domains.len(), 1);
    assert_eq!(plan.domains[0].id, "a");
    assert_eq!(record_ids(&plan.domains[0]), vec!["1".to_string(), "2".to_string()]);
}

#[test]
fn empty_configuration_yields_one_empty_domain() {
    let plan = parse_plan("");
    assert_eq!(plan.domains.len(), 1);
    assert_eq!(plan.domains[0].id, "");
    assert_eq!(record_ids(&plan.domains[0]), vec!["".to_string()]);
}

#[test]
fn plan_can_be_built_directly() {
    let plan = PropagationPlan {
        domains: vec![Domain { id: "x".to_string(), records: vec![Record { id: "9".to_string() }] }],
    };
    assert_eq!(plan.domains.len(), 1);
    assert_eq!(plan.domains[0].records[0].id, "9");
}
