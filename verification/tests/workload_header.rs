use idesyde::CommunicatingAndTriggeredReactiveWorkload;
use idesyde::DecisionModel;
use idesyde::DecisionModelHeader;
use idesyde::LabelledArcWithPorts;

fn strings(v: &[&str]) -> Vec<String> {
    v.iter().map(|s| s.to_string()).collect()
}

fn sample_workload() -> CommunicatingAndTriggeredReactiveWorkload {
    CommunicatingAndTriggeredReactiveWorkload::new(
        strings(&["t1", "t2"]),
        vec![64, 64],
        vec![],
        strings(&["c1"]),
        vec![8],
        strings(&["t1"]),
        strings(&["t2"]),
        vec![5],
        strings(&["clock"]),
        vec![1],
        vec![100],
        vec![0],
        vec![1],
        strings(&[]),
        vec![],
        vec![],
        strings(&[]),
        vec![],
        vec![],
        strings(&["clock"]),
        strings(&["t1"]),
        strings(&[]),
    )
    .unwrap()
}

#[test]
fn workload_header_covers_names_and_edges() {
    let w = sample_workload();
    let h = w.header();
    assert_eq!(h.category, "CommunicatingAndTriggeredReactiveWorkload");
    assert_eq!(h.body_path, None);
    assert_eq!(h.covered_elements, strings(&["t1", "t2", "c1", "clock"]));
    assert_eq!(h.covered_relations.len(), 2);
    let data_edge = LabelledArcWithPorts {
        src: "t1".to_string(),
        src_port: None,
        label: Some("5".to_string()),
        dst: "t2".to_string(),
        dst_port: None,
    };
    let trigger_edge = LabelledArcWithPorts {
        src: "clock".to_string(),
        src_port: None,
        label: Some("trigger".to_string()),
        dst: "t1".to_string(),
        dst_port: None,
    };
    assert!(h.covered_relations[0] == data_edge);
    assert!(h.covered_relations[1] == trigger_edge);
}

#[test]
fn workload_unique_identifier_is_its_category() {
    let w = sample_workload();
    assert_eq!(w.unique_identifier(), "CommunicatingAndTriggeredReactiveWorkload");
    assert_eq!(w.unique_identifier(), w.header().category);
}

#[test]
fn workload_rejects_mismatched_edge_lists() {
    let w = CommunicatingAndTriggeredReactiveWorkload::new(
        strings(&["t1"]),
        vec![1],
        vec![],
        strings(&[]),
        vec![],
        strings(&["t1"]),
        strings(&[]),
        vec![5],
        strings(&[]),
        vec![],
        vec![],
        vec![],
        vec![],
        strings(&[]),
        vec![],
        vec![],
        strings(&[]),
        vec![],
        vec![],
        strings(&[]),
        strings(&[]),
        strings(&[]),
    );
    assert!(w.is_none());
}

#[test]
fn workload_dominates_smaller_header_of_its_category() {
    let w = sample_workload();
    let small = DecisionModelHeader {
        category: "CommunicatingAndTriggeredReactiveWorkload".to_string(),
        body_path: None,
        covered_elements: strings(&["t1", "t2"]),
        covered_relations: vec![],
    };
    assert!(w.dominates(&small));
    let other = DecisionModelHeader {
        category: "Other".to_string(),
        body_path: None,
        covered_elements: strings(&["t1"]),
        covered_relations: vec![],
    };
    assert!(!w.dominates(&other));
    assert!(!w.dominates(&w.header()));
}

#[test]
fn workload_large_label_renders_in_decimal() {
    let w = CommunicatingAndTriggeredReactiveWorkload::new(
        strings(&["a", "b"]),
        vec![1, 1],
        vec![],
        strings(&[]),
        vec![],
        strings(&["a"]),
        strings(&["b"]),
        vec![4294967295],
        strings(&[]),
        vec![],
        vec![],
        vec![],
        vec![],
        strings(&[]),
        vec![],
        vec![],
        strings(&[]),
        vec![],
        vec![],
        strings(&[]),
        strings(&[]),
        strings(&[]),
    )
    .unwrap();
    let h = w.header();
    assert_eq!(h.covered_relations.len(), 1);
    let label = h.covered_relations[0].label.clone().unwrap();
    assert_eq!(label, "4294967295");
}

#[test]
fn decimal_parse_inverts_decimal_rendering() {
    assert_eq!(idesyde::parse_u64_decimal(&idesyde::u32_to_string(0)), Some(0));
    assert_eq!(idesyde::parse_u64_decimal(&idesyde::u32_to_string(5)), Some(5));
    assert_eq!(
        idesyde::parse_u64_decimal(&idesyde::u32_to_string(4294967295)),
        Some(4294967295)
    );
    assert_eq!(idesyde::parse_u64_decimal(&"007".to_string()), Some(7));
    assert_eq!(idesyde::parse_u64_decimal(&"".to_string()), None);
    assert_eq!(idesyde::parse_u64_decimal(&"12a".to_string()), None);
    assert_eq!(idesyde::parse_u64_decimal(&"18446744073709551615".to_string()), Some(u64::MAX));
    assert_eq!(idesyde::parse_u64_decimal(&"18446744073709551616".to_string()), None);
}
