use std::cmp::Ordering;

use idesyde::DesignModelHeader;

use idesyde::DecisionModelHeader;
use idesyde::LabelledArcWithPorts;

fn arc(src: &str, dst: &str, label: Option<&str>) -> LabelledArcWithPorts {
    LabelledArcWithPorts {
        src: src.to_string(),
        src_port: None,
        label: label.map(|l| l.to_string()),
        dst: dst.to_string(),
        dst_port: None,
    }
}

fn header(category: &str, elements: &[&str], relations: Vec<LabelledArcWithPorts>) -> DecisionModelHeader {
    DecisionModelHeader {
        category: category.to_string(),
        body_path: None,
        covered_elements: elements.iter().map(|e| e.to_string()).collect(),
        covered_relations: relations,
    }
}

#[test]
fn header_equality_is_set_equality() {
    let a = header("m", &["x", "y"], vec![arc("x", "y", Some("5"))]);
    let b = header("m", &["y", "x", "x"], vec![arc("x", "y", Some("5"))]);
    assert!(a == b);
    assert!(a.partial_cmp(&b) == Some(Ordering::Equal));
}

#[test]
fn header_equality_ignores_body_path() {
    let a = header("m", &["x"], vec![]);
    let mut b = header("m", &["x"], vec![]);
    b.body_path = Some("/tmp/other".to_string());
    assert!(a == b);
}

#[test]
fn header_inequality_on_category_or_sets() {
    let a = header("m", &["x"], vec![]);
    let b = header("n", &["x"], vec![]);
    assert!(!(a == b));
    let c = header("m", &["x", "z"], vec![]);
    assert!(!(a == c));
}

#[test]
fn header_order_strict_superset_is_greater() {
    let small = header("m", &["x"], vec![]);
    let big = header("m", &["x", "y"], vec![arc("x", "y", None)]);
    assert!(big.partial_cmp(&small) == Some(Ordering::Greater));
    assert!(small.partial_cmp(&big) == Some(Ordering::Less));
}

#[test]
fn header_order_reflexive() {
    let a = header("m", &["x", "y"], vec![arc("x", "y", Some("w"))]);
    assert!(a.partial_cmp(&a) == Some(Ordering::Equal));
}

#[test]
fn header_order_incomparable_sets() {
    let a = header("m", &["x", "y"], vec![]);
    let b = header("m", &["y", "z"], vec![]);
    assert!(a.partial_cmp(&b) == None);
    assert!(b.partial_cmp(&a) == None);
}

#[test]
fn header_order_relations_matter() {
    let bare = header("m", &["x", "y"], vec![]);
    let related = header("m", &["x", "y"], vec![arc("x", "y", None)]);
    assert!(related.partial_cmp(&bare) == Some(Ordering::Greater));
}

#[test]
fn cross_category_always_incomparable() {
    let a = header("m", &["x"], vec![]);
    let b = header("n", &["x"], vec![]);
    assert!(a.partial_cmp(&b) == None);
    let small = header("m", &[], vec![]);
    let big = header("n", &["x", "y"], vec![]);
    assert!(small.partial_cmp(&big) == None);
}

#[test]
fn arc_equality_compares_ports_and_label_by_value() {
    let a = LabelledArcWithPorts {
        src: "s".to_string(),
        src_port: Some("p".to_string()),
        label: Some("l".to_string()),
        dst: "d".to_string(),
        dst_port: None,
    };
    let b = LabelledArcWithPorts {
        src: "s".to_string(),
        src_port: Some("p".to_string()),
        label: Some("l".to_string()),
        dst: "d".to_string(),
        dst_port: None,
    };
    assert!(a == b);
    let c = LabelledArcWithPorts {
        src: "s".to_string(),
        src_port: None,
        label: Some("l".to_string()),
        dst: "d".to_string(),
        dst_port: None,
    };
    assert!(!(a == c));
}

#[test]
fn design_headers_order_like_decision_headers() {
    let small = DesignModelHeader {
        category: "d".to_string(),
        model_paths: vec!["a.xmi".to_string()],
        elements: vec!["x".to_string()],
        relations: vec![],
    };
    let big = DesignModelHeader {
        category: "d".to_string(),
        model_paths: vec![],
        elements: vec!["x".to_string(), "y".to_string()],
        relations: vec![arc("x", "y", None)],
    };
    assert!(big.partial_cmp(&small) == Some(Ordering::Greater));
    assert!(small.partial_cmp(&big) == Some(Ordering::Less));
    assert!(small == DesignModelHeader {
        category: "d".to_string(),
        model_paths: vec![],
        elements: vec!["x".to_string()],
        relations: vec![],
    });
    let other = DesignModelHeader {
        category: "e".to_string(),
        model_paths: vec![],
        elements: vec!["x".to_string()],
        relations: vec![],
    };
    assert!(small.partial_cmp(&other) == None);
}
