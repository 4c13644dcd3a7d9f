use idesyde::decode_binary_decision_header;
use idesyde::decode_binary_design_header;
use idesyde::decode_text_decision_header;
use idesyde::decode_text_design_header;
use idesyde::encode_binary_decision_header;
use idesyde::encode_binary_design_header;
use idesyde::encode_text_decision_header;
use idesyde::encode_text_design_header;
use idesyde::DecisionModelHeader;
use idesyde::DesignModelHeader;
use idesyde::LabelledArcWithPorts;

fn sample_decision() -> DecisionModelHeader {
    DecisionModelHeader {
        category: "SomeWorkload".to_string(),
        body_path: Some("run/body_x.msgpack".to_string()),
        covered_elements: vec!["t1".to_string(), "t2".to_string(), "ch".to_string()],
        covered_relations: vec![
            LabelledArcWithPorts {
                src: "t1".to_string(),
                src_port: Some("out".to_string()),
                label: Some("5".to_string()),
                dst: "t2".to_string(),
                dst_port: Some("in".to_string()),
            },
            LabelledArcWithPorts {
                src: "t2".to_string(),
                src_port: None,
                label: None,
                dst: "ch".to_string(),
                dst_port: None,
            },
        ],
    }
}

fn awkward_decision() -> DecisionModelHeader {
    DecisionModelHeader {
        category: "with \"quotes\" and \\slashes\\ and\nnewlines\tand unicode: \u{1F600}\u{00E9}"
            .to_string(),
        body_path: None,
        covered_elements: vec!["".to_string(), "a,b]c}d".to_string()],
        covered_relations: vec![],
    }
}

fn sample_design() -> DesignModelHeader {
    DesignModelHeader {
        category: "ForSyDeIO".to_string(),
        model_paths: vec!["models/app.forsyde.xmi".to_string()],
        elements: vec!["t1".to_string(), "t2".to_string()],
        relations: vec![LabelledArcWithPorts {
            src: "t1".to_string(),
            src_port: None,
            label: Some("5".to_string()),
            dst: "t2".to_string(),
            dst_port: None,
        }],
    }
}

fn assert_same_decision(a: &DecisionModelHeader, b: &DecisionModelHeader) {
    assert_eq!(a.category, b.category);
    assert_eq!(a.body_path, b.body_path);
    assert_eq!(a.covered_elements, b.covered_elements);
    assert!(a.covered_relations == b.covered_relations);
}

#[test]
fn text_round_trip_decision() {
    let h = sample_decision();
    let text = encode_text_decision_header(&h);
    let back = decode_text_decision_header(&text).unwrap();
    assert_same_decision(&h, &back);
    assert!(h == back);
}

#[test]
fn text_round_trip_decision_awkward_strings() {
    let h = awkward_decision();
    let text = encode_text_decision_header(&h);
    let back = decode_text_decision_header(&text).unwrap();
    assert_same_decision(&h, &back);
}

#[test]
fn binary_round_trip_decision() {
    let h = sample_decision();
    let bytes = encode_binary_decision_header(&h).unwrap();
    let back = decode_binary_decision_header(&bytes).unwrap();
    assert_same_decision(&h, &back);
    assert!(h == back);
}

#[test]
fn binary_round_trip_decision_awkward_strings() {
    let h = awkward_decision();
    let bytes = encode_binary_decision_header(&h).unwrap();
    let back = decode_binary_decision_header(&bytes).unwrap();
    assert_same_decision(&h, &back);
}

#[test]
fn text_round_trip_design() {
    let h = sample_design();
    let text = encode_text_design_header(&h);
    let back = decode_text_design_header(&text).unwrap();
    assert_eq!(h.category, back.category);
    assert_eq!(h.model_paths, back.model_paths);
    assert_eq!(h.elements, back.elements);
    assert!(h.relations == back.relations);
}

#[test]
fn binary_round_trip_design() {
    let h = sample_design();
    let bytes = encode_binary_design_header(&h).unwrap();
    let back = decode_binary_design_header(&bytes).unwrap();
    assert_eq!(h.category, back.category);
    assert_eq!(h.model_paths, back.model_paths);
    assert_eq!(h.elements, back.elements);
    assert!(h.relations == back.relations);
}

#[test]
fn decode_rejects_malformed_text() {
    assert!(decode_text_decision_header(&"not a header".to_string()).is_none());
    assert!(decode_text_decision_header(&"".to_string()).is_none());
    assert!(decode_text_design_header(&"{}".to_string()).is_none());
}

#[test]
fn decode_rejects_malformed_binary() {
    assert!(decode_binary_decision_header(&vec![]).is_none());
    assert!(decode_binary_decision_header(&vec![0x01, 0x02, 0x03]).is_none());
    assert!(decode_binary_design_header(&vec![0xc0]).is_none());
}

#[test]
fn decode_rejects_trailing_text() {
    let h = sample_decision();
    let mut text = encode_text_decision_header(&h);
    text.push(' ');
    assert!(decode_text_decision_header(&text).is_none());
}

#[test]
fn text_encoding_is_valid_json_with_preserved_fields() {
    let h = sample_decision();
    let text = encode_text_decision_header(&h);
    let v: serde_json::Value = serde_json::from_str(&text).unwrap();
    assert_eq!(v["category"].as_str(), Some("SomeWorkload"));
    assert_eq!(v["body_path"].as_str(), Some("run/body_x.msgpack"));
    let elems = v["covered_elements"].as_array().unwrap();
    assert_eq!(elems.len(), 3);
    assert_eq!(elems[0].as_str(), Some("t1"));
    let rels = v["covered_relations"].as_array().unwrap();
    assert_eq!(rels.len(), 2);
    assert_eq!(rels[0]["src"].as_str(), Some("t1"));
    assert_eq!(rels[0]["label"].as_str(), Some("5"));
    assert!(rels[1]["label"].is_null());
}

#[test]
fn text_encoding_escapes_are_valid_json() {
    let h = awkward_decision();
    let text = encode_text_decision_header(&h);
    let v: serde_json::Value = serde_json::from_str(&text).unwrap();
    assert_eq!(v["category"].as_str(), Some(h.category.as_str()));
    assert!(v["body_path"].is_null());
}

#[test]
fn binary_encoding_is_valid_msgpack_with_preserved_fields() {
    let h = sample_decision();
    let bytes = encode_binary_decision_header(&h).unwrap();
    let v: serde_json::Value = rmp_serde::from_slice(&bytes).unwrap();
    assert_eq!(v["category"].as_str(), Some("SomeWorkload"));
    let elems = v["covered_elements"].as_array().unwrap();
    assert_eq!(elems.len(), 3);
    let rels = v["covered_relations"].as_array().unwrap();
    assert_eq!(rels[0]["dst"].as_str(), Some("t2"));
    assert_eq!(rels[0]["src_port"].as_str(), Some("out"));
    assert!(rels[1]["src_port"].is_null());
}

#[test]
fn text_and_binary_encode_the_same_value() {
    let h = sample_decision();
    let text = encode_text_decision_header(&h);
    let bytes = encode_binary_decision_header(&h).unwrap();
    let vt: serde_json::Value = serde_json::from_str(&text).unwrap();
    let vb: serde_json::Value = rmp_serde::from_slice(&bytes).unwrap();
    assert_eq!(vt, vb);
}

#[test]
fn text_encoding_exact_form() {
    let h = DecisionModelHeader {
        category: "m".to_string(),
        body_path: None,
        covered_elements: vec!["x".to_string()],
        covered_relations: vec![],
    };
    let text = encode_text_decision_header(&h);
    assert_eq!(
        text,
        "{\"category\":\"m\",\"body_path\":null,\"covered_elements\":[\"x\"],\"covered_relations\":[]}"
    );
}

#[test]
fn binary_encoding_exact_framing() {
    let h = DecisionModelHeader {
        category: "m".to_string(),
        body_path: None,
        covered_elements: vec![],
        covered_relations: vec![],
    };
    let bytes = encode_binary_decision_header(&h).unwrap();
    // A four-entry map...
    assert_eq!(&bytes[0..5], &[0xdf, 0, 0, 0, 4]);
    // ...whose first key is the framed string "category"...
    assert_eq!(&bytes[5..10], &[0xdb, 0, 0, 0, 8]);
    assert_eq!(&bytes[10..18], b"category");
    // ...with the framed one-byte value "m".
    assert_eq!(&bytes[18..23], &[0xdb, 0, 0, 0, 1]);
    assert_eq!(bytes[23], b'm');
    // The nil body path sits right after the framed key "body_path".
    assert_eq!(&bytes[24..29], &[0xdb, 0, 0, 0, 9]);
    assert_eq!(&bytes[29..38], b"body_path");
    assert_eq!(bytes[38], 0xc0);
}
