use idesyde::compute_dominant_decision_models;
use idesyde::identification_procedure;
use idesyde::merge_decision_headers;
use idesyde::DecisionModelHeader;
use idesyde::DesignModelHeader;
use idesyde::IdentificationModule;
use idesyde::LabelledArcWithPorts;

fn arc(src: &str, dst: &str, label: Option<&str>) -> LabelledArcWithPorts {
    LabelledArcWithPorts {
        src: src.to_string(),
        src_port: None,
        label: label.map(|l| l.to_string()),
        dst: dst.to_string(),
        dst_port: None,
    }
}

fn decision(category: &str, elements: &[&str], relations: Vec<LabelledArcWithPorts>) -> DecisionModelHeader {
    DecisionModelHeader {
        category: category.to_string(),
        body_path: None,
        covered_elements: elements.iter().map(|e| e.to_string()).collect(),
        covered_relations: relations,
    }
}

#[test]
fn dominant_keeps_only_maximal_headers() {
    let small = decision("m", &["x"], vec![]);
    let mid = decision("m", &["x", "y"], vec![]);
    let big = decision("m", &["x", "y"], vec![arc("x", "y", None)]);
    let other = decision("m", &["z"], vec![]);
    let all = vec![small, mid, big.clone(), other.clone()];
    let dominant = compute_dominant_decision_models(&all);
    assert_eq!(dominant.len(), 2);
    assert!(dominant[0] == big);
    assert!(dominant[1] == other);
}

#[test]
fn dominance_never_crosses_categories() {
    let small = decision("m", &["x"], vec![]);
    let big_other = decision("n", &["x", "y"], vec![]);
    let all = vec![small.clone(), big_other.clone()];
    let dominant = compute_dominant_decision_models(&all);
    assert_eq!(dominant.len(), 2);
}

#[test]
fn dominance_is_idempotent() {
    let all = vec![
        decision("m", &["x"], vec![]),
        decision("m", &["x", "y"], vec![]),
        decision("m", &["y", "z"], vec![]),
        decision("n", &["q"], vec![]),
    ];
    let once = compute_dominant_decision_models(&all);
    let twice = compute_dominant_decision_models(&once);
    assert_eq!(once.len(), twice.len());
    for k in 0..once.len() {
        assert!(once[k] == twice[k]);
    }
}

#[test]
fn equal_headers_do_not_eliminate_each_other() {
    let a = decision("m", &["x", "y"], vec![]);
    let b = decision("m", &["y", "x"], vec![]);
    let all = vec![a, b];
    let dominant = compute_dominant_decision_models(&all);
    assert_eq!(dominant.len(), 2);
}

#[test]
fn merge_drops_headers_already_present_as_facts() {
    let mut acc = vec![decision("m", &["x", "y"], vec![])];
    let incoming = vec![
        decision("m", &["y", "x"], vec![]),
        decision("n", &["z"], vec![]),
        decision("n", &["z"], vec![]),
    ];
    let added = merge_decision_headers(&mut acc, &incoming);
    assert_eq!(added, 1);
    assert_eq!(acc.len(), 2);
    assert_eq!(acc[1].category, "n");
}

struct OneShotModule;

impl IdentificationModule for OneShotModule {
    fn unique_identifier(&self) -> String {
        "one_shot".to_string()
    }

    fn identification_step(
        &self,
        _iteration: u32,
        design_models: &Vec<DesignModelHeader>,
        decision_models: &Vec<DecisionModelHeader>,
    ) -> Vec<DecisionModelHeader> {
        let rich_design = design_models.iter().any(|d| d.elements.len() >= 2);
        let already_there = decision_models.iter().any(|m| m.category == "X");
        if rich_design && !already_there {
            vec![DecisionModelHeader {
                category: "X".to_string(),
                body_path: None,
                covered_elements: vec!["t1".to_string(), "t2".to_string()],
                covered_relations: vec![LabelledArcWithPorts {
                    src: "t1".to_string(),
                    src_port: None,
                    label: Some("5".to_string()),
                    dst: "t2".to_string(),
                    dst_port: None,
                }],
            }]
        } else {
            Vec::new()
        }
    }

    fn reverse_identification(
        &self,
        _design_model: &DesignModelHeader,
        _decision_model: &DecisionModelHeader,
    ) -> Vec<DesignModelHeader> {
        Vec::new()
    }
}

#[test]
fn one_module_converges_in_two_steps() {
    let designs = vec![DesignModelHeader {
        category: "D".to_string(),
        model_paths: vec![],
        elements: vec!["t1".to_string(), "t2".to_string()],
        relations: vec![arc("t1", "t2", Some("5"))],
    }];
    let modules = vec![OneShotModule];
    let initial: Vec<DecisionModelHeader> = Vec::new();
    let (accumulated, steps, fixpoint) = identification_procedure(&modules, &designs, &initial, 10);
    assert!(fixpoint);
    assert_eq!(steps, 2);
    assert_eq!(accumulated.len(), 1);
    assert_eq!(accumulated[0].category, "X");
    assert_eq!(accumulated[0].covered_elements, vec!["t1".to_string(), "t2".to_string()]);
    assert_eq!(accumulated[0].covered_relations.len(), 1);
    assert!(accumulated[0].covered_relations[0] == arc("t1", "t2", Some("5")));
}

struct SilentModule;

impl IdentificationModule for SilentModule {
    fn unique_identifier(&self) -> String {
        "silent".to_string()
    }

    fn identification_step(
        &self,
        _iteration: u32,
        _design_models: &Vec<DesignModelHeader>,
        _decision_models: &Vec<DecisionModelHeader>,
    ) -> Vec<DecisionModelHeader> {
        Vec::new()
    }

    fn reverse_identification(
        &self,
        _design_model: &DesignModelHeader,
        _decision_model: &DecisionModelHeader,
    ) -> Vec<DesignModelHeader> {
        Vec::new()
    }
}

#[test]
fn silent_modules_reach_fixpoint_in_one_step() {
    let designs: Vec<DesignModelHeader> = Vec::new();
    let modules = vec![SilentModule];
    let seed = vec![decision("m", &["x"], vec![])];
    let (accumulated, steps, fixpoint) = identification_procedure(&modules, &designs, &seed, 10);
    assert!(fixpoint);
    assert_eq!(steps, 1);
    assert_eq!(accumulated.len(), 1);
}
