use std::cmp::Ordering;

use idesyde::choose_exploration_bid;
use idesyde::find_exploration_modules;
use idesyde::find_identification_modules;
use idesyde::ExplorationBid;
use idesyde::ExternalModuleType;
use idesyde::FileSystemEntry;

fn file(path: &str) -> FileSystemEntry {
    FileSystemEntry { path: path.to_string(), is_file: true, link_target: None }
}

#[test]
fn registry_classifies_jar_and_native() {
    let entries = vec![file("/modules/tool.jar"), file("/modules/scanner")];
    let run = "/run".to_string();
    let modules = find_identification_modules(&entries, &run);
    assert_eq!(modules.len(), 2);
    assert_eq!(modules[0].command_path_, "/modules/tool.jar");
    assert!(matches!(modules[0].module_type, ExternalModuleType::JarFile));
    assert_eq!(modules[1].command_path_, "/modules/scanner");
    assert!(matches!(modules[1].module_type, ExternalModuleType::StaticBinary));
    assert_eq!(modules[0].run_path().as_str(), "/run");
    assert_eq!(modules[0].unique_identifier(), "/modules/tool.jar");
}

#[test]
fn registry_of_missing_directory_is_empty() {
    let entries: Vec<FileSystemEntry> = Vec::new();
    let run = "/run".to_string();
    assert!(find_identification_modules(&entries, &run).is_empty());
    assert!(find_exploration_modules(&entries, &run).is_empty());
}

#[test]
fn registry_skips_directories_and_resolves_links() {
    let entries = vec![
        FileSystemEntry {
            path: "/modules/subdir".to_string(),
            is_file: false,
            link_target: None,
        },
        FileSystemEntry {
            path: "/modules/link".to_string(),
            is_file: true,
            link_target: Some("/opt/real/solver.jar".to_string()),
        },
    ];
    let run = "/run".to_string();
    let modules = find_exploration_modules(&entries, &run);
    assert_eq!(modules.len(), 1);
    assert_eq!(modules[0].command_path_, "/opt/real/solver.jar");
    assert!(matches!(modules[0].module_type, ExternalModuleType::JarFile));
}

#[test]
fn registry_deduplicates_by_resolved_path() {
    let entries = vec![
        file("/modules/tool.jar"),
        FileSystemEntry {
            path: "/modules/alias".to_string(),
            is_file: true,
            link_target: Some("/modules/tool.jar".to_string()),
        },
    ];
    let run = "/run".to_string();
    let modules = find_identification_modules(&entries, &run);
    assert_eq!(modules.len(), 1);
}

#[test]
fn jar_detection_needs_a_stem() {
    let entries = vec![file("/modules/.jar"), file("/modules/x.jarx")];
    let run = "/run".to_string();
    let modules = find_identification_modules(&entries, &run);
    assert_eq!(modules.len(), 2);
    assert!(matches!(modules[0].module_type, ExternalModuleType::StaticBinary));
    assert!(matches!(modules[1].module_type, ExternalModuleType::StaticBinary));
}

fn bid(can_explore: bool, criteria: &[(&str, u64)]) -> ExplorationBid {
    ExplorationBid {
        can_explore,
        criteria: criteria.iter().map(|(k, v)| (k.to_string(), *v)).collect(),
    }
}

#[test]
fn bid_with_higher_level_on_every_criterion_dominates() {
    let fast = bid(true, &[("speed", 3)]);
    let slow = bid(true, &[("speed", 1)]);
    assert!(fast.partial_cmp(&slow) == Some(Ordering::Greater));
    assert!(slow.partial_cmp(&fast) == Some(Ordering::Less));
}

#[test]
fn bids_with_different_key_sets_are_incomparable() {
    let a = bid(true, &[("speed", 3)]);
    let b = bid(true, &[("accuracy", 9)]);
    assert!(a.partial_cmp(&b) == None);
    let c = bid(true, &[("speed", 3), ("accuracy", 9)]);
    assert!(a.partial_cmp(&c) == None);
}

#[test]
fn bids_with_different_ability_are_incomparable() {
    let a = bid(true, &[("speed", 3)]);
    let b = bid(false, &[("speed", 1)]);
    assert!(a.partial_cmp(&b) == None);
}

#[test]
fn mixed_criteria_are_incomparable() {
    let a = bid(true, &[("speed", 3), ("accuracy", 1)]);
    let b = bid(true, &[("speed", 1), ("accuracy", 2)]);
    assert!(a.partial_cmp(&b) == None);
}

#[test]
fn bid_equality_is_by_criteria_values() {
    let a = bid(true, &[("speed", 3), ("accuracy", 2)]);
    let b = bid(true, &[("accuracy", 2), ("speed", 3)]);
    assert!(a == b);
    assert!(a.partial_cmp(&b) == Some(Ordering::Equal));
}

#[test]
fn chosen_bid_is_first_undominated_eligible() {
    let bids = vec![
        bid(false, &[("speed", 9)]),
        bid(true, &[("speed", 1)]),
        bid(true, &[("speed", 3)]),
    ];
    assert_eq!(choose_exploration_bid(&bids), Some(2));
    let none_eligible = vec![bid(false, &[("speed", 9)])];
    assert_eq!(choose_exploration_bid(&none_eligible), None);
    let tie = vec![bid(true, &[("speed", 1)]), bid(true, &[("accuracy", 1)])];
    assert_eq!(choose_exploration_bid(&tie), Some(0));
}
