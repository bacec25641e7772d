use std::sync::Arc;

use apex::ort_bridge::{DType, TensorMeta};
use apex::registry::{lookup_version, AtomicEntryState, EntryState, ModelEntry, ModelRegistry};

fn map<const N: usize>(entries: [(&str, &str); N]) -> Vec<(String, String)> {
    entries.iter().map(|(k, v)| (k.to_string(), v.to_string())).collect()
}

fn entry(name: &str, version: &str, handle: u32) -> Arc<ModelEntry<u32>> {
    Arc::new(ModelEntry {
        name: name.to_string(),
        version: version.to_string(),
        input_meta: TensorMeta {
            name: "input".to_string(),
            dtype: DType::F32,
            shape: vec![-1, 3],
            bytes_per_request: 12,
        },
        output_meta: vec![],
        handle,
    })
}

fn found(registry: &ModelRegistry<u32>, name: &str, version: Option<&str>) -> Option<u32> {
    registry.get(name, version).map(|entry| entry.handle)
}

#[test]
fn lookup_with_explicit_version_returns_exact_match() {
    let versions = map([("1", "v1-payload"), ("2", "v2-payload")]);
    assert_eq!(lookup_version(&versions, Some("1")), Some(&"v1-payload".to_string()));
    assert_eq!(lookup_version(&versions, Some("2")), Some(&"v2-payload".to_string()));
}

#[test]
fn lookup_with_unknown_version_returns_none() {
    let versions = map([("1", "v1"), ("2", "v2")]);
    assert_eq!(lookup_version(&versions, Some("99")), None);
}

#[test]
fn lookup_with_no_version_returns_lex_last() {
    let versions = map([("1", "v1"), ("2", "v2")]);
    assert_eq!(lookup_version(&versions, None), Some(&"v2".to_string()));
}

#[test]
fn lookup_default_uses_lex_order_not_numeric() {
    let versions = map([("1", "v1"), ("2", "v2"), ("10", "v10")]);
    assert_eq!(lookup_version(&versions, None), Some(&"v2".to_string()));
}

#[test]
fn lookup_treats_empty_version_as_no_version() {
    let versions = map([("1", "v1"), ("2", "v2")]);
    assert_eq!(lookup_version(&versions, Some("")), Some(&"v2".to_string()));
}

#[test]
fn lookup_returns_none_for_empty_versions_map() {
    let versions: Vec<(String, String)> = Vec::new();
    assert_eq!(lookup_version(&versions, None), None);
    assert_eq!(lookup_version(&versions, Some("1")), None);
}

#[test]
fn atomic_entry_state_round_trips() {
    let mut s = AtomicEntryState::new(EntryState::Loaded);
    assert_eq!(s.load(), EntryState::Loaded);
    s.store(EntryState::Draining);
    assert_eq!(s.load(), EntryState::Draining);
}

#[test]
fn empty_registry_has_zero_count() {
    let r: ModelRegistry<u32> = ModelRegistry::empty();
    assert_eq!(r.count(), 0);
    assert!(!r.contains("any", "1"));
    assert!(r.get("any", None).is_none());
    assert_eq!(r.all_entries().len(), 0);
}

#[test]
fn state_tells_whether_requests_are_taken() {
    let mut s = AtomicEntryState::new(EntryState::Draining);
    assert!(!s.is_loaded());
    s.store(EntryState::Loaded);
    assert!(s.is_loaded());
}

#[test]
fn registry_finds_entries_by_name_and_version() {
    let r = ModelRegistry::from_entries(vec![
        entry("a", "1", 11),
        entry("b", "1", 21),
        entry("a", "2", 12),
        entry("a", "10", 110),
    ]);
    assert_eq!(r.count(), 4);
    assert_eq!(found(&r, "a", Some("1")), Some(11));
    assert_eq!(found(&r, "a", Some("10")), Some(110));
    assert_eq!(found(&r, "a", None), Some(12));
    assert_eq!(found(&r, "a", Some("")), Some(12));
    assert_eq!(found(&r, "a", Some("3")), None);
    assert_eq!(found(&r, "b", None), Some(21));
    assert_eq!(found(&r, "c", None), None);
    assert!(r.contains("b", "1"));
    assert!(!r.contains("b", "2"));
    assert!(!r.contains("b", ""));
    let mut handles: Vec<u32> = r.all_entries().iter().map(|entry| entry.handle).collect();
    handles.sort();
    assert_eq!(handles, vec![11, 12, 21, 110]);
}

#[test]
fn later_entry_of_a_pair_replaces_the_earlier_one() {
    let r = ModelRegistry::from_entries(vec![
        entry("a", "1", 1),
        entry("b", "1", 2),
        entry("a", "1", 3),
    ]);
    assert_eq!(r.count(), 2);
    assert_eq!(found(&r, "a", Some("1")), Some(3));
    assert_eq!(found(&r, "b", Some("1")), Some(2));
}

#[test]
fn names_beyond_ascii_are_ordered_by_character() {
    let versions = map([("z", "ascii"), ("é", "accent"), ("\u{10000}", "astral")]);
    assert_eq!(lookup_version(&versions, None), Some(&"astral".to_string()));
    let prefixes = map([("1.0", "longer"), ("1", "shorter")]);
    assert_eq!(lookup_version(&prefixes, None), Some(&"longer".to_string()));
}
