use mnemosyne_atomic::digest::sha256_hex;
use mnemosyne_atomic::model::{AtomicSection, AtomicStore, DecisionStatus, SectionSkeleton};
use mnemosyne_atomic::project::{section_entity_id, MAIN_BRANCH_ID};

fn store_with(sections: Vec<(&str, AtomicSection)>) -> AtomicStore {
    let mut store = AtomicStore::new();
    for (id, section) in sections {
        store.sections.insert(id.to_string(), section);
    }
    store
}

fn section(title: &str, impact: &[&str]) -> AtomicSection {
    AtomicSection {
        skeleton: SectionSkeleton {
            title: title.to_string(),
            parent_doc: "docs/DESIGN.md".to_string(),
            parent_section: None,
            decision_status: Some(DecisionStatus::Active),
        },
        impact_scope: impact.iter().map(|s| s.to_string()).collect(),
        ..Default::default()
    }
}

#[test]
fn projects_one_section_fact_per_section() {
    let store = store_with(vec![
        ("alpha", section("Alpha", &[])),
        ("beta", section("Beta", &["alpha"])),
    ]);
    let facts = store.project_section_facts(MAIN_BRANCH_ID);
    assert_eq!(facts.len(), 2);
    let alpha = facts.iter().find(|f| f.section_id == "alpha").unwrap();
    assert_eq!(alpha.key.branch_id, MAIN_BRANCH_ID);
    assert_eq!(alpha.key.entity_id, section_entity_id("alpha"));
    assert_eq!(alpha.key.valid_from, 0);
    assert_eq!(alpha.skeleton.title, "Alpha");
    assert_eq!(alpha.skeleton.decision_status, Some(DecisionStatus::Active));
}

#[test]
fn entity_id_is_deterministic_and_distinct() {
    assert_eq!(section_entity_id("alpha"), section_entity_id("alpha"));
    assert_ne!(section_entity_id("alpha"), section_entity_id("beta"));
}

#[test]
fn cross_ref_endpoints_match_section_entity_ids() {
    let store = store_with(vec![
        ("alpha", section("Alpha", &[])),
        ("beta", section("Beta", &["alpha"])),
    ]);
    let refs = store.project_cross_ref_facts(MAIN_BRANCH_ID);
    assert_eq!(refs.len(), 1);
    assert_eq!(refs[0].from_section, section_entity_id("beta"));
    assert_eq!(refs[0].to_section, section_entity_id("alpha"));
    assert_eq!(refs[0].ref_kind, "impact_scope");
}

#[test]
fn empty_store_projects_nothing() {
    let store = AtomicStore::new();
    assert!(store.project_section_facts(MAIN_BRANCH_ID).is_empty());
    assert!(store.project_cross_ref_facts(MAIN_BRANCH_ID).is_empty());
}

#[test]
fn entity_id_is_first_eight_digest_bytes_big_endian() {
    for id in ["alpha", "beta", "scxml-3.13", ""] {
        let hex = sha256_hex(id);
        let expected = u64::from_str_radix(&hex[..16], 16).unwrap();
        assert_eq!(section_entity_id(id), expected, "{id}");
    }
}

#[test]
fn facts_follow_section_order_and_branch() {
    let store = store_with(vec![
        ("b", section("B", &["a", "c"])),
        ("a", section("A", &[])),
    ]);
    let facts = store.project_section_facts(7);
    assert_eq!(facts.len(), 2);
    assert!(facts.iter().all(|f| f.key.branch_id == 7));
    let refs = store.project_cross_ref_facts(7);
    assert_eq!(refs.len(), 2);
    assert_eq!(refs[0].to_section, section_entity_id("a"));
    assert_eq!(refs[1].to_section, section_entity_id("c"));
    assert!(refs.iter().all(|r| r.branch_id == 7));
}
