use mnemosyne_atomic::error::AtomicMutateError;
use mnemosyne_atomic::model::{
    AtomicSection, AtomicStore, BindingKind, DecisionStatus, ExampleBlock, RejectedAlternative,
};
use mnemosyne_atomic::section::{
    add_section, add_section_binding, add_section_caveat, add_section_example, remove_section,
    set_section_alternatives, set_section_decision_status, set_section_impact_scope,
    set_section_inputs, set_section_intent, set_section_outputs, set_section_parent_doc,
    set_section_parent_section, set_section_rationale, set_section_title,
};
use mnemosyne_atomic::validate::{MAX_BULLET_CHAR, MAX_INTENT_CHAR};

fn seed_section(store: &mut AtomicStore, section_id: &str) {
    store
        .sections
        .insert(section_id.to_string(), AtomicSection::default());
}

fn has(set: &[String], id: &str) -> bool {
    set.iter().any(|k| k == id)
}

#[test]
fn save_load_round_trip() {
    let mut store = AtomicStore::new();
    seed_section(&mut store, "43");
    set_section_intent(&mut store, "43", "test intent").unwrap();
    assert_eq!(
        store.section("43").unwrap().intent.as_deref(),
        Some("test intent")
    );
}

#[test]
fn intent_threshold_rejects() {
    let mut store = AtomicStore::new();
    let too_long = "x".repeat(MAX_INTENT_CHAR + 1);
    let err = set_section_intent(&mut store, "43", &too_long).unwrap_err();
    match err {
        AtomicMutateError::Validation(_) => {}
        other => panic!("expected Validation, got {:?}", other),
    }
}

#[test]
fn rationale_bullet_threshold_rejects() {
    let mut store = AtomicStore::new();
    let too_long = vec!["x".repeat(MAX_BULLET_CHAR + 1)];
    let err = set_section_rationale(&mut store, "43", &too_long).unwrap_err();
    match err {
        AtomicMutateError::Validation(_) => {}
        other => panic!("expected Validation, got {:?}", other),
    }
}

#[test]
fn atomic_section_id_set_returns_section_keys() {
    let mut store = AtomicStore::new();
    seed_section(&mut store, "39");
    seed_section(&mut store, "41");
    seed_section(&mut store, "66");
    set_section_intent(&mut store, "39", "graph schema").unwrap();
    set_section_intent(&mut store, "41", "datalog rule").unwrap();
    set_section_intent(&mut store, "66", "self-application").unwrap();
    let id_set = store.atomic_section_id_set();
    assert_eq!(id_set.len(), 3);
    assert!(has(&id_set, "39"));
    assert!(has(&id_set, "41"));
    assert!(has(&id_set, "66"));
}

#[test]
fn remove_section_drops_entry_and_persists() {
    let mut store = AtomicStore::new();
    seed_section(&mut store, "doomed");
    set_section_intent(&mut store, "doomed", "to be removed").unwrap();
    assert!(store.section("doomed").is_some());
    remove_section(&mut store, "doomed", "smoke-test cleanup").unwrap();
    assert!(store.section("doomed").is_none());
}

#[test]
fn remove_section_rejects_empty_reason() {
    let mut store = AtomicStore::new();
    seed_section(&mut store, "1");
    set_section_intent(&mut store, "1", "x").unwrap();
    let err = remove_section(&mut store, "1", "   ").unwrap_err();
    assert!(matches!(err, AtomicMutateError::Validation(_)));
    assert!(store.section("1").is_some());
}

#[test]
fn remove_section_returns_not_found_for_missing_id() {
    let mut store = AtomicStore::new();
    let err = remove_section(&mut store, "ghost", "no such section").unwrap_err();
    assert!(matches!(err, AtomicMutateError::NotFound(_)));
}

#[test]
fn add_section_basic_creates_outline_and_persists() {
    let mut store = AtomicStore::new();
    let id = add_section(&mut store, "39", "docs/GENERATED.md", "Test Title", None).unwrap();
    assert_eq!(id, "39");
    let s = store.section("39").expect("§39 created");
    assert_eq!(s.skeleton.title, "Test Title");
    assert_eq!(s.skeleton.parent_doc, "docs/GENERATED.md");
    assert_eq!(s.skeleton.parent_section, None);
    assert_eq!(s.skeleton.decision_status, Some(DecisionStatus::Active));
}

#[test]
fn add_section_rejects_empty_section_id() {
    let mut store = AtomicStore::new();
    let err = add_section(&mut store, "   ", "docs/X.md", "T", None).unwrap_err();
    assert!(matches!(err, AtomicMutateError::Validation(_)));
    assert!(
        store.sections.len() == 0,
        "no section created on rejected mutate"
    );
}

#[test]
fn add_section_rejects_empty_parent_doc() {
    let mut store = AtomicStore::new();
    let err = add_section(&mut store, "39", "", "T", None).unwrap_err();
    assert!(matches!(err, AtomicMutateError::Validation(_)));
}

#[test]
fn add_section_rejects_empty_title() {
    let mut store = AtomicStore::new();
    let err = add_section(&mut store, "39", "docs/X.md", "  ", None).unwrap_err();
    assert!(matches!(err, AtomicMutateError::Validation(_)));
}

#[test]
fn add_section_rejects_duplicate_section_id() {
    let mut store = AtomicStore::new();
    add_section(&mut store, "39", "docs/X.md", "First", None).unwrap();
    let err = add_section(&mut store, "39", "docs/X.md", "Second", None).unwrap_err();
    match err {
        AtomicMutateError::Validation(msg) => assert!(msg.contains("already exists")),
        other => panic!("expected Validation, got {:?}", other),
    }
    assert_eq!(store.section("39").unwrap().skeleton.title, "First");
}

#[test]
fn add_section_rejects_missing_parent_section() {
    let mut store = AtomicStore::new();
    let err = add_section(&mut store, "39.1", "docs/X.md", "Child", Some("39")).unwrap_err();
    assert!(matches!(err, AtomicMutateError::NotFound(_)));
}

#[test]
fn add_section_with_existing_parent_succeeds() {
    let mut store = AtomicStore::new();
    add_section(&mut store, "39", "docs/X.md", "Parent", None).unwrap();
    add_section(&mut store, "39.1", "docs/X.md", "Child", Some("39")).unwrap();
    let child = store.section("39.1").expect("§39.1 created");
    assert_eq!(child.skeleton.parent_section.as_deref(), Some("39"));
    assert_eq!(child.skeleton.title, "Child");
}

#[test]
fn add_section_remove_section_symmetric_round_trip() {
    let mut store = AtomicStore::new();
    add_section(&mut store, "100", "docs/X.md", "ephemeral", None).unwrap();
    assert!(store.section("100").is_some());
    remove_section(&mut store, "100", "test cleanup").unwrap();
    assert!(store.section("100").is_none());
    assert_eq!(store, AtomicStore::new());
}

#[test]
fn set_section_title_basic_and_round_trip() {
    let mut store = AtomicStore::new();
    add_section(&mut store, "39", "docs/X.md", "old title", None).unwrap();
    set_section_title(&mut store, "39", "new title").unwrap();
    assert_eq!(store.section("39").unwrap().skeleton.title, "new title");
}

#[test]
fn set_section_title_rejects_empty() {
    let mut store = AtomicStore::new();
    add_section(&mut store, "39", "docs/X.md", "T", None).unwrap();
    let err = set_section_title(&mut store, "39", "   ").unwrap_err();
    assert!(matches!(err, AtomicMutateError::Validation(_)));
    assert_eq!(store.section("39").unwrap().skeleton.title, "T");
}

#[test]
fn set_section_title_not_found_on_missing_section() {
    let mut store = AtomicStore::new();
    let err = set_section_title(&mut store, "ghost", "x").unwrap_err();
    assert!(matches!(err, AtomicMutateError::NotFound(_)));
}

#[test]
fn set_section_parent_doc_basic_and_round_trip() {
    let mut store = AtomicStore::new();
    add_section(&mut store, "39", "docs/OLD.md", "T", None).unwrap();
    set_section_parent_doc(&mut store, "39", "docs/NEW.md").unwrap();
    assert_eq!(
        store.section("39").unwrap().skeleton.parent_doc,
        "docs/NEW.md"
    );
}

#[test]
fn set_section_parent_doc_rejects_empty() {
    let mut store = AtomicStore::new();
    add_section(&mut store, "39", "docs/X.md", "T", None).unwrap();
    let err = set_section_parent_doc(&mut store, "39", "").unwrap_err();
    assert!(matches!(err, AtomicMutateError::Validation(_)));
}

#[test]
fn set_section_parent_doc_not_found_on_missing_section() {
    let mut store = AtomicStore::new();
    let err = set_section_parent_doc(&mut store, "ghost", "docs/X.md").unwrap_err();
    assert!(matches!(err, AtomicMutateError::NotFound(_)));
}

#[test]
fn set_section_parent_section_some_and_none_round_trip() {
    let mut store = AtomicStore::new();
    add_section(&mut store, "39", "docs/X.md", "Parent", None).unwrap();
    add_section(&mut store, "39.1", "docs/X.md", "Child", None).unwrap();
    set_section_parent_section(&mut store, "39.1", Some("39")).unwrap();
    assert_eq!(
        store.section("39.1").unwrap().skeleton.parent_section.as_deref(),
        Some("39")
    );
    set_section_parent_section(&mut store, "39.1", None).unwrap();
    assert_eq!(store.section("39.1").unwrap().skeleton.parent_section, None);
}

#[test]
fn set_section_parent_section_not_found_on_missing_parent() {
    let mut store = AtomicStore::new();
    add_section(&mut store, "39.1", "docs/X.md", "Child", None).unwrap();
    let err = set_section_parent_section(&mut store, "39.1", Some("ghost")).unwrap_err();
    assert!(matches!(err, AtomicMutateError::NotFound(_)));
    assert_eq!(store.section("39.1").unwrap().skeleton.parent_section, None);
}

#[test]
fn set_section_parent_section_rejects_self_loop() {
    let mut store = AtomicStore::new();
    add_section(&mut store, "39", "docs/X.md", "T", None).unwrap();
    let err = set_section_parent_section(&mut store, "39", Some("39")).unwrap_err();
    match err {
        AtomicMutateError::Validation(msg) => assert!(msg.contains("self-loop")),
        other => panic!("expected Validation, got {:?}", other),
    }
}

#[test]
fn set_section_parent_section_not_found_on_missing_section() {
    let mut store = AtomicStore::new();
    let err = set_section_parent_section(&mut store, "ghost", None).unwrap_err();
    assert!(matches!(err, AtomicMutateError::NotFound(_)));
}

#[test]
fn set_section_decision_status_overwrite_is_idempotent() {
    let mut store = AtomicStore::new();
    seed_section(&mut store, "1");
    set_section_decision_status(&mut store, "1", DecisionStatus::Active, None, None).unwrap();
    set_section_decision_status(&mut store, "1", DecisionStatus::Active, None, None).unwrap();
    set_section_decision_status(&mut store, "1", DecisionStatus::Superseded, Some("2"), None)
        .unwrap();
    assert_eq!(
        store.section("1").unwrap().skeleton.decision_status,
        Some(DecisionStatus::Superseded)
    );
}

#[test]
fn set_section_decision_status_superseded_without_superseding_rejects() {
    let mut store = AtomicStore::new();
    let err = set_section_decision_status(&mut store, "39", DecisionStatus::Superseded, None, None)
        .unwrap_err();
    match err {
        AtomicMutateError::Validation(msg) => {
            assert!(
                msg.contains("T1 rule 4"),
                "expected T1 rule 4 attribution in error message, got: {}",
                msg
            );
            assert!(
                msg.contains("atomic axis"),
                "expected atomic axis attribution in error message, got: {}",
                msg
            );
        }
        other => panic!("expected Validation, got {:?}", other),
    }
    assert!(
        store.section("39").is_none()
            || store.section("39").unwrap().skeleton.decision_status.is_none()
    );
}

#[test]
fn set_section_decision_status_active_no_superseding_required() {
    let mut store = AtomicStore::new();
    seed_section(&mut store, "1");
    seed_section(&mut store, "2");
    set_section_decision_status(&mut store, "1", DecisionStatus::Active, None, None).unwrap();
    set_section_decision_status(&mut store, "2", DecisionStatus::Removed, None, None).unwrap();
    assert_eq!(
        store.section("1").unwrap().skeleton.decision_status,
        Some(DecisionStatus::Active)
    );
    assert_eq!(
        store.section("2").unwrap().skeleton.decision_status,
        Some(DecisionStatus::Removed)
    );
}

#[test]
fn set_section_decision_status_superseded_with_superseding_writes() {
    let mut store = AtomicStore::new();
    seed_section(&mut store, "39");
    set_section_decision_status(&mut store, "39", DecisionStatus::Superseded, Some("40"), None)
        .unwrap();
    assert_eq!(
        store.section("39").unwrap().skeleton.decision_status,
        Some(DecisionStatus::Superseded)
    );
    assert_eq!(
        store.section("39").unwrap().superseded_by.as_deref(),
        Some("40")
    );
}

#[test]
fn set_section_decision_status_clears_superseded_by_on_active() {
    let mut store = AtomicStore::new();
    seed_section(&mut store, "39");
    set_section_decision_status(&mut store, "39", DecisionStatus::Superseded, Some("40"), None)
        .unwrap();
    assert_eq!(
        store.section("39").unwrap().superseded_by.as_deref(),
        Some("40")
    );
    set_section_decision_status(&mut store, "39", DecisionStatus::Active, None, None).unwrap();
    assert!(store.section("39").unwrap().superseded_by.is_none());
}

#[test]
fn set_section_decision_status_open_sets_and_clears_resolved_by() {
    let mut store = AtomicStore::new();
    seed_section(&mut store, "q");
    seed_section(&mut store, "r");
    set_section_decision_status(&mut store, "q", DecisionStatus::Open, None, Some("r")).unwrap();
    assert_eq!(
        store.section("q").unwrap().skeleton.decision_status,
        Some(DecisionStatus::Open)
    );
    assert_eq!(
        store.section("q").unwrap().resolved_by.as_deref(),
        Some("r")
    );
    set_section_decision_status(&mut store, "q", DecisionStatus::Active, None, None).unwrap();
    assert!(store.section("q").unwrap().resolved_by.is_none());
}

#[test]
fn atomic_section_decision_status_default_is_none() {
    let mut store = AtomicStore::new();
    seed_section(&mut store, "1");
    set_section_intent(&mut store, "1", "test intent").unwrap();
    assert!(store.section("1").unwrap().skeleton.decision_status.is_none());
}

// ---------------------------------------------------------------------------
// Further cases.
// ---------------------------------------------------------------------------

#[test]
fn content_setters_write_their_field() {
    let mut store = AtomicStore::new();
    seed_section(&mut store, "s");
    set_section_inputs(&mut store, "s", &vec!["in".to_string()]).unwrap();
    set_section_outputs(&mut store, "s", &vec!["out".to_string()]).unwrap();
    add_section_caveat(&mut store, "s", "careful").unwrap();
    add_section_caveat(&mut store, "s", "again").unwrap();
    set_section_impact_scope(&mut store, "s", &vec!["t".to_string()]).unwrap();
    set_section_alternatives(
        &mut store,
        "s",
        &vec![RejectedAlternative {
            alternative: "a".to_string(),
            reason: "r".to_string(),
        }],
    )
    .unwrap();
    add_section_example(
        &mut store,
        "s",
        ExampleBlock {
            language: "rust".to_string(),
            code: "fn f() {}".to_string(),
        },
    )
    .unwrap();
    let s = store.section("s").unwrap();
    assert_eq!(s.inputs_bullets, vec!["in".to_string()]);
    assert_eq!(s.outputs_bullets, vec!["out".to_string()]);
    assert_eq!(s.caveats_bullets, vec!["careful".to_string(), "again".to_string()]);
    assert_eq!(s.impact_scope, vec!["t".to_string()]);
    assert_eq!(s.alternatives_rejected.len(), 1);
    assert_eq!(s.examples[0].language, "rust");
    assert!(set_section_inputs(&mut store, "ghost", &vec![]).is_err());
}

#[test]
fn atomic_section_id_set_adds_the_parent_prefixes() {
    let mut store = AtomicStore::new();
    seed_section(&mut store, "architecture/layer/l0");
    seed_section(&mut store, "vision");
    let ids = store.atomic_section_id_set();
    assert_eq!(
        ids,
        vec![
            "architecture".to_string(),
            "architecture/layer".to_string(),
            "architecture/layer/l0".to_string(),
            "vision".to_string()
        ]
    );
}

#[test]
fn remove_section_refusal_texts() {
    let mut store = AtomicStore::new();
    match remove_section(&mut store, "x", " ") {
        Err(AtomicMutateError::Validation(m)) => {
            assert_eq!(m, "remove_section: --reason mandatory (audit-trail safeguard)")
        }
        other => panic!("unexpected {other:?}"),
    }
    match remove_section(&mut store, "x", "why") {
        Err(AtomicMutateError::NotFound(m)) => {
            assert_eq!(m, "section_id `x` not present in atomic store")
        }
        other => panic!("unexpected {other:?}"),
    }
}

#[test]
fn bindings_survive_a_title_change() {
    let mut store = AtomicStore::new();
    add_section(&mut store, "s", "d.md", "T", None).unwrap();
    add_section_binding(&mut store, "s", "src/a.rs", None, BindingKind::Verifies).unwrap();
    set_section_title(&mut store, "s", "U").unwrap();
    assert_eq!(store.section("s").unwrap().bindings.len(), 1);
}
