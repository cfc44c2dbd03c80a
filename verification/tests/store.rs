use mnemosyne_atomic::body::{synthesize_section_body, synthesize_section_prose_body};
use mnemosyne_atomic::error::AtomicStoreError;
use mnemosyne_atomic::generations::CURRENT_SCHEMA_VERSION;
use mnemosyne_atomic::model::{
    AtomicChangelogEntry, AtomicSection, AtomicStore, Binding, BindingKind, ExampleBlock,
    RejectedAlternative,
};

fn s(v: &str) -> String {
    v.to_string()
}

fn legacy_entry() -> AtomicChangelogEntry {
    AtomicChangelogEntry {
        decision_summary: Some(s("v3 entry summary")),
        changes_bullets: vec![s("v3 change A"), s("v3 change B")],
        verification_bullets: vec![s("v3 verify A")],
        impact_refs: vec![s("43")],
        carry_forward_bullets: vec![s("v3 carry A")],
        ..Default::default()
    }
}

#[test]
fn new_store_is_empty_at_generation_zero() {
    let store = AtomicStore::new();
    assert_eq!(store.schema_version, 0);
    assert_eq!(store.sections.len(), 0);
    assert_eq!(store.changelog_entries.len(), 0);
    assert_eq!(store.inventory_entries.len(), 0);
    assert_eq!(store.confirmation_events.len(), 0);
}

#[test]
fn migrate_on_load_clones_audit_into_publishable_below_generation_four() {
    let mut store = AtomicStore::new();
    store.schema_version = 3;
    store
        .changelog_entries
        .insert(s("Round 200"), legacy_entry());
    store.migrate_on_load().unwrap();
    let entry = store.changelog_entries.get("Round 200").unwrap();
    assert_eq!(
        entry.publishable_decision_summary.as_deref(),
        Some("v3 entry summary")
    );
    assert_eq!(
        entry.publishable_changes_bullets,
        vec![s("v3 change A"), s("v3 change B")]
    );
    assert_eq!(entry.publishable_verification_bullets, vec![s("v3 verify A")]);
    assert_eq!(entry.publishable_impact_refs, vec![s("43")]);
    assert_eq!(entry.publishable_carry_forward_bullets, vec![s("v3 carry A")]);
    assert!(entry.publishable_matches_audit());
    assert_eq!(store.schema_version, 3, "the generation is stamped on save");
    store.stamp_current_schema();
    assert_eq!(store.schema_version, CURRENT_SCHEMA_VERSION);
}

#[test]
fn migrate_on_load_keeps_publishable_divergence_from_generation_four() {
    let mut store = AtomicStore::new();
    store.schema_version = 4;
    let mut e = legacy_entry();
    e.publishable_decision_summary = Some(s("redacted summary"));
    store.changelog_entries.insert(s("Round 200"), e);
    store.migrate_on_load().unwrap();
    let entry = store.changelog_entries.get("Round 200").unwrap();
    assert_eq!(
        entry.publishable_decision_summary.as_deref(),
        Some("redacted summary")
    );
    assert_eq!(entry.decision_summary.as_deref(), Some("v3 entry summary"));
    assert!(!entry.publishable_matches_audit());
}

#[test]
fn migrate_on_load_refuses_a_newer_generation() {
    let mut store = AtomicStore::new();
    store.schema_version = CURRENT_SCHEMA_VERSION + 1;
    let err = store.migrate_on_load().unwrap_err();
    match err {
        AtomicStoreError::SchemaVersionMismatch { store: got, expected } => {
            assert_eq!(got, CURRENT_SCHEMA_VERSION + 1);
            assert_eq!(expected, CURRENT_SCHEMA_VERSION);
        }
        other => panic!("expected SchemaVersionMismatch, got {other:?}"),
    }
    assert_eq!(store.schema_version, CURRENT_SCHEMA_VERSION + 1);
}

#[test]
fn migrate_on_load_accepts_the_current_generation_unchanged() {
    let mut store = AtomicStore::new();
    store.schema_version = CURRENT_SCHEMA_VERSION;
    store
        .changelog_entries
        .insert(s("Round 1"), legacy_entry());
    let before = store.clone();
    store.migrate_on_load().unwrap();
    assert_eq!(store, before);
}

#[test]
fn kind_migration_report_is_none_from_generation_five() {
    let mut store = AtomicStore::new();
    store.schema_version = 5;
    assert!(store.kind_migration_report().is_none());
    store.schema_version = 4;
    let report = store.kind_migration_report().unwrap();
    assert_eq!(report.from_schema_version, 4);
    assert!(report.rows.is_empty());
}

fn full_section() -> AtomicSection {
    AtomicSection {
        intent: Some(s("Why this exists.")),
        rationale_bullets: vec![s("r1"), s("r2")],
        inputs_bullets: vec![s("in")],
        outputs_bullets: vec![],
        caveats_bullets: vec![s("cav")],
        alternatives_rejected: vec![RejectedAlternative {
            alternative: s("A"),
            reason: s("too slow"),
        }],
        impact_scope: vec![s("43"), s("44")],
        bindings: vec![
            Binding {
                file: s("src/a.rs"),
                symbol: Some(s("f")),
                kind: BindingKind::Implements,
            },
            Binding {
                file: s("src/b.rs"),
                symbol: None,
                kind: BindingKind::References,
            },
        ],
        examples: vec![ExampleBlock {
            language: s("rust"),
            code: s("let x = 1;"),
        }],
        ..Default::default()
    }
}

#[test]
fn synthesize_section_body_joins_every_block() {
    let body = synthesize_section_body(&full_section());
    assert_eq!(
        body,
        "Why this exists.\n\n- r1\n- r2\n\n- in\n\n- cav\n\n- A -- too slow\n\n- §43\n- §44\n\n- src/a.rs:f\n- src/b.rs\n\n```rust\nlet x = 1;\n```"
    );
}

#[test]
fn prose_body_leaves_out_the_implementations() {
    let body = synthesize_section_prose_body(&full_section());
    assert_eq!(
        body,
        "Why this exists.\n\n- r1\n- r2\n\n- in\n\n- cav\n\n- A -- too slow\n\n- §43\n- §44\n\n```rust\nlet x = 1;\n```"
    );
}

#[test]
fn empty_section_synthesizes_an_empty_body() {
    let mut sec = AtomicSection::default();
    assert_eq!(synthesize_section_body(&sec), "");
    sec.intent = Some(String::new());
    assert_eq!(synthesize_section_body(&sec), "");
    sec.intent = Some(s("only"));
    assert_eq!(synthesize_section_body(&sec), "only");
}
