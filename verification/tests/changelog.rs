use mnemosyne_atomic::changelog::{
    append_changelog_entry, emit_publishable_override_ledger_draft, format_ledger_row,
    set_changelog_publishable_carry_forward_bullets, set_changelog_publishable_changes_bullets,
    set_changelog_publishable_decision_summary, set_changelog_publishable_impact_refs,
    set_changelog_publishable_verification_bullets, ChangelogEntryDraft,
};
use mnemosyne_atomic::error::AtomicMutateError;
use mnemosyne_atomic::model::{AtomicChangelogEntry, AtomicStore};

fn s(v: &str) -> String {
    v.to_string()
}

fn append_full(
    store: &mut AtomicStore,
    entry_id: &str,
    summary: Option<&str>,
    changes: &Vec<String>,
    verification: &Vec<String>,
    impact: &Vec<String>,
    carry: &Vec<String>,
    prefix: &str,
) -> Result<(), AtomicMutateError> {
    append_changelog_entry(
        store,
        ChangelogEntryDraft {
            entry_id,
            decision_summary: summary,
            changes_bullets: changes,
            verification_bullets: verification,
            impact_refs: impact,
            carry_forward_bullets: carry,
        },
        prefix,
    )
}

fn append_with_empty_body(store: &mut AtomicStore, entry_id: &str) -> Result<(), AtomicMutateError> {
    let none: Vec<String> = vec![];
    append_full(store, entry_id, None, &none, &none, &none, &none, "Round ")
}

fn append_minimal(
    store: &mut AtomicStore,
    entry_id: &str,
    entry_id_prefix: &str,
) -> Result<(), AtomicMutateError> {
    append_full(
        store,
        entry_id,
        Some("decision"),
        &vec![s("change")],
        &vec![s("verify")],
        &vec![],
        &vec![],
        entry_id_prefix,
    )
}

fn seed_entry(store: &mut AtomicStore, entry_id: &str) {
    append_full(
        store,
        entry_id,
        Some("audit summary"),
        &vec![s("audit change")],
        &vec![s("audit verify")],
        &vec![s("43")],
        &vec![s("audit carry")],
        "Round ",
    )
    .unwrap();
}

#[test]
fn changelog_entry_frozen_after_append() {
    let mut store = AtomicStore::new();
    append_full(
        &mut store,
        "Round 162",
        Some("test summary"),
        &vec![s("change 1")],
        &vec![s("verify 1")],
        &vec![s("43")],
        &vec![s("carry 1")],
        "Round ",
    )
    .unwrap();
    let none: Vec<String> = vec![];
    let err = append_full(
        &mut store,
        "Round 162",
        Some("attempted overwrite"),
        &none,
        &none,
        &none,
        &none,
        "Round ",
    )
    .unwrap_err();
    match err {
        AtomicMutateError::FrozenLedger(_) => {}
        other => panic!("expected FrozenLedger, got {:?}", other),
    }
}

#[test]
fn atomic_changelog_entry_frozen_on_duplicate_append() {
    let mut store = AtomicStore::new();
    seed_entry(&mut store, "Round 1");
    let before = store.changelog_entries.get("Round 1").unwrap().clone();
    let err = append_minimal(&mut store, "Round 1", "Round ").unwrap_err();
    assert!(matches!(err, AtomicMutateError::FrozenLedger(_)));
    assert_eq!(store.changelog_entries.get("Round 1").unwrap(), &before);
}

#[test]
fn append_changelog_entry_clones_audit_into_publishable() {
    let mut store = AtomicStore::new();
    append_full(
        &mut store,
        "Round 999",
        Some("appended summary"),
        &vec![s("appended change")],
        &vec![s("appended verify")],
        &vec![s("43")],
        &vec![s("appended carry")],
        "Round ",
    )
    .unwrap();
    let entry = store.changelog_entries.get("Round 999").unwrap();
    assert!(entry.publishable_matches_audit());
    assert_eq!(
        entry.publishable_decision_summary.as_deref(),
        Some("appended summary")
    );
}

#[test]
fn r298_blank_entry_id_rejected() {
    let mut store = AtomicStore::new();
    let err = append_with_empty_body(&mut store, "   ").unwrap_err();
    match err {
        AtomicMutateError::Validation(msg) => {
            assert!(msg.contains("entry_id"), "msg={}", msg);
            assert!(msg.contains("Round 298"), "msg={}", msg);
        }
        other => panic!("expected Validation, got {:?}", other),
    }
}

#[test]
fn r298_missing_decision_summary_rejected() {
    let mut store = AtomicStore::new();
    let err = append_with_empty_body(&mut store, "Round 999").unwrap_err();
    match err {
        AtomicMutateError::Validation(msg) => {
            assert!(msg.contains("decision_summary"), "msg={}", msg);
        }
        other => panic!("expected Validation, got {:?}", other),
    }
}

#[test]
fn r298_empty_changes_bullets_rejected() {
    let mut store = AtomicStore::new();
    let err = append_full(
        &mut store,
        "Round 999",
        Some("decision"),
        &vec![],
        &vec![s("verify")],
        &vec![],
        &vec![],
        "Round ",
    )
    .unwrap_err();
    match err {
        AtomicMutateError::Validation(msg) => {
            assert!(msg.contains("changes_bullets"), "msg={}", msg);
        }
        other => panic!("expected Validation, got {:?}", other),
    }
}

#[test]
fn r298_empty_verification_bullets_rejected() {
    let mut store = AtomicStore::new();
    let err = append_full(
        &mut store,
        "Round 999",
        Some("decision"),
        &vec![s("change")],
        &vec![],
        &vec![],
        &vec![],
        "Round ",
    )
    .unwrap_err();
    match err {
        AtomicMutateError::Validation(msg) => {
            assert!(msg.contains("verification_bullets"), "msg={}", msg);
        }
        other => panic!("expected Validation, got {:?}", other),
    }
}

#[test]
fn r298_blank_change_bullet_element_rejected() {
    let mut store = AtomicStore::new();
    let err = append_full(
        &mut store,
        "Round 999",
        Some("decision"),
        &vec![s("valid"), s("   ")],
        &vec![s("verify")],
        &vec![],
        &vec![],
        "Round ",
    )
    .unwrap_err();
    match err {
        AtomicMutateError::Validation(msg) => {
            assert!(msg.contains("changes_bullets[1]"), "msg={}", msg);
            assert!(msg.contains("blank"), "msg={}", msg);
        }
        other => panic!("expected Validation, got {:?}", other),
    }
}

#[test]
fn r298_blank_optional_element_rejected() {
    let mut store = AtomicStore::new();
    let err = append_full(
        &mut store,
        "Round 999",
        Some("decision"),
        &vec![s("change")],
        &vec![s("verify")],
        &vec![s("")],
        &vec![],
        "Round ",
    )
    .unwrap_err();
    match err {
        AtomicMutateError::Validation(msg) => {
            assert!(msg.contains("impact_refs[0]"), "msg={}", msg);
        }
        other => panic!("expected Validation, got {:?}", other),
    }
}

#[test]
fn r424_nonconforming_entry_id_rejected() {
    let mut store = AtomicStore::new();
    let err = append_minimal(&mut store, "test", "Round ").unwrap_err();
    match err {
        AtomicMutateError::Validation(msg) => {
            assert!(msg.contains("entry_id_prefix"), "msg={}", msg);
            assert!(msg.contains("`test`"), "msg={}", msg);
        }
        other => panic!("expected Validation, got {:?}", other),
    }
    assert!(store.changelog_entries.len() == 0, "reject must not insert");
}

#[test]
fn r424_conforming_entry_id_accepted() {
    let mut store = AtomicStore::new();
    append_minimal(&mut store, "Round 424", "Round ").unwrap();
    assert!(store.changelog_entries.contains_key("Round 424"));
}

#[test]
fn r424_empty_prefix_disables_gate() {
    let mut store = AtomicStore::new();
    append_minimal(&mut store, "test", "").unwrap();
    assert!(store.changelog_entries.contains_key("test"));
}

#[test]
fn r424_frozen_ledger_wins_over_prefix_gate() {
    let mut store = AtomicStore::new();
    append_minimal(&mut store, "test", "").unwrap();
    let err = append_minimal(&mut store, "test", "Round ").unwrap_err();
    match err {
        AtomicMutateError::FrozenLedger(_) => {}
        other => panic!("expected FrozenLedger, got {:?}", other),
    }
}

#[test]
fn atomic_section_id_set_empty_when_only_changelog() {
    let mut store = AtomicStore::new();
    append_full(
        &mut store,
        "Round 243",
        Some("test"),
        &vec![s("change")],
        &vec![s("verify")],
        &vec![],
        &vec![s("carry")],
        "Round ",
    )
    .unwrap();
    let id_set = store.atomic_section_id_set();
    assert!(id_set.is_empty());
}

#[test]
fn publishable_setters_modify_publishable_only() {
    let mut store = AtomicStore::new();
    seed_entry(&mut store, "Round 999");
    set_changelog_publishable_decision_summary(&mut store, "Round 999", "redacted summary").unwrap();
    set_changelog_publishable_changes_bullets(&mut store, "Round 999", &vec![s("redacted change")])
        .unwrap();
    set_changelog_publishable_verification_bullets(
        &mut store,
        "Round 999",
        &vec![s("redacted verify")],
    )
    .unwrap();
    set_changelog_publishable_impact_refs(&mut store, "Round 999", &vec![s("61")]).unwrap();
    set_changelog_publishable_carry_forward_bullets(
        &mut store,
        "Round 999",
        &vec![s("redacted carry")],
    )
    .unwrap();

    let entry = store.changelog_entries.get("Round 999").unwrap();
    assert_eq!(entry.decision_summary.as_deref(), Some("audit summary"));
    assert_eq!(entry.changes_bullets, vec!["audit change".to_string()]);
    assert_eq!(entry.verification_bullets, vec!["audit verify".to_string()]);
    assert_eq!(entry.impact_refs, vec!["43".to_string()]);
    assert_eq!(entry.carry_forward_bullets, vec!["audit carry".to_string()]);
    assert_eq!(
        entry.publishable_decision_summary.as_deref(),
        Some("redacted summary")
    );
    assert_eq!(
        entry.publishable_changes_bullets,
        vec!["redacted change".to_string()]
    );
    assert_eq!(
        entry.publishable_verification_bullets,
        vec!["redacted verify".to_string()]
    );
    assert_eq!(entry.publishable_impact_refs, vec!["61".to_string()]);
    assert_eq!(
        entry.publishable_carry_forward_bullets,
        vec!["redacted carry".to_string()]
    );
    assert!(
        !entry.publishable_matches_audit(),
        "publishable / audit divergence is the whole point of these setters"
    );
}

#[test]
fn publishable_setter_rejects_missing_entry() {
    let mut store = AtomicStore::new();
    let err =
        set_changelog_publishable_decision_summary(&mut store, "Round 404", "anything").unwrap_err();
    match err {
        AtomicMutateError::NotFound(m) => assert_eq!(
            m,
            "entry_id `Round 404` not present in atomic store (use append_changelog_entry to create it first)"
        ),
        other => panic!("expected NotFound, got {:?}", other),
    }
}

#[test]
fn publishable_setter_round_trips_through_save_load() {
    let mut store = AtomicStore::new();
    seed_entry(&mut store, "Round 999");
    set_changelog_publishable_decision_summary(&mut store, "Round 999", "redacted on disk").unwrap();
    let entry = store.changelog_entries.get("Round 999").unwrap();
    assert_eq!(entry.decision_summary.as_deref(), Some("audit summary"));
    assert_eq!(
        entry.publishable_decision_summary.as_deref(),
        Some("redacted on disk")
    );
}

#[test]
fn field_parity_decision_summary_accepts_uncapped_input() {
    let long_summary = "x".repeat(2_000);
    let mut store_a = AtomicStore::new();
    append_full(
        &mut store_a,
        "Round PA",
        Some(&long_summary),
        &vec![s("c")],
        &vec![s("v")],
        &vec![s("1")],
        &vec![s("cf")],
        "Round ",
    )
    .expect("append must accept arbitrary-length decision_summary");
    let mut store_b = AtomicStore::new();
    seed_entry(&mut store_b, "Round PA");
    set_changelog_publishable_decision_summary(&mut store_b, "Round PA", &long_summary)
        .expect("publishable setter must mirror append's cap-0 invariant");
}

#[test]
fn field_parity_bullet_fields_accept_uncapped_elements() {
    let long_bullet = "x".repeat(10_000);
    let bullets = vec![long_bullet.clone()];
    let mut store_a = AtomicStore::new();
    append_full(
        &mut store_a,
        "Round PB",
        Some("audit summary"),
        &bullets,
        &bullets,
        &bullets,
        &bullets,
        "Round ",
    )
    .expect("append must accept long bullets across all bullet-family fields");
    let mut store_b = AtomicStore::new();
    seed_entry(&mut store_b, "Round PB");
    set_changelog_publishable_changes_bullets(&mut store_b, "Round PB", &bullets)
        .expect("publishable changes setter must mirror append's cap-0 invariant");
    set_changelog_publishable_verification_bullets(&mut store_b, "Round PB", &bullets)
        .expect("publishable verification setter must mirror append's cap-0 invariant");
    set_changelog_publishable_impact_refs(&mut store_b, "Round PB", &bullets)
        .expect("publishable impact_refs setter must mirror append's cap-0 invariant");
    set_changelog_publishable_carry_forward_bullets(&mut store_b, "Round PB", &bullets)
        .expect("publishable carry_forward setter must mirror append's cap-0 invariant");
}

#[test]
fn publishable_hash_deterministic_and_stable() {
    let mut store = AtomicStore::new();
    seed_entry(&mut store, "Round 999");
    let entry = store.changelog_entries.get("Round 999").unwrap();
    let hash_a = entry.publishable_hash_hex();
    let hash_b = entry.publishable_hash_hex();
    assert_eq!(hash_a, hash_b, "hash must be deterministic");
    assert_eq!(hash_a.len(), 64, "SHA256 hex = 64 chars");
    set_changelog_publishable_decision_summary(&mut store, "Round 999", "different summary").unwrap();
    let new_hash = store
        .changelog_entries
        .get("Round 999")
        .unwrap()
        .publishable_hash_hex();
    assert_ne!(hash_a, new_hash, "mutation must change hash");
}

#[test]
fn publishable_hash_differs_from_audit_hash_when_diverged() {
    let mut store = AtomicStore::new();
    seed_entry(&mut store, "Round 999");
    set_changelog_publishable_decision_summary(&mut store, "Round 999", "redacted").unwrap();
    let entry = store.changelog_entries.get("Round 999").unwrap();
    assert_ne!(
        entry.publishable_hash_hex(),
        entry.audit_hash_hex(),
        "diverged publishable / audit must hash to different anchors"
    );
}

#[test]
fn r300_emit_draft_returns_none_when_in_sync() {
    let mut store = AtomicStore::new();
    seed_entry(&mut store, "Round 999");
    let result =
        emit_publishable_override_ledger_draft(&store, "Round 999", "r", "a", "redaction").unwrap();
    assert!(result.is_none(), "in-sync entry must yield no draft");
}

#[test]
fn r300_emit_draft_unknown_entry_id_returns_not_found() {
    let store = AtomicStore::new();
    let err = emit_publishable_override_ledger_draft(&store, "Round 999", "r", "a", "redaction")
        .unwrap_err();
    match err {
        AtomicMutateError::NotFound(msg) => {
            assert!(msg.contains("Round 999"), "msg={}", msg);
        }
        other => panic!("expected NotFound, got {:?}", other),
    }
}

#[test]
fn r300_emit_draft_lists_only_divergent_fields() {
    let mut store = AtomicStore::new();
    seed_entry(&mut store, "Round 999");
    set_changelog_publishable_decision_summary(&mut store, "Round 999", "redacted summary").unwrap();
    let draft = emit_publishable_override_ledger_draft(
        &store,
        "Round 999",
        "audit reason",
        "Round T",
        "redaction",
    )
    .unwrap()
    .expect("divergent entry must emit a draft");
    assert!(draft.contains("[[publishable_override_ledger]]"));
    assert!(draft.contains("kind = \"redaction\""));
    assert!(draft.contains("target_id = \"Round 999\""));
    assert!(
        draft.contains("fields = [\"publishable_decision_summary\"]"),
        "only the touched field must appear; draft:\n{}",
        draft
    );
    assert!(draft.contains("reason = \"audit reason\""));
    assert!(draft.contains("applied_in = \"Round T\""));
}

#[test]
fn r300_emit_draft_hash_matches_validate_workspace_expectation() {
    let mut store = AtomicStore::new();
    seed_entry(&mut store, "Round 999");
    set_changelog_publishable_decision_summary(&mut store, "Round 999", "redacted").unwrap();
    let entry = store.changelog_entries.get("Round 999").unwrap();
    let expected_after = entry.publishable_hash_hex();
    let expected_before = entry.audit_hash_hex();
    let draft = emit_publishable_override_ledger_draft(&store, "Round 999", "r", "a", "redaction")
        .unwrap()
        .unwrap();
    assert!(
        draft.contains(&format!("content_hash_after = \"{}\"", expected_after)),
        "draft must anchor to current publishable hash; draft:\n{}",
        draft
    );
    assert!(
        draft.contains(&format!("content_hash_before = \"{}\"", expected_before)),
        "draft must record audit hash as before; draft:\n{}",
        draft
    );
}

// ---------------------------------------------------------------------------
// Further cases.
// ---------------------------------------------------------------------------

#[test]
fn format_ledger_row_writes_the_exact_block() {
    let row = format_ledger_row(
        "typo",
        "Round 7",
        &vec![s("publishable_changes_bullets"), s("publishable_impact_refs")],
        "why",
        "Round 8",
        "aa",
        "bb",
    );
    assert_eq!(
        row,
        "[[publishable_override_ledger]]\nkind = \"typo\"\ntarget_id = \"Round 7\"\nfields = [\"publishable_changes_bullets\", \"publishable_impact_refs\"]\nreason = \"why\"\napplied_in = \"Round 8\"\ncontent_hash_before = \"aa\"\ncontent_hash_after = \"bb\"\n"
    );
    let empty = format_ledger_row("k", "t", &vec![], "r", "a", "b", "c");
    assert!(empty.contains("fields = []\n"));
}

#[test]
fn divergent_fields_are_listed_in_ledger_order() {
    let mut store = AtomicStore::new();
    seed_entry(&mut store, "Round 5");
    set_changelog_publishable_carry_forward_bullets(&mut store, "Round 5", &vec![]).unwrap();
    set_changelog_publishable_changes_bullets(&mut store, "Round 5", &vec![s("x")]).unwrap();
    let e = store.changelog_entries.get("Round 5").unwrap();
    assert_eq!(
        e.divergent_publishable_fields(),
        vec!["publishable_changes_bullets", "publishable_carry_forward_bullets"]
    );
    let mut c: AtomicChangelogEntry = e.clone();
    c.clone_audit_into_publishable();
    assert!(c.publishable_matches_audit());
    assert!(c.divergent_publishable_fields().is_empty());
}

#[test]
fn the_audit_hash_is_the_sha256_of_the_audit_half_json() {
    let mut e = AtomicChangelogEntry::default();
    e.decision_summary = Some(s("d"));
    e.changes_bullets = vec![s("c")];
    // serde_json writes the object's keys in sorted order.
    let json = "{\"carry_forward_bullets\":[],\"changes_bullets\":[\"c\"],\"decision_summary\":\"d\",\"impact_refs\":[],\"verification_bullets\":[]}";
    assert_eq!(
        e.audit_hash_hex(),
        mnemosyne_atomic::digest::sha256_hex(json)
    );
}
