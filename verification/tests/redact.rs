use mnemosyne_atomic::changelog::{append_changelog_entry, ChangelogEntryDraft};
use mnemosyne_atomic::model::AtomicStore;
use mnemosyne_atomic::redact::{
    redact_term, scope_includes, RedactError, RedactMode, RedactRequest, RedactScope,
};

fn req_literal(pattern: &str, replacement: &str) -> RedactRequest {
    RedactRequest {
        pattern: pattern.to_string(),
        replacement: replacement.to_string(),
        mode: RedactMode::Literal,
        case_insensitive: false,
        scope: RedactScope::All,
        dry_run: false,
        reason: "test".to_string(),
        applied_in: "Round T".to_string(),
        kind: "redaction".to_string(),
    }
}

fn seed(store: &mut AtomicStore, entry_id: &str) {
    append_changelog_entry(
        store,
        ChangelogEntryDraft {
            entry_id,
            decision_summary: Some("XYZ123 leaked summary"),
            changes_bullets: &vec!["XYZ123 in changes".into(), "clean change".into()],
            verification_bullets: &vec!["XYZ123 in verify".into()],
            impact_refs: &vec!["43".into()],
            carry_forward_bullets: &vec!["XYZ123 in carry".into()],
        },
        "Round ",
    )
    .unwrap();
}

#[test]
fn redact_term_dry_run_does_not_mutate() {
    let mut store = AtomicStore::new();
    seed(&mut store, "Round 999");

    let mut req = req_literal("XYZ123", "[REDACTED]");
    req.dry_run = true;
    let report = redact_term(&mut store, &req).unwrap();

    assert!(report.dry_run);
    assert_eq!(report.hits.len(), 4);
    let entry = store.changelog_entries.get("Round 999").unwrap();
    assert_eq!(
        entry.publishable_decision_summary.as_deref(),
        Some("XYZ123 leaked summary"),
        "dry_run must not mutate"
    );
    assert_eq!(report.ledger_drafts.len(), 1);
    let draft = &report.ledger_drafts[0];
    assert!(draft.contains("[[publishable_override_ledger]]"));
    assert!(draft.contains("target_id = \"Round 999\""));
    assert!(draft.contains("kind = \"redaction\""));
}

#[test]
fn redact_term_apply_mutates_publishable_only() {
    let mut store = AtomicStore::new();
    seed(&mut store, "Round 999");

    let req = req_literal("XYZ123", "[REDACTED]");
    let report = redact_term(&mut store, &req).unwrap();
    assert!(!report.dry_run);
    assert_eq!(report.hits.len(), 4);

    let entry = store.changelog_entries.get("Round 999").unwrap();
    assert_eq!(
        entry.publishable_decision_summary.as_deref(),
        Some("[REDACTED] leaked summary")
    );
    assert_eq!(entry.publishable_changes_bullets[0], "[REDACTED] in changes");
    assert_eq!(entry.publishable_changes_bullets[1], "clean change");
    assert_eq!(
        entry.decision_summary.as_deref(),
        Some("XYZ123 leaked summary")
    );
    assert_eq!(entry.changes_bullets[0], "XYZ123 in changes");
    assert!(!entry.publishable_matches_audit());
}

#[test]
fn redact_term_scope_filter_restricts_fields() {
    let mut store = AtomicStore::new();
    seed(&mut store, "Round 999");

    let mut req = req_literal("XYZ123", "[REDACTED]");
    req.scope = RedactScope::DecisionSummary;
    let report = redact_term(&mut store, &req).unwrap();
    assert_eq!(report.hits.len(), 1);
    assert_eq!(report.hits[0].field, "publishable_decision_summary");

    let entry = store.changelog_entries.get("Round 999").unwrap();
    assert_eq!(
        entry.publishable_decision_summary.as_deref(),
        Some("[REDACTED] leaked summary")
    );
    assert_eq!(entry.publishable_changes_bullets[0], "XYZ123 in changes");
}

#[test]
fn redact_term_regex_mode_with_case_insensitive() {
    let mut store = AtomicStore::new();
    append_changelog_entry(
        &mut store,
        ChangelogEntryDraft {
            entry_id: "Round 999",
            decision_summary: Some("EMAIL: foo@example.com leaked"),
            changes_bullets: &vec!["another foo@example.com cite".into()],
            verification_bullets: &vec!["v".into()],
            impact_refs: &vec![],
            carry_forward_bullets: &vec!["c".into()],
        },
        "Round ",
    )
    .unwrap();
    let mut req = req_literal(r"\b\w+@\w+\.\w+\b", "[EMAIL]");
    req.mode = RedactMode::Regex;
    req.case_insensitive = true;
    let report = redact_term(&mut store, &req).unwrap();
    assert_eq!(report.hits.len(), 2);
    let entry = store.changelog_entries.get("Round 999").unwrap();
    assert_eq!(
        entry.publishable_decision_summary.as_deref(),
        Some("EMAIL: [EMAIL] leaked")
    );
    assert_eq!(entry.publishable_changes_bullets[0], "another [EMAIL] cite");
}

#[test]
fn redact_term_idempotent_after_apply() {
    let mut store = AtomicStore::new();
    seed(&mut store, "Round 999");
    let req = req_literal("XYZ123", "[REDACTED]");
    let _ = redact_term(&mut store, &req).unwrap();
    let report2 = redact_term(&mut store, &req).unwrap();
    assert!(
        report2.hits.is_empty(),
        "idempotent: re-running redact with same pattern is a no-op"
    );
}

#[test]
fn redact_term_rejects_empty_pattern_reason_applied_in() {
    let mut store = AtomicStore::new();
    seed(&mut store, "Round 999");

    let mut req = req_literal("", "x");
    assert!(matches!(
        redact_term(&mut store, &req).unwrap_err(),
        RedactError::EmptyPattern
    ));

    req.pattern = "XYZ123".into();
    req.reason = "".into();
    assert!(matches!(
        redact_term(&mut store, &req).unwrap_err(),
        RedactError::MissingReason
    ));

    req.reason = "ok".into();
    req.applied_in = "  ".into();
    assert!(matches!(
        redact_term(&mut store, &req).unwrap_err(),
        RedactError::MissingAppliedIn
    ));
}

#[test]
fn redact_term_invalid_regex_surfaces() {
    let mut store = AtomicStore::new();
    seed(&mut store, "Round 999");
    let mut req = req_literal("[unclosed", "x");
    req.mode = RedactMode::Regex;
    let err = redact_term(&mut store, &req).unwrap_err();
    assert!(matches!(err, RedactError::InvalidRegex { .. }));
    assert!(
        err.to_text().starts_with("invalid regex `[unclosed`: "),
        "{}",
        err.to_text()
    );
}

#[test]
fn redact_term_ledger_draft_hash_matches_post_apply_hash() {
    let mut store = AtomicStore::new();
    seed(&mut store, "Round 999");
    let req = req_literal("XYZ123", "[REDACTED]");
    let report = redact_term(&mut store, &req).unwrap();
    assert_eq!(report.ledger_drafts.len(), 1);
    let post_hash = store
        .changelog_entries
        .get("Round 999")
        .unwrap()
        .publishable_hash_hex();
    assert!(
        report.ledger_drafts[0].contains(&format!("content_hash_after = \"{}\"", post_hash)),
        "ledger draft must anchor to post-apply publishable hash; draft:\n{}",
        report.ledger_drafts[0]
    );
}

#[test]
fn dry_run_previews_exactly_what_apply_does() {
    let mut a = AtomicStore::new();
    seed(&mut a, "Round 1");
    seed(&mut a, "Round 2");
    let mut preview_req = req_literal("XYZ123", "[R]");
    preview_req.dry_run = true;
    let preview = redact_term(&mut a, &preview_req).unwrap();
    let applied = redact_term(&mut a, &req_literal("XYZ123", "[R]")).unwrap();
    assert_eq!(preview.hits, applied.hits);
    assert_eq!(preview.ledger_drafts, applied.ledger_drafts);
    assert_eq!(applied.touched_entries(), vec!["Round 1", "Round 2"]);
}

#[test]
fn regex_metacharacters_are_literal_in_literal_mode() {
    let mut store = AtomicStore::new();
    append_changelog_entry(
        &mut store,
        ChangelogEntryDraft {
            entry_id: "Round 7",
            decision_summary: Some("a.b and axb"),
            changes_bullets: &vec!["c".into()],
            verification_bullets: &vec!["v".into()],
            impact_refs: &vec![],
            carry_forward_bullets: &vec![],
        },
        "Round ",
    )
    .unwrap();
    let report = redact_term(&mut store, &req_literal("a.b", "X")).unwrap();
    assert_eq!(report.hits.len(), 1);
    assert_eq!(report.hits[0].original, "a.b and axb");
    assert_eq!(report.hits[0].redacted, "X and axb");
    assert_eq!(report.hits[0].index, None);
}

#[test]
fn literal_mode_case_insensitive_matches_any_case() {
    let mut store = AtomicStore::new();
    seed(&mut store, "Round 3");
    let mut req = req_literal("xyz123", "[R]");
    req.case_insensitive = true;
    req.scope = RedactScope::ChangesBullets;
    let report = redact_term(&mut store, &req).unwrap();
    assert_eq!(report.hits.len(), 1);
    assert_eq!(report.hits[0].field, "publishable_changes_bullets");
    assert_eq!(report.hits[0].index, Some(0));
    assert_eq!(report.hits[0].redacted, "[R] in changes");
}

#[test]
fn scope_all_includes_every_field() {
    assert!(scope_includes(RedactScope::All, RedactScope::ImpactRefs));
    assert!(scope_includes(RedactScope::ImpactRefs, RedactScope::ImpactRefs));
    assert!(!scope_includes(RedactScope::ImpactRefs, RedactScope::ChangesBullets));
}

#[test]
fn redaction_error_texts() {
    assert_eq!(RedactError::EmptyPattern.to_text(), "empty pattern not allowed");
    assert_eq!(
        RedactError::MissingReason.to_text(),
        "missing reason \u{2014} redaction must be auditable"
    );
}

#[test]
fn case_insensitive_literal_escapes_metacharacters() {
    let mut store = AtomicStore::new();
    append_changelog_entry(
        &mut store,
        ChangelogEntryDraft {
            entry_id: "Round 8",
            decision_summary: Some("A.B(1) and axb(1)"),
            changes_bullets: &vec!["c".into()],
            verification_bullets: &vec!["v".into()],
            impact_refs: &vec![],
            carry_forward_bullets: &vec![],
        },
        "Round ",
    )
    .unwrap();
    let mut req = req_literal("a.b(1)", "X");
    req.case_insensitive = true;
    let report = redact_term(&mut store, &req).unwrap();
    assert_eq!(report.hits.len(), 1);
    assert_eq!(report.hits[0].redacted, "X and axb(1)");
}

#[test]
fn literal_rerun_finds_nothing_and_keeps_the_store() {
    let mut store = AtomicStore::new();
    seed(&mut store, "Round 5");
    let req = req_literal("XYZ123", "[REDACTED]");
    let first = redact_term(&mut store, &req).unwrap();
    assert_eq!(first.hits.len(), 4);
    let snapshot = store.entry("Round 5").unwrap().clone();
    let second = redact_term(&mut store, &req).unwrap();
    assert!(second.hits.is_empty());
    assert!(second.ledger_drafts.is_empty());
    assert_eq!(store.entry("Round 5").unwrap(), &snapshot);
}

#[test]
fn empty_replacement_can_leave_a_new_occurrence() {
    let mut store = AtomicStore::new();
    append_changelog_entry(
        &mut store,
        ChangelogEntryDraft {
            entry_id: "Round 9",
            decision_summary: Some("aabb"),
            changes_bullets: &vec!["c".into()],
            verification_bullets: &vec!["v".into()],
            impact_refs: &vec![],
            carry_forward_bullets: &vec![],
        },
        "Round ",
    )
    .unwrap();
    let req = req_literal("ab", "");
    let first = redact_term(&mut store, &req).unwrap();
    assert_eq!(first.hits[0].redacted, "ab");
    let second = redact_term(&mut store, &req).unwrap();
    assert_eq!(second.hits.len(), 1);
    assert_eq!(second.hits[0].redacted, "");
}
