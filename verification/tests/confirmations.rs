use mnemosyne_atomic::confirm::{
    ArtifactHashes, ConfirmMethod, ConfirmationClaim, ConfirmationEvent, ConfirmationStatus,
    Confirmer, ConfirmerKind, Verdict,
};
use mnemosyne_atomic::error::AtomicMutateError;
use mnemosyne_atomic::events::{append_confirmation_event, derive_confirmation_event_id};
use mnemosyne_atomic::model::{AtomicSection, AtomicStore};
use mnemosyne_atomic::report::{confirmation_report, confirmation_report_with};

fn seed_section(store: &mut AtomicStore, section_id: &str) {
    store
        .sections
        .insert(section_id.to_string(), AtomicSection::default());
}

fn sample_event(authoring: &str, confirming: &str) -> ConfirmationEvent {
    ConfirmationEvent {
        claim: ConfirmationClaim::VerifiesBinding {
            section_id: "sec".to_string(),
            file: "tests/w3c/Test1.h".to_string(),
            symbol: Some("verify_foo".to_string()),
        },
        confirmer: Confirmer {
            kind: ConfirmerKind::Model,
            id: "review-model-a".to_string(),
            version: "2026-06".to_string(),
        },
        method: ConfirmMethod::SemanticReview,
        artifact_hashes: ArtifactHashes::default(),
        authoring_run: authoring.to_string(),
        confirming_run: confirming.to_string(),
        verdict: Verdict::Confirm,
        rationale: "the test verifies the bound requirement".to_string(),
        timestamp: "2026-06-09T00:00:00Z".to_string(),
    }
}

#[test]
fn confirmation_event_round_trips() {
    let mut store = AtomicStore::new();
    seed_section(&mut store, "sec");
    let id = append_confirmation_event(&mut store, sample_event("runA", "runB")).unwrap();
    assert!(id.starts_with("evt-"));
    let ev = store.confirmation_events.get(&id).unwrap();
    assert_eq!(ev.verdict, Verdict::Confirm);
    assert_eq!(ev.confirmer.kind, ConfirmerKind::Model);
    assert_eq!(ev.method, ConfirmMethod::SemanticReview);
    match &ev.claim {
        ConfirmationClaim::VerifiesBinding { section_id, .. } => {
            assert_eq!(section_id, "sec")
        }
        _ => panic!("wrong claim variant"),
    }
}

#[test]
fn confirmation_event_self_confirm_rejected() {
    let mut store = AtomicStore::new();
    seed_section(&mut store, "sec");
    let err = append_confirmation_event(&mut store, sample_event("runA", "runA")).unwrap_err();
    assert!(
        matches!(err, AtomicMutateError::Validation(_)),
        "self-confirm (authoring_run == confirming_run) must reject (sec 4.7)"
    );
}

#[test]
fn confirmation_event_idempotent_reappend_rejected() {
    let mut store = AtomicStore::new();
    seed_section(&mut store, "sec");
    append_confirmation_event(&mut store, sample_event("runA", "runB")).unwrap();
    let err = append_confirmation_event(&mut store, sample_event("runA", "runB")).unwrap_err();
    assert!(
        matches!(err, AtomicMutateError::FrozenLedger(_)),
        "an identical act must reject (idempotent append-only)"
    );
    append_confirmation_event(&mut store, sample_event("runA", "runC")).unwrap();
    assert_eq!(store.confirmation_events.len(), 2);
}

#[test]
fn confirmation_event_unknown_section_rejected() {
    let mut store = AtomicStore::new();
    let err = append_confirmation_event(&mut store, sample_event("runA", "runB")).unwrap_err();
    assert!(
        matches!(err, AtomicMutateError::NotFound(_)),
        "R287 fail-loud: a claim about an unknown section must reject"
    );
}

#[test]
fn confirmation_event_blank_rationale_rejected() {
    let mut store = AtomicStore::new();
    seed_section(&mut store, "sec");
    let mut ev = sample_event("runA", "runB");
    ev.rationale = "   ".to_string();
    let err = append_confirmation_event(&mut store, ev).unwrap_err();
    assert!(
        matches!(err, AtomicMutateError::Validation(_)),
        "blank rationale must reject (sec 4.1)"
    );
}

#[test]
fn confirmation_report_classifies_proposed_confirmed_refuted() {
    let mut store = AtomicStore::new();
    seed_section(&mut store, "sec");

    append_confirmation_event(&mut store, sample_event("runA", "runB")).unwrap();
    let rep = confirmation_report(&store);
    assert_eq!(rep.claims.len(), 1);
    assert_eq!(rep.claims[0].status, ConfirmationStatus::Proposed);
    assert_eq!(rep.claims[0].independent_semantic, 1);

    let mut tool = sample_event("runA", "runTool");
    tool.method = ConfirmMethod::LinkageCheck;
    tool.confirmer.kind = ConfirmerKind::Tool;
    append_confirmation_event(&mut store, tool).unwrap();
    let rep = confirmation_report(&store);
    assert_eq!(rep.claims[0].status, ConfirmationStatus::Confirmed);
    assert!(rep.claims[0].has_tool_linkage);

    let mut refute = sample_event("runA", "runRefuter");
    refute.verdict = Verdict::Refute;
    refute.rationale = "the test does not exercise the requirement".to_string();
    append_confirmation_event(&mut store, refute).unwrap();
    let rep = confirmation_report(&store);
    assert_eq!(rep.claims[0].status, ConfirmationStatus::Refuted);
}

#[test]
fn confirmation_report_debt_excludes_confirmed() {
    let mut store = AtomicStore::new();
    seed_section(&mut store, "sec");
    append_confirmation_event(&mut store, sample_event("runA", "runB")).unwrap();
    assert_eq!(confirmation_report(&store).debt().len(), 1);
}

#[test]
fn confirmation_report_with_drift_marks_stale() {
    let mut store = AtomicStore::new();
    seed_section(&mut store, "sec");
    let mut tool = sample_event("runA", "runTool");
    tool.method = ConfirmMethod::LinkageCheck;
    tool.confirmer.kind = ConfirmerKind::Tool;
    append_confirmation_event(&mut store, tool).unwrap();
    append_confirmation_event(&mut store, sample_event("runA", "runB")).unwrap();
    assert_eq!(
        confirmation_report(&store).claims[0].status,
        ConfirmationStatus::Confirmed
    );
    let rep = confirmation_report_with(&store, |_| false);
    assert_eq!(rep.claims[0].status, ConfirmationStatus::Stale);
    assert_eq!(rep.claims[0].stale_count, 2);
    assert_eq!(rep.claims[0].confirm_count, 0, "valid confirms excluded");
}

// ---------------------------------------------------------------------------
// Further cases.
// ---------------------------------------------------------------------------

#[test]
fn blank_runs_are_refused_with_the_provenance_message() {
    let mut store = AtomicStore::new();
    seed_section(&mut store, "sec");
    let err = append_confirmation_event(&mut store, sample_event("  ", "runB")).unwrap_err();
    match err {
        AtomicMutateError::Validation(m) => assert_eq!(
            m,
            "authoring_run / confirming_run must be non-blank (provenance, sec 4.1)"
        ),
        other => panic!("unexpected {other:?}"),
    }
    assert!(store.confirmation_events.len() == 0);
}

#[test]
fn the_event_id_is_evt_and_sixteen_hex_digits_and_ignores_the_rationale() {
    let a = sample_event("runA", "runB");
    let mut b = sample_event("runA", "runB");
    b.rationale = "a different rationale".to_string();
    b.artifact_hashes.code_sha256 = vec!["abc".to_string()];
    let ia = derive_confirmation_event_id(&a);
    let ib = derive_confirmation_event_id(&b);
    assert_eq!(ia, ib);
    assert_eq!(ia.len(), 20);
    assert!(ia.starts_with("evt-"));
    assert!(ia[4..].chars().all(|c| c.is_ascii_hexdigit() && !c.is_ascii_uppercase()));
    let c = sample_event("runA", "runC");
    assert_ne!(derive_confirmation_event_id(&c), ia);
}

#[test]
fn the_report_orders_binding_claims_before_completeness_claims() {
    let mut store = AtomicStore::new();
    seed_section(&mut store, "sec");
    seed_section(&mut store, "a");
    let mut whole = sample_event("runA", "runB");
    whole.claim = ConfirmationClaim::SectionCompleteness {
        section_id: "a".to_string(),
    };
    append_confirmation_event(&mut store, whole).unwrap();
    append_confirmation_event(&mut store, sample_event("runA", "runB")).unwrap();
    let mut unsym = sample_event("runA", "runB");
    unsym.claim = ConfirmationClaim::VerifiesBinding {
        section_id: "sec".to_string(),
        file: "tests/w3c/Test1.h".to_string(),
        symbol: None,
    };
    append_confirmation_event(&mut store, unsym).unwrap();
    let rep = confirmation_report(&store);
    assert_eq!(rep.claims.len(), 3);
    assert!(matches!(
        &rep.claims[0].claim,
        ConfirmationClaim::VerifiesBinding { symbol: None, .. }
    ));
    assert!(matches!(
        &rep.claims[1].claim,
        ConfirmationClaim::VerifiesBinding { symbol: Some(_), .. }
    ));
    assert!(matches!(
        &rep.claims[2].claim,
        ConfirmationClaim::SectionCompleteness { .. }
    ));
    assert_eq!(rep.debt().len(), 3);
}

#[test]
fn tags_round_trip_through_from_tag() {
    for k in [ConfirmerKind::Tool, ConfirmerKind::Model] {
        assert_eq!(ConfirmerKind::from_tag(k.as_str()), Some(k));
    }
    for m in [
        ConfirmMethod::LinkageCheck,
        ConfirmMethod::SemanticReview,
        ConfirmMethod::CoverageAttestation,
    ] {
        assert_eq!(ConfirmMethod::from_tag(m.as_str()), Some(m));
    }
    for v in [Verdict::Confirm, Verdict::Refute] {
        assert_eq!(Verdict::from_tag(v.as_str()), Some(v));
    }
    assert_eq!(ConfirmerKind::from_tag("Tool"), None);
    assert_eq!(ConfirmMethod::from_tag("linkage"), None);
    assert_eq!(Verdict::from_tag(""), None);
    assert_eq!(ConfirmMethod::CoverageAttestation.as_str(), "coverage_attestation");
}

#[test]
fn section_id_of_both_claim_kinds() {
    let a = ConfirmationClaim::SectionCompleteness {
        section_id: "s".to_string(),
    };
    assert_eq!(a.section_id(), "s");
    assert_eq!(sample_event("x", "y").claim.section_id(), "sec");
}

#[test]
fn always_current_report_equals_the_plain_report_and_has_no_stale_rows() {
    let mut store = AtomicStore::new();
    seed_section(&mut store, "sec");
    let mut tool = sample_event("runA", "runTool");
    tool.method = ConfirmMethod::LinkageCheck;
    tool.confirmer.kind = ConfirmerKind::Tool;
    append_confirmation_event(&mut store, tool).unwrap();
    append_confirmation_event(&mut store, sample_event("runA", "runB")).unwrap();
    let plain = confirmation_report(&store);
    let with = confirmation_report_with(&store, |_| true);
    assert_eq!(plain.claims.len(), with.claims.len());
    for (a, b) in plain.claims.iter().zip(with.claims.iter()) {
        assert_eq!(a.claim, b.claim);
        assert_eq!(a.status, b.status);
        assert_eq!(a.confirm_count, b.confirm_count);
        assert_eq!(a.refute_count, b.refute_count);
        assert_eq!(a.stale_count, b.stale_count);
        assert_eq!(a.has_tool_linkage, b.has_tool_linkage);
        assert_eq!(a.independent_semantic, b.independent_semantic);
        assert_eq!(a.stale_count, 0);
        assert_ne!(a.status, ConfirmationStatus::Stale);
    }
}
