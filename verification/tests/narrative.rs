use mnemosyne_atomic::digest::sha256_hex;
use mnemosyne_atomic::disclosure::{add_disclosure_plan, set_disclosure, DisclosureDecision};
use mnemosyne_atomic::error::AtomicMutateError;
use mnemosyne_atomic::fact_ops::{
    add_fact, add_fact_conflict, amend_fact, inbound_fact_refs, retract_fact,
};
use mnemosyne_atomic::facts::FactImport;
use mnemosyne_atomic::manifest::{
    import_facts, BranchConvergeImport, BranchImport, DisclosureOverrideImport,
    DisclosurePlanImport, DisclosureSurfaceImport, EntityImport, FactsManifest, FrameImport,
    PredicateImport,
};
use mnemosyne_atomic::model::{AtomicSection, AtomicStore};
use mnemosyne_atomic::narrative::{
    main_branch, Branch, DisclosureMode, Entity, Frame, PayoffExpectation, Predicate,
    PredicateObjectKind, TypedClaim, TypedObject,
};
use mnemosyne_atomic::proposals::{
    check_edge_proposals_file, check_typing_proposals_file, import_edge_proposals,
    import_typing_proposals, ConflictProposal, EdgeProposalsFile,
    SuccessionProposal, TypingProposal, TypingProposalsFile,
};
use mnemosyne_atomic::registry::{
    add_branch, add_entity, add_frame, add_predicate, is_known_world, succession_branch_inherits,
};

fn seed_section(store: &mut AtomicStore, section_id: &str) {
    store
        .sections
        .insert(section_id.to_string(), AtomicSection::default());
}

/// A valid fact against the seeded chapters.
fn sample_fact(fact_id: &str, frame: &str) -> FactImport {
    FactImport {
        entities: vec![],
        fact_id: fact_id.to_string(),
        frame: frame.to_string(),
        branch: None,
        claim: "the count is an eccentric nobleman".to_string(),
        canon_from: "ch-1".to_string(),
        canon_to: None,
        evidence: vec!["ch-1".to_string()],
        conflicts_with: vec![],
        supersedes_in_frame: None,
        payoff_expectation: None,
        pays_off: vec![],
        typed: None,
        quote: None,
    }
}

fn seed_chapters(store: &mut AtomicStore) {
    seed_section(store, "ch-1");
    seed_section(store, "ch-2");
    seed_section(store, "ch-3");
}

fn set_disc(
    store: &mut AtomicStore,
    telling: &str,
    fact: &str,
    mode: &str,
    first_at: &[(String, String)],
    surface: Option<(&str, Option<&str>)>,
) -> Result<(), AtomicMutateError> {
    set_disclosure(
        store,
        DisclosureDecision {
            telling_id: telling,
            fact_id: fact,
            mode,
            first_at,
            surface,
        },
    )
}

fn empty_manifest() -> FactsManifest {
    FactsManifest {
        disclosure_plans: vec![],
        frames: vec![],
        branches: vec![],
        entities: vec![],
        predicates: vec![],
        facts: vec![],
    }
}

fn frame(id: &str) -> FrameImport {
    FrameImport {
        frame_id: id.to_string(),
        description: String::new(),
    }
}

#[test]
fn disclosure_plan_and_set_disclosure_invariants() {
    let mut store = AtomicStore::new();
    seed_chapters(&mut store);
    store.frames.insert("gt".to_string(), Frame::default());
    store.entities.insert("pike".to_string(), Entity::default());
    add_branch(&mut store, "route", "", Some((main_branch(), "ch-2")), &[]).unwrap();
    add_predicate(&mut store, "did", "scalar", "").unwrap();
    add_fact(&mut store, &sample_fact("f-untyped", "gt")).unwrap();
    let typed_fact = FactImport {
        entities: vec!["pike".to_string()],
        typed: Some(TypedClaim {
            subject: "pike".to_string(),
            predicate: "did".to_string(),
            object: TypedObject::Value {
                value: "climbed".to_string(),
            },
        }),
        ..sample_fact("f-typed", "gt")
    };
    add_fact(&mut store, &typed_fact).unwrap();

    add_disclosure_plan(&mut store, "dark-souls", "withhold", "fragment telling").unwrap();
    let err = add_disclosure_plan(&mut store, "bad", "loud", "").unwrap_err();
    assert!(err.to_text().contains("unknown default_mode"), "{}", err.to_text());

    let err = set_disc(&mut store, "dark-souls", "f-untyped", "withhold", &[], None).unwrap_err();
    assert!(err.to_text().contains("no typed claim"), "{}", err.to_text());
    let err = set_disc(
        &mut store,
        "dark-souls",
        "f-untyped",
        "state",
        &[(main_branch().to_string(), "ch-2".to_string())],
        None,
    )
    .unwrap_err();
    assert!(err.to_text().contains("no typed claim"), "{}", err.to_text());
    set_disc(&mut store, "dark-souls", "f-untyped", "state", &[], None).unwrap();

    set_disc(&mut store, "dark-souls", "f-typed", "withhold", &[], None).unwrap();
    set_disc(
        &mut store,
        "dark-souls",
        "f-typed",
        "state",
        &[("route".to_string(), "ch-3".to_string())],
        Some(("ch-2", Some("pike"))),
    )
    .unwrap();
    let ov = store
        .disclosure_plans
        .get("dark-souls")
        .unwrap()
        .overrides
        .get("f-typed")
        .unwrap();
    assert_eq!(ov.mode, DisclosureMode::State);
    assert_eq!(ov.first_at.get("route").map(String::as_str), Some("ch-3"));
    let surface = ov.surface.as_ref().unwrap();
    assert_eq!(surface.scene, "ch-2");
    assert_eq!(surface.object.as_deref(), Some("pike"));

    let err = set_disc(&mut store, "missing", "f-typed", "state", &[], None).unwrap_err();
    assert!(
        err.to_text().contains("not present in the disclosure_plans"),
        "{}",
        err.to_text()
    );
    let err = set_disc(&mut store, "dark-souls", "f-absent", "state", &[], None).unwrap_err();
    assert!(
        err.to_text().contains("not present in narrative_facts"),
        "{}",
        err.to_text()
    );
    let err = set_disc(
        &mut store,
        "dark-souls",
        "f-typed",
        "state",
        &[("nope".to_string(), "ch-2".to_string())],
        None,
    )
    .unwrap_err();
    assert!(err.to_text().contains("branch `nope`"), "{}", err.to_text());
    let err = set_disc(
        &mut store,
        "dark-souls",
        "f-typed",
        "state",
        &[(main_branch().to_string(), "ch-404".to_string())],
        None,
    )
    .unwrap_err();
    assert!(err.to_text().contains("ch-404"), "{}", err.to_text());
    let err = set_disc(
        &mut store,
        "dark-souls",
        "f-typed",
        "state",
        &[],
        Some(("ch-2", Some("ghost"))),
    )
    .unwrap_err();
    assert!(
        err.to_text().contains("surface object `ghost`"),
        "{}",
        err.to_text()
    );

    let again = add_disclosure_plan(&mut store, "dark-souls", "withhold", "fragment telling").unwrap();
    assert!(!again);
    let err =
        add_disclosure_plan(&mut store, "dark-souls", "state", "fragment telling").unwrap_err();
    assert!(err.to_text().contains("DIVERGENT policy"), "{}", err.to_text());

    assert_eq!(
        store
            .disclosure_plans
            .get("dark-souls")
            .unwrap()
            .overrides
            .len(),
        2
    );
}

// ---- typing proposals ----

fn typing_substrate() -> AtomicStore {
    let mut store = AtomicStore::new();
    seed_chapters(&mut store);
    import_facts(
        &mut store,
        &FactsManifest {
            frames: vec![frame("gt")],
            entities: vec![EntityImport {
                entity_id: "kara".to_string(),
                kind: String::new(),
                description: String::new(),
            }],
            predicates: vec![PredicateImport {
                predicate_id: "alive".to_string(),
                object_kind: "scalar".to_string(),
                description: String::new(),
            }],
            facts: vec![
                FactImport {
                    entities: vec!["kara".to_string()],
                    ..sample_fact("f-1", "gt")
                },
                FactImport {
                    entities: vec!["kara".to_string()],
                    claim: "kara is alive".to_string(),
                    ..sample_fact("f-2", "gt")
                },
            ],
            ..empty_manifest()
        },
    )
    .unwrap();
    store
}

fn proposal(fact: &str, claim: &str, rationale: &str) -> TypingProposal {
    TypingProposal {
        fact: fact.to_string(),
        typed: TypedClaim {
            subject: "kara".to_string(),
            predicate: "alive".to_string(),
            object: TypedObject::Value {
                value: "alive".to_string(),
            },
        },
        claim_sha256: sha256_hex(claim),
        rationale: rationale.to_string(),
    }
}

fn proposals_file(proposals: Vec<TypingProposal>) -> TypingProposalsFile {
    TypingProposalsFile {
        schema: "typing-proposals/v1".to_string(),
        comment: String::new(),
        proposals,
    }
}

#[test]
fn typing_proposals_import_is_all_or_nothing_with_staleness_pin() {
    let mut store = typing_substrate();
    let file = proposals_file(vec![
        proposal("f-1", "the count is an eccentric nobleman", "state claim"),
        proposal("f-2", "an outdated claim text", "state claim"),
    ]);
    let report = import_typing_proposals(&mut store, &file, "sha", false);
    assert_eq!((report.accepted, report.rejected), (1, 1));
    assert!(!report.applied);
    assert!(report.verdicts[1].verdict.contains("stale proposal"));
    assert!(
        store.narrative_facts.get("f-1").unwrap().typed.is_none(),
        "all-or-nothing: nothing applies while any proposal rejects"
    );
    let file = proposals_file(vec![
        proposal("f-1", "the count is an eccentric nobleman", "state claim"),
        proposal("f-2", "kara is alive", "state claim"),
    ]);
    let dry = import_typing_proposals(&mut store, &file, "sha", true);
    assert_eq!((dry.accepted, dry.rejected), (2, 0));
    assert!(dry.dry_run && !dry.applied);
    assert!(store.narrative_facts.get("f-1").unwrap().typed.is_none());
    let real = import_typing_proposals(&mut store, &file, "sha", false);
    assert!(real.applied);
    assert!(store.narrative_facts.get("f-1").unwrap().typed.is_some());
    assert!(store.narrative_facts.get("f-2").unwrap().typed.is_some());
}

#[test]
fn typing_proposals_reject_classes_are_named() {
    let mut store = typing_substrate();
    let ok = proposals_file(vec![proposal(
        "f-1",
        "the count is an eccentric nobleman",
        "r",
    )]);
    assert!(import_typing_proposals(&mut store, &ok, "sha", false).applied);
    let mut unregistered = proposal("f-2", "kara is alive", "r");
    unregistered.typed.predicate = "deviancy".to_string();
    let mut no_rationale = proposal("f-2", "kara is alive", "");
    no_rationale.fact = "f-2".to_string();
    let file = proposals_file(vec![
        proposal("f-1", "the count is an eccentric nobleman", "r"),
        proposal("f-ghost", "x", "r"),
        no_rationale,
        unregistered,
    ]);
    let report = import_typing_proposals(&mut store, &file, "sha", false);
    assert!(!report.applied);
    assert_eq!(report.rejected, 4);
    assert!(report.verdicts[0]
        .verdict
        .contains("already carries a typed leg"));
    assert!(report.verdicts[1]
        .verdict
        .contains("not present in atomic store"));
    assert!(report.verdicts[2].verdict.contains("rationale mandatory"));
    assert!(report.verdicts[3].verdict.contains("duplicate proposal"));
}

// ---- edge proposals ----

fn edge_substrate() -> AtomicStore {
    let mut store = AtomicStore::new();
    seed_chapters(&mut store);
    import_facts(
        &mut store,
        &FactsManifest {
            frames: vec![frame("gt"), frame("kara")],
            facts: vec![
                sample_fact("f-1", "gt"),
                FactImport {
                    claim: "kara is alive".to_string(),
                    canon_from: "ch-2".to_string(),
                    evidence: vec!["ch-2".to_string()],
                    ..sample_fact("f-2", "gt")
                },
                sample_fact("f-3", "kara"),
            ],
            ..empty_manifest()
        },
    )
    .unwrap();
    store
}

fn succession_proposal(
    successor: &str,
    s_claim: &str,
    predecessor: &str,
    p_claim: &str,
) -> SuccessionProposal {
    SuccessionProposal {
        successor: successor.to_string(),
        predecessor: predecessor.to_string(),
        successor_claim_sha256: sha256_hex(s_claim),
        predecessor_claim_sha256: sha256_hex(p_claim),
        rationale: "r".to_string(),
    }
}

fn conflict_proposal(fact: &str, f_claim: &str, target: &str, t_claim: &str) -> ConflictProposal {
    ConflictProposal {
        fact: fact.to_string(),
        target: target.to_string(),
        fact_claim_sha256: sha256_hex(f_claim),
        target_claim_sha256: sha256_hex(t_claim),
        rationale: "r".to_string(),
    }
}

fn edge_file(
    succession: Vec<SuccessionProposal>,
    conflicts: Vec<ConflictProposal>,
) -> EdgeProposalsFile {
    EdgeProposalsFile {
        schema: "edge-proposals/v1".to_string(),
        comment: String::new(),
        succession,
        conflicts,
    }
}

#[test]
fn amend_fact_succession_cycle_rejects() {
    let mut store = edge_substrate();
    amend_fact(
        &mut store,
        &FactImport {
            claim: "kara is alive".to_string(),
            canon_from: "ch-2".to_string(),
            evidence: vec!["ch-2".to_string()],
            supersedes_in_frame: Some("f-1".to_string()),
            ..sample_fact("f-2", "gt")
        },
        "chain it",
    )
    .unwrap();
    let err = amend_fact(
        &mut store,
        &FactImport {
            supersedes_in_frame: Some("f-2".to_string()),
            ..sample_fact("f-1", "gt")
        },
        "cycle attempt",
    )
    .unwrap_err();
    assert!(
        err.to_text().contains("cycle"),
        "the shared guard rejects: {}",
        err.to_text()
    );
    assert!(
        store
            .narrative_facts
            .get("f-1")
            .unwrap()
            .supersedes_in_frame
            .is_none(),
        "store untouched"
    );
}

#[test]
fn import_facts_forward_ref_succession_cycle_rejects() {
    let mut store = AtomicStore::new();
    seed_chapters(&mut store);
    let err = import_facts(
        &mut store,
        &FactsManifest {
            frames: vec![frame("gt")],
            facts: vec![
                FactImport {
                    supersedes_in_frame: Some("f-d".to_string()),
                    ..sample_fact("f-c", "gt")
                },
                FactImport {
                    supersedes_in_frame: Some("f-c".to_string()),
                    ..sample_fact("f-d", "gt")
                },
            ],
            ..empty_manifest()
        },
    )
    .unwrap_err();
    assert!(err.to_text().contains("cycle"), "{}", err.to_text());
    assert_eq!(store.narrative_facts.len(), 0, "nothing staged survives");
}

#[test]
fn succession_invariant_parity_across_write_paths() {
    let mut store = edge_substrate();
    let via_fact = add_fact(
        &mut store,
        &FactImport {
            supersedes_in_frame: Some("f-3".to_string()),
            ..sample_fact("f-new", "gt")
        },
    )
    .unwrap_err();
    let file = edge_file(
        vec![succession_proposal(
            "f-1",
            "the count is an eccentric nobleman",
            "f-3",
            "the count is an eccentric nobleman",
        )],
        vec![],
    );
    let report = import_edge_proposals(&mut store, &file, "sha", false);
    assert!(via_fact.to_text().contains("in-frame succession only"));
    assert!(report.verdicts[0]
        .verdict
        .contains("in-frame succession only"));
    let via_fact = add_fact(
        &mut store,
        &FactImport {
            supersedes_in_frame: Some("f-ghost".to_string()),
            ..sample_fact("f-new", "gt")
        },
    )
    .unwrap_err();
    let file = edge_file(
        vec![succession_proposal(
            "f-1",
            "the count is an eccentric nobleman",
            "f-ghost",
            "x",
        )],
        vec![],
    );
    let report = import_edge_proposals(&mut store, &file, "sha", false);
    assert!(via_fact.to_text().contains("not present"));
    assert!(report.verdicts[0].verdict.contains("not present"));
    let mut store_b = edge_substrate();
    add_fact(
        &mut store_b,
        &FactImport {
            supersedes_in_frame: Some("f-1".to_string()),
            claim: "via fact path".to_string(),
            ..sample_fact("f-new", "gt")
        },
    )
    .unwrap();
    let file = edge_file(
        vec![succession_proposal(
            "f-2",
            "kara is alive",
            "f-1",
            "the count is an eccentric nobleman",
        )],
        vec![],
    );
    let report = import_edge_proposals(&mut store, &file, "sha", false);
    assert!(report.applied, "{:?}", report.verdicts);
}

#[test]
fn edge_proposals_import_all_or_nothing_two_sided_pins() {
    let mut store = edge_substrate();
    let stale = edge_file(
        vec![succession_proposal(
            "f-2",
            "kara is alive",
            "f-1",
            "the count is an eccentric nobleman",
        )],
        vec![conflict_proposal(
            "f-3",
            "an outdated claim text",
            "f-1",
            "the count is an eccentric nobleman",
        )],
    );
    let report = import_edge_proposals(&mut store, &stale, "sha", false);
    assert_eq!((report.accepted, report.rejected), (1, 1));
    assert!(!report.applied);
    assert!(report.verdicts[1].verdict.contains("stale proposal"));
    assert!(
        store
            .narrative_facts
            .get("f-2")
            .unwrap()
            .supersedes_in_frame
            .is_none(),
        "all-or-nothing: nothing applies while any proposal rejects"
    );
    let good = edge_file(
        vec![succession_proposal(
            "f-2",
            "kara is alive",
            "f-1",
            "the count is an eccentric nobleman",
        )],
        vec![conflict_proposal(
            "f-3",
            "the count is an eccentric nobleman",
            "f-1",
            "the count is an eccentric nobleman",
        )],
    );
    let dry = import_edge_proposals(&mut store, &good, "sha", true);
    assert!(dry.dry_run && !dry.applied && dry.rejected == 0);
    assert!(store
        .narrative_facts
        .get("f-2")
        .unwrap()
        .supersedes_in_frame
        .is_none());
    let real = import_edge_proposals(&mut store, &good, "sha", false);
    assert!(real.applied);
    assert_eq!(
        store
            .narrative_facts
            .get("f-2")
            .unwrap()
            .supersedes_in_frame
            .as_deref(),
        Some("f-1")
    );
    let edge = &store.narrative_facts.get("f-3").unwrap().conflicts_with[0];
    assert_eq!(edge.target, "f-1");
    assert_eq!(
        edge.target_claim_sha256,
        sha256_hex("the count is an eccentric nobleman"),
        "write-time stamp computed, never copied from the proposal"
    );
}

#[test]
fn edge_proposals_reject_classes_are_named() {
    let mut store = edge_substrate();
    add_fact_conflict(&mut store, "f-1", "f-3").unwrap();
    amend_fact(
        &mut store,
        &FactImport {
            claim: "kara is alive".to_string(),
            canon_from: "ch-2".to_string(),
            evidence: vec!["ch-2".to_string()],
            supersedes_in_frame: Some("f-1".to_string()),
            ..sample_fact("f-2", "gt")
        },
        "chain",
    )
    .unwrap();
    let mut no_rationale = conflict_proposal(
        "f-2",
        "kara is alive",
        "f-3",
        "the count is an eccentric nobleman",
    );
    no_rationale.rationale = "  ".to_string();
    let file = edge_file(
        vec![
            succession_proposal(
                "f-2",
                "kara is alive",
                "f-1",
                "the count is an eccentric nobleman",
            ),
            succession_proposal(
                "f-2",
                "kara is alive",
                "f-3",
                "the count is an eccentric nobleman",
            ),
        ],
        vec![
            conflict_proposal(
                "f-3",
                "the count is an eccentric nobleman",
                "f-1",
                "the count is an eccentric nobleman",
            ),
            conflict_proposal(
                "f-1",
                "the count is an eccentric nobleman",
                "f-1",
                "the count is an eccentric nobleman",
            ),
            no_rationale,
        ],
    );
    let report = import_edge_proposals(&mut store, &file, "sha", false);
    assert!(!report.applied);
    assert_eq!(report.rejected, 5);
    assert!(report.verdicts[0]
        .verdict
        .contains("already carries a succession pointer"));
    assert!(report.verdicts[1].verdict.contains("duplicate proposal"));
    assert!(report.verdicts[2].verdict.contains("already recorded"));
    assert!(report.verdicts[3].verdict.contains("conflict with itself"));
    assert!(report.verdicts[4].verdict.contains("rationale mandatory"));
    assert!(matches!(
        add_fact_conflict(&mut store, "f-3", "f-1"),
        Err(AtomicMutateError::FrozenLedger(_))
    ));
}

#[test]
fn edge_proposals_joint_cycle_rejects() {
    let mut store = edge_substrate();
    let file = edge_file(
        vec![
            succession_proposal(
                "f-2",
                "kara is alive",
                "f-1",
                "the count is an eccentric nobleman",
            ),
            succession_proposal(
                "f-1",
                "the count is an eccentric nobleman",
                "f-2",
                "kara is alive",
            ),
        ],
        vec![],
    );
    let report = import_edge_proposals(&mut store, &file, "sha", false);
    assert!(!report.applied);
    assert_eq!(report.verdicts[0].verdict, "accepted");
    assert!(report.verdicts[1].verdict.contains("cycle"));
    assert!(store
        .narrative_facts
        .get("f-2")
        .unwrap()
        .supersedes_in_frame
        .is_none());
}

#[test]
fn import_facts_round_trips_with_forward_succession() {
    let mut store = AtomicStore::new();
    seed_chapters(&mut store);
    let mut f_new = sample_fact("f-new", "jonathan");
    f_new.canon_from = "ch-3".to_string();
    f_new.claim = "the count is something unnatural".to_string();
    f_new.supersedes_in_frame = Some("f-old".to_string());
    f_new.quote = Some("he crawled face-down the castle wall".to_string());
    let mut f_old = sample_fact("f-old", "jonathan");
    f_old.canon_to = Some("ch-2".to_string());
    let manifest = FactsManifest {
        frames: vec![
            FrameImport {
                frame_id: "jonathan".to_string(),
                description: "Jonathan Harker's epistemic frame".to_string(),
            },
            frame("ground-truth"),
        ],
        facts: vec![f_new, f_old],
        ..empty_manifest()
    };
    let outcome = import_facts(&mut store, &manifest).unwrap();
    assert_eq!(
        outcome.summary,
        "2 frames + 0 branches + 0 entities + 0 predicates + 2 facts + 0 disclosure-plans \
         + 0 disclosure-overrides created, 0 no-op"
    );
    assert!(outcome.changed);
    assert_eq!(store.frames.len(), 2);
    let new = store.narrative_facts.get("f-new").unwrap();
    assert_eq!(new.supersedes_in_frame.as_deref(), Some("f-old"));
    assert_eq!(
        new.quote_sha256.as_deref(),
        Some(sha256_hex("he crawled face-down the castle wall").as_str())
    );
    assert_eq!(
        store
            .narrative_facts
            .get("f-old")
            .unwrap()
            .canon_to
            .as_deref(),
        Some("ch-2")
    );
    let again = import_facts(&mut store, &manifest).unwrap();
    assert!(!again.changed);
    assert_eq!(
        again.summary,
        "0 frames + 0 branches + 0 entities + 0 predicates + 0 facts + 0 disclosure-plans \
         + 0 disclosure-overrides created, 4 no-op"
    );
}

#[test]
fn import_facts_rejects_unknown_frame_and_missing_refs() {
    let mut store = AtomicStore::new();
    seed_chapters(&mut store);
    let manifest = FactsManifest {
        facts: vec![sample_fact("f1", "nobody")],
        ..empty_manifest()
    };
    let err = import_facts(&mut store, &manifest).unwrap_err();
    assert!(err.to_text().contains("frames registry"), "{}", err.to_text());
    let frames = vec![frame("gt")];
    let mut bad_evidence = sample_fact("f1", "gt");
    bad_evidence.evidence = vec!["ch-99".to_string()];
    let err = import_facts(
        &mut store,
        &FactsManifest {
            frames: frames.clone(),
            facts: vec![bad_evidence],
            ..empty_manifest()
        },
    )
    .unwrap_err();
    assert!(
        err.to_text().contains("not present as a section"),
        "{}",
        err.to_text()
    );
    let mut no_evidence = sample_fact("f1", "gt");
    no_evidence.evidence = vec![];
    let err = import_facts(
        &mut store,
        &FactsManifest {
            frames: frames.clone(),
            facts: vec![no_evidence],
            ..empty_manifest()
        },
    )
    .unwrap_err();
    assert!(err.to_text().contains("evidence mandatory"), "{}", err.to_text());
    let mut bad_canon = sample_fact("f1", "gt");
    bad_canon.canon_from = "ch-99".to_string();
    let err = import_facts(
        &mut store,
        &FactsManifest {
            frames,
            facts: vec![bad_canon],
            ..empty_manifest()
        },
    )
    .unwrap_err();
    assert!(err.to_text().contains("canon_from"), "{}", err.to_text());
    assert_eq!(store.narrative_facts.len(), 0);
}

#[test]
fn import_facts_rejects_cross_frame_succession() {
    let mut store = AtomicStore::new();
    seed_chapters(&mut store);
    let mut successor = sample_fact("f2", "seward");
    successor.supersedes_in_frame = Some("f1".to_string());
    let manifest = FactsManifest {
        frames: vec![frame("jonathan"), frame("seward")],
        facts: vec![sample_fact("f1", "jonathan"), successor],
        ..empty_manifest()
    };
    let err = import_facts(&mut store, &manifest).unwrap_err();
    assert!(
        err.to_text().contains("in-frame succession only"),
        "{}",
        err.to_text()
    );
    assert_eq!(store.narrative_facts.len(), 0);
}

#[test]
fn import_facts_divergent_rejects_whole_manifest() {
    let mut store = AtomicStore::new();
    seed_chapters(&mut store);
    let frames = vec![frame("gt")];
    import_facts(
        &mut store,
        &FactsManifest {
            frames: frames.clone(),
            facts: vec![sample_fact("f1", "gt")],
            ..empty_manifest()
        },
    )
    .unwrap();
    let mut divergent = sample_fact("f1", "gt");
    divergent.claim = "a different claim".to_string();
    let err = import_facts(
        &mut store,
        &FactsManifest {
            frames,
            facts: vec![divergent],
            ..empty_manifest()
        },
    )
    .unwrap_err();
    assert!(err.to_text().contains("DIVERGENT"), "{}", err.to_text());
    assert_eq!(
        store.narrative_facts.get("f1").unwrap().claim,
        "the count is an eccentric nobleman"
    );
}

#[test]
fn fact_write_path_parity_add_vs_import() {
    let cases: Vec<(&str, FactImport)> = vec![
        ("valid", sample_fact("p1", "gt")),
        ("unknown frame", sample_fact("p2", "nobody")),
        (
            "missing evidence ref",
            FactImport {
                entities: vec![],
                evidence: vec!["ch-99".to_string()],
                ..sample_fact("p3", "gt")
            },
        ),
        (
            "empty evidence",
            FactImport {
                entities: vec![],
                evidence: vec![],
                ..sample_fact("p4", "gt")
            },
        ),
        (
            "self conflict",
            FactImport {
                entities: vec![],
                conflicts_with: vec!["p5".to_string()],
                ..sample_fact("p5", "gt")
            },
        ),
        (
            "blank canon_to",
            FactImport {
                entities: vec![],
                canon_to: Some("  ".to_string()),
                ..sample_fact("p6", "gt")
            },
        ),
        (
            "blank branch",
            FactImport {
                entities: vec![],
                branch: Some("  ".to_string()),
                ..sample_fact("p7", "gt")
            },
        ),
        (
            "unregistered branch",
            FactImport {
                branch: Some("sea-rotue".to_string()),
                ..sample_fact("p8", "gt")
            },
        ),
        (
            "unregistered entity",
            FactImport {
                entities: vec!["dracual".to_string()],
                ..sample_fact("p9", "gt")
            },
        ),
        (
            "self pays_off",
            FactImport {
                pays_off: vec!["p10".to_string()],
                ..sample_fact("p10", "gt")
            },
        ),
        (
            "blank pays_off ref",
            FactImport {
                pays_off: vec!["  ".to_string()],
                ..sample_fact("p11", "gt")
            },
        ),
        (
            "duplicate pays_off ref",
            FactImport {
                pays_off: vec!["x".to_string(), "x".to_string()],
                ..sample_fact("p12", "gt")
            },
        ),
        (
            "missing pays_off target",
            FactImport {
                pays_off: vec!["never-written".to_string()],
                ..sample_fact("p13", "gt")
            },
        ),
        (
            "unknown payoff_expectation tag",
            FactImport {
                payoff_expectation: Some("chekhov".to_string()),
                ..sample_fact("p14", "gt")
            },
        ),
    ];
    for (label, entry) in cases {
        let mut store_a = AtomicStore::new();
        let mut store_b = AtomicStore::new();
        for s in [&mut store_a, &mut store_b] {
            seed_chapters(s);
            s.frames.insert("gt".to_string(), Frame::default());
        }
        let add_ok = add_fact(&mut store_a, &entry).is_ok();
        let import_ok = import_facts(
            &mut store_b,
            &FactsManifest {
                facts: vec![entry],
                ..empty_manifest()
            },
        )
        .is_ok();
        assert_eq!(
            add_ok, import_ok,
            "write-path parity broken for case `{label}`: add={add_ok} import={import_ok}"
        );
    }
}

#[test]
fn fact_payoff_fields_roundtrip_and_block_retract() {
    let mut store = AtomicStore::new();
    seed_chapters(&mut store);
    store.frames.insert("gt".to_string(), Frame::default());
    add_fact(
        &mut store,
        &FactImport {
            payoff_expectation: Some("expected".to_string()),
            ..sample_fact("setup-1", "gt")
        },
    )
    .unwrap();
    add_fact(
        &mut store,
        &FactImport {
            pays_off: vec!["setup-1".to_string()],
            ..sample_fact("payoff-1", "gt")
        },
    )
    .unwrap();
    assert_eq!(
        store
            .narrative_facts
            .get("setup-1")
            .unwrap()
            .payoff_expectation,
        PayoffExpectation::Expected
    );
    assert_eq!(
        store.narrative_facts.get("payoff-1").unwrap().pays_off,
        vec!["setup-1".to_string()]
    );
    let err = retract_fact(&mut store, "setup-1", "test").unwrap_err();
    assert!(
        err.to_text().contains("pays_off"),
        "retract must name the payoff referrer: {}",
        err.to_text()
    );
    retract_fact(&mut store, "payoff-1", "test").unwrap();
    retract_fact(&mut store, "setup-1", "test").unwrap();
}

fn typed(subject: &str, predicate: &str, object: TypedObject) -> Option<TypedClaim> {
    Some(TypedClaim {
        subject: subject.to_string(),
        predicate: predicate.to_string(),
        object,
    })
}

fn scalar(v: &str) -> TypedObject {
    TypedObject::Value {
        value: v.to_string(),
    }
}

fn ent(id: &str) -> TypedObject {
    TypedObject::Entity { id: id.to_string() }
}

fn with_entities(fact_id: &str, ents: &[&str], t: Option<TypedClaim>) -> FactImport {
    FactImport {
        entities: ents.iter().map(|s| s.to_string()).collect(),
        typed: t,
        ..sample_fact(fact_id, "gt")
    }
}

fn register_predicate(store: &mut AtomicStore, id: &str, kind: PredicateObjectKind) {
    store.predicates.insert(
        id.to_string(),
        Predicate {
            object_kind: kind,
            description: String::new(),
        },
    );
}

#[test]
fn typed_claim_write_path_parity_add_vs_import() {
    let cases: Vec<(&str, FactImport)> = vec![
        (
            "valid scalar typed",
            with_entities("t1", &["kara"], typed("kara", "alive", scalar("operational"))),
        ),
        (
            "valid entity typed",
            with_entities(
                "t2",
                &["kara", "todd-gun"],
                typed("kara", "holds", ent("todd-gun")),
            ),
        ),
        (
            "unknown predicate",
            with_entities("t3", &["kara"], typed("kara", "at-locaton", scalar("x"))),
        ),
        (
            "subject not in entities list",
            with_entities("t4", &[], typed("kara", "alive", scalar("operational"))),
        ),
        (
            "subject unregistered",
            with_entities("t5", &["kara"], typed("alucard", "alive", scalar("x"))),
        ),
        (
            "object entity not listed",
            with_entities("t6", &["kara"], typed("kara", "holds", ent("todd-gun"))),
        ),
        (
            "entity object on scalar predicate",
            with_entities(
                "t7",
                &["kara", "todd-gun"],
                typed("kara", "alive", ent("todd-gun")),
            ),
        ),
        (
            "value object on entity predicate",
            with_entities("t8", &["kara"], typed("kara", "holds", scalar("todd-gun"))),
        ),
        (
            "blank subject",
            with_entities("t9", &["kara"], typed("  ", "alive", scalar("x"))),
        ),
        (
            "blank scalar value",
            with_entities("t10", &["kara"], typed("kara", "alive", scalar("  "))),
        ),
    ];
    for (label, entry) in cases {
        let mut store_a = AtomicStore::new();
        let mut store_b = AtomicStore::new();
        for s in [&mut store_a, &mut store_b] {
            seed_chapters(s);
            s.frames.insert("gt".to_string(), Frame::default());
            s.entities.insert("kara".to_string(), Entity::default());
            s.entities.insert("todd-gun".to_string(), Entity::default());
            register_predicate(s, "alive", PredicateObjectKind::Scalar);
            register_predicate(s, "holds", PredicateObjectKind::Entity);
        }
        let add_ok = add_fact(&mut store_a, &entry).is_ok();
        let import_ok = import_facts(
            &mut store_b,
            &FactsManifest {
                facts: vec![entry],
                ..empty_manifest()
            },
        )
        .is_ok();
        assert_eq!(
            add_ok, import_ok,
            "typed write-path parity broken for case `{label}`: add={add_ok} import={import_ok}"
        );
    }
}

#[test]
fn disclosure_write_path_parity_set_vs_manifest() {
    let cases: Vec<(&str, &str, &str, Vec<(String, String)>)> = vec![
        ("state on typed fact", "typed-1", "state", vec![]),
        ("state on untyped fact (no pin)", "prose-1", "state", vec![]),
        ("withhold on untyped fact", "prose-1", "withhold", vec![]),
        (
            "first_at on untyped fact",
            "prose-1",
            "state",
            vec![("main".to_string(), "ch-2".to_string())],
        ),
        (
            "first_at on typed fact",
            "typed-1",
            "state",
            vec![("main".to_string(), "ch-2".to_string())],
        ),
        ("unknown mode", "typed-1", "bogus", vec![]),
        ("missing fact", "ghost", "state", vec![]),
        (
            "first_at unregistered branch",
            "typed-1",
            "state",
            vec![("ghost-world".to_string(), "ch-2".to_string())],
        ),
        (
            "first_at unknown coord",
            "typed-1",
            "state",
            vec![("main".to_string(), "ch-404".to_string())],
        ),
    ];
    for (label, fact_id, mode, first_at) in cases {
        let mut store_a = AtomicStore::new();
        let mut store_b = AtomicStore::new();
        for s in [&mut store_a, &mut store_b] {
            seed_chapters(s);
            s.frames.insert("gt".to_string(), Frame::default());
            s.entities.insert("kara".to_string(), Entity::default());
            register_predicate(s, "alive", PredicateObjectKind::Scalar);
            add_fact(
                s,
                &FactImport {
                    entities: vec!["kara".to_string()],
                    typed: typed("kara", "alive", scalar("operational")),
                    ..sample_fact("typed-1", "gt")
                },
            )
            .unwrap();
            add_fact(s, &sample_fact("prose-1", "gt")).unwrap();
            add_disclosure_plan(s, "reader", "withhold", "").unwrap();
        }
        let set_ok = set_disclosure(
            &mut store_a,
            DisclosureDecision {
                telling_id: "reader",
                fact_id,
                mode,
                first_at: &first_at,
                surface: None,
            },
        )
        .is_ok();
        let import_ok = import_facts(
            &mut store_b,
            &FactsManifest {
                disclosure_plans: vec![DisclosurePlanImport {
                    telling_id: "reader".to_string(),
                    default_mode: Some("withhold".to_string()),
                    description: String::new(),
                    overrides: vec![DisclosureOverrideImport {
                        fact_id: fact_id.to_string(),
                        mode: mode.to_string(),
                        first_at,
                        surface: None,
                    }],
                }],
                ..empty_manifest()
            },
        )
        .is_ok();
        assert_eq!(
            set_ok, import_ok,
            "disclosure write-path parity broken for `{label}`: set={set_ok} import={import_ok}"
        );
        if set_ok {
            assert_eq!(
                store_a.disclosure_plans, store_b.disclosure_plans,
                "disclosure stored-result parity broken for `{label}`"
            );
        }
    }
}

#[test]
fn predicate_registry_and_typed_roundtrip() {
    let mut store = AtomicStore::new();
    seed_chapters(&mut store);
    store.frames.insert("gt".to_string(), Frame::default());
    store.entities.insert("kara".to_string(), Entity::default());
    let err = add_predicate(&mut store, "alive", "boolean", "").unwrap_err();
    assert!(err.to_text().contains("unknown object_kind"), "{}", err.to_text());
    assert!(add_predicate(&mut store, "alive", "scalar", "life state").unwrap());
    assert!(!add_predicate(&mut store, "alive", "scalar", "life state").unwrap());
    let err = add_predicate(&mut store, "alive", "entity", "life state").unwrap_err();
    assert!(err.to_text().contains("DIVERGENT"), "{}", err.to_text());
    add_fact(
        &mut store,
        &FactImport {
            entities: vec!["kara".to_string()],
            typed: typed("kara", "alive", scalar("operational")),
            ..sample_fact("typed-1", "gt")
        },
    )
    .unwrap();
    add_fact(&mut store, &sample_fact("prose-1", "gt")).unwrap();
    let t = store
        .narrative_facts
        .get("typed-1")
        .unwrap()
        .typed
        .as_ref()
        .unwrap();
    assert_eq!(t.subject, "kara");
    assert_eq!(t.predicate, "alive");
    assert_eq!(t.object, scalar("operational"));
    assert!(store.narrative_facts.get("prose-1").unwrap().typed.is_none());
}

#[test]
fn import_facts_predicates_first_and_amend_attaches_typed() {
    let mut store = AtomicStore::new();
    seed_chapters(&mut store);
    import_facts(
        &mut store,
        &FactsManifest {
            frames: vec![frame("gt")],
            entities: vec![EntityImport {
                entity_id: "kara".to_string(),
                kind: String::new(),
                description: String::new(),
            }],
            predicates: vec![PredicateImport {
                predicate_id: "alive".to_string(),
                object_kind: "scalar".to_string(),
                description: String::new(),
            }],
            facts: vec![FactImport {
                entities: vec!["kara".to_string()],
                typed: typed("kara", "alive", scalar("operational")),
                ..sample_fact("f-1", "gt")
            }],
            ..empty_manifest()
        },
    )
    .unwrap();
    assert!(store.predicates.contains_key("alive"));
    add_fact(
        &mut store,
        &FactImport {
            entities: vec!["kara".to_string()],
            ..sample_fact("f-2", "gt")
        },
    )
    .unwrap();
    amend_fact(
        &mut store,
        &FactImport {
            entities: vec!["kara".to_string()],
            typed: typed("kara", "alive", scalar("destroyed")),
            ..sample_fact("f-2", "gt")
        },
        "typing pass",
    )
    .unwrap();
    assert!(store.narrative_facts.get("f-2").unwrap().typed.is_some());
}

#[test]
fn import_facts_allows_forward_payoff_ref_within_manifest() {
    let mut store = AtomicStore::new();
    seed_chapters(&mut store);
    store.frames.insert("gt".to_string(), Frame::default());
    import_facts(
        &mut store,
        &FactsManifest {
            facts: vec![
                FactImport {
                    pays_off: vec!["su-later".to_string()],
                    ..sample_fact("p-first", "gt")
                },
                FactImport {
                    payoff_expectation: Some("expected".to_string()),
                    ..sample_fact("su-later", "gt")
                },
            ],
            ..empty_manifest()
        },
    )
    .unwrap();
    assert_eq!(
        store.narrative_facts.get("p-first").unwrap().pays_off,
        vec!["su-later".to_string()]
    );
}

#[test]
fn fact_branch_defaults_to_main_and_skips_serialization() {
    let mut store = AtomicStore::new();
    seed_chapters(&mut store);
    store.frames.insert("gt".to_string(), Frame::default());
    store
        .branches
        .insert("vampire-route".to_string(), Branch::default());
    add_fact(&mut store, &sample_fact("f-main", "gt")).unwrap();
    add_fact(
        &mut store,
        &FactImport {
            entities: vec![],
            branch: Some("vampire-route".to_string()),
            ..sample_fact("f-route", "gt")
        },
    )
    .unwrap();
    assert_eq!(store.narrative_facts.get("f-main").unwrap().branch, main_branch());
    assert_eq!(
        store.narrative_facts.get("f-route").unwrap().branch,
        "vampire-route"
    );
}

#[test]
fn succession_across_branches_rejected_on_both_write_paths() {
    let mut store_a = AtomicStore::new();
    let mut store_b = AtomicStore::new();
    for s in [&mut store_a, &mut store_b] {
        seed_chapters(s);
        s.frames.insert("gt".to_string(), Frame::default());
        s.branches
            .insert("vampire-route".to_string(), Branch::default());
    }
    let predecessor = sample_fact("f-old", "gt");
    let successor = FactImport {
        entities: vec![],
        branch: Some("vampire-route".to_string()),
        supersedes_in_frame: Some("f-old".to_string()),
        ..sample_fact("f-new", "gt")
    };
    add_fact(&mut store_a, &predecessor).unwrap();
    let err = add_fact(&mut store_a, &successor).unwrap_err();
    assert!(err.to_text().contains("world-line"), "{}", err.to_text());
    let err = import_facts(
        &mut store_b,
        &FactsManifest {
            facts: vec![predecessor, successor],
            ..empty_manifest()
        },
    )
    .unwrap_err();
    assert!(err.to_text().contains("world-line"), "{}", err.to_text());
}

#[test]
fn retract_fact_removes_unreferenced_and_blocks_referenced() {
    let mut store = AtomicStore::new();
    seed_chapters(&mut store);
    store.frames.insert("gt".to_string(), Frame::default());
    add_fact(&mut store, &sample_fact("f-typo", "gt")).unwrap();
    add_fact(&mut store, &sample_fact("f-kept", "gt")).unwrap();
    let err = retract_fact(&mut store, "f-typo", "  ").unwrap_err();
    assert!(err.to_text().contains("reason"), "{}", err.to_text());
    add_fact_conflict(&mut store, "f-kept", "f-typo").unwrap();
    let err = retract_fact(&mut store, "f-typo", "authorial slip").unwrap_err();
    assert!(err.to_text().contains("f-kept"), "{}", err.to_text());
    retract_fact(&mut store, "f-kept", "drop the edge holder").unwrap();
    retract_fact(&mut store, "f-typo", "authorial slip").unwrap();
    assert_eq!(store.narrative_facts.len(), 0);
    let err = retract_fact(&mut store, "f-gone", "x").unwrap_err();
    assert!(matches!(err, AtomicMutateError::NotFound(_)));
}

#[test]
fn amend_fact_revises_in_place_with_parity_invariants() {
    let mut store = AtomicStore::new();
    seed_chapters(&mut store);
    store.frames.insert("gt".to_string(), Frame::default());
    store.frames.insert("mina".to_string(), Frame::default());
    add_fact(&mut store, &sample_fact("f1", "gt")).unwrap();
    let err = amend_fact(&mut store, &sample_fact("f-absent", "gt"), "fix").unwrap_err();
    assert!(matches!(err, AtomicMutateError::NotFound(_)));
    let revised = FactImport {
        entities: vec![],
        claim: "the count is a nobleman of the Carpathians".to_string(),
        quote: Some("boyar blood".to_string()),
        ..sample_fact("f1", "gt")
    };
    assert!(amend_fact(&mut store, &revised, "typo fix").unwrap());
    let f1 = store.narrative_facts.get("f1").unwrap();
    assert_eq!(f1.claim, "the count is a nobleman of the Carpathians");
    assert_eq!(
        f1.quote_sha256.as_deref(),
        Some(sha256_hex("boyar blood").as_str())
    );
    let again = amend_fact(&mut store, &revised, "same").unwrap();
    assert!(!again);
    let bad = FactImport {
        entities: vec![],
        evidence: vec![],
        ..revised.clone()
    };
    let err = amend_fact(&mut store, &bad, "x").unwrap_err();
    assert!(err.to_text().contains("evidence"), "{}", err.to_text());
    let successor = FactImport {
        entities: vec![],
        canon_from: "ch-3".to_string(),
        supersedes_in_frame: Some("f1".to_string()),
        ..sample_fact("f2", "gt")
    };
    add_fact(&mut store, &successor).unwrap();
    let moved = FactImport {
        entities: vec![],
        frame: "mina".to_string(),
        ..revised.clone()
    };
    let err = amend_fact(&mut store, &moved, "x").unwrap_err();
    assert!(err.to_text().contains("superseded by `f2`"), "{}", err.to_text());
    let divergent = FactImport {
        entities: vec![],
        claim: "something else".to_string(),
        ..sample_fact("f1", "gt")
    };
    let err = add_fact(&mut store, &divergent).unwrap_err();
    let msg = err.to_text();
    assert!(
        msg.contains("supersede in-frame") && msg.contains("amend_fact"),
        "{msg}"
    );
}

#[test]
fn add_branch_registry_gates_fact_writes() {
    let mut store = AtomicStore::new();
    seed_chapters(&mut store);
    store.frames.insert("gt".to_string(), Frame::default());
    let err = add_branch(&mut store, main_branch(), "", None, &[]).unwrap_err();
    assert!(
        err.to_text().contains("known by construction"),
        "{}",
        err.to_text()
    );
    let on_route = FactImport {
        entities: vec![],
        branch: Some("sea-route".to_string()),
        ..sample_fact("f-route", "gt")
    };
    let err = add_fact(&mut store, &on_route).unwrap_err();
    assert!(err.to_text().contains("branch registry"), "{}", err.to_text());
    add_branch(&mut store, "sea-route", "the Demeter voyage", None, &[]).unwrap();
    add_fact(&mut store, &on_route).unwrap();
    assert_eq!(
        store.narrative_facts.get("f-route").unwrap().branch,
        "sea-route"
    );
    let again = add_branch(&mut store, "sea-route", "the Demeter voyage", None, &[]).unwrap();
    assert!(!again);
    let err = add_branch(&mut store, "sea-route", "something else", None, &[]).unwrap_err();
    assert!(err.to_text().contains("DIVERGENT"), "{}", err.to_text());
    assert_eq!(
        store.branches.get("sea-route").unwrap().description,
        "the Demeter voyage"
    );
}

#[test]
fn add_branch_fork_validation_and_lineage_succession() {
    let mut store = AtomicStore::new();
    seed_chapters(&mut store);
    store.frames.insert("gt".to_string(), Frame::default());
    let err = add_branch(&mut store, "  ", "", Some(("main", "ch-2")), &[]).unwrap_err();
    assert!(err.to_text().contains("branch_id mandatory"), "{}", err.to_text());
    let err = add_branch(&mut store, "deep", "", Some(("route", "ch-2")), &[]).unwrap_err();
    assert!(err.to_text().contains("fork parent"), "{}", err.to_text());
    let err = add_branch(&mut store, "route", "", Some(("route", "ch-2")), &[]).unwrap_err();
    assert!(err.to_text().contains("itself"), "{}", err.to_text());
    let err = add_branch(&mut store, "route", "", Some(("main", "ch-99")), &[]).unwrap_err();
    assert!(err.to_text().contains("ch-99"), "{}", err.to_text());
    add_branch(&mut store, "route", "", Some(("main", "ch-2")), &[]).unwrap();
    let fork = store
        .branches
        .get("route")
        .unwrap()
        .forks_from
        .as_ref()
        .unwrap();
    assert_eq!((fork.branch.as_str(), fork.at.as_str()), ("main", "ch-2"));
    let err = add_branch(&mut store, "route", "", Some(("main", "ch-3")), &[]).unwrap_err();
    assert!(err.to_text().contains("DIVERGENT"), "{}", err.to_text());
    add_fact(&mut store, &sample_fact("f-old", "gt")).unwrap();
    let revision = FactImport {
        branch: Some("route".to_string()),
        canon_from: "ch-3".to_string(),
        supersedes_in_frame: Some("f-old".to_string()),
        ..sample_fact("f-new", "gt")
    };
    add_fact(&mut store, &revision).unwrap();
    add_branch(&mut store, "standalone", "", None, &[]).unwrap();
    let stray = FactImport {
        branch: Some("standalone".to_string()),
        canon_from: "ch-3".to_string(),
        supersedes_in_frame: Some("f-old".to_string()),
        ..sample_fact("f-stray", "gt")
    };
    let err = add_fact(&mut store, &stray).unwrap_err();
    assert!(err.to_text().contains("does not inherit"), "{}", err.to_text());
}

#[test]
fn add_branch_confluence_validation() {
    let mut store = AtomicStore::new();
    seed_chapters(&mut store);
    store.frames.insert("gt".to_string(), Frame::default());
    add_branch(&mut store, "sluice", "", Some(("main", "ch-2")), &[]).unwrap();
    add_branch(&mut store, "ride", "", Some(("main", "ch-2")), &[]).unwrap();
    let err = add_branch(&mut store, "dawn", "", None, &[("sluice", "ch-3")]).unwrap_err();
    assert!(err.to_text().contains("≥ 2 parent"), "{}", err.to_text());
    let err = add_branch(
        &mut store,
        "dawn",
        "",
        None,
        &[("sluice", "ch-3"), ("ghost", "ch-3")],
    )
    .unwrap_err();
    assert!(err.to_text().contains("converge parent"), "{}", err.to_text());
    let err = add_branch(
        &mut store,
        "dawn",
        "",
        None,
        &[("sluice", "ch-99"), ("ride", "ch-3")],
    )
    .unwrap_err();
    assert!(err.to_text().contains("ch-99"), "{}", err.to_text());
    let err = add_branch(
        &mut store,
        "dawn",
        "",
        None,
        &[("sluice", "ch-3"), ("sluice", "ch-2")],
    )
    .unwrap_err();
    assert!(err.to_text().contains("more than once"), "{}", err.to_text());
    let err = add_branch(
        &mut store,
        "dawn",
        "",
        Some(("main", "ch-2")),
        &[("sluice", "ch-3"), ("ride", "ch-3")],
    )
    .unwrap_err();
    assert!(err.to_text().contains("never both"), "{}", err.to_text());
    add_branch(
        &mut store,
        "dawn",
        "",
        None,
        &[("sluice", "ch-3"), ("ride", "ch-3")],
    )
    .unwrap();
    assert_eq!(store.branches.get("dawn").unwrap().converges_from.len(), 2);
    assert!(store.branches.get("dawn").unwrap().forks_from.is_none());
    let again = add_branch(
        &mut store,
        "dawn",
        "",
        None,
        &[("sluice", "ch-3"), ("ride", "ch-3")],
    )
    .unwrap();
    assert!(!again);
    let err = add_branch(
        &mut store,
        "dawn",
        "",
        None,
        &[("sluice", "ch-2"), ("ride", "ch-3")],
    )
    .unwrap_err();
    assert!(err.to_text().contains("DIVERGENT"), "{}", err.to_text());
}

#[test]
fn import_facts_with_edges_reimports_as_no_op() {
    let mut store = AtomicStore::new();
    seed_chapters(&mut store);
    let mut a = sample_fact("f-a", "gt");
    a.conflicts_with = vec!["f-b".to_string()];
    let b = FactImport {
        claim: "a contradicting account".to_string(),
        ..sample_fact("f-b", "gt")
    };
    let manifest = FactsManifest {
        frames: vec![frame("gt")],
        facts: vec![a, b],
        ..empty_manifest()
    };
    import_facts(&mut store, &manifest).unwrap();
    let again = import_facts(&mut store, &manifest).unwrap();
    assert!(!again.changed, "{}", again.summary);
    assert!(again.summary.contains("3 no-op"), "{}", again.summary);
}

#[test]
fn stamp_only_divergence_names_the_reaffirmation_path() {
    let mut store = AtomicStore::new();
    seed_chapters(&mut store);
    store.frames.insert("gt".to_string(), Frame::default());
    let target = sample_fact("f-target", "gt");
    let mut owner = FactImport {
        conflicts_with: vec!["f-target".to_string()],
        ..sample_fact("f-owner", "gt")
    };
    owner.claim = "the contradicting account".to_string();
    add_fact(&mut store, &target).unwrap();
    add_fact(&mut store, &owner).unwrap();
    amend_fact(
        &mut store,
        &FactImport {
            claim: "a revised target claim".to_string(),
            ..sample_fact("f-target", "gt")
        },
        "revision",
    )
    .unwrap();
    let err = add_fact(&mut store, &owner).unwrap_err();
    let msg = err.to_text();
    assert!(msg.contains("STALE judgment pins"), "{msg}");
    assert!(msg.contains("amend_fact"), "{msg}");
}

#[test]
fn add_entity_registry_gates_fact_refs() {
    let mut store = AtomicStore::new();
    seed_chapters(&mut store);
    store.frames.insert("gt".to_string(), Frame::default());
    let about_count = FactImport {
        entities: vec!["dracula".to_string()],
        ..sample_fact("f-about", "gt")
    };
    let err = add_fact(&mut store, &about_count).unwrap_err();
    assert!(err.to_text().contains("entity registry"), "{}", err.to_text());
    add_entity(&mut store, "dracula", "character", "the count").unwrap();
    add_fact(&mut store, &about_count).unwrap();
    assert_eq!(
        store.narrative_facts.get("f-about").unwrap().entities,
        vec!["dracula".to_string()]
    );
    let dup = FactImport {
        entities: vec!["dracula".to_string(), "dracula".to_string()],
        ..sample_fact("f-dup", "gt")
    };
    let err = add_fact(&mut store, &dup).unwrap_err();
    assert!(err.to_text().contains("duplicate entity"), "{}", err.to_text());
    add_fact(&mut store, &sample_fact("f-plain", "gt")).unwrap();
    assert_eq!(store.entities.get("dracula").unwrap().kind, "character");
    let again = add_entity(&mut store, "dracula", "character", "the count").unwrap();
    assert!(!again);
    let err = add_entity(&mut store, "dracula", "location", "").unwrap_err();
    assert!(err.to_text().contains("DIVERGENT"), "{}", err.to_text());
}

#[test]
fn add_fact_conflict_appends_edge_and_rejects_duplicates() {
    let mut store = AtomicStore::new();
    seed_chapters(&mut store);
    store.frames.insert("gt".to_string(), Frame::default());
    store.frames.insert("seward".to_string(), Frame::default());
    add_fact(&mut store, &sample_fact("f1", "gt")).unwrap();
    add_fact(&mut store, &sample_fact("f2", "seward")).unwrap();
    let err = add_fact_conflict(&mut store, "f1", "f9").unwrap_err();
    assert!(matches!(err, AtomicMutateError::NotFound(_)), "{}", err.to_text());
    let err = add_fact_conflict(&mut store, "f1", "f1").unwrap_err();
    assert!(err.to_text().contains("itself"), "{}", err.to_text());
    add_fact_conflict(&mut store, "f1", "f2").unwrap();
    let edges = &store.narrative_facts.get("f1").unwrap().conflicts_with;
    assert_eq!(edges.len(), 1);
    assert_eq!(edges[0].target, "f2");
    assert_eq!(
        edges[0].target_claim_sha256,
        sha256_hex(&store.narrative_facts.get("f2").unwrap().claim)
    );
    let err = add_fact_conflict(&mut store, "f1", "f2").unwrap_err();
    assert!(matches!(err, AtomicMutateError::FrozenLedger(_)), "{}", err.to_text());
    let err = add_fact_conflict(&mut store, "f2", "f1").unwrap_err();
    assert!(matches!(err, AtomicMutateError::FrozenLedger(_)), "{}", err.to_text());
}

#[test]
fn add_frame_idempotent_no_op_and_divergent_reject() {
    let mut store = AtomicStore::new();
    assert!(add_frame(&mut store, "gt", "the ground truth axis").unwrap());
    let again = add_frame(&mut store, "gt", "the ground truth axis").unwrap();
    assert!(!again);
    let err = add_frame(&mut store, "gt", "another description").unwrap_err();
    assert!(err.to_text().contains("DIVERGENT"), "{}", err.to_text());
}

// ---- further cases ----

#[test]
fn manifest_branches_entities_and_plans_in_one_transaction() {
    let mut store = AtomicStore::new();
    seed_chapters(&mut store);
    let manifest = FactsManifest {
        frames: vec![frame("gt")],
        branches: vec![
            BranchImport {
                branch_id: "sluice".to_string(),
                description: String::new(),
                forks_from: Some("main".to_string()),
                forks_at: Some("ch-2".to_string()),
                converges_from: vec![],
            },
            BranchImport {
                branch_id: "ride".to_string(),
                description: String::new(),
                forks_from: Some("main".to_string()),
                forks_at: Some("ch-2".to_string()),
                converges_from: vec![],
            },
            BranchImport {
                branch_id: "dawn".to_string(),
                description: String::new(),
                forks_from: None,
                forks_at: None,
                converges_from: vec![
                    BranchConvergeImport {
                        branch: "sluice".to_string(),
                        at: "ch-3".to_string(),
                    },
                    BranchConvergeImport {
                        branch: "ride".to_string(),
                        at: "ch-3".to_string(),
                    },
                ],
            },
        ],
        entities: vec![EntityImport {
            entity_id: "kara".to_string(),
            kind: "character".to_string(),
            description: String::new(),
        }],
        predicates: vec![PredicateImport {
            predicate_id: "alive".to_string(),
            object_kind: "scalar".to_string(),
            description: String::new(),
        }],
        facts: vec![FactImport {
            entities: vec!["kara".to_string()],
            typed: typed("kara", "alive", scalar("operational")),
            ..sample_fact("f-1", "gt")
        }],
        disclosure_plans: vec![DisclosurePlanImport {
            telling_id: "reader".to_string(),
            default_mode: None,
            description: String::new(),
            overrides: vec![DisclosureOverrideImport {
                fact_id: "f-1".to_string(),
                mode: "hint".to_string(),
                first_at: vec![("dawn".to_string(), "ch-3".to_string())],
                surface: Some(DisclosureSurfaceImport {
                    scene: "ch-3".to_string(),
                    object: Some("kara".to_string()),
                }),
            }],
        }],
    };
    let outcome = import_facts(&mut store, &manifest).unwrap();
    assert_eq!(
        outcome.summary,
        "1 frames + 3 branches + 1 entities + 1 predicates + 1 facts + 1 disclosure-plans \
         + 1 disclosure-overrides created, 0 no-op"
    );
    let plan = store.disclosure_plans.get("reader").unwrap();
    assert_eq!(plan.default_mode, DisclosureMode::Withhold);
    let ov = plan.overrides.get("f-1").unwrap();
    assert_eq!(ov.mode, DisclosureMode::Hint);
    assert_eq!(ov.first_at.get("dawn").map(String::as_str), Some("ch-3"));
    assert_eq!(store.branches.get("dawn").unwrap().converges_from.len(), 2);
    let again = import_facts(&mut store, &manifest).unwrap();
    assert!(!again.changed);
}

#[test]
fn manifest_error_is_fail_fast_in_memory() {
    let mut store = AtomicStore::new();
    seed_chapters(&mut store);
    let err = import_facts(
        &mut store,
        &FactsManifest {
            frames: vec![frame("gt")],
            facts: vec![sample_fact("f-1", "gt"), sample_fact("f-2", "nobody")],
            ..empty_manifest()
        },
    )
    .unwrap_err();
    assert!(matches!(err, AtomicMutateError::Validation(_)));
    assert!(err.to_text().contains("f-2"), "{}", err.to_text());
    // Registries land before facts are built: the frame stays in memory,
    // while no fact of a refused fact stage is inserted. Only a success is
    // meant to be persisted.
    assert!(store.frames.contains_key("gt"));
    assert_eq!(store.narrative_facts.len(), 0);
}

#[test]
fn add_fact_same_content_is_no_op() {
    let mut store = AtomicStore::new();
    seed_chapters(&mut store);
    store.frames.insert("gt".to_string(), Frame::default());
    assert!(add_fact(&mut store, &sample_fact("f1", "gt")).unwrap());
    assert!(!add_fact(&mut store, &sample_fact("f1", "gt")).unwrap());
    assert_eq!(store.narrative_facts.len(), 1);
}

#[test]
fn retract_after_add_restores_the_fact_map() {
    let mut store = AtomicStore::new();
    seed_chapters(&mut store);
    store.frames.insert("gt".to_string(), Frame::default());
    add_fact(&mut store, &sample_fact("f1", "gt")).unwrap();
    let before = store.narrative_facts.clone();
    add_fact(&mut store, &sample_fact("f2", "gt")).unwrap();
    retract_fact(&mut store, "f2", "slip").unwrap();
    assert_eq!(store.narrative_facts, before);
}

#[test]
fn narrative_tags_round_trip() {
    for k in [PredicateObjectKind::Entity, PredicateObjectKind::Scalar] {
        assert_eq!(PredicateObjectKind::from_tag(k.as_str()), Some(k));
    }
    for p in [PayoffExpectation::Unmarked, PayoffExpectation::Expected] {
        assert_eq!(PayoffExpectation::from_tag(p.as_str()), Some(p));
    }
    for m in [
        DisclosureMode::Withhold,
        DisclosureMode::State,
        DisclosureMode::Hint,
        DisclosureMode::Imply,
    ] {
        assert_eq!(DisclosureMode::from_tag(m.as_str()), Some(m));
    }
    assert_eq!(DisclosureMode::from_tag("loud"), None);
    assert_eq!(PredicateObjectKind::from_tag("boolean"), None);
    assert_eq!(PayoffExpectation::from_tag("chekhov"), None);
}

#[test]
fn lineage_inherits_through_forks_and_confluences() {
    let mut store = AtomicStore::new();
    seed_chapters(&mut store);
    add_branch(&mut store, "sluice", "", Some(("main", "ch-2")), &[]).unwrap();
    add_branch(&mut store, "ride", "", Some(("main", "ch-2")), &[]).unwrap();
    add_branch(
        &mut store,
        "dawn",
        "",
        None,
        &[("sluice", "ch-3"), ("ride", "ch-3")],
    )
    .unwrap();
    add_branch(&mut store, "standalone", "", None, &[]).unwrap();
    assert!(succession_branch_inherits(&store.branches, "dawn", "main"));
    assert!(succession_branch_inherits(&store.branches, "dawn", "ride"));
    assert!(succession_branch_inherits(&store.branches, "sluice", "sluice"));
    assert!(!succession_branch_inherits(&store.branches, "standalone", "main"));
    assert!(!succession_branch_inherits(&store.branches, "main", "sluice"));
    assert!(is_known_world(&store.branches, "main"));
    assert!(is_known_world(&store.branches, "dawn"));
    assert!(!is_known_world(&store.branches, "ghost"));
}

#[test]
fn inbound_refs_name_every_referrer_and_field() {
    let mut store = AtomicStore::new();
    seed_chapters(&mut store);
    store.frames.insert("gt".to_string(), Frame::default());
    add_fact(
        &mut store,
        &FactImport {
            payoff_expectation: Some("expected".to_string()),
            ..sample_fact("a", "gt")
        },
    )
    .unwrap();
    add_fact(
        &mut store,
        &FactImport {
            supersedes_in_frame: Some("a".to_string()),
            canon_from: "ch-2".to_string(),
            ..sample_fact("b", "gt")
        },
    )
    .unwrap();
    add_fact(
        &mut store,
        &FactImport {
            pays_off: vec!["a".to_string()],
            conflicts_with: vec!["a".to_string()],
            claim: "another account".to_string(),
            ..sample_fact("c", "gt")
        },
    )
    .unwrap();
    let refs = inbound_fact_refs(&store.narrative_facts, "a");
    assert_eq!(
        refs,
        vec![
            ("b".to_string(), "supersedes_in_frame"),
            ("c".to_string(), "conflicts_with"),
            ("c".to_string(), "pays_off"),
        ]
    );
    assert!(inbound_fact_refs(&store.narrative_facts, "c").is_empty());
}

#[test]
fn long_succession_cycle_is_caught() {
    let mut store = AtomicStore::new();
    seed_chapters(&mut store);
    store.frames.insert("gt".to_string(), Frame::default());
    add_fact(&mut store, &sample_fact("f1", "gt")).unwrap();
    add_fact(
        &mut store,
        &FactImport {
            supersedes_in_frame: Some("f1".to_string()),
            claim: "second".to_string(),
            ..sample_fact("f2", "gt")
        },
    )
    .unwrap();
    add_fact(
        &mut store,
        &FactImport {
            supersedes_in_frame: Some("f2".to_string()),
            claim: "third".to_string(),
            ..sample_fact("f3", "gt")
        },
    )
    .unwrap();
    let err = amend_fact(
        &mut store,
        &FactImport {
            supersedes_in_frame: Some("f3".to_string()),
            ..sample_fact("f1", "gt")
        },
        "close the loop",
    )
    .unwrap_err();
    assert!(err.to_text().contains("cycle"), "{}", err.to_text());
    assert!(store
        .narrative_facts
        .get("f1")
        .unwrap()
        .supersedes_in_frame
        .is_none());
}

#[test]
fn disclosure_manifest_rerun_is_no_op_and_double_decision_is_not() {
    let mut store = AtomicStore::new();
    seed_chapters(&mut store);
    store.frames.insert("gt".to_string(), Frame::default());
    store.entities.insert("kara".to_string(), Entity::default());
    register_predicate(&mut store, "alive", PredicateObjectKind::Scalar);
    add_fact(
        &mut store,
        &FactImport {
            entities: vec!["kara".to_string()],
            typed: typed("kara", "alive", scalar("operational")),
            ..sample_fact("typed-1", "gt")
        },
    )
    .unwrap();
    let decision = |mode: &str| DisclosureOverrideImport {
        fact_id: "typed-1".to_string(),
        mode: mode.to_string(),
        first_at: vec![],
        surface: None,
    };
    let once = FactsManifest {
        disclosure_plans: vec![DisclosurePlanImport {
            telling_id: "reader".to_string(),
            default_mode: None,
            description: String::new(),
            overrides: vec![decision("hint")],
        }],
        ..empty_manifest()
    };
    assert!(import_facts(&mut store, &once).unwrap().changed);
    assert!(!import_facts(&mut store, &once).unwrap().changed);
    // The same decision set twice with different modes: the rerun sets the
    // first again before the last, so it reports a change.
    let twice = FactsManifest {
        disclosure_plans: vec![DisclosurePlanImport {
            telling_id: "reader".to_string(),
            default_mode: None,
            description: String::new(),
            overrides: vec![decision("state"), decision("imply")],
        }],
        ..empty_manifest()
    };
    assert!(import_facts(&mut store, &twice).unwrap().changed);
    assert!(import_facts(&mut store, &twice).unwrap().changed);
    let ov = store
        .disclosure_plans
        .get("reader")
        .unwrap()
        .overrides
        .get("typed-1")
        .unwrap();
    assert_eq!(ov.mode, DisclosureMode::Imply);
}

fn every_edge_lands(store: &AtomicStore) -> bool {
    let facts = &store.narrative_facts;
    (0..facts.len()).all(|i| {
        let f = facts.val_at(i);
        f.conflicts_with.iter().all(|c| facts.contains_key(&c.target))
            && f.pays_off.iter().all(|p| facts.contains_key(p))
            && f.supersedes_in_frame
                .as_ref()
                .map_or(true, |s| facts.contains_key(s))
    })
}

#[test]
fn every_write_path_keeps_edges_landing() {
    let mut store = edge_substrate();
    assert!(every_edge_lands(&store));
    add_fact_conflict(&mut store, "f-1", "f-3").unwrap();
    assert!(every_edge_lands(&store));
    let report = import_edge_proposals(
        &mut store,
        &edge_file(
            vec![succession_proposal(
                "f-2",
                "kara is alive",
                "f-1",
                "the count is an eccentric nobleman",
            )],
            vec![],
        ),
        "sha",
        false,
    );
    assert!(report.applied);
    assert!(every_edge_lands(&store));
    assert!(retract_fact(&mut store, "f-1", "slip").is_err());
    assert!(every_edge_lands(&store));
    add_fact(
        &mut store,
        &FactImport {
            payoff_expectation: Some("expected".to_string()),
            ..sample_fact("f-4", "gt")
        },
    )
    .unwrap();
    add_fact(
        &mut store,
        &FactImport {
            pays_off: vec!["f-4".to_string()],
            claim: "the payoff".to_string(),
            ..sample_fact("f-5", "gt")
        },
    )
    .unwrap();
    assert!(every_edge_lands(&store));
    retract_fact(&mut store, "f-5", "slip").unwrap();
    retract_fact(&mut store, "f-4", "slip").unwrap();
    assert!(every_edge_lands(&store));
}

#[test]
fn proposal_files_are_shape_checked_before_judging() {
    let mut t = proposals_file(vec![]);
    assert_eq!(
        check_typing_proposals_file(&t),
        Err("typing-proposals: empty proposals list (nothing to import)".to_string())
    );
    t.schema = "typing-proposals/v2".to_string();
    assert_eq!(
        check_typing_proposals_file(&t),
        Err("typing-proposals: schema `typing-proposals/v2` is not `typing-proposals/v1` \
             (fail-loud — an unknown schema must not half-apply)"
            .to_string())
    );
    let mut e = EdgeProposalsFile {
        schema: "edge-proposals/v1".to_string(),
        comment: String::new(),
        succession: vec![],
        conflicts: vec![],
    };
    assert_eq!(
        check_edge_proposals_file(&e),
        Err("edge-proposals: no proposals (nothing to import)".to_string())
    );
    e.conflicts.push(ConflictProposal {
        fact: "a".to_string(),
        target: "b".to_string(),
        fact_claim_sha256: String::new(),
        target_claim_sha256: String::new(),
        rationale: String::new(),
    });
    assert_eq!(check_edge_proposals_file(&e), Ok(()));
    e.schema = "edge".to_string();
    assert_eq!(
        check_edge_proposals_file(&e),
        Err("edge-proposals: schema `edge` is not `edge-proposals/v1` \
             (fail-loud — an unknown schema must not half-apply)"
            .to_string())
    );
}
