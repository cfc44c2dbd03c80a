//! The schema ladder: every on-disk shape change of the store, in order, with
//! what an old store pays to cross it, and the note a refusal gives of the
//! generations between a store and this build.
use vstd::prelude::*;
use crate::text::{decimal, usize_to_decimal};

verus! {

/// What a store written before a generation pays to be read by a build
/// after it. The four are different answers to "can I work with that file".
#[derive(Debug, Clone, Copy, PartialEq, Eq, Structural)]
pub enum Cost {
    /// It loads; the new field is absent and its default fills it.
    Additive,
    /// It loads, and the load rewrites the raw document first.
    Migrated,
    /// It may refuse to load; an author must act.
    Breaking,
    /// It opens, and then the first write is refused until an author acts.
    Gated,
}

/// The raw-document rewrites a load runs before the typed parse.
#[derive(Debug, Clone, Copy, PartialEq, Eq, Structural)]
pub enum Migration {
    /// `EntityKind.parent` becomes `parents`.
    EntityKindParentToParents,
    /// `DisclosureOverride.first_at` becomes a `DisclosureReveal`.
    DisclosureFirstAtToReveal,
    /// `NormativeExcerpt` is wrapped onto the content-excerpt substrate.
    NormativeExcerptToWrapped,
    /// `NarrativeFact.evidence` becomes `EvidenceRef` rows.
    EvidenceToRefs,
}

/// The write a gated generation refuses until an author repairs the store.
#[derive(Debug, Clone, Copy, PartialEq, Eq, Structural)]
pub enum BoundaryWrite {
    /// Registering an entity under a kind the store's registry does not name.
    UnregisteredEntityKind,
}

/// The write [`BoundaryWrite::UnregisteredEntityKind`] names: register
/// entity `e-2` with kind `person` and no description. Returns whether the
/// write was refused, so the probe reads as the claim that the boundary
/// refuses.
pub fn an_unregistered_kind_is_refused_at_the_write_boundary(store: &mut crate::model::AtomicStore) -> (r: bool)
    ensures
        final(store).wf(),
        r == crate::registry::stage_outcome(
            crate::registry::reg_v(old(store).entities),
            "add_entity"@,
            "entity"@,
            crate::text::trim_seq("e-2"@),
            (crate::text::trim_seq("person"@), crate::text::trim_seq(""@)),
        ) is Err,
        r ==> *final(store) == *old(store),
{
    store.establish_wf();
    crate::registry::add_entity(store, "e-2", "person", "").is_err()
}

/// The evidence behind a row's [`Cost`], or the absence of it, said out loud.
#[derive(Debug, Clone, Copy)]
pub enum Probe {
    /// Not a breaking generation: there is no refusal to exhibit.
    NotBreaking,
    /// A store carrying the retired shape (the load must refuse it) and the
    /// same store without it (the load must accept it).
    Pair { retired: &'static str, control: &'static str },
    /// A store this build opens, and the write that is refused on it.
    Boundary { opens: &'static str, refused_by: BoundaryWrite },
    /// A breaking generation with no fixture, and why.
    Unprobed(&'static str),
}

/// One generation of the on-disk schema.
#[derive(Clone, Copy)]
pub struct Generation {
    /// The version this generation introduces; it is entered from `to - 1`.
    pub to: u32,
    pub cost: Cost,
    /// The round that made it.
    pub round: u32,
    /// One line, for a reader who wants the list rather than the reasoning.
    pub what: &'static str,
    /// The raw rewrite a load runs for a store older than `to`; present
    /// exactly when `cost` is [`Cost::Migrated`].
    pub migrate: Option<Migration>,
    /// What holds this row's `cost` to something.
    pub probe: Probe,
}

/// The store schema generation this build writes and validates against: the
/// last rung of the ladder.
pub const CURRENT_SCHEMA_VERSION: u32 = 46;

/// The number of rungs.
pub open spec fn ladder_len() -> int {
    45
}

/// Rung `i` of the ladder, in order.
pub open spec fn rung(i: int) -> Option<Generation> {
    if i == 0 {
        Some(Generation {
            to: 2,
            cost: Cost::Additive,
            round: 273,
            what: "adds AtomicStore.inventory_entries",
            migrate: None,
            probe: Probe::NotBreaking,
        })
    } else if i == 1 {
        Some(Generation {
            to: 3,
            cost: Cost::Additive,
            round: 287,
            what: "adds AtomicSection.title / .parent_doc / .parent_section",
            migrate: None,
            probe: Probe::NotBreaking,
        })
    } else if i == 2 {
        Some(Generation {
            to: 4,
            cost: Cost::Additive,
            round: 294,
            what: "publishable / audit body split on AtomicChangelogEntry",
            migrate: None,
            probe: Probe::NotBreaking,
        })
    } else if i == 3 {
        Some(Generation {
            to: 5,
            cost: Cost::Additive,
            round: 387,
            what: "Section.implementations[] became Section.bindings[] with a typed kind",
            migrate: None,
            probe: Probe::NotBreaking,
        })
    } else if i == 4 {
        Some(Generation {
            to: 6,
            cost: Cost::Additive,
            round: 389,
            what: "adds AtomicSection.coverage_expectation",
            migrate: None,
            probe: Probe::NotBreaking,
        })
    } else if i == 5 {
        Some(Generation {
            to: 7,
            cost: Cost::Additive,
            round: 393,
            what: "adds AtomicSection.epub_locator",
            migrate: None,
            probe: Probe::NotBreaking,
        })
    } else if i == 6 {
        Some(Generation {
            to: 8,
            cost: Cost::Additive,
            round: 402,
            what: "adds NormativeExcerpt.text_sha256",
            migrate: None,
            probe: Probe::NotBreaking,
        })
    } else if i == 7 {
        Some(Generation {
            to: 9,
            cost: Cost::Additive,
            round: 413,
            what: "adds AtomicSection.verification_expectation",
            migrate: None,
            probe: Probe::NotBreaking,
        })
    } else if i == 8 {
        Some(Generation {
            to: 10,
            cost: Cost::Additive,
            round: 416,
            what: "adds AtomicStore.confirmation_events",
            migrate: None,
            probe: Probe::NotBreaking,
        })
    } else if i == 9 {
        Some(Generation {
            to: 11,
            cost: Cost::Breaking,
            round: 421,
            what: "coverage_expectation widens to 3 states and the `informative` tag is retired",
            migrate: None,
            probe: Probe::Pair {
                retired: r#"{"sections": {"s-1": {"skeleton": {}, "coverage_expectation": "informative"}}}"#,
                control: r#"{"sections": {"s-1": {"skeleton": {}, "coverage_expectation": "informational"}}}"#,
            },
        })
    } else if i == 10 {
        Some(Generation {
            to: 12,
            cost: Cost::Additive,
            round: 430,
            what: "adds AtomicStore.frames + AtomicStore.narrative_facts",
            migrate: None,
            probe: Probe::NotBreaking,
        })
    } else if i == 11 {
        Some(Generation {
            to: 13,
            cost: Cost::Additive,
            round: 433,
            what: "adds NarrativeFact.branch",
            migrate: None,
            probe: Probe::NotBreaking,
        })
    } else if i == 12 {
        Some(Generation {
            to: 14,
            cost: Cost::Additive,
            round: 436,
            what: "adds AtomicStore.branches",
            migrate: None,
            probe: Probe::NotBreaking,
        })
    } else if i == 13 {
        Some(Generation {
            to: 15,
            cost: Cost::Additive,
            round: 437,
            what: "adds AtomicStore.entities + NarrativeFact.entities",
            migrate: None,
            probe: Probe::NotBreaking,
        })
    } else if i == 14 {
        Some(Generation {
            to: 16,
            cost: Cost::Additive,
            round: 438,
            what: "adds Branch.forks_from",
            migrate: None,
            probe: Probe::NotBreaking,
        })
    } else if i == 15 {
        Some(Generation {
            to: 17,
            cost: Cost::Breaking,
            round: 439,
            what: "NarrativeFact.conflicts_with becomes ConflictAssertion rows with a pinned sha256",
            migrate: None,
            probe: Probe::Pair {
                retired: r#"{"narrative_facts": {"f-1": {"frame": "gt", "claim": "c", "canon_from": "s-1", "evidence": [], "conflicts_with": ["f-2"]}}}"#,
                control: r#"{"narrative_facts": {"f-1": {"frame": "gt", "claim": "c", "canon_from": "s-1", "evidence": []}}}"#,
            },
        })
    } else if i == 16 {
        Some(Generation {
            to: 18,
            cost: Cost::Additive,
            round: 442,
            what: "adds NarrativeFact.payoff_expectation + NarrativeFact.pays_off",
            migrate: None,
            probe: Probe::NotBreaking,
        })
    } else if i == 17 {
        Some(Generation {
            to: 19,
            cost: Cost::Additive,
            round: 446,
            what: "adds AtomicStore.predicates and NarrativeFact.typed",
            migrate: None,
            probe: Probe::NotBreaking,
        })
    } else if i == 18 {
        Some(Generation {
            to: 20,
            cost: Cost::Additive,
            round: 481,
            what: "adds the ConfirmationClaim::FactEvidence variant",
            migrate: None,
            probe: Probe::NotBreaking,
        })
    } else if i == 19 {
        Some(Generation {
            to: 21,
            cost: Cost::Breaking,
            round: 485,
            what: "removes the ConfirmationClaim::FactEvidence variant",
            migrate: None,
            probe: Probe::Pair {
                retired: r#"{"confirmation_events": {"e-1": {"claim": {"kind": "fact_evidence", "fact_id": "f-1"}, "confirmer": {"kind": "tool", "id": "t", "version": "1"}, "method": "linkage_check", "authoring_run": "a", "confirming_run": "b", "verdict": "confirm", "rationale": "r", "timestamp": "2026-01-01"}}}"#,
                control: r#"{"confirmation_events": {"e-1": {"claim": {"kind": "section_completeness", "section_id": "s-1"}, "confirmer": {"kind": "tool", "id": "t", "version": "1"}, "method": "linkage_check", "authoring_run": "a", "confirming_run": "b", "verdict": "confirm", "rationale": "r", "timestamp": "2026-01-01"}}}"#,
            },
        })
    } else if i == 20 {
        Some(Generation {
            to: 22,
            cost: Cost::Additive,
            round: 506,
            what: "adds AtomicStore.disclosure_plans",
            migrate: None,
            probe: Probe::NotBreaking,
        })
    } else if i == 21 {
        Some(Generation {
            to: 23,
            cost: Cost::Additive,
            round: 532,
            what: "adds Branch.converges_from",
            migrate: None,
            probe: Probe::NotBreaking,
        })
    } else if i == 22 {
        Some(Generation {
            to: 24,
            cost: Cost::Gated,
            round: 669,
            what: "adds AtomicStore.entity_kinds; Entity.kind becomes a registry ref",
            migrate: None,
            probe: Probe::Boundary {
                opens: r#"{"entities": {"e-1": {"entity_id": "e-1", "kind": "person"}}}"#,
                refused_by: BoundaryWrite::UnregisteredEntityKind,
            },
        })
    } else if i == 23 {
        Some(Generation {
            to: 25,
            cost: Cost::Additive,
            round: 701,
            what: "adds Predicate.subject_kind / Predicate.object_entity_kind",
            migrate: None,
            probe: Probe::NotBreaking,
        })
    } else if i == 24 {
        Some(Generation {
            to: 26,
            cost: Cost::Additive,
            round: 705,
            what: "adds Predicate.object_tokens",
            migrate: None,
            probe: Probe::NotBreaking,
        })
    } else if i == 25 {
        Some(Generation {
            to: 27,
            cost: Cost::Additive,
            round: 706,
            what: "adds AtomicStore.units and the TypedObject::Quantity object shape",
            migrate: None,
            probe: Probe::NotBreaking,
        })
    } else if i == 26 {
        Some(Generation {
            to: 28,
            cost: Cost::Additive,
            round: 707,
            what: "adds the TypedObject::Fact object shape",
            migrate: None,
            probe: Probe::NotBreaking,
        })
    } else if i == 27 {
        Some(Generation {
            to: 29,
            cost: Cost::Breaking,
            round: 708,
            what: "removes the TypedObject::Value / object_kind=scalar free-text shape",
            migrate: None,
            probe: Probe::Pair {
                retired: r#"{"narrative_facts": {"f-1": {"frame": "gt", "claim": "c", "canon_from": "s-1", "evidence": [], "typed": {"subject": "e-1", "predicate": "p-1", "object": {"kind": "value", "text": "free text"}}}}}"#,
                control: r#"{"narrative_facts": {"f-1": {"frame": "gt", "claim": "c", "canon_from": "s-1", "evidence": []}}}"#,
            },
        })
    } else if i == 28 {
        Some(Generation {
            to: 30,
            cost: Cost::Additive,
            round: 709,
            what: "adds AtomicStore.edge_costs",
            migrate: None,
            probe: Probe::NotBreaking,
        })
    } else if i == 29 {
        Some(Generation {
            to: 31,
            cost: Cost::Additive,
            round: 720,
            what: "adds AtomicStore.edge_guards",
            migrate: None,
            probe: Probe::NotBreaking,
        })
    } else if i == 30 {
        Some(Generation {
            to: 32,
            cost: Cost::Breaking,
            round: 722,
            what: "edge_guards' value becomes a set of conditions",
            migrate: None,
            probe: Probe::Pair {
                retired: r#"{"edge_guards": {"f-1": "c-1"}}"#,
                control: r#"{"edge_guards": {"f-1": {"conditions": ["c-1"]}}}"#,
            },
        })
    } else if i == 31 {
        Some(Generation {
            to: 33,
            cost: Cost::Breaking,
            round: 723,
            what: "edge_guards' value becomes the EdgeGuard struct with a threshold",
            migrate: None,
            probe: Probe::Pair {
                retired: r#"{"edge_guards": {"f-1": ["c-1"]}}"#,
                control: r#"{"edge_guards": {"f-1": {"conditions": ["c-1"]}}}"#,
            },
        })
    } else if i == 32 {
        Some(Generation {
            to: 34,
            cost: Cost::Additive,
            round: 729,
            what: "adds AtomicStore.parameters + AtomicStore.parameter_deltas",
            migrate: None,
            probe: Probe::NotBreaking,
        })
    } else if i == 33 {
        Some(Generation {
            to: 35,
            cost: Cost::Additive,
            round: 730,
            what: "adds AtomicStore.parameter_gates",
            migrate: None,
            probe: Probe::NotBreaking,
        })
    } else if i == 34 {
        Some(Generation {
            to: 36,
            cost: Cost::Additive,
            round: 731,
            what: "adds AtomicStore.fact_counts",
            migrate: None,
            probe: Probe::NotBreaking,
        })
    } else if i == 35 {
        Some(Generation {
            to: 37,
            cost: Cost::Additive,
            round: 732,
            what: "adds EntityKind.parent",
            migrate: None,
            probe: Probe::NotBreaking,
        })
    } else if i == 36 {
        Some(Generation {
            to: 38,
            cost: Cost::Migrated,
            round: 738,
            what: "EntityKind.parent generalises to parents (a set)",
            migrate: Some(Migration::EntityKindParentToParents),
            probe: Probe::NotBreaking,
        })
    } else if i == 37 {
        Some(Generation {
            to: 39,
            cost: Cost::Migrated,
            round: 752,
            what: "DisclosureOverride.first_at's value becomes a DisclosureReveal",
            migrate: Some(Migration::DisclosureFirstAtToReveal),
            probe: Probe::NotBreaking,
        })
    } else if i == 38 {
        Some(Generation {
            to: 40,
            cost: Cost::Additive,
            round: 756,
            what: "adds AtomicSection.content_excerpt",
            migrate: None,
            probe: Probe::NotBreaking,
        })
    } else if i == 39 {
        Some(Generation {
            to: 41,
            cost: Cost::Additive,
            round: 757,
            what: "adds AtomicSection.scene_cast",
            migrate: None,
            probe: Probe::NotBreaking,
        })
    } else if i == 40 {
        Some(Generation {
            to: 42,
            cost: Cost::Migrated,
            round: 759,
            what: "NormativeExcerpt converges onto the ContentExcerpt substrate",
            migrate: Some(Migration::NormativeExcerptToWrapped),
            probe: Probe::NotBreaking,
        })
    } else if i == 41 {
        Some(Generation {
            to: 43,
            cost: Cost::Additive,
            round: 765,
            what: "adds AtomicSection.ladder",
            migrate: None,
            probe: Probe::NotBreaking,
        })
    } else if i == 42 {
        Some(Generation {
            to: 44,
            cost: Cost::Migrated,
            round: 806,
            what: "NarrativeFact.evidence becomes EvidenceRef rows carrying a sha256",
            migrate: Some(Migration::EvidenceToRefs),
            probe: Probe::NotBreaking,
        })
    } else if i == 43 {
        Some(Generation {
            to: 45,
            cost: Cost::Additive,
            round: 979,
            what: "adds AtomicChangelogEntry.population_census",
            migrate: None,
            probe: Probe::NotBreaking,
        })
    } else if i == 44 {
        Some(Generation {
            to: 46,
            cost: Cost::Additive,
            round: 1024,
            what: "adds AtomicStore.mutation_reasons",
            migrate: None,
            probe: Probe::NotBreaking,
        })
    } else {
        None
    }
}

/// The ladder as a sequence.
pub open spec fn ladder() -> Seq<Generation> {
    Seq::new(ladder_len() as nat, |i: int| rung(i)->0)
}

/// Rung `i` of the ladder, `None` past its end.
pub fn generation_at(i: usize) -> (r: Option<Generation>)
    ensures
        r == rung(i as int),
{
    match i {
        0 => Some(Generation {
            to: 2,
            cost: Cost::Additive,
            round: 273,
            what: "adds AtomicStore.inventory_entries",
            migrate: None,
            probe: Probe::NotBreaking,
        }),
        1 => Some(Generation {
            to: 3,
            cost: Cost::Additive,
            round: 287,
            what: "adds AtomicSection.title / .parent_doc / .parent_section",
            migrate: None,
            probe: Probe::NotBreaking,
        }),
        2 => Some(Generation {
            to: 4,
            cost: Cost::Additive,
            round: 294,
            what: "publishable / audit body split on AtomicChangelogEntry",
            migrate: None,
            probe: Probe::NotBreaking,
        }),
        3 => Some(Generation {
            to: 5,
            cost: Cost::Additive,
            round: 387,
            what: "Section.implementations[] became Section.bindings[] with a typed kind",
            migrate: None,
            probe: Probe::NotBreaking,
        }),
        4 => Some(Generation {
            to: 6,
            cost: Cost::Additive,
            round: 389,
            what: "adds AtomicSection.coverage_expectation",
            migrate: None,
            probe: Probe::NotBreaking,
        }),
        5 => Some(Generation {
            to: 7,
            cost: Cost::Additive,
            round: 393,
            what: "adds AtomicSection.epub_locator",
            migrate: None,
            probe: Probe::NotBreaking,
        }),
        6 => Some(Generation {
            to: 8,
            cost: Cost::Additive,
            round: 402,
            what: "adds NormativeExcerpt.text_sha256",
            migrate: None,
            probe: Probe::NotBreaking,
        }),
        7 => Some(Generation {
            to: 9,
            cost: Cost::Additive,
            round: 413,
            what: "adds AtomicSection.verification_expectation",
            migrate: None,
            probe: Probe::NotBreaking,
        }),
        8 => Some(Generation {
            to: 10,
            cost: Cost::Additive,
            round: 416,
            what: "adds AtomicStore.confirmation_events",
            migrate: None,
            probe: Probe::NotBreaking,
        }),
        9 => Some(Generation {
            to: 11,
            cost: Cost::Breaking,
            round: 421,
            what: "coverage_expectation widens to 3 states and the `informative` tag is retired",
            migrate: None,
            probe: Probe::Pair {
                retired: r#"{"sections": {"s-1": {"skeleton": {}, "coverage_expectation": "informative"}}}"#,
                control: r#"{"sections": {"s-1": {"skeleton": {}, "coverage_expectation": "informational"}}}"#,
            },
        }),
        10 => Some(Generation {
            to: 12,
            cost: Cost::Additive,
            round: 430,
            what: "adds AtomicStore.frames + AtomicStore.narrative_facts",
            migrate: None,
            probe: Probe::NotBreaking,
        }),
        11 => Some(Generation {
            to: 13,
            cost: Cost::Additive,
            round: 433,
            what: "adds NarrativeFact.branch",
            migrate: None,
            probe: Probe::NotBreaking,
        }),
        12 => Some(Generation {
            to: 14,
            cost: Cost::Additive,
            round: 436,
            what: "adds AtomicStore.branches",
            migrate: None,
            probe: Probe::NotBreaking,
        }),
        13 => Some(Generation {
            to: 15,
            cost: Cost::Additive,
            round: 437,
            what: "adds AtomicStore.entities + NarrativeFact.entities",
            migrate: None,
            probe: Probe::NotBreaking,
        }),
        14 => Some(Generation {
            to: 16,
            cost: Cost::Additive,
            round: 438,
            what: "adds Branch.forks_from",
            migrate: None,
            probe: Probe::NotBreaking,
        }),
        15 => Some(Generation {
            to: 17,
            cost: Cost::Breaking,
            round: 439,
            what: "NarrativeFact.conflicts_with becomes ConflictAssertion rows with a pinned sha256",
            migrate: None,
            probe: Probe::Pair {
                retired: r#"{"narrative_facts": {"f-1": {"frame": "gt", "claim": "c", "canon_from": "s-1", "evidence": [], "conflicts_with": ["f-2"]}}}"#,
                control: r#"{"narrative_facts": {"f-1": {"frame": "gt", "claim": "c", "canon_from": "s-1", "evidence": []}}}"#,
            },
        }),
        16 => Some(Generation {
            to: 18,
            cost: Cost::Additive,
            round: 442,
            what: "adds NarrativeFact.payoff_expectation + NarrativeFact.pays_off",
            migrate: None,
            probe: Probe::NotBreaking,
        }),
        17 => Some(Generation {
            to: 19,
            cost: Cost::Additive,
            round: 446,
            what: "adds AtomicStore.predicates and NarrativeFact.typed",
            migrate: None,
            probe: Probe::NotBreaking,
        }),
        18 => Some(Generation {
            to: 20,
            cost: Cost::Additive,
            round: 481,
            what: "adds the ConfirmationClaim::FactEvidence variant",
            migrate: None,
            probe: Probe::NotBreaking,
        }),
        19 => Some(Generation {
            to: 21,
            cost: Cost::Breaking,
            round: 485,
            what: "removes the ConfirmationClaim::FactEvidence variant",
            migrate: None,
            probe: Probe::Pair {
                retired: r#"{"confirmation_events": {"e-1": {"claim": {"kind": "fact_evidence", "fact_id": "f-1"}, "confirmer": {"kind": "tool", "id": "t", "version": "1"}, "method": "linkage_check", "authoring_run": "a", "confirming_run": "b", "verdict": "confirm", "rationale": "r", "timestamp": "2026-01-01"}}}"#,
                control: r#"{"confirmation_events": {"e-1": {"claim": {"kind": "section_completeness", "section_id": "s-1"}, "confirmer": {"kind": "tool", "id": "t", "version": "1"}, "method": "linkage_check", "authoring_run": "a", "confirming_run": "b", "verdict": "confirm", "rationale": "r", "timestamp": "2026-01-01"}}}"#,
            },
        }),
        20 => Some(Generation {
            to: 22,
            cost: Cost::Additive,
            round: 506,
            what: "adds AtomicStore.disclosure_plans",
            migrate: None,
            probe: Probe::NotBreaking,
        }),
        21 => Some(Generation {
            to: 23,
            cost: Cost::Additive,
            round: 532,
            what: "adds Branch.converges_from",
            migrate: None,
            probe: Probe::NotBreaking,
        }),
        22 => Some(Generation {
            to: 24,
            cost: Cost::Gated,
            round: 669,
            what: "adds AtomicStore.entity_kinds; Entity.kind becomes a registry ref",
            migrate: None,
            probe: Probe::Boundary {
                opens: r#"{"entities": {"e-1": {"entity_id": "e-1", "kind": "person"}}}"#,
                refused_by: BoundaryWrite::UnregisteredEntityKind,
            },
        }),
        23 => Some(Generation {
            to: 25,
            cost: Cost::Additive,
            round: 701,
            what: "adds Predicate.subject_kind / Predicate.object_entity_kind",
            migrate: None,
            probe: Probe::NotBreaking,
        }),
        24 => Some(Generation {
            to: 26,
            cost: Cost::Additive,
            round: 705,
            what: "adds Predicate.object_tokens",
            migrate: None,
            probe: Probe::NotBreaking,
        }),
        25 => Some(Generation {
            to: 27,
            cost: Cost::Additive,
            round: 706,
            what: "adds AtomicStore.units and the TypedObject::Quantity object shape",
            migrate: None,
            probe: Probe::NotBreaking,
        }),
        26 => Some(Generation {
            to: 28,
            cost: Cost::Additive,
            round: 707,
            what: "adds the TypedObject::Fact object shape",
            migrate: None,
            probe: Probe::NotBreaking,
        }),
        27 => Some(Generation {
            to: 29,
            cost: Cost::Breaking,
            round: 708,
            what: "removes the TypedObject::Value / object_kind=scalar free-text shape",
            migrate: None,
            probe: Probe::Pair {
                retired: r#"{"narrative_facts": {"f-1": {"frame": "gt", "claim": "c", "canon_from": "s-1", "evidence": [], "typed": {"subject": "e-1", "predicate": "p-1", "object": {"kind": "value", "text": "free text"}}}}}"#,
                control: r#"{"narrative_facts": {"f-1": {"frame": "gt", "claim": "c", "canon_from": "s-1", "evidence": []}}}"#,
            },
        }),
        28 => Some(Generation {
            to: 30,
            cost: Cost::Additive,
            round: 709,
            what: "adds AtomicStore.edge_costs",
            migrate: None,
            probe: Probe::NotBreaking,
        }),
        29 => Some(Generation {
            to: 31,
            cost: Cost::Additive,
            round: 720,
            what: "adds AtomicStore.edge_guards",
            migrate: None,
            probe: Probe::NotBreaking,
        }),
        30 => Some(Generation {
            to: 32,
            cost: Cost::Breaking,
            round: 722,
            what: "edge_guards' value becomes a set of conditions",
            migrate: None,
            probe: Probe::Pair {
                retired: r#"{"edge_guards": {"f-1": "c-1"}}"#,
                control: r#"{"edge_guards": {"f-1": {"conditions": ["c-1"]}}}"#,
            },
        }),
        31 => Some(Generation {
            to: 33,
            cost: Cost::Breaking,
            round: 723,
            what: "edge_guards' value becomes the EdgeGuard struct with a threshold",
            migrate: None,
            probe: Probe::Pair {
                retired: r#"{"edge_guards": {"f-1": ["c-1"]}}"#,
                control: r#"{"edge_guards": {"f-1": {"conditions": ["c-1"]}}}"#,
            },
        }),
        32 => Some(Generation {
            to: 34,
            cost: Cost::Additive,
            round: 729,
            what: "adds AtomicStore.parameters + AtomicStore.parameter_deltas",
            migrate: None,
            probe: Probe::NotBreaking,
        }),
        33 => Some(Generation {
            to: 35,
            cost: Cost::Additive,
            round: 730,
            what: "adds AtomicStore.parameter_gates",
            migrate: None,
            probe: Probe::NotBreaking,
        }),
        34 => Some(Generation {
            to: 36,
            cost: Cost::Additive,
            round: 731,
            what: "adds AtomicStore.fact_counts",
            migrate: None,
            probe: Probe::NotBreaking,
        }),
        35 => Some(Generation {
            to: 37,
            cost: Cost::Additive,
            round: 732,
            what: "adds EntityKind.parent",
            migrate: None,
            probe: Probe::NotBreaking,
        }),
        36 => Some(Generation {
            to: 38,
            cost: Cost::Migrated,
            round: 738,
            what: "EntityKind.parent generalises to parents (a set)",
            migrate: Some(Migration::EntityKindParentToParents),
            probe: Probe::NotBreaking,
        }),
        37 => Some(Generation {
            to: 39,
            cost: Cost::Migrated,
            round: 752,
            what: "DisclosureOverride.first_at's value becomes a DisclosureReveal",
            migrate: Some(Migration::DisclosureFirstAtToReveal),
            probe: Probe::NotBreaking,
        }),
        38 => Some(Generation {
            to: 40,
            cost: Cost::Additive,
            round: 756,
            what: "adds AtomicSection.content_excerpt",
            migrate: None,
            probe: Probe::NotBreaking,
        }),
        39 => Some(Generation {
            to: 41,
            cost: Cost::Additive,
            round: 757,
            what: "adds AtomicSection.scene_cast",
            migrate: None,
            probe: Probe::NotBreaking,
        }),
        40 => Some(Generation {
            to: 42,
            cost: Cost::Migrated,
            round: 759,
            what: "NormativeExcerpt converges onto the ContentExcerpt substrate",
            migrate: Some(Migration::NormativeExcerptToWrapped),
            probe: Probe::NotBreaking,
        }),
        41 => Some(Generation {
            to: 43,
            cost: Cost::Additive,
            round: 765,
            what: "adds AtomicSection.ladder",
            migrate: None,
            probe: Probe::NotBreaking,
        }),
        42 => Some(Generation {
            to: 44,
            cost: Cost::Migrated,
            round: 806,
            what: "NarrativeFact.evidence becomes EvidenceRef rows carrying a sha256",
            migrate: Some(Migration::EvidenceToRefs),
            probe: Probe::NotBreaking,
        }),
        43 => Some(Generation {
            to: 45,
            cost: Cost::Additive,
            round: 979,
            what: "adds AtomicChangelogEntry.population_census",
            migrate: None,
            probe: Probe::NotBreaking,
        }),
        44 => Some(Generation {
            to: 46,
            cost: Cost::Additive,
            round: 1024,
            what: "adds AtomicStore.mutation_reasons",
            migrate: None,
            probe: Probe::NotBreaking,
        }),
        _ => None,
    }
}

/// The ladder, in order.
pub fn generations() -> (r: Vec<Generation>)
    ensures
        r@ == ladder(),
{
    let mut r: Vec<Generation> = Vec::new();
    let mut i: usize = 0;
    while i < 45
        invariant
            i <= 45,
            r@ == ladder().subrange(0, i as int),
        decreases 45 - i,
    {
        proof {
            lemma_ladder_holds();
        }
        match generation_at(i) {
            Some(g) => {
                r.push(g);
            },
            None => {},
        }
        i = i + 1;
        assert(r@ =~= ladder().subrange(0, i as int));
    }
    assert(ladder().subrange(0, 45) =~= ladder());
    r
}

/// Rung `i` carries the rewrite exactly when it is migrated, carries a probe
/// exactly when it costs an old store work, and a boundary probe exactly
/// when it is gated.
pub open spec fn rung_holds(g: Generation) -> bool {
    &&& (g.cost == Cost::Migrated) == (g.migrate is Some)
    &&& (g.cost == Cost::Breaking || g.cost == Cost::Gated) == !(g.probe is NotBreaking)
    &&& (g.cost == Cost::Gated) == (g.probe is Boundary)
}

/// The ladder is contiguous from 2, ends at [`CURRENT_SCHEMA_VERSION`], and
/// every rung carries what its cost says it must: a migrated rung its
/// rewrite, a rung that costs an old store work a probe (a gated one a
/// boundary), and no other rung either.
pub proof fn lemma_ladder_holds()
    ensures
        forall|i: int| 0 <= i < ladder_len() ==> (#[trigger] rung(i)) is Some,
        forall|i: int| 0 <= i < ladder_len() ==> (#[trigger] rung(i))->0.to == i + 2,
        forall|i: int| 0 <= i < ladder_len() ==> rung_holds(#[trigger] rung(i)->0),
        forall|i: int| i < 0 || i >= ladder_len() ==> (#[trigger] rung(i)) is None,
        rung(ladder_len() - 1)->0.to == CURRENT_SCHEMA_VERSION,
        ladder().len() == ladder_len(),
        forall|i: int| 0 <= i < ladder_len() ==> #[trigger] ladder()[i] == rung(i)->0,
{
}

/// The first rung a store written at `on_disk` must cross: the first whose
/// version is above it, or the end of the ladder.
pub open spec fn first_above(on_disk: int) -> int {
    if on_disk < 2 {
        0
    } else if on_disk - 1 >= ladder_len() {
        ladder_len()
    } else {
        on_disk - 1
    }
}

/// The rungs a store written at `on_disk` crosses: those from the first
/// whose version is above it to the end.
pub open spec fn crossing(on_disk: int) -> Seq<Generation> {
    ladder().subrange(first_above(on_disk), ladder_len())
}

/// The rungs a store crosses are exactly the rungs above the version it was
/// written at, in ladder order.
pub proof fn lemma_crossing_is_the_rungs_above(on_disk: u32)
    ensures
        forall|i: int|
            0 <= i < ladder_len() ==> (i >= first_above(on_disk as int) <==> #[trigger] ladder()[i].to
                > on_disk),
        crossing(on_disk as int).len() == ladder_len() - first_above(on_disk as int),
        forall|k: int|
            0 <= k < crossing(on_disk as int).len() ==> #[trigger] crossing(on_disk as int)[k]
                == ladder()[first_above(on_disk as int) + k],
{
    lemma_ladder_holds();
}

/// The generations a store written at `on_disk` must cross to be read by
/// this build; empty when the store is current or newer.
pub fn crossed_by(on_disk: u32) -> (r: Vec<Generation>)
    ensures
        r@ == crossing(on_disk as int),
{
    proof {
        lemma_ladder_holds();
        lemma_crossing_is_the_rungs_above(on_disk);
    }
    let all = generations();
    let n = all.len();
    let mut first: usize = 0;
    while first < n
        invariant
            n == all.len(),
            all@ == ladder(),
            first <= n,
            forall|k: int| 0 <= k < first ==> #[trigger] ladder()[k].to <= on_disk,
        ensures
            first <= n,
            forall|k: int| 0 <= k < first ==> #[trigger] ladder()[k].to <= on_disk,
            first < n ==> ladder()[first as int].to > on_disk,
        decreases n - first,
    {
        if all[first].to > on_disk {
            break;
        }
        first = first + 1;
    }
    assert(first == first_above(on_disk as int)) by {
        if first < first_above(on_disk as int) {
            assert(ladder()[first as int].to > on_disk);
        }
        if first > first_above(on_disk as int) {
            assert(ladder()[first_above(on_disk as int)].to <= on_disk);
        }
    }
    let mut r: Vec<Generation> = Vec::new();
    let mut i: usize = first;
    while i < n
        invariant
            n == all.len(),
            all@ == ladder(),
            first <= i <= n,
            r@ == ladder().subrange(first as int, i as int),
        decreases n - i,
    {
        r.push(all[i]);
        i = i + 1;
        assert(r@ =~= ladder().subrange(first as int, i as int));
    }
    r
}

/// How many rungs of `s` have cost `c`.
pub open spec fn cost_count(s: Seq<Generation>, c: Cost) -> nat
    decreases s.len(),
{
    if s.len() == 0 {
        0
    } else {
        cost_count(s.drop_last(), c) + if s.last().cost == c {
            1nat
        } else {
            0nat
        }
    }
}

/// What the note says of one rung: a rung that costs something is named,
/// with the round that made it, what it did and, when gated, which of the
/// two ways it bites; any other rung says nothing.
pub open spec fn rung_name(g: Generation) -> Seq<char> {
    if g.cost == Cost::Breaking || g.cost == Cost::Gated {
        " \u{2014} v"@ + decimal(g.to as nat) + " (Round "@ + decimal(g.round as nat) + ") "@ + g.what@
            + if g.cost == Cost::Gated {
            " [opens; the write is what is refused]"@
        } else {
            ""@
        }
    } else {
        Seq::empty()
    }
}

/// The names of the rungs of `s` that cost something, in ladder order.
pub open spec fn named(s: Seq<Generation>) -> Seq<char>
    decreases s.len(),
{
    if s.len() == 0 {
        Seq::empty()
    } else {
        named(s.drop_last()) + rung_name(s.last())
    }
}

/// The note for crossing the rungs `s`: empty when there are none; else the
/// count of each cost, then the rungs that cost something, by name.
pub open spec fn note_of(s: Seq<Generation>) -> Seq<char> {
    if s.len() == 0 {
        Seq::empty()
    } else {
        "; crossing "@ + decimal(s.len()) + " generation(s): "@ + decimal(
            cost_count(s, Cost::Additive),
        ) + " additive, "@ + decimal(cost_count(s, Cost::Migrated)) + " migrated on load, "@
            + decimal(cost_count(s, Cost::Breaking)) + " that may refuse to open, "@ + decimal(
            cost_count(s, Cost::Gated),
        ) + " that open and refuse the first write"@ + named(s)
    }
}

/// What stands between a store written at `on_disk` and this build, in one
/// line: the rungs that cost something are named, the rest counted.
pub fn crossing_note(on_disk: u32) -> (r: String)
    ensures
        r@ == note_of(crossing(on_disk as int)),
{
    let crossing = crossed_by(on_disk);
    let ghost s = crossing@;
    if crossing.len() == 0 {
        return String::new();
    }
    let mut additive: usize = 0;
    let mut migrated: usize = 0;
    let mut breaking: usize = 0;
    let mut gated: usize = 0;
    let mut names = String::new();
    let mut i: usize = 0;
    while i < crossing.len()
        invariant
            s == crossing@,
            i <= s.len(),
            s.len() <= 45,
            additive == cost_count(s.subrange(0, i as int), Cost::Additive),
            migrated == cost_count(s.subrange(0, i as int), Cost::Migrated),
            breaking == cost_count(s.subrange(0, i as int), Cost::Breaking),
            gated == cost_count(s.subrange(0, i as int), Cost::Gated),
            additive <= i && migrated <= i && breaking <= i && gated <= i,
            names@ == named(s.subrange(0, i as int)),
        decreases s.len() - i,
    {
        let g = crossing[i];
        proof {
            let t = s.subrange(0, i + 1);
            assert(t.drop_last() =~= s.subrange(0, i as int));
            assert(t.last() == g);
        }
        match g.cost {
            Cost::Additive => {
                additive = additive + 1;
            },
            Cost::Migrated => {
                migrated = migrated + 1;
            },
            Cost::Breaking => {
                breaking = breaking + 1;
            },
            Cost::Gated => {
                gated = gated + 1;
            },
        }
        if g.cost == Cost::Breaking || g.cost == Cost::Gated {
            names.append(" \u{2014} v");
            let to = usize_to_decimal(g.to as usize);
            names.append(to.as_str());
            names.append(" (Round ");
            let round = usize_to_decimal(g.round as usize);
            names.append(round.as_str());
            names.append(") ");
            names.append(g.what);
            if g.cost == Cost::Gated {
                names.append(" [opens; the write is what is refused]");
            } else {
                names.append("");
            }
        }
        i = i + 1;
    }
    assert(s.subrange(0, s.len() as int) =~= s);
    let mut note = String::new();
    note.append("; crossing ");
    note.append(usize_to_decimal(crossing.len()).as_str());
    note.append(" generation(s): ");
    note.append(usize_to_decimal(additive).as_str());
    note.append(" additive, ");
    note.append(usize_to_decimal(migrated).as_str());
    note.append(" migrated on load, ");
    note.append(usize_to_decimal(breaking).as_str());
    note.append(" that may refuse to open, ");
    note.append(usize_to_decimal(gated).as_str());
    note.append(" that open and refuse the first write");
    note.append(names.as_str());
    note
}


/// A store at this build's generation or newer crosses no rung, and its note
/// is empty.
pub proof fn lemma_current_crosses_nothing(on_disk: u32)
    requires
        on_disk >= CURRENT_SCHEMA_VERSION,
    ensures
        crossing(on_disk as int).len() == 0,
        note_of(crossing(on_disk as int)) == Seq::<char>::empty(),
{
}

} // verus!
