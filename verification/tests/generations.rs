use mnemosyne_atomic::generations::{
    an_unregistered_kind_is_refused_at_the_write_boundary, crossed_by, crossing_note, generations,
    Cost, CURRENT_SCHEMA_VERSION,
};
use mnemosyne_atomic::model::AtomicStore;
use mnemosyne_atomic::narrative::Entity;

#[test]
fn the_current_version_is_the_last_rung() {
    assert_eq!(
        CURRENT_SCHEMA_VERSION,
        generations().last().expect("a non-empty ladder").to
    );
    assert_eq!(CURRENT_SCHEMA_VERSION, 46);
}

#[test]
fn a_store_at_the_current_generation_crosses_nothing() {
    assert!(crossed_by(CURRENT_SCHEMA_VERSION).is_empty());
    assert!(crossed_by(CURRENT_SCHEMA_VERSION + 1).is_empty());
    assert_eq!(crossing_note(CURRENT_SCHEMA_VERSION), "");
}

#[test]
fn the_generations_a_store_crosses_are_the_ones_after_it() {
    let crossing = crossed_by(44);
    assert_eq!(
        crossing.iter().map(|g| g.to).collect::<Vec<_>>(),
        vec![45, 46]
    );
    assert!(crossed_by(1).len() == generations().len());
}

#[test]
fn the_note_names_what_costs_something_and_counts_the_rest() {
    let note = crossing_note(23);
    assert!(note.contains("crossing 23 generation(s)"), "{note}");
    assert!(note.contains("3 that may refuse to open"), "{note}");
    assert!(
        note.contains("1 that open and refuse the first write"),
        "{note}"
    );
    assert!(note.contains("v29 (Round 708)"), "{note}");
    assert!(
        note.contains("removes the TypedObject::Value"),
        "a rung that costs something says what it did: {note}"
    );
    assert!(
        note.contains("v24 (Round 669)") && note.contains("[opens; the write is what is refused]"),
        "the gated rung must not read as one that will not open: {note}"
    );
    assert!(note.contains("4 migrated on load"), "{note}");
}

#[test]
fn every_migrated_generation_is_one_load_can_dispatch() {
    let mut additive = 0;
    let mut migrated = 0;
    let mut breaking = 0;
    let mut gated = 0;
    let ladder = generations();
    for g in &ladder {
        match g.cost {
            Cost::Additive => additive += 1,
            Cost::Migrated => {
                migrated += 1;
                assert!(
                    g.migrate.is_some(),
                    "v{} is migrated with nothing to run",
                    g.to
                );
            }
            Cost::Breaking => breaking += 1,
            Cost::Gated => gated += 1,
        }
    }
    assert!(additive > 0 && migrated > 0 && breaking > 0 && gated > 0);
    assert_eq!(
        additive + migrated + breaking + gated,
        ladder.len(),
        "the match above is the whole population, so a new cost must be counted here"
    );
}

#[test]
fn the_ladder_is_contiguous_from_two() {
    let ladder = generations();
    for (i, g) in ladder.iter().enumerate() {
        assert_eq!(g.to as usize, i + 2);
        assert_eq!(g.cost == Cost::Migrated, g.migrate.is_some());
    }
}

#[test]
fn a_note_for_a_store_one_behind_counts_one_additive_rung() {
    assert_eq!(
        crossing_note(45),
        "; crossing 1 generation(s): 1 additive, 0 migrated on load, 0 that may refuse to open, 0 that open and refuse the first write"
    );
}

#[test]
fn a_store_below_the_ladder_crosses_every_rung() {
    assert_eq!(crossed_by(0).len(), 45);
    assert_eq!(crossed_by(0)[0].to, 2);
}

#[test]
fn the_boundary_probe_reports_whether_add_entity_refused() {
    let mut store = AtomicStore::new();
    assert!(!an_unregistered_kind_is_refused_at_the_write_boundary(&mut store));
    assert_eq!(store.entities.get("e-2").unwrap().kind, "person");
    let mut other = AtomicStore::new();
    other.entities.insert(
        "e-2".to_string(),
        Entity {
            kind: "place".to_string(),
            description: String::new(),
        },
    );
    assert!(an_unregistered_kind_is_refused_at_the_write_boundary(&mut other));
    assert_eq!(other.entities.get("e-2").unwrap().kind, "place");
}
