use mnemosyne_atomic::error::AtomicMutateError;
use mnemosyne_atomic::model::{AtomicSection, AtomicStore, BindingKind, CoverageExpectation};
use mnemosyne_atomic::section::{
    add_section_binding, import_sections, remove_section_binding, set_section_binding_kind,
    set_section_coverage_expectation, SectionImport,
};
use mnemosyne_atomic::store::KindMigrationRow;

fn seed_section(store: &mut AtomicStore, section_id: &str) {
    store
        .sections
        .insert(section_id.to_string(), AtomicSection::default());
}

#[test]
fn add_section_binding_basic_round_trip() {
    let mut store = AtomicStore::new();
    seed_section(&mut store, "39");
    add_section_binding(
        &mut store,
        "39",
        "crates/mnemosyne-atomic/src/lib.rs",
        Some("AtomicSection"),
        BindingKind::Implements,
    )
    .unwrap();
    add_section_binding(
        &mut store,
        "39",
        "crates/mnemosyne-cli/src/atomic_cli.rs",
        None,
        BindingKind::Implements,
    )
    .unwrap();
    let impls = &store.section("39").unwrap().bindings;
    assert_eq!(impls.len(), 2);
    assert_eq!(impls[0].file, "crates/mnemosyne-atomic/src/lib.rs");
    assert_eq!(impls[0].symbol.as_deref(), Some("AtomicSection"));
    assert_eq!(impls[1].file, "crates/mnemosyne-cli/src/atomic_cli.rs");
    assert!(impls[1].symbol.is_none());
}

#[test]
fn add_section_binding_rejects_duplicate() {
    let mut store = AtomicStore::new();
    seed_section(&mut store, "39");
    add_section_binding(&mut store, "39", "src/foo.rs", Some("bar"), BindingKind::Implements)
        .unwrap();
    let err = add_section_binding(&mut store, "39", "src/foo.rs", Some("bar"), BindingKind::Implements)
        .unwrap_err();
    match err {
        AtomicMutateError::Validation(msg) => assert!(msg.contains("already present")),
        other => panic!("expected Validation, got {:?}", other),
    }
    add_section_binding(&mut store, "39", "src/foo.rs", None, BindingKind::Implements).unwrap();
    assert_eq!(store.section("39").unwrap().bindings.len(), 2);
}

#[test]
fn add_section_binding_rejects_malformed_file() {
    let mut store = AtomicStore::new();
    let cases = [
        "",
        "   ",
        "/abs/path.rs",
        "./rel.rs",
        "a/../b.rs",
        "a\\b.rs",
        "a//b.rs",
        "dir/",
        " leading.rs",
        "trailing.rs ",
    ];
    for bad in cases {
        let err = add_section_binding(&mut store, "39", bad, None, BindingKind::Implements).unwrap_err();
        assert!(
            matches!(err, AtomicMutateError::Validation(_)),
            "expected Validation for `{}`, got {:?}",
            bad,
            err
        );
    }
}

#[test]
fn add_section_binding_rejects_malformed_symbol() {
    let mut store = AtomicStore::new();
    for bad in ["", "   ", " sym", "sym ", "sym\nname"] {
        let err = add_section_binding(&mut store, "39", "src/foo.rs", Some(bad), BindingKind::Implements)
            .unwrap_err();
        assert!(
            matches!(err, AtomicMutateError::Validation(_)),
            "expected Validation for symbol `{:?}`, got {:?}",
            bad,
            err
        );
    }
}

#[test]
fn add_section_binding_accepts_opaque_qualified_symbols() {
    let mut store = AtomicStore::new();
    seed_section(&mut store, "39");
    for sym in [
        "foo",
        "module::path::foo",
        "Class.method",
        "Foo<T>::bar",
        "pkg/Type#method",
        "ns.sub.fn",
    ] {
        add_section_binding(&mut store, "39", "src/foo.rs", Some(sym), BindingKind::Implements)
            .unwrap();
    }
    assert_eq!(store.section("39").unwrap().bindings.len(), 6);
}

#[test]
fn remove_section_binding_basic_round_trip() {
    let mut store = AtomicStore::new();
    seed_section(&mut store, "X");
    add_section_binding(&mut store, "X", "src/foo.rs", None, BindingKind::Implements).unwrap();
    assert_eq!(store.section("X").unwrap().bindings.len(), 1);
    remove_section_binding(&mut store, "X", "src/foo.rs", None, "code moved").unwrap();
    assert_eq!(store.section("X").unwrap().bindings.len(), 0);
}

#[test]
fn remove_section_binding_symbol_aware_match() {
    let mut store = AtomicStore::new();
    seed_section(&mut store, "X");
    add_section_binding(&mut store, "X", "src/foo.rs", None, BindingKind::Implements).unwrap();
    add_section_binding(&mut store, "X", "src/foo.rs", Some("fn_a"), BindingKind::Implements).unwrap();
    add_section_binding(&mut store, "X", "src/foo.rs", Some("fn_b"), BindingKind::Implements).unwrap();
    remove_section_binding(&mut store, "X", "src/foo.rs", None, "cleanup").unwrap();
    let impls = &store.section("X").unwrap().bindings;
    assert_eq!(impls.len(), 2, "only the file-only row should be removed");
    assert!(impls.iter().any(|i| i.symbol.as_deref() == Some("fn_a")));
    assert!(impls.iter().any(|i| i.symbol.as_deref() == Some("fn_b")));
}

#[test]
fn remove_section_binding_section_not_found() {
    let mut store = AtomicStore::new();
    let err = remove_section_binding(&mut store, "ghost", "src/foo.rs", None, "x").unwrap_err();
    assert!(matches!(err, AtomicMutateError::NotFound(_)));
}

#[test]
fn remove_section_binding_impl_not_found() {
    let mut store = AtomicStore::new();
    seed_section(&mut store, "X");
    add_section_binding(&mut store, "X", "src/foo.rs", None, BindingKind::Implements).unwrap();
    let err = remove_section_binding(&mut store, "X", "src/other.rs", None, "wrong file").unwrap_err();
    assert!(matches!(err, AtomicMutateError::NotFound(_)));
}

#[test]
fn remove_section_binding_rejects_empty_reason() {
    let mut store = AtomicStore::new();
    seed_section(&mut store, "X");
    add_section_binding(&mut store, "X", "src/foo.rs", None, BindingKind::Implements).unwrap();
    let err = remove_section_binding(&mut store, "X", "src/foo.rs", None, "  ").unwrap_err();
    assert!(matches!(err, AtomicMutateError::Validation(_)));
}

#[test]
fn add_section_binding_round_trips_kind() {
    let mut store = AtomicStore::new();
    seed_section(&mut store, "X");
    add_section_binding(&mut store, "X", "src/scheduler.rs", Some("dispatch"), BindingKind::Implements)
        .unwrap();
    add_section_binding(&mut store, "X", "src/snapshot.rs", Some("delay_field"), BindingKind::References)
        .unwrap();
    let bindings = &store.section("X").unwrap().bindings;
    assert_eq!(bindings.len(), 2);
    let implements = bindings.iter().find(|b| b.file == "src/scheduler.rs").unwrap();
    assert_eq!(implements.kind, BindingKind::Implements);
    let references = bindings.iter().find(|b| b.file == "src/snapshot.rs").unwrap();
    assert_eq!(references.kind, BindingKind::References);
}

#[test]
fn set_section_binding_kind_reclassifies_in_place() {
    let mut store = AtomicStore::new();
    seed_section(&mut store, "X");
    add_section_binding(&mut store, "X", "src/snapshot.rs", Some("delay_field"), BindingKind::Implements)
        .unwrap();
    set_section_binding_kind(
        &mut store,
        "X",
        "src/snapshot.rs",
        Some("delay_field"),
        BindingKind::References,
        "DTO field stores the delay; §6.2.3 satisfied by the scheduler",
    )
    .unwrap();
    let bindings = &store.section("X").unwrap().bindings;
    assert_eq!(bindings.len(), 1, "reclassify mutates in place, no duplicate");
    assert_eq!(bindings[0].kind, BindingKind::References);
}

#[test]
fn coverage_expectation_write_path_parity_setter_vs_import() {
    let mut a = AtomicStore::new();
    seed_section(&mut a, "X");
    set_section_coverage_expectation(
        &mut a,
        "X",
        CoverageExpectation::OutOfScopeHere,
        "terminology section, nothing to implement",
    )
    .unwrap();
    let mut b = AtomicStore::new();
    import_sections(
        &mut b,
        &vec![SectionImport {
            section_id: "X".to_string(),
            parent_doc: "docs/GENERATED.md".to_string(),
            title: "X".to_string(),
            parent_section: None,
            normative_excerpt: None,
            coverage_expectation: CoverageExpectation::OutOfScopeHere,
        }],
    )
    .unwrap();
    assert_eq!(
        a.section("X").unwrap().coverage_expectation,
        CoverageExpectation::OutOfScopeHere,
    );
    assert_eq!(
        a.section("X").unwrap().coverage_expectation,
        b.section("X").unwrap().coverage_expectation,
    );
}

#[test]
fn set_section_binding_kind_rejects_empty_reason_and_missing_binding() {
    let mut store = AtomicStore::new();
    seed_section(&mut store, "X");
    let err = set_section_binding_kind(&mut store, "X", "src/foo.rs", None, BindingKind::References, "   ")
        .unwrap_err();
    assert!(matches!(err, AtomicMutateError::Validation(_)));
    let err = set_section_binding_kind(
        &mut store,
        "X",
        "src/foo.rs",
        None,
        BindingKind::References,
        "real reason",
    )
    .unwrap_err();
    assert!(matches!(err, AtomicMutateError::NotFound(_)));
}

#[test]
fn binding_kind_write_path_parity() {
    for kind in [
        BindingKind::Implements,
        BindingKind::References,
        BindingKind::Verifies,
    ] {
        let mut store_a = AtomicStore::new();
        seed_section(&mut store_a, "X");
        let add = add_section_binding(&mut store_a, "X", "src/f.rs", None, kind);
        let other = match kind {
            BindingKind::Implements => BindingKind::References,
            BindingKind::References => BindingKind::Verifies,
            BindingKind::Verifies => BindingKind::Implements,
        };
        let mut store_b = AtomicStore::new();
        seed_section(&mut store_b, "X");
        add_section_binding(&mut store_b, "X", "src/f.rs", None, other).unwrap();
        let set = set_section_binding_kind(&mut store_b, "X", "src/f.rs", None, kind, "r");
        assert_eq!(
            add.is_ok(),
            set.is_ok(),
            "add and set must agree on accepting kind {:?}",
            kind
        );
        assert!(add.is_ok(), "closed enum value must be accepted by both");
        assert_eq!(store_a.section("X").unwrap().bindings[0].kind, kind);
        assert_eq!(store_b.section("X").unwrap().bindings[0].kind, kind);
    }
}

// ---------------------------------------------------------------------------
// Further cases.
// ---------------------------------------------------------------------------

#[test]
fn kind_migration_report_sorts_rows_by_section_file_symbol() {
    let mut store = AtomicStore::new();
    seed_section(&mut store, "B");
    seed_section(&mut store, "A");
    add_section_binding(&mut store, "B", "src/z.rs", None, BindingKind::Implements).unwrap();
    add_section_binding(&mut store, "B", "src/a.rs", Some("y"), BindingKind::Implements).unwrap();
    add_section_binding(&mut store, "B", "src/a.rs", None, BindingKind::References).unwrap();
    add_section_binding(&mut store, "A", "src/q.rs", None, BindingKind::Verifies).unwrap();
    store.schema_version = 4;
    let report = store.kind_migration_report().expect("a pre-v5 store reports");
    assert_eq!(report.from_schema_version, 4);
    let rows: Vec<(String, String, Option<String>, BindingKind)> = report
        .rows
        .iter()
        .map(|r: &KindMigrationRow| {
            (
                r.section_id.clone(),
                r.file.clone(),
                r.symbol.clone(),
                r.defaulted_kind,
            )
        })
        .collect();
    assert_eq!(
        rows,
        vec![
            ("A".to_string(), "src/q.rs".to_string(), None, BindingKind::Verifies),
            ("B".to_string(), "src/a.rs".to_string(), None, BindingKind::References),
            (
                "B".to_string(),
                "src/a.rs".to_string(),
                Some("y".to_string()),
                BindingKind::Implements
            ),
            ("B".to_string(), "src/z.rs".to_string(), None, BindingKind::Implements),
        ]
    );
    store.stamp_current_schema();
    assert!(store.kind_migration_report().is_none());
}

#[test]
fn binding_refusal_messages_name_the_binding() {
    let mut store = AtomicStore::new();
    match add_section_binding(&mut store, "X", "src/f.rs", None, BindingKind::Implements) {
        Err(AtomicMutateError::NotFound(m)) => assert!(m.contains("`X`"), "{m}"),
        other => panic!("unexpected {other:?}"),
    }
}
