use mnemosyne_atomic::error::AtomicMutateError;
use mnemosyne_atomic::inventory::{
    add_inventory_entry, remove_inventory_entry, set_inventory_section_ref, set_inventory_status,
};
use mnemosyne_atomic::model::{AtomicStore, InventoryEntry, InventoryStatus};

fn has(set: &[String], id: &str) -> bool {
    set.iter().any(|k| k == id)
}

#[test]
fn inventory_entry_round_trip() {
    let mut store = AtomicStore::new();
    store.inventory_entries.insert(
        "ARP_07".to_string(),
        InventoryEntry {
            status: InventoryStatus::Active,
            section_ref: Some("4.2.4".to_string()),
            source: Some("tc8_p041-p060.pdf#row=12".to_string()),
            reason: None,
        },
    );
    store.inventory_entries.insert(
        "TCP_RETRANSMISSION_TO_04".to_string(),
        InventoryEntry {
            status: InventoryStatus::Deprecated,
            section_ref: Some("4.8.6.11".to_string()),
            source: None,
            reason: Some("superseded by RETRANSMISSION_TO_05 in TC8 v2.3".to_string()),
        },
    );
    let arp = store.inventory("ARP_07").expect("ARP_07 not found");
    assert_eq!(arp.status, InventoryStatus::Active);
    assert_eq!(arp.section_ref.as_deref(), Some("4.2.4"));
    let tcp = store.inventory("TCP_RETRANSMISSION_TO_04").unwrap();
    assert_eq!(tcp.status, InventoryStatus::Deprecated);
    assert!(tcp.reason.as_ref().unwrap().contains("v2.3"));
    assert!(store.inventory("ARP_99").is_none());
}

#[test]
fn add_inventory_entry_basic_round_trip() {
    let mut store = AtomicStore::new();
    add_inventory_entry(
        &mut store,
        "ARP_07",
        InventoryStatus::Active,
        Some("4.2.4"),
        Some("tc8_p041-p060.pdf#row=12"),
        None,
    )
    .unwrap();
    let e = store.inventory("ARP_07").unwrap();
    assert_eq!(e.status, InventoryStatus::Active);
    assert_eq!(e.section_ref.as_deref(), Some("4.2.4"));
    assert_eq!(e.source.as_deref(), Some("tc8_p041-p060.pdf#row=12"));
    assert!(e.reason.is_none());
}

#[test]
fn add_inventory_entry_rejects_duplicate() {
    let mut store = AtomicStore::new();
    add_inventory_entry(&mut store, "ARP_07", InventoryStatus::Active, None, None, None).unwrap();
    let err = add_inventory_entry(
        &mut store,
        "ARP_07",
        InventoryStatus::Deprecated,
        None,
        None,
        None,
    )
    .unwrap_err();
    match err {
        AtomicMutateError::Validation(msg) => {
            assert!(msg.contains("already registered"), "got: {}", msg)
        }
        other => panic!("expected Validation, got {:?}", other),
    }
}

#[test]
fn add_inventory_entry_rejects_invalid_id() {
    let mut store = AtomicStore::new();
    assert!(matches!(
        add_inventory_entry(&mut store, "", InventoryStatus::Active, None, None, None),
        Err(AtomicMutateError::Validation(_))
    ));
    assert!(matches!(
        add_inventory_entry(&mut store, " ARP_07", InventoryStatus::Active, None, None, None),
        Err(AtomicMutateError::Validation(_))
    ));
    assert!(matches!(
        add_inventory_entry(&mut store, "ARP 07", InventoryStatus::Active, None, None, None),
        Err(AtomicMutateError::Validation(_))
    ));
}

#[test]
fn add_inventory_entry_rejects_section_ref_with_section_sigil() {
    let mut store = AtomicStore::new();
    let err = add_inventory_entry(
        &mut store,
        "ARP_07",
        InventoryStatus::Active,
        Some("§4.2.4"),
        None,
        None,
    )
    .unwrap_err();
    match err {
        AtomicMutateError::Validation(msg) => {
            assert!(msg.contains("drop leading `§`"), "got: {}", msg)
        }
        other => panic!("expected Validation, got {:?}", other),
    }
}

#[test]
fn set_inventory_status_active_to_deprecated_with_reason() {
    let mut store = AtomicStore::new();
    add_inventory_entry(&mut store, "TCP_X", InventoryStatus::Active, None, None, None).unwrap();
    set_inventory_status(
        &mut store,
        "TCP_X",
        InventoryStatus::Deprecated,
        Some("superseded by TCP_Y in TC8 v2.3"),
    )
    .unwrap();
    let e = store.inventory("TCP_X").unwrap();
    assert_eq!(e.status, InventoryStatus::Deprecated);
    assert!(e.reason.as_ref().unwrap().contains("v2.3"));
}

#[test]
fn set_inventory_status_reason_none_preserves_existing() {
    let mut store = AtomicStore::new();
    add_inventory_entry(
        &mut store,
        "TCP_X",
        InventoryStatus::Deprecated,
        None,
        None,
        Some("initial reason"),
    )
    .unwrap();
    set_inventory_status(&mut store, "TCP_X", InventoryStatus::Active, None).unwrap();
    let e = store.inventory("TCP_X").unwrap();
    assert_eq!(e.status, InventoryStatus::Active);
    assert_eq!(e.reason.as_deref(), Some("initial reason"));
}

#[test]
fn set_inventory_status_reason_empty_string_clears() {
    let mut store = AtomicStore::new();
    add_inventory_entry(
        &mut store,
        "TCP_X",
        InventoryStatus::Deprecated,
        None,
        None,
        Some("initial reason"),
    )
    .unwrap();
    set_inventory_status(&mut store, "TCP_X", InventoryStatus::Reserved, Some("")).unwrap();
    let e = store.inventory("TCP_X").unwrap();
    assert!(e.reason.is_none());
}

#[test]
fn set_inventory_status_not_found_returns_not_found() {
    let mut store = AtomicStore::new();
    let err = set_inventory_status(&mut store, "ARP_99", InventoryStatus::Active, None).unwrap_err();
    assert!(matches!(err, AtomicMutateError::NotFound(_)));
}

#[test]
fn set_inventory_section_ref_basic_and_clear() {
    let mut store = AtomicStore::new();
    add_inventory_entry(&mut store, "ARP_07", InventoryStatus::Active, None, None, None).unwrap();
    set_inventory_section_ref(&mut store, "ARP_07", Some("4.2.4")).unwrap();
    assert_eq!(
        store.inventory("ARP_07").unwrap().section_ref.as_deref(),
        Some("4.2.4")
    );
    set_inventory_section_ref(&mut store, "ARP_07", None).unwrap();
    assert!(store.inventory("ARP_07").unwrap().section_ref.is_none());
}

#[test]
fn set_inventory_section_ref_not_found_returns_not_found() {
    let mut store = AtomicStore::new();
    let err = set_inventory_section_ref(&mut store, "ARP_99", Some("4.2.4")).unwrap_err();
    assert!(matches!(err, AtomicMutateError::NotFound(_)));
}

#[test]
fn remove_inventory_entry_basic() {
    let mut store = AtomicStore::new();
    add_inventory_entry(&mut store, "ARP_07", InventoryStatus::Active, None, None, None).unwrap();
    remove_inventory_entry(&mut store, "ARP_07", "deprecated upstream in TC8 v2.4").unwrap();
    assert!(store.inventory("ARP_07").is_none());
}

#[test]
fn remove_inventory_entry_rejects_empty_reason() {
    let mut store = AtomicStore::new();
    add_inventory_entry(&mut store, "ARP_07", InventoryStatus::Active, None, None, None).unwrap();
    let err = remove_inventory_entry(&mut store, "ARP_07", "  ").unwrap_err();
    assert!(matches!(err, AtomicMutateError::Validation(_)));
}

#[test]
fn remove_inventory_entry_not_found() {
    let mut store = AtomicStore::new();
    let err = remove_inventory_entry(&mut store, "ARP_99", "any reason").unwrap_err();
    assert!(matches!(err, AtomicMutateError::NotFound(_)));
}

#[test]
fn atomic_inventory_id_set_returns_inventory_keys() {
    let mut store = AtomicStore::new();
    store
        .inventory_entries
        .insert("ARP_07".to_string(), InventoryEntry::default());
    store.inventory_entries.insert(
        "TCP_FLAGS_INVALID_02".to_string(),
        InventoryEntry::default(),
    );
    store.inventory_entries.insert(
        "SOMEIP_ETS_BASICS_01".to_string(),
        InventoryEntry::default(),
    );
    let id_set = store.atomic_inventory_id_set();
    assert_eq!(id_set.len(), 3);
    assert!(has(&id_set, "ARP_07"));
    assert!(has(&id_set, "TCP_FLAGS_INVALID_02"));
    assert!(has(&id_set, "SOMEIP_ETS_BASICS_01"));
    assert!(!has(&id_set, "ARP_99"));
    assert_eq!(
        id_set,
        vec![
            "ARP_07".to_string(),
            "SOMEIP_ETS_BASICS_01".to_string(),
            "TCP_FLAGS_INVALID_02".to_string()
        ]
    );
}

// ---------------------------------------------------------------------------
// Further cases.
// ---------------------------------------------------------------------------

#[test]
fn add_inventory_entry_refuses_blank_or_edged_source_and_reason() {
    let mut store = AtomicStore::new();
    match add_inventory_entry(&mut store, "ID_1", InventoryStatus::Reserved, None, Some("   "), None) {
        Err(AtomicMutateError::Validation(m)) => {
            assert_eq!(m, "source: must be non-empty (pass None for no value)")
        }
        other => panic!("unexpected {other:?}"),
    }
    match add_inventory_entry(&mut store, "ID_1", InventoryStatus::Reserved, None, None, Some("")) {
        Err(AtomicMutateError::Validation(m)) => {
            assert_eq!(m, "reason: must be non-empty (pass None for no value)")
        }
        other => panic!("unexpected {other:?}"),
    }
    match add_inventory_entry(&mut store, "ID_1", InventoryStatus::Reserved, None, Some("RFC 826 "), None) {
        Err(AtomicMutateError::Validation(m)) => assert_eq!(
            m,
            "source: leading or trailing whitespace not allowed (`RFC 826 `)"
        ),
        other => panic!("unexpected {other:?}"),
    }
    match add_inventory_entry(&mut store, "ID_1", InventoryStatus::Reserved, None, None, Some(" why")) {
        Err(AtomicMutateError::Validation(m)) => assert_eq!(
            m,
            "reason: leading or trailing whitespace not allowed (` why`)"
        ),
        other => panic!("unexpected {other:?}"),
    }
    assert!(store.inventory("ID_1").is_none());
    add_inventory_entry(&mut store, "ID_1", InventoryStatus::Reserved, None, Some("RFC 826"), Some("held"))
        .unwrap();
    let e = store.inventory("ID_1").unwrap();
    assert_eq!(e.source.as_deref(), Some("RFC 826"));
    assert_eq!(e.reason.as_deref(), Some("held"));
}

#[test]
fn refusal_messages_are_exact() {
    let mut store = AtomicStore::new();
    match set_inventory_status(&mut store, "ARP_99", InventoryStatus::Active, None) {
        Err(AtomicMutateError::NotFound(m)) => {
            assert_eq!(m, "inventory_id `ARP_99` not present in atomic store")
        }
        other => panic!("unexpected {other:?}"),
    }
    match add_inventory_entry(&mut store, "A B", InventoryStatus::Active, None, None, None) {
        Err(AtomicMutateError::Validation(m)) => {
            assert_eq!(m, "inventory_id: internal whitespace not allowed (`A B`)")
        }
        other => panic!("unexpected {other:?}"),
    }
    match add_inventory_entry(&mut store, "A", InventoryStatus::Active, Some(" 1"), None, None) {
        Err(AtomicMutateError::Validation(m)) => assert_eq!(
            m,
            "section_ref: leading or trailing whitespace not allowed (` 1`)"
        ),
        other => panic!("unexpected {other:?}"),
    }
    assert!(store.inventory("A").is_none());
    match remove_inventory_entry(&mut store, "X", "") {
        Err(AtomicMutateError::Validation(m)) => assert_eq!(
            m,
            "remove_inventory_entry: --reason mandatory (audit-trail safeguard)"
        ),
        other => panic!("unexpected {other:?}"),
    }
}

#[test]
fn register_then_remove_leaves_the_inventory_as_it_was() {
    let mut store = AtomicStore::new();
    add_inventory_entry(&mut store, "KEEP", InventoryStatus::Active, None, None, None).unwrap();
    let before = store.inventory_entries.clone();
    add_inventory_entry(&mut store, "TEMP", InventoryStatus::Active, Some("1.2"), None, None)
        .unwrap();
    remove_inventory_entry(&mut store, "TEMP", "registered by mistake").unwrap();
    assert_eq!(store.inventory_entries, before);
}
