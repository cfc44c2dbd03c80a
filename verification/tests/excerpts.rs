use mnemosyne_atomic::digest::sha256_hex;
use mnemosyne_atomic::error::AtomicMutateError;
use mnemosyne_atomic::model::{
    AtomicSection, AtomicStore, CoverageExpectation, EpubLocator, NormativeExcerpt,
};
use mnemosyne_atomic::section::{
    add_section, build_normative_excerpt, import_epub_anchors, import_epub_excerpts,
    import_sections, ExcerptImport, SectionImport,
};

fn seed_section(store: &mut AtomicStore, section_id: &str) {
    store
        .sections
        .insert(section_id.to_string(), AtomicSection::default());
}

fn imp(section_id: &str, parent_doc: &str, title: &str) -> SectionImport {
    SectionImport {
        section_id: section_id.to_string(),
        parent_doc: parent_doc.to_string(),
        title: title.to_string(),
        parent_section: None,
        normative_excerpt: None,
        coverage_expectation: CoverageExpectation::Normative,
    }
}

fn seed_excerpt(store: &mut AtomicStore, id: &str, text: &str, url: &str, rev: &str) {
    let mut e = imp(id, "docs/GENERATED.md", "T");
    e.normative_excerpt = Some(NormativeExcerpt {
        text: text.to_string(),
        anchor_url: url.to_string(),
        source_revision: rev.to_string(),
        text_sha256: String::new(),
    });
    import_sections(store, &vec![e]).unwrap();
}

fn excerpt_of(store: &AtomicStore, id: &str) -> NormativeExcerpt {
    store
        .section(id)
        .unwrap()
        .normative_excerpt
        .clone()
        .unwrap()
}

#[test]
fn build_normative_excerpt_accepts_valid_empty_hash() {
    let ne = build_normative_excerpt(
        "The <event> element ...",
        "https://www.w3.org/TR/scxml/#event",
        "2015-09-01",
        "",
    )
    .unwrap();
    assert_eq!(ne.text, "The <event> element ...");
    assert_eq!(ne.anchor_url, "https://www.w3.org/TR/scxml/#event");
    assert_eq!(ne.source_revision, "2015-09-01");
    assert_eq!(ne.text_sha256, "");
}

#[test]
fn build_normative_excerpt_trims_trailing_newline() {
    let ne =
        build_normative_excerpt("spec text\n\n", "https://example.com/spec", "rev1", "").unwrap();
    assert_eq!(ne.text, "spec text");
}

#[test]
fn build_normative_excerpt_rejects_blank_text() {
    let err = build_normative_excerpt(" \n ", "https://example.com/spec", "rev1", "").unwrap_err();
    assert!(matches!(err, AtomicMutateError::Validation(_)));
}

#[test]
fn build_normative_excerpt_rejects_blank_source_revision() {
    let err = build_normative_excerpt("text", "https://example.com/spec", "   ", "").unwrap_err();
    assert!(matches!(err, AtomicMutateError::Validation(_)));
}

#[test]
fn build_normative_excerpt_rejects_non_url_anchor() {
    let err = build_normative_excerpt("text", "not-a-url", "rev1", "").unwrap_err();
    match err {
        AtomicMutateError::Validation(msg) => {
            assert!(msg.contains("absolute http(s):// URL"), "got: {msg}")
        }
        other => panic!("expected Validation, got {other:?}"),
    }
}

#[test]
fn build_normative_excerpt_rejects_missing_host() {
    let err = build_normative_excerpt("text", "https:///path-only", "rev1", "").unwrap_err();
    assert!(matches!(err, AtomicMutateError::Validation(_)));
}

#[test]
fn build_normative_excerpt_accepts_matching_hash() {
    let text = "spec text";
    let hash = sha256_hex(text);
    let ne = build_normative_excerpt(text, "https://example.com/spec", "rev1", &hash).unwrap();
    assert_eq!(ne.text_sha256, hash);
}

#[test]
fn build_normative_excerpt_hashes_stored_text_not_raw() {
    let stored = "spec text";
    let hash = sha256_hex(stored);
    let ne =
        build_normative_excerpt("spec text\n", "https://example.com/spec", "rev1", &hash).unwrap();
    assert_eq!(ne.text, stored);
    assert_eq!(ne.text_sha256, hash);
}

#[test]
fn build_normative_excerpt_rejects_mismatched_hash() {
    let err = build_normative_excerpt("spec text", "https://example.com/spec", "rev1", "deadbeef")
        .unwrap_err();
    match err {
        AtomicMutateError::Validation(msg) => {
            assert!(msg.contains("text_sha256 mismatch"), "got: {msg}")
        }
        other => panic!("expected Validation, got {other:?}"),
    }
}

#[test]
fn sha256_hex_of_known_text() {
    assert_eq!(
        sha256_hex("abc"),
        "ba7816bf8f01cfea414140de5dae2223b00361a396177a9cb410ff61f20015ad"
    );
    assert_eq!(
        sha256_hex(""),
        "e3b0c44298fc1c149afbf4c8996fb92427ae41e4649b934ca495991b7852b855"
    );
}

#[test]
fn text_sha256_matches_three_states() {
    let mk = |text: &str, hash: &str| NormativeExcerpt {
        text: text.to_string(),
        anchor_url: "https://example.com/s".to_string(),
        source_revision: "rev".to_string(),
        text_sha256: hash.to_string(),
    };
    assert_eq!(mk("spec text", "").text_sha256_matches(), None);
    let good = sha256_hex("spec text");
    assert_eq!(mk("spec text", &good).text_sha256_matches(), Some(true));
    assert_eq!(mk("spec text", "deadbeef").text_sha256_matches(), Some(false));
    assert_eq!(mk("spec text", "").recompute_text_sha256(), good);
}

#[test]
fn excerpt_hash_backfill_report_lists_only_empty_hash() {
    let mut store = AtomicStore::new();
    seed_excerpt(&mut store, "a", "text a", "https://x.org/#a", "rev1");
    seed_excerpt(&mut store, "b", "text b", "https://x.org/#b", "rev2");
    let mut b = store.section("b").unwrap().clone();
    b.normative_excerpt.as_mut().unwrap().text_sha256 = "deadbeef".into();
    store.sections.insert("b".to_string(), b);
    seed_section(&mut store, "c");
    let report = store.excerpt_hash_backfill_report();
    assert_eq!(report.rows.len(), 1);
    assert_eq!(report.rows[0].section_id, "a");
    assert_eq!(report.rows[0].source_revision, "rev1");
}

#[test]
fn import_epub_excerpts_refreshes_text_and_preserves_identity() {
    let mut store = AtomicStore::new();
    seed_excerpt(
        &mut store,
        "scxml-3.13",
        "old text",
        "https://www.w3.org/TR/scxml/#event",
        "2015-09-01",
    );
    let new_text = "new EPUB text";
    let hash = sha256_hex(new_text);
    let (applied, unmatched) = import_epub_excerpts(
        &mut store,
        &vec![ExcerptImport {
            section_id: "scxml-3.13".into(),
            text: new_text.into(),
            text_sha256: hash.clone(),
        }],
    )
    .unwrap();
    assert_eq!(applied, 1);
    assert!(unmatched.is_empty());
    let ne = excerpt_of(&store, "scxml-3.13");
    assert_eq!(ne.text, new_text);
    assert_eq!(ne.text_sha256, hash);
    assert_eq!(ne.anchor_url, "https://www.w3.org/TR/scxml/#event");
    assert_eq!(ne.source_revision, "2015-09-01");
}

#[test]
fn import_epub_excerpts_overwrites_existing_hash() {
    let mut store = AtomicStore::new();
    seed_excerpt(&mut store, "x", "v0", "https://example.com/s", "rev1");
    let h1 = sha256_hex("first");
    import_epub_excerpts(
        &mut store,
        &vec![ExcerptImport {
            section_id: "x".into(),
            text: "first".into(),
            text_sha256: h1,
        }],
    )
    .unwrap();
    let h2 = sha256_hex("second");
    import_epub_excerpts(
        &mut store,
        &vec![ExcerptImport {
            section_id: "x".into(),
            text: "second".into(),
            text_sha256: h2.clone(),
        }],
    )
    .unwrap();
    let ne = excerpt_of(&store, "x");
    assert_eq!(ne.text, "second");
    assert_eq!(ne.text_sha256, h2);
}

#[test]
fn import_epub_excerpts_reports_unmatched() {
    let mut store = AtomicStore::new();
    seed_excerpt(&mut store, "has", "t", "https://example.com/s", "rev1");
    seed_section(&mut store, "noexcerpt");
    let ht = sha256_hex("refresh");
    let (applied, unmatched) = import_epub_excerpts(
        &mut store,
        &vec![
            ExcerptImport {
                section_id: "has".into(),
                text: "refresh".into(),
                text_sha256: ht,
            },
            ExcerptImport {
                section_id: "noexcerpt".into(),
                text: "x".into(),
                text_sha256: String::new(),
            },
            ExcerptImport {
                section_id: "absent".into(),
                text: "y".into(),
                text_sha256: String::new(),
            },
        ],
    )
    .unwrap();
    assert_eq!(applied, 1);
    assert_eq!(
        unmatched,
        vec!["noexcerpt".to_string(), "absent".to_string()]
    );
}

#[test]
fn import_epub_excerpts_rejects_hash_mismatch() {
    let mut store = AtomicStore::new();
    seed_excerpt(&mut store, "x", "orig", "https://example.com/s", "rev1");
    let err = import_epub_excerpts(
        &mut store,
        &vec![ExcerptImport {
            section_id: "x".into(),
            text: "new".into(),
            text_sha256: "deadbeef".into(),
        }],
    )
    .unwrap_err();
    assert!(matches!(err, AtomicMutateError::Validation(_)));
    assert_eq!(excerpt_of(&store, "x").text, "orig");
}

#[test]
fn import_epub_excerpts_errors_when_nothing_matches() {
    let mut store = AtomicStore::new();
    seed_section(&mut store, "x");
    let err = import_epub_excerpts(
        &mut store,
        &vec![ExcerptImport {
            section_id: "x".into(),
            text: "t".into(),
            text_sha256: String::new(),
        }],
    )
    .unwrap_err();
    assert!(matches!(err, AtomicMutateError::NotFound(_)));
}

#[test]
fn import_sections_creates_absent() {
    let mut store = AtomicStore::new();
    let manifest = vec![
        imp("scxml-3.13", "docs/GENERATED.md", "Event Descriptors"),
        imp("scxml-5.10", "docs/GENERATED.md", "Datamodel"),
    ];
    let outcome = import_sections(&mut store, &manifest).unwrap();
    assert_eq!(store.sections.len(), 2);
    assert!(store.sections.contains_key("scxml-3.13"));
    assert_eq!(outcome.created, 2);
    assert!(outcome.summary.contains("2 created"), "{}", outcome.summary);
}

#[test]
fn import_sections_idempotent_noop_second_run() {
    let mut store = AtomicStore::new();
    let manifest = vec![imp("scxml-3.13", "docs/GENERATED.md", "Event Descriptors")];
    import_sections(&mut store, &manifest).unwrap();
    let outcome2 = import_sections(&mut store, &manifest).unwrap();
    assert_eq!(store.sections.len(), 1);
    assert!(outcome2.summary.contains("0 created"), "{}", outcome2.summary);
    assert_eq!(outcome2.created, 0, "no-op manifest creates nothing");
    assert_eq!(outcome2.no_op, 1);
}

#[test]
fn import_sections_rejects_divergent() {
    let mut store = AtomicStore::new();
    import_sections(
        &mut store,
        &vec![imp("scxml-3.13", "docs/GENERATED.md", "Original")],
    )
    .unwrap();
    let err = import_sections(
        &mut store,
        &vec![imp("scxml-3.13", "docs/GENERATED.md", "Changed Title")],
    )
    .unwrap_err();
    assert!(matches!(err, AtomicMutateError::Validation(_)));
    assert!(err.to_text().contains("DIVERGENT"), "{}", err.to_text());
    assert_eq!(
        store.section("scxml-3.13").unwrap().skeleton.title,
        "Original"
    );
}

#[test]
fn import_sections_inline_excerpt_anchored_at_create() {
    let mut store = AtomicStore::new();
    let mut e = imp("scxml-3.13", "docs/GENERATED.md", "Event Descriptors");
    e.normative_excerpt = Some(NormativeExcerpt {
        text: "verbatim spec".to_string(),
        anchor_url: "https://www.w3.org/TR/scxml/#event".to_string(),
        source_revision: "2024-rec".to_string(),
        text_sha256: String::new(),
    });
    import_sections(&mut store, &vec![e]).unwrap();
    let ne = excerpt_of(&store, "scxml-3.13");
    assert_eq!(ne.text, "verbatim spec");
    assert_eq!(ne.source_revision, "2024-rec");
}

#[test]
fn import_epub_anchors_sets_locator_reports_unmatched_and_overwrites() {
    let mut store = AtomicStore::new();
    import_sections(
        &mut store,
        &vec![imp("scxml-3.13", "docs/GENERATED.md", "Selecting Transitions")],
    )
    .unwrap();
    let loc = EpubLocator {
        spine_href: "OEBPS/spec.xhtml".to_string(),
        fragment: "scxml-3.13".to_string(),
        cfi: Some("epubcfi(/6/4!/4)".to_string()),
    };
    let (applied, unmatched) = import_epub_anchors(
        &mut store,
        &vec![
            ("scxml-3.13".to_string(), loc.clone()),
            ("scxml-absent".to_string(), loc.clone()),
        ],
    )
    .unwrap();
    assert_eq!(applied, 1);
    assert_eq!(unmatched, vec!["scxml-absent".to_string()]);
    assert_eq!(
        store.section("scxml-3.13").unwrap().epub_locator.as_ref(),
        Some(&loc)
    );
    let loc2 = EpubLocator {
        spine_href: "OEBPS/ch3.xhtml".to_string(),
        fragment: "scxml-3.13".to_string(),
        cfi: None,
    };
    import_epub_anchors(&mut store, &vec![("scxml-3.13".to_string(), loc2.clone())]).unwrap();
    assert_eq!(
        store.section("scxml-3.13").unwrap().epub_locator,
        Some(loc2)
    );
}

#[test]
fn import_epub_anchors_errors_when_nothing_matches() {
    let mut store = AtomicStore::new();
    import_sections(&mut store, &vec![imp("scxml-1", "docs/GENERATED.md", "X")]).unwrap();
    let loc = EpubLocator {
        spine_href: "OEBPS/spec.xhtml".to_string(),
        fragment: "scxml-9".to_string(),
        cfi: None,
    };
    assert!(matches!(
        import_epub_anchors(&mut store, &vec![("scxml-9".to_string(), loc)]),
        Err(AtomicMutateError::NotFound(_))
    ));
}

#[test]
fn import_sections_parent_within_manifest_ordered() {
    let mut store = AtomicStore::new();
    let mut child = imp("scxml-D-2-func", "docs/GENERATED.md", "func helper");
    child.parent_section = Some("scxml-D".to_string());
    let manifest = vec![imp("scxml-D", "docs/GENERATED.md", "Appendix D"), child];
    import_sections(&mut store, &manifest).unwrap();
    assert_eq!(
        store
            .section("scxml-D-2-func")
            .unwrap()
            .skeleton
            .parent_section
            .as_deref(),
        Some("scxml-D")
    );
}

#[test]
fn import_sections_rejects_invalid_excerpt() {
    let mut store = AtomicStore::new();
    let mut e = imp("scxml-3.13", "docs/GENERATED.md", "X");
    e.normative_excerpt = Some(NormativeExcerpt {
        text: "   ".to_string(),
        anchor_url: "https://example.com/s".to_string(),
        source_revision: "rev".to_string(),
        text_sha256: String::new(),
    });
    let err = import_sections(&mut store, &vec![e]).unwrap_err();
    assert!(
        err.to_text().contains("normative_excerpt text blank"),
        "{}",
        err.to_text()
    );
}

#[test]
fn import_sections_intra_manifest_divergent_rejected_no_save() {
    let mut store = AtomicStore::new();
    let manifest = vec![
        imp("scxml-3.13", "docs/GENERATED.md", "First"),
        imp("scxml-3.13", "docs/GENERATED.md", "Second"),
    ];
    let err = import_sections(&mut store, &manifest).unwrap_err();
    assert!(err.to_text().contains("DIVERGENT"), "{}", err.to_text());
    assert_eq!(store.sections.len(), 0, "a rejected manifest changes nothing");
}

#[test]
fn import_sections_strips_section_and_parent_sigil() {
    let mut store = AtomicStore::new();
    let mut child = imp("§scxml-D-2", "docs/GENERATED.md", "child");
    child.parent_section = Some("§scxml-D".to_string());
    let manifest = vec![imp("§scxml-D", "docs/GENERATED.md", "Appendix D"), child];
    import_sections(&mut store, &manifest).unwrap();
    assert!(store.sections.contains_key("scxml-D"));
    assert!(store.sections.contains_key("scxml-D-2"));
    assert!(!store.sections.contains_key("§scxml-D"), "sigil leaked into key");
    assert_eq!(
        store
            .section("scxml-D-2")
            .unwrap()
            .skeleton
            .parent_section
            .as_deref(),
        Some("scxml-D")
    );
}

#[test]
fn add_section_and_import_sections_normalize_sigil_identically() {
    let mut s1 = AtomicStore::new();
    add_section(&mut s1, "§scxml-1", "docs/GENERATED.md", "A", None).unwrap();
    let mut s2 = AtomicStore::new();
    import_sections(&mut s2, &vec![imp("§scxml-1", "docs/GENERATED.md", "A")]).unwrap();
    assert_eq!(s1.sections.len(), s2.sections.len());
    for i in 0..s1.sections.len() {
        assert_eq!(s1.sections.key_at(i), s2.sections.key_at(i));
    }
    assert!(s1.sections.contains_key("scxml-1"));
}

#[test]
fn normative_excerpt_write_path_parity() {
    const URL: &str = "https://example.com/s";
    const REV: &str = "rev";
    let good_hash = sha256_hex("spec text");
    let cases: &[(&str, &str)] = &[
        ("spec text", ""),
        ("   ", ""),
        ("spec text", good_hash.as_str()),
        ("spec text", "deadbeef"),
    ];
    for (text, hash) in cases {
        let mut s1 = AtomicStore::new();
        let mut e = imp("x", "docs/GENERATED.md", "T");
        e.normative_excerpt = Some(NormativeExcerpt {
            text: text.to_string(),
            anchor_url: URL.to_string(),
            source_revision: REV.to_string(),
            text_sha256: hash.to_string(),
        });
        let import_ok = import_sections(&mut s1, &vec![e]).is_ok();

        let mut s2 = AtomicStore::new();
        seed_excerpt(&mut s2, "x", "seed", URL, REV);
        let epub_ok = import_epub_excerpts(
            &mut s2,
            &vec![ExcerptImport {
                section_id: "x".into(),
                text: text.to_string(),
                text_sha256: hash.to_string(),
            }],
        )
        .is_ok();

        assert_eq!(
            import_ok, epub_ok,
            "write-path parity broken for (text={text:?}, hash={hash:?})"
        );
    }
}
