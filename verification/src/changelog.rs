//! Changelog entries: the frozen audit half, the publishable half that may
//! diverge from it, the hashes that anchor a divergence, and the ledger row
//! that records one.
use vstd::prelude::*;
use vstd::utf8::encode_utf8;
use crate::digest::{hex_of, sha256_hex_bytes};
use crate::error::{refusal, AtomicMutateError, Refusal};
use crate::model::{
    clone_opt, clone_strings, opt_eq, ostr, strings_eq, strs, AtomicChangelogEntry, AtomicStore,
    EntryView,
};
use crate::order::str_eq;
use crate::outside::{json_half_bytes, json_half_encoding, sha256_of};
use crate::text::{cat2, cat3, has_prefix, is_blank, is_blank_seq, owned, starts_with};
use crate::validate::{changelog_body_problem, check_changelog_entry_required};

verus! {

/// The publishable half copied from the audit half.
pub open spec fn with_audit_cloned(e: EntryView) -> EntryView {
    EntryView {
        publishable_decision_summary: e.decision_summary,
        publishable_changes_bullets: e.changes_bullets,
        publishable_verification_bullets: e.verification_bullets,
        publishable_impact_refs: e.impact_refs,
        publishable_carry_forward_bullets: e.carry_forward_bullets,
        ..e
    }
}

/// The publishable half equals the audit half, field by field.
pub open spec fn in_sync(e: EntryView) -> bool {
    &&& e.publishable_decision_summary == e.decision_summary
    &&& e.publishable_changes_bullets == e.changes_bullets
    &&& e.publishable_verification_bullets == e.verification_bullets
    &&& e.publishable_impact_refs == e.impact_refs
    &&& e.publishable_carry_forward_bullets == e.carry_forward_bullets
}

/// The names of the publishable fields that differ from their audit
/// counterpart, in ledger order.
pub open spec fn divergent_fields(e: EntryView) -> Seq<Seq<char>> {
    let a: Seq<Seq<char>> = if e.publishable_decision_summary != e.decision_summary {
        seq!["publishable_decision_summary"@]
    } else {
        Seq::empty()
    };
    let b: Seq<Seq<char>> = if e.publishable_changes_bullets != e.changes_bullets {
        a.push("publishable_changes_bullets"@)
    } else {
        a
    };
    let c: Seq<Seq<char>> = if e.publishable_verification_bullets != e.verification_bullets {
        b.push("publishable_verification_bullets"@)
    } else {
        b
    };
    let d: Seq<Seq<char>> = if e.publishable_impact_refs != e.impact_refs {
        c.push("publishable_impact_refs"@)
    } else {
        c
    };
    if e.publishable_carry_forward_bullets != e.carry_forward_bullets {
        d.push("publishable_carry_forward_bullets"@)
    } else {
        d
    }
}

/// Lowercase hex SHA-256 of the JSON object of the publishable half.
pub open spec fn publishable_hash_of(e: EntryView) -> Seq<char> {
    hex_of(
        sha256_of(
            json_half_encoding(
                "publishable_decision_summary"@,
                e.publishable_decision_summary,
                "publishable_changes_bullets"@,
                e.publishable_changes_bullets,
                "publishable_verification_bullets"@,
                e.publishable_verification_bullets,
                "publishable_impact_refs"@,
                e.publishable_impact_refs,
                "publishable_carry_forward_bullets"@,
                e.publishable_carry_forward_bullets,
            ),
        ),
    )
}

/// Lowercase hex SHA-256 of the JSON object of the audit half.
pub open spec fn audit_hash_of(e: EntryView) -> Seq<char> {
    hex_of(
        sha256_of(
            json_half_encoding(
                "decision_summary"@,
                e.decision_summary,
                "changes_bullets"@,
                e.changes_bullets,
                "verification_bullets"@,
                e.verification_bullets,
                "impact_refs"@,
                e.impact_refs,
                "carry_forward_bullets"@,
                e.carry_forward_bullets,
            ),
        ),
    )
}

impl AtomicChangelogEntry {
    /// Copy the audit half into the publishable half (idempotent).
    pub fn clone_audit_into_publishable(&mut self)
        ensures
            final(self).deep_view() == with_audit_cloned(old(self).deep_view()),
    {
        self.publishable_decision_summary = clone_opt(&self.decision_summary);
        self.publishable_changes_bullets = clone_strings(&self.changes_bullets);
        self.publishable_verification_bullets = clone_strings(&self.verification_bullets);
        self.publishable_impact_refs = clone_strings(&self.impact_refs);
        self.publishable_carry_forward_bullets = clone_strings(&self.carry_forward_bullets);
    }

    /// Whether the publishable half matches the audit half on all five fields.
    pub fn publishable_matches_audit(&self) -> (r: bool)
        ensures
            r == in_sync(self.deep_view()),
    {
        opt_eq(&self.publishable_decision_summary, &self.decision_summary) && strings_eq(
            &self.publishable_changes_bullets,
            &self.changes_bullets,
        ) && strings_eq(&self.publishable_verification_bullets, &self.verification_bullets)
            && strings_eq(&self.publishable_impact_refs, &self.impact_refs) && strings_eq(
            &self.publishable_carry_forward_bullets,
            &self.carry_forward_bullets,
        )
    }

    /// The publishable fields that diverge from the audit half, in ledger order.
    pub fn divergent_publishable_fields(&self) -> (r: Vec<&'static str>)
        ensures
            r@.map_values(|s: &'static str| s@) == divergent_fields(self.deep_view()),
    {
        let mut out: Vec<&'static str> = Vec::new();
        if !opt_eq(&self.publishable_decision_summary, &self.decision_summary) {
            out.push("publishable_decision_summary");
        }
        if !strings_eq(&self.publishable_changes_bullets, &self.changes_bullets) {
            out.push("publishable_changes_bullets");
        }
        if !strings_eq(&self.publishable_verification_bullets, &self.verification_bullets) {
            out.push("publishable_verification_bullets");
        }
        if !strings_eq(&self.publishable_impact_refs, &self.impact_refs) {
            out.push("publishable_impact_refs");
        }
        if !strings_eq(&self.publishable_carry_forward_bullets, &self.carry_forward_bullets) {
            out.push("publishable_carry_forward_bullets");
        }
        assert(out@.map_values(|s: &'static str| s@) =~= divergent_fields(self.deep_view()));
        out
    }

    /// Lowercase hex SHA-256 of the publishable half, serialized as a JSON
    /// object of its five fields: the anchor a ledger row records.
    pub fn publishable_hash_hex(&self) -> (r: String)
        ensures
            r@ == publishable_hash_of(self.deep_view()),
    {
        let bytes = json_half_bytes(
            "publishable_decision_summary",
            &self.publishable_decision_summary,
            "publishable_changes_bullets",
            &self.publishable_changes_bullets,
            "publishable_verification_bullets",
            &self.publishable_verification_bullets,
            "publishable_impact_refs",
            &self.publishable_impact_refs,
            "publishable_carry_forward_bullets",
            &self.publishable_carry_forward_bullets,
        );
        sha256_hex_bytes(bytes.as_slice())
    }

    /// Lowercase hex SHA-256 of the audit half, serialized the same way.
    pub fn audit_hash_hex(&self) -> (r: String)
        ensures
            r@ == audit_hash_of(self.deep_view()),
    {
        let bytes = json_half_bytes(
            "decision_summary",
            &self.decision_summary,
            "changes_bullets",
            &self.changes_bullets,
            "verification_bullets",
            &self.verification_bullets,
            "impact_refs",
            &self.impact_refs,
            "carry_forward_bullets",
            &self.carry_forward_bullets,
        );
        sha256_hex_bytes(bytes.as_slice())
    }
}

/// The audit-half fields of a new changelog entry, with its id.
#[derive(Debug, Clone, Copy)]
pub struct ChangelogEntryDraft<'a> {
    pub entry_id: &'a str,
    pub decision_summary: Option<&'a str>,
    pub changes_bullets: &'a Vec<String>,
    pub verification_bullets: &'a Vec<String>,
    pub impact_refs: &'a Vec<String>,
    pub carry_forward_bullets: &'a Vec<String>,
}

/// The entry a draft appends: the audit half as given, the publishable half
/// a copy of it.
pub open spec fn drafted_entry(d: ChangelogEntryDraft) -> EntryView {
    let summary = match d.decision_summary {
        Some(s) => Some(s@),
        None => None,
    };
    EntryView {
        decision_summary: summary,
        changes_bullets: strs(*d.changes_bullets),
        verification_bullets: strs(*d.verification_bullets),
        impact_refs: strs(*d.impact_refs),
        carry_forward_bullets: strs(*d.carry_forward_bullets),
        publishable_decision_summary: summary,
        publishable_changes_bullets: strs(*d.changes_bullets),
        publishable_verification_bullets: strs(*d.verification_bullets),
        publishable_impact_refs: strs(*d.impact_refs),
        publishable_carry_forward_bullets: strs(*d.carry_forward_bullets),
    }
}

/// The refusal of an append, or `None`: a blank id, then an id already in
/// the ledger, then an id without the configured prefix, then the body rules.
pub open spec fn append_problem(old: AtomicStore, d: ChangelogEntryDraft, prefix: Seq<char>) -> Option<
    Refusal,
> {
    let id = d.entry_id@;
    if is_blank_seq(id) {
        Some(Refusal::Validation("entry_id blank (Round 298 silent-accept gate)"@))
    } else if old.changelog_entries@.contains_key(id) {
        Some(
            Refusal::FrozenLedger(
                "entry_id `"@ + id
                    + "` already exists in atomic store; mutations to existing entries are forbidden (Round 161 §41 frozen ledger)"@,
            ),
        )
    } else if prefix.len() > 0 && !has_prefix(id, prefix) {
        Some(
            Refusal::Validation(
                "entry_id `"@ + id
                    + "` does not start with configured schema.entry_id_prefix `"@ + prefix
                    + "` (Round 424 conformance gate; set entry_id_prefix = \"\" to disable)"@,
            ),
        )
    } else {
        let p = changelog_body_problem(
            drafted_entry(d).decision_summary,
            strs(*d.changes_bullets),
            strs(*d.verification_bullets),
            strs(*d.impact_refs),
            strs(*d.carry_forward_bullets),
        );
        match p {
            Some(m) => Some(Refusal::Validation(m)),
            None => None,
        }
    }
}

/// Append a changelog entry. The ledger is frozen: an id already present is
/// refused, and no other primitive writes the audit half. A non-empty
/// `entry_id_prefix` gates new ids. The publishable half starts as a copy of
/// the audit half.
pub fn append_changelog_entry(
    store: &mut AtomicStore,
    draft: ChangelogEntryDraft<'_>,
    entry_id_prefix: &str,
) -> (r: Result<(), AtomicMutateError>)
    ensures
        final(store).wf(),
        ({
            let p = append_problem(*old(store), draft, entry_id_prefix@);
            match r {
                Ok(()) => {
                    &&& p is None
                    &&& final(store).entries_v() == old(store).entries_v().insert(
                        draft.entry_id@,
                        drafted_entry(draft),
                    )
                    &&& final(store).changelog_entries@.dom() == old(
                        store,
                    ).changelog_entries@.dom().insert(draft.entry_id@)
                    &&& forall|k: Seq<char>|
                        #[trigger] old(store).changelog_entries@.contains_key(k)
                            ==> final(store).changelog_entries@[k] == old(
                            store,
                        ).changelog_entries@[k]
                    &&& final(store).same_but_entries(*old(store))
                },
                Err(e) => *final(store) == *old(store) && p == Some(refusal(e)),
            }
        }),
{
    store.establish_wf();
    let entry_id = draft.entry_id;
    if is_blank(entry_id) {
        return Err(
            AtomicMutateError::Validation(owned("entry_id blank (Round 298 silent-accept gate)")),
        );
    }
    if store.changelog_entries.contains_key(entry_id) {
        return Err(
            AtomicMutateError::FrozenLedger(
                cat3(
                    "entry_id `",
                    entry_id,
                    "` already exists in atomic store; mutations to existing entries are forbidden (Round 161 §41 frozen ledger)",
                ),
            ),
        );
    }
    if entry_id_prefix.unicode_len() != 0 && !starts_with(entry_id, entry_id_prefix) {
        let mut m = cat3(
            "entry_id `",
            entry_id,
            "` does not start with configured schema.entry_id_prefix `",
        );
        m.append(entry_id_prefix);
        m.append("` (Round 424 conformance gate; set entry_id_prefix = \"\" to disable)");
        return Err(AtomicMutateError::Validation(m));
    }
    check_changelog_entry_required(
        draft.decision_summary,
        draft.changes_bullets,
        draft.verification_bullets,
        draft.impact_refs,
        draft.carry_forward_bullets,
    )?;
    let summary: Option<String> = match draft.decision_summary {
        Some(s) => Some(owned(s)),
        None => None,
    };
    let mut entry = AtomicChangelogEntry {
        decision_summary: summary,
        changes_bullets: clone_strings(draft.changes_bullets),
        verification_bullets: clone_strings(draft.verification_bullets),
        impact_refs: clone_strings(draft.impact_refs),
        carry_forward_bullets: clone_strings(draft.carry_forward_bullets),
        publishable_decision_summary: None,
        publishable_changes_bullets: Vec::new(),
        publishable_verification_bullets: Vec::new(),
        publishable_impact_refs: Vec::new(),
        publishable_carry_forward_bullets: Vec::new(),
    };
    entry.clone_audit_into_publishable();
    let ghost ev = entry.deep_view();
    store.changelog_entries.insert(owned(entry_id), entry);
    assert(final(store).entries_v() =~= old(store).entries_v().insert(draft.entry_id@, ev));
    Ok(())
}

/// The refusal of a publishable setter on an entry that is not in the store.
pub open spec fn entry_missing_msg(id: Seq<char>) -> Seq<char> {
    "entry_id `"@ + id
        + "` not present in atomic store (use append_changelog_entry to create it first)"@
}

/// Which publishable field a setter writes.
pub enum PublishableField {
    ChangesBullets,
    VerificationBullets,
    ImpactRefs,
    CarryForwardBullets,
}

/// `new` is `old` with only the entry at `id` changed, and only in its
/// publishable half.
pub open spec fn only_publishable_changed(old: AtomicStore, new: AtomicStore, id: Seq<char>) -> bool {
    let o = old.entries_v()[id];
    let n = new.entries_v()[id];
    &&& new.wf()
    &&& old.changelog_entries@.contains_key(id)
    &&& new.changelog_entries@.dom() == old.changelog_entries@.dom()
    &&& forall|k: Seq<char>|
        #[trigger] old.changelog_entries@.contains_key(k) && k != id
            ==> new.changelog_entries@[k] == old.changelog_entries@[k]
    &&& n.decision_summary == o.decision_summary
    &&& n.changes_bullets == o.changes_bullets
    &&& n.verification_bullets == o.verification_bullets
    &&& n.impact_refs == o.impact_refs
    &&& n.carry_forward_bullets == o.carry_forward_bullets
    &&& new.same_but_entries(old)
}

fn take_entry(store: &mut AtomicStore, id: &str) -> (r: Result<AtomicChangelogEntry, AtomicMutateError>)
    requires
        old(store).wf(),
    ensures
        final(store).wf(),
        match r {
            Ok(e) => {
                &&& old(store).changelog_entries@.contains_key(id@)
                &&& e == old(store).changelog_entries@[id@]
                &&& final(store).changelog_entries@ == old(store).changelog_entries@.remove(id@)
                &&& final(store).same_but_entries(*old(store))
            },
            Err(e) => {
                &&& !old(store).changelog_entries@.contains_key(id@)
                &&& refusal(e) == Refusal::NotFound(entry_missing_msg(id@))
                &&& *final(store) == *old(store)
            },
        },
{
    match store.changelog_entries.remove(id) {
        Some(e) => Ok(e),
        None => {
            let m = cat3(
                "entry_id `",
                id,
                "` not present in atomic store (use append_changelog_entry to create it first)",
            );
            Err(AtomicMutateError::NotFound(m))
        },
    }
}

/// Set the publishable decision summary of an existing entry; the audit half
/// is untouched.
pub fn set_changelog_publishable_decision_summary(
    store: &mut AtomicStore,
    entry_id: &str,
    summary: &str,
) -> (r: Result<(), AtomicMutateError>)
    ensures
        final(store).wf(),
        match r {
            Ok(()) => {
                let o = old(store).entries_v()[entry_id@];
                &&& only_publishable_changed(*old(store), *final(store), entry_id@)
                &&& final(store).entries_v()[entry_id@] == EntryView {
                    publishable_decision_summary: Some(summary@),
                    ..o
                }
            },
            Err(e) => {
                &&& *final(store) == *old(store)
                &&& !old(store).changelog_entries@.contains_key(entry_id@)
                &&& refusal(e) == Refusal::NotFound(entry_missing_msg(entry_id@))
            },
        },
{
    store.establish_wf();
    let mut e = take_entry(store, entry_id)?;
    e.publishable_decision_summary = Some(owned(summary));
    store.changelog_entries.insert(owned(entry_id), e);
    Ok(())
}

fn set_publishable_list(
    store: &mut AtomicStore,
    entry_id: &str,
    bullets: &Vec<String>,
    which: PublishableField,
) -> (r: Result<(), AtomicMutateError>)
    requires
        old(store).wf(),
    ensures
        final(store).wf(),
        match r {
            Ok(()) => {
                let o = old(store).entries_v()[entry_id@];
                let b = strs(*bullets);
                &&& only_publishable_changed(*old(store), *final(store), entry_id@)
                &&& final(store).entries_v()[entry_id@] == match which {
                    PublishableField::ChangesBullets => EntryView {
                        publishable_changes_bullets: b,
                        ..o
                    },
                    PublishableField::VerificationBullets => EntryView {
                        publishable_verification_bullets: b,
                        ..o
                    },
                    PublishableField::ImpactRefs => EntryView { publishable_impact_refs: b, ..o },
                    PublishableField::CarryForwardBullets => EntryView {
                        publishable_carry_forward_bullets: b,
                        ..o
                    },
                }
            },
            Err(e) => {
                &&& *final(store) == *old(store)
                &&& !old(store).changelog_entries@.contains_key(entry_id@)
                &&& refusal(e) == Refusal::NotFound(entry_missing_msg(entry_id@))
            },
        },
{
    let mut e = take_entry(store, entry_id)?;
    let copy = clone_strings(bullets);
    match which {
        PublishableField::ChangesBullets => {
            e.publishable_changes_bullets = copy;
        },
        PublishableField::VerificationBullets => {
            e.publishable_verification_bullets = copy;
        },
        PublishableField::ImpactRefs => {
            e.publishable_impact_refs = copy;
        },
        PublishableField::CarryForwardBullets => {
            e.publishable_carry_forward_bullets = copy;
        },
    }
    store.changelog_entries.insert(owned(entry_id), e);
    Ok(())
}

/// Set the publishable change bullets of an existing entry.
pub fn set_changelog_publishable_changes_bullets(
    store: &mut AtomicStore,
    entry_id: &str,
    bullets: &Vec<String>,
) -> (r: Result<(), AtomicMutateError>)
    ensures
        final(store).wf(),
        match r {
            Ok(()) => {
                &&& only_publishable_changed(*old(store), *final(store), entry_id@)
                &&& final(store).entries_v()[entry_id@] == EntryView {
                    publishable_changes_bullets: strs(*bullets),
                    ..old(store).entries_v()[entry_id@]
                }
            },
            Err(e) => {
                &&& *final(store) == *old(store)
                &&& !old(store).changelog_entries@.contains_key(entry_id@)
                &&& refusal(e) == Refusal::NotFound(entry_missing_msg(entry_id@))
            },
        },
{
    store.establish_wf();
    set_publishable_list(store, entry_id, bullets, PublishableField::ChangesBullets)
}

/// Set the publishable verification bullets of an existing entry.
pub fn set_changelog_publishable_verification_bullets(
    store: &mut AtomicStore,
    entry_id: &str,
    bullets: &Vec<String>,
) -> (r: Result<(), AtomicMutateError>)
    ensures
        final(store).wf(),
        match r {
            Ok(()) => {
                &&& only_publishable_changed(*old(store), *final(store), entry_id@)
                &&& final(store).entries_v()[entry_id@] == EntryView {
                    publishable_verification_bullets: strs(*bullets),
                    ..old(store).entries_v()[entry_id@]
                }
            },
            Err(e) => {
                &&& *final(store) == *old(store)
                &&& !old(store).changelog_entries@.contains_key(entry_id@)
                &&& refusal(e) == Refusal::NotFound(entry_missing_msg(entry_id@))
            },
        },
{
    store.establish_wf();
    set_publishable_list(store, entry_id, bullets, PublishableField::VerificationBullets)
}

/// Set the publishable impact refs of an existing entry.
pub fn set_changelog_publishable_impact_refs(
    store: &mut AtomicStore,
    entry_id: &str,
    refs: &Vec<String>,
) -> (r: Result<(), AtomicMutateError>)
    ensures
        final(store).wf(),
        match r {
            Ok(()) => {
                &&& only_publishable_changed(*old(store), *final(store), entry_id@)
                &&& final(store).entries_v()[entry_id@] == EntryView {
                    publishable_impact_refs: strs(*refs),
                    ..old(store).entries_v()[entry_id@]
                }
            },
            Err(e) => {
                &&& *final(store) == *old(store)
                &&& !old(store).changelog_entries@.contains_key(entry_id@)
                &&& refusal(e) == Refusal::NotFound(entry_missing_msg(entry_id@))
            },
        },
{
    store.establish_wf();
    set_publishable_list(store, entry_id, refs, PublishableField::ImpactRefs)
}

/// Set the publishable carry-forward bullets of an existing entry.
pub fn set_changelog_publishable_carry_forward_bullets(
    store: &mut AtomicStore,
    entry_id: &str,
    bullets: &Vec<String>,
) -> (r: Result<(), AtomicMutateError>)
    ensures
        final(store).wf(),
        match r {
            Ok(()) => {
                &&& only_publishable_changed(*old(store), *final(store), entry_id@)
                &&& final(store).entries_v()[entry_id@] == EntryView {
                    publishable_carry_forward_bullets: strs(*bullets),
                    ..old(store).entries_v()[entry_id@]
                }
            },
            Err(e) => {
                &&& *final(store) == *old(store)
                &&& !old(store).changelog_entries@.contains_key(entry_id@)
                &&& refusal(e) == Refusal::NotFound(entry_missing_msg(entry_id@))
            },
        },
{
    store.establish_wf();
    set_publishable_list(store, entry_id, bullets, PublishableField::CarryForwardBullets)
}

/// Each name in double quotes, joined by `", "`.
pub open spec fn quoted_join(fs: Seq<Seq<char>>) -> Seq<char>
    decreases fs.len(),
{
    if fs.len() == 0 {
        Seq::empty()
    } else if fs.len() == 1 {
        "\""@ + fs[0] + "\""@
    } else {
        quoted_join(fs.drop_last()) + ", "@ + "\""@ + fs.last() + "\""@
    }
}

/// A `[[publishable_override_ledger]]` TOML block.
pub open spec fn ledger_row(
    kind: Seq<char>,
    target_id: Seq<char>,
    fields: Seq<Seq<char>>,
    reason: Seq<char>,
    applied_in: Seq<char>,
    before: Seq<char>,
    after: Seq<char>,
) -> Seq<char> {
    "[[publishable_override_ledger]]\nkind = \""@ + kind + "\"\ntarget_id = \""@ + target_id
        + "\"\nfields = ["@ + quoted_join(fields) + "]\nreason = \""@ + reason
        + "\"\napplied_in = \""@ + applied_in + "\"\ncontent_hash_before = \""@ + before
        + "\"\ncontent_hash_after = \""@ + after + "\"\n"@
}

/// Render one `[[publishable_override_ledger]]` block.
pub fn format_ledger_row(
    kind: &str,
    target_id: &str,
    fields: &Vec<String>,
    reason: &str,
    applied_in: &str,
    content_hash_before: &str,
    content_hash_after: &str,
) -> (r: String)
    ensures
        r@ == ledger_row(
            kind@,
            target_id@,
            strs(*fields),
            reason@,
            applied_in@,
            content_hash_before@,
            content_hash_after@,
        ),
{
    let mut arr = String::new();
    let mut i: usize = 0;
    while i < fields.len()
        invariant
            i <= fields@.len(),
            arr@ == quoted_join(strs(*fields).subrange(0, i as int)),
        decreases fields@.len() - i,
    {
        proof {
            let s1 = strs(*fields).subrange(0, i + 1);
            assert(s1.drop_last() =~= strs(*fields).subrange(0, i as int));
        }
        let ghost before = arr@;
        if i > 0 {
            arr.append(", ");
        }
        arr.append("\"");
        arr.append(fields[i].as_str());
        arr.append("\"");
        proof {
            let s1 = strs(*fields).subrange(0, i + 1);
            assert(s1.last() == fields@[i as int]@);
            if i == 0 {
                assert(arr@ =~= "\""@ + s1[0] + "\""@);
            } else {
                assert(arr@ =~= before + ", "@ + "\""@ + s1.last() + "\""@);
            }
        }
        i = i + 1;
    }
    assert(strs(*fields).subrange(0, fields@.len() as int) =~= strs(*fields));
    let mut r = cat3("[[publishable_override_ledger]]\nkind = \"", kind, "\"\ntarget_id = \"");
    r.append(target_id);
    r.append("\"\nfields = [");
    r.append(arr.as_str());
    r.append("]\nreason = \"");
    r.append(reason);
    r.append("\"\napplied_in = \"");
    r.append(applied_in);
    r.append("\"\ncontent_hash_before = \"");
    r.append(content_hash_before);
    r.append("\"\ncontent_hash_after = \"");
    r.append(content_hash_after);
    r.append("\"\n");
    r
}

/// The ledger draft for an entry whose publishable half diverges from its
/// audit half (`None` when in sync): the divergent fields and both hashes.
/// Read-only.
pub fn emit_publishable_override_ledger_draft(
    store: &AtomicStore,
    entry_id: &str,
    reason: &str,
    applied_in: &str,
    kind: &str,
) -> (r: Result<Option<String>, AtomicMutateError>)
    ensures
        match r {
            Ok(None) => store.changelog_entries@.contains_key(entry_id@) && in_sync(
                store.entries_v()[entry_id@],
            ),
            Ok(Some(d)) => {
                let e = store.entries_v()[entry_id@];
                &&& store.changelog_entries@.contains_key(entry_id@)
                &&& !in_sync(e)
                &&& d@ == ledger_row(
                    kind@,
                    entry_id@,
                    divergent_fields(e),
                    reason@,
                    applied_in@,
                    audit_hash_of(e),
                    publishable_hash_of(e),
                )
            },
            Err(e) => !store.changelog_entries@.contains_key(entry_id@) && refusal(e)
                == Refusal::NotFound("entry_id `"@ + entry_id@ + "` not present in atomic store"@),
        },
{
    store.establish_wf();
    let entry = match store.changelog_entries.get(entry_id) {
        Some(e) => e,
        None => {
            return Err(
                AtomicMutateError::NotFound(
                    cat3("entry_id `", entry_id, "` not present in atomic store"),
                ),
            );
        },
    };
    if entry.publishable_matches_audit() {
        return Ok(None);
    }
    let names = entry.divergent_publishable_fields();
    let mut fields: Vec<String> = Vec::new();
    let mut i: usize = 0;
    while i < names.len()
        invariant
            i <= names@.len(),
            fields@.len() == i,
            forall|j: int| 0 <= j < i ==> (#[trigger] fields@[j])@ == names@[j]@,
        decreases names@.len() - i,
    {
        fields.push(owned(names[i]));
        i = i + 1;
    }
    assert(strs(fields) =~= names@.map_values(|s: &'static str| s@));
    let before = entry.audit_hash_hex();
    let after = entry.publishable_hash_hex();
    Ok(
        Some(
            format_ledger_row(
                kind,
                entry_id,
                &fields,
                reason,
                applied_in,
                before.as_str(),
                after.as_str(),
            ),
        ),
    )
}


/// Copying the audit half into the publishable half leaves the two halves in
/// sync, with no divergent field.
pub proof fn lemma_clone_brings_sync(e: EntryView)
    ensures
        in_sync(with_audit_cloned(e)),
        divergent_fields(with_audit_cloned(e)).len() == 0,
{
}

/// The halves are in sync exactly when no field diverges.
pub proof fn lemma_sync_iff_no_divergence(e: EntryView)
    ensures
        in_sync(e) <==> divergent_fields(e).len() == 0,
{
}

/// A freshly appended entry has its publishable half equal to its audit half.
pub proof fn lemma_appended_entry_in_sync(d: ChangelogEntryDraft)
    ensures
        in_sync(drafted_entry(d)),
        drafted_entry(d) == with_audit_cloned(drafted_entry(d)),
{
}

} // verus!
