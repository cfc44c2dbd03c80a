//! Section mutate primitives: each validates its input, requires the section
//! it acts on (or, for creation, its absence), and changes only that section.
use vstd::prelude::*;
use crate::digest::{sha256_hex, sha256_hex_of};
use crate::error::{mutate_msg, refusal, AtomicMutateError, Refusal};
use crate::model::{
    clone_opt, clone_strings, opt_eq, ostr, strings_eq, strs, AtomicSection, AtomicStore, Binding, BindingKind,
    CoverageExpectation, DecisionStatus, EpubLocator, ExampleBlock, NormativeExcerpt,
    RejectedAlternative, SectionSkeleton, SectionView, VerificationExpectation,
};
use crate::order::str_eq;
use crate::text::{
    cat2, cat3, decimal, has_prefix, is_blank, is_blank_seq, owned, strip_prefix, trim, trim_seq,
    usize_to_decimal,
};
use crate::validate::{
    binding_file_problem, binding_symbol_problem, bullets_len_problem, check_bullet_len,
    check_bullets_len, check_intent_len, intent_len_msg, strip_marker_seq, strip_section_marker,
    validate_binding_file, validate_binding_symbol,
};

verus! {

/// The refusal of a mutation on a section that is not in the store.
pub open spec fn section_missing_msg(id: Seq<char>) -> Seq<char> {
    "section_id `"@ + id + "` not present in atomic store (use add_section to create it first)"@
}

/// The shorter refusal the removal and binding primitives give.
pub open spec fn section_absent_msg(id: Seq<char>) -> Seq<char> {
    "section_id `"@ + id + "` not present in atomic store"@
}

/// `new` is `old` with the section at `id` (present in `old`) replaced, and
/// nothing else changed.
pub open spec fn only_section_changed(old: AtomicStore, new: AtomicStore, id: Seq<char>) -> bool {
    &&& new.wf()
    &&& old.sections@.contains_key(id)
    &&& new.sections@ =~= old.sections@.insert(id, new.sections@[id])
    &&& new.same_but_sections(old)
}

/// Remove the section at `id` so that it can be changed and put back.
fn take_section(store: &mut AtomicStore, id: &str) -> (r: Result<AtomicSection, AtomicMutateError>)
    requires
        old(store).wf(),
    ensures
        final(store).wf(),
        match r {
            Ok(s) => {
                &&& old(store).sections@.contains_key(id@)
                &&& s == old(store).sections@[id@]
                &&& final(store).sections@ == old(store).sections@.remove(id@)
                &&& final(store).same_but_sections(*old(store))
            },
            Err(e) => {
                &&& !old(store).sections@.contains_key(id@)
                &&& e is NotFound
                &&& mutate_msg(e) == section_missing_msg(id@)
                &&& *final(store) == *old(store)
            },
        },
{
    match store.sections.remove(id) {
        Some(s) => Ok(s),
        None => Err(
            AtomicMutateError::NotFound(
                cat3(
                    "section_id `",
                    id,
                    "` not present in atomic store (use add_section to create it first)",
                ),
            ),
        ),
    }
}

/// Put a section taken with [`take_section`] back under its key.
fn put_section(store: &mut AtomicStore, id: &str, s: AtomicSection)
    requires
        old(store).wf(),
    ensures
        final(store).wf(),
        final(store).sections@ == old(store).sections@.insert(id@, s),
        final(store).same_but_sections(*old(store)),
{
    store.sections.insert(owned(id), s);
}

/// Set a section's intent (at most [`crate::validate::MAX_INTENT_CHAR`] characters).
pub fn set_section_intent(store: &mut AtomicStore, section_id: &str, intent: &str) -> (r: Result<
    (),
    AtomicMutateError,
>)
    ensures
        final(store).wf(),
        match r {
            Ok(()) => {
                let s = final(store).sections@[section_id@];
                &&& intent@.len() <= 200
                &&& only_section_changed(*old(store), *final(store), section_id@)
                &&& s == AtomicSection { intent: s.intent, ..old(store).sections@[section_id@] }
                &&& ostr(s.intent) == Some(intent@)
            },
            Err(e) => {
                &&& *final(store) == *old(store)
                &&& if intent@.len() > 200 {
                    e is Validation && mutate_msg(e) == intent_len_msg(intent@.len())
                } else {
                    !old(store).sections@.contains_key(section_id@) && e is NotFound
                        && mutate_msg(e) == section_missing_msg(section_id@)
                }
            },
        },
{
    store.establish_wf();
    check_intent_len(intent)?;
    let mut s = take_section(store, section_id)?;
    s.intent = Some(owned(intent));
    put_section(store, section_id, s);
    Ok(())
}

/// Which bullet list of a section a bullet setter writes.
pub enum BulletField {
    Rationale,
    Inputs,
    Outputs,
}

/// Set one bullet list of a section; every bullet is checked against the
/// bullet threshold first, under the field's label.
fn set_section_bullets(
    store: &mut AtomicStore,
    section_id: &str,
    bullets: &Vec<String>,
    which: BulletField,
    label: &str,
) -> (r: Result<(), AtomicMutateError>)
    requires
        old(store).wf(),
    ensures
        final(store).wf(),
        match r {
            Ok(()) => {
                let s = final(store).sections@[section_id@];
                let o = old(store).sections@[section_id@];
                &&& bullets_len_problem(label@, strs(*bullets)) is None
                &&& only_section_changed(*old(store), *final(store), section_id@)
                &&& match which {
                    BulletField::Rationale => s == AtomicSection {
                        rationale_bullets: s.rationale_bullets,
                        ..o
                    } && strs(s.rationale_bullets) == strs(*bullets),
                    BulletField::Inputs => s == AtomicSection {
                        inputs_bullets: s.inputs_bullets,
                        ..o
                    } && strs(s.inputs_bullets) == strs(*bullets),
                    BulletField::Outputs => s == AtomicSection {
                        outputs_bullets: s.outputs_bullets,
                        ..o
                    } && strs(s.outputs_bullets) == strs(*bullets),
                }
            },
            Err(e) => {
                &&& *final(store) == *old(store)
                &&& if bullets_len_problem(label@, strs(*bullets)) is Some {
                    e is Validation && Some(mutate_msg(e)) == bullets_len_problem(
                        label@,
                        strs(*bullets),
                    )
                } else {
                    !old(store).sections@.contains_key(section_id@) && e is NotFound
                        && mutate_msg(e) == section_missing_msg(section_id@)
                }
            },
        },
{
    check_bullets_len(bullets, label)?;
    let mut s = take_section(store, section_id)?;
    let copy = clone_strings(bullets);
    match which {
        BulletField::Rationale => {
            s.rationale_bullets = copy;
        },
        BulletField::Inputs => {
            s.inputs_bullets = copy;
        },
        BulletField::Outputs => {
            s.outputs_bullets = copy;
        },
    }
    put_section(store, section_id, s);
    Ok(())
}

/// Set a section's rationale bullets.
pub fn set_section_rationale(
    store: &mut AtomicStore,
    section_id: &str,
    bullets: &Vec<String>,
) -> (r: Result<(), AtomicMutateError>)
    ensures
        final(store).wf(),
        match r {
            Ok(()) => {
                let s = final(store).sections@[section_id@];
                &&& bullets_len_problem("rationale"@, strs(*bullets)) is None
                &&& only_section_changed(*old(store), *final(store), section_id@)
                &&& s == AtomicSection {
                    rationale_bullets: s.rationale_bullets,
                    ..old(store).sections@[section_id@]
                }
                &&& strs(s.rationale_bullets) == strs(*bullets)
            },
            Err(e) => {
                &&& *final(store) == *old(store)
                &&& if bullets_len_problem("rationale"@, strs(*bullets)) is Some {
                    e is Validation && Some(mutate_msg(e)) == bullets_len_problem(
                        "rationale"@,
                        strs(*bullets),
                    )
                } else {
                    !old(store).sections@.contains_key(section_id@) && e is NotFound
                        && mutate_msg(e) == section_missing_msg(section_id@)
                }
            },
        },
{
    store.establish_wf();
    set_section_bullets(store, section_id, bullets, BulletField::Rationale, "rationale")
}

/// Set a section's input bullets.
pub fn set_section_inputs(store: &mut AtomicStore, section_id: &str, bullets: &Vec<String>) -> (r:
    Result<(), AtomicMutateError>)
    ensures
        final(store).wf(),
        match r {
            Ok(()) => {
                let s = final(store).sections@[section_id@];
                &&& bullets_len_problem("inputs"@, strs(*bullets)) is None
                &&& only_section_changed(*old(store), *final(store), section_id@)
                &&& s == AtomicSection {
                    inputs_bullets: s.inputs_bullets,
                    ..old(store).sections@[section_id@]
                }
                &&& strs(s.inputs_bullets) == strs(*bullets)
            },
            Err(e) => {
                &&& *final(store) == *old(store)
                &&& if bullets_len_problem("inputs"@, strs(*bullets)) is Some {
                    e is Validation && Some(mutate_msg(e)) == bullets_len_problem(
                        "inputs"@,
                        strs(*bullets),
                    )
                } else {
                    !old(store).sections@.contains_key(section_id@) && e is NotFound
                        && mutate_msg(e) == section_missing_msg(section_id@)
                }
            },
        },
{
    store.establish_wf();
    set_section_bullets(store, section_id, bullets, BulletField::Inputs, "inputs")
}

/// Set a section's output bullets.
pub fn set_section_outputs(
    store: &mut AtomicStore,
    section_id: &str,
    bullets: &Vec<String>,
) -> (r: Result<(), AtomicMutateError>)
    ensures
        final(store).wf(),
        match r {
            Ok(()) => {
                let s = final(store).sections@[section_id@];
                &&& bullets_len_problem("outputs"@, strs(*bullets)) is None
                &&& only_section_changed(*old(store), *final(store), section_id@)
                &&& s == AtomicSection {
                    outputs_bullets: s.outputs_bullets,
                    ..old(store).sections@[section_id@]
                }
                &&& strs(s.outputs_bullets) == strs(*bullets)
            },
            Err(e) => {
                &&& *final(store) == *old(store)
                &&& if bullets_len_problem("outputs"@, strs(*bullets)) is Some {
                    e is Validation && Some(mutate_msg(e)) == bullets_len_problem(
                        "outputs"@,
                        strs(*bullets),
                    )
                } else {
                    !old(store).sections@.contains_key(section_id@) && e is NotFound
                        && mutate_msg(e) == section_missing_msg(section_id@)
                }
            },
        },
{
    store.establish_wf();
    set_section_bullets(store, section_id, bullets, BulletField::Outputs, "outputs")
}

/// Append one caveat bullet to a section.
pub fn add_section_caveat(store: &mut AtomicStore, section_id: &str, bullet: &str) -> (r: Result<
    (),
    AtomicMutateError,
>)
    ensures
        final(store).wf(),
        match r {
            Ok(()) => {
                let s = final(store).sections@[section_id@];
                let o = old(store).sections@[section_id@];
                &&& bullet@.len() <= 100
                &&& only_section_changed(*old(store), *final(store), section_id@)
                &&& s == AtomicSection { caveats_bullets: s.caveats_bullets, ..o }
                &&& strs(s.caveats_bullets) == strs(o.caveats_bullets).push(bullet@)
            },
            Err(e) => {
                &&& *final(store) == *old(store)
                &&& if bullet@.len() > 100 {
                    e is Validation
                } else {
                    !old(store).sections@.contains_key(section_id@) && e is NotFound
                        && mutate_msg(e) == section_missing_msg(section_id@)
                }
            },
        },
{
    store.establish_wf();
    check_bullet_len(bullet, "caveats")?;
    let mut s = take_section(store, section_id)?;
    s.caveats_bullets.push(owned(bullet));
    assert(strs(s.caveats_bullets) =~= strs(old(store).sections@[section_id@].caveats_bullets).push(
        bullet@,
    ));
    put_section(store, section_id, s);
    Ok(())
}

/// A copy of a list of rejected alternatives.
fn clone_alternatives(v: &Vec<RejectedAlternative>) -> (r: Vec<RejectedAlternative>)
    ensures
        r.deep_view() == v.deep_view(),
{
    let mut r: Vec<RejectedAlternative> = Vec::new();
    let mut i: usize = 0;
    while i < v.len()
        invariant
            i <= v.len(),
            r@.len() == i,
            forall|j: int| 0 <= j < i ==> (#[trigger] r@[j]).deep_view() == v@[j].deep_view(),
        decreases v.len() - i,
    {
        let a = &v[i];
        r.push(RejectedAlternative { alternative: a.alternative.clone(), reason: a.reason.clone() });
        i = i + 1;
    }
    assert(r.deep_view() =~= v.deep_view());
    r
}

/// Replace a section's rejected alternatives.
pub fn set_section_alternatives(
    store: &mut AtomicStore,
    section_id: &str,
    alternatives: &Vec<RejectedAlternative>,
) -> (r: Result<(), AtomicMutateError>)
    ensures
        final(store).wf(),
        match r {
            Ok(()) => {
                let s = final(store).sections@[section_id@];
                &&& only_section_changed(*old(store), *final(store), section_id@)
                &&& s == AtomicSection {
                    alternatives_rejected: s.alternatives_rejected,
                    ..old(store).sections@[section_id@]
                }
                &&& s.alternatives_rejected.deep_view() == alternatives.deep_view()
            },
            Err(e) => {
                &&& *final(store) == *old(store)
                &&& !old(store).sections@.contains_key(section_id@)
                &&& e is NotFound && mutate_msg(e) == section_missing_msg(section_id@)
            },
        },
{
    store.establish_wf();
    let mut s = take_section(store, section_id)?;
    s.alternatives_rejected = clone_alternatives(alternatives);
    put_section(store, section_id, s);
    Ok(())
}

/// Replace a section's outbound cross-refs.
pub fn set_section_impact_scope(store: &mut AtomicStore, section_id: &str, refs: &Vec<String>) -> (r:
    Result<(), AtomicMutateError>)
    ensures
        final(store).wf(),
        match r {
            Ok(()) => {
                let s = final(store).sections@[section_id@];
                &&& only_section_changed(*old(store), *final(store), section_id@)
                &&& s == AtomicSection {
                    impact_scope: s.impact_scope,
                    ..old(store).sections@[section_id@]
                }
                &&& strs(s.impact_scope) == strs(*refs)
            },
            Err(e) => {
                &&& *final(store) == *old(store)
                &&& !old(store).sections@.contains_key(section_id@)
                &&& e is NotFound && mutate_msg(e) == section_missing_msg(section_id@)
            },
        },
{
    store.establish_wf();
    let mut s = take_section(store, section_id)?;
    s.impact_scope = clone_strings(refs);
    put_section(store, section_id, s);
    Ok(())
}

/// Append one example block to a section.
pub fn add_section_example(store: &mut AtomicStore, section_id: &str, example: ExampleBlock) -> (r:
    Result<(), AtomicMutateError>)
    ensures
        final(store).wf(),
        match r {
            Ok(()) => {
                let s = final(store).sections@[section_id@];
                let o = old(store).sections@[section_id@];
                &&& only_section_changed(*old(store), *final(store), section_id@)
                &&& s == AtomicSection { examples: s.examples, ..o }
                &&& s.examples@ == o.examples@.push(example)
            },
            Err(e) => {
                &&& *final(store) == *old(store)
                &&& !old(store).sections@.contains_key(section_id@)
                &&& e is NotFound && mutate_msg(e) == section_missing_msg(section_id@)
            },
        },
{
    store.establish_wf();
    let mut s = take_section(store, section_id)?;
    s.examples.push(example);
    put_section(store, section_id, s);
    Ok(())
}

/// Remove a section. The reason must not be blank.
pub fn remove_section(store: &mut AtomicStore, section_id: &str, reason: &str) -> (r: Result<
    (),
    AtomicMutateError,
>)
    ensures
        final(store).wf(),
        match r {
            Ok(()) => {
                &&& !is_blank_seq(reason@)
                &&& old(store).sections@.contains_key(section_id@)
                &&& final(store).sections@ == old(store).sections@.remove(section_id@)
                &&& final(store).same_but_sections(*old(store))
            },
            Err(e) => {
                &&& *final(store) == *old(store)
                &&& if is_blank_seq(reason@) {
                    e is Validation && mutate_msg(e)
                        == "remove_section: --reason mandatory (audit-trail safeguard)"@
                } else {
                    !old(store).sections@.contains_key(section_id@) && e is NotFound
                        && mutate_msg(e) == section_absent_msg(section_id@)
                }
            },
        },
{
    store.establish_wf();
    if is_blank(reason) {
        return Err(
            AtomicMutateError::Validation(
                owned("remove_section: --reason mandatory (audit-trail safeguard)"),
            ),
        );
    }
    match store.sections.remove(section_id) {
        Some(_) => Ok(()),
        None => Err(
            AtomicMutateError::NotFound(
                cat3("section_id `", section_id, "` not present in atomic store"),
            ),
        ),
    }
}

/// `anchor_url` is an absolute `http(s)://` URL with a non-empty host.
pub open spec fn url_has_host(u: Seq<char>) -> bool {
    let rest = if has_prefix(u, "https://"@) {
        Some(u.subrange("https://"@.len() as int, u.len() as int))
    } else if has_prefix(u, "http://"@) {
        Some(u.subrange("http://"@.len() as int, u.len() as int))
    } else {
        None
    };
    match rest {
        Some(r) => r.len() > 0 && r[0] != '/' && r[0] != '?' && r[0] != '#',
        None => false,
    }
}

/// Drop trailing newlines (`str::trim_end_matches('\n')`).
pub open spec fn trim_end_newlines(s: Seq<char>) -> Seq<char>
    decreases s.len(),
{
    if s.len() > 0 && s.last() == '\n' {
        trim_end_newlines(s.drop_last())
    } else {
        s
    }
}

/// The excerpt the four fields describe, or the refusal of the first rule
/// they break.
pub open spec fn normative_excerpt_outcome(
    text: Seq<char>,
    anchor_url: Seq<char>,
    source_revision: Seq<char>,
    text_sha256: Seq<char>,
) -> Result<(Seq<char>, Seq<char>, Seq<char>, Seq<char>), Seq<char>> {
    let stored = trim_end_newlines(text);
    let hash = trim_seq(text_sha256);
    if is_blank_seq(text) {
        Err("normative_excerpt text blank or whitespace-only"@)
    } else if is_blank_seq(source_revision) {
        Err("normative_excerpt source_revision blank or whitespace-only"@)
    } else if !url_has_host(anchor_url) {
        Err(
            "normative_excerpt anchor_url `"@ + anchor_url
                + "` must be an absolute http(s):// URL with a host"@,
        )
    } else if hash.len() != 0 && sha256_hex_of(stored) != hash {
        Err(
            "normative_excerpt text_sha256 mismatch: declared `"@ + hash + "` != sha256(text) `"@
                + sha256_hex_of(stored)
                + "` — the cached text does not match its EPUB-extracted hash"@,
        )
    } else {
        Ok((stored, anchor_url, source_revision, hash))
    }
}

/// `str::trim_end_matches('\n')`, owned.
fn trim_end_newline_chars(s: &str) -> (r: String)
    ensures
        r@ == trim_end_newlines(s@),
{
    let n = s.unicode_len();
    let mut j: usize = n;
    assert(s@.subrange(0, n as int) =~= s@);
    while j > 0 && s.get_char(j - 1) == '\n'
        invariant
            j <= n,
            n == s@.len(),
            trim_end_newlines(s@) == trim_end_newlines(s@.subrange(0, j as int)),
        decreases j,
    {
        assert(s@.subrange(0, j as int).drop_last() =~= s@.subrange(0, j - 1));
        j = j - 1;
    }
    s.substring_char(0, j).to_owned()
}

/// Whether the URL has an `http(s)://` scheme and a non-empty host.
fn check_url_host(u: &str) -> (r: bool)
    ensures
        r == url_has_host(u@),
{
    let rest = match strip_prefix(u, "https://") {
        Some(r) => r,
        None => match strip_prefix(u, "http://") {
            Some(r) => r,
            None => {
                return false;
            },
        },
    };
    let rs = rest.as_str();
    if rs.unicode_len() == 0 {
        return false;
    }
    let c = rs.get_char(0);
    c != '/' && c != '?' && c != '#'
}

/// Validate the four normative-excerpt fields and build the excerpt: the
/// text is stored without trailing newlines, and a non-empty declared hash
/// must equal the SHA-256 of the stored text.
pub fn build_normative_excerpt(
    text: &str,
    anchor_url: &str,
    source_revision: &str,
    text_sha256: &str,
) -> (r: Result<NormativeExcerpt, AtomicMutateError>)
    ensures
        match r {
            Ok(ne) => normative_excerpt_outcome(text@, anchor_url@, source_revision@, text_sha256@)
                == Ok::<_, Seq<char>>(ne.deep_view()),
            Err(e) => e is Validation && normative_excerpt_outcome(
                text@,
                anchor_url@,
                source_revision@,
                text_sha256@,
            ) == Err::<(Seq<char>, Seq<char>, Seq<char>, Seq<char>), _>(mutate_msg(e)),
        },
{
    if is_blank(text) {
        return Err(
            AtomicMutateError::Validation(owned("normative_excerpt text blank or whitespace-only")),
        );
    }
    if is_blank(source_revision) {
        return Err(
            AtomicMutateError::Validation(
                owned("normative_excerpt source_revision blank or whitespace-only"),
            ),
        );
    }
    if !check_url_host(anchor_url) {
        return Err(
            AtomicMutateError::Validation(
                cat3(
                    "normative_excerpt anchor_url `",
                    anchor_url,
                    "` must be an absolute http(s):// URL with a host",
                ),
            ),
        );
    }
    let stored = trim_end_newline_chars(text);
    let hash = trim(text_sha256);
    if hash.as_str().unicode_len() != 0 {
        let computed = sha256_hex(stored.as_str());
        if !str_eq(computed.as_str(), hash.as_str()) {
            let mut m = cat3(
                "normative_excerpt text_sha256 mismatch: declared `",
                hash.as_str(),
                "` != sha256(text) `",
            );
            m.append(computed.as_str());
            m.append("` — the cached text does not match its EPUB-extracted hash");
            return Err(AtomicMutateError::Validation(m));
        }
    }
    Ok(
        NormativeExcerpt {
            text: stored,
            anchor_url: owned(anchor_url),
            source_revision: owned(source_revision),
            text_sha256: hash,
        },
    )
}

} // verus!

verus! {

/// A section as it stands right after creation: the outline, `Active`, the
/// given excerpt and coverage, and nothing else.
pub open spec fn fresh_section(
    title: Seq<char>,
    parent_doc: Seq<char>,
    parent: Option<Seq<char>>,
    excerpt: Option<(Seq<char>, Seq<char>, Seq<char>, Seq<char>)>,
    coverage: CoverageExpectation,
) -> SectionView {
    SectionView {
        title: title,
        parent_doc: parent_doc,
        parent_section: parent,
        decision_status: Some(DecisionStatus::Active),
        intent: None,
        rationale_bullets: Seq::empty(),
        inputs_bullets: Seq::empty(),
        outputs_bullets: Seq::empty(),
        caveats_bullets: Seq::empty(),
        alternatives_rejected: Seq::empty(),
        impact_scope: Seq::empty(),
        superseded_by: None,
        resolved_by: None,
        examples: Seq::empty(),
        bindings: Seq::empty(),
        coverage_expectation: coverage,
        verification_expectation: VerificationExpectation::Dedicated,
        normative_excerpt: excerpt,
        epub_locator: None,
    }
}

/// A section id as stored: trimmed, one leading `§` stripped, trimmed again.
pub open spec fn normalized_id(raw: Seq<char>) -> Seq<char> {
    trim_seq(strip_marker_seq(trim_seq(raw)))
}

/// The key and contents of the section the inputs create, or the refusal of
/// the first rule they break. `dom` holds the section ids already present.
pub open spec fn candidate_outcome(
    dom: Set<Seq<char>>,
    section_id: Seq<char>,
    parent_doc: Seq<char>,
    title: Seq<char>,
    parent_section: Option<Seq<char>>,
    excerpt: Option<(Seq<char>, Seq<char>, Seq<char>, Seq<char>)>,
    coverage: CoverageExpectation,
) -> Result<(Seq<char>, SectionView), Refusal> {
    let id_t = normalized_id(section_id);
    let pd_t = trim_seq(parent_doc);
    let title_t = trim_seq(title);
    if id_t.len() == 0 {
        Err(Refusal::Validation("section_id mandatory (non-empty after trim)"@))
    } else if pd_t.len() == 0 {
        Err(Refusal::Validation("parent_doc mandatory (non-empty after trim)"@))
    } else if title_t.len() == 0 {
        Err(Refusal::Validation("title mandatory (non-empty after trim)"@))
    } else {
        let parent: Result<Option<Seq<char>>, Refusal> = match parent_section {
            None => Ok(None),
            Some(p) => {
                let p_t = normalized_id(p);
                if p_t.len() == 0 {
                    Err(Refusal::Validation("parent_section must be None or non-empty"@))
                } else if !dom.contains(p_t) {
                    Err(
                        Refusal::NotFound(
                            "parent_section `"@ + p_t + "` not present in atomic store"@,
                        ),
                    )
                } else {
                    Ok(Some(p_t))
                }
            },
        };
        match parent {
            Err(x) => Err(x),
            Ok(pn) => match excerpt {
                None => Ok((id_t, fresh_section(title_t, pd_t, pn, None, coverage))),
                Some((t, a, s, h)) => match normative_excerpt_outcome(t, a, s, h) {
                    Err(m) => Err(Refusal::Validation(m)),
                    Ok(ne) => Ok((id_t, fresh_section(title_t, pd_t, pn, Some(ne), coverage))),
                },
            },
        }
    }
}

/// The characters of each of four optional strings.
pub open spec fn excerpt_args_view(e: Option<(&str, &str, &str, &str)>) -> Option<
    (Seq<char>, Seq<char>, Seq<char>, Seq<char>),
> {
    match e {
        Some((t, a, s, h)) => Some((t@, a@, s@, h@)),
        None => None,
    }
}

/// The characters of an optional borrowed string.
pub open spec fn ostr_ref(o: Option<&str>) -> Option<Seq<char>> {
    match o {
        Some(s) => Some(s@),
        None => None,
    }
}

/// Validate and build a new section without inserting it: the single
/// section-create path both [`add_section`] and [`import_sections`] use.
pub fn build_candidate_section(
    store: &AtomicStore,
    section_id: &str,
    parent_doc: &str,
    title: &str,
    parent_section: Option<&str>,
    normative_excerpt: Option<(&str, &str, &str, &str)>,
    coverage_expectation: CoverageExpectation,
) -> (r: Result<(String, AtomicSection), AtomicMutateError>)
    ensures
        match r {
            Ok((id, s)) => candidate_outcome(
                store.sections@.dom(),
                section_id@,
                parent_doc@,
                title@,
                ostr_ref(parent_section),
                excerpt_args_view(normative_excerpt),
                coverage_expectation,
            ) == Ok::<_, Refusal>((id@, s.deep_view())),
            Err(e) => candidate_outcome(
                store.sections@.dom(),
                section_id@,
                parent_doc@,
                title@,
                ostr_ref(parent_section),
                excerpt_args_view(normative_excerpt),
                coverage_expectation,
            ) == Err::<(Seq<char>, SectionView), _>(refusal(e)),
        },
{
    store.establish_wf();
    let a = trim(section_id);
    let b = strip_section_marker(a.as_str());
    let id_t = trim(b.as_str());
    let pd_t = trim(parent_doc);
    let title_t = trim(title);
    if id_t.as_str().unicode_len() == 0 {
        return Err(AtomicMutateError::Validation(owned("section_id mandatory (non-empty after trim)")));
    }
    if pd_t.as_str().unicode_len() == 0 {
        return Err(AtomicMutateError::Validation(owned("parent_doc mandatory (non-empty after trim)")));
    }
    if title_t.as_str().unicode_len() == 0 {
        return Err(AtomicMutateError::Validation(owned("title mandatory (non-empty after trim)")));
    }
    let parent_norm: Option<String> = match parent_section {
        None => None,
        Some(p) => {
            let pa = trim(p);
            let pb = strip_section_marker(pa.as_str());
            let p_t = trim(pb.as_str());
            if p_t.as_str().unicode_len() == 0 {
                return Err(
                    AtomicMutateError::Validation(owned("parent_section must be None or non-empty")),
                );
            }
            if !store.sections.contains_key(p_t.as_str()) {
                return Err(
                    AtomicMutateError::NotFound(
                        cat3("parent_section `", p_t.as_str(), "` not present in atomic store"),
                    ),
                );
            }
            Some(p_t)
        },
    };
    let excerpt = match normative_excerpt {
        Some((t, u, s, h)) => Some(build_normative_excerpt(t, u, s, h)?),
        None => None,
    };
    let section = AtomicSection {
        skeleton: SectionSkeleton {
            title: title_t,
            parent_doc: pd_t,
            parent_section: parent_norm,
            decision_status: Some(DecisionStatus::Active),
        },
        intent: None,
        rationale_bullets: Vec::new(),
        inputs_bullets: Vec::new(),
        outputs_bullets: Vec::new(),
        caveats_bullets: Vec::new(),
        alternatives_rejected: Vec::new(),
        impact_scope: Vec::new(),
        superseded_by: None,
        resolved_by: None,
        examples: Vec::new(),
        bindings: Vec::new(),
        coverage_expectation,
        verification_expectation: VerificationExpectation::Dedicated,
        normative_excerpt: excerpt,
        epub_locator: None,
    };
    assert(section.deep_view().rationale_bullets =~= Seq::<Seq<char>>::empty());
    assert(section.deep_view().inputs_bullets =~= Seq::<Seq<char>>::empty());
    assert(section.deep_view().outputs_bullets =~= Seq::<Seq<char>>::empty());
    assert(section.deep_view().caveats_bullets =~= Seq::<Seq<char>>::empty());
    assert(section.deep_view().impact_scope =~= Seq::<Seq<char>>::empty());
    assert(section.deep_view().alternatives_rejected =~= Seq::<(Seq<char>, Seq<char>)>::empty());
    assert(section.deep_view().examples =~= Seq::<(Seq<char>, Seq<char>)>::empty());
    assert(section.deep_view().bindings =~= Seq::<
        (Seq<char>, Option<Seq<char>>, BindingKind),
    >::empty());
    Ok((id_t, section))
}

/// Create a section: the outline shell, explicitly `Active` and `Normative`.
/// The normalized id must not be in the store yet.
pub fn add_section(
    store: &mut AtomicStore,
    section_id: &str,
    parent_doc: &str,
    title: &str,
    parent_section: Option<&str>,
) -> (r: Result<String, AtomicMutateError>)
    ensures
        final(store).wf(),
        ({
            let c = candidate_outcome(
                old(store).sections@.dom(),
                section_id@,
                parent_doc@,
                title@,
                ostr_ref(parent_section),
                None,
                CoverageExpectation::Normative,
            );
            match r {
                Ok(id) => {
                    &&& c matches Ok((cid, sv)) && cid == id@
                        && final(store).sections_v() == old(store).sections_v().insert(cid, sv)
                    &&& !old(store).sections@.contains_key(id@)
                    &&& final(store).sections@.dom() == old(store).sections@.dom().insert(id@)
                    &&& forall|k: Seq<char>| #[trigger]
                        old(store).sections@.contains_key(k) ==> final(store).sections@[k]
                            == old(store).sections@[k]
                    &&& final(store).same_but_sections(*old(store))
                },
                Err(e) => {
                    &&& *final(store) == *old(store)
                    &&& match c {
                        Err(x) => refusal(e) == x,
                        Ok((cid, _)) => old(store).sections@.contains_key(cid) && refusal(e)
                            == Refusal::Validation(
                            "add_section: section_id `"@ + cid
                                + "` already exists in atomic store (use set_section_* primitives to mutate)"@,
                        ),
                    }
                },
            }
        }),
{
    store.establish_wf();
    let (id_t, section) = build_candidate_section(
        store,
        section_id,
        parent_doc,
        title,
        parent_section,
        None,
        CoverageExpectation::Normative,
    )?;
    if store.sections.contains_key(id_t.as_str()) {
        return Err(
            AtomicMutateError::Validation(
                cat3(
                    "add_section: section_id `",
                    id_t.as_str(),
                    "` already exists in atomic store (use set_section_* primitives to mutate)",
                ),
            ),
        );
    }
    let ghost sv = section.deep_view();
    let ret = owned(id_t.as_str());
    store.sections.insert(id_t, section);
    assert(final(store).sections_v() =~= old(store).sections_v().insert(ret@, sv));
    Ok(ret)
}

} // verus!

verus! {

/// One manifest entry for [`import_sections`].
#[derive(Debug, Clone, PartialEq, Eq)]
pub struct SectionImport {
    pub section_id: String,
    pub parent_doc: String,
    pub title: String,
    pub parent_section: Option<String>,
    pub normative_excerpt: Option<NormativeExcerpt>,
    pub coverage_expectation: CoverageExpectation,
}

/// What a bulk section import did.
#[derive(Debug, Clone, PartialEq, Eq)]
pub struct SectionImportOutcome {
    pub created: usize,
    pub no_op: usize,
    /// `"{created} created, {no_op} no-op"`.
    pub summary: String,
}

/// The refusal of manifest entry `idx`, wrapping the refusal of its build.
pub open spec fn entry_refusal(idx: nat, inner: Refusal) -> Refusal {
    let text = match inner {
        Refusal::Validation(m) => "validation: "@ + m,
        Refusal::NotFound(m) => "not found: "@ + m,
        Refusal::FrozenLedger(m) => "frozen ledger: "@ + m,
        Refusal::Store => Seq::empty(),
    };
    Refusal::Validation("import_sections: manifest entry "@ + decimal(idx) + ": "@ + text)
}

/// One manifest entry applied to the sections: created (`true`), an
/// identical no-op (`false`), or refused.
pub open spec fn import_step(m: Map<Seq<char>, SectionView>, e: SectionImport, idx: nat) -> Result<
    (Map<Seq<char>, SectionView>, bool),
    Refusal,
> {
    match candidate_outcome(
        m.dom(),
        e.section_id@,
        e.parent_doc@,
        e.title@,
        ostr(e.parent_section),
        e.normative_excerpt.deep_view(),
        e.coverage_expectation,
    ) {
        Err(x) => Err(entry_refusal(idx, x)),
        Ok((id, sv)) => if !m.contains_key(id) {
            Ok((m.insert(id, sv), true))
        } else if m[id] == sv {
            Ok((m, false))
        } else {
            Err(
                Refusal::Validation(
                    "import_sections: manifest entry "@ + decimal(idx) + " section_id `"@ + id
                        + "` already exists with DIVERGENT content — refusing silent overwrite (supersede + re-create to revise)"@,
                ),
            )
        },
    }
}

/// The first `n` manifest entries applied in order: the sections, the created
/// count and the no-op count, or the first refusal.
pub open spec fn import_prefix(m0: Map<Seq<char>, SectionView>, es: Seq<SectionImport>, n: nat) -> Result<
    (Map<Seq<char>, SectionView>, nat, nat),
    Refusal,
>
    decreases n,
{
    if n == 0 {
        Ok((m0, 0, 0))
    } else {
        match import_prefix(m0, es, (n - 1) as nat) {
            Err(x) => Err(x),
            Ok((m, c, k)) => match import_step(m, es[n - 1], (n - 1) as nat) {
                Err(x) => Err(x),
                Ok((m2, created)) => if created {
                    Ok((m2, c + 1, k))
                } else {
                    Ok((m2, c, k + 1))
                },
            },
        }
    }
}

proof fn lemma_import_err_sticks(
    m0: Map<Seq<char>, SectionView>,
    es: Seq<SectionImport>,
    i: nat,
    n: nat,
)
    requires
        i <= n,
        import_prefix(m0, es, i) is Err,
    ensures
        import_prefix(m0, es, n) == import_prefix(m0, es, i),
    decreases n - i,
{
    if i < n {
        lemma_import_err_sticks(m0, es, i, (n - 1) as nat);
    }
}

/// Every section of `a` stands in `b` with the same contents.
pub open spec fn kept_in(a: Map<Seq<char>, SectionView>, b: Map<Seq<char>, SectionView>) -> bool {
    forall|k: Seq<char>| #[trigger] a.contains_key(k) ==> b.contains_key(k) && b[k] == a[k]
}

proof fn lemma_candidate_wider_dom(
    d1: Set<Seq<char>>,
    d2: Set<Seq<char>>,
    e: SectionImport,
)
    requires
        d1.subset_of(d2),
        candidate_outcome(
            d1,
            e.section_id@,
            e.parent_doc@,
            e.title@,
            ostr(e.parent_section),
            e.normative_excerpt.deep_view(),
            e.coverage_expectation,
        ) is Ok,
    ensures
        candidate_outcome(
            d2,
            e.section_id@,
            e.parent_doc@,
            e.title@,
            ostr(e.parent_section),
            e.normative_excerpt.deep_view(),
            e.coverage_expectation,
        ) == candidate_outcome(
            d1,
            e.section_id@,
            e.parent_doc@,
            e.title@,
            ostr(e.parent_section),
            e.normative_excerpt.deep_view(),
            e.coverage_expectation,
        ),
{
}

/// A successful import keeps every section it started from, and each entry's
/// section stands in the result as that entry built it.
proof fn lemma_import_keeps(m0: Map<Seq<char>, SectionView>, es: Seq<SectionImport>, j: nat, n: nat)
    requires
        j <= n <= es.len(),
        import_prefix(m0, es, n) is Ok,
    ensures
        import_prefix(m0, es, j) is Ok,
        kept_in(import_prefix(m0, es, j)->Ok_0.0, import_prefix(m0, es, n)->Ok_0.0),
    decreases n - j,
{
    if j < n {
        lemma_import_keeps(m0, es, j, (n - 1) as nat);
        if import_prefix(m0, es, (n - 1) as nat) is Err {
            lemma_import_err_sticks(m0, es, (n - 1) as nat, n);
        }
        let mj = import_prefix(m0, es, j)->Ok_0.0;
        let mp = import_prefix(m0, es, (n - 1) as nat)->Ok_0.0;
        let mn = import_prefix(m0, es, n)->Ok_0.0;
        assert(kept_in(mp, mn));
        assert forall|k: Seq<char>| #[trigger] mj.contains_key(k) implies mn.contains_key(k)
            && mn[k] == mj[k] by {
            assert(mp.contains_key(k));
        }
    }
}

proof fn lemma_rerun_prefix(m0: Map<Seq<char>, SectionView>, es: Seq<SectionImport>, j: nat)
    requires
        j <= es.len(),
        import_prefix(m0, es, es.len()) is Ok,
    ensures
        import_prefix(import_prefix(m0, es, es.len())->Ok_0.0, es, j) == Ok::<_, Refusal>(
            (import_prefix(m0, es, es.len())->Ok_0.0, 0nat, j),
        ),
    decreases j,
{
    let m1 = import_prefix(m0, es, es.len())->Ok_0.0;
    if j > 0 {
        let i = (j - 1) as nat;
        lemma_rerun_prefix(m0, es, i);
        lemma_import_keeps(m0, es, i, es.len());
        lemma_import_keeps(m0, es, j, es.len());
        let mi = import_prefix(m0, es, i)->Ok_0.0;
        let e = es[i as int];
        let c = candidate_outcome(
            mi.dom(),
            e.section_id@,
            e.parent_doc@,
            e.title@,
            ostr(e.parent_section),
            e.normative_excerpt.deep_view(),
            e.coverage_expectation,
        );
        assert(import_step(mi, e, i) is Ok);
        assert(c is Ok);
        assert(mi.dom().subset_of(m1.dom()));
        lemma_candidate_wider_dom(mi.dom(), m1.dom(), e);
        let id = c->Ok_0.0;
        let sv = c->Ok_0.1;
        let mj = import_prefix(m0, es, j)->Ok_0.0;
        assert(mj.contains_key(id) && mj[id] == sv);
        assert(m1.contains_key(id) && m1[id] == sv);
    }
}

/// Importing a manifest again into the sections a successful import left
/// changes nothing: every entry is an identical no-op.
pub proof fn lemma_import_rerun_is_noop(m0: Map<Seq<char>, SectionView>, es: Seq<SectionImport>)
    requires
        import_prefix(m0, es, es.len()) is Ok,
    ensures
        import_prefix(import_prefix(m0, es, es.len())->Ok_0.0, es, es.len()) == Ok::<_, Refusal>(
            (import_prefix(m0, es, es.len())->Ok_0.0, 0nat, es.len()),
        ),
{
    lemma_rerun_prefix(m0, es, es.len());
}

/// The section that entry `e` builds against the sections `m` is already
/// stored there, identical.
pub open spec fn entry_present(m: Map<Seq<char>, SectionView>, e: SectionImport) -> bool {
    let c = candidate_outcome(
        m.dom(),
        e.section_id@,
        e.parent_doc@,
        e.title@,
        ostr(e.parent_section),
        e.normative_excerpt.deep_view(),
        e.coverage_expectation,
    );
    &&& c is Ok
    &&& m.contains_key(c->Ok_0.0)
    &&& m[c->Ok_0.0] == c->Ok_0.1
}

proof fn lemma_present_prefix(m: Map<Seq<char>, SectionView>, es: Seq<SectionImport>, n: nat)
    requires
        n <= es.len(),
        forall|j: int| 0 <= j < es.len() ==> entry_present(m, #[trigger] es[j]),
    ensures
        import_prefix(m, es, n) == Ok::<_, Refusal>((m, 0nat, n)),
    decreases n,
{
    if n > 0 {
        lemma_present_prefix(m, es, (n - 1) as nat);
        assert(entry_present(m, es[n - 1]));
    }
}

/// `import_sections` of a manifest whose every entry is already stored,
/// identical, as it builds (for one, because the same manifest was imported
/// before) is a no-op: over the store's sections `m` the import succeeds,
/// creates nothing, counts every entry as a no-op (its summary reads
/// `0 created, <n> no-op`) and leaves the sections as they are.
pub proof fn lemma_import_sections_of_present_entries_is_noop(
    m: Map<Seq<char>, SectionView>,
    es: Seq<SectionImport>,
)
    requires
        forall|j: int| 0 <= j < es.len() ==> entry_present(m, #[trigger] es[j]),
    ensures
        import_prefix(m, es, es.len()) == Ok::<_, Refusal>((m, 0nat, es.len())),
{
    lemma_present_prefix(m, es, es.len());
}

/// The two section-create paths agree: for an entry with no excerpt and the
/// default coverage, a one-entry `import_sections` creates exactly the
/// section `add_section` creates from the same fields, and refuses whenever
/// the shared builder refuses them.
pub proof fn lemma_section_paths_agree(m: Map<Seq<char>, SectionView>, e: SectionImport)
    requires
        e.normative_excerpt is None,
        e.coverage_expectation == CoverageExpectation::Normative,
    ensures
        ({
            let c = candidate_outcome(
                m.dom(),
                e.section_id@,
                e.parent_doc@,
                e.title@,
                ostr(e.parent_section),
                None,
                CoverageExpectation::Normative,
            );
            &&& c is Err ==> import_prefix(m, seq![e], 1) is Err
            &&& (c is Ok && !m.contains_key(c->Ok_0.0)) ==> import_prefix(m, seq![e], 1) == Ok::<
                _,
                Refusal,
            >((m.insert(c->Ok_0.0, c->Ok_0.1), 1nat, 0nat))
        }),
{
    assert(seq![e][0] == e);
    assert(e.normative_excerpt.deep_view() == None::<(Seq<char>, Seq<char>, Seq<char>, Seq<char>)>);
    assert(import_prefix(m, seq![e], 0) == Ok::<_, Refusal>((m, 0nat, 0nat)));
}

/// Bulk section create, all or nothing: each entry builds through
/// [`build_candidate_section`]; an absent id is created, an identical one is a
/// no-op, and a divergent one refuses the whole manifest, leaving the store as
/// it was.
pub fn import_sections(store: &mut AtomicStore, manifest: &Vec<SectionImport>) -> (r: Result<
    SectionImportOutcome,
    AtomicMutateError,
>)
    ensures
        final(store).wf(),
        final(store).same_but_sections(*old(store)),
        match r {
            Ok(o) => {
                &&& import_prefix(old(store).sections_v(), manifest@, manifest@.len())
                    == Ok::<_, Refusal>(
                    (final(store).sections_v(), o.created as nat, o.no_op as nat),
                )
                &&& o.summary@ == decimal(o.created as nat) + " created, "@ + decimal(
                    o.no_op as nat,
                ) + " no-op"@
            },
            Err(e) => {
                &&& import_prefix(old(store).sections_v(), manifest@, manifest@.len())
                    == Err::<(Map<Seq<char>, SectionView>, nat, nat), _>(refusal(e))
                &&& final(store).sections@ == old(store).sections@
            },
        },
{
    store.establish_wf();
    let mut created: usize = 0;
    let mut no_op: usize = 0;
    let mut inserted: Vec<String> = Vec::new();
    let mut idx: usize = 0;
    while idx < manifest.len()
        invariant
            store.wf(),
            store.same_but_sections(*old(store)),
            idx <= manifest@.len(),
            created + no_op == idx,
            import_prefix(old(store).sections_v(), manifest@, idx as nat) == Ok::<_, Refusal>(
                (store.sections_v(), created as nat, no_op as nat),
            ),
            forall|j: int|
                0 <= j < inserted@.len() ==> !old(store).sections@.contains_key(
                    #[trigger] inserted@[j]@,
                ),
            forall|k: Seq<char>|
                #[trigger] store.sections@.contains_key(k) ==> old(store).sections@.contains_key(k)
                    || exists|j: int| 0 <= j < inserted@.len() && inserted@[j]@ == k,
            forall|k: Seq<char>|
                #[trigger] old(store).sections@.contains_key(k) ==> store.sections@.contains_key(k)
                    && store.sections@[k] == old(store).sections@[k],
        decreases manifest@.len() - idx,
    {
        let entry = &manifest[idx];
        let excerpt = match &entry.normative_excerpt {
            Some(n) => Some(
                (n.text.as_str(), n.anchor_url.as_str(), n.source_revision.as_str(), n.text_sha256.as_str()),
            ),
            None => None,
        };
        let parent = match &entry.parent_section {
            Some(p) => Some(p.as_str()),
            None => None,
        };
        assert(store.sections_v().dom() == store.sections@.dom());
        let built = build_candidate_section(
            store,
            entry.section_id.as_str(),
            entry.parent_doc.as_str(),
            entry.title.as_str(),
            parent,
            excerpt,
            entry.coverage_expectation,
        );
        let ghost before = store.sections_v();
        match built {
            Err(e) => {
                let d = usize_to_decimal(idx);
                let t = e.to_text();
                let mut m = cat3("import_sections: manifest entry ", d.as_str(), ": ");
                m.append(t.as_str());
                rollback(store, &inserted, Ghost(old(store).sections@));
                proof {
                    lemma_import_err_sticks(
                        old(store).sections_v(),
                        manifest@,
                        (idx + 1) as nat,
                        manifest@.len(),
                    );
                }
                return Err(AtomicMutateError::Validation(m));
            },
            Ok((id_t, candidate)) => {
                let same = match store.sections.get(id_t.as_str()) {
                    None => None,
                    Some(existing) => Some(sections_equal(existing, &candidate)),
                };
                match same {
                    None => {
                        let key = owned(id_t.as_str());
                        let ghost sv = candidate.deep_view();
                        let ghost prev_sections = store.sections@;
                        let ghost old_ins = inserted@;
                        store.sections.insert(id_t, candidate);
                        inserted.push(key);
                        created = created + 1;
                        proof {
                            assert(store.sections_v() =~= before.insert(key@, sv));
                            assert forall|k: Seq<char>| #[trigger]
                                store.sections@.contains_key(k) implies old(
                                store,
                            ).sections@.contains_key(k) || exists|j: int|
                                0 <= j < inserted@.len() && inserted@[j]@ == k by {
                                if k == key@ {
                                    assert(inserted@[inserted@.len() - 1]@ == k);
                                } else {
                                    assert(prev_sections.contains_key(k));
                                    if !old(store).sections@.contains_key(k) {
                                        let j = choose|j: int|
                                            0 <= j < old_ins.len() && old_ins[j]@ == k;
                                        assert(inserted@[j]@ == k);
                                    }
                                }
                            }
                            assert forall|j: int|
                                0 <= j < inserted@.len() implies !old(
                                store,
                            ).sections@.contains_key(#[trigger] inserted@[j]@) by {
                                if j < old_ins.len() {
                                    assert(inserted@[j] == old_ins[j]);
                                }
                            }
                        }
                    },
                    Some(true) => {
                        no_op = no_op + 1;
                    },
                    Some(false) => {
                        let d = usize_to_decimal(idx);
                        let mut m = cat3(
                            "import_sections: manifest entry ",
                            d.as_str(),
                            " section_id `",
                        );
                        m.append(id_t.as_str());
                        m.append(
                            "` already exists with DIVERGENT content — refusing silent overwrite (supersede + re-create to revise)",
                        );
                        rollback(store, &inserted, Ghost(old(store).sections@));
                        proof {
                            lemma_import_err_sticks(
                                old(store).sections_v(),
                                manifest@,
                                (idx + 1) as nat,
                                manifest@.len(),
                            );
                        }
                        return Err(AtomicMutateError::Validation(m));
                    },
                }
            },
        }
        idx = idx + 1;
    }
    let a = usize_to_decimal(created);
    let b = usize_to_decimal(no_op);
    let mut summary = cat2(a.as_str(), " created, ");
    summary.append(b.as_str());
    summary.append(" no-op");
    Ok(SectionImportOutcome { created, no_op, summary })
}

/// Remove the sections a failed import inserted, restoring the sections the
/// import started from.
fn rollback(
    store: &mut AtomicStore,
    inserted: &Vec<String>,
    Ghost(orig): Ghost<Map<Seq<char>, AtomicSection>>,
)
    requires
        old(store).wf(),
        forall|j: int|
            0 <= j < inserted@.len() ==> !#[trigger] orig.contains_key(inserted@[j]@),
        forall|k: Seq<char>|
            #[trigger] old(store).sections@.contains_key(k) ==> orig.contains_key(k) || exists|
                j: int,
            | 0 <= j < inserted@.len() && inserted@[j]@ == k,
        forall|k: Seq<char>|
            #[trigger] orig.contains_key(k) ==> old(store).sections@.contains_key(k)
                && old(store).sections@[k] == orig[k],
    ensures
        final(store).wf(),
        final(store).same_but_sections(*old(store)),
        final(store).sections@ == orig,
{
    let mut i: usize = 0;
    while i < inserted.len()
        invariant
            store.wf(),
            store.same_but_sections(*old(store)),
            i <= inserted@.len(),
            forall|j: int|
                0 <= j < inserted@.len() ==> !#[trigger] orig.contains_key(inserted@[j]@),
            forall|k: Seq<char>|
                #[trigger] store.sections@.contains_key(k) ==> orig.contains_key(k) || exists|
                    j: int,
                | i <= j < inserted@.len() && inserted@[j]@ == k,
            forall|k: Seq<char>|
                #[trigger] orig.contains_key(k) ==> store.sections@.contains_key(k)
                    && store.sections@[k] == orig[k],
        decreases inserted@.len() - i,
    {
        let ghost prev = store.sections@;
        store.sections.remove(inserted[i].as_str());
        proof {
            assert forall|k: Seq<char>| #[trigger] store.sections@.contains_key(k) implies orig.contains_key(
                k,
            ) || exists|j: int| i + 1 <= j < inserted@.len() && inserted@[j]@ == k by {
                assert(prev.contains_key(k));
                if !orig.contains_key(k) {
                    let j = choose|j: int| i <= j < inserted@.len() && inserted@[j]@ == k;
                    assert(j != i);
                }
            }
        }
        i = i + 1;
    }
    assert(store.sections@ =~= orig);
}

/// Whether two sections hold the same contents.
pub fn sections_equal(a: &AtomicSection, b: &AtomicSection) -> (r: bool)
    ensures
        r == (a.deep_view() == b.deep_view()),
{
    let r = str_eq(a.skeleton.title.as_str(), b.skeleton.title.as_str()) && str_eq(
        a.skeleton.parent_doc.as_str(),
        b.skeleton.parent_doc.as_str(),
    ) && opt_eq(&a.skeleton.parent_section, &b.skeleton.parent_section)
        && a.skeleton.decision_status == b.skeleton.decision_status && opt_eq(
        &a.intent,
        &b.intent,
    ) && strings_eq(&a.rationale_bullets, &b.rationale_bullets) && strings_eq(
        &a.inputs_bullets,
        &b.inputs_bullets,
    ) && strings_eq(&a.outputs_bullets, &b.outputs_bullets) && strings_eq(
        &a.caveats_bullets,
        &b.caveats_bullets,
    ) && alternatives_eq(&a.alternatives_rejected, &b.alternatives_rejected) && strings_eq(
        &a.impact_scope,
        &b.impact_scope,
    ) && opt_eq(&a.superseded_by, &b.superseded_by) && opt_eq(&a.resolved_by, &b.resolved_by)
        && examples_eq(&a.examples, &b.examples) && bindings_eq(&a.bindings, &b.bindings)
        && a.coverage_expectation == b.coverage_expectation && a.verification_expectation
        == b.verification_expectation && excerpt_opt_eq(&a.normative_excerpt, &b.normative_excerpt)
        && locator_opt_eq(&a.epub_locator, &b.epub_locator);
    proof {
        if a.deep_view() == b.deep_view() {
            assert(r);
        }
    }
    r
}

fn alternatives_eq(a: &Vec<RejectedAlternative>, b: &Vec<RejectedAlternative>) -> (r: bool)
    ensures
        r == (a.deep_view() == b.deep_view()),
{
    if a.len() != b.len() {
        assert(a.deep_view().len() != b.deep_view().len());
        return false;
    }
    let mut i: usize = 0;
    while i < a.len()
        invariant
            a.len() == b.len(),
            i <= a.len(),
            forall|j: int| 0 <= j < i ==> a@[j].deep_view() == b@[j].deep_view(),
        decreases a.len() - i,
    {
        if !(str_eq(a[i].alternative.as_str(), b[i].alternative.as_str()) && str_eq(
            a[i].reason.as_str(),
            b[i].reason.as_str(),
        )) {
            assert(a.deep_view()[i as int] != b.deep_view()[i as int]);
            return false;
        }
        i = i + 1;
    }
    assert(a.deep_view() =~= b.deep_view());
    true
}

fn examples_eq(a: &Vec<ExampleBlock>, b: &Vec<ExampleBlock>) -> (r: bool)
    ensures
        r == (a.deep_view() == b.deep_view()),
{
    if a.len() != b.len() {
        assert(a.deep_view().len() != b.deep_view().len());
        return false;
    }
    let mut i: usize = 0;
    while i < a.len()
        invariant
            a.len() == b.len(),
            i <= a.len(),
            forall|j: int| 0 <= j < i ==> a@[j].deep_view() == b@[j].deep_view(),
        decreases a.len() - i,
    {
        if !(str_eq(a[i].language.as_str(), b[i].language.as_str()) && str_eq(
            a[i].code.as_str(),
            b[i].code.as_str(),
        )) {
            assert(a.deep_view()[i as int] != b.deep_view()[i as int]);
            return false;
        }
        i = i + 1;
    }
    assert(a.deep_view() =~= b.deep_view());
    true
}

fn bindings_eq(a: &Vec<Binding>, b: &Vec<Binding>) -> (r: bool)
    ensures
        r == (a.deep_view() == b.deep_view()),
{
    if a.len() != b.len() {
        assert(a.deep_view().len() != b.deep_view().len());
        return false;
    }
    let mut i: usize = 0;
    while i < a.len()
        invariant
            a.len() == b.len(),
            i <= a.len(),
            forall|j: int| 0 <= j < i ==> a@[j].deep_view() == b@[j].deep_view(),
        decreases a.len() - i,
    {
        if !(str_eq(a[i].file.as_str(), b[i].file.as_str()) && opt_eq(&a[i].symbol, &b[i].symbol)
            && a[i].kind == b[i].kind) {
            assert(a.deep_view()[i as int] != b.deep_view()[i as int]);
            return false;
        }
        i = i + 1;
    }
    assert(a.deep_view() =~= b.deep_view());
    true
}

fn excerpt_opt_eq(a: &Option<NormativeExcerpt>, b: &Option<NormativeExcerpt>) -> (r: bool)
    ensures
        r == (a.deep_view() == b.deep_view()),
{
    match (a, b) {
        (Some(x), Some(y)) => str_eq(x.text.as_str(), y.text.as_str()) && str_eq(
            x.anchor_url.as_str(),
            y.anchor_url.as_str(),
        ) && str_eq(x.source_revision.as_str(), y.source_revision.as_str()) && str_eq(
            x.text_sha256.as_str(),
            y.text_sha256.as_str(),
        ),
        (None, None) => true,
        _ => false,
    }
}

fn locator_opt_eq(a: &Option<EpubLocator>, b: &Option<EpubLocator>) -> (r: bool)
    ensures
        r == (a.deep_view() == b.deep_view()),
{
    match (a, b) {
        (Some(x), Some(y)) => str_eq(x.spine_href.as_str(), y.spine_href.as_str()) && str_eq(
            x.fragment.as_str(),
            y.fragment.as_str(),
        ) && opt_eq(&x.cfi, &y.cfi),
        (None, None) => true,
        _ => false,
    }
}

} // verus!

verus! {

/// Rename a section (the title is stored trimmed and must not be blank).
pub fn set_section_title(store: &mut AtomicStore, section_id: &str, title: &str) -> (r: Result<
    (),
    AtomicMutateError,
>)
    ensures
        final(store).wf(),
        match r {
            Ok(()) => {
                let s = final(store).sections@[section_id@];
                let o = old(store).sections@[section_id@];
                &&& trim_seq(title@).len() > 0
                &&& only_section_changed(*old(store), *final(store), section_id@)
                &&& s == AtomicSection {
                    skeleton: SectionSkeleton { title: s.skeleton.title, ..o.skeleton },
                    ..o
                }
                &&& s.skeleton.title@ == trim_seq(title@)
            },
            Err(e) => {
                &&& *final(store) == *old(store)
                &&& if trim_seq(title@).len() == 0 {
                    refusal(e) == Refusal::Validation(
                        "set_section_title: title mandatory (non-empty after trim)"@,
                    )
                } else {
                    !old(store).sections@.contains_key(section_id@) && refusal(e)
                        == Refusal::NotFound(section_missing_msg(section_id@))
                }
            },
        },
{
    store.establish_wf();
    let title_t = trim(title);
    if title_t.as_str().unicode_len() == 0 {
        return Err(
            AtomicMutateError::Validation(
                owned("set_section_title: title mandatory (non-empty after trim)"),
            ),
        );
    }
    let mut s = take_section(store, section_id)?;
    s.skeleton.title = title_t;
    put_section(store, section_id, s);
    Ok(())
}

/// Re-bind a section to another owning doc (stored trimmed, not blank).
pub fn set_section_parent_doc(store: &mut AtomicStore, section_id: &str, parent_doc: &str) -> (r:
    Result<(), AtomicMutateError>)
    ensures
        final(store).wf(),
        match r {
            Ok(()) => {
                let s = final(store).sections@[section_id@];
                let o = old(store).sections@[section_id@];
                &&& trim_seq(parent_doc@).len() > 0
                &&& only_section_changed(*old(store), *final(store), section_id@)
                &&& s == AtomicSection {
                    skeleton: SectionSkeleton { parent_doc: s.skeleton.parent_doc, ..o.skeleton },
                    ..o
                }
                &&& s.skeleton.parent_doc@ == trim_seq(parent_doc@)
            },
            Err(e) => {
                &&& *final(store) == *old(store)
                &&& if trim_seq(parent_doc@).len() == 0 {
                    refusal(e) == Refusal::Validation(
                        "set_section_parent_doc: parent_doc mandatory (non-empty after trim)"@,
                    )
                } else {
                    !old(store).sections@.contains_key(section_id@) && refusal(e)
                        == Refusal::NotFound(section_missing_msg(section_id@))
                }
            },
        },
{
    store.establish_wf();
    let pd_t = trim(parent_doc);
    if pd_t.as_str().unicode_len() == 0 {
        return Err(
            AtomicMutateError::Validation(
                owned("set_section_parent_doc: parent_doc mandatory (non-empty after trim)"),
            ),
        );
    }
    let mut s = take_section(store, section_id)?;
    s.skeleton.parent_doc = pd_t;
    put_section(store, section_id, s);
    Ok(())
}

/// The refusal of a re-parenting, or `None`.
pub open spec fn parent_section_problem(
    dom: Set<Seq<char>>,
    section_id: Seq<char>,
    parent: Option<Seq<char>>,
) -> Option<Refusal> {
    if !dom.contains(section_id) {
        Some(Refusal::NotFound(section_missing_msg(section_id)))
    } else {
        match parent {
            None => None,
            Some(p) => {
                let p_t = trim_seq(p);
                if p_t.len() == 0 {
                    Some(
                        Refusal::Validation(
                            "set_section_parent_section: parent_section must be None or non-empty"@,
                        ),
                    )
                } else if p_t == section_id {
                    Some(
                        Refusal::Validation(
                            "set_section_parent_section: parent_section `"@ + p_t
                                + "` cannot equal section_id (self-loop)"@,
                        ),
                    )
                } else if !dom.contains(p_t) {
                    Some(
                        Refusal::NotFound(
                            "set_section_parent_section: parent_section `"@ + p_t
                                + "` not present in atomic store"@,
                        ),
                    )
                } else {
                    None
                }
            },
        }
    }
}

/// Re-parent a section under another existing section, or make it top-level.
/// Only the immediate self-loop is refused.
pub fn set_section_parent_section(
    store: &mut AtomicStore,
    section_id: &str,
    parent_section: Option<&str>,
) -> (r: Result<(), AtomicMutateError>)
    ensures
        final(store).wf(),
        ({
            let p = parent_section_problem(
                old(store).sections@.dom(),
                section_id@,
                ostr_ref(parent_section),
            );
            match r {
                Ok(()) => {
                    let s = final(store).sections@[section_id@];
                    let o = old(store).sections@[section_id@];
                    &&& p is None
                    &&& only_section_changed(*old(store), *final(store), section_id@)
                    &&& s == AtomicSection {
                        skeleton: SectionSkeleton {
                            parent_section: s.skeleton.parent_section,
                            ..o.skeleton
                        },
                        ..o
                    }
                    &&& ostr(s.skeleton.parent_section) == match parent_section {
                        Some(x) => Some(trim_seq(x@)),
                        None => None,
                    }
                },
                Err(e) => *final(store) == *old(store) && p == Some(refusal(e)),
            }
        }),
{
    store.establish_wf();
    if !store.sections.contains_key(section_id) {
        return Err(
            AtomicMutateError::NotFound(
                cat3(
                    "section_id `",
                    section_id,
                    "` not present in atomic store (use add_section to create it first)",
                ),
            ),
        );
    }
    let parent_norm: Option<String> = match parent_section {
        Some(p) => {
            let p_t = trim(p);
            if p_t.as_str().unicode_len() == 0 {
                return Err(
                    AtomicMutateError::Validation(
                        owned("set_section_parent_section: parent_section must be None or non-empty"),
                    ),
                );
            }
            if str_eq(p_t.as_str(), section_id) {
                return Err(
                    AtomicMutateError::Validation(
                        cat3(
                            "set_section_parent_section: parent_section `",
                            p_t.as_str(),
                            "` cannot equal section_id (self-loop)",
                        ),
                    ),
                );
            }
            if !store.sections.contains_key(p_t.as_str()) {
                return Err(
                    AtomicMutateError::NotFound(
                        cat3(
                            "set_section_parent_section: parent_section `",
                            p_t.as_str(),
                            "` not present in atomic store",
                        ),
                    ),
                );
            }
            Some(p_t)
        },
        None => None,
    };
    let mut s = take_section(store, section_id)?;
    s.skeleton.parent_section = parent_norm;
    put_section(store, section_id, s);
    Ok(())
}

/// Set a section's decision status. `Superseded` needs the superseding
/// section id, stored as `superseded_by`; `Open` stores the optional resolver
/// as `resolved_by`; every other transition clears the pointer it does not own.
pub fn set_section_decision_status(
    store: &mut AtomicStore,
    section_id: &str,
    new_status: DecisionStatus,
    superseding: Option<&str>,
    resolving: Option<&str>,
) -> (r: Result<(), AtomicMutateError>)
    ensures
        final(store).wf(),
        match r {
            Ok(()) => {
                let s = final(store).sections@[section_id@];
                let o = old(store).sections@[section_id@];
                &&& !(new_status == DecisionStatus::Superseded && superseding is None)
                &&& only_section_changed(*old(store), *final(store), section_id@)
                &&& s == AtomicSection {
                    skeleton: SectionSkeleton {
                        decision_status: Some(new_status),
                        ..o.skeleton
                    },
                    superseded_by: s.superseded_by,
                    resolved_by: s.resolved_by,
                    ..o
                }
                &&& ostr(s.superseded_by) == if new_status == DecisionStatus::Superseded {
                    ostr_ref(superseding)
                } else {
                    None
                }
                &&& ostr(s.resolved_by) == if new_status == DecisionStatus::Open {
                    ostr_ref(resolving)
                } else {
                    None
                }
            },
            Err(e) => {
                &&& *final(store) == *old(store)
                &&& if new_status == DecisionStatus::Superseded && superseding is None {
                    refusal(e) == Refusal::Validation(
                        "(T1 rule 4, atomic axis): superseding section_id mandatory for active → superseded transition"@,
                    )
                } else {
                    !old(store).sections@.contains_key(section_id@) && refusal(e)
                        == Refusal::NotFound(section_missing_msg(section_id@))
                }
            },
        },
{
    store.establish_wf();
    if new_status == DecisionStatus::Superseded && superseding.is_none() {
        return Err(
            AtomicMutateError::Validation(
                owned(
                    "(T1 rule 4, atomic axis): superseding section_id mandatory for active → superseded transition",
                ),
            ),
        );
    }
    let mut s = take_section(store, section_id)?;
    s.skeleton.decision_status = Some(new_status);
    s.superseded_by = match new_status {
        DecisionStatus::Superseded => match superseding {
            Some(x) => Some(owned(x)),
            None => None,
        },
        _ => None,
    };
    s.resolved_by = match new_status {
        DecisionStatus::Open => match resolving {
            Some(x) => Some(owned(x)),
            None => None,
        },
        _ => None,
    };
    put_section(store, section_id, s);
    Ok(())
}

/// `file` or `file:symbol`, as binding messages name a binding.
pub open spec fn binding_label(file: Seq<char>, symbol: Option<Seq<char>>) -> Seq<char> {
    match symbol {
        Some(s) => file + ":"@ + s,
        None => file,
    }
}

fn binding_label_text(file: &str, symbol: &Option<String>) -> (r: String)
    ensures
        r@ == binding_label(file@, ostr(*symbol)),
{
    match symbol {
        Some(s) => cat3(file, ":", s.as_str()),
        None => owned(file),
    }
}

/// The position of the binding with identity `(file, symbol)`, if any.
fn find_binding(bindings: &Vec<Binding>, file: &str, symbol: &Option<String>) -> (r: Option<usize>)
    ensures
        match r {
            Some(i) => i < bindings@.len() && bindings@[i as int].file@ == file@ && ostr(
                bindings@[i as int].symbol,
            ) == ostr(*symbol) && forall|j: int|
                0 <= j < i ==> !(bindings@[j].file@ == file@ && ostr(bindings@[j].symbol) == ostr(
                    *symbol,
                )),
            None => forall|j: int|
                0 <= j < bindings@.len() ==> !(bindings@[j].file@ == file@ && ostr(
                    bindings@[j].symbol,
                ) == ostr(*symbol)),
        },
{
    let mut i: usize = 0;
    while i < bindings.len()
        invariant
            i <= bindings@.len(),
            forall|j: int|
                0 <= j < i ==> !(bindings@[j].file@ == file@ && ostr(bindings@[j].symbol) == ostr(
                    *symbol,
                )),
        decreases bindings@.len() - i,
    {
        if str_eq(bindings[i].file.as_str(), file) && opt_eq(&bindings[i].symbol, symbol) {
            return Some(i);
        }
        i = i + 1;
    }
    None
}

/// The binding identity a section holds.
pub open spec fn has_binding(s: AtomicSection, file: Seq<char>, symbol: Option<Seq<char>>) -> bool {
    exists|j: int|
        0 <= j < s.bindings@.len() && s.bindings@[j].file@ == file && ostr(s.bindings@[j].symbol)
            == symbol
}

/// The refusal of a binding's file or symbol, or `None`.
pub open spec fn binding_input_problem(file: Seq<char>, symbol: Option<Seq<char>>) -> Option<
    Seq<char>,
> {
    if binding_file_problem(file) is Some {
        binding_file_problem(file)
    } else {
        match symbol {
            Some(s) => binding_symbol_problem(s),
            None => None,
        }
    }
}

/// Add a binding to a section. `(file, symbol)` is its identity: a section
/// holds each identity at most once.
pub fn add_section_binding(
    store: &mut AtomicStore,
    section_id: &str,
    file: &str,
    symbol: Option<&str>,
    kind: BindingKind,
) -> (r: Result<(), AtomicMutateError>)
    ensures
        final(store).wf(),
        ({
            let p = binding_input_problem(file@, ostr_ref(symbol));
            match r {
                Ok(()) => {
                    let s = final(store).sections@[section_id@];
                    let o = old(store).sections@[section_id@];
                    &&& p is None
                    &&& !has_binding(o, file@, ostr_ref(symbol))
                    &&& only_section_changed(*old(store), *final(store), section_id@)
                    &&& s == AtomicSection { bindings: s.bindings, ..o }
                    &&& s.bindings.deep_view() == o.bindings.deep_view().push(
                        (file@, ostr_ref(symbol), kind),
                    )
                },
                Err(e) => {
                    &&& *final(store) == *old(store)
                    &&& if p is Some {
                        refusal(e) == Refusal::Validation(p.unwrap())
                    } else if !old(store).sections@.contains_key(section_id@) {
                        refusal(e) == Refusal::NotFound(section_missing_msg(section_id@))
                    } else {
                        has_binding(old(store).sections@[section_id@], file@, ostr_ref(symbol))
                            && refusal(e) == Refusal::Validation(
                            "binding `"@ + binding_label(file@, ostr_ref(symbol))
                                + "` already present on §"@ + section_id@
                                + " (set semantics on (file, symbol) — use set_section_binding_kind to change its kind)"@,
                        )
                    }
                },
            }
        }),
{
    store.establish_wf();
    let file_clean = validate_binding_file(file)?;
    let symbol_clean: Option<String> = match symbol {
        Some(s) => Some(validate_binding_symbol(s)?),
        None => None,
    };
    let dup = match store.sections.get(section_id) {
        None => {
            return Err(
                AtomicMutateError::NotFound(
                    cat3(
                        "section_id `",
                        section_id,
                        "` not present in atomic store (use add_section to create it first)",
                    ),
                ),
            );
        },
        Some(sec) => find_binding(&sec.bindings, file_clean.as_str(), &symbol_clean),
    };
    if dup.is_some() {
        let label = binding_label_text(file_clean.as_str(), &symbol_clean);
        let mut m = cat3("binding `", label.as_str(), "` already present on §");
        m.append(section_id);
        m.append(
            " (set semantics on (file, symbol) — use set_section_binding_kind to change its kind)",
        );
        return Err(AtomicMutateError::Validation(m));
    }
    let mut s = take_section(store, section_id)?;
    s.bindings.push(Binding { file: file_clean, symbol: symbol_clean, kind });
    assert(s.bindings.deep_view() =~= old(store).sections@[section_id@].bindings.deep_view().push(
        (file@, ostr_ref(symbol), kind),
    ));
    put_section(store, section_id, s);
    Ok(())
}

/// Which change a binding edit makes once the binding is found.
enum BindingEdit {
    Remove,
    SetKind(BindingKind),
}

/// The refusal of a binding edit, or `None`.
pub open spec fn binding_edit_problem(
    old: AtomicStore,
    primitive: Seq<char>,
    section_id: Seq<char>,
    file: Seq<char>,
    symbol: Option<Seq<char>>,
    reason: Seq<char>,
) -> Option<Refusal> {
    if is_blank_seq(reason) {
        Some(Refusal::Validation(primitive + ": --reason mandatory (audit-trail safeguard)"@))
    } else if binding_input_problem(file, symbol) is Some {
        Some(Refusal::Validation(binding_input_problem(file, symbol).unwrap()))
    } else if !old.sections@.contains_key(section_id) {
        Some(Refusal::NotFound(section_absent_msg(section_id)))
    } else if !has_binding(old.sections@[section_id], file, symbol) {
        Some(
            Refusal::NotFound(
                "binding `"@ + binding_label(file, symbol) + "` not registered on §"@ + section_id,
            ),
        )
    } else {
        None
    }
}

/// The position of the first binding with the identity.
pub open spec fn binding_pos(s: AtomicSection, file: Seq<char>, symbol: Option<Seq<char>>) -> int {
    choose|i: int|
        0 <= i < s.bindings@.len() && s.bindings@[i].file@ == file && ostr(s.bindings@[i].symbol)
            == symbol && forall|j: int|
            0 <= j < i ==> !(s.bindings@[j].file@ == file && ostr(s.bindings@[j].symbol)
                == symbol)
}

fn edit_binding(
    store: &mut AtomicStore,
    primitive: &str,
    section_id: &str,
    file: &str,
    symbol: Option<&str>,
    reason: &str,
    edit: BindingEdit,
) -> (r: Result<usize, AtomicMutateError>)
    requires
        old(store).wf(),
    ensures
        final(store).wf(),
        ({
            let p = binding_edit_problem(
                *old(store),
                primitive@,
                section_id@,
                file@,
                ostr_ref(symbol),
                reason@,
            );
            match r {
                Ok(i) => {
                    let s = final(store).sections@[section_id@];
                    let o = old(store).sections@[section_id@];
                    &&& p is None
                    &&& i == binding_pos(o, file@, ostr_ref(symbol))
                    &&& only_section_changed(*old(store), *final(store), section_id@)
                    &&& s == AtomicSection { bindings: s.bindings, ..o }
                    &&& match edit {
                        BindingEdit::Remove => s.bindings@ == o.bindings@.remove(i as int),
                        BindingEdit::SetKind(k) => s.bindings@ == o.bindings@.update(
                            i as int,
                            Binding { kind: k, ..o.bindings@[i as int] },
                        ),
                    }
                },
                Err(e) => *final(store) == *old(store) && p == Some(refusal(e)),
            }
        }),
{
    if is_blank(reason) {
        return Err(
            AtomicMutateError::Validation(
                cat2(primitive, ": --reason mandatory (audit-trail safeguard)"),
            ),
        );
    }
    let file_clean = validate_binding_file(file)?;
    let symbol_clean: Option<String> = match symbol {
        Some(s) => Some(validate_binding_symbol(s)?),
        None => None,
    };
    let found = match store.sections.get(section_id) {
        None => {
            return Err(
                AtomicMutateError::NotFound(
                    cat3("section_id `", section_id, "` not present in atomic store"),
                ),
            );
        },
        Some(sec) => find_binding(&sec.bindings, file_clean.as_str(), &symbol_clean),
    };
    let pos = match found {
        Some(p) => p,
        None => {
            let label = binding_label_text(file_clean.as_str(), &symbol_clean);
            let mut m = cat3("binding `", label.as_str(), "` not registered on §");
            m.append(section_id);
            return Err(AtomicMutateError::NotFound(m));
        },
    };
    let mut s = take_section(store, section_id)?;
    let ghost o = s;
    match edit {
        BindingEdit::Remove => {
            s.bindings.remove(pos);
        },
        BindingEdit::SetKind(k) => {
            let b = s.bindings.remove(pos);
            s.bindings.insert(pos, Binding { kind: k, ..b });
            assert(s.bindings@ =~= o.bindings@.update(pos as int, Binding { kind: k, ..o.bindings@[pos as int] }));
        },
    }
    put_section(store, section_id, s);
    Ok(pos)
}

/// Remove the binding with identity `(file, symbol)` from a section. The
/// reason must not be blank.
pub fn remove_section_binding(
    store: &mut AtomicStore,
    section_id: &str,
    file: &str,
    symbol: Option<&str>,
    reason: &str,
) -> (r: Result<(), AtomicMutateError>)
    ensures
        final(store).wf(),
        ({
            let p = binding_edit_problem(
                *old(store),
                "remove_section_binding"@,
                section_id@,
                file@,
                ostr_ref(symbol),
                reason@,
            );
            match r {
                Ok(()) => {
                    let s = final(store).sections@[section_id@];
                    let o = old(store).sections@[section_id@];
                    &&& p is None
                    &&& only_section_changed(*old(store), *final(store), section_id@)
                    &&& s == AtomicSection { bindings: s.bindings, ..o }
                    &&& s.bindings@ == o.bindings@.remove(binding_pos(o, file@, ostr_ref(symbol)))
                },
                Err(e) => *final(store) == *old(store) && p == Some(refusal(e)),
            }
        }),
{
    store.establish_wf();
    edit_binding(store, "remove_section_binding", section_id, file, symbol, reason, BindingEdit::Remove)?;
    Ok(())
}

/// Reclassify the kind of the binding with identity `(file, symbol)`. The
/// reason must not be blank.
pub fn set_section_binding_kind(
    store: &mut AtomicStore,
    section_id: &str,
    file: &str,
    symbol: Option<&str>,
    kind: BindingKind,
    reason: &str,
) -> (r: Result<(), AtomicMutateError>)
    ensures
        final(store).wf(),
        ({
            let p = binding_edit_problem(
                *old(store),
                "set_section_binding_kind"@,
                section_id@,
                file@,
                ostr_ref(symbol),
                reason@,
            );
            match r {
                Ok(()) => {
                    let s = final(store).sections@[section_id@];
                    let o = old(store).sections@[section_id@];
                    let i = binding_pos(o, file@, ostr_ref(symbol));
                    &&& p is None
                    &&& only_section_changed(*old(store), *final(store), section_id@)
                    &&& s == AtomicSection { bindings: s.bindings, ..o }
                    &&& s.bindings@ == o.bindings@.update(i, Binding { kind: kind, ..o.bindings@[i] })
                },
                Err(e) => *final(store) == *old(store) && p == Some(refusal(e)),
            }
        }),
{
    store.establish_wf();
    edit_binding(
        store,
        "set_section_binding_kind",
        section_id,
        file,
        symbol,
        reason,
        BindingEdit::SetKind(kind),
    )?;
    Ok(())
}

/// Set a section's coverage applicability. The reason must not be blank.
pub fn set_section_coverage_expectation(
    store: &mut AtomicStore,
    section_id: &str,
    expectation: CoverageExpectation,
    reason: &str,
) -> (r: Result<(), AtomicMutateError>)
    ensures
        final(store).wf(),
        match r {
            Ok(()) => {
                &&& !is_blank_seq(reason@)
                &&& only_section_changed(*old(store), *final(store), section_id@)
                &&& final(store).sections@[section_id@] == AtomicSection {
                    coverage_expectation: expectation,
                    ..old(store).sections@[section_id@]
                }
            },
            Err(e) => {
                &&& *final(store) == *old(store)
                &&& if is_blank_seq(reason@) {
                    refusal(e) == Refusal::Validation(
                        "set_section_coverage_expectation: --reason mandatory (audit-trail safeguard)"@,
                    )
                } else {
                    !old(store).sections@.contains_key(section_id@) && refusal(e)
                        == Refusal::NotFound(section_absent_msg(section_id@))
                }
            },
        },
{
    store.establish_wf();
    if is_blank(reason) {
        return Err(
            AtomicMutateError::Validation(
                owned(
                    "set_section_coverage_expectation: --reason mandatory (audit-trail safeguard)",
                ),
            ),
        );
    }
    let mut s = match store.sections.remove(section_id) {
        Some(s) => s,
        None => {
            return Err(
                AtomicMutateError::NotFound(
                    cat3("section_id `", section_id, "` not present in atomic store"),
                ),
            );
        },
    };
    s.coverage_expectation = expectation;
    put_section(store, section_id, s);
    Ok(())
}

/// Set a section's verification expectation. The reason must not be blank.
pub fn set_section_verification_expectation(
    store: &mut AtomicStore,
    section_id: &str,
    expectation: VerificationExpectation,
    reason: &str,
) -> (r: Result<(), AtomicMutateError>)
    ensures
        final(store).wf(),
        match r {
            Ok(()) => {
                &&& !is_blank_seq(reason@)
                &&& only_section_changed(*old(store), *final(store), section_id@)
                &&& final(store).sections@[section_id@] == AtomicSection {
                    verification_expectation: expectation,
                    ..old(store).sections@[section_id@]
                }
            },
            Err(e) => {
                &&& *final(store) == *old(store)
                &&& if is_blank_seq(reason@) {
                    refusal(e) == Refusal::Validation(
                        "set_section_verification_expectation: --reason mandatory (audit-trail safeguard)"@,
                    )
                } else {
                    !old(store).sections@.contains_key(section_id@) && refusal(e)
                        == Refusal::NotFound(section_absent_msg(section_id@))
                }
            },
        },
{
    store.establish_wf();
    if is_blank(reason) {
        return Err(
            AtomicMutateError::Validation(
                owned(
                    "set_section_verification_expectation: --reason mandatory (audit-trail safeguard)",
                ),
            ),
        );
    }
    let mut s = match store.sections.remove(section_id) {
        Some(s) => s,
        None => {
            return Err(
                AtomicMutateError::NotFound(
                    cat3("section_id `", section_id, "` not present in atomic store"),
                ),
            );
        },
    };
    s.verification_expectation = expectation;
    put_section(store, section_id, s);
    Ok(())
}

} // verus!

verus! {

/// The sections after setting, in order, the locator of every anchor whose
/// section is present.
pub open spec fn anchors_applied(
    m: Map<Seq<char>, AtomicSection>,
    anchors: Seq<(String, EpubLocator)>,
    n: nat,
) -> Map<Seq<char>, AtomicSection>
    decreases n,
{
    if n == 0 {
        m
    } else {
        let m1 = anchors_applied(m, anchors, (n - 1) as nat);
        let k = anchors[n - 1].0@;
        if m1.contains_key(k) {
            m1.insert(k, AtomicSection { epub_locator: Some(anchors[n - 1].1), ..m1[k] })
        } else {
            m1
        }
    }
}

/// The ids of the first `n` anchors whose section is not in `dom`, in order.
pub open spec fn anchors_unmatched(dom: Set<Seq<char>>, anchors: Seq<(String, EpubLocator)>, n: nat) -> Seq<
    Seq<char>,
>
    decreases n,
{
    if n == 0 {
        Seq::empty()
    } else if dom.contains(anchors[n - 1].0@) {
        anchors_unmatched(dom, anchors, (n - 1) as nat)
    } else {
        anchors_unmatched(dom, anchors, (n - 1) as nat).push(anchors[n - 1].0@)
    }
}

fn clone_locator(l: &EpubLocator) -> (r: EpubLocator)
    ensures
        r == *l,
{
    EpubLocator { spine_href: l.spine_href.clone(), fragment: l.fragment.clone(), cfi: clone_opt(&l.cfi) }
}

/// Set the EPUB locator of every anchored section that exists; returns how
/// many were set and the ids that matched no section. Refused, with the store
/// unchanged, when no anchor matches.
pub fn import_epub_anchors(store: &mut AtomicStore, anchors: &Vec<(String, EpubLocator)>) -> (r:
    Result<(usize, Vec<String>), AtomicMutateError>)
    ensures
        final(store).wf(),
        final(store).same_but_sections(*old(store)),
        match r {
            Ok((applied, unmatched)) => {
                &&& applied > 0
                &&& applied + unmatched@.len() == anchors@.len()
                &&& strs(unmatched) == anchors_unmatched(
                    old(store).sections@.dom(),
                    anchors@,
                    anchors@.len(),
                )
                &&& final(store).sections@ == anchors_applied(
                    old(store).sections@,
                    anchors@,
                    anchors@.len(),
                )
            },
            Err(e) => {
                &&& *final(store) == *old(store)
                &&& anchors_unmatched(old(store).sections@.dom(), anchors@, anchors@.len()).len()
                    == anchors@.len()
                &&& refusal(e) == Refusal::NotFound(
                    "import_epub_anchors: no anchor matched a section in the store"@,
                )
            },
        },
{
    store.establish_wf();
    let mut applied: usize = 0;
    let mut unmatched: Vec<String> = Vec::new();
    let mut i: usize = 0;
    while i < anchors.len()
        invariant
            store.wf(),
            store.same_but_sections(*old(store)),
            i <= anchors@.len(),
            applied + unmatched@.len() == i,
            store.sections@.dom() == old(store).sections@.dom(),
            store.sections@ == anchors_applied(old(store).sections@, anchors@, i as nat),
            strs(unmatched) == anchors_unmatched(old(store).sections@.dom(), anchors@, i as nat),
            applied == 0 ==> *store == *old(store),
        decreases anchors@.len() - i,
    {
        let (k, loc) = &anchors[i];
        if store.sections.contains_key(k.as_str()) {
            let mut s = take_section(store, k.as_str())?;
            s.epub_locator = Some(clone_locator(loc));
            put_section(store, k.as_str(), s);
            applied = applied + 1;
            assert(store.sections@ =~= anchors_applied(old(store).sections@, anchors@, (i + 1) as nat));
        } else {
            unmatched.push(k.clone());
            assert(strs(unmatched) =~= anchors_unmatched(
                old(store).sections@.dom(),
                anchors@,
                (i + 1) as nat,
            ));
        }
        i = i + 1;
    }
    if applied == 0 {
        return Err(
            AtomicMutateError::NotFound(
                owned("import_epub_anchors: no anchor matched a section in the store"),
            ),
        );
    }
    Ok((applied, unmatched))
}

/// One entry for [`import_epub_excerpts`]: the EPUB-extracted text of a
/// section and its SHA-256.
#[derive(Debug, Clone, PartialEq, Eq)]
pub struct ExcerptImport {
    pub section_id: String,
    pub text: String,
    pub text_sha256: String,
}

/// What refreshing one entry gives against the sections it started from:
/// `None` when the section is absent or has no excerpt, else the refreshed
/// excerpt (keeping the stored anchor and revision) or the refusal.
pub open spec fn excerpt_refresh(m0: Map<Seq<char>, SectionView>, e: ExcerptImport) -> Option<
    Result<(Seq<char>, Seq<char>, Seq<char>, Seq<char>), Seq<char>>,
> {
    if m0.contains_key(e.section_id@) && m0[e.section_id@].normative_excerpt is Some {
        let ne = m0[e.section_id@].normative_excerpt.unwrap();
        Some(normative_excerpt_outcome(e.text@, ne.1, ne.2, e.text_sha256@))
    } else {
        None
    }
}

/// The refreshes of the first `n` entries, in order, or the first refusal.
pub open spec fn excerpt_updates(m0: Map<Seq<char>, SectionView>, es: Seq<ExcerptImport>, n: nat) -> Result<
    Seq<(Seq<char>, (Seq<char>, Seq<char>, Seq<char>, Seq<char>))>,
    Seq<char>,
>
    decreases n,
{
    if n == 0 {
        Ok(Seq::empty())
    } else {
        match excerpt_updates(m0, es, (n - 1) as nat) {
            Err(x) => Err(x),
            Ok(u) => match excerpt_refresh(m0, es[n - 1]) {
                None => Ok(u),
                Some(Err(x)) => Err(x),
                Some(Ok(v)) => Ok(u.push((es[n - 1].section_id@, v))),
            },
        }
    }
}

/// The ids of the first `n` entries with nothing to refresh, in order.
pub open spec fn excerpts_unmatched(m0: Map<Seq<char>, SectionView>, es: Seq<ExcerptImport>, n: nat) -> Seq<
    Seq<char>,
>
    decreases n,
{
    if n == 0 {
        Seq::empty()
    } else if excerpt_refresh(m0, es[n - 1]) is None {
        excerpts_unmatched(m0, es, (n - 1) as nat).push(es[n - 1].section_id@)
    } else {
        excerpts_unmatched(m0, es, (n - 1) as nat)
    }
}

/// The sections after applying the first `n` excerpt updates in order.
pub open spec fn excerpts_applied(
    m: Map<Seq<char>, SectionView>,
    us: Seq<(Seq<char>, (Seq<char>, Seq<char>, Seq<char>, Seq<char>))>,
    n: nat,
) -> Map<Seq<char>, SectionView>
    decreases n,
{
    if n == 0 {
        m
    } else {
        let m1 = excerpts_applied(m, us, (n - 1) as nat);
        let (k, v) = us[n - 1];
        m1.insert(k, SectionView { normative_excerpt: Some(v), ..m1[k] })
    }
}

proof fn lemma_updates_err_sticks(m0: Map<Seq<char>, SectionView>, es: Seq<ExcerptImport>, i: nat, n: nat)
    requires
        i <= n,
        excerpt_updates(m0, es, i) is Err,
    ensures
        excerpt_updates(m0, es, n) == excerpt_updates(m0, es, i),
    decreases n - i,
{
    if i < n {
        lemma_updates_err_sticks(m0, es, i, (n - 1) as nat);
    }
}

/// Refresh the EPUB-projected excerpt text (and hash) of sections that already
/// carry an excerpt, keeping its anchor URL and revision. Every refresh is
/// validated before any is applied: a refusal leaves the store unchanged, and
/// so does an import in which nothing matched. Returns the number applied and
/// the ids that had nothing to refresh.
pub fn import_epub_excerpts(store: &mut AtomicStore, excerpts: &Vec<ExcerptImport>) -> (r: Result<
    (usize, Vec<String>),
    AtomicMutateError,
>)
    ensures
        final(store).wf(),
        final(store).same_but_sections(*old(store)),
        ({
            let m0 = old(store).sections_v();
            let u = excerpt_updates(m0, excerpts@, excerpts@.len());
            match r {
                Ok((applied, unmatched)) => {
                    &&& u is Ok
                    &&& applied == u->Ok_0.len()
                    &&& applied > 0
                    &&& strs(unmatched) == excerpts_unmatched(m0, excerpts@, excerpts@.len())
                    &&& final(store).sections_v() == excerpts_applied(m0, u->Ok_0, applied as nat)
                    &&& final(store).sections@.dom() == old(store).sections@.dom()
                },
                Err(e) => {
                    &&& *final(store) == *old(store)
                    &&& match u {
                        Err(msg) => refusal(e) == Refusal::Validation(msg),
                        Ok(us) => us.len() == 0 && refusal(e) == Refusal::NotFound(
                            "import_epub_excerpts: no entry matched a refreshable excerpt in the store"@,
                        ),
                    }
                },
            }
        }),
{
    store.establish_wf();
    let ghost m0 = store.sections_v();
    let mut updates: Vec<(String, NormativeExcerpt)> = Vec::new();
    let mut unmatched: Vec<String> = Vec::new();
    let mut i: usize = 0;
    while i < excerpts.len()
        invariant
            *store == *old(store),
            store.wf(),
            m0 == old(store).sections_v(),
            i <= excerpts@.len(),
            excerpt_updates(m0, excerpts@, i as nat) is Ok,
            updates@.len() == excerpt_updates(m0, excerpts@, i as nat)->Ok_0.len(),
            forall|j: int|
                0 <= j < updates@.len() ==> (#[trigger] updates@[j]).0@ == excerpt_updates(
                    m0,
                    excerpts@,
                    i as nat,
                )->Ok_0[j].0 && updates@[j].1.deep_view() == excerpt_updates(
                    m0,
                    excerpts@,
                    i as nat,
                )->Ok_0[j].1,
            forall|j: int|
                0 <= j < updates@.len() ==> m0.contains_key(#[trigger] updates@[j].0@),
            strs(unmatched) == excerpts_unmatched(m0, excerpts@, i as nat),
        decreases excerpts@.len() - i,
    {
        let e = &excerpts[i];
        let meta = match store.sections.get(e.section_id.as_str()) {
            Some(s) => match &s.normative_excerpt {
                Some(ne) => Some((ne.anchor_url.as_str(), ne.source_revision.as_str())),
                None => None,
            },
            None => None,
        };
        match meta {
            None => {
                unmatched.push(e.section_id.clone());
                assert(strs(unmatched) =~= excerpts_unmatched(m0, excerpts@, (i + 1) as nat));
            },
            Some((anchor_url, source_revision)) => {
                match build_normative_excerpt(
                    e.text.as_str(),
                    anchor_url,
                    source_revision,
                    e.text_sha256.as_str(),
                ) {
                    Err(err) => {
                        proof {
                            lemma_updates_err_sticks(
                                m0,
                                excerpts@,
                                (i + 1) as nat,
                                excerpts@.len(),
                            );
                        }
                        return Err(err);
                    },
                    Ok(ne) => {
                        updates.push((e.section_id.clone(), ne));
                    },
                }
            },
        }
        i = i + 1;
    }
    let ghost us = excerpt_updates(m0, excerpts@, excerpts@.len())->Ok_0;
    if updates.len() == 0 {
        return Err(
            AtomicMutateError::NotFound(
                owned("import_epub_excerpts: no entry matched a refreshable excerpt in the store"),
            ),
        );
    }
    let applied = updates.len();
    let mut k: usize = 0;
    assert forall|j: int| 0 <= j < us.len() implies m0.contains_key(#[trigger] us[j].0) by {
        assert(updates@[j].0@ == us[j].0);
    }
    while updates.len() > 0
        invariant
            store.wf(),
            store.same_but_sections(*old(store)),
            k + updates@.len() == applied,
            applied == us.len(),
            forall|j: int|
                0 <= j < updates@.len() ==> (#[trigger] updates@[j]).0@ == us[k + j].0
                    && updates@[j].1.deep_view() == us[k + j].1,
            forall|j: int| k <= j < us.len() ==> m0.contains_key(#[trigger] us[j].0),
            store.sections_v() == excerpts_applied(m0, us, k as nat),
            store.sections@.dom() == old(store).sections@.dom(),
            m0 == old(store).sections_v(),
        decreases updates@.len(),
    {
        let (key, ne) = updates.remove(0);
        let mut s = take_section(store, key.as_str())?;
        s.normative_excerpt = Some(ne);
        put_section(store, key.as_str(), s);
        proof {
            assert(store.sections_v() =~= excerpts_applied(m0, us, (k + 1) as nat));
        }
        k = k + 1;
    }
    Ok((applied, unmatched))
}


/// An excerpt the mutate primitives accept either declares no hash (it is not
/// revalidatable) or declares the hash of the text it stores, so the offline
/// check finds it matching.
pub proof fn lemma_accepted_excerpt_revalidates(
    text: Seq<char>,
    anchor_url: Seq<char>,
    source_revision: Seq<char>,
    text_sha256: Seq<char>,
)
    requires
        normative_excerpt_outcome(text, anchor_url, source_revision, text_sha256) is Ok,
    ensures
        ({
            let ne = normative_excerpt_outcome(text, anchor_url, source_revision, text_sha256)->Ok_0;
            ne.3.len() == 0 || sha256_hex_of(ne.0) == ne.3
        }),
{
}

} // verus!
