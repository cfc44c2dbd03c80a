//! Appending confirmation events: the id each event is keyed by, derived from
//! the verification act, and the checks an append must pass.
use vstd::prelude::*;
use crate::confirm::{
    ClaimView, ConfirmationClaim, ConfirmationEvent, claim_section, confirmer_kind_tag, method_tag,
    verdict_tag,
};
use crate::digest::{sha256_hex, sha256_hex_of};
use crate::error::{AtomicMutateError, Refusal, refusal};
use crate::model::AtomicStore;
use crate::order::str_eq;
use crate::text::{cat2, cat3, is_blank, is_blank_seq, owned};

verus! {

/// The unit separator the act's fields are joined with.
pub open spec fn unit_sep() -> Seq<char> {
    "\u{1f}"@
}

/// The claim's part of the act: its kind, section, file and symbol (empty
/// where the claim has none).
pub open spec fn claim_fields(c: ClaimView) -> Seq<Seq<char>> {
    match c {
        ClaimView::VerifiesBinding { section_id, file, symbol } => seq![
            "verifies_binding"@,
            section_id,
            file,
            match symbol {
                Some(s) => s,
                None => ""@,
            },
        ],
        ClaimView::SectionCompleteness { section_id } => seq![
            "section_completeness"@,
            section_id,
            ""@,
            ""@,
        ],
    }
}

/// The identity of a verification act: claim, confirmer, method, verdict,
/// both runs and the timestamp. The rationale and the artifact hashes are
/// payload, not identity.
pub open spec fn act_fields(e: ConfirmationEvent) -> Seq<Seq<char>> {
    claim_fields(e.claim.deep_view()) + seq![
        confirmer_kind_tag(e.confirmer.kind),
        e.confirmer.id@,
        method_tag(e.method),
        verdict_tag(e.verdict),
        e.authoring_run@,
        e.confirming_run@,
        e.timestamp@,
    ]
}

/// The fields joined by the unit separator.
pub open spec fn joined(fs: Seq<Seq<char>>) -> Seq<char>
    decreases fs.len(),
{
    if fs.len() == 0 {
        Seq::empty()
    } else if fs.len() == 1 {
        fs[0]
    } else {
        joined(fs.drop_last()) + unit_sep() + fs.last()
    }
}

/// The id an event is stored under: `evt-` and the first sixteen hex digits
/// of the SHA-256 of its act.
pub open spec fn event_id_of(e: ConfirmationEvent) -> Seq<char> {
    "evt-"@ + sha256_hex_of(joined(act_fields(e))).subrange(0, 16)
}

/// Join texts with the unit separator.
fn join_fields(fs: &Vec<&str>) -> (r: String)
    ensures
        r@ == joined(fs@.map_values(|s: &str| s@)),
{
    let ghost v = fs@.map_values(|s: &str| s@);
    let mut r = String::new();
    let mut i: usize = 0;
    while i < fs.len()
        invariant
            i <= fs.len(),
            v == fs@.map_values(|s: &str| s@),
            r@ == joined(v.subrange(0, i as int)),
        decreases fs.len() - i,
    {
        let ghost before = r@;
        proof {
            assert(v.subrange(0, i + 1).drop_last() =~= v.subrange(0, i as int));
        }
        if i > 0 {
            r.append("\u{1f}");
        }
        r.append(fs[i]);
        proof {
            let s1 = v.subrange(0, i + 1);
            if i == 0 {
                assert(r@ =~= s1[0]);
            } else {
                assert(r@ =~= before + unit_sep() + s1.last());
            }
        }
        i = i + 1;
    }
    assert(v.subrange(0, fs.len() as int) =~= v);
    r
}

/// The id the event is stored under: `evt-` and the first 16 hex digits of
/// the SHA-256 of the act's fields, so two identical acts get one id. That
/// different acts get different ids rests on those digits not colliding,
/// which is not stated here.
pub fn derive_confirmation_event_id(event: &ConfirmationEvent) -> (r: String)
    ensures
        r@ == event_id_of(*event),
{
    let mut fs: Vec<&str> = Vec::new();
    match &event.claim {
        ConfirmationClaim::VerifiesBinding { section_id, file, symbol } => {
            fs.push("verifies_binding");
            fs.push(section_id.as_str());
            fs.push(file.as_str());
            match symbol {
                Some(s) => fs.push(s.as_str()),
                None => fs.push(""),
            }
        },
        ConfirmationClaim::SectionCompleteness { section_id } => {
            fs.push("section_completeness");
            fs.push(section_id.as_str());
            fs.push("");
            fs.push("");
        },
    }
    fs.push(event.confirmer.kind.as_str());
    fs.push(event.confirmer.id.as_str());
    fs.push(event.method.as_str());
    fs.push(event.verdict.as_str());
    fs.push(event.authoring_run.as_str());
    fs.push(event.confirming_run.as_str());
    fs.push(event.timestamp.as_str());
    proof {
        assert(fs@.map_values(|s: &str| s@) =~= act_fields(*event));
    }
    let canonical = join_fields(&fs);
    let hex = sha256_hex(canonical.as_str());
    let prefix = hex.as_str().substring_char(0, 16);
    cat2("evt-", prefix)
}

/// Why [`append_confirmation_event`] refuses, in the order it checks.
pub open spec fn append_event_problem(store: AtomicStore, e: ConfirmationEvent) -> Option<Refusal> {
    let sid = claim_section(e.claim.deep_view());
    if is_blank_seq(e.authoring_run@) || is_blank_seq(e.confirming_run@) {
        Some(
            Refusal::Validation(
                "authoring_run / confirming_run must be non-blank (provenance, sec 4.1)"@,
            ),
        )
    } else if e.authoring_run@ == e.confirming_run@ {
        Some(
            Refusal::Validation(
                "self-confirm rejected: confirming_run `"@ + e.confirming_run@
                    + "` must differ from authoring_run (independence, design sec 4.7)"@,
            ),
        )
    } else if is_blank_seq(e.rationale@) {
        Some(Refusal::Validation("rationale must be non-blank (esp. for Refute, sec 4.1)"@))
    } else if !store.sections@.contains_key(sid) {
        Some(
            Refusal::NotFound(
                "claim section_id `"@ + sid
                    + "` not present in atomic store (use add_section first; R287 fail-loud)"@,
            ),
        )
    } else if store.confirmation_events@.contains_key(event_id_of(e)) {
        Some(
            Refusal::FrozenLedger(
                "confirmation already recorded (identical act, idempotent): `"@ + event_id_of(e)
                    + "`"@,
            ),
        )
    } else {
        None
    }
}

/// Append a confirmation event under its derived id and return the id. The
/// ledger is append-only: an identical act is refused, and nothing already
/// recorded changes.
pub fn append_confirmation_event(store: &mut AtomicStore, event: ConfirmationEvent) -> (r: Result<
    String,
    AtomicMutateError,
>)
    ensures
        final(store).wf(),
        match r {
            Ok(id) => {
                &&& append_event_problem(*old(store), event) is None
                &&& id@ == event_id_of(event)
                &&& final(store).confirmation_events@ == old(store).confirmation_events@.insert(
                    id@,
                    event,
                )
                &&& final(store).same_but_events(*old(store))
            },
            Err(e) => {
                &&& *final(store) == *old(store)
                &&& append_event_problem(*old(store), event) == Some(refusal(e))
            },
        },
{
    store.establish_wf();
    if is_blank(event.authoring_run.as_str()) || is_blank(event.confirming_run.as_str()) {
        return Err(
            AtomicMutateError::Validation(
                owned("authoring_run / confirming_run must be non-blank (provenance, sec 4.1)"),
            ),
        );
    }
    if str_eq(event.authoring_run.as_str(), event.confirming_run.as_str()) {
        return Err(
            AtomicMutateError::Validation(
                cat3(
                    "self-confirm rejected: confirming_run `",
                    event.confirming_run.as_str(),
                    "` must differ from authoring_run (independence, design sec 4.7)",
                ),
            ),
        );
    }
    if is_blank(event.rationale.as_str()) {
        return Err(
            AtomicMutateError::Validation(
                owned("rationale must be non-blank (esp. for Refute, sec 4.1)"),
            ),
        );
    }
    let claim_sid = event.claim.section_id();
    if !store.sections.contains_key(claim_sid) {
        return Err(
            AtomicMutateError::NotFound(
                cat3(
                    "claim section_id `",
                    claim_sid,
                    "` not present in atomic store (use add_section first; R287 fail-loud)",
                ),
            ),
        );
    }
    let event_id = derive_confirmation_event_id(&event);
    if store.confirmation_events.contains_key(event_id.as_str()) {
        return Err(
            AtomicMutateError::FrozenLedger(
                cat3(
                    "confirmation already recorded (identical act, idempotent): `",
                    event_id.as_str(),
                    "`",
                ),
            ),
        );
    }
    let key = owned(event_id.as_str());
    store.confirmation_events.insert(key, event);
    Ok(event_id)
}


/// The id is the identity of the act alone: two events that agree on claim,
/// confirmer, method, verdict, both runs and timestamp get the same id,
/// whatever their rationale and artifact hashes.
pub proof fn lemma_event_id_ignores_payload(a: ConfirmationEvent, b: ConfirmationEvent)
    requires
        a.claim.deep_view() == b.claim.deep_view(),
        a.confirmer.kind == b.confirmer.kind,
        a.confirmer.id@ == b.confirmer.id@,
        a.method == b.method,
        a.verdict == b.verdict,
        a.authoring_run@ == b.authoring_run@,
        a.confirming_run@ == b.confirming_run@,
        a.timestamp@ == b.timestamp@,
    ensures
        event_id_of(a) == event_id_of(b),
{
    assert(act_fields(a) =~= act_fields(b));
}

/// The event ledger is append-only and re-appending refuses: once `e` is
/// recorded, appending it again is refused as frozen, while another act
/// that `before` would have accepted is still accepted, provided its derived
/// id is not `e`'s.
pub proof fn lemma_reappend_refused(before: AtomicStore, after: AtomicStore, e: ConfirmationEvent, other: ConfirmationEvent)
    requires
        append_event_problem(before, e) is None,
        after.confirmation_events@ == before.confirmation_events@.insert(event_id_of(e), e),
        after.same_but_events(before),
    ensures
        append_event_problem(after, e) == Some(
            Refusal::FrozenLedger(
                "confirmation already recorded (identical act, idempotent): `"@ + event_id_of(e) + "`"@,
            ),
        ),
        (append_event_problem(before, other) is None && event_id_of(other) != event_id_of(e))
            ==> append_event_problem(after, other) is None,
{
}

/// No character of `s` is the unit separator.
pub open spec fn sep_free(s: Seq<char>) -> bool {
    forall|i: int| 0 <= i < s.len() ==> s[i] != '\u{1f}'
}

proof fn lemma_tags_sep_free(e: ConfirmationEvent)
    ensures
        sep_free(confirmer_kind_tag(e.confirmer.kind)),
        sep_free(method_tag(e.method)),
        sep_free(verdict_tag(e.verdict)),
        unit_sep() == seq!['\u{1f}'],
{
    reveal_strlit("\u{1f}");
    reveal_strlit("tool");
    reveal_strlit("model");
    reveal_strlit("linkage_check");
    reveal_strlit("semantic_review");
    reveal_strlit("coverage_attestation");
    reveal_strlit("confirm");
    reveal_strlit("refute");
}

/// Cutting a text at its last separator is unique: two ways of writing it
/// as a prefix, the separator and a separator-free tail agree.
proof fn lemma_split_at_last_sep(a1: Seq<char>, l1: Seq<char>, a2: Seq<char>, l2: Seq<char>)
    requires
        sep_free(l1),
        sep_free(l2),
        a1 + seq!['\u{1f}'] + l1 == a2 + seq!['\u{1f}'] + l2,
    ensures
        a1 == a2,
        l1 == l2,
{
    let u = seq!['\u{1f}'];
    let t = a1 + u + l1;
    let t2 = a2 + u + l2;
    assert(t.len() == a1.len() + 1 + l1.len());
    assert(t2.len() == a2.len() + 1 + l2.len());
    if l1.len() < l2.len() {
        let i = a1.len() as int;
        assert((a1 + u)[i] == '\u{1f}');
        assert(t[i] == '\u{1f}');
        assert(i >= a2.len() + 1);
        let k = i - a2.len() - 1;
        assert(0 <= k < l2.len());
        assert(t2[i] == l2[k]);
        assert(l2[k] != '\u{1f}');
    } else if l2.len() < l1.len() {
        let i = a2.len() as int;
        assert((a2 + u)[i] == '\u{1f}');
        assert(t2[i] == '\u{1f}');
        assert(i >= a1.len() + 1);
        let k = i - a1.len() - 1;
        assert(0 <= k < l1.len());
        assert(t[i] == l1[k]);
        assert(l1[k] != '\u{1f}');
    }
    assert(a1.len() == a2.len());
    assert(a1 =~= t.subrange(0, a1.len() as int));
    assert(a2 =~= t2.subrange(0, a2.len() as int));
    assert(l1 =~= t.subrange(a1.len() + 1int, t.len() as int));
    assert(l2 =~= t2.subrange(a2.len() + 1int, t2.len() as int));
}

/// Joining is injective on lists of one length whose fields after the first
/// hold no separator.
proof fn lemma_joined_injective(xs: Seq<Seq<char>>, ys: Seq<Seq<char>>)
    requires
        xs.len() == ys.len(),
        forall|i: int| 1 <= i < xs.len() ==> sep_free(#[trigger] xs[i]),
        forall|i: int| 1 <= i < ys.len() ==> sep_free(#[trigger] ys[i]),
        joined(xs) == joined(ys),
    ensures
        xs == ys,
    decreases xs.len(),
{
    reveal_strlit("\u{1f}");
    if xs.len() == 0 {
        assert(xs =~= ys);
    } else if xs.len() == 1 {
        assert(xs =~= ys);
    } else {
        let n = xs.len() as int;
        assert(sep_free(xs[n - 1]));
        assert(sep_free(ys[n - 1]));
        assert(unit_sep() == seq!['\u{1f}']);
        lemma_split_at_last_sep(joined(xs.drop_last()), xs.last(), joined(ys.drop_last()), ys.last());
        let xd = xs.drop_last();
        let yd = ys.drop_last();
        assert forall|i: int| 1 <= i < xd.len() implies sep_free(#[trigger] xd[i]) by {
            assert(xd[i] == xs[i]);
        }
        assert forall|i: int| 1 <= i < yd.len() implies sep_free(#[trigger] yd[i]) by {
            assert(yd[i] == ys[i]);
        }
        lemma_joined_injective(xd, yd);
        assert(xs =~= xd.push(xs.last()));
        assert(ys =~= yd.push(ys.last()));
    }
}

/// The texts of an event that go into its act hold no separator.
pub open spec fn act_texts_sep_free(e: ConfirmationEvent) -> bool {
    &&& sep_free(claim_section(e.claim.deep_view()))
    &&& match e.claim.deep_view() {
        ClaimView::VerifiesBinding { file, symbol, .. } => sep_free(file) && match symbol {
            Some(y) => sep_free(y),
            None => true,
        },
        ClaimView::SectionCompleteness { .. } => true,
    }
    &&& sep_free(e.confirmer.id@)
    &&& sep_free(e.authoring_run@)
    &&& sep_free(e.confirming_run@)
    &&& sep_free(e.timestamp@)
}

/// Two events are the same verification act: the same claim (a binding's
/// missing symbol reading as an empty one), confirmer, method, verdict, runs
/// and timestamp.
pub open spec fn same_act(a: ConfirmationEvent, b: ConfirmationEvent) -> bool {
    &&& match (a.claim.deep_view(), b.claim.deep_view()) {
        (
            ClaimView::VerifiesBinding { section_id: s1, file: f1, symbol: y1 },
            ClaimView::VerifiesBinding { section_id: s2, file: f2, symbol: y2 },
        ) => s1 == s2 && f1 == f2 && y1.unwrap_or(""@) == y2.unwrap_or(""@),
        (
            ClaimView::SectionCompleteness { section_id: s1 },
            ClaimView::SectionCompleteness { section_id: s2 },
        ) => s1 == s2,
        _ => false,
    }
    &&& a.confirmer.kind == b.confirmer.kind
    &&& a.confirmer.id@ == b.confirmer.id@
    &&& a.method == b.method
    &&& a.verdict == b.verdict
    &&& a.authoring_run@ == b.authoring_run@
    &&& a.confirming_run@ == b.confirming_run@
    &&& a.timestamp@ == b.timestamp@
}

/// The hashed canonical act identifies the act: an event's id is hashed
/// from its canonical act, and two events whose texts hold no unit
/// separator and whose canonical acts are equal are the same act. So events that differ in any part of
/// the act, the claim's file among them, hash different inputs; that their
/// ids then differ rests on SHA-256, which is not stated.
pub proof fn lemma_canonical_act_identifies_the_act(a: ConfirmationEvent, b: ConfirmationEvent)
    requires
        act_texts_sep_free(a),
        act_texts_sep_free(b),
        joined(act_fields(a)) == joined(act_fields(b)),
    ensures
        same_act(a, b),
        event_id_of(a) == "evt-"@ + sha256_hex_of(joined(act_fields(a))).subrange(0, 16),
        event_id_of(b) == "evt-"@ + sha256_hex_of(joined(act_fields(b))).subrange(0, 16),
{
    lemma_tags_sep_free(a);
    lemma_tags_sep_free(b);
    reveal_strlit("");
    let xs = act_fields(a);
    let ys = act_fields(b);
    assert(xs.len() == 11 && ys.len() == 11);
    assert forall|i: int| 1 <= i < xs.len() implies sep_free(#[trigger] xs[i]) by {
        match a.claim.deep_view() {
            ClaimView::VerifiesBinding { .. } => {},
            ClaimView::SectionCompleteness { .. } => {},
        }
    }
    assert forall|i: int| 1 <= i < ys.len() implies sep_free(#[trigger] ys[i]) by {
        match b.claim.deep_view() {
            ClaimView::VerifiesBinding { .. } => {},
            ClaimView::SectionCompleteness { .. } => {},
        }
    }
    lemma_joined_injective(xs, ys);
    assert(xs[0] == ys[0]);
    reveal_strlit("verifies_binding");
    reveal_strlit("section_completeness");
    crate::confirm::lemma_confirmer_kind_tags_distinct(a.confirmer.kind, b.confirmer.kind);
    crate::confirm::lemma_method_tags_distinct(a.method, b.method);
    crate::confirm::lemma_verdict_tags_distinct(a.verdict, b.verdict);
    assert(xs[4] == ys[4] && xs[5] == ys[5] && xs[6] == ys[6] && xs[7] == ys[7]);
    assert(xs[8] == ys[8] && xs[9] == ys[9] && xs[10] == ys[10]);
    match (a.claim.deep_view(), b.claim.deep_view()) {
        (ClaimView::VerifiesBinding { .. }, ClaimView::SectionCompleteness { .. }) => {
            assert("verifies_binding"@.len() != "section_completeness"@.len());
        },
        (ClaimView::SectionCompleteness { .. }, ClaimView::VerifiesBinding { .. }) => {
            assert("verifies_binding"@.len() != "section_completeness"@.len());
        },
        _ => {
            assert(xs[1] == ys[1] && xs[2] == ys[2] && xs[3] == ys[3]);
        },
    }
}

} // verus!
