//! Importing reviewed proposal artifacts: typed legs for untyped facts, and
//! succession and conflict edges between existing facts. Each import is
//! all-or-nothing, reports a verdict per proposal, and re-checks the claim
//! texts each proposal interpreted.
use vstd::prelude::*;
use crate::digest::{sha256_hex, sha256_hex_of};
use crate::facts::{build_typed_claim, typed_outcome};
use crate::model::{AtomicStore, strs};
use crate::narrative::{FactView, NarrativeFact, TypedClaim, TypedView};
use crate::order::str_eq;
use crate::registry::reg_v;
use crate::strmap::StrMap;
use crate::succession::facts_v;
use crate::text::{cat3, is_blank, is_blank_seq, owned, trim, trim_seq};

verus! {

/// The refusal of a proposal whose pinned claim hash is stale.
pub open spec fn stale_msg(side: Seq<char>, fid: Seq<char>, current: Seq<char>, stamped: Seq<char>) -> Seq<char> {
    "stale proposal: "@ + side + " `"@ + fid + "` claim sha256 is `"@ + current
        + "` but the proposal interpreted `"@ + stamped
        + "` — the claim changed after proposing; re-run discovery against the current text"@
}

/// The verdict of re-checking a proposal's pin on `fid`'s claim.
pub open spec fn pin_check(fm: Map<Seq<char>, FactView>, fid: Seq<char>, stamped: Seq<char>, side: Seq<char>) -> Result<
    (),
    Seq<char>,
> {
    let current = sha256_hex_of(fm[fid].claim);
    if current != stamped {
        Err(stale_msg(side, fid, current, stamped))
    } else {
        Ok(())
    }
}

/// Re-check one proposal-side pin against the current claim of `fact_id`.
pub fn check_claim_pin(facts: &StrMap<NarrativeFact>, fact_id: &str, stamped: &str, side: &str) -> (r:
    Result<(), String>)
    requires
        facts@.contains_key(fact_id@),
    ensures
        match r {
            Ok(()) => pin_check(facts_v(*facts), fact_id@, stamped@, side@) == Ok::<(), Seq<char>>(()),
            Err(m) => pin_check(facts_v(*facts), fact_id@, stamped@, side@) == Err::<(), _>(m@),
        },
{
    facts.establish_wf();
    let current = match facts.get(fact_id) {
        Some(f) => sha256_hex(f.claim.as_str()),
        None => String::new(),
    };
    if !str_eq(current.as_str(), stamped) {
        let mut m = cat3("stale proposal: ", side, " `");
        m.append(fact_id);
        m.append("` claim sha256 is `");
        m.append(current.as_str());
        m.append("` but the proposal interpreted `");
        m.append(stamped);
        m.append(
            "` — the claim changed after proposing; re-run discovery against the current text",
        );
        return Err(m);
    }
    Ok(())
}

// ---------------------------------------------------------------------------
// Typing proposals.
// ---------------------------------------------------------------------------
/// One proposed typed leg for an existing untyped fact.
#[derive(Debug, Clone)]
pub struct TypingProposal {
    /// Target fact id (must exist and be untyped).
    pub fact: String,
    /// The proposed leg.
    pub typed: TypedClaim,
    /// SHA-256 of the claim text the proposer interpreted.
    pub claim_sha256: String,
    /// Prose justification a human reads before accepting.
    pub rationale: String,
}

/// A `typing-proposals/v1` artifact.
#[derive(Debug, Clone)]
pub struct TypingProposalsFile {
    pub schema: String,
    pub comment: String,
    pub proposals: Vec<TypingProposal>,
}

/// Why a parsed typing-proposals file is refused before any proposal is
/// judged: an unknown schema, or no proposals at all.
pub open spec fn typing_file_problem(schema: Seq<char>, count: nat) -> Option<Seq<char>> {
    if schema != "typing-proposals/v1"@ {
        Some(
            "typing-proposals: schema `"@ + schema
                + "` is not `typing-proposals/v1` (fail-loud — an unknown schema must not half-apply)"@,
        )
    } else if count == 0 {
        Some("typing-proposals: empty proposals list (nothing to import)"@)
    } else {
        None
    }
}

/// Shape-check a parsed typing-proposals file: the schema must be
/// `typing-proposals/v1` and the list non-empty.
pub fn check_typing_proposals_file(file: &TypingProposalsFile) -> (r: Result<(), String>)
    ensures
        match r {
            Ok(()) => typing_file_problem(file.schema@, file.proposals@.len()) is None,
            Err(m) => typing_file_problem(file.schema@, file.proposals@.len()) == Some(m@),
        },
{
    if !str_eq(file.schema.as_str(), "typing-proposals/v1") {
        return Err(
            cat3(
                "typing-proposals: schema `",
                file.schema.as_str(),
                "` is not `typing-proposals/v1` (fail-loud — an unknown schema must not half-apply)",
            ),
        );
    }
    if file.proposals.len() == 0 {
        return Err(owned("typing-proposals: empty proposals list (nothing to import)"));
    }
    Ok(())
}

/// How one proposal was judged: `accepted`, or why it was refused.
#[derive(Debug, Clone, PartialEq, Eq)]
pub struct TypingProposalVerdict {
    pub fact: String,
    pub verdict: String,
}

/// What a typing-proposals import found and did. `applied` holds only for a
/// real run in which every proposal was accepted.
#[derive(Debug, Clone)]
pub struct TypingImportReport {
    pub file_sha256: String,
    pub verdicts: Vec<TypingProposalVerdict>,
    pub accepted: usize,
    pub rejected: usize,
    pub dry_run: bool,
    pub applied: bool,
}

/// A typing proposal by value: fact, leg, pin, rationale.
pub open spec fn typing_v(p: TypingProposal) -> (Seq<char>, TypedView, Seq<char>, Seq<char>) {
    (p.fact@, p.typed.deep_view(), p.claim_sha256@, p.rationale@)
}

/// Typing proposals by value, in order.
pub open spec fn typings_v(ps: Seq<TypingProposal>) -> Seq<(Seq<char>, TypedView, Seq<char>, Seq<char>)> {
    ps.map_values(|p: TypingProposal| typing_v(p))
}

/// The verdict on proposal `i`: the typed leg it sets, or why it is
/// refused. A fact id already named by an earlier proposal is ambiguous.
pub open spec fn typing_verdict(
    s: AtomicStore,
    ps: Seq<(Seq<char>, TypedView, Seq<char>, Seq<char>)>,
    i: int,
) -> Result<TypedView, Seq<char>> {
    let fm = facts_v(s.narrative_facts);
    let fid = trim_seq(ps[i].0);
    if fid.len() == 0 {
        Err("fact id mandatory (non-empty)"@)
    } else if exists|j: int| 0 <= j < i && #[trigger] trim_seq(ps[j].0) == fid {
        Err(
            "duplicate proposal for fact `"@ + fid
                + "` in one file — ambiguous, keep exactly one"@,
        )
    } else if !fm.contains_key(fid) {
        Err(
            "fact `"@ + fid
                + "` not present in atomic store (proposals target existing facts; add_fact creates)"@,
        )
    } else if fm[fid].typed is Some {
        Err(
            "fact `"@ + fid
                + "` already carries a typed leg — fill-blanks only (overwrite is manual author territory: amend-fact)"@,
        )
    } else {
        match pin_check(fm, fid, ps[i].2, "fact"@) {
            Err(m) => Err(m),
            Ok(()) => if is_blank_seq(ps[i].3) {
                Err("fact `"@ + fid + "`: rationale mandatory (the reviewable substance)"@)
            } else {
                typed_outcome(crate::registry::narr_of(s), fid, ps[i].1, fm[fid].entities)
            },
        }
    }
}

/// The legs the first `n` proposals would set, in order: one per accepted
/// proposal.
pub open spec fn typing_legs(s: AtomicStore, ps: Seq<(Seq<char>, TypedView, Seq<char>, Seq<char>)>, n: nat) -> Seq<
    (Seq<char>, TypedView),
>
    decreases n,
{
    if n == 0 {
        Seq::empty()
    } else {
        match typing_verdict(s, ps, n - 1) {
            Ok(tv) => typing_legs(s, ps, (n - 1) as nat).push((trim_seq(ps[n - 1].0), tv)),
            Err(_) => typing_legs(s, ps, (n - 1) as nat),
        }
    }
}

/// The verdict text of proposal `i`.
pub open spec fn typing_verdict_text(
    s: AtomicStore,
    ps: Seq<(Seq<char>, TypedView, Seq<char>, Seq<char>)>,
    i: int,
) -> Seq<char> {
    match typing_verdict(s, ps, i) {
        Ok(_) => "accepted"@,
        Err(m) => m,
    }
}

/// The facts after setting each leg in order.
pub open spec fn with_legs(fm: Map<Seq<char>, FactView>, legs: Seq<(Seq<char>, TypedView)>) -> Map<
    Seq<char>,
    FactView,
>
    decreases legs.len(),
{
    if legs.len() == 0 {
        fm
    } else {
        let prev = with_legs(fm, legs.drop_last());
        let (k, tv) = legs.last();
        prev.insert(k, FactView { typed: Some(tv), ..prev[k] })
    }
}

proof fn lemma_legs_present(s: AtomicStore, ps: Seq<(Seq<char>, TypedView, Seq<char>, Seq<char>)>, n: nat)
    ensures
        forall|k: int|
            0 <= k < typing_legs(s, ps, n).len() ==> facts_v(s.narrative_facts).contains_key(
                #[trigger] typing_legs(s, ps, n)[k].0,
            ),
    decreases n,
{
    if n > 0 {
        lemma_legs_present(s, ps, (n - 1) as nat);
        let prev = typing_legs(s, ps, (n - 1) as nat);
        if typing_verdict(s, ps, n - 1) is Ok {
            assert(facts_v(s.narrative_facts).contains_key(trim_seq(ps[n - 1].0)));
            assert forall|k: int| 0 <= k < prev.len() implies typing_legs(s, ps, n)[k] == prev[k] by {}
        }
    }
}

proof fn lemma_legs_len(s: AtomicStore, ps: Seq<(Seq<char>, TypedView, Seq<char>, Seq<char>)>, n: nat)
    ensures
        typing_legs(s, ps, n).len() <= n,
    decreases n,
{
    if n > 0 {
        lemma_legs_len(s, ps, (n - 1) as nat);
    }
}

proof fn lemma_with_legs_dom(fm: Map<Seq<char>, FactView>, legs: Seq<(Seq<char>, TypedView)>)
    requires
        forall|k: int| 0 <= k < legs.len() ==> fm.contains_key(#[trigger] legs[k].0),
    ensures
        with_legs(fm, legs).dom() == fm.dom(),
    decreases legs.len(),
{
    if legs.len() > 0 {
        let t = legs.drop_last();
        assert forall|k: int| 0 <= k < t.len() implies fm.contains_key(#[trigger] t[k].0) by {
            assert(t[k] == legs[k]);
        }
        lemma_with_legs_dom(fm, t);
        assert(fm.contains_key(legs[legs.len() - 1].0));
        assert(with_legs(fm, legs).dom() =~= fm.dom());
    }
}

/// Import typed legs from a reviewed `typing-proposals/v1` artifact, all
/// or nothing: every proposal gets a verdict; a real run with every
/// proposal accepted sets each leg, anything else changes nothing.
pub fn import_typing_proposals(
    store: &mut AtomicStore,
    file: &TypingProposalsFile,
    file_sha256: &str,
    dry_run: bool,
) -> (r: TypingImportReport)
    ensures
        final(store).wf(),
        ({
            let s = *old(store);
            let ps = typings_v(file.proposals@);
            let legs = typing_legs(s, ps, ps.len());
            &&& r.file_sha256@ == file_sha256@
            &&& r.dry_run == dry_run
            &&& r.verdicts@.len() == ps.len()
            &&& forall|i: int|
                0 <= i < ps.len() ==> (#[trigger] r.verdicts@[i]).fact@ == trim_seq(ps[i].0)
                    && r.verdicts@[i].verdict@ == typing_verdict_text(s, ps, i)
            &&& r.accepted == legs.len()
            &&& r.rejected == ps.len() - legs.len()
            &&& r.applied == (!dry_run && legs.len() == ps.len())
            &&& facts_v(final(store).narrative_facts) == (if r.applied {
                with_legs(facts_v(s.narrative_facts), legs)
            } else {
                facts_v(s.narrative_facts)
            })
            &&& *final(store) == (AtomicStore {
                narrative_facts: final(store).narrative_facts,
                ..*old(store)
            })
        }),
{
    store.establish_wf();
    let ghost s = *store;
    let ghost ps = typings_v(file.proposals@);
    let ghost fm = facts_v(store.narrative_facts);
    let mut seen: Vec<String> = Vec::new();
    let mut verdicts: Vec<TypingProposalVerdict> = Vec::new();
    let mut built: Vec<(String, TypedClaim)> = Vec::new();
    let mut i: usize = 0;
    while i < file.proposals.len()
        invariant
            store.wf(),
            *store == s,
            fm == facts_v(store.narrative_facts),
            ps == typings_v(file.proposals@),
            i <= file.proposals@.len(),
            verdicts@.len() == i,
            forall|j: int|
                0 <= j < i ==> (#[trigger] verdicts@[j]).fact@ == trim_seq(ps[j].0)
                    && verdicts@[j].verdict@ == typing_verdict_text(s, ps, j),
            built@.map_values(|b: (String, TypedClaim)| (b.0@, b.1.deep_view())) == typing_legs(
                s,
                ps,
                i as nat,
            ),
            built@.len() <= i,
            forall|y: Seq<char>|
                strs(seen).contains(y) <==> exists|j: int|
                    0 <= j < i && #[trigger] trim_seq(ps[j].0) == y && y.len() > 0,
        decreases file.proposals@.len() - i,
    {
        let p = &file.proposals[i];
        assert(ps[i as int] == typing_v(*p));
        let fact_id = trim(p.fact.as_str());
        let fid = fact_id.as_str();
        let ghost seen_before = strs(seen);
        let blank_id = fid.unicode_len() == 0;
        let dup = !blank_id && crate::facts::has_str(&seen, fid);
        if !blank_id && !dup {
            seen.push(owned(fid));
            assert(strs(seen) =~= seen_before.push(fid@));
        }
        let verdict: Result<TypedClaim, String> = if blank_id {
            Err(owned("fact id mandatory (non-empty)"))
        } else if dup {
            proof {
                let j = choose|j: int| 0 <= j < i && #[trigger] trim_seq(ps[j].0) == fid@ && fid@.len() > 0;
                assert(exists|j: int| 0 <= j < i && #[trigger] trim_seq(ps[j].0) == fid@);
            }
            Err(
                cat3(
                    "duplicate proposal for fact `",
                    fid,
                    "` in one file — ambiguous, keep exactly one",
                ),
            )
        } else {
            proof {
                assert(!exists|j: int| 0 <= j < i && #[trigger] trim_seq(ps[j].0) == fid@);
            }
            match store.narrative_facts.get(fid) {
                None => Err(
                    cat3(
                        "fact `",
                        fid,
                        "` not present in atomic store (proposals target existing facts; add_fact creates)",
                    ),
                ),
                Some(fact) => {
                    assert(fm[fid@] == fact.deep_view());
                    if fact.typed.is_some() {
                        Err(
                            cat3(
                                "fact `",
                                fid,
                                "` already carries a typed leg — fill-blanks only (overwrite is manual author territory: amend-fact)",
                            ),
                        )
                    } else {
                        match check_claim_pin(
                            &store.narrative_facts,
                            fid,
                            p.claim_sha256.as_str(),
                            "fact",
                        ) {
                            Err(m) => Err(m),
                            Ok(()) => if is_blank(p.rationale.as_str()) {
                                Err(
                                    cat3(
                                        "fact `",
                                        fid,
                                        "`: rationale mandatory (the reviewable substance)",
                                    ),
                                )
                            } else {
                                build_typed_claim(store, fid, &p.typed, &fact.entities)
                            },
                        }
                    }
                },
            }
        };
        proof {
            assert(trim_seq(ps[i as int].0) == fid@);
            assert forall|y: Seq<char>|
                strs(seen).contains(y) <==> exists|j: int|
                    0 <= j < i + 1 && #[trigger] trim_seq(ps[j].0) == y && y.len() > 0 by {
                let old_e = exists|j: int| 0 <= j < i && #[trigger] trim_seq(ps[j].0) == y && y.len() > 0;
                assert(seen_before.contains(y) == old_e);
                if exists|j: int| 0 <= j < i + 1 && #[trigger] trim_seq(ps[j].0) == y && y.len() > 0 {
                    let j = choose|j: int| 0 <= j < i + 1 && #[trigger] trim_seq(ps[j].0) == y && y.len() > 0;
                    if j < i {
                        assert(old_e);
                    } else {
                        assert(y == fid@);
                    }
                }
                if old_e {
                    let j = choose|j: int| 0 <= j < i && #[trigger] trim_seq(ps[j].0) == y && y.len() > 0;
                    assert(0 <= j < i + 1 && trim_seq(ps[j].0) == y && y.len() > 0);
                }
                if !blank_id && !dup {
                    let sn = strs(seen);
                    assert(sn == seen_before.push(fid@));
                    if y == fid@ {
                        assert(0 <= i < i + 1 && trim_seq(ps[i as int].0) == y && y.len() > 0);
                        assert(sn[seen_before.len() as int] == y);
                    }
                    if seen_before.contains(y) {
                        let k = choose|k: int| 0 <= k < seen_before.len() && seen_before[k] == y;
                        assert(sn[k] == y);
                    }
                    if sn.contains(y) {
                        let k = choose|k: int| 0 <= k < sn.len() && sn[k] == y;
                        if k < seen_before.len() {
                            assert(seen_before[k] == y);
                        }
                    }
                } else {
                    assert(strs(seen) == seen_before);
                    if dup && y == fid@ {
                        assert(seen_before.contains(fid@));
                    }
                }
            }
        }
        let ghost bv = built@.map_values(|b: (String, TypedClaim)| (b.0@, b.1.deep_view()));
        match verdict {
            Ok(leg) => {
                assert(typing_verdict(s, ps, i as int) == Ok::<_, Seq<char>>(leg.deep_view()));
                verdicts.push(TypingProposalVerdict { fact: owned(fid), verdict: owned("accepted") });
                let ghost lv = leg.deep_view();
                built.push((owned(fid), leg));
                assert(built@.map_values(|b: (String, TypedClaim)| (b.0@, b.1.deep_view())) =~= bv.push(
                    (fid@, lv),
                ));
            },
            Err(reason) => {
                assert(typing_verdict(s, ps, i as int) == Err::<TypedView, _>(reason@));
                verdicts.push(TypingProposalVerdict { fact: owned(fid), verdict: reason });
            },
        }
        i = i + 1;
    }
    let accepted = built.len();
    let rejected = verdicts.len() - accepted;
    let apply = !dry_run && rejected == 0;
    if apply {
        let ghost legs = typing_legs(s, ps, ps.len());
        let mut k: usize = 0;
        while k < built.len()
            invariant
                store.wf(),
                *store == (AtomicStore { narrative_facts: store.narrative_facts, ..s }),
                built@.map_values(|b: (String, TypedClaim)| (b.0@, b.1.deep_view())) == legs,
                legs == typing_legs(s, ps, ps.len()),
                fm == facts_v(s.narrative_facts),
                k <= built@.len(),
                facts_v(store.narrative_facts) == with_legs(fm, legs.take(k as int)),
            decreases built@.len() - k,
        {
            proof {
                lemma_legs_present(s, ps, ps.len());
                assert(fm.contains_key(legs[k as int].0));
                let t = legs.take(k as int);
                assert forall|j: int| 0 <= j < t.len() implies fm.contains_key(#[trigger] t[j].0) by {
                    assert(t[j] == legs[j]);
                }
                lemma_with_legs_dom(fm, t);
            }
            let key = built[k].0.as_str();
            assert(legs[k as int].0 == key@);
            let ghost before = facts_v(store.narrative_facts);
            let mut f = match store.narrative_facts.remove(key) {
                Some(f) => f,
                None => {
                    return TypingImportReport {
                        file_sha256: owned(file_sha256),
                        verdicts,
                        accepted,
                        rejected,
                        dry_run,
                        applied: apply,
                    };
                },
            };
            f.typed = Some(crate::narrative::clone_typed(&built[k].1));
            let ghost fv = f.deep_view();
            store.narrative_facts.insert(owned(key), f);
            proof {
                assert(legs.take(k + 1).drop_last() =~= legs.take(k as int));
                assert(facts_v(store.narrative_facts) =~= before.insert(key@, fv));
            }
            k = k + 1;
        }
        assert(legs.take(built@.len() as int) =~= legs);
    }
    TypingImportReport {
        file_sha256: owned(file_sha256),
        verdicts,
        accepted,
        rejected,
        dry_run,
        applied: apply,
    }
}

} // verus!

verus! {

// ---------------------------------------------------------------------------
// Edge proposals.
// ---------------------------------------------------------------------------
/// One proposed succession edge: `successor` supersedes `predecessor` in
/// frame.
#[derive(Debug, Clone)]
pub struct SuccessionProposal {
    pub successor: String,
    pub predecessor: String,
    pub successor_claim_sha256: String,
    pub predecessor_claim_sha256: String,
    pub rationale: String,
}

/// One proposed conflict edge, stored on `fact`.
#[derive(Debug, Clone)]
pub struct ConflictProposal {
    pub fact: String,
    pub target: String,
    pub fact_claim_sha256: String,
    pub target_claim_sha256: String,
    pub rationale: String,
}

/// An `edge-proposals/v1` artifact.
#[derive(Debug, Clone)]
pub struct EdgeProposalsFile {
    pub schema: String,
    pub comment: String,
    pub succession: Vec<SuccessionProposal>,
    pub conflicts: Vec<ConflictProposal>,
}

/// Why a parsed edge-proposals file is refused before any proposal is
/// judged: an unknown schema, or neither successions nor conflicts.
pub open spec fn edge_file_problem(schema: Seq<char>, successions: nat, conflicts: nat) -> Option<
    Seq<char>,
> {
    if schema != "edge-proposals/v1"@ {
        Some(
            "edge-proposals: schema `"@ + schema
                + "` is not `edge-proposals/v1` (fail-loud — an unknown schema must not half-apply)"@,
        )
    } else if successions == 0 && conflicts == 0 {
        Some("edge-proposals: no proposals (nothing to import)"@)
    } else {
        None
    }
}

/// Shape-check a parsed edge-proposals file: the schema must be
/// `edge-proposals/v1` and at least one edge proposed.
pub fn check_edge_proposals_file(file: &EdgeProposalsFile) -> (r: Result<(), String>)
    ensures
        match r {
            Ok(()) => edge_file_problem(
                file.schema@,
                file.succession@.len(),
                file.conflicts@.len(),
            ) is None,
            Err(m) => edge_file_problem(file.schema@, file.succession@.len(), file.conflicts@.len())
                == Some(m@),
        },
{
    if !str_eq(file.schema.as_str(), "edge-proposals/v1") {
        return Err(
            cat3(
                "edge-proposals: schema `",
                file.schema.as_str(),
                "` is not `edge-proposals/v1` (fail-loud — an unknown schema must not half-apply)",
            ),
        );
    }
    if file.succession.len() == 0 && file.conflicts.len() == 0 {
        return Err(owned("edge-proposals: no proposals (nothing to import)"));
    }
    Ok(())
}

/// One per-proposal verdict. `kind` is `succession` or `conflict`; for a
/// succession `fact` is the successor and `target` the predecessor.
#[derive(Debug, Clone, PartialEq, Eq)]
pub struct EdgeProposalVerdict {
    pub kind: &'static str,
    pub fact: String,
    pub target: String,
    pub verdict: String,
}

/// What an edge-proposals import found and did.
#[derive(Debug, Clone)]
pub struct EdgeImportReport {
    pub file_sha256: String,
    pub verdicts: Vec<EdgeProposalVerdict>,
    pub accepted: usize,
    pub rejected: usize,
    pub dry_run: bool,
    pub applied: bool,
}

/// A proposal with two endpoints by value: the two ids, the two pins and
/// the rationale.
pub type EdgeV = (Seq<char>, Seq<char>, Seq<char>, Seq<char>, Seq<char>);

/// Succession proposals by value, in order.
pub open spec fn successions_v(ps: Seq<SuccessionProposal>) -> Seq<EdgeV> {
    ps.map_values(
        |p: SuccessionProposal|
            (
                p.successor@,
                p.predecessor@,
                p.successor_claim_sha256@,
                p.predecessor_claim_sha256@,
                p.rationale@,
            ),
    )
}

/// Conflict proposals by value, in order.
pub open spec fn conflicts_v(ps: Seq<ConflictProposal>) -> Seq<EdgeV> {
    ps.map_values(
        |p: ConflictProposal|
            (p.fact@, p.target@, p.fact_claim_sha256@, p.target_claim_sha256@, p.rationale@),
    )
}

/// Whether succession proposal `j` names a successor for the duplicate
/// rule: both ids non-blank.
pub open spec fn names_successor(ps: Seq<EdgeV>, j: int) -> bool {
    trim_seq(ps[j].0).len() > 0 && trim_seq(ps[j].1).len() > 0
}

/// The verdict on succession proposal `i`, given the edges accepted before
/// it.
pub open spec fn succession_verdict(
    fm: Map<Seq<char>, FactView>,
    bs: Map<Seq<char>, crate::narrative::BranchView>,
    ps: Seq<EdgeV>,
    i: int,
    edges: Seq<(Seq<char>, Seq<char>)>,
) -> Result<(), Seq<char>> {
    let s = trim_seq(ps[i].0);
    let p = trim_seq(ps[i].1);
    if s.len() == 0 || p.len() == 0 {
        Err("successor and predecessor both mandatory (non-empty)"@)
    } else if exists|j: int| 0 <= j < i && names_successor(ps, j) && #[trigger] trim_seq(ps[j].0) == s {
        Err(
            "duplicate proposal for successor `"@ + s
                + "` in one file — ambiguous, keep exactly one"@,
        )
    } else if !fm.contains_key(s) {
        Err(
            "successor `"@ + s
                + "` not present in atomic store (proposals target existing facts; add_fact creates)"@,
        )
    } else if fm[s].supersedes_in_frame is Some {
        Err(
            "successor `"@ + s
                + "` already carries a succession pointer — fill-blanks only (retargeting is manual author territory: amend-fact)"@,
        )
    } else if !fm.contains_key(p) {
        Err("predecessor `"@ + p + "` not present in atomic store"@)
    } else {
        match pin_check(fm, s, ps[i].2, "successor"@) {
            Err(m) => Err(m),
            Ok(()) => match pin_check(fm, p, ps[i].3, "predecessor"@) {
                Err(m) => Err(m),
                Ok(()) => if is_blank_seq(ps[i].4) {
                    Err("rationale mandatory (the reviewable substance)"@)
                } else {
                    crate::succession::succession_outcome(
                        fm,
                        bs,
                        edges,
                        s,
                        fm[s].frame,
                        fm[s].branch,
                        p,
                        crate::succession::walk_fuel(fm.dom().len(), 0, edges.len()),
                    )
                },
            },
        }
    }
}

/// The succession edges the first `n` proposals stage, in order.
pub open spec fn succession_edges(
    fm: Map<Seq<char>, FactView>,
    bs: Map<Seq<char>, crate::narrative::BranchView>,
    ps: Seq<EdgeV>,
    n: nat,
) -> Seq<(Seq<char>, Seq<char>)>
    decreases n,
{
    if n == 0 {
        Seq::empty()
    } else {
        let prev = succession_edges(fm, bs, ps, (n - 1) as nat);
        match succession_verdict(fm, bs, ps, n - 1, prev) {
            Ok(()) => prev.push((trim_seq(ps[n - 1].0), trim_seq(ps[n - 1].1))),
            Err(_) => prev,
        }
    }
}

/// The pair a conflict proposal names, in canonical order.
pub open spec fn pair_key(a: Seq<char>, b: Seq<char>) -> (Seq<char>, Seq<char>) {
    if crate::order::lex_lt(a, b) {
        (a, b)
    } else {
        (b, a)
    }
}

/// Whether conflict proposal `j` reached the duplicate rule: both ids
/// non-blank, distinct, and present.
pub open spec fn reaches_pair(fm: Map<Seq<char>, FactView>, ps: Seq<EdgeV>, j: int) -> bool {
    let f = trim_seq(ps[j].0);
    let t = trim_seq(ps[j].1);
    f.len() > 0 && t.len() > 0 && f != t && fm.contains_key(f) && fm.contains_key(t)
}

/// The verdict on conflict proposal `i`.
pub open spec fn conflict_verdict(fm: Map<Seq<char>, FactView>, ps: Seq<EdgeV>, i: int) -> Result<(), Seq<char>> {
    let f = trim_seq(ps[i].0);
    let t = trim_seq(ps[i].1);
    if f.len() == 0 || t.len() == 0 {
        Err("fact and target both mandatory (non-empty)"@)
    } else if f == t {
        Err("a fact cannot conflict with itself"@)
    } else if !fm.contains_key(f) {
        Err("fact `"@ + f + "` not present in atomic store"@)
    } else if !fm.contains_key(t) {
        Err("target `"@ + t + "` not present in atomic store"@)
    } else if exists|j: int|
        0 <= j < i && reaches_pair(fm, ps, j) && #[trigger] pair_key(
            trim_seq(ps[j].0),
            trim_seq(ps[j].1),
        ) == pair_key(f, t) {
        Err(
            "duplicate proposal for conflict pair `"@ + f + "` <-> `"@ + t
                + "` in one file — ambiguous, keep exactly one"@,
        )
    } else if crate::fact_ops::conflict_recorded(fm, f, t) {
        Err(
            "conflict edge `"@ + f + "` <-> `"@ + t
                + "` already recorded — never re-propose existing structure"@,
        )
    } else {
        match pin_check(fm, f, ps[i].2, "fact"@) {
            Err(m) => Err(m),
            Ok(()) => match pin_check(fm, t, ps[i].3, "target"@) {
                Err(m) => Err(m),
                Ok(()) => if is_blank_seq(ps[i].4) {
                    Err("rationale mandatory (the reviewable substance)"@)
                } else {
                    Ok(())
                },
            },
        }
    }
}

/// The conflict edges the first `n` proposals apply, in order.
pub open spec fn conflict_applies(fm: Map<Seq<char>, FactView>, ps: Seq<EdgeV>, n: nat) -> Seq<
    (Seq<char>, Seq<char>),
>
    decreases n,
{
    if n == 0 {
        Seq::empty()
    } else {
        let prev = conflict_applies(fm, ps, (n - 1) as nat);
        match conflict_verdict(fm, ps, n - 1) {
            Ok(()) => prev.push((trim_seq(ps[n - 1].0), trim_seq(ps[n - 1].1))),
            Err(_) => prev,
        }
    }
}

/// The verdict text of a verdict.
pub open spec fn verdict_text(v: Result<(), Seq<char>>) -> Seq<char> {
    match v {
        Ok(()) => "accepted"@,
        Err(m) => m,
    }
}

/// The facts after pointing each successor at its predecessor, in order.
pub open spec fn with_successions(fm: Map<Seq<char>, FactView>, edges: Seq<(Seq<char>, Seq<char>)>) -> Map<
    Seq<char>,
    FactView,
>
    decreases edges.len(),
{
    if edges.len() == 0 {
        fm
    } else {
        let prev = with_successions(fm, edges.drop_last());
        let (s, p) = edges.last();
        prev.insert(s, FactView { supersedes_in_frame: Some(p), ..prev[s] })
    }
}

/// The facts after appending each conflict assertion, in order, each pinned
/// to its target's claim.
pub open spec fn with_conflicts(fm: Map<Seq<char>, FactView>, pairs: Seq<(Seq<char>, Seq<char>)>) -> Map<
    Seq<char>,
    FactView,
>
    decreases pairs.len(),
{
    if pairs.len() == 0 {
        fm
    } else {
        let prev = with_conflicts(fm, pairs.drop_last());
        let (f, t) = pairs.last();
        prev.insert(
            f,
            FactView {
                conflicts_with: prev[f].conflicts_with.push((t, sha256_hex_of(prev[t].claim))),
                ..prev[f]
            },
        )
    }
}

} // verus!

verus! {

fn has_pair(v: &Vec<(String, String)>, a: &str, b: &str) -> (r: bool)
    ensures
        r == crate::succession::edges_v(v@).contains((a@, b@)),
{
    let ghost ev = crate::succession::edges_v(v@);
    let mut i: usize = 0;
    while i < v.len()
        invariant
            i <= v@.len(),
            ev == crate::succession::edges_v(v@),
            forall|j: int| 0 <= j < i ==> ev[j] != (a@, b@),
        decreases v@.len() - i,
    {
        assert(ev[i as int] == (v@[i as int].0@, v@[i as int].1@));
        if str_eq(v[i].0.as_str(), a) && str_eq(v[i].1.as_str(), b) {
            return true;
        }
        i = i + 1;
    }
    false
}

fn judge_succession(
    store: &AtomicStore,
    p: &SuccessionProposal,
    seen: &Vec<String>,
    staged: &Vec<(String, String)>,
    Ghost(ps): Ghost<Seq<EdgeV>>,
    Ghost(i): Ghost<int>,
) -> (r: Result<(), String>)
    requires
        store.wf(),
        0 <= i < ps.len(),
        ps[i] == (
            p.successor@,
            p.predecessor@,
            p.successor_claim_sha256@,
            p.predecessor_claim_sha256@,
            p.rationale@,
        ),
        forall|y: Seq<char>|
            strs(*seen).contains(y) <==> exists|j: int|
                0 <= j < i && names_successor(ps, j) && #[trigger] trim_seq(ps[j].0) == y,
    ensures
        ({
            let v = succession_verdict(
                facts_v(store.narrative_facts),
                crate::registry::branches_v(store.branches),
                ps,
                i,
                crate::succession::edges_v(staged@),
            );
            match r {
                Ok(()) => v == Ok::<(), Seq<char>>(()),
                Err(m) => v == Err::<(), _>(m@),
            }
        }),
{
    let ghost fm = facts_v(store.narrative_facts);
    let s = trim(p.successor.as_str());
    let pr = trim(p.predecessor.as_str());
    if s.as_str().unicode_len() == 0 || pr.as_str().unicode_len() == 0 {
        return Err(owned("successor and predecessor both mandatory (non-empty)"));
    }
    if crate::facts::has_str(seen, s.as_str()) {
        return Err(
            cat3(
                "duplicate proposal for successor `",
                s.as_str(),
                "` in one file — ambiguous, keep exactly one",
            ),
        );
    }
    let sf = match store.narrative_facts.get(s.as_str()) {
        None => {
            return Err(
                cat3(
                    "successor `",
                    s.as_str(),
                    "` not present in atomic store (proposals target existing facts; add_fact creates)",
                ),
            );
        },
        Some(f) => f,
    };
    assert(fm[s@] == sf.deep_view());
    if sf.supersedes_in_frame.is_some() {
        return Err(
            cat3(
                "successor `",
                s.as_str(),
                "` already carries a succession pointer — fill-blanks only (retargeting is manual author territory: amend-fact)",
            ),
        );
    }
    if !store.narrative_facts.contains_key(pr.as_str()) {
        return Err(cat3("predecessor `", pr.as_str(), "` not present in atomic store"));
    }
    check_claim_pin(
        &store.narrative_facts,
        s.as_str(),
        p.successor_claim_sha256.as_str(),
        "successor",
    )?;
    check_claim_pin(
        &store.narrative_facts,
        pr.as_str(),
        p.predecessor_claim_sha256.as_str(),
        "predecessor",
    )?;
    if is_blank(p.rationale.as_str()) {
        return Err(owned("rationale mandatory (the reviewable substance)"));
    }
    let no_staged: Vec<(String, NarrativeFact)> = Vec::new();
    proof {
        assert(crate::succession::staged_v(no_staged@) =~= Seq::<(Seq<char>, FactView)>::empty());
        store.narrative_facts.lemma_wf();
        assert(fm.dom() =~= store.narrative_facts@.dom());
    }
    crate::succession::check_succession_edge(
        s.as_str(),
        sf.frame.as_str(),
        sf.branch.as_str(),
        pr.as_str(),
        &store.narrative_facts,
        &no_staged,
        &store.branches,
        staged,
    )
}

fn judge_conflict(
    store: &AtomicStore,
    p: &ConflictProposal,
    keys: &Vec<(String, String)>,
    Ghost(ps): Ghost<Seq<EdgeV>>,
    Ghost(i): Ghost<int>,
) -> (r: Result<(), String>)
    requires
        store.wf(),
        0 <= i < ps.len(),
        ps[i] == (p.fact@, p.target@, p.fact_claim_sha256@, p.target_claim_sha256@, p.rationale@),
        forall|k: (Seq<char>, Seq<char>)|
            crate::succession::edges_v(keys@).contains(k) <==> exists|j: int|
                0 <= j < i && reaches_pair(facts_v(store.narrative_facts), ps, j) && #[trigger] pair_key(
                    trim_seq(ps[j].0),
                    trim_seq(ps[j].1),
                ) == k,
    ensures
        ({
            let v = conflict_verdict(facts_v(store.narrative_facts), ps, i);
            match r {
                Ok(()) => v == Ok::<(), Seq<char>>(()),
                Err(m) => v == Err::<(), _>(m@),
            }
        }),
{
    let f = trim(p.fact.as_str());
    let t = trim(p.target.as_str());
    if f.as_str().unicode_len() == 0 || t.as_str().unicode_len() == 0 {
        return Err(owned("fact and target both mandatory (non-empty)"));
    }
    if str_eq(f.as_str(), t.as_str()) {
        return Err(owned("a fact cannot conflict with itself"));
    }
    if !store.narrative_facts.contains_key(f.as_str()) {
        return Err(cat3("fact `", f.as_str(), "` not present in atomic store"));
    }
    if !store.narrative_facts.contains_key(t.as_str()) {
        return Err(cat3("target `", t.as_str(), "` not present in atomic store"));
    }
    let less = crate::order::compare_str(f.as_str(), t.as_str()) < 0;
    let dup = if less {
        has_pair(keys, f.as_str(), t.as_str())
    } else {
        has_pair(keys, t.as_str(), f.as_str())
    };
    if dup {
        let mut m = cat3("duplicate proposal for conflict pair `", f.as_str(), "` <-> `");
        m.append(t.as_str());
        m.append("` in one file — ambiguous, keep exactly one");
        return Err(m);
    }
    if crate::fact_ops::conflict_edge_recorded(&store.narrative_facts, f.as_str(), t.as_str()) {
        let mut m = cat3("conflict edge `", f.as_str(), "` <-> `");
        m.append(t.as_str());
        m.append("` already recorded — never re-propose existing structure");
        return Err(m);
    }
    check_claim_pin(&store.narrative_facts, f.as_str(), p.fact_claim_sha256.as_str(), "fact")?;
    check_claim_pin(&store.narrative_facts, t.as_str(), p.target_claim_sha256.as_str(), "target")?;
    if is_blank(p.rationale.as_str()) {
        return Err(owned("rationale mandatory (the reviewable substance)"));
    }
    Ok(())
}

} // verus!

verus! {

proof fn lemma_edges_present(
    fm: Map<Seq<char>, FactView>,
    bs: Map<Seq<char>, crate::narrative::BranchView>,
    ps: Seq<EdgeV>,
    n: nat,
)
    ensures
        succession_edges(fm, bs, ps, n).len() <= n,
        forall|k: int|
            0 <= k < succession_edges(fm, bs, ps, n).len() ==> fm.contains_key(
                #[trigger] succession_edges(fm, bs, ps, n)[k].0,
            ),
    decreases n,
{
    if n > 0 {
        lemma_edges_present(fm, bs, ps, (n - 1) as nat);
        let prev = succession_edges(fm, bs, ps, (n - 1) as nat);
        if succession_verdict(fm, bs, ps, n - 1, prev) is Ok {
            assert(fm.contains_key(trim_seq(ps[n - 1].0)));
            assert forall|k: int| 0 <= k < prev.len() implies succession_edges(fm, bs, ps, n)[k]
                == prev[k] by {}
        }
    }
}

proof fn lemma_applies_present(fm: Map<Seq<char>, FactView>, ps: Seq<EdgeV>, n: nat)
    ensures
        conflict_applies(fm, ps, n).len() <= n,
        forall|k: int|
            0 <= k < conflict_applies(fm, ps, n).len() ==> fm.contains_key(
                (#[trigger] conflict_applies(fm, ps, n)[k]).0,
            ) && fm.contains_key(conflict_applies(fm, ps, n)[k].1),
    decreases n,
{
    if n > 0 {
        lemma_applies_present(fm, ps, (n - 1) as nat);
        let prev = conflict_applies(fm, ps, (n - 1) as nat);
        if conflict_verdict(fm, ps, n - 1) is Ok {
            assert(fm.contains_key(trim_seq(ps[n - 1].0)));
            assert(fm.contains_key(trim_seq(ps[n - 1].1)));
            assert forall|k: int| 0 <= k < prev.len() implies conflict_applies(fm, ps, n)[k]
                == prev[k] by {}
        }
    }
}

proof fn lemma_with_successions_dom(fm: Map<Seq<char>, FactView>, edges: Seq<(Seq<char>, Seq<char>)>)
    requires
        forall|k: int| 0 <= k < edges.len() ==> fm.contains_key(#[trigger] edges[k].0),
    ensures
        with_successions(fm, edges).dom() == fm.dom(),
    decreases edges.len(),
{
    if edges.len() > 0 {
        let t = edges.drop_last();
        assert forall|k: int| 0 <= k < t.len() implies fm.contains_key(#[trigger] t[k].0) by {
            assert(t[k] == edges[k]);
        }
        lemma_with_successions_dom(fm, t);
        assert(fm.contains_key(edges[edges.len() - 1].0));
        assert(with_successions(fm, edges).dom() =~= fm.dom());
    }
}

proof fn lemma_with_conflicts_dom(fm: Map<Seq<char>, FactView>, pairs: Seq<(Seq<char>, Seq<char>)>)
    requires
        forall|k: int| 0 <= k < pairs.len() ==> fm.contains_key(#[trigger] pairs[k].0),
    ensures
        with_conflicts(fm, pairs).dom() == fm.dom(),
    decreases pairs.len(),
{
    if pairs.len() > 0 {
        let t = pairs.drop_last();
        assert forall|k: int| 0 <= k < t.len() implies fm.contains_key(#[trigger] t[k].0) by {
            assert(t[k] == pairs[k]);
        }
        lemma_with_conflicts_dom(fm, t);
        assert(fm.contains_key(pairs[pairs.len() - 1].0));
        assert(with_conflicts(fm, pairs).dom() =~= fm.dom());
    }
}

/// Import succession and conflict edges from a reviewed `edge-proposals/v1`
/// artifact, all or nothing: every proposal gets a verdict (successions
/// first, then conflicts); a real run with every proposal accepted applies
/// them, anything else changes nothing. Successions are checked together:
/// the edges accepted earlier take part in each later cycle check.
pub fn import_edge_proposals(
    store: &mut AtomicStore,
    file: &EdgeProposalsFile,
    file_sha256: &str,
    dry_run: bool,
) -> (r: EdgeImportReport)
    ensures
        final(store).wf(),
        ({
            let s = *old(store);
            let fm = facts_v(s.narrative_facts);
            let bs = crate::registry::branches_v(s.branches);
            let sp = successions_v(file.succession@);
            let cp = conflicts_v(file.conflicts@);
            let edges = succession_edges(fm, bs, sp, sp.len());
            let pairs = conflict_applies(fm, cp, cp.len());
            &&& r.file_sha256@ == file_sha256@
            &&& r.dry_run == dry_run
            &&& r.verdicts@.len() == sp.len() + cp.len()
            &&& forall|i: int|
                0 <= i < sp.len() ==> (#[trigger] r.verdicts@[i]).kind@ == "succession"@
                    && r.verdicts@[i].fact@ == trim_seq(sp[i].0) && r.verdicts@[i].target@
                    == trim_seq(sp[i].1) && r.verdicts@[i].verdict@ == verdict_text(
                    succession_verdict(fm, bs, sp, i, succession_edges(fm, bs, sp, i as nat)),
                )
            &&& forall|i: int|
                0 <= i < cp.len() ==> (#[trigger] r.verdicts@[sp.len() + i]).kind@ == "conflict"@
                    && r.verdicts@[sp.len() + i].fact@ == trim_seq(cp[i].0)
                    && r.verdicts@[sp.len() + i].target@ == trim_seq(cp[i].1)
                    && r.verdicts@[sp.len() + i].verdict@ == verdict_text(conflict_verdict(fm, cp, i))
            &&& r.accepted == edges.len() + pairs.len()
            &&& r.rejected == sp.len() + cp.len() - (edges.len() + pairs.len())
            &&& r.applied == (!dry_run && r.rejected == 0)
            &&& facts_v(final(store).narrative_facts) == (if r.applied {
                with_conflicts(with_successions(fm, edges), pairs)
            } else {
                fm
            })
            &&& *final(store) == (AtomicStore {
                narrative_facts: final(store).narrative_facts,
                ..*old(store)
            })
        }),
{
    store.establish_wf();
    let ghost s = *store;
    let ghost fm = facts_v(store.narrative_facts);
    let ghost bs = crate::registry::branches_v(store.branches);
    let ghost sp = successions_v(file.succession@);
    let ghost cp = conflicts_v(file.conflicts@);
    let mut verdicts: Vec<EdgeProposalVerdict> = Vec::new();
    let mut seen: Vec<String> = Vec::new();
    let mut staged: Vec<(String, String)> = Vec::new();
    let mut i: usize = 0;
    assert(crate::succession::edges_v(staged@) =~= Seq::<(Seq<char>, Seq<char>)>::empty());
    while i < file.succession.len()
        invariant
            store.wf(),
            *store == s,
            fm == facts_v(s.narrative_facts),
            bs == crate::registry::branches_v(s.branches),
            sp == successions_v(file.succession@),
            i <= file.succession@.len(),
            verdicts@.len() == i,
            forall|j: int|
                0 <= j < i ==> (#[trigger] verdicts@[j]).kind@ == "succession"@ && verdicts@[j].fact@
                    == trim_seq(sp[j].0) && verdicts@[j].target@ == trim_seq(sp[j].1)
                    && verdicts@[j].verdict@ == verdict_text(
                    succession_verdict(fm, bs, sp, j, succession_edges(fm, bs, sp, j as nat)),
                ),
            crate::succession::edges_v(staged@) == succession_edges(fm, bs, sp, i as nat),
            forall|y: Seq<char>|
                strs(seen).contains(y) <==> exists|j: int|
                    0 <= j < i && names_successor(sp, j) && #[trigger] trim_seq(sp[j].0) == y,
        decreases file.succession@.len() - i,
    {
        let p = &file.succession[i];
        assert(sp[i as int] == (
            p.successor@,
            p.predecessor@,
            p.successor_claim_sha256@,
            p.predecessor_claim_sha256@,
            p.rationale@,
        ));
        let v = judge_succession(store, p, &seen, &staged, Ghost(sp), Ghost(i as int));
        let succ = trim(p.successor.as_str());
        let pred = trim(p.predecessor.as_str());
        let ghost seen_before = strs(seen);
        let names = succ.as_str().unicode_len() > 0 && pred.as_str().unicode_len() > 0;
        if names && !crate::facts::has_str(&seen, succ.as_str()) {
            seen.push(owned(succ.as_str()));
            assert(strs(seen) =~= seen_before.push(succ@));
        }
        proof {
            assert(names == names_successor(sp, i as int));
            assert forall|y: Seq<char>|
                strs(seen).contains(y) <==> exists|j: int|
                    0 <= j < i + 1 && names_successor(sp, j) && #[trigger] trim_seq(sp[j].0) == y by {
                let old_e = exists|j: int|
                    0 <= j < i && names_successor(sp, j) && #[trigger] trim_seq(sp[j].0) == y;
                assert(seen_before.contains(y) == old_e);
                if exists|j: int|
                    0 <= j < i + 1 && names_successor(sp, j) && #[trigger] trim_seq(sp[j].0) == y {
                    let j = choose|j: int|
                        0 <= j < i + 1 && names_successor(sp, j) && #[trigger] trim_seq(sp[j].0) == y;
                    if j < i {
                        assert(old_e);
                    }
                }
                if old_e {
                    let j = choose|j: int|
                        0 <= j < i && names_successor(sp, j) && #[trigger] trim_seq(sp[j].0) == y;
                    assert(0 <= j < i + 1 && names_successor(sp, j) && trim_seq(sp[j].0) == y);
                }
                let sn = strs(seen);
                if sn != seen_before {
                    assert(sn == seen_before.push(succ@));
                    if y == succ@ {
                        assert(sn[seen_before.len() as int] == y);
                        assert(0 <= i < i + 1 && names_successor(sp, i as int) && trim_seq(
                            sp[i as int].0,
                        ) == y);
                    }
                    if seen_before.contains(y) {
                        let k = choose|k: int| 0 <= k < seen_before.len() && seen_before[k] == y;
                        assert(sn[k] == y);
                    }
                    if sn.contains(y) {
                        let k = choose|k: int| 0 <= k < sn.len() && sn[k] == y;
                        if k < seen_before.len() {
                            assert(seen_before[k] == y);
                        }
                    }
                } else if names && y == succ@ {
                    assert(seen_before.contains(succ@));
                }
            }
        }
        let ghost ev = crate::succession::edges_v(staged@);
        let text = match v {
            Ok(()) => {
                staged.push((owned(succ.as_str()), owned(pred.as_str())));
                assert(crate::succession::edges_v(staged@) =~= ev.push((succ@, pred@)));
                owned("accepted")
            },
            Err(m) => m,
        };
        verdicts.push(
            EdgeProposalVerdict { kind: "succession", fact: succ, target: pred, verdict: text },
        );
        i = i + 1;
    }
    let mut keys: Vec<(String, String)> = Vec::new();
    let mut applies: Vec<(String, String)> = Vec::new();
    let mut c: usize = 0;
    let ns = file.succession.len();
    assert(crate::succession::edges_v(keys@) =~= Seq::<(Seq<char>, Seq<char>)>::empty());
    assert(crate::succession::edges_v(applies@) =~= Seq::<(Seq<char>, Seq<char>)>::empty());
    while c < file.conflicts.len()
        invariant
            store.wf(),
            *store == s,
            fm == facts_v(s.narrative_facts),
            bs == crate::registry::branches_v(s.branches),
            sp == successions_v(file.succession@),
            cp == conflicts_v(file.conflicts@),
            ns == sp.len(),
            c <= file.conflicts@.len(),
            verdicts@.len() == ns + c,
            forall|j: int|
                0 <= j < ns ==> (#[trigger] verdicts@[j]).kind@ == "succession"@ && verdicts@[j].fact@
                    == trim_seq(sp[j].0) && verdicts@[j].target@ == trim_seq(sp[j].1)
                    && verdicts@[j].verdict@ == verdict_text(
                    succession_verdict(fm, bs, sp, j, succession_edges(fm, bs, sp, j as nat)),
                ),
            forall|j: int|
                0 <= j < c ==> (#[trigger] verdicts@[ns + j]).kind@ == "conflict"@
                    && verdicts@[ns + j].fact@ == trim_seq(cp[j].0) && verdicts@[ns + j].target@
                    == trim_seq(cp[j].1) && verdicts@[ns + j].verdict@ == verdict_text(
                    conflict_verdict(fm, cp, j),
                ),
            crate::succession::edges_v(staged@) == succession_edges(fm, bs, sp, sp.len()),
            crate::succession::edges_v(applies@) == conflict_applies(fm, cp, c as nat),
            forall|k: (Seq<char>, Seq<char>)|
                crate::succession::edges_v(keys@).contains(k) <==> exists|j: int|
                    0 <= j < c && reaches_pair(fm, cp, j) && #[trigger] pair_key(
                        trim_seq(cp[j].0),
                        trim_seq(cp[j].1),
                    ) == k,
        decreases file.conflicts@.len() - c,
    {
        let p = &file.conflicts[c];
        assert(cp[c as int] == (
            p.fact@,
            p.target@,
            p.fact_claim_sha256@,
            p.target_claim_sha256@,
            p.rationale@,
        ));
        let v = judge_conflict(store, p, &keys, Ghost(cp), Ghost(c as int));
        let f = trim(p.fact.as_str());
        let t = trim(p.target.as_str());
        let reached = f.as_str().unicode_len() > 0 && t.as_str().unicode_len() > 0 && !str_eq(
            f.as_str(),
            t.as_str(),
        ) && store.narrative_facts.contains_key(f.as_str()) && store.narrative_facts.contains_key(
            t.as_str(),
        );
        let ghost kb = crate::succession::edges_v(keys@);
        let less = crate::order::compare_str(f.as_str(), t.as_str()) < 0;
        let (k0, k1) = if less {
            (owned(f.as_str()), owned(t.as_str()))
        } else {
            (owned(t.as_str()), owned(f.as_str()))
        };
        assert((k0@, k1@) == pair_key(f@, t@));
        if reached && !has_pair(&keys, k0.as_str(), k1.as_str()) {
            keys.push((k0, k1));
            assert(crate::succession::edges_v(keys@) =~= kb.push(pair_key(f@, t@)));
        }
        proof {
            assert(reached == reaches_pair(fm, cp, c as int));
            assert forall|k: (Seq<char>, Seq<char>)|
                crate::succession::edges_v(keys@).contains(k) <==> exists|j: int|
                    0 <= j < c + 1 && reaches_pair(fm, cp, j) && #[trigger] pair_key(
                        trim_seq(cp[j].0),
                        trim_seq(cp[j].1),
                    ) == k by {
                let old_e = exists|j: int|
                    0 <= j < c && reaches_pair(fm, cp, j) && #[trigger] pair_key(
                        trim_seq(cp[j].0),
                        trim_seq(cp[j].1),
                    ) == k;
                assert(kb.contains(k) == old_e);
                if exists|j: int|
                    0 <= j < c + 1 && reaches_pair(fm, cp, j) && #[trigger] pair_key(
                        trim_seq(cp[j].0),
                        trim_seq(cp[j].1),
                    ) == k {
                    let j = choose|j: int|
                        0 <= j < c + 1 && reaches_pair(fm, cp, j) && #[trigger] pair_key(
                            trim_seq(cp[j].0),
                            trim_seq(cp[j].1),
                        ) == k;
                    if j < c {
                        assert(old_e);
                    }
                }
                if old_e {
                    let j = choose|j: int|
                        0 <= j < c && reaches_pair(fm, cp, j) && #[trigger] pair_key(
                            trim_seq(cp[j].0),
                            trim_seq(cp[j].1),
                        ) == k;
                    assert(0 <= j < c + 1 && reaches_pair(fm, cp, j) && pair_key(
                        trim_seq(cp[j].0),
                        trim_seq(cp[j].1),
                    ) == k);
                }
                let kn = crate::succession::edges_v(keys@);
                if kn != kb {
                    assert(kn == kb.push(pair_key(f@, t@)));
                    if k == pair_key(f@, t@) {
                        assert(kn[kb.len() as int] == k);
                        assert(0 <= c < c + 1 && reaches_pair(fm, cp, c as int) && pair_key(
                            trim_seq(cp[c as int].0),
                            trim_seq(cp[c as int].1),
                        ) == k);
                    }
                    if kb.contains(k) {
                        let q = choose|q: int| 0 <= q < kb.len() && kb[q] == k;
                        assert(kn[q] == k);
                    }
                    if kn.contains(k) {
                        let q = choose|q: int| 0 <= q < kn.len() && kn[q] == k;
                        if q < kb.len() {
                            assert(kb[q] == k);
                        }
                    }
                } else if reached && k == pair_key(f@, t@) {
                    assert(kb.contains(k));
                }
            }
        }
        let ghost av = crate::succession::edges_v(applies@);
        let text = match v {
            Ok(()) => {
                applies.push((owned(f.as_str()), owned(t.as_str())));
                assert(crate::succession::edges_v(applies@) =~= av.push((f@, t@)));
                owned("accepted")
            },
            Err(m) => m,
        };
        verdicts.push(EdgeProposalVerdict { kind: "conflict", fact: f, target: t, verdict: text });
        c = c + 1;
    }
    proof {
        lemma_edges_present(fm, bs, sp, sp.len());
        lemma_applies_present(fm, cp, cp.len());
    }
    assert(staged@.len() <= sp.len() && applies@.len() <= cp.len());
    let nv = verdicts.len();
    assert(nv == sp.len() + cp.len());
    let accepted = staged.len() + applies.len();
    let rejected = verdicts.len() - accepted;
    let apply = !dry_run && rejected == 0;
    if apply {
        let ghost edges = succession_edges(fm, bs, sp, sp.len());
        let ghost pairs = conflict_applies(fm, cp, cp.len());
        let mut k: usize = 0;
        while k < staged.len()
            invariant
                store.wf(),
                *store == (AtomicStore { narrative_facts: store.narrative_facts, ..s }),
                fm == facts_v(s.narrative_facts),
                crate::succession::edges_v(staged@) == edges,
                forall|q: int| 0 <= q < edges.len() ==> fm.contains_key(#[trigger] edges[q].0),
                k <= staged@.len(),
                facts_v(store.narrative_facts) == with_successions(fm, edges.take(k as int)),
            decreases staged@.len() - k,
        {
            proof {
                let t = edges.take(k as int);
                assert forall|q: int| 0 <= q < t.len() implies fm.contains_key(#[trigger] t[q].0) by {
                    assert(t[q] == edges[q]);
                }
                lemma_with_successions_dom(fm, t);
            }
            let key = staged[k].0.as_str();
            assert(edges[k as int] == (key@, staged@[k as int].1@));
            assert(fm.contains_key(edges[k as int].0));
            let ghost before = facts_v(store.narrative_facts);
            assert(before.contains_key(key@));
            assert(store.narrative_facts@.contains_key(key@));
            let mut f = match store.narrative_facts.remove(key) {
                Some(f) => f,
                None => {
                    return EdgeImportReport {
                        file_sha256: owned(file_sha256),
                        verdicts,
                        accepted,
                        rejected,
                        dry_run,
                        applied: apply,
                    };
                },
            };
            f.supersedes_in_frame = Some(staged[k].1.clone());
            let ghost fv = f.deep_view();
            store.narrative_facts.insert(owned(key), f);
            proof {
                assert(edges.take(k + 1).drop_last() =~= edges.take(k as int));
                assert(facts_v(store.narrative_facts) =~= before.insert(key@, fv));
            }
            k = k + 1;
        }
        assert(edges.take(staged@.len() as int) =~= edges);
        let ghost mid = facts_v(store.narrative_facts);
        proof {
            lemma_with_successions_dom(fm, edges);
        }
        let mut q: usize = 0;
        while q < applies.len()
            invariant
                store.wf(),
                *store == (AtomicStore { narrative_facts: store.narrative_facts, ..s }),
                mid == with_successions(fm, edges),
                mid.dom() == fm.dom(),
                crate::succession::edges_v(applies@) == pairs,
                forall|w: int|
                    0 <= w < pairs.len() ==> fm.contains_key((#[trigger] pairs[w]).0) && fm.contains_key(
                        pairs[w].1,
                    ),
                q <= applies@.len(),
                facts_v(store.narrative_facts) == with_conflicts(mid, pairs.take(q as int)),
            decreases applies@.len() - q,
        {
            proof {
                let t = pairs.take(q as int);
                assert forall|w: int| 0 <= w < t.len() implies mid.contains_key(#[trigger] t[w].0) by {
                    assert(t[w] == pairs[w]);
                }
                lemma_with_conflicts_dom(mid, t);
            }
            let fid = applies[q].0.as_str();
            let tid = applies[q].1.as_str();
            assert(pairs[q as int] == (fid@, tid@));
            assert(fm.contains_key(pairs[q as int].0));
            let ghost before = facts_v(store.narrative_facts);
            assert(before.contains_key(fid@));
            assert(store.narrative_facts@.contains_key(fid@));
            let stamp = match store.narrative_facts.get(tid) {
                Some(tf) => sha256_hex(tf.claim.as_str()),
                None => String::new(),
            };
            let mut f = match store.narrative_facts.remove(fid) {
                Some(f) => f,
                None => {
                    return EdgeImportReport {
                        file_sha256: owned(file_sha256),
                        verdicts,
                        accepted,
                        rejected,
                        dry_run,
                        applied: apply,
                    };
                },
            };
            let ghost cw = f.conflicts_with.deep_view();
            f.conflicts_with.push(
                crate::narrative::ConflictAssertion { target: owned(tid), target_claim_sha256: stamp },
            );
            assert(f.conflicts_with.deep_view() =~= cw.push((tid@, sha256_hex_of(before[tid@].claim))));
            let ghost fv = f.deep_view();
            store.narrative_facts.insert(owned(fid), f);
            proof {
                assert(pairs.take(q + 1).drop_last() =~= pairs.take(q as int));
                assert(facts_v(store.narrative_facts) =~= before.insert(fid@, fv));
            }
            q = q + 1;
        }
        assert(pairs.take(applies@.len() as int) =~= pairs);
    }
    EdgeImportReport {
        file_sha256: owned(file_sha256),
        verdicts,
        accepted,
        rejected,
        dry_run,
        applied: apply,
    }
}

/// A typing proposal is accepted only with a leg whose subject, and entity
/// object, are among the listed entities of the fact it types.
pub proof fn lemma_accepted_typing_legs_listed(
    s: AtomicStore,
    ps: Seq<(Seq<char>, TypedView, Seq<char>, Seq<char>)>,
    i: int,
)
    requires
        typing_verdict(s, ps, i) is Ok,
    ensures
        facts_v(s.narrative_facts).contains_key(trim_seq(ps[i].0)),
        crate::facts::typed_legs_listed(
            Some(typing_verdict(s, ps, i)->Ok_0),
            facts_v(s.narrative_facts)[trim_seq(ps[i].0)].entities,
        ),
{
    let fm = facts_v(s.narrative_facts);
    let fid = trim_seq(ps[i].0);
    crate::facts::lemma_typed_outcome_listed(crate::registry::narr_of(s), fid, ps[i].1, fm[fid].entities);
}

} // verus!
