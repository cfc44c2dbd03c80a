//! The fact write primitives: create, record a conflict edge, retract and
//! amend. Each routes the one builder and the one cross-fact check, and
//! refuses rather than silently overwrites.
use vstd::prelude::*;
use crate::digest::{sha256_hex, sha256_hex_of};
use crate::error::{AtomicMutateError, Refusal, refusal};
use crate::facts::{build_candidate_fact, fact_outcome};
use crate::model::{AtomicStore, opt_eq, strings_eq};
use crate::narrative::{ConflictAssertion, FactView, NarrativeFact, TypedClaim, TypedObject};
use crate::order::str_eq;
use crate::registry::branches_v;
use crate::succession::{facts_v, overlay, refs_outcome, staged_v, validate_and_stamp_fact_refs, walk_fuel};
use crate::text::{cat3, owned};

verus! {

/// A fact with every conflict assertion's pin cleared.
pub open spec fn unpinned(f: FactView) -> FactView {
    FactView {
        conflicts_with: f.conflicts_with.map_values(
            |c: (Seq<char>, Seq<char>)| (c.0, Seq::<char>::empty()),
        ),
        ..f
    }
}

fn conflicts_eq(a: &Vec<ConflictAssertion>, b: &Vec<ConflictAssertion>, ignore_pins: bool) -> (r: bool)
    ensures
        r == (if ignore_pins {
            unpinned_list(a.deep_view()) == unpinned_list(b.deep_view())
        } else {
            a.deep_view() == b.deep_view()
        }),
{
    if a.len() != b.len() {
        proof {
            assert(a.deep_view().len() != b.deep_view().len());
            assert(unpinned_list(a.deep_view()).len() != unpinned_list(b.deep_view()).len());
        }
        return false;
    }
    let mut i: usize = 0;
    while i < a.len()
        invariant
            a.len() == b.len(),
            i <= a.len(),
            forall|j: int|
                0 <= j < i ==> (#[trigger] a@[j]).target@ == b@[j].target@ && (ignore_pins
                    || a@[j].target_claim_sha256@ == b@[j].target_claim_sha256@),
        decreases a.len() - i,
    {
        let t_eq = str_eq(a[i].target.as_str(), b[i].target.as_str());
        let p_eq = str_eq(a[i].target_claim_sha256.as_str(), b[i].target_claim_sha256.as_str());
        if !(t_eq && (ignore_pins || p_eq)) {
            proof {
                assert(a.deep_view()[i as int] != b.deep_view()[i as int]);
                assert(unpinned_list(a.deep_view())[i as int].0 == a@[i as int].target@);
                assert(unpinned_list(b.deep_view())[i as int].0 == b@[i as int].target@);
            }
            return false;
        }
        i = i + 1;
    }
    proof {
        if ignore_pins {
            assert(unpinned_list(a.deep_view()) =~= unpinned_list(b.deep_view()));
        } else {
            assert(a.deep_view() =~= b.deep_view());
        }
    }
    true
}

/// A list of conflict assertions with every pin cleared.
pub open spec fn unpinned_list(cw: Seq<(Seq<char>, Seq<char>)>) -> Seq<(Seq<char>, Seq<char>)> {
    cw.map_values(|c: (Seq<char>, Seq<char>)| (c.0, Seq::<char>::empty()))
}

fn typed_eq(a: &Option<TypedClaim>, b: &Option<TypedClaim>) -> (r: bool)
    ensures
        r == (a.deep_view() == b.deep_view()),
{
    match (a, b) {
        (None, None) => true,
        (Some(x), Some(y)) => {
            let obj = match (&x.object, &y.object) {
                (TypedObject::Entity { id: p }, TypedObject::Entity { id: q }) => str_eq(
                    p.as_str(),
                    q.as_str(),
                ),
                (TypedObject::Value { value: p }, TypedObject::Value { value: q }) => str_eq(
                    p.as_str(),
                    q.as_str(),
                ),
                _ => false,
            };
            str_eq(x.subject.as_str(), y.subject.as_str()) && str_eq(
                x.predicate.as_str(),
                y.predicate.as_str(),
            ) && obj
        },
        _ => false,
    }
}

/// Whether two facts are equal by value (`ignore_pins`: apart from the
/// pins of their conflict assertions).
pub fn facts_equal(a: &NarrativeFact, b: &NarrativeFact, ignore_pins: bool) -> (r: bool)
    ensures
        r == (if ignore_pins {
            unpinned(a.deep_view()) == unpinned(b.deep_view())
        } else {
            a.deep_view() == b.deep_view()
        }),
{
    let r = str_eq(a.frame.as_str(), b.frame.as_str()) && str_eq(
        a.branch.as_str(),
        b.branch.as_str(),
    ) && strings_eq(&a.entities, &b.entities) && str_eq(a.claim.as_str(), b.claim.as_str())
        && str_eq(a.canon_from.as_str(), b.canon_from.as_str()) && opt_eq(
        &a.canon_to,
        &b.canon_to,
    ) && strings_eq(&a.evidence, &b.evidence) && conflicts_eq(
        &a.conflicts_with,
        &b.conflicts_with,
        ignore_pins,
    ) && opt_eq(&a.supersedes_in_frame, &b.supersedes_in_frame) && a.payoff_expectation
        == b.payoff_expectation && strings_eq(&a.pays_off, &b.pays_off) && typed_eq(
        &a.typed,
        &b.typed,
    ) && opt_eq(&a.quote, &b.quote) && opt_eq(&a.quote_sha256, &b.quote_sha256);
    proof {
        let (x, y) = (a.deep_view(), b.deep_view());
        assert(unpinned(x).conflicts_with == unpinned_list(x.conflicts_with));
        assert(unpinned(y).conflicts_with == unpinned_list(y.conflicts_with));
        if ignore_pins && unpinned(x) == unpinned(y) {
            assert(unpinned(x).frame == x.frame);
        }
    }
    r
}

/// The refusal of a create that finds a divergent fact under its id: a
/// divergence in the judgment pins alone is named as such.
pub open spec fn divergent_msg(primitive: Seq<char>, fid: Seq<char>, existing: FactView, cand: FactView) -> Seq<
    char,
> {
    if unpinned(existing) == unpinned(cand) {
        primitive + ": fact `"@ + fid
            + "` matches the stored content except for STALE judgment pins — a conflict target's claim was amended since this judgment was recorded; re-affirm via amend_fact (it restamps outbound judgments)"@
    } else {
        primitive + ": fact `"@ + fid
            + "` already exists with DIVERGENT content — refusing silent overwrite (in-world belief change: supersede in-frame; authorial correction: amend_fact / retract_fact)"@
    }
}

pub fn divergent_fact_message_pub(primitive: &str, fact_id: &str, existing: &NarrativeFact, candidate: &NarrativeFact) -> (r:
    String)
    ensures
        r@ == divergent_msg(primitive@, fact_id@, existing.deep_view(), candidate.deep_view()),
{
    divergent_fact_message(primitive, fact_id, existing, candidate)
}

fn divergent_fact_message(primitive: &str, fact_id: &str, existing: &NarrativeFact, candidate: &NarrativeFact) -> (r:
    String)
    ensures
        r@ == divergent_msg(primitive@, fact_id@, existing.deep_view(), candidate.deep_view()),
{
    if facts_equal(existing, candidate, true) {
        let mut m = cat3(primitive, ": fact `", fact_id);
        m.append(
            "` matches the stored content except for STALE judgment pins — a conflict target's claim was amended since this judgment was recorded; re-affirm via amend_fact (it restamps outbound judgments)",
        );
        m
    } else {
        let mut m = cat3(primitive, ": fact `", fact_id);
        m.append(
            "` already exists with DIVERGENT content — refusing silent overwrite (in-world belief change: supersede in-frame; authorial correction: amend_fact / retract_fact)",
        );
        m
    }
}

/// What creating a fact gives: the built and stamped candidate is created
/// when its id is absent (`Ok(true)`), accepted as a no-op when identical
/// (`Ok(false)`), and refused when divergent.
pub open spec fn add_fact_outcome(s: AtomicStore, e: crate::facts::FactImportView) -> Result<
    (bool, Seq<char>, FactView),
    Seq<char>,
> {
    match fact_outcome(crate::registry::narr_of(s), e) {
        Err(m) => Err(m),
        Ok((fid, cand)) => match refs_outcome(
            facts_v(s.narrative_facts),
            branches_v(s.branches),
            fid,
            cand,
            walk_fuel(s.narrative_facts@.len(), 0, 0),
        ) {
            Err(m) => Err(m),
            Ok(stamped) => {
                let fm = facts_v(s.narrative_facts);
                if !fm.contains_key(fid) {
                    Ok((true, fid, stamped))
                } else if fm[fid] == stamped {
                    Ok((false, fid, stamped))
                } else {
                    Err(divergent_msg("add_fact"@, fid, fm[fid], stamped))
                }
            },
        },
    }
}

/// Creating the same fact twice leaves the second call a no-op: once
/// `add_fact` has accepted an authoring form, the store it leaves accepts
/// the same form again as identical (`Ok(false)`) and keeps it as it is.
pub proof fn lemma_add_fact_twice_is_noop(
    s: AtomicStore,
    s2: AtomicStore,
    e: crate::facts::FactImportView,
)
    requires
        s.wf(),
        s2.wf(),
        add_fact_outcome(s, e) is Ok,
        s2 == (AtomicStore { narrative_facts: s2.narrative_facts, ..s }),
        facts_v(s2.narrative_facts) == (if add_fact_outcome(s, e)->Ok_0.0 {
            facts_v(s.narrative_facts).insert(add_fact_outcome(s, e)->Ok_0.1, add_fact_outcome(s, e)->Ok_0.2)
        } else {
            facts_v(s.narrative_facts)
        }),
    ensures
        add_fact_outcome(s2, e) == Ok::<_, Seq<char>>(
            (false, add_fact_outcome(s, e)->Ok_0.1, add_fact_outcome(s, e)->Ok_0.2),
        ),
{
    let (c, fid, f) = add_fact_outcome(s, e)->Ok_0;
    let n1 = crate::registry::narr_of(s);
    let n2 = crate::registry::narr_of(s2);
    assert(n2 == crate::registry::NarrState { facts: n2.facts, ..n1 });
    assert(fact_outcome(n2, e) == fact_outcome(n1, e));
    let cand = fact_outcome(n1, e)->Ok_0.1;
    let vm1 = facts_v(s.narrative_facts);
    let vm2 = facts_v(s2.narrative_facts);
    let m1 = s.narrative_facts;
    let m2 = s2.narrative_facts;
    m1.lemma_wf();
    m2.lemma_wf();
    let nodes = seq![fid] + m1.key_seq();
    assert(nodes[0] == fid);
    assert forall|k: Seq<char>| #[trigger] vm1.contains_key(k) implies nodes.contains(k) by {
        assert(m1@.contains_key(k));
        let i = choose|i: int| 0 <= i < m1.size() && m1.key_seq()[i] == k;
        assert(nodes[i + 1] == k);
    }
    let fuel1 = walk_fuel(m1@.len(), 0, 0);
    let fuel2 = walk_fuel(m2@.len(), 0, 0);
    assert(vm1.dom() =~= m1@.dom());
    assert(vm2.dom() =~= m2@.dom());
    if c {
        assert(!vm1.contains_key(fid));
        assert(m2@.dom() =~= m1@.dom().insert(fid));
        assert(m2@.len() == m1@.len() + 1);
    } else {
        assert(m2@.dom() =~= m1@.dom());
    }
    crate::succession::lemma_refs_outcome_stable(
        vm1,
        vm2,
        branches_v(s.branches),
        fid,
        cand,
        nodes,
        fuel1,
        fuel2,
    );
    assert(vm2.contains_key(fid) && vm2[fid] == f);
}

/// Create one narrative fact. The same builder and cross-fact check as a
/// manifest import; refs resolve against the store alone. `Ok(true)`
/// created it; `Ok(false)` found it identical.
pub fn add_fact(store: &mut AtomicStore, entry: &crate::facts::FactImport) -> (r: Result<
    bool,
    AtomicMutateError,
>)
    ensures
        final(store).wf(),
        ({
            let v = add_fact_outcome(*old(store), entry.deep_view());
            match r {
                Ok(c) => v is Ok && v->Ok_0.0 == c && facts_v(final(store).narrative_facts) == (if c {
                    facts_v(old(store).narrative_facts).insert(v->Ok_0.1, v->Ok_0.2)
                } else {
                    facts_v(old(store).narrative_facts)
                }) && *final(store) == (AtomicStore {
                    narrative_facts: final(store).narrative_facts,
                    ..*old(store)
                }),
                Err(e) => *final(store) == *old(store) && match v {
                    Err(m) => refusal(e) == Refusal::Validation(m),
                    Ok(_) => false,
                },
            }
        }),
{
    store.establish_wf();
    let (fact_id, candidate) = match build_candidate_fact(store, entry) {
        Ok(x) => x,
        Err(m) => {
            return Err(AtomicMutateError::Validation(m));
        },
    };
    let no_staged: Vec<(String, NarrativeFact)> = Vec::new();
    assert(staged_v(no_staged@) =~= Seq::<(Seq<char>, FactView)>::empty());
    assert(overlay(facts_v(store.narrative_facts), staged_v(no_staged@)) == facts_v(
        store.narrative_facts,
    ));
    let stamped = match validate_and_stamp_fact_refs(
        fact_id.as_str(),
        candidate,
        &store.narrative_facts,
        &no_staged,
        &store.branches,
    ) {
        Ok(f) => f,
        Err(m) => {
            return Err(AtomicMutateError::Validation(m));
        },
    };
    let ghost fm = facts_v(store.narrative_facts);
    let verdict = match store.narrative_facts.get(fact_id.as_str()) {
        Some(existing) => {
            assert(fm[fact_id@] == existing.deep_view());
            if facts_equal(existing, &stamped, false) {
                Some(false)
            } else {
                return Err(
                    AtomicMutateError::Validation(
                        divergent_fact_message("add_fact", fact_id.as_str(), existing, &stamped),
                    ),
                );
            }
        },
        None => None,
    };
    match verdict {
        Some(c) => Ok(c),
        None => {
            let ghost sv = stamped.deep_view();
            let ghost fid = fact_id@;
            store.narrative_facts.insert(fact_id, stamped);
            assert(facts_v(store.narrative_facts) =~= fm.insert(fid, sv));
            Ok(true)
        },
    }
}

} // verus!

verus! {

// ---------------------------------------------------------------------------
// Conflict edges.
// ---------------------------------------------------------------------------
/// The targets of a list of conflict assertions.
pub open spec fn targets(cw: Seq<(Seq<char>, Seq<char>)>) -> Seq<Seq<char>> {
    cw.map_values(|c: (Seq<char>, Seq<char>)| c.0)
}

/// Whether a conflict edge between `a` and `b` is recorded on either side.
pub open spec fn conflict_recorded(fm: Map<Seq<char>, FactView>, a: Seq<char>, b: Seq<char>) -> bool {
    (fm.contains_key(a) && targets(fm[a].conflicts_with).contains(b)) || (fm.contains_key(b)
        && targets(fm[b].conflicts_with).contains(a))
}

fn asserts_conflict_with(f: &NarrativeFact, b: &str) -> (r: bool)
    ensures
        r == targets(f.deep_view().conflicts_with).contains(b@),
{
    let ghost ts = targets(f.deep_view().conflicts_with);
    let mut i: usize = 0;
    while i < f.conflicts_with.len()
        invariant
            i <= f.conflicts_with@.len(),
            ts == targets(f.deep_view().conflicts_with),
            forall|j: int| 0 <= j < i ==> ts[j] != b@,
        decreases f.conflicts_with@.len() - i,
    {
        assert(ts[i as int] == f.conflicts_with@[i as int].target@);
        if str_eq(f.conflicts_with[i].target.as_str(), b) {
            return true;
        }
        i = i + 1;
    }
    false
}

/// Whether a conflict edge between `a` and `b` is already recorded on
/// either side.
pub fn conflict_edge_recorded(facts: &crate::strmap::StrMap<NarrativeFact>, a: &str, b: &str) -> (r: bool)
    ensures
        r == conflict_recorded(facts_v(*facts), a@, b@),
{
    facts.establish_wf();
    let on_a = match facts.get(a) {
        Some(f) => asserts_conflict_with(f, b),
        None => false,
    };
    let on_b = match facts.get(b) {
        Some(f) => asserts_conflict_with(f, a),
        None => false,
    };
    on_a || on_b
}

/// What recording a conflict edge from `fact_id` to `conflicts_with`
/// gives: the two trimmed ids, or the refusal.
pub open spec fn add_conflict_outcome(fm: Map<Seq<char>, FactView>, fact_id: Seq<char>, other: Seq<char>) -> Result<
    (Seq<char>, Seq<char>),
    Refusal,
> {
    let id = crate::text::trim_seq(fact_id);
    let o = crate::text::trim_seq(other);
    if id.len() == 0 || o.len() == 0 {
        Err(Refusal::Validation("add_fact_conflict: fact_id and conflicts_with both mandatory"@))
    } else if id == o {
        Err(Refusal::Validation("add_fact_conflict: a fact cannot conflict with itself"@))
    } else if !fm.contains_key(id) {
        Err(Refusal::NotFound("fact_id `"@ + id + "` not present in atomic store"@))
    } else if !fm.contains_key(o) {
        Err(Refusal::NotFound("conflicts_with `"@ + o + "` not present in atomic store"@))
    } else if conflict_recorded(fm, id, o) {
        Err(
            Refusal::FrozenLedger(
                "conflict edge `"@ + id + "` <-> `"@ + o + "` already recorded (idempotent)"@,
            ),
        )
    } else {
        Ok((id, o))
    }
}

/// Append one conflict assertion from `fact_id` to `conflicts_with`,
/// pinned to the target's current claim. An edge already recorded on either
/// side is refused.
pub fn add_fact_conflict(store: &mut AtomicStore, fact_id: &str, conflicts_with: &str) -> (r: Result<
    (),
    AtomicMutateError,
>)
    ensures
        final(store).wf(),
        ({
            let fm = facts_v(old(store).narrative_facts);
            let v = add_conflict_outcome(fm, fact_id@, conflicts_with@);
            match r {
                Ok(()) => v is Ok && ({
                    let (id, o) = v->Ok_0;
                    facts_v(final(store).narrative_facts) == fm.insert(
                        id,
                        FactView {
                            conflicts_with: fm[id].conflicts_with.push(
                                (o, sha256_hex_of(fm[o].claim)),
                            ),
                            ..fm[id]
                        },
                    )
                }) && *final(store) == (AtomicStore {
                    narrative_facts: final(store).narrative_facts,
                    ..*old(store)
                }),
                Err(e) => *final(store) == *old(store) && v == Err::<(Seq<char>, Seq<char>), _>(
                    refusal(e),
                ),
            }
        }),
{
    store.establish_wf();
    let id = crate::text::trim(fact_id);
    let other = crate::text::trim(conflicts_with);
    if id.as_str().unicode_len() == 0 || other.as_str().unicode_len() == 0 {
        return Err(
            AtomicMutateError::Validation(
                owned("add_fact_conflict: fact_id and conflicts_with both mandatory"),
            ),
        );
    }
    if str_eq(id.as_str(), other.as_str()) {
        return Err(
            AtomicMutateError::Validation(owned("add_fact_conflict: a fact cannot conflict with itself")),
        );
    }
    if !store.narrative_facts.contains_key(id.as_str()) {
        return Err(
            AtomicMutateError::NotFound(
                cat3("fact_id `", id.as_str(), "` not present in atomic store"),
            ),
        );
    }
    let stamp = match store.narrative_facts.get(other.as_str()) {
        None => {
            return Err(
                AtomicMutateError::NotFound(
                    cat3("conflicts_with `", other.as_str(), "` not present in atomic store"),
                ),
            );
        },
        Some(t) => sha256_hex(t.claim.as_str()),
    };
    if conflict_edge_recorded(&store.narrative_facts, id.as_str(), other.as_str()) {
        let mut m = cat3("conflict edge `", id.as_str(), "` <-> `");
        m.append(other.as_str());
        m.append("` already recorded (idempotent)");
        return Err(AtomicMutateError::FrozenLedger(m));
    }
    let ghost fm = facts_v(store.narrative_facts);
    let ghost idv = id@;
    let mut f = match store.narrative_facts.remove(id.as_str()) {
        Some(f) => f,
        None => {
            return Err(
                AtomicMutateError::NotFound(
                    cat3("fact_id `", id.as_str(), "` not present in atomic store"),
                ),
            );
        },
    };
    let ghost before = f.deep_view();
    assert(before == fm[idv]);
    let ghost ov = other@;
    f.conflicts_with.push(ConflictAssertion { target: other, target_claim_sha256: stamp });
    assert(f.conflicts_with.deep_view() =~= before.conflicts_with.push((ov, sha256_hex_of(fm[ov].claim))));
    let ghost fv = f.deep_view();
    store.narrative_facts.insert(id, f);
    assert(facts_v(store.narrative_facts) =~= fm.insert(idv, fv));
    Ok(())
}

} // verus!

verus! {

// ---------------------------------------------------------------------------
// Retract and amend.
// ---------------------------------------------------------------------------
/// The references fact `k` holds to `fid`, each with the field it goes
/// through; none from `fid` itself.
pub open spec fn refs_of(k: Seq<char>, f: FactView, fid: Seq<char>) -> Seq<(Seq<char>, Seq<char>)> {
    if k == fid {
        Seq::empty()
    } else {
        (if targets(f.conflicts_with).contains(fid) {
            seq![(k, "conflicts_with"@)]
        } else {
            Seq::empty()
        }) + (if f.supersedes_in_frame == Some(fid) {
            seq![(k, "supersedes_in_frame"@)]
        } else {
            Seq::empty()
        }) + (if f.pays_off.contains(fid) {
            seq![(k, "pays_off"@)]
        } else {
            Seq::empty()
        })
    }
}

/// The inbound references to `fid` from the first `n` facts, in key order.
pub open spec fn inbound_refs(ks: Seq<Seq<char>>, vs: Seq<FactView>, fid: Seq<char>, n: nat) -> Seq<
    (Seq<char>, Seq<char>),
>
    decreases n,
{
    if n == 0 {
        Seq::empty()
    } else {
        inbound_refs(ks, vs, fid, (n - 1) as nat) + refs_of(ks[n - 1], vs[n - 1], fid)
    }
}

/// The facts of a map by value, in key order.
pub open spec fn fact_vals(m: crate::strmap::StrMap<NarrativeFact>) -> Seq<FactView> {
    m.val_seq().map_values(|f: NarrativeFact| f.deep_view())
}

/// Every inbound reference to `fact_id` from another fact, in key order:
/// the referrer and the field (`conflicts_with`, `supersedes_in_frame`,
/// `pays_off`).
pub fn inbound_fact_refs(facts: &crate::strmap::StrMap<NarrativeFact>, fact_id: &str) -> (r: Vec<
    (String, &'static str),
>)
    ensures
        r@.map_values(|p: (String, &'static str)| (p.0@, p.1@)) == inbound_refs(
            facts.key_seq(),
            fact_vals(*facts),
            fact_id@,
            facts.size(),
        ),
{
    facts.establish_wf();
    let ghost ks = facts.key_seq();
    let ghost vs = fact_vals(*facts);
    let mut out: Vec<(String, &'static str)> = Vec::new();
    let n = facts.len();
    let mut i: usize = 0;
    proof {
        facts.lemma_wf();
    }
    while i < n
        invariant
            facts.wf(),
            ks == facts.key_seq(),
            vs == fact_vals(*facts),
            n == facts.size(),
            i <= n,
            out@.map_values(|p: (String, &'static str)| (p.0@, p.1@)) == inbound_refs(
                ks,
                vs,
                fact_id@,
                i as nat,
            ),
        decreases n - i,
    {
        proof {
            facts.lemma_wf();
        }
        let k = facts.key_at(i);
        let f = facts.val_at(i);
        assert(vs[i as int] == f.deep_view());
        let ghost before = out@.map_values(|p: (String, &'static str)| (p.0@, p.1@));
        if !str_eq(k.as_str(), fact_id) {
            if asserts_conflict_with(f, fact_id) {
                out.push((k.clone(), "conflicts_with"));
            }
            let sup = match &f.supersedes_in_frame {
                Some(s) => str_eq(s.as_str(), fact_id),
                None => false,
            };
            if sup {
                out.push((k.clone(), "supersedes_in_frame"));
            }
            if crate::facts::has_str(&f.pays_off, fact_id) {
                out.push((k.clone(), "pays_off"));
            }
        }
        assert(out@.map_values(|p: (String, &'static str)| (p.0@, p.1@)) =~= before + refs_of(
            ks[i as int],
            vs[i as int],
            fact_id@,
        ));
        i = i + 1;
    }
    out
}

/// One blocking reference as a retraction lists it.
pub open spec fn ref_part(p: (Seq<char>, Seq<char>)) -> Seq<char> {
    "`"@ + p.0 + "` (via "@ + p.1 + ")"@
}

/// Blocking references as a retraction lists them, one part each.
pub open spec fn ref_parts(refs: Seq<(Seq<char>, Seq<char>)>) -> Seq<Seq<char>> {
    refs.map_values(|p: (Seq<char>, Seq<char>)| ref_part(p))
}

/// How a retraction's blocking references are listed.
pub open spec fn ref_listing(refs: Seq<(Seq<char>, Seq<char>)>) -> Seq<char> {
    crate::text::join_with(ref_parts(refs), ", "@)
}

/// What retracting a fact gives: the trimmed id, or the refusal. A fact
/// any other fact references cannot be retracted.
pub open spec fn retract_outcome(
    ks: Seq<Seq<char>>,
    vs: Seq<FactView>,
    fm: Map<Seq<char>, FactView>,
    fact_id: Seq<char>,
    reason: Seq<char>,
) -> Result<Seq<char>, Refusal> {
    let id = crate::text::trim_seq(fact_id);
    let refs = inbound_refs(ks, vs, id, ks.len());
    if crate::text::trim_seq(reason).len() == 0 {
        Err(Refusal::Validation("retract_fact: --reason mandatory (audit-trail safeguard)"@))
    } else if !fm.contains_key(id) {
        Err(Refusal::NotFound("fact_id `"@ + id + "` not present in atomic store"@))
    } else if refs.len() > 0 {
        Err(
            Refusal::Validation(
                "retract_fact: fact `"@ + id + "` is referenced by "@ + ref_listing(refs)
                    + " — retract or amend the referrers first (a recorded assertion never dangles)"@,
            ),
        )
    } else {
        Ok(id)
    }
}

/// Retracting a fact right after creating it restores the facts as they
/// were: when `add_fact` created a fact from an authoring form, and no fact
/// of the store it left refers to that fact, `retract_fact` with the same id
/// and a non-blank reason is accepted and leaves the facts of the store the
/// creation started from.
pub proof fn lemma_retract_undoes_add(
    s: AtomicStore,
    s2: AtomicStore,
    e: crate::facts::FactImportView,
    reason: Seq<char>,
)
    requires
        s.wf(),
        s2.wf(),
        add_fact_outcome(s, e) is Ok,
        add_fact_outcome(s, e)->Ok_0.0,
        s2 == (AtomicStore { narrative_facts: s2.narrative_facts, ..s }),
        facts_v(s2.narrative_facts) == facts_v(s.narrative_facts).insert(
            add_fact_outcome(s, e)->Ok_0.1,
            add_fact_outcome(s, e)->Ok_0.2,
        ),
        crate::text::trim_seq(reason).len() > 0,
        inbound_refs(
            s2.narrative_facts.key_seq(),
            fact_vals(s2.narrative_facts),
            add_fact_outcome(s, e)->Ok_0.1,
            s2.narrative_facts.key_seq().len(),
        ).len() == 0,
    ensures
        retract_outcome(
            s2.narrative_facts.key_seq(),
            fact_vals(s2.narrative_facts),
            facts_v(s2.narrative_facts),
            e.fact_id,
            reason,
        ) == Ok::<_, Refusal>(add_fact_outcome(s, e)->Ok_0.1),
        facts_v(s2.narrative_facts).remove(add_fact_outcome(s, e)->Ok_0.1) == facts_v(s.narrative_facts),
{
    let fid = add_fact_outcome(s, e)->Ok_0.1;
    assert(fid == crate::text::trim_seq(e.fact_id));
    assert(!facts_v(s.narrative_facts).contains_key(fid));
    assert(facts_v(s2.narrative_facts).remove(fid) =~= facts_v(s.narrative_facts));
}

/// Remove a fact the author no longer asserts. The reason is mandatory; a
/// fact another fact references (conflict, succession, payoff) is refused.
pub fn retract_fact(store: &mut AtomicStore, fact_id: &str, reason: &str) -> (r: Result<
    (),
    AtomicMutateError,
>)
    ensures
        final(store).wf(),
        ({
            let fs = old(store).narrative_facts;
            let v = retract_outcome(fs.key_seq(), fact_vals(fs), facts_v(fs), fact_id@, reason@);
            match r {
                Ok(()) => v is Ok && facts_v(final(store).narrative_facts) == facts_v(fs).remove(
                    v->Ok_0,
                ) && *final(store) == (AtomicStore {
                    narrative_facts: final(store).narrative_facts,
                    ..*old(store)
                }),
                Err(e) => *final(store) == *old(store) && v == Err::<Seq<char>, _>(refusal(e)),
            }
        }),
{
    store.establish_wf();
    if crate::text::is_blank(reason) {
        proof {
            crate::text::lemma_blank_iff_all_ws(reason@);
        }
        return Err(
            AtomicMutateError::Validation(
                owned("retract_fact: --reason mandatory (audit-trail safeguard)"),
            ),
        );
    }
    proof {
        crate::text::lemma_blank_iff_all_ws(reason@);
        store.narrative_facts.lemma_wf();
    }
    let id = crate::text::trim(fact_id);
    if !store.narrative_facts.contains_key(id.as_str()) {
        return Err(
            AtomicMutateError::NotFound(
                cat3("fact_id `", id.as_str(), "` not present in atomic store"),
            ),
        );
    }
    let referrers = inbound_fact_refs(&store.narrative_facts, id.as_str());
    if referrers.len() > 0 {
        let ghost rv = referrers@.map_values(|p: (String, &'static str)| (p.0@, p.1@));
        let mut parts: Vec<String> = Vec::new();
        let mut i: usize = 0;
        while i < referrers.len()
            invariant
                i <= referrers@.len(),
                rv == referrers@.map_values(|p: (String, &'static str)| (p.0@, p.1@)),
                rv.len() == referrers@.len(),
                parts.deep_view() == ref_parts(rv.take(i as int)),
            decreases referrers@.len() - i,
        {
            let mut part = cat3("`", referrers[i].0.as_str(), "` (via ");
            part.append(referrers[i].1);
            part.append(")");
            assert(rv[i as int] == (referrers@[i as int].0@, referrers@[i as int].1@));
            assert(part@ == ref_part(rv[i as int]));
            let ghost pv = part@;
            let ghost before = parts.deep_view();
            parts.push(part);
            assert(parts.deep_view() =~= before.push(pv));
            assert(ref_parts(rv.take(i + 1)) =~= ref_parts(rv.take(i as int)).push(pv));
            i = i + 1;
        }
        assert(rv.take(referrers@.len() as int) =~= rv);
        let listing = crate::text::join_strings(&parts, ", ");
        let mut m = cat3("retract_fact: fact `", id.as_str(), "` is referenced by ");
        m.append(listing.as_str());
        m.append(" — retract or amend the referrers first (a recorded assertion never dangles)");
        return Err(AtomicMutateError::Validation(m));
    }
    let ghost fm = facts_v(store.narrative_facts);
    store.narrative_facts.remove(id.as_str());
    assert(facts_v(store.narrative_facts) =~= fm.remove(id@));
    Ok(())
}

} // verus!

verus! {

/// The refusal of the first of the first `n` facts that supersedes `fid`
/// from a scope (frame, world-line) the amended fact `cand` would leave.
pub open spec fn scope_violation(ks: Seq<Seq<char>>, vs: Seq<FactView>, fid: Seq<char>, cand: FactView, n: nat) -> Option<
    Seq<char>,
>
    decreases n,
{
    if n == 0 {
        None
    } else {
        match scope_violation(ks, vs, fid, cand, (n - 1) as nat) {
            Some(m) => Some(m),
            None => {
                let k = ks[n - 1];
                let f = vs[n - 1];
                if k != fid && f.supersedes_in_frame == Some(fid) && (f.frame != cand.frame
                    || f.branch != cand.branch) {
                    Some(
                        "amend_fact: fact `"@ + fid + "` is superseded by `"@ + k
                            + "` in scope (frame `"@ + f.frame + "`, branch `"@ + f.branch
                            + "`) — an amend cannot move it to (frame `"@ + cand.frame
                            + "`, branch `"@ + cand.branch
                            + "`) (succession is same-scope; amend the successor first)"@,
                    )
                } else {
                    None
                }
            },
        }
    }
}

proof fn lemma_scope_violation_persists(
    ks: Seq<Seq<char>>,
    vs: Seq<FactView>,
    fid: Seq<char>,
    cand: FactView,
    i: nat,
    n: nat,
)
    requires
        i <= n,
        scope_violation(ks, vs, fid, cand, i) is Some,
    ensures
        scope_violation(ks, vs, fid, cand, n) == scope_violation(ks, vs, fid, cand, i),
    decreases n - i,
{
    if i < n {
        lemma_scope_violation_persists(ks, vs, fid, cand, i, (n - 1) as nat);
    }
}

/// Whether the fact under `k` supersedes `fid` from outside the scope of
/// `cand`.
pub open spec fn out_of_scope_successor(k: Seq<char>, f: FactView, fid: Seq<char>, cand: FactView) -> bool {
    k != fid && f.supersedes_in_frame == Some(fid) && (f.frame != cand.frame || f.branch != cand.branch)
}

proof fn lemma_scope_violation_none(ks: Seq<Seq<char>>, vs: Seq<FactView>, fid: Seq<char>, cand: FactView, n: nat)
    requires
        n <= ks.len(),
        n <= vs.len(),
    ensures
        (scope_violation(ks, vs, fid, cand, n) is None) == (forall|i: int|
            0 <= i < n ==> !out_of_scope_successor(#[trigger] ks[i], vs[i], fid, cand)),
    decreases n,
{
    if n > 0 {
        lemma_scope_violation_none(ks, vs, fid, cand, (n - 1) as nat);
        if scope_violation(ks, vs, fid, cand, (n - 1) as nat) is Some {
            let i = choose|i: int|
                0 <= i < n - 1 && out_of_scope_successor(#[trigger] ks[i], vs[i], fid, cand);
            assert(out_of_scope_successor(ks[i], vs[i], fid, cand));
        }
    }
}

/// The amend check on a store's facts speaks of the map alone: no fact
/// other than `fid` supersedes it from outside the scope of `cand`.
proof fn lemma_scope_violation_map(fs: crate::strmap::StrMap<NarrativeFact>, fid: Seq<char>, cand: FactView)
    requires
        fs.wf(),
    ensures
        (scope_violation(fs.key_seq(), fact_vals(fs), fid, cand, fs.size()) is None) == (forall|k: Seq<char>|
            #[trigger] facts_v(fs).contains_key(k) ==> !out_of_scope_successor(k, facts_v(fs)[k], fid, cand)),
{
    fs.lemma_wf();
    lemma_scope_violation_none(fs.key_seq(), fact_vals(fs), fid, cand, fs.size());
    let fm = facts_v(fs);
    if scope_violation(fs.key_seq(), fact_vals(fs), fid, cand, fs.size()) is None {
        assert forall|k: Seq<char>| #[trigger] fm.contains_key(k) implies !out_of_scope_successor(
            k,
            fm[k],
            fid,
            cand,
        ) by {
            let i = choose|i: int| 0 <= i < fs.size() && fs.key_seq()[i] == k;
            assert(fact_vals(fs)[i] == fm[k]);
        }
    } else {
        let i = choose|i: int|
            0 <= i < fs.size() && out_of_scope_successor(#[trigger] fs.key_seq()[i], fact_vals(fs)[i], fid, cand);
        let k = fs.key_seq()[i];
        assert(fm.contains_key(k) && fm[k] == fact_vals(fs)[i]);
    }
}

/// What amending a fact gives: `(changed, id, stamped)`, or the refusal.
/// The fact must exist; the candidate is built and stamped as a create is;
/// a fact superseding it must stay in its scope.
pub open spec fn amend_outcome(
    s: AtomicStore,
    e: crate::facts::FactImportView,
    reason: Seq<char>,
) -> Result<(bool, Seq<char>, FactView), Refusal> {
    let fs = s.narrative_facts;
    let fm = facts_v(fs);
    if crate::text::trim_seq(reason).len() == 0 {
        Err(Refusal::Validation("amend_fact: --reason mandatory (audit-trail safeguard)"@))
    } else {
        match fact_outcome(crate::registry::narr_of(s), e) {
            Err(m) => Err(Refusal::Validation(m)),
            Ok((fid, cand)) => if !fm.contains_key(fid) {
                Err(
                    Refusal::NotFound(
                        "fact_id `"@ + fid
                            + "` not present in atomic store (amend revises an existing fact; add_fact creates)"@,
                    ),
                )
            } else {
                match refs_outcome(
                    fm,
                    branches_v(s.branches),
                    fid,
                    cand,
                    walk_fuel(fs@.len(), 0, 0),
                ) {
                    Err(m) => Err(Refusal::Validation(m)),
                    Ok(stamped) => match scope_violation(
                        fs.key_seq(),
                        fact_vals(fs),
                        fid,
                        stamped,
                        fs.size(),
                    ) {
                        Some(m) => Err(Refusal::Validation(m)),
                        None => Ok((fm[fid] != stamped, fid, stamped)),
                    },
                }
            },
        }
    }
}

/// Amending a fact twice with the same authoring form leaves the second
/// amend a no-op: once `amend_fact` has accepted a form, the store it leaves
/// accepts the same form again as identical (`Ok(false)`), keeping the fact
/// as it is.
pub proof fn lemma_amend_twice_is_noop(
    s: AtomicStore,
    s2: AtomicStore,
    e: crate::facts::FactImportView,
    reason: Seq<char>,
    reason2: Seq<char>,
)
    requires
        s.wf(),
        s2.wf(),
        amend_outcome(s, e, reason) is Ok,
        crate::text::trim_seq(reason2).len() > 0,
        s2 == (AtomicStore { narrative_facts: s2.narrative_facts, ..s }),
        facts_v(s2.narrative_facts) == facts_v(s.narrative_facts).insert(
            amend_outcome(s, e, reason)->Ok_0.1,
            amend_outcome(s, e, reason)->Ok_0.2,
        ),
    ensures
        amend_outcome(s2, e, reason2) == Ok::<_, Refusal>(
            (false, amend_outcome(s, e, reason)->Ok_0.1, amend_outcome(s, e, reason)->Ok_0.2),
        ),
{
    let (c, fid, f) = amend_outcome(s, e, reason)->Ok_0;
    let n1 = crate::registry::narr_of(s);
    let n2 = crate::registry::narr_of(s2);
    assert(n2 == crate::registry::NarrState { facts: n2.facts, ..n1 });
    assert(fact_outcome(n2, e) == fact_outcome(n1, e));
    let cand = fact_outcome(n1, e)->Ok_0.1;
    crate::facts::lemma_fact_refs_avoid_self(n1, e);
    let vm1 = facts_v(s.narrative_facts);
    let vm2 = facts_v(s2.narrative_facts);
    let m1 = s.narrative_facts;
    let m2 = s2.narrative_facts;
    m1.lemma_wf();
    m2.lemma_wf();
    let nodes = seq![fid] + m1.key_seq();
    assert(nodes[0] == fid);
    assert forall|k: Seq<char>| #[trigger] vm1.contains_key(k) implies nodes.contains(k) by {
        assert(m1@.contains_key(k));
        let i = choose|i: int| 0 <= i < m1.size() && m1.key_seq()[i] == k;
        assert(nodes[i + 1] == k);
    }
    assert(vm1.dom() =~= m1@.dom());
    assert(vm2.dom() =~= m2@.dom());
    assert(vm1.contains_key(fid));
    assert(m2@.dom() =~= m1@.dom());
    crate::succession::lemma_refs_outcome_eq(
        vm1,
        vm2,
        branches_v(s.branches),
        fid,
        cand,
        nodes,
        walk_fuel(m1@.len(), 0, 0),
        walk_fuel(m2@.len(), 0, 0),
    );
    lemma_scope_violation_map(m1, fid, f);
    lemma_scope_violation_map(m2, fid, f);
    assert forall|k: Seq<char>| #[trigger] vm2.contains_key(k) implies !out_of_scope_successor(k, vm2[k], fid, f) by {
        if k != fid {
            assert(vm1.contains_key(k) && vm1[k] == vm2[k]);
        }
    }
}

/// Replace a fact's content in place, keeping its id: the author's
/// correction path. The reason is mandatory, the fact must exist, the
/// candidate routes the same builder and cross-fact check as a create, and
/// a fact superseding it must stay in the same frame and world-line.
/// `Ok(true)` changed it; `Ok(false)` found it identical.
pub fn amend_fact(store: &mut AtomicStore, entry: &crate::facts::FactImport, reason: &str) -> (r: Result<
    bool,
    AtomicMutateError,
>)
    ensures
        final(store).wf(),
        ({
            let v = amend_outcome(*old(store), entry.deep_view(), reason@);
            match r {
                Ok(c) => v is Ok && v->Ok_0.0 == c && facts_v(final(store).narrative_facts) == facts_v(
                    old(store).narrative_facts,
                ).insert(v->Ok_0.1, v->Ok_0.2) && *final(store) == (AtomicStore {
                    narrative_facts: final(store).narrative_facts,
                    ..*old(store)
                }),
                Err(e) => *final(store) == *old(store) && v == Err::<(bool, Seq<char>, FactView), _>(
                    refusal(e),
                ),
            }
        }),
{
    store.establish_wf();
    if crate::text::is_blank(reason) {
        proof {
            crate::text::lemma_blank_iff_all_ws(reason@);
        }
        return Err(
            AtomicMutateError::Validation(
                owned("amend_fact: --reason mandatory (audit-trail safeguard)"),
            ),
        );
    }
    proof {
        crate::text::lemma_blank_iff_all_ws(reason@);
        store.narrative_facts.lemma_wf();
    }
    let (fact_id, candidate) = match build_candidate_fact(store, entry) {
        Ok(x) => x,
        Err(m) => {
            return Err(AtomicMutateError::Validation(m));
        },
    };
    if !store.narrative_facts.contains_key(fact_id.as_str()) {
        let m = cat3(
            "fact_id `",
            fact_id.as_str(),
            "` not present in atomic store (amend revises an existing fact; add_fact creates)",
        );
        return Err(AtomicMutateError::NotFound(m));
    }
    let ghost cv = candidate.deep_view();
    let no_staged: Vec<(String, NarrativeFact)> = Vec::new();
    assert(staged_v(no_staged@) =~= Seq::<(Seq<char>, FactView)>::empty());
    assert(overlay(facts_v(store.narrative_facts), staged_v(no_staged@)) == facts_v(
        store.narrative_facts,
    ));
    let stamped = match validate_and_stamp_fact_refs(
        fact_id.as_str(),
        candidate,
        &store.narrative_facts,
        &no_staged,
        &store.branches,
    ) {
        Ok(f) => f,
        Err(m) => {
            return Err(AtomicMutateError::Validation(m));
        },
    };
    let ghost ks = store.narrative_facts.key_seq();
    let ghost vs = fact_vals(store.narrative_facts);
    let ghost sv = stamped.deep_view();
    let n = store.narrative_facts.len();
    let mut i: usize = 0;
    while i < n
        invariant
            store.wf(),
            *store == *old(store),
            ks == store.narrative_facts.key_seq(),
            vs == fact_vals(store.narrative_facts),
            sv == stamped.deep_view(),
            n == store.narrative_facts.size(),
            i <= n,
            scope_violation(ks, vs, fact_id@, sv, i as nat) is None,
            crate::text::trim_seq(reason@).len() != 0,
            fact_outcome(crate::registry::narr_of(*old(store)), entry.deep_view()) == Ok::<_, Seq<char>>((fact_id@, cv)),
            facts_v(old(store).narrative_facts).contains_key(fact_id@),
            refs_outcome(
                facts_v(old(store).narrative_facts),
                branches_v(old(store).branches),
                fact_id@,
                cv,
                walk_fuel(old(store).narrative_facts@.len(), 0, 0),
            ) == Ok::<_, Seq<char>>(sv),
        decreases n - i,
    {
        proof {
            store.narrative_facts.lemma_wf();
        }
        let k = store.narrative_facts.key_at(i);
        let f = store.narrative_facts.val_at(i);
        assert(vs[i as int] == f.deep_view());
        let sup = match &f.supersedes_in_frame {
            Some(s) => str_eq(s.as_str(), fact_id.as_str()),
            None => false,
        };
        if !str_eq(k.as_str(), fact_id.as_str()) && sup && (!str_eq(
            f.frame.as_str(),
            stamped.frame.as_str(),
        ) || !str_eq(f.branch.as_str(), stamped.branch.as_str())) {
            let mut m = cat3("amend_fact: fact `", fact_id.as_str(), "` is superseded by `");
            m.append(k.as_str());
            m.append("` in scope (frame `");
            m.append(f.frame.as_str());
            m.append("`, branch `");
            m.append(f.branch.as_str());
            m.append("`) — an amend cannot move it to (frame `");
            m.append(stamped.frame.as_str());
            m.append("`, branch `");
            m.append(stamped.branch.as_str());
            m.append("`) (succession is same-scope; amend the successor first)");
            proof {
                lemma_scope_violation_persists(ks, vs, fact_id@, sv, (i + 1) as nat, n as nat);
            }
            return Err(AtomicMutateError::Validation(m));
        }
        i = i + 1;
    }
    let ghost fm = facts_v(store.narrative_facts);
    let changed = match store.narrative_facts.get(fact_id.as_str()) {
        Some(existing) => !facts_equal(existing, &stamped, false),
        None => true,
    };
    let ghost fid = fact_id@;
    store.narrative_facts.insert(fact_id, stamped);
    assert(facts_v(store.narrative_facts) =~= fm.insert(fid, sv));
    Ok(changed)
}

/// The stamped fact keeps the built fact's entities and typed claim.
pub(crate) proof fn lemma_refs_keep_legs(
    vm: Map<Seq<char>, FactView>,
    bs: Map<Seq<char>, crate::narrative::BranchView>,
    fid: Seq<char>,
    f: FactView,
    fuel: nat,
)
    requires
        refs_outcome(vm, bs, fid, f, fuel) is Ok,
    ensures
        refs_outcome(vm, bs, fid, f, fuel)->Ok_0.entities == f.entities,
        refs_outcome(vm, bs, fid, f, fuel)->Ok_0.typed == f.typed,
{
}

/// The fact `add_fact` or `amend_fact` stores lists every entity its typed
/// claim names: a typed subject, or an entity object, that is not among
/// the fact's entities is refused.
pub proof fn lemma_stored_fact_legs_listed(s: AtomicStore, e: crate::facts::FactImportView, reason: Seq<char>)
    ensures
        add_fact_outcome(s, e) is Ok ==> crate::facts::typed_legs_listed(
            add_fact_outcome(s, e)->Ok_0.2.typed,
            add_fact_outcome(s, e)->Ok_0.2.entities,
        ),
        amend_outcome(s, e, reason) is Ok ==> crate::facts::typed_legs_listed(
            amend_outcome(s, e, reason)->Ok_0.2.typed,
            amend_outcome(s, e, reason)->Ok_0.2.entities,
        ),
{
    let ns = crate::registry::narr_of(s);
    if fact_outcome(ns, e) is Ok {
        crate::facts::lemma_built_fact_legs_listed(ns, e);
        let (fid, cand) = fact_outcome(ns, e)->Ok_0;
        let fm = facts_v(s.narrative_facts);
        let bs = branches_v(s.branches);
        if refs_outcome(fm, bs, fid, cand, walk_fuel(s.narrative_facts@.len(), 0, 0)) is Ok {
            lemma_refs_keep_legs(fm, bs, fid, cand, walk_fuel(s.narrative_facts@.len(), 0, 0));
        }
        if refs_outcome(fm, bs, fid, cand, walk_fuel(s.narrative_facts.size(), 0, 0)) is Ok {
            lemma_refs_keep_legs(fm, bs, fid, cand, walk_fuel(s.narrative_facts.size(), 0, 0));
        }
    }
}

} // verus!
