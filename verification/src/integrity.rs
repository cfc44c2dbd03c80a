//! Referential integrity of the facts: every conflict, payoff and
//! succession edge of every fact names a fact of the store. Each fact write
//! path keeps it.
use vstd::prelude::*;
use crate::fact_ops::{
    add_conflict_outcome, add_fact_outcome, amend_outcome, fact_vals, inbound_refs, refs_of,
    retract_outcome, targets,
};
use crate::model::AtomicStore;
use crate::narrative::{FactView, TypedView};
use crate::proposals::{
    EdgeV, conflict_applies, succession_edges, typing_legs, with_conflicts, with_legs, with_successions,
};
use crate::succession::{facts_v, pays_missing, refs_outcome, stamp_prefix};

verus! {

/// Every edge of `f` names an id of `dom`.
pub open spec fn refs_within(f: FactView, dom: Set<Seq<char>>) -> bool {
    &&& forall|i: int| 0 <= i < f.conflicts_with.len() ==> dom.contains(#[trigger] f.conflicts_with[i].0)
    &&& forall|i: int| 0 <= i < f.pays_off.len() ==> dom.contains(#[trigger] f.pays_off[i])
    &&& f.supersedes_in_frame is Some ==> dom.contains(f.supersedes_in_frame->Some_0)
}

/// No edge of any fact dangles.
pub open spec fn refs_closed(fm: Map<Seq<char>, FactView>) -> bool {
    forall|k: Seq<char>| #[trigger] fm.contains_key(k) ==> refs_within(fm[k], fm.dom())
}

proof fn lemma_stamp_prefix_within(
    vm: Map<Seq<char>, FactView>,
    fid: Seq<char>,
    cw: Seq<(Seq<char>, Seq<char>)>,
    n: nat,
)
    requires
        n <= cw.len(),
        stamp_prefix(vm, fid, cw, n) is Ok,
    ensures
        stamp_prefix(vm, fid, cw, n)->Ok_0.len() == n,
        forall|i: int|
            0 <= i < n ==> (#[trigger] stamp_prefix(vm, fid, cw, n)->Ok_0[i]).0 == cw[i].0
                && vm.contains_key(cw[i].0),
    decreases n,
{
    if n > 0 {
        lemma_stamp_prefix_within(vm, fid, cw, (n - 1) as nat);
    }
}

proof fn lemma_pays_within(vm: Map<Seq<char>, FactView>, fid: Seq<char>, pays: Seq<Seq<char>>, n: nat)
    requires
        n <= pays.len(),
        pays_missing(vm, fid, pays, n) is None,
    ensures
        forall|i: int| 0 <= i < n ==> vm.contains_key(#[trigger] pays[i]),
    decreases n,
{
    if n > 0 {
        lemma_pays_within(vm, fid, pays, (n - 1) as nat);
    }
}

/// A fact that passes the cross-fact check names only visible facts.
pub proof fn lemma_refs_outcome_within(
    vm: Map<Seq<char>, FactView>,
    bs: Map<Seq<char>, crate::narrative::BranchView>,
    fid: Seq<char>,
    f: FactView,
    fuel: nat,
)
    requires
        refs_outcome(vm, bs, fid, f, fuel) is Ok,
    ensures
        refs_within(refs_outcome(vm, bs, fid, f, fuel)->Ok_0, vm.dom()),
{
    lemma_stamp_prefix_within(vm, fid, f.conflicts_with, f.conflicts_with.len());
    lemma_pays_within(vm, fid, f.pays_off, f.pays_off.len());
    let sv = refs_outcome(vm, bs, fid, f, fuel)->Ok_0;
    assert forall|i: int| 0 <= i < sv.conflicts_with.len() implies vm.dom().contains(
        #[trigger] sv.conflicts_with[i].0,
    ) by {
        assert(sv.conflicts_with[i].0 == f.conflicts_with[i].0);
    }
}

/// Edges within some ids are within more of them.
pub proof fn lemma_within_grows(f: FactView, d1: Set<Seq<char>>, d2: Set<Seq<char>>)
    requires
        refs_within(f, d1),
        d1.subset_of(d2),
    ensures
        refs_within(f, d2),
{
}

/// Creating a fact keeps every edge of the store pointing at a fact.
pub proof fn lemma_add_fact_keeps_refs_closed(s: AtomicStore, s2: AtomicStore, e: crate::facts::FactImportView)
    requires
        refs_closed(facts_v(s.narrative_facts)),
        add_fact_outcome(s, e) is Ok,
        facts_v(s2.narrative_facts) == (if add_fact_outcome(s, e)->Ok_0.0 {
            facts_v(s.narrative_facts).insert(add_fact_outcome(s, e)->Ok_0.1, add_fact_outcome(s, e)->Ok_0.2)
        } else {
            facts_v(s.narrative_facts)
        }),
    ensures
        refs_closed(facts_v(s2.narrative_facts)),
{
    let fm = facts_v(s.narrative_facts);
    let fm2 = facts_v(s2.narrative_facts);
    let (fid, cand) = crate::facts::fact_outcome(crate::registry::narr_of(s), e)->Ok_0;
    lemma_refs_outcome_within(
        fm,
        crate::registry::branches_v(s.branches),
        fid,
        cand,
        crate::succession::walk_fuel(s.narrative_facts@.len(), 0, 0),
    );
    assert forall|k: Seq<char>| #[trigger] fm2.contains_key(k) implies refs_within(fm2[k], fm2.dom()) by {
        if fm.contains_key(k) && fm2[k] == fm[k] {
            lemma_within_grows(fm[k], fm.dom(), fm2.dom());
        } else {
            lemma_within_grows(fm2[k], fm.dom(), fm2.dom());
        }
    }
}

/// Amending a fact keeps every edge of the store pointing at a fact.
pub proof fn lemma_amend_keeps_refs_closed(
    s: AtomicStore,
    s2: AtomicStore,
    e: crate::facts::FactImportView,
    reason: Seq<char>,
)
    requires
        refs_closed(facts_v(s.narrative_facts)),
        amend_outcome(s, e, reason) is Ok,
        facts_v(s2.narrative_facts) == facts_v(s.narrative_facts).insert(
            amend_outcome(s, e, reason)->Ok_0.1,
            amend_outcome(s, e, reason)->Ok_0.2,
        ),
    ensures
        refs_closed(facts_v(s2.narrative_facts)),
{
    let fm = facts_v(s.narrative_facts);
    let fm2 = facts_v(s2.narrative_facts);
    let (fid, cand) = crate::facts::fact_outcome(crate::registry::narr_of(s), e)->Ok_0;
    lemma_refs_outcome_within(
        fm,
        crate::registry::branches_v(s.branches),
        fid,
        cand,
        crate::succession::walk_fuel(s.narrative_facts@.len(), 0, 0),
    );
    assert forall|k: Seq<char>| #[trigger] fm2.contains_key(k) implies refs_within(fm2[k], fm2.dom()) by {
        if k == fid {
            lemma_within_grows(fm2[k], fm.dom(), fm2.dom());
        } else {
            lemma_within_grows(fm[k], fm.dom(), fm2.dom());
        }
    }
}

proof fn lemma_no_inbound(ks: Seq<Seq<char>>, vs: Seq<FactView>, id: Seq<char>, n: nat)
    requires
        inbound_refs(ks, vs, id, n).len() == 0,
    ensures
        forall|i: int| 0 <= i < n ==> (#[trigger] refs_of(ks[i], vs[i], id)).len() == 0,
    decreases n,
{
    if n > 0 {
        lemma_no_inbound(ks, vs, id, (n - 1) as nat);
    }
}

proof fn lemma_unreferenced(k: Seq<char>, f: FactView, id: Seq<char>)
    requires
        k != id,
        refs_of(k, f, id).len() == 0,
    ensures
        forall|i: int| 0 <= i < f.conflicts_with.len() ==> (#[trigger] f.conflicts_with[i]).0 != id,
        forall|i: int| 0 <= i < f.pays_off.len() ==> #[trigger] f.pays_off[i] != id,
        f.supersedes_in_frame != Some(id),
{
    assert forall|i: int| 0 <= i < f.conflicts_with.len() implies (#[trigger] f.conflicts_with[i]).0 != id by {
        if f.conflicts_with[i].0 == id {
            assert(targets(f.conflicts_with)[i] == id);
        }
    }
    assert forall|i: int| 0 <= i < f.pays_off.len() implies #[trigger] f.pays_off[i] != id by {
        if f.pays_off[i] == id {
            assert(f.pays_off.contains(id));
        }
    }
}

/// Retracting a fact keeps every edge of the store pointing at a fact: the
/// retracted one was named by none.
pub proof fn lemma_retract_keeps_refs_closed(
    s: AtomicStore,
    s2: AtomicStore,
    fact_id: Seq<char>,
    reason: Seq<char>,
)
    requires
        s.wf(),
        refs_closed(facts_v(s.narrative_facts)),
        retract_outcome(
            s.narrative_facts.key_seq(),
            fact_vals(s.narrative_facts),
            facts_v(s.narrative_facts),
            fact_id,
            reason,
        ) is Ok,
        facts_v(s2.narrative_facts) == facts_v(s.narrative_facts).remove(
            retract_outcome(
                s.narrative_facts.key_seq(),
                fact_vals(s.narrative_facts),
                facts_v(s.narrative_facts),
                fact_id,
                reason,
            )->Ok_0,
        ),
    ensures
        refs_closed(facts_v(s2.narrative_facts)),
{
    let fs = s.narrative_facts;
    let fm = facts_v(fs);
    let fm2 = facts_v(s2.narrative_facts);
    let id = crate::text::trim_seq(fact_id);
    fs.lemma_wf();
    lemma_no_inbound(fs.key_seq(), fact_vals(fs), id, fs.key_seq().len());
    assert forall|k: Seq<char>| #[trigger] fm2.contains_key(k) implies refs_within(fm2[k], fm2.dom()) by {
        let i = choose|i: int| 0 <= i < fs.size() && fs.key_seq()[i] == k;
        assert(fact_vals(fs)[i] == fm[k]);
        lemma_unreferenced(k, fm[k], id);
        let f = fm[k];
        assert forall|j: int| 0 <= j < f.conflicts_with.len() implies fm2.dom().contains(
            #[trigger] f.conflicts_with[j].0,
        ) by {
            assert(fm.dom().contains(f.conflicts_with[j].0));
        }
        assert forall|j: int| 0 <= j < f.pays_off.len() implies fm2.dom().contains(
            #[trigger] f.pays_off[j],
        ) by {
            assert(fm.dom().contains(f.pays_off[j]));
        }
    }
}

/// Recording a conflict edge keeps every edge of the store pointing at a
/// fact.
pub proof fn lemma_conflict_keeps_refs_closed(
    fm: Map<Seq<char>, FactView>,
    fact_id: Seq<char>,
    other: Seq<char>,
    pin: Seq<char>,
)
    requires
        refs_closed(fm),
        add_conflict_outcome(fm, fact_id, other) is Ok,
    ensures
        ({
            let (id, o) = add_conflict_outcome(fm, fact_id, other)->Ok_0;
            refs_closed(
                fm.insert(id, FactView { conflicts_with: fm[id].conflicts_with.push((o, pin)), ..fm[id] }),
            )
        }),
{
    let (id, o) = add_conflict_outcome(fm, fact_id, other)->Ok_0;
    let f = FactView { conflicts_with: fm[id].conflicts_with.push((o, pin)), ..fm[id] };
    let fm2 = fm.insert(id, f);
    assert(fm2.dom() =~= fm.dom());
    assert forall|k: Seq<char>| #[trigger] fm2.contains_key(k) implies refs_within(fm2[k], fm2.dom()) by {
        if k == id {
            assert forall|i: int| 0 <= i < f.conflicts_with.len() implies fm2.dom().contains(
                #[trigger] f.conflicts_with[i].0,
            ) by {
                if i < fm[id].conflicts_with.len() {
                    assert(f.conflicts_with[i] == fm[id].conflicts_with[i]);
                }
            }
        }
    }
}

/// Every typed leg an import applies targets a fact of the store.
pub proof fn lemma_typing_legs_in(s: AtomicStore, ps: Seq<(Seq<char>, TypedView, Seq<char>, Seq<char>)>, n: nat)
    ensures
        forall|i: int|
            0 <= i < typing_legs(s, ps, n).len() ==> facts_v(s.narrative_facts).contains_key(
                (#[trigger] typing_legs(s, ps, n)[i]).0,
            ),
    decreases n,
{
    if n > 0 {
        lemma_typing_legs_in(s, ps, (n - 1) as nat);
        let prev = typing_legs(s, ps, (n - 1) as nat);
        let cur = typing_legs(s, ps, n);
        if crate::proposals::typing_verdict(s, ps, n - 1) is Ok {
            assert(facts_v(s.narrative_facts).contains_key(crate::text::trim_seq(ps[n - 1].0)));
            assert forall|i: int| 0 <= i < cur.len() implies facts_v(s.narrative_facts).contains_key(
                (#[trigger] cur[i]).0,
            ) by {
                if i < prev.len() {
                    assert(cur[i] == prev[i]);
                }
            }
        }
    }
}

proof fn lemma_with_legs_keeps(fm: Map<Seq<char>, FactView>, legs: Seq<(Seq<char>, TypedView)>)
    requires
        refs_closed(fm),
        forall|i: int| 0 <= i < legs.len() ==> fm.contains_key((#[trigger] legs[i]).0),
    ensures
        with_legs(fm, legs).dom() == fm.dom(),
        refs_closed(with_legs(fm, legs)),
    decreases legs.len(),
{
    if legs.len() > 0 {
        let t = legs.drop_last();
        assert forall|i: int| 0 <= i < t.len() implies fm.contains_key((#[trigger] t[i]).0) by {
            assert(t[i] == legs[i]);
        }
        lemma_with_legs_keeps(fm, t);
        let prev = with_legs(fm, t);
        let (k, tv) = legs.last();
        assert(fm.contains_key(legs[legs.len() - 1].0));
        assert(with_legs(fm, legs).dom() =~= prev.dom());
    }
}

/// Importing typing proposals keeps every edge of the store pointing at a
/// fact: a typed leg adds no edge.
pub proof fn lemma_typing_import_keeps_refs_closed(
    s: AtomicStore,
    ps: Seq<(Seq<char>, TypedView, Seq<char>, Seq<char>)>,
)
    requires
        refs_closed(facts_v(s.narrative_facts)),
    ensures
        refs_closed(with_legs(facts_v(s.narrative_facts), typing_legs(s, ps, ps.len()))),
{
    lemma_typing_legs_in(s, ps, ps.len());
    lemma_with_legs_keeps(facts_v(s.narrative_facts), typing_legs(s, ps, ps.len()));
}

/// Every succession edge an import applies joins two facts of the store.
pub proof fn lemma_succession_edges_in(
    fm: Map<Seq<char>, FactView>,
    bs: Map<Seq<char>, crate::narrative::BranchView>,
    ps: Seq<EdgeV>,
    n: nat,
)
    ensures
        forall|i: int|
            0 <= i < succession_edges(fm, bs, ps, n).len() ==> fm.contains_key(
                (#[trigger] succession_edges(fm, bs, ps, n)[i]).0,
            ) && fm.contains_key(succession_edges(fm, bs, ps, n)[i].1),
    decreases n,
{
    if n > 0 {
        lemma_succession_edges_in(fm, bs, ps, (n - 1) as nat);
        let prev = succession_edges(fm, bs, ps, (n - 1) as nat);
        let cur = succession_edges(fm, bs, ps, n);
        if crate::proposals::succession_verdict(fm, bs, ps, n - 1, prev) is Ok {
            assert(fm.contains_key(crate::text::trim_seq(ps[n - 1].0)));
            assert(fm.contains_key(crate::text::trim_seq(ps[n - 1].1)));
            assert forall|i: int| 0 <= i < cur.len() implies fm.contains_key((#[trigger] cur[i]).0)
                && fm.contains_key(cur[i].1) by {
                if i < prev.len() {
                    assert(cur[i] == prev[i]);
                }
            }
        }
    }
}

/// Every conflict edge an import applies joins two facts of the store.
pub proof fn lemma_conflict_applies_in(fm: Map<Seq<char>, FactView>, ps: Seq<EdgeV>, n: nat)
    ensures
        forall|i: int|
            0 <= i < conflict_applies(fm, ps, n).len() ==> fm.contains_key(
                (#[trigger] conflict_applies(fm, ps, n)[i]).0,
            ) && fm.contains_key(conflict_applies(fm, ps, n)[i].1),
    decreases n,
{
    if n > 0 {
        lemma_conflict_applies_in(fm, ps, (n - 1) as nat);
        let prev = conflict_applies(fm, ps, (n - 1) as nat);
        let cur = conflict_applies(fm, ps, n);
        if crate::proposals::conflict_verdict(fm, ps, n - 1) is Ok {
            assert(fm.contains_key(crate::text::trim_seq(ps[n - 1].0)));
            assert(fm.contains_key(crate::text::trim_seq(ps[n - 1].1)));
            assert forall|i: int| 0 <= i < cur.len() implies fm.contains_key((#[trigger] cur[i]).0)
                && fm.contains_key(cur[i].1) by {
                if i < prev.len() {
                    assert(cur[i] == prev[i]);
                }
            }
        }
    }
}

proof fn lemma_with_successions_keeps(fm: Map<Seq<char>, FactView>, edges: Seq<(Seq<char>, Seq<char>)>)
    requires
        refs_closed(fm),
        forall|i: int|
            0 <= i < edges.len() ==> fm.contains_key((#[trigger] edges[i]).0) && fm.contains_key(edges[i].1),
    ensures
        with_successions(fm, edges).dom() == fm.dom(),
        refs_closed(with_successions(fm, edges)),
    decreases edges.len(),
{
    if edges.len() > 0 {
        let t = edges.drop_last();
        assert forall|i: int| 0 <= i < t.len() implies fm.contains_key((#[trigger] t[i]).0) && fm.contains_key(
            t[i].1,
        ) by {
            assert(t[i] == edges[i]);
        }
        lemma_with_successions_keeps(fm, t);
        let prev = with_successions(fm, t);
        assert(fm.contains_key(edges[edges.len() - 1].0) && fm.contains_key(edges[edges.len() - 1].1));
        assert(with_successions(fm, edges).dom() =~= prev.dom());
    }
}

proof fn lemma_with_conflicts_keeps(fm: Map<Seq<char>, FactView>, pairs: Seq<(Seq<char>, Seq<char>)>)
    requires
        refs_closed(fm),
        forall|i: int|
            0 <= i < pairs.len() ==> fm.contains_key((#[trigger] pairs[i]).0) && fm.contains_key(pairs[i].1),
    ensures
        with_conflicts(fm, pairs).dom() == fm.dom(),
        refs_closed(with_conflicts(fm, pairs)),
    decreases pairs.len(),
{
    if pairs.len() > 0 {
        let t = pairs.drop_last();
        assert forall|i: int| 0 <= i < t.len() implies fm.contains_key((#[trigger] t[i]).0) && fm.contains_key(
            t[i].1,
        ) by {
            assert(t[i] == pairs[i]);
        }
        lemma_with_conflicts_keeps(fm, t);
        let prev = with_conflicts(fm, t);
        let (f, tg) = pairs.last();
        assert(fm.contains_key(pairs[pairs.len() - 1].0) && fm.contains_key(pairs[pairs.len() - 1].1));
        let nf = FactView {
            conflicts_with: prev[f].conflicts_with.push((tg, crate::digest::sha256_hex_of(prev[tg].claim))),
            ..prev[f]
        };
        let next = prev.insert(f, nf);
        assert(next.dom() =~= prev.dom());
        assert forall|k: Seq<char>| #[trigger] next.contains_key(k) implies refs_within(next[k], next.dom()) by {
            if k == f {
                assert forall|i: int| 0 <= i < nf.conflicts_with.len() implies next.dom().contains(
                    #[trigger] nf.conflicts_with[i].0,
                ) by {
                    if i < prev[f].conflicts_with.len() {
                        assert(nf.conflicts_with[i] == prev[f].conflicts_with[i]);
                    }
                }
            }
        }
    }
}

/// Importing edge proposals keeps every edge of the store pointing at a
/// fact: every accepted succession pointer and conflict edge joins two facts
/// of the store.
pub proof fn lemma_edge_import_keeps_refs_closed(
    fm: Map<Seq<char>, FactView>,
    bs: Map<Seq<char>, crate::narrative::BranchView>,
    sp: Seq<EdgeV>,
    cp: Seq<EdgeV>,
)
    requires
        refs_closed(fm),
    ensures
        refs_closed(
            with_conflicts(
                with_successions(fm, succession_edges(fm, bs, sp, sp.len())),
                conflict_applies(fm, cp, cp.len()),
            ),
        ),
{
    let edges = succession_edges(fm, bs, sp, sp.len());
    let pairs = conflict_applies(fm, cp, cp.len());
    lemma_succession_edges_in(fm, bs, sp, sp.len());
    lemma_conflict_applies_in(fm, cp, cp.len());
    lemma_with_successions_keeps(fm, edges);
    let fm1 = with_successions(fm, edges);
    assert forall|i: int| 0 <= i < pairs.len() implies fm1.contains_key((#[trigger] pairs[i]).0)
        && fm1.contains_key(pairs[i].1) by {
        assert(fm.contains_key(pairs[i].0) && fm.contains_key(pairs[i].1));
    }
    lemma_with_conflicts_keeps(fm1, pairs);
}

} // verus!
