//! What holds of facts manifests across calls: re-applying one that was
//! applied before changes nothing, and a one-fact manifest accepts and
//! rejects exactly what `add_fact` does.
use vstd::prelude::*;
use crate::disclosure::{DecisionView, override_outcome, plan_outcome};
use crate::facts::{FactImportView, fact_outcome};
use crate::manifest::{
    BranchImportV, Counts, ManifestV, PlanImportV, OverrideImportV, branches_fold, build_staged,
    changed_of, entities_fold, facts_fold, facts_stage, fork_pair, frames_fold, manifest_outcome,
    overrides_fold, plan_mode, plans_fold, predicates_fold, stamp_staged, staged_ids, zero_counts,
    manifest_size, overrides_total, summary_of, total,
};
use crate::narrative::{FactView, PlanView, main_branch_id, mode_of};
use crate::registry::{NarrState, branch_outcome, converge_prefix, known_world, predicate_outcome};
use crate::succession::{
    facts_v, first_revisit, lemma_refs_outcome_eq, lemma_refs_outcome_stable, outbound, overlay, refs_outcome,
    walk_fuel,
};
use crate::text::{decimal, trim_seq};

verus! {

/// The same state with only the creation counts left as they were: every
/// entry counted was a no-op.
pub open spec fn only_no_ops(c1: Counts, c0: Counts) -> bool {
    c1 == (Counts { no_op: c1.no_op, ..c0 })
}

// ---------------------------------------------------------------------------
// Frames.
// ---------------------------------------------------------------------------
proof fn lemma_frames_run(ns: NarrState, c: Counts, fs: Seq<(Seq<char>, Seq<char>)>, n: nat)
    requires
        frames_fold(ns, c, fs, n) is Ok,
    ensures
        ({
            let s1 = frames_fold(ns, c, fs, n)->Ok_0.0;
            &&& s1 == (NarrState { frames: s1.frames, ..ns })
            &&& forall|k: Seq<char>|
                #[trigger] ns.frames.contains_key(k) ==> s1.frames.contains_key(k) && s1.frames[k]
                    == ns.frames[k]
            &&& forall|j: int|
                0 <= j < n ==> trim_seq(#[trigger] fs[j].0).len() > 0 && s1.frames.contains_key(
                    trim_seq(fs[j].0),
                ) && s1.frames[trim_seq(fs[j].0)] == trim_seq(fs[j].1)
        }),
    decreases n,
{
    if n > 0 {
        lemma_frames_run(ns, c, fs, (n - 1) as nat);
    }
}

proof fn lemma_frames_idle(t: NarrState, c: Counts, fs: Seq<(Seq<char>, Seq<char>)>, n: nat)
    requires
        n <= fs.len(),
        forall|j: int|
            0 <= j < n ==> trim_seq(#[trigger] fs[j].0).len() > 0 && t.frames.contains_key(
                trim_seq(fs[j].0),
            ) && t.frames[trim_seq(fs[j].0)] == trim_seq(fs[j].1),
    ensures
        frames_fold(t, c, fs, n) is Ok,
        frames_fold(t, c, fs, n)->Ok_0.0 == t,
        only_no_ops(frames_fold(t, c, fs, n)->Ok_0.1, c),
    decreases n,
{
    if n > 0 {
        lemma_frames_idle(t, c, fs, (n - 1) as nat);
        assert(trim_seq(fs[n - 1].0).len() > 0);
    }
}

// ---------------------------------------------------------------------------
// Entities.
// ---------------------------------------------------------------------------
proof fn lemma_entities_run(ns: NarrState, c: Counts, es: Seq<(Seq<char>, Seq<char>, Seq<char>)>, n: nat)
    requires
        entities_fold(ns, c, es, n) is Ok,
    ensures
        ({
            let s1 = entities_fold(ns, c, es, n)->Ok_0.0;
            &&& s1 == (NarrState { entities: s1.entities, ..ns })
            &&& forall|k: Seq<char>|
                #[trigger] ns.entities.contains_key(k) ==> s1.entities.contains_key(k)
                    && s1.entities[k] == ns.entities[k]
            &&& forall|j: int|
                0 <= j < n ==> trim_seq(#[trigger] es[j].0).len() > 0 && s1.entities.contains_key(
                    trim_seq(es[j].0),
                ) && s1.entities[trim_seq(es[j].0)] == (trim_seq(es[j].1), trim_seq(es[j].2))
        }),
    decreases n,
{
    if n > 0 {
        lemma_entities_run(ns, c, es, (n - 1) as nat);
    }
}

proof fn lemma_entities_idle(t: NarrState, c: Counts, es: Seq<(Seq<char>, Seq<char>, Seq<char>)>, n: nat)
    requires
        n <= es.len(),
        forall|j: int|
            0 <= j < n ==> trim_seq(#[trigger] es[j].0).len() > 0 && t.entities.contains_key(
                trim_seq(es[j].0),
            ) && t.entities[trim_seq(es[j].0)] == (trim_seq(es[j].1), trim_seq(es[j].2)),
    ensures
        entities_fold(t, c, es, n) is Ok,
        entities_fold(t, c, es, n)->Ok_0.0 == t,
        only_no_ops(entities_fold(t, c, es, n)->Ok_0.1, c),
    decreases n,
{
    if n > 0 {
        lemma_entities_idle(t, c, es, (n - 1) as nat);
        assert(trim_seq(es[n - 1].0).len() > 0);
    }
}

// ---------------------------------------------------------------------------
// Predicates.
// ---------------------------------------------------------------------------
/// The registry value a manifest predicate declares.
pub open spec fn predicate_value(p: (Seq<char>, Seq<char>, Seq<char>)) -> Result<
    (crate::narrative::PredicateObjectKind, Seq<char>),
    Seq<char>,
> {
    predicate_outcome(Seq::empty(), p.1, p.2)
}

proof fn lemma_predicate_value(ctx: Seq<char>, p: (Seq<char>, Seq<char>, Seq<char>))
    ensures
        predicate_outcome(ctx, p.1, p.2) is Ok <==> predicate_value(p) is Ok,
        predicate_outcome(ctx, p.1, p.2) is Ok ==> predicate_outcome(ctx, p.1, p.2) == predicate_value(p),
{
}

proof fn lemma_predicates_run(ns: NarrState, c: Counts, ps: Seq<(Seq<char>, Seq<char>, Seq<char>)>, n: nat)
    requires
        predicates_fold(ns, c, ps, n) is Ok,
    ensures
        ({
            let s1 = predicates_fold(ns, c, ps, n)->Ok_0.0;
            &&& s1 == (NarrState { predicates: s1.predicates, ..ns })
            &&& forall|k: Seq<char>|
                #[trigger] ns.predicates.contains_key(k) ==> s1.predicates.contains_key(k)
                    && s1.predicates[k] == ns.predicates[k]
            &&& forall|j: int|
                0 <= j < n ==> trim_seq(#[trigger] ps[j].0).len() > 0 && predicate_value(ps[j]) is Ok
                    && s1.predicates.contains_key(trim_seq(ps[j].0)) && s1.predicates[trim_seq(
                    ps[j].0,
                )] == predicate_value(ps[j])->Ok_0
        }),
    decreases n,
{
    if n > 0 {
        lemma_predicates_run(ns, c, ps, (n - 1) as nat);
        let ctx = "import_facts: manifest predicate "@ + decimal((n - 1) as nat);
        lemma_predicate_value(ctx, ps[n - 1]);
    }
}

proof fn lemma_predicates_idle(t: NarrState, c: Counts, ps: Seq<(Seq<char>, Seq<char>, Seq<char>)>, n: nat)
    requires
        n <= ps.len(),
        forall|j: int|
            0 <= j < n ==> trim_seq(#[trigger] ps[j].0).len() > 0 && predicate_value(ps[j]) is Ok
                && t.predicates.contains_key(trim_seq(ps[j].0)) && t.predicates[trim_seq(ps[j].0)]
                == predicate_value(ps[j])->Ok_0,
    ensures
        predicates_fold(t, c, ps, n) is Ok,
        predicates_fold(t, c, ps, n)->Ok_0.0 == t,
        only_no_ops(predicates_fold(t, c, ps, n)->Ok_0.1, c),
    decreases n,
{
    if n > 0 {
        lemma_predicates_idle(t, c, ps, (n - 1) as nat);
        let ctx = "import_facts: manifest predicate "@ + decimal((n - 1) as nat);
        lemma_predicate_value(ctx, ps[n - 1]);
        assert(trim_seq(ps[n - 1].0).len() > 0);
    }
}

// ---------------------------------------------------------------------------
// World-lines.
// ---------------------------------------------------------------------------
proof fn lemma_converge_prefix_mono(
    secs: Set<Seq<char>>,
    d1: Set<Seq<char>>,
    d2: Set<Seq<char>>,
    id: Seq<char>,
    pairs: Seq<(Seq<char>, Seq<char>)>,
    n: nat,
)
    requires
        converge_prefix(secs, d1, id, pairs, n) is Ok,
        d1.subset_of(d2),
    ensures
        converge_prefix(secs, d2, id, pairs, n) == converge_prefix(secs, d1, id, pairs, n),
    decreases n,
{
    if n > 0 {
        lemma_converge_prefix_mono(secs, d1, d2, id, pairs, (n - 1) as nat);
        let p = trim_seq(pairs[n - 1].0);
        assert(known_world(d1, p) ==> known_world(d2, p));
    }
}

/// A world-line declaration valid against some registered world-lines is
/// valid, with the same value, against more of them.
proof fn lemma_branch_outcome_mono(
    secs: Set<Seq<char>>,
    d1: Set<Seq<char>>,
    d2: Set<Seq<char>>,
    id: Seq<char>,
    description: Seq<char>,
    fork: Option<(Seq<char>, Seq<char>)>,
    pairs: Seq<(Seq<char>, Seq<char>)>,
)
    requires
        branch_outcome(secs, d1, id, description, fork, pairs) is Ok,
        d1.subset_of(d2),
    ensures
        branch_outcome(secs, d2, id, description, fork, pairs) == branch_outcome(
            secs,
            d1,
            id,
            description,
            fork,
            pairs,
        ),
{
    match fork {
        Some((p0, a0)) => {
            assert(known_world(d1, trim_seq(p0)) ==> known_world(d2, trim_seq(p0)));
        },
        None => {},
    }
    if pairs.len() >= 2 {
        lemma_converge_prefix_mono(secs, d1, d2, id, pairs, pairs.len());
    }
}

/// What a manifest world-line declares, given that it names its fork
/// fields together.
pub open spec fn branch_decl(b: BranchImportV, secs: Set<Seq<char>>, dom: Set<Seq<char>>) -> Result<
    crate::narrative::BranchView,
    Seq<char>,
> {
    branch_outcome(secs, dom, trim_seq(b.0), b.1, fork_pair(b)->Some_0, b.4)
}

proof fn lemma_branches_run(ns: NarrState, c: Counts, bs: Seq<BranchImportV>, n: nat)
    requires
        branches_fold(ns, c, bs, n) is Ok,
    ensures
        ({
            let s1 = branches_fold(ns, c, bs, n)->Ok_0.0;
            &&& s1 == (NarrState { branches: s1.branches, ..ns })
            &&& forall|k: Seq<char>|
                #[trigger] ns.branches.contains_key(k) ==> s1.branches.contains_key(k)
                    && s1.branches[k] == ns.branches[k]
            &&& forall|j: int|
                0 <= j < n ==> {
                    let id = trim_seq(#[trigger] bs[j].0);
                    &&& id.len() > 0
                    &&& id != main_branch_id()
                    &&& fork_pair(bs[j]) is Some
                    &&& s1.branches.contains_key(id)
                    &&& branch_decl(bs[j], ns.sections, s1.branches.dom()) == Ok::<_, Seq<char>>(
                        s1.branches[id],
                    )
                }
        }),
    decreases n,
{
    if n > 0 {
        lemma_branches_run(ns, c, bs, (n - 1) as nat);
        let s0 = branches_fold(ns, c, bs, (n - 1) as nat)->Ok_0.0;
        let s1 = branches_fold(ns, c, bs, n)->Ok_0.0;
        assert(s0.branches.dom().subset_of(s1.branches.dom()));
        assert forall|j: int| 0 <= j < n implies {
            let id = trim_seq(#[trigger] bs[j].0);
            &&& id.len() > 0
            &&& id != main_branch_id()
            &&& fork_pair(bs[j]) is Some
            &&& s1.branches.contains_key(id)
            &&& branch_decl(bs[j], ns.sections, s1.branches.dom()) == Ok::<_, Seq<char>>(
                s1.branches[id],
            )
        } by {
            let b = bs[j];
            let id = trim_seq(b.0);
            lemma_branch_outcome_mono(
                ns.sections,
                s0.branches.dom(),
                s1.branches.dom(),
                id,
                b.1,
                fork_pair(b)->Some_0,
                b.4,
            );
        }
    }
}

proof fn lemma_branches_idle(t: NarrState, c: Counts, bs: Seq<BranchImportV>, n: nat)
    requires
        n <= bs.len(),
        forall|j: int|
            0 <= j < n ==> {
                let id = trim_seq(#[trigger] bs[j].0);
                &&& id.len() > 0
                &&& id != main_branch_id()
                &&& fork_pair(bs[j]) is Some
                &&& t.branches.contains_key(id)
                &&& branch_decl(bs[j], t.sections, t.branches.dom()) == Ok::<_, Seq<char>>(
                    t.branches[id],
                )
            },
    ensures
        branches_fold(t, c, bs, n) is Ok,
        branches_fold(t, c, bs, n)->Ok_0.0 == t,
        only_no_ops(branches_fold(t, c, bs, n)->Ok_0.1, c),
    decreases n,
{
    if n > 0 {
        lemma_branches_idle(t, c, bs, (n - 1) as nat);
        assert(trim_seq(bs[n - 1].0).len() > 0);
    }
}

// ---------------------------------------------------------------------------
// Facts.
// ---------------------------------------------------------------------------
/// Two narrative states with the same sections and registries.
pub open spec fn same_registries(a: NarrState, b: NarrState) -> bool {
    &&& a.sections == b.sections
    &&& a.frames == b.frames
    &&& a.branches == b.branches
    &&& a.entities == b.entities
    &&& a.predicates == b.predicates
}

proof fn lemma_fact_outcome_same(a: NarrState, b: NarrState, e: FactImportView)
    requires
        same_registries(a, b),
    ensures
        fact_outcome(a, e) == fact_outcome(b, e),
{
    assert(b == NarrState { facts: b.facts, plans: b.plans, ..a });
}

proof fn lemma_build_staged_same(a: NarrState, b: NarrState, es: Seq<FactImportView>, n: nat)
    requires
        same_registries(a, b),
    ensures
        build_staged(a, es, n) == build_staged(b, es, n),
    decreases n,
{
    if n > 0 {
        lemma_build_staged_same(a, b, es, (n - 1) as nat);
        lemma_fact_outcome_same(a, b, es[n - 1]);
    }
}

proof fn lemma_staged_ids_last(st: Seq<(Seq<char>, FactView)>, k: Seq<char>)
    requires
        st.len() > 0,
    ensures
        staged_ids(st).contains(k) == (staged_ids(st.drop_last()).contains(k) || st.last().0 == k),
{
    let t = st.drop_last();
    if staged_ids(st).contains(k) {
        let i = choose|i: int| 0 <= i < staged_ids(st).len() && staged_ids(st)[i] == k;
        if i < st.len() - 1 {
            assert(staged_ids(t)[i] == k);
        }
    }
    if staged_ids(t).contains(k) {
        let i = choose|i: int| 0 <= i < staged_ids(t).len() && staged_ids(t)[i] == k;
        assert(staged_ids(st)[i] == k);
    }
    if st.last().0 == k {
        assert(staged_ids(st)[st.len() - 1] == k);
    }
}

proof fn lemma_overlay_at(m: Map<Seq<char>, FactView>, st: Seq<(Seq<char>, FactView)>, k: Seq<char>)
    ensures
        overlay(m, st).contains_key(k) == (m.contains_key(k) || staged_ids(st).contains(k)),
        !staged_ids(st).contains(k) && m.contains_key(k) ==> overlay(m, st)[k] == m[k],
    decreases st.len(),
{
    if st.len() > 0 {
        lemma_overlay_at(m, st.drop_last(), k);
        lemma_staged_ids_last(st, k);
    }
}

proof fn lemma_overlay_staged(
    m1: Map<Seq<char>, FactView>,
    m2: Map<Seq<char>, FactView>,
    st: Seq<(Seq<char>, FactView)>,
    k: Seq<char>,
)
    requires
        staged_ids(st).contains(k),
    ensures
        overlay(m1, st)[k] == overlay(m2, st)[k],
    decreases st.len(),
{
    lemma_staged_ids_last(st, k);
    if st.last().0 != k {
        lemma_overlay_staged(m1, m2, st.drop_last(), k);
    }
}

proof fn lemma_overlay_agree(
    m1: Map<Seq<char>, FactView>,
    m2: Map<Seq<char>, FactView>,
    st: Seq<(Seq<char>, FactView)>,
)
    requires
        forall|k: Seq<char>|
            !staged_ids(st).contains(k) ==> (#[trigger] m1.contains_key(k) == m2.contains_key(k)
                && (m1.contains_key(k) ==> m1[k] == m2[k])),
    ensures
        overlay(m1, st) == overlay(m2, st),
{
    assert forall|k: Seq<char>| #[trigger] overlay(m1, st).contains_key(k) == overlay(m2, st).contains_key(k)
        by {
        lemma_overlay_at(m1, st, k);
        lemma_overlay_at(m2, st, k);
    }
    assert forall|k: Seq<char>| #[trigger] overlay(m1, st).contains_key(k) implies overlay(m1, st)[k]
        == overlay(m2, st)[k] by {
        lemma_overlay_at(m1, st, k);
        lemma_overlay_at(m2, st, k);
        if staged_ids(st).contains(k) {
            lemma_overlay_staged(m1, m2, st, k);
        }
    }
    assert(overlay(m1, st) =~= overlay(m2, st));
}

pub(crate) proof fn lemma_to_seq_len(s: Set<Seq<char>>)
    requires
        s.finite(),
    ensures
        s.to_seq().len() == s.len(),
        forall|k: Seq<char>| #[trigger] s.contains(k) ==> s.to_seq().contains(k),
    decreases s.len(),
{
    s.lemma_to_seq_to_set_id();
    assert forall|k: Seq<char>| #[trigger] s.contains(k) implies s.to_seq().contains(k) by {
        assert(s.to_seq().to_set().contains(k));
    }
    if s.len() > 0 {
        let x = s.choose();
        lemma_to_seq_len(s.remove(x));
    }
}

proof fn lemma_stamp_staged_shape(ns: NarrState, st: Seq<(Seq<char>, FactView)>, n: nat)
    requires
        n <= st.len(),
        stamp_staged(ns, st, n) is Ok,
    ensures
        stamp_staged(ns, st, n)->Ok_0.len() == n,
        forall|j: int| 0 <= j < n ==> (#[trigger] stamp_staged(ns, st, n)->Ok_0[j]).0 == st[j].0,
    decreases n,
{
    if n > 0 {
        lemma_stamp_staged_shape(ns, st, (n - 1) as nat);
    }
}

proof fn lemma_stamp_staged_same(a: NarrState, b: NarrState, st: Seq<(Seq<char>, FactView)>, n: nat)
    requires
        n <= st.len(),
        stamp_staged(a, st, n) is Ok,
        a.branches == b.branches,
        overlay(a.facts, st) == overlay(b.facts, st),
        a.facts.dom().finite(),
        b.facts.dom().finite(),
        a.facts.dom().subset_of(b.facts.dom()),
    ensures
        stamp_staged(b, st, n) == stamp_staged(a, st, n),
    decreases n,
{
    if n > 0 {
        lemma_stamp_staged_same(a, b, st, (n - 1) as nat);
        let vm = overlay(a.facts, st);
        let fid = st[n - 1].0;
        let ids = staged_ids(st);
        let nodes = a.facts.dom().to_seq() + ids;
        lemma_to_seq_len(a.facts.dom());
        vstd::set_lib::lemma_len_subset(a.facts.dom(), b.facts.dom());
        assert(ids[n - 1] == fid);
        assert(nodes[a.facts.dom().len() + n - 1] == fid);
        assert forall|k: Seq<char>| #[trigger] vm.contains_key(k) implies nodes.contains(k) by {
            lemma_overlay_at(a.facts, st, k);
            if a.facts.contains_key(k) {
                assert(a.facts.dom().contains(k));
                let i = choose|i: int|
                    0 <= i < a.facts.dom().to_seq().len() && a.facts.dom().to_seq()[i] == k;
                assert(nodes[i] == k);
            } else {
                let i = choose|i: int| 0 <= i < ids.len() && ids[i] == k;
                assert(nodes[a.facts.dom().len() + i] == k);
            }
        }
        lemma_refs_outcome_stable(
            vm,
            vm,
            a.branches,
            fid,
            st[n - 1].1,
            nodes,
            walk_fuel(a.facts.dom().len(), st.len(), 0),
            walk_fuel(b.facts.dom().len(), st.len(), 0),
        );
    }
}

proof fn lemma_facts_fold_run(ns: NarrState, c: Counts, st: Seq<(Seq<char>, FactView)>, n: nat)
    requires
        n <= st.len(),
        facts_fold(ns, c, st, n) is Ok,
    ensures
        ({
            let s1 = facts_fold(ns, c, st, n)->Ok_0.0;
            &&& s1 == (NarrState { facts: s1.facts, ..ns })
            &&& forall|k: Seq<char>|
                #[trigger] ns.facts.contains_key(k) ==> s1.facts.contains_key(k) && s1.facts[k]
                    == ns.facts[k]
            &&& forall|k: Seq<char>|
                #[trigger] s1.facts.contains_key(k) && !ns.facts.contains_key(k) ==> staged_ids(
                    st,
                ).contains(k)
            &&& forall|j: int|
                0 <= j < n ==> s1.facts.contains_key((#[trigger] st[j]).0) && s1.facts[st[j].0]
                    == st[j].1
            &&& ns.facts.dom().finite() ==> s1.facts.dom().finite()
        }),
    decreases n,
{
    if n > 0 {
        lemma_facts_fold_run(ns, c, st, (n - 1) as nat);
        assert(staged_ids(st)[n - 1] == st[n - 1].0);
    }
}

proof fn lemma_facts_fold_idle(t: NarrState, c: Counts, st: Seq<(Seq<char>, FactView)>, n: nat)
    requires
        n <= st.len(),
        forall|j: int|
            0 <= j < n ==> t.facts.contains_key((#[trigger] st[j]).0) && t.facts[st[j].0] == st[j].1,
    ensures
        facts_fold(t, c, st, n) is Ok,
        facts_fold(t, c, st, n)->Ok_0.0 == t,
        only_no_ops(facts_fold(t, c, st, n)->Ok_0.1, c),
    decreases n,
{
    if n > 0 {
        lemma_facts_fold_idle(t, c, st, (n - 1) as nat);
        assert(t.facts.contains_key(st[n - 1].0));
    }
}

/// The staged facts a facts stage built, and their stamped form.
pub open spec fn stage_built(ns: NarrState, es: Seq<FactImportView>) -> Seq<(Seq<char>, FactView)> {
    build_staged(ns, es, es.len())->Ok_0
}

/// The stamped facts a facts stage created or found.
pub open spec fn stage_stamped(ns: NarrState, es: Seq<FactImportView>) -> Seq<(Seq<char>, FactView)> {
    stamp_staged(ns, stage_built(ns, es), stage_built(ns, es).len())->Ok_0
}

proof fn lemma_build_staged_len(ns: NarrState, es: Seq<FactImportView>, n: nat)
    requires
        build_staged(ns, es, n) is Ok,
    ensures
        build_staged(ns, es, n)->Ok_0.len() == n,
    decreases n,
{
    if n > 0 {
        lemma_build_staged_len(ns, es, (n - 1) as nat);
    }
}

proof fn lemma_facts_stage_run(ns: NarrState, c: Counts, es: Seq<FactImportView>)
    requires
        facts_stage(ns, c, es) is Ok,
    ensures
        ({
            let s1 = facts_stage(ns, c, es)->Ok_0.0;
            let st = stage_built(ns, es);
            let sv = stage_stamped(ns, es);
            &&& build_staged(ns, es, es.len()) is Ok
            &&& stamp_staged(ns, st, st.len()) is Ok
            &&& sv.len() == st.len()
            &&& s1 == (NarrState { facts: s1.facts, ..ns })
            &&& forall|k: Seq<char>|
                #[trigger] ns.facts.contains_key(k) ==> s1.facts.contains_key(k) && s1.facts[k]
                    == ns.facts[k]
            &&& forall|k: Seq<char>|
                #[trigger] s1.facts.contains_key(k) && !ns.facts.contains_key(k) ==> staged_ids(
                    st,
                ).contains(k)
            &&& forall|j: int|
                0 <= j < sv.len() ==> s1.facts.contains_key((#[trigger] sv[j]).0) && s1.facts[sv[j].0]
                    == sv[j].1
            &&& ns.facts.dom().finite() ==> s1.facts.dom().finite()
        }),
{
    let st = stage_built(ns, es);
    let sv = stage_stamped(ns, es);
    lemma_build_staged_len(ns, es, es.len());
    lemma_stamp_staged_shape(ns, st, st.len());
    lemma_facts_fold_run(ns, c, sv, sv.len());
    let s1 = facts_stage(ns, c, es)->Ok_0.0;
    assert forall|k: Seq<char>|
        #[trigger] s1.facts.contains_key(k) && !ns.facts.contains_key(k) implies staged_ids(
        st,
    ).contains(k) by {
        let i = choose|i: int| 0 <= i < staged_ids(sv).len() && staged_ids(sv)[i] == k;
        assert(sv[i].0 == st[i].0);
        assert(staged_ids(st)[i] == k);
    }
}

proof fn lemma_facts_stage_idle(ns: NarrState, t: NarrState, c0: Counts, c: Counts, es: Seq<FactImportView>)
    requires
        facts_stage(ns, c0, es) is Ok,
        same_registries(ns, t),
        ns.facts.dom().finite(),
        t.facts.dom().finite(),
        forall|k: Seq<char>|
            #[trigger] ns.facts.contains_key(k) ==> t.facts.contains_key(k) && t.facts[k] == ns.facts[k],
        forall|k: Seq<char>|
            #[trigger] t.facts.contains_key(k) && !ns.facts.contains_key(k) ==> staged_ids(
                stage_built(ns, es),
            ).contains(k),
        forall|j: int|
            0 <= j < stage_stamped(ns, es).len() ==> t.facts.contains_key(
                (#[trigger] stage_stamped(ns, es)[j]).0,
            ) && t.facts[stage_stamped(ns, es)[j].0] == stage_stamped(ns, es)[j].1,
    ensures
        facts_stage(t, c, es) is Ok,
        facts_stage(t, c, es)->Ok_0.0 == t,
        only_no_ops(facts_stage(t, c, es)->Ok_0.1, c),
{
    lemma_facts_stage_run(ns, c0, es);
    let st = stage_built(ns, es);
    let sv = stage_stamped(ns, es);
    lemma_build_staged_same(ns, t, es, es.len());
    lemma_overlay_agree(ns.facts, t.facts, st);
    assert(ns.facts.dom().subset_of(t.facts.dom()));
    lemma_stamp_staged_same(ns, t, st, st.len());
    lemma_facts_fold_idle(t, c, sv, sv.len());
}

// ---------------------------------------------------------------------------
// Disclosure plans and their overrides.
// ---------------------------------------------------------------------------
/// The `k`-th override of the `j`-th plan of a manifest as a decision.
pub open spec fn decision_at(ps: Seq<PlanImportV>, j: int, k: int) -> DecisionView {
    DecisionView {
        telling: ps[j].0,
        fact: ps[j].3[k].0,
        mode: ps[j].3[k].1,
        first_at: ps[j].3[k].2,
        surface: ps[j].3[k].3,
    }
}

/// Whether `(j, k)` names an override of the manifest's plans.
pub open spec fn is_override(ps: Seq<PlanImportV>, j: int, k: int) -> bool {
    0 <= j < ps.len() && 0 <= k < ps[j].3.len()
}

/// No telling and fact is decided twice with different outcomes against
/// `s`.
pub open spec fn overrides_agree(s: NarrState, ps: Seq<PlanImportV>) -> bool {
    forall|j1: int, k1: int, j2: int, k2: int|
        #![trigger decision_at(ps, j1, k1), decision_at(ps, j2, k2)]
        is_override(ps, j1, k1) && is_override(ps, j2, k2) && override_outcome(s, decision_at(ps, j1, k1))
            is Ok && override_outcome(s, decision_at(ps, j2, k2)) is Ok && override_outcome(
            s,
            decision_at(ps, j1, k1),
        )->Ok_0.0 == override_outcome(s, decision_at(ps, j2, k2))->Ok_0.0 && override_outcome(
            s,
            decision_at(ps, j1, k1),
        )->Ok_0.1 == override_outcome(s, decision_at(ps, j2, k2))->Ok_0.1 ==> override_outcome(
            s,
            decision_at(ps, j1, k1),
        ) == override_outcome(s, decision_at(ps, j2, k2))
}

/// The same facts, world-lines, sections and entities.
pub open spec fn same_base(a: NarrState, b: NarrState) -> bool {
    &&& a.sections == b.sections
    &&& a.branches == b.branches
    &&& a.entities == b.entities
    &&& a.facts == b.facts
}

proof fn lemma_override_outcome_same(a: NarrState, b: NarrState, d: DecisionView)
    requires
        same_base(a, b),
        a.plans.contains_key(trim_seq(d.telling)) == b.plans.contains_key(trim_seq(d.telling)),
    ensures
        override_outcome(a, d) == override_outcome(b, d),
{
}

/// `s1` is `s0` with only its plans' overrides changed and plans added.
pub open spec fn keeps_plans(s0: NarrState, s1: NarrState) -> bool {
    &&& s1 == (NarrState { plans: s1.plans, ..s0 })
    &&& forall|k: Seq<char>|
        #[trigger] s0.plans.contains_key(k) ==> s1.plans.contains_key(k) && s1.plans[k].description
            == s0.plans[k].description && s1.plans[k].default_mode == s0.plans[k].default_mode
}

/// The first `n` plans are registered in `s` with the policy they declare.
pub open spec fn plans_registered(s: NarrState, ps: Seq<PlanImportV>, n: nat) -> bool {
    forall|j: int|
        0 <= j < n ==> {
            let t = trim_seq(#[trigger] ps[j].0);
            &&& t.len() > 0
            &&& mode_of(trim_seq(plan_mode(ps[j]))) is Some
            &&& s.plans.contains_key(t)
            &&& s.plans[t].description == trim_seq(ps[j].2)
            &&& s.plans[t].default_mode == mode_of(trim_seq(plan_mode(ps[j])))->Some_0
        }
}

/// Every override of the first `j` plans, and the first `n` of plan `j`,
/// is set in `s` to what it decides against `fin`.
pub open spec fn overrides_applied(
    s: NarrState,
    ps: Seq<PlanImportV>,
    fin: NarrState,
    j: int,
    n: int,
) -> bool {
    forall|j1: int, k1: int|
        #![trigger decision_at(ps, j1, k1)]
        is_override(ps, j1, k1) && (j1 < j || (j1 == j && k1 < n)) ==> {
            let r = override_outcome(fin, decision_at(ps, j1, k1));
            &&& r is Ok
            &&& s.plans.contains_key(r->Ok_0.0)
            &&& s.plans[r->Ok_0.0].overrides.contains_key(r->Ok_0.1)
            &&& s.plans[r->Ok_0.0].overrides[r->Ok_0.1] == r->Ok_0.2
        }
}

proof fn lemma_overrides_run(
    ns: NarrState,
    c: Counts,
    ps: Seq<PlanImportV>,
    j: int,
    n: nat,
    fin: NarrState,
)
    requires
        0 <= j < ps.len(),
        n <= ps[j].3.len(),
        overrides_fold(ns, c, ps[j].0, j as nat, ps[j].3, n) is Ok,
        same_base(ns, fin),
        fin.plans.contains_key(trim_seq(ps[j].0)),
        overrides_agree(fin, ps),
        overrides_applied(ns, ps, fin, j, 0),
    ensures
        keeps_plans(ns, overrides_fold(ns, c, ps[j].0, j as nat, ps[j].3, n)->Ok_0.0),
        overrides_applied(overrides_fold(ns, c, ps[j].0, j as nat, ps[j].3, n)->Ok_0.0, ps, fin, j, n as int),
    decreases n,
{
    if n > 0 {
        lemma_overrides_run(ns, c, ps, j, (n - 1) as nat, fin);
        let s0 = overrides_fold(ns, c, ps[j].0, j as nat, ps[j].3, (n - 1) as nat)->Ok_0.0;
        let s1 = overrides_fold(ns, c, ps[j].0, j as nat, ps[j].3, n)->Ok_0.0;
        let d = decision_at(ps, j, n - 1);
        let o = ps[j].3[n - 1];
        assert(d == DecisionView { telling: ps[j].0, fact: o.0, mode: o.1, first_at: o.2, surface: o.3 });
        let r = override_outcome(s0, d);
        assert(r is Ok);
        lemma_override_outcome_same(s0, fin, d);
        let (t, f, ov) = r->Ok_0;
        assert(s1.plans == s0.plans.insert(t, PlanView { overrides: s0.plans[t].overrides.insert(f, ov), ..s0.plans[t] }));
        assert forall|j1: int, k1: int|
            #![trigger decision_at(ps, j1, k1)]
            is_override(ps, j1, k1) && (j1 < j || (j1 == j && k1 < n)) implies {
                let r1 = override_outcome(fin, decision_at(ps, j1, k1));
                &&& r1 is Ok
                &&& s1.plans.contains_key(r1->Ok_0.0)
                &&& s1.plans[r1->Ok_0.0].overrides.contains_key(r1->Ok_0.1)
                &&& s1.plans[r1->Ok_0.0].overrides[r1->Ok_0.1] == r1->Ok_0.2
            } by {
            if j1 == j && k1 == n - 1 {
            } else {
                let r1 = override_outcome(fin, decision_at(ps, j1, k1));
                assert(decision_at(ps, j, n - 1) == d);
                if r1->Ok_0.0 == t && r1->Ok_0.1 == f {
                    assert(r1 == override_outcome(fin, decision_at(ps, j, n - 1)));
                }
            }
        }
    }
}

proof fn lemma_plans_run(ns: NarrState, c: Counts, ps: Seq<PlanImportV>, n: nat, fin: NarrState)
    requires
        n <= ps.len(),
        plans_fold(ns, c, ps, n) is Ok,
        same_base(ns, fin),
        forall|j: int| 0 <= j < ps.len() ==> fin.plans.contains_key(trim_seq(#[trigger] ps[j].0)),
        overrides_agree(fin, ps),
    ensures
        keeps_plans(ns, plans_fold(ns, c, ps, n)->Ok_0.0),
        plans_registered(plans_fold(ns, c, ps, n)->Ok_0.0, ps, n),
        overrides_applied(plans_fold(ns, c, ps, n)->Ok_0.0, ps, fin, n as int, 0),
    decreases n,
{
    if n > 0 {
        lemma_plans_run(ns, c, ps, (n - 1) as nat, fin);
        let s0 = plans_fold(ns, c, ps, (n - 1) as nat)->Ok_0.0;
        let c0 = plans_fold(ns, c, ps, (n - 1) as nat)->Ok_0.1;
        let p = ps[n - 1];
        let (id, created) = plan_outcome(s0.plans, p.0, plan_mode(p), p.2)->Ok_0;
        let s2 = if created {
            NarrState {
                plans: s0.plans.insert(
                    id,
                    PlanView {
                        description: trim_seq(p.2),
                        default_mode: mode_of(trim_seq(plan_mode(p)))->Some_0,
                        overrides: Map::empty(),
                    },
                ),
                ..s0
            }
        } else {
            s0
        };
        let c2 = if created {
            Counts { plans: c0.plans + 1, ..c0 }
        } else {
            Counts { no_op: c0.no_op + 1, ..c0 }
        };
        assert(plans_fold(ns, c, ps, n) == overrides_fold(s2, c2, p.0, (n - 1) as nat, p.3, p.3.len()));
        assert(keeps_plans(s0, s2));
        assert(plans_registered(s2, ps, n));
        assert(overrides_applied(s2, ps, fin, n - 1, 0)) by {
            assert forall|j1: int, k1: int|
                #![trigger decision_at(ps, j1, k1)]
                is_override(ps, j1, k1) && (j1 < n - 1 || (j1 == n - 1 && k1 < 0)) implies {
                    let r1 = override_outcome(fin, decision_at(ps, j1, k1));
                    &&& r1 is Ok
                    &&& s2.plans.contains_key(r1->Ok_0.0)
                    &&& s2.plans[r1->Ok_0.0].overrides.contains_key(r1->Ok_0.1)
                    &&& s2.plans[r1->Ok_0.0].overrides[r1->Ok_0.1] == r1->Ok_0.2
                } by {
                let r1 = override_outcome(fin, decision_at(ps, j1, k1));
                assert(s0.plans.contains_key(r1->Ok_0.0));
            }
        }
        lemma_overrides_run(s2, c2, ps, n - 1, p.3.len(), fin);
        let s1 = plans_fold(ns, c, ps, n)->Ok_0.0;
        assert(overrides_applied(s1, ps, fin, n as int, 0)) by {
            assert forall|j1: int, k1: int|
                #![trigger decision_at(ps, j1, k1)]
                is_override(ps, j1, k1) && (j1 < n || (j1 == n && k1 < 0)) implies {
                    let r1 = override_outcome(fin, decision_at(ps, j1, k1));
                    &&& r1 is Ok
                    &&& s1.plans.contains_key(r1->Ok_0.0)
                    &&& s1.plans[r1->Ok_0.0].overrides.contains_key(r1->Ok_0.1)
                    &&& s1.plans[r1->Ok_0.0].overrides[r1->Ok_0.1] == r1->Ok_0.2
                } by {
            }
        }
    }
}

proof fn lemma_overrides_idle(t: NarrState, c: Counts, ps: Seq<PlanImportV>, j: int, n: nat)
    requires
        0 <= j < ps.len(),
        n <= ps[j].3.len(),
        t.plans.contains_key(trim_seq(ps[j].0)),
        overrides_applied(t, ps, t, j + 1, 0),
    ensures
        overrides_fold(t, c, ps[j].0, j as nat, ps[j].3, n) is Ok,
        overrides_fold(t, c, ps[j].0, j as nat, ps[j].3, n)->Ok_0.0 == t,
        only_no_ops(overrides_fold(t, c, ps[j].0, j as nat, ps[j].3, n)->Ok_0.1, c),
    decreases n,
{
    if n > 0 {
        lemma_overrides_idle(t, c, ps, j, (n - 1) as nat);
        let d = decision_at(ps, j, n - 1);
        let o = ps[j].3[n - 1];
        assert(d == DecisionView { telling: ps[j].0, fact: o.0, mode: o.1, first_at: o.2, surface: o.3 });
        assert(is_override(ps, j, n - 1));
        let r = override_outcome(t, d);
        assert(r is Ok);
        let (tt, f, ov) = r->Ok_0;
        let pv = t.plans[tt];
        assert(pv.overrides.insert(f, ov) =~= pv.overrides);
        assert(PlanView { overrides: pv.overrides.insert(f, ov), ..pv } == pv);
        assert(t.plans.insert(tt, pv) =~= t.plans);
    }
}

proof fn lemma_plans_idle(t: NarrState, c: Counts, ps: Seq<PlanImportV>, n: nat)
    requires
        n <= ps.len(),
        plans_registered(t, ps, ps.len()),
        overrides_applied(t, ps, t, ps.len() as int, 0),
    ensures
        plans_fold(t, c, ps, n) is Ok,
        plans_fold(t, c, ps, n)->Ok_0.0 == t,
        only_no_ops(plans_fold(t, c, ps, n)->Ok_0.1, c),
    decreases n,
{
    if n > 0 {
        lemma_plans_idle(t, c, ps, (n - 1) as nat);
        let c0 = plans_fold(t, c, ps, (n - 1) as nat)->Ok_0.1;
        let p = ps[n - 1];
        assert(trim_seq(ps[n - 1].0).len() > 0);
        let c2 = Counts { no_op: c0.no_op + 1, ..c0 };
        assert(overrides_applied(t, ps, t, n as int, 0)) by {
            assert forall|j1: int, k1: int|
                #![trigger decision_at(ps, j1, k1)]
                is_override(ps, j1, k1) && (j1 < n || (j1 == n && k1 < 0)) implies {
                    let r1 = override_outcome(t, decision_at(ps, j1, k1));
                    &&& r1 is Ok
                    &&& t.plans.contains_key(r1->Ok_0.0)
                    &&& t.plans[r1->Ok_0.0].overrides.contains_key(r1->Ok_0.1)
                    &&& t.plans[r1->Ok_0.0].overrides[r1->Ok_0.1] == r1->Ok_0.2
                } by {
            }
        }
        lemma_overrides_idle(t, c2, ps, n - 1, p.3.len());
    }
}

proof fn lemma_overrides_keep(ns: NarrState, c: Counts, telling: Seq<char>, idx: nat, os: Seq<OverrideImportV>, n: nat)
    requires
        overrides_fold(ns, c, telling, idx, os, n) is Ok,
    ensures
        keeps_plans(ns, overrides_fold(ns, c, telling, idx, os, n)->Ok_0.0),
    decreases n,
{
    if n > 0 {
        lemma_overrides_keep(ns, c, telling, idx, os, (n - 1) as nat);
    }
}

proof fn lemma_plans_registered_run(ns: NarrState, c: Counts, ps: Seq<PlanImportV>, n: nat)
    requires
        n <= ps.len(),
        plans_fold(ns, c, ps, n) is Ok,
    ensures
        keeps_plans(ns, plans_fold(ns, c, ps, n)->Ok_0.0),
        plans_registered(plans_fold(ns, c, ps, n)->Ok_0.0, ps, n),
    decreases n,
{
    if n > 0 {
        lemma_plans_registered_run(ns, c, ps, (n - 1) as nat);
        let s0 = plans_fold(ns, c, ps, (n - 1) as nat)->Ok_0.0;
        let c0 = plans_fold(ns, c, ps, (n - 1) as nat)->Ok_0.1;
        let p = ps[n - 1];
        let (id, created) = plan_outcome(s0.plans, p.0, plan_mode(p), p.2)->Ok_0;
        let s2 = if created {
            NarrState {
                plans: s0.plans.insert(
                    id,
                    PlanView {
                        description: trim_seq(p.2),
                        default_mode: mode_of(trim_seq(plan_mode(p)))->Some_0,
                        overrides: Map::empty(),
                    },
                ),
                ..s0
            }
        } else {
            s0
        };
        let c2 = if created {
            Counts { plans: c0.plans + 1, ..c0 }
        } else {
            Counts { no_op: c0.no_op + 1, ..c0 }
        };
        assert(plans_fold(ns, c, ps, n) == overrides_fold(s2, c2, p.0, (n - 1) as nat, p.3, p.3.len()));
        assert(keeps_plans(s0, s2));
        assert(plans_registered(s2, ps, n));
        lemma_overrides_keep(s2, c2, p.0, (n - 1) as nat, p.3, p.3.len());
    }
}

// ---------------------------------------------------------------------------
// Every entry is counted once.
// ---------------------------------------------------------------------------
proof fn lemma_frames_total(ns: NarrState, c: Counts, fs: Seq<(Seq<char>, Seq<char>)>, n: nat)
    requires
        frames_fold(ns, c, fs, n) is Ok,
    ensures
        total(frames_fold(ns, c, fs, n)->Ok_0.1) == total(c) + n,
    decreases n,
{
    if n > 0 {
        lemma_frames_total(ns, c, fs, (n - 1) as nat);
    }
}

proof fn lemma_branches_total(ns: NarrState, c: Counts, bs: Seq<BranchImportV>, n: nat)
    requires
        branches_fold(ns, c, bs, n) is Ok,
    ensures
        total(branches_fold(ns, c, bs, n)->Ok_0.1) == total(c) + n,
    decreases n,
{
    if n > 0 {
        lemma_branches_total(ns, c, bs, (n - 1) as nat);
    }
}

proof fn lemma_entities_total(ns: NarrState, c: Counts, es: Seq<(Seq<char>, Seq<char>, Seq<char>)>, n: nat)
    requires
        entities_fold(ns, c, es, n) is Ok,
    ensures
        total(entities_fold(ns, c, es, n)->Ok_0.1) == total(c) + n,
    decreases n,
{
    if n > 0 {
        lemma_entities_total(ns, c, es, (n - 1) as nat);
    }
}

proof fn lemma_predicates_total(ns: NarrState, c: Counts, ps: Seq<(Seq<char>, Seq<char>, Seq<char>)>, n: nat)
    requires
        predicates_fold(ns, c, ps, n) is Ok,
    ensures
        total(predicates_fold(ns, c, ps, n)->Ok_0.1) == total(c) + n,
    decreases n,
{
    if n > 0 {
        lemma_predicates_total(ns, c, ps, (n - 1) as nat);
    }
}

proof fn lemma_facts_fold_total(ns: NarrState, c: Counts, st: Seq<(Seq<char>, FactView)>, n: nat)
    requires
        facts_fold(ns, c, st, n) is Ok,
    ensures
        total(facts_fold(ns, c, st, n)->Ok_0.1) == total(c) + n,
    decreases n,
{
    if n > 0 {
        lemma_facts_fold_total(ns, c, st, (n - 1) as nat);
    }
}

proof fn lemma_facts_stage_total(ns: NarrState, c: Counts, es: Seq<FactImportView>)
    requires
        facts_stage(ns, c, es) is Ok,
    ensures
        total(facts_stage(ns, c, es)->Ok_0.1) == total(c) + es.len(),
{
    lemma_build_staged_len(ns, es, es.len());
    let st = stage_built(ns, es);
    lemma_stamp_staged_shape(ns, st, st.len());
    let sv = stage_stamped(ns, es);
    lemma_facts_fold_total(ns, c, sv, sv.len());
}

proof fn lemma_overrides_total(
    ns: NarrState,
    c: Counts,
    telling: Seq<char>,
    idx: nat,
    os: Seq<OverrideImportV>,
    n: nat,
)
    requires
        overrides_fold(ns, c, telling, idx, os, n) is Ok,
    ensures
        total(overrides_fold(ns, c, telling, idx, os, n)->Ok_0.1) == total(c) + n,
    decreases n,
{
    if n > 0 {
        lemma_overrides_total(ns, c, telling, idx, os, (n - 1) as nat);
    }
}

proof fn lemma_plans_total(ns: NarrState, c: Counts, ps: Seq<PlanImportV>, n: nat)
    requires
        plans_fold(ns, c, ps, n) is Ok,
    ensures
        total(plans_fold(ns, c, ps, n)->Ok_0.1) == total(c) + n + overrides_total(ps, n),
    decreases n,
{
    if n > 0 {
        lemma_plans_total(ns, c, ps, (n - 1) as nat);
        let (s1, c1) = plans_fold(ns, c, ps, (n - 1) as nat)->Ok_0;
        let p = ps[n - 1];
        let (id, created) = plan_outcome(s1.plans, p.0, plan_mode(p), p.2)->Ok_0;
        let s2 = if created {
            NarrState {
                plans: s1.plans.insert(
                    id,
                    PlanView {
                        description: trim_seq(p.2),
                        default_mode: mode_of(trim_seq(plan_mode(p)))->Some_0,
                        overrides: Map::empty(),
                    },
                ),
                ..s1
            }
        } else {
            s1
        };
        let c2 = if created {
            Counts { plans: c1.plans + 1, ..c1 }
        } else {
            Counts { no_op: c1.no_op + 1, ..c1 }
        };
        assert(plans_fold(ns, c, ps, n) == overrides_fold(s2, c2, p.0, (n - 1) as nat, p.3, p.3.len()));
        lemma_overrides_total(s2, c2, p.0, (n - 1) as nat, p.3, p.3.len());
    }
}

/// An application that succeeds counts every entry of the manifest once,
/// overrides included: as created, as set, or as a no-op.
pub proof fn lemma_manifest_counts_every_entry(ns: NarrState, m: ManifestV)
    requires
        manifest_outcome(ns, m) is Ok,
    ensures
        total(manifest_outcome(ns, m)->Ok_0.1) == manifest_size(m),
{
    let z = zero_counts();
    lemma_frames_total(ns, z, m.frames, m.frames.len());
    let (a, ca) = frames_fold(ns, z, m.frames, m.frames.len())->Ok_0;
    lemma_branches_total(a, ca, m.branches, m.branches.len());
    let (b, cb) = branches_fold(a, ca, m.branches, m.branches.len())->Ok_0;
    lemma_entities_total(b, cb, m.entities, m.entities.len());
    let (cc, cc_) = entities_fold(b, cb, m.entities, m.entities.len())->Ok_0;
    lemma_predicates_total(cc, cc_, m.predicates, m.predicates.len());
    let (d, cd) = predicates_fold(cc, cc_, m.predicates, m.predicates.len())->Ok_0;
    lemma_facts_stage_total(d, cd, m.facts);
    let (e, ce) = facts_stage(d, cd, m.facts)->Ok_0;
    lemma_plans_total(e, ce, m.plans, m.plans.len());
}

// ---------------------------------------------------------------------------
// A stage that creates and changes nothing leaves the state as it was.
// ---------------------------------------------------------------------------
/// Counts only grow: every count of `b` is at least that of `a`.
pub open spec fn counts_le(a: Counts, b: Counts) -> bool {
    &&& a.frames <= b.frames
    &&& a.branches <= b.branches
    &&& a.entities <= b.entities
    &&& a.predicates <= b.predicates
    &&& a.facts <= b.facts
    &&& a.plans <= b.plans
    &&& a.overrides <= b.overrides
    &&& a.no_op <= b.no_op
}

/// The creation counts of `a` and `b` are equal.
pub open spec fn same_created(a: Counts, b: Counts) -> bool {
    &&& a.frames == b.frames
    &&& a.branches == b.branches
    &&& a.entities == b.entities
    &&& a.predicates == b.predicates
    &&& a.facts == b.facts
    &&& a.plans == b.plans
    &&& a.overrides == b.overrides
}

proof fn lemma_frames_quiet(ns: NarrState, c: Counts, fs: Seq<(Seq<char>, Seq<char>)>, n: nat)
    requires
        frames_fold(ns, c, fs, n) is Ok,
    ensures
        counts_le(c, frames_fold(ns, c, fs, n)->Ok_0.1),
        same_created(c, frames_fold(ns, c, fs, n)->Ok_0.1) ==> frames_fold(ns, c, fs, n)->Ok_0.0 == ns,
    decreases n,
{
    if n > 0 {
        lemma_frames_quiet(ns, c, fs, (n - 1) as nat);
    }
}

proof fn lemma_branches_quiet(ns: NarrState, c: Counts, bs: Seq<BranchImportV>, n: nat)
    requires
        branches_fold(ns, c, bs, n) is Ok,
    ensures
        counts_le(c, branches_fold(ns, c, bs, n)->Ok_0.1),
        same_created(c, branches_fold(ns, c, bs, n)->Ok_0.1) ==> branches_fold(ns, c, bs, n)->Ok_0.0 == ns,
    decreases n,
{
    if n > 0 {
        lemma_branches_quiet(ns, c, bs, (n - 1) as nat);
    }
}

proof fn lemma_entities_quiet(ns: NarrState, c: Counts, es: Seq<(Seq<char>, Seq<char>, Seq<char>)>, n: nat)
    requires
        entities_fold(ns, c, es, n) is Ok,
    ensures
        counts_le(c, entities_fold(ns, c, es, n)->Ok_0.1),
        same_created(c, entities_fold(ns, c, es, n)->Ok_0.1) ==> entities_fold(ns, c, es, n)->Ok_0.0 == ns,
    decreases n,
{
    if n > 0 {
        lemma_entities_quiet(ns, c, es, (n - 1) as nat);
    }
}

proof fn lemma_predicates_quiet(ns: NarrState, c: Counts, ps: Seq<(Seq<char>, Seq<char>, Seq<char>)>, n: nat)
    requires
        predicates_fold(ns, c, ps, n) is Ok,
    ensures
        counts_le(c, predicates_fold(ns, c, ps, n)->Ok_0.1),
        same_created(c, predicates_fold(ns, c, ps, n)->Ok_0.1) ==> predicates_fold(ns, c, ps, n)->Ok_0.0
            == ns,
    decreases n,
{
    if n > 0 {
        lemma_predicates_quiet(ns, c, ps, (n - 1) as nat);
    }
}

proof fn lemma_facts_fold_quiet(ns: NarrState, c: Counts, st: Seq<(Seq<char>, FactView)>, n: nat)
    requires
        facts_fold(ns, c, st, n) is Ok,
    ensures
        counts_le(c, facts_fold(ns, c, st, n)->Ok_0.1),
        same_created(c, facts_fold(ns, c, st, n)->Ok_0.1) ==> facts_fold(ns, c, st, n)->Ok_0.0 == ns,
    decreases n,
{
    if n > 0 {
        lemma_facts_fold_quiet(ns, c, st, (n - 1) as nat);
    }
}

proof fn lemma_facts_stage_quiet(ns: NarrState, c: Counts, es: Seq<FactImportView>)
    requires
        facts_stage(ns, c, es) is Ok,
    ensures
        counts_le(c, facts_stage(ns, c, es)->Ok_0.1),
        same_created(c, facts_stage(ns, c, es)->Ok_0.1) ==> facts_stage(ns, c, es)->Ok_0.0 == ns,
{
    let st = stage_built(ns, es);
    let sv = stage_stamped(ns, es);
    lemma_facts_fold_quiet(ns, c, sv, sv.len());
}

proof fn lemma_overrides_quiet(
    ns: NarrState,
    c: Counts,
    telling: Seq<char>,
    idx: nat,
    os: Seq<OverrideImportV>,
    n: nat,
)
    requires
        overrides_fold(ns, c, telling, idx, os, n) is Ok,
    ensures
        counts_le(c, overrides_fold(ns, c, telling, idx, os, n)->Ok_0.1),
        same_created(c, overrides_fold(ns, c, telling, idx, os, n)->Ok_0.1) ==> overrides_fold(
            ns,
            c,
            telling,
            idx,
            os,
            n,
        )->Ok_0.0 == ns,
    decreases n,
{
    if n > 0 {
        lemma_overrides_quiet(ns, c, telling, idx, os, (n - 1) as nat);
        let (s1, c1) = overrides_fold(ns, c, telling, idx, os, (n - 1) as nat)->Ok_0;
        let o = os[n - 1];
        let d = DecisionView { telling, fact: o.0, mode: o.1, first_at: o.2, surface: o.3 };
        let (t, f, ov) = override_outcome(s1, d)->Ok_0;
        let changed = !(s1.plans[t].overrides.contains_key(f) && s1.plans[t].overrides[f] == ov);
        if !changed {
            assert(s1.plans.contains_key(t));
            assert(s1.plans[t].overrides.insert(f, ov) =~= s1.plans[t].overrides);
            assert(PlanView { overrides: s1.plans[t].overrides.insert(f, ov), ..s1.plans[t] } == s1.plans[t]);
            assert(s1.plans.insert(t, s1.plans[t]) =~= s1.plans);
        }
    }
}

proof fn lemma_plans_quiet(ns: NarrState, c: Counts, ps: Seq<PlanImportV>, n: nat)
    requires
        plans_fold(ns, c, ps, n) is Ok,
    ensures
        counts_le(c, plans_fold(ns, c, ps, n)->Ok_0.1),
        same_created(c, plans_fold(ns, c, ps, n)->Ok_0.1) ==> plans_fold(ns, c, ps, n)->Ok_0.0 == ns,
    decreases n,
{
    if n > 0 {
        lemma_plans_quiet(ns, c, ps, (n - 1) as nat);
        let (s1, c1) = plans_fold(ns, c, ps, (n - 1) as nat)->Ok_0;
        let p = ps[n - 1];
        let (id, created) = plan_outcome(s1.plans, p.0, plan_mode(p), p.2)->Ok_0;
        let s2 = if created {
            NarrState {
                plans: s1.plans.insert(
                    id,
                    PlanView {
                        description: trim_seq(p.2),
                        default_mode: mode_of(trim_seq(plan_mode(p)))->Some_0,
                        overrides: Map::empty(),
                    },
                ),
                ..s1
            }
        } else {
            s1
        };
        let c2 = if created {
            Counts { plans: c1.plans + 1, ..c1 }
        } else {
            Counts { no_op: c1.no_op + 1, ..c1 }
        };
        assert(plans_fold(ns, c, ps, n) == overrides_fold(s2, c2, p.0, (n - 1) as nat, p.3, p.3.len()));
        lemma_overrides_quiet(s2, c2, p.0, (n - 1) as nat, p.3, p.3.len());
    }
}

/// An application that creates and changes nothing leaves the state as it
/// was.
proof fn lemma_manifest_quiet(ns: NarrState, m: ManifestV)
    requires
        manifest_outcome(ns, m) is Ok,
    ensures
        !changed_of(manifest_outcome(ns, m)->Ok_0.1) ==> manifest_outcome(ns, m)->Ok_0.0 == ns,
{
    let z = zero_counts();
    lemma_frames_quiet(ns, z, m.frames, m.frames.len());
    let (a, ca) = frames_fold(ns, z, m.frames, m.frames.len())->Ok_0;
    lemma_branches_quiet(a, ca, m.branches, m.branches.len());
    let (b, cb) = branches_fold(a, ca, m.branches, m.branches.len())->Ok_0;
    lemma_entities_quiet(b, cb, m.entities, m.entities.len());
    let (cc, cc_) = entities_fold(b, cb, m.entities, m.entities.len())->Ok_0;
    lemma_predicates_quiet(cc, cc_, m.predicates, m.predicates.len());
    let (d, cd) = predicates_fold(cc, cc_, m.predicates, m.predicates.len())->Ok_0;
    lemma_facts_stage_quiet(d, cd, m.facts);
    let (e, ce) = facts_stage(d, cd, m.facts)->Ok_0;
    lemma_plans_quiet(e, ce, m.plans, m.plans.len());
}

// ---------------------------------------------------------------------------
// The law.
// ---------------------------------------------------------------------------
/// Applying a facts manifest a second time to the state its first
/// application left is a no-op: it succeeds, leaves the state as it is, and
/// creates or changes nothing: its summary counts every entry of the
/// manifest, overrides included, as a no-op. It holds for
/// every manifest whose first application succeeded, except one that sets
/// the same telling's decision on the same fact twice with different
/// outcomes: there the second application sets the first of them again
/// before the last, and so reports a change.
pub proof fn lemma_manifest_rerun_is_noop(ns: NarrState, m: ManifestV)
    requires
        ns.facts.dom().finite(),
        manifest_outcome(ns, m) is Ok,
        overrides_agree(manifest_outcome(ns, m)->Ok_0.0, m.plans),
    ensures
        ({
            let fin = manifest_outcome(ns, m)->Ok_0.0;
            let again = manifest_outcome(fin, m);
            &&& again is Ok
            &&& again->Ok_0.0 == fin
            &&& !changed_of(again->Ok_0.1)
            &&& again->Ok_0.1 == (Counts { no_op: manifest_size(m), ..zero_counts() })
            &&& summary_of(again->Ok_0.1) == summary_of(
                Counts { no_op: manifest_size(m), ..zero_counts() },
            )
        }),
{
    let z = zero_counts();
    lemma_frames_run(ns, z, m.frames, m.frames.len());
    let (a, ca) = frames_fold(ns, z, m.frames, m.frames.len())->Ok_0;
    lemma_branches_run(a, ca, m.branches, m.branches.len());
    let (b, cb) = branches_fold(a, ca, m.branches, m.branches.len())->Ok_0;
    lemma_entities_run(b, cb, m.entities, m.entities.len());
    let (cc, cc_) = entities_fold(b, cb, m.entities, m.entities.len())->Ok_0;
    lemma_predicates_run(cc, cc_, m.predicates, m.predicates.len());
    let (d, cd) = predicates_fold(cc, cc_, m.predicates, m.predicates.len())->Ok_0;
    lemma_facts_stage_run(d, cd, m.facts);
    let (e, ce) = facts_stage(d, cd, m.facts)->Ok_0;
    lemma_plans_registered_run(e, ce, m.plans, m.plans.len());
    let p = plans_fold(e, ce, m.plans, m.plans.len())->Ok_0.0;
    assert(p == manifest_outcome(ns, m)->Ok_0.0);
    assert forall|j: int| 0 <= j < m.plans.len() implies p.plans.contains_key(
        trim_seq(#[trigger] m.plans[j].0),
    ) by {
        assert(trim_seq(m.plans[j].0) == trim_seq(m.plans[j].0));
    }
    lemma_plans_run(e, ce, m.plans, m.plans.len(), p);
    // The second application, stage by stage.
    lemma_frames_idle(p, z, m.frames, m.frames.len());
    let c1 = frames_fold(p, z, m.frames, m.frames.len())->Ok_0.1;
    lemma_branches_idle(p, c1, m.branches, m.branches.len());
    let c2 = branches_fold(p, c1, m.branches, m.branches.len())->Ok_0.1;
    lemma_entities_idle(p, c2, m.entities, m.entities.len());
    let c3 = entities_fold(p, c2, m.entities, m.entities.len())->Ok_0.1;
    lemma_predicates_idle(p, c3, m.predicates, m.predicates.len());
    let c4 = predicates_fold(p, c3, m.predicates, m.predicates.len())->Ok_0.1;
    lemma_facts_stage_idle(d, p, cd, c4, m.facts);
    let c5 = facts_stage(p, c4, m.facts)->Ok_0.1;
    lemma_plans_idle(p, c5, m.plans, m.plans.len());
    lemma_manifest_counts_every_entry(p, m);
}

/// A manifest application reports a change exactly when the state it leaves
/// differs from the one it started from. It holds for every manifest whose
/// application succeeds, except one that sets the same telling's decision
/// on the same fact twice with different outcomes: there a decision set and
/// then set back reports a change that the state does not show.
pub proof fn lemma_manifest_changed_iff_state_changed(ns: NarrState, m: ManifestV)
    requires
        ns.facts.dom().finite(),
        manifest_outcome(ns, m) is Ok,
        overrides_agree(manifest_outcome(ns, m)->Ok_0.0, m.plans),
    ensures
        changed_of(manifest_outcome(ns, m)->Ok_0.1) <==> manifest_outcome(ns, m)->Ok_0.0 != ns,
{
    lemma_manifest_quiet(ns, m);
    if manifest_outcome(ns, m)->Ok_0.0 == ns {
        lemma_manifest_rerun_is_noop(ns, m);
    }
}

proof fn lemma_build_staged_legs(ns: NarrState, es: Seq<FactImportView>, n: nat)
    requires
        build_staged(ns, es, n) is Ok,
    ensures
        forall|j: int|
            0 <= j < build_staged(ns, es, n)->Ok_0.len() ==> crate::facts::typed_legs_listed(
                (#[trigger] build_staged(ns, es, n)->Ok_0[j]).1.typed,
                build_staged(ns, es, n)->Ok_0[j].1.entities,
            ),
    decreases n,
{
    if n > 0 {
        lemma_build_staged_legs(ns, es, (n - 1) as nat);
        crate::facts::lemma_built_fact_legs_listed(ns, es[n - 1]);
        let prev = build_staged(ns, es, (n - 1) as nat)->Ok_0;
        let cur = build_staged(ns, es, n)->Ok_0;
        assert forall|j: int| 0 <= j < cur.len() implies crate::facts::typed_legs_listed(
            (#[trigger] cur[j]).1.typed,
            cur[j].1.entities,
        ) by {
            if j < prev.len() {
                assert(cur[j] == prev[j]);
            }
        }
    }
}

proof fn lemma_stamp_staged_legs(ns: NarrState, st: Seq<(Seq<char>, FactView)>, n: nat)
    requires
        n <= st.len(),
        stamp_staged(ns, st, n) is Ok,
        forall|j: int| 0 <= j < st.len() ==> crate::facts::typed_legs_listed(
            (#[trigger] st[j]).1.typed,
            st[j].1.entities,
        ),
    ensures
        forall|j: int|
            0 <= j < stamp_staged(ns, st, n)->Ok_0.len() ==> crate::facts::typed_legs_listed(
                (#[trigger] stamp_staged(ns, st, n)->Ok_0[j]).1.typed,
                stamp_staged(ns, st, n)->Ok_0[j].1.entities,
            ),
    decreases n,
{
    if n > 0 {
        lemma_stamp_staged_legs(ns, st, (n - 1) as nat);
        let prev = stamp_staged(ns, st, (n - 1) as nat)->Ok_0;
        let cur = stamp_staged(ns, st, n)->Ok_0;
        let fuel = walk_fuel(ns.facts.dom().len(), st.len(), 0);
        crate::fact_ops::lemma_refs_keep_legs(overlay(ns.facts, st), ns.branches, st[n - 1].0, st[n - 1].1, fuel);
        assert(crate::facts::typed_legs_listed(st[n - 1].1.typed, st[n - 1].1.entities));
        assert forall|j: int| 0 <= j < cur.len() implies crate::facts::typed_legs_listed(
            (#[trigger] cur[j]).1.typed,
            cur[j].1.entities,
        ) by {
            if j < prev.len() {
                assert(cur[j] == prev[j]);
            }
        }
    }
}

/// A facts manifest keeps the typed legs of the facts it adds listed: every
/// fact its application adds lists every entity its typed claim names, and
/// the facts already stored are left as they were.
pub proof fn lemma_manifest_facts_legs_listed(ns: NarrState, m: ManifestV)
    requires
        manifest_outcome(ns, m) is Ok,
    ensures
        ({
            let fin = manifest_outcome(ns, m)->Ok_0.0;
            &&& forall|k: Seq<char>|
                #[trigger] ns.facts.contains_key(k) ==> fin.facts.contains_key(k) && fin.facts[k]
                    == ns.facts[k]
            &&& forall|k: Seq<char>|
                #[trigger] fin.facts.contains_key(k) && !ns.facts.contains_key(k)
                    ==> crate::facts::typed_legs_listed(fin.facts[k].typed, fin.facts[k].entities)
        }),
{
    let z = zero_counts();
    lemma_frames_run(ns, z, m.frames, m.frames.len());
    let (a, ca) = frames_fold(ns, z, m.frames, m.frames.len())->Ok_0;
    lemma_branches_run(a, ca, m.branches, m.branches.len());
    let (b, cb) = branches_fold(a, ca, m.branches, m.branches.len())->Ok_0;
    lemma_entities_run(b, cb, m.entities, m.entities.len());
    let (cc, cc_) = entities_fold(b, cb, m.entities, m.entities.len())->Ok_0;
    lemma_predicates_run(cc, cc_, m.predicates, m.predicates.len());
    let (d, cd) = predicates_fold(cc, cc_, m.predicates, m.predicates.len())->Ok_0;
    assert(d.facts == ns.facts);
    lemma_facts_stage_run(d, cd, m.facts);
    let (e, ce) = facts_stage(d, cd, m.facts)->Ok_0;
    lemma_plans_registered_run(e, ce, m.plans, m.plans.len());
    let fin = plans_fold(e, ce, m.plans, m.plans.len())->Ok_0.0;
    assert(fin.facts == e.facts);
    let st = stage_built(d, m.facts);
    let sv = stage_stamped(d, m.facts);
    lemma_build_staged_legs(d, m.facts, m.facts.len());
    lemma_stamp_staged_legs(d, st, st.len());
    lemma_stamp_staged_shape(d, st, st.len());
    assert forall|k: Seq<char>| #[trigger] fin.facts.contains_key(k) && !ns.facts.contains_key(k)
        implies crate::facts::typed_legs_listed(fin.facts[k].typed, fin.facts[k].entities) by {
        assert(staged_ids(st).contains(k));
        let j = choose|j: int| 0 <= j < staged_ids(st).len() && staged_ids(st)[j] == k;
        assert(st[j].0 == k);
        assert(sv[j].0 == k);
        assert(e.facts[sv[j].0] == sv[j].1);
    }
}

/// A manifest holding one fact and nothing else.
pub open spec fn single_fact(e: FactImportView) -> ManifestV {
    ManifestV {
        frames: Seq::empty(),
        branches: Seq::empty(),
        entities: Seq::empty(),
        predicates: Seq::empty(),
        facts: seq![e],
        plans: Seq::empty(),
    }
}

/// The two fact write paths agree: `add_fact` accepts an authoring form
/// exactly when a manifest holding only that fact applies, and then both
/// leave the same facts and agree on whether anything was created.
pub proof fn lemma_write_paths_agree(s: crate::model::AtomicStore, e: FactImportView)
    requires
        s.wf(),
    ensures
        (crate::fact_ops::add_fact_outcome(s, e) is Ok) == (manifest_outcome(
            crate::registry::narr_of(s),
            single_fact(e),
        ) is Ok),
        crate::fact_ops::add_fact_outcome(s, e) is Ok ==> ({
            let (c, fid, f) = crate::fact_ops::add_fact_outcome(s, e)->Ok_0;
            let r = manifest_outcome(crate::registry::narr_of(s), single_fact(e))->Ok_0;
            &&& r.0 == (NarrState {
                facts: if c {
                    facts_v(s.narrative_facts).insert(fid, f)
                } else {
                    facts_v(s.narrative_facts)
                },
                ..crate::registry::narr_of(s)
            })
            &&& changed_of(r.1) == c
        }),
{
    let ns = crate::registry::narr_of(s);
    let m = single_fact(e);
    let z = zero_counts();
    assert(m.facts[0] == e);
    assert(frames_fold(ns, z, m.frames, 0) == Ok::<_, (NarrState, Seq<char>)>((ns, z)));
    assert(branches_fold(ns, z, m.branches, 0) == Ok::<_, (NarrState, Seq<char>)>((ns, z)));
    assert(entities_fold(ns, z, m.entities, 0) == Ok::<_, (NarrState, Seq<char>)>((ns, z)));
    assert(predicates_fold(ns, z, m.predicates, 0) == Ok::<_, (NarrState, Seq<char>)>((ns, z)));
    assert(manifest_outcome(ns, m) == match facts_stage(ns, z, m.facts) {
        Err(x) => Err(x),
        Ok((s5, c5)) => plans_fold(s5, c5, m.plans, 0),
    });
    assert(build_staged(ns, m.facts, 0) == Ok::<_, Seq<char>>(Seq::<(Seq<char>, FactView)>::empty()));
    match fact_outcome(ns, e) {
        Err(_) => {
            assert(build_staged(ns, m.facts, 1) is Err);
            assert(facts_stage(ns, z, m.facts) is Err);
        },
        Ok((fid, cand)) => {
            crate::facts::lemma_fact_refs_avoid_self(ns, e);
            let st = seq![(fid, cand)];
            assert(staged_ids(Seq::<(Seq<char>, FactView)>::empty()) =~= Seq::<Seq<char>>::empty());
            assert(build_staged(ns, m.facts, 1) == Ok::<_, Seq<char>>(st)) by {
                assert(Seq::<(Seq<char>, FactView)>::empty().push((fid, cand)) =~= st);
            }
            let fm = facts_v(s.narrative_facts);
            let nf = s.narrative_facts;
            nf.lemma_wf();
            assert(st.drop_last() =~= Seq::<(Seq<char>, FactView)>::empty());
            assert(ns.facts == fm);
            assert(overlay(ns.facts, Seq::<(Seq<char>, FactView)>::empty()) == fm);
            assert(st.last() == (fid, cand));
            assert(overlay(ns.facts, st) == fm.insert(fid, cand));
            let nodes = seq![fid] + nf.key_seq();
            assert(nodes[0] == fid);
            assert forall|k: Seq<char>| #[trigger] fm.contains_key(k) implies nodes.contains(k) by {
                assert(nf@.contains_key(k));
                let i = choose|i: int| 0 <= i < nf.size() && nf.key_seq()[i] == k;
                assert(nodes[i + 1] == k);
            }
            assert(fm.dom() =~= nf@.dom());
            let f1 = walk_fuel(nf@.len(), 0, 0);
            let f2 = walk_fuel(ns.facts.dom().len(), st.len(), 0);
            lemma_refs_outcome_eq(fm, fm.insert(fid, cand), ns.branches, fid, cand, nodes, f1, f2);
            assert(stamp_staged(ns, st, 0) == Ok::<_, Seq<char>>(Seq::<(Seq<char>, FactView)>::empty()));
            assert(stamp_staged(ns, st, 1) == match refs_outcome(overlay(ns.facts, st), ns.branches, fid, cand, f2) {
                Err(msg) => Err(msg),
                Ok(sv) => Ok(Seq::<(Seq<char>, FactView)>::empty().push((fid, sv))),
            });
            match refs_outcome(fm, ns.branches, fid, cand, f1) {
                Err(_) => {
                    assert(facts_stage(ns, z, m.facts) is Err);
                },
                Ok(sv) => {
                    let stamped = seq![(fid, sv)];
                    assert(Seq::<(Seq<char>, FactView)>::empty().push((fid, sv)) =~= stamped);
                    assert(facts_stage(ns, z, m.facts) == facts_fold(ns, z, stamped, 1));
                    assert(stamped[0] == (fid, sv));
                    assert(facts_fold(ns, z, stamped, 0) == Ok::<_, (NarrState, Seq<char>)>((ns, z)));
                    if fm.contains_key(fid) && fm[fid] != sv {
                        assert(facts_fold(ns, z, stamped, 1) is Err);
                    } else {
                        let r = facts_fold(ns, z, stamped, 1)->Ok_0;
                        assert(plans_fold(r.0, r.1, m.plans, 0) == Ok::<_, (NarrState, Seq<char>)>(r));
                        if fm.contains_key(fid) {
                            assert(r.0 == ns);
                        }
                    }
                },
            }
        },
    }
}
/// A manifest holding one disclosure plan with one override and nothing
/// else.
pub open spec fn single_override(
    telling: Seq<char>,
    mode: Seq<char>,
    description: Seq<char>,
    o: OverrideImportV,
) -> ManifestV {
    ManifestV {
        frames: Seq::empty(),
        branches: Seq::empty(),
        entities: Seq::empty(),
        predicates: Seq::empty(),
        facts: Seq::empty(),
        plans: seq![(telling, Some(mode), description, seq![o])],
    }
}

/// The two disclosure write paths agree: for a telling already registered
/// with the policy a manifest restates, the manifest's override applies
/// exactly when `set_disclosure` accepts the same decision, and then both
/// store the same override.
pub proof fn lemma_disclosure_paths_agree(
    ns: NarrState,
    telling: Seq<char>,
    mode: Seq<char>,
    description: Seq<char>,
    o: OverrideImportV,
)
    requires
        plan_outcome(ns.plans, telling, mode, description) is Ok,
        !plan_outcome(ns.plans, telling, mode, description)->Ok_0.1,
    ensures
        ({
            let m = single_override(telling, mode, description, o);
            let d = DecisionView { telling, fact: o.0, mode: o.1, first_at: o.2, surface: o.3 };
            &&& (manifest_outcome(ns, m) is Ok) == (override_outcome(ns, d) is Ok)
            &&& override_outcome(ns, d) is Ok ==> ({
                let (t, f, ov) = override_outcome(ns, d)->Ok_0;
                manifest_outcome(ns, m)->Ok_0.0 == (NarrState {
                    plans: ns.plans.insert(
                        t,
                        PlanView { overrides: ns.plans[t].overrides.insert(f, ov), ..ns.plans[t] },
                    ),
                    ..ns
                })
            })
        }),
{
    let m = single_override(telling, mode, description, o);
    let z = zero_counts();
    let p = m.plans[0];
    assert(p == (telling, Some(mode), description, seq![o]));
    assert(plan_mode(p) == mode);
    assert(p.3[0] == o);
    assert(frames_fold(ns, z, m.frames, 0) == Ok::<_, (NarrState, Seq<char>)>((ns, z)));
    assert(branches_fold(ns, z, m.branches, 0) == Ok::<_, (NarrState, Seq<char>)>((ns, z)));
    assert(entities_fold(ns, z, m.entities, 0) == Ok::<_, (NarrState, Seq<char>)>((ns, z)));
    assert(predicates_fold(ns, z, m.predicates, 0) == Ok::<_, (NarrState, Seq<char>)>((ns, z)));
    assert(build_staged(ns, m.facts, 0) == Ok::<_, Seq<char>>(Seq::<(Seq<char>, FactView)>::empty()));
    assert(facts_stage(ns, z, m.facts) == Ok::<_, (NarrState, Seq<char>)>((ns, z)));
    assert(plans_fold(ns, z, m.plans, 0) == Ok::<_, (NarrState, Seq<char>)>((ns, z)));
    let c2 = Counts { no_op: z.no_op + 1, ..z };
    assert(manifest_outcome(ns, m) == plans_fold(ns, z, m.plans, 1));
    assert(plans_fold(ns, z, m.plans, 1) == overrides_fold(ns, c2, telling, 0, p.3, 1));
    assert(overrides_fold(ns, c2, telling, 0, p.3, 0) == Ok::<_, (NarrState, Seq<char>)>((ns, c2)));
}

proof fn lemma_stamp_staged_within(ns: NarrState, st: Seq<(Seq<char>, FactView)>, n: nat)
    requires
        n <= st.len(),
        stamp_staged(ns, st, n) is Ok,
    ensures
        forall|j: int|
            0 <= j < n ==> crate::integrity::refs_within(
                (#[trigger] stamp_staged(ns, st, n)->Ok_0[j]).1,
                overlay(ns.facts, st).dom(),
            ),
    decreases n,
{
    if n > 0 {
        lemma_stamp_staged_within(ns, st, (n - 1) as nat);
        lemma_stamp_staged_shape(ns, st, (n - 1) as nat);
        crate::integrity::lemma_refs_outcome_within(
            overlay(ns.facts, st),
            ns.branches,
            st[n - 1].0,
            st[n - 1].1,
            walk_fuel(ns.facts.dom().len(), st.len(), 0),
        );
    }
}

/// Applying a manifest keeps every edge of the store's facts pointing at a
/// fact: a fact it creates names only facts of the store or of the manifest,
/// and every fact of the manifest is in the store once it applied.
pub proof fn lemma_manifest_keeps_refs_closed(ns: NarrState, m: ManifestV)
    requires
        crate::integrity::refs_closed(ns.facts),
        manifest_outcome(ns, m) is Ok,
    ensures
        crate::integrity::refs_closed(manifest_outcome(ns, m)->Ok_0.0.facts),
{
    let z = zero_counts();
    lemma_frames_run(ns, z, m.frames, m.frames.len());
    let (a, ca) = frames_fold(ns, z, m.frames, m.frames.len())->Ok_0;
    lemma_branches_run(a, ca, m.branches, m.branches.len());
    let (b, cb) = branches_fold(a, ca, m.branches, m.branches.len())->Ok_0;
    lemma_entities_run(b, cb, m.entities, m.entities.len());
    let (cc, cc_) = entities_fold(b, cb, m.entities, m.entities.len())->Ok_0;
    lemma_predicates_run(cc, cc_, m.predicates, m.predicates.len());
    let (d, cd) = predicates_fold(cc, cc_, m.predicates, m.predicates.len())->Ok_0;
    lemma_facts_stage_run(d, cd, m.facts);
    let (e, ce) = facts_stage(d, cd, m.facts)->Ok_0;
    lemma_plans_registered_run(e, ce, m.plans, m.plans.len());
    let p = plans_fold(e, ce, m.plans, m.plans.len())->Ok_0.0;
    assert(p.facts == e.facts);
    assert(d.facts == ns.facts);
    let st = stage_built(d, m.facts);
    let sv = stage_stamped(d, m.facts);
    lemma_stamp_staged_shape(d, st, st.len());
    lemma_stamp_staged_within(d, st, st.len());
    let vd = overlay(d.facts, st).dom();
    assert(vd.subset_of(e.facts.dom())) by {
        assert forall|k: Seq<char>| vd.contains(k) implies e.facts.dom().contains(k) by {
            lemma_overlay_at(d.facts, st, k);
            if !d.facts.contains_key(k) {
                let j = choose|j: int| 0 <= j < staged_ids(st).len() && staged_ids(st)[j] == k;
                assert(sv[j].0 == st[j].0);
                assert(e.facts.contains_key(sv[j].0));
            }
        }
    }
    assert(d.facts.dom().subset_of(e.facts.dom()));
    assert forall|k: Seq<char>| #[trigger] e.facts.contains_key(k) implies crate::integrity::refs_within(
        e.facts[k],
        e.facts.dom(),
    ) by {
        if d.facts.contains_key(k) {
            crate::integrity::lemma_within_grows(d.facts[k], d.facts.dom(), e.facts.dom());
        } else {
            let j = choose|j: int| 0 <= j < staged_ids(st).len() && staged_ids(st)[j] == k;
            assert(sv[j].0 == st[j].0);
            assert(e.facts[sv[j].0] == sv[j].1);
            crate::integrity::lemma_within_grows(sv[j].1, vd, e.facts.dom());
        }
    }
}

proof fn lemma_build_staged_distinct(ns: NarrState, es: Seq<FactImportView>, n: nat)
    requires
        build_staged(ns, es, n) is Ok,
    ensures
        forall|i: int, j: int|
            0 <= i < j < build_staged(ns, es, n)->Ok_0.len() ==> (#[trigger] build_staged(ns, es, n)->Ok_0[i]).0
                != (#[trigger] build_staged(ns, es, n)->Ok_0[j]).0,
    decreases n,
{
    if n > 0 {
        lemma_build_staged_distinct(ns, es, (n - 1) as nat);
        let prev = build_staged(ns, es, (n - 1) as nat)->Ok_0;
        let cur = build_staged(ns, es, n)->Ok_0;
        assert forall|i: int, j: int| 0 <= i < j < cur.len() implies (#[trigger] cur[i]).0 != (#[trigger] cur[j]).0 by {
            if j == cur.len() - 1 {
                assert(cur[i] == prev[i]);
                assert(staged_ids(prev)[i] == prev[i].0);
            } else {
                assert(cur[i] == prev[i] && cur[j] == prev[j]);
            }
        }
    }
}

proof fn lemma_overlay_distinct(m: Map<Seq<char>, FactView>, st: Seq<(Seq<char>, FactView)>, j: int)
    requires
        0 <= j < st.len(),
        forall|a: int, b: int| 0 <= a < b < st.len() ==> (#[trigger] st[a]).0 != (#[trigger] st[b]).0,
    ensures
        overlay(m, st).contains_key(st[j].0),
        overlay(m, st)[st[j].0] == st[j].1,
    decreases st.len(),
{
    if j < st.len() - 1 {
        let t = st.drop_last();
        assert forall|a: int, b: int| 0 <= a < b < t.len() implies (#[trigger] t[a]).0 != (#[trigger] t[b]).0 by {
            assert(t[a] == st[a] && t[b] == st[b]);
        }
        assert(t[j] == st[j]);
        lemma_overlay_distinct(m, t, j);
        assert(st.last() == st[st.len() - 1]);
    }
}

/// The cross-fact verdict a staged fact got when it was stamped.
pub open spec fn staged_refs(ns: NarrState, st: Seq<(Seq<char>, FactView)>, j: int) -> Result<FactView, Seq<char>> {
    refs_outcome(overlay(ns.facts, st), ns.branches, st[j].0, st[j].1, walk_fuel(ns.facts.dom().len(), st.len(), 0))
}

proof fn lemma_stamp_staged_edges(ns: NarrState, st: Seq<(Seq<char>, FactView)>, n: nat)
    requires
        n <= st.len(),
        stamp_staged(ns, st, n) is Ok,
    ensures
        forall|j: int|
            0 <= j < n ==> #[trigger] staged_refs(ns, st, j) is Ok && stamp_staged(ns, st, n)->Ok_0[j].1
                == staged_refs(ns, st, j)->Ok_0,
    decreases n,
{
    if n > 0 {
        lemma_stamp_staged_edges(ns, st, (n - 1) as nat);
        lemma_stamp_staged_shape(ns, st, (n - 1) as nat);
        let prev = stamp_staged(ns, st, (n - 1) as nat)->Ok_0;
        let cur = stamp_staged(ns, st, n)->Ok_0;
        let r = staged_refs(ns, st, n - 1);
        assert(r is Ok);
        assert(cur == prev.push((st[n - 1].0, r->Ok_0)));
        assert forall|j: int| 0 <= j < n implies #[trigger] staged_refs(ns, st, j) is Ok && cur[j].1
            == staged_refs(ns, st, j)->Ok_0 by {
            if j < n - 1 {
                assert(cur[j] == prev[j]);
            }
        }
    }
}

/// Applying a manifest keeps succession free of loops: each fact it stages
/// passed the cycle guard over the store's facts with every staged fact laid
/// over them, which is the succession graph the store is left with.
pub proof fn lemma_manifest_keeps_acyclic(ns: NarrState, m: ManifestV)
    requires
        ns.facts.dom().finite(),
        crate::acyclic::acyclic(ns.facts),
        manifest_outcome(ns, m) is Ok,
    ensures
        crate::acyclic::acyclic(manifest_outcome(ns, m)->Ok_0.0.facts),
{
    let z = zero_counts();
    lemma_frames_run(ns, z, m.frames, m.frames.len());
    let (a, ca) = frames_fold(ns, z, m.frames, m.frames.len())->Ok_0;
    lemma_branches_run(a, ca, m.branches, m.branches.len());
    let (b, cb) = branches_fold(a, ca, m.branches, m.branches.len())->Ok_0;
    lemma_entities_run(b, cb, m.entities, m.entities.len());
    let (cc, cc_) = entities_fold(b, cb, m.entities, m.entities.len())->Ok_0;
    lemma_predicates_run(cc, cc_, m.predicates, m.predicates.len());
    let (d, cd) = predicates_fold(cc, cc_, m.predicates, m.predicates.len())->Ok_0;
    lemma_facts_stage_run(d, cd, m.facts);
    let (e, ce) = facts_stage(d, cd, m.facts)->Ok_0;
    lemma_plans_registered_run(e, ce, m.plans, m.plans.len());
    let p = plans_fold(e, ce, m.plans, m.plans.len())->Ok_0.0;
    assert(p.facts == e.facts);
    let f0 = d.facts;
    let ef = e.facts;
    let st = stage_built(d, m.facts);
    let sv = stage_stamped(d, m.facts);
    let g = overlay(f0, st);
    let fuel = walk_fuel(f0.dom().len(), st.len(), 0);
    lemma_build_staged_len(d, m.facts, m.facts.len());
    lemma_build_staged_distinct(d, m.facts, m.facts.len());
    lemma_stamp_staged_shape(d, st, st.len());
    lemma_stamp_staged_edges(d, st, st.len());
    let ids = staged_ids(st);
    // The final facts step exactly as the graph the guard walked.
    assert forall|x: Seq<char>| #[trigger] crate::acyclic::step(ef, x) == crate::acyclic::step(g, x) by {
        lemma_overlay_at(f0, st, x);
        if ids.contains(x) {
            let j = choose|j: int| 0 <= j < ids.len() && ids[j] == x;
            lemma_overlay_distinct(f0, st, j);
            assert(sv[j].0 == st[j].0);
            assert(ef.contains_key(sv[j].0) && ef[sv[j].0] == sv[j].1);
            assert(staged_refs(d, st, j) is Ok);
        } else {
            if ef.contains_key(x) && !f0.contains_key(x) {
                assert(ids.contains(x));
            }
        }
    }
    // The new ids: each staged fact's chain does not come back to it.
    let changed = ids.to_set();
    lemma_to_seq_len(f0.dom());
    let nodes = f0.dom().to_seq() + ids;
    assert forall|x: Seq<char>| #[trigger] crate::acyclic::step(g, x) is Some implies nodes.contains(x) by {
        lemma_overlay_at(f0, st, x);
        if f0.contains_key(x) {
            assert(f0.dom().contains(x));
            let i = choose|i: int| 0 <= i < f0.dom().to_seq().len() && f0.dom().to_seq()[i] == x;
            assert(nodes[i] == x);
        } else {
            let i = choose|i: int| 0 <= i < ids.len() && ids[i] == x;
            assert(nodes[f0.dom().len() + i] == x);
        }
    }
    assert forall|s: Seq<char>, n: nat| changed.contains(s) && n > 0 implies #[trigger] crate::acyclic::reach(
        ef,
        s,
        n,
    ) != Some(s) by {
        let j = choose|j: int| 0 <= j < ids.len() && ids[j] == s;
        lemma_overlay_distinct(f0, st, j);
        assert(nodes[f0.dom().len() + j] == s);
        crate::acyclic::lemma_reach_same_steps(ef, g, s, n);
        let cand = st[j].1;
        match cand.supersedes_in_frame {
            None => {
                assert(crate::acyclic::step(g, s) is None);
            },
            Some(t) => {
                let es = Seq::<(Seq<char>, Seq<char>)>::empty();
                assert(st[j].0 == s);
                assert(staged_refs(d, st, j) is Ok);
                let r = refs_outcome(g, d.branches, s, cand, fuel);
                assert(r is Ok);
                assert(crate::succession::succession_outcome(
                    g,
                    d.branches,
                    es,
                    s,
                    cand.frame,
                    cand.branch,
                    t,
                    fuel,
                ) is Ok);
                assert(first_revisit(g, es, s, t, seq![s], Some(t), fuel) is None);
                assert forall|x: Seq<char>| #[trigger] outbound(g, es, s, t, x) == crate::acyclic::step(g, x) by {
                }
                crate::acyclic::lemma_guard_blocks_return(g, es, s, t, g, nodes, fuel);
            },
        }
    }
    assert forall|y: Seq<char>| !changed.contains(y) implies #[trigger] crate::acyclic::step(f0, y)
        == crate::acyclic::step(ef, y) by {
        lemma_overlay_at(f0, st, y);
    }
    crate::acyclic::lemma_acyclic_after_change(f0, ef, changed);
}

} // verus!
