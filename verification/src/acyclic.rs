//! Succession never loops: following `supersedes_in_frame` from any fact
//! never comes back to it. Each fact write path keeps this, because the
//! cycle guard it runs on a new edge is complete.
use vstd::prelude::*;
use crate::narrative::FactView;
use crate::fact_ops::{add_fact_outcome, amend_outcome};
use crate::model::AtomicStore;
use crate::digest::sha256_hex_of;
use crate::proposals::{
    EdgeV, names_successor, succession_edges, succession_verdict, with_conflicts, with_successions,
};
use crate::succession::{
    edge_of, facts_v, first_revisit, fresh, lemma_fresh_push, lemma_fresh_seen, outbound, refs_outcome,
    walk_fuel,
};

verus! {

/// Where the succession edge of `x` leads in `fm`.
pub open spec fn step(fm: Map<Seq<char>, FactView>, x: Seq<char>) -> Option<Seq<char>> {
    if fm.contains_key(x) {
        fm[x].supersedes_in_frame
    } else {
        None
    }
}

/// Where `n` succession steps from `x` lead, if the chain lasts that long.
pub open spec fn reach(fm: Map<Seq<char>, FactView>, x: Seq<char>, n: nat) -> Option<Seq<char>>
    decreases n,
{
    if n == 0 {
        Some(x)
    } else {
        match step(fm, x) {
            Some(y) => reach(fm, y, (n - 1) as nat),
            None => None,
        }
    }
}

/// No fact reaches itself by one or more succession steps.
pub open spec fn acyclic(fm: Map<Seq<char>, FactView>) -> bool {
    forall|x: Seq<char>, n: nat| n > 0 ==> #[trigger] reach(fm, x, n) != Some(x)
}

proof fn lemma_reach_compose(fm: Map<Seq<char>, FactView>, a: Seq<char>, b: Seq<char>, i: nat, j: nat)
    requires
        reach(fm, a, i) == Some(b),
    ensures
        reach(fm, a, i + j) == reach(fm, b, j),
    decreases i,
{
    if i > 0 {
        let y = step(fm, a)->Some_0;
        lemma_reach_compose(fm, y, b, (i - 1) as nat, j);
        assert((i + j - 1) as nat == (i - 1) as nat + j);
    }
}

pub(crate) proof fn lemma_reach_same_steps(g1: Map<Seq<char>, FactView>, g2: Map<Seq<char>, FactView>, x: Seq<char>, n: nat)
    requires
        forall|y: Seq<char>| #[trigger] step(g1, y) == step(g2, y),
    ensures
        reach(g1, x, n) == reach(g2, x, n),
    decreases n,
{
    if n > 0 {
        assert(step(g1, x) == step(g2, x));
        match step(g1, x) {
            Some(y) => lemma_reach_same_steps(g1, g2, y, (n - 1) as nat),
            None => {},
        }
    }
}

proof fn lemma_reach_avoiding(
    g1: Map<Seq<char>, FactView>,
    g2: Map<Seq<char>, FactView>,
    changed: Set<Seq<char>>,
    x: Seq<char>,
    n: nat,
)
    requires
        forall|y: Seq<char>| !changed.contains(y) ==> #[trigger] step(g1, y) == step(g2, y),
        forall|k: nat| k < n ==> !(#[trigger] reach(g2, x, k) is Some && changed.contains(reach(g2, x, k)->Some_0)),
    ensures
        reach(g1, x, n) == reach(g2, x, n),
    decreases n,
{
    if n > 0 {
        assert(reach(g2, x, 0) == Some(x));
        assert(step(g1, x) == step(g2, x));
        match step(g2, x) {
            Some(y) => {
                assert forall|k: nat| k < (n - 1) as nat implies !(#[trigger] reach(g2, y, k) is Some
                    && changed.contains(reach(g2, y, k)->Some_0)) by {
                    assert(reach(g2, x, k + 1) == reach(g2, y, k));
                }
                lemma_reach_avoiding(g1, g2, changed, y, (n - 1) as nat);
            },
            None => {},
        }
    }
}

/// A graph stays acyclic when only the edges out of `changed` change and
/// none of those reaches back to itself.
pub(crate) proof fn lemma_acyclic_after_change(
    g1: Map<Seq<char>, FactView>,
    g2: Map<Seq<char>, FactView>,
    changed: Set<Seq<char>>,
)
    requires
        acyclic(g1),
        forall|y: Seq<char>| !changed.contains(y) ==> #[trigger] step(g1, y) == step(g2, y),
        forall|s: Seq<char>, n: nat| changed.contains(s) && n > 0 ==> #[trigger] reach(g2, s, n) != Some(s),
    ensures
        acyclic(g2),
{
    assert forall|x: Seq<char>, n: nat| n > 0 implies #[trigger] reach(g2, x, n) != Some(x) by {
        if reach(g2, x, n) == Some(x) {
            if exists|k: nat| k < n && #[trigger] reach(g2, x, k) is Some && changed.contains(
                reach(g2, x, k)->Some_0,
            ) {
                let k = choose|k: nat| k < n && #[trigger] reach(g2, x, k) is Some && changed.contains(
                    reach(g2, x, k)->Some_0,
                );
                let s = reach(g2, x, k)->Some_0;
                lemma_reach_compose(g2, x, s, k, (n - k) as nat);
                assert(reach(g2, s, (n - k) as nat) == Some(x));
                lemma_reach_compose(g2, s, x, (n - k) as nat, k);
                assert((n - k) as nat + k == n);
                assert(reach(g2, s, n) == Some(s));
            } else {
                lemma_reach_avoiding(g1, g2, changed, x, n);
            }
        }
    }
}

/// A walk of the cycle guard that ends without a revisit, with enough fuel,
/// never meets an id it started with along the chain it followed.
proof fn lemma_walk_avoids(
    vm: Map<Seq<char>, FactView>,
    es: Seq<(Seq<char>, Seq<char>)>,
    fid: Seq<char>,
    target: Seq<char>,
    g: Map<Seq<char>, FactView>,
    nodes: Seq<Seq<char>>,
    visited: Seq<Seq<char>>,
    cur: Seq<char>,
    f: nat,
)
    requires
        forall|x: Seq<char>| #[trigger] outbound(vm, es, fid, target, x) == step(g, x),
        forall|x: Seq<char>| #[trigger] step(g, x) is Some ==> nodes.contains(x),
        f >= fresh(nodes, visited) + 1,
        first_revisit(vm, es, fid, target, visited, Some(cur), f) is None,
    ensures
        forall|k: nat| #[trigger] reach(g, cur, k) is Some ==> !visited.contains(reach(g, cur, k)->Some_0),
    decreases f,
{
    assert(!visited.contains(cur));
    assert(outbound(vm, es, fid, target, cur) == step(g, cur));
    let v2 = visited.push(cur);
    assert forall|z: Seq<char>| visited.contains(z) implies v2.contains(z) by {
        let i = choose|i: int| 0 <= i < visited.len() && visited[i] == z;
        assert(v2[i] == z);
    }
    match step(g, cur) {
        None => {
            assert forall|k: nat| #[trigger] reach(g, cur, k) is Some implies !visited.contains(
                reach(g, cur, k)->Some_0,
            ) by {
                assert(k == 0);
            }
        },
        Some(y) => {
            lemma_fresh_push(nodes, visited, cur);
            lemma_walk_avoids(vm, es, fid, target, g, nodes, v2, y, (f - 1) as nat);
            assert forall|k: nat| #[trigger] reach(g, cur, k) is Some implies !visited.contains(
                reach(g, cur, k)->Some_0,
            ) by {
                if k > 0 {
                    assert(reach(g, cur, k) == reach(g, y, (k - 1) as nat));
                }
            }
        },
    }
}

/// A new edge `fid → target` that passes the cycle guard leaves no chain
/// from `fid` that comes back to it, in the graph the guard walked.
pub proof fn lemma_guard_blocks_return(
    vm: Map<Seq<char>, FactView>,
    es: Seq<(Seq<char>, Seq<char>)>,
    fid: Seq<char>,
    target: Seq<char>,
    g: Map<Seq<char>, FactView>,
    nodes: Seq<Seq<char>>,
    f: nat,
)
    requires
        forall|x: Seq<char>| #[trigger] outbound(vm, es, fid, target, x) == step(g, x),
        forall|x: Seq<char>| #[trigger] step(g, x) is Some ==> nodes.contains(x),
        nodes.contains(fid),
        nodes.len() <= f,
        first_revisit(vm, es, fid, target, seq![fid], Some(target), f) is None,
    ensures
        forall|n: nat| n > 0 ==> #[trigger] reach(g, fid, n) != Some(fid),
{
    assert(seq![fid][0] == fid);
    lemma_fresh_seen(nodes, seq![fid], fid);
    lemma_walk_avoids(vm, es, fid, target, g, nodes, seq![fid], target, f);
    assert(outbound(vm, es, fid, target, fid) == step(g, fid));
    assert forall|n: nat| n > 0 implies #[trigger] reach(g, fid, n) != Some(fid) by {
        assert(reach(g, fid, n) == reach(g, target, (n - 1) as nat));
        if reach(g, target, (n - 1) as nat) == Some(fid) {
            assert(seq![fid].contains(fid));
        }
    }
}

/// Writing a fact that passed the cross-fact check over the facts it was
/// checked against keeps them acyclic.
proof fn lemma_checked_insert_keeps_acyclic(
    fm: Map<Seq<char>, FactView>,
    bs: Map<Seq<char>, crate::narrative::BranchView>,
    fid: Seq<char>,
    cand: FactView,
    nodes: Seq<Seq<char>>,
    fuel: nat,
)
    requires
        acyclic(fm),
        refs_outcome(fm, bs, fid, cand, fuel) is Ok,
        forall|k: Seq<char>| #[trigger] fm.contains_key(k) ==> nodes.contains(k),
        nodes.contains(fid),
        nodes.len() <= fuel,
    ensures
        acyclic(fm.insert(fid, refs_outcome(fm, bs, fid, cand, fuel)->Ok_0)),
{
    let sv = refs_outcome(fm, bs, fid, cand, fuel)->Ok_0;
    let fm2 = fm.insert(fid, sv);
    let changed = set![fid];
    assert forall|y: Seq<char>| !changed.contains(y) implies #[trigger] step(fm, y) == step(fm2, y) by {
        assert(y != fid);
    }
    assert(sv.supersedes_in_frame == cand.supersedes_in_frame);
    match cand.supersedes_in_frame {
        None => {
            assert forall|s: Seq<char>, n: nat| changed.contains(s) && n > 0 implies #[trigger] reach(
                fm2,
                s,
                n,
            ) != Some(s) by {
                assert(s == fid);
                assert(step(fm2, fid) is None);
            }
        },
        Some(t) => {
            let es = Seq::<(Seq<char>, Seq<char>)>::empty();
            assert(first_revisit(fm, es, fid, t, seq![fid], Some(t), fuel) is None);
            assert forall|x: Seq<char>| #[trigger] outbound(fm, es, fid, t, x) == step(fm2, x) by {
            }
            assert forall|x: Seq<char>| #[trigger] step(fm2, x) is Some implies nodes.contains(x) by {
                if x != fid {
                    assert(fm.contains_key(x));
                }
            }
            lemma_guard_blocks_return(fm, es, fid, t, fm2, nodes, fuel);
            assert forall|s: Seq<char>, n: nat| changed.contains(s) && n > 0 implies #[trigger] reach(
                fm2,
                s,
                n,
            ) != Some(s) by {
                assert(s == fid);
            }
        },
    }
    lemma_acyclic_after_change(fm, fm2, changed);
}

proof fn lemma_store_nodes(s: AtomicStore, fid: Seq<char>) -> (nodes: Seq<Seq<char>>)
    requires
        s.wf(),
    ensures
        forall|k: Seq<char>| #[trigger] facts_v(s.narrative_facts).contains_key(k) ==> nodes.contains(k),
        nodes.contains(fid),
        nodes.len() <= walk_fuel(s.narrative_facts@.len(), 0, 0),
{
    let m = s.narrative_facts;
    m.lemma_wf();
    let nodes = seq![fid] + m.key_seq();
    assert(nodes[0] == fid);
    assert forall|k: Seq<char>| #[trigger] facts_v(m).contains_key(k) implies nodes.contains(k) by {
        assert(m@.contains_key(k));
        let i = choose|i: int| 0 <= i < m.size() && m.key_seq()[i] == k;
        assert(nodes[i + 1] == k);
    }
    nodes
}

/// Creating a fact keeps succession free of loops.
pub proof fn lemma_add_fact_keeps_acyclic(s: AtomicStore, s2: AtomicStore, e: crate::facts::FactImportView)
    requires
        s.wf(),
        acyclic(facts_v(s.narrative_facts)),
        add_fact_outcome(s, e) is Ok,
        facts_v(s2.narrative_facts) == (if add_fact_outcome(s, e)->Ok_0.0 {
            facts_v(s.narrative_facts).insert(add_fact_outcome(s, e)->Ok_0.1, add_fact_outcome(s, e)->Ok_0.2)
        } else {
            facts_v(s.narrative_facts)
        }),
    ensures
        acyclic(facts_v(s2.narrative_facts)),
{
    let (fid, cand) = crate::facts::fact_outcome(crate::registry::narr_of(s), e)->Ok_0;
    let nodes = lemma_store_nodes(s, fid);
    if add_fact_outcome(s, e)->Ok_0.0 {
        lemma_checked_insert_keeps_acyclic(
            facts_v(s.narrative_facts),
            crate::registry::branches_v(s.branches),
            fid,
            cand,
            nodes,
            walk_fuel(s.narrative_facts@.len(), 0, 0),
        );
    }
}

/// Amending a fact keeps succession free of loops.
pub proof fn lemma_amend_keeps_acyclic(
    s: AtomicStore,
    s2: AtomicStore,
    e: crate::facts::FactImportView,
    reason: Seq<char>,
)
    requires
        s.wf(),
        acyclic(facts_v(s.narrative_facts)),
        amend_outcome(s, e, reason) is Ok,
        facts_v(s2.narrative_facts) == facts_v(s.narrative_facts).insert(
            amend_outcome(s, e, reason)->Ok_0.1,
            amend_outcome(s, e, reason)->Ok_0.2,
        ),
    ensures
        acyclic(facts_v(s2.narrative_facts)),
{
    let (fid, cand) = crate::facts::fact_outcome(crate::registry::narr_of(s), e)->Ok_0;
    let nodes = lemma_store_nodes(s, fid);
    lemma_checked_insert_keeps_acyclic(
        facts_v(s.narrative_facts),
        crate::registry::branches_v(s.branches),
        fid,
        cand,
        nodes,
        walk_fuel(s.narrative_facts@.len(), 0, 0),
    );
}

/// Removing facts, or changing facts without touching their succession
/// edges, keeps succession free of loops.
pub proof fn lemma_fewer_edges_keep_acyclic(fm: Map<Seq<char>, FactView>, fm2: Map<Seq<char>, FactView>)
    requires
        acyclic(fm),
        forall|k: Seq<char>| #[trigger] fm2.contains_key(k) ==> fm.contains_key(k)
            && fm2[k].supersedes_in_frame == fm[k].supersedes_in_frame,
    ensures
        acyclic(fm2),
{
    assert forall|x: Seq<char>, n: nat| n > 0 implies #[trigger] reach(fm2, x, n) != Some(x) by {
        lemma_reach_sub(fm, fm2, x, n);
    }
}

proof fn lemma_reach_sub(fm: Map<Seq<char>, FactView>, fm2: Map<Seq<char>, FactView>, x: Seq<char>, n: nat)
    requires
        forall|k: Seq<char>| #[trigger] fm2.contains_key(k) ==> fm.contains_key(k)
            && fm2[k].supersedes_in_frame == fm[k].supersedes_in_frame,
    ensures
        reach(fm2, x, n) is Some ==> reach(fm, x, n) == reach(fm2, x, n),
    decreases n,
{
    if n > 0 {
        match step(fm2, x) {
            Some(y) => {
                assert(fm2.contains_key(x));
                lemma_reach_sub(fm, fm2, y, (n - 1) as nat);
            },
            None => {},
        }
    }
}

/// Retracting a fact keeps succession free of loops.
pub proof fn lemma_retract_keeps_acyclic(fm: Map<Seq<char>, FactView>, id: Seq<char>)
    requires
        acyclic(fm),
    ensures
        acyclic(fm.remove(id)),
{
    lemma_fewer_edges_keep_acyclic(fm, fm.remove(id));
}

/// Recording a conflict edge keeps succession free of loops.
pub proof fn lemma_conflict_keeps_acyclic(fm: Map<Seq<char>, FactView>, id: Seq<char>, edge: (Seq<char>, Seq<char>))
    requires
        acyclic(fm),
        fm.contains_key(id),
    ensures
        acyclic(fm.insert(id, FactView { conflicts_with: fm[id].conflicts_with.push(edge), ..fm[id] })),
{
    lemma_fewer_edges_keep_acyclic(
        fm,
        fm.insert(id, FactView { conflicts_with: fm[id].conflicts_with.push(edge), ..fm[id] }),
    );
}

proof fn lemma_with_legs_edges(fm: Map<Seq<char>, FactView>, legs: Seq<(Seq<char>, crate::narrative::TypedView)>)
    requires
        forall|i: int| 0 <= i < legs.len() ==> fm.contains_key((#[trigger] legs[i]).0),
    ensures
        crate::proposals::with_legs(fm, legs).dom() == fm.dom(),
        forall|k: Seq<char>| #[trigger] crate::proposals::with_legs(fm, legs).contains_key(k) ==> fm.contains_key(k)
            && crate::proposals::with_legs(fm, legs)[k].supersedes_in_frame == fm[k].supersedes_in_frame,
    decreases legs.len(),
{
    if legs.len() > 0 {
        let t = legs.drop_last();
        assert forall|i: int| 0 <= i < t.len() implies fm.contains_key((#[trigger] t[i]).0) by {
            assert(t[i] == legs[i]);
        }
        lemma_with_legs_edges(fm, t);
        assert(fm.contains_key(legs[legs.len() - 1].0));
        let prev = crate::proposals::with_legs(fm, t);
        let cur = crate::proposals::with_legs(fm, legs);
        assert(cur.dom() =~= prev.dom());
        assert forall|k: Seq<char>| #[trigger] cur.contains_key(k) implies fm.contains_key(k)
            && cur[k].supersedes_in_frame == fm[k].supersedes_in_frame by {
            assert(prev.contains_key(k));
        }
    }
}

/// Importing typing proposals keeps succession free of loops: a typed leg
/// adds no succession edge.
pub proof fn lemma_typing_import_keeps_acyclic(
    s: AtomicStore,
    ps: Seq<(Seq<char>, crate::narrative::TypedView, Seq<char>, Seq<char>)>,
)
    requires
        acyclic(facts_v(s.narrative_facts)),
    ensures
        acyclic(crate::proposals::with_legs(facts_v(s.narrative_facts), crate::proposals::typing_legs(s, ps, ps.len()))),
{
    crate::integrity::lemma_typing_legs_in(s, ps, ps.len());
    lemma_with_legs_edges(facts_v(s.narrative_facts), crate::proposals::typing_legs(s, ps, ps.len()));
    lemma_fewer_edges_keep_acyclic(
        facts_v(s.narrative_facts),
        crate::proposals::with_legs(facts_v(s.narrative_facts), crate::proposals::typing_legs(s, ps, ps.len())),
    );
}

// ---------------------------------------------------------------------------
// Succession edges from proposals.
// ---------------------------------------------------------------------------
/// The edges of `es` leave distinct facts.
pub open spec fn distinct_sources(es: Seq<(Seq<char>, Seq<char>)>) -> bool {
    forall|a: int, b: int| 0 <= a < b < es.len() ==> (#[trigger] es[a]).0 != (#[trigger] es[b]).0
}

proof fn lemma_edge_of(es: Seq<(Seq<char>, Seq<char>)>, x: Seq<char>)
    requires
        distinct_sources(es),
    ensures
        edge_of(es, x) is None <==> (forall|a: int| 0 <= a < es.len() ==> (#[trigger] es[a]).0 != x),
        forall|a: int| 0 <= a < es.len() && (#[trigger] es[a]).0 == x ==> edge_of(es, x) == Some(es[a].1),
    decreases es.len(),
{
    if es.len() > 0 {
        let t = es.drop_first();
        assert forall|a: int, b: int| 0 <= a < b < t.len() implies (#[trigger] t[a]).0 != (#[trigger] t[b]).0 by {
            assert(t[a] == es[a + 1] && t[b] == es[b + 1]);
        }
        lemma_edge_of(t, x);
        assert forall|a: int| 0 <= a < t.len() implies (#[trigger] t[a]) == es[a + 1] by {}
        if es[0].0 != x {
            assert forall|a: int| 0 <= a < es.len() && (#[trigger] es[a]).0 == x implies edge_of(es, x) == Some(es[a].1) by {
                assert(a > 0);
                assert(t[a - 1] == es[a]);
            }
            if edge_of(es, x) is None {
                assert forall|a: int| 0 <= a < es.len() implies (#[trigger] es[a]).0 != x by {
                    if a > 0 {
                        assert(t[a - 1] == es[a]);
                    }
                }
            } else {
                let a = choose|a: int| 0 <= a < t.len() && (#[trigger] t[a]).0 == x;
                assert(es[a + 1] == t[a]);
            }
        }
    }
}

proof fn lemma_with_successions_at(fm: Map<Seq<char>, FactView>, es: Seq<(Seq<char>, Seq<char>)>, x: Seq<char>)
    requires
        distinct_sources(es),
        forall|a: int| 0 <= a < es.len() ==> fm.contains_key((#[trigger] es[a]).0),
    ensures
        with_successions(fm, es).dom() == fm.dom(),
        (forall|a: int| 0 <= a < es.len() ==> (#[trigger] es[a]).0 != x) ==> with_successions(fm, es).contains_key(x)
            == fm.contains_key(x) && (fm.contains_key(x) ==> with_successions(fm, es)[x] == fm[x]),
        forall|a: int|
            0 <= a < es.len() && (#[trigger] es[a]).0 == x ==> with_successions(fm, es)[x].supersedes_in_frame
                == Some(es[a].1),
    decreases es.len(),
{
    if es.len() > 0 {
        let t = es.drop_last();
        assert forall|a: int, b: int| 0 <= a < b < t.len() implies (#[trigger] t[a]).0 != (#[trigger] t[b]).0 by {
            assert(t[a] == es[a] && t[b] == es[b]);
        }
        assert forall|a: int| 0 <= a < t.len() implies fm.contains_key((#[trigger] t[a]).0) by {
            assert(t[a] == es[a]);
        }
        lemma_with_successions_at(fm, t, x);
        let last = es[es.len() - 1];
        assert(es.last() == last);
        assert(fm.contains_key(last.0));
        let prev = with_successions(fm, t);
        assert(with_successions(fm, es).dom() =~= prev.dom());
        assert forall|a: int| 0 <= a < es.len() && (#[trigger] es[a]).0 == x implies with_successions(
            fm,
            es,
        )[x].supersedes_in_frame == Some(es[a].1) by {
            if a < es.len() - 1 {
                assert(t[a] == es[a]);
                assert(es[a].0 != last.0);
            }
        }
        if forall|a: int| 0 <= a < es.len() ==> (#[trigger] es[a]).0 != x {
            assert(last.0 != x);
            assert forall|a: int| 0 <= a < t.len() implies (#[trigger] t[a]).0 != x by {
                assert(t[a] == es[a]);
            }
        }
    }
}

/// Every accepted succession edge up to `n` comes from a well-formed
/// proposal before `n`, their sources are distinct facts of the store, and
/// their targets are facts of the store.
proof fn lemma_succession_edges_shape(
    fm: Map<Seq<char>, FactView>,
    bs: Map<Seq<char>, crate::narrative::BranchView>,
    ps: Seq<EdgeV>,
    n: nat,
)
    requires
        n <= ps.len(),
    ensures
        distinct_sources(succession_edges(fm, bs, ps, n)),
        forall|a: int|
            0 <= a < succession_edges(fm, bs, ps, n).len() ==> {
                let e = #[trigger] succession_edges(fm, bs, ps, n)[a];
                &&& fm.contains_key(e.0)
                &&& fm.contains_key(e.1)
                &&& exists|j: int| 0 <= j < n && names_successor(ps, j) && crate::text::trim_seq(ps[j].0) == e.0
            },
    decreases n,
{
    if n > 0 {
        lemma_succession_edges_shape(fm, bs, ps, (n - 1) as nat);
        let prev = succession_edges(fm, bs, ps, (n - 1) as nat);
        let cur = succession_edges(fm, bs, ps, n);
        if succession_verdict(fm, bs, ps, n - 1, prev) is Ok {
            let sn = crate::text::trim_seq(ps[n - 1].0);
            assert(names_successor(ps, n - 1));
            assert forall|a: int| 0 <= a < prev.len() implies (#[trigger] prev[a]).0 != sn by {
                let j = choose|j: int|
                    0 <= j < n - 1 && names_successor(ps, j) && crate::text::trim_seq(ps[j].0) == prev[a].0;
                if prev[a].0 == sn {
                    assert(crate::text::trim_seq(ps[j].0) == sn);
                }
            }
            assert forall|a: int, b: int| 0 <= a < b < cur.len() implies (#[trigger] cur[a]).0 != (#[trigger] cur[b]).0 by {
                assert(cur[a] == prev[a]);
                if b < prev.len() {
                    assert(cur[b] == prev[b]);
                }
            }
            assert forall|a: int| 0 <= a < cur.len() implies {
                let e = #[trigger] cur[a];
                &&& fm.contains_key(e.0)
                &&& fm.contains_key(e.1)
                &&& exists|j: int| 0 <= j < n && names_successor(ps, j) && crate::text::trim_seq(ps[j].0) == e.0
            } by {
                if a < prev.len() {
                    assert(cur[a] == prev[a]);
                    let j = choose|j: int|
                        0 <= j < n - 1 && names_successor(ps, j) && crate::text::trim_seq(ps[j].0) == prev[a].0;
                    assert(0 <= j < n);
                } else {
                    assert(names_successor(ps, n - 1));
                }
            }
        }
    }
}

/// Importing succession proposals keeps succession free of loops: each
/// accepted edge passed the cycle guard over the store's facts with every
/// edge accepted before it laid over them.
pub proof fn lemma_succession_import_keeps_acyclic(
    fm: Map<Seq<char>, FactView>,
    bs: Map<Seq<char>, crate::narrative::BranchView>,
    ps: Seq<EdgeV>,
    n: nat,
)
    requires
        fm.dom().finite(),
        acyclic(fm),
        n <= ps.len(),
    ensures
        acyclic(with_successions(fm, succession_edges(fm, bs, ps, n))),
    decreases n,
{
    if n > 0 {
        lemma_succession_import_keeps_acyclic(fm, bs, ps, (n - 1) as nat);
        let prev = succession_edges(fm, bs, ps, (n - 1) as nat);
        let cur = succession_edges(fm, bs, ps, n);
        lemma_succession_edges_shape(fm, bs, ps, (n - 1) as nat);
        lemma_succession_edges_shape(fm, bs, ps, n);
        if succession_verdict(fm, bs, ps, n - 1, prev) is Ok {
            let sn = crate::text::trim_seq(ps[n - 1].0);
            let pn = crate::text::trim_seq(ps[n - 1].1);
            let g0 = with_successions(fm, prev);
            let g1 = with_successions(fm, cur);
            assert(cur.drop_last() =~= prev);
            assert(cur.last() == (sn, pn));
            assert(g1 == g0.insert(sn, FactView { supersedes_in_frame: Some(pn), ..g0[sn] }));
            let fuel = walk_fuel(fm.dom().len(), 0, prev.len());
            assert(first_revisit(fm, prev, sn, pn, seq![sn], Some(pn), fuel) is None);
            assert forall|a: int| 0 <= a < prev.len() implies (#[trigger] prev[a]).0 != sn by {
                assert(cur[a] == prev[a]);
                assert(cur[prev.len() as int] == (sn, pn));
            }
            assert forall|a: int| 0 <= a < prev.len() implies fm.contains_key((#[trigger] prev[a]).0) by {}
            assert forall|x: Seq<char>| #[trigger] outbound(fm, prev, sn, pn, x) == step(g1, x) by {
                lemma_edge_of(prev, x);
                lemma_with_successions_at(fm, prev, x);
                if x != sn {
                    if exists|a: int| 0 <= a < prev.len() && (#[trigger] prev[a]).0 == x {
                        let a = choose|a: int| 0 <= a < prev.len() && (#[trigger] prev[a]).0 == x;
                        assert(fm.contains_key(x));
                    }
                }
            }
            crate::manifest_laws::lemma_to_seq_len(fm.dom());
            let nodes = seq![sn] + fm.dom().to_seq();
            assert(nodes[0] == sn);
            lemma_with_successions_at(fm, cur, sn);
            assert forall|x: Seq<char>| #[trigger] step(g1, x) is Some implies nodes.contains(x) by {
                assert(g1.dom() == fm.dom());
                assert(fm.dom().contains(x));
                let i = choose|i: int| 0 <= i < fm.dom().to_seq().len() && fm.dom().to_seq()[i] == x;
                assert(nodes[i + 1] == x);
            }
            lemma_guard_blocks_return(fm, prev, sn, pn, g1, nodes, fuel);
            let changed = set![sn];
            assert forall|y: Seq<char>| !changed.contains(y) implies #[trigger] step(g0, y) == step(g1, y) by {
                assert(y != sn);
            }
            lemma_acyclic_after_change(g0, g1, changed);
        }
    }
}


proof fn lemma_with_conflicts_edges(fm: Map<Seq<char>, FactView>, pairs: Seq<(Seq<char>, Seq<char>)>)
    requires
        forall|i: int| 0 <= i < pairs.len() ==> fm.contains_key((#[trigger] pairs[i]).0),
    ensures
        crate::proposals::with_conflicts(fm, pairs).dom() == fm.dom(),
        forall|k: Seq<char>| #[trigger] crate::proposals::with_conflicts(fm, pairs).contains_key(k) ==> fm.contains_key(k)
            && crate::proposals::with_conflicts(fm, pairs)[k].supersedes_in_frame == fm[k].supersedes_in_frame,
    decreases pairs.len(),
{
    if pairs.len() > 0 {
        let t = pairs.drop_last();
        assert forall|i: int| 0 <= i < t.len() implies fm.contains_key((#[trigger] t[i]).0) by {
            assert(t[i] == pairs[i]);
        }
        lemma_with_conflicts_edges(fm, t);
        assert(fm.contains_key(pairs[pairs.len() - 1].0));
        let prev = crate::proposals::with_conflicts(fm, t);
        let cur = crate::proposals::with_conflicts(fm, pairs);
        assert(cur.dom() =~= prev.dom());
        assert forall|k: Seq<char>| #[trigger] cur.contains_key(k) implies fm.contains_key(k)
            && cur[k].supersedes_in_frame == fm[k].supersedes_in_frame by {
            assert(prev.contains_key(k));
        }
    }
}

/// Importing edge proposals keeps succession free of loops: the accepted
/// succession edges were each checked by the cycle guard, and conflict
/// edges add no succession edge.
pub proof fn lemma_edge_import_keeps_acyclic(
    fm: Map<Seq<char>, FactView>,
    bs: Map<Seq<char>, crate::narrative::BranchView>,
    sp: Seq<EdgeV>,
    cp: Seq<EdgeV>,
)
    requires
        fm.dom().finite(),
        acyclic(fm),
    ensures
        acyclic(
            crate::proposals::with_conflicts(
                with_successions(fm, succession_edges(fm, bs, sp, sp.len())),
                crate::proposals::conflict_applies(fm, cp, cp.len()),
            ),
        ),
{
    let edges = succession_edges(fm, bs, sp, sp.len());
    let pairs = crate::proposals::conflict_applies(fm, cp, cp.len());
    lemma_succession_import_keeps_acyclic(fm, bs, sp, sp.len());
    lemma_succession_edges_shape(fm, bs, sp, sp.len());
    crate::integrity::lemma_conflict_applies_in(fm, cp, cp.len());
    let g = with_successions(fm, edges);
    lemma_with_successions_at(fm, edges, Seq::empty());
    assert forall|i: int| 0 <= i < pairs.len() implies g.contains_key((#[trigger] pairs[i]).0) by {
        assert(fm.contains_key(pairs[i].0));
    }
    lemma_with_conflicts_edges(g, pairs);
    lemma_fewer_edges_keep_acyclic(g, crate::proposals::with_conflicts(g, pairs));
}

/// Pointing successors at predecessors touches no claim.
proof fn lemma_with_successions_claims(
    fm: Map<Seq<char>, FactView>,
    es: Seq<(Seq<char>, Seq<char>)>,
    x: Seq<char>,
)
    requires
        fm.contains_key(x),
        forall|a: int| 0 <= a < es.len() ==> fm.contains_key((#[trigger] es[a]).0),
    ensures
        with_successions(fm, es).contains_key(x),
        with_successions(fm, es)[x].claim == fm[x].claim,
    decreases es.len(),
{
    if es.len() > 0 {
        let t = es.drop_last();
        assert forall|a: int| 0 <= a < t.len() implies fm.contains_key((#[trigger] t[a]).0) by {
            assert(t[a] == es[a]);
        }
        lemma_with_successions_claims(fm, t, x);
        lemma_with_successions_claims(fm, t, es.last().0);
    }
}

/// Appending conflict assertions keeps the ids, every claim and every
/// succession pointer, and leaves each appended assertion in place, pinned
/// to its target's claim.
proof fn lemma_with_conflicts_records(g: Map<Seq<char>, FactView>, pairs: Seq<(Seq<char>, Seq<char>)>)
    requires
        forall|i: int|
            0 <= i < pairs.len() ==> g.contains_key((#[trigger] pairs[i]).0) && g.contains_key(pairs[i].1),
    ensures
        with_conflicts(g, pairs).dom() == g.dom(),
        forall|x: Seq<char>|
            #[trigger] g.contains_key(x) ==> with_conflicts(g, pairs)[x].claim == g[x].claim
                && with_conflicts(g, pairs)[x].supersedes_in_frame == g[x].supersedes_in_frame,
        forall|i: int|
            0 <= i < pairs.len() ==> with_conflicts(g, pairs)[(#[trigger] pairs[i]).0].conflicts_with.contains(
                (pairs[i].1, sha256_hex_of(g[pairs[i].1].claim)),
            ),
    decreases pairs.len(),
{
    if pairs.len() > 0 {
        let t = pairs.drop_last();
        assert forall|i: int| 0 <= i < t.len() implies g.contains_key((#[trigger] t[i]).0) && g.contains_key(
            t[i].1,
        ) by {
            assert(t[i] == pairs[i]);
        }
        lemma_with_conflicts_records(g, t);
        let prev = with_conflicts(g, t);
        let (f, tg) = pairs.last();
        assert(g.contains_key(f) && g.contains_key(tg));
        let nv = FactView {
            conflicts_with: prev[f].conflicts_with.push((tg, sha256_hex_of(prev[tg].claim))),
            ..prev[f]
        };
        let cur = with_conflicts(g, pairs);
        assert(cur == prev.insert(f, nv));
        assert(cur.dom() =~= g.dom());
        assert forall|i: int| 0 <= i < pairs.len() implies cur[(#[trigger] pairs[i]).0].conflicts_with.contains(
            (pairs[i].1, sha256_hex_of(g[pairs[i].1].claim)),
        ) by {
            let item = (pairs[i].1, sha256_hex_of(g[pairs[i].1].claim));
            if i == pairs.len() - 1 {
                assert(nv.conflicts_with[nv.conflicts_with.len() - 1] == item);
            } else {
                assert(t[i] == pairs[i]);
                assert(prev[t[i].0].conflicts_with.contains(item));
                if pairs[i].0 == f {
                    let k = choose|k: int| 0 <= k < prev[f].conflicts_with.len() && prev[f].conflicts_with[k] == item;
                    assert(nv.conflicts_with[k] == item);
                }
            }
        }
    }
}

/// An applied edge import records every edge it accepted: each accepted
/// successor points at its predecessor, and each accepted conflict stands
/// on its fact, pinned to the SHA-256 of its target's claim.
pub proof fn lemma_edge_import_records_accepted_edges(
    fm: Map<Seq<char>, FactView>,
    bs: Map<Seq<char>, crate::narrative::BranchView>,
    sp: Seq<EdgeV>,
    cp: Seq<EdgeV>,
)
    ensures
        ({
            let edges = succession_edges(fm, bs, sp, sp.len());
            let pairs = crate::proposals::conflict_applies(fm, cp, cp.len());
            let fin = crate::proposals::with_conflicts(with_successions(fm, edges), pairs);
            &&& forall|a: int|
                0 <= a < edges.len() ==> fin.contains_key((#[trigger] edges[a]).0)
                    && fin[edges[a].0].supersedes_in_frame == Some(edges[a].1)
            &&& forall|i: int|
                0 <= i < pairs.len() ==> fin.contains_key((#[trigger] pairs[i]).0)
                    && fin[pairs[i].0].conflicts_with.contains(
                    (pairs[i].1, sha256_hex_of(fm[pairs[i].1].claim)),
                )
        }),
{
    let edges = succession_edges(fm, bs, sp, sp.len());
    let pairs = crate::proposals::conflict_applies(fm, cp, cp.len());
    lemma_succession_edges_shape(fm, bs, sp, sp.len());
    crate::integrity::lemma_conflict_applies_in(fm, cp, cp.len());
    let g = with_successions(fm, edges);
    lemma_with_successions_at(fm, edges, Seq::empty());
    assert forall|i: int| 0 <= i < pairs.len() implies g.contains_key((#[trigger] pairs[i]).0)
        && g.contains_key(pairs[i].1) by {
        assert(fm.contains_key(pairs[i].0) && fm.contains_key(pairs[i].1));
    }
    lemma_with_conflicts_records(g, pairs);
    let fin = crate::proposals::with_conflicts(g, pairs);
    assert forall|a: int| 0 <= a < edges.len() implies fin.contains_key((#[trigger] edges[a]).0)
        && fin[edges[a].0].supersedes_in_frame == Some(edges[a].1) by {
        lemma_with_successions_at(fm, edges, edges[a].0);
        assert(g.contains_key(edges[a].0));
    }
    assert forall|i: int| 0 <= i < pairs.len() implies fin.contains_key((#[trigger] pairs[i]).0)
        && fin[pairs[i].0].conflicts_with.contains((pairs[i].1, sha256_hex_of(fm[pairs[i].1].claim))) by {
        assert(fm.contains_key(pairs[i].1));
        lemma_with_successions_claims(fm, edges, pairs[i].1);
    }
}

/// Every succession proposal judged accepted is among the applied edges.
proof fn lemma_accepted_successions_applied(
    fm: Map<Seq<char>, FactView>,
    bs: Map<Seq<char>, crate::narrative::BranchView>,
    ps: Seq<EdgeV>,
    n: nat,
)
    requires
        n <= ps.len(),
    ensures
        forall|i: int|
            0 <= i < n && #[trigger] succession_verdict(fm, bs, ps, i, succession_edges(fm, bs, ps, i as nat))
                is Ok ==> succession_edges(fm, bs, ps, n).contains(
                (crate::text::trim_seq(ps[i].0), crate::text::trim_seq(ps[i].1)),
            ),
    decreases n,
{
    if n > 0 {
        lemma_accepted_successions_applied(fm, bs, ps, (n - 1) as nat);
        let prev = succession_edges(fm, bs, ps, (n - 1) as nat);
        let cur = succession_edges(fm, bs, ps, n);
        assert forall|i: int|
            0 <= i < n && #[trigger] succession_verdict(fm, bs, ps, i, succession_edges(fm, bs, ps, i as nat))
                is Ok implies cur.contains((crate::text::trim_seq(ps[i].0), crate::text::trim_seq(ps[i].1))) by {
            let e = (crate::text::trim_seq(ps[i].0), crate::text::trim_seq(ps[i].1));
            if i < n - 1 {
                assert(prev.contains(e));
                let k = choose|k: int| 0 <= k < prev.len() && prev[k] == e;
                if succession_verdict(fm, bs, ps, n - 1, prev) is Ok {
                    assert(cur[k] == e);
                }
            } else {
                assert(cur[cur.len() - 1] == e);
            }
        }
    }
}

/// Every conflict proposal judged accepted is among the applied pairs.
proof fn lemma_accepted_conflicts_applied(fm: Map<Seq<char>, FactView>, ps: Seq<EdgeV>, n: nat)
    requires
        n <= ps.len(),
    ensures
        forall|i: int|
            0 <= i < n && #[trigger] crate::proposals::conflict_verdict(fm, ps, i) is Ok
                ==> crate::proposals::conflict_applies(fm, ps, n).contains(
                (crate::text::trim_seq(ps[i].0), crate::text::trim_seq(ps[i].1)),
            ),
    decreases n,
{
    if n > 0 {
        lemma_accepted_conflicts_applied(fm, ps, (n - 1) as nat);
        let prev = crate::proposals::conflict_applies(fm, ps, (n - 1) as nat);
        let cur = crate::proposals::conflict_applies(fm, ps, n);
        assert forall|i: int|
            0 <= i < n && #[trigger] crate::proposals::conflict_verdict(fm, ps, i) is Ok implies cur.contains(
                (crate::text::trim_seq(ps[i].0), crate::text::trim_seq(ps[i].1)),
            ) by {
            let e = (crate::text::trim_seq(ps[i].0), crate::text::trim_seq(ps[i].1));
            if i < n - 1 {
                assert(prev.contains(e));
                let k = choose|k: int| 0 <= k < prev.len() && prev[k] == e;
                if crate::proposals::conflict_verdict(fm, ps, n - 1) is Ok {
                    assert(cur[k] == e);
                }
            } else {
                assert(cur[cur.len() - 1] == e);
            }
        }
    }
}

/// What an applied edge import leaves, proposal by proposal: the succession
/// chains stay acyclic; each succession proposal whose verdict is
/// "accepted" has its successor pointing at its predecessor; each accepted
/// conflict proposal stands on its fact, pinned to the SHA-256 of its
/// target's claim as the store holds it afterwards.
pub proof fn lemma_edge_import_applies_accepted_proposals(
    fm: Map<Seq<char>, FactView>,
    bs: Map<Seq<char>, crate::narrative::BranchView>,
    sp: Seq<EdgeV>,
    cp: Seq<EdgeV>,
)
    requires
        fm.dom().finite(),
        acyclic(fm),
    ensures
        ({
            let fin = with_conflicts(
                with_successions(fm, succession_edges(fm, bs, sp, sp.len())),
                crate::proposals::conflict_applies(fm, cp, cp.len()),
            );
            &&& acyclic(fin)
            &&& forall|i: int|
                0 <= i < sp.len() && #[trigger] succession_verdict(
                    fm,
                    bs,
                    sp,
                    i,
                    succession_edges(fm, bs, sp, i as nat),
                ) is Ok ==> fin.contains_key(crate::text::trim_seq(sp[i].0))
                    && fin[crate::text::trim_seq(sp[i].0)].supersedes_in_frame == Some(
                    crate::text::trim_seq(sp[i].1),
                )
            &&& forall|i: int|
                0 <= i < cp.len() && #[trigger] crate::proposals::conflict_verdict(fm, cp, i) is Ok
                    ==> fin.contains_key(crate::text::trim_seq(cp[i].0))
                    && fin.contains_key(crate::text::trim_seq(cp[i].1))
                    && fin[crate::text::trim_seq(cp[i].0)].conflicts_with.contains(
                    (
                        crate::text::trim_seq(cp[i].1),
                        sha256_hex_of(fin[crate::text::trim_seq(cp[i].1)].claim),
                    ),
                )
        }),
{
    let edges = succession_edges(fm, bs, sp, sp.len());
    let pairs = crate::proposals::conflict_applies(fm, cp, cp.len());
    let g = with_successions(fm, edges);
    let fin = with_conflicts(g, pairs);
    lemma_edge_import_keeps_acyclic(fm, bs, sp, cp);
    lemma_edge_import_records_accepted_edges(fm, bs, sp, cp);
    lemma_accepted_successions_applied(fm, bs, sp, sp.len());
    lemma_accepted_conflicts_applied(fm, cp, cp.len());
    lemma_succession_edges_shape(fm, bs, sp, sp.len());
    crate::integrity::lemma_conflict_applies_in(fm, cp, cp.len());
    lemma_with_successions_at(fm, edges, Seq::empty());
    assert forall|i: int| 0 <= i < pairs.len() implies g.contains_key((#[trigger] pairs[i]).0)
        && g.contains_key(pairs[i].1) by {
        assert(fm.contains_key(pairs[i].0) && fm.contains_key(pairs[i].1));
    }
    lemma_with_conflicts_records(g, pairs);
    assert forall|i: int|
        0 <= i < sp.len() && #[trigger] succession_verdict(fm, bs, sp, i, succession_edges(fm, bs, sp, i as nat))
            is Ok implies fin.contains_key(crate::text::trim_seq(sp[i].0))
        && fin[crate::text::trim_seq(sp[i].0)].supersedes_in_frame == Some(crate::text::trim_seq(sp[i].1)) by {
        let e = (crate::text::trim_seq(sp[i].0), crate::text::trim_seq(sp[i].1));
        assert(edges.contains(e));
        let a = choose|a: int| 0 <= a < edges.len() && edges[a] == e;
        assert(fin.contains_key(edges[a].0));
    }
    assert forall|i: int|
        0 <= i < cp.len() && #[trigger] crate::proposals::conflict_verdict(fm, cp, i) is Ok implies fin.contains_key(
        crate::text::trim_seq(cp[i].0),
    ) && fin.contains_key(crate::text::trim_seq(cp[i].1)) && fin[crate::text::trim_seq(cp[i].0)].conflicts_with.contains(
        (crate::text::trim_seq(cp[i].1), sha256_hex_of(fin[crate::text::trim_seq(cp[i].1)].claim)),
    ) by {
        let e = (crate::text::trim_seq(cp[i].0), crate::text::trim_seq(cp[i].1));
        assert(pairs.contains(e));
        let a = choose|a: int| 0 <= a < pairs.len() && pairs[a] == e;
        assert(fm.contains_key(e.1));
        lemma_with_successions_claims(fm, edges, e.1);
        assert(g.contains_key(e.1));
        assert(fin[e.1].claim == g[e.1].claim);
        assert(fin.contains_key(pairs[a].0));
    }
}

} // verus!
