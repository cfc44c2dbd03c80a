//! Cross-fact references: the facts a write can see, the one closed
//! invariant set of a succession edge (existing predecessor, same frame,
//! inherited world-line, no cycle), and the judgment pins a fact's conflict
//! assertions are stamped with.
use vstd::prelude::*;
use crate::digest::{sha256_hex, sha256_hex_of};
use crate::facts::has_str;
use crate::model::strs;
use crate::narrative::{Branch, ConflictAssertion, FactView, NarrativeFact};
use crate::order::str_eq;
use crate::registry::{branches_v, inherits, reg_v, succession_branch_inherits};
use crate::strmap::StrMap;
use crate::text::cat3;

verus! {

/// The facts of a map, by value.
pub open spec fn facts_v(m: StrMap<NarrativeFact>) -> Map<Seq<char>, FactView> {
    reg_v(m)
}

/// Staged facts by value, in staging order.
pub open spec fn staged_v(s: Seq<(String, NarrativeFact)>) -> Seq<(Seq<char>, FactView)> {
    s.map_values(|p: (String, NarrativeFact)| (p.0@, p.1.deep_view()))
}

/// `m` with the staged facts written over it in order.
pub open spec fn overlay(m: Map<Seq<char>, FactView>, s: Seq<(Seq<char>, FactView)>) -> Map<
    Seq<char>,
    FactView,
>
    decreases s.len(),
{
    if s.len() == 0 {
        m
    } else {
        overlay(m, s.drop_last()).insert(s.last().0, s.last().1)
    }
}

proof fn lemma_overlay_tail(m: Map<Seq<char>, FactView>, s: Seq<(Seq<char>, FactView)>, i: int, k: Seq<char>)
    requires
        0 <= i <= s.len(),
        forall|j: int| i <= j < s.len() ==> (#[trigger] s[j]).0 != k,
    ensures
        overlay(m, s).contains_key(k) == overlay(m, s.take(i)).contains_key(k),
        overlay(m, s).contains_key(k) ==> overlay(m, s)[k] == overlay(m, s.take(i))[k],
    decreases s.len() - i,
{
    if i < s.len() {
        let t = s.drop_last();
        assert(s.last() == s[s.len() - 1]);
        assert(t.take(i) =~= s.take(i));
        lemma_overlay_tail(m, t, i, k);
    } else {
        assert(s.take(i) =~= s);
    }
}

/// The fact `id` names among the store's facts and the staged ones, the
/// staged ones written last.
pub fn visible_get<'a>(
    facts: &'a StrMap<NarrativeFact>,
    staged: &'a Vec<(String, NarrativeFact)>,
    id: &str,
) -> (r: Option<&'a NarrativeFact>)
    ensures
        ({
            let vm = overlay(facts_v(*facts), staged_v(staged@));
            match r {
                Some(f) => vm.contains_key(id@) && f.deep_view() == vm[id@],
                None => !vm.contains_key(id@),
            }
        }),
{
    facts.establish_wf();
    let ghost m = facts_v(*facts);
    let ghost s = staged_v(staged@);
    let mut i: usize = staged.len();
    while i > 0
        invariant
            i <= staged@.len(),
            s == staged_v(staged@),
            m == facts_v(*facts),
            forall|j: int| i <= j < s.len() ==> (#[trigger] s[j]).0 != id@,
        decreases i,
    {
        i = i - 1;
        if str_eq(staged[i].0.as_str(), id) {
            proof {
                lemma_overlay_tail(m, s, i + 1, id@);
                let t = s.take(i + 1);
                assert(t.len() == i + 1);
                assert(staged@[i as int].0@ == id@);
                assert(t.drop_last() =~= s.take(i as int));
                assert(t.last() == s[i as int]);
                assert(s[i as int] == (staged@[i as int].0@, staged@[i as int].1.deep_view()));
                assert(overlay(m, t) == overlay(m, t.drop_last()).insert(t.last().0, t.last().1));
            }
            return Some(&staged[i].1);
        }
    }
    proof {
        lemma_overlay_tail(m, s, 0, id@);
        assert(s.take(0) =~= Seq::<(Seq<char>, FactView)>::empty());
    }
    match facts.get(id) {
        Some(f) => {
            assert(m.contains_key(id@) && m[id@] == f.deep_view());
            Some(f)
        },
        None => None,
    }
}

/// Staged succession edges by value, successor then predecessor.
pub open spec fn edges_v(e: Seq<(String, String)>) -> Seq<(Seq<char>, Seq<char>)> {
    e.map_values(|p: (String, String)| (p.0@, p.1@))
}

/// The predecessor the first staged edge from `id` names, if any.
pub open spec fn edge_of(es: Seq<(Seq<char>, Seq<char>)>, id: Seq<char>) -> Option<Seq<char>>
    decreases es.len(),
{
    if es.len() == 0 {
        None
    } else if es[0].0 == id {
        Some(es[0].1)
    } else {
        edge_of(es.drop_first(), id)
    }
}

fn edge_get<'a>(edges: &'a Vec<(String, String)>, id: &str) -> (r: Option<&'a String>)
    ensures
        match r {
            Some(p) => edge_of(edges_v(edges@), id@) == Some(p@),
            None => edge_of(edges_v(edges@), id@) is None,
        },
{
    let ghost es = edges_v(edges@);
    let mut i: usize = 0;
    assert(es.skip(0) =~= es);
    while i < edges.len()
        invariant
            i <= edges@.len(),
            es == edges_v(edges@),
            edge_of(es, id@) == edge_of(es.skip(i as int), id@),
        decreases edges@.len() - i,
    {
        let ghost rest = es.skip(i as int);
        assert(rest[0] == es[i as int]);
        if str_eq(edges[i].0.as_str(), id) {
            return Some(&edges[i].1);
        }
        assert(rest.drop_first() =~= es.skip(i + 1));
        i = i + 1;
    }
    assert(es.skip(i as int).len() == 0);
    None
}

/// Where the succession chain goes from `x`, with the candidate edge
/// `fid → target` and the staged edges laid over the visible facts.
pub open spec fn outbound(
    vm: Map<Seq<char>, FactView>,
    es: Seq<(Seq<char>, Seq<char>)>,
    fid: Seq<char>,
    target: Seq<char>,
    x: Seq<char>,
) -> Option<Seq<char>> {
    if x == fid {
        Some(target)
    } else if edge_of(es, x) is Some {
        edge_of(es, x)
    } else if vm.contains_key(x) {
        vm[x].supersedes_in_frame
    } else {
        None
    }
}

/// The first id the chain revisits, following it from `cur` for at most
/// `fuel` fresh steps; `None` when the chain ends first.
pub open spec fn first_revisit(
    vm: Map<Seq<char>, FactView>,
    es: Seq<(Seq<char>, Seq<char>)>,
    fid: Seq<char>,
    target: Seq<char>,
    visited: Seq<Seq<char>>,
    cur: Option<Seq<char>>,
    fuel: nat,
) -> Option<Seq<char>>
    decreases fuel,
{
    match cur {
        None => None,
        Some(x) => if visited.contains(x) {
            Some(x)
        } else if fuel == 0 {
            None
        } else {
            first_revisit(
                vm,
                es,
                fid,
                target,
                visited.push(x),
                outbound(vm, es, fid, target, x),
                (fuel - 1) as nat,
            )
        },
    }
}

/// How many entries of `nodes` are not yet visited.
pub open spec fn fresh(nodes: Seq<Seq<char>>, visited: Seq<Seq<char>>) -> nat
    decreases nodes.len(),
{
    if nodes.len() == 0 {
        0
    } else {
        fresh(nodes.drop_last(), visited) + if visited.contains(nodes.last()) {
            0nat
        } else {
            1nat
        }
    }
}

proof fn lemma_fresh_le(nodes: Seq<Seq<char>>, visited: Seq<Seq<char>>)
    ensures
        fresh(nodes, visited) <= nodes.len(),
    decreases nodes.len(),
{
    if nodes.len() > 0 {
        lemma_fresh_le(nodes.drop_last(), visited);
    }
}

/// A list holding an id already visited has fewer unvisited entries than
/// entries.
pub proof fn lemma_fresh_seen(nodes: Seq<Seq<char>>, visited: Seq<Seq<char>>, x: Seq<char>)
    requires
        nodes.contains(x),
        visited.contains(x),
    ensures
        fresh(nodes, visited) < nodes.len(),
    decreases nodes.len(),
{
    let t = nodes.drop_last();
    if nodes.last() == x {
        lemma_fresh_le(t, visited);
    } else {
        let i = choose|i: int| 0 <= i < nodes.len() && nodes[i] == x;
        assert(i < nodes.len() - 1);
        assert(t[i] == x);
        lemma_fresh_seen(t, visited, x);
    }
}

/// Visiting one more id never adds unvisited entries, and removes one when
/// the id is listed.
pub proof fn lemma_fresh_push(nodes: Seq<Seq<char>>, visited: Seq<Seq<char>>, x: Seq<char>)
    requires
        !visited.contains(x),
    ensures
        fresh(nodes, visited.push(x)) <= fresh(nodes, visited),
        nodes.contains(x) ==> fresh(nodes, visited.push(x)) < fresh(nodes, visited),
    decreases nodes.len(),
{
    if nodes.len() > 0 {
        let t = nodes.drop_last();
        lemma_fresh_push(t, visited, x);
        let l = nodes.last();
        assert(visited.push(x).contains(l) == (visited.contains(l) || l == x)) by {
            if visited.push(x).contains(l) {
                let i = choose|i: int| 0 <= i < visited.push(x).len() && visited.push(x)[i] == l;
                if i < visited.len() {
                    assert(visited[i] == l);
                }
            }
            if visited.contains(l) {
                let i = choose|i: int| 0 <= i < visited.len() && visited[i] == l;
                assert(visited.push(x)[i] == l);
            }
            if l == x {
                assert(visited.push(x)[visited.len() as int] == l);
            }
        }
        if nodes.contains(x) && l != x {
            let i = choose|i: int| 0 <= i < nodes.len() && nodes[i] == x;
            assert(t[i] == x);
        }
    }
}

proof fn lemma_walk_fuel_indep(
    vm: Map<Seq<char>, FactView>,
    es: Seq<(Seq<char>, Seq<char>)>,
    fid: Seq<char>,
    target: Seq<char>,
    nodes: Seq<Seq<char>>,
    visited: Seq<Seq<char>>,
    cur: Option<Seq<char>>,
    f1: nat,
    f2: nat,
)
    requires
        forall|x: Seq<char>| #[trigger] outbound(vm, es, fid, target, x) is Some ==> nodes.contains(x),
        f1 >= fresh(nodes, visited) + 1,
        f2 >= f1,
    ensures
        first_revisit(vm, es, fid, target, visited, cur, f1) == first_revisit(
            vm,
            es,
            fid,
            target,
            visited,
            cur,
            f2,
        ),
    decreases f1,
{
    match cur {
        None => {},
        Some(x) => {
            if !visited.contains(x) {
                let next = outbound(vm, es, fid, target, x);
                lemma_fresh_push(nodes, visited, x);
                if nodes.contains(x) {
                    lemma_walk_fuel_indep(
                        vm,
                        es,
                        fid,
                        target,
                        nodes,
                        visited.push(x),
                        next,
                        (f1 - 1) as nat,
                        (f2 - 1) as nat,
                    );
                } else {
                    assert(next is None);
                }
            }
        },
    }
}

/// The cycle guard is complete: once the fuel reaches the number of ids a
/// chain can pass through (the candidate, every staged edge's source and
/// every visible fact), more fuel changes no verdict, so a chain that
/// revisits an id at all is caught.
pub proof fn lemma_walk_fuel_suffices(
    vm: Map<Seq<char>, FactView>,
    es: Seq<(Seq<char>, Seq<char>)>,
    fid: Seq<char>,
    target: Seq<char>,
    nodes: Seq<Seq<char>>,
    f1: nat,
    f2: nat,
)
    requires
        forall|x: Seq<char>| #[trigger] outbound(vm, es, fid, target, x) is Some ==> nodes.contains(x),
        nodes.contains(fid),
        nodes.len() <= f1 <= f2,
    ensures
        first_revisit(vm, es, fid, target, seq![fid], Some(target), f1) == first_revisit(
            vm,
            es,
            fid,
            target,
            seq![fid],
            Some(target),
            f2,
        ),
{
    assert(seq![fid][0] == fid);
    lemma_fresh_seen(nodes, seq![fid], fid);
    lemma_walk_fuel_indep(vm, es, fid, target, nodes, seq![fid], Some(target), f1, f2);
}

/// The verdict on the succession edge `fid → target` of a fact in `frame`
/// on world-line `branch`: the target is visible, in the same frame, on a
/// world-line this one inherits, and the chain from `fid` does not revisit
/// an id within `fuel` steps.
pub open spec fn succession_outcome(
    vm: Map<Seq<char>, FactView>,
    bs: Map<Seq<char>, crate::narrative::BranchView>,
    es: Seq<(Seq<char>, Seq<char>)>,
    fid: Seq<char>,
    frame: Seq<char>,
    branch: Seq<char>,
    target: Seq<char>,
    fuel: nat,
) -> Result<(), Seq<char>> {
    if !vm.contains_key(target) {
        Err(
            "fact `"@ + fid + "`: supersedes_in_frame `"@ + target
                + "` not present (succession needs an existing predecessor; fail-loud)"@,
        )
    } else if vm[target].frame != frame {
        Err(
            "fact `"@ + fid + "` (frame `"@ + frame + "`): supersedes_in_frame `"@ + target
                + "` lives in frame `"@ + vm[target].frame
                + "` — in-frame succession only (cross-frame disagreement is data, not succession)"@,
        )
    } else if vm[target].branch != branch && !inherits(bs, branch, vm[target].branch) {
        Err(
            "fact `"@ + fid + "` (branch `"@ + branch + "`): supersedes_in_frame `"@ + target
                + "` lives on branch `"@ + vm[target].branch
                + "`, whose belief this world-line does not inherit — succession crosses world-lines only by inheritance (a fork inheriting an ancestor's belief, or a confluence reconciling a parent's at the merge), never between siblings (divergence is data, not succession)"@,
        )
    } else {
        match first_revisit(vm, es, fid, target, seq![fid], Some(target), fuel) {
            Some(next) => Err(
                "fact `"@ + fid + "`: supersedes_in_frame `"@ + target
                    + "` closes a succession cycle through `"@ + next
                    + "` — a fact cannot (transitively) supersede itself; in-world change is a NEW successor fact, never a loop"@,
            ),
            None => Ok(()),
        }
    }
}

/// How many fresh steps a succession walk over these collections takes at
/// most before it must revisit an id or end.
pub open spec fn walk_fuel(facts: nat, staged: nat, edges: nat) -> nat {
    facts + staged + edges + 1
}

/// Check the succession edge `fact_id → target` of a fact in `frame` on
/// world-line `branch`, against the visible facts (the store's, with the
/// staged ones over them) and the staged edges.
pub fn check_succession_edge(
    fact_id: &str,
    frame: &str,
    branch: &str,
    target: &str,
    facts: &StrMap<NarrativeFact>,
    staged: &Vec<(String, NarrativeFact)>,
    branches: &StrMap<Branch>,
    staged_edges: &Vec<(String, String)>,
) -> (r: Result<(), String>)
    ensures
        ({
            let v = succession_outcome(
                overlay(facts_v(*facts), staged_v(staged@)),
                branches_v(*branches),
                edges_v(staged_edges@),
                fact_id@,
                frame@,
                branch@,
                target@,
                walk_fuel(facts@.len(), staged@.len(), staged_edges@.len()),
            );
            match r {
                Ok(()) => v == Ok::<(), Seq<char>>(()),
                Err(m) => v == Err::<(), _>(m@),
            }
        }),
{
    facts.establish_wf();
    branches.establish_wf();
    let ghost vm = overlay(facts_v(*facts), staged_v(staged@));
    let ghost es = edges_v(staged_edges@);
    let t = match visible_get(facts, staged, target) {
        None => {
            let mut m = cat3("fact `", fact_id, "`: supersedes_in_frame `");
            m.append(target);
            m.append("` not present (succession needs an existing predecessor; fail-loud)");
            return Err(m);
        },
        Some(t) => t,
    };
    if !str_eq(t.frame.as_str(), frame) {
        let mut m = cat3("fact `", fact_id, "` (frame `");
        m.append(frame);
        m.append("`): supersedes_in_frame `");
        m.append(target);
        m.append("` lives in frame `");
        m.append(t.frame.as_str());
        m.append(
            "` — in-frame succession only (cross-frame disagreement is data, not succession)",
        );
        return Err(m);
    }
    if !str_eq(t.branch.as_str(), branch) && !succession_branch_inherits(
        branches,
        branch,
        t.branch.as_str(),
    ) {
        let mut m = cat3("fact `", fact_id, "` (branch `");
        m.append(branch);
        m.append("`): supersedes_in_frame `");
        m.append(target);
        m.append("` lives on branch `");
        m.append(t.branch.as_str());
        m.append(
            "`, whose belief this world-line does not inherit — succession crosses world-lines only by inheritance (a fork inheriting an ancestor's belief, or a confluence reconciling a parent's at the merge), never between siblings (divergence is data, not succession)",
        );
        return Err(m);
    }
    proof {
        facts.lemma_wf();
    }
    let mut fuel: u128 = facts.len() as u128 + staged.len() as u128 + staged_edges.len() as u128 + 1;
    let mut visited: Vec<String> = Vec::new();
    visited.push(fact_id.to_owned());
    let mut cur: String = target.to_owned();
    assert(strs(visited) =~= seq![fact_id@]);
    let ghost bs = branches_v(*branches);
    loop
        invariant
            facts.wf(),
            vm == overlay(facts_v(*facts), staged_v(staged@)),
            bs == branches_v(*branches),
            vm.contains_key(target@),
            vm[target@].frame == frame@,
            !(vm[target@].branch != branch@ && !inherits(bs, branch@, vm[target@].branch)),
            es == edges_v(staged_edges@),
            first_revisit(
                vm,
                es,
                fact_id@,
                target@,
                seq![fact_id@],
                Some(target@),
                walk_fuel(facts@.len(), staged@.len(), staged_edges@.len()),
            ) == first_revisit(
                vm,
                es,
                fact_id@,
                target@,
                strs(visited),
                Some(cur@),
                fuel as nat,
            ),
        decreases fuel,
    {
        let ghost seen = strs(visited);
        if has_str(&visited, cur.as_str()) {
            let mut m = cat3("fact `", fact_id, "`: supersedes_in_frame `");
            m.append(target);
            m.append("` closes a succession cycle through `");
            m.append(cur.as_str());
            m.append(
                "` — a fact cannot (transitively) supersede itself; in-world change is a NEW successor fact, never a loop",
            );
            return Err(m);
        }
        if fuel == 0 {
            return Ok(());
        }
        let next: Option<String> = if str_eq(cur.as_str(), fact_id) {
            Some(target.to_owned())
        } else {
            match edge_get(staged_edges, cur.as_str()) {
                Some(p) => Some(p.clone()),
                None => match visible_get(facts, staged, cur.as_str()) {
                    Some(f) => match &f.supersedes_in_frame {
                        Some(s) => Some(s.clone()),
                        None => None,
                    },
                    None => None,
                },
            }
        };
        let ghost nv: Option<Seq<char>> = next.deep_view();
        assert(nv == outbound(vm, es, fact_id@, target@, cur@));
        let ghost cv = cur@;
        let ghost f0 = fuel as nat;
        assert(!seen.contains(cv));
        assert(first_revisit(vm, es, fact_id@, target@, seen, Some(cv), f0) == first_revisit(
            vm,
            es,
            fact_id@,
            target@,
            seen.push(cv),
            nv,
            (f0 - 1) as nat,
        ));
        visited.push(cur);
        assert(strs(visited) =~= seen.push(cv));
        fuel = fuel - 1;
        match next {
            None => {
                return Ok(());
            },
            Some(n) => {
                cur = n;
            },
        }
    }
}

} // verus!

verus! {

// ---------------------------------------------------------------------------
// Judgment pins and cross-fact refs.
// ---------------------------------------------------------------------------
/// The first `n` conflict assertions, each pinned to its target's current
/// claim hash, or the refusal of the first whose target is not visible.
pub open spec fn stamp_prefix(
    vm: Map<Seq<char>, FactView>,
    fid: Seq<char>,
    cw: Seq<(Seq<char>, Seq<char>)>,
    n: nat,
) -> Result<Seq<(Seq<char>, Seq<char>)>, Seq<char>>
    decreases n,
{
    if n == 0 {
        Ok(Seq::empty())
    } else {
        match stamp_prefix(vm, fid, cw, (n - 1) as nat) {
            Err(m) => Err(m),
            Ok(acc) => {
                let t = cw[n - 1].0;
                if !vm.contains_key(t) {
                    Err(
                        "fact `"@ + fid + "`: conflicts_with `"@ + t
                            + "` not present (a recorded assertion needs an existing target; fail-loud)"@,
                    )
                } else {
                    Ok(acc.push((t, sha256_hex_of(vm[t].claim))))
                }
            },
        }
    }
}

/// The refusal of the first of the first `n` payoff targets that is not
/// visible, if any.
pub open spec fn pays_missing(vm: Map<Seq<char>, FactView>, fid: Seq<char>, pays: Seq<Seq<char>>, n: nat) -> Option<
    Seq<char>,
>
    decreases n,
{
    if n == 0 {
        None
    } else {
        match pays_missing(vm, fid, pays, (n - 1) as nat) {
            Some(m) => Some(m),
            None => if !vm.contains_key(pays[n - 1]) {
                Some(
                    "fact `"@ + fid + "`: pays_off `"@ + pays[n - 1]
                        + "` not present (a payoff resolves an existing setup; fail-loud). Identity ref, deliberately unpinned — like succession it relates fact identities, not wordings"@,
                )
            } else {
                None
            },
        }
    }
}

/// A fact with its cross-fact refs checked against the visible facts and
/// its conflict assertions pinned: every conflict and payoff target
/// visible, the succession edge valid.
pub open spec fn refs_outcome(
    vm: Map<Seq<char>, FactView>,
    bs: Map<Seq<char>, crate::narrative::BranchView>,
    fid: Seq<char>,
    f: FactView,
    fuel: nat,
) -> Result<FactView, Seq<char>> {
    match stamp_prefix(vm, fid, f.conflicts_with, f.conflicts_with.len()) {
        Err(m) => Err(m),
        Ok(cw) => match pays_missing(vm, fid, f.pays_off, f.pays_off.len()) {
            Some(m) => Err(m),
            None => {
                let stamped = FactView { conflicts_with: cw, ..f };
                match f.supersedes_in_frame {
                    None => Ok(stamped),
                    Some(t) => match succession_outcome(
                        vm,
                        bs,
                        Seq::empty(),
                        fid,
                        f.frame,
                        f.branch,
                        t,
                        fuel,
                    ) {
                        Err(m) => Err(m),
                        Ok(()) => Ok(stamped),
                    },
                }
            },
        },
    }
}

proof fn lemma_refs_err_persists(
    vm: Map<Seq<char>, FactView>,
    fid: Seq<char>,
    cw: Seq<(Seq<char>, Seq<char>)>,
    pays: Seq<Seq<char>>,
    i: nat,
    n: nat,
)
    requires
        i <= n,
    ensures
        stamp_prefix(vm, fid, cw, i) is Err ==> stamp_prefix(vm, fid, cw, n) == stamp_prefix(
            vm,
            fid,
            cw,
            i,
        ),
        pays_missing(vm, fid, pays, i) is Some ==> pays_missing(vm, fid, pays, n) == pays_missing(
            vm,
            fid,
            pays,
            i,
        ),
    decreases n - i,
{
    if i < n {
        lemma_refs_err_persists(vm, fid, cw, pays, i, (n - 1) as nat);
    }
}

proof fn lemma_first_revisit_same_outbound(
    vm1: Map<Seq<char>, FactView>,
    vm2: Map<Seq<char>, FactView>,
    es: Seq<(Seq<char>, Seq<char>)>,
    fid: Seq<char>,
    target: Seq<char>,
    visited: Seq<Seq<char>>,
    cur: Option<Seq<char>>,
    fuel: nat,
)
    requires
        forall|x: Seq<char>|
            #[trigger] outbound(vm1, es, fid, target, x) == outbound(vm2, es, fid, target, x),
    ensures
        first_revisit(vm1, es, fid, target, visited, cur, fuel) == first_revisit(
            vm2,
            es,
            fid,
            target,
            visited,
            cur,
            fuel,
        ),
    decreases fuel,
{
    match cur {
        None => {},
        Some(x) => {
            if !visited.contains(x) && fuel > 0 {
                assert(outbound(vm1, es, fid, target, x) == outbound(vm2, es, fid, target, x));
                lemma_first_revisit_same_outbound(
                    vm1,
                    vm2,
                    es,
                    fid,
                    target,
                    visited.push(x),
                    outbound(vm1, es, fid, target, x),
                    (fuel - 1) as nat,
                );
            }
        },
    }
}

proof fn lemma_stamp_prefix_stable(
    vm1: Map<Seq<char>, FactView>,
    vm2: Map<Seq<char>, FactView>,
    fid: Seq<char>,
    cw: Seq<(Seq<char>, Seq<char>)>,
    pays: Seq<Seq<char>>,
    n: nat,
)
    requires
        forall|k: Seq<char>| #[trigger] vm1.contains_key(k) ==> vm2.contains_key(k) && vm2[k] == vm1[k],
    ensures
        stamp_prefix(vm1, fid, cw, n) is Ok ==> stamp_prefix(vm2, fid, cw, n) == stamp_prefix(
            vm1,
            fid,
            cw,
            n,
        ),
        pays_missing(vm1, fid, pays, n) is None ==> pays_missing(vm2, fid, pays, n) is None,
    decreases n,
{
    if n > 0 {
        lemma_stamp_prefix_stable(vm1, vm2, fid, cw, pays, (n - 1) as nat);
    }
}

/// A fact's cross-fact verdict does not change when facts are added to the
/// visible ones (an entry under the fact's own id aside, which no ref may
/// name), nor with the fuel of the cycle guard once it covers every id: a
/// stamped fact stays stamped the same.
pub proof fn lemma_refs_outcome_stable(
    vm1: Map<Seq<char>, FactView>,
    vm2: Map<Seq<char>, FactView>,
    bs: Map<Seq<char>, crate::narrative::BranchView>,
    fid: Seq<char>,
    f: FactView,
    nodes: Seq<Seq<char>>,
    fuel1: nat,
    fuel2: nat,
)
    requires
        refs_outcome(vm1, bs, fid, f, fuel1) is Ok,
        forall|k: Seq<char>| #[trigger] vm1.contains_key(k) ==> vm2.contains_key(k) && vm2[k] == vm1[k],
        forall|k: Seq<char>| #[trigger] vm2.contains_key(k) && k != fid ==> vm1.contains_key(k),
        forall|k: Seq<char>| #[trigger] vm1.contains_key(k) ==> nodes.contains(k),
        nodes.contains(fid),
        nodes.len() <= fuel1,
        nodes.len() <= fuel2,
    ensures
        refs_outcome(vm2, bs, fid, f, fuel2) == refs_outcome(vm1, bs, fid, f, fuel1),
{
    let cw = f.conflicts_with;
    let pays = f.pays_off;
    lemma_stamp_prefix_stable(vm1, vm2, fid, cw, pays, cw.len());
    lemma_stamp_prefix_stable(vm1, vm2, fid, cw, pays, pays.len());
    match f.supersedes_in_frame {
        None => {},
        Some(t) => {
            let es = Seq::<(Seq<char>, Seq<char>)>::empty();
            assert forall|x: Seq<char>|
                #[trigger] outbound(vm1, es, fid, t, x) == outbound(vm2, es, fid, t, x) by {
                if x != fid {
                    if vm1.contains_key(x) {
                        assert(vm2.contains_key(x));
                    } else {
                        assert(!vm2.contains_key(x));
                    }
                }
            }
            assert forall|x: Seq<char>| #[trigger] outbound(vm1, es, fid, t, x) is Some implies nodes.contains(
                x,
            ) by {
                if x != fid {
                    assert(vm1.contains_key(x));
                }
            }
            lemma_first_revisit_same_outbound(vm1, vm2, es, fid, t, seq![fid], Some(t), fuel2);
            if fuel1 <= fuel2 {
                lemma_walk_fuel_suffices(vm1, es, fid, t, nodes, fuel1, fuel2);
            } else {
                lemma_walk_fuel_suffices(vm1, es, fid, t, nodes, fuel2, fuel1);
            }
        },
    }
}

proof fn lemma_stamp_prefix_eq(
    vm1: Map<Seq<char>, FactView>,
    vm2: Map<Seq<char>, FactView>,
    fid: Seq<char>,
    cw: Seq<(Seq<char>, Seq<char>)>,
    pays: Seq<Seq<char>>,
    n: nat,
)
    requires
        forall|k: Seq<char>|
            k != fid ==> (#[trigger] vm1.contains_key(k) == vm2.contains_key(k) && (vm1.contains_key(k)
                ==> vm1[k] == vm2[k])),
    ensures
        (forall|i: int| 0 <= i < n && i < cw.len() ==> (#[trigger] cw[i]).0 != fid) && n <= cw.len()
            ==> stamp_prefix(vm2, fid, cw, n) == stamp_prefix(vm1, fid, cw, n),
        (forall|i: int| 0 <= i < n && i < pays.len() ==> #[trigger] pays[i] != fid) && n <= pays.len()
            ==> pays_missing(vm2, fid, pays, n) == pays_missing(vm1, fid, pays, n),
    decreases n,
{
    if n > 0 {
        lemma_stamp_prefix_eq(vm1, vm2, fid, cw, pays, (n - 1) as nat);
        if n <= cw.len() {
            let t = cw[n - 1].0;
            assert(vm1.contains_key(t) == vm2.contains_key(t) || t == fid);
        }
        if n <= pays.len() {
            let t = pays[n - 1];
            assert(vm1.contains_key(t) == vm2.contains_key(t) || t == fid);
        }
    }
}

/// A fact none of whose refs names itself gets the same cross-fact verdict
/// from two sets of visible facts that differ at most under its own id, and
/// from any fuel of the cycle guard that covers every id.
pub proof fn lemma_refs_outcome_eq(
    vm1: Map<Seq<char>, FactView>,
    vm2: Map<Seq<char>, FactView>,
    bs: Map<Seq<char>, crate::narrative::BranchView>,
    fid: Seq<char>,
    f: FactView,
    nodes: Seq<Seq<char>>,
    fuel1: nat,
    fuel2: nat,
)
    requires
        forall|k: Seq<char>|
            k != fid ==> (#[trigger] vm1.contains_key(k) == vm2.contains_key(k) && (vm1.contains_key(k)
                ==> vm1[k] == vm2[k])),
        forall|i: int| 0 <= i < f.conflicts_with.len() ==> (#[trigger] f.conflicts_with[i]).0 != fid,
        forall|i: int| 0 <= i < f.pays_off.len() ==> #[trigger] f.pays_off[i] != fid,
        f.supersedes_in_frame != Some(fid),
        forall|k: Seq<char>| #[trigger] vm1.contains_key(k) ==> nodes.contains(k),
        nodes.contains(fid),
        nodes.len() <= fuel1,
        nodes.len() <= fuel2,
    ensures
        refs_outcome(vm2, bs, fid, f, fuel2) == refs_outcome(vm1, bs, fid, f, fuel1),
{
    let cw = f.conflicts_with;
    let pays = f.pays_off;
    lemma_stamp_prefix_eq(vm1, vm2, fid, cw, pays, cw.len());
    lemma_stamp_prefix_eq(vm1, vm2, fid, cw, pays, pays.len());
    match f.supersedes_in_frame {
        None => {},
        Some(t) => {
            assert(vm1.contains_key(t) == vm2.contains_key(t));
            let es = Seq::<(Seq<char>, Seq<char>)>::empty();
            assert forall|x: Seq<char>|
                #[trigger] outbound(vm1, es, fid, t, x) == outbound(vm2, es, fid, t, x) by {
                if x != fid {
                    assert(vm1.contains_key(x) == vm2.contains_key(x));
                }
            }
            assert forall|x: Seq<char>| #[trigger] outbound(vm1, es, fid, t, x) is Some implies nodes.contains(
                x,
            ) by {
                if x != fid {
                    assert(vm1.contains_key(x));
                }
            }
            lemma_first_revisit_same_outbound(vm1, vm2, es, fid, t, seq![fid], Some(t), fuel2);
            if fuel1 <= fuel2 {
                lemma_walk_fuel_suffices(vm1, es, fid, t, nodes, fuel1, fuel2);
            } else {
                lemma_walk_fuel_suffices(vm1, es, fid, t, nodes, fuel2, fuel1);
            }
        },
    }
}

/// Check a fact's cross-fact refs against the visible facts (the store's,
/// with the staged ones over them) and pin each conflict assertion to its
/// target's current claim: conflict and payoff targets must be visible, and
/// a succession edge must pass [`check_succession_edge`].
pub fn validate_and_stamp_fact_refs(
    fact_id: &str,
    fact: NarrativeFact,
    facts: &StrMap<NarrativeFact>,
    staged: &Vec<(String, NarrativeFact)>,
    branches: &StrMap<Branch>,
) -> (r: Result<NarrativeFact, String>)
    ensures
        ({
            let v = refs_outcome(
                overlay(facts_v(*facts), staged_v(staged@)),
                branches_v(*branches),
                fact_id@,
                fact.deep_view(),
                walk_fuel(facts@.len(), staged@.len(), 0),
            );
            match r {
                Ok(f) => v == Ok::<_, Seq<char>>(f.deep_view()),
                Err(m) => v == Err::<FactView, _>(m@),
            }
        }),
{
    facts.establish_wf();
    branches.establish_wf();
    let ghost vm = overlay(facts_v(*facts), staged_v(staged@));
    let ghost fv = fact.deep_view();
    let mut stamped: Vec<ConflictAssertion> = Vec::new();
    let mut i: usize = 0;
    assert(stamped.deep_view() =~= Seq::<(Seq<char>, Seq<char>)>::empty());
    while i < fact.conflicts_with.len()
        invariant
            facts.wf(),
            vm == overlay(facts_v(*facts), staged_v(staged@)),
            fv == fact.deep_view(),
            i <= fact.conflicts_with@.len(),
            stamp_prefix(vm, fact_id@, fv.conflicts_with, i as nat) == Ok::<_, Seq<char>>(
                stamped.deep_view(),
            ),
        decreases fact.conflicts_with@.len() - i,
    {
        proof {
            lemma_refs_err_persists(
                vm,
                fact_id@,
                fv.conflicts_with,
                fv.pays_off,
                (i + 1) as nat,
                fv.conflicts_with.len(),
            );
        }
        let target = fact.conflicts_with[i].target.as_str();
        assert(fv.conflicts_with[i as int].0 == target@);
        match visible_get(facts, staged, target) {
            None => {
                let mut m = cat3("fact `", fact_id, "`: conflicts_with `");
                m.append(target);
                m.append("` not present (a recorded assertion needs an existing target; fail-loud)");
                return Err(m);
            },
            Some(t) => {
                let h = sha256_hex(t.claim.as_str());
                let ghost before = stamped.deep_view();
                stamped.push(ConflictAssertion { target: target.to_owned(), target_claim_sha256: h });
                assert(stamped.deep_view() =~= before.push((target@, sha256_hex_of(vm[target@].claim))));
            },
        }
        i = i + 1;
    }
    let mut j: usize = 0;
    while j < fact.pays_off.len()
        invariant
            facts.wf(),
            vm == overlay(facts_v(*facts), staged_v(staged@)),
            fv == fact.deep_view(),
            j <= fact.pays_off@.len(),
            pays_missing(vm, fact_id@, fv.pays_off, j as nat) is None,
            stamp_prefix(vm, fact_id@, fv.conflicts_with, fv.conflicts_with.len()) == Ok::<
                _,
                Seq<char>,
            >(stamped.deep_view()),
        decreases fact.pays_off@.len() - j,
    {
        proof {
            lemma_refs_err_persists(
                vm,
                fact_id@,
                fv.conflicts_with,
                fv.pays_off,
                (j + 1) as nat,
                fv.pays_off.len(),
            );
        }
        let t = fact.pays_off[j].as_str();
        assert(fv.pays_off[j as int] == t@);
        if visible_get(facts, staged, t).is_none() {
            let mut m = cat3("fact `", fact_id, "`: pays_off `");
            m.append(t);
            m.append(
                "` not present (a payoff resolves an existing setup; fail-loud). Identity ref, deliberately unpinned — like succession it relates fact identities, not wordings",
            );
            return Err(m);
        }
        j = j + 1;
    }
    if let Some(target) = &fact.supersedes_in_frame {
        let no_edges: Vec<(String, String)> = Vec::new();
        assert(edges_v(no_edges@) =~= Seq::<(Seq<char>, Seq<char>)>::empty());
        check_succession_edge(
            fact_id,
            fact.frame.as_str(),
            fact.branch.as_str(),
            target.as_str(),
            facts,
            staged,
            branches,
            &no_edges,
        )?;
    }
    let mut fact = fact;
    fact.conflicts_with = stamped;
    Ok(fact)
}

} // verus!
