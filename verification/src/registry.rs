//! The narrative registries — frames, world-lines, entities, predicates —
//! and the one staging verdict they share: absent creates, identical is a
//! no-op, divergent is refused. Also the world-line lineage.
use vstd::prelude::*;
use crate::error::{AtomicMutateError, Refusal, refusal};
use crate::model::AtomicStore;
use crate::narrative::{
    main_branch, main_branch_id, Branch, BranchFork, BranchView, Entity, Frame, Predicate,
    PredicateObjectKind, SameValue, object_kind_of,
};
use crate::order::str_eq;
use crate::strmap::StrMap;
use crate::text::{cat3, trim, trim_seq};

verus! {

/// The entries of a registry, by value.
pub open spec fn reg_v<T: DeepView>(m: StrMap<T>) -> Map<Seq<char>, T::V> {
    m@.map_values(|x: T| x.deep_view())
}

/// The narrative axis of a store by value, with the section ids canon
/// coordinates are checked against.
pub struct NarrState {
    pub sections: Set<Seq<char>>,
    pub frames: Map<Seq<char>, Seq<char>>,
    pub branches: Map<Seq<char>, BranchView>,
    pub entities: Map<Seq<char>, (Seq<char>, Seq<char>)>,
    pub predicates: Map<Seq<char>, (PredicateObjectKind, Seq<char>)>,
    pub facts: Map<Seq<char>, crate::narrative::FactView>,
    pub plans: Map<Seq<char>, crate::narrative::PlanView>,
}

/// The narrative axis of a store by value.
pub open spec fn narr_of(s: AtomicStore) -> NarrState {
    NarrState {
        sections: s.sections@.dom(),
        frames: reg_v(s.frames),
        branches: reg_v(s.branches),
        entities: reg_v(s.entities),
        predicates: reg_v(s.predicates),
        facts: reg_v(s.narrative_facts),
        plans: reg_v(s.disclosure_plans),
    }
}

/// What the narrative axis by value says of the store's maps.
pub proof fn lemma_narr_of(s: AtomicStore)
    ensures
        narr_of(s).sections == s.sections@.dom(),
        narr_of(s).frames.dom() == s.frames@.dom(),
        narr_of(s).branches.dom() == s.branches@.dom(),
        narr_of(s).entities.dom() == s.entities@.dom(),
        narr_of(s).predicates.dom() == s.predicates@.dom(),
        narr_of(s).facts.dom() == s.narrative_facts@.dom(),
        narr_of(s).plans.dom() == s.disclosure_plans@.dom(),
        forall|p: Seq<char>|
            #[trigger] s.predicates@.contains_key(p) ==> narr_of(s).predicates[p].0
                == s.predicates@[p].object_kind,
{
    assert(narr_of(s).frames.dom() =~= s.frames@.dom());
    assert(narr_of(s).branches.dom() =~= s.branches@.dom());
    assert(narr_of(s).entities.dom() =~= s.entities@.dom());
    assert(narr_of(s).predicates.dom() =~= s.predicates@.dom());
    assert(narr_of(s).facts.dom() =~= s.narrative_facts@.dom());
    assert(narr_of(s).plans.dom() =~= s.disclosure_plans@.dom());
}

/// The world-lines of a registry, by value.
pub open spec fn branches_v(m: StrMap<Branch>) -> Map<Seq<char>, BranchView> {
    reg_v(m)
}

/// A registry after staging `v` under `id`: with it when created, as it was
/// otherwise.
pub open spec fn staged<V>(m: Map<Seq<char>, V>, id: Seq<char>, v: V, created: bool) -> Map<Seq<char>, V> {
    if created {
        m.insert(id, v)
    } else {
        m
    }
}

/// Whether `b` names a world-line: the default one or a registered one.
pub open spec fn known_world(dom: Set<Seq<char>>, b: Seq<char>) -> bool {
    b == main_branch_id() || dom.contains(b)
}

/// Whether `b` names the default world-line or a registered one.
pub fn is_known_world(branches: &StrMap<Branch>, b: &str) -> (r: bool)
    ensures
        r == known_world(branches@.dom(), b@),
{
    branches.establish_wf();
    str_eq(b, main_branch()) || branches.contains_key(b)
}

/// The parents of a world-line: its fork parent, then its confluence parents.
pub open spec fn parents(b: BranchView) -> Seq<Seq<char>> {
    let f: Seq<Seq<char>> = match b.forks_from {
        Some(p) => seq![p.0],
        None => Seq::empty(),
    };
    f + b.converges_from.map_values(|c: (Seq<char>, Seq<char>)| c.0)
}

/// Whether `target` is `from` or reachable from it in at most `n` steps from
/// a registered world-line to one of its parents.
pub open spec fn inherits_within(
    bs: Map<Seq<char>, BranchView>,
    from: Seq<char>,
    target: Seq<char>,
    n: nat,
) -> bool
    decreases n, 0nat,
{
    if from == target {
        true
    } else if n == 0 || !bs.contains_key(from) {
        false
    } else {
        any_inherits(bs, parents(bs[from]), target, (n - 1) as nat)
    }
}

/// Whether some world-line of `ps` reaches `target` within `n` steps.
pub open spec fn any_inherits(
    bs: Map<Seq<char>, BranchView>,
    ps: Seq<Seq<char>>,
    target: Seq<char>,
    n: nat,
) -> bool
    decreases n, ps.len() + 1,
{
    if ps.len() == 0 {
        false
    } else {
        inherits_within(bs, ps[0], target, n) || any_inherits(bs, ps.drop_first(), target, n)
    }
}

proof fn lemma_any_inherits(bs: Map<Seq<char>, BranchView>, ps: Seq<Seq<char>>, target: Seq<char>, n: nat)
    ensures
        any_inherits(bs, ps, target, n) <==> exists|i: int|
            0 <= i < ps.len() && #[trigger] inherits_within(bs, ps[i], target, n),
    decreases ps.len(),
{
    if ps.len() > 0 {
        let rest = ps.drop_first();
        lemma_any_inherits(bs, rest, target, n);
        assert(any_inherits(bs, ps, target, n) == (inherits_within(bs, ps[0], target, n)
            || any_inherits(bs, rest, target, n)));
        if inherits_within(bs, ps[0], target, n) {
            assert(0 <= 0 < ps.len() && inherits_within(bs, ps[0], target, n));
        } else if any_inherits(bs, rest, target, n) {
            let j = choose|j: int| 0 <= j < rest.len() && #[trigger] inherits_within(bs, rest[j], target, n);
            assert(ps[j + 1] == rest[j]);
            assert(0 <= j + 1 < ps.len() && inherits_within(bs, ps[j + 1], target, n));
        } else {
            assert forall|i: int| 0 <= i < ps.len() implies !#[trigger] inherits_within(
                bs,
                ps[i],
                target,
                n,
            ) by {
                if i > 0 {
                    assert(rest[i - 1] == ps[i]);
                }
            }
        }
    }
}

/// Whether the world-line `branch` inherits the beliefs of `target`: it is
/// `target`, or `target` is an ancestor through fork and confluence edges,
/// within as many steps as there are registered world-lines.
pub open spec fn inherits(bs: Map<Seq<char>, BranchView>, branch: Seq<char>, target: Seq<char>) -> bool {
    inherits_within(bs, branch, target, bs.dom().len())
}

fn inherits_search(branches: &StrMap<Branch>, from: &str, target: &str, n: usize) -> (r: bool)
    requires
        branches.wf(),
    ensures
        r == inherits_within(branches_v(*branches), from@, target@, n as nat),
    decreases n,
{
    let ghost bs = branches_v(*branches);
    if str_eq(from, target) {
        return true;
    }
    if n == 0 {
        return false;
    }
    match branches.get(from) {
        None => false,
        Some(b) => {
            let ghost ps = parents(b.deep_view());
            assert(bs.contains_key(from@) && bs[from@] == b.deep_view());
            let mut k: usize = 0;
            if let Some(f) = &b.forks_from {
                assert(ps[0] == f.branch@);
                if inherits_search(branches, f.branch.as_str(), target, n - 1) {
                    assert(inherits_within(bs, ps[0], target@, (n - 1) as nat));
                    proof {
                        lemma_any_inherits(bs, ps, target@, (n - 1) as nat);
                    }
                    return true;
                }
                k = 1;
            }
            let mut i: usize = 0;
            while i < b.converges_from.len()
                invariant
                    branches.wf(),
                    bs == branches_v(*branches),
                    ps == parents(b.deep_view()),
                    n > 0,
                    from@ != target@,
                    bs.contains_key(from@),
                    bs[from@] == b.deep_view(),
                    i <= b.converges_from.len(),
                    k == (if b.forks_from is Some { 1int } else { 0int }),
                    ps.len() == k + b.converges_from.len(),
                    forall|j: int|
                        0 <= j < k + i ==> !#[trigger] inherits_within(
                            bs,
                            ps[j],
                            target@,
                            (n - 1) as nat,
                        ),
                decreases b.converges_from.len() - i,
            {
                assert(ps[k + i] == b.converges_from@[i as int].branch@);
                if inherits_search(branches, b.converges_from[i].branch.as_str(), target, n - 1) {
                    assert(inherits_within(bs, ps[k + i], target@, (n - 1) as nat));
                    proof {
                        lemma_any_inherits(bs, ps, target@, (n - 1) as nat);
                    }
                    return true;
                }
                i = i + 1;
            }
            proof {
                lemma_any_inherits(bs, ps, target@, (n - 1) as nat);
            }
            false
        },
    }
}

/// Whether the world-line `branch` inherits the beliefs of `target` (see
/// [`inherits`]).
pub fn succession_branch_inherits(branches: &StrMap<Branch>, branch: &str, target: &str) -> (r: bool)
    ensures
        r == inherits(branches_v(*branches), branch@, target@),
{
    branches.establish_wf();
    proof {
        branches.lemma_wf();
        assert(branches_v(*branches).dom() =~= branches@.dom());
    }
    inherits_search(branches, branch, target, branches.len())
}

// ---------------------------------------------------------------------------
// Staging.
// ---------------------------------------------------------------------------
/// The verdict of staging `cand` under `id`: `Ok(true)` creates, `Ok(false)`
/// is an identical re-registration, anything else is refused.
pub open spec fn stage_outcome<V>(
    m: Map<Seq<char>, V>,
    context: Seq<char>,
    kind: Seq<char>,
    id: Seq<char>,
    cand: V,
) -> Result<bool, Seq<char>> {
    if id.len() == 0 {
        Err(context + ": "@ + kind + "_id mandatory (non-empty after trim)"@)
    } else if !m.contains_key(id) {
        Ok(true)
    } else if m[id] == cand {
        Ok(false)
    } else {
        Err(
            context + ": "@ + kind + " `"@ + id
                + "` already exists with DIVERGENT content — refusing silent overwrite"@,
        )
    }
}

/// Registering the same entry twice leaves the second registration a
/// no-op: whether the first created the entry or found it identical, the
/// second finds it identical and changes nothing, whatever its context
/// (`add_frame`, `add_entity`, `add_predicate`, `add_branch`, or a manifest
/// registry entry).
pub proof fn lemma_reregistration_is_noop<V>(
    m: Map<Seq<char>, V>,
    context: Seq<char>,
    context2: Seq<char>,
    kind: Seq<char>,
    id: Seq<char>,
    cand: V,
)
    requires
        stage_outcome(m, context, kind, id, cand) is Ok,
    ensures
        ({
            let m1 = staged(m, id, cand, stage_outcome(m, context, kind, id, cand)->Ok_0);
            &&& stage_outcome(m1, context2, kind, id, cand) == Ok::<bool, Seq<char>>(false)
            &&& staged(m1, id, cand, false) == m1
        }),
{
}

/// Stage one registry entry: create it when absent, accept an identical
/// re-registration as a no-op, refuse a divergent one. `id` arrives trimmed.
pub fn stage_registry_entry<T: SameValue>(
    map: &mut StrMap<T>,
    context: &str,
    kind: &str,
    id: &str,
    candidate: T,
) -> (r: Result<bool, String>)
    ensures
        final(map).wf(),
        match r {
            Ok(c) => stage_outcome(reg_v(*old(map)), context@, kind@, id@, candidate.deep_view()) == Ok::<
                _,
                Seq<char>,
            >(c) && final(map)@ == staged(old(map)@, id@, candidate, c) && reg_v(*final(map))
                == staged(reg_v(*old(map)), id@, candidate.deep_view(), c),
            Err(m) => stage_outcome(reg_v(*old(map)), context@, kind@, id@, candidate.deep_view()) == Err::<
                bool,
                _,
            >(m@) && *final(map) == *old(map),
        },
{
    map.establish_wf();
    if id.unicode_len() == 0 {
        let mut m = cat3(context, ": ", kind);
        m.append("_id mandatory (non-empty after trim)");
        return Err(m);
    }
    let ghost cv = candidate.deep_view();
    let same = match map.get(id) {
        None => {
            map.insert(id.to_owned(), candidate);
            assert(reg_v(*map) =~= reg_v(*old(map)).insert(id@, cv));
            return Ok(true);
        },
        Some(existing) => existing.same_value(&candidate),
    };
    if same {
        Ok(false)
    } else {
        let mut m = cat3(context, ": ", kind);
        m.append(" `");
        m.append(id);
        m.append("` already exists with DIVERGENT content — refusing silent overwrite");
        Err(m)
    }
}

/// Whether `e` is the validation refusal a verdict names.
pub open spec fn refused_as<T>(v: Result<T, Seq<char>>, e: AtomicMutateError) -> bool {
    match v {
        Err(m) => refusal(e) == Refusal::Validation(m),
        Ok(_) => false,
    }
}

// ---------------------------------------------------------------------------
// Frames.
// ---------------------------------------------------------------------------
/// Register one epistemic frame under its trimmed id, with its trimmed
/// description. `Ok(true)` created it; `Ok(false)` found it identical.
pub fn add_frame(store: &mut AtomicStore, frame_id: &str, description: &str) -> (r: Result<
    bool,
    AtomicMutateError,
>)
    ensures
        final(store).wf(),
        ({
            let id = trim_seq(frame_id@);
            let v = stage_outcome(reg_v(old(store).frames), "add_frame"@, "frame"@, id, trim_seq(description@));
            match r {
                Ok(c) => v == Ok::<_, Seq<char>>(c) && reg_v(final(store).frames) == staged(
                    reg_v(old(store).frames),
                    id,
                    trim_seq(description@),
                    c,
                ) && *final(store) == (AtomicStore { frames: final(store).frames, ..*old(store) }),
                Err(e) => *final(store) == *old(store) && refused_as(v, e),
            }
        }),
{
    store.establish_wf();
    let id = trim(frame_id);
    let candidate = Frame { description: trim(description) };
    match stage_registry_entry(&mut store.frames, "add_frame", "frame", id.as_str(), candidate) {
        Ok(c) => Ok(c),
        Err(m) => Err(AtomicMutateError::Validation(m)),
    }
}

} // verus!

verus! {

// ---------------------------------------------------------------------------
// Entities and predicates.
// ---------------------------------------------------------------------------
/// Register one narrative entity under its trimmed id, with its trimmed kind
/// and description. `Ok(true)` created it; `Ok(false)` found it identical.
pub fn add_entity(store: &mut AtomicStore, entity_id: &str, kind: &str, description: &str) -> (r:
    Result<bool, AtomicMutateError>)
    ensures
        final(store).wf(),
        ({
            let id = trim_seq(entity_id@);
            let cand = (trim_seq(kind@), trim_seq(description@));
            let v = stage_outcome(reg_v(old(store).entities), "add_entity"@, "entity"@, id, cand);
            match r {
                Ok(c) => v == Ok::<_, Seq<char>>(c) && reg_v(final(store).entities) == staged(
                    reg_v(old(store).entities),
                    id,
                    cand,
                    c,
                ) && *final(store) == (AtomicStore { entities: final(store).entities, ..*old(store) }),
                Err(e) => *final(store) == *old(store) && refused_as(v, e),
            }
        }),
{
    store.establish_wf();
    let id = trim(entity_id);
    let candidate = Entity { kind: trim(kind), description: trim(description) };
    match stage_registry_entry(&mut store.entities, "add_entity", "entity", id.as_str(), candidate) {
        Ok(c) => Ok(c),
        Err(m) => Err(AtomicMutateError::Validation(m)),
    }
}

/// The predicate a declaration builds: its object kind parsed from the
/// trimmed tag, its description trimmed.
pub open spec fn predicate_outcome(context: Seq<char>, object_kind: Seq<char>, description: Seq<char>) -> Result<
    (PredicateObjectKind, Seq<char>),
    Seq<char>,
> {
    let tag = trim_seq(object_kind);
    match object_kind_of(tag) {
        None => Err(
            context + ": unknown object_kind `"@ + tag + "` (expected one of: entity, scalar)"@,
        ),
        Some(k) => Ok((k, trim_seq(description))),
    }
}

/// Parse one predicate declaration into its registry value; an unknown
/// object-kind tag is refused.
pub fn build_predicate(context: &str, object_kind: &str, description: &str) -> (r: Result<
    Predicate,
    String,
>)
    ensures
        match r {
            Ok(p) => predicate_outcome(context@, object_kind@, description@) == Ok::<_, Seq<char>>(
                p.deep_view(),
            ),
            Err(m) => predicate_outcome(context@, object_kind@, description@) == Err::<
                (PredicateObjectKind, Seq<char>),
                _,
            >(m@),
        },
{
    let tag = trim(object_kind);
    match PredicateObjectKind::from_tag(tag.as_str()) {
        None => {
            let mut m = cat3(context, ": unknown object_kind `", tag.as_str());
            m.append("` (expected one of: entity, scalar)");
            Err(m)
        },
        Some(k) => Ok(Predicate { object_kind: k, description: trim(description) }),
    }
}

/// Whether a predicate registration is refused before staging, or what
/// staging it gives.
pub open spec fn add_predicate_outcome(
    m: Map<Seq<char>, (PredicateObjectKind, Seq<char>)>,
    predicate_id: Seq<char>,
    object_kind: Seq<char>,
    description: Seq<char>,
) -> Result<bool, Seq<char>> {
    match predicate_outcome("add_predicate"@, object_kind, description) {
        Err(e) => Err(e),
        Ok(p) => stage_outcome(m, "add_predicate"@, "predicate"@, trim_seq(predicate_id), p),
    }
}

/// Register one predicate under its trimmed id. `Ok(true)` created it;
/// `Ok(false)` found it identical.
pub fn add_predicate(
    store: &mut AtomicStore,
    predicate_id: &str,
    object_kind: &str,
    description: &str,
) -> (r: Result<bool, AtomicMutateError>)
    ensures
        final(store).wf(),
        ({
            let v = add_predicate_outcome(
                reg_v(old(store).predicates),
                predicate_id@,
                object_kind@,
                description@,
            );
            match r {
                Ok(c) => v == Ok::<_, Seq<char>>(c) && reg_v(final(store).predicates) == staged(
                    reg_v(old(store).predicates),
                    trim_seq(predicate_id@),
                    predicate_outcome("add_predicate"@, object_kind@, description@)->Ok_0,
                    c,
                ) && *final(store) == (AtomicStore {
                    predicates: final(store).predicates,
                    ..*old(store)
                }),
                Err(e) => *final(store) == *old(store) && refused_as(v, e),
            }
        }),
{
    store.establish_wf();
    let id = trim(predicate_id);
    let candidate = match build_predicate("add_predicate", object_kind, description) {
        Ok(p) => p,
        Err(m) => {
            return Err(AtomicMutateError::Validation(m));
        },
    };
    match stage_registry_entry(
        &mut store.predicates,
        "add_predicate",
        "predicate",
        id.as_str(),
        candidate,
    ) {
        Ok(c) => Ok(c),
        Err(m) => Err(AtomicMutateError::Validation(m)),
    }
}

} // verus!

verus! {

// ---------------------------------------------------------------------------
// World-lines.
// ---------------------------------------------------------------------------
/// The characters of an optional pair of texts.
pub open spec fn pair_opt_v(p: Option<(&str, &str)>) -> Option<(Seq<char>, Seq<char>)> {
    match p {
        Some((a, b)) => Some((a@, b@)),
        None => None,
    }
}

/// The characters of a list of pairs of texts.
pub open spec fn pairs_v(s: Seq<(&str, &str)>) -> Seq<(Seq<char>, Seq<char>)> {
    s.map_values(|x: (&str, &str)| (x.0@, x.1@))
}

/// The fork edge a declaration builds for world-line `id`, or its refusal.
/// `secs` holds the section ids, `bdom` the registered world-lines.
pub open spec fn fork_outcome(
    secs: Set<Seq<char>>,
    bdom: Set<Seq<char>>,
    id: Seq<char>,
    fork: Option<(Seq<char>, Seq<char>)>,
) -> Result<Option<(Seq<char>, Seq<char>)>, Seq<char>> {
    match fork {
        None => Ok(None),
        Some((p0, a0)) => {
            let p = trim_seq(p0);
            let a = trim_seq(a0);
            if p.len() == 0 || a.len() == 0 {
                Err("branch `"@ + id + "`: forks_from needs both a parent branch and a canon point"@)
            } else if p == id {
                Err("branch `"@ + id + "`: cannot fork from itself"@)
            } else if !known_world(bdom, p) {
                Err(
                    "branch `"@ + id + "`: fork parent `"@ + p
                        + "` not present in the branch registry (register parents first; fail-loud)"@,
                )
            } else if !secs.contains(a) {
                Err(
                    "branch `"@ + id + "`: fork point `"@ + a
                        + "` not present as a section (canon coordinates are structure refs)"@,
                )
            } else {
                Ok(Some((p, a)))
            }
        },
    }
}

/// The parents named by a list of edges.
pub open spec fn edge_parents(s: Seq<(Seq<char>, Seq<char>)>) -> Seq<Seq<char>> {
    s.map_values(|e: (Seq<char>, Seq<char>)| e.0)
}

/// The first `n` confluence edges as built, or the refusal of the first
/// that breaks a rule.
pub open spec fn converge_prefix(
    secs: Set<Seq<char>>,
    bdom: Set<Seq<char>>,
    id: Seq<char>,
    pairs: Seq<(Seq<char>, Seq<char>)>,
    n: nat,
) -> Result<Seq<(Seq<char>, Seq<char>)>, Seq<char>>
    decreases n,
{
    if n == 0 {
        Ok(Seq::empty())
    } else {
        match converge_prefix(secs, bdom, id, pairs, (n - 1) as nat) {
            Err(m) => Err(m),
            Ok(acc) => {
                let p = trim_seq(pairs[n - 1].0);
                let a = trim_seq(pairs[n - 1].1);
                if p.len() == 0 || a.len() == 0 {
                    Err(
                        "branch `"@ + id
                            + "`: converges_from needs both a parent branch and a canon point"@,
                    )
                } else if p == id {
                    Err("branch `"@ + id + "`: cannot converge from itself"@)
                } else if !known_world(bdom, p) {
                    Err(
                        "branch `"@ + id + "`: converge parent `"@ + p
                            + "` not present in the branch registry (register parents first; fail-loud)"@,
                    )
                } else if !secs.contains(a) {
                    Err(
                        "branch `"@ + id + "`: converge point `"@ + a
                            + "` not present as a section (canon coordinates are structure refs)"@,
                    )
                } else if edge_parents(acc).contains(p) {
                    Err(
                        "branch `"@ + id + "`: converges_from names parent `"@ + p
                            + "` more than once"@,
                    )
                } else {
                    Ok(acc.push((p, a)))
                }
            },
        }
    }
}

proof fn lemma_converge_err_persists(
    secs: Set<Seq<char>>,
    bdom: Set<Seq<char>>,
    id: Seq<char>,
    pairs: Seq<(Seq<char>, Seq<char>)>,
    i: nat,
    n: nat,
)
    requires
        i <= n,
        converge_prefix(secs, bdom, id, pairs, i) is Err,
    ensures
        converge_prefix(secs, bdom, id, pairs, n) == converge_prefix(secs, bdom, id, pairs, i),
    decreases n - i,
{
    if i < n {
        lemma_converge_err_persists(secs, bdom, id, pairs, i, (n - 1) as nat);
    }
}

/// The confluence edges a declaration builds for world-line `id`: none, or
/// two or more distinct parents.
pub open spec fn converges_outcome(
    secs: Set<Seq<char>>,
    bdom: Set<Seq<char>>,
    id: Seq<char>,
    pairs: Seq<(Seq<char>, Seq<char>)>,
) -> Result<Seq<(Seq<char>, Seq<char>)>, Seq<char>> {
    if pairs.len() == 0 {
        Ok(Seq::empty())
    } else if pairs.len() < 2 {
        Err(
            "branch `"@ + id
                + "`: a confluence merges ≥ 2 parent world-lines; converges_from names only 1 (a 1-parent merge is just a fork)"@,
        )
    } else {
        converge_prefix(secs, bdom, id, pairs, pairs.len())
    }
}

/// The world-line a declaration builds: a fork-child or a confluence,
/// never both.
pub open spec fn branch_outcome(
    secs: Set<Seq<char>>,
    bdom: Set<Seq<char>>,
    id: Seq<char>,
    description: Seq<char>,
    fork: Option<(Seq<char>, Seq<char>)>,
    pairs: Seq<(Seq<char>, Seq<char>)>,
) -> Result<BranchView, Seq<char>> {
    if fork is Some && pairs.len() > 0 {
        Err(
            "branch `"@ + id
                + "`: a world-line is either a fork-child (forks_from) or a confluence (converges_from), never both"@,
        )
    } else {
        match fork_outcome(secs, bdom, id, fork) {
            Err(m) => Err(m),
            Ok(f) => match converges_outcome(secs, bdom, id, pairs) {
                Err(m) => Err(m),
                Ok(c) => Ok(
                    BranchView { description: trim_seq(description), forks_from: f, converges_from: c },
                ),
            },
        }
    }
}

/// Validate and shape one fork declaration of world-line `branch_id`.
pub fn build_branch_fork(store: &AtomicStore, branch_id: &str, forks_from: Option<(&str, &str)>) -> (r:
    Result<Option<BranchFork>, String>)
    ensures
        ({
            let v = fork_outcome(
                store.sections@.dom(),
                store.branches@.dom(),
                branch_id@,
                pair_opt_v(forks_from),
            );
            match r {
                Ok(f) => v == Ok::<_, Seq<char>>(f.deep_view()),
                Err(m) => v == Err::<Option<(Seq<char>, Seq<char>)>, _>(m@),
            }
        }),
{
    store.establish_wf();
    let (parent_raw, at_raw) = match forks_from {
        None => {
            return Ok(None);
        },
        Some(x) => x,
    };
    let parent = trim(parent_raw);
    let at = trim(at_raw);
    if parent.as_str().unicode_len() == 0 || at.as_str().unicode_len() == 0 {
        let mut m = cat3("branch `", branch_id, "`: forks_from needs both a parent branch and a canon point");
        return Err(m);
    }
    if str_eq(parent.as_str(), branch_id) {
        return Err(cat3("branch `", branch_id, "`: cannot fork from itself"));
    }
    if !is_known_world(&store.branches, parent.as_str()) {
        let mut m = cat3("branch `", branch_id, "`: fork parent `");
        m.append(parent.as_str());
        m.append("` not present in the branch registry (register parents first; fail-loud)");
        return Err(m);
    }
    if !store.sections.contains_key(at.as_str()) {
        let mut m = cat3("branch `", branch_id, "`: fork point `");
        m.append(at.as_str());
        m.append("` not present as a section (canon coordinates are structure refs)");
        return Err(m);
    }
    Ok(Some(BranchFork { branch: parent, at }))
}

/// Whether some edge of `v` names `p` as its parent.
fn names_parent(v: &Vec<BranchFork>, p: &str) -> (r: bool)
    ensures
        r == edge_parents(v.deep_view()).contains(p@),
{
    let mut i: usize = 0;
    while i < v.len()
        invariant
            i <= v.len(),
            forall|j: int| 0 <= j < i ==> #[trigger] v@[j].branch@ != p@,
        decreases v.len() - i,
    {
        if str_eq(v[i].branch.as_str(), p) {
            assert(edge_parents(v.deep_view())[i as int] == p@);
            return true;
        }
        i = i + 1;
    }
    proof {
        if edge_parents(v.deep_view()).contains(p@) {
            let j = choose|j: int|
                0 <= j < edge_parents(v.deep_view()).len() && edge_parents(v.deep_view())[j] == p@;
            assert(v@[j].branch@ == p@);
        }
    }
    false
}

/// Validate the confluence edges of world-line `branch_id`: none, or two
/// or more distinct registered parents each at a section.
pub fn build_branch_converges(store: &AtomicStore, branch_id: &str, converges_from: &[(&str, &str)]) -> (r:
    Result<Vec<BranchFork>, String>)
    ensures
        ({
            let v = converges_outcome(
                store.sections@.dom(),
                store.branches@.dom(),
                branch_id@,
                pairs_v(converges_from@),
            );
            match r {
                Ok(f) => v == Ok::<_, Seq<char>>(f.deep_view()),
                Err(m) => v == Err::<Seq<(Seq<char>, Seq<char>)>, _>(m@),
            }
        }),
{
    store.establish_wf();
    let ghost secs = store.sections@.dom();
    let ghost bdom = store.branches@.dom();
    let ghost pairs = pairs_v(converges_from@);
    if converges_from.len() == 0 {
        let out: Vec<BranchFork> = Vec::new();
        assert(out.deep_view() =~= Seq::<(Seq<char>, Seq<char>)>::empty());
        return Ok(out);
    }
    if converges_from.len() < 2 {
        return Err(
            cat3(
                "branch `",
                branch_id,
                "`: a confluence merges ≥ 2 parent world-lines; converges_from names only 1 (a 1-parent merge is just a fork)",
            ),
        );
    }
    let mut out: Vec<BranchFork> = Vec::new();
    let mut i: usize = 0;
    assert(out.deep_view() =~= Seq::<(Seq<char>, Seq<char>)>::empty());
    while i < converges_from.len()
        invariant
            store.wf(),
            secs == store.sections@.dom(),
            bdom == store.branches@.dom(),
            pairs == pairs_v(converges_from@),
            pairs.len() == converges_from@.len(),
            converges_from@.len() >= 2,
            i <= converges_from@.len(),
            converge_prefix(secs, bdom, branch_id@, pairs, i as nat) == Ok::<_, Seq<char>>(
                out.deep_view(),
            ),
        decreases converges_from@.len() - i,
    {
        let (parent_raw, at_raw) = converges_from[i];
        assert(pairs[i as int] == (parent_raw@, at_raw@));
        let parent = trim(parent_raw);
        let at = trim(at_raw);
        proof {
            if converge_prefix(secs, bdom, branch_id@, pairs, (i + 1) as nat) is Err {
                lemma_converge_err_persists(
                    secs,
                    bdom,
                    branch_id@,
                    pairs,
                    (i + 1) as nat,
                    pairs.len(),
                );
            }
        }
        if parent.as_str().unicode_len() == 0 || at.as_str().unicode_len() == 0 {
            return Err(
                cat3(
                    "branch `",
                    branch_id,
                    "`: converges_from needs both a parent branch and a canon point",
                ),
            );
        }
        if str_eq(parent.as_str(), branch_id) {
            return Err(cat3("branch `", branch_id, "`: cannot converge from itself"));
        }
        if !is_known_world(&store.branches, parent.as_str()) {
            let mut m = cat3("branch `", branch_id, "`: converge parent `");
            m.append(parent.as_str());
            m.append("` not present in the branch registry (register parents first; fail-loud)");
            return Err(m);
        }
        if !store.sections.contains_key(at.as_str()) {
            let mut m = cat3("branch `", branch_id, "`: converge point `");
            m.append(at.as_str());
            m.append("` not present as a section (canon coordinates are structure refs)");
            return Err(m);
        }
        if names_parent(&out, parent.as_str()) {
            let mut m = cat3("branch `", branch_id, "`: converges_from names parent `");
            m.append(parent.as_str());
            m.append("` more than once");
            return Err(m);
        }
        let ghost before = out.deep_view();
        out.push(BranchFork { branch: parent, at });
        assert(out.deep_view() =~= before.push((trim_seq(parent_raw@), trim_seq(at_raw@))));
        i = i + 1;
    }
    Ok(out)
}

/// Build a world-line's registry value: a fork-child or a confluence, never
/// both.
pub fn build_branch_candidate(
    store: &AtomicStore,
    branch_id: &str,
    description: &str,
    forks_from: Option<(&str, &str)>,
    converges_from: &[(&str, &str)],
) -> (r: Result<Branch, String>)
    ensures
        ({
            let v = branch_outcome(
                store.sections@.dom(),
                store.branches@.dom(),
                branch_id@,
                description@,
                pair_opt_v(forks_from),
                pairs_v(converges_from@),
            );
            match r {
                Ok(b) => v == Ok::<_, Seq<char>>(b.deep_view()),
                Err(m) => v == Err::<BranchView, _>(m@),
            }
        }),
{
    store.establish_wf();
    if forks_from.is_some() && converges_from.len() > 0 {
        return Err(
            cat3(
                "branch `",
                branch_id,
                "`: a world-line is either a fork-child (forks_from) or a confluence (converges_from), never both",
            ),
        );
    }
    let f = build_branch_fork(store, branch_id, forks_from)?;
    let c = build_branch_converges(store, branch_id, converges_from)?;
    Ok(Branch { description: trim(description), forks_from: f, converges_from: c })
}

/// What registering a world-line gives: refused for a blank id or the
/// default world-line, then the declaration's verdict, then staging.
pub open spec fn add_branch_outcome(
    s: AtomicStore,
    branch_id: Seq<char>,
    description: Seq<char>,
    fork: Option<(Seq<char>, Seq<char>)>,
    pairs: Seq<(Seq<char>, Seq<char>)>,
) -> Result<bool, Seq<char>> {
    let id = trim_seq(branch_id);
    if id.len() == 0 {
        Err("add_branch: branch_id mandatory (non-empty after trim)"@)
    } else if id == main_branch_id() {
        Err(
            "add_branch: `"@ + id
                + "` is the default world-line — known by construction, never registered"@,
        )
    } else {
        match branch_outcome(s.sections@.dom(), s.branches@.dom(), id, description, fork, pairs) {
            Err(m) => Err(m),
            Ok(b) => stage_outcome(reg_v(s.branches), "add_branch"@, "branch"@, id, b),
        }
    }
}

/// Register one world-line under its trimmed id: a root, a fork of one
/// known parent, or a confluence of two or more. `Ok(true)` created it;
/// `Ok(false)` found it identical.
pub fn add_branch(
    store: &mut AtomicStore,
    branch_id: &str,
    description: &str,
    forks_from: Option<(&str, &str)>,
    converges_from: &[(&str, &str)],
) -> (r: Result<bool, AtomicMutateError>)
    ensures
        final(store).wf(),
        ({
            let id = trim_seq(branch_id@);
            let v = add_branch_outcome(
                *old(store),
                branch_id@,
                description@,
                pair_opt_v(forks_from),
                pairs_v(converges_from@),
            );
            match r {
                Ok(c) => v == Ok::<_, Seq<char>>(c) && reg_v(final(store).branches) == staged(
                    reg_v(old(store).branches),
                    id,
                    branch_outcome(
                        old(store).sections@.dom(),
                        old(store).branches@.dom(),
                        id,
                        description@,
                        pair_opt_v(forks_from),
                        pairs_v(converges_from@),
                    )->Ok_0,
                    c,
                ) && *final(store) == (AtomicStore { branches: final(store).branches, ..*old(store) }),
                Err(e) => *final(store) == *old(store) && refused_as(v, e),
            }
        }),
{
    store.establish_wf();
    let id = trim(branch_id);
    if id.as_str().unicode_len() == 0 {
        return Err(
            AtomicMutateError::Validation(
                "add_branch: branch_id mandatory (non-empty after trim)".to_owned(),
            ),
        );
    }
    if str_eq(id.as_str(), main_branch()) {
        return Err(
            AtomicMutateError::Validation(
                cat3(
                    "add_branch: `",
                    id.as_str(),
                    "` is the default world-line — known by construction, never registered",
                ),
            ),
        );
    }
    let candidate = match build_branch_candidate(
        store,
        id.as_str(),
        description,
        forks_from,
        converges_from,
    ) {
        Ok(b) => b,
        Err(m) => {
            return Err(AtomicMutateError::Validation(m));
        },
    };
    match stage_registry_entry(&mut store.branches, "add_branch", "branch", id.as_str(), candidate) {
        Ok(c) => Ok(c),
        Err(m) => Err(AtomicMutateError::Validation(m)),
    }
}

} // verus!
