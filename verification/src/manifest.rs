//! The all-primitive facts manifest: frames, world-lines, entities,
//! predicates, facts and disclosure plans applied in that order, each kind
//! through the same cores as its standalone primitive, so that later kinds
//! may refer to earlier ones.
use vstd::prelude::*;
use crate::disclosure::{
    DecisionView, DisclosureDecision, apply_disclosure_override, apply_disclosure_plan,
    decision_v, override_outcome, plan_outcome, plans_v, surface_arg_v,
};
use crate::error::{AtomicMutateError, Refusal, refusal};
use crate::fact_ops::{divergent_msg, facts_equal};
use crate::facts::{FactImport, FactImportView, build_candidate_fact, fact_outcome};
use crate::model::{AtomicStore, ostr};
use crate::narrative::{
    Entity, FactView, Frame, NarrativeFact, OverrideView, PlanView, main_branch, main_branch_id,
    mode_of,
};
use crate::order::str_eq;
use crate::registry::{
    NarrState, branch_outcome, build_branch_candidate, build_predicate, lemma_narr_of, narr_of,
    pair_opt_v, pairs_v, predicate_outcome, reg_v, stage_outcome, stage_registry_entry,
};
use crate::succession::{facts_v, overlay, refs_outcome, staged_v, walk_fuel};
use crate::text::{cat2, cat3, decimal, owned, trim, trim_seq, usize_to_decimal};

verus! {

/// One frame of a manifest.
#[derive(Debug, Clone, PartialEq, Eq)]
pub struct FrameImport {
    pub frame_id: String,
    pub description: String,
}

/// One incoming-merge edge of a manifest world-line.
#[derive(Debug, Clone, PartialEq, Eq)]
pub struct BranchConvergeImport {
    pub branch: String,
    pub at: String,
}

/// One world-line of a manifest: both fork fields or neither, or two or
/// more confluence edges.
#[derive(Debug, Clone, PartialEq, Eq)]
pub struct BranchImport {
    pub branch_id: String,
    pub description: String,
    pub forks_from: Option<String>,
    pub forks_at: Option<String>,
    pub converges_from: Vec<BranchConvergeImport>,
}

/// One entity of a manifest.
#[derive(Debug, Clone, PartialEq, Eq)]
pub struct EntityImport {
    pub entity_id: String,
    pub kind: String,
    pub description: String,
}

/// One predicate of a manifest; `object_kind` is the canonical tag.
#[derive(Debug, Clone, PartialEq, Eq)]
pub struct PredicateImport {
    pub predicate_id: String,
    pub object_kind: String,
    pub description: String,
}

/// The surface of a manifest override.
#[derive(Debug, Clone, PartialEq, Eq)]
pub struct DisclosureSurfaceImport {
    pub scene: String,
    pub object: Option<String>,
}

/// One per-fact override of a manifest plan; `first_at` holds
/// `(branch, coord)` pins.
#[derive(Debug, Clone, PartialEq, Eq)]
pub struct DisclosureOverrideImport {
    pub fact_id: String,
    pub mode: String,
    pub first_at: Vec<(String, String)>,
    pub surface: Option<DisclosureSurfaceImport>,
}

/// One disclosure plan of a manifest; an omitted default mode reads as
/// `withhold`.
#[derive(Debug, Clone, PartialEq, Eq)]
pub struct DisclosurePlanImport {
    pub telling_id: String,
    pub default_mode: Option<String>,
    pub description: String,
    pub overrides: Vec<DisclosureOverrideImport>,
}

/// A facts manifest: every kind created in one transaction, registries
/// first, then facts, then disclosure.
#[derive(Debug, Clone)]
pub struct FactsManifest {
    pub frames: Vec<FrameImport>,
    pub branches: Vec<BranchImport>,
    pub entities: Vec<EntityImport>,
    pub predicates: Vec<PredicateImport>,
    pub facts: Vec<FactImport>,
    pub disclosure_plans: Vec<DisclosurePlanImport>,
}

/// The one-line description of a manifest's shape.
pub const FACTS_MANIFEST_SHAPE: &'static str =
    "a JSON object with frames / branches / entities / predicates / facts / disclosure_plans arrays";

/// What applying a manifest gives: the summary line, and whether anything
/// was created or changed.
#[derive(Debug, Clone)]
pub struct FactsApplyOutcome {
    pub summary: String,
    pub changed: bool,
}

/// How many entries of each kind were created (or, for overrides, set) and
/// how many were no-ops.
pub struct Counts {
    pub frames: nat,
    pub branches: nat,
    pub entities: nat,
    pub predicates: nat,
    pub facts: nat,
    pub plans: nat,
    pub overrides: nat,
    pub no_op: nat,
}

/// No entry counted yet.
pub open spec fn zero_counts() -> Counts {
    Counts {
        frames: 0,
        branches: 0,
        entities: 0,
        predicates: 0,
        facts: 0,
        plans: 0,
        overrides: 0,
        no_op: 0,
    }
}

/// Every entry counted.
pub open spec fn total(c: Counts) -> nat {
    c.frames + c.branches + c.entities + c.predicates + c.facts + c.plans + c.overrides + c.no_op
}

/// A stage's result: the state and counts after it, or the state it
/// stopped in and the refusal.
pub type StageResult = Result<(NarrState, Counts), (NarrState, Seq<char>)>;

/// The frames of a manifest by value.
pub open spec fn frames_in(v: Seq<FrameImport>) -> Seq<(Seq<char>, Seq<char>)> {
    v.map_values(|f: FrameImport| (f.frame_id@, f.description@))
}

/// The first `n` frames staged in order.
pub open spec fn frames_fold(ns: NarrState, c: Counts, fs: Seq<(Seq<char>, Seq<char>)>, n: nat) -> StageResult
    decreases n,
{
    if n == 0 {
        Ok((ns, c))
    } else {
        match frames_fold(ns, c, fs, (n - 1) as nat) {
            Err(x) => Err(x),
            Ok((s1, c1)) => {
                let ctx = "import_facts: manifest frame "@ + decimal((n - 1) as nat);
                let id = trim_seq(fs[n - 1].0);
                let d = trim_seq(fs[n - 1].1);
                match stage_outcome(s1.frames, ctx, "frame"@, id, d) {
                    Err(m) => Err((s1, m)),
                    Ok(true) => Ok(
                        (
                            NarrState { frames: s1.frames.insert(id, d), ..s1 },
                            Counts { frames: c1.frames + 1, ..c1 },
                        ),
                    ),
                    Ok(false) => Ok((s1, Counts { no_op: c1.no_op + 1, ..c1 })),
                }
            },
        }
    }
}

/// A manifest world-line by value: id, description, fork parent, fork
/// point, confluence edges.
pub type BranchImportV = (
    Seq<char>,
    Seq<char>,
    Option<Seq<char>>,
    Option<Seq<char>>,
    Seq<(Seq<char>, Seq<char>)>,
);

/// The world-lines of a manifest by value.
pub open spec fn branches_in(v: Seq<BranchImport>) -> Seq<BranchImportV> {
    v.map_values(
        |b: BranchImport|
            (
                b.branch_id@,
                b.description@,
                ostr(b.forks_from),
                ostr(b.forks_at),
                b.converges_from@.map_values(|c: BranchConvergeImport| (c.branch@, c.at@)),
            ),
    )
}

/// The fork declaration of a manifest world-line: both fields, or neither.
pub open spec fn fork_pair(b: BranchImportV) -> Option<Option<(Seq<char>, Seq<char>)>> {
    match (b.2, b.3) {
        (None, None) => Some(None),
        (Some(p), Some(a)) => Some(Some((p, a))),
        _ => None,
    }
}

/// The first `n` world-lines staged in order.
pub open spec fn branches_fold(ns: NarrState, c: Counts, bs: Seq<BranchImportV>, n: nat) -> StageResult
    decreases n,
{
    if n == 0 {
        Ok((ns, c))
    } else {
        match branches_fold(ns, c, bs, (n - 1) as nat) {
            Err(x) => Err(x),
            Ok((s1, c1)) => {
                let idx = decimal((n - 1) as nat);
                let b = bs[n - 1];
                let id = trim_seq(b.0);
                if id.len() == 0 {
                    Err(
                        (
                            s1,
                            "import_facts: manifest branch "@ + idx
                                + ": branch_id mandatory (non-empty after trim)"@,
                        ),
                    )
                } else if id == main_branch_id() {
                    Err(
                        (
                            s1,
                            "import_facts: manifest branch "@ + idx + ": `"@ + id
                                + "` is the default world-line — known by construction, never registered"@,
                        ),
                    )
                } else {
                    match fork_pair(b) {
                        None => Err(
                            (
                                s1,
                                "import_facts: manifest branch "@ + idx + " `"@ + id
                                    + "`: forks_from and forks_at must be declared together"@,
                            ),
                        ),
                        Some(fork) => match branch_outcome(
                            s1.sections,
                            s1.branches.dom(),
                            id,
                            b.1,
                            fork,
                            b.4,
                        ) {
                            Err(m) => Err((s1, m)),
                            Ok(bv) => match stage_outcome(
                                s1.branches,
                                "import_facts: manifest branch "@ + idx,
                                "branch"@,
                                id,
                                bv,
                            ) {
                                Err(m) => Err((s1, m)),
                                Ok(true) => Ok(
                                    (
                                        NarrState { branches: s1.branches.insert(id, bv), ..s1 },
                                        Counts { branches: c1.branches + 1, ..c1 },
                                    ),
                                ),
                                Ok(false) => Ok((s1, Counts { no_op: c1.no_op + 1, ..c1 })),
                            },
                        },
                    }
                }
            },
        }
    }
}

/// The entities of a manifest by value.
pub open spec fn entities_in(v: Seq<EntityImport>) -> Seq<(Seq<char>, Seq<char>, Seq<char>)> {
    v.map_values(|e: EntityImport| (e.entity_id@, e.kind@, e.description@))
}

/// The first `n` entities staged in order.
pub open spec fn entities_fold(
    ns: NarrState,
    c: Counts,
    es: Seq<(Seq<char>, Seq<char>, Seq<char>)>,
    n: nat,
) -> StageResult
    decreases n,
{
    if n == 0 {
        Ok((ns, c))
    } else {
        match entities_fold(ns, c, es, (n - 1) as nat) {
            Err(x) => Err(x),
            Ok((s1, c1)) => {
                let ctx = "import_facts: manifest entity "@ + decimal((n - 1) as nat);
                let id = trim_seq(es[n - 1].0);
                let v = (trim_seq(es[n - 1].1), trim_seq(es[n - 1].2));
                match stage_outcome(s1.entities, ctx, "entity"@, id, v) {
                    Err(m) => Err((s1, m)),
                    Ok(true) => Ok(
                        (
                            NarrState { entities: s1.entities.insert(id, v), ..s1 },
                            Counts { entities: c1.entities + 1, ..c1 },
                        ),
                    ),
                    Ok(false) => Ok((s1, Counts { no_op: c1.no_op + 1, ..c1 })),
                }
            },
        }
    }
}

/// The predicates of a manifest by value.
pub open spec fn predicates_in(v: Seq<PredicateImport>) -> Seq<(Seq<char>, Seq<char>, Seq<char>)> {
    v.map_values(|p: PredicateImport| (p.predicate_id@, p.object_kind@, p.description@))
}

/// The first `n` predicates staged in order.
pub open spec fn predicates_fold(
    ns: NarrState,
    c: Counts,
    ps: Seq<(Seq<char>, Seq<char>, Seq<char>)>,
    n: nat,
) -> StageResult
    decreases n,
{
    if n == 0 {
        Ok((ns, c))
    } else {
        match predicates_fold(ns, c, ps, (n - 1) as nat) {
            Err(x) => Err(x),
            Ok((s1, c1)) => {
                let ctx = "import_facts: manifest predicate "@ + decimal((n - 1) as nat);
                let id = trim_seq(ps[n - 1].0);
                match predicate_outcome(ctx, ps[n - 1].1, ps[n - 1].2) {
                    Err(m) => Err((s1, m)),
                    Ok(v) => match stage_outcome(s1.predicates, ctx, "predicate"@, id, v) {
                        Err(m) => Err((s1, m)),
                        Ok(true) => Ok(
                            (
                                NarrState { predicates: s1.predicates.insert(id, v), ..s1 },
                                Counts { predicates: c1.predicates + 1, ..c1 },
                            ),
                        ),
                        Ok(false) => Ok((s1, Counts { no_op: c1.no_op + 1, ..c1 })),
                    },
                }
            },
        }
    }
}

/// The ids of staged facts.
pub open spec fn staged_ids(st: Seq<(Seq<char>, FactView)>) -> Seq<Seq<char>> {
    st.map_values(|p: (Seq<char>, FactView)| p.0)
}

/// The first `n` manifest facts built against `ns`, each id once, or the
/// refusal of the first that breaks a rule.
pub open spec fn build_staged(ns: NarrState, es: Seq<FactImportView>, n: nat) -> Result<
    Seq<(Seq<char>, FactView)>,
    Seq<char>,
>
    decreases n,
{
    if n == 0 {
        Ok(Seq::empty())
    } else {
        match build_staged(ns, es, (n - 1) as nat) {
            Err(m) => Err(m),
            Ok(st) => {
                let idx = decimal((n - 1) as nat);
                match fact_outcome(ns, es[n - 1]) {
                    Err(m) => Err("import_facts: manifest fact "@ + idx + ": "@ + m),
                    Ok((fid, cand)) => if staged_ids(st).contains(fid) {
                        Err(
                            "import_facts: manifest fact "@ + idx + ": duplicate fact_id `"@ + fid
                                + "` in manifest"@,
                        )
                    } else {
                        Ok(st.push((fid, cand)))
                    },
                }
            },
        }
    }
}

/// The first `n` staged facts with their cross-fact refs checked against
/// the store's facts and the staged ones, and their conflicts pinned.
pub open spec fn stamp_staged(
    ns: NarrState,
    st: Seq<(Seq<char>, FactView)>,
    n: nat,
) -> Result<Seq<(Seq<char>, FactView)>, Seq<char>>
    decreases n,
{
    if n == 0 {
        Ok(Seq::empty())
    } else {
        match stamp_staged(ns, st, (n - 1) as nat) {
            Err(m) => Err(m),
            Ok(acc) => match refs_outcome(
                overlay(ns.facts, st),
                ns.branches,
                st[n - 1].0,
                st[n - 1].1,
                walk_fuel(ns.facts.dom().len(), st.len(), 0),
            ) {
                Err(m) => Err(m),
                Ok(sv) => Ok(acc.push((st[n - 1].0, sv))),
            },
        }
    }
}

/// The first `n` stamped facts created, accepted as no-ops, or refused as
/// divergent, in order.
pub open spec fn facts_fold(ns: NarrState, c: Counts, st: Seq<(Seq<char>, FactView)>, n: nat) -> StageResult
    decreases n,
{
    if n == 0 {
        Ok((ns, c))
    } else {
        match facts_fold(ns, c, st, (n - 1) as nat) {
            Err(x) => Err(x),
            Ok((s1, c1)) => {
                let (fid, cand) = st[n - 1];
                if !s1.facts.contains_key(fid) {
                    Ok(
                        (
                            NarrState { facts: s1.facts.insert(fid, cand), ..s1 },
                            Counts { facts: c1.facts + 1, ..c1 },
                        ),
                    )
                } else if s1.facts[fid] == cand {
                    Ok((s1, Counts { no_op: c1.no_op + 1, ..c1 }))
                } else {
                    Err((s1, divergent_msg("import_facts"@, fid, s1.facts[fid], cand)))
                }
            },
        }
    }
}

/// A manifest override by value: fact, mode, pins, surface.
pub type OverrideImportV = (
    Seq<char>,
    Seq<char>,
    Seq<(Seq<char>, Seq<char>)>,
    Option<(Seq<char>, Option<Seq<char>>)>,
);

/// A manifest plan by value: telling, default mode, description,
/// overrides.
pub type PlanImportV = (Seq<char>, Option<Seq<char>>, Seq<char>, Seq<OverrideImportV>);

/// The surface of a manifest override by value.
pub open spec fn surface_in(s: Option<DisclosureSurfaceImport>) -> Option<(Seq<char>, Option<Seq<char>>)> {
    match s {
        Some(x) => Some((x.scene@, ostr(x.object))),
        None => None,
    }
}

/// The overrides of a manifest plan by value.
pub open spec fn overrides_in(v: Seq<DisclosureOverrideImport>) -> Seq<OverrideImportV> {
    v.map_values(
        |o: DisclosureOverrideImport|
            (
                o.fact_id@,
                o.mode@,
                o.first_at@.map_values(|p: (String, String)| (p.0@, p.1@)),
                surface_in(o.surface),
            ),
    )
}

/// The plans of a manifest by value.
pub open spec fn plans_in(v: Seq<DisclosurePlanImport>) -> Seq<PlanImportV> {
    v.map_values(
        |p: DisclosurePlanImport|
            (p.telling_id@, ostr(p.default_mode), p.description@, overrides_in(p.overrides@)),
    )
}

/// The first `n` overrides of plan `idx` applied in order.
pub open spec fn overrides_fold(
    ns: NarrState,
    c: Counts,
    telling: Seq<char>,
    idx: nat,
    os: Seq<OverrideImportV>,
    n: nat,
) -> StageResult
    decreases n,
{
    if n == 0 {
        Ok((ns, c))
    } else {
        match overrides_fold(ns, c, telling, idx, os, (n - 1) as nat) {
            Err(x) => Err(x),
            Ok((s1, c1)) => {
                let o = os[n - 1];
                let d = DecisionView { telling, fact: o.0, mode: o.1, first_at: o.2, surface: o.3 };
                match override_outcome(s1, d) {
                    Err(m) => Err(
                        (
                            s1,
                            "import_facts: manifest disclosure_plan "@ + decimal(idx) + " override "@
                                + decimal((n - 1) as nat) + ": "@ + ("validation: "@ + m),
                        ),
                    ),
                    Ok((t, f, ov)) => {
                        let changed = !(s1.plans[t].overrides.contains_key(f)
                            && s1.plans[t].overrides[f] == ov);
                        let s2 = NarrState {
                            plans: s1.plans.insert(
                                t,
                                PlanView { overrides: s1.plans[t].overrides.insert(f, ov), ..s1.plans[t] },
                            ),
                            ..s1
                        };
                        if changed {
                            Ok((s2, Counts { overrides: c1.overrides + 1, ..c1 }))
                        } else {
                            Ok((s2, Counts { no_op: c1.no_op + 1, ..c1 }))
                        }
                    },
                }
            },
        }
    }
}

/// The default mode a manifest plan declares; `withhold` when omitted.
pub open spec fn plan_mode(p: PlanImportV) -> Seq<char> {
    match p.1 {
        Some(m) => m,
        None => "withhold"@,
    }
}

/// The first `n` plans registered in order, each followed by its
/// overrides.
pub open spec fn plans_fold(ns: NarrState, c: Counts, ps: Seq<PlanImportV>, n: nat) -> StageResult
    decreases n,
{
    if n == 0 {
        Ok((ns, c))
    } else {
        match plans_fold(ns, c, ps, (n - 1) as nat) {
            Err(x) => Err(x),
            Ok((s1, c1)) => {
                let p = ps[n - 1];
                match plan_outcome(s1.plans, p.0, plan_mode(p), p.2) {
                    Err(m) => Err(
                        (
                            s1,
                            "import_facts: manifest disclosure_plan "@ + decimal((n - 1) as nat)
                                + ": "@ + ("validation: "@ + m),
                        ),
                    ),
                    Ok((id, created)) => {
                        let s2 = if created {
                            NarrState {
                                plans: s1.plans.insert(
                                    id,
                                    PlanView {
                                        description: trim_seq(p.2),
                                        default_mode: mode_of(trim_seq(plan_mode(p)))->Some_0,
                                        overrides: Map::empty(),
                                    },
                                ),
                                ..s1
                            }
                        } else {
                            s1
                        };
                        let c2 = if created {
                            Counts { plans: c1.plans + 1, ..c1 }
                        } else {
                            Counts { no_op: c1.no_op + 1, ..c1 }
                        };
                        overrides_fold(s2, c2, p.0, (n - 1) as nat, p.3, p.3.len())
                    },
                }
            },
        }
    }
}

/// The facts stage: build every fact, check and pin their refs against the
/// store's facts and the staged ones, then create or accept each.
pub open spec fn facts_stage(ns: NarrState, c: Counts, es: Seq<FactImportView>) -> StageResult {
    match build_staged(ns, es, es.len()) {
        Err(m) => Err((ns, m)),
        Ok(st) => match stamp_staged(ns, st, st.len()) {
            Err(m) => Err((ns, m)),
            Ok(stamped) => facts_fold(ns, c, stamped, stamped.len()),
        },
    }
}

/// A manifest by value, kind by kind.
pub struct ManifestV {
    pub frames: Seq<(Seq<char>, Seq<char>)>,
    pub branches: Seq<BranchImportV>,
    pub entities: Seq<(Seq<char>, Seq<char>, Seq<char>)>,
    pub predicates: Seq<(Seq<char>, Seq<char>, Seq<char>)>,
    pub facts: Seq<FactImportView>,
    pub plans: Seq<PlanImportV>,
}

/// A manifest by value.
pub open spec fn manifest_v(m: FactsManifest) -> ManifestV {
    ManifestV {
        frames: frames_in(m.frames@),
        branches: branches_in(m.branches@),
        entities: entities_in(m.entities@),
        predicates: predicates_in(m.predicates@),
        facts: m.facts@.map_values(|f: FactImport| f.deep_view()),
        plans: plans_in(m.disclosure_plans@),
    }
}

/// What applying a manifest to `ns` gives, stage by stage.
pub open spec fn manifest_outcome(ns: NarrState, m: ManifestV) -> StageResult {
    match frames_fold(ns, zero_counts(), m.frames, m.frames.len()) {
        Err(x) => Err(x),
        Ok((s1, c1)) => match branches_fold(s1, c1, m.branches, m.branches.len()) {
            Err(x) => Err(x),
            Ok((s2, c2)) => match entities_fold(s2, c2, m.entities, m.entities.len()) {
                Err(x) => Err(x),
                Ok((s3, c3)) => match predicates_fold(s3, c3, m.predicates, m.predicates.len()) {
                    Err(x) => Err(x),
                    Ok((s4, c4)) => match facts_stage(s4, c4, m.facts) {
                        Err(x) => Err(x),
                        Ok((s5, c5)) => plans_fold(s5, c5, m.plans, m.plans.len()),
                    },
                },
            },
        },
    }
}

/// The summary line of a manifest application.
pub open spec fn summary_of(c: Counts) -> Seq<char> {
    decimal(c.frames) + " frames + "@ + decimal(c.branches) + " branches + "@ + decimal(c.entities)
        + " entities + "@ + decimal(c.predicates) + " predicates + "@ + decimal(c.facts)
        + " facts + "@ + decimal(c.plans) + " disclosure-plans + "@ + decimal(c.overrides)
        + " disclosure-overrides created, "@ + decimal(c.no_op) + " no-op"@
}

/// Whether anything was created or changed.
pub open spec fn changed_of(c: Counts) -> bool {
    c.frames != 0 || c.branches != 0 || c.entities != 0 || c.predicates != 0 || c.facts != 0
        || c.plans != 0 || c.overrides != 0
}

/// How many entries a manifest holds, overrides included.
pub open spec fn manifest_size(m: ManifestV) -> nat {
    m.frames.len() + m.branches.len() + m.entities.len() + m.predicates.len() + m.facts.len()
        + m.plans.len() + overrides_total(m.plans, m.plans.len())
}

/// How many overrides the first `n` plans hold.
pub open spec fn overrides_total(ps: Seq<PlanImportV>, n: nat) -> nat
    decreases n,
{
    if n == 0 {
        0
    } else {
        overrides_total(ps, (n - 1) as nat) + ps[n - 1].3.len()
    }
}

} // verus!

verus! {

proof fn lemma_frames_err(ns: NarrState, c: Counts, fs: Seq<(Seq<char>, Seq<char>)>, i: nat, n: nat)
    requires
        i <= n,
        frames_fold(ns, c, fs, i) is Err,
    ensures
        frames_fold(ns, c, fs, n) == frames_fold(ns, c, fs, i),
    decreases n - i,
{
    if i < n {
        lemma_frames_err(ns, c, fs, i, (n - 1) as nat);
    }
}

proof fn lemma_branches_err(ns: NarrState, c: Counts, bs: Seq<BranchImportV>, i: nat, n: nat)
    requires
        i <= n,
        branches_fold(ns, c, bs, i) is Err,
    ensures
        branches_fold(ns, c, bs, n) == branches_fold(ns, c, bs, i),
    decreases n - i,
{
    if i < n {
        lemma_branches_err(ns, c, bs, i, (n - 1) as nat);
    }
}

proof fn lemma_entities_err(ns: NarrState, c: Counts, es: Seq<(Seq<char>, Seq<char>, Seq<char>)>, i: nat, n: nat)
    requires
        i <= n,
        entities_fold(ns, c, es, i) is Err,
    ensures
        entities_fold(ns, c, es, n) == entities_fold(ns, c, es, i),
    decreases n - i,
{
    if i < n {
        lemma_entities_err(ns, c, es, i, (n - 1) as nat);
    }
}

proof fn lemma_predicates_err(
    ns: NarrState,
    c: Counts,
    ps: Seq<(Seq<char>, Seq<char>, Seq<char>)>,
    i: nat,
    n: nat,
)
    requires
        i <= n,
        predicates_fold(ns, c, ps, i) is Err,
    ensures
        predicates_fold(ns, c, ps, n) == predicates_fold(ns, c, ps, i),
    decreases n - i,
{
    if i < n {
        lemma_predicates_err(ns, c, ps, i, (n - 1) as nat);
    }
}

proof fn lemma_build_err(ns: NarrState, es: Seq<FactImportView>, i: nat, n: nat)
    requires
        i <= n,
        build_staged(ns, es, i) is Err,
    ensures
        build_staged(ns, es, n) == build_staged(ns, es, i),
    decreases n - i,
{
    if i < n {
        lemma_build_err(ns, es, i, (n - 1) as nat);
    }
}

proof fn lemma_stamp_err(ns: NarrState, st: Seq<(Seq<char>, FactView)>, i: nat, n: nat)
    requires
        i <= n,
        stamp_staged(ns, st, i) is Err,
    ensures
        stamp_staged(ns, st, n) == stamp_staged(ns, st, i),
    decreases n - i,
{
    if i < n {
        lemma_stamp_err(ns, st, i, (n - 1) as nat);
    }
}

proof fn lemma_facts_err(ns: NarrState, c: Counts, st: Seq<(Seq<char>, FactView)>, i: nat, n: nat)
    requires
        i <= n,
        facts_fold(ns, c, st, i) is Err,
    ensures
        facts_fold(ns, c, st, n) == facts_fold(ns, c, st, i),
    decreases n - i,
{
    if i < n {
        lemma_facts_err(ns, c, st, i, (n - 1) as nat);
    }
}

proof fn lemma_overrides_err(
    ns: NarrState,
    c: Counts,
    telling: Seq<char>,
    idx: nat,
    os: Seq<OverrideImportV>,
    i: nat,
    n: nat,
)
    requires
        i <= n,
        overrides_fold(ns, c, telling, idx, os, i) is Err,
    ensures
        overrides_fold(ns, c, telling, idx, os, n) == overrides_fold(ns, c, telling, idx, os, i),
    decreases n - i,
{
    if i < n {
        lemma_overrides_err(ns, c, telling, idx, os, i, (n - 1) as nat);
    }
}

proof fn lemma_plans_err(ns: NarrState, c: Counts, ps: Seq<PlanImportV>, i: nat, n: nat)
    requires
        i <= n,
        plans_fold(ns, c, ps, i) is Err,
    ensures
        plans_fold(ns, c, ps, n) == plans_fold(ns, c, ps, i),
    decreases n - i,
{
    if i < n {
        lemma_plans_err(ns, c, ps, i, (n - 1) as nat);
    }
}

} // verus!

verus! {

struct Tally {
    frames: usize,
    branches: usize,
    entities: usize,
    predicates: usize,
    facts: usize,
    plans: usize,
    overrides: usize,
    no_op: usize,
}

spec fn tally_v(t: Tally) -> Counts {
    Counts {
        frames: t.frames as nat,
        branches: t.branches as nat,
        entities: t.entities as nat,
        predicates: t.predicates as nat,
        facts: t.facts as nat,
        plans: t.plans as nat,
        overrides: t.overrides as nat,
        no_op: t.no_op as nat,
    }
}

/// `a` and `b` agree on everything outside the narrative axis.
pub open spec fn same_outside_narrative(a: AtomicStore, b: AtomicStore) -> bool {
    &&& a.sections == b.sections
    &&& a.changelog_entries == b.changelog_entries
    &&& a.inventory_entries == b.inventory_entries
    &&& a.confirmation_events == b.confirmation_events
    &&& a.schema_version == b.schema_version
}

/// The refusal of a stage as a mutate error.
pub open spec fn refused_with(r: StageResult, ns: NarrState, e: AtomicMutateError) -> bool {
    match r {
        Err((s, m)) => s == ns && refusal(e) == Refusal::Validation(m),
        Ok(_) => false,
    }
}

fn apply_frames(store: &mut AtomicStore, frames: &Vec<FrameImport>, t: &mut Tally) -> (r: Result<
    (),
    AtomicMutateError,
>)
    requires
        old(store).wf(),
        total(tally_v(*old(t))) + frames@.len() <= usize::MAX,
    ensures
        final(store).wf(),
        same_outside_narrative(*final(store), *old(store)),
        total(tally_v(*final(t))) <= total(tally_v(*old(t))) + frames@.len(),
        ({
            let v = frames_fold(narr_of(*old(store)), tally_v(*old(t)), frames_in(frames@), frames@.len());
            match r {
                Ok(()) => v == Ok::<_, (NarrState, Seq<char>)>((narr_of(*final(store)), tally_v(*final(t)))),
                Err(e) => refused_with(v, narr_of(*final(store)), e),
            }
        }),
{
    let ghost ns0 = narr_of(*store);
    let ghost c0 = tally_v(*t);
    let ghost fs = frames_in(frames@);
    let mut i: usize = 0;
    while i < frames.len()
        invariant
            store.wf(),
            same_outside_narrative(*store, *old(store)),
            ns0 == narr_of(*old(store)),
            c0 == tally_v(*old(t)),
            fs == frames_in(frames@),
            i <= frames@.len(),
            total(tally_v(*t)) == total(c0) + i,
            total(c0) + frames@.len() <= usize::MAX,
            frames_fold(ns0, c0, fs, i as nat) == Ok::<_, (NarrState, Seq<char>)>(
                (narr_of(*store), tally_v(*t)),
            ),
        decreases frames@.len() - i,
    {
        let idx = usize_to_decimal(i);
        let ctx = cat2("import_facts: manifest frame ", idx.as_str());
        let id = trim(frames[i].frame_id.as_str());
        let cand = Frame { description: trim(frames[i].description.as_str()) };
        let ghost before = narr_of(*store);
        let ghost dv = cand.deep_view();
        assert(fs[i as int] == (frames@[i as int].frame_id@, frames@[i as int].description@));
        match stage_registry_entry(&mut store.frames, ctx.as_str(), "frame", id.as_str(), cand) {
            Ok(true) => {
                t.frames = t.frames + 1;
                assert(narr_of(*store) == NarrState { frames: before.frames.insert(id@, dv), ..before });
            },
            Ok(false) => {
                t.no_op = t.no_op + 1;
                assert(narr_of(*store) == before);
            },
            Err(m) => {
                assert(narr_of(*store) == before);
                proof {
                    lemma_frames_err(ns0, c0, fs, (i + 1) as nat, fs.len());
                }
                return Err(AtomicMutateError::Validation(m));
            },
        }
        i = i + 1;
    }
    Ok(())
}

} // verus!

verus! {

fn apply_branches(store: &mut AtomicStore, branches: &Vec<BranchImport>, t: &mut Tally) -> (r: Result<
    (),
    AtomicMutateError,
>)
    requires
        old(store).wf(),
        total(tally_v(*old(t))) + branches@.len() <= usize::MAX,
    ensures
        final(store).wf(),
        same_outside_narrative(*final(store), *old(store)),
        total(tally_v(*final(t))) <= total(tally_v(*old(t))) + branches@.len(),
        ({
            let v = branches_fold(
                narr_of(*old(store)),
                tally_v(*old(t)),
                branches_in(branches@),
                branches@.len(),
            );
            match r {
                Ok(()) => v == Ok::<_, (NarrState, Seq<char>)>((narr_of(*final(store)), tally_v(*final(t)))),
                Err(e) => refused_with(v, narr_of(*final(store)), e),
            }
        }),
{
    let ghost ns0 = narr_of(*store);
    let ghost c0 = tally_v(*t);
    let ghost bs = branches_in(branches@);
    let mut i: usize = 0;
    while i < branches.len()
        invariant
            store.wf(),
            same_outside_narrative(*store, *old(store)),
            ns0 == narr_of(*old(store)),
            c0 == tally_v(*old(t)),
            bs == branches_in(branches@),
            i <= branches@.len(),
            total(tally_v(*t)) == total(c0) + i,
            total(c0) + branches@.len() <= usize::MAX,
            branches_fold(ns0, c0, bs, i as nat) == Ok::<_, (NarrState, Seq<char>)>(
                (narr_of(*store), tally_v(*t)),
            ),
        decreases branches@.len() - i,
    {
        proof {
            lemma_narr_of(*store);
            if branches_fold(ns0, c0, bs, (i + 1) as nat) is Err {
                lemma_branches_err(ns0, c0, bs, (i + 1) as nat, bs.len());
            }
        }
        let b = &branches[i];
        let ghost bv = bs[i as int];
        assert(bv.0 == b.branch_id@ && bv.1 == b.description@ && bv.2 == ostr(b.forks_from) && bv.3
            == ostr(b.forks_at));
        let idx = usize_to_decimal(i);
        let id = trim(b.branch_id.as_str());
        if id.as_str().unicode_len() == 0 {
            let mut m = cat2("import_facts: manifest branch ", idx.as_str());
            m.append(": branch_id mandatory (non-empty after trim)");
            return Err(AtomicMutateError::Validation(m));
        }
        if str_eq(id.as_str(), main_branch()) {
            let mut m = cat3("import_facts: manifest branch ", idx.as_str(), ": `");
            m.append(id.as_str());
            m.append("` is the default world-line — known by construction, never registered");
            return Err(AtomicMutateError::Validation(m));
        }
        let fork: Option<(&str, &str)> = match (&b.forks_from, &b.forks_at) {
            (None, None) => None,
            (Some(p), Some(a)) => Some((p.as_str(), a.as_str())),
            _ => {
                let mut m = cat3("import_facts: manifest branch ", idx.as_str(), " `");
                m.append(id.as_str());
                m.append("`: forks_from and forks_at must be declared together");
                return Err(AtomicMutateError::Validation(m));
            },
        };
        assert(fork_pair(bv) == Some(pair_opt_v(fork)));
        let mut conv: Vec<(&str, &str)> = Vec::new();
        let mut j: usize = 0;
        while j < b.converges_from.len()
            invariant
                j <= b.converges_from@.len(),
                bv.4 == b.converges_from@.map_values(|c: BranchConvergeImport| (c.branch@, c.at@)),
                pairs_v(conv@) == bv.4.take(j as int),
            decreases b.converges_from@.len() - j,
        {
            let ghost before = pairs_v(conv@);
            assert(bv.4[j as int] == (b.converges_from@[j as int].branch@, b.converges_from@[j as int].at@));
            conv.push((b.converges_from[j].branch.as_str(), b.converges_from[j].at.as_str()));
            assert(pairs_v(conv@) =~= before.push(bv.4[j as int]));
            assert(bv.4.take(j + 1) =~= bv.4.take(j as int).push(bv.4[j as int]));
            j = j + 1;
        }
        assert(bv.4.take(b.converges_from@.len() as int) =~= bv.4);
        let cand = match build_branch_candidate(
            store,
            id.as_str(),
            b.description.as_str(),
            fork,
            conv.as_slice(),
        ) {
            Ok(c) => c,
            Err(m) => {
                return Err(AtomicMutateError::Validation(m));
            },
        };
        let ctx = cat2("import_facts: manifest branch ", idx.as_str());
        let ghost before = narr_of(*store);
        let ghost cv = cand.deep_view();
        match stage_registry_entry(&mut store.branches, ctx.as_str(), "branch", id.as_str(), cand) {
            Ok(true) => {
                t.branches = t.branches + 1;
                assert(narr_of(*store) == NarrState { branches: before.branches.insert(id@, cv), ..before });
            },
            Ok(false) => {
                t.no_op = t.no_op + 1;
                assert(narr_of(*store) == before);
            },
            Err(m) => {
                assert(narr_of(*store) == before);
                return Err(AtomicMutateError::Validation(m));
            },
        }
        i = i + 1;
    }
    Ok(())
}

fn apply_entities(store: &mut AtomicStore, entities: &Vec<EntityImport>, t: &mut Tally) -> (r: Result<
    (),
    AtomicMutateError,
>)
    requires
        old(store).wf(),
        total(tally_v(*old(t))) + entities@.len() <= usize::MAX,
    ensures
        final(store).wf(),
        same_outside_narrative(*final(store), *old(store)),
        total(tally_v(*final(t))) <= total(tally_v(*old(t))) + entities@.len(),
        ({
            let v = entities_fold(
                narr_of(*old(store)),
                tally_v(*old(t)),
                entities_in(entities@),
                entities@.len(),
            );
            match r {
                Ok(()) => v == Ok::<_, (NarrState, Seq<char>)>((narr_of(*final(store)), tally_v(*final(t)))),
                Err(e) => refused_with(v, narr_of(*final(store)), e),
            }
        }),
{
    let ghost ns0 = narr_of(*store);
    let ghost c0 = tally_v(*t);
    let ghost es = entities_in(entities@);
    let mut i: usize = 0;
    while i < entities.len()
        invariant
            store.wf(),
            same_outside_narrative(*store, *old(store)),
            ns0 == narr_of(*old(store)),
            c0 == tally_v(*old(t)),
            es == entities_in(entities@),
            i <= entities@.len(),
            total(tally_v(*t)) == total(c0) + i,
            total(c0) + entities@.len() <= usize::MAX,
            entities_fold(ns0, c0, es, i as nat) == Ok::<_, (NarrState, Seq<char>)>(
                (narr_of(*store), tally_v(*t)),
            ),
        decreases entities@.len() - i,
    {
        let idx = usize_to_decimal(i);
        let ctx = cat2("import_facts: manifest entity ", idx.as_str());
        let e = &entities[i];
        assert(es[i as int] == (e.entity_id@, e.kind@, e.description@));
        let id = trim(e.entity_id.as_str());
        let cand = Entity { kind: trim(e.kind.as_str()), description: trim(e.description.as_str()) };
        let ghost before = narr_of(*store);
        let ghost dv = cand.deep_view();
        match stage_registry_entry(&mut store.entities, ctx.as_str(), "entity", id.as_str(), cand) {
            Ok(true) => {
                t.entities = t.entities + 1;
                assert(narr_of(*store) == NarrState { entities: before.entities.insert(id@, dv), ..before });
            },
            Ok(false) => {
                t.no_op = t.no_op + 1;
                assert(narr_of(*store) == before);
            },
            Err(m) => {
                assert(narr_of(*store) == before);
                proof {
                    lemma_entities_err(ns0, c0, es, (i + 1) as nat, es.len());
                }
                return Err(AtomicMutateError::Validation(m));
            },
        }
        i = i + 1;
    }
    Ok(())
}

fn apply_predicates(store: &mut AtomicStore, predicates: &Vec<PredicateImport>, t: &mut Tally) -> (r:
    Result<(), AtomicMutateError>)
    requires
        old(store).wf(),
        total(tally_v(*old(t))) + predicates@.len() <= usize::MAX,
    ensures
        final(store).wf(),
        same_outside_narrative(*final(store), *old(store)),
        total(tally_v(*final(t))) <= total(tally_v(*old(t))) + predicates@.len(),
        ({
            let v = predicates_fold(
                narr_of(*old(store)),
                tally_v(*old(t)),
                predicates_in(predicates@),
                predicates@.len(),
            );
            match r {
                Ok(()) => v == Ok::<_, (NarrState, Seq<char>)>((narr_of(*final(store)), tally_v(*final(t)))),
                Err(e) => refused_with(v, narr_of(*final(store)), e),
            }
        }),
{
    let ghost ns0 = narr_of(*store);
    let ghost c0 = tally_v(*t);
    let ghost ps = predicates_in(predicates@);
    let mut i: usize = 0;
    while i < predicates.len()
        invariant
            store.wf(),
            same_outside_narrative(*store, *old(store)),
            ns0 == narr_of(*old(store)),
            c0 == tally_v(*old(t)),
            ps == predicates_in(predicates@),
            i <= predicates@.len(),
            total(tally_v(*t)) == total(c0) + i,
            total(c0) + predicates@.len() <= usize::MAX,
            predicates_fold(ns0, c0, ps, i as nat) == Ok::<_, (NarrState, Seq<char>)>(
                (narr_of(*store), tally_v(*t)),
            ),
        decreases predicates@.len() - i,
    {
        proof {
            if predicates_fold(ns0, c0, ps, (i + 1) as nat) is Err {
                lemma_predicates_err(ns0, c0, ps, (i + 1) as nat, ps.len());
            }
        }
        let idx = usize_to_decimal(i);
        let ctx = cat2("import_facts: manifest predicate ", idx.as_str());
        let p = &predicates[i];
        assert(ps[i as int] == (p.predicate_id@, p.object_kind@, p.description@));
        let id = trim(p.predicate_id.as_str());
        let cand = match build_predicate(ctx.as_str(), p.object_kind.as_str(), p.description.as_str()) {
            Ok(c) => c,
            Err(m) => {
                return Err(AtomicMutateError::Validation(m));
            },
        };
        let ghost before = narr_of(*store);
        let ghost dv = cand.deep_view();
        match stage_registry_entry(&mut store.predicates, ctx.as_str(), "predicate", id.as_str(), cand) {
            Ok(true) => {
                t.predicates = t.predicates + 1;
                assert(narr_of(*store) == NarrState {
                    predicates: before.predicates.insert(id@, dv),
                    ..before
                });
            },
            Ok(false) => {
                t.no_op = t.no_op + 1;
                assert(narr_of(*store) == before);
            },
            Err(m) => {
                assert(narr_of(*store) == before);
                return Err(AtomicMutateError::Validation(m));
            },
        }
        i = i + 1;
    }
    Ok(())
}

} // verus!

verus! {

fn staged_has(staged: &Vec<(String, NarrativeFact)>, id: &str) -> (r: bool)
    ensures
        r == staged_ids(staged_v(staged@)).contains(id@),
{
    let ghost ids = staged_ids(staged_v(staged@));
    let mut i: usize = 0;
    while i < staged.len()
        invariant
            i <= staged@.len(),
            ids == staged_ids(staged_v(staged@)),
            forall|j: int| 0 <= j < i ==> ids[j] != id@,
        decreases staged@.len() - i,
    {
        assert(ids[i as int] == staged@[i as int].0@);
        if str_eq(staged[i].0.as_str(), id) {
            return true;
        }
        i = i + 1;
    }
    false
}

fn apply_facts(store: &mut AtomicStore, facts: &Vec<FactImport>, t: &mut Tally) -> (r: Result<
    (),
    AtomicMutateError,
>)
    requires
        old(store).wf(),
        total(tally_v(*old(t))) + facts@.len() <= usize::MAX,
    ensures
        final(store).wf(),
        same_outside_narrative(*final(store), *old(store)),
        total(tally_v(*final(t))) <= total(tally_v(*old(t))) + facts@.len(),
        ({
            let v = facts_stage(
                narr_of(*old(store)),
                tally_v(*old(t)),
                facts@.map_values(|f: FactImport| f.deep_view()),
            );
            match r {
                Ok(()) => v == Ok::<_, (NarrState, Seq<char>)>((narr_of(*final(store)), tally_v(*final(t)))),
                Err(e) => refused_with(v, narr_of(*final(store)), e),
            }
        }),
{
    let ghost ns0 = narr_of(*store);
    let ghost c0 = tally_v(*t);
    let ghost es = facts@.map_values(|f: FactImport| f.deep_view());
    proof {
        lemma_narr_of(*store);
    }
    let mut staged: Vec<(String, NarrativeFact)> = Vec::new();
    let mut i: usize = 0;
    assert(staged_v(staged@) =~= Seq::<(Seq<char>, FactView)>::empty());
    while i < facts.len()
        invariant
            store.wf(),
            *store == *old(store),
            ns0 == narr_of(*old(store)),
            es == facts@.map_values(|f: FactImport| f.deep_view()),
            i <= facts@.len(),
            build_staged(ns0, es, i as nat) == Ok::<_, Seq<char>>(staged_v(staged@)),
        decreases facts@.len() - i,
    {
        proof {
            if build_staged(ns0, es, (i + 1) as nat) is Err {
                lemma_build_err(ns0, es, (i + 1) as nat, es.len());
            }
        }
        assert(es[i as int] == facts@[i as int].deep_view());
        let idx = usize_to_decimal(i);
        let (fid, cand) = match build_candidate_fact(store, &facts[i]) {
            Ok(x) => x,
            Err(m) => {
                let mut msg = cat3("import_facts: manifest fact ", idx.as_str(), ": ");
                msg.append(m.as_str());
                return Err(AtomicMutateError::Validation(msg));
            },
        };
        if staged_has(&staged, fid.as_str()) {
            let mut msg = cat3("import_facts: manifest fact ", idx.as_str(), ": duplicate fact_id `");
            msg.append(fid.as_str());
            msg.append("` in manifest");
            return Err(AtomicMutateError::Validation(msg));
        }
        let ghost before = staged_v(staged@);
        let ghost item = (fid@, cand.deep_view());
        staged.push((fid, cand));
        assert(staged_v(staged@) =~= before.push(item));
        i = i + 1;
    }
    let ghost st = staged_v(staged@);
    let mut stamped: Vec<(String, NarrativeFact)> = Vec::new();
    let mut k: usize = 0;
    assert(staged_v(stamped@) =~= Seq::<(Seq<char>, FactView)>::empty());
    while k < staged.len()
        invariant
            store.wf(),
            *store == *old(store),
            ns0 == narr_of(*old(store)),
            ns0.facts.dom() == store.narrative_facts@.dom(),
            st == staged_v(staged@),
            k <= staged@.len(),
            es == facts@.map_values(|f: FactImport| f.deep_view()),
            build_staged(ns0, es, es.len()) == Ok::<_, Seq<char>>(st),
            stamp_staged(ns0, st, k as nat) == Ok::<_, Seq<char>>(staged_v(stamped@)),
        decreases staged@.len() - k,
    {
        proof {
            if stamp_staged(ns0, st, (k + 1) as nat) is Err {
                lemma_stamp_err(ns0, st, (k + 1) as nat, st.len());
            }
        }
        assert(st[k as int] == (staged@[k as int].0@, staged@[k as int].1.deep_view()));
        let copy = crate::narrative::clone_fact(&staged[k].1);
        let f = match crate::succession::validate_and_stamp_fact_refs(
            staged[k].0.as_str(),
            copy,
            &store.narrative_facts,
            &staged,
            &store.branches,
        ) {
            Ok(f) => f,
            Err(m) => {
                return Err(AtomicMutateError::Validation(m));
            },
        };
        let ghost before = staged_v(stamped@);
        let ghost item = (staged@[k as int].0@, f.deep_view());
        stamped.push((staged[k].0.clone(), f));
        assert(staged_v(stamped@) =~= before.push(item));
        k = k + 1;
    }
    let ghost sv = staged_v(stamped@);
    proof {
        lemma_facts_len(ns0, es, es.len());
        lemma_stamp_len(ns0, st, st.len());
    }
    let mut q: usize = 0;
    while q < stamped.len()
        invariant
            store.wf(),
            same_outside_narrative(*store, *old(store)),
            ns0 == narr_of(*old(store)),
            c0 == tally_v(*old(t)),
            sv == staged_v(stamped@),
            q <= stamped@.len(),
            stamped@.len() <= facts@.len(),
            es == facts@.map_values(|f: FactImport| f.deep_view()),
            build_staged(ns0, es, es.len()) == Ok::<_, Seq<char>>(st),
            stamp_staged(ns0, st, st.len()) == Ok::<_, Seq<char>>(sv),
            total(tally_v(*t)) == total(c0) + q,
            total(c0) + facts@.len() <= usize::MAX,
            facts_fold(ns0, c0, sv, q as nat) == Ok::<_, (NarrState, Seq<char>)>(
                (narr_of(*store), tally_v(*t)),
            ),
        decreases stamped@.len() - q,
    {
        let fid = stamped[q].0.as_str();
        assert(sv[q as int] == (fid@, stamped@[q as int].1.deep_view()));
        let ghost before = narr_of(*store);
        proof {
            lemma_narr_of(*store);
        }
        let verdict = match store.narrative_facts.get(fid) {
            None => None,
            Some(existing) => {
                assert(before.facts[fid@] == existing.deep_view());
                if facts_equal(existing, &stamped[q].1, false) {
                    Some(true)
                } else {
                    let m = crate::fact_ops::divergent_fact_message_pub(
                        "import_facts",
                        fid,
                        existing,
                        &stamped[q].1,
                    );
                    proof {
                        lemma_facts_err(ns0, c0, sv, (q + 1) as nat, sv.len());
                    }
                    return Err(AtomicMutateError::Validation(m));
                }
            },
        };
        match verdict {
            Some(_) => {
                t.no_op = t.no_op + 1;
            },
            None => {
                let copy = crate::narrative::clone_fact(&stamped[q].1);
                let ghost cv = copy.deep_view();
                store.narrative_facts.insert(owned(fid), copy);
                t.facts = t.facts + 1;
                assert(reg_v(store.narrative_facts) =~= before.facts.insert(fid@, cv));
                assert(narr_of(*store) == NarrState { facts: before.facts.insert(fid@, cv), ..before });
            },
        }
        q = q + 1;
    }
    proof {
        lemma_facts_len(ns0, es, es.len());
        lemma_stamp_len(ns0, st, st.len());
    }
    Ok(())
}

proof fn lemma_facts_len(ns: NarrState, es: Seq<FactImportView>, n: nat)
    ensures
        build_staged(ns, es, n) is Ok ==> build_staged(ns, es, n)->Ok_0.len() == n,
    decreases n,
{
    if n > 0 {
        lemma_facts_len(ns, es, (n - 1) as nat);
    }
}

proof fn lemma_stamp_len(ns: NarrState, st: Seq<(Seq<char>, FactView)>, n: nat)
    ensures
        stamp_staged(ns, st, n) is Ok ==> stamp_staged(ns, st, n)->Ok_0.len() == n,
    decreases n,
{
    if n > 0 {
        lemma_stamp_len(ns, st, (n - 1) as nat);
    }
}

} // verus!

verus! {

fn apply_overrides(
    store: &mut AtomicStore,
    plan: &DisclosurePlanImport,
    idx: usize,
    t: &mut Tally,
) -> (r: Result<(), AtomicMutateError>)
    requires
        old(store).wf(),
        total(tally_v(*old(t))) + plan.overrides@.len() <= usize::MAX,
    ensures
        final(store).wf(),
        same_outside_narrative(*final(store), *old(store)),
        total(tally_v(*final(t))) <= total(tally_v(*old(t))) + plan.overrides@.len(),
        ({
            let v = overrides_fold(
                narr_of(*old(store)),
                tally_v(*old(t)),
                plan.telling_id@,
                idx as nat,
                overrides_in(plan.overrides@),
                plan.overrides@.len(),
            );
            match r {
                Ok(()) => v == Ok::<_, (NarrState, Seq<char>)>((narr_of(*final(store)), tally_v(*final(t)))),
                Err(e) => refused_with(v, narr_of(*final(store)), e),
            }
        }),
{
    let ghost ns0 = narr_of(*store);
    let ghost c0 = tally_v(*t);
    let ghost os = overrides_in(plan.overrides@);
    let ghost tv = plan.telling_id@;
    let idx_text = usize_to_decimal(idx);
    let mut i: usize = 0;
    while i < plan.overrides.len()
        invariant
            store.wf(),
            same_outside_narrative(*store, *old(store)),
            ns0 == narr_of(*old(store)),
            c0 == tally_v(*old(t)),
            os == overrides_in(plan.overrides@),
            tv == plan.telling_id@,
            idx_text@ == decimal(idx as nat),
            i <= plan.overrides@.len(),
            total(tally_v(*t)) == total(c0) + i,
            total(c0) + plan.overrides@.len() <= usize::MAX,
            overrides_fold(ns0, c0, tv, idx as nat, os, i as nat) == Ok::<_, (NarrState, Seq<char>)>(
                (narr_of(*store), tally_v(*t)),
            ),
        decreases plan.overrides@.len() - i,
    {
        let ov = &plan.overrides[i];
        let ghost o = os[i as int];
        assert(o.0 == ov.fact_id@ && o.1 == ov.mode@ && o.3 == surface_in(ov.surface));
        assert(o.2 == ov.first_at@.map_values(|p: (String, String)| (p.0@, p.1@)));
        let surface: Option<(&str, Option<&str>)> = match &ov.surface {
            Some(sf) => Some(
                (
                    sf.scene.as_str(),
                    match &sf.object {
                        Some(x) => Some(x.as_str()),
                        None => None,
                    },
                ),
            ),
            None => None,
        };
        let decision = DisclosureDecision {
            telling_id: plan.telling_id.as_str(),
            fact_id: ov.fact_id.as_str(),
            mode: ov.mode.as_str(),
            first_at: ov.first_at.as_slice(),
            surface,
        };
        let ghost d = DecisionView { telling: tv, fact: o.0, mode: o.1, first_at: o.2, surface: o.3 };
        proof {
            assert(decision_v(decision).first_at =~= o.2);
            assert(decision_v(decision).surface == o.3);
            assert(decision_v(decision) == d);
        }
        let ghost before = narr_of(*store);
        match apply_disclosure_override(store, decision) {
            Ok(changed) => {
                if changed {
                    t.overrides = t.overrides + 1;
                } else {
                    t.no_op = t.no_op + 1;
                }
                proof {
                    assert(narr_of(*store).plans == crate::disclosure::plans_v(store.disclosure_plans));
                }
            },
            Err(e) => {
                let text = e.to_text();
                let mut m = cat3("import_facts: manifest disclosure_plan ", idx_text.as_str(), " override ");
                let ov_idx = usize_to_decimal(i);
                m.append(ov_idx.as_str());
                m.append(": ");
                m.append(text.as_str());
                proof {
                    lemma_overrides_err(ns0, c0, tv, idx as nat, os, (i + 1) as nat, os.len());
                    let mm = match override_outcome(before, d) {
                        Err(x) => x,
                        Ok(_) => Seq::empty(),
                    };
                    assert(m@ =~= "import_facts: manifest disclosure_plan "@ + decimal(idx as nat)
                        + " override "@ + decimal(i as nat) + ": "@ + ("validation: "@ + mm));
                }
                return Err(AtomicMutateError::Validation(m));
            },
        }
        i = i + 1;
    }
    Ok(())
}

fn apply_plans(store: &mut AtomicStore, plans: &Vec<DisclosurePlanImport>, t: &mut Tally) -> (r: Result<
    (),
    AtomicMutateError,
>)
    requires
        old(store).wf(),
        total(tally_v(*old(t))) + plans@.len() + overrides_total(plans_in(plans@), plans@.len())
            <= usize::MAX,
    ensures
        final(store).wf(),
        same_outside_narrative(*final(store), *old(store)),
        ({
            let v = plans_fold(narr_of(*old(store)), tally_v(*old(t)), plans_in(plans@), plans@.len());
            match r {
                Ok(()) => v == Ok::<_, (NarrState, Seq<char>)>((narr_of(*final(store)), tally_v(*final(t)))),
                Err(e) => refused_with(v, narr_of(*final(store)), e),
            }
        }),
{
    let ghost ns0 = narr_of(*store);
    let ghost c0 = tally_v(*t);
    let ghost ps = plans_in(plans@);
    let mut i: usize = 0;
    while i < plans.len()
        invariant
            store.wf(),
            same_outside_narrative(*store, *old(store)),
            ns0 == narr_of(*old(store)),
            c0 == tally_v(*old(t)),
            ps == plans_in(plans@),
            i <= plans@.len(),
            total(tally_v(*t)) <= total(c0) + i + overrides_total(ps, i as nat),
            total(c0) + plans@.len() + overrides_total(ps, plans@.len()) <= usize::MAX,
            plans_fold(ns0, c0, ps, i as nat) == Ok::<_, (NarrState, Seq<char>)>(
                (narr_of(*store), tally_v(*t)),
            ),
        decreases plans@.len() - i,
    {
        proof {
            lemma_overrides_total_mono(ps, (i + 1) as nat, plans@.len());
        }
        let plan = &plans[i];
        let ghost p = ps[i as int];
        assert(p.0 == plan.telling_id@ && p.1 == ostr(plan.default_mode) && p.2 == plan.description@
            && p.3 == overrides_in(plan.overrides@));
        let dm: &str = match &plan.default_mode {
            Some(x) => x.as_str(),
            None => "withhold",
        };
        assert(dm@ == plan_mode(p));
        let idx_text = usize_to_decimal(i);
        let ghost before = narr_of(*store);
        match apply_disclosure_plan(store, plan.telling_id.as_str(), dm, plan.description.as_str()) {
            Ok((_, created)) => {
                if created {
                    t.plans = t.plans + 1;
                } else {
                    t.no_op = t.no_op + 1;
                }
                proof {
                    assert(narr_of(*store).plans == crate::disclosure::plans_v(store.disclosure_plans));
                }
            },
            Err(e) => {
                let text = e.to_text();
                let mut m = cat3("import_facts: manifest disclosure_plan ", idx_text.as_str(), ": ");
                m.append(text.as_str());
                proof {
                    lemma_plans_err(ns0, c0, ps, (i + 1) as nat, ps.len());
                    let mm = match plan_outcome(before.plans, p.0, plan_mode(p), p.2) {
                        Err(x) => x,
                        Ok(_) => Seq::empty(),
                    };
                    assert(m@ =~= "import_facts: manifest disclosure_plan "@ + decimal(i as nat) + ": "@
                        + ("validation: "@ + mm));
                }
                return Err(AtomicMutateError::Validation(m));
            },
        }
        let ghost mid_state = narr_of(*store);
        let ghost mid_counts = tally_v(*t);
        let res = apply_overrides(store, plan, i, t);
        match res {
            Ok(()) => {},
            Err(e) => {
                proof {
                    lemma_plans_err(ns0, c0, ps, (i + 1) as nat, ps.len());
                }
                return Err(e);
            },
        }
        i = i + 1;
    }
    Ok(())
}

proof fn lemma_overrides_total_mono(ps: Seq<PlanImportV>, i: nat, n: nat)
    requires
        i <= n,
    ensures
        overrides_total(ps, i) <= overrides_total(ps, n),
    decreases n - i,
{
    if i < n {
        lemma_overrides_total_mono(ps, i, (n - 1) as nat);
    }
}

} // verus!

verus! {

/// Apply a manifest to the store: frames, world-lines, entities and
/// predicates staged in turn, then every fact built, checked against the
/// store's facts and the manifest's (forward references are legal) and
/// created or accepted, then each disclosure plan and its overrides. The
/// first refusal stops the application; what was applied before it stays.
pub fn apply_facts_manifest(store: &mut AtomicStore, manifest: &FactsManifest) -> (r: Result<
    FactsApplyOutcome,
    AtomicMutateError,
>)
    requires
        manifest_size(manifest_v(*manifest)) <= usize::MAX,
    ensures
        final(store).wf(),
        same_outside_narrative(*final(store), *old(store)),
        ({
            let v = manifest_outcome(narr_of(*old(store)), manifest_v(*manifest));
            match r {
                Ok(o) => v is Ok && narr_of(*final(store)) == v->Ok_0.0 && o.summary@ == summary_of(
                    v->Ok_0.1,
                ) && o.changed == changed_of(v->Ok_0.1),
                Err(e) => refused_with(v, narr_of(*final(store)), e),
            }
        }),
{
    store.establish_wf();
    let ghost mv = manifest_v(*manifest);
    let ghost ns0 = narr_of(*store);
    let mut t = Tally {
        frames: 0,
        branches: 0,
        entities: 0,
        predicates: 0,
        facts: 0,
        plans: 0,
        overrides: 0,
        no_op: 0,
    };
    assert(tally_v(t) == zero_counts());
    let ghost s1 = narr_of(*store);
    apply_frames(store, &manifest.frames, &mut t)?;
    let ghost c1 = tally_v(t);
    let ghost n1 = narr_of(*store);
    apply_branches(store, &manifest.branches, &mut t)?;
    let ghost c2 = tally_v(t);
    let ghost n2 = narr_of(*store);
    apply_entities(store, &manifest.entities, &mut t)?;
    let ghost c3 = tally_v(t);
    let ghost n3 = narr_of(*store);
    apply_predicates(store, &manifest.predicates, &mut t)?;
    let ghost c4 = tally_v(t);
    let ghost n4 = narr_of(*store);
    assert(manifest.facts@.map_values(|f: FactImport| f.deep_view()) == mv.facts);
    apply_facts(store, &manifest.facts, &mut t)?;
    apply_plans(store, &manifest.disclosure_plans, &mut t)?;
    let mut summary = usize_to_decimal(t.frames);
    summary.append(" frames + ");
    summary.append(usize_to_decimal(t.branches).as_str());
    summary.append(" branches + ");
    summary.append(usize_to_decimal(t.entities).as_str());
    summary.append(" entities + ");
    summary.append(usize_to_decimal(t.predicates).as_str());
    summary.append(" predicates + ");
    summary.append(usize_to_decimal(t.facts).as_str());
    summary.append(" facts + ");
    summary.append(usize_to_decimal(t.plans).as_str());
    summary.append(" disclosure-plans + ");
    summary.append(usize_to_decimal(t.overrides).as_str());
    summary.append(" disclosure-overrides created, ");
    summary.append(usize_to_decimal(t.no_op).as_str());
    summary.append(" no-op");
    let changed = t.frames != 0 || t.branches != 0 || t.entities != 0 || t.predicates != 0
        || t.facts != 0 || t.plans != 0 || t.overrides != 0;
    Ok(FactsApplyOutcome { summary, changed })
}

/// Apply a manifest (see [`apply_facts_manifest`]) and report what it did.
pub fn import_facts(store: &mut AtomicStore, manifest: &FactsManifest) -> (r: Result<
    FactsApplyOutcome,
    AtomicMutateError,
>)
    requires
        manifest_size(manifest_v(*manifest)) <= usize::MAX,
    ensures
        final(store).wf(),
        same_outside_narrative(*final(store), *old(store)),
        ({
            let v = manifest_outcome(narr_of(*old(store)), manifest_v(*manifest));
            match r {
                Ok(o) => v is Ok && narr_of(*final(store)) == v->Ok_0.0 && o.summary@ == summary_of(
                    v->Ok_0.1,
                ) && o.changed == changed_of(v->Ok_0.1),
                Err(e) => refused_with(v, narr_of(*final(store)), e),
            }
        }),
{
    store.establish_wf();
    apply_facts_manifest(store, manifest)
}

} // verus!
