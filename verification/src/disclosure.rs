//! Disclosure plans: named tellings over the fact base, each a default
//! mode and per-fact overrides saying how, when (per world-line) and where
//! a fact reaches the reader.
use vstd::prelude::*;
use crate::error::{AtomicMutateError, Refusal, refusal};
use crate::model::{AtomicStore, ostr};
use crate::narrative::{
    DisclosureMode, DisclosureOverride, DisclosurePlan, DisclosureSurface, OverrideView, PlanView,
    lemma_plans_wf, lemma_plans_wf_update, mode_of, plan_wf, text_map,
};
use crate::order::str_eq;
use crate::registry::{is_known_world, known_world, reg_v};
use crate::strmap::StrMap;
use crate::text::{cat3, owned, trim, trim_seq};

verus! {

/// The plans of a registry, by value.
pub open spec fn plans_v(m: StrMap<DisclosurePlan>) -> Map<Seq<char>, PlanView> {
    reg_v(m)
}

/// What registering a plan gives: `(id, created)`, or the refusal. A
/// re-registration with the same policy (description and default mode) is
/// a no-op whatever overrides the plan has gathered.
pub open spec fn plan_outcome(
    pm: Map<Seq<char>, PlanView>,
    telling_id: Seq<char>,
    default_mode: Seq<char>,
    description: Seq<char>,
) -> Result<(Seq<char>, bool), Seq<char>> {
    let id = trim_seq(telling_id);
    let tag = trim_seq(default_mode);
    let d = trim_seq(description);
    if id.len() == 0 {
        Err("add_disclosure_plan: telling_id mandatory (non-empty after trim)"@)
    } else {
        match mode_of(tag) {
            None => Err(
                "add_disclosure_plan: unknown default_mode `"@ + tag
                    + "` (expected one of: withhold, state, hint, imply)"@,
            ),
            Some(mode) => if !pm.contains_key(id) {
                Ok((id, true))
            } else if pm[id].description == d && pm[id].default_mode == mode {
                Ok((id, false))
            } else {
                Err(
                    "add_disclosure_plan: telling `"@ + id
                        + "` already exists with DIVERGENT policy (description/default_mode) — refusing silent overwrite (set-disclosure edits the per-fact overrides; re-adding may not change the policy)"@,
                )
            },
        }
    }
}

/// Re-adding a disclosure plan with the policy it was registered with is a
/// no-op, whatever per-fact overrides were set on it since: only the
/// description and the default mode are compared.
pub proof fn lemma_plan_readd_is_noop(
    pm: Map<Seq<char>, PlanView>,
    pm2: Map<Seq<char>, PlanView>,
    telling_id: Seq<char>,
    default_mode: Seq<char>,
    description: Seq<char>,
)
    requires
        plan_outcome(pm, telling_id, default_mode, description) is Ok,
        pm2.contains_key(trim_seq(telling_id)),
        pm2[trim_seq(telling_id)].description == trim_seq(description),
        pm2[trim_seq(telling_id)].default_mode == mode_of(trim_seq(default_mode))->Some_0,
    ensures
        plan_outcome(pm2, telling_id, default_mode, description) == Ok::<_, Seq<char>>(
            (trim_seq(telling_id), false),
        ),
{
}

/// Register a disclosure plan in the store: a created plan has the parsed
/// default mode, the trimmed description and no overrides. Returns the
/// trimmed id and whether it was created.
pub fn apply_disclosure_plan(
    store: &mut AtomicStore,
    telling_id: &str,
    default_mode: &str,
    description: &str,
) -> (r: Result<(String, bool), AtomicMutateError>)
    ensures
        final(store).wf(),
        ({
            let pm = plans_v(old(store).disclosure_plans);
            let v = plan_outcome(pm, telling_id@, default_mode@, description@);
            match r {
                Ok((id, c)) => v == Ok::<_, Seq<char>>((id@, c)) && plans_v(final(store).disclosure_plans)
                    == (if c {
                    pm.insert(
                        id@,
                        PlanView {
                            description: trim_seq(description@),
                            default_mode: mode_of(trim_seq(default_mode@))->Some_0,
                            overrides: Map::empty(),
                        },
                    )
                } else {
                    pm
                }) && *final(store) == (AtomicStore {
                    disclosure_plans: final(store).disclosure_plans,
                    ..*old(store)
                }),
                Err(e) => *final(store) == *old(store) && match v {
                    Err(m) => refusal(e) == Refusal::Validation(m),
                    Ok(_) => false,
                },
            }
        }),
{
    store.establish_wf();
    let id = trim(telling_id);
    if id.as_str().unicode_len() == 0 {
        return Err(
            AtomicMutateError::Validation(
                owned("add_disclosure_plan: telling_id mandatory (non-empty after trim)"),
            ),
        );
    }
    let tag = trim(default_mode);
    let mode = match DisclosureMode::from_tag(tag.as_str()) {
        Some(m) => m,
        None => {
            let m = cat3(
                "add_disclosure_plan: unknown default_mode `",
                tag.as_str(),
                "` (expected one of: withhold, state, hint, imply)",
            );
            return Err(AtomicMutateError::Validation(m));
        },
    };
    let desc = trim(description);
    let ghost pm = plans_v(store.disclosure_plans);
    let created = match store.disclosure_plans.get(id.as_str()) {
        None => true,
        Some(existing) => {
            if str_eq(existing.description.as_str(), desc.as_str()) && existing.default_mode == mode {
                false
            } else {
                let m = cat3(
                    "add_disclosure_plan: telling `",
                    id.as_str(),
                    "` already exists with DIVERGENT policy (description/default_mode) — refusing silent overwrite (set-disclosure edits the per-fact overrides; re-adding may not change the policy)",
                );
                return Err(AtomicMutateError::Validation(m));
            }
        },
    };
    if created {
        let overrides: StrMap<DisclosureOverride> = StrMap::new();
        proof {
            overrides.lemma_wf();
        }
        let plan = DisclosurePlan { description: desc, default_mode: mode, overrides };
        let ghost pv = plan.deep_view();
        assert(pv.overrides =~= Map::<Seq<char>, OverrideView>::empty());
        let ghost before = store.disclosure_plans;
        store.disclosure_plans.insert(owned(id.as_str()), plan);
        proof {
            lemma_plans_wf_update(before, store.disclosure_plans, id@);
            assert(plans_v(store.disclosure_plans) =~= pm.insert(id@, pv));
        }
    }
    Ok((id, created))
}

/// Register one disclosure plan (see [`apply_disclosure_plan`]);
/// `Ok(true)` created it, `Ok(false)` found its policy identical.
pub fn add_disclosure_plan(
    store: &mut AtomicStore,
    telling_id: &str,
    default_mode: &str,
    description: &str,
) -> (r: Result<bool, AtomicMutateError>)
    ensures
        final(store).wf(),
        ({
            let pm = plans_v(old(store).disclosure_plans);
            let v = plan_outcome(pm, telling_id@, default_mode@, description@);
            match r {
                Ok(c) => v is Ok && v->Ok_0.1 == c && plans_v(final(store).disclosure_plans) == (if c {
                    pm.insert(
                        v->Ok_0.0,
                        PlanView {
                            description: trim_seq(description@),
                            default_mode: mode_of(trim_seq(default_mode@))->Some_0,
                            overrides: Map::empty(),
                        },
                    )
                } else {
                    pm
                }) && *final(store) == (AtomicStore {
                    disclosure_plans: final(store).disclosure_plans,
                    ..*old(store)
                }),
                Err(e) => *final(store) == *old(store) && match v {
                    Err(m) => refusal(e) == Refusal::Validation(m),
                    Ok(_) => false,
                },
            }
        }),
{
    store.establish_wf();
    match apply_disclosure_plan(store, telling_id, default_mode, description) {
        Ok((_, c)) => Ok(c),
        Err(e) => Err(e),
    }
}

} // verus!

verus! {

/// The authored inputs of one per-fact disclosure decision.
pub struct DisclosureDecision<'a> {
    pub telling_id: &'a str,
    pub fact_id: &'a str,
    /// Disclosure mode tag (`withhold`/`state`/`hint`/`imply`).
    pub mode: &'a str,
    /// Per-world-line first canon points as `(branch, coord)` pairs.
    pub first_at: &'a [(String, String)],
    /// Optional `(scene, object?)` diegetic surface.
    pub surface: Option<(&'a str, Option<&'a str>)>,
}

/// A decision's inputs by value.
pub struct DecisionView {
    pub telling: Seq<char>,
    pub fact: Seq<char>,
    pub mode: Seq<char>,
    pub first_at: Seq<(Seq<char>, Seq<char>)>,
    pub surface: Option<(Seq<char>, Option<Seq<char>>)>,
}

/// The characters of an optional pair of a text and an optional text.
pub open spec fn surface_arg_v(s: Option<(&str, Option<&str>)>) -> Option<(Seq<char>, Option<Seq<char>>)> {
    match s {
        Some((a, b)) => Some(
            (
                a@,
                match b {
                    Some(x) => Some(x@),
                    None => None,
                },
            ),
        ),
        None => None,
    }
}

/// A decision by value.
pub open spec fn decision_v(d: DisclosureDecision) -> DecisionView {
    DecisionView {
        telling: d.telling_id@,
        fact: d.fact_id@,
        mode: d.mode@,
        first_at: d.first_at@.map_values(|p: (String, String)| (p.0@, p.1@)),
        surface: surface_arg_v(d.surface),
    }
}

/// The first `n` first-canon-point pins as a map, or the refusal of the
/// first that breaks a rule: both parts non-blank, a known world-line, a
/// section, each world-line once.
pub open spec fn first_at_prefix(
    bdom: Set<Seq<char>>,
    secs: Set<Seq<char>>,
    pairs: Seq<(Seq<char>, Seq<char>)>,
    n: nat,
) -> Result<Map<Seq<char>, Seq<char>>, Seq<char>>
    decreases n,
{
    if n == 0 {
        Ok(Map::empty())
    } else {
        match first_at_prefix(bdom, secs, pairs, (n - 1) as nat) {
            Err(m) => Err(m),
            Ok(acc) => {
                let b = trim_seq(pairs[n - 1].0);
                let c = trim_seq(pairs[n - 1].1);
                if b.len() == 0 || c.len() == 0 {
                    Err("set_disclosure: each first_at needs branch=coord (both non-empty)"@)
                } else if !known_world(bdom, b) {
                    Err(
                        "set_disclosure: first_at branch `"@ + b
                            + "` not present in the branch registry"@,
                    )
                } else if !secs.contains(c) {
                    Err(
                        "set_disclosure: first_at coord `"@ + c
                            + "` not present as a section (canon coordinates are structure refs)"@,
                    )
                } else if acc.contains_key(b) {
                    Err("set_disclosure: duplicate first_at branch `"@ + b + "`"@)
                } else {
                    Ok(acc.insert(b, c))
                }
            },
        }
    }
}

proof fn lemma_first_at_err_persists(
    bdom: Set<Seq<char>>,
    secs: Set<Seq<char>>,
    pairs: Seq<(Seq<char>, Seq<char>)>,
    i: nat,
    n: nat,
)
    requires
        i <= n,
        first_at_prefix(bdom, secs, pairs, i) is Err,
    ensures
        first_at_prefix(bdom, secs, pairs, n) == first_at_prefix(bdom, secs, pairs, i),
    decreases n - i,
{
    if i < n {
        lemma_first_at_err_persists(bdom, secs, pairs, i, (n - 1) as nat);
    }
}

/// The surface a decision names: a section scene and, when given
/// non-blank, a registered entity.
pub open spec fn surface_step(
    secs: Set<Seq<char>>,
    edom: Set<Seq<char>>,
    surface: Option<(Seq<char>, Option<Seq<char>>)>,
) -> Result<Option<(Seq<char>, Option<Seq<char>>)>, Seq<char>> {
    match surface {
        None => Ok(None),
        Some((scene, obj)) => {
            let s = trim_seq(scene);
            if s.len() == 0 {
                Err("set_disclosure: surface needs a scene ref"@)
            } else if !secs.contains(s) {
                Err("set_disclosure: surface scene `"@ + s + "` not present as a section"@)
            } else {
                match obj {
                    Some(o) => if trim_seq(o).len() > 0 {
                        if !edom.contains(trim_seq(o)) {
                            Err(
                                "set_disclosure: surface object `"@ + trim_seq(o)
                                    + "` not present in the entity registry"@,
                            )
                        } else {
                            Ok(Some((s, Some(trim_seq(o)))))
                        }
                    } else {
                        Ok(Some((s, None)))
                    },
                    None => Ok(Some((s, None))),
                }
            }
        },
    }
}

/// What one disclosure decision sets: `(telling, fact, override)`, or the
/// refusal. A withhold mode or any first-canon-point pin needs a fact with
/// a typed claim.
pub open spec fn override_outcome(s: crate::registry::NarrState, d: DecisionView) -> Result<
    (Seq<char>, Seq<char>, OverrideView),
    Seq<char>,
> {
    let telling = trim_seq(d.telling);
    let fact = trim_seq(d.fact);
    let fm = s.facts;
    let tag = trim_seq(d.mode);
    if !s.plans.contains_key(telling) {
        Err(
            "set_disclosure: telling `"@ + telling
                + "` not present in the disclosure_plans registry (add-disclosure-plan first)"@,
        )
    } else if !fm.contains_key(fact) {
        Err("set_disclosure: fact `"@ + fact + "` not present in narrative_facts"@)
    } else {
        match mode_of(tag) {
            None => Err(
                "set_disclosure: unknown mode `"@ + tag
                    + "` (expected one of: withhold, state, hint, imply)"@,
            ),
            Some(mode) => if (mode == DisclosureMode::Withhold || d.first_at.len() > 0)
                && fm[fact].typed is None {
                Err(
                    "set_disclosure: fact `"@ + fact
                        + "` has no typed claim, but a withhold/first_at disclosure decision is deterministically un-gateable without one (the premature-leak gate matches by typed tuple — author a typed leg first)"@,
                )
            } else {
                match first_at_prefix(
                    s.branches.dom(),
                    s.sections,
                    d.first_at,
                    d.first_at.len(),
                ) {
                    Err(m) => Err(m),
                    Ok(fa) => match surface_step(s.sections, s.entities.dom(), d.surface) {
                        Err(m) => Err(m),
                        Ok(sf) => Ok((telling, fact, OverrideView { mode, first_at: fa, surface: sf })),
                    },
                }
            },
        }
    }
}

fn text_maps_equal(a: &StrMap<String>, b: &StrMap<String>) -> (r: bool)
    requires
        a.wf(),
        b.wf(),
    ensures
        r == (text_map(*a) == text_map(*b)),
{
    proof {
        a.lemma_wf();
        b.lemma_wf();
    }
    if a.len() != b.len() {
        proof {
            assert(text_map(*a).dom() =~= a@.dom());
            assert(text_map(*b).dom() =~= b@.dom());
        }
        return false;
    }
    let n = a.len();
    let mut i: usize = 0;
    while i < n
        invariant
            a.wf(),
            b.wf(),
            n == a.size(),
            n == b@.len(),
            i <= n,
            forall|j: int|
                0 <= j < i ==> b@.contains_key(#[trigger] a.key_seq()[j]) && b@[a.key_seq()[j]]@
                    == a.val_seq()[j]@,
        decreases n - i,
    {
        proof {
            a.lemma_wf();
        }
        let k = a.key_at(i);
        let v = a.val_at(i);
        match b.get(k.as_str()) {
            None => {
                proof {
                    assert(text_map(*a).contains_key(k@));
                }
                return false;
            },
            Some(w) => {
                if !str_eq(w.as_str(), v.as_str()) {
                    proof {
                        assert(a@.contains_key(a.key_seq()[i as int]));
                        assert(a@[k@] == *v);
                        assert(text_map(*a)[k@] != text_map(*b)[k@]);
                    }
                    return false;
                }
            },
        }
        i = i + 1;
    }
    proof {
        a.lemma_wf();
        b.lemma_wf();
        assert(a@.dom().subset_of(b@.dom())) by {
            assert forall|k: Seq<char>| a@.contains_key(k) implies b@.contains_key(k) by {
                let j = choose|j: int| 0 <= j < a.size() && a.key_seq()[j] == k;
                assert(b@.contains_key(a.key_seq()[j]));
            }
        }
        vstd::set_lib::lemma_subset_equality(a@.dom(), b@.dom());
        assert forall|k: Seq<char>| #[trigger] text_map(*a).contains_key(k) implies text_map(
            *b,
        ).contains_key(k) && text_map(*a)[k] == text_map(*b)[k] by {
            let j = choose|j: int| 0 <= j < a.size() && a.key_seq()[j] == k;
            assert(b@.contains_key(a.key_seq()[j]));
        }
        assert(text_map(*a) =~= text_map(*b));
    }
    true
}

fn overrides_equal(a: &DisclosureOverride, b: &DisclosureOverride) -> (r: bool)
    requires
        a.first_at.wf(),
        b.first_at.wf(),
    ensures
        r == (a.deep_view() == b.deep_view()),
{
    let surf = match (&a.surface, &b.surface) {
        (None, None) => true,
        (Some(x), Some(y)) => str_eq(x.scene.as_str(), y.scene.as_str()) && crate::model::opt_eq(
            &x.object,
            &y.object,
        ),
        _ => false,
    };
    a.mode == b.mode && surf && text_maps_equal(&a.first_at, &b.first_at)
}

} // verus!

verus! {

/// Set one per-fact disclosure override within a telling: the telling and
/// the fact must exist, a withhold mode or any first-canon-point pin needs a
/// typed fact, every pin names a known world-line at a section, the
/// surface a section and a registered entity. Last write wins; returns
/// whether the stored override changed.
pub fn apply_disclosure_override(store: &mut AtomicStore, decision: DisclosureDecision) -> (r: Result<
    bool,
    AtomicMutateError,
>)
    ensures
        final(store).wf(),
        ({
            let pm = plans_v(old(store).disclosure_plans);
            let v = override_outcome(crate::registry::narr_of(*old(store)), decision_v(decision));
            match r {
                Ok(changed) => v is Ok && ({
                    let (t, f, ov) = v->Ok_0;
                    &&& plans_v(final(store).disclosure_plans) == pm.insert(
                        t,
                        PlanView { overrides: pm[t].overrides.insert(f, ov), ..pm[t] },
                    )
                    &&& changed == !(pm[t].overrides.contains_key(f) && pm[t].overrides[f] == ov)
                }) && *final(store) == (AtomicStore {
                    disclosure_plans: final(store).disclosure_plans,
                    ..*old(store)
                }),
                Err(e) => *final(store) == *old(store) && match v {
                    Err(m) => refusal(e) == Refusal::Validation(m),
                    Ok(_) => false,
                },
            }
        }),
{
    store.establish_wf();
    proof {
        crate::registry::lemma_narr_of(*store);
    }
    let ghost dv = decision_v(decision);
    let telling = trim(decision.telling_id);
    let fact = trim(decision.fact_id);
    if !store.disclosure_plans.contains_key(telling.as_str()) {
        return Err(
            AtomicMutateError::Validation(
                cat3(
                    "set_disclosure: telling `",
                    telling.as_str(),
                    "` not present in the disclosure_plans registry (add-disclosure-plan first)",
                ),
            ),
        );
    }
    let fact_is_typed = match store.narrative_facts.get(fact.as_str()) {
        Some(f) => f.typed.is_some(),
        None => {
            return Err(
                AtomicMutateError::Validation(
                    cat3("set_disclosure: fact `", fact.as_str(), "` not present in narrative_facts"),
                ),
            );
        },
    };
    let tag = trim(decision.mode);
    let mode = match DisclosureMode::from_tag(tag.as_str()) {
        Some(m) => m,
        None => {
            return Err(
                AtomicMutateError::Validation(
                    cat3(
                        "set_disclosure: unknown mode `",
                        tag.as_str(),
                        "` (expected one of: withhold, state, hint, imply)",
                    ),
                ),
            );
        },
    };
    let has_first_at = decision.first_at.len() > 0;
    if (mode == DisclosureMode::Withhold || has_first_at) && !fact_is_typed {
        return Err(
            AtomicMutateError::Validation(
                cat3(
                    "set_disclosure: fact `",
                    fact.as_str(),
                    "` has no typed claim, but a withhold/first_at disclosure decision is deterministically un-gateable without one (the premature-leak gate matches by typed tuple — author a typed leg first)",
                ),
            ),
        );
    }
    let ghost bdom = store.branches@.dom();
    let ghost secs = store.sections@.dom();
    let mut first_at_map: StrMap<String> = StrMap::new();
    let mut i: usize = 0;
    assert(text_map(first_at_map) =~= Map::<Seq<char>, Seq<char>>::empty());
    while i < decision.first_at.len()
        invariant
            store.wf(),
            *store == *old(store),
            bdom == store.branches@.dom(),
            secs == store.sections@.dom(),
            dv == decision_v(decision),
            dv.first_at.len() == decision.first_at@.len(),
            i <= decision.first_at@.len(),
            first_at_map.wf(),
            first_at_prefix(bdom, secs, dv.first_at, i as nat) == Ok::<_, Seq<char>>(
                text_map(first_at_map),
            ),
            telling@ == trim_seq(dv.telling),
            fact@ == trim_seq(dv.fact),
            store.disclosure_plans@.contains_key(telling@),
            reg_v(store.narrative_facts).contains_key(fact@),
            mode_of(trim_seq(dv.mode)) == Some(mode),
            !((mode == DisclosureMode::Withhold || dv.first_at.len() > 0) && reg_v(
                store.narrative_facts,
            )[fact@].typed is None),
        decreases decision.first_at@.len() - i,
    {
        proof {
            crate::registry::lemma_narr_of(*store);
            if first_at_prefix(bdom, secs, dv.first_at, (i + 1) as nat) is Err {
                lemma_first_at_err_persists(bdom, secs, dv.first_at, (i + 1) as nat, dv.first_at.len());
            }
        }
        assert(dv.first_at[i as int] == (decision.first_at@[i as int].0@, decision.first_at@[i as int].1@));
        let b = trim(decision.first_at[i].0.as_str());
        let c = trim(decision.first_at[i].1.as_str());
        if b.as_str().unicode_len() == 0 || c.as_str().unicode_len() == 0 {
            return Err(
                AtomicMutateError::Validation(
                    owned("set_disclosure: each first_at needs branch=coord (both non-empty)"),
                ),
            );
        }
        if !is_known_world(&store.branches, b.as_str()) {
            return Err(
                AtomicMutateError::Validation(
                    cat3(
                        "set_disclosure: first_at branch `",
                        b.as_str(),
                        "` not present in the branch registry",
                    ),
                ),
            );
        }
        if !store.sections.contains_key(c.as_str()) {
            return Err(
                AtomicMutateError::Validation(
                    cat3(
                        "set_disclosure: first_at coord `",
                        c.as_str(),
                        "` not present as a section (canon coordinates are structure refs)",
                    ),
                ),
            );
        }
        let ghost before = text_map(first_at_map);
        let ghost bv = b@;
        let ghost cv = c@;
        let dup_msg = cat3("set_disclosure: duplicate first_at branch `", b.as_str(), "`");
        if first_at_map.insert(b, c).is_some() {
            return Err(AtomicMutateError::Validation(dup_msg));
        }
        assert(text_map(first_at_map) =~= before.insert(bv, cv));
        i = i + 1;
    }
    let surface = match decision.surface {
        None => None,
        Some((scene_raw, object_raw)) => {
            let scene = trim(scene_raw);
            if scene.as_str().unicode_len() == 0 {
                return Err(
                    AtomicMutateError::Validation(owned("set_disclosure: surface needs a scene ref")),
                );
            }
            if !store.sections.contains_key(scene.as_str()) {
                return Err(
                    AtomicMutateError::Validation(
                        cat3(
                            "set_disclosure: surface scene `",
                            scene.as_str(),
                            "` not present as a section",
                        ),
                    ),
                );
            }
            let object = match object_raw {
                Some(o) => {
                    let ot = trim(o);
                    if ot.as_str().unicode_len() > 0 {
                        if !store.entities.contains_key(ot.as_str()) {
                            return Err(
                                AtomicMutateError::Validation(
                                    cat3(
                                        "set_disclosure: surface object `",
                                        ot.as_str(),
                                        "` not present in the entity registry",
                                    ),
                                ),
                            );
                        }
                        Some(ot)
                    } else {
                        None
                    }
                },
                None => None,
            };
            Some(DisclosureSurface { scene, object })
        },
    };
    let new_override = DisclosureOverride { mode, first_at: first_at_map, surface };
    let ghost ov = new_override.deep_view();
    let ghost pm = plans_v(store.disclosure_plans);
    let ghost tv = telling@;
    let ghost fv = fact@;
    proof {
        lemma_plans_wf(store.disclosure_plans, tv);
    }
    let ghost before_plans = store.disclosure_plans;
    let mut plan = match store.disclosure_plans.remove(telling.as_str()) {
        Some(p) => p,
        None => {
            return Err(
                AtomicMutateError::Validation(
                    cat3(
                        "set_disclosure: telling `",
                        telling.as_str(),
                        "` not present in the disclosure_plans registry (add-disclosure-plan first)",
                    ),
                ),
            );
        },
    };
    let ghost pv = plan.deep_view();
    assert(pv == pm[tv]);
    let changed = match plan.overrides.get(fact.as_str()) {
        Some(existing) => !overrides_equal(existing, &new_override),
        None => true,
    };
    plan.overrides.insert(fact, new_override);
    assert(plan.deep_view().overrides =~= pv.overrides.insert(fv, ov));
    assert(plan_wf(plan)) by {
        assert forall|f: Seq<char>| #[trigger] plan.overrides@.contains_key(f) implies plan.overrides@[
            f
        ].first_at.wf() by {
            if f != fv {
                assert(before_plans@[tv].overrides@.contains_key(f));
            }
        }
    }
    let ghost after = plan.deep_view();
    store.disclosure_plans.insert(telling, plan);
    proof {
        assert(store.disclosure_plans@ =~= before_plans@.insert(tv, store.disclosure_plans@[tv]));
        lemma_plans_wf_update(before_plans, store.disclosure_plans, tv);
        assert(plans_v(store.disclosure_plans) =~= pm.insert(tv, after));
        assert(after == (PlanView { overrides: pm[tv].overrides.insert(fv, ov), ..pm[tv] }));
    }
    Ok(changed)
}

/// Set one per-fact disclosure override (see [`apply_disclosure_override`]).
pub fn set_disclosure(store: &mut AtomicStore, decision: DisclosureDecision) -> (r: Result<
    (),
    AtomicMutateError,
>)
    ensures
        final(store).wf(),
        ({
            let pm = plans_v(old(store).disclosure_plans);
            let v = override_outcome(crate::registry::narr_of(*old(store)), decision_v(decision));
            match r {
                Ok(()) => v is Ok && ({
                    let (t, f, ov) = v->Ok_0;
                    plans_v(final(store).disclosure_plans) == pm.insert(
                        t,
                        PlanView { overrides: pm[t].overrides.insert(f, ov), ..pm[t] },
                    )
                }) && *final(store) == (AtomicStore {
                    disclosure_plans: final(store).disclosure_plans,
                    ..*old(store)
                }),
                Err(e) => *final(store) == *old(store) && match v {
                    Err(m) => refusal(e) == Refusal::Validation(m),
                    Ok(_) => false,
                },
            }
        }),
{
    store.establish_wf();
    match apply_disclosure_override(store, decision) {
        Ok(_) => Ok(()),
        Err(e) => Err(e),
    }
}

/// Every first canon point an accepted pin list maps to is a section, under
/// a known world-line.
proof fn lemma_first_at_points_are_sections(
    bdom: Set<Seq<char>>,
    secs: Set<Seq<char>>,
    pairs: Seq<(Seq<char>, Seq<char>)>,
    n: nat,
)
    requires
        first_at_prefix(bdom, secs, pairs, n) is Ok,
    ensures
        forall|b: Seq<char>|
            #[trigger] first_at_prefix(bdom, secs, pairs, n)->Ok_0.contains_key(b) ==> secs.contains(
                first_at_prefix(bdom, secs, pairs, n)->Ok_0[b],
            ) && known_world(bdom, b),
    decreases n,
{
    if n > 0 {
        lemma_first_at_points_are_sections(bdom, secs, pairs, (n - 1) as nat);
    }
}

/// What an accepted disclosure decision refers to exists in the store it is
/// judged against: its telling is a registered plan, its fact is stored,
/// each first canon point is a section under a known world-line, and a
/// surface names a section as its scene and, when it names an object, a
/// registered entity.
pub proof fn lemma_accepted_decision_refers_to_the_store(s: crate::registry::NarrState, d: DecisionView)
    requires
        override_outcome(s, d) is Ok,
    ensures
        ({
            let (t, f, ov) = override_outcome(s, d)->Ok_0;
            &&& s.plans.contains_key(t)
            &&& s.facts.contains_key(f)
            &&& forall|b: Seq<char>|
                #[trigger] ov.first_at.contains_key(b) ==> s.sections.contains(ov.first_at[b])
                    && known_world(s.branches.dom(), b)
            &&& (ov.surface matches Some(sf) ==> {
                &&& s.sections.contains(sf.0)
                &&& (sf.1 matches Some(o) ==> s.entities.contains_key(o))
            })
        }),
{
    lemma_first_at_points_are_sections(s.branches.dom(), s.sections, d.first_at, d.first_at.len());
}

} // verus!
