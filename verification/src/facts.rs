//! Building a narrative fact from its authoring form: the one closed set of
//! scalar invariants every fact write path routes through, and the typed
//! leg's invariants against the entity and predicate registries.
use vstd::prelude::*;
use crate::digest::{sha256_hex, sha256_hex_of};
use crate::model::{AtomicStore, ostr, strs};
use crate::narrative::{
    main_branch, main_branch_id, ConflictAssertion, FactView, NarrativeFact, ObjectView,
    PayoffExpectation, PredicateObjectKind, TypedClaim, TypedObject, TypedView, payoff_of,
};
use crate::order::str_eq;
use crate::registry::{NarrState, is_known_world, known_world, narr_of};
use crate::text::{cat3, owned, trim, trim_seq};

verus! {

/// One fact in its authoring form: the map key and the fields a writer
/// supplies. The quote's hash is never supplied; it is computed.
#[derive(Debug, Clone, PartialEq, Eq)]
pub struct FactImport {
    pub fact_id: String,
    pub frame: String,
    pub branch: Option<String>,
    pub entities: Vec<String>,
    pub claim: String,
    pub canon_from: String,
    pub canon_to: Option<String>,
    pub evidence: Vec<String>,
    pub conflicts_with: Vec<String>,
    pub supersedes_in_frame: Option<String>,
    pub payoff_expectation: Option<String>,
    pub pays_off: Vec<String>,
    pub typed: Option<TypedClaim>,
    pub quote: Option<String>,
}

/// Whether a list of strings holds `s`.
pub fn has_str(v: &Vec<String>, s: &str) -> (r: bool)
    ensures
        r == strs(*v).contains(s@),
{
    let mut i: usize = 0;
    while i < v.len()
        invariant
            i <= v.len(),
            forall|j: int| 0 <= j < i ==> #[trigger] v@[j]@ != s@,
        decreases v.len() - i,
    {
        if str_eq(v[i].as_str(), s) {
            assert(strs(*v)[i as int] == s@);
            return true;
        }
        i = i + 1;
    }
    proof {
        if strs(*v).contains(s@) {
            let j = choose|j: int| 0 <= j < strs(*v).len() && strs(*v)[j] == s@;
            assert(v@[j]@ == s@);
        }
    }
    false
}

// ---------------------------------------------------------------------------
// The typed leg.
// ---------------------------------------------------------------------------
/// An entity leg (`leg` is `subject` or `object`) as checked: trimmed,
/// registered, and listed among the fact's entities.
pub open spec fn entity_leg(
    edom: Set<Seq<char>>,
    fid: Seq<char>,
    leg: Seq<char>,
    raw: Seq<char>,
    listed: Seq<Seq<char>>,
) -> Result<Seq<char>, Seq<char>> {
    let id = trim_seq(raw);
    if id.len() == 0 {
        Err("fact `"@ + fid + "`: typed "@ + leg + " mandatory (non-empty)"@)
    } else if !edom.contains(id) {
        Err(
            "fact `"@ + fid + "`: typed "@ + leg + " `"@ + id
                + "` not present in the entity registry (add_entity / manifest entities[] first; fail-loud)"@,
        )
    } else if !listed.contains(id) {
        Err(
            "fact `"@ + fid + "`: typed "@ + leg + " `"@ + id
                + "` is not a member of the fact's entities list — the entities list stays THE retrieval key; list it there too"@,
        )
    } else {
        Ok(id)
    }
}

/// The typed leg a fact carries after validation against the store, or
/// the refusal of the first rule it breaks.
pub open spec fn typed_outcome(
    s: NarrState,
    fid: Seq<char>,
    t: TypedView,
    listed: Seq<Seq<char>>,
) -> Result<TypedView, Seq<char>> {
    let edom = s.entities.dom();
    match entity_leg(edom, fid, "subject"@, t.subject, listed) {
        Err(m) => Err(m),
        Ok(subject) => {
            let predicate = trim_seq(t.predicate);
            if predicate.len() == 0 {
                Err("fact `"@ + fid + "`: typed predicate mandatory (non-empty)"@)
            } else if !s.predicates.contains_key(predicate) {
                Err(
                    "fact `"@ + fid + "`: typed predicate `"@ + predicate
                        + "` not present in the predicate registry (add_predicate / manifest predicates[] first; fail-loud — rules key off predicate ids, a typo must not silently escape its rule)"@,
                )
            } else {
                let kind = s.predicates[predicate].0;
                let object: Result<ObjectView, Seq<char>> = match (t.object, kind) {
                    (ObjectView::Entity(id), PredicateObjectKind::Entity) => match entity_leg(
                        edom,
                        fid,
                        "object"@,
                        id,
                        listed,
                    ) {
                        Err(m) => Err(m),
                        Ok(i) => Ok(ObjectView::Entity(i)),
                    },
                    (ObjectView::Value(v), PredicateObjectKind::Scalar) => if trim_seq(v).len() == 0 {
                        Err("fact `"@ + fid + "`: typed object value mandatory (non-empty)"@)
                    } else {
                        Ok(ObjectView::Value(trim_seq(v)))
                    },
                    (ObjectView::Entity(_), PredicateObjectKind::Scalar) => Err(
                        "fact `"@ + fid + "`: predicate `"@ + predicate
                            + "` declares object_kind=scalar but the typed object is an entity — shape mismatch (fix the leg or the declaration)"@,
                    ),
                    (ObjectView::Value(_), PredicateObjectKind::Entity) => Err(
                        "fact `"@ + fid + "`: predicate `"@ + predicate
                            + "` declares object_kind=entity but the typed object is a scalar value — shape mismatch (fix the leg or the declaration)"@,
                    ),
                };
                match object {
                    Err(m) => Err(m),
                    Ok(o) => Ok(TypedView { subject, predicate, object: o }),
                }
            }
        },
    }
}

fn check_entity_leg(
    store: &AtomicStore,
    fact_id: &str,
    leg: &str,
    raw: &str,
    fact_entities: &Vec<String>,
) -> (r: Result<String, String>)
    requires
        store.wf(),
    ensures
        match r {
            Ok(id) => entity_leg(store.entities@.dom(), fact_id@, leg@, raw@, strs(*fact_entities))
                == Ok::<_, Seq<char>>(id@),
            Err(m) => entity_leg(store.entities@.dom(), fact_id@, leg@, raw@, strs(*fact_entities))
                == Err::<Seq<char>, _>(m@),
        },
{
    let id = trim(raw);
    if id.as_str().unicode_len() == 0 {
        let mut m = cat3("fact `", fact_id, "`: typed ");
        m.append(leg);
        m.append(" mandatory (non-empty)");
        return Err(m);
    }
    if !store.entities.contains_key(id.as_str()) {
        let mut m = cat3("fact `", fact_id, "`: typed ");
        m.append(leg);
        m.append(" `");
        m.append(id.as_str());
        m.append(
            "` not present in the entity registry (add_entity / manifest entities[] first; fail-loud)",
        );
        return Err(m);
    }
    if !has_str(fact_entities, id.as_str()) {
        let mut m = cat3("fact `", fact_id, "`: typed ");
        m.append(leg);
        m.append(" `");
        m.append(id.as_str());
        m.append(
            "` is not a member of the fact's entities list — the entities list stays THE retrieval key; list it there too",
        );
        return Err(m);
    }
    Ok(id)
}

/// Validate and shape one typed leg against the store: the subject (and an
/// entity object) registered and listed among the fact's entities, the
/// predicate registered, the object's shape the one the predicate declares.
pub fn build_typed_claim(
    store: &AtomicStore,
    fact_id: &str,
    t: &TypedClaim,
    fact_entities: &Vec<String>,
) -> (r: Result<TypedClaim, String>)
    ensures
        match r {
            Ok(c) => typed_outcome(narr_of(*store), fact_id@, t.deep_view(), strs(*fact_entities)) == Ok::<
                _,
                Seq<char>,
            >(c.deep_view()),
            Err(m) => typed_outcome(narr_of(*store), fact_id@, t.deep_view(), strs(*fact_entities))
                == Err::<TypedView, _>(m@),
        },
{
    store.establish_wf();
    proof {
        crate::registry::lemma_narr_of(*store);
    }
    let subject = check_entity_leg(store, fact_id, "subject", t.subject.as_str(), fact_entities)?;
    let predicate = trim(t.predicate.as_str());
    if predicate.as_str().unicode_len() == 0 {
        return Err(cat3("fact `", fact_id, "`: typed predicate mandatory (non-empty)"));
    }
    let kind = match store.predicates.get(predicate.as_str()) {
        None => {
            let mut m = cat3("fact `", fact_id, "`: typed predicate `");
            m.append(predicate.as_str());
            m.append(
                "` not present in the predicate registry (add_predicate / manifest predicates[] first; fail-loud — rules key off predicate ids, a typo must not silently escape its rule)",
            );
            return Err(m);
        },
        Some(decl) => decl.object_kind,
    };
    let object = match (&t.object, kind) {
        (TypedObject::Entity { id }, PredicateObjectKind::Entity) => TypedObject::Entity {
            id: check_entity_leg(store, fact_id, "object", id.as_str(), fact_entities)?,
        },
        (TypedObject::Value { value }, PredicateObjectKind::Scalar) => {
            let v = trim(value.as_str());
            if v.as_str().unicode_len() == 0 {
                return Err(cat3("fact `", fact_id, "`: typed object value mandatory (non-empty)"));
            }
            TypedObject::Value { value: v }
        },
        (TypedObject::Entity { .. }, PredicateObjectKind::Scalar) => {
            let mut m = cat3("fact `", fact_id, "`: predicate `");
            m.append(predicate.as_str());
            m.append(
                "` declares object_kind=scalar but the typed object is an entity — shape mismatch (fix the leg or the declaration)",
            );
            return Err(m);
        },
        (TypedObject::Value { .. }, PredicateObjectKind::Entity) => {
            let mut m = cat3("fact `", fact_id, "`: predicate `");
            m.append(predicate.as_str());
            m.append(
                "` declares object_kind=entity but the typed object is a scalar value — shape mismatch (fix the leg or the declaration)",
            );
            return Err(m);
        },
    };
    Ok(TypedClaim { subject, predicate, object })
}

} // verus!

verus! {

// ---------------------------------------------------------------------------
// The scalar invariants of a fact.
// ---------------------------------------------------------------------------
/// A fact's authoring form by value.
pub struct FactImportView {
    pub fact_id: Seq<char>,
    pub frame: Seq<char>,
    pub branch: Option<Seq<char>>,
    pub entities: Seq<Seq<char>>,
    pub claim: Seq<char>,
    pub canon_from: Seq<char>,
    pub canon_to: Option<Seq<char>>,
    pub evidence: Seq<Seq<char>>,
    pub conflicts_with: Seq<Seq<char>>,
    pub supersedes_in_frame: Option<Seq<char>>,
    pub payoff_expectation: Option<Seq<char>>,
    pub pays_off: Seq<Seq<char>>,
    pub typed: Option<TypedView>,
    pub quote: Option<Seq<char>>,
}

impl DeepView for FactImport {
    type V = FactImportView;

    open spec fn deep_view(&self) -> FactImportView {
        FactImportView {
            fact_id: self.fact_id@,
            frame: self.frame@,
            branch: ostr(self.branch),
            entities: strs(self.entities),
            claim: self.claim@,
            canon_from: self.canon_from@,
            canon_to: ostr(self.canon_to),
            evidence: strs(self.evidence),
            conflicts_with: strs(self.conflicts_with),
            supersedes_in_frame: ostr(self.supersedes_in_frame),
            payoff_expectation: ostr(self.payoff_expectation),
            pays_off: strs(self.pays_off),
            typed: self.typed.deep_view(),
            quote: ostr(self.quote),
        }
    }
}

/// The world-line a fact lands on: the default one when omitted, else a
/// known one.
pub open spec fn branch_step(bdom: Set<Seq<char>>, fid: Seq<char>, b: Option<Seq<char>>) -> Result<
    Seq<char>,
    Seq<char>,
> {
    match b {
        None => Ok(main_branch_id()),
        Some(x) => {
            let t = trim_seq(x);
            if t.len() == 0 {
                Err(
                    "fact `"@ + fid + "`: branch must be non-empty when present (omit it for `"@
                        + main_branch_id() + "`)"@,
                )
            } else if !known_world(bdom, t) {
                Err(
                    "fact `"@ + fid + "`: branch `"@ + t
                        + "` not present in the branch registry (add_branch / manifest branches[] first; fail-loud — a typo'd branch must not silently create a world)"@,
                )
            } else {
                Ok(t)
            }
        },
    }
}

fn fact_branch(store: &AtomicStore, fact_id: &str, branch: &Option<String>) -> (r: Result<String, String>)
    requires
        store.wf(),
    ensures
        match r {
            Ok(b) => branch_step(store.branches@.dom(), fact_id@, ostr(*branch)) == Ok::<_, Seq<char>>(b@),
            Err(m) => branch_step(store.branches@.dom(), fact_id@, ostr(*branch)) == Err::<Seq<char>, _>(m@),
        },
{
    match branch {
        None => Ok(owned(main_branch())),
        Some(x) => {
            let t = trim(x.as_str());
            if t.as_str().unicode_len() == 0 {
                let mut m = cat3(
                    "fact `",
                    fact_id,
                    "`: branch must be non-empty when present (omit it for `",
                );
                m.append(main_branch());
                m.append("`)");
                return Err(m);
            }
            if !is_known_world(&store.branches, t.as_str()) {
                let mut m = cat3("fact `", fact_id, "`: branch `");
                m.append(t.as_str());
                m.append(
                    "` not present in the branch registry (add_branch / manifest branches[] first; fail-loud — a typo'd branch must not silently create a world)",
                );
                return Err(m);
            }
            Ok(t)
        },
    }
}

/// The first `n` entity refs as checked: trimmed, registered, each once.
pub open spec fn entities_prefix(edom: Set<Seq<char>>, fid: Seq<char>, raw: Seq<Seq<char>>, n: nat) -> Result<
    Seq<Seq<char>>,
    Seq<char>,
>
    decreases n,
{
    if n == 0 {
        Ok(Seq::empty())
    } else {
        match entities_prefix(edom, fid, raw, (n - 1) as nat) {
            Err(m) => Err(m),
            Ok(acc) => {
                let e = trim_seq(raw[n - 1]);
                if e.len() == 0 {
                    Err("fact `"@ + fid + "`: blank entity ref"@)
                } else if !edom.contains(e) {
                    Err(
                        "fact `"@ + fid + "`: entity `"@ + e
                            + "` not present in the entity registry (add_entity / manifest entities[] first; fail-loud)"@,
                    )
                } else if acc.contains(e) {
                    Err("fact `"@ + fid + "`: duplicate entity ref `"@ + e + "`"@)
                } else {
                    Ok(acc.push(e))
                }
            },
        }
    }
}

/// The first `n` evidence refs as checked: trimmed, each a section.
pub open spec fn evidence_prefix(secs: Set<Seq<char>>, fid: Seq<char>, raw: Seq<Seq<char>>, n: nat) -> Result<
    Seq<Seq<char>>,
    Seq<char>,
>
    decreases n,
{
    if n == 0 {
        Ok(Seq::empty())
    } else {
        match evidence_prefix(secs, fid, raw, (n - 1) as nat) {
            Err(m) => Err(m),
            Ok(acc) => {
                let e = trim_seq(raw[n - 1]);
                if e.len() == 0 {
                    Err("fact `"@ + fid + "`: blank evidence ref"@)
                } else if !secs.contains(e) {
                    Err("fact `"@ + fid + "`: evidence `"@ + e + "` not present as a section"@)
                } else {
                    Ok(acc.push(e))
                }
            },
        }
    }
}

/// The first `n` conflict refs as checked: trimmed, none the fact itself,
/// each unpinned until its target is known.
pub open spec fn conflicts_prefix(fid: Seq<char>, raw: Seq<Seq<char>>, n: nat) -> Result<
    Seq<(Seq<char>, Seq<char>)>,
    Seq<char>,
>
    decreases n,
{
    if n == 0 {
        Ok(Seq::empty())
    } else {
        match conflicts_prefix(fid, raw, (n - 1) as nat) {
            Err(m) => Err(m),
            Ok(acc) => {
                let c = trim_seq(raw[n - 1]);
                if c.len() == 0 {
                    Err("fact `"@ + fid + "`: blank conflicts_with ref"@)
                } else if c == fid {
                    Err(
                        "fact `"@ + fid
                            + "`: conflicts_with itself — a fact cannot contradict itself"@,
                    )
                } else {
                    Ok(acc.push((c, Seq::<char>::empty())))
                }
            },
        }
    }
}

/// The first `n` payoff refs as checked: trimmed, none the fact itself,
/// each once.
pub open spec fn pays_off_prefix(fid: Seq<char>, raw: Seq<Seq<char>>, n: nat) -> Result<
    Seq<Seq<char>>,
    Seq<char>,
>
    decreases n,
{
    if n == 0 {
        Ok(Seq::empty())
    } else {
        match pays_off_prefix(fid, raw, (n - 1) as nat) {
            Err(m) => Err(m),
            Ok(acc) => {
                let t = trim_seq(raw[n - 1]);
                if t.len() == 0 {
                    Err("fact `"@ + fid + "`: blank pays_off ref"@)
                } else if t == fid {
                    Err(
                        "fact `"@ + fid
                            + "`: pays_off itself — a payoff resolves an earlier setup"@,
                    )
                } else if acc.contains(t) {
                    Err("fact `"@ + fid + "`: duplicate pays_off ref `"@ + t + "`"@)
                } else {
                    Ok(acc.push(t))
                }
            },
        }
    }
}

/// Once a prefix is refused, every longer one is refused the same way.
pub proof fn lemma_prefix_err_persists(
    edom: Set<Seq<char>>,
    secs: Set<Seq<char>>,
    fid: Seq<char>,
    raw: Seq<Seq<char>>,
    i: nat,
    n: nat,
)
    requires
        i <= n,
    ensures
        entities_prefix(edom, fid, raw, i) is Err ==> entities_prefix(edom, fid, raw, n)
            == entities_prefix(edom, fid, raw, i),
        evidence_prefix(secs, fid, raw, i) is Err ==> evidence_prefix(secs, fid, raw, n)
            == evidence_prefix(secs, fid, raw, i),
        conflicts_prefix(fid, raw, i) is Err ==> conflicts_prefix(fid, raw, n) == conflicts_prefix(
            fid,
            raw,
            i,
        ),
        pays_off_prefix(fid, raw, i) is Err ==> pays_off_prefix(fid, raw, n) == pays_off_prefix(
            fid,
            raw,
            i,
        ),
    decreases n - i,
{
    if i < n {
        lemma_prefix_err_persists(edom, secs, fid, raw, i, (n - 1) as nat);
    }
}

fn fact_entities(store: &AtomicStore, fact_id: &str, raw: &Vec<String>) -> (r: Result<Vec<String>, String>)
    requires
        store.wf(),
    ensures
        match r {
            Ok(v) => entities_prefix(store.entities@.dom(), fact_id@, strs(*raw), raw@.len())
                == Ok::<_, Seq<char>>(strs(v)),
            Err(m) => entities_prefix(store.entities@.dom(), fact_id@, strs(*raw), raw@.len())
                == Err::<Seq<Seq<char>>, _>(m@),
        },
{
    let ghost edom = store.entities@.dom();
    let mut out: Vec<String> = Vec::new();
    let mut i: usize = 0;
    assert(strs(out) =~= Seq::<Seq<char>>::empty());
    while i < raw.len()
        invariant
            store.wf(),
            edom == store.entities@.dom(),
            i <= raw@.len(),
            entities_prefix(edom, fact_id@, strs(*raw), i as nat) == Ok::<_, Seq<char>>(strs(out)),
        decreases raw@.len() - i,
    {
        proof {
            lemma_prefix_err_persists(
                edom,
                Set::empty(),
                fact_id@,
                strs(*raw),
                (i + 1) as nat,
                raw@.len(),
            );
        }
        let e = trim(raw[i].as_str());
        assert(strs(*raw)[i as int] == raw@[i as int]@);
        if e.as_str().unicode_len() == 0 {
            return Err(cat3("fact `", fact_id, "`: blank entity ref"));
        }
        if !store.entities.contains_key(e.as_str()) {
            let mut m = cat3("fact `", fact_id, "`: entity `");
            m.append(e.as_str());
            m.append(
                "` not present in the entity registry (add_entity / manifest entities[] first; fail-loud)",
            );
            return Err(m);
        }
        if has_str(&out, e.as_str()) {
            let mut m = cat3("fact `", fact_id, "`: duplicate entity ref `");
            m.append(e.as_str());
            m.append("`");
            return Err(m);
        }
        let ghost before = strs(out);
        out.push(e);
        assert(strs(out) =~= before.push(trim_seq(strs(*raw)[i as int])));
        i = i + 1;
    }
    Ok(out)
}

/// The end of a fact's canon extent: absent, or a section.
pub open spec fn canon_to_step(secs: Set<Seq<char>>, fid: Seq<char>, c: Option<Seq<char>>) -> Result<
    Option<Seq<char>>,
    Seq<char>,
> {
    match c {
        None => Ok(None),
        Some(x) => {
            let t = trim_seq(x);
            if t.len() == 0 {
                Err(
                    "fact `"@ + fid
                        + "`: canon_to must be non-empty when present (omit it instead)"@,
                )
            } else if !secs.contains(t) {
                Err("fact `"@ + fid + "`: canon_to `"@ + t + "` not present as a section"@)
            } else {
                Ok(Some(t))
            }
        },
    }
}

fn fact_canon_to(store: &AtomicStore, fact_id: &str, c: &Option<String>) -> (r: Result<
    Option<String>,
    String,
>)
    requires
        store.wf(),
    ensures
        match r {
            Ok(v) => canon_to_step(store.sections@.dom(), fact_id@, ostr(*c)) == Ok::<_, Seq<char>>(
                ostr(v),
            ),
            Err(m) => canon_to_step(store.sections@.dom(), fact_id@, ostr(*c)) == Err::<
                Option<Seq<char>>,
                _,
            >(m@),
        },
{
    match c {
        None => Ok(None),
        Some(x) => {
            let t = trim(x.as_str());
            if t.as_str().unicode_len() == 0 {
                return Err(
                    cat3(
                        "fact `",
                        fact_id,
                        "`: canon_to must be non-empty when present (omit it instead)",
                    ),
                );
            }
            if !store.sections.contains_key(t.as_str()) {
                let mut m = cat3("fact `", fact_id, "`: canon_to `");
                m.append(t.as_str());
                m.append("` not present as a section");
                return Err(m);
            }
            Ok(Some(t))
        },
    }
}

/// A fact's evidence: at least one ref, each a section.
pub open spec fn evidence_outcome(secs: Set<Seq<char>>, fid: Seq<char>, raw: Seq<Seq<char>>) -> Result<
    Seq<Seq<char>>,
    Seq<char>,
> {
    if raw.len() == 0 {
        Err(
            "fact `"@ + fid
                + "`: evidence mandatory (>= 1 structure-section ref; a claim without provenance is unauditable)"@,
        )
    } else {
        evidence_prefix(secs, fid, raw, raw.len())
    }
}

fn fact_evidence(store: &AtomicStore, fact_id: &str, raw: &Vec<String>) -> (r: Result<Vec<String>, String>)
    requires
        store.wf(),
    ensures
        match r {
            Ok(v) => evidence_outcome(store.sections@.dom(), fact_id@, strs(*raw)) == Ok::<_, Seq<char>>(
                strs(v),
            ),
            Err(m) => evidence_outcome(store.sections@.dom(), fact_id@, strs(*raw)) == Err::<
                Seq<Seq<char>>,
                _,
            >(m@),
        },
{
    if raw.len() == 0 {
        return Err(
            cat3(
                "fact `",
                fact_id,
                "`: evidence mandatory (>= 1 structure-section ref; a claim without provenance is unauditable)",
            ),
        );
    }
    let ghost secs = store.sections@.dom();
    let mut out: Vec<String> = Vec::new();
    let mut i: usize = 0;
    assert(strs(out) =~= Seq::<Seq<char>>::empty());
    while i < raw.len()
        invariant
            store.wf(),
            secs == store.sections@.dom(),
            i <= raw@.len(),
            raw@.len() > 0,
            evidence_prefix(secs, fact_id@, strs(*raw), i as nat) == Ok::<_, Seq<char>>(strs(out)),
        decreases raw@.len() - i,
    {
        proof {
            lemma_prefix_err_persists(
                Set::empty(),
                secs,
                fact_id@,
                strs(*raw),
                (i + 1) as nat,
                raw@.len(),
            );
        }
        let e = trim(raw[i].as_str());
        assert(strs(*raw)[i as int] == raw@[i as int]@);
        if e.as_str().unicode_len() == 0 {
            return Err(cat3("fact `", fact_id, "`: blank evidence ref"));
        }
        if !store.sections.contains_key(e.as_str()) {
            let mut m = cat3("fact `", fact_id, "`: evidence `");
            m.append(e.as_str());
            m.append("` not present as a section");
            return Err(m);
        }
        let ghost before = strs(out);
        out.push(e);
        assert(strs(out) =~= before.push(trim_seq(strs(*raw)[i as int])));
        i = i + 1;
    }
    Ok(out)
}

fn fact_conflicts(fact_id: &str, raw: &Vec<String>) -> (r: Result<Vec<ConflictAssertion>, String>)
    ensures
        match r {
            Ok(v) => conflicts_prefix(fact_id@, strs(*raw), raw@.len()) == Ok::<_, Seq<char>>(
                v.deep_view(),
            ),
            Err(m) => conflicts_prefix(fact_id@, strs(*raw), raw@.len()) == Err::<
                Seq<(Seq<char>, Seq<char>)>,
                _,
            >(m@),
        },
{
    let mut out: Vec<ConflictAssertion> = Vec::new();
    let mut i: usize = 0;
    assert(out.deep_view() =~= Seq::<(Seq<char>, Seq<char>)>::empty());
    while i < raw.len()
        invariant
            i <= raw@.len(),
            conflicts_prefix(fact_id@, strs(*raw), i as nat) == Ok::<_, Seq<char>>(out.deep_view()),
        decreases raw@.len() - i,
    {
        proof {
            lemma_prefix_err_persists(
                Set::empty(),
                Set::empty(),
                fact_id@,
                strs(*raw),
                (i + 1) as nat,
                raw@.len(),
            );
        }
        let c = trim(raw[i].as_str());
        assert(strs(*raw)[i as int] == raw@[i as int]@);
        if c.as_str().unicode_len() == 0 {
            return Err(cat3("fact `", fact_id, "`: blank conflicts_with ref"));
        }
        if str_eq(c.as_str(), fact_id) {
            return Err(
                cat3(
                    "fact `",
                    fact_id,
                    "`: conflicts_with itself — a fact cannot contradict itself",
                ),
            );
        }
        let ghost before = out.deep_view();
        let ghost cv = c@;
        out.push(ConflictAssertion { target: c, target_claim_sha256: String::new() });
        assert(out.deep_view() =~= before.push((cv, Seq::<char>::empty())));
        i = i + 1;
    }
    Ok(out)
}

/// A fact's predecessor in its frame: absent, or another fact's id.
pub open spec fn supersedes_step(fid: Seq<char>, s: Option<Seq<char>>) -> Result<
    Option<Seq<char>>,
    Seq<char>,
> {
    match s {
        None => Ok(None),
        Some(x) => {
            let t = trim_seq(x);
            if t.len() == 0 {
                Err("fact `"@ + fid + "`: supersedes_in_frame must be non-empty when present"@)
            } else if t == fid {
                Err(
                    "fact `"@ + fid
                        + "`: supersedes_in_frame itself — succession needs a predecessor"@,
                )
            } else {
                Ok(Some(t))
            }
        },
    }
}

fn fact_supersedes(fact_id: &str, s: &Option<String>) -> (r: Result<Option<String>, String>)
    ensures
        match r {
            Ok(v) => supersedes_step(fact_id@, ostr(*s)) == Ok::<_, Seq<char>>(ostr(v)),
            Err(m) => supersedes_step(fact_id@, ostr(*s)) == Err::<Option<Seq<char>>, _>(m@),
        },
{
    match s {
        None => Ok(None),
        Some(x) => {
            let t = trim(x.as_str());
            if t.as_str().unicode_len() == 0 {
                return Err(
                    cat3(
                        "fact `",
                        fact_id,
                        "`: supersedes_in_frame must be non-empty when present",
                    ),
                );
            }
            if str_eq(t.as_str(), fact_id) {
                return Err(
                    cat3(
                        "fact `",
                        fact_id,
                        "`: supersedes_in_frame itself — succession needs a predecessor",
                    ),
                );
            }
            Ok(Some(t))
        },
    }
}

/// A fact's payoff marking: unmarked when omitted, else the tag's.
pub open spec fn payoff_step(fid: Seq<char>, p: Option<Seq<char>>) -> Result<PayoffExpectation, Seq<char>> {
    match p {
        None => Ok(PayoffExpectation::Unmarked),
        Some(x) => {
            let tag = trim_seq(x);
            match payoff_of(tag) {
                Some(v) => Ok(v),
                None => Err(
                    "fact `"@ + fid + "`: unknown payoff_expectation `"@ + tag
                        + "` (expected one of: unmarked, expected)"@,
                ),
            }
        },
    }
}

fn fact_payoff(fact_id: &str, p: &Option<String>) -> (r: Result<PayoffExpectation, String>)
    ensures
        match r {
            Ok(v) => payoff_step(fact_id@, ostr(*p)) == Ok::<_, Seq<char>>(v),
            Err(m) => payoff_step(fact_id@, ostr(*p)) == Err::<PayoffExpectation, _>(m@),
        },
{
    match p {
        None => Ok(PayoffExpectation::Unmarked),
        Some(x) => {
            let tag = trim(x.as_str());
            match PayoffExpectation::from_tag(tag.as_str()) {
                Some(v) => Ok(v),
                None => {
                    let mut m = cat3("fact `", fact_id, "`: unknown payoff_expectation `");
                    m.append(tag.as_str());
                    m.append("` (expected one of: unmarked, expected)");
                    Err(m)
                },
            }
        },
    }
}

fn fact_pays_off(fact_id: &str, raw: &Vec<String>) -> (r: Result<Vec<String>, String>)
    ensures
        match r {
            Ok(v) => pays_off_prefix(fact_id@, strs(*raw), raw@.len()) == Ok::<_, Seq<char>>(strs(v)),
            Err(m) => pays_off_prefix(fact_id@, strs(*raw), raw@.len()) == Err::<Seq<Seq<char>>, _>(
                m@,
            ),
        },
{
    let mut out: Vec<String> = Vec::new();
    let mut i: usize = 0;
    assert(strs(out) =~= Seq::<Seq<char>>::empty());
    while i < raw.len()
        invariant
            i <= raw@.len(),
            pays_off_prefix(fact_id@, strs(*raw), i as nat) == Ok::<_, Seq<char>>(strs(out)),
        decreases raw@.len() - i,
    {
        proof {
            lemma_prefix_err_persists(
                Set::empty(),
                Set::empty(),
                fact_id@,
                strs(*raw),
                (i + 1) as nat,
                raw@.len(),
            );
        }
        let t = trim(raw[i].as_str());
        assert(strs(*raw)[i as int] == raw@[i as int]@);
        if t.as_str().unicode_len() == 0 {
            return Err(cat3("fact `", fact_id, "`: blank pays_off ref"));
        }
        if str_eq(t.as_str(), fact_id) {
            return Err(
                cat3("fact `", fact_id, "`: pays_off itself — a payoff resolves an earlier setup"),
            );
        }
        if has_str(&out, t.as_str()) {
            let mut m = cat3("fact `", fact_id, "`: duplicate pays_off ref `");
            m.append(t.as_str());
            m.append("`");
            return Err(m);
        }
        let ghost before = strs(out);
        out.push(t);
        assert(strs(out) =~= before.push(trim_seq(strs(*raw)[i as int])));
        i = i + 1;
    }
    Ok(out)
}

/// A fact's verbatim quote and its computed SHA-256: both absent, or both
/// present.
pub open spec fn quote_step(fid: Seq<char>, q: Option<Seq<char>>) -> Result<
    (Option<Seq<char>>, Option<Seq<char>>),
    Seq<char>,
> {
    match q {
        None => Ok((None, None)),
        Some(x) => {
            let t = trim_seq(x);
            if t.len() == 0 {
                Err(
                    "fact `"@ + fid
                        + "`: quote must be non-empty when present (omit it instead)"@,
                )
            } else {
                Ok((Some(t), Some(sha256_hex_of(t))))
            }
        },
    }
}

fn fact_quote(fact_id: &str, q: &Option<String>) -> (r: Result<(Option<String>, Option<String>), String>)
    ensures
        match r {
            Ok((a, b)) => quote_step(fact_id@, ostr(*q)) == Ok::<_, Seq<char>>((ostr(a), ostr(b))),
            Err(m) => quote_step(fact_id@, ostr(*q)) == Err::<
                (Option<Seq<char>>, Option<Seq<char>>),
                _,
            >(m@),
        },
{
    match q {
        None => Ok((None, None)),
        Some(x) => {
            let t = trim(x.as_str());
            if t.as_str().unicode_len() == 0 {
                return Err(
                    cat3(
                        "fact `",
                        fact_id,
                        "`: quote must be non-empty when present (omit it instead)",
                    ),
                );
            }
            let h = sha256_hex(t.as_str());
            Ok((Some(t), Some(h)))
        },
    }
}

} // verus!

verus! {

/// The rest of a fact's checks, after its id, frame, world-line, entities,
/// claim and canon start are settled.
pub open spec fn fact_rest(
    s: NarrState,
    fid: Seq<char>,
    frame: Seq<char>,
    branch: Seq<char>,
    ents: Seq<Seq<char>>,
    claim: Seq<char>,
    cf: Seq<char>,
    e: FactImportView,
) -> Result<(Seq<char>, FactView), Seq<char>> {
    let secs = s.sections;
    match canon_to_step(secs, fid, e.canon_to) {
        Err(m) => Err(m),
        Ok(ct) => match evidence_outcome(secs, fid, e.evidence) {
            Err(m) => Err(m),
            Ok(ev) => match conflicts_prefix(fid, e.conflicts_with, e.conflicts_with.len()) {
                Err(m) => Err(m),
                Ok(cw) => match supersedes_step(fid, e.supersedes_in_frame) {
                    Err(m) => Err(m),
                    Ok(sup) => match payoff_step(fid, e.payoff_expectation) {
                        Err(m) => Err(m),
                        Ok(po) => match pays_off_prefix(fid, e.pays_off, e.pays_off.len()) {
                            Err(m) => Err(m),
                            Ok(pays) => match quote_step(fid, e.quote) {
                                Err(m) => Err(m),
                                Ok((q, qh)) => {
                                    let typed: Result<Option<TypedView>, Seq<char>> = match e.typed {
                                        None => Ok(None),
                                        Some(t) => match typed_outcome(s, fid, t, ents) {
                                            Err(m) => Err(m),
                                            Ok(tv) => Ok(Some(tv)),
                                        },
                                    };
                                    match typed {
                                        Err(m) => Err(m),
                                        Ok(tv) => Ok(
                                            (
                                                fid,
                                                FactView {
                                                    frame,
                                                    branch,
                                                    entities: ents,
                                                    claim,
                                                    canon_from: cf,
                                                    canon_to: ct,
                                                    evidence: ev,
                                                    conflicts_with: cw,
                                                    supersedes_in_frame: sup,
                                                    payoff_expectation: po,
                                                    pays_off: pays,
                                                    typed: tv,
                                                    quote: q,
                                                    quote_sha256: qh,
                                                },
                                            ),
                                        ),
                                    }
                                },
                            },
                        },
                    },
                },
            },
        },
    }
}

/// The key and contents of the fact an authoring form builds against the
/// store, or the refusal of the first rule it breaks. Cross-fact refs
/// (conflict, succession and payoff targets) are not checked here.
pub open spec fn fact_outcome(s: NarrState, e: FactImportView) -> Result<(Seq<char>, FactView), Seq<char>> {
    let fid = trim_seq(e.fact_id);
    let frame = trim_seq(e.frame);
    if fid.len() == 0 {
        Err("fact_id mandatory (non-empty after trim)"@)
    } else if frame.len() == 0 {
        Err("fact `"@ + fid + "`: frame mandatory (non-empty)"@)
    } else if !s.frames.contains_key(frame) {
        Err(
            "fact `"@ + fid + "`: frame `"@ + frame
                + "` not present in the frames registry (add_frame / manifest frames[] first; fail-loud)"@,
        )
    } else {
        match branch_step(s.branches.dom(), fid, e.branch) {
            Err(m) => Err(m),
            Ok(branch) => match entities_prefix(s.entities.dom(), fid, e.entities, e.entities.len()) {
                Err(m) => Err(m),
                Ok(ents) => {
                    let claim = trim_seq(e.claim);
                    let cf = trim_seq(e.canon_from);
                    if claim.len() == 0 {
                        Err("fact `"@ + fid + "`: claim mandatory (non-empty)"@)
                    } else if cf.len() == 0 {
                        Err("fact `"@ + fid + "`: canon_from mandatory (non-empty)"@)
                    } else if !s.sections.contains(cf) {
                        Err(
                            "fact `"@ + fid + "`: canon_from `"@ + cf
                                + "` not present as a section (canon coordinates are structure-section refs)"@,
                        )
                    } else {
                        fact_rest(s, fid, frame, branch, ents, claim, cf, e)
                    }
                },
            },
        }
    }
}

proof fn lemma_conflicts_avoid(fid: Seq<char>, raw: Seq<Seq<char>>, n: nat)
    requires
        conflicts_prefix(fid, raw, n) is Ok,
    ensures
        forall|i: int|
            0 <= i < conflicts_prefix(fid, raw, n)->Ok_0.len() ==> (#[trigger] conflicts_prefix(
                fid,
                raw,
                n,
            )->Ok_0[i]).0 != fid,
    decreases n,
{
    if n > 0 {
        lemma_conflicts_avoid(fid, raw, (n - 1) as nat);
    }
}

proof fn lemma_pays_avoid(fid: Seq<char>, raw: Seq<Seq<char>>, n: nat)
    requires
        pays_off_prefix(fid, raw, n) is Ok,
    ensures
        forall|i: int|
            0 <= i < pays_off_prefix(fid, raw, n)->Ok_0.len() ==> #[trigger] pays_off_prefix(
                fid,
                raw,
                n,
            )->Ok_0[i] != fid,
    decreases n,
{
    if n > 0 {
        lemma_pays_avoid(fid, raw, (n - 1) as nat);
    }
}

/// A built fact names itself in none of its refs: no conflict, payoff or
/// succession edge points back at its own id.
pub proof fn lemma_fact_refs_avoid_self(s: NarrState, e: FactImportView)
    requires
        fact_outcome(s, e) is Ok,
    ensures
        ({
            let (fid, f) = fact_outcome(s, e)->Ok_0;
            &&& forall|i: int| 0 <= i < f.conflicts_with.len() ==> (#[trigger] f.conflicts_with[i]).0 != fid
            &&& forall|i: int| 0 <= i < f.pays_off.len() ==> #[trigger] f.pays_off[i] != fid
            &&& f.supersedes_in_frame != Some(fid)
        }),
{
    let fid = trim_seq(e.fact_id);
    lemma_conflicts_avoid(fid, e.conflicts_with, e.conflicts_with.len());
    lemma_pays_avoid(fid, e.pays_off, e.pays_off.len());
}

/// Build a fact from its authoring form: the single builder every fact
/// write path routes through. Ids and refs are trimmed; the frame, world-line,
/// entities, canon points and evidence must be registered; the quote's
/// SHA-256 is computed here. Conflict pins are left empty until the targets
/// are known.
pub fn build_candidate_fact(store: &AtomicStore, entry: &FactImport) -> (r: Result<
    (String, NarrativeFact),
    String,
>)
    ensures
        match r {
            Ok((id, f)) => fact_outcome(narr_of(*store), entry.deep_view()) == Ok::<_, Seq<char>>(
                (id@, f.deep_view()),
            ),
            Err(m) => fact_outcome(narr_of(*store), entry.deep_view()) == Err::<(Seq<char>, FactView), _>(m@),
        },
{
    store.establish_wf();
    proof {
        crate::registry::lemma_narr_of(*store);
    }
    let fact_id = trim(entry.fact_id.as_str());
    if fact_id.as_str().unicode_len() == 0 {
        return Err(owned("fact_id mandatory (non-empty after trim)"));
    }
    let fid = fact_id.as_str();
    let frame = trim(entry.frame.as_str());
    if frame.as_str().unicode_len() == 0 {
        return Err(cat3("fact `", fid, "`: frame mandatory (non-empty)"));
    }
    if !store.frames.contains_key(frame.as_str()) {
        let mut m = cat3("fact `", fid, "`: frame `");
        m.append(frame.as_str());
        m.append(
            "` not present in the frames registry (add_frame / manifest frames[] first; fail-loud)",
        );
        return Err(m);
    }
    let branch = fact_branch(store, fid, &entry.branch)?;
    let entities = fact_entities(store, fid, &entry.entities)?;
    let claim = trim(entry.claim.as_str());
    if claim.as_str().unicode_len() == 0 {
        return Err(cat3("fact `", fid, "`: claim mandatory (non-empty)"));
    }
    let canon_from = trim(entry.canon_from.as_str());
    if canon_from.as_str().unicode_len() == 0 {
        return Err(cat3("fact `", fid, "`: canon_from mandatory (non-empty)"));
    }
    if !store.sections.contains_key(canon_from.as_str()) {
        let mut m = cat3("fact `", fid, "`: canon_from `");
        m.append(canon_from.as_str());
        m.append(
            "` not present as a section (canon coordinates are structure-section refs)",
        );
        return Err(m);
    }
    let canon_to = fact_canon_to(store, fid, &entry.canon_to)?;
    let evidence = fact_evidence(store, fid, &entry.evidence)?;
    let conflicts_with = fact_conflicts(fid, &entry.conflicts_with)?;
    let supersedes_in_frame = fact_supersedes(fid, &entry.supersedes_in_frame)?;
    let payoff_expectation = fact_payoff(fid, &entry.payoff_expectation)?;
    let pays_off = fact_pays_off(fid, &entry.pays_off)?;
    let (quote, quote_sha256) = fact_quote(fid, &entry.quote)?;
    let typed = match &entry.typed {
        None => None,
        Some(t) => Some(build_typed_claim(store, fid, t, &entities)?),
    };
    let fact = NarrativeFact {
        frame,
        branch,
        entities,
        claim,
        canon_from,
        canon_to,
        evidence,
        conflicts_with,
        supersedes_in_frame,
        payoff_expectation,
        pays_off,
        typed,
        quote,
        quote_sha256,
    };
    Ok((fact_id, fact))
}

/// Every entity leg of a fact's typed claim, subject and entity object, is
/// one of the fact's listed entities.
pub open spec fn typed_legs_listed(typed: Option<TypedView>, entities: Seq<Seq<char>>) -> bool {
    match typed {
        None => true,
        Some(t) => {
            &&& entities.contains(t.subject)
            &&& (t.object matches ObjectView::Entity(x) ==> entities.contains(x))
        },
    }
}

/// An accepted typed leg names only listed entities.
pub proof fn lemma_typed_outcome_listed(s: NarrState, fid: Seq<char>, t: TypedView, listed: Seq<Seq<char>>)
    requires
        typed_outcome(s, fid, t, listed) is Ok,
    ensures
        typed_legs_listed(Some(typed_outcome(s, fid, t, listed)->Ok_0), listed),
{
}

/// A fact that builds lists every entity its typed claim names.
pub proof fn lemma_built_fact_legs_listed(s: NarrState, e: FactImportView)
    requires
        fact_outcome(s, e) is Ok,
    ensures
        typed_legs_listed(fact_outcome(s, e)->Ok_0.1.typed, fact_outcome(s, e)->Ok_0.1.entities),
{
    let fid = trim_seq(e.fact_id);
    let ents = entities_prefix(s.entities.dom(), fid, e.entities, e.entities.len())->Ok_0;
    match e.typed {
        None => {},
        Some(t) => {
            lemma_typed_outcome_listed(s, fid, t, ents);
        },
    }
}

} // verus!
