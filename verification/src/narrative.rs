//! The narrative axis's records: epistemic frames, world-line branches,
//! entities, predicates, perspectival facts and disclosure plans, each with
//! the value its contracts speak of, and the world-line lineage facts and
//! successions are checked against.
use vstd::prelude::*;
use crate::model::{ostr, strs};
use crate::order::str_eq;
use crate::strmap::StrMap;

verus! {

/// The default world-line: known by construction, never registered.
pub const MAIN_BRANCH: &'static str = "main";

/// The id of the default world-line.
pub open spec fn main_branch_id() -> Seq<char> {
    "main"@
}

/// The default world-line's id as text.
pub fn main_branch() -> (r: &'static str)
    ensures
        r@ == main_branch_id(),
{
    "main"
}

/// An epistemic frame: a perspective a fact is held in.
#[derive(Debug, Clone, PartialEq, Eq)]
pub struct Frame {
    pub description: String,
}

/// One parent edge of a world-line: the parent and the canon point
/// (a section) where the line leaves or rejoins it.
#[derive(Debug, Clone, PartialEq, Eq)]
pub struct BranchFork {
    pub branch: String,
    pub at: String,
}

/// A registered world-line: a fork of one parent, a confluence of two or
/// more, or a root.
#[derive(Debug, Clone, PartialEq, Eq)]
pub struct Branch {
    pub description: String,
    pub forks_from: Option<BranchFork>,
    pub converges_from: Vec<BranchFork>,
}

/// A registered narrative entity.
#[derive(Debug, Clone, PartialEq, Eq)]
pub struct Entity {
    pub kind: String,
    pub description: String,
}

/// The shape of a predicate's object leg.
#[derive(Debug, Clone, Copy, PartialEq, Eq, Structural)]
pub enum PredicateObjectKind {
    Entity,
    Scalar,
}

/// A registered predicate.
#[derive(Debug, Clone, PartialEq, Eq)]
pub struct Predicate {
    pub object_kind: PredicateObjectKind,
    pub description: String,
}

/// The object leg of a typed claim.
#[derive(Debug, Clone, PartialEq, Eq)]
pub enum TypedObject {
    Entity { id: String },
    Value { value: String },
}

/// The subject–predicate–object reading of a fact's prose claim.
#[derive(Debug, Clone, PartialEq, Eq)]
pub struct TypedClaim {
    pub subject: String,
    pub predicate: String,
    pub object: TypedObject,
}

/// A recorded contradiction, pinned to the target's claim text at the time
/// it was judged.
#[derive(Debug, Clone, PartialEq, Eq)]
pub struct ConflictAssertion {
    pub target: String,
    pub target_claim_sha256: String,
}

/// Whether a fact is marked as a setup that expects a payoff.
#[derive(Debug, Clone, Copy, PartialEq, Eq, Structural)]
pub enum PayoffExpectation {
    Unmarked,
    Expected,
}

/// A claim held in one frame, on one world-line, over a canon-time extent.
#[derive(Debug, Clone, PartialEq, Eq)]
pub struct NarrativeFact {
    pub frame: String,
    pub branch: String,
    pub entities: Vec<String>,
    pub claim: String,
    pub canon_from: String,
    pub canon_to: Option<String>,
    pub evidence: Vec<String>,
    pub conflicts_with: Vec<ConflictAssertion>,
    pub supersedes_in_frame: Option<String>,
    pub payoff_expectation: PayoffExpectation,
    pub pays_off: Vec<String>,
    pub typed: Option<TypedClaim>,
    pub quote: Option<String>,
    pub quote_sha256: Option<String>,
}

/// How a fact reaches the reader of a telling.
#[derive(Debug, Clone, Copy, PartialEq, Eq, Structural)]
pub enum DisclosureMode {
    Withhold,
    State,
    Hint,
    Imply,
}

/// The diegetic surface a disclosure happens on: a scene, and optionally
/// an entity in it.
#[derive(Debug, Clone, PartialEq, Eq)]
pub struct DisclosureSurface {
    pub scene: String,
    pub object: Option<String>,
}

/// One per-fact disclosure decision of a telling: the mode, the first
/// canon point per world-line, and the surface.
#[derive(Debug, Clone, PartialEq, Eq)]
pub struct DisclosureOverride {
    pub mode: DisclosureMode,
    pub first_at: StrMap<String>,
    pub surface: Option<DisclosureSurface>,
}

/// A named telling over the fact base: its policy and its per-fact
/// overrides.
#[derive(Debug, Clone, PartialEq, Eq)]
pub struct DisclosurePlan {
    pub description: String,
    pub default_mode: DisclosureMode,
    pub overrides: StrMap<DisclosureOverride>,
}

// ---------------------------------------------------------------------------
// Values.
// ---------------------------------------------------------------------------
impl DeepView for Frame {
    type V = Seq<char>;

    open spec fn deep_view(&self) -> Seq<char> {
        self.description@
    }
}

impl DeepView for BranchFork {
    type V = (Seq<char>, Seq<char>);

    open spec fn deep_view(&self) -> Self::V {
        (self.branch@, self.at@)
    }
}

/// A world-line by value: description, fork edge, confluence edges.
pub struct BranchView {
    pub description: Seq<char>,
    pub forks_from: Option<(Seq<char>, Seq<char>)>,
    pub converges_from: Seq<(Seq<char>, Seq<char>)>,
}

impl DeepView for Branch {
    type V = BranchView;

    open spec fn deep_view(&self) -> BranchView {
        BranchView {
            description: self.description@,
            forks_from: self.forks_from.deep_view(),
            converges_from: self.converges_from.deep_view(),
        }
    }
}

impl DeepView for Entity {
    type V = (Seq<char>, Seq<char>);

    open spec fn deep_view(&self) -> Self::V {
        (self.kind@, self.description@)
    }
}

impl DeepView for Predicate {
    type V = (PredicateObjectKind, Seq<char>);

    open spec fn deep_view(&self) -> Self::V {
        (self.object_kind, self.description@)
    }
}

/// An object leg by value.
pub enum ObjectView {
    Entity(Seq<char>),
    Value(Seq<char>),
}

impl DeepView for TypedObject {
    type V = ObjectView;

    open spec fn deep_view(&self) -> ObjectView {
        match self {
            TypedObject::Entity { id } => ObjectView::Entity(id@),
            TypedObject::Value { value } => ObjectView::Value(value@),
        }
    }
}

/// A typed claim by value: subject, predicate, object.
pub struct TypedView {
    pub subject: Seq<char>,
    pub predicate: Seq<char>,
    pub object: ObjectView,
}

impl DeepView for TypedClaim {
    type V = TypedView;

    open spec fn deep_view(&self) -> TypedView {
        TypedView {
            subject: self.subject@,
            predicate: self.predicate@,
            object: self.object.deep_view(),
        }
    }
}

impl DeepView for ConflictAssertion {
    type V = (Seq<char>, Seq<char>);

    open spec fn deep_view(&self) -> Self::V {
        (self.target@, self.target_claim_sha256@)
    }
}

/// A fact by value.
pub struct FactView {
    pub frame: Seq<char>,
    pub branch: Seq<char>,
    pub entities: Seq<Seq<char>>,
    pub claim: Seq<char>,
    pub canon_from: Seq<char>,
    pub canon_to: Option<Seq<char>>,
    pub evidence: Seq<Seq<char>>,
    pub conflicts_with: Seq<(Seq<char>, Seq<char>)>,
    pub supersedes_in_frame: Option<Seq<char>>,
    pub payoff_expectation: PayoffExpectation,
    pub pays_off: Seq<Seq<char>>,
    pub typed: Option<TypedView>,
    pub quote: Option<Seq<char>>,
    pub quote_sha256: Option<Seq<char>>,
}

impl DeepView for NarrativeFact {
    type V = FactView;

    open spec fn deep_view(&self) -> FactView {
        FactView {
            frame: self.frame@,
            branch: self.branch@,
            entities: strs(self.entities),
            claim: self.claim@,
            canon_from: self.canon_from@,
            canon_to: ostr(self.canon_to),
            evidence: strs(self.evidence),
            conflicts_with: self.conflicts_with.deep_view(),
            supersedes_in_frame: ostr(self.supersedes_in_frame),
            payoff_expectation: self.payoff_expectation,
            pays_off: strs(self.pays_off),
            typed: self.typed.deep_view(),
            quote: ostr(self.quote),
            quote_sha256: ostr(self.quote_sha256),
        }
    }
}

impl DeepView for DisclosureSurface {
    type V = (Seq<char>, Option<Seq<char>>);

    open spec fn deep_view(&self) -> Self::V {
        (self.scene@, ostr(self.object))
    }
}

/// The characters of every value of a text-valued map.
pub open spec fn text_map(m: StrMap<String>) -> Map<Seq<char>, Seq<char>> {
    m@.map_values(|s: String| s@)
}

/// An override by value: mode, first canon point per world-line, surface.
pub struct OverrideView {
    pub mode: DisclosureMode,
    pub first_at: Map<Seq<char>, Seq<char>>,
    pub surface: Option<(Seq<char>, Option<Seq<char>>)>,
}

impl DeepView for DisclosureOverride {
    type V = OverrideView;

    open spec fn deep_view(&self) -> OverrideView {
        OverrideView {
            mode: self.mode,
            first_at: text_map(self.first_at),
            surface: self.surface.deep_view(),
        }
    }
}

/// A plan by value: description, default mode, overrides by fact id.
pub struct PlanView {
    pub description: Seq<char>,
    pub default_mode: DisclosureMode,
    pub overrides: Map<Seq<char>, OverrideView>,
}

impl DeepView for DisclosurePlan {
    type V = PlanView;

    open spec fn deep_view(&self) -> PlanView {
        PlanView {
            description: self.description@,
            default_mode: self.default_mode,
            overrides: self.overrides@.map_values(|o: DisclosureOverride| o.deep_view()),
        }
    }
}

// ---------------------------------------------------------------------------
// Tags.
// ---------------------------------------------------------------------------
/// The canonical lowercase tag of an object kind.
pub open spec fn object_kind_tag(k: PredicateObjectKind) -> Seq<char> {
    match k {
        PredicateObjectKind::Entity => "entity"@,
        PredicateObjectKind::Scalar => "scalar"@,
    }
}

/// The canonical lowercase tag of a payoff marking.
pub open spec fn payoff_tag(p: PayoffExpectation) -> Seq<char> {
    match p {
        PayoffExpectation::Unmarked => "unmarked"@,
        PayoffExpectation::Expected => "expected"@,
    }
}

/// The canonical lowercase tag of a disclosure mode.
pub open spec fn mode_tag(m: DisclosureMode) -> Seq<char> {
    match m {
        DisclosureMode::Withhold => "withhold"@,
        DisclosureMode::State => "state"@,
        DisclosureMode::Hint => "hint"@,
        DisclosureMode::Imply => "imply"@,
    }
}

/// The object kind a tag names, if any.
pub open spec fn object_kind_of(s: Seq<char>) -> Option<PredicateObjectKind> {
    if s == "entity"@ {
        Some(PredicateObjectKind::Entity)
    } else if s == "scalar"@ {
        Some(PredicateObjectKind::Scalar)
    } else {
        None
    }
}

/// The payoff marking a tag names, if any.
pub open spec fn payoff_of(s: Seq<char>) -> Option<PayoffExpectation> {
    if s == "unmarked"@ {
        Some(PayoffExpectation::Unmarked)
    } else if s == "expected"@ {
        Some(PayoffExpectation::Expected)
    } else {
        None
    }
}

/// The disclosure mode a tag names, if any.
pub open spec fn mode_of(s: Seq<char>) -> Option<DisclosureMode> {
    if s == "withhold"@ {
        Some(DisclosureMode::Withhold)
    } else if s == "state"@ {
        Some(DisclosureMode::State)
    } else if s == "hint"@ {
        Some(DisclosureMode::Hint)
    } else if s == "imply"@ {
        Some(DisclosureMode::Imply)
    } else {
        None
    }
}

impl PredicateObjectKind {
    /// Parse the canonical tag; `None` for any other text.
    pub fn from_tag(s: &str) -> (r: Option<Self>)
        ensures
            r == object_kind_of(s@),
    {
        if str_eq(s, "entity") {
            Some(PredicateObjectKind::Entity)
        } else if str_eq(s, "scalar") {
            Some(PredicateObjectKind::Scalar)
        } else {
            None
        }
    }

    /// Canonical lowercase tag.
    pub fn as_str(self) -> (r: &'static str)
        ensures
            r@ == object_kind_tag(self),
    {
        match self {
            PredicateObjectKind::Entity => "entity",
            PredicateObjectKind::Scalar => "scalar",
        }
    }
}

impl PayoffExpectation {
    /// Parse the canonical tag; `None` for any other text.
    pub fn from_tag(s: &str) -> (r: Option<Self>)
        ensures
            r == payoff_of(s@),
    {
        if str_eq(s, "unmarked") {
            Some(PayoffExpectation::Unmarked)
        } else if str_eq(s, "expected") {
            Some(PayoffExpectation::Expected)
        } else {
            None
        }
    }

    /// Canonical lowercase tag.
    pub fn as_str(self) -> (r: &'static str)
        ensures
            r@ == payoff_tag(self),
    {
        match self {
            PayoffExpectation::Unmarked => "unmarked",
            PayoffExpectation::Expected => "expected",
        }
    }
}

impl DisclosureMode {
    /// Parse the canonical tag; `None` for any other text.
    pub fn from_tag(s: &str) -> (r: Option<Self>)
        ensures
            r == mode_of(s@),
    {
        if str_eq(s, "withhold") {
            Some(DisclosureMode::Withhold)
        } else if str_eq(s, "state") {
            Some(DisclosureMode::State)
        } else if str_eq(s, "hint") {
            Some(DisclosureMode::Hint)
        } else if str_eq(s, "imply") {
            Some(DisclosureMode::Imply)
        } else {
            None
        }
    }

    /// Canonical lowercase tag.
    pub fn as_str(self) -> (r: &'static str)
        ensures
            r@ == mode_tag(self),
    {
        match self {
            DisclosureMode::Withhold => "withhold",
            DisclosureMode::State => "state",
            DisclosureMode::Hint => "hint",
            DisclosureMode::Imply => "imply",
        }
    }
}

/// Every tag parses back to the value that wrote it.
pub proof fn lemma_tags_round_trip(k: PredicateObjectKind, p: PayoffExpectation, m: DisclosureMode)
    ensures
        object_kind_of(object_kind_tag(k)) == Some(k),
        payoff_of(payoff_tag(p)) == Some(p),
        mode_of(mode_tag(m)) == Some(m),
{
    reveal_strlit("entity");
    reveal_strlit("scalar");
    reveal_strlit("unmarked");
    reveal_strlit("expected");
    reveal_strlit("withhold");
    reveal_strlit("state");
    reveal_strlit("hint");
    reveal_strlit("imply");
    assert("entity"@[0] != "scalar"@[0]);
    assert("unmarked"@[0] != "expected"@[0]);
    assert("withhold"@.len() != "state"@.len());
    assert("withhold"@.len() != "hint"@.len());
    assert("withhold"@.len() != "imply"@.len());
    assert("state"@.len() != "hint"@.len());
    assert("state"@[0] != "imply"@[0]);
    assert("hint"@.len() != "imply"@.len());
}

impl Default for PayoffExpectation {
    fn default() -> (r: Self)
        ensures
            r == PayoffExpectation::Unmarked,
    {
        PayoffExpectation::Unmarked
    }
}

impl Default for Frame {
    fn default() -> (r: Self)
        ensures
            r.deep_view().len() == 0,
    {
        Frame { description: String::new() }
    }
}

impl Default for Branch {
    fn default() -> (r: Self)
        ensures
            r.deep_view() == (BranchView {
                description: Seq::empty(),
                forks_from: None,
                converges_from: Seq::empty(),
            }),
    {
        let r = Branch { description: String::new(), forks_from: None, converges_from: Vec::new() };
        assert(r.converges_from.deep_view() =~= Seq::<(Seq<char>, Seq<char>)>::empty());
        r
    }
}

impl Default for Entity {
    fn default() -> (r: Self)
        ensures
            r.deep_view() == (Seq::<char>::empty(), Seq::<char>::empty()),
    {
        Entity { kind: String::new(), description: String::new() }
    }
}

// ---------------------------------------------------------------------------
// Equality by value.
// ---------------------------------------------------------------------------
/// Equality of two optional parent edges.
fn fork_opt_eq(a: &Option<BranchFork>, b: &Option<BranchFork>) -> (r: bool)
    ensures
        r == (a.deep_view() == b.deep_view()),
{
    match (a, b) {
        (Some(x), Some(y)) => str_eq(x.branch.as_str(), y.branch.as_str()) && str_eq(
            x.at.as_str(),
            y.at.as_str(),
        ),
        (None, None) => true,
        _ => false,
    }
}

/// Equality of two lists of parent edges.
fn forks_eq(a: &Vec<BranchFork>, b: &Vec<BranchFork>) -> (r: bool)
    ensures
        r == (a.deep_view() == b.deep_view()),
{
    if a.len() != b.len() {
        proof {
            assert(a.deep_view().len() != b.deep_view().len());
        }
        return false;
    }
    let mut i: usize = 0;
    while i < a.len()
        invariant
            a.len() == b.len(),
            i <= a.len(),
            forall|j: int| 0 <= j < i ==> #[trigger] a@[j].deep_view() == b@[j].deep_view(),
        decreases a.len() - i,
    {
        if !(str_eq(a[i].branch.as_str(), b[i].branch.as_str()) && str_eq(
            a[i].at.as_str(),
            b[i].at.as_str(),
        )) {
            proof {
                assert(a.deep_view()[i as int] != b.deep_view()[i as int]);
            }
            return false;
        }
        i = i + 1;
    }
    assert(a.deep_view() =~= b.deep_view());
    true
}

/// A registry value whose equality by value can be decided.
pub trait SameValue: Sized + DeepView {
    /// Whether `self` and `other` are equal by value.
    fn same_value(&self, other: &Self) -> (r: bool)
        ensures
            r == (self.deep_view() == other.deep_view()),
    ;
}

impl SameValue for Frame {
    fn same_value(&self, other: &Self) -> (r: bool) {
        str_eq(self.description.as_str(), other.description.as_str())
    }
}

impl SameValue for Entity {
    fn same_value(&self, other: &Self) -> (r: bool) {
        str_eq(self.kind.as_str(), other.kind.as_str()) && str_eq(
            self.description.as_str(),
            other.description.as_str(),
        )
    }
}

impl SameValue for Predicate {
    fn same_value(&self, other: &Self) -> (r: bool) {
        self.object_kind == other.object_kind && str_eq(
            self.description.as_str(),
            other.description.as_str(),
        )
    }
}

impl SameValue for Branch {
    fn same_value(&self, other: &Self) -> (r: bool) {
        str_eq(self.description.as_str(), other.description.as_str()) && fork_opt_eq(
            &self.forks_from,
            &other.forks_from,
        ) && forks_eq(&self.converges_from, &other.converges_from)
    }
}

} // verus!

verus! {

/// Every plan's overrides, and every override's first canon points, are
/// well-formed maps.
pub closed spec fn plans_wf(m: StrMap<DisclosurePlan>) -> bool {
    forall|k: Seq<char>| #[trigger] m@.contains_key(k) ==> plan_wf(m@[k])
}

/// A plan's overrides, and each override's first canon points, are
/// well-formed maps.
pub open spec fn plan_wf(p: DisclosurePlan) -> bool {
    &&& p.overrides.wf()
    &&& forall|f: Seq<char>| #[trigger] p.overrides@.contains_key(f) ==> p.overrides@[f].first_at.wf()
}

/// The plans of a registry are well formed, as every map value is: their
/// override maps and each override's first canon points.
pub fn plans_are_wf(m: &StrMap<DisclosurePlan>)
    ensures
        plans_wf(*m),
{
    m.establish_wf();
    proof {
        m.lemma_wf();
    }
    let n = m.len();
    let mut i: usize = 0;
    while i < n
        invariant
            m.wf(),
            n == m.size(),
            i <= n,
            forall|j: int| 0 <= j < i ==> plan_wf(#[trigger] m.val_seq()[j]),
        decreases n - i,
    {
        let plan = m.val_at(i);
        plan.overrides.establish_wf();
        proof {
            plan.overrides.lemma_wf();
        }
        let k = plan.overrides.len();
        let mut j: usize = 0;
        while j < k
            invariant
                plan.overrides.wf(),
                k == plan.overrides.size(),
                j <= k,
                forall|q: int| 0 <= q < j ==> (#[trigger] plan.overrides.val_seq()[q]).first_at.wf(),
            decreases k - j,
        {
            let o = plan.overrides.val_at(j);
            o.first_at.establish_wf();
            j = j + 1;
        }
        proof {
            plan.overrides.lemma_wf();
            assert forall|f: Seq<char>| #[trigger] plan.overrides@.contains_key(f) implies plan.overrides@[f].first_at.wf() by {
                let q = choose|q: int| 0 <= q < plan.overrides.size() && plan.overrides.key_seq()[q] == f;
                assert(plan.overrides@.contains_key(plan.overrides.key_seq()[q]));
            }
            assert(plan_wf(*plan));
        }
        i = i + 1;
    }
    proof {
        m.lemma_wf();
        assert forall|key: Seq<char>| #[trigger] m@.contains_key(key) implies plan_wf(m@[key]) by {
            let q = choose|q: int| 0 <= q < m.size() && m.key_seq()[q] == key;
            assert(m@.contains_key(m.key_seq()[q]));
        }
    }
}

/// What [`plans_wf`] says of one plan.
pub proof fn lemma_plans_wf(m: StrMap<DisclosurePlan>, k: Seq<char>)
    requires
        plans_wf(m),
        m@.contains_key(k),
    ensures
        plan_wf(m@[k]),
{
}

/// Replacing or adding one well-formed plan keeps [`plans_wf`]; so does
/// removing one.
pub proof fn lemma_plans_wf_update(m: StrMap<DisclosurePlan>, m2: StrMap<DisclosurePlan>, k: Seq<char>)
    requires
        plans_wf(m),
        m2@ == m@.insert(k, m2@[k]) || m2@ == m@.remove(k),
        m2@.contains_key(k) ==> plan_wf(m2@[k]),
    ensures
        plans_wf(m2),
{
    assert forall|j: Seq<char>| #[trigger] m2@.contains_key(j) implies plan_wf(m2@[j]) by {
        if j != k {
            assert(m@.contains_key(j));
        }
    }
}

/// An empty registry of plans satisfies [`plans_wf`].
pub proof fn lemma_plans_wf_empty(m: StrMap<DisclosurePlan>)
    requires
        m@ == Map::<Seq<char>, DisclosurePlan>::empty(),
    ensures
        plans_wf(m),
{
}

} // verus!

verus! {

/// A copy of a typed claim.
pub fn clone_typed(t: &TypedClaim) -> (r: TypedClaim)
    ensures
        r.deep_view() == t.deep_view(),
{
    let object = match &t.object {
        TypedObject::Entity { id } => TypedObject::Entity { id: id.clone() },
        TypedObject::Value { value } => TypedObject::Value { value: value.clone() },
    };
    TypedClaim { subject: t.subject.clone(), predicate: t.predicate.clone(), object }
}

} // verus!

verus! {

/// A copy of a fact.
pub fn clone_fact(f: &NarrativeFact) -> (r: NarrativeFact)
    ensures
        r.deep_view() == f.deep_view(),
{
    let mut cw: Vec<ConflictAssertion> = Vec::new();
    let mut i: usize = 0;
    while i < f.conflicts_with.len()
        invariant
            i <= f.conflicts_with@.len(),
            cw.deep_view() == f.conflicts_with.deep_view().take(i as int),
        decreases f.conflicts_with@.len() - i,
    {
        let ghost before = cw.deep_view();
        let c = ConflictAssertion {
            target: f.conflicts_with[i].target.clone(),
            target_claim_sha256: f.conflicts_with[i].target_claim_sha256.clone(),
        };
        assert(c.deep_view() == f.conflicts_with.deep_view()[i as int]);
        let ghost cv = c.deep_view();
        cw.push(c);
        assert(cw.deep_view() =~= before.push(cv));
        assert(f.conflicts_with.deep_view().take(i + 1) =~= f.conflicts_with.deep_view().take(
            i as int,
        ).push(cv));
        i = i + 1;
    }
    assert(f.conflicts_with.deep_view().take(f.conflicts_with@.len() as int) =~= f.conflicts_with.deep_view());
    let typed = match &f.typed {
        Some(t) => Some(clone_typed(t)),
        None => None,
    };
    NarrativeFact {
        frame: f.frame.clone(),
        branch: f.branch.clone(),
        entities: crate::model::clone_strings(&f.entities),
        claim: f.claim.clone(),
        canon_from: f.canon_from.clone(),
        canon_to: crate::model::clone_opt(&f.canon_to),
        evidence: crate::model::clone_strings(&f.evidence),
        conflicts_with: cw,
        supersedes_in_frame: crate::model::clone_opt(&f.supersedes_in_frame),
        payoff_expectation: f.payoff_expectation,
        pays_off: crate::model::clone_strings(&f.pays_off),
        typed,
        quote: crate::model::clone_opt(&f.quote),
        quote_sha256: crate::model::clone_opt(&f.quote_sha256),
    }
}

} // verus!
