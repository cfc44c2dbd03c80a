//! The store's data: sections, changelog entries, inventory entries, and the
//! closed vocabularies they carry, each with the view its contracts speak of.
use vstd::prelude::*;
use crate::strmap::StrMap;
use crate::confirm::ConfirmationEvent;
use crate::narrative::{Branch, DisclosurePlan, Entity, Frame, NarrativeFact, Predicate};

verus! {

/// Lifecycle of a design decision.
#[derive(Debug, Clone, Copy, PartialEq, Eq, Structural)]
pub enum DecisionStatus {
    Active,
    Superseded,
    Removed,
    Open,
}

/// Trace-link claim strength on a binding.
#[derive(Debug, Clone, Copy, PartialEq, Eq, Structural)]
pub enum BindingKind {
    Implements,
    References,
    Verifies,
}

/// Whether a section is held to the implements-coverage axiom.
#[derive(Debug, Clone, Copy, PartialEq, Eq, Structural)]
pub enum CoverageExpectation {
    Normative,
    OutOfScopeHere,
    Informational,
}

/// Which kind of evidence a normative section expects.
#[derive(Debug, Clone, Copy, PartialEq, Eq, Structural)]
pub enum VerificationExpectation {
    Dedicated,
    ByConstruction,
}

/// Lifecycle of an inventory id.
#[derive(Debug, Clone, Copy, PartialEq, Eq, Structural)]
pub enum InventoryStatus {
    Active,
    Deprecated,
    Reserved,
}

/// The outline scalars of a section.
#[derive(Debug, Clone, PartialEq, Eq)]
pub struct SectionSkeleton {
    pub title: String,
    pub parent_doc: String,
    pub parent_section: Option<String>,
    pub decision_status: Option<DecisionStatus>,
}

/// Vendored quote from an external normative source.
#[derive(Debug, Clone, PartialEq, Eq)]
pub struct NormativeExcerpt {
    pub text: String,
    pub anchor_url: String,
    pub source_revision: String,
    /// Lowercase hex SHA-256 of `text`; empty when not revalidatable.
    pub text_sha256: String,
}

/// Where a section lives inside the workspace's EPUB.
#[derive(Debug, Clone, PartialEq, Eq)]
pub struct EpubLocator {
    pub spine_href: String,
    pub fragment: String,
    pub cfi: Option<String>,
}

/// A rejected option and the reason it was rejected.
#[derive(Debug, Clone, PartialEq, Eq)]
pub struct RejectedAlternative {
    pub alternative: String,
    pub reason: String,
}

/// A fenced code block with its language tag.
#[derive(Debug, Clone, PartialEq, Eq)]
pub struct ExampleBlock {
    pub language: String,
    pub code: String,
}

/// A typed trace-link edge from a section to a file (and optionally a symbol).
#[derive(Debug, Clone, PartialEq, Eq)]
pub struct Binding {
    pub file: String,
    pub symbol: Option<String>,
    pub kind: BindingKind,
}

/// The typed fields of one section.
#[derive(Debug, Clone, PartialEq, Eq)]
pub struct AtomicSection {
    pub skeleton: SectionSkeleton,
    pub intent: Option<String>,
    pub rationale_bullets: Vec<String>,
    pub inputs_bullets: Vec<String>,
    pub outputs_bullets: Vec<String>,
    pub caveats_bullets: Vec<String>,
    pub alternatives_rejected: Vec<RejectedAlternative>,
    pub impact_scope: Vec<String>,
    pub superseded_by: Option<String>,
    pub resolved_by: Option<String>,
    pub examples: Vec<ExampleBlock>,
    pub bindings: Vec<Binding>,
    pub coverage_expectation: CoverageExpectation,
    pub verification_expectation: VerificationExpectation,
    pub normative_excerpt: Option<NormativeExcerpt>,
    pub epub_locator: Option<EpubLocator>,
}

/// A changelog entry: the audit half, frozen once appended, and the
/// publishable half, a mutable view that defaults to a copy of the audit half.
#[derive(Debug, Clone, PartialEq, Eq)]
pub struct AtomicChangelogEntry {
    pub decision_summary: Option<String>,
    pub changes_bullets: Vec<String>,
    pub verification_bullets: Vec<String>,
    pub impact_refs: Vec<String>,
    pub carry_forward_bullets: Vec<String>,
    pub publishable_decision_summary: Option<String>,
    pub publishable_changes_bullets: Vec<String>,
    pub publishable_verification_bullets: Vec<String>,
    pub publishable_impact_refs: Vec<String>,
    pub publishable_carry_forward_bullets: Vec<String>,
}

/// An inventory entry (keyed by its inventory id in the store).
#[derive(Debug, Clone, PartialEq, Eq)]
pub struct InventoryEntry {
    pub status: InventoryStatus,
    pub section_ref: Option<String>,
    pub source: Option<String>,
    pub reason: Option<String>,
}

/// The workspace-wide store. Keys are section ids, entry ids, inventory ids,
/// confirmation event ids, and the ids of the narrative axis's frames,
/// world-lines, entities, predicates, facts and tellings.
#[derive(Debug, Clone, PartialEq, Eq)]
pub struct AtomicStore {
    pub sections: StrMap<AtomicSection>,
    pub changelog_entries: StrMap<AtomicChangelogEntry>,
    pub inventory_entries: StrMap<InventoryEntry>,
    pub confirmation_events: StrMap<ConfirmationEvent>,
    pub frames: StrMap<Frame>,
    pub branches: StrMap<Branch>,
    pub entities: StrMap<Entity>,
    pub predicates: StrMap<Predicate>,
    pub narrative_facts: StrMap<NarrativeFact>,
    pub disclosure_plans: StrMap<DisclosurePlan>,
    pub schema_version: u32,
}

// ---------------------------------------------------------------------------
// Views.
// ---------------------------------------------------------------------------

/// The characters of each string in a list.
pub open spec fn strs(v: Vec<String>) -> Seq<Seq<char>> {
    v.deep_view()
}

/// The characters of an optional string.
pub open spec fn ostr(o: Option<String>) -> Option<Seq<char>> {
    o.deep_view()
}

impl DeepView for NormativeExcerpt {
    type V = (Seq<char>, Seq<char>, Seq<char>, Seq<char>);

    open spec fn deep_view(&self) -> Self::V {
        (self.text@, self.anchor_url@, self.source_revision@, self.text_sha256@)
    }
}

impl DeepView for EpubLocator {
    type V = (Seq<char>, Seq<char>, Option<Seq<char>>);

    open spec fn deep_view(&self) -> Self::V {
        (self.spine_href@, self.fragment@, ostr(self.cfi))
    }
}

impl DeepView for RejectedAlternative {
    type V = (Seq<char>, Seq<char>);

    open spec fn deep_view(&self) -> Self::V {
        (self.alternative@, self.reason@)
    }
}

impl DeepView for ExampleBlock {
    type V = (Seq<char>, Seq<char>);

    open spec fn deep_view(&self) -> Self::V {
        (self.language@, self.code@)
    }
}

impl DeepView for Binding {
    type V = (Seq<char>, Option<Seq<char>>, BindingKind);

    open spec fn deep_view(&self) -> Self::V {
        (self.file@, ostr(self.symbol), self.kind)
    }
}

/// The contents of a section, by value.
pub struct SectionView {
    pub title: Seq<char>,
    pub parent_doc: Seq<char>,
    pub parent_section: Option<Seq<char>>,
    pub decision_status: Option<DecisionStatus>,
    pub intent: Option<Seq<char>>,
    pub rationale_bullets: Seq<Seq<char>>,
    pub inputs_bullets: Seq<Seq<char>>,
    pub outputs_bullets: Seq<Seq<char>>,
    pub caveats_bullets: Seq<Seq<char>>,
    pub alternatives_rejected: Seq<(Seq<char>, Seq<char>)>,
    pub impact_scope: Seq<Seq<char>>,
    pub superseded_by: Option<Seq<char>>,
    pub resolved_by: Option<Seq<char>>,
    pub examples: Seq<(Seq<char>, Seq<char>)>,
    pub bindings: Seq<(Seq<char>, Option<Seq<char>>, BindingKind)>,
    pub coverage_expectation: CoverageExpectation,
    pub verification_expectation: VerificationExpectation,
    pub normative_excerpt: Option<(Seq<char>, Seq<char>, Seq<char>, Seq<char>)>,
    pub epub_locator: Option<(Seq<char>, Seq<char>, Option<Seq<char>>)>,
}

impl DeepView for AtomicSection {
    type V = SectionView;

    open spec fn deep_view(&self) -> SectionView {
        SectionView {
            title: self.skeleton.title@,
            parent_doc: self.skeleton.parent_doc@,
            parent_section: ostr(self.skeleton.parent_section),
            decision_status: self.skeleton.decision_status,
            intent: ostr(self.intent),
            rationale_bullets: strs(self.rationale_bullets),
            inputs_bullets: strs(self.inputs_bullets),
            outputs_bullets: strs(self.outputs_bullets),
            caveats_bullets: strs(self.caveats_bullets),
            alternatives_rejected: self.alternatives_rejected.deep_view(),
            impact_scope: strs(self.impact_scope),
            superseded_by: ostr(self.superseded_by),
            resolved_by: ostr(self.resolved_by),
            examples: self.examples.deep_view(),
            bindings: self.bindings.deep_view(),
            coverage_expectation: self.coverage_expectation,
            verification_expectation: self.verification_expectation,
            normative_excerpt: self.normative_excerpt.deep_view(),
            epub_locator: self.epub_locator.deep_view(),
        }
    }
}

/// The contents of a changelog entry, by value.
pub struct EntryView {
    pub decision_summary: Option<Seq<char>>,
    pub changes_bullets: Seq<Seq<char>>,
    pub verification_bullets: Seq<Seq<char>>,
    pub impact_refs: Seq<Seq<char>>,
    pub carry_forward_bullets: Seq<Seq<char>>,
    pub publishable_decision_summary: Option<Seq<char>>,
    pub publishable_changes_bullets: Seq<Seq<char>>,
    pub publishable_verification_bullets: Seq<Seq<char>>,
    pub publishable_impact_refs: Seq<Seq<char>>,
    pub publishable_carry_forward_bullets: Seq<Seq<char>>,
}

impl DeepView for AtomicChangelogEntry {
    type V = EntryView;

    open spec fn deep_view(&self) -> EntryView {
        EntryView {
            decision_summary: ostr(self.decision_summary),
            changes_bullets: strs(self.changes_bullets),
            verification_bullets: strs(self.verification_bullets),
            impact_refs: strs(self.impact_refs),
            carry_forward_bullets: strs(self.carry_forward_bullets),
            publishable_decision_summary: ostr(self.publishable_decision_summary),
            publishable_changes_bullets: strs(self.publishable_changes_bullets),
            publishable_verification_bullets: strs(self.publishable_verification_bullets),
            publishable_impact_refs: strs(self.publishable_impact_refs),
            publishable_carry_forward_bullets: strs(self.publishable_carry_forward_bullets),
        }
    }
}

impl DeepView for InventoryEntry {
    type V = (InventoryStatus, Option<Seq<char>>, Option<Seq<char>>, Option<Seq<char>>);

    open spec fn deep_view(&self) -> Self::V {
        (self.status, ostr(self.section_ref), ostr(self.source), ostr(self.reason))
    }
}

impl AtomicStore {
    /// Every map of the store is well formed.
    pub open spec fn wf(&self) -> bool {
        &&& self.sections.wf()
        &&& self.changelog_entries.wf()
        &&& self.inventory_entries.wf()
        &&& self.confirmation_events.wf()
        &&& self.frames.wf()
        &&& self.branches.wf()
        &&& self.entities.wf()
        &&& self.predicates.wf()
        &&& self.narrative_facts.wf()
        &&& self.disclosure_plans.wf()
        &&& crate::narrative::plans_wf(self.disclosure_plans)
    }

    /// Every store value is well formed: each of its maps is, by the maps'
    /// own invariant, and so are the maps nested in its disclosure plans.
    pub fn establish_wf(&self)
        ensures
            self.wf(),
    {
        self.sections.establish_wf();
        self.changelog_entries.establish_wf();
        self.inventory_entries.establish_wf();
        self.confirmation_events.establish_wf();
        self.frames.establish_wf();
        self.branches.establish_wf();
        self.entities.establish_wf();
        self.predicates.establish_wf();
        self.narrative_facts.establish_wf();
        self.disclosure_plans.establish_wf();
        crate::narrative::plans_are_wf(&self.disclosure_plans);
    }

    /// `self` and `other` agree on everything but the sections.
    pub open spec fn same_but_sections(self, other: AtomicStore) -> bool {
        &&& self.changelog_entries == other.changelog_entries
        &&& self.inventory_entries == other.inventory_entries
        &&& self.confirmation_events == other.confirmation_events
        &&& self.narrative_same(other)
        &&& self.schema_version == other.schema_version
    }

    /// `self` and `other` agree on everything but the changelog entries.
    pub open spec fn same_but_entries(self, other: AtomicStore) -> bool {
        &&& self.sections == other.sections
        &&& self.inventory_entries == other.inventory_entries
        &&& self.confirmation_events == other.confirmation_events
        &&& self.narrative_same(other)
        &&& self.schema_version == other.schema_version
    }

    /// `self` and `other` agree on everything but the inventory entries.
    pub open spec fn same_but_inventory(self, other: AtomicStore) -> bool {
        &&& self.sections == other.sections
        &&& self.changelog_entries == other.changelog_entries
        &&& self.confirmation_events == other.confirmation_events
        &&& self.narrative_same(other)
        &&& self.schema_version == other.schema_version
    }

    /// `self` and `other` agree on everything but the confirmation events.
    pub open spec fn same_but_events(self, other: AtomicStore) -> bool {
        &&& self.sections == other.sections
        &&& self.changelog_entries == other.changelog_entries
        &&& self.inventory_entries == other.inventory_entries
        &&& self.narrative_same(other)
        &&& self.schema_version == other.schema_version
    }

    /// The narrative-axis records are the same.
    pub open spec fn narrative_same(self, other: AtomicStore) -> bool {
        &&& self.frames == other.frames
        &&& self.branches == other.branches
        &&& self.entities == other.entities
        &&& self.predicates == other.predicates
        &&& self.narrative_facts == other.narrative_facts
        &&& self.disclosure_plans == other.disclosure_plans
    }

    /// The section contents, by value.
    pub open spec fn sections_v(&self) -> Map<Seq<char>, SectionView> {
        self.sections@.map_values(|s: AtomicSection| s.deep_view())
    }

    /// The changelog entry contents, by value.
    pub open spec fn entries_v(&self) -> Map<Seq<char>, EntryView> {
        self.changelog_entries@.map_values(|e: AtomicChangelogEntry| e.deep_view())
    }

    /// An empty store; it carries no schema generation until it is saved.
    pub fn new() -> (r: AtomicStore)
        ensures
            r.wf(),
            r.sections@ == Map::<Seq<char>, AtomicSection>::empty(),
            r.changelog_entries@ == Map::<Seq<char>, AtomicChangelogEntry>::empty(),
            r.inventory_entries@ == Map::<Seq<char>, InventoryEntry>::empty(),
            r.confirmation_events@ == Map::<Seq<char>, ConfirmationEvent>::empty(),
            r.frames@.len() == 0 && r.branches@.len() == 0 && r.entities@.len() == 0,
            r.predicates@.len() == 0 && r.narrative_facts@.len() == 0,
            r.disclosure_plans@.len() == 0,
            r.schema_version == 0,
    {
        let r = AtomicStore {
            sections: StrMap::new(),
            changelog_entries: StrMap::new(),
            inventory_entries: StrMap::new(),
            confirmation_events: StrMap::new(),
            frames: StrMap::new(),
            branches: StrMap::new(),
            entities: StrMap::new(),
            predicates: StrMap::new(),
            narrative_facts: StrMap::new(),
            disclosure_plans: StrMap::new(),
            schema_version: 0,
        };
        proof {
            r.disclosure_plans.lemma_wf();
            assert(r.disclosure_plans@ =~= Map::<Seq<char>, crate::narrative::DisclosurePlan>::empty());
            crate::narrative::lemma_plans_wf_empty(r.disclosure_plans);
        }
        r
    }
}

/// The schema generation a store file without a `schema_version` key reads as.
pub fn default_schema_version() -> (r: u32)
    ensures
        r == 1,
{
    1
}

/// A copy of a list of strings.
pub fn clone_strings(v: &Vec<String>) -> (r: Vec<String>)
    ensures
        r@ == v@,
        strs(r) == strs(*v),
{
    let mut r: Vec<String> = Vec::new();
    let mut i: usize = 0;
    while i < v.len()
        invariant
            i <= v.len(),
            r@ == v@.subrange(0, i as int),
        decreases v.len() - i,
    {
        r.push(v[i].clone());
        i = i + 1;
        assert(r@ =~= v@.subrange(0, i as int));
    }
    assert(v@.subrange(0, v.len() as int) =~= v@);
    r
}

/// A copy of an entry.
pub fn clone_entry(e: &AtomicChangelogEntry) -> (r: AtomicChangelogEntry)
    ensures
        r.deep_view() == e.deep_view(),
{
    AtomicChangelogEntry {
        decision_summary: clone_opt(&e.decision_summary),
        changes_bullets: clone_strings(&e.changes_bullets),
        verification_bullets: clone_strings(&e.verification_bullets),
        impact_refs: clone_strings(&e.impact_refs),
        carry_forward_bullets: clone_strings(&e.carry_forward_bullets),
        publishable_decision_summary: clone_opt(&e.publishable_decision_summary),
        publishable_changes_bullets: clone_strings(&e.publishable_changes_bullets),
        publishable_verification_bullets: clone_strings(&e.publishable_verification_bullets),
        publishable_impact_refs: clone_strings(&e.publishable_impact_refs),
        publishable_carry_forward_bullets: clone_strings(&e.publishable_carry_forward_bullets),
    }
}

/// A copy of an optional string.
pub fn clone_opt(o: &Option<String>) -> (r: Option<String>)
    ensures
        r == *o,
        ostr(r) == ostr(*o),
{
    match o {
        Some(s) => Some(s.clone()),
        None => None,
    }
}

/// Whether two lists of strings hold the same strings in the same order.
pub fn strings_eq(a: &Vec<String>, b: &Vec<String>) -> (r: bool)
    ensures
        r == (strs(*a) == strs(*b)),
{
    if a.len() != b.len() {
        proof {
            assert(strs(*a).len() != strs(*b).len());
        }
        return false;
    }
    let mut i: usize = 0;
    while i < a.len()
        invariant
            a.len() == b.len(),
            i <= a.len(),
            forall|j: int| 0 <= j < i ==> a@[j]@ == b@[j]@,
        decreases a.len() - i,
    {
        if !crate::order::str_eq(a[i].as_str(), b[i].as_str()) {
            proof {
                assert(strs(*a)[i as int] != strs(*b)[i as int]);
            }
            return false;
        }
        i = i + 1;
    }
    assert(strs(*a) =~= strs(*b));
    true
}

/// Whether two optional strings are equal.
pub fn opt_eq(a: &Option<String>, b: &Option<String>) -> (r: bool)
    ensures
        r == (ostr(*a) == ostr(*b)),
{
    match (a, b) {
        (Some(x), Some(y)) => crate::order::str_eq(x.as_str(), y.as_str()),
        (None, None) => true,
        _ => false,
    }
}


impl Default for CoverageExpectation {
    fn default() -> (r: Self)
        ensures
            r == CoverageExpectation::Normative,
    {
        CoverageExpectation::Normative
    }
}

impl Default for VerificationExpectation {
    fn default() -> (r: Self)
        ensures
            r == VerificationExpectation::Dedicated,
    {
        VerificationExpectation::Dedicated
    }
}

impl Default for InventoryStatus {
    fn default() -> (r: Self)
        ensures
            r == InventoryStatus::Active,
    {
        InventoryStatus::Active
    }
}

impl Default for SectionSkeleton {
    fn default() -> (r: Self)
        ensures
            r.title@.len() == 0,
            r.parent_doc@.len() == 0,
            r.parent_section is None,
            r.decision_status is None,
    {
        SectionSkeleton {
            title: String::new(),
            parent_doc: String::new(),
            parent_section: None,
            decision_status: None,
        }
    }
}

impl Default for AtomicSection {
    fn default() -> (r: Self)
        ensures
            r.deep_view() == (SectionView {
                title: Seq::empty(),
                parent_doc: Seq::empty(),
                parent_section: None,
                decision_status: None,
                intent: None,
                rationale_bullets: Seq::empty(),
                inputs_bullets: Seq::empty(),
                outputs_bullets: Seq::empty(),
                caveats_bullets: Seq::empty(),
                alternatives_rejected: Seq::empty(),
                impact_scope: Seq::empty(),
                superseded_by: None,
                resolved_by: None,
                examples: Seq::empty(),
                bindings: Seq::empty(),
                coverage_expectation: CoverageExpectation::Normative,
                verification_expectation: VerificationExpectation::Dedicated,
                normative_excerpt: None,
                epub_locator: None,
            }),
    {
        let r = AtomicSection {
            skeleton: SectionSkeleton::default(),
            intent: None,
            rationale_bullets: Vec::new(),
            inputs_bullets: Vec::new(),
            outputs_bullets: Vec::new(),
            caveats_bullets: Vec::new(),
            alternatives_rejected: Vec::new(),
            impact_scope: Vec::new(),
            superseded_by: None,
            resolved_by: None,
            examples: Vec::new(),
            bindings: Vec::new(),
            coverage_expectation: CoverageExpectation::default(),
            verification_expectation: VerificationExpectation::default(),
            normative_excerpt: None,
            epub_locator: None,
        };
        assert(r.deep_view().title =~= Seq::<char>::empty());
        assert(r.deep_view().parent_doc =~= Seq::<char>::empty());
        assert(r.deep_view().rationale_bullets =~= Seq::<Seq<char>>::empty());
        assert(r.deep_view().inputs_bullets =~= Seq::<Seq<char>>::empty());
        assert(r.deep_view().outputs_bullets =~= Seq::<Seq<char>>::empty());
        assert(r.deep_view().caveats_bullets =~= Seq::<Seq<char>>::empty());
        assert(r.deep_view().alternatives_rejected =~= Seq::<(Seq<char>, Seq<char>)>::empty());
        assert(r.deep_view().impact_scope =~= Seq::<Seq<char>>::empty());
        assert(r.deep_view().examples =~= Seq::<(Seq<char>, Seq<char>)>::empty());
        assert(r.deep_view().bindings =~= Seq::<(Seq<char>, Option<Seq<char>>, BindingKind)>::empty());
        r
    }
}

impl Default for AtomicChangelogEntry {
    fn default() -> (r: Self)
        ensures
            r.deep_view() == (EntryView {
                decision_summary: None,
                changes_bullets: Seq::empty(),
                verification_bullets: Seq::empty(),
                impact_refs: Seq::empty(),
                carry_forward_bullets: Seq::empty(),
                publishable_decision_summary: None,
                publishable_changes_bullets: Seq::empty(),
                publishable_verification_bullets: Seq::empty(),
                publishable_impact_refs: Seq::empty(),
                publishable_carry_forward_bullets: Seq::empty(),
            }),
    {
        let r = AtomicChangelogEntry {
            decision_summary: None,
            changes_bullets: Vec::new(),
            verification_bullets: Vec::new(),
            impact_refs: Vec::new(),
            carry_forward_bullets: Vec::new(),
            publishable_decision_summary: None,
            publishable_changes_bullets: Vec::new(),
            publishable_verification_bullets: Vec::new(),
            publishable_impact_refs: Vec::new(),
            publishable_carry_forward_bullets: Vec::new(),
        };
        assert(r.deep_view().changes_bullets =~= Seq::<Seq<char>>::empty());
        assert(r.deep_view().verification_bullets =~= Seq::<Seq<char>>::empty());
        assert(r.deep_view().impact_refs =~= Seq::<Seq<char>>::empty());
        assert(r.deep_view().carry_forward_bullets =~= Seq::<Seq<char>>::empty());
        assert(r.deep_view().publishable_changes_bullets =~= Seq::<Seq<char>>::empty());
        assert(r.deep_view().publishable_verification_bullets =~= Seq::<Seq<char>>::empty());
        assert(r.deep_view().publishable_impact_refs =~= Seq::<Seq<char>>::empty());
        assert(r.deep_view().publishable_carry_forward_bullets =~= Seq::<Seq<char>>::empty());
        r
    }
}

impl Default for InventoryEntry {
    fn default() -> (r: Self)
        ensures
            r.status == InventoryStatus::Active,
            r.section_ref is None,
            r.source is None,
            r.reason is None,
    {
        InventoryEntry { status: InventoryStatus::Active, section_ref: None, source: None, reason: None }
    }
}

impl Default for AtomicStore {
    fn default() -> (r: Self)
        ensures
            r.wf(),
            r.sections@ == Map::<Seq<char>, AtomicSection>::empty(),
            r.changelog_entries@ == Map::<Seq<char>, AtomicChangelogEntry>::empty(),
            r.inventory_entries@ == Map::<Seq<char>, InventoryEntry>::empty(),
            r.confirmation_events@ == Map::<Seq<char>, ConfirmationEvent>::empty(),
            r.schema_version == 0,
    {
        AtomicStore::new()
    }
}

} // verus!
