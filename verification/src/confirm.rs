//! Confirmation events: append-only records that a claim was independently
//! re-verified, and the status projection computed over them.
use vstd::prelude::*;
use crate::order::str_eq;

verus! {

/// The claim a confirmation event is about.
#[derive(Debug, Clone, PartialEq, Eq)]
pub enum ConfirmationClaim {
    /// A `Verifies` binding, keyed by `(section_id, file, symbol)`.
    VerifiesBinding { section_id: String, file: String, symbol: Option<String> },
    /// A section-level all-I/O completeness claim.
    SectionCompleteness { section_id: String },
}

/// A claim by value.
pub enum ClaimView {
    VerifiesBinding { section_id: Seq<char>, file: Seq<char>, symbol: Option<Seq<char>> },
    SectionCompleteness { section_id: Seq<char> },
}

impl DeepView for ConfirmationClaim {
    type V = ClaimView;

    open spec fn deep_view(&self) -> ClaimView {
        match self {
            ConfirmationClaim::VerifiesBinding { section_id, file, symbol } =>
                ClaimView::VerifiesBinding {
                section_id: section_id@,
                file: file@,
                symbol: symbol.deep_view(),
            },
            ConfirmationClaim::SectionCompleteness { section_id } =>
                ClaimView::SectionCompleteness { section_id: section_id@ },
        }
    }
}

/// The section a claim is about.
pub open spec fn claim_section(c: ClaimView) -> Seq<char> {
    match c {
        ClaimView::VerifiesBinding { section_id, .. } => section_id,
        ClaimView::SectionCompleteness { section_id } => section_id,
    }
}

impl ConfirmationClaim {
    /// The section this claim is about; both variants carry one.
    pub fn section_id(&self) -> (r: &str)
        ensures
            r@ == claim_section(self.deep_view()),
    {
        match self {
            ConfirmationClaim::VerifiesBinding { section_id, .. } => section_id.as_str(),
            ConfirmationClaim::SectionCompleteness { section_id } => section_id.as_str(),
        }
    }
}

/// What kind of producer emitted a confirmation.
#[derive(Debug, Clone, Copy, PartialEq, Eq, Structural)]
pub enum ConfirmerKind {
    Tool,
    Model,
}

/// The canonical lowercase tag of a confirmer kind.
pub open spec fn confirmer_kind_tag(k: ConfirmerKind) -> Seq<char> {
    match k {
        ConfirmerKind::Tool => "tool"@,
        ConfirmerKind::Model => "model"@,
    }
}

impl ConfirmerKind {
    /// Canonical lowercase label.
    pub fn as_str(self) -> (r: &'static str)
        ensures
            r@ == confirmer_kind_tag(self),
    {
        match self {
            ConfirmerKind::Tool => "tool",
            ConfirmerKind::Model => "model",
        }
    }

    /// Parse the canonical tag back to a value; `None` for any other text.
    pub fn from_tag(s: &str) -> (r: Option<Self>)
        ensures
            match r {
                Some(k) => confirmer_kind_tag(k) == s@,
                None => forall|k: ConfirmerKind| confirmer_kind_tag(k) != s@,
            },
    {
        if str_eq(s, "tool") {
            Some(ConfirmerKind::Tool)
        } else if str_eq(s, "model") {
            Some(ConfirmerKind::Model)
        } else {
            proof {
                assert forall|k: ConfirmerKind| confirmer_kind_tag(k) != s@ by {
                    match k {
                        ConfirmerKind::Tool => {},
                        ConfirmerKind::Model => {},
                    }
                }
            }
            None
        }
    }
}

/// The verification method recorded on an event.
#[derive(Debug, Clone, Copy, PartialEq, Eq, Structural)]
pub enum ConfirmMethod {
    LinkageCheck,
    SemanticReview,
    CoverageAttestation,
}

/// The canonical lowercase tag of a method.
pub open spec fn method_tag(m: ConfirmMethod) -> Seq<char> {
    match m {
        ConfirmMethod::LinkageCheck => "linkage_check"@,
        ConfirmMethod::SemanticReview => "semantic_review"@,
        ConfirmMethod::CoverageAttestation => "coverage_attestation"@,
    }
}

impl ConfirmMethod {
    /// Canonical lowercase label.
    pub fn as_str(self) -> (r: &'static str)
        ensures
            r@ == method_tag(self),
    {
        match self {
            ConfirmMethod::LinkageCheck => "linkage_check",
            ConfirmMethod::SemanticReview => "semantic_review",
            ConfirmMethod::CoverageAttestation => "coverage_attestation",
        }
    }

    /// Parse the canonical tag back to a value; `None` for any other text.
    pub fn from_tag(s: &str) -> (r: Option<Self>)
        ensures
            match r {
                Some(m) => method_tag(m) == s@,
                None => forall|m: ConfirmMethod| method_tag(m) != s@,
            },
    {
        if str_eq(s, "linkage_check") {
            Some(ConfirmMethod::LinkageCheck)
        } else if str_eq(s, "semantic_review") {
            Some(ConfirmMethod::SemanticReview)
        } else if str_eq(s, "coverage_attestation") {
            Some(ConfirmMethod::CoverageAttestation)
        } else {
            proof {
                assert forall|m: ConfirmMethod| method_tag(m) != s@ by {
                    match m {
                        ConfirmMethod::LinkageCheck => {},
                        ConfirmMethod::SemanticReview => {},
                        ConfirmMethod::CoverageAttestation => {},
                    }
                }
            }
            None
        }
    }
}

/// The verdict an event records.
#[derive(Debug, Clone, Copy, PartialEq, Eq, Structural)]
pub enum Verdict {
    Confirm,
    Refute,
}

/// The canonical lowercase tag of a verdict.
pub open spec fn verdict_tag(v: Verdict) -> Seq<char> {
    match v {
        Verdict::Confirm => "confirm"@,
        Verdict::Refute => "refute"@,
    }
}

impl Verdict {
    /// Canonical lowercase label.
    pub fn as_str(self) -> (r: &'static str)
        ensures
            r@ == verdict_tag(self),
    {
        match self {
            Verdict::Confirm => "confirm",
            Verdict::Refute => "refute",
        }
    }

    /// Parse the canonical tag back to a value; `None` for any other text.
    pub fn from_tag(s: &str) -> (r: Option<Self>)
        ensures
            match r {
                Some(v) => verdict_tag(v) == s@,
                None => forall|v: Verdict| verdict_tag(v) != s@,
            },
    {
        if str_eq(s, "confirm") {
            Some(Verdict::Confirm)
        } else if str_eq(s, "refute") {
            Some(Verdict::Refute)
        } else {
            proof {
                assert forall|v: Verdict| verdict_tag(v) != s@ by {
                    match v {
                        Verdict::Confirm => {},
                        Verdict::Refute => {},
                    }
                }
            }
            None
        }
    }
}

/// Who or what produced a confirmation.
#[derive(Debug, Clone, PartialEq, Eq)]
pub struct Confirmer {
    pub kind: ConfirmerKind,
    pub id: String,
    pub version: String,
}

/// Hashes of the artifacts an event was checked against.
#[derive(Debug, Clone, PartialEq, Eq)]
pub struct ArtifactHashes {
    pub spec_sha256: Option<String>,
    pub code_sha256: Vec<String>,
    pub test_sha256: Vec<String>,
}

/// One immutable confirmation or refutation event.
#[derive(Debug, Clone, PartialEq, Eq)]
pub struct ConfirmationEvent {
    pub claim: ConfirmationClaim,
    pub confirmer: Confirmer,
    pub method: ConfirmMethod,
    pub artifact_hashes: ArtifactHashes,
    /// The run that authored the claim.
    pub authoring_run: String,
    /// The run that produced this verdict; must differ from `authoring_run`.
    pub confirming_run: String,
    pub verdict: Verdict,
    pub rationale: String,
    /// Caller-supplied.
    pub timestamp: String,
}

/// Confirmation status of a claim, projected from the event log.
#[derive(Debug, Clone, Copy, PartialEq, Eq, Structural)]
pub enum ConfirmationStatus {
    Proposed,
    Confirmed,
    Refuted,
    Stale,
}

/// Per-claim confirmation projection.
#[derive(Debug, Clone, PartialEq, Eq)]
pub struct ClaimConfirmation {
    pub claim: ConfirmationClaim,
    pub status: ConfirmationStatus,
    pub confirm_count: usize,
    pub refute_count: usize,
    pub stale_count: usize,
    pub has_tool_linkage: bool,
    pub independent_semantic: usize,
}

/// Whole-store confirmation projection.
#[derive(Debug, Clone, PartialEq, Eq)]
pub struct ConfirmationReport {
    pub claims: Vec<ClaimConfirmation>,
}

impl ConfirmationReport {
    /// The confirmation-debt work queue: every claim not yet `Confirmed`, in
    /// report order.
    pub fn debt(&self) -> (r: Vec<&ClaimConfirmation>)
        ensures
            r@.len() == debt_of(self.claims@).len(),
            forall|j: int| 0 <= j < r@.len() ==> *(#[trigger] r@[j]) == debt_of(self.claims@)[j],
    {
        let mut r: Vec<&ClaimConfirmation> = Vec::new();
        let mut i: usize = 0;
        while i < self.claims.len()
            invariant
                i <= self.claims.len(),
                r@.len() == debt_of(self.claims@.subrange(0, i as int)).len(),
                forall|j: int|
                    0 <= j < r@.len() ==> *(#[trigger] r@[j]) == debt_of(
                        self.claims@.subrange(0, i as int),
                    )[j],
            decreases self.claims.len() - i,
        {
            let c = &self.claims[i];
            let ghost prev = r@;
            proof {
                let s1 = self.claims@.subrange(0, i + 1);
                assert(s1.drop_last() =~= self.claims@.subrange(0, i as int));
                assert(s1.last() == self.claims@[i as int]);
                reveal_with_fuel(Seq::filter, 1);
            }
            if c.status != ConfirmationStatus::Confirmed {
                r.push(c);
            }
            i = i + 1;
        }
        assert(self.claims@.subrange(0, self.claims.len() as int) =~= self.claims@);
        r
    }
}

/// The claims of a report that are not yet confirmed, in order.
pub open spec fn debt_of(claims: Seq<ClaimConfirmation>) -> Seq<ClaimConfirmation> {
    claims.filter(|c: ClaimConfirmation| c.status != ConfirmationStatus::Confirmed)
}


/// Each confirmer kind has its own tag, so a tag parses back to the kind
/// that wrote it.
pub proof fn lemma_confirmer_kind_tags_distinct(a: ConfirmerKind, b: ConfirmerKind)
    ensures
        confirmer_kind_tag(a) == confirmer_kind_tag(b) ==> a == b,
{
    reveal_strlit("tool");
    reveal_strlit("model");
    if a != b {
        assert(confirmer_kind_tag(a).len() != confirmer_kind_tag(b).len());
    }
}

/// Each method has its own tag, so a tag parses back to the method that
/// wrote it.
pub proof fn lemma_method_tags_distinct(a: ConfirmMethod, b: ConfirmMethod)
    ensures
        method_tag(a) == method_tag(b) ==> a == b,
{
    reveal_strlit("linkage_check");
    reveal_strlit("semantic_review");
    reveal_strlit("coverage_attestation");
    if a != b && method_tag(a).len() == method_tag(b).len() {
        assert(method_tag(a)[0] != method_tag(b)[0]);
    }
}

/// Each verdict has its own tag, so a tag parses back to the verdict that
/// wrote it.
pub proof fn lemma_verdict_tags_distinct(a: Verdict, b: Verdict)
    ensures
        verdict_tag(a) == verdict_tag(b) ==> a == b,
{
    reveal_strlit("confirm");
    reveal_strlit("refute");
    if a != b {
        assert(verdict_tag(a).len() != verdict_tag(b).len());
    }
}


impl Default for ArtifactHashes {
    fn default() -> (r: Self)
        ensures
            r.spec_sha256 is None,
            r.code_sha256@.len() == 0,
            r.test_sha256@.len() == 0,
    {
        ArtifactHashes { spec_sha256: None, code_sha256: Vec::new(), test_sha256: Vec::new() }
    }
}

} // verus!
