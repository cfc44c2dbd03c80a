//! Projection of the store into canonical facts: one fact per section and
//! one relation per impact-scope edge, each section keyed by a numeric id
//! derived from its text id.
use vstd::prelude::*;
use vstd::utf8::encode_utf8;
use crate::model::{AtomicSection, AtomicStore, SectionSkeleton};
use crate::outside::{sha256_digest, sha256_of};
use crate::text::owned;

verus! {

/// The single branch every projected fact lives on until branching exists.
pub const MAIN_BRANCH_ID: u64 = 0;

/// The valid-time lower bound of the single-snapshot projection.
pub const SNAPSHOT_VALID_FROM: u64 = 0;

/// The composite key of a projected fact.
#[derive(Debug, Clone, Copy, PartialEq, Eq, Structural)]
pub struct FactKey {
    pub branch_id: u64,
    pub entity_id: u64,
    pub valid_from: u64,
}

/// A section, projected: its key, its text id and its outline scalars.
#[derive(Debug, Clone, PartialEq, Eq)]
pub struct SectionFact {
    pub key: FactKey,
    pub section_id: String,
    pub skeleton: SectionSkeleton,
}

/// An impact-scope edge, projected: source section to target section.
#[derive(Debug, Clone, PartialEq, Eq)]
pub struct CrossRefFact {
    pub branch_id: u64,
    pub from_section: u64,
    pub to_section: u64,
    pub ref_kind: String,
}

/// The first `n` bytes of `d` read as a big-endian number.
pub open spec fn big_endian(d: Seq<u8>, n: int) -> nat
    decreases n,
{
    if n <= 0 {
        0
    } else {
        big_endian(d, n - 1) * 256 + d[n - 1] as nat
    }
}

/// `256` to the `n`.
pub open spec fn pow256(n: int) -> nat
    decreases n,
{
    if n <= 0 {
        1
    } else {
        pow256(n - 1) * 256
    }
}

proof fn lemma_big_endian_bound(d: Seq<u8>, n: int)
    requires
        0 <= n <= 8,
        n <= d.len(),
    ensures
        big_endian(d, n) < pow256(n),
        pow256(n) <= pow256(8),
        pow256(8) == 0x1_0000_0000_0000_0000,
    decreases n,
{
    reveal_with_fuel(pow256, 9);
    if n > 0 {
        lemma_big_endian_bound(d, n - 1);
        let p = pow256(n - 1);
        let b = big_endian(d, n - 1);
        assert(b * 256 + (d[n - 1] as nat) < p * 256) by (nonlinear_arith)
            requires
                b < p,
                d[n - 1] < 256,
        ;
        assert(pow256(n) == p * 256);
        lemma_pow256_monotone(n, 8);
    }
}

proof fn lemma_pow256_monotone(a: int, b: int)
    requires
        0 <= a <= b,
    ensures
        pow256(a) <= pow256(b),
    decreases b - a,
{
    if a < b {
        lemma_pow256_monotone(a, b - 1);
    }
}

/// The numeric id of a section: the first eight bytes of the SHA-256 of its
/// text id, big-endian.
pub open spec fn entity_id_of(section_id: Seq<char>) -> nat {
    big_endian(sha256_of(encode_utf8(section_id)), 8)
}

/// The numeric id a section's facts are keyed by; it depends on the text id
/// alone.
pub fn section_entity_id(section_id: &str) -> (r: u64)
    ensures
        r == entity_id_of(section_id@),
{
    let digest = sha256_digest(section_id.as_bytes());
    let ghost d = digest@;
    let mut acc: u64 = 0;
    let mut i: usize = 0;
    while i < 8
        invariant
            d == digest@,
            d.len() == 32,
            i <= 8,
            acc == big_endian(d, i as int),
        decreases 8 - i,
    {
        proof {
            lemma_big_endian_bound(d, i + 1);
        }
        acc = acc * 256 + digest[i] as u64;
        i = i + 1;
    }
    acc
}

/// A copy of a section's outline scalars.
fn clone_skeleton(s: &SectionSkeleton) -> (r: SectionSkeleton)
    ensures
        r.title@ == s.title@,
        r.parent_doc@ == s.parent_doc@,
        r.parent_section.deep_view() == s.parent_section.deep_view(),
        r.decision_status == s.decision_status,
{
    SectionSkeleton {
        title: owned(s.title.as_str()),
        parent_doc: owned(s.parent_doc.as_str()),
        parent_section: crate::model::clone_opt(&s.parent_section),
        decision_status: s.decision_status,
    }
}

/// The fact a section projects to on `branch_id`, by value: key, text id
/// and outline scalars.
pub open spec fn section_fact_view(f: SectionFact) -> (
    FactKey,
    Seq<char>,
    (Seq<char>, Seq<char>, Option<Seq<char>>, Option<crate::model::DecisionStatus>),
) {
    (
        f.key,
        f.section_id@,
        (
            f.skeleton.title@,
            f.skeleton.parent_doc@,
            f.skeleton.parent_section.deep_view(),
            f.skeleton.decision_status,
        ),
    )
}

/// A relation by value.
pub open spec fn cross_ref_view(f: CrossRefFact) -> (u64, u64, u64, Seq<char>) {
    (f.branch_id, f.from_section, f.to_section, f.ref_kind@)
}

/// The relations of the impact-scope edges of the first `n` sections, in
/// section order, each section's targets in order.
pub open spec fn cross_refs(
    ks: Seq<Seq<char>>,
    vs: Seq<AtomicSection>,
    branch_id: u64,
    n: int,
) -> Seq<(u64, u64, u64, Seq<char>)>
    decreases n,
{
    if n <= 0 {
        Seq::empty()
    } else {
        cross_refs(ks, vs, branch_id, n - 1) + vs[n - 1].impact_scope@.map_values(
            |t: String|
                (
                    branch_id,
                    entity_id_of(ks[n - 1]) as u64,
                    entity_id_of(t@) as u64,
                    "impact_scope"@,
                ),
        )
    }
}

impl AtomicStore {
    /// One fact per section, in section order, on `branch_id` at the
    /// snapshot valid time.
    pub fn project_section_facts(&self, branch_id: u64) -> (r: Vec<SectionFact>)
        ensures
            r@.len() == self.sections.size(),
            forall|i: int|
                0 <= i < r@.len() ==> #[trigger] section_fact_view(r@[i]) == (
                    FactKey {
                        branch_id,
                        entity_id: entity_id_of(self.sections.key_seq()[i]) as u64,
                        valid_from: SNAPSHOT_VALID_FROM,
                    },
                    self.sections.key_seq()[i],
                    (
                        self.sections.val_seq()[i].skeleton.title@,
                        self.sections.val_seq()[i].skeleton.parent_doc@,
                        self.sections.val_seq()[i].skeleton.parent_section.deep_view(),
                        self.sections.val_seq()[i].skeleton.decision_status,
                    ),
                ),
    {
        self.establish_wf();
        let n = self.sections.len();
        let mut r: Vec<SectionFact> = Vec::new();
        let mut i: usize = 0;
        while i < n
            invariant
                self.wf(),
                n == self.sections.size(),
                i <= n,
                r@.len() == i,
                forall|j: int|
                    0 <= j < i ==> #[trigger] section_fact_view(r@[j]) == (
                        FactKey {
                            branch_id,
                            entity_id: entity_id_of(self.sections.key_seq()[j]) as u64,
                            valid_from: SNAPSHOT_VALID_FROM,
                        },
                        self.sections.key_seq()[j],
                        (
                            self.sections.val_seq()[j].skeleton.title@,
                            self.sections.val_seq()[j].skeleton.parent_doc@,
                            self.sections.val_seq()[j].skeleton.parent_section.deep_view(),
                            self.sections.val_seq()[j].skeleton.decision_status,
                        ),
                    ),
            decreases n - i,
        {
            let sid = self.sections.key_at(i);
            let sec = self.sections.val_at(i);
            let fact = SectionFact {
                key: FactKey {
                    branch_id,
                    entity_id: section_entity_id(sid.as_str()),
                    valid_from: SNAPSHOT_VALID_FROM,
                },
                section_id: owned(sid.as_str()),
                skeleton: clone_skeleton(&sec.skeleton),
            };
            r.push(fact);
            i = i + 1;
        }
        r
    }

    /// One relation per impact-scope edge, in section order, each from the
    /// section's id to the target's, both through [`section_entity_id`].
    pub fn project_cross_ref_facts(&self, branch_id: u64) -> (r: Vec<CrossRefFact>)
        ensures
            r@.map_values(|f: CrossRefFact| cross_ref_view(f)) == cross_refs(
                self.sections.key_seq(),
                self.sections.val_seq(),
                branch_id,
                self.sections.size() as int,
            ),
    {
        self.establish_wf();
        let ghost ks = self.sections.key_seq();
        let ghost vs = self.sections.val_seq();
        let n = self.sections.len();
        let mut out: Vec<CrossRefFact> = Vec::new();
        let mut i: usize = 0;
        while i < n
            invariant
                self.wf(),
                ks == self.sections.key_seq(),
                vs == self.sections.val_seq(),
                n == self.sections.size(),
                i <= n,
                out@.map_values(|f: CrossRefFact| cross_ref_view(f)) == cross_refs(
                    ks,
                    vs,
                    branch_id,
                    i as int,
                ),
            decreases n - i,
        {
            let sid = self.sections.key_at(i);
            let sec = self.sections.val_at(i);
            let from_section = section_entity_id(sid.as_str());
            let ghost base = out@.map_values(|f: CrossRefFact| cross_ref_view(f));
            let mut j: usize = 0;
            while j < sec.impact_scope.len()
                invariant
                    j <= sec.impact_scope.len(),
                    from_section == entity_id_of(sid@),
                    out@.map_values(|f: CrossRefFact| cross_ref_view(f)) == base
                        + sec.impact_scope@.subrange(0, j as int).map_values(
                        |t: String|
                            (branch_id, entity_id_of(sid@) as u64, entity_id_of(t@) as u64, "impact_scope"@),
                    ),
                decreases sec.impact_scope.len() - j,
            {
                let target = &sec.impact_scope[j];
                let to_section = section_entity_id(target.as_str());
                let ghost prev = out@;
                out.push(
                    CrossRefFact {
                        branch_id,
                        from_section,
                        to_section,
                        ref_kind: owned("impact_scope"),
                    },
                );
                proof {
                    let f = |t: String|
                        (branch_id, entity_id_of(sid@) as u64, entity_id_of(t@) as u64, "impact_scope"@);
                    assert(out@.map_values(|f: CrossRefFact| cross_ref_view(f)) =~= prev.map_values(
                        |f: CrossRefFact| cross_ref_view(f),
                    ).push(f(sec.impact_scope@[j as int])));
                    assert(sec.impact_scope@.subrange(0, j + 1).map_values(f) =~= sec.impact_scope@.subrange(
                        0,
                        j as int,
                    ).map_values(f).push(f(sec.impact_scope@[j as int])));
                }
                j = j + 1;
            }
            proof {
                assert(sec.impact_scope@.subrange(0, sec.impact_scope.len() as int)
                    =~= sec.impact_scope@);
                assert(*sec == vs[i as int]);
                assert(sid@ == ks[i as int]);
            }
            i = i + 1;
        }
        out
    }
}

} // verus!
