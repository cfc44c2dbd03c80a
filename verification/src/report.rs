//! The confirmation projection: events grouped by claim, each claim
//! classified by the required-evidence set over the events still current.
use vstd::prelude::*;
use crate::confirm::{
    ClaimConfirmation, ClaimView, ConfirmMethod, ConfirmationClaim, ConfirmationEvent,
    ConfirmationReport, ConfirmationStatus, Verdict,
};
use crate::model::{AtomicStore, strs};
use crate::order::{
    compare_str, lemma_lex_asymmetric, lemma_lex_irreflexive, lemma_lex_total,
    lemma_lex_transitive, lex_lt, str_eq,
};
use crate::strmap::StrMap;
use crate::text::owned;

verus! {

// ---------------------------------------------------------------------------
// The order on claims.
// ---------------------------------------------------------------------------
/// `None` first, then by text.
pub open spec fn opt_lt(a: Option<Seq<char>>, b: Option<Seq<char>>) -> bool {
    match (a, b) {
        (None, Some(_)) => true,
        (Some(x), Some(y)) => lex_lt(x, y),
        _ => false,
    }
}

/// The order of claims in a report: binding claims before completeness
/// claims, then field by field (section, file, symbol).
pub open spec fn claim_lt(a: ClaimView, b: ClaimView) -> bool {
    match a {
        ClaimView::VerifiesBinding { section_id: s1, file: f1, symbol: y1 } => match b {
            ClaimView::VerifiesBinding { section_id: s2, file: f2, symbol: y2 } => lex_lt(s1, s2)
                || (s1 == s2 && (lex_lt(f1, f2) || (f1 == f2 && opt_lt(y1, y2)))),
            ClaimView::SectionCompleteness { .. } => true,
        },
        ClaimView::SectionCompleteness { section_id: s1 } => match b {
            ClaimView::VerifiesBinding { .. } => false,
            ClaimView::SectionCompleteness { section_id: s2 } => lex_lt(s1, s2),
        },
    }
}

pub proof fn lemma_opt_order(a: Option<Seq<char>>, b: Option<Seq<char>>, c: Option<Seq<char>>)
    ensures
        !opt_lt(a, a),
        opt_lt(a, b) && opt_lt(b, c) ==> opt_lt(a, c),
        a != b ==> opt_lt(a, b) || opt_lt(b, a),
        opt_lt(a, b) ==> !opt_lt(b, a),
{
    match a {
        Some(x) => {
            lemma_lex_irreflexive(x);
            match b {
                Some(y) => {
                    lemma_lex_total(x, y);
                    lemma_lex_asymmetric(x, y);
                    match c {
                        Some(z) => {
                            if lex_lt(x, y) && lex_lt(y, z) {
                                lemma_lex_transitive(x, y, z);
                            }
                        },
                        None => {},
                    }
                },
                None => {},
            }
        },
        None => {},
    }
}

/// `claim_lt` is a strict total order.
pub proof fn lemma_claim_order(a: ClaimView, b: ClaimView, c: ClaimView)
    ensures
        !claim_lt(a, a),
        claim_lt(a, b) && claim_lt(b, c) ==> claim_lt(a, c),
        a != b ==> claim_lt(a, b) || claim_lt(b, a),
        claim_lt(a, b) ==> !claim_lt(b, a),
{
    match (a, b, c) {
        (
            ClaimView::VerifiesBinding { section_id: s1, file: f1, symbol: y1 },
            ClaimView::VerifiesBinding { section_id: s2, file: f2, symbol: y2 },
            ClaimView::VerifiesBinding { section_id: s3, file: f3, symbol: y3 },
        ) => {
            lemma_lex_irreflexive(s1);
            lemma_lex_irreflexive(f1);
            lemma_lex_total(s1, s2);
            lemma_lex_total(f1, f2);
            lemma_lex_asymmetric(s1, s2);
            lemma_lex_asymmetric(f1, f2);
            lemma_opt_order(y1, y2, y3);
            if lex_lt(s1, s2) && lex_lt(s2, s3) {
                lemma_lex_transitive(s1, s2, s3);
            }
            if lex_lt(f1, f2) && lex_lt(f2, f3) {
                lemma_lex_transitive(f1, f2, f3);
            }
        },
        (
            ClaimView::VerifiesBinding { section_id: s1, file: f1, symbol: y1 },
            ClaimView::VerifiesBinding { section_id: s2, file: f2, symbol: y2 },
            _,
        ) => {
            lemma_lex_irreflexive(s1);
            lemma_lex_irreflexive(f1);
            lemma_lex_total(s1, s2);
            lemma_lex_total(f1, f2);
            lemma_lex_asymmetric(s1, s2);
            lemma_lex_asymmetric(f1, f2);
            lemma_opt_order(y1, y2, y2);
        },
        (
            ClaimView::SectionCompleteness { section_id: s1 },
            ClaimView::SectionCompleteness { section_id: s2 },
            ClaimView::SectionCompleteness { section_id: s3 },
        ) => {
            lemma_lex_irreflexive(s1);
            lemma_lex_total(s1, s2);
            lemma_lex_asymmetric(s1, s2);
            if lex_lt(s1, s2) && lex_lt(s2, s3) {
                lemma_lex_transitive(s1, s2, s3);
            }
        },
        (
            ClaimView::SectionCompleteness { section_id: s1 },
            ClaimView::SectionCompleteness { section_id: s2 },
            _,
        ) => {
            lemma_lex_irreflexive(s1);
            lemma_lex_total(s1, s2);
            lemma_lex_asymmetric(s1, s2);
        },
        (ClaimView::VerifiesBinding { section_id: s1, file: f1, symbol: y1 }, _, _) => {
            lemma_lex_irreflexive(s1);
            lemma_lex_irreflexive(f1);
            lemma_opt_order(y1, y1, y1);
        },
        (ClaimView::SectionCompleteness { section_id: s1 }, _, _) => {
            lemma_lex_irreflexive(s1);
        },
    }
}

fn opt_less(a: &Option<String>, b: &Option<String>) -> (r: bool)
    ensures
        r == opt_lt(a.deep_view(), b.deep_view()),
{
    match a {
        None => match b {
            None => false,
            Some(_) => true,
        },
        Some(x) => match b {
            None => false,
            Some(y) => compare_str(x.as_str(), y.as_str()) < 0,
        },
    }
}

/// Whether `a` comes before `b` in a report.
pub fn claim_less(a: &ConfirmationClaim, b: &ConfirmationClaim) -> (r: bool)
    ensures
        r == claim_lt(a.deep_view(), b.deep_view()),
{
    match a {
        ConfirmationClaim::VerifiesBinding { section_id: s1, file: f1, symbol: y1 } => match b {
            ConfirmationClaim::VerifiesBinding { section_id: s2, file: f2, symbol: y2 } => {
                let c = compare_str(s1.as_str(), s2.as_str());
                if c != 0 {
                    c < 0
                } else {
                    let d = compare_str(f1.as_str(), f2.as_str());
                    if d != 0 {
                        d < 0
                    } else {
                        opt_less(y1, y2)
                    }
                }
            },
            ConfirmationClaim::SectionCompleteness { .. } => true,
        },
        ConfirmationClaim::SectionCompleteness { section_id: s1 } => match b {
            ConfirmationClaim::VerifiesBinding { .. } => false,
            ConfirmationClaim::SectionCompleteness { section_id: s2 } => compare_str(
                s1.as_str(),
                s2.as_str(),
            ) < 0,
        },
    }
}

/// Whether two claims are the same claim.
pub fn claim_same(a: &ConfirmationClaim, b: &ConfirmationClaim) -> (r: bool)
    ensures
        r == (a.deep_view() == b.deep_view()),
{
    match a {
        ConfirmationClaim::VerifiesBinding { section_id: s1, file: f1, symbol: y1 } => match b {
            ConfirmationClaim::VerifiesBinding { section_id: s2, file: f2, symbol: y2 } => {
                let sym = match y1 {
                    None => y2.is_none(),
                    Some(x) => match y2 {
                        None => false,
                        Some(y) => str_eq(x.as_str(), y.as_str()),
                    },
                };
                str_eq(s1.as_str(), s2.as_str()) && str_eq(f1.as_str(), f2.as_str()) && sym
            },
            ConfirmationClaim::SectionCompleteness { .. } => false,
        },
        ConfirmationClaim::SectionCompleteness { section_id: s1 } => match b {
            ConfirmationClaim::VerifiesBinding { .. } => false,
            ConfirmationClaim::SectionCompleteness { section_id: s2 } => str_eq(
                s1.as_str(),
                s2.as_str(),
            ),
        },
    }
}

/// A copy of a claim.
pub fn clone_claim(c: &ConfirmationClaim) -> (r: ConfirmationClaim)
    ensures
        r.deep_view() == c.deep_view(),
{
    match c {
        ConfirmationClaim::VerifiesBinding { section_id, file, symbol } => {
            let y = match symbol {
                None => None,
                Some(s) => Some(owned(s.as_str())),
            };
            ConfirmationClaim::VerifiesBinding {
                section_id: owned(section_id.as_str()),
                file: owned(file.as_str()),
                symbol: y,
            }
        },
        ConfirmationClaim::SectionCompleteness { section_id } => {
            ConfirmationClaim::SectionCompleteness { section_id: owned(section_id.as_str()) }
        },
    }
}

// ---------------------------------------------------------------------------
// What a claim's row says, over the events and whether each is current.
// ---------------------------------------------------------------------------
/// Which events a count counts.
pub enum Tally {
    /// Current confirms.
    Confirms,
    /// Current refutes.
    Refutes,
    /// Events no longer current.
    Stale,
}

/// Whether event `e`, current or not as `valid` says, falls under `t`.
pub open spec fn tallied(e: ConfirmationEvent, valid: bool, t: Tally) -> bool {
    match t {
        Tally::Confirms => valid && e.verdict == Verdict::Confirm,
        Tally::Refutes => valid && e.verdict == Verdict::Refute,
        Tally::Stale => !valid,
    }
}

/// How many of the first `n` events are about `c` and fall under `t`.
pub open spec fn tally(
    es: Seq<ConfirmationEvent>,
    vs: Seq<bool>,
    c: ClaimView,
    t: Tally,
    n: int,
) -> nat
    decreases n,
{
    if n <= 0 {
        0
    } else {
        tally(es, vs, c, t, n - 1) + if es[n - 1].claim.deep_view() == c && tallied(
            es[n - 1],
            vs[n - 1],
            t,
        ) {
            1nat
        } else {
            0nat
        }
    }
}

/// Event `k` is a current tool-linkage confirm of `c`.
pub open spec fn link_at(es: Seq<ConfirmationEvent>, vs: Seq<bool>, c: ClaimView, k: int) -> bool {
    &&& es[k].claim.deep_view() == c
    &&& vs[k]
    &&& es[k].verdict == Verdict::Confirm
    &&& es[k].method == ConfirmMethod::LinkageCheck
}

/// Event `k` is a confirm of `c` that is no longer current.
pub open spec fn lost_confirm_at(
    es: Seq<ConfirmationEvent>,
    vs: Seq<bool>,
    c: ClaimView,
    k: int,
) -> bool {
    &&& es[k].claim.deep_view() == c
    &&& !vs[k]
    &&& es[k].verdict == Verdict::Confirm
}

/// Event `k` is a current semantic-review confirm of `c` by a run other
/// than the authoring one.
pub open spec fn semantic_at(es: Seq<ConfirmationEvent>, vs: Seq<bool>, c: ClaimView, k: int) -> bool {
    &&& es[k].claim.deep_view() == c
    &&& vs[k]
    &&& es[k].verdict == Verdict::Confirm
    &&& es[k].method == ConfirmMethod::SemanticReview
    &&& es[k].confirming_run@ != es[k].authoring_run@
}

/// The confirming runs of the semantic-review confirms of `c` among the
/// first `n` events.
pub open spec fn semantic_runs(es: Seq<ConfirmationEvent>, vs: Seq<bool>, c: ClaimView, n: int) -> Set<
    Seq<char>,
> {
    Set::new(
        |r: Seq<char>|
            exists|k: int| 0 <= k < n && #[trigger] semantic_at(es, vs, c, k) && es[k].confirming_run@ == r,
    )
}

/// The status the evidence gives: one current refute blocks; a current tool
/// linkage plus an independent semantic review confirms; a confirm that is no
/// longer current makes the claim stale; otherwise it is proposed.
pub open spec fn status_of(refuted: bool, linked: bool, reviewed: bool, lost: bool) -> ConfirmationStatus {
    if refuted {
        ConfirmationStatus::Refuted
    } else if linked && reviewed {
        ConfirmationStatus::Confirmed
    } else if lost {
        ConfirmationStatus::Stale
    } else {
        ConfirmationStatus::Proposed
    }
}

/// `row` is what the events (current or not as `vs` says) give for its claim.
pub open spec fn row_ok(row: ClaimConfirmation, es: Seq<ConfirmationEvent>, vs: Seq<bool>) -> bool {
    let c = row.claim.deep_view();
    let n = es.len() as int;
    let linked = exists|k: int| 0 <= k < n && #[trigger] link_at(es, vs, c, k);
    let lost = exists|k: int| 0 <= k < n && #[trigger] lost_confirm_at(es, vs, c, k);
    &&& row.confirm_count == tally(es, vs, c, Tally::Confirms, n)
    &&& row.refute_count == tally(es, vs, c, Tally::Refutes, n)
    &&& row.stale_count == tally(es, vs, c, Tally::Stale, n)
    &&& row.has_tool_linkage == linked
    &&& row.independent_semantic == semantic_runs(es, vs, c, n).len()
    &&& row.status == status_of(row.refute_count > 0, linked, row.independent_semantic >= 1, lost)
}

/// Whether the text `s` is one of `v`.
fn holds_str(v: &Vec<String>, s: &str) -> (r: bool)
    ensures
        r == strs(*v).contains(s@),
{
    let mut i: usize = 0;
    while i < v.len()
        invariant
            i <= v.len(),
            forall|j: int| 0 <= j < i ==> strs(*v)[j] != s@,
        decreases v.len() - i,
    {
        if str_eq(v[i].as_str(), s) {
            assert(strs(*v)[i as int] == s@);
            return true;
        }
        i = i + 1;
    }
    false
}

/// The row of `claim`, from the events of `events` and whether each is
/// current.
fn classify(events: &StrMap<ConfirmationEvent>, validity: &Vec<bool>, claim: &ConfirmationClaim) -> (r:
    ClaimConfirmation)
    requires
        events.wf(),
        validity@.len() == events.size(),
    ensures
        r.claim.deep_view() == claim.deep_view(),
        row_ok(r, events.val_seq(), validity@),
{
    let ghost es = events.val_seq();
    let ghost vs = validity@;
    let ghost c = claim.deep_view();
    proof {
        events.lemma_wf();
    }
    let n = events.len();
    let mut confirm_count: usize = 0;
    let mut refute_count: usize = 0;
    let mut stale_count: usize = 0;
    let mut linked = false;
    let mut lost = false;
    let mut runs: Vec<String> = Vec::new();
    let mut i: usize = 0;
    while i < n
        invariant
            events.wf(),
            n == events.size(),
            es == events.val_seq(),
            vs == validity@,
            vs.len() == n,
            es.len() == n,
            c == claim.deep_view(),
            i <= n,
            confirm_count == tally(es, vs, c, Tally::Confirms, i as int),
            refute_count == tally(es, vs, c, Tally::Refutes, i as int),
            stale_count == tally(es, vs, c, Tally::Stale, i as int),
            confirm_count <= i,
            refute_count <= i,
            stale_count <= i,
            linked == exists|k: int| 0 <= k < i && #[trigger] link_at(es, vs, c, k),
            lost == exists|k: int| 0 <= k < i && #[trigger] lost_confirm_at(es, vs, c, k),
            strs(runs).no_duplicates(),
            forall|r: Seq<char>| strs(runs).contains(r) <==> semantic_runs(es, vs, c, i as int).contains(r),
        decreases n - i,
    {
        let ev = events.val_at(i);
        let ghost prev_runs = strs(runs);
        let same = claim_same(&ev.claim, claim);
        let v = validity[i];
        let confirm = ev.verdict == Verdict::Confirm;
        if same && v && confirm {
            confirm_count = confirm_count + 1;
        }
        if same && v && !confirm {
            refute_count = refute_count + 1;
        }
        if same && !v {
            stale_count = stale_count + 1;
        }
        if same && v && confirm && ev.method == ConfirmMethod::LinkageCheck {
            linked = true;
        }
        if same && !v && confirm {
            lost = true;
        }
        let independent = !str_eq(ev.confirming_run.as_str(), ev.authoring_run.as_str());
        if same && v && confirm && ev.method == ConfirmMethod::SemanticReview && independent {
            let had = holds_str(&runs, ev.confirming_run.as_str());
            if !had {
                runs.push(owned(ev.confirming_run.as_str()));
                proof {
                    assert(strs(runs) =~= prev_runs.push(ev.confirming_run@));
                    assert(strs(runs)[prev_runs.len() as int] == ev.confirming_run@);
                }
            } else {
                assert(prev_runs.contains(ev.confirming_run@));
            }
            assert(strs(runs).contains(ev.confirming_run@));
        }
        proof {
            let ii = i as int;
            assert(es[ii] == *ev);
            if linked && !(exists|k: int| 0 <= k < ii && #[trigger] link_at(es, vs, c, k)) {
                assert(link_at(es, vs, c, ii));
            }
            if lost && !(exists|k: int| 0 <= k < ii && #[trigger] lost_confirm_at(es, vs, c, k)) {
                assert(lost_confirm_at(es, vs, c, ii));
            }
            assert forall|r: Seq<char>|
                strs(runs).contains(r) <==> semantic_runs(es, vs, c, ii + 1).contains(r) by {
                if semantic_runs(es, vs, c, ii + 1).contains(r) {
                    let k = choose|k: int|
                        0 <= k < ii + 1 && #[trigger] semantic_at(es, vs, c, k)
                            && es[k].confirming_run@ == r;
                    if k < ii {
                        assert(semantic_runs(es, vs, c, ii).contains(r));
                        assert(prev_runs.contains(r));
                        if strs(runs) != prev_runs {
                            assert(strs(runs)[prev_runs.index_of(r)] == r);
                        }
                    } else {
                        assert(strs(runs).contains(es[ii].confirming_run@) || prev_runs.contains(
                            es[ii].confirming_run@,
                        ));
                        if prev_runs.contains(r) && strs(runs) != prev_runs {
                            assert(strs(runs)[prev_runs.index_of(r)] == r);
                        }
                        if strs(runs) != prev_runs {
                            assert(strs(runs)[prev_runs.len() as int] == r);
                        }
                    }
                }
                if strs(runs).contains(r) {
                    if prev_runs.contains(r) {
                        assert(semantic_runs(es, vs, c, ii).contains(r));
                        let k = choose|k: int|
                            0 <= k < ii && #[trigger] semantic_at(es, vs, c, k)
                                && es[k].confirming_run@ == r;
                        assert(0 <= k < ii + 1 && semantic_at(es, vs, c, k));
                    } else {
                        assert(semantic_at(es, vs, c, ii) && es[ii].confirming_run@ == r);
                    }
                }
            }
        }
        i = i + 1;
    }
    proof {
        let s = semantic_runs(es, vs, c, n as int);
        assert(s =~= strs(runs).to_set());
        strs(runs).unique_seq_to_set();
    }
    let reviewed = runs.len() >= 1;
    let status = if refute_count > 0 {
        ConfirmationStatus::Refuted
    } else if linked && reviewed {
        ConfirmationStatus::Confirmed
    } else if lost {
        ConfirmationStatus::Stale
    } else {
        ConfirmationStatus::Proposed
    };
    ClaimConfirmation {
        claim: clone_claim(claim),
        status,
        confirm_count,
        refute_count,
        stale_count,
        has_tool_linkage: linked,
        independent_semantic: runs.len(),
    }
}

// ---------------------------------------------------------------------------
// The report.
// ---------------------------------------------------------------------------
/// Claims strictly in report order.
pub open spec fn claims_sorted(s: Seq<ClaimView>) -> bool {
    forall|j: int, k: int| 0 <= j < k < s.len() ==> claim_lt(#[trigger] s[j], #[trigger] s[k])
}

/// The claims of the rows of a report, in order.
pub open spec fn row_claims(rows: Seq<ClaimConfirmation>) -> Seq<ClaimView> {
    rows.map_values(|c: ClaimConfirmation| c.claim.deep_view())
}

/// The claims the events are about, in event order.
pub open spec fn event_claims(es: Seq<ConfirmationEvent>) -> Seq<ClaimView> {
    es.map_values(|e: ConfirmationEvent| e.claim.deep_view())
}

/// `r` is the projection of the events `es`, each current or not as `vs`
/// says: one row per claim the events are about, in claim order, each row
/// what the events give for its claim.
pub open spec fn report_matches(r: ConfirmationReport, es: Seq<ConfirmationEvent>, vs: Seq<bool>) -> bool {
    &&& claims_sorted(row_claims(r.claims@))
    &&& row_claims(r.claims@).to_set() == event_claims(es).to_set()
    &&& forall|j: int| 0 <= j < r.claims@.len() ==> row_ok(#[trigger] r.claims@[j], es, vs)
}

/// Insert `c` into a list of claims kept in report order, unless it is
/// already there.
fn insert_claim(claims: &mut Vec<ConfirmationClaim>, c: &ConfirmationClaim)
    requires
        claims_sorted(old(claims).deep_view()),
    ensures
        claims_sorted(final(claims).deep_view()),
        final(claims).deep_view().to_set() == old(claims).deep_view().to_set().insert(
            c.deep_view(),
        ),
{
    let ghost s = claims.deep_view();
    let ghost x = c.deep_view();
    let n = claims.len();
    let mut j: usize = 0;
    while j < n
        invariant
            j <= n,
            n == claims.len(),
            claims.deep_view() == s,
            x == c.deep_view(),
            forall|k: int| 0 <= k < j ==> claim_lt(#[trigger] s[k], x),
        ensures
            j <= n,
            forall|k: int| 0 <= k < j ==> claim_lt(#[trigger] s[k], x),
            j < n ==> !claim_lt(s[j as int], x),
        decreases n - j,
    {
        let lt = claim_less(&claims[j], c);
        assert(s[j as int] == claims@[j as int].deep_view());
        if !lt {
            break;
        }
        j = j + 1;
    }
    if j < n && claim_same(&claims[j], c) {
        proof {
            assert(s[j as int] == claims@[j as int].deep_view());
            assert(s.to_set().insert(x) =~= s.to_set()) by {
                assert(s.contains(x));
            }
        }
        return;
    }
    let copy = clone_claim(c);
    claims.insert(j, copy);
    proof {
        let t = claims.deep_view();
        assert(t =~= s.insert(j as int, x));
        if j < n {
            lemma_claim_order(x, s[j as int], x);
        }
        assert forall|a: int, b: int| 0 <= a < b < t.len() implies claim_lt(
            #[trigger] t[a],
            #[trigger] t[b],
        ) by {
            if b < j {
                assert(t[a] == s[a] && t[b] == s[b]);
            } else if b == j {
                assert(t[a] == s[a] && t[b] == x);
            } else if a == j {
                assert(t[b] == s[b - 1]);
                if b - 1 > j {
                    assert(claim_lt(s[j as int], s[b - 1]));
                    lemma_claim_order(x, s[j as int], s[b - 1]);
                }
            } else if a < j {
                assert(t[a] == s[a] && t[b] == s[b - 1]);
            } else {
                assert(t[a] == s[a - 1] && t[b] == s[b - 1]);
            }
        }
        assert forall|y: ClaimView| t.contains(y) <==> s.contains(y) || y == x by {
            if t.contains(y) {
                let k = choose|k: int| 0 <= k < t.len() && t[k] == y;
                if k < j {
                    assert(s[k] == y);
                } else if k > j {
                    assert(s[k - 1] == y);
                }
            }
            if s.contains(y) {
                let k = choose|k: int| 0 <= k < s.len() && s[k] == y;
                if k < j {
                    assert(t[k] == y);
                } else {
                    assert(t[k + 1] == y);
                }
            }
            if y == x {
                assert(t[j as int] == y);
            }
        }
        assert(t.to_set() =~= s.to_set().insert(x));
    }
}

/// The confirmation projection of the store's events, given for each event
/// (in event-id order) whether it is still current.
pub fn confirmation_report_from(store: &AtomicStore, validity: &Vec<bool>) -> (r: ConfirmationReport)
    requires
        validity@.len() == store.confirmation_events.size(),
    ensures
        report_matches(r, store.confirmation_events.val_seq(), validity@),
{
    store.establish_wf();
    let ghost es = store.confirmation_events.val_seq();
    let events = &store.confirmation_events;
    proof {
        events.lemma_wf();
    }
    let n = events.len();
    let mut claims: Vec<ConfirmationClaim> = Vec::new();
    let mut i: usize = 0;
    while i < n
        invariant
            events.wf(),
            n == events.size(),
            es == events.val_seq(),
            es.len() == n,
            i <= n,
            claims_sorted(claims.deep_view()),
            claims.deep_view().to_set() == event_claims(es.subrange(0, i as int)).to_set(),
        decreases n - i,
    {
        let ev = events.val_at(i);
        insert_claim(&mut claims, &ev.claim);
        proof {
            let a = event_claims(es.subrange(0, i as int));
            let b = event_claims(es.subrange(0, i + 1));
            assert(b =~= a.push(ev.claim.deep_view()));
            assert(b.to_set() =~= a.to_set().insert(ev.claim.deep_view())) by {
                assert forall|y: ClaimView| b.contains(y) <==> a.contains(y) || y == ev.claim.deep_view() by {
                    if b.contains(y) {
                        let k = choose|k: int| 0 <= k < b.len() && b[k] == y;
                        if k < a.len() {
                            assert(a[k] == y);
                        }
                    }
                    if a.contains(y) {
                        let k = choose|k: int| 0 <= k < a.len() && a[k] == y;
                        assert(b[k] == y);
                    }
                    if y == ev.claim.deep_view() {
                        assert(b[a.len() as int] == y);
                    }
                }
            }
        }
        i = i + 1;
    }
    assert(es.subrange(0, n as int) =~= es);
    let mut rows: Vec<ClaimConfirmation> = Vec::new();
    let mut j: usize = 0;
    while j < claims.len()
        invariant
            events.wf(),
            validity@.len() == events.size(),
            es == events.val_seq(),
            j <= claims.len(),
            rows@.len() == j,
            forall|k: int| 0 <= k < j ==> (#[trigger] rows@[k]).claim.deep_view() == claims.deep_view()[k],
            forall|k: int| 0 <= k < j ==> row_ok(#[trigger] rows@[k], es, validity@),
        decreases claims.len() - j,
    {
        let row = classify(events, validity, &claims[j]);
        rows.push(row);
        j = j + 1;
    }
    assert(row_claims(rows@) =~= claims.deep_view());
    ConfirmationReport { claims: rows }
}

/// The confirmation projection with every stored event counted as current.
pub fn confirmation_report(store: &AtomicStore) -> (r: ConfirmationReport)
    ensures
        report_matches(
            r,
            store.confirmation_events.val_seq(),
            all_current(store.confirmation_events.size()),
        ),
{
    store.establish_wf();
    let n = store.confirmation_events.len();
    let mut validity: Vec<bool> = Vec::new();
    let mut i: usize = 0;
    while i < n
        invariant
            i <= n,
            validity@ == Seq::new(i as nat, |k: int| true),
        decreases n - i,
    {
        validity.push(true);
        i = i + 1;
        assert(validity@ =~= Seq::new(i as nat, |k: int| true));
    }
    confirmation_report_from(store, &validity)
}

/// The confirmation projection with a caller-supplied predicate deciding
/// whether each event is still current. The predicate is asked once per
/// event, in event-id order; the report is the projection of its answers.
pub fn confirmation_report_with<F: Fn(&ConfirmationEvent) -> bool>(store: &AtomicStore, is_valid: F) -> (r:
    ConfirmationReport)
    requires
        forall|e: &ConfirmationEvent| #[trigger] is_valid.requires((e,)),
    ensures
        exists|vs: Seq<bool>|
            {
                &&& vs.len() == store.confirmation_events.size()
                &&& forall|i: int|
                    0 <= i < vs.len() ==> is_valid.ensures(
                        (&store.confirmation_events.val_seq()[i],),
                        #[trigger] vs[i],
                    )
                &&& report_matches(r, store.confirmation_events.val_seq(), vs)
            },
{
    store.establish_wf();
    let events = &store.confirmation_events;
    let n = events.len();
    let mut validity: Vec<bool> = Vec::new();
    let mut i: usize = 0;
    while i < n
        invariant
            events.wf(),
            n == events.size(),
            i <= n,
            validity@.len() == i,
            forall|e: &ConfirmationEvent| #[trigger] is_valid.requires((e,)),
            forall|k: int|
                0 <= k < i ==> is_valid.ensures((&events.val_seq()[k],), #[trigger] validity@[k]),
        decreases n - i,
    {
        let ev = events.val_at(i);
        let v = is_valid(ev);
        validity.push(v);
        i = i + 1;
    }
    let r = confirmation_report_from(store, &validity);
    assert(validity@.len() == store.confirmation_events.size());
    r
}


/// The fields of a row, by value.
pub open spec fn row_summary(c: ClaimConfirmation) -> (
    ClaimView,
    ConfirmationStatus,
    usize,
    usize,
    usize,
    bool,
    usize,
) {
    (
        c.claim.deep_view(),
        c.status,
        c.confirm_count,
        c.refute_count,
        c.stale_count,
        c.has_tool_linkage,
        c.independent_semantic,
    )
}

/// Two lists of claims in report order with the same claims are the same
/// list.
proof fn lemma_sorted_claims_unique(a: Seq<ClaimView>, b: Seq<ClaimView>)
    requires
        claims_sorted(a),
        claims_sorted(b),
        a.to_set() == b.to_set(),
    ensures
        a == b,
    decreases a.len(),
{
    if a.len() == 0 {
        if b.len() > 0 {
            assert(b.to_set().contains(b[0]));
        }
        assert(a =~= b);
    } else {
        assert(a.to_set().contains(a[0]));
        assert(b.contains(a[0]));
        assert(b.len() > 0);
        let x = a[0];
        let y = b[0];
        assert(b.to_set().contains(y));
        assert(a.contains(y));
        let i = choose|i: int| 0 <= i < a.len() && a[i] == y;
        let j = choose|j: int| 0 <= j < b.len() && b[j] == x;
        if x != y {
            assert(i > 0 && j > 0);
            assert(claim_lt(a[0], a[i]));
            assert(claim_lt(b[0], b[j]));
            lemma_claim_order(x, y, x);
        }
        let a1 = a.drop_first();
        let b1 = b.drop_first();
        assert forall|p: int, q: int| 0 <= p < q < a1.len() implies claim_lt(
            #[trigger] a1[p],
            #[trigger] a1[q],
        ) by {
            assert(a1[p] == a[p + 1] && a1[q] == a[q + 1]);
        }
        assert forall|p: int, q: int| 0 <= p < q < b1.len() implies claim_lt(
            #[trigger] b1[p],
            #[trigger] b1[q],
        ) by {
            assert(b1[p] == b[p + 1] && b1[q] == b[q + 1]);
        }
        assert forall|z: ClaimView| a1.contains(z) <==> b1.contains(z) by {
            if a1.contains(z) {
                let k = choose|k: int| 0 <= k < a1.len() && a1[k] == z;
                assert(a[k + 1] == z);
                assert(claim_lt(a[0], a[k + 1]));
                lemma_claim_order(z, z, z);
                assert(a.to_set().contains(z));
                assert(b.contains(z));
                let t = choose|t: int| 0 <= t < b.len() && b[t] == z;
                assert(t != 0);
                assert(b1[t - 1] == z);
            }
            if b1.contains(z) {
                let k = choose|k: int| 0 <= k < b1.len() && b1[k] == z;
                assert(b[k + 1] == z);
                assert(claim_lt(b[0], b[k + 1]));
                lemma_claim_order(z, z, z);
                assert(b.to_set().contains(z));
                assert(a.contains(z));
                let t = choose|t: int| 0 <= t < a.len() && a[t] == z;
                assert(t != 0);
                assert(a1[t - 1] == z);
            }
        }
        assert(a1.to_set() =~= b1.to_set());
        lemma_sorted_claims_unique(a1, b1);
        assert(a =~= b) by {
            assert(a =~= seq![x] + a1);
            assert(b =~= seq![y] + b1);
        }
    }
}

/// The projection is a function of the events and of which are current:
/// two reports that both match them agree row for row.
pub proof fn lemma_report_determined(
    r1: ConfirmationReport,
    r2: ConfirmationReport,
    es: Seq<ConfirmationEvent>,
    vs: Seq<bool>,
)
    requires
        report_matches(r1, es, vs),
        report_matches(r2, es, vs),
    ensures
        r1.claims@.map_values(|c: ClaimConfirmation| row_summary(c)) == r2.claims@.map_values(
            |c: ClaimConfirmation| row_summary(c),
        ),
{
    lemma_sorted_claims_unique(row_claims(r1.claims@), row_claims(r2.claims@));
    let a = r1.claims@;
    let b = r2.claims@;
    assert(row_claims(a).len() == row_claims(b).len());
    assert forall|j: int| 0 <= j < a.len() implies row_summary(a[j]) == row_summary(b[j]) by {
        assert(row_claims(a)[j] == row_claims(b)[j]);
        assert(row_ok(a[j], es, vs));
        assert(row_ok(b[j], es, vs));
    }
    assert(a.map_values(|c: ClaimConfirmation| row_summary(c)) =~= b.map_values(
        |c: ClaimConfirmation| row_summary(c),
    ));
}

/// Every event counted as current.
pub open spec fn all_current(n: nat) -> Seq<bool> {
    Seq::new(n, |i: int| true)
}

/// With every event current, no event of the first `n` is tallied stale.
proof fn lemma_no_stale_tally(es: Seq<ConfirmationEvent>, c: ClaimView, n: int)
    requires
        0 <= n <= es.len(),
    ensures
        tally(es, all_current(es.len()), c, Tally::Stale, n) == 0,
    decreases n,
{
    if n > 0 {
        lemma_no_stale_tally(es, c, n - 1);
    }
}

/// The report with every stored event counted as current has no stale
/// rows: no row counts a stale event, and no row is in the stale status.
pub proof fn lemma_all_current_report_has_no_stale_rows(r: ConfirmationReport, es: Seq<ConfirmationEvent>)
    requires
        report_matches(r, es, all_current(es.len())),
    ensures
        forall|j: int|
            0 <= j < r.claims@.len() ==> (#[trigger] r.claims@[j]).stale_count == 0 && r.claims@[j].status
                != ConfirmationStatus::Stale,
{
    let vs = all_current(es.len());
    assert forall|j: int| 0 <= j < r.claims@.len() implies (#[trigger] r.claims@[j]).stale_count == 0
        && r.claims@[j].status != ConfirmationStatus::Stale by {
        let c = r.claims@[j].claim.deep_view();
        assert(row_ok(r.claims@[j], es, vs));
        lemma_no_stale_tally(es, c, es.len() as int);
        assert(!exists|k: int| 0 <= k < es.len() && #[trigger] lost_confirm_at(es, vs, c, k));
    }
}

/// `confirmation_report` is `confirmation_report_with` under a predicate that
/// answers "current" for every event: a report meeting the first's contract
/// (`r1`) and one meeting the second's with such answers (`r2`) agree row for
/// row, and neither has a stale row.
pub proof fn lemma_confirmation_report_is_the_always_valid_report(
    r1: ConfirmationReport,
    r2: ConfirmationReport,
    es: Seq<ConfirmationEvent>,
    vs: Seq<bool>,
)
    requires
        report_matches(r1, es, all_current(es.len())),
        report_matches(r2, es, vs),
        vs.len() == es.len(),
        forall|i: int| 0 <= i < vs.len() ==> #[trigger] vs[i],
    ensures
        r1.claims@.map_values(|c: ClaimConfirmation| row_summary(c)) == r2.claims@.map_values(
            |c: ClaimConfirmation| row_summary(c),
        ),
        forall|j: int|
            0 <= j < r1.claims@.len() ==> (#[trigger] r1.claims@[j]).stale_count == 0
                && r1.claims@[j].status != ConfirmationStatus::Stale,
        forall|j: int|
            0 <= j < r2.claims@.len() ==> (#[trigger] r2.claims@[j]).stale_count == 0
                && r2.claims@[j].status != ConfirmationStatus::Stale,
{
    assert(vs =~= all_current(es.len()));
    lemma_report_determined(r1, r2, es, vs);
    lemma_all_current_report_has_no_stale_rows(r1, es);
    lemma_all_current_report_has_no_stale_rows(r2, es);
}

/// The set of runs is empty when no index witnesses a member.
proof fn lemma_semantic_runs_witness(es: Seq<ConfirmationEvent>, vs: Seq<bool>, c: ClaimView, n: int)
    requires
        semantic_runs(es, vs, c, n).len() > 0,
    ensures
        exists|k: int| 0 <= k < n && #[trigger] semantic_at(es, vs, c, k),
{
    if !(exists|k: int| 0 <= k < n && #[trigger] semantic_at(es, vs, c, k)) {
        assert(semantic_runs(es, vs, c, n) =~= Set::<Seq<char>>::empty());
    }
}

/// What the evidence behind a row must be. A row counts independent
/// semantic reviews only when some current confirm of its claim is a
/// `semantic_review` by a run other than the authoring one; a row is
/// `Confirmed` only when its claim has both a current tool `linkage_check`
/// confirm and such a review, and no current refute; a claim whose current
/// confirms are all `linkage_check` confirms is therefore never `Confirmed`
/// and counts no independent review.
pub proof fn lemma_confirmed_needs_linkage_and_semantic_review(
    r: ConfirmationReport,
    es: Seq<ConfirmationEvent>,
    vs: Seq<bool>,
)
    requires
        report_matches(r, es, vs),
    ensures
        forall|j: int|
            0 <= j < r.claims@.len() ==> {
                let row = #[trigger] r.claims@[j];
                let c = row.claim.deep_view();
                &&& row.independent_semantic > 0 ==> exists|k: int|
                    0 <= k < es.len() && es[k].claim.deep_view() == c && vs[k] && es[k].verdict
                        == Verdict::Confirm && es[k].method == ConfirmMethod::SemanticReview
                        && es[k].confirming_run@ != es[k].authoring_run@
                &&& row.status == ConfirmationStatus::Confirmed ==> {
                    &&& exists|k: int|
                        0 <= k < es.len() && es[k].claim.deep_view() == c && vs[k] && es[k].verdict
                            == Verdict::Confirm && es[k].method == ConfirmMethod::LinkageCheck
                    &&& exists|k: int|
                        0 <= k < es.len() && es[k].claim.deep_view() == c && vs[k] && es[k].verdict
                            == Verdict::Confirm && es[k].method == ConfirmMethod::SemanticReview
                            && es[k].confirming_run@ != es[k].authoring_run@
                    &&& row.refute_count == 0
                }
                &&& (forall|k: int|
                    0 <= k < es.len() && es[k].claim.deep_view() == c && vs[k] && es[k].verdict
                        == Verdict::Confirm ==> es[k].method == ConfirmMethod::LinkageCheck) ==> {
                    &&& row.independent_semantic == 0
                    &&& row.status != ConfirmationStatus::Confirmed
                }
            },
{
    assert forall|j: int| 0 <= j < r.claims@.len() implies {
        let row = #[trigger] r.claims@[j];
        let c = row.claim.deep_view();
        &&& row.independent_semantic > 0 ==> exists|k: int|
            0 <= k < es.len() && es[k].claim.deep_view() == c && vs[k] && es[k].verdict
                == Verdict::Confirm && es[k].method == ConfirmMethod::SemanticReview
                && es[k].confirming_run@ != es[k].authoring_run@
        &&& row.status == ConfirmationStatus::Confirmed ==> {
            &&& exists|k: int|
                0 <= k < es.len() && es[k].claim.deep_view() == c && vs[k] && es[k].verdict
                    == Verdict::Confirm && es[k].method == ConfirmMethod::LinkageCheck
            &&& exists|k: int|
                0 <= k < es.len() && es[k].claim.deep_view() == c && vs[k] && es[k].verdict
                    == Verdict::Confirm && es[k].method == ConfirmMethod::SemanticReview
                    && es[k].confirming_run@ != es[k].authoring_run@
            &&& row.refute_count == 0
        }
        &&& (forall|k: int|
            0 <= k < es.len() && es[k].claim.deep_view() == c && vs[k] && es[k].verdict
                == Verdict::Confirm ==> es[k].method == ConfirmMethod::LinkageCheck) ==> {
            &&& row.independent_semantic == 0
            &&& row.status != ConfirmationStatus::Confirmed
        }
    } by {
        let row = r.claims@[j];
        let c = row.claim.deep_view();
        let n = es.len() as int;
        assert(row_ok(row, es, vs));
        if row.independent_semantic > 0 {
            lemma_semantic_runs_witness(es, vs, c, n);
            let k = choose|k: int| 0 <= k < n && #[trigger] semantic_at(es, vs, c, k);
            assert(semantic_at(es, vs, c, k));
        }
        if row.status == ConfirmationStatus::Confirmed {
            assert(row.refute_count == 0);
            assert(exists|k: int| 0 <= k < n && #[trigger] link_at(es, vs, c, k));
            let k = choose|k: int| 0 <= k < n && #[trigger] link_at(es, vs, c, k);
            assert(link_at(es, vs, c, k));
            assert(row.independent_semantic >= 1);
            lemma_semantic_runs_witness(es, vs, c, n);
            let k2 = choose|k: int| 0 <= k < n && #[trigger] semantic_at(es, vs, c, k);
            assert(semantic_at(es, vs, c, k2));
        }
        if forall|k: int|
            0 <= k < es.len() && es[k].claim.deep_view() == c && vs[k] && es[k].verdict
                == Verdict::Confirm ==> es[k].method == ConfirmMethod::LinkageCheck {
            if row.independent_semantic > 0 {
                lemma_semantic_runs_witness(es, vs, c, n);
                let k = choose|k: int| 0 <= k < n && #[trigger] semantic_at(es, vs, c, k);
                assert(semantic_at(es, vs, c, k));
            }
            if row.status == ConfirmationStatus::Confirmed {
                assert(row.independent_semantic >= 1);
            }
        }
    }
}

/// The other statuses and the linkage flag, from the events: a row is
/// `Refuted` exactly when some current event refutes its claim; it records
/// a tool linkage exactly when some current `linkage_check` confirms its
/// claim; and it is `Stale` only when some confirm of its claim is no
/// longer current and no current event refutes it.
pub proof fn lemma_status_follows_the_events(r: ConfirmationReport, es: Seq<ConfirmationEvent>, vs: Seq<bool>)
    requires
        report_matches(r, es, vs),
    ensures
        forall|j: int|
            0 <= j < r.claims@.len() ==> {
                let row = #[trigger] r.claims@[j];
                let c = row.claim.deep_view();
                &&& (row.status == ConfirmationStatus::Refuted) == (exists|k: int|
                    0 <= k < es.len() && es[k].claim.deep_view() == c && vs[k] && es[k].verdict
                        == Verdict::Refute)
                &&& row.has_tool_linkage == (exists|k: int|
                    0 <= k < es.len() && es[k].claim.deep_view() == c && vs[k] && es[k].verdict
                        == Verdict::Confirm && es[k].method == ConfirmMethod::LinkageCheck)
                &&& row.status == ConfirmationStatus::Stale ==> (exists|k: int|
                    0 <= k < es.len() && es[k].claim.deep_view() == c && !vs[k] && es[k].verdict
                        == Verdict::Confirm)
            },
{
    assert forall|j: int| 0 <= j < r.claims@.len() implies {
        let row = #[trigger] r.claims@[j];
        let c = row.claim.deep_view();
        &&& (row.status == ConfirmationStatus::Refuted) == (exists|k: int|
            0 <= k < es.len() && es[k].claim.deep_view() == c && vs[k] && es[k].verdict
                == Verdict::Refute)
        &&& row.has_tool_linkage == (exists|k: int|
            0 <= k < es.len() && es[k].claim.deep_view() == c && vs[k] && es[k].verdict
                == Verdict::Confirm && es[k].method == ConfirmMethod::LinkageCheck)
        &&& row.status == ConfirmationStatus::Stale ==> (exists|k: int|
            0 <= k < es.len() && es[k].claim.deep_view() == c && !vs[k] && es[k].verdict
                == Verdict::Confirm)
    } by {
        let row = r.claims@[j];
        let c = row.claim.deep_view();
        let n = es.len() as int;
        assert(row_ok(row, es, vs));
        lemma_refute_tally(es, vs, c, n);
        if row.has_tool_linkage {
            let k = choose|k: int| 0 <= k < n && #[trigger] link_at(es, vs, c, k);
            assert(link_at(es, vs, c, k));
        } else {
            assert forall|k: int| 0 <= k < n && es[k].claim.deep_view() == c && vs[k] && es[k].verdict
                == Verdict::Confirm implies es[k].method != ConfirmMethod::LinkageCheck by {
                assert(!link_at(es, vs, c, k));
            }
        }
        if row.status == ConfirmationStatus::Stale {
            let k = choose|k: int| 0 <= k < n && #[trigger] lost_confirm_at(es, vs, c, k);
            assert(lost_confirm_at(es, vs, c, k));
        }
    }
}

/// The refute tally is positive exactly when some current event among the
/// first `n` refutes `c`.
proof fn lemma_refute_tally(es: Seq<ConfirmationEvent>, vs: Seq<bool>, c: ClaimView, n: int)
    requires
        n <= es.len(),
    ensures
        (tally(es, vs, c, Tally::Refutes, n) > 0) == (exists|k: int|
            0 <= k < n && es[k].claim.deep_view() == c && vs[k] && es[k].verdict == Verdict::Refute),
    decreases n,
{
    if n > 0 {
        lemma_refute_tally(es, vs, c, n - 1);
        if exists|k: int|
            0 <= k < n && es[k].claim.deep_view() == c && vs[k] && es[k].verdict == Verdict::Refute {
            let k = choose|k: int|
                0 <= k < n && es[k].claim.deep_view() == c && vs[k] && es[k].verdict == Verdict::Refute;
            if k < n - 1 {
                assert(exists|k2: int|
                    0 <= k2 < n - 1 && es[k2].claim.deep_view() == c && vs[k2] && es[k2].verdict
                        == Verdict::Refute);
            }
        }
    }
}

} // verus!
