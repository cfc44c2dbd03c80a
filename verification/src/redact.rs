//! `redact_term`: one pattern-and-replacement scan over the publishable half
//! of every changelog entry, applied through the publishable setters (the
//! audit half is never touched), with a ready-to-paste ledger draft for each
//! entry it changes.
use vstd::prelude::*;
use crate::changelog::{
    audit_hash_of, format_ledger_row, ledger_row, publishable_hash_of,
    set_changelog_publishable_carry_forward_bullets, set_changelog_publishable_changes_bullets,
    set_changelog_publishable_decision_summary, set_changelog_publishable_impact_refs,
    set_changelog_publishable_verification_bullets,
};
use crate::error::{AtomicMutateError, mutate_error_display};
use crate::model::{AtomicChangelogEntry, AtomicStore, EntryView, clone_strings, ostr, strs};
use crate::order::{insert_sorted, sorted_strict, str_eq, str_views};
use crate::outside::{
    CompiledRegex, compile_regex, regex_accepts, regex_error_text, regex_escape, regex_escaped,
    regex_replace, regex_replaced,
};
use crate::strmap::StrMap;
use crate::text::{
    cat2, cat3, is_blank, is_blank_seq, lemma_replaced_idempotent, owned, replace_literal, replaced,
    shares_no_char,
};

verus! {

/// Why a redaction is refused.
#[derive(Debug)]
pub enum RedactError {
    /// The pattern is not a regex the `regex` crate compiles.
    InvalidRegex { pattern: String, source: regex::Error },
    /// The pattern is blank.
    EmptyPattern,
    /// The reason is blank: a redaction must be auditable.
    MissingReason,
    /// `applied_in` is blank: a redaction must name its originating round or
    /// commit.
    MissingAppliedIn,
    /// A publishable setter refused the write.
    Mutate { entry_id: String, source: AtomicMutateError },
}

/// How the pattern matches.
#[derive(Debug, Clone, Copy, PartialEq, Eq, Structural)]
pub enum RedactMode {
    Literal,
    Regex,
}

/// Which publishable field(s) the scan covers; `All` covers every one.
#[derive(Debug, Clone, Copy, PartialEq, Eq, Structural)]
pub enum RedactScope {
    All,
    DecisionSummary,
    ChangesBullets,
    VerificationBullets,
    ImpactRefs,
    CarryForwardBullets,
}

/// The input of [`redact_term`].
#[derive(Debug, Clone)]
pub struct RedactRequest {
    pub pattern: String,
    pub replacement: String,
    pub mode: RedactMode,
    pub case_insensitive: bool,
    pub scope: RedactScope,
    pub dry_run: bool,
    /// Written verbatim to the ledger draft; must not be blank.
    pub reason: String,
    /// The round id or commit that authorizes the redaction; must not be blank.
    pub applied_in: String,
    /// Free-form classification written to the ledger draft.
    pub kind: String,
}

/// One field (or one bullet of a list field) the pattern changed.
#[derive(Debug, Clone, PartialEq, Eq)]
pub struct RedactionHit {
    pub entry_id: String,
    pub field: &'static str,
    /// The bullet's position for a list field; `None` for the summary.
    pub index: Option<usize>,
    /// The field (or bullet) before.
    pub original: String,
    /// The field (or bullet) after.
    pub redacted: String,
}

/// What [`redact_term`] found and did.
#[derive(Debug, Clone)]
pub struct RedactionReport {
    pub dry_run: bool,
    pub hits: Vec<RedactionHit>,
    /// One ledger draft per touched entry, in entry order.
    pub ledger_drafts: Vec<String>,
}

/// Whether the active scope covers the field `target` stands for.
pub open spec fn scope_covers(active: RedactScope, target: RedactScope) -> bool {
    active == RedactScope::All || active == target
}

/// Whether the active scope covers the field `target` stands for.
pub fn scope_includes(active: RedactScope, target: RedactScope) -> (r: bool)
    ensures
        r == scope_covers(active, target),
{
    match active {
        RedactScope::All => true,
        _ => active == target,
    }
}

// ---------------------------------------------------------------------------
// The matcher.
// ---------------------------------------------------------------------------
/// What a matcher does to a text.
pub enum MatchRule {
    /// Replace each occurrence of the text, case-sensitively.
    Exact(Seq<char>),
    /// Replace each match of the regex built from the pattern and flag.
    Pattern(Seq<char>, bool),
    /// Leave the text as it is.
    Inert,
}

/// The rule a request asks for, when it compiles: a case-sensitive literal
/// replaces exactly; a case-insensitive literal is matched by its escaped
/// regex (and, should that not compile, changes nothing); a regex by itself.
pub open spec fn request_rule(req: RedactRequest) -> MatchRule {
    match req.mode {
        RedactMode::Literal => if !req.case_insensitive {
            MatchRule::Exact(req.pattern@)
        } else if regex_accepts(regex_escaped(req.pattern@), true) {
            MatchRule::Pattern(regex_escaped(req.pattern@), true)
        } else {
            MatchRule::Inert
        },
        RedactMode::Regex => MatchRule::Pattern(req.pattern@, req.case_insensitive),
    }
}

/// A text after the rule's replacement.
pub open spec fn apply_rule(m: MatchRule, input: Seq<char>, replacement: Seq<char>) -> Seq<char> {
    match m {
        MatchRule::Exact(needle) => replaced(input, needle, replacement),
        MatchRule::Pattern(pattern, ci) => regex_replaced(pattern, ci, input, replacement),
        MatchRule::Inert => input,
    }
}

enum Matcher {
    Exact(String),
    Compiled(CompiledRegex),
    Inert,
}

impl Matcher {
    spec fn rule(&self) -> MatchRule {
        match self {
            Matcher::Exact(n) => MatchRule::Exact(n@),
            Matcher::Compiled(c) => MatchRule::Pattern(c.pattern_of(), c.case_insensitive_of()),
            Matcher::Inert => MatchRule::Inert,
        }
    }

    spec fn valid(&self) -> bool {
        match self {
            Matcher::Exact(n) => n@.len() > 0,
            _ => true,
        }
    }

    fn replace_all(&self, input: &str, replacement: &str) -> (r: String)
        requires
            self.valid(),
        ensures
            r@ == apply_rule(self.rule(), input@, replacement@),
    {
        match self {
            Matcher::Exact(needle) => replace_literal(input, needle.as_str(), replacement),
            Matcher::Compiled(c) => regex_replace(c, input, replacement),
            Matcher::Inert => owned(input),
        }
    }
}

fn build_matcher(req: &RedactRequest) -> (r: Result<Matcher, RedactError>)
    requires
        !is_blank_seq(req.pattern@),
    ensures
        match r {
            Ok(m) => m.valid() && m.rule() == request_rule(*req) && (req.mode == RedactMode::Regex
                ==> regex_accepts(req.pattern@, req.case_insensitive)),
            Err(e) => {
                &&& req.mode == RedactMode::Regex
                &&& !regex_accepts(req.pattern@, req.case_insensitive)
                &&& (e matches RedactError::InvalidRegex { pattern, .. } && pattern@ == req.pattern@)
            },
        },
{
    match req.mode {
        RedactMode::Literal => {
            if !req.case_insensitive {
                Ok(Matcher::Exact(owned(req.pattern.as_str())))
            } else {
                let escaped = regex_escape(req.pattern.as_str());
                match compile_regex(escaped.as_str(), true) {
                    Ok(c) => Ok(Matcher::Compiled(c)),
                    Err(_) => Ok(Matcher::Inert),
                }
            }
        },
        RedactMode::Regex => match compile_regex(req.pattern.as_str(), req.case_insensitive) {
            Ok(c) => Ok(Matcher::Compiled(c)),
            Err(e) => Err(RedactError::InvalidRegex { pattern: owned(req.pattern.as_str()), source: e }),
        },
    }
}

// ---------------------------------------------------------------------------
// What a scan finds, by value.
// ---------------------------------------------------------------------------
/// A hit by value: entry id, field, bullet position, before, after.
pub open spec fn hit_view(h: RedactionHit) -> (Seq<char>, Seq<char>, Option<usize>, Seq<char>, Seq<char>) {
    (h.entry_id@, h.field@, h.index, h.original@, h.redacted@)
}

/// Hits by value, in order.
pub open spec fn hit_views(hs: Seq<RedactionHit>) -> Seq<
    (Seq<char>, Seq<char>, Option<usize>, Seq<char>, Seq<char>),
> {
    hs.map_values(|h: RedactionHit| hit_view(h))
}

/// The hits among the first `n` bullets of a list field: one per bullet the
/// rule changes, in bullet order.
pub open spec fn bullet_hits(
    id: Seq<char>,
    field: Seq<char>,
    bs: Seq<Seq<char>>,
    m: MatchRule,
    rep: Seq<char>,
    n: int,
) -> Seq<(Seq<char>, Seq<char>, Option<usize>, Seq<char>, Seq<char>)>
    decreases n,
{
    if n <= 0 {
        Seq::empty()
    } else {
        let b = bs[n - 1];
        let a = apply_rule(m, b, rep);
        bullet_hits(id, field, bs, m, rep, n - 1) + if a != b {
            seq![(id, field, Some((n - 1) as usize), b, a)]
        } else {
            Seq::empty()
        }
    }
}

/// The hit on the summary, if the rule changes it.
pub open spec fn summary_hits(id: Seq<char>, s: Option<Seq<char>>, m: MatchRule, rep: Seq<char>) -> Seq<
    (Seq<char>, Seq<char>, Option<usize>, Seq<char>, Seq<char>),
> {
    match s {
        Some(x) => if apply_rule(m, x, rep) != x {
            seq![(id, "publishable_decision_summary"@, None, x, apply_rule(m, x, rep))]
        } else {
            Seq::empty()
        },
        None => Seq::empty(),
    }
}

/// The hits of the list field `field` holding `bs`, when the scope covers it.
pub open spec fn list_hits(
    id: Seq<char>,
    field: Seq<char>,
    bs: Seq<Seq<char>>,
    covered: bool,
    m: MatchRule,
    rep: Seq<char>,
) -> Seq<(Seq<char>, Seq<char>, Option<usize>, Seq<char>, Seq<char>)> {
    if covered {
        bullet_hits(id, field, bs, m, rep, bs.len() as int)
    } else {
        Seq::empty()
    }
}

/// The hits of one entry, in field order: summary, changes, verification,
/// impact refs, carry-forward.
pub open spec fn entry_hits(id: Seq<char>, e: EntryView, m: MatchRule, rep: Seq<char>, scope: RedactScope) -> Seq<
    (Seq<char>, Seq<char>, Option<usize>, Seq<char>, Seq<char>),
> {
    (if scope_covers(scope, RedactScope::DecisionSummary) {
        summary_hits(id, e.publishable_decision_summary, m, rep)
    } else {
        Seq::empty()
    }) + list_hits(
        id,
        "publishable_changes_bullets"@,
        e.publishable_changes_bullets,
        scope_covers(scope, RedactScope::ChangesBullets),
        m,
        rep,
    ) + list_hits(
        id,
        "publishable_verification_bullets"@,
        e.publishable_verification_bullets,
        scope_covers(scope, RedactScope::VerificationBullets),
        m,
        rep,
    ) + list_hits(
        id,
        "publishable_impact_refs"@,
        e.publishable_impact_refs,
        scope_covers(scope, RedactScope::ImpactRefs),
        m,
        rep,
    ) + list_hits(
        id,
        "publishable_carry_forward_bullets"@,
        e.publishable_carry_forward_bullets,
        scope_covers(scope, RedactScope::CarryForwardBullets),
        m,
        rep,
    )
}

/// Each bullet after the rule.
pub open spec fn redact_list(bs: Seq<Seq<char>>, m: MatchRule, rep: Seq<char>) -> Seq<Seq<char>> {
    bs.map_values(|b: Seq<char>| apply_rule(m, b, rep))
}

/// An entry after the redaction: each covered publishable field through the
/// rule; the audit half and the fields out of scope as they were.
pub open spec fn redacted_entry(e: EntryView, m: MatchRule, rep: Seq<char>, scope: RedactScope) -> EntryView {
    EntryView {
        publishable_decision_summary: if scope_covers(scope, RedactScope::DecisionSummary) {
            match e.publishable_decision_summary {
                Some(s) => Some(apply_rule(m, s, rep)),
                None => None,
            }
        } else {
            e.publishable_decision_summary
        },
        publishable_changes_bullets: if scope_covers(scope, RedactScope::ChangesBullets) {
            redact_list(e.publishable_changes_bullets, m, rep)
        } else {
            e.publishable_changes_bullets
        },
        publishable_verification_bullets: if scope_covers(scope, RedactScope::VerificationBullets) {
            redact_list(e.publishable_verification_bullets, m, rep)
        } else {
            e.publishable_verification_bullets
        },
        publishable_impact_refs: if scope_covers(scope, RedactScope::ImpactRefs) {
            redact_list(e.publishable_impact_refs, m, rep)
        } else {
            e.publishable_impact_refs
        },
        publishable_carry_forward_bullets: if scope_covers(scope, RedactScope::CarryForwardBullets) {
            redact_list(e.publishable_carry_forward_bullets, m, rep)
        } else {
            e.publishable_carry_forward_bullets
        },
        ..e
    }
}

/// Whether the rule changes some bullet of `bs`.
pub open spec fn list_changed(bs: Seq<Seq<char>>, m: MatchRule, rep: Seq<char>) -> bool {
    exists|i: int| 0 <= i < bs.len() && #[trigger] apply_rule(m, bs[i], rep) != bs[i]
}

/// Whether the rule changes the summary.
pub open spec fn summary_changed(s: Option<Seq<char>>, m: MatchRule, rep: Seq<char>) -> bool {
    match s {
        Some(x) => apply_rule(m, x, rep) != x,
        None => false,
    }
}

/// The names of the fields of an entry that have hits, in name order (the
/// order a ledger row lists them in).
pub open spec fn touched_fields(e: EntryView, m: MatchRule, rep: Seq<char>, scope: RedactScope) -> Seq<
    Seq<char>,
> {
    (if scope_covers(scope, RedactScope::CarryForwardBullets) && list_changed(
        e.publishable_carry_forward_bullets,
        m,
        rep,
    ) {
        seq!["publishable_carry_forward_bullets"@]
    } else {
        Seq::empty()
    }) + (if scope_covers(scope, RedactScope::ChangesBullets) && list_changed(
        e.publishable_changes_bullets,
        m,
        rep,
    ) {
        seq!["publishable_changes_bullets"@]
    } else {
        Seq::empty()
    }) + (if scope_covers(scope, RedactScope::DecisionSummary) && summary_changed(
        e.publishable_decision_summary,
        m,
        rep,
    ) {
        seq!["publishable_decision_summary"@]
    } else {
        Seq::empty()
    }) + (if scope_covers(scope, RedactScope::ImpactRefs) && list_changed(
        e.publishable_impact_refs,
        m,
        rep,
    ) {
        seq!["publishable_impact_refs"@]
    } else {
        Seq::empty()
    }) + (if scope_covers(scope, RedactScope::VerificationBullets) && list_changed(
        e.publishable_verification_bullets,
        m,
        rep,
    ) {
        seq!["publishable_verification_bullets"@]
    } else {
        Seq::empty()
    })
}

/// A list field has hits exactly when the rule changes one of its bullets.
proof fn lemma_bullet_hits_nonempty(
    id: Seq<char>,
    field: Seq<char>,
    bs: Seq<Seq<char>>,
    m: MatchRule,
    rep: Seq<char>,
    n: int,
)
    requires
        0 <= n <= bs.len(),
    ensures
        bullet_hits(id, field, bs, m, rep, n).len() > 0 <==> exists|i: int|
            0 <= i < n && #[trigger] apply_rule(m, bs[i], rep) != bs[i],
    decreases n,
{
    if n > 0 {
        lemma_bullet_hits_nonempty(id, field, bs, m, rep, n - 1);
        if bullet_hits(id, field, bs, m, rep, n - 1).len() > 0 {
            let i = choose|i: int| 0 <= i < n - 1 && #[trigger] apply_rule(m, bs[i], rep) != bs[i];
            assert(0 <= i < n && apply_rule(m, bs[i], rep) != bs[i]);
        }
    }
}

/// Run the rule over each bullet of `src`, recording a hit per changed
/// bullet; the new list when some bullet changed, else `None`.
fn redact_vec(
    matcher: &Matcher,
    replacement: &str,
    src: &Vec<String>,
    entry_id: &str,
    field: &'static str,
    hits: &mut Vec<RedactionHit>,
) -> (r: Option<Vec<String>>)
    requires
        matcher.valid(),
    ensures
        hit_views(final(hits)@) == hit_views(old(hits)@) + bullet_hits(
            entry_id@,
            field@,
            strs(*src),
            matcher.rule(),
            replacement@,
            src@.len() as int,
        ),
        r is Some <==> list_changed(strs(*src), matcher.rule(), replacement@),
        match r {
            Some(v) => strs(v) == redact_list(strs(*src), matcher.rule(), replacement@),
            None => redact_list(strs(*src), matcher.rule(), replacement@) == strs(*src),
        },
{
    let ghost m = matcher.rule();
    let ghost rep = replacement@;
    let ghost bs = strs(*src);
    let ghost start = hit_views(hits@);
    let mut new_vec = clone_strings(src);
    let mut changed = false;
    let mut i: usize = 0;
    while i < src.len()
        invariant
            matcher.valid(),
            m == matcher.rule(),
            rep == replacement@,
            bs == strs(*src),
            i <= src.len(),
            new_vec@.len() == src@.len(),
            forall|k: int| 0 <= k < i ==> #[trigger] strs(new_vec)[k] == apply_rule(m, bs[k], rep),
            forall|k: int| i <= k < src@.len() ==> #[trigger] strs(new_vec)[k] == bs[k],
            changed == exists|k: int| 0 <= k < i && #[trigger] apply_rule(m, bs[k], rep) != bs[k],
            hit_views(hits@) == start + bullet_hits(entry_id@, field@, bs, m, rep, i as int),
        decreases src.len() - i,
    {
        let bullet = &src[i];
        let nb = matcher.replace_all(bullet.as_str(), replacement);
        let ghost prev = hits@;
        let ghost before_vec = strs(new_vec);
        proof {
            assert(bs[i as int] == bullet@);
        }
        if !str_eq(nb.as_str(), bullet.as_str()) {
            hits.push(
                RedactionHit {
                    entry_id: owned(entry_id),
                    field,
                    index: Some(i),
                    original: owned(bullet.as_str()),
                    redacted: owned(nb.as_str()),
                },
            );
            new_vec.set(i, nb);
            changed = true;
            proof {
                assert(strs(new_vec) =~= before_vec.update(i as int, apply_rule(m, bs[i as int], rep)));
                assert(hit_views(hits@) =~= hit_views(prev) + seq![
                    (entry_id@, field@, Some(i), bs[i as int], apply_rule(m, bs[i as int], rep)),
                ]);
                assert(((i + 1) - 1) as usize == i);
            }
        } else {
            proof {
                assert(apply_rule(m, bs[i as int], rep) == bs[i as int]);
                assert(strs(new_vec) == before_vec);
            }
        }
        proof {
            assert(hit_views(hits@) =~= start + bullet_hits(entry_id@, field@, bs, m, rep, i + 1));
            if changed && !(exists|k: int| 0 <= k < i && #[trigger] apply_rule(m, bs[k], rep) != bs[k]) {
                assert(apply_rule(m, bs[i as int], rep) != bs[i as int]);
            }
        }
        i = i + 1;
    }
    proof {
        assert(strs(new_vec) =~= redact_list(bs, m, rep));
    }
    if changed {
        Some(new_vec)
    } else {
        proof {
            assert(redact_list(bs, m, rep) =~= bs);
        }
        None
    }
}

/// Scan one entry: record its hits, and give the entry after the redaction
/// with the names of its touched fields, or `None` when nothing changed.
#[verifier::rlimit(40)]
fn scan_entry(
    matcher: &Matcher,
    req: &RedactRequest,
    id: &str,
    e: &AtomicChangelogEntry,
    hits: &mut Vec<RedactionHit>,
) -> (r: Option<(AtomicChangelogEntry, Vec<String>)>)
    requires
        matcher.valid(),
    ensures
        hit_views(final(hits)@) == hit_views(old(hits)@) + entry_hits(
            id@,
            e.deep_view(),
            matcher.rule(),
            req.replacement@,
            req.scope,
        ),
        r is Some <==> entry_hits(id@, e.deep_view(), matcher.rule(), req.replacement@, req.scope).len()
            > 0,
        match r {
            Some((a, fs)) => {
                &&& a.deep_view() == redacted_entry(
                    e.deep_view(),
                    matcher.rule(),
                    req.replacement@,
                    req.scope,
                )
                &&& strs(fs) == touched_fields(
                    e.deep_view(),
                    matcher.rule(),
                    req.replacement@,
                    req.scope,
                )
            },
            None => redacted_entry(e.deep_view(), matcher.rule(), req.replacement@, req.scope)
                == e.deep_view(),
        },
{
    let ghost m = matcher.rule();
    let ghost rep = req.replacement@;
    let ghost ev = e.deep_view();
    let ghost h0 = hit_views(hits@);
    let replacement = req.replacement.as_str();
    let mut after = crate::model::clone_entry(e);
    let mut summary_hit = false;
    if scope_includes(req.scope, RedactScope::DecisionSummary) {
        match &e.publishable_decision_summary {
            Some(sm) => {
                let ns = matcher.replace_all(sm.as_str(), replacement);
                if !str_eq(ns.as_str(), sm.as_str()) {
                    let ghost prev = hits@;
                    hits.push(
                        RedactionHit {
                            entry_id: owned(id),
                            field: "publishable_decision_summary",
                            index: None,
                            original: owned(sm.as_str()),
                            redacted: owned(ns.as_str()),
                        },
                    );
                    proof {
                        assert(hit_views(hits@) =~= hit_views(prev) + summary_hits(
                            id@,
                            ev.publishable_decision_summary,
                            m,
                            rep,
                        ));
                    }
                    after.publishable_decision_summary = Some(ns);
                    summary_hit = true;
                }
            },
            None => {},
        }
    }
    let ghost h1 = hit_views(hits@);
    proof {
        assert(h1 =~= h0 + (if scope_covers(req.scope, RedactScope::DecisionSummary) {
            summary_hits(id@, ev.publishable_decision_summary, m, rep)
        } else {
            Seq::empty()
        }));
    }
    let mut changes_hit = false;
    if scope_includes(req.scope, RedactScope::ChangesBullets) {
        match redact_vec(
            matcher,
            replacement,
            &e.publishable_changes_bullets,
            id,
            "publishable_changes_bullets",
            hits,
        ) {
            Some(v) => {
                after.publishable_changes_bullets = v;
                changes_hit = true;
            },
            None => {},
        }
    }
    let ghost h2 = hit_views(hits@);
    let mut verification_hit = false;
    if scope_includes(req.scope, RedactScope::VerificationBullets) {
        match redact_vec(
            matcher,
            replacement,
            &e.publishable_verification_bullets,
            id,
            "publishable_verification_bullets",
            hits,
        ) {
            Some(v) => {
                after.publishable_verification_bullets = v;
                verification_hit = true;
            },
            None => {},
        }
    }
    let ghost h3 = hit_views(hits@);
    let mut impact_hit = false;
    if scope_includes(req.scope, RedactScope::ImpactRefs) {
        match redact_vec(
            matcher,
            replacement,
            &e.publishable_impact_refs,
            id,
            "publishable_impact_refs",
            hits,
        ) {
            Some(v) => {
                after.publishable_impact_refs = v;
                impact_hit = true;
            },
            None => {},
        }
    }
    let ghost h4 = hit_views(hits@);
    let mut carry_hit = false;
    if scope_includes(req.scope, RedactScope::CarryForwardBullets) {
        match redact_vec(
            matcher,
            replacement,
            &e.publishable_carry_forward_bullets,
            id,
            "publishable_carry_forward_bullets",
            hits,
        ) {
            Some(v) => {
                after.publishable_carry_forward_bullets = v;
                carry_hit = true;
            },
            None => {},
        }
    }
    proof {
        let cb = list_hits(
            id@,
            "publishable_changes_bullets"@,
            ev.publishable_changes_bullets,
            scope_covers(req.scope, RedactScope::ChangesBullets),
            m,
            rep,
        );
        let vb = list_hits(
            id@,
            "publishable_verification_bullets"@,
            ev.publishable_verification_bullets,
            scope_covers(req.scope, RedactScope::VerificationBullets),
            m,
            rep,
        );
        let ir = list_hits(
            id@,
            "publishable_impact_refs"@,
            ev.publishable_impact_refs,
            scope_covers(req.scope, RedactScope::ImpactRefs),
            m,
            rep,
        );
        let cf = list_hits(
            id@,
            "publishable_carry_forward_bullets"@,
            ev.publishable_carry_forward_bullets,
            scope_covers(req.scope, RedactScope::CarryForwardBullets),
            m,
            rep,
        );
        assert(h2 =~= h1 + cb);
        assert(h3 =~= h2 + vb);
        assert(h4 =~= h3 + ir);
        assert(hit_views(hits@) =~= h4 + cf);
        assert(hit_views(hits@) =~= h0 + entry_hits(id@, ev, m, rep, req.scope));
        lemma_bullet_hits_nonempty(
            id@,
            "publishable_changes_bullets"@,
            ev.publishable_changes_bullets,
            m,
            rep,
            ev.publishable_changes_bullets.len() as int,
        );
        lemma_bullet_hits_nonempty(
            id@,
            "publishable_verification_bullets"@,
            ev.publishable_verification_bullets,
            m,
            rep,
            ev.publishable_verification_bullets.len() as int,
        );
        lemma_bullet_hits_nonempty(
            id@,
            "publishable_impact_refs"@,
            ev.publishable_impact_refs,
            m,
            rep,
            ev.publishable_impact_refs.len() as int,
        );
        lemma_bullet_hits_nonempty(
            id@,
            "publishable_carry_forward_bullets"@,
            ev.publishable_carry_forward_bullets,
            m,
            rep,
            ev.publishable_carry_forward_bullets.len() as int,
        );
        assert(changes_hit == (cb.len() > 0));
        assert(verification_hit == (vb.len() > 0));
        assert(impact_hit == (ir.len() > 0));
        assert(carry_hit == (cf.len() > 0));
        assert(after.deep_view() == redacted_entry(ev, m, rep, req.scope));
    }
    if summary_hit || changes_hit || verification_hit || impact_hit || carry_hit {
        let mut fields: Vec<String> = Vec::new();
        if carry_hit {
            fields.push(owned("publishable_carry_forward_bullets"));
        }
        if changes_hit {
            fields.push(owned("publishable_changes_bullets"));
        }
        if summary_hit {
            fields.push(owned("publishable_decision_summary"));
        }
        if impact_hit {
            fields.push(owned("publishable_impact_refs"));
        }
        if verification_hit {
            fields.push(owned("publishable_verification_bullets"));
        }
        proof {
            assert(strs(fields) =~= touched_fields(ev, m, rep, req.scope));
        }
        Some((after, fields))
    } else {
        None
    }
}

/// Write the publishable half of `after` over the entry `id` through the
/// publishable setters.
fn apply_redaction(store: &mut AtomicStore, id: &str, after: &AtomicChangelogEntry) -> (r: Result<
    (),
    AtomicMutateError,
>)
    requires
        old(store).wf(),
        old(store).changelog_entries@.contains_key(id@),
        after.deep_view() == (EntryView {
            publishable_decision_summary: after.deep_view().publishable_decision_summary,
            publishable_changes_bullets: after.deep_view().publishable_changes_bullets,
            publishable_verification_bullets: after.deep_view().publishable_verification_bullets,
            publishable_impact_refs: after.deep_view().publishable_impact_refs,
            publishable_carry_forward_bullets: after.deep_view().publishable_carry_forward_bullets,
            ..old(store).entries_v()[id@]
        }),
        after.publishable_decision_summary is None ==> old(store).entries_v()[id@].publishable_decision_summary is None,
    ensures
        r is Ok,
        final(store).wf(),
        final(store).changelog_entries@.dom() == old(store).changelog_entries@.dom(),
        final(store).entries_v()[id@] == after.deep_view(),
        forall|k: Seq<char>|
            #[trigger] old(store).changelog_entries@.contains_key(k) && k != id@ ==> final(store).changelog_entries@[k] == old(store).changelog_entries@[k],
        final(store).same_but_entries(*old(store)),
{
    match &after.publishable_decision_summary {
        Some(sm) => {
            let r0 = set_changelog_publishable_decision_summary(store, id, sm.as_str());
            if r0.is_err() {
                return r0;
            }
        },
        None => {},
    }
    let r1 = set_changelog_publishable_changes_bullets(store, id, &after.publishable_changes_bullets);
    if r1.is_err() {
        return r1;
    }
    let r2 = set_changelog_publishable_verification_bullets(
        store,
        id,
        &after.publishable_verification_bullets,
    );
    if r2.is_err() {
        return r2;
    }
    let r3 = set_changelog_publishable_impact_refs(store, id, &after.publishable_impact_refs);
    if r3.is_err() {
        return r3;
    }
    let r4 = set_changelog_publishable_carry_forward_bullets(
        store,
        id,
        &after.publishable_carry_forward_bullets,
    );
    if r4.is_err() {
        return r4;
    }
    Ok(())
}

// ---------------------------------------------------------------------------
// The whole scan.
// ---------------------------------------------------------------------------
/// Why a request is refused, in the order the checks run.
pub enum RedactRefusal {
    EmptyPattern,
    MissingReason,
    MissingAppliedIn,
    InvalidRegex(Seq<char>),
}

/// The refusal a request earns, if any.
pub open spec fn redact_problem(req: RedactRequest) -> Option<RedactRefusal> {
    if is_blank_seq(req.pattern@) {
        Some(RedactRefusal::EmptyPattern)
    } else if is_blank_seq(req.reason@) {
        Some(RedactRefusal::MissingReason)
    } else if is_blank_seq(req.applied_in@) {
        Some(RedactRefusal::MissingAppliedIn)
    } else if req.mode == RedactMode::Regex && !regex_accepts(req.pattern@, req.case_insensitive) {
        Some(RedactRefusal::InvalidRegex(req.pattern@))
    } else {
        None
    }
}

/// The refusal an error stands for.
pub open spec fn redact_refusal(e: RedactError) -> Option<RedactRefusal> {
    match e {
        RedactError::InvalidRegex { pattern, .. } => Some(RedactRefusal::InvalidRegex(pattern@)),
        RedactError::EmptyPattern => Some(RedactRefusal::EmptyPattern),
        RedactError::MissingReason => Some(RedactRefusal::MissingReason),
        RedactError::MissingAppliedIn => Some(RedactRefusal::MissingAppliedIn),
        RedactError::Mutate { .. } => None,
    }
}

/// The hits of the first `n` entries, in entry order.
pub open spec fn scan_hits(
    ks: Seq<Seq<char>>,
    vs: Seq<AtomicChangelogEntry>,
    m: MatchRule,
    rep: Seq<char>,
    scope: RedactScope,
    n: int,
) -> Seq<(Seq<char>, Seq<char>, Option<usize>, Seq<char>, Seq<char>)>
    decreases n,
{
    if n <= 0 {
        Seq::empty()
    } else {
        scan_hits(ks, vs, m, rep, scope, n - 1) + entry_hits(ks[n - 1], vs[n - 1].deep_view(), m, rep, scope)
    }
}

/// The ledger draft of one entry, when it has hits: its touched fields and
/// the hashes of its halves after the redaction.
pub open spec fn entry_draft(id: Seq<char>, e: EntryView, m: MatchRule, req: RedactRequest) -> Seq<Seq<char>> {
    if entry_hits(id, e, m, req.replacement@, req.scope).len() > 0 {
        let after = redacted_entry(e, m, req.replacement@, req.scope);
        seq![
            ledger_row(
                req.kind@,
                id,
                touched_fields(e, m, req.replacement@, req.scope),
                req.reason@,
                req.applied_in@,
                audit_hash_of(after),
                publishable_hash_of(after),
            ),
        ]
    } else {
        Seq::empty()
    }
}

/// The ledger drafts of the first `n` entries, in entry order.
pub open spec fn scan_drafts(
    ks: Seq<Seq<char>>,
    vs: Seq<AtomicChangelogEntry>,
    m: MatchRule,
    req: RedactRequest,
    n: int,
) -> Seq<Seq<char>>
    decreases n,
{
    if n <= 0 {
        Seq::empty()
    } else {
        scan_drafts(ks, vs, m, req, n - 1) + entry_draft(ks[n - 1], vs[n - 1].deep_view(), m, req)
    }
}

/// Whether one of the first `p` planned ids is `k`.
pub open spec fn planned_within(ids: Seq<Seq<char>>, p: int, k: Seq<char>) -> bool {
    exists|q: int| 0 <= q < p && #[trigger] ids[q] == k
}

/// Redact the publishable half of the store's changelog entries. Refused when
/// the pattern, the reason or `applied_in` is blank, or a regex pattern does
/// not compile. Otherwise the report lists every hit (entry by entry, field
/// by field) and one ledger draft per touched entry, computed against the
/// entry after the redaction; a dry run changes nothing, a real run writes
/// each touched entry's redacted publishable half and nothing else.
pub fn redact_term(store: &mut AtomicStore, req: &RedactRequest) -> (r: Result<RedactionReport, RedactError>)
    ensures
        final(store).wf(),
        match r {
            Err(e) => {
                &&& *final(store) == *old(store)
                &&& redact_problem(*req) is Some
                &&& redact_refusal(e) == redact_problem(*req)
            },
            Ok(rep) => {
                let ks = old(store).changelog_entries.key_seq();
                let vs = old(store).changelog_entries.val_seq();
                let m = request_rule(*req);
                &&& redact_problem(*req) is None
                &&& rep.dry_run == req.dry_run
                &&& hit_views(rep.hits@) == scan_hits(
                    ks,
                    vs,
                    m,
                    req.replacement@,
                    req.scope,
                    ks.len() as int,
                )
                &&& strs(rep.ledger_drafts) == scan_drafts(ks, vs, m, *req, ks.len() as int)
                &&& if req.dry_run {
                    *final(store) == *old(store)
                } else {
                    &&& final(store).changelog_entries@.dom() == old(store).changelog_entries@.dom()
                    &&& forall|k: Seq<char>|
                        #[trigger] old(store).changelog_entries@.contains_key(k) ==> final(store).entries_v()[k] == redacted_entry(
                            old(store).entries_v()[k],
                            m,
                            req.replacement@,
                            req.scope,
                        )
                    &&& final(store).same_but_entries(*old(store))
                }
            },
        },
{
    store.establish_wf();
    if is_blank(req.pattern.as_str()) {
        return Err(RedactError::EmptyPattern);
    }
    if is_blank(req.reason.as_str()) {
        return Err(RedactError::MissingReason);
    }
    if is_blank(req.applied_in.as_str()) {
        return Err(RedactError::MissingAppliedIn);
    }
    let matcher = match build_matcher(req) {
        Ok(m) => m,
        Err(e) => {
            return Err(e);
        },
    };
    let ghost orig = *store;
    let ghost ks = store.changelog_entries.key_seq();
    let ghost vs = store.changelog_entries.val_seq();
    let ghost m = matcher.rule();
    let ghost rep = req.replacement@;
    proof {
        store.changelog_entries.lemma_wf();
    }
    let n = store.changelog_entries.len();
    let mut hits: Vec<RedactionHit> = Vec::new();
    let mut drafts: Vec<String> = Vec::new();
    let mut planned: Vec<(String, AtomicChangelogEntry)> = Vec::new();
    let mut i: usize = 0;
    while i < n
        invariant
            *store == orig,
            orig.wf(),
            matcher.valid(),
            m == matcher.rule(),
            m == request_rule(*req),
            rep == req.replacement@,
            ks == orig.changelog_entries.key_seq(),
            vs == orig.changelog_entries.val_seq(),
            n == ks.len(),
            ks.len() == vs.len(),
            i <= n,
            hit_views(hits@) == scan_hits(ks, vs, m, rep, req.scope, i as int),
            strs(drafts) == scan_drafts(ks, vs, m, *req, i as int),
            forall|p: int|
                0 <= p < planned@.len() ==> {
                    &&& #[trigger] orig.changelog_entries@.contains_key(planned@[p].0@)
                    &&& planned@[p].1.deep_view() == redacted_entry(
                        orig.entries_v()[planned@[p].0@],
                        m,
                        rep,
                        req.scope,
                    )
                },
            forall|j: int|
                0 <= j < i && !planned_within(
                    planned@.map_values(|x: (String, AtomicChangelogEntry)| x.0@),
                    planned@.len() as int,
                    #[trigger] ks[j],
                ) ==> redacted_entry(vs[j].deep_view(), m, rep, req.scope) == vs[j].deep_view(),
        decreases n - i,
    {
        proof {
            orig.changelog_entries.lemma_wf();
        }
        let id = store.changelog_entries.key_at(i);
        let e = store.changelog_entries.val_at(i);
        let ghost prev_planned = planned@;
        let ghost prev_drafts = strs(drafts);
        match scan_entry(&matcher, req, id.as_str(), e, &mut hits) {
            Some((after, fields)) => {
                let before_hash = after.audit_hash_hex();
                let after_hash = after.publishable_hash_hex();
                let row = format_ledger_row(
                    req.kind.as_str(),
                    id.as_str(),
                    &fields,
                    req.reason.as_str(),
                    req.applied_in.as_str(),
                    before_hash.as_str(),
                    after_hash.as_str(),
                );
                drafts.push(row);
                proof {
                    assert(strs(drafts) =~= prev_drafts + entry_draft(ks[i as int], vs[i as int].deep_view(), m, *req));
                }
                planned.push((owned(id.as_str()), after));
                proof {
                    assert(planned@[prev_planned.len() as int].0@ == ks[i as int]);
                    assert(orig.changelog_entries@.contains_key(ks[i as int]));
                    assert(orig.changelog_entries@[ks[i as int]] == vs[i as int]);
                    assert(orig.entries_v().contains_key(ks[i as int]));
                    assert(orig.entries_v()[ks[i as int]] == vs[i as int].deep_view());
                    assert(forall|q: int|
                        0 <= q < prev_planned.len() ==> planned@[q] == prev_planned[q]);
                    let ids = planned@.map_values(|x: (String, AtomicChangelogEntry)| x.0@);
                    let pids = prev_planned.map_values(|x: (String, AtomicChangelogEntry)| x.0@);
                    assert forall|j: int|
                        0 <= j < i + 1 && !planned_within(ids, planned@.len() as int, #[trigger] ks[j])
                            implies redacted_entry(vs[j].deep_view(), m, rep, req.scope)
                            == vs[j].deep_view() by {
                        assert(ids[prev_planned.len() as int] == ks[i as int]);
                        if j < i {
                            if planned_within(pids, prev_planned.len() as int, ks[j]) {
                                let q = choose|q: int|
                                    0 <= q < prev_planned.len() && #[trigger] pids[q] == ks[j];
                                assert(ids[q] == ks[j]);
                            }
                        }
                    }
                }
            },
            None => {
                proof {
                    assert(strs(drafts) =~= prev_drafts + entry_draft(ks[i as int], vs[i as int].deep_view(), m, *req));
                }
            },
        }
        i = i + 1;
    }
    if !req.dry_run {
        let ghost ids = planned@.map_values(|x: (String, AtomicChangelogEntry)| x.0@);
        let mut p: usize = 0;
        while p < planned.len()
            invariant
                orig.wf(),
                store.wf(),
                ids == planned@.map_values(|x: (String, AtomicChangelogEntry)| x.0@),
                p <= planned@.len(),
                store.changelog_entries@.dom() == orig.changelog_entries@.dom(),
                store.same_but_entries(orig),
                forall|q: int|
                    0 <= q < planned@.len() ==> {
                        &&& #[trigger] orig.changelog_entries@.contains_key(planned@[q].0@)
                        &&& planned@[q].1.deep_view() == redacted_entry(
                            orig.entries_v()[planned@[q].0@],
                            m,
                            rep,
                            req.scope,
                        )
                    },
                forall|k: Seq<char>|
                    #[trigger] orig.changelog_entries@.contains_key(k) ==> store.entries_v()[k] == if planned_within(
                        ids,
                        p as int,
                        k,
                    ) {
                        redacted_entry(orig.entries_v()[k], m, rep, req.scope)
                    } else {
                        orig.entries_v()[k]
                    },
            decreases planned@.len() - p,
        {
            let ghost before = *store;
            let ghost k0 = planned@[p as int].0@;
            let id = planned[p].0.as_str();
            let after = &planned[p].1;
            proof {
                assert(ids[p as int] == k0);
                assert(orig.changelog_entries@.contains_key(k0));
                let o = orig.entries_v()[k0];
                let cur = store.entries_v()[k0];
                let a = after.deep_view();
                assert(a == redacted_entry(o, m, rep, req.scope));
                assert(cur == o || cur == redacted_entry(o, m, rep, req.scope));
                assert(a == (EntryView {
                    publishable_decision_summary: a.publishable_decision_summary,
                    publishable_changes_bullets: a.publishable_changes_bullets,
                    publishable_verification_bullets: a.publishable_verification_bullets,
                    publishable_impact_refs: a.publishable_impact_refs,
                    publishable_carry_forward_bullets: a.publishable_carry_forward_bullets,
                    ..cur
                }));
            }
            match apply_redaction(store, id, after) {
                Ok(()) => {},
                Err(e) => {
                    return Err(RedactError::Mutate { entry_id: owned(id), source: e });
                },
            }
            proof {
                assert forall|k: Seq<char>|
                    #[trigger] orig.changelog_entries@.contains_key(k) implies store.entries_v()[k]
                        == if planned_within(ids, p + 1, k) {
                        redacted_entry(orig.entries_v()[k], m, rep, req.scope)
                    } else {
                        orig.entries_v()[k]
                    } by {
                    if k == k0 {
                        assert(ids[p as int] == k);
                    } else {
                        assert(store.changelog_entries@[k] == before.changelog_entries@[k]);
                        if planned_within(ids, p + 1, k) {
                            let q = choose|q: int| 0 <= q < p + 1 && #[trigger] ids[q] == k;
                            assert(q < p);
                        }
                    }
                }
            }
            p = p + 1;
        }
        proof {
            assert forall|k: Seq<char>|
                #[trigger] orig.changelog_entries@.contains_key(k) implies store.entries_v()[k]
                    == redacted_entry(orig.entries_v()[k], m, rep, req.scope) by {
                orig.changelog_entries.lemma_wf();
                if !planned_within(ids, planned@.len() as int, k) {
                    let j = choose|j: int| 0 <= j < ks.len() && ks[j] == k;
                    assert(orig.changelog_entries@[ks[j]] == vs[j]);
                }
            }
        }
    }
    Ok(RedactionReport { dry_run: req.dry_run, hits, ledger_drafts: drafts })
}

impl RedactionReport {
    /// The ids of the entries with hits, sorted, each once.
    pub fn touched_entries(&self) -> (r: Vec<&str>)
        ensures
            sorted_strict(str_views(r@)),
            forall|y: Seq<char>|
                str_views(r@).contains(y) <==> exists|j: int|
                    0 <= j < self.hits@.len() && #[trigger] self.hits@[j].entry_id@ == y,
    {
        let mut out: Vec<&str> = Vec::new();
        let mut i: usize = 0;
        while i < self.hits.len()
            invariant
                i <= self.hits@.len(),
                sorted_strict(str_views(out@)),
                forall|y: Seq<char>|
                    str_views(out@).contains(y) <==> exists|j: int|
                        0 <= j < i && #[trigger] self.hits@[j].entry_id@ == y,
            decreases self.hits@.len() - i,
        {
            let id = self.hits[i].entry_id.as_str();
            insert_sorted(&mut out, id);
            proof {
                assert forall|y: Seq<char>|
                    str_views(out@).contains(y) <==> exists|j: int|
                        0 <= j < i + 1 && #[trigger] self.hits@[j].entry_id@ == y by {
                    if y == self.hits@[i as int].entry_id@ {
                        assert(0 <= i < i + 1 && self.hits@[i as int].entry_id@ == y);
                    }
                    if exists|j: int| 0 <= j < i + 1 && #[trigger] self.hits@[j].entry_id@ == y {
                        let j = choose|j: int| 0 <= j < i + 1 && #[trigger] self.hits@[j].entry_id@ == y;
                        if j < i {
                            assert(exists|j: int| 0 <= j < i && #[trigger] self.hits@[j].entry_id@ == y);
                        }
                    }
                }
            }
            i = i + 1;
        }
        out
    }
}

impl RedactError {
    /// The text the error displays as.
    pub fn to_text(&self) -> (r: String)
        ensures
            match self {
                RedactError::InvalidRegex { pattern, .. } => r@.len() >= pattern@.len() + 18
                    && r@.subrange(0, pattern@.len() + 18int) == "invalid regex `"@ + pattern@ + "`: "@,
                RedactError::EmptyPattern => r@ == "empty pattern not allowed"@,
                RedactError::MissingReason => r@ == "missing reason \u{2014} redaction must be auditable"@,
                RedactError::MissingAppliedIn => r@
                    == "missing applied_in \u{2014} redaction must reference its originating round / commit"@,
                RedactError::Mutate { entry_id, source } => r@ == "mutate failure on `"@ + entry_id@ + "`: "@
                    + mutate_error_display(*source),
            },
    {
        match self {
            RedactError::InvalidRegex { pattern, source } => {
                let mut r = cat3("invalid regex `", pattern.as_str(), "`: ");
                proof {
                    reveal_strlit("invalid regex `");
                    reveal_strlit("`: ");
                }
                let ghost head = r@;
                let t = regex_error_text(source);
                r.append(t.as_str());
                assert(r@.subrange(0, pattern@.len() + 18int) =~= head);
                r
            },
            RedactError::EmptyPattern => owned("empty pattern not allowed"),
            RedactError::MissingReason => owned("missing reason \u{2014} redaction must be auditable"),
            RedactError::MissingAppliedIn => owned(
                "missing applied_in \u{2014} redaction must reference its originating round / commit",
            ),
            RedactError::Mutate { entry_id, source } => {
                let mut r = cat3("mutate failure on `", entry_id.as_str(), "`: ");
                let t = source.to_text();
                r.append(t.as_str());
                r
            },
        }
    }
}


/// A redaction never touches the audit half of an entry.
pub proof fn lemma_redaction_keeps_audit(e: EntryView, m: MatchRule, rep: Seq<char>, scope: RedactScope)
    ensures
        ({
            let r = redacted_entry(e, m, rep, scope);
            &&& r.decision_summary == e.decision_summary
            &&& r.changes_bullets == e.changes_bullets
            &&& r.verification_bullets == e.verification_bullets
            &&& r.impact_refs == e.impact_refs
            &&& r.carry_forward_bullets == e.carry_forward_bullets
        }),
{
}

/// A dry run previews exactly the hits and ledger drafts the real run gives:
/// neither depends on whether the run is dry.
pub proof fn lemma_dry_run_previews(
    ks: Seq<Seq<char>>,
    vs: Seq<AtomicChangelogEntry>,
    m: MatchRule,
    a: RedactRequest,
    b: RedactRequest,
    n: int,
)
    requires
        a.replacement@ == b.replacement@,
        a.scope == b.scope,
        a.kind@ == b.kind@,
        a.reason@ == b.reason@,
        a.applied_in@ == b.applied_in@,
    ensures
        scan_drafts(ks, vs, m, a, n) == scan_drafts(ks, vs, m, b, n),
        scan_hits(ks, vs, m, a.replacement@, a.scope, n) == scan_hits(
            ks,
            vs,
            m,
            b.replacement@,
            b.scope,
            n,
        ),
    decreases n,
{
    if n > 0 {
        lemma_dry_run_previews(ks, vs, m, a, b, n - 1);
    }
}

/// A list whose every bullet the rule leaves as it is has no hits.
proof fn lemma_bullet_hits_fixed(
    id: Seq<char>,
    field: Seq<char>,
    bs: Seq<Seq<char>>,
    m: MatchRule,
    rep: Seq<char>,
    n: int,
)
    requires
        n <= bs.len(),
        forall|i: int| 0 <= i < bs.len() ==> apply_rule(m, #[trigger] bs[i], rep) == bs[i],
    ensures
        bullet_hits(id, field, bs, m, rep, n) == Seq::<(Seq<char>, Seq<char>, Option<usize>, Seq<char>, Seq<char>)>::empty(),
    decreases n,
{
    if n > 0 {
        lemma_bullet_hits_fixed(id, field, bs, m, rep, n - 1);
        assert(apply_rule(m, bs[n - 1], rep) == bs[n - 1]);
        assert(bullet_hits(id, field, bs, m, rep, n) =~= bullet_hits(id, field, bs, m, rep, n - 1));
    }
}

/// Redacting a list again with a case-sensitive literal whose replacement
/// is non-empty and shares no character with it leaves every bullet.
proof fn lemma_literal_list_fixed(bs: Seq<Seq<char>>, p: Seq<char>, rep: Seq<char>)
    requires
        p.len() > 0,
        rep.len() > 0,
        shares_no_char(rep, p),
    ensures
        ({
            let after = redact_list(bs, MatchRule::Exact(p), rep);
            &&& redact_list(after, MatchRule::Exact(p), rep) == after
            &&& forall|i: int|
                0 <= i < after.len() ==> apply_rule(MatchRule::Exact(p), #[trigger] after[i], rep) == after[i]
        }),
{
    let after = redact_list(bs, MatchRule::Exact(p), rep);
    assert forall|i: int| 0 <= i < after.len() implies apply_rule(
        MatchRule::Exact(p),
        #[trigger] after[i],
        rep,
    ) == after[i] by {
        lemma_replaced_idempotent(bs[i], p, rep);
    }
    assert(redact_list(after, MatchRule::Exact(p), rep) =~= after);
}

/// A case-sensitive literal redaction whose replacement is non-empty and
/// shares no character with the pattern is idempotent on an entry: the
/// redacted entry is left as it is by the same redaction, which finds no
/// hit in it.
pub proof fn lemma_literal_redaction_idempotent(
    id: Seq<char>,
    e: EntryView,
    p: Seq<char>,
    rep: Seq<char>,
    scope: RedactScope,
)
    requires
        p.len() > 0,
        rep.len() > 0,
        shares_no_char(rep, p),
    ensures
        ({
            let m = MatchRule::Exact(p);
            let after = redacted_entry(e, m, rep, scope);
            &&& redacted_entry(after, m, rep, scope) == after
            &&& entry_hits(id, after, m, rep, scope).len() == 0
        }),
{
    let m = MatchRule::Exact(p);
    let after = redacted_entry(e, m, rep, scope);
    match e.publishable_decision_summary {
        Some(x) => {
            lemma_replaced_idempotent(x, p, rep);
        },
        None => {},
    }
    lemma_literal_list_fixed(e.publishable_changes_bullets, p, rep);
    lemma_literal_list_fixed(e.publishable_verification_bullets, p, rep);
    lemma_literal_list_fixed(e.publishable_impact_refs, p, rep);
    lemma_literal_list_fixed(e.publishable_carry_forward_bullets, p, rep);
    if scope_covers(scope, RedactScope::ChangesBullets) {
        let bs = after.publishable_changes_bullets;
        lemma_bullet_hits_fixed(id, "publishable_changes_bullets"@, bs, m, rep, bs.len() as int);
    }
    if scope_covers(scope, RedactScope::VerificationBullets) {
        let bs = after.publishable_verification_bullets;
        lemma_bullet_hits_fixed(id, "publishable_verification_bullets"@, bs, m, rep, bs.len() as int);
    }
    if scope_covers(scope, RedactScope::ImpactRefs) {
        let bs = after.publishable_impact_refs;
        lemma_bullet_hits_fixed(id, "publishable_impact_refs"@, bs, m, rep, bs.len() as int);
    }
    if scope_covers(scope, RedactScope::CarryForwardBullets) {
        let bs = after.publishable_carry_forward_bullets;
        lemma_bullet_hits_fixed(id, "publishable_carry_forward_bullets"@, bs, m, rep, bs.len() as int);
    }
    assert(redacted_entry(after, m, rep, scope) =~= after);
}

/// Entries the rule leaves without hits give no hits and no drafts.
proof fn lemma_scan_quiet(
    ks: Seq<Seq<char>>,
    vs: Seq<AtomicChangelogEntry>,
    m: MatchRule,
    req: RedactRequest,
    n: int,
)
    requires
        n <= vs.len(),
        n <= ks.len(),
        forall|j: int|
            0 <= j < n ==> entry_hits(ks[j], (#[trigger] vs[j]).deep_view(), m, req.replacement@, req.scope).len()
                == 0,
    ensures
        scan_hits(ks, vs, m, req.replacement@, req.scope, n).len() == 0,
        scan_drafts(ks, vs, m, req, n).len() == 0,
    decreases n,
{
    if n > 0 {
        lemma_scan_quiet(ks, vs, m, req, n - 1);
        assert(entry_hits(ks[n - 1], vs[n - 1].deep_view(), m, req.replacement@, req.scope).len() == 0);
    }
}

/// Running a case-sensitive literal redaction again, with a non-empty
/// replacement sharing no character with the pattern, on the store its real
/// run left (`after`, whose entries are those of `before` redacted) finds no
/// hit, drafts no ledger row, and leaves every entry as it is.
pub proof fn lemma_literal_redaction_rerun_is_noop(
    before: AtomicStore,
    after: AtomicStore,
    req: RedactRequest,
)
    requires
        after.wf(),
        req.mode == RedactMode::Literal,
        !req.case_insensitive,
        req.pattern@.len() > 0,
        req.replacement@.len() > 0,
        shares_no_char(req.replacement@, req.pattern@),
        after.changelog_entries@.dom() == before.changelog_entries@.dom(),
        forall|k: Seq<char>|
            #[trigger] before.changelog_entries@.contains_key(k) ==> after.entries_v()[k] == redacted_entry(
                before.entries_v()[k],
                request_rule(req),
                req.replacement@,
                req.scope,
            ),
    ensures
        ({
            let ks = after.changelog_entries.key_seq();
            let vs = after.changelog_entries.val_seq();
            let m = request_rule(req);
            &&& scan_hits(ks, vs, m, req.replacement@, req.scope, ks.len() as int).len() == 0
            &&& scan_drafts(ks, vs, m, req, ks.len() as int).len() == 0
            &&& forall|k: Seq<char>|
                #[trigger] after.changelog_entries@.contains_key(k) ==> redacted_entry(
                    after.entries_v()[k],
                    m,
                    req.replacement@,
                    req.scope,
                ) == after.entries_v()[k]
        }),
{
    let ks = after.changelog_entries.key_seq();
    let vs = after.changelog_entries.val_seq();
    let m = request_rule(req);
    let rep = req.replacement@;
    assert(m == MatchRule::Exact(req.pattern@));
    after.changelog_entries.lemma_wf();
    assert forall|k: Seq<char>| #[trigger] after.changelog_entries@.contains_key(k) implies redacted_entry(
        after.entries_v()[k],
        m,
        rep,
        req.scope,
    ) == after.entries_v()[k] && entry_hits(k, after.entries_v()[k], m, rep, req.scope).len() == 0 by {
        assert(before.changelog_entries@.contains_key(k));
        lemma_literal_redaction_idempotent(k, before.entries_v()[k], req.pattern@, rep, req.scope);
    }
    assert forall|j: int| 0 <= j < ks.len() implies entry_hits(
        ks[j],
        (#[trigger] vs[j]).deep_view(),
        m,
        rep,
        req.scope,
    ).len() == 0 by {
        assert(after.changelog_entries@.contains_key(ks[j]));
        assert(after.entries_v()[ks[j]] == vs[j].deep_view());
    }
    lemma_scan_quiet(ks, vs, m, req, ks.len() as int);
}

} // verus!
