//! The prose body of a section rendered from its typed fields, and the one
//! line format a rejected alternative is written in.
use vstd::prelude::*;
use crate::model::{AtomicSection, RejectedAlternative, SectionView};
use crate::text::{
    cat2, cat3, cat5, contains_seq, first_occurrence, has_prefix, join_strings, join_with, owned,
    split_once, strip_prefix, trim, trim_seq,
};

verus! {

/// Each item as a `- ` bullet line.
pub open spec fn bullet_lines(items: Seq<Seq<char>>) -> Seq<Seq<char>> {
    items.map_values(|b: Seq<char>| "- "@ + b)
}

/// A block of lines, when there are any, as one paragraph.
pub open spec fn block(lines: Seq<Seq<char>>) -> Seq<Seq<char>> {
    if lines.len() == 0 {
        Seq::empty()
    } else {
        seq![join_with(lines, "\n"@)]
    }
}

/// A rejected alternative as a bullet line.
pub open spec fn alternative_line(a: (Seq<char>, Seq<char>)) -> Seq<char> {
    "- "@ + a.0 + " -- "@ + a.1
}

/// A binding as a bullet line: the file, and `:symbol` when it has one.
pub open spec fn binding_line(b: (Seq<char>, Option<Seq<char>>, crate::model::BindingKind)) -> Seq<char> {
    match b.1 {
        Some(y) => "- "@ + b.0 + ":"@ + y,
        None => "- "@ + b.0,
    }
}

/// An example as a fenced code block.
pub open spec fn fenced(x: (Seq<char>, Seq<char>)) -> Seq<char> {
    "```"@ + x.0 + "\n"@ + x.1 + "\n```"@
}

/// The paragraphs of a section's body, in order: a non-empty intent; the
/// rationale, inputs, outputs and caveats bullets; the rejected
/// alternatives; the impact scope as `§` references; the bindings (when
/// asked for); each example fenced.
pub open spec fn body_parts(s: SectionView, include_bindings: bool) -> Seq<Seq<char>> {
    let intent: Seq<Seq<char>> = match s.intent {
        Some(i) => if i.len() > 0 {
            seq![i]
        } else {
            Seq::empty()
        },
        None => Seq::empty(),
    };
    intent + block(bullet_lines(s.rationale_bullets)) + block(bullet_lines(s.inputs_bullets)) + block(
        bullet_lines(s.outputs_bullets),
    ) + block(bullet_lines(s.caveats_bullets)) + block(
        s.alternatives_rejected.map_values(|a: (Seq<char>, Seq<char>)| alternative_line(a)),
    ) + block(s.impact_scope.map_values(|x: Seq<char>| "- §"@ + x)) + (if include_bindings {
        block(
            s.bindings.map_values(
                |b: (Seq<char>, Option<Seq<char>>, crate::model::BindingKind)| binding_line(b),
            ),
        )
    } else {
        Seq::empty()
    }) + s.examples.map_values(|x: (Seq<char>, Seq<char>)| fenced(x))
}

/// A section's body: its paragraphs separated by a blank line.
pub open spec fn section_body(s: SectionView, include_bindings: bool) -> Seq<char> {
    join_with(body_parts(s, include_bindings), "\n\n"@)
}

/// Push the paragraph of `lines`, when there are any.
fn push_block(parts: &mut Vec<String>, lines: &Vec<String>)
    ensures
        final(parts).deep_view() == old(parts).deep_view() + block(lines.deep_view()),
{
    if lines.len() > 0 {
        let b = join_strings(lines, "\n");
        let ghost before = parts.deep_view();
        parts.push(b);
        proof {
            assert(parts.deep_view() =~= before + block(lines.deep_view()));
        }
    } else {
        proof {
            assert(parts.deep_view() =~= old(parts).deep_view() + block(lines.deep_view()));
        }
    }
}

/// Each text with `prefix` before it.
fn prefixed(prefix: &str, items: &Vec<String>) -> (r: Vec<String>)
    ensures
        r.deep_view() == items.deep_view().map_values(|b: Seq<char>| prefix@ + b),
{
    let mut r: Vec<String> = Vec::new();
    let mut i: usize = 0;
    while i < items.len()
        invariant
            i <= items.len(),
            r.deep_view() == items.deep_view().subrange(0, i as int).map_values(
                |b: Seq<char>| prefix@ + b,
            ),
        decreases items.len() - i,
    {
        let line = cat2(prefix, items[i].as_str());
        let ghost before = r.deep_view();
        r.push(line);
        proof {
            let f = |b: Seq<char>| prefix@ + b;
            let d = items.deep_view();
            assert(d[i as int] == items@[i as int]@);
            assert(r.deep_view() =~= before.push(prefix@ + d[i as int]));
            assert(d.subrange(0, i + 1).map_values(f) =~= d.subrange(0, i as int).map_values(f).push(
                f(d[i as int]),
            ));
        }
        i = i + 1;
    }
    assert(items.deep_view().subrange(0, items.len() as int) =~= items.deep_view());
    r
}

/// Render a section's body; the bindings block only when asked for.
pub fn synthesize_section_body_inner(atomic: &AtomicSection, include_implementations: bool) -> (r:
    String)
    ensures
        r@ == section_body(atomic.deep_view(), include_implementations),
{
    let ghost s = atomic.deep_view();
    let mut parts: Vec<String> = Vec::new();
    match &atomic.intent {
        Some(i) => {
            if i.as_str().unicode_len() > 0 {
                parts.push(owned(i.as_str()));
            }
        },
        None => {},
    }
    let ghost p0 = parts.deep_view();
    proof {
        assert(p0 =~= match s.intent {
            Some(i) => if i.len() > 0 {
                seq![i]
            } else {
                Seq::empty()
            },
            None => Seq::empty(),
        });
    }
    push_block(&mut parts, &prefixed("- ", &atomic.rationale_bullets));
    push_block(&mut parts, &prefixed("- ", &atomic.inputs_bullets));
    push_block(&mut parts, &prefixed("- ", &atomic.outputs_bullets));
    push_block(&mut parts, &prefixed("- ", &atomic.caveats_bullets));
    let mut alts: Vec<String> = Vec::new();
    let mut k: usize = 0;
    while k < atomic.alternatives_rejected.len()
        invariant
            k <= atomic.alternatives_rejected.len(),
            alts.deep_view() == atomic.alternatives_rejected.deep_view().subrange(
                0,
                k as int,
            ).map_values(|a: (Seq<char>, Seq<char>)| alternative_line(a)),
        decreases atomic.alternatives_rejected.len() - k,
    {
        let a = &atomic.alternatives_rejected[k];
        let mut line = cat3("- ", a.alternative.as_str(), " -- ");
        line.append(a.reason.as_str());
        let ghost before = alts.deep_view();
        alts.push(line);
        proof {
            let f = |a: (Seq<char>, Seq<char>)| alternative_line(a);
            let d = atomic.alternatives_rejected.deep_view();
            assert(d[k as int] == atomic.alternatives_rejected@[k as int].deep_view());
            assert(alts.deep_view() =~= before.push(f(d[k as int])));
            assert(d.subrange(0, k + 1).map_values(f) =~= d.subrange(0, k as int).map_values(f).push(
                f(d[k as int]),
            ));
        }
        k = k + 1;
    }
    assert(atomic.alternatives_rejected.deep_view().subrange(
        0,
        atomic.alternatives_rejected.len() as int,
    ) =~= atomic.alternatives_rejected.deep_view());
    push_block(&mut parts, &alts);
    push_block(&mut parts, &prefixed("- §", &atomic.impact_scope));
    let ghost p7 = parts.deep_view();
    if include_implementations {
        let mut lines: Vec<String> = Vec::new();
        let mut j: usize = 0;
        while j < atomic.bindings.len()
            invariant
                j <= atomic.bindings.len(),
                lines.deep_view() == atomic.bindings.deep_view().subrange(0, j as int).map_values(
                    |b: (Seq<char>, Option<Seq<char>>, crate::model::BindingKind)| binding_line(b),
                ),
            decreases atomic.bindings.len() - j,
        {
            let b = &atomic.bindings[j];
            let line = match &b.symbol {
                Some(y) => {
                    let mut l = cat3("- ", b.file.as_str(), ":");
                    l.append(y.as_str());
                    l
                },
                None => cat2("- ", b.file.as_str()),
            };
            let ghost before = lines.deep_view();
            lines.push(line);
            proof {
                let f = |b: (Seq<char>, Option<Seq<char>>, crate::model::BindingKind)| binding_line(b);
                let d = atomic.bindings.deep_view();
                assert(d[j as int] == atomic.bindings@[j as int].deep_view());
                assert(lines.deep_view() =~= before.push(f(d[j as int])));
                assert(d.subrange(0, j + 1).map_values(f) =~= d.subrange(0, j as int).map_values(
                    f,
                ).push(f(d[j as int])));
            }
            j = j + 1;
        }
        assert(atomic.bindings.deep_view().subrange(0, atomic.bindings.len() as int)
            =~= atomic.bindings.deep_view());
        push_block(&mut parts, &lines);
    }
    let ghost p8 = parts.deep_view();
    let mut x: usize = 0;
    while x < atomic.examples.len()
        invariant
            x <= atomic.examples.len(),
            parts.deep_view() == p8 + atomic.examples.deep_view().subrange(0, x as int).map_values(
                |e: (Seq<char>, Seq<char>)| fenced(e),
            ),
        decreases atomic.examples.len() - x,
    {
        let ex = &atomic.examples[x];
        let f = cat5("```", ex.language.as_str(), "\n", ex.code.as_str(), "\n```");
        let ghost before = parts.deep_view();
        parts.push(f);
        proof {
            let g = |e: (Seq<char>, Seq<char>)| fenced(e);
            let d = atomic.examples.deep_view();
            assert(d[x as int] == atomic.examples@[x as int].deep_view());
            assert(parts.deep_view() =~= before.push(g(d[x as int])));
            assert(d.subrange(0, x + 1).map_values(g) =~= d.subrange(0, x as int).map_values(g).push(
                g(d[x as int]),
            ));
        }
        x = x + 1;
    }
    assert(atomic.examples.deep_view().subrange(0, atomic.examples.len() as int)
        =~= atomic.examples.deep_view());
    assert(parts.deep_view() =~= body_parts(s, include_implementations));
    join_strings(&parts, "\n\n")
}

/// A section's full body, the bindings block included.
pub fn synthesize_section_body(atomic: &AtomicSection) -> (r: String)
    ensures
        r@ == section_body(atomic.deep_view(), true),
{
    synthesize_section_body_inner(atomic, true)
}

/// A section's body for prose checks: the bindings block (file paths, not
/// authored prose) left out.
pub fn synthesize_section_prose_body(atomic: &AtomicSection) -> (r: String)
    ensures
        r@ == section_body(atomic.deep_view(), false),
{
    synthesize_section_body_inner(atomic, false)
}

/// The text before and after the first occurrence of `sep`, when it occurs.
pub open spec fn split_first(s: Seq<char>, sep: Seq<char>) -> Option<(Seq<char>, Seq<char>)> {
    if contains_seq(s, sep) {
        let i = choose|i: int| first_occurrence(s, sep, i);
        Some((s.subrange(0, i), s.subrange(i + sep.len(), s.len() as int)))
    } else {
        None
    }
}

/// The alternative and reason of a `<alternative> — <reason>` or
/// `<alternative> -- <reason>` line (the em-dash separator tried first),
/// after trimming the line and dropping one leading `- ` bullet marker; each
/// half trimmed.
pub open spec fn parsed_alternative(raw: Seq<char>) -> Option<(Seq<char>, Seq<char>)> {
    let t = trim_seq(raw);
    let st = if has_prefix(t, "- "@) {
        t.subrange("- "@.len() as int, t.len() as int)
    } else {
        t
    };
    let halves = if contains_seq(st, " \u{2014} "@) {
        split_first(st, " \u{2014} "@)
    } else {
        split_first(st, " -- "@)
    };
    match halves {
        Some((a, b)) => Some((trim_seq(a), trim_seq(b))),
        None => None,
    }
}

/// The first occurrence of a separator is one position.
proof fn lemma_first_occurrence_unique(s: Seq<char>, sep: Seq<char>, i: int, j: int)
    requires
        first_occurrence(s, sep, i),
        first_occurrence(s, sep, j),
    ensures
        i == j,
{
    if i < j {
        assert(!crate::text::occurs_at(s, sep, i));
    } else if j < i {
        assert(!crate::text::occurs_at(s, sep, j));
    }
}

/// `split_once` as [`split_first`] states it.
fn split_first_exec(s: &str, sep: &str) -> (r: Option<(String, String)>)
    ensures
        match r {
            Some((a, b)) => split_first(s@, sep@) == Some((a@, b@)),
            None => split_first(s@, sep@) is None,
        },
{
    let r = split_once(s, sep);
    match r {
        Some((a, b)) => {
            proof {
                let i = choose|i: int|
                    first_occurrence(s@, sep@, i) && a@ == s@.subrange(0, i) && b@ == s@.subrange(
                        i + sep@.len(),
                        s@.len() as int,
                    );
                assert(contains_seq(s@, sep@));
                let j = choose|j: int| first_occurrence(s@, sep@, j);
                lemma_first_occurrence_unique(s@, sep@, i, j);
            }
            Some((a, b))
        },
        None => None,
    }
}

impl RejectedAlternative {
    /// Parse one `<alternative> -- <reason>` line (or with the ` — `
    /// separator). A leading `- ` bullet marker and surrounding whitespace
    /// are trimmed. `None` when neither separator occurs.
    pub fn parse_line(raw: &str) -> (r: Option<RejectedAlternative>)
        ensures
            match r {
                Some(a) => parsed_alternative(raw@) == Some((a.alternative@, a.reason@)),
                None => parsed_alternative(raw@) is None,
            },
    {
        let trimmed = trim(raw);
        let stripped = match strip_prefix(trimmed.as_str(), "- ") {
            Some(rest) => rest,
            None => trimmed,
        };
        let halves = match split_first_exec(stripped.as_str(), " \u{2014} ") {
            Some(p) => Some(p),
            None => split_first_exec(stripped.as_str(), " -- "),
        };
        match halves {
            Some((a, b)) => Some(
                RejectedAlternative { alternative: trim(a.as_str()), reason: trim(b.as_str()) },
            ),
            None => None,
        }
    }
}

// ---------------------------------------------------------------------------
// What a body shows.
// ---------------------------------------------------------------------------
proof fn lemma_occurs_left(a: Seq<char>, b: Seq<char>, x: Seq<char>, p: int)
    requires
        crate::text::occurs_at(a, x, p),
    ensures
        crate::text::occurs_at(a + b, x, p),
{
    assert((a + b).subrange(p, p + x.len()) =~= a.subrange(p, p + x.len()));
}

proof fn lemma_occurs_right(a: Seq<char>, b: Seq<char>, x: Seq<char>, p: int)
    requires
        crate::text::occurs_at(b, x, p),
    ensures
        crate::text::occurs_at(a + b, x, a.len() + p),
{
    assert((a + b).subrange(a.len() + p, a.len() + p + x.len()) =~= b.subrange(p, p + x.len()));
}

proof fn lemma_occurs_trans(x: Seq<char>, y: Seq<char>, z: Seq<char>, p: int, q: int)
    requires
        crate::text::occurs_at(y, x, p),
        crate::text::occurs_at(z, y, q),
    ensures
        crate::text::occurs_at(z, x, p + q),
{
    assert(z.subrange(p + q, p + q + x.len()) =~= y.subrange(p, p + x.len()));
}

/// Each part of a join stands in it, the first at its start.
proof fn lemma_part_in_join(parts: Seq<Seq<char>>, sep: Seq<char>, i: int)
    requires
        0 <= i < parts.len(),
    ensures
        contains_seq(join_with(parts, sep), parts[i]),
        i == 0 ==> crate::text::occurs_at(join_with(parts, sep), parts[0], 0),
    decreases parts.len(),
{
    let j = join_with(parts, sep);
    if parts.len() == 1 {
        assert(j.subrange(0, j.len() as int) =~= j);
        assert(crate::text::occurs_at(j, parts[i], 0));
    } else {
        let front = parts.drop_last();
        let jf = join_with(front, sep);
        assert(j == jf + sep + parts.last());
        if i == parts.len() - 1 {
            let l = parts.last();
            assert(l.subrange(0, l.len() as int) =~= l);
            assert(crate::text::occurs_at(l, l, 0));
            lemma_occurs_right(jf + sep, l, l, 0);
            assert(crate::text::occurs_at(j, parts[i], (jf + sep).len() as int));
        } else {
            lemma_part_in_join(front, sep, i);
            assert(front[i] == parts[i]);
            let p = choose|p: int| crate::text::occurs_at(jf, parts[i], p);
            lemma_occurs_left(jf, sep, parts[i], p);
            lemma_occurs_left(jf + sep, parts.last(), parts[i], p);
            assert(crate::text::occurs_at(j, parts[i], p));
            if i == 0 {
                lemma_occurs_left(jf, sep, parts[0], 0);
                lemma_occurs_left(jf + sep, parts.last(), parts[0], 0);
            }
        }
    }
}

proof fn lemma_seq_concat_contains(a: Seq<Seq<char>>, b: Seq<Seq<char>>, x: Seq<char>)
    ensures
        (a.contains(x) || b.contains(x)) ==> (a + b).contains(x),
{
    if a.contains(x) {
        let i = choose|i: int| 0 <= i < a.len() && a[i] == x;
        assert((a + b)[i] == x);
    } else if b.contains(x) {
        let i = choose|i: int| 0 <= i < b.len() && b[i] == x;
        assert((a + b)[a.len() + i] == x);
    }
}

/// A paragraph of any of the nine groups is one of the body's paragraphs.
proof fn lemma_in_parts(
    g0: Seq<Seq<char>>,
    g1: Seq<Seq<char>>,
    g2: Seq<Seq<char>>,
    g3: Seq<Seq<char>>,
    g4: Seq<Seq<char>>,
    g5: Seq<Seq<char>>,
    g6: Seq<Seq<char>>,
    g7: Seq<Seq<char>>,
    g8: Seq<Seq<char>>,
    x: Seq<char>,
)
    requires
        g0.contains(x) || g1.contains(x) || g2.contains(x) || g3.contains(x) || g4.contains(x)
            || g5.contains(x) || g6.contains(x) || g7.contains(x) || g8.contains(x),
    ensures
        (g0 + g1 + g2 + g3 + g4 + g5 + g6 + g7 + g8).contains(x),
{
    lemma_seq_concat_contains(g0, g1, x);
    lemma_seq_concat_contains(g0 + g1, g2, x);
    lemma_seq_concat_contains(g0 + g1 + g2, g3, x);
    lemma_seq_concat_contains(g0 + g1 + g2 + g3, g4, x);
    lemma_seq_concat_contains(g0 + g1 + g2 + g3 + g4, g5, x);
    lemma_seq_concat_contains(g0 + g1 + g2 + g3 + g4 + g5, g6, x);
    lemma_seq_concat_contains(g0 + g1 + g2 + g3 + g4 + g5 + g6, g7, x);
    lemma_seq_concat_contains(g0 + g1 + g2 + g3 + g4 + g5 + g6 + g7, g8, x);
}

/// A line of a paragraph that is one of the body's paragraphs stands in the
/// body.
proof fn lemma_line_in_body(body_ps: Seq<Seq<char>>, lines: Seq<Seq<char>>, k: int)
    requires
        0 <= k < lines.len(),
        body_ps.contains(join_with(lines, "\n"@)),
    ensures
        contains_seq(join_with(body_ps, "\n\n"@), lines[k]),
{
    lemma_part_in_join(lines, "\n"@, k);
    let para = join_with(lines, "\n"@);
    let p = choose|p: int| crate::text::occurs_at(para, lines[k], p);
    let i = choose|i: int| 0 <= i < body_ps.len() && body_ps[i] == para;
    lemma_part_in_join(body_ps, "\n\n"@, i);
    let q = choose|q: int| crate::text::occurs_at(join_with(body_ps, "\n\n"@), para, q);
    lemma_occurs_trans(lines[k], para, join_with(body_ps, "\n\n"@), p, q);
}

/// Every item of `items`, prefixed by `prefix`, stands in `body`.
pub open spec fn shows_items(body: Seq<char>, prefix: Seq<char>, items: Seq<Seq<char>>) -> bool {
    forall|k: int| 0 <= k < items.len() ==> contains_seq(body, prefix + #[trigger] items[k])
}

/// What a synthesized body shows of its section: a non-empty intent opens
/// it; every rationale, inputs, outputs and caveats bullet stands in it as
/// a `- ` line; every rejected alternative as `- option -- reason`; every
/// impact reference as `- §ref`; every example fenced; and, when bindings
/// are asked for, every binding as `- file` or `- file:symbol`.
pub proof fn lemma_body_shows_every_field(s: SectionView, ib: bool)
    ensures
        ({
            let body = section_body(s, ib);
            &&& (s.intent matches Some(i) ==> (i.len() > 0 ==> crate::text::occurs_at(body, i, 0)))
            &&& shows_items(body, "- "@, s.rationale_bullets)
            &&& shows_items(body, "- "@, s.inputs_bullets)
            &&& shows_items(body, "- "@, s.outputs_bullets)
            &&& shows_items(body, "- "@, s.caveats_bullets)
            &&& shows_items(body, "- §"@, s.impact_scope)
            &&& forall|k: int|
                0 <= k < s.alternatives_rejected.len() ==> contains_seq(
                    body,
                    "- "@ + (#[trigger] s.alternatives_rejected[k]).0 + " -- "@
                        + s.alternatives_rejected[k].1,
                )
            &&& forall|k: int|
                0 <= k < s.examples.len() ==> contains_seq(
                    body,
                    "```"@ + (#[trigger] s.examples[k]).0 + "\n"@ + s.examples[k].1 + "\n```"@,
                )
            &&& ib ==> forall|k: int|
                0 <= k < s.bindings.len() ==> contains_seq(
                    body,
                    match (#[trigger] s.bindings[k]).1 {
                        Some(y) => "- "@ + s.bindings[k].0 + ":"@ + y,
                        None => "- "@ + s.bindings[k].0,
                    },
                )
        }),
{
    let intent: Seq<Seq<char>> = match s.intent {
        Some(i) => if i.len() > 0 {
            seq![i]
        } else {
            Seq::empty()
        },
        None => Seq::empty(),
    };
    let br = block(bullet_lines(s.rationale_bullets));
    let bi = block(bullet_lines(s.inputs_bullets));
    let bo = block(bullet_lines(s.outputs_bullets));
    let bc = block(bullet_lines(s.caveats_bullets));
    let ba = block(s.alternatives_rejected.map_values(|a: (Seq<char>, Seq<char>)| alternative_line(a)));
    let bm = block(s.impact_scope.map_values(|x: Seq<char>| "- §"@ + x));
    let bb: Seq<Seq<char>> = if ib {
        block(
            s.bindings.map_values(
                |b: (Seq<char>, Option<Seq<char>>, crate::model::BindingKind)| binding_line(b),
            ),
        )
    } else {
        Seq::empty()
    };
    let ex = s.examples.map_values(|x: (Seq<char>, Seq<char>)| fenced(x));
    let p1 = intent + br;
    let p2 = p1 + bi;
    let p3 = p2 + bo;
    let p4 = p3 + bc;
    let p5 = p4 + ba;
    let p6 = p5 + bm;
    let p7 = p6 + bb;
    let ps = p7 + ex;
    assert(body_parts(s, ib) == ps);
    let body = section_body(s, ib);
    if let Some(i) = s.intent {
        if i.len() > 0 {
            assert(ps[0] == i);
            lemma_part_in_join(ps, "\n\n"@, 0);
        }
    }
    assert forall|k: int| 0 <= k < s.rationale_bullets.len() implies contains_seq(
        body,
        "- "@ + #[trigger] s.rationale_bullets[k],
    ) by {
        let lines = bullet_lines(s.rationale_bullets);
        assert(lines[k] == "- "@ + s.rationale_bullets[k]);
        assert(br.contains(join_with(lines, "\n"@))) by { assert(br[0] == join_with(lines, "\n"@)); }
        lemma_in_parts(intent, br, bi, bo, bc, ba, bm, bb, ex, join_with(lines, "\n"@));
        lemma_line_in_body(ps, lines, k);
    }
    assert forall|k: int| 0 <= k < s.inputs_bullets.len() implies contains_seq(
        body,
        "- "@ + #[trigger] s.inputs_bullets[k],
    ) by {
        let lines = bullet_lines(s.inputs_bullets);
        assert(lines[k] == "- "@ + s.inputs_bullets[k]);
        assert(bi.contains(join_with(lines, "\n"@))) by { assert(bi[0] == join_with(lines, "\n"@)); }
        lemma_in_parts(intent, br, bi, bo, bc, ba, bm, bb, ex, join_with(lines, "\n"@));
        lemma_line_in_body(ps, lines, k);
    }
    assert forall|k: int| 0 <= k < s.outputs_bullets.len() implies contains_seq(
        body,
        "- "@ + #[trigger] s.outputs_bullets[k],
    ) by {
        let lines = bullet_lines(s.outputs_bullets);
        assert(lines[k] == "- "@ + s.outputs_bullets[k]);
        assert(bo.contains(join_with(lines, "\n"@))) by { assert(bo[0] == join_with(lines, "\n"@)); }
        lemma_in_parts(intent, br, bi, bo, bc, ba, bm, bb, ex, join_with(lines, "\n"@));
        lemma_line_in_body(ps, lines, k);
    }
    assert forall|k: int| 0 <= k < s.caveats_bullets.len() implies contains_seq(
        body,
        "- "@ + #[trigger] s.caveats_bullets[k],
    ) by {
        let lines = bullet_lines(s.caveats_bullets);
        assert(lines[k] == "- "@ + s.caveats_bullets[k]);
        assert(bc.contains(join_with(lines, "\n"@))) by { assert(bc[0] == join_with(lines, "\n"@)); }
        lemma_in_parts(intent, br, bi, bo, bc, ba, bm, bb, ex, join_with(lines, "\n"@));
        lemma_line_in_body(ps, lines, k);
    }
    assert forall|k: int| 0 <= k < s.impact_scope.len() implies contains_seq(
        body,
        "- §"@ + #[trigger] s.impact_scope[k],
    ) by {
        let lines = s.impact_scope.map_values(|x: Seq<char>| "- §"@ + x);
        assert(lines[k] == "- §"@ + s.impact_scope[k]);
        assert(bm.contains(join_with(lines, "\n"@))) by { assert(bm[0] == join_with(lines, "\n"@)); }
        lemma_in_parts(intent, br, bi, bo, bc, ba, bm, bb, ex, join_with(lines, "\n"@));
        lemma_line_in_body(ps, lines, k);
    }
    assert forall|k: int| 0 <= k < s.alternatives_rejected.len() implies contains_seq(
        body,
        "- "@ + (#[trigger] s.alternatives_rejected[k]).0 + " -- "@ + s.alternatives_rejected[k].1,
    ) by {
        let lines = s.alternatives_rejected.map_values(|a: (Seq<char>, Seq<char>)| alternative_line(a));
        assert(lines[k] == alternative_line(s.alternatives_rejected[k]));
        assert(ba.contains(join_with(lines, "\n"@))) by { assert(ba[0] == join_with(lines, "\n"@)); }
        lemma_in_parts(intent, br, bi, bo, bc, ba, bm, bb, ex, join_with(lines, "\n"@));
        lemma_line_in_body(ps, lines, k);
    }
    assert forall|k: int| 0 <= k < s.examples.len() implies contains_seq(
        body,
        "```"@ + (#[trigger] s.examples[k]).0 + "\n"@ + s.examples[k].1 + "\n```"@,
    ) by {
        assert(ex[k] == fenced(s.examples[k]));
        assert(ex.contains(ex[k]));
        let i = p7.len() + k;
        assert(ps[i] == ex[k]);
        lemma_part_in_join(ps, "\n\n"@, i);
    }
    if ib {
        assert forall|k: int| 0 <= k < s.bindings.len() implies contains_seq(
            body,
            match (#[trigger] s.bindings[k]).1 {
                Some(y) => "- "@ + s.bindings[k].0 + ":"@ + y,
                None => "- "@ + s.bindings[k].0,
            },
        ) by {
            let lines = s.bindings.map_values(
                |b: (Seq<char>, Option<Seq<char>>, crate::model::BindingKind)| binding_line(b),
            );
            assert(lines[k] == binding_line(s.bindings[k]));
            assert(bb.contains(join_with(lines, "\n"@))) by { assert(bb[0] == join_with(lines, "\n"@)); }
            lemma_in_parts(intent, br, bi, bo, bc, ba, bm, bb, ex, join_with(lines, "\n"@));
        lemma_line_in_body(ps, lines, k);
        }
    }
}

} // verus!
