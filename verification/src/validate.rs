//! The trust-boundary shape rules the mutate primitives share, each stated as
//! the first rule an input breaks (the refusal message) or `None`.
use vstd::prelude::*;
use crate::error::{mutate_msg, AtomicMutateError};
use crate::model::strs;
use crate::outside::{debug_quote, debug_quoted};
use crate::text::{
    cat2, cat3, contains, contains_char, decimal, ends_with, has_char, has_prefix, has_suffix,
    has_whitespace, is_blank, is_blank_seq, is_ws, occurs_at, contains_seq, owned, starts_with,
    strip_prefix, trim, trim_seq, usize_to_decimal,
};

verus! {

/// Intent length threshold, in characters.
pub const MAX_INTENT_CHAR: usize = 200;

/// Bullet length threshold, in characters.
pub const MAX_BULLET_CHAR: usize = 100;

/// The refusal of an intent longer than the threshold.
pub open spec fn intent_len_msg(n: nat) -> Seq<char> {
    "intent length "@ + decimal(n) + " > MAX_INTENT_CHAR 200 (Round 161 §41 threshold)"@
}

/// Refuse an intent over [`MAX_INTENT_CHAR`] characters.
pub fn check_intent_len(text: &str) -> (r: Result<(), AtomicMutateError>)
    ensures
        r is Ok <==> text@.len() <= 200,
        r matches Err(e) ==> e is Validation && mutate_msg(e) == intent_len_msg(text@.len()),
{
    let n = text.unicode_len();
    if n > MAX_INTENT_CHAR {
        let d = usize_to_decimal(n);
        return Err(
            AtomicMutateError::Validation(
                cat3(
                    "intent length ",
                    d.as_str(),
                    " > MAX_INTENT_CHAR 200 (Round 161 §41 threshold)",
                ),
            ),
        );
    }
    Ok(())
}

/// The refusal of a bullet longer than the threshold.
pub open spec fn bullet_len_msg(field: Seq<char>, n: nat) -> Seq<char> {
    field + " bullet length "@ + decimal(n) + " > MAX_BULLET_CHAR 100 (Round 161 §41 threshold)"@
}

/// Refuse a bullet over [`MAX_BULLET_CHAR`] characters.
pub fn check_bullet_len(text: &str, field: &str) -> (r: Result<(), AtomicMutateError>)
    ensures
        r is Ok <==> text@.len() <= 100,
        r matches Err(e) ==> e is Validation && mutate_msg(e) == bullet_len_msg(
            field@,
            text@.len(),
        ),
{
    let n = text.unicode_len();
    if n > MAX_BULLET_CHAR {
        let d = usize_to_decimal(n);
        let mut m = cat2(field, " bullet length ");
        m.append(d.as_str());
        m.append(" > MAX_BULLET_CHAR 100 (Round 161 §41 threshold)");
        return Err(AtomicMutateError::Validation(m));
    }
    Ok(())
}

/// Every bullet of a list is within the bullet threshold, or the refusal of
/// the first one that is not.
pub open spec fn bullets_len_problem(field: Seq<char>, bullets: Seq<Seq<char>>) -> Option<
    Seq<char>,
>
    decreases bullets.len(),
{
    if bullets.len() == 0 {
        None
    } else if bullets[0].len() > 100 {
        Some(bullet_len_msg(field, bullets[0].len()))
    } else {
        bullets_len_problem(field, bullets.drop_first())
    }
}

/// Refuse the first bullet over [`MAX_BULLET_CHAR`] characters.
pub fn check_bullets_len(bullets: &Vec<String>, field: &str) -> (r: Result<
    (),
    AtomicMutateError,
>)
    ensures
        r is Ok <==> bullets_len_problem(field@, strs(*bullets)) is None,
        r matches Err(e) ==> e is Validation && Some(mutate_msg(e)) == bullets_len_problem(
            field@,
            strs(*bullets),
        ),
{
    let mut i: usize = 0;
    assert(strs(*bullets).skip(0) =~= strs(*bullets));
    while i < bullets.len()
        invariant
            i <= bullets.len(),
            bullets_len_problem(field@, strs(*bullets)) == bullets_len_problem(
                field@,
                strs(*bullets).skip(i as int),
            ),
        decreases bullets.len() - i,
    {
        proof {
            assert(strs(*bullets).skip(i as int).drop_first() =~= strs(*bullets).skip(i + 1));
        }
        check_bullet_len(bullets[i].as_str(), field)?;
        i = i + 1;
    }
    Ok(())
}

/// The refusal of a blank list element at index `i`.
pub open spec fn blank_element_msg(field: Seq<char>, i: nat) -> Seq<char> {
    field + "["@ + decimal(i) + "] is blank (Round 298 silent-accept gate)"@
}

/// The first blank element of a list, from index `from` on.
pub open spec fn first_blank_from(bullets: Seq<Seq<char>>, from: nat) -> Option<nat>
    decreases bullets.len() - from,
{
    if from >= bullets.len() {
        None
    } else if is_blank_seq(bullets[from as int]) {
        Some(from)
    } else {
        first_blank_from(bullets, from + 1)
    }
}

/// The refusal of a list holding a blank element, or `None`.
pub open spec fn optional_bullets_problem(field: Seq<char>, bullets: Seq<Seq<char>>) -> Option<
    Seq<char>,
> {
    match first_blank_from(bullets, 0) {
        Some(i) => Some(blank_element_msg(field, i)),
        None => None,
    }
}

/// The refusal of an empty list or one holding a blank element, or `None`.
pub open spec fn required_bullets_problem(field: Seq<char>, bullets: Seq<Seq<char>>) -> Option<
    Seq<char>,
> {
    if bullets.len() == 0 {
        Some(field + " requires at least one non-blank bullet (Round 298 silent-accept gate)"@)
    } else {
        optional_bullets_problem(field, bullets)
    }
}

/// Refuse a list holding a blank element (an empty list passes).
pub fn check_optional_bullets(field: &str, bullets: &Vec<String>) -> (r: Result<
    (),
    AtomicMutateError,
>)
    ensures
        r is Ok <==> optional_bullets_problem(field@, strs(*bullets)) is None,
        r matches Err(e) ==> e is Validation && Some(mutate_msg(e)) == optional_bullets_problem(
            field@,
            strs(*bullets),
        ),
{
    let mut i: usize = 0;
    while i < bullets.len()
        invariant
            i <= bullets.len(),
            first_blank_from(strs(*bullets), 0) == first_blank_from(strs(*bullets), i as nat),
        decreases bullets.len() - i,
    {
        if is_blank(bullets[i].as_str()) {
            let d = usize_to_decimal(i);
            let mut m = cat3(field, "[", d.as_str());
            m.append("] is blank (Round 298 silent-accept gate)");
            return Err(AtomicMutateError::Validation(m));
        }
        i = i + 1;
    }
    Ok(())
}

/// Refuse an empty list or one holding a blank element.
pub fn check_required_bullets(field: &str, bullets: &Vec<String>) -> (r: Result<
    (),
    AtomicMutateError,
>)
    ensures
        r is Ok <==> required_bullets_problem(field@, strs(*bullets)) is None,
        r matches Err(e) ==> e is Validation && Some(mutate_msg(e)) == required_bullets_problem(
            field@,
            strs(*bullets),
        ),
{
    if bullets.len() == 0 {
        return Err(
            AtomicMutateError::Validation(
                cat2(field, " requires at least one non-blank bullet (Round 298 silent-accept gate)"),
            ),
        );
    }
    check_optional_bullets(field, bullets)
}

/// The refusal of a changelog body that lacks a required field or holds a
/// blank element, or `None`.
pub open spec fn changelog_body_problem(
    decision_summary: Option<Seq<char>>,
    changes: Seq<Seq<char>>,
    verification: Seq<Seq<char>>,
    impact_refs: Seq<Seq<char>>,
    carry_forward: Seq<Seq<char>>,
) -> Option<Seq<char>> {
    match decision_summary {
        None => Some("decision_summary required (Round 298 silent-accept gate)"@),
        Some(s) => if is_blank_seq(s) {
            Some("decision_summary blank (Round 298 silent-accept gate)"@)
        } else if required_bullets_problem("changes_bullets"@, changes) is Some {
            required_bullets_problem("changes_bullets"@, changes)
        } else if required_bullets_problem("verification_bullets"@, verification) is Some {
            required_bullets_problem("verification_bullets"@, verification)
        } else if optional_bullets_problem("impact_refs"@, impact_refs) is Some {
            optional_bullets_problem("impact_refs"@, impact_refs)
        } else {
            optional_bullets_problem("carry_forward_bullets"@, carry_forward)
        },
    }
}

/// Refuse a changelog body without a non-blank summary, without a change or a
/// verification bullet, or with a blank element in any list.
pub fn check_changelog_entry_required(
    decision_summary: Option<&str>,
    changes_bullets: &Vec<String>,
    verification_bullets: &Vec<String>,
    impact_refs: &Vec<String>,
    carry_forward_bullets: &Vec<String>,
) -> (r: Result<(), AtomicMutateError>)
    ensures
        ({
            let p = changelog_body_problem(
                match decision_summary {
                    Some(s) => Some(s@),
                    None => None,
                },
                strs(*changes_bullets),
                strs(*verification_bullets),
                strs(*impact_refs),
                strs(*carry_forward_bullets),
            );
            &&& r is Ok <==> p is None
            &&& r matches Err(e) ==> e is Validation && Some(mutate_msg(e)) == p
        }),
{
    let summary = match decision_summary {
        Some(s) => s,
        None => {
            return Err(
                AtomicMutateError::Validation(
                    owned("decision_summary required (Round 298 silent-accept gate)"),
                ),
            );
        },
    };
    if is_blank(summary) {
        return Err(
            AtomicMutateError::Validation(
                owned("decision_summary blank (Round 298 silent-accept gate)"),
            ),
        );
    }
    check_required_bullets("changes_bullets", changes_bullets)?;
    check_required_bullets("verification_bullets", verification_bullets)?;
    check_optional_bullets("impact_refs", impact_refs)?;
    check_optional_bullets("carry_forward_bullets", carry_forward_bullets)?;
    Ok(())
}

/// A `..` path segment: `..` bounded by the ends of the path or by `/`.
pub open spec fn dotdot_at(t: Seq<char>, i: int) -> bool {
    &&& occurs_at(t, ".."@, i)
    &&& (i == 0 || t[i - 1] == '/')
    &&& (i + 2 == t.len() || t[i + 2] == '/')
}

/// The path holds a `..` segment.
pub open spec fn has_dotdot_segment(t: Seq<char>) -> bool {
    exists|i: int| dotdot_at(t, i)
}

/// Whether `t` holds a `..` path segment.
fn find_dotdot_segment(t: &str) -> (r: bool)
    ensures
        r == has_dotdot_segment(t@),
{
    proof {
        reveal_strlit("..");
    }
    let n = t.unicode_len();
    let mut i: usize = 0;
    while i < n
        invariant
            i <= n,
            n == t@.len(),
            ".."@ =~= seq!['.', '.'],
            forall|j: int| 0 <= j < i ==> !dotdot_at(t@, j),
        decreases n - i,
    {
        if n - i >= 2 && t.get_char(i) == '.' && t.get_char(i + 1) == '.' && (i == 0 || t.get_char(
            i - 1,
        ) == '/') && (i + 2 == n || t.get_char(i + 2) == '/') {
            assert(t@.subrange(i as int, i + 2) =~= ".."@);
            assert(dotdot_at(t@, i as int));
            return true;
        }
        proof {
            if n - i >= 2 && occurs_at(t@, ".."@, i as int) {
                assert(t@.subrange(i as int, i + 2)[0] == t@[i as int]);
                assert(t@.subrange(i as int, i + 2)[1] == t@[i + 1]);
            }
        }
        i = i + 1;
    }
    false
}

/// The refusal of a binding file path, or `None` when it is a canonical
/// workspace-relative POSIX path.
pub open spec fn binding_file_problem(raw: Seq<char>) -> Option<Seq<char>> {
    let t = trim_seq(raw);
    if t.len() == 0 {
        Some("binding file: must be non-empty"@)
    } else if t != raw {
        Some("binding file: leading or trailing whitespace not allowed (`"@ + raw + "`)"@)
    } else if has_prefix(t, "/"@) {
        Some("binding file: must be workspace-relative (no leading `/`): `"@ + t + "`"@)
    } else if has_prefix(t, "./"@) {
        Some("binding file: drop leading `./` for canonical form (`"@ + t + "`)"@)
    } else if has_char(t, '\\') {
        Some("binding file: backslash not allowed (workspace paths are POSIX): `"@ + t + "`"@)
    } else if contains_seq(t, "//"@) {
        Some("binding file: collapse internal `//` (`"@ + t + "`)"@)
    } else if has_suffix(t, "/"@) {
        Some(
            "binding file: trailing `/` not allowed (must point at a file, not a dir): `"@ + t
                + "`"@,
        )
    } else if has_dotdot_segment(t) {
        Some(
            "binding file: `..` segment not allowed (no traversal in normalized paths): `"@ + t
                + "`"@,
        )
    } else {
        None
    }
}

/// Validate a binding's file path; the accepted path is returned as given.
pub fn validate_binding_file(raw: &str) -> (r: Result<String, AtomicMutateError>)
    ensures
        match r {
            Ok(s) => binding_file_problem(raw@) is None && s@ == raw@,
            Err(e) => e is Validation && binding_file_problem(raw@) == Some(mutate_msg(e)),
        },
{
    let trimmed = trim(raw);
    let t = trimmed.as_str();
    if t.unicode_len() == 0 {
        return Err(AtomicMutateError::Validation(owned("binding file: must be non-empty")));
    }
    if !crate::order::str_eq(t, raw) {
        return Err(
            AtomicMutateError::Validation(
                cat3("binding file: leading or trailing whitespace not allowed (`", raw, "`)"),
            ),
        );
    }
    if starts_with(t, "/") {
        return Err(
            AtomicMutateError::Validation(
                cat3("binding file: must be workspace-relative (no leading `/`): `", t, "`"),
            ),
        );
    }
    if starts_with(t, "./") {
        return Err(
            AtomicMutateError::Validation(
                cat3("binding file: drop leading `./` for canonical form (`", t, "`)"),
            ),
        );
    }
    if contains_char(t, '\\') {
        return Err(
            AtomicMutateError::Validation(
                cat3("binding file: backslash not allowed (workspace paths are POSIX): `", t, "`"),
            ),
        );
    }
    if contains(t, "//") {
        return Err(
            AtomicMutateError::Validation(cat3("binding file: collapse internal `//` (`", t, "`)")),
        );
    }
    if ends_with(t, "/") {
        return Err(
            AtomicMutateError::Validation(
                cat3(
                    "binding file: trailing `/` not allowed (must point at a file, not a dir): `",
                    t,
                    "`",
                ),
            ),
        );
    }
    if find_dotdot_segment(t) {
        return Err(
            AtomicMutateError::Validation(
                cat3(
                    "binding file: `..` segment not allowed (no traversal in normalized paths): `",
                    t,
                    "`",
                ),
            ),
        );
    }
    Ok(trimmed)
}

/// The refusal of a binding symbol, or `None` when it is accepted.
pub open spec fn binding_symbol_problem(raw: Seq<char>) -> Option<Seq<char>> {
    let t = trim_seq(raw);
    if t.len() == 0 {
        Some(
            "binding symbol: must be non-empty when supplied (omit the field for file-level binding)"@,
        )
    } else if t != raw {
        Some("binding symbol: leading or trailing whitespace not allowed (`"@ + raw + "`)"@)
    } else if has_char(t, '\n') || has_char(t, '\r') {
        Some("binding symbol: newline not allowed (`"@ + debug_quoted(raw) + "`)"@)
    } else {
        None
    }
}

/// Validate a binding's symbol; the accepted symbol is returned as given.
pub fn validate_binding_symbol(raw: &str) -> (r: Result<String, AtomicMutateError>)
    ensures
        match r {
            Ok(s) => binding_symbol_problem(raw@) is None && s@ == raw@,
            Err(e) => e is Validation && binding_symbol_problem(raw@) == Some(mutate_msg(e)),
        },
{
    let trimmed = trim(raw);
    let t = trimmed.as_str();
    if t.unicode_len() == 0 {
        return Err(
            AtomicMutateError::Validation(
                owned(
                    "binding symbol: must be non-empty when supplied (omit the field for file-level binding)",
                ),
            ),
        );
    }
    if !crate::order::str_eq(t, raw) {
        return Err(
            AtomicMutateError::Validation(
                cat3("binding symbol: leading or trailing whitespace not allowed (`", raw, "`)"),
            ),
        );
    }
    if contains_char(t, '\n') || contains_char(t, '\r') {
        let q = debug_quote(raw);
        return Err(
            AtomicMutateError::Validation(
                cat3("binding symbol: newline not allowed (`", q.as_str(), "`)"),
            ),
        );
    }
    Ok(trimmed)
}

/// The refusal of an inventory id, or `None` when it is accepted.
pub open spec fn inventory_id_problem(raw: Seq<char>) -> Option<Seq<char>> {
    if is_blank_seq(raw) {
        Some("inventory_id: must be non-empty"@)
    } else if trim_seq(raw) != raw {
        Some("inventory_id: leading or trailing whitespace not allowed (`"@ + raw + "`)"@)
    } else if exists|i: int| 0 <= i < raw.len() && is_ws(#[trigger] raw[i]) {
        Some("inventory_id: internal whitespace not allowed (`"@ + raw + "`)"@)
    } else {
        None
    }
}

/// Validate an inventory id: non-empty, no whitespace anywhere.
pub fn validate_inventory_id(raw: &str) -> (r: Result<(), AtomicMutateError>)
    ensures
        match r {
            Ok(()) => inventory_id_problem(raw@) is None,
            Err(e) => e is Validation && inventory_id_problem(raw@) == Some(mutate_msg(e)),
        },
{
    if is_blank(raw) {
        return Err(AtomicMutateError::Validation(owned("inventory_id: must be non-empty")));
    }
    let t = trim(raw);
    if !crate::order::str_eq(t.as_str(), raw) {
        return Err(
            AtomicMutateError::Validation(
                cat3("inventory_id: leading or trailing whitespace not allowed (`", raw, "`)"),
            ),
        );
    }
    if has_whitespace(raw) {
        return Err(
            AtomicMutateError::Validation(
                cat3("inventory_id: internal whitespace not allowed (`", raw, "`)"),
            ),
        );
    }
    Ok(())
}

/// The refusal of a section reference, or `None` when it is accepted.
pub open spec fn section_ref_problem(raw: Seq<char>) -> Option<Seq<char>> {
    if is_blank_seq(raw) {
        Some("section_ref: must be non-empty (pass None to unset)"@)
    } else if trim_seq(raw) != raw {
        Some("section_ref: leading or trailing whitespace not allowed (`"@ + raw + "`)"@)
    } else if has_prefix(raw, "§"@) {
        Some("section_ref: drop leading `§` for canonical form (`"@ + raw + "`)"@)
    } else {
        None
    }
}

/// Validate a section reference: non-empty, no whitespace edges, no `§` sigil.
pub fn validate_section_ref_input(raw: &str) -> (r: Result<(), AtomicMutateError>)
    ensures
        match r {
            Ok(()) => section_ref_problem(raw@) is None,
            Err(e) => e is Validation && section_ref_problem(raw@) == Some(mutate_msg(e)),
        },
{
    if is_blank(raw) {
        return Err(
            AtomicMutateError::Validation(owned("section_ref: must be non-empty (pass None to unset)")),
        );
    }
    let t = trim(raw);
    if !crate::order::str_eq(t.as_str(), raw) {
        return Err(
            AtomicMutateError::Validation(
                cat3("section_ref: leading or trailing whitespace not allowed (`", raw, "`)"),
            ),
        );
    }
    if starts_with(raw, "§") {
        return Err(
            AtomicMutateError::Validation(
                cat3("section_ref: drop leading `§` for canonical form (`", raw, "`)"),
            ),
        );
    }
    Ok(())
}

/// Strip one leading `§` citation sigil.
pub open spec fn strip_marker_seq(s: Seq<char>) -> Seq<char> {
    if has_prefix(s, "§"@) {
        s.subrange("§"@.len() as int, s.len() as int)
    } else {
        s
    }
}

/// Strip one leading `§` citation sigil, so store keys stay bare.
pub fn strip_section_marker(s: &str) -> (r: String)
    ensures
        r@ == strip_marker_seq(s@),
{
    match strip_prefix(s, "§") {
        Some(rest) => rest,
        None => owned(s),
    }
}

} // verus!
