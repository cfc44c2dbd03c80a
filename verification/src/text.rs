//! Character-level text operations with their meaning stated over `Seq<char>`.
use vstd::prelude::*;

verus! {

/// Unicode `White_Space`: the set `char::is_whitespace` answers for.
pub open spec fn is_ws(c: char) -> bool {
    let u = c as u32;
    ||| (9 <= u && u <= 13)
    ||| u == 32
    ||| u == 0x85
    ||| u == 0xA0
    ||| u == 0x1680
    ||| (0x2000 <= u && u <= 0x200A)
    ||| u == 0x2028
    ||| u == 0x2029
    ||| u == 0x202F
    ||| u == 0x205F
    ||| u == 0x3000
}

pub fn is_whitespace(c: char) -> (r: bool)
    ensures
        r == is_ws(c),
{
    let u = c as u32;
    (9 <= u && u <= 13) || u == 32 || u == 0x85 || u == 0xA0 || u == 0x1680 || (0x2000 <= u
        && u <= 0x200A) || u == 0x2028 || u == 0x2029 || u == 0x202F || u == 0x205F || u
        == 0x3000
}

/// Drop leading whitespace.
pub open spec fn trim_start_seq(s: Seq<char>) -> Seq<char>
    decreases s.len(),
{
    if s.len() > 0 && is_ws(s[0]) {
        trim_start_seq(s.drop_first())
    } else {
        s
    }
}

/// Drop trailing whitespace.
pub open spec fn trim_end_seq(s: Seq<char>) -> Seq<char>
    decreases s.len(),
{
    if s.len() > 0 && is_ws(s.last()) {
        trim_end_seq(s.drop_last())
    } else {
        s
    }
}

/// `str::trim`: drop whitespace at both ends.
pub open spec fn trim_seq(s: Seq<char>) -> Seq<char> {
    trim_end_seq(trim_start_seq(s))
}

/// Every character is whitespace (the text is blank).
pub open spec fn all_ws(s: Seq<char>) -> bool {
    forall|i: int| 0 <= i < s.len() ==> is_ws(#[trigger] s[i])
}

/// Text that is empty after trimming.
pub open spec fn is_blank_seq(s: Seq<char>) -> bool {
    trim_seq(s).len() == 0
}

proof fn lemma_trim_start_all_ws(s: Seq<char>)
    ensures
        trim_start_seq(s).len() == 0 <==> all_ws(s),
        trim_start_seq(s).len() > 0 ==> !is_ws(trim_start_seq(s)[0]),
    decreases s.len(),
{
    if s.len() > 0 && is_ws(s[0]) {
        lemma_trim_start_all_ws(s.drop_first());
        if all_ws(s.drop_first()) {
            assert forall|i: int| 0 <= i < s.len() implies is_ws(#[trigger] s[i]) by {
                if i > 0 {
                    assert(s[i] == s.drop_first()[i - 1]);
                }
            }
        }
        if all_ws(s) {
            assert forall|i: int| 0 <= i < s.drop_first().len() implies is_ws(
                #[trigger] s.drop_first()[i],
            ) by {
                assert(s.drop_first()[i] == s[i + 1]);
            }
        }
    }
}

proof fn lemma_trim_end_nonempty(s: Seq<char>)
    ensures
        s.len() > 0 && !is_ws(s[0]) ==> trim_end_seq(s).len() > 0,
        trim_end_seq(s).len() <= s.len(),
        trim_end_seq(s) == s.subrange(0, trim_end_seq(s).len() as int),
    decreases s.len(),
{
    if s.len() > 0 && is_ws(s.last()) {
        lemma_trim_end_nonempty(s.drop_last());
        if s.len() > 0 && !is_ws(s[0]) {
            assert(s.len() > 1);
            assert(s.drop_last()[0] == s[0]);
        }
        assert(s.drop_last().subrange(0, trim_end_seq(s).len() as int) =~= s.subrange(
            0,
            trim_end_seq(s).len() as int,
        ));
    } else {
        assert(s.subrange(0, s.len() as int) =~= s);
    }
}

/// A text is blank exactly when all of its characters are whitespace.
pub proof fn lemma_blank_iff_all_ws(s: Seq<char>)
    ensures
        is_blank_seq(s) <==> all_ws(s),
{
    lemma_trim_start_all_ws(s);
    lemma_trim_end_nonempty(trim_start_seq(s));
}

/// Loop helper: skipping whitespace one character at a time.
proof fn lemma_trim_start_step(s: Seq<char>, i: int)
    requires
        0 <= i < s.len(),
        is_ws(s[i]),
    ensures
        trim_start_seq(s.skip(i)) == trim_start_seq(s.skip(i + 1)),
{
    assert(s.skip(i).drop_first() =~= s.skip(i + 1));
}

proof fn lemma_trim_end_step(s: Seq<char>, i: int, j: int)
    requires
        0 <= i < j <= s.len(),
        is_ws(s[j - 1]),
    ensures
        trim_end_seq(s.subrange(i, j)) == trim_end_seq(s.subrange(i, j - 1)),
{
    assert(s.subrange(i, j).drop_last() =~= s.subrange(i, j - 1));
}

/// `str::trim`.
pub fn trim(s: &str) -> (r: String)
    ensures
        r@ == trim_seq(s@),
{
    let n = s.unicode_len();
    let mut i: usize = 0;
    assert(s@.skip(0) =~= s@);
    while i < n && is_whitespace(s.get_char(i))
        invariant
            i <= n,
            n == s@.len(),
            trim_start_seq(s@) == trim_start_seq(s@.skip(i as int)),
        decreases n - i,
    {
        proof {
            lemma_trim_start_step(s@, i as int);
        }
        i = i + 1;
    }
    assert(trim_start_seq(s@) == s@.skip(i as int));
    assert(s@.skip(i as int) =~= s@.subrange(i as int, n as int));
    let mut j: usize = n;
    while j > i && is_whitespace(s.get_char(j - 1))
        invariant
            i <= j <= n,
            n == s@.len(),
            trim_seq(s@) == trim_end_seq(s@.subrange(i as int, j as int)),
        decreases j,
    {
        proof {
            lemma_trim_end_step(s@, i as int, j as int);
        }
        j = j - 1;
    }
    assert(trim_end_seq(s@.subrange(i as int, j as int)) == s@.subrange(i as int, j as int));
    s.substring_char(i, j).to_owned()
}

/// Whether `s` is empty after trimming.
pub fn is_blank(s: &str) -> (r: bool)
    ensures
        r == is_blank_seq(s@),
        r == all_ws(s@),
{
    proof {
        lemma_blank_iff_all_ws(s@);
    }
    let t = trim(s);
    t.as_str().unicode_len() == 0
}

/// `prefix` stands at the start of `s`.
pub open spec fn has_prefix(s: Seq<char>, prefix: Seq<char>) -> bool {
    prefix.len() <= s.len() && s.subrange(0, prefix.len() as int) == prefix
}

/// `suffix` stands at the end of `s`.
pub open spec fn has_suffix(s: Seq<char>, suffix: Seq<char>) -> bool {
    suffix.len() <= s.len() && s.subrange(s.len() - suffix.len(), s.len() as int) == suffix
}

/// `pat` occurs in `s` starting at position `i`.
pub open spec fn occurs_at(s: Seq<char>, pat: Seq<char>, i: int) -> bool {
    0 <= i && i + pat.len() <= s.len() && s.subrange(i, i + pat.len()) == pat
}

/// `pat` occurs somewhere in `s`.
pub open spec fn contains_seq(s: Seq<char>, pat: Seq<char>) -> bool {
    exists|i: int| occurs_at(s, pat, i)
}

/// `i` is the first position at which `pat` occurs in `s`.
pub open spec fn first_occurrence(s: Seq<char>, pat: Seq<char>, i: int) -> bool {
    occurs_at(s, pat, i) && forall|j: int| 0 <= j < i ==> !occurs_at(s, pat, j)
}

/// Whether `pat` occurs in `s` at char position `i`.
pub fn matches_at(s: &str, n: usize, pat: &str, m: usize, i: usize) -> (r: bool)
    requires
        n == s@.len(),
        m == pat@.len(),
        i + m <= n,
    ensures
        r == occurs_at(s@, pat@, i as int),
{
    let mut k: usize = 0;
    while k < m
        invariant
            k <= m,
            n == s@.len(),
            m == pat@.len(),
            i + m <= n,
            forall|t: int| 0 <= t < k ==> s@[i + t] == pat@[t],
        decreases m - k,
    {
        if s.get_char(i + k) != pat.get_char(k) {
            assert(s@.subrange(i as int, i + m)[k as int] != pat@[k as int]);
            return false;
        }
        k = k + 1;
    }
    assert(s@.subrange(i as int, i + m) =~= pat@);
    true
}

/// `str::starts_with` with a string pattern.
pub fn starts_with(s: &str, prefix: &str) -> (r: bool)
    ensures
        r == has_prefix(s@, prefix@),
{
    let n = s.unicode_len();
    let m = prefix.unicode_len();
    if m > n {
        return false;
    }
    let r = matches_at(s, n, prefix, m, 0);
    r
}

/// `str::ends_with` with a string pattern.
pub fn ends_with(s: &str, suffix: &str) -> (r: bool)
    ensures
        r == has_suffix(s@, suffix@),
{
    let n = s.unicode_len();
    let m = suffix.unicode_len();
    if m > n {
        return false;
    }
    let r = matches_at(s, n, suffix, m, n - m);
    r
}

/// The first position at which `pat` occurs in `s`.
pub fn find(s: &str, pat: &str) -> (r: Option<usize>)
    ensures
        match r {
            Some(i) => first_occurrence(s@, pat@, i as int),
            None => !contains_seq(s@, pat@),
        },
{
    let n = s.unicode_len();
    let m = pat.unicode_len();
    if m > n {
        assert forall|i: int| !occurs_at(s@, pat@, i) by {}
        return None;
    }
    let mut i: usize = 0;
    loop
        invariant
            n == s@.len(),
            m == pat@.len(),
            m <= n,
            i <= n - m,
            forall|j: int| 0 <= j < i ==> !occurs_at(s@, pat@, j),
        decreases n - m - i,
    {
        if matches_at(s, n, pat, m, i) {
            return Some(i);
        }
        if i == n - m {
            assert forall|j: int| !occurs_at(s@, pat@, j) by {
                if 0 <= j && j <= i {
                }
            }
            return None;
        }
        i = i + 1;
    }
}

/// `str::contains` with a string pattern.
pub fn contains(s: &str, pat: &str) -> (r: bool)
    ensures
        r == contains_seq(s@, pat@),
{
    match find(s, pat) {
        Some(_) => true,
        None => false,
    }
}

/// `c` occurs in `s`.
pub open spec fn has_char(s: Seq<char>, c: char) -> bool {
    exists|i: int| 0 <= i < s.len() && s[i] == c
}

/// Whether `c` occurs in `s`.
pub fn contains_char(s: &str, c: char) -> (r: bool)
    ensures
        r == has_char(s@, c),
{
    let n = s.unicode_len();
    let mut i: usize = 0;
    while i < n
        invariant
            i <= n,
            n == s@.len(),
            forall|j: int| 0 <= j < i ==> s@[j] != c,
        decreases n - i,
    {
        if s.get_char(i) == c {
            return true;
        }
        i = i + 1;
    }
    false
}

/// Whether any character of `s` is whitespace.
pub fn has_whitespace(s: &str) -> (r: bool)
    ensures
        r == exists|i: int| 0 <= i < s@.len() && is_ws(#[trigger] s@[i]),
{
    let n = s.unicode_len();
    let mut i: usize = 0;
    while i < n
        invariant
            i <= n,
            n == s@.len(),
            forall|j: int| 0 <= j < i ==> !is_ws(#[trigger] s@[j]),
        decreases n - i,
    {
        if is_whitespace(s.get_char(i)) {
            return true;
        }
        i = i + 1;
    }
    false
}

/// The characters of `s` from position `from` to position `to`, owned.
pub fn slice_chars(s: &str, from: usize, to: usize) -> (r: String)
    requires
        from <= to <= s@.len(),
    ensures
        r@ == s@.subrange(from as int, to as int),
{
    s.substring_char(from, to).to_owned()
}

/// `str::split_once` with a string separator.
pub fn split_once(s: &str, sep: &str) -> (r: Option<(String, String)>)
    ensures
        match r {
            Some((a, b)) => exists|i: int|
                first_occurrence(s@, sep@, i) && a@ == s@.subrange(0, i) && b@ == s@.subrange(
                    i + sep@.len(),
                    s@.len() as int,
                ),
            None => !contains_seq(s@, sep@),
        },
{
    match find(s, sep) {
        Some(i) => {
            let n = s.unicode_len();
            let m = sep.unicode_len();
            let a = slice_chars(s, 0, i);
            let b = slice_chars(s, i + m, n);
            Some((a, b))
        },
        None => None,
    }
}

/// `str::strip_prefix` with a string pattern.
pub fn strip_prefix(s: &str, prefix: &str) -> (r: Option<String>)
    ensures
        match r {
            Some(rest) => has_prefix(s@, prefix@) && rest@ == s@.subrange(
                prefix@.len() as int,
                s@.len() as int,
            ),
            None => !has_prefix(s@, prefix@),
        },
{
    if starts_with(s, prefix) {
        let n = s.unicode_len();
        let m = prefix.unicode_len();
        Some(slice_chars(s, m, n))
    } else {
        None
    }
}

/// An owned copy of `s`.
pub fn owned(s: &str) -> (r: String)
    ensures
        r@ == s@,
{
    s.to_owned()
}

/// `a` followed by `b`.
pub fn cat2(a: &str, b: &str) -> (r: String)
    ensures
        r@ == a@ + b@,
{
    let mut r = a.to_owned();
    r.append(b);
    r
}

/// `a`, `b` and `c` in order.
pub fn cat3(a: &str, b: &str, c: &str) -> (r: String)
    ensures
        r@ == a@ + b@ + c@,
{
    let mut r = a.to_owned();
    r.append(b);
    r.append(c);
    r
}

/// `a` to `e` in order.
pub fn cat5(a: &str, b: &str, c: &str, d: &str, e: &str) -> (r: String)
    ensures
        r@ == a@ + b@ + c@ + d@ + e@,
{
    let mut r = a.to_owned();
    r.append(b);
    r.append(c);
    r.append(d);
    r.append(e);
    r
}

/// The decimal digit character for `d < 10`.
pub open spec fn digit_char(d: nat) -> char {
    (48 + d) as char
}

/// Decimal notation of a natural number, as `usize`'s `Display` writes it.
pub open spec fn decimal(n: nat) -> Seq<char>
    decreases n,
{
    if n < 10 {
        seq![digit_char(n)]
    } else {
        decimal(n / 10) + seq![digit_char(n % 10)]
    }
}

/// Decimal notation of `n`.
pub fn usize_to_decimal(n: usize) -> (r: String)
    ensures
        r@ == decimal(n as nat),
{
    let digits = "0123456789";
    proof {
        reveal_strlit("0123456789");
    }
    let mut m = n;
    let mut acc = String::new();
    loop
        invariant
            digits@ =~= seq!['0', '1', '2', '3', '4', '5', '6', '7', '8', '9'],
            decimal(n as nat) == decimal(m as nat) + acc@,
        decreases m,
    {
        let d = m % 10;
        let mut piece = slice_chars(digits, d, d + 1);
        assert(piece@ =~= seq![digit_char(d as nat)]);
        if m < 10 {
            piece.append(acc.as_str());
            assert(decimal(m as nat) == seq![digit_char(m as nat)]);
            return piece;
        }
        assert(decimal(m as nat) == decimal((m / 10) as nat) + seq![digit_char((m % 10) as nat)]);
        piece.append(acc.as_str());
        acc = piece;
        m = m / 10;
    }
}

/// `s` from position `i` on, with each leftmost non-overlapping occurrence
/// of `p` replaced by `r`.
pub open spec fn replaced_from(s: Seq<char>, p: Seq<char>, r: Seq<char>, i: int) -> Seq<char>
    decreases s.len() - i,
{
    if i < 0 || i >= s.len() {
        Seq::empty()
    } else if p.len() == 0 {
        s.subrange(i, s.len() as int)
    } else if occurs_at(s, p, i) {
        r + replaced_from(s, p, r, i + p.len())
    } else {
        seq![s[i]] + replaced_from(s, p, r, i + 1)
    }
}

/// `s` with each leftmost non-overlapping occurrence of `p` replaced by `r`,
/// scanning from the start: what `str::replace` gives for a non-empty `p`.
pub open spec fn replaced(s: Seq<char>, p: Seq<char>, r: Seq<char>) -> Seq<char> {
    replaced_from(s, p, r, 0)
}

/// `str::replace` with a non-empty string pattern.
pub fn replace_literal(s: &str, p: &str, r: &str) -> (out: String)
    requires
        p@.len() > 0,
    ensures
        out@ == replaced(s@, p@, r@),
{
    let n = s.unicode_len();
    let m = p.unicode_len();
    let mut out = String::new();
    let mut i: usize = 0;
    while i < n
        invariant
            n == s@.len(),
            m == p@.len(),
            m > 0,
            i <= n,
            out@ + replaced_from(s@, p@, r@, i as int) == replaced(s@, p@, r@),
        decreases n - i,
    {
        if m <= n - i && matches_at(s, n, p, m, i) {
            out.append(r);
            proof {
                assert(out@ + replaced_from(s@, p@, r@, (i + m) as int) =~= replaced(s@, p@, r@));
            }
            i = i + m;
        } else {
            let c = s.substring_char(i, i + 1);
            proof {
                assert(!occurs_at(s@, p@, i as int));
                assert(c@ =~= seq![s@[i as int]]);
            }
            out.append(c);
            proof {
                assert(out@ + replaced_from(s@, p@, r@, (i + 1) as int) =~= replaced(s@, p@, r@));
            }
            i = i + 1;
        }
    }
    assert(replaced_from(s@, p@, r@, i as int) =~= Seq::<char>::empty());
    assert(out@ =~= replaced(s@, p@, r@));
    out
}

/// No character of `r` occurs in `p`.
pub open spec fn shares_no_char(r: Seq<char>, p: Seq<char>) -> bool {
    forall|k: int| 0 <= k < r.len() ==> !p.contains(#[trigger] r[k])
}

/// A prefix of the replaced text that holds no character of the
/// replacement was copied from `s` as it stands.
proof fn lemma_replaced_plain_prefix(s: Seq<char>, p: Seq<char>, r: Seq<char>, i: int, l: int)
    requires
        p.len() > 0,
        r.len() > 0,
        0 <= i <= s.len(),
        0 <= l <= replaced_from(s, p, r, i).len(),
        forall|t: int| 0 <= t < l ==> !r.contains(#[trigger] replaced_from(s, p, r, i)[t]),
    ensures
        i + l <= s.len(),
        replaced_from(s, p, r, i).subrange(0, l) == s.subrange(i, i + l),
    decreases s.len() - i,
{
    let t = replaced_from(s, p, r, i);
    if l == 0 {
        assert(t.subrange(0, 0) =~= s.subrange(i, i));
    } else {
        assert(i < s.len());
        if occurs_at(s, p, i) {
            assert(t[0] == r[0]);
            assert(r.contains(r[0]));
        } else {
            let t1 = replaced_from(s, p, r, i + 1);
            assert(t == seq![s[i]] + t1);
            assert forall|u: int| 0 <= u < l - 1 implies !r.contains(#[trigger] t1[u]) by {
                assert(t1[u] == t[u + 1]);
            }
            lemma_replaced_plain_prefix(s, p, r, i + 1, l - 1);
            assert(t.subrange(0, l) =~= seq![s[i]] + t1.subrange(0, l - 1));
            assert(s.subrange(i, i + l) =~= seq![s[i]] + s.subrange(i + 1, i + l));
        }
    }
}

/// When the replacement is non-empty and shares no character with `p`, the
/// replaced text holds no occurrence of `p`.
proof fn lemma_replaced_has_no_occurrence(s: Seq<char>, p: Seq<char>, r: Seq<char>, i: int)
    requires
        p.len() > 0,
        r.len() > 0,
        shares_no_char(r, p),
        0 <= i <= s.len(),
    ensures
        forall|j: int| !occurs_at(replaced_from(s, p, r, i), p, j),
    decreases s.len() - i,
{
    let t = replaced_from(s, p, r, i);
    if i == s.len() {
        assert(t.len() == 0);
    } else if occurs_at(s, p, i) {
        let t2 = replaced_from(s, p, r, i + p.len());
        lemma_replaced_has_no_occurrence(s, p, r, i + p.len());
        assert(t == r + t2);
        assert forall|j: int| !occurs_at(t, p, j) by {
            if occurs_at(t, p, j) {
                if j < r.len() {
                    assert(t.subrange(j, j + p.len())[0] == t[j]);
                    assert(t[j] == r[j]);
                    assert(p[0] == r[j]);
                    assert(p.contains(r[j]));
                } else {
                    assert(t.subrange(j, j + p.len()) =~= t2.subrange(j - r.len(), j - r.len() + p.len()));
                    assert(occurs_at(t2, p, j - r.len()));
                }
            }
        }
    } else {
        let t1 = replaced_from(s, p, r, i + 1);
        lemma_replaced_has_no_occurrence(s, p, r, i + 1);
        assert(t == seq![s[i]] + t1);
        assert forall|j: int| !occurs_at(t, p, j) by {
            if occurs_at(t, p, j) {
                if j >= 1 {
                    assert(t.subrange(j, j + p.len()) =~= t1.subrange(j - 1, j - 1 + p.len()));
                    assert(occurs_at(t1, p, j - 1));
                } else {
                    assert forall|u: int| 0 <= u < p.len() implies !r.contains(#[trigger] t[u]) by {
                        assert(t[u] == t.subrange(0, p.len() as int)[u]);
                        assert(t[u] == p[u]);
                        assert(p.contains(p[u]));
                        if r.contains(t[u]) {
                            let k = choose|k: int| 0 <= k < r.len() && r[k] == t[u];
                            assert(!p.contains(r[k]));
                        }
                    }
                    lemma_replaced_plain_prefix(s, p, r, i, p.len() as int);
                    assert(occurs_at(s, p, i));
                }
            }
        }
    }
}

/// A text with no occurrence of `p` is left as it is.
proof fn lemma_replaced_without_occurrence(s: Seq<char>, p: Seq<char>, r: Seq<char>, i: int)
    requires
        p.len() > 0,
        forall|j: int| !occurs_at(s, p, j),
        0 <= i <= s.len(),
    ensures
        replaced_from(s, p, r, i) == s.subrange(i, s.len() as int),
    decreases s.len() - i,
{
    if i < s.len() {
        assert(!occurs_at(s, p, i));
        lemma_replaced_without_occurrence(s, p, r, i + 1);
        assert(seq![s[i]] + s.subrange(i + 1, s.len() as int) =~= s.subrange(i, s.len() as int));
    } else {
        assert(s.subrange(i, s.len() as int) =~= Seq::<char>::empty());
    }
}

/// Replacing again changes nothing, when the replacement is non-empty and
/// shares no character with the pattern: the first pass leaves no
/// occurrence behind.
pub proof fn lemma_replaced_idempotent(s: Seq<char>, p: Seq<char>, r: Seq<char>)
    requires
        p.len() > 0,
        r.len() > 0,
        shares_no_char(r, p),
    ensures
        replaced(replaced(s, p, r), p, r) == replaced(s, p, r),
{
    let t = replaced(s, p, r);
    lemma_replaced_has_no_occurrence(s, p, r, 0);
    lemma_replaced_without_occurrence(t, p, r, 0);
    assert(t.subrange(0, t.len() as int) =~= t);
}

/// The parts joined by `sep`: `[T]::join`.
pub open spec fn join_with(parts: Seq<Seq<char>>, sep: Seq<char>) -> Seq<char>
    decreases parts.len(),
{
    if parts.len() == 0 {
        Seq::empty()
    } else if parts.len() == 1 {
        parts[0]
    } else {
        join_with(parts.drop_last(), sep) + sep + parts.last()
    }
}

/// `[String]::join`.
pub fn join_strings(parts: &Vec<String>, sep: &str) -> (r: String)
    ensures
        r@ == join_with(parts.deep_view(), sep@),
{
    let ghost v = parts.deep_view();
    let mut r = String::new();
    let mut i: usize = 0;
    while i < parts.len()
        invariant
            i <= parts.len(),
            v == parts.deep_view(),
            r@ == join_with(v.subrange(0, i as int), sep@),
        decreases parts.len() - i,
    {
        let ghost before = r@;
        proof {
            assert(v.subrange(0, i + 1).drop_last() =~= v.subrange(0, i as int));
        }
        if i > 0 {
            r.append(sep);
        }
        r.append(parts[i].as_str());
        proof {
            let s1 = v.subrange(0, i + 1);
            if i == 0 {
                assert(r@ =~= s1[0]);
            } else {
                assert(r@ =~= before + sep@ + s1.last());
            }
        }
        i = i + 1;
    }
    assert(v.subrange(0, parts.len() as int) =~= v);
    r
}

} // verus!
