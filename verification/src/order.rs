//! The order `String`'s `Ord` uses (code point by code point, a proper prefix
//! first), stated over `Seq<char>`, with its laws and an executable comparison.
use vstd::prelude::*;

verus! {

/// `a < b` in the lexicographic order on code points.
pub open spec fn lex_lt(a: Seq<char>, b: Seq<char>) -> bool
    decreases a.len(),
{
    if a.len() == 0 {
        b.len() > 0
    } else if b.len() == 0 {
        false
    } else if (a[0] as int) < (b[0] as int) {
        true
    } else if a[0] == b[0] {
        lex_lt(a.drop_first(), b.drop_first())
    } else {
        false
    }
}

/// Strictly increasing in `lex_lt`: sorted, and no element twice.
pub open spec fn sorted_strict(s: Seq<Seq<char>>) -> bool {
    forall|i: int, j: int| 0 <= i < j < s.len() ==> lex_lt(#[trigger] s[i], #[trigger] s[j])
}

pub proof fn lemma_lex_irreflexive(a: Seq<char>)
    ensures
        !lex_lt(a, a),
    decreases a.len(),
{
    if a.len() > 0 {
        lemma_lex_irreflexive(a.drop_first());
    }
}

pub proof fn lemma_lex_asymmetric(a: Seq<char>, b: Seq<char>)
    ensures
        lex_lt(a, b) ==> !lex_lt(b, a),
    decreases a.len(),
{
    if a.len() > 0 && b.len() > 0 && a[0] == b[0] {
        lemma_lex_asymmetric(a.drop_first(), b.drop_first());
    }
}

pub proof fn lemma_lex_transitive(a: Seq<char>, b: Seq<char>, c: Seq<char>)
    requires
        lex_lt(a, b),
        lex_lt(b, c),
    ensures
        lex_lt(a, c),
    decreases a.len(),
{
    if a.len() > 0 && b.len() > 0 && c.len() > 0 && a[0] == b[0] && b[0] == c[0] {
        lemma_lex_transitive(a.drop_first(), b.drop_first(), c.drop_first());
    }
}

pub proof fn lemma_lex_total(a: Seq<char>, b: Seq<char>)
    ensures
        a != b ==> lex_lt(a, b) || lex_lt(b, a),
    decreases a.len(),
{
    if a.len() > 0 && b.len() > 0 && a[0] == b[0] {
        lemma_lex_total(a.drop_first(), b.drop_first());
        if a.drop_first() == b.drop_first() {
            assert(a =~= seq![a[0]] + a.drop_first());
            assert(b =~= seq![b[0]] + b.drop_first());
        }
    } else if a.len() == 0 && b.len() == 0 {
        assert(a =~= b);
    } else if a.len() > 0 && b.len() > 0 {
        assert((a[0] as int) != (b[0] as int));
    }
}

/// A strictly sorted sequence holds no element twice.
pub proof fn lemma_sorted_distinct(s: Seq<Seq<char>>, i: int, j: int)
    requires
        sorted_strict(s),
        0 <= i < s.len(),
        0 <= j < s.len(),
        i != j,
    ensures
        s[i] != s[j],
{
    if i < j {
        assert(lex_lt(s[i], s[j]));
        lemma_lex_irreflexive(s[i]);
    } else {
        assert(lex_lt(s[j], s[i]));
        lemma_lex_irreflexive(s[j]);
    }
}

/// In a strictly sorted sequence, `index_of` finds the one position.
pub proof fn lemma_sorted_index_of(s: Seq<Seq<char>>, i: int)
    requires
        sorted_strict(s),
        0 <= i < s.len(),
    ensures
        s.index_of(s[i]) == i,
{
    assert(s.contains(s[i]));
    let j = s.index_of(s[i]);
    if j != i {
        lemma_sorted_distinct(s, i, j);
    }
}

proof fn lemma_lex_skip_step(a: Seq<char>, b: Seq<char>, k: int)
    requires
        0 <= k < a.len(),
        k < b.len(),
        a[k] == b[k],
    ensures
        lex_lt(a.skip(k), b.skip(k)) == lex_lt(a.skip(k + 1), b.skip(k + 1)),
{
    assert(a.skip(k).drop_first() =~= a.skip(k + 1));
    assert(b.skip(k).drop_first() =~= b.skip(k + 1));
}

/// Three-way comparison in `lex_lt`: negative, zero or positive.
pub fn compare_str(a: &str, b: &str) -> (r: i8)
    ensures
        r < 0 <==> lex_lt(a@, b@),
        r == 0 <==> a@ == b@,
        r > 0 <==> lex_lt(b@, a@),
{
    let n = a.unicode_len();
    let m = b.unicode_len();
    let mut k: usize = 0;
    assert(a@.skip(0) =~= a@);
    assert(b@.skip(0) =~= b@);
    proof {
        lemma_lex_asymmetric(a@, b@);
        lemma_lex_total(a@, b@);
        lemma_lex_irreflexive(a@);
    }
    loop
        invariant
            n == a@.len(),
            m == b@.len(),
            k <= n,
            k <= m,
            forall|t: int| 0 <= t < k ==> a@[t] == b@[t],
            lex_lt(a@, b@) == lex_lt(a@.skip(k as int), b@.skip(k as int)),
            lex_lt(b@, a@) == lex_lt(b@.skip(k as int), a@.skip(k as int)),
            lex_lt(a@, b@) ==> !lex_lt(b@, a@),
            a@ != b@ ==> lex_lt(a@, b@) || lex_lt(b@, a@),
            !lex_lt(a@, a@),
        decreases n - k,
    {
        if k == n || k == m {
            if k == n && k == m {
                assert(a@ =~= b@);
                return 0;
            } else if k == n {
                assert(a@.skip(k as int).len() == 0);
                return -1;
            } else {
                assert(b@.skip(k as int).len() == 0);
                return 1;
            }
        }
        let ca = a.get_char(k);
        let cb = b.get_char(k);
        if ca != cb {
            assert(a@.skip(k as int)[0] == ca);
            assert(b@.skip(k as int)[0] == cb);
            if (ca as u32) < (cb as u32) {
                return -1;
            } else {
                return 1;
            }
        }
        proof {
            lemma_lex_skip_step(a@, b@, k as int);
            lemma_lex_skip_step(b@, a@, k as int);
        }
        k = k + 1;
    }
}

/// Equality of two texts by their characters.
pub fn str_eq(a: &str, b: &str) -> (r: bool)
    ensures
        r == (a@ == b@),
{
    compare_str(a, b) == 0
}

/// The texts of a list of string slices.
pub open spec fn str_views(v: Seq<&str>) -> Seq<Seq<char>> {
    v.map_values(|s: &str| s@)
}

/// Insert `x` into a strictly sorted list of texts, unless it is there.
pub fn insert_sorted<'a>(v: &mut Vec<&'a str>, x: &'a str)
    requires
        sorted_strict(str_views(old(v)@)),
    ensures
        sorted_strict(str_views(final(v)@)),
        forall|y: Seq<char>|
            str_views(final(v)@).contains(y) <==> str_views(old(v)@).contains(y) || y == x@,
{
    let ghost s = str_views(v@);
    let n = v.len();
    let mut j: usize = 0;
    while j < n
        invariant
            j <= n,
            n == v.len(),
            s == str_views(v@),
            forall|k: int| 0 <= k < j ==> lex_lt(#[trigger] s[k], x@),
        ensures
            j <= n,
            forall|k: int| 0 <= k < j ==> lex_lt(#[trigger] s[k], x@),
            j < n ==> !lex_lt(s[j as int], x@),
        decreases n - j,
    {
        let c = compare_str(v[j], x);
        assert(s[j as int] == v@[j as int]@);
        if c >= 0 {
            break;
        }
        j = j + 1;
    }
    if j < n && str_eq(v[j], x) {
        proof {
            assert(s[j as int] == v@[j as int]@);
            assert(s.contains(x@));
        }
        return;
    }
    v.insert(j, x);
    proof {
        let t = str_views(v@);
        assert(t =~= s.insert(j as int, x@));
        if j < n {
            assert(s[j as int] == old(v)@[j as int]@);
            lemma_lex_total(s[j as int], x@);
        }
        assert forall|a: int, b: int| 0 <= a < b < t.len() implies lex_lt(
            #[trigger] t[a],
            #[trigger] t[b],
        ) by {
            if b < j {
                assert(t[a] == s[a] && t[b] == s[b]);
            } else if b == j {
                assert(t[a] == s[a] && t[b] == x@);
            } else if a == j {
                assert(t[b] == s[b - 1]);
                if b - 1 > j {
                    assert(lex_lt(s[j as int], s[b - 1]));
                    lemma_lex_transitive(x@, s[j as int], s[b - 1]);
                }
            } else if a < j {
                assert(t[a] == s[a] && t[b] == s[b - 1]);
            } else {
                assert(t[a] == s[a - 1] && t[b] == s[b - 1]);
            }
        }
        assert forall|y: Seq<char>| t.contains(y) <==> s.contains(y) || y == x@ by {
            if t.contains(y) {
                let k = choose|k: int| 0 <= k < t.len() && t[k] == y;
                if k < j {
                    assert(s[k] == y);
                } else if k > j {
                    assert(s[k - 1] == y);
                }
            }
            if s.contains(y) {
                let k = choose|k: int| 0 <= k < s.len() && s[k] == y;
                if k < j {
                    assert(t[k] == y);
                } else {
                    assert(t[k + 1] == y);
                }
            }
            if y == x@ {
                assert(t[j as int] == y);
            }
        }
    }
}

} // verus!
