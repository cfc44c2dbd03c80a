//! Lowercase hex SHA-256 of a text: the content anchor every hash field of the
//! store holds.
use vstd::prelude::*;
use vstd::utf8::encode_utf8;
use crate::model::NormativeExcerpt;
use crate::order::str_eq;
use crate::outside::{sha256_digest, sha256_of};

verus! {

/// The lowercase hex digit for `d < 16`.
pub open spec fn hex_digit(d: int) -> char {
    if d < 10 {
        (48 + d) as char
    } else {
        (87 + d) as char
    }
}

/// Lowercase hex notation of a byte string, two digits per byte.
pub open spec fn hex_of(b: Seq<u8>) -> Seq<char>
    decreases b.len(),
{
    if b.len() == 0 {
        Seq::empty()
    } else {
        hex_of(b.drop_last()) + seq![hex_digit((b.last() / 16) as int), hex_digit((b.last() % 16) as int)]
    }
}

/// Lowercase hex SHA-256 of the UTF-8 encoding of a text.
pub open spec fn sha256_hex_of(s: Seq<char>) -> Seq<char> {
    hex_of(sha256_of(encode_utf8(s)))
}

proof fn lemma_hex_len(b: Seq<u8>)
    ensures
        hex_of(b).len() == 2 * b.len(),
    decreases b.len(),
{
    if b.len() > 0 {
        lemma_hex_len(b.drop_last());
    }
}

/// Lowercase hex notation of `data`.
pub fn to_hex_lower(data: &Vec<u8>) -> (r: String)
    ensures
        r@ == hex_of(data@),
        r@.len() == 2 * data@.len(),
{
    let digits = "0123456789abcdef";
    proof {
        reveal_strlit("0123456789abcdef");
    }
    let mut r = String::new();
    let mut i: usize = 0;
    while i < data.len()
        invariant
            i <= data.len(),
            digits@ =~= seq![
                '0', '1', '2', '3', '4', '5', '6', '7', '8', '9', 'a', 'b', 'c', 'd', 'e', 'f'
            ],
            r@ == hex_of(data@.subrange(0, i as int)),
        decreases data.len() - i,
    {
        let b = data[i];
        let hi = (b / 16) as usize;
        let lo = (b % 16) as usize;
        let hs = digits.substring_char(hi, hi + 1);
        let ls = digits.substring_char(lo, lo + 1);
        assert(hs@ =~= seq![hex_digit(hi as int)]);
        assert(ls@ =~= seq![hex_digit(lo as int)]);
        r.append(hs);
        r.append(ls);
        proof {
            let s1 = data@.subrange(0, i + 1);
            assert(s1.drop_last() =~= data@.subrange(0, i as int));
            assert(r@ =~= hex_of(s1));
        }
        i = i + 1;
    }
    assert(data@.subrange(0, data.len() as int) =~= data@);
    proof {
        lemma_hex_len(data@);
    }
    r
}

/// Lowercase hex SHA-256 of the UTF-8 encoding of `s`.
pub fn sha256_hex(s: &str) -> (r: String)
    ensures
        r@ == sha256_hex_of(s@),
        r@.len() == 64,
{
    let d = sha256_digest(s.as_bytes());
    to_hex_lower(&d)
}

/// Lowercase hex SHA-256 of a byte string.
pub fn sha256_hex_bytes(data: &[u8]) -> (r: String)
    ensures
        r@ == hex_of(sha256_of(data@)),
        r@.len() == 64,
{
    let d = sha256_digest(data);
    to_hex_lower(&d)
}

impl NormativeExcerpt {
    /// Lowercase hex SHA-256 of the stored text: the value `text_sha256` is
    /// expected to hold.
    pub fn recompute_text_sha256(&self) -> (r: String)
        ensures
            r@ == sha256_hex_of(self.text@),
    {
        sha256_hex(self.text.as_str())
    }

    /// Whether the declared hash still matches the stored text; `None` when
    /// no hash is declared (not revalidatable, which is not drift).
    pub fn text_sha256_matches(&self) -> (r: Option<bool>)
        ensures
            r == if self.text_sha256@.len() == 0 {
                None
            } else {
                Some(sha256_hex_of(self.text@) == self.text_sha256@)
            },
    {
        if self.text_sha256.as_str().unicode_len() == 0 {
            None
        } else {
            let h = self.recompute_text_sha256();
            Some(str_eq(h.as_str(), self.text_sha256.as_str()))
        }
    }
}

} // verus!
