//! The calls this library makes into std formatting, `sha2`, `serde_json` and
//! `regex`, each with the contract the outside code is believed to meet, and
//! the outside types those calls hand over.
use vstd::prelude::*;

verus! {

/// What `format!("{:?}", s)` writes for a string: the text in double quotes
/// with std's escapes.
pub uninterp spec fn debug_quoted(s: Seq<char>) -> Seq<char>;

/// std's `Debug` formatting of a `str` (`format!("{:?}", s)`). Believed: the
/// result depends on the characters of `s` alone. What those escapes are is not
/// stated.
#[verifier::external_body]
pub(crate) fn debug_quote(s: &str) -> (r: String)
    ensures
        r@ == debug_quoted(s@),
{
    format!("{:?}", s)
}

/// The SHA-256 digest of a byte string.
pub uninterp spec fn sha256_of(data: Seq<u8>) -> Seq<u8>;

/// `sha2::Sha256::digest`. Believed: the digest depends on the bytes alone
/// and is 32 bytes long. The digest function itself is not stated.
#[verifier::external_body]
pub(crate) fn sha256_digest(data: &[u8]) -> (r: Vec<u8>)
    ensures
        r@ == sha256_of(data@),
        r@.len() == 32,
{
    <sha2::Sha256 as sha2::Digest>::digest(data).to_vec()
}

/// The bytes `serde_json::to_vec` writes for a JSON object whose members are
/// one optional string and four lists of strings under the given keys.
pub uninterp spec fn json_half_encoding(
    k0: Seq<char>,
    v0: Option<Seq<char>>,
    k1: Seq<char>,
    v1: Seq<Seq<char>>,
    k2: Seq<char>,
    v2: Seq<Seq<char>>,
    k3: Seq<char>,
    v3: Seq<Seq<char>>,
    k4: Seq<char>,
    v4: Seq<Seq<char>>,
) -> Seq<u8>;

/// `serde_json::to_vec` of a `serde_json::Value` object built from one
/// optional string (`null` when absent) and four string arrays under the given
/// keys. Believed: the bytes depend on the keys and values alone (the map is
/// the default `BTreeMap`, so member order does not depend on insertion
/// order). The encoding itself is not stated.
#[verifier::external_body]
pub(crate) fn json_half_bytes(
    k0: &str,
    v0: &Option<String>,
    k1: &str,
    v1: &Vec<String>,
    k2: &str,
    v2: &Vec<String>,
    k3: &str,
    v3: &Vec<String>,
    k4: &str,
    v4: &Vec<String>,
) -> (r: Vec<u8>)
    ensures
        r@ == json_half_encoding(
            k0@,
            v0.deep_view(),
            k1@,
            v1.deep_view(),
            k2@,
            v2.deep_view(),
            k3@,
            v3.deep_view(),
            k4@,
            v4.deep_view(),
        ),
{
    let mut m = serde_json::Map::new();
    m.insert(k0.to_string(), serde_json::Value::from(v0.clone()));
    m.insert(k1.to_string(), serde_json::Value::from(v1.clone()));
    m.insert(k2.to_string(), serde_json::Value::from(v2.clone()));
    m.insert(k3.to_string(), serde_json::Value::from(v3.clone()));
    m.insert(k4.to_string(), serde_json::Value::from(v4.clone()));
    serde_json::to_vec(&serde_json::Value::Object(m)).unwrap_or_default()
}

/// `regex::Regex`, a compiled regular expression; opaque here.
#[verifier::external_type_specification]
#[verifier::external_body]
pub struct ExRegex(regex::Regex);

/// `regex::Error`, why a pattern did not compile; opaque here.
#[verifier::external_type_specification]
#[verifier::external_body]
pub struct ExRegexError(regex::Error);

/// The characters the regex syntax gives a meaning: `regex_syntax`'s
/// `is_meta_character`, a fixed set.
pub open spec fn is_regex_meta(c: char) -> bool {
    c == '\\' || c == '.' || c == '+' || c == '*' || c == '?' || c == '(' || c == ')' || c == '|'
        || c == '[' || c == ']' || c == '{' || c == '}' || c == '^' || c == '$' || c == '#'
        || c == '&' || c == '-' || c == '~'
}

/// The text with a backslash put before each regex metacharacter, every
/// other character as it stands.
pub open spec fn regex_escaped(s: Seq<char>) -> Seq<char>
    decreases s.len(),
{
    if s.len() == 0 {
        Seq::empty()
    } else {
        regex_escaped(s.drop_last()) + if is_regex_meta(s.last()) {
            seq!['\\', s.last()]
        } else {
            seq![s.last()]
        }
    }
}

/// `regex::escape`, which calls `regex_syntax::escape`: each character of
/// the text in order, a backslash pushed before it when it is a
/// metacharacter.
#[verifier::external_body]
pub(crate) fn regex_escape(s: &str) -> (r: String)
    ensures
        r@ == regex_escaped(s@),
{
    regex::escape(s)
}

/// Whether `RegexBuilder::new(pattern).case_insensitive(ci).build()`
/// succeeds: the pattern parses and fits the default size limits.
pub uninterp spec fn regex_accepts(pattern: Seq<char>, case_insensitive: bool) -> bool;

/// What `Regex::replace_all(input, replacement)` gives for the regex built
/// from `pattern` with the case flag: every leftmost non-overlapping match
/// replaced, with `$name` references in the replacement expanded.
pub uninterp spec fn regex_replaced(
    pattern: Seq<char>,
    case_insensitive: bool,
    input: Seq<char>,
    replacement: Seq<char>,
) -> Seq<char>;

/// `regex::RegexBuilder::new(pattern).case_insensitive(ci).build()`.
/// Believed: whether it succeeds depends on the pattern and the flag alone.
/// The error it gives is not stated.
#[verifier::external_body]
fn regex_build(pattern: &str, case_insensitive: bool) -> (r: Result<regex::Regex, regex::Error>)
    ensures
        r is Ok <==> regex_accepts(pattern@, case_insensitive),
{
    regex::RegexBuilder::new(pattern).case_insensitive(case_insensitive).build()
}

/// A regex together with the pattern and case flag it was built from. The
/// fields are private: the one way to make one is [`compile_regex`].
pub(crate) struct CompiledRegex {
    pattern: String,
    case_insensitive: bool,
    re: regex::Regex,
}

impl CompiledRegex {
    /// The pattern this regex was built from.
    pub closed spec fn pattern_of(&self) -> Seq<char> {
        self.pattern@
    }

    /// The case flag this regex was built with.
    pub closed spec fn case_insensitive_of(&self) -> bool {
        self.case_insensitive
    }
}

/// Build the regex of `pattern` with the case flag; the error is the one
/// `regex` gives.
pub(crate) fn compile_regex(pattern: &str, case_insensitive: bool) -> (r: Result<CompiledRegex, regex::Error>)
    ensures
        r is Ok <==> regex_accepts(pattern@, case_insensitive),
        match r {
            Ok(c) => c.pattern_of() == pattern@ && c.case_insensitive_of() == case_insensitive,
            Err(_) => true,
        },
{
    match regex_build(pattern, case_insensitive) {
        Ok(re) => Ok(CompiledRegex { pattern: pattern.to_owned(), case_insensitive, re }),
        Err(e) => Err(e),
    }
}

/// `Regex::replace_all`, on a regex built by [`compile_regex`]. Believed: the
/// result depends on the pattern and flag the regex was built from, the
/// input and the replacement alone. What the matches are is not stated.
#[verifier::external_body]
pub(crate) fn regex_replace(c: &CompiledRegex, input: &str, replacement: &str) -> (r: String)
    ensures
        r@ == regex_replaced(c.pattern_of(), c.case_insensitive_of(), input@, replacement@),
{
    c.re.replace_all(input, replacement).into_owned()
}

/// std's `Display` of a `regex::Error`. Nothing is stated of the text.
#[verifier::external_body]
pub(crate) fn regex_error_text(e: &regex::Error) -> (r: String) {
    format!("{}", e)
}

} // verus!
