//! The repository a request names: its host, its URL, and the identifiers
//! under which its resolved commit and its statistics are cached and tagged.
use vstd::prelude::*;
use crate::text::{
    chars_of, contains_char, lemma_first_occurrence_some, lemma_split_once_at, occurs_at,
    push_str, split_once, string_of,
};

verus! {

// ---------------------------------------------------------------------------
// Percent-decoding of the host
// ---------------------------------------------------------------------------

pub open spec fn is_hex_byte(b: u8) -> bool {
    (0x30 <= b && b <= 0x39) || (0x41 <= b && b <= 0x46) || (0x61 <= b && b <= 0x66)
}

pub open spec fn hex_value(b: u8) -> nat {
    if 0x30 <= b && b <= 0x39 {
        (b - 0x30) as nat
    } else if 0x41 <= b && b <= 0x46 {
        (b - 0x41 + 10) as nat
    } else {
        (b - 0x61 + 10) as nat
    }
}

/// Percent-decoding: every `%` followed by two hexadecimal digits stands for
/// the byte they spell; every other byte stands for itself.
pub open spec fn percent_decoded(b: Seq<u8>) -> Seq<u8>
    decreases b.len(),
{
    if b.len() == 0 {
        Seq::<u8>::empty()
    } else if b[0] == 0x25 && b.len() >= 3 && is_hex_byte(b[1]) && is_hex_byte(b[2]) {
        seq![(hex_value(b[1]) * 16 + hex_value(b[2])) as u8] + percent_decoded(
            b.subrange(3, b.len() as int),
        )
    } else {
        seq![b[0]] + percent_decoded(b.subrange(1, b.len() as int))
    }
}

/// What `percent_decode_str(s).decode_utf8()` gives: the percent-decoded
/// bytes of `s` read as UTF-8, or nothing where they are not valid UTF-8.
pub open spec fn percent_decode_text(s: Seq<char>) -> Option<Seq<char>> {
    let bytes = percent_decoded(vstd::utf8::encode_utf8(s));
    if vstd::utf8::valid_utf8(bytes) {
        Some(vstd::utf8::decode_utf8(bytes))
    } else {
        None
    }
}

/// `percent_encoding::percent_decode_str(s).decode_utf8()`: the crate decodes
/// each `%` followed by two hexadecimal digits into the byte they spell and
/// keeps every other byte, then reads the bytes as UTF-8 and fails where
/// they are not valid UTF-8.
#[verifier::external_body]
fn percent_decode_utf8(s: &str) -> (r: Option<String>)
    ensures
        match r {
            Some(t) => percent_decode_text(s@) == Some(t@),
            None => percent_decode_text(s@) is None,
        },
{
    match percent_encoding::percent_decode_str(s).decode_utf8() {
        Ok(t) => Some(t.into_owned()),
        Err(_) => None,
    }
}

// ---------------------------------------------------------------------------
// The host
// ---------------------------------------------------------------------------

/// A host without a dot is taken to be a `.com` host.
pub open spec fn normalized_domain(d: Seq<char>) -> Seq<char> {
    if d.contains('.') {
        d
    } else {
        d + ".com"@
    }
}

/// Appends `.com` to a host that has no dot in it.
pub fn normalize_domain(d: &str) -> (r: String)
    ensures
        r@ == normalized_domain(d@),
{
    let mut cs = chars_of(d);
    if !contains_char(cs.as_slice(), '.') {
        push_str(&mut cs, ".com");
    }
    string_of(cs.as_slice())
}

/// The host named by the path segment `raw`: percent-decoded, with `.com`
/// appended where it has no dot; `None` where the decoded bytes are not
/// valid UTF-8.
pub fn decode_domain(raw: &str) -> (r: Option<String>)
    ensures
        match percent_decode_text(raw@) {
            Some(d) => r matches Some(t) && t@ == normalized_domain(d),
            None => r is None,
        },
{
    match percent_decode_utf8(raw) {
        Some(d) => Some(normalize_domain(d.as_str())),
        None => None,
    }
}

/// Normalizing a host twice gives what normalizing it once gives.
pub proof fn law_normalize_domain_idempotent(d: Seq<char>)
    ensures
        normalized_domain(normalized_domain(d)) == normalized_domain(d),
{
    if !d.contains('.') {
        let n = d + ".com"@;
        reveal_strlit(".com");
        assert(n[d.len() as int] == '.');
        assert(n.contains('.'));
    }
}

/// A host without a top-level domain names the same host as that host
/// followed by `.com`: `github` is `github.com`.
pub proof fn law_bare_host_means_com(d: Seq<char>)
    requires
        !d.contains('.'),
    ensures
        normalized_domain(d) == normalized_domain(d + ".com"@),
        normalized_domain(d) == d + ".com"@,
{
    law_normalize_domain_idempotent(d);
}

// ---------------------------------------------------------------------------
// URL and identifiers
// ---------------------------------------------------------------------------

/// `https://{domain}/{user}/{repo}`.
pub open spec fn repo_url_text(domain: Seq<char>, user: Seq<char>, repo: Seq<char>) -> Seq<char> {
    "https://"@ + domain + "/"@ + user + "/"@ + repo
}

/// The URL of the repository `user/repo` on `domain`.
pub fn repo_url(domain: &str, user: &str, repo: &str) -> (r: String)
    ensures
        r@ == repo_url_text(domain@, user@, repo@),
{
    let mut cs: Vec<char> = Vec::new();
    push_str(&mut cs, "https://");
    push_str(&mut cs, domain);
    push_str(&mut cs, "/");
    push_str(&mut cs, user);
    push_str(&mut cs, "/");
    push_str(&mut cs, repo);
    assert(cs@ =~= repo_url_text(domain@, user@, repo@));
    string_of(cs.as_slice())
}

/// `a#b`.
pub open spec fn hash_joined(a: Seq<char>, b: Seq<char>) -> Seq<char> {
    a.push('#') + b
}

/// The entity tag of a badge: `{sha}#{branch_name}`.
pub fn etag_identifier(sha: &str, branch_name: &str) -> (r: String)
    ensures
        r@ == hash_joined(sha@, branch_name@),
{
    let mut cs = chars_of(sha);
    cs.push('#');
    push_str(&mut cs, branch_name);
    string_of(cs.as_slice())
}

/// The key under which the statistics of a commit are cached:
/// `{url}#{sha}#{branch_name}`.
pub fn repo_identifier(url: &str, sha: &str, branch_name: &str) -> (r: String)
    ensures
        r@ == hash_joined(hash_joined(url@, sha@), branch_name@),
{
    let mut cs = chars_of(url);
    cs.push('#');
    push_str(&mut cs, sha);
    cs.push('#');
    push_str(&mut cs, branch_name);
    string_of(cs.as_slice())
}

/// The key under which a resolved commit is cached:
/// `{domain}#{user}#{repo}#{branch}`.
pub fn sha_cache_key(domain: &str, user: &str, repo: &str, branch: &str) -> (r: String)
    ensures
        r@ == hash_joined(hash_joined(hash_joined(domain@, user@), repo@), branch@),
{
    let mut cs = chars_of(domain);
    cs.push('#');
    push_str(&mut cs, user);
    cs.push('#');
    push_str(&mut cs, repo);
    cs.push('#');
    push_str(&mut cs, branch);
    string_of(cs.as_slice())
}

/// Splitting a text at its first `#` and joining the two parts with `#`
/// again gives the text back.
pub proof fn law_split_then_join(s: Seq<char>)
    ensures
        split_once(s, seq!['#']) matches Some((a, b)) ==> hash_joined(a, b) == s,
{
    let pat = seq!['#'];
    if split_once(s, pat) is Some {
        crate::text::lemma_split_once_some(s, pat);
        let i = crate::text::first_occurrence(s, pat)->0;
        lemma_split_once_at(s, pat, i);
        assert(s.subrange(i, i + 1)[0] == s[i]);
        assert(hash_joined(s.subrange(0, i), s.subrange(i + 1, s.len() as int)) =~= s);
    }
}

} // verus!
