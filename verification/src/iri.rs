//! IRI resolution through the `url` crate, and language-tag lowercasing
//! through `str::to_lowercase`. Both are deterministic functions of their
//! string arguments, so each result is given a name that contracts can
//! speak of.

use vstd::prelude::*;

verus! {

/// The serialization of `rel` resolved against the absolute URL `base` per
/// RFC 3986 / WHATWG rules, or `None` when the resolution fails.
pub uninterp spec fn resolve_iri_of(base: Seq<char>, rel: Seq<char>) -> Option<Seq<char>>;

/// The serialization of `s` parsed as an absolute URL, or `None` when the
/// parse fails.
pub uninterp spec fn parse_iri_of(s: Seq<char>) -> Option<Seq<char>>;

/// The Unicode lowercase form of `s`.
pub uninterp spec fn lower_of(s: Seq<char>) -> Seq<char>;

/// Relies on url::Url::parse, url::Url::join and url::Url::as_str: resolving
/// a reference against an absolute base URL is a deterministic function of
/// the two strings.
#[verifier::external_body]
pub fn resolve_iri(base: &str, rel: &str) -> (r: Option<String>)
    ensures
        r.deep_view() == resolve_iri_of(base@, rel@),
{
    match url::Url::parse(base) {
        Ok(b) => match b.join(rel) {
            Ok(u) => Some(String::from(u.as_str())),
            Err(_) => None,
        },
        Err(_) => None,
    }
}

/// Relies on url::Url::parse and url::Url::as_str: parsing an absolute URL
/// is a deterministic function of the input string.
#[verifier::external_body]
pub fn parse_iri(s: &str) -> (r: Option<String>)
    ensures
        r.deep_view() == parse_iri_of(s@),
{
    match url::Url::parse(s) {
        Ok(u) => Some(String::from(u.as_str())),
        Err(_) => None,
    }
}

/// Relies on str::to_lowercase: the result depends on the characters alone.
#[verifier::external_body]
pub fn lowercase(s: &str) -> (r: String)
    ensures
        r@ == lower_of(s@),
{
    s.to_lowercase()
}

} // verus!
