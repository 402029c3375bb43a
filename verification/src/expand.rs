//! IRI expansion over a completed active context: installed terms map to
//! their IRI, keywords and other `@`-prefixed strings pass through, strings
//! already absolute pass through, compact IRIs expand through their prefix,
//! bare terms fall back to the vocabulary mapping or the base IRI.

use vstd::prelude::*;
use vstd::string::StrSliceExecFns;
use vstd::string::StringExecFns;
use crate::context::{ctx_terms_wf, term_wf, Context, ContextSpec};
use crate::iri::{resolve_iri, resolve_iri_of};
use crate::strutil::{
    find_char, has_substring, spec_has_substring, starts_with_char, starts_with_two, str_eq,
};

verus! {

/// The closed keyword set; a term matching it may not be redefined.
pub open spec fn spec_is_keyword(s: Seq<char>) -> bool {
    ||| s == "@context"@
    ||| s == "@id"@
    ||| s == "@value"@
    ||| s == "@language"@
    ||| s == "@type"@
    ||| s == "@container"@
    ||| s == "@list"@
    ||| s == "@set"@
    ||| s == "@reverse"@
    ||| s == "@index"@
    ||| s == "@base"@
    ||| s == "@vocab"@
    ||| s == "@graph"@
}

/// True iff `s` is one of the thirteen reserved keywords.
pub fn is_keyword(s: &str) -> (r: bool)
    ensures
        r == spec_is_keyword(s@),
{
    str_eq(s, "@context") || str_eq(s, "@id") || str_eq(s, "@value") || str_eq(s, "@language")
        || str_eq(s, "@type") || str_eq(s, "@container") || str_eq(s, "@list") || str_eq(s, "@set")
        || str_eq(s, "@reverse") || str_eq(s, "@index") || str_eq(s, "@base") || str_eq(
        s,
        "@vocab",
    ) || str_eq(s, "@graph")
}

/// Every keyword begins with `@`.
pub proof fn lemma_keyword_starts_at(k: Seq<char>)
    requires
        spec_is_keyword(k),
    ensures
        k.len() > 0 && k[0] == '@',
{
    reveal_strlit("@context");
    reveal_strlit("@id");
    reveal_strlit("@value");
    reveal_strlit("@language");
    reveal_strlit("@type");
    reveal_strlit("@container");
    reveal_strlit("@list");
    reveal_strlit("@set");
    reveal_strlit("@reverse");
    reveal_strlit("@index");
    reveal_strlit("@base");
    reveal_strlit("@vocab");
    reveal_strlit("@graph");
}

/// What `expand_iri` returns: the fixed precedence of term lookup, `@`
/// pass-through, absolute pass-through, compact-IRI expansion, vocabulary
/// fallback and base resolution. A failing base resolution leaves the
/// value unchanged.
pub open spec fn spec_expand_iri(
    ctx: ContextSpec,
    val: Seq<char>,
    document_relative: bool,
    vocab: bool,
) -> Seq<char> {
    if vocab && ctx.terms.contains_key(val) {
        ctx.terms[val].iri_mapping
    } else if val.len() > 0 && val[0] == '@' {
        val
    } else if spec_has_substring(val, "://"@) {
        val
    } else {
        match val.index_of_first(':') {
            Some(loc) => {
                let prefix = val.subrange(0, loc);
                let suffix = val.subrange(loc + 1, val.len() as int);
                if prefix == "_"@ || (suffix.len() >= 2 && suffix[0] == '/' && suffix[1] == '/') {
                    val
                } else if ctx.terms.contains_key(prefix) {
                    ctx.terms[prefix].iri_mapping + suffix
                } else {
                    val
                }
            },
            None => {
                if vocab && ctx.vocabulary_mapping is Some {
                    ctx.vocabulary_mapping.unwrap() + val
                } else if document_relative && ctx.base_iri is Some {
                    match resolve_iri_of(ctx.base_iri.unwrap(), val) {
                        Some(r) => r,
                        None => val,
                    }
                } else {
                    val
                }
            },
        }
    }
}

impl Context {
    /// Pure-mode IRI expansion: total over a completed active context.
    pub fn expand_iri(&self, val: &str, document_relative: bool, vocab: bool) -> (r: String)
        requires
            self.wf(),
        ensures
            r@ == spec_expand_iri(self@, val@, document_relative, vocab),
    {
        if vocab {
            if let Some(t) = self.terms.get(val) {
                return t.iri_mapping.clone();
            }
        }
        if starts_with_char(val, '@') {
            return val.to_owned();
        }
        if has_substring(val, "://") {
            return val.to_owned();
        }
        proof {
            val@.index_of_first_ensures(':');
        }
        match find_char(val, ':') {
            Some(loc) => {
                let len = val.unicode_len();
                let prefix = val.substring_char(0, loc);
                let suffix = val.substring_char(loc + 1, len);
                if str_eq(prefix, "_") || starts_with_two(suffix, '/', '/') {
                    val.to_owned()
                } else {
                    match self.terms.get(prefix) {
                        Some(t) => {
                            let mut out = t.iri_mapping.clone();
                            out.append(suffix);
                            out
                        },
                        None => val.to_owned(),
                    }
                }
            },
            None => {
                if vocab && self.vocabulary_mapping.is_some() {
                    let mut out = self.vocabulary_mapping.as_ref().unwrap().clone();
                    out.append(val);
                    out
                } else if document_relative && self.base_iri.is_some() {
                    match resolve_iri(self.base_iri.as_ref().unwrap().as_str(), val) {
                        Some(r) => r,
                        None => val.to_owned(),
                    }
                } else {
                    val.to_owned()
                }
            },
        }
    }
}

/// Law: a successfully installed term expands, in vocab mode, to its own
/// IRI mapping.
pub proof fn lemma_expand_installed_term(ctx: ContextSpec, t: Seq<char>)
    requires
        ctx.terms.contains_key(t),
    ensures
        spec_expand_iri(ctx, t, false, true) == ctx.terms[t].iri_mapping,
{
}

/// Law: a string that is already an absolute IRI (it contains `://`)
/// passes through expansion unchanged, unless it is itself a defined term
/// in vocab mode.
pub proof fn lemma_expand_absolute_iri(
    ctx: ContextSpec,
    s: Seq<char>,
    document_relative: bool,
    vocab: bool,
)
    requires
        spec_has_substring(s, "://"@),
        !(vocab && ctx.terms.contains_key(s)),
    ensures
        spec_expand_iri(ctx, s, document_relative, vocab) == s,
{
}

/// Law: every keyword passes through expansion unchanged, in every mode,
/// over any context in which no keyword is installed as a term.
pub proof fn lemma_expand_keyword(
    ctx: ContextSpec,
    k: Seq<char>,
    document_relative: bool,
    vocab: bool,
)
    requires
        spec_is_keyword(k),
        ctx_terms_wf(ctx),
    ensures
        spec_expand_iri(ctx, k, document_relative, vocab) == k,
{
    lemma_keyword_starts_at(k);
    assert(!ctx.terms.contains_key(k)) by {
        if ctx.terms.contains_key(k) {
            assert(term_wf(ctx.terms[k]) && !spec_is_keyword(k));
        }
    }
}

} // verus!
