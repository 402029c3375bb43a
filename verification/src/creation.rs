//! Term definition: installing a normalized term definition in the active
//! context from its raw JSON value, mutually recursive with the mutating
//! form of IRI expansion that defines still-unprocessed terms on demand.

use vstd::prelude::*;
use vstd::string::StrSliceExecFns;
use vstd::string::StringExecFns;
use crate::context::{ctx_terms_wf, term_wf, Context, ContextSpec, DefineStatus, StrMap, Term, TermSpec};
use crate::expand::{is_keyword, spec_is_keyword};
use crate::iri::{lower_of, lowercase};
use crate::json::{
    lemma_obj_first_key, lemma_view_obj_seq, obj_contains_key, obj_first_key_index, obj_has_key,
    obj_take, view_obj_seq, JsonSpec, JsonValue,
};
use crate::strutil::{
    find_char, has_char, has_substring, spec_has_char, spec_has_substring, starts_with_char,
    starts_with_two, str_eq,
};

verus! {

broadcast use vstd::std_specs::vec::group_vec_axioms, vstd::seq::group_seq_axioms;

/// Why installing a term definition failed.
#[derive(Clone, Copy, Debug, PartialEq, Eq, Structural)]
pub enum TermCreationError {
    CyclicIRIMapping,
    KeywordRedefinition,
    InvalidTermDefinition,
    InvalidIRIMapping,
    InvalidReverseProperty,
    InvalidKeywordAlias,
    InvalidContainerMapping,
    InvalidLanguageMapping,
    InvalidTypeMapping,
}

/// The state threaded through term definition: the active context being
/// built, the residual (not yet drained) members of the local context
/// object, and the per-term define status.
#[verifier::ext_equal]
pub struct DefState {
    pub ctx: ContextSpec,
    pub residual: Seq<(Seq<char>, JsonSpec)>,
    pub defined: Map<Seq<char>, DefineStatus>,
}

/// Definition never grows the residual object; the second arm keeps the
/// termination measure decreasing and is never taken on reachable states.
pub open spec fn bound_residual(prev: DefState, next: DefState) -> DefState {
    if next.residual.len() <= prev.residual.len() {
        next
    } else {
        prev
    }
}

/// The active context `c` with its term map replaced.
pub open spec fn ctx_with_terms(c: ContextSpec, terms: Map<Seq<char>, TermSpec>) -> ContextSpec {
    ContextSpec {
        base_iri: c.base_iri,
        vocabulary_mapping: c.vocabulary_mapping,
        language: c.language,
        terms,
    }
}

/// The placeholder definition installed for a null-valued term.
pub open spec fn placeholder_term(term: Seq<char>) -> TermSpec {
    TermSpec {
        iri_mapping: term,
        type_mapping: None,
        reverse: false,
        container_mapping: None,
        language_mapping: None,
    }
}

/// Index of the first member with key `k`, clamped into range so that a
/// removal at it shrinks the sequence; on every reachable path the index is
/// in range already.
pub open spec fn key_index(s: Seq<(Seq<char>, JsonSpec)>, k: Seq<char>) -> int {
    let i = obj_first_key_index(s, k);
    if 0 <= i < s.len() {
        i
    } else {
        0
    }
}

/// A type mapping must expand to something with a colon, `@id` or `@vocab`.
pub open spec fn valid_type_mapping(r: Seq<char>) -> bool {
    spec_has_char(r, ':') || r == "@id"@ || r == "@vocab"@
}

/// A forward IRI mapping must be a keyword, a blank-node identifier, or an
/// absolute IRI.
pub open spec fn valid_forward_iri(r: Seq<char>) -> bool {
    ||| (r.len() > 0 && r[0] == '@')
    ||| (r.len() >= 2 && r[0] == '_' && r[1] == ':')
    ||| spec_has_substring(r, "://"@)
}

/// The container of a reverse property: only `@set`, `@index` or null.
pub open spec fn spec_reverse_container(map: Seq<(Seq<char>, JsonSpec)>) -> Result<
    Option<Seq<char>>,
    TermCreationError,
> {
    if obj_has_key(map, "@container"@) {
        match map[key_index(map, "@container"@)].1 {
            JsonSpec::Str(s) => if s == "@set"@ || s == "@index"@ {
                Ok(Some(s))
            } else {
                Err(TermCreationError::InvalidReverseProperty)
            },
            JsonSpec::Null => Ok(None),
            _ => Err(TermCreationError::InvalidReverseProperty),
        }
    } else {
        Ok(None)
    }
}

/// The container of a forward property: `@list`, `@set`, `@index` or
/// `@language`.
pub open spec fn spec_forward_container(map: Seq<(Seq<char>, JsonSpec)>) -> Result<
    Option<Seq<char>>,
    TermCreationError,
> {
    if obj_has_key(map, "@container"@) {
        match map[key_index(map, "@container"@)].1 {
            JsonSpec::Str(s) => if s == "@list"@ || s == "@set"@ || s == "@index"@ || s
                == "@language"@ {
                Ok(Some(s))
            } else {
                Err(TermCreationError::InvalidContainerMapping)
            },
            _ => Err(TermCreationError::InvalidContainerMapping),
        }
    } else {
        Ok(None)
    }
}

/// The language mapping: considered only without a type mapping; a string
/// is lowercased, null becomes the `@null` sentinel.
pub open spec fn spec_language_step(
    map: Seq<(Seq<char>, JsonSpec)>,
    type_mapping: Option<Seq<char>>,
) -> Result<Option<Seq<char>>, TermCreationError> {
    if type_mapping is Some {
        Ok(None)
    } else if obj_has_key(map, "@language"@) {
        match map[key_index(map, "@language"@)].1 {
            JsonSpec::Str(s) => Ok(Some(lower_of(s))),
            JsonSpec::Null => Ok(Some("@null"@)),
            _ => Err(TermCreationError::InvalidLanguageMapping),
        }
    } else {
        Ok(None)
    }
}

/// `st` with `t` installed for `term` and `term` marked `Defined`.
pub open spec fn install_term(st: DefState, term: Seq<char>, t: TermSpec) -> DefState {
    DefState {
        ctx: ctx_with_terms(st.ctx, st.ctx.terms.insert(term, t)),
        residual: st.residual,
        defined: st.defined.insert(term, DefineStatus::Defined),
    }
}

/// What the mutating IRI expansion returns and how it advances the state:
/// the precedence of `spec_expand_iri`, except that an unprocessed local
/// context key named by the value or by its prefix is defined first, and a
/// reference to a name whose definition is still in progress is a cycle.
/// An error carries the state at the point of failure.
pub open spec fn spec_expand_iri_mut(
    st: DefState,
    val: Seq<char>,
    document_relative: bool,
    vocab: bool,
) -> Result<(Seq<char>, DefState), (TermCreationError, DefState)>
    decreases st.residual.len(), 0int,
{
    let step2 = if val.len() > 0 && val[0] == '@' {
        Ok(st)
    } else if st.defined.contains_key(val) && st.defined[val] == DefineStatus::Defining {
        Err((TermCreationError::CyclicIRIMapping, st))
    } else if obj_has_key(st.residual, val) && !st.defined.contains_key(val) {
        let i = key_index(st.residual, val);
        let value = st.residual[i].1;
        let stx = DefState {
            ctx: st.ctx,
            residual: st.residual.remove(i),
            defined: st.defined,
        };
        spec_create_term(stx, val, value)
    } else {
        Ok(st)
    };
    match step2 {
        Err(e) => Err(e),
        Ok(sta) => {
            let st1 = bound_residual(st, sta);
            if vocab && st1.ctx.terms.contains_key(val) {
                Ok((st1.ctx.terms[val].iri_mapping, st1))
            } else if val.len() > 0 && val[0] == '@' {
                Ok((val, st1))
            } else if spec_has_substring(val, "://"@) {
                Ok((val, st1))
            } else {
                match val.index_of_first(':') {
                    Some(loc) => {
                        let prefix = val.subrange(0, loc);
                        let suffix = val.subrange(loc + 1, val.len() as int);
                        if prefix == "_"@ || (suffix.len() >= 2 && suffix[0] == '/'
                            && suffix[1] == '/') {
                            Ok((val, st1))
                        } else {
                            let step4 = if st1.defined.contains_key(prefix) && st1.defined[prefix]
                                == DefineStatus::Defining {
                                Err((TermCreationError::CyclicIRIMapping, st1))
                            } else if obj_has_key(st1.residual, prefix)
                                && !st1.defined.contains_key(prefix) {
                                let i = key_index(st1.residual, prefix);
                                let value = st1.residual[i].1;
                                let stx = DefState {
                                    ctx: st1.ctx,
                                    residual: st1.residual.remove(i),
                                    defined: st1.defined,
                                };
                                spec_create_term(stx, prefix, value)
                            } else {
                                Ok(st1)
                            };
                            match step4 {
                                Err(e) => Err(e),
                                Ok(stb) => {
                                    let st2 = bound_residual(st1, stb);
                                    if st2.ctx.terms.contains_key(prefix) {
                                        Ok((st2.ctx.terms[prefix].iri_mapping + suffix, st2))
                                    } else {
                                        Ok((val, st2))
                                    }
                                },
                            }
                        }
                    },
                    None => {
                        if vocab && st1.ctx.vocabulary_mapping is Some {
                            Ok((st1.ctx.vocabulary_mapping.unwrap() + val, st1))
                        } else if document_relative && st1.ctx.base_iri is Some {
                            match crate::iri::resolve_iri_of(st1.ctx.base_iri.unwrap(), val) {
                                Some(r) => Ok((r, st1)),
                                None => Ok((val, st1)),
                            }
                        } else {
                            Ok((val, st1))
                        }
                    },
                }
            }
        },
    }
}

/// What installing `term` from its raw value does to the state, or which
/// error it raises and in which state: prologue (cycle detection, keyword
/// guard), value normalization, type mapping, then the reverse or the
/// forward branch.
pub open spec fn spec_create_term(st: DefState, term: Seq<char>, value: JsonSpec) -> Result<
    DefState,
    (TermCreationError, DefState),
>
    decreases st.residual.len(), 3int,
{
    if st.defined.contains_key(term) {
        if st.defined[term] == DefineStatus::Defining {
            Err((TermCreationError::CyclicIRIMapping, st))
        } else {
            Ok(st)
        }
    } else {
        let std = DefState {
            ctx: st.ctx,
            residual: st.residual,
            defined: st.defined.insert(term, DefineStatus::Defining),
        };
        if spec_is_keyword(term) {
            Err((TermCreationError::KeywordRedefinition, std))
        } else {
            let st0 = DefState {
                ctx: ctx_with_terms(std.ctx, std.ctx.terms.remove(term)),
                residual: std.residual,
                defined: std.defined,
            };
            let norm = if value is Str {
                JsonSpec::Object(seq![("@id"@, value)])
            } else {
                value
            };
            match norm {
                JsonSpec::Null => Ok(
                    DefState {
                        ctx: ctx_with_terms(
                            st0.ctx,
                            st0.ctx.terms.insert(term, placeholder_term(term)),
                        ),
                        residual: st0.residual,
                        defined: st0.defined,
                    },
                ),
                JsonSpec::Object(map0) => spec_create_term_obj(st0, term, map0),
                _ => Err((TermCreationError::InvalidTermDefinition, st0)),
            }
        }
    }
}

/// The object case of term creation, after the prologue.
pub open spec fn spec_create_term_obj(
    st0: DefState,
    term: Seq<char>,
    map0: Seq<(Seq<char>, JsonSpec)>,
) -> Result<DefState, (TermCreationError, DefState)>
    decreases st0.residual.len(), 2int,
{
    let type_step = if obj_has_key(map0, "@type"@) {
        let map1 = map0.remove(key_index(map0, "@type"@));
        match map0[key_index(map0, "@type"@)].1 {
            JsonSpec::Str(ts) => match spec_expand_iri_mut(st0, ts, false, true) {
                Ok((res, stx)) => if valid_type_mapping(res) {
                    Ok((Some(res), map1, bound_residual(st0, stx)))
                } else {
                    Err((TermCreationError::InvalidTypeMapping, stx))
                },
                Err(e) => Err(e),
            },
            _ => Err((TermCreationError::InvalidTypeMapping, st0)),
        }
    } else {
        Ok((None::<Seq<char>>, map0, st0))
    };
    match type_step {
        Err(e) => Err(e),
        Ok((type_mapping, map1, st1)) => {
            if obj_has_key(map1, "@reverse"@) {
                let map2 = map1.remove(key_index(map1, "@reverse"@));
                let rval = map1[key_index(map1, "@reverse"@)].1;
                if obj_has_key(map2, "@id"@) {
                    Err((TermCreationError::InvalidReverseProperty, st1))
                } else {
                    match rval {
                        JsonSpec::Str(rs) => match spec_expand_iri_mut(st1, rs, false, true) {
                            Ok((res, stx)) => if spec_has_char(res, ':') {
                                match spec_reverse_container(map2) {
                                    Ok(container) => Ok(
                                        install_term(
                                            bound_residual(st1, stx),
                                            term,
                                            TermSpec {
                                                iri_mapping: res,
                                                type_mapping,
                                                reverse: true,
                                                container_mapping: container,
                                                language_mapping: None,
                                            },
                                        ),
                                    ),
                                    Err(e) => Err((e, stx)),
                                }
                            } else {
                                Err((TermCreationError::InvalidIRIMapping, stx))
                            },
                            Err(e) => Err(e),
                        },
                        _ => Err((TermCreationError::InvalidIRIMapping, st1)),
                    }
                }
            } else {
                spec_create_term_forward(st1, term, map1, type_mapping)
            }
        },
    }
}

/// The forward branch: derive the IRI mapping from `@id`, from the term's
/// own prefix, or from the vocabulary mapping, then container and language.
pub open spec fn spec_create_term_forward(
    st1: DefState,
    term: Seq<char>,
    map1: Seq<(Seq<char>, JsonSpec)>,
    type_mapping: Option<Seq<char>>,
) -> Result<DefState, (TermCreationError, DefState)>
    decreases st1.residual.len(), 1int,
{
    let id_step = if obj_has_key(map1, "@id"@) {
        let map2 = map1.remove(key_index(map1, "@id"@));
        match map1[key_index(map1, "@id"@)].1 {
            JsonSpec::Str(is) => if is == term {
                Ok((None::<Seq<char>>, map2, st1))
            } else {
                match spec_expand_iri_mut(st1, is, false, true) {
                    Ok((expanded, stx)) => if expanded == "@context"@ {
                        Err((TermCreationError::InvalidKeywordAlias, stx))
                    } else if !valid_forward_iri(expanded) {
                        Err((TermCreationError::InvalidIRIMapping, stx))
                    } else {
                        Ok((Some(expanded), map2, bound_residual(st1, stx)))
                    },
                    Err(e) => Err(e),
                }
            },
            JsonSpec::Null => Ok((Some(term), map2, st1)),
            _ => Err((TermCreationError::InvalidIRIMapping, st1)),
        }
    } else {
        Ok((None::<Seq<char>>, map1, st1))
    };
    match id_step {
        Err(e) => Err(e),
        Ok((iri0, map2, st2)) => {
            let step14 = if iri0 is None && val_has_colon(term) {
                let loc = term.index_of_first(':').unwrap();
                let first = term.subrange(0, loc);
                let second = term.subrange(loc + 1, term.len() as int);
                let r141 = if st2.defined.contains_key(first) && st2.defined[first]
                    == DefineStatus::Defining {
                    Err((TermCreationError::CyclicIRIMapping, st2))
                } else if obj_has_key(st2.residual, first) {
                    let i = key_index(st2.residual, first);
                    let fval = st2.residual[i].1;
                    let stx = DefState {
                        ctx: st2.ctx,
                        residual: st2.residual.remove(i),
                        defined: st2.defined,
                    };
                    spec_create_term(stx, first, fval)
                } else {
                    Ok(st2)
                };
                match r141 {
                    Err(e) => Err(e),
                    Ok(sty) => {
                        let st3 = bound_residual(st2, sty);
                        if st3.ctx.terms.contains_key(first) {
                            Ok((Some(st3.ctx.terms[first].iri_mapping + second), st3))
                        } else {
                            Ok((Some(term), st3))
                        }
                    },
                }
            } else {
                Ok((iri0, st2))
            };
            match step14 {
                Err(e) => Err(e),
                Ok((iri1, st3)) => {
                    let iri_step = if iri1 is None {
                        if st3.ctx.vocabulary_mapping is Some {
                            Ok(st3.ctx.vocabulary_mapping.unwrap() + term)
                        } else {
                            Err((TermCreationError::InvalidIRIMapping, st3))
                        }
                    } else {
                        Ok(iri1.unwrap())
                    };
                    match iri_step {
                        Err(e) => Err(e),
                        Ok(iri) => match spec_forward_container(map2) {
                            Err(e) => Err((e, st3)),
                            Ok(container) => {
                                let map3 = if obj_has_key(map2, "@container"@) {
                                    map2.remove(key_index(map2, "@container"@))
                                } else {
                                    map2
                                };
                                match spec_language_step(map3, type_mapping) {
                                Err(e) => Err((e, st3)),
                                Ok(language) => Ok(
                                    install_term(
                                        st3,
                                        term,
                                        TermSpec {
                                            iri_mapping: iri,
                                            type_mapping,
                                            reverse: false,
                                            container_mapping: container,
                                            language_mapping: language,
                                        },
                                    ),
                                ),
                                }
                            },
                        },
                    }
                },
            }
        },
    }
}

/// True iff the first colon search succeeds.
pub open spec fn val_has_colon(s: Seq<char>) -> bool {
    s.index_of_first(':') is Some
}

impl Context {
    /// Mutating-mode IRI expansion: as `expand_iri`, but a value or prefix
    /// that is still an unprocessed key of the local context object is
    /// defined first, and a reference to a name whose definition is still
    /// in progress fails as a cycle.
    #[verifier::rlimit(100)]
    pub(crate) fn expand_iri_mut(
        &mut self,
        val: &str,
        document_relative: bool,
        vocab: bool,
        defined: &mut StrMap<DefineStatus>,
        context: &mut Vec<(String, JsonValue)>,
    ) -> (r: Result<String, TermCreationError>)
        requires
            old(self).wf(),
            old(defined).wf(),
        ensures
            final(self).wf(),
            final(defined).wf(),
            view_obj_seq(final(context)@).len() <= view_obj_seq(old(context)@).len(),
            ctx_terms_wf(old(self)@) ==> ctx_terms_wf(final(self)@),
            ({
                let pre = DefState {
                    ctx: old(self)@,
                    residual: view_obj_seq(old(context)@),
                    defined: old(defined)@,
                };
                let post = DefState {
                    ctx: final(self)@,
                    residual: view_obj_seq(final(context)@),
                    defined: final(defined)@,
                };
                match r {
                    Ok(s) => spec_expand_iri_mut(pre, val@, document_relative, vocab) == Ok::<
                        (Seq<char>, DefState),
                        (TermCreationError, DefState),
                    >((s@, post)),
                    Err(e) => spec_expand_iri_mut(pre, val@, document_relative, vocab) == Err::<
                        (Seq<char>, DefState),
                        (TermCreationError, DefState),
                    >((e, post)),
                }
            }),
        decreases view_obj_seq(context@).len(), 0int,
    {
        let ghost pre = DefState {
            ctx: self@,
            residual: view_obj_seq(context@),
            defined: defined@,
        };
        let is_at = starts_with_char(val, '@');
        if !is_at {
            if let Some(stat) = defined.get(val) {
                if *stat == DefineStatus::Defining {
                    return Err(TermCreationError::CyclicIRIMapping);
                }
            }
            if !defined.contains_key(val) {
                proof {
                    if obj_has_key(view_obj_seq(context@), val@) {
                        lemma_obj_first_key(view_obj_seq(context@), val@);
                    }
                }
                match obj_take(context, val) {
                    Some(unwrapped) => {
                        if let Err(e) = self.create_term(context, val, unwrapped, defined) {
                            return Err(e);
                        }
                    },
                    None => {},
                }
            }
        }
        let ghost st1 = DefState {
            ctx: self@,
            residual: view_obj_seq(context@),
            defined: defined@,
        };
        proof {
            assert(spec_expand_iri_mut(pre, val@, document_relative, vocab) == ({
                if vocab && st1.ctx.terms.contains_key(val@) {
                    Ok::<(Seq<char>, DefState), (TermCreationError, DefState)>(
                        (st1.ctx.terms[val@].iri_mapping, st1),
                    )
                } else if val@.len() > 0 && val@[0] == '@' {
                    Ok((val@, st1))
                } else if spec_has_substring(val@, "://"@) {
                    Ok((val@, st1))
                } else {
                    match val@.index_of_first(':') {
                        Some(loc) => {
                            let prefix = val@.subrange(0, loc);
                            let suffix = val@.subrange(loc + 1, val@.len() as int);
                            if prefix == "_"@ || (suffix.len() >= 2 && suffix[0] == '/'
                                && suffix[1] == '/') {
                                Ok((val@, st1))
                            } else {
                                let step4 = if st1.defined.contains_key(prefix)
                                    && st1.defined[prefix] == DefineStatus::Defining {
                                    Err((TermCreationError::CyclicIRIMapping, st1))
                                } else if obj_has_key(st1.residual, prefix)
                                    && !st1.defined.contains_key(prefix) {
                                    let i = key_index(st1.residual, prefix);
                                    let value = st1.residual[i].1;
                                    let stx = DefState {
                                        ctx: st1.ctx,
                                        residual: st1.residual.remove(i),
                                        defined: st1.defined,
                                    };
                                    spec_create_term(stx, prefix, value)
                                } else {
                                    Ok(st1)
                                };
                                match step4 {
                                    Err(e) => Err(e),
                                    Ok(stb) => {
                                        let st2 = bound_residual(st1, stb);
                                        if st2.ctx.terms.contains_key(prefix) {
                                            Ok((st2.ctx.terms[prefix].iri_mapping + suffix, st2))
                                        } else {
                                            Ok((val@, st2))
                                        }
                                    },
                                }
                            }
                        },
                        None => {
                            if vocab && st1.ctx.vocabulary_mapping is Some {
                                Ok((st1.ctx.vocabulary_mapping.unwrap() + val@, st1))
                            } else if document_relative && st1.ctx.base_iri is Some {
                                match crate::iri::resolve_iri_of(st1.ctx.base_iri.unwrap(), val@) {
                                    Some(r) => Ok((r, st1)),
                                    None => Ok((val@, st1)),
                                }
                            } else {
                                Ok((val@, st1))
                            }
                        },
                    }
                }
            }));
        }
        if vocab {
            if let Some(t) = self.terms.get(val) {
                return Ok(t.iri_mapping.clone());
            }
        }
        if is_at {
            return Ok(val.to_owned());
        }
        if has_substring(val, "://") {
            return Ok(val.to_owned());
        }
        proof {
            val@.index_of_first_ensures(':');
        }
        match find_char(val, ':') {
            Some(loc) => {
                let len = val.unicode_len();
                let prefix = val.substring_char(0, loc);
                let suffix = val.substring_char(loc + 1, len);
                if str_eq(prefix, "_") || starts_with_two(suffix, '/', '/') {
                    Ok(val.to_owned())
                } else {
                    if let Some(stat) = defined.get(prefix) {
                        if *stat == DefineStatus::Defining {
                            return Err(TermCreationError::CyclicIRIMapping);
                        }
                    }
                    if !defined.contains_key(prefix) {
                        proof {
                            if obj_has_key(view_obj_seq(context@), prefix@) {
                                lemma_obj_first_key(view_obj_seq(context@), prefix@);
                            }
                        }
                        match obj_take(context, prefix) {
                            Some(unwrapped) => {
                                if let Err(e) = self.create_term(
                                    context,
                                    prefix,
                                    unwrapped,
                                    defined,
                                ) {
                                    return Err(e);
                                }
                            },
                            None => {},
                        }
                    }
                    match self.terms.get(prefix) {
                        Some(t) => {
                            let mut out = t.iri_mapping.clone();
                            out.append(suffix);
                            Ok(out)
                        },
                        None => Ok(val.to_owned()),
                    }
                }
            },
            None => {
                if vocab && self.vocabulary_mapping.is_some() {
                    let mut out = self.vocabulary_mapping.as_ref().unwrap().clone();
                    out.append(val);
                    Ok(out)
                } else if document_relative && self.base_iri.is_some() {
                    match crate::iri::resolve_iri(self.base_iri.as_ref().unwrap().as_str(), val) {
                        Some(r) => Ok(r),
                        None => Ok(val.to_owned()),
                    }
                } else {
                    Ok(val.to_owned())
                }
            },
        }
    }

    /// Installs `term` from its raw JSON `value`, defining other residual
    /// keys on demand; idempotent once a term is `Defined`, and rejecting
    /// cycles through `Defining`.
    #[verifier::rlimit(100)]
    pub(crate) fn create_term(
        &mut self,
        context: &mut Vec<(String, JsonValue)>,
        term: &str,
        value: JsonValue,
        defined: &mut StrMap<DefineStatus>,
    ) -> (r: Result<(), TermCreationError>)
        requires
            old(self).wf(),
            old(defined).wf(),
        ensures
            final(self).wf(),
            final(defined).wf(),
            view_obj_seq(final(context)@).len() <= view_obj_seq(old(context)@).len(),
            ctx_terms_wf(old(self)@) ==> ctx_terms_wf(final(self)@),
            ({
                let pre = DefState {
                    ctx: old(self)@,
                    residual: view_obj_seq(old(context)@),
                    defined: old(defined)@,
                };
                let post = DefState {
                    ctx: final(self)@,
                    residual: view_obj_seq(final(context)@),
                    defined: final(defined)@,
                };
                match r {
                    Ok(u) => spec_create_term(pre, term@, value@) == Ok::<
                        DefState,
                        (TermCreationError, DefState),
                    >(post),
                    Err(e) => spec_create_term(pre, term@, value@) == Err::<
                        DefState,
                        (TermCreationError, DefState),
                    >((e, post)),
                }
            }),
        decreases view_obj_seq(context@).len(), 3int,
    {
        let ghost pre = DefState {
            ctx: self@,
            residual: view_obj_seq(context@),
            defined: defined@,
        };
        if let Some(stat) = defined.get(term) {
            return match stat {
                DefineStatus::Defining => {
                    proof {
                        assert(DefState {
                            ctx: self@,
                            residual: view_obj_seq(context@),
                            defined: defined@,
                        } =~= pre);
                    }
                    Err(TermCreationError::CyclicIRIMapping)
                },
                DefineStatus::Defined => {
                    proof {
                        assert(DefState {
                            ctx: self@,
                            residual: view_obj_seq(context@),
                            defined: defined@,
                        } =~= pre);
                    }
                    Ok(())
                },
            };
        }
        defined.insert(term.to_owned(), DefineStatus::Defining);
        if is_keyword(term) {
            proof {
                assert(DefState {
                    ctx: self@,
                    residual: view_obj_seq(context@),
                    defined: defined@,
                } =~= DefState {
                    ctx: pre.ctx,
                    residual: pre.residual,
                    defined: pre.defined.insert(term@, DefineStatus::Defining),
                });
            }
            return Err(TermCreationError::KeywordRedefinition);
        }
        self.terms.remove(term);
        proof {
            if ctx_terms_wf(pre.ctx) {
                assert forall|k: Seq<char>| self@.terms.contains_key(k) implies term_wf(
                    #[trigger] self@.terms[k],
                ) && !spec_is_keyword(k) by {
                    assert(pre.ctx.terms.contains_key(k) && pre.ctx.terms[k] == self@.terms[k]);
                }
                assert(ctx_terms_wf(self@));
            }
        }
        let ghost st0 = DefState {
            ctx: self@,
            residual: view_obj_seq(context@),
            defined: defined@,
        };
        proof {
            assert(st0 =~= DefState {
                ctx: ctx_with_terms(pre.ctx, pre.ctx.terms.remove(term@)),
                residual: pre.residual,
                defined: pre.defined.insert(term@, DefineStatus::Defining),
            });
        }
        let ghost orig = value@;
        let norm_value = match value {
            JsonValue::String(s) => {
                let ghost sv = s@;
                let mut m: Vec<(String, JsonValue)> = Vec::new();
                m.push((String::from_str("@id"), JsonValue::String(s)));
                let v = JsonValue::Object(m);
                proof {
                    lemma_view_obj_seq(m@);
                    assert(m@.len() == 1);
                    assert(view_obj_seq(m@)[0] == (m@[0].0@, m@[0].1@));
                    assert(m@[0].0@ == "@id"@);
                    assert(m@[0].1@ == JsonSpec::Str(sv));
                    assert(view_obj_seq(m@) =~= seq![("@id"@, JsonSpec::Str(sv))]);
                    assert(v@ == JsonSpec::Object(seq![("@id"@, JsonSpec::Str(sv))]));
                }
                v
            },
            v => v,
        };
        proof {
            if orig is Str {
                assert(norm_value@ == JsonSpec::Object(seq![("@id"@, orig)]));
            } else {
                assert(norm_value@ == orig);
            }
        }
        match norm_value {
            JsonValue::Null => {
                self.terms.insert(
                    term.to_owned(),
                    Term {
                        iri_mapping: term.to_owned(),
                        type_mapping: None,
                        reverse: false,
                        container_mapping: None,
                        language_mapping: None,
                    },
                );
                proof {
                    assert(DefState {
                        ctx: self@,
                        residual: view_obj_seq(context@),
                        defined: defined@,
                    } =~= DefState {
                        ctx: ctx_with_terms(
                            st0.ctx,
                            st0.ctx.terms.insert(term@, placeholder_term(term@)),
                        ),
                        residual: st0.residual,
                        defined: st0.defined,
                    });
                    if ctx_terms_wf(pre.ctx) {
                        assert forall|k: Seq<char>| self@.terms.contains_key(k) implies term_wf(
                            #[trigger] self@.terms[k],
                        ) && !spec_is_keyword(k) by {
                            if k != term@ {
                                assert(st0.ctx.terms.contains_key(k) && st0.ctx.terms[k]
                                    == self@.terms[k]);
                            }
                        }
                    }
                }
                Ok(())
            },
            JsonValue::Object(mut map) => self.create_term_obj(context, term, &mut map, defined),
            _ => Err(TermCreationError::InvalidTermDefinition),
        }
    }

    /// The object case of term creation: type mapping first, then the
    /// reverse or the forward branch.
    #[verifier::rlimit(100)]
    fn create_term_obj(
        &mut self,
        context: &mut Vec<(String, JsonValue)>,
        term: &str,
        map: &mut Vec<(String, JsonValue)>,
        defined: &mut StrMap<DefineStatus>,
    ) -> (r: Result<(), TermCreationError>)
        requires
            old(self).wf(),
            old(defined).wf(),
            !spec_is_keyword(term@),
        ensures
            final(self).wf(),
            final(defined).wf(),
            view_obj_seq(final(context)@).len() <= view_obj_seq(old(context)@).len(),
            ctx_terms_wf(old(self)@) ==> ctx_terms_wf(final(self)@),
            ({
                let st0 = DefState {
                    ctx: old(self)@,
                    residual: view_obj_seq(old(context)@),
                    defined: old(defined)@,
                };
                let post = DefState {
                    ctx: final(self)@,
                    residual: view_obj_seq(final(context)@),
                    defined: final(defined)@,
                };
                match r {
                    Ok(u) => spec_create_term_obj(st0, term@, view_obj_seq(old(map)@)) == Ok::<
                        DefState,
                        (TermCreationError, DefState),
                    >(post),
                    Err(e) => spec_create_term_obj(st0, term@, view_obj_seq(old(map)@)) == Err::<
                        DefState,
                        (TermCreationError, DefState),
                    >((e, post)),
                }
            }),
        decreases view_obj_seq(context@).len(), 2int,
    {
        let ghost st0 = DefState {
            ctx: self@,
            residual: view_obj_seq(context@),
            defined: defined@,
        };
        let ghost map0 = view_obj_seq(map@);
        proof {
            if obj_has_key(map0, "@type"@) {
                lemma_obj_first_key(map0, "@type"@);
            }
        }
        let type_mapping: Option<String> = match obj_take(map, "@type") {
            Some(JsonValue::String(ts)) => {
                match self.expand_iri_mut(ts.as_str(), false, true, defined, context) {
                    Ok(res) => {
                        let ok_type = has_char(res.as_str(), ':') || str_eq(res.as_str(), "@id")
                            || str_eq(res.as_str(), "@vocab");
                        if !ok_type {
                            return Err(TermCreationError::InvalidTypeMapping);
                        }
                        Some(res)
                    },
                    Err(e) => {
                        return Err(e);
                    },
                }
            },
            Some(_) => {
                return Err(TermCreationError::InvalidTypeMapping);
            },
            None => None,
        };
        let ghost st1 = DefState {
            ctx: self@,
            residual: view_obj_seq(context@),
            defined: defined@,
        };
        let ghost map1 = view_obj_seq(map@);
        proof {
            if obj_has_key(map1, "@reverse"@) {
                lemma_obj_first_key(map1, "@reverse"@);
            }
        }
        match obj_take(map, "@reverse") {
            Some(rval) => {
                if obj_contains_key(map, "@id") {
                    return Err(TermCreationError::InvalidReverseProperty);
                }
                match rval {
                    JsonValue::String(rs) => {
                        match self.expand_iri_mut(rs.as_str(), false, true, defined, context) {
                            Ok(res) => {
                                if !has_char(res.as_str(), ':') {
                                    return Err(TermCreationError::InvalidIRIMapping);
                                }
                                let ghost map2 = view_obj_seq(map@);
                                proof {
                                    if obj_has_key(map2, "@container"@) {
                                        lemma_obj_first_key(map2, "@container"@);
                                    }
                                }
                                let container: Option<String> = match obj_take(map, "@container") {
                                    Some(JsonValue::String(cs)) => {
                                        if str_eq(cs.as_str(), "@set") || str_eq(
                                            cs.as_str(),
                                            "@index",
                                        ) {
                                            Some(cs)
                                        } else {
                                            return Err(TermCreationError::InvalidReverseProperty);
                                        }
                                    },
                                    Some(JsonValue::Null) => None,
                                    Some(_) => {
                                        return Err(TermCreationError::InvalidReverseProperty);
                                    },
                                    None => None,
                                };
                                defined.insert(term.to_owned(), DefineStatus::Defined);
                                let ghost mid = self@;
                                self.terms.insert(
                                    term.to_owned(),
                                    Term {
                                        iri_mapping: res,
                                        type_mapping,
                                        reverse: true,
                                        container_mapping: container,
                                        language_mapping: None,
                                    },
                                );
                                proof {
                                    if ctx_terms_wf(old(self)@) {
                                        assert forall|k: Seq<char>|
                                            self@.terms.contains_key(k) implies term_wf(
                                            #[trigger] self@.terms[k],
                                        ) && !spec_is_keyword(k) by {
                                            if k != term@ {
                                                assert(mid.terms.contains_key(k) && mid.terms[k]
                                                    == self@.terms[k]);
                                            }
                                        }
                                    }
                                }
                                Ok(())
                            },
                            Err(e) => Err(e),
                        }
                    },
                    _ => Err(TermCreationError::InvalidIRIMapping),
                }
            },
            None => self.create_term_forward(context, term, map, defined, type_mapping),
        }
    }

    /// The forward branch: derive the IRI mapping, then the container and
    /// language mappings, and install the term.
    #[verifier::rlimit(100)]
    fn create_term_forward(
        &mut self,
        context: &mut Vec<(String, JsonValue)>,
        term: &str,
        map: &mut Vec<(String, JsonValue)>,
        defined: &mut StrMap<DefineStatus>,
        type_mapping: Option<String>,
    ) -> (r: Result<(), TermCreationError>)
        requires
            old(self).wf(),
            old(defined).wf(),
            !spec_is_keyword(term@),
        ensures
            final(self).wf(),
            final(defined).wf(),
            view_obj_seq(final(context)@).len() <= view_obj_seq(old(context)@).len(),
            ctx_terms_wf(old(self)@) ==> ctx_terms_wf(final(self)@),
            ({
                let st1 = DefState {
                    ctx: old(self)@,
                    residual: view_obj_seq(old(context)@),
                    defined: old(defined)@,
                };
                let post = DefState {
                    ctx: final(self)@,
                    residual: view_obj_seq(final(context)@),
                    defined: final(defined)@,
                };
                match r {
                    Ok(u) => spec_create_term_forward(
                        st1,
                        term@,
                        view_obj_seq(old(map)@),
                        type_mapping.deep_view(),
                    ) == Ok::<DefState, (TermCreationError, DefState)>(post),
                    Err(e) => spec_create_term_forward(
                        st1,
                        term@,
                        view_obj_seq(old(map)@),
                        type_mapping.deep_view(),
                    ) == Err::<DefState, (TermCreationError, DefState)>((e, post)),
                }
            }),
        decreases view_obj_seq(context@).len(), 1int,
    {
        let ghost st1 = DefState {
            ctx: self@,
            residual: view_obj_seq(context@),
            defined: defined@,
        };
        let ghost map1 = view_obj_seq(map@);
        proof {
            if obj_has_key(map1, "@id"@) {
                lemma_obj_first_key(map1, "@id"@);
            }
        }
        let iri0: Option<String> = match obj_take(map, "@id") {
            Some(JsonValue::String(is)) => {
                if str_eq(is.as_str(), term) {
                    None
                } else {
                    match self.expand_iri_mut(is.as_str(), false, true, defined, context) {
                        Ok(expanded) => {
                            if str_eq(expanded.as_str(), "@context") {
                                return Err(TermCreationError::InvalidKeywordAlias);
                            }
                            let ok_iri = starts_with_char(expanded.as_str(), '@')
                                || starts_with_two(expanded.as_str(), '_', ':') || has_substring(
                                expanded.as_str(),
                                "://",
                            );
                            if !ok_iri {
                                return Err(TermCreationError::InvalidIRIMapping);
                            }
                            Some(expanded)
                        },
                        Err(e) => {
                            return Err(e);
                        },
                    }
                }
            },
            Some(JsonValue::Null) => Some(term.to_owned()),
            Some(_) => {
                return Err(TermCreationError::InvalidIRIMapping);
            },
            None => None,
        };
        let ghost st2 = DefState {
            ctx: self@,
            residual: view_obj_seq(context@),
            defined: defined@,
        };
        proof {
            term@.index_of_first_ensures(':');
        }
        let iri1: Option<String> = if iri0.is_none() {
            match find_char(term, ':') {
                Some(loc) => {
                    let len = term.unicode_len();
                    let first_part = term.substring_char(0, loc);
                    let second_part = term.substring_char(loc + 1, len);
                    if let Some(stat) = defined.get(first_part) {
                        if *stat == DefineStatus::Defining {
                            return Err(TermCreationError::CyclicIRIMapping);
                        }
                    }
                    proof {
                        if obj_has_key(view_obj_seq(context@), first_part@) {
                            lemma_obj_first_key(view_obj_seq(context@), first_part@);
                        }
                    }
                    match obj_take(context, first_part) {
                        Some(fval) => {
                            if let Err(e) = self.create_term(context, first_part, fval, defined) {
                                return Err(e);
                            }
                        },
                        None => {},
                    }
                    match self.terms.get(first_part) {
                        Some(ft) => {
                            let mut nm = ft.iri_mapping.clone();
                            nm.append(second_part);
                            Some(nm)
                        },
                        None => Some(term.to_owned()),
                    }
                },
                None => None,
            }
        } else {
            iri0
        };
        let ghost st3 = DefState {
            ctx: self@,
            residual: view_obj_seq(context@),
            defined: defined@,
        };
        let iri: String = match iri1 {
            Some(i) => i,
            None => {
                match &self.vocabulary_mapping {
                    Some(v) => {
                        let mut nm = v.clone();
                        nm.append(term);
                        nm
                    },
                    None => {
                        return Err(TermCreationError::InvalidIRIMapping);
                    },
                }
            },
        };
        let ghost map2 = view_obj_seq(map@);
        proof {
            if obj_has_key(map2, "@container"@) {
                lemma_obj_first_key(map2, "@container"@);
            }
        }
        let container: Option<String> = match obj_take(map, "@container") {
            Some(JsonValue::String(cs)) => {
                if str_eq(cs.as_str(), "@list") || str_eq(cs.as_str(), "@set") || str_eq(
                    cs.as_str(),
                    "@index",
                ) || str_eq(cs.as_str(), "@language") {
                    Some(cs)
                } else {
                    return Err(TermCreationError::InvalidContainerMapping);
                }
            },
            Some(_) => {
                return Err(TermCreationError::InvalidContainerMapping);
            },
            None => None,
        };
        proof {
            if obj_has_key(view_obj_seq(map@), "@language"@) {
                lemma_obj_first_key(view_obj_seq(map@), "@language"@);
            }
        }
        let language: Option<String> = if type_mapping.is_some() {
            None
        } else {
            match obj_take(map, "@language") {
                Some(JsonValue::String(ls)) => Some(lowercase(ls.as_str())),
                Some(JsonValue::Null) => Some(String::from_str("@null")),
                Some(_) => {
                    return Err(TermCreationError::InvalidLanguageMapping);
                },
                None => None,
            }
        };
        defined.insert(term.to_owned(), DefineStatus::Defined);
        let ghost mid = self@;
        self.terms.insert(
            term.to_owned(),
            Term {
                iri_mapping: iri,
                type_mapping,
                reverse: false,
                container_mapping: container,
                language_mapping: language,
            },
        );
        proof {
            if ctx_terms_wf(old(self)@) {
                assert forall|k: Seq<char>| self@.terms.contains_key(k) implies term_wf(
                    #[trigger] self@.terms[k],
                ) && !spec_is_keyword(k) by {
                    if k != term@ {
                        assert(mid.terms.contains_key(k) && mid.terms[k] == self@.terms[k]);
                    }
                }
            }
        }
        Ok(())
    }
}

/// Draining the residual local-context object front to back: each member
/// is removed and defined, until none is left or a definition fails.
pub open spec fn spec_drain(st: DefState) -> Result<
    (ContextSpec, Map<Seq<char>, DefineStatus>),
    TermCreationError,
>
    decreases st.residual.len(), 4int,
{
    if st.residual.len() == 0 {
        Ok((st.ctx, st.defined))
    } else {
        let key = st.residual[0].0;
        let value = st.residual[0].1;
        let st1 = DefState {
            ctx: st.ctx,
            residual: st.residual.remove(0),
            defined: st.defined,
        };
        match spec_create_term(st1, key, value) {
            Ok(st2) => spec_drain(bound_residual(st1, st2)),
            Err(e) => Err(e.0),
        }
    }
}

} // verus!
