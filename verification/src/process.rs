//! The context processor: folds a flattened sequence of local contexts
//! (null resets, remote references, inline objects) into an active context,
//! fetching remote contexts through the host's loader and rejecting
//! recursive inclusion.

use vstd::prelude::*;
use vstd::set_lib::lemma_len_subset;
use crate::context::{
    ctx_terms_wf, lemma_assoc_len, Context, ContextSpec, DefineStatus, RemoteStatus,
    RemoteStatusSpec, StrMap,
};
use crate::creation::{key_index, spec_drain, DefState, TermCreationError};
use crate::iri::{lower_of, lowercase, parse_iri, parse_iri_of, resolve_iri, resolve_iri_of};
use crate::json::{
    lemma_obj_first_key, lemma_view_arr_seq, lemma_view_obj_seq, obj_has_key, obj_take,
    view_arr_seq, view_obj_seq, JsonSpec, JsonValue,
};

verus! {

broadcast use vstd::std_specs::vec::group_vec_axioms, vstd::seq::group_seq_axioms;

/// Why building an active context failed.
#[derive(Debug)]
pub enum ContextCreationError {
    InvalidTerm(TermCreationError),
    RemoteContextError(String),
    RemoteContextNoObject,
    RecursiveContextInclusion,
    InvalidBaseIRI,
    InvalidVocabMapping,
    InvalidLanguageMapping,
    InvalidLocalContext,
    TooManyContexts,
}

/// Implemented by consumers of the library to fetch remote JSON-LD
/// contexts; the error text is surfaced verbatim inside
/// `RemoteContextError`. Nothing is assumed of the result.
pub trait RemoteContextLoader {
    fn load_context(url: &str) -> Result<JsonValue, String>;
}

/// The remote-context bookkeeping passed through one processing run.
pub type RemoteContexts = StrMap<RemoteStatus>;

/// The URLs still being processed on the current recursion stack.
pub open spec fn pending_keys(m: Map<Seq<char>, RemoteStatusSpec>) -> Set<Seq<char>> {
    m.dom().filter(|k: Seq<char>| m[k] is Pending)
}

/// Marking a URL pending adds it to the pending set.
pub proof fn lemma_pending_insert_pending(m: Map<Seq<char>, RemoteStatusSpec>, k: Seq<char>)
    ensures
        pending_keys(m.insert(k, RemoteStatusSpec::Pending)) == pending_keys(m).insert(k),
{
    assert(pending_keys(m.insert(k, RemoteStatusSpec::Pending)) =~= pending_keys(m).insert(k));
}

/// Recording a loaded value removes the URL from the pending set.
pub proof fn lemma_pending_insert_loaded(
    m: Map<Seq<char>, RemoteStatusSpec>,
    k: Seq<char>,
    v: JsonSpec,
)
    ensures
        pending_keys(m.insert(k, RemoteStatusSpec::Loaded(v))) == pending_keys(m).remove(k),
{
    assert(pending_keys(m.insert(k, RemoteStatusSpec::Loaded(v))) =~= pending_keys(m).remove(k));
}

/// Termination measure for remote recursion: how many more URLs may be
/// marked pending before the cap is reached.
pub open spec fn remote_measure(m: Map<Seq<char>, RemoteStatusSpec>) -> int {
    if pending_keys(m).len() <= 5 {
        5 - pending_keys(m).len()
    } else {
        0
    }
}

/// Pending URLs are among the recorded ones.
pub proof fn lemma_pending_subset(m: Map<Seq<char>, RemoteStatusSpec>)
    requires
        m.dom().finite(),
    ensures
        pending_keys(m).finite(),
        pending_keys(m).len() <= m.dom().len(),
{
    assert(pending_keys(m).subset_of(m.dom()));
    lemma_len_subset(pending_keys(m), m.dom());
}

/// `c` with another base IRI.
pub open spec fn ctx_with_base(c: ContextSpec, b: Option<Seq<char>>) -> ContextSpec {
    ContextSpec {
        base_iri: b,
        vocabulary_mapping: c.vocabulary_mapping,
        language: c.language,
        terms: c.terms,
    }
}

/// `c` with another vocabulary mapping.
pub open spec fn ctx_with_vocab(c: ContextSpec, v: Option<Seq<char>>) -> ContextSpec {
    ContextSpec {
        base_iri: c.base_iri,
        vocabulary_mapping: v,
        language: c.language,
        terms: c.terms,
    }
}

/// `c` with another default language.
pub open spec fn ctx_with_language(c: ContextSpec, l: Option<Seq<char>>) -> ContextSpec {
    ContextSpec {
        base_iri: c.base_iri,
        vocabulary_mapping: c.vocabulary_mapping,
        language: l,
        terms: c.terms,
    }
}

/// What one inline context object does to the active context: `@base`
/// (honoured only while no remote context is being processed), `@vocab`,
/// `@language`, then a drain of the remaining members through term
/// definition.
pub open spec fn spec_process_object(
    ctx: ContextSpec,
    obj: Seq<(Seq<char>, JsonSpec)>,
    apply_base: bool,
) -> Result<ContextSpec, ContextCreationError> {
    let base_step = if obj_has_key(obj, "@base"@) {
        let bval = obj[key_index(obj, "@base"@)].1;
        let obj1 = obj.remove(key_index(obj, "@base"@));
        if apply_base {
            match bval {
                JsonSpec::Null => Ok((ctx_with_base(ctx, None), obj1)),
                JsonSpec::Str(bs) => match ctx.base_iri {
                    Some(cur) => match resolve_iri_of(cur, bs) {
                        Some(nb) => Ok((ctx_with_base(ctx, Some(nb)), obj1)),
                        None => Err(ContextCreationError::InvalidBaseIRI),
                    },
                    None => match parse_iri_of(bs) {
                        Some(nb) => Ok((ctx_with_base(ctx, Some(nb)), obj1)),
                        None => Err(ContextCreationError::InvalidBaseIRI),
                    },
                },
                _ => Err(ContextCreationError::InvalidBaseIRI),
            }
        } else {
            Ok((ctx, obj1))
        }
    } else {
        Ok((ctx, obj))
    };
    match base_step {
        Err(e) => Err(e),
        Ok((c1, obj1)) => {
            let vocab_step = if obj_has_key(obj1, "@vocab"@) {
                let vval = obj1[key_index(obj1, "@vocab"@)].1;
                let obj2 = obj1.remove(key_index(obj1, "@vocab"@));
                match vval {
                    JsonSpec::Null => Ok((ctx_with_vocab(c1, None), obj2)),
                    JsonSpec::Str(vs) => Ok((ctx_with_vocab(c1, Some(vs)), obj2)),
                    _ => Err(ContextCreationError::InvalidVocabMapping),
                }
            } else {
                Ok((c1, obj1))
            };
            match vocab_step {
                Err(e) => Err(e),
                Ok((c2, obj2)) => {
                    let lang_step = if obj_has_key(obj2, "@language"@) {
                        let lval = obj2[key_index(obj2, "@language"@)].1;
                        let obj3 = obj2.remove(key_index(obj2, "@language"@));
                        match lval {
                            JsonSpec::Null => Ok((ctx_with_language(c2, None), obj3)),
                            JsonSpec::Str(ls) => Ok((ctx_with_language(c2, Some(lower_of(ls))), obj3)),
                            _ => Err(ContextCreationError::InvalidLanguageMapping),
                        }
                    } else {
                        Ok((c2, obj2))
                    };
                    match lang_step {
                        Err(e) => Err(e),
                        Ok((c3, obj3)) => {
                            match spec_drain(
                                DefState { ctx: c3, residual: obj3, defined: Map::empty() },
                            ) {
                                Ok((c4, d)) => Ok(c4),
                                Err(e) => Err(ContextCreationError::InvalidTerm(e)),
                            }
                        },
                    }
                },
            }
        },
    }
}

/// The elements a local context flattens to.
pub open spec fn flatten_elems(j: JsonSpec) -> Seq<JsonSpec> {
    match j {
        JsonSpec::Array(a) => a,
        v => seq![v],
    }
}

/// True iff no element is a remote (string) reference, so that processing
/// never consults the loader.
pub open spec fn no_remote(j: JsonSpec) -> bool {
    forall|i: int| 0 <= i < flatten_elems(j).len() ==> !(#[trigger] flatten_elems(j)[i] is Str)
}

/// Folding the flattened elements over the active context, for loader-free
/// inputs: null resets to a fresh context carrying the caller-supplied
/// base, an object is processed inline, anything else is rejected. The
/// string arm is never reached under `no_remote`.
pub open spec fn spec_process_elems(
    ctx: ContextSpec,
    entry_base: Option<Seq<char>>,
    elems: Seq<JsonSpec>,
    apply_base: bool,
) -> Result<ContextSpec, ContextCreationError>
    decreases elems.len(),
{
    if elems.len() == 0 {
        Ok(ctx)
    } else {
        let step = match elems[0] {
            JsonSpec::Null => Ok(
                ContextSpec {
                    base_iri: entry_base,
                    vocabulary_mapping: None,
                    language: None,
                    terms: Map::empty(),
                },
            ),
            JsonSpec::Object(o) => spec_process_object(ctx, o, apply_base),
            // never reached under `no_remote`; the clause that applies this
            // function guards remote references out
            JsonSpec::Str(s) => Err(ContextCreationError::RemoteContextNoObject),
            _ => Err(ContextCreationError::InvalidLocalContext),
        };
        match step {
            Ok(c2) => spec_process_elems(c2, entry_base, elems.drop_first(), apply_base),
            Err(e) => Err(e),
        }
    }
}

impl Context {
    /// Applies one inline context object: `@base` / `@vocab` / `@language`,
    /// then drains the remaining members through term definition.
    #[verifier::rlimit(100)]
    #[verifier::loop_isolation(false)]
    fn process_object(&mut self, map: &mut Vec<(String, JsonValue)>, apply_base: bool) -> (r:
        Result<(), ContextCreationError>)
        requires
            old(self).wf(),
        ensures
            final(self).wf(),
            ctx_terms_wf(old(self)@) ==> ctx_terms_wf(final(self)@),
            match r {
                Ok(u) => spec_process_object(old(self)@, view_obj_seq(old(map)@), apply_base)
                    == Ok::<ContextSpec, ContextCreationError>(final(self)@),
                Err(e) => spec_process_object(old(self)@, view_obj_seq(old(map)@), apply_base)
                    == Err::<ContextSpec, ContextCreationError>(e),
            },
    {
        let ghost ctx0 = self@;
        let ghost obj0 = view_obj_seq(map@);
        proof {
            if obj_has_key(obj0, "@base"@) {
                lemma_obj_first_key(obj0, "@base"@);
            }
        }
        match obj_take(map, "@base") {
            Some(bval) => {
                if apply_base {
                    match bval {
                        JsonValue::Null => {
                            self.base_iri = None;
                            proof {
                                assert(self@ =~= ctx_with_base(ctx0, None));
                            }
                        },
                        JsonValue::String(bs) => {
                            let nb = match &self.base_iri {
                                Some(cur) => resolve_iri(cur.as_str(), bs.as_str()),
                                None => parse_iri(bs.as_str()),
                            };
                            match nb {
                                Some(u) => {
                                    let ghost uv = u@;
                                    self.base_iri = Some(u);
                                    proof {
                                        assert(self@ =~= ctx_with_base(ctx0, Some(uv)));
                                    }
                                },
                                None => {
                                    return Err(ContextCreationError::InvalidBaseIRI);
                                },
                            }
                        },
                        _ => {
                            return Err(ContextCreationError::InvalidBaseIRI);
                        },
                    }
                }
            },
            None => {},
        }
        let ghost c1 = self@;
        let ghost obj1 = view_obj_seq(map@);
        proof {
            if obj_has_key(obj1, "@vocab"@) {
                lemma_obj_first_key(obj1, "@vocab"@);
            }
        }
        match obj_take(map, "@vocab") {
            Some(JsonValue::Null) => {
                self.vocabulary_mapping = None;
                proof {
                    assert(self@ =~= ctx_with_vocab(c1, None));
                }
            },
            Some(JsonValue::String(vs)) => {
                let ghost vv = vs@;
                self.vocabulary_mapping = Some(vs);
                proof {
                    assert(self@ =~= ctx_with_vocab(c1, Some(vv)));
                }
            },
            Some(_) => {
                return Err(ContextCreationError::InvalidVocabMapping);
            },
            None => {},
        }
        let ghost c2 = self@;
        let ghost obj2 = view_obj_seq(map@);
        proof {
            if obj_has_key(obj2, "@language"@) {
                lemma_obj_first_key(obj2, "@language"@);
            }
        }
        match obj_take(map, "@language") {
            Some(JsonValue::Null) => {
                self.language = None;
                proof {
                    assert(self@ =~= ctx_with_language(c2, None));
                }
            },
            Some(JsonValue::String(ls)) => {
                let ghost lv = ls@;
                self.language = Some(lowercase(ls.as_str()));
                proof {
                    assert(self@ =~= ctx_with_language(c2, Some(lower_of(lv))));
                }
            },
            Some(_) => {
                return Err(ContextCreationError::InvalidLanguageMapping);
            },
            None => {},
        }
        let mut defined: StrMap<DefineStatus> = StrMap::new();
        let ghost drain0 = DefState {
            ctx: self@,
            residual: view_obj_seq(map@),
            defined: defined@,
        };
        proof {
            lemma_view_obj_seq(map@);
            assert(drain0.defined =~= Map::<Seq<char>, DefineStatus>::empty());
            assert(spec_process_object(ctx0, obj0, apply_base) == (match spec_drain(drain0) {
                Ok(p) => Ok::<ContextSpec, ContextCreationError>(p.0),
                Err(e) => Err::<ContextSpec, ContextCreationError>(
                    ContextCreationError::InvalidTerm(e),
                ),
            }));
        }
        while map.len() != 0
            invariant
                self.wf(),
                defined.wf(),
                ctx_terms_wf(old(self)@) ==> ctx_terms_wf(self@),
                spec_drain(
                    DefState { ctx: self@, residual: view_obj_seq(map@), defined: defined@ },
                ) == spec_drain(drain0),
                view_obj_seq(map@).len() == map@.len(),
                spec_process_object(ctx0, obj0, apply_base) == (match spec_drain(drain0) {
                    Ok(p) => Ok::<ContextSpec, ContextCreationError>(p.0),
                    Err(e) => Err::<ContextSpec, ContextCreationError>(
                        ContextCreationError::InvalidTerm(e),
                    ),
                }),
            decreases map@.len(),
        {
            let ghost st_now = DefState {
                ctx: self@,
                residual: view_obj_seq(map@),
                defined: defined@,
            };
            proof {
                lemma_view_obj_seq(map@);
                crate::json::lemma_view_obj_remove(map@, 0);
            }
            let pair = map.remove(0);
            let key = pair.0;
            match self.create_term(map, key.as_str(), pair.1, &mut defined) {
                Ok(u) => {
                    proof {
                        lemma_view_obj_seq(map@);
                        assert(spec_drain(
                            DefState {
                                ctx: self@,
                                residual: view_obj_seq(map@),
                                defined: defined@,
                            },
                        ) == spec_drain(st_now));
                    }
                },
                Err(e) => {
                    proof {
                        assert(spec_drain(st_now) == Err::<
                            (ContextSpec, Map<Seq<char>, DefineStatus>),
                            TermCreationError,
                        >(e));
                        assert(spec_drain(drain0) == Err::<
                            (ContextSpec, Map<Seq<char>, DefineStatus>),
                            TermCreationError,
                        >(e));
                        assert(ctx0 == old(self)@);
                        assert(obj0 == view_obj_seq(old(map)@));
                        assert(spec_process_object(ctx0, obj0, apply_base) == Err::<
                            ContextSpec,
                            ContextCreationError,
                        >(ContextCreationError::InvalidTerm(e)));
                    }
                    return Err(ContextCreationError::InvalidTerm(e));
                },
            }
        }
        proof {
            assert(spec_drain(
                DefState { ctx: self@, residual: view_obj_seq(map@), defined: defined@ },
            ) == Ok::<(ContextSpec, Map<Seq<char>, DefineStatus>), TermCreationError>(
                (self@, defined@),
            ));
        }
        Ok(())
    }

    /// One remote context reference: enforce the outstanding cap, reject a
    /// URL already on the recursion stack, then process the cached or the
    /// freshly loaded `@context` value recursively.
    #[verifier::rlimit(100)]
    fn process_remote<T: RemoteContextLoader>(ctx: Context, val: String, rc: RemoteContexts) -> (r:
        Result<(RemoteContexts, Context), ContextCreationError>)
        requires
            ctx.wf(),
            rc.wf(),
        ensures
            r matches Ok(p) ==> p.0.wf() && p.1.wf() && pending_keys(p.0@) == pending_keys(rc@),
            ctx_terms_wf(ctx@) ==> (r matches Ok(p) ==> ctx_terms_wf(p.1@)),
            rc@.dom().len() > 4 ==> (r matches Err(e) && e is TooManyContexts),
            (rc@.dom().len() <= 4 && rc@.contains_key(val@) && rc@[val@] is Pending) ==> (
            r matches Err(e) && e is RecursiveContextInclusion),
        decreases remote_measure(rc@), 0int,
    {
        let ghost rc0 = rc@;
        let mut rc = rc;
        proof {
            lemma_assoc_len(rc.entry_seq());
            lemma_pending_subset(rc@);
        }
        if rc.len() > 4 {
            return Err(ContextCreationError::TooManyContexts);
        }
        let cached: Option<JsonValue> = match rc.get(val.as_str()) {
            Some(st) => match st {
                RemoteStatus::Pending => {
                    return Err(ContextCreationError::RecursiveContextInclusion);
                },
                RemoteStatus::Loaded(v) => Some(v.duplicate()),
            },
            None => None,
        };
        match cached {
            Some(ctxval) => {
                let stored = ctxval.duplicate();
                proof {
                    lemma_pending_insert_pending(rc@, val@);
                    vstd::set::axiom_set_insert_len(pending_keys(rc@), val@);
                    vstd::set::axiom_set_insert_finite(pending_keys(rc@), val@);
                }
                rc.insert(val.clone(), RemoteStatus::Pending);
                match ctx.process_context::<T>(ctxval, rc) {
                    Err(e) => Err(e),
                    Ok(p) => {
                        let mut rc2 = p.0;
                        proof {
                            lemma_pending_insert_loaded(rc2@, val@, stored@);
                        }
                        rc2.insert(val, RemoteStatus::Loaded(stored));
                        proof {
                            assert(pending_keys(rc2@) =~= pending_keys(rc0));
                        }
                        Ok((rc2, p.1))
                    },
                }
            },
            None => {
                match T::load_context(val.as_str()) {
                    Err(e) => Err(ContextCreationError::RemoteContextError(e)),
                    Ok(dereferenced) => {
                        match dereferenced {
                            JsonValue::Object(mut obj) => {
                                proof {
                                    lemma_pending_insert_pending(rc@, val@);
                                    vstd::set::axiom_set_insert_len(pending_keys(rc@), val@);
                                    vstd::set::axiom_set_insert_finite(pending_keys(rc@), val@);
                                }
                                rc.insert(val.clone(), RemoteStatus::Pending);
                                let context_val: JsonValue = match obj_take(&mut obj, "@context") {
                                    Some(c) => c,
                                    None => JsonValue::Object(Vec::new()),
                                };
                                let stored = context_val.duplicate();
                                match ctx.process_context::<T>(context_val, rc) {
                                    Err(e) => Err(e),
                                    Ok(p) => {
                                        let mut rc2 = p.0;
                                        proof {
                                            lemma_pending_insert_loaded(rc2@, val@, stored@);
                                        }
                                        rc2.insert(val, RemoteStatus::Loaded(stored));
                                        proof {
                                            assert(pending_keys(rc2@) =~= pending_keys(rc0));
                                        }
                                        Ok((rc2, p.1))
                                    },
                                }
                            },
                            _ => Err(ContextCreationError::RemoteContextNoObject),
                        }
                    },
                }
            },
        }
    }

    /// Folds `local_context` into this context: null resets, remote
    /// references through the loader `T` (at most four outstanding, and
    /// never one already on the recursion stack), inline objects through
    /// term definition. On loader-free inputs the result is exactly
    /// `spec_process_elems`.
    #[verifier::rlimit(100)]
    #[verifier::loop_isolation(false)]
    pub fn process_context<T: RemoteContextLoader>(
        self,
        local_context: JsonValue,
        remote_contexts: RemoteContexts,
    ) -> (r: Result<(RemoteContexts, Context), ContextCreationError>)
        requires
            self.wf(),
            remote_contexts.wf(),
        ensures
            r matches Ok(p) ==> p.0.wf() && p.1.wf() && pending_keys(p.0@) == pending_keys(
                remote_contexts@,
            ),
            ctx_terms_wf(self@) ==> (r matches Ok(p) ==> ctx_terms_wf(p.1@)),
            (local_context@ is Str && remote_contexts@.dom().len() > 4) ==> (r matches Err(e)
                && e is TooManyContexts),
            ({
                &&& local_context@ matches JsonSpec::Str(s)
                &&& remote_contexts@.dom().len() <= 4
                &&& remote_contexts@.contains_key(s)
                &&& remote_contexts@[s] is Pending
            }) ==> (r matches Err(e) && e is RecursiveContextInclusion),
            ({
                &&& local_context@ matches JsonSpec::Array(a)
                &&& a.len() > 0
                &&& a[0] is Str
                &&& remote_contexts@.dom().len() > 4
            }) ==> (r matches Err(e) && e is TooManyContexts),
            ({
                &&& local_context@ matches JsonSpec::Array(a)
                &&& a.len() > 0
                &&& a[0] matches JsonSpec::Str(s)
                &&& remote_contexts@.dom().len() <= 4
                &&& remote_contexts@.contains_key(s)
                &&& remote_contexts@[s] is Pending
            }) ==> (r matches Err(e) && e is RecursiveContextInclusion),
            no_remote(local_context@) ==> (match spec_process_elems(
                self@,
                self@.base_iri,
                flatten_elems(local_context@),
                remote_contexts@.dom().len() == 0,
            ) {
                Ok(c) => r matches Ok(p) && p.0@ == remote_contexts@ && p.1@ == c,
                Err(e) => r matches Err(e2) && e2 == e,
            }),
        decreases remote_measure(remote_contexts@), 1int,
    {
        let ghost rc0 = remote_contexts@;
        let ghost ctx_in = self@;
        let ghost local0 = local_context@;
        let ghost g_pure = no_remote(local0);
        let ghost apply_b = rc0.dom().len() == 0;
        let local_context = match local_context {
            JsonValue::String(val) => {
                proof {
                    assert(flatten_elems(local0)[0] is Str);
                    assert(!no_remote(local0));
                }
                return Self::process_remote::<T>(self, val, remote_contexts);
            },
            v => v,
        };
        proof {
            assert(!(local0 is Str));
        }
        let entry_base: Option<String> = match &self.base_iri {
            Some(b) => Some(b.clone()),
            None => None,
        };
        let mut elements: Vec<JsonValue> = match local_context {
            JsonValue::Array(a) => a,
            v => {
                let mut vv: Vec<JsonValue> = Vec::new();
                vv.push(v);
                vv
            },
        };
        proof {
            lemma_view_arr_seq(elements@);
            assert(view_arr_seq(elements@) =~= flatten_elems(local0));
        }
        let ghost elems0 = view_arr_seq(elements@);
        let ghost orig_len = elems0.len();
        let mut ctx = self;
        let mut rc = remote_contexts;
        while elements.len() != 0
            invariant
                ctx.wf(),
                rc.wf(),
                ctx_terms_wf(ctx_in) ==> ctx_terms_wf(ctx@),
                pending_keys(rc@) == pending_keys(rc0),
                entry_base.deep_view() == ctx_in.base_iri,
                view_arr_seq(elements@).len() == elements@.len(),
                g_pure == no_remote(local0),
                !(local0 is Str),
                apply_b == (rc0.dom().len() == 0),
                g_pure ==> forall|i: int|
                    0 <= i < view_arr_seq(elements@).len() ==> !(#[trigger] view_arr_seq(
                        elements@,
                    )[i] is Str),
                g_pure ==> rc@ == rc0,
                g_pure ==> spec_process_elems(ctx_in, ctx_in.base_iri, elems0, apply_b)
                    == spec_process_elems(
                    ctx@,
                    ctx_in.base_iri,
                    view_arr_seq(elements@),
                    apply_b,
                ),
                elements@.len() <= orig_len,
                elements@.len() == orig_len ==> (view_arr_seq(elements@) == elems0 && rc@ == rc0),
                (orig_len > 0 && elems0[0] is Str && elements@.len() < orig_len) ==> (
                rc0.dom().len() <= 4 && !(match elems0[0] {
                    JsonSpec::Str(s) => rc0.contains_key(s) && rc0[s] is Pending,
                    _ => false,
                })),
            decreases elements@.len(),
        {
            let ghost elems_now = view_arr_seq(elements@);
            proof {
                lemma_view_arr_seq(elements@);
                crate::json::lemma_view_arr_remove(elements@, 0);
            }
            let element = elements.remove(0);
            proof {
                lemma_view_arr_seq(elements@);
                assert(element@ == elems_now[0]);
                assert(view_arr_seq(elements@) == elems_now.drop_first());
            }
            match element {
                JsonValue::Null => {
                    proof {
                        if orig_len > 0 && elems0[0] is Str && elems_now.len() == orig_len {
                            assert(elems_now == elems0);
                            assert(false);
                        }
                    }
                    let nb: Option<String> = match &entry_base {
                        Some(b) => Some(b.clone()),
                        None => None,
                    };
                    let mut fresh = Context::new();
                    fresh.base_iri = nb;
                    ctx = fresh;
                    proof {
                        assert(ctx@ =~= ContextSpec {
                            base_iri: ctx_in.base_iri,
                            vocabulary_mapping: None,
                            language: None,
                            terms: Map::empty(),
                        });
                        assert(ctx_terms_wf(ctx@));
                    }
                },
                JsonValue::Object(mut o) => {
                    proof {
                        if orig_len > 0 && elems0[0] is Str && elems_now.len() == orig_len {
                            assert(elems_now == elems0);
                            assert(false);
                        }
                    }
                    let ab = rc.len() == 0;
                    proof {
                        if rc.wf() {
                            lemma_assoc_len(rc.entry_seq());
                        }
                    }
                    let ghost ctx_before = ctx@;
                    match ctx.process_object(&mut o, ab) {
                        Ok(u) => {
                            proof {
                                if g_pure {
                                    assert(spec_process_elems(
                                        ctx_before,
                                        ctx_in.base_iri,
                                        elems_now,
                                        apply_b,
                                    ) == spec_process_elems(
                                        ctx@,
                                        ctx_in.base_iri,
                                        elems_now.drop_first(),
                                        apply_b,
                                    ));
                                }
                            }
                        },
                        Err(e) => {
                            proof {
                                if g_pure {
                                    assert(spec_process_elems(
                                        ctx_before,
                                        ctx_in.base_iri,
                                        elems_now,
                                        apply_b,
                                    ) == Err::<ContextSpec, ContextCreationError>(e));
                                }
                            }
                            return Err(e);
                        },
                    }
                },
                JsonValue::String(val) => {
                    proof {
                        if g_pure {
                            assert(!(elems_now[0] is Str));
                            assert(false);
                        }
                        if elems_now.len() == orig_len {
                            assert(elems_now == elems0);
                        }
                    }
                    let ghost rc_at = rc@;
                    match Self::process_remote::<T>(ctx, val, rc) {
                        Err(e) => {
                            return Err(e);
                        },
                        Ok(p) => {
                            rc = p.0;
                            ctx = p.1;
                            proof {
                                if orig_len > 0 && elems0[0] is Str && elems_now.len()
                                    == orig_len {
                                    assert(rc_at == rc0);
                                    assert(rc0.dom().len() <= 4);
                                }
                            }
                        },
                    }
                },
                _ => {
                    proof {
                        if orig_len > 0 && elems0[0] is Str && elems_now.len() == orig_len {
                            assert(elems_now == elems0);
                            assert(false);
                        }
                        if g_pure {
                            assert(spec_process_elems(ctx@, ctx_in.base_iri, elems_now, apply_b)
                                == Err::<ContextSpec, ContextCreationError>(
                                ContextCreationError::InvalidLocalContext,
                            ));
                        }
                    }
                    return Err(ContextCreationError::InvalidLocalContext);
                },
            }
        }
        proof {
            if g_pure {
                assert(spec_process_elems(
                    ctx@,
                    ctx_in.base_iri,
                    view_arr_seq(elements@),
                    apply_b,
                ) == Ok::<ContextSpec, ContextCreationError>(ctx@));
            }
        }
        Ok((rc, ctx))
    }
}

/// Law: context processing is deterministic. The loader-free result is a
/// function of the active context, the caller-supplied base, the flattened
/// elements and the base switch alone, so two runs that are fixed to it
/// return the same value.
pub proof fn lemma_process_deterministic(
    ctx: ContextSpec,
    entry_base: Option<Seq<char>>,
    elems: Seq<JsonSpec>,
    apply_base: bool,
    r1: Result<ContextSpec, ContextCreationError>,
    r2: Result<ContextSpec, ContextCreationError>,
)
    requires
        r1 == spec_process_elems(ctx, entry_base, elems, apply_base),
        r2 == spec_process_elems(ctx, entry_base, elems, apply_base),
    ensures
        r1 == r2,
{
}

} // verus!
