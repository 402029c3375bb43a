//! Active contexts and their term definitions, together with the
//! association-vector map that backs every string-keyed mapping of the
//! processor.

use vstd::prelude::*;
use crate::json::{JsonSpec, JsonValue};
use crate::strutil::str_eq;

verus! {

broadcast use vstd::std_specs::vec::group_vec_axioms, vstd::seq::group_seq_axioms;

/// Per-term scratch status used for cycle detection while one context
/// object is drained.
#[derive(Clone, Copy, PartialEq, Eq, Structural)]
pub enum DefineStatus {
    Defining,
    Defined,
}

impl View for DefineStatus {
    type V = DefineStatus;

    open spec fn view(&self) -> DefineStatus {
        *self
    }
}

/// Whether a remote context URL is still being processed on the current
/// recursion stack or has already been loaded.
pub enum RemoteStatus {
    Pending,
    Loaded(JsonValue),
}

/// Mathematical model of a `RemoteStatus`.
pub enum RemoteStatusSpec {
    Pending,
    Loaded(JsonSpec),
}

impl View for RemoteStatus {
    type V = RemoteStatusSpec;

    open spec fn view(&self) -> RemoteStatusSpec {
        match self {
            RemoteStatus::Pending => RemoteStatusSpec::Pending,
            RemoteStatus::Loaded(v) => RemoteStatusSpec::Loaded(v@),
        }
    }
}

/// The finite map described by an association sequence: later entries win.
pub open spec fn assoc_map<T>(s: Seq<(Seq<char>, T)>) -> Map<Seq<char>, T>
    decreases s.len(),
{
    if s.len() == 0 {
        Map::empty()
    } else {
        assoc_map(s.drop_last()).insert(s.last().0, s.last().1)
    }
}

/// No two entries share a key.
pub open spec fn uniq_keys<T>(s: Seq<(Seq<char>, T)>) -> bool {
    forall|i: int, j: int| 0 <= i < j < s.len() ==> s[i].0 != s[j].0
}

pub proof fn lemma_assoc_contains<T>(s: Seq<(Seq<char>, T)>, k: Seq<char>)
    ensures
        assoc_map(s).contains_key(k) <==> exists|i: int| 0 <= i < s.len() && s[i].0 == k,
    decreases s.len(),
{
    if s.len() > 0 {
        lemma_assoc_contains(s.drop_last(), k);
        if assoc_map(s).contains_key(k) {
            if s.last().0 != k {
                let i = choose|i: int| 0 <= i < s.drop_last().len() && s.drop_last()[i].0 == k;
                assert(s[i].0 == k);
            }
        }
        if exists|i: int| 0 <= i < s.len() && s[i].0 == k {
            let i = choose|i: int| 0 <= i < s.len() && s[i].0 == k;
            if i < s.len() - 1 {
                assert(s.drop_last()[i].0 == k);
            }
        }
    }
}

pub proof fn lemma_assoc_get<T>(s: Seq<(Seq<char>, T)>, i: int)
    requires
        uniq_keys(s),
        0 <= i < s.len(),
    ensures
        assoc_map(s).contains_key(s[i].0),
        assoc_map(s)[s[i].0] == s[i].1,
    decreases s.len(),
{
    lemma_assoc_contains(s, s[i].0);
    if i < s.len() - 1 {
        assert(s.drop_last()[i] == s[i]);
        assert(uniq_keys(s.drop_last()));
        lemma_assoc_get(s.drop_last(), i);
        assert(s.last().0 != s[i].0);
    }
}

pub proof fn lemma_assoc_len<T>(s: Seq<(Seq<char>, T)>)
    requires
        uniq_keys(s),
    ensures
        assoc_map(s).dom().finite(),
        assoc_map(s).dom().len() == s.len(),
    decreases s.len(),
{
    if s.len() > 0 {
        assert(uniq_keys(s.drop_last()));
        lemma_assoc_len(s.drop_last());
        lemma_assoc_contains(s.drop_last(), s.last().0);
        assert(!assoc_map(s.drop_last()).contains_key(s.last().0));
        assert(assoc_map(s).dom() =~= assoc_map(s.drop_last()).dom().insert(s.last().0));
        vstd::set::axiom_set_insert_finite(assoc_map(s.drop_last()).dom(), s.last().0);
        vstd::set::axiom_set_insert_len(assoc_map(s.drop_last()).dom(), s.last().0);
    }
}

pub proof fn lemma_assoc_remove<T>(s: Seq<(Seq<char>, T)>, i: int)
    requires
        uniq_keys(s),
        0 <= i < s.len(),
    ensures
        uniq_keys(s.remove(i)),
        assoc_map(s.remove(i)) == assoc_map(s).remove(s[i].0),
    decreases s.len(),
{
    assert(uniq_keys(s.remove(i)));
    if i == s.len() - 1 {
        assert(s.remove(i) =~= s.drop_last());
        lemma_assoc_contains(s.drop_last(), s.last().0);
        assert(!assoc_map(s.drop_last()).contains_key(s.last().0));
        assert(assoc_map(s.drop_last()) =~= assoc_map(s).remove(s[i].0));
    } else {
        assert(s.remove(i).drop_last() =~= s.drop_last().remove(i));
        assert(uniq_keys(s.drop_last()));
        lemma_assoc_remove(s.drop_last(), i);
        assert(s.remove(i).last() == s.last());
        assert(assoc_map(s.remove(i)) == assoc_map(s.drop_last().remove(i)).insert(
            s.last().0,
            s.last().1,
        ));
        assert(s[i].0 != s.last().0);
        assert(assoc_map(s.drop_last()).remove(s[i].0).insert(s.last().0, s.last().1)
            =~= assoc_map(s.drop_last()).insert(s.last().0, s.last().1).remove(s[i].0));
    }
}

/// A string-keyed map stored as a vector of entries with pairwise distinct
/// keys.
pub struct StrMap<V> {
    pub entries: Vec<(String, V)>,
}

impl<V: View> StrMap<V> {
    /// The entries with their keys and values viewed.
    pub open spec fn entry_seq(&self) -> Seq<(Seq<char>, V::V)> {
        Seq::new(self.entries@.len(), |i: int| (self.entries@[i].0@, self.entries@[i].1@))
    }

    /// Keys are pairwise distinct.
    pub open spec fn wf(&self) -> bool {
        uniq_keys(self.entry_seq())
    }

    pub fn new() -> (r: StrMap<V>)
        ensures
            r.wf(),
            r@ == Map::<Seq<char>, V::V>::empty(),
            r.entries@.len() == 0,
    {
        let r = StrMap { entries: Vec::new() };
        proof {
            assert(r.entry_seq() =~= Seq::empty());
        }
        r
    }

    /// Number of entries; under `wf` also the cardinality of the map.
    pub fn len(&self) -> (r: usize)
        ensures
            r == self.entries@.len(),
            self.wf() ==> r == self@.dom().len(),
    {
        proof {
            if self.wf() {
                lemma_assoc_len(self.entry_seq());
            }
        }
        self.entries.len()
    }

    pub fn contains_key(&self, k: &str) -> (r: bool)
        ensures
            r == self@.contains_key(k@),
    {
        proof {
            lemma_assoc_contains(self.entry_seq(), k@);
        }
        let n = self.entries.len();
        let mut i: usize = 0;
        while i < n
            invariant
                n == self.entries@.len(),
                i <= n,
                forall|j: int| 0 <= j < i ==> self.entry_seq()[j].0 != k@,
            decreases n - i,
        {
            if str_eq(self.entries[i].0.as_str(), k) {
                proof {
                    lemma_assoc_contains(self.entry_seq(), k@);
                    assert(self.entry_seq()[i as int].0 == k@);
                }
                return true;
            }
            i = i + 1;
        }
        proof {
            lemma_assoc_contains(self.entry_seq(), k@);
        }
        false
    }

    pub fn get(&self, k: &str) -> (r: Option<&V>)
        requires
            self.wf(),
        ensures
            match r {
                Some(v) => self@.contains_key(k@) && v@ == self@[k@],
                None => !self@.contains_key(k@),
            },
    {
        proof {
            lemma_assoc_contains(self.entry_seq(), k@);
        }
        let n = self.entries.len();
        let mut i: usize = 0;
        while i < n
            invariant
                self.wf(),
                n == self.entries@.len(),
                i <= n,
                forall|j: int| 0 <= j < i ==> self.entry_seq()[j].0 != k@,
            decreases n - i,
        {
            if str_eq(self.entries[i].0.as_str(), k) {
                proof {
                    lemma_assoc_contains(self.entry_seq(), k@);
                    assert(self.entry_seq()[i as int].0 == k@);
                    lemma_assoc_get(self.entry_seq(), i as int);
                }
                return Some(&self.entries[i].1);
            }
            i = i + 1;
        }
        proof {
            lemma_assoc_contains(self.entry_seq(), k@);
        }
        None
    }

    /// Index of the entry holding `k`, if any.
    fn index_of_key(&self, k: &str) -> (r: Option<usize>)
        ensures
            match r {
                Some(i) => i < self.entries@.len() && self.entry_seq()[i as int].0 == k@,
                None => !self@.contains_key(k@),
            },
    {
        proof {
            lemma_assoc_contains(self.entry_seq(), k@);
        }
        let n = self.entries.len();
        let mut i: usize = 0;
        while i < n
            invariant
                n == self.entries@.len(),
                i <= n,
                forall|j: int| 0 <= j < i ==> self.entry_seq()[j].0 != k@,
            decreases n - i,
        {
            if str_eq(self.entries[i].0.as_str(), k) {
                proof {
                    assert(self.entry_seq()[i as int].0 == k@);
                }
                return Some(i);
            }
            i = i + 1;
        }
        proof {
            lemma_assoc_contains(self.entry_seq(), k@);
        }
        None
    }

    pub fn remove(&mut self, k: &str)
        requires
            old(self).wf(),
        ensures
            final(self).wf(),
            final(self)@ == old(self)@.remove(k@),
            final(self).entries@.len() <= old(self).entries@.len(),
    {
        let idx = self.index_of_key(k);
        match idx {
            Some(i) => {
                proof {
                    lemma_assoc_remove(old(self).entry_seq(), i as int);
                }
                self.entries.remove(i);
                proof {
                    assert(self.entry_seq() =~= old(self).entry_seq().remove(i as int));
                }
            },
            None => {
                proof {
                    assert(self@ =~= self@.remove(k@));
                }
            },
        }
    }

    pub fn insert(&mut self, k: String, v: V)
        requires
            old(self).wf(),
        ensures
            final(self).wf(),
            final(self)@ == old(self)@.insert(k@, v@),
            final(self).entries@.len() <= old(self).entries@.len() + 1,
    {
        self.remove(k.as_str());
        let ghost mid = self.entry_seq();
        proof {
            lemma_assoc_contains(mid, k@);
        }
        self.entries.push((k, v));
        proof {
            assert(self.entry_seq() =~= mid.push((k@, v@)));
            assert(self.entry_seq().drop_last() =~= mid);
            assert(self@ == assoc_map(mid).insert(k@, v@));
            assert(self@ =~= old(self)@.insert(k@, v@));
            assert forall|x: int, y: int|
                #![trigger self.entry_seq()[x], self.entry_seq()[y]]
                0 <= x < y < self.entry_seq().len() implies self.entry_seq()[x].0
                != self.entry_seq()[y].0 by {
                if y == self.entry_seq().len() - 1 {
                    assert(!assoc_map(mid).contains_key(k@));
                    assert(self.entry_seq()[x] == mid[x]);
                    lemma_assoc_contains(mid, mid[x].0);
                }
            }
        }
    }
}

impl<V: View> View for StrMap<V> {
    type V = Map<Seq<char>, V::V>;

    open spec fn view(&self) -> Map<Seq<char>, V::V> {
        assoc_map(self.entry_seq())
    }
}

/// A normalized term definition installed in an active context.
pub struct Term {
    pub iri_mapping: String,
    pub type_mapping: Option<String>,
    pub reverse: bool,
    pub container_mapping: Option<String>,
    pub language_mapping: Option<String>,
}

/// Mathematical model of a term definition.
#[verifier::ext_equal]
pub struct TermSpec {
    pub iri_mapping: Seq<char>,
    pub type_mapping: Option<Seq<char>>,
    pub reverse: bool,
    pub container_mapping: Option<Seq<char>>,
    pub language_mapping: Option<Seq<char>>,
}

impl View for Term {
    type V = TermSpec;

    open spec fn view(&self) -> TermSpec {
        TermSpec {
            iri_mapping: self.iri_mapping@,
            type_mapping: self.type_mapping.deep_view(),
            reverse: self.reverse,
            container_mapping: self.container_mapping.deep_view(),
            language_mapping: self.language_mapping.deep_view(),
        }
    }
}

/// An active context: the snapshot that IRI expansion and the downstream
/// passes read.
pub struct Context {
    pub base_iri: Option<String>,
    pub vocabulary_mapping: Option<String>,
    pub language: Option<String>,
    pub terms: StrMap<Term>,
}

/// Mathematical model of an active context.
#[verifier::ext_equal]
pub struct ContextSpec {
    pub base_iri: Option<Seq<char>>,
    pub vocabulary_mapping: Option<Seq<char>>,
    pub language: Option<Seq<char>>,
    pub terms: Map<Seq<char>, TermSpec>,
}

impl View for Context {
    type V = ContextSpec;

    open spec fn view(&self) -> ContextSpec {
        ContextSpec {
            base_iri: self.base_iri.deep_view(),
            vocabulary_mapping: self.vocabulary_mapping.deep_view(),
            language: self.language.deep_view(),
            terms: self.terms@,
        }
    }
}

/// A reverse term carries no language mapping and only `@set` / `@index`
/// containers; a type mapping and a language mapping never coexist; a
/// forward container is one of `@list`, `@set`, `@index`, `@language`.
pub open spec fn term_wf(t: TermSpec) -> bool {
    &&& t.reverse ==> t.language_mapping is None
    &&& t.reverse ==> (t.container_mapping is None || t.container_mapping == Some("@set"@)
        || t.container_mapping == Some("@index"@))
    &&& !(t.type_mapping is Some && t.language_mapping is Some)
    &&& (!t.reverse && t.container_mapping is Some) ==> (t.container_mapping == Some("@list"@)
        || t.container_mapping == Some("@set"@) || t.container_mapping == Some("@index"@)
        || t.container_mapping == Some("@language"@))
}

/// Every installed term definition is well formed, and no keyword is ever
/// installed as a term.
pub open spec fn ctx_terms_wf(c: ContextSpec) -> bool {
    forall|k: Seq<char>|
        #[trigger] c.terms.contains_key(k) ==> term_wf(c.terms[k])
            && !crate::expand::spec_is_keyword(k)
}

/// The fresh, empty active context.
pub open spec fn spec_new_context() -> ContextSpec {
    ContextSpec {
        base_iri: None,
        vocabulary_mapping: None,
        language: None,
        terms: Map::empty(),
    }
}

impl Context {
    /// The backing term vector has distinct keys.
    pub open spec fn wf(&self) -> bool {
        self.terms.wf()
    }

    pub fn new() -> (c: Context)
        ensures
            c.wf(),
            c@ == spec_new_context(),
            ctx_terms_wf(c@),
    {
        let c = Context {
            base_iri: None,
            vocabulary_mapping: None,
            language: None,
            terms: StrMap::new(),
        };
        proof {
            assert(c@ =~= spec_new_context());
        }
        c
    }

    /// The definition installed for `name`, if any.
    pub fn get_term(&self, name: &str) -> (r: Option<&Term>)
        requires
            self.wf(),
        ensures
            match r {
                Some(t) => self@.terms.contains_key(name@) && t@ == self@.terms[name@],
                None => !self@.terms.contains_key(name@),
            },
    {
        self.terms.get(name)
    }
}

} // verus!
