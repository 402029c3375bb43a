//! The library's own JSON model. The processor only ever inspects the shape
//! of a JSON value (null / boolean / number / string / array / object) and
//! the contents of strings, arrays and objects, so numeric payloads are not
//! carried.

use vstd::prelude::*;

verus! {

broadcast use vstd::std_specs::vec::group_vec_axioms, vstd::seq::group_seq_axioms;

/// Mathematical model of a JSON value.
pub enum JsonSpec {
    Null,
    Bool(bool),
    Number,
    Str(Seq<char>),
    Array(Seq<JsonSpec>),
    Object(Seq<(Seq<char>, JsonSpec)>),
}

/// A JSON value as the processor receives it. Object members keep their
/// document order; the processor never reads a numeric payload, so none is
/// carried.
pub enum JsonValue {
    Null,
    Bool(bool),
    Number,
    String(String),
    Array(Vec<JsonValue>),
    Object(Vec<(String, JsonValue)>),
}

pub open spec fn view_arr_seq(s: Seq<JsonValue>) -> Seq<JsonSpec>
    decreases s,
{
    if s.len() == 0 {
        Seq::empty()
    } else {
        view_arr_seq(s.subrange(0, s.len() - 1)).push(s[s.len() - 1]@)
    }
}

pub open spec fn view_member(p: (String, JsonValue)) -> (Seq<char>, JsonSpec)
    decreases p,
{
    (p.0@, p.1@)
}

pub open spec fn view_obj_seq(s: Seq<(String, JsonValue)>) -> Seq<(Seq<char>, JsonSpec)>
    decreases s,
{
    if s.len() == 0 {
        Seq::empty()
    } else {
        view_obj_seq(s.subrange(0, s.len() - 1)).push(view_member(s[s.len() - 1]))
    }
}

pub open spec fn view_arr(v: Vec<JsonValue>) -> Seq<JsonSpec>
    decreases v,
{
    view_arr_seq(v@)
}

pub open spec fn view_obj(v: Vec<(String, JsonValue)>) -> Seq<(Seq<char>, JsonSpec)>
    decreases v,
{
    view_obj_seq(v@)
}

impl View for JsonValue {
    type V = JsonSpec;

    open spec fn view(&self) -> JsonSpec
        decreases self,
    {
        match self {
            JsonValue::Null => JsonSpec::Null,
            JsonValue::Bool(b) => JsonSpec::Bool(*b),
            JsonValue::Number => JsonSpec::Number,
            JsonValue::String(s) => JsonSpec::Str(s@),
            JsonValue::Array(a) => JsonSpec::Array(view_arr(*a)),
            JsonValue::Object(o) => JsonSpec::Object(view_obj(*o)),
        }
    }
}

/// The view of an array-element sequence has the element views, in order.
pub proof fn lemma_view_arr_seq(s: Seq<JsonValue>)
    ensures
        view_arr_seq(s).len() == s.len(),
        forall|i: int| 0 <= i < s.len() ==> view_arr_seq(s)[i] == #[trigger] s[i]@,
    decreases s.len(),
{
    if s.len() > 0 {
        let pre = s.subrange(0, s.len() - 1);
        lemma_view_arr_seq(pre);
        assert(view_arr_seq(s) == view_arr_seq(pre).push(s[s.len() - 1]@));
        assert forall|i: int| 0 <= i < s.len() implies view_arr_seq(s)[i] == #[trigger] s[i]@ by {
            if i < s.len() - 1 {
                assert(pre[i] == s[i]);
            }
        }
    }
}

/// The view of an object-member sequence pairs each key view with the
/// matching value view, in order.
pub proof fn lemma_view_obj_seq(s: Seq<(String, JsonValue)>)
    ensures
        view_obj_seq(s).len() == s.len(),
        forall|i: int|
            0 <= i < s.len() ==> view_obj_seq(s)[i] == (#[trigger] s[i].0@, s[i].1@),
    decreases s.len(),
{
    if s.len() > 0 {
        let pre = s.subrange(0, s.len() - 1);
        lemma_view_obj_seq(pre);
        assert(view_obj_seq(s) == view_obj_seq(pre).push(view_member(s[s.len() - 1])));
        assert forall|i: int|
            0 <= i < s.len() implies view_obj_seq(s)[i] == (#[trigger] s[i].0@, s[i].1@) by {
            if i < s.len() - 1 {
                assert(pre[i] == s[i]);
            }
        }
    }
}

/// The view of removing one member commutes with removing it from the view.
pub proof fn lemma_view_obj_remove(s: Seq<(String, JsonValue)>, i: int)
    requires
        0 <= i < s.len(),
    ensures
        view_obj_seq(s.remove(i)) == view_obj_seq(s).remove(i),
{
    lemma_view_obj_seq(s);
    lemma_view_obj_seq(s.remove(i));
    s.remove_ensures(i);
    view_obj_seq(s).remove_ensures(i);
    assert forall|j: int| 0 <= j < s.len() - 1 implies #[trigger] view_obj_seq(s.remove(i))[j]
        == view_obj_seq(s).remove(i)[j] by {
        assert(view_obj_seq(s.remove(i))[j] == (s.remove(i)[j].0@, s.remove(i)[j].1@));
        if j < i {
            assert(s.remove(i)[j] == s[j]);
            assert(view_obj_seq(s)[j] == (s[j].0@, s[j].1@));
            assert(view_obj_seq(s).remove(i)[j] == view_obj_seq(s)[j]);
        } else {
            assert(s.remove(i)[j] == s[j + 1]);
            assert(view_obj_seq(s)[j + 1] == (s[j + 1].0@, s[j + 1].1@));
            assert(view_obj_seq(s).remove(i)[j] == view_obj_seq(s)[j + 1]);
        }
    }
    assert(view_obj_seq(s.remove(i)) =~= view_obj_seq(s).remove(i));
}

/// The view of removing one element commutes with removing it from the
/// view.
pub proof fn lemma_view_arr_remove(s: Seq<JsonValue>, i: int)
    requires
        0 <= i < s.len(),
    ensures
        view_arr_seq(s.remove(i)) == view_arr_seq(s).remove(i),
{
    lemma_view_arr_seq(s);
    lemma_view_arr_seq(s.remove(i));
    s.remove_ensures(i);
    view_arr_seq(s).remove_ensures(i);
    assert forall|j: int| 0 <= j < s.len() - 1 implies #[trigger] view_arr_seq(s.remove(i))[j]
        == view_arr_seq(s).remove(i)[j] by {
        assert(view_arr_seq(s.remove(i))[j] == s.remove(i)[j]@);
        if j < i {
            assert(s.remove(i)[j] == s[j]);
            assert(view_arr_seq(s)[j] == s[j]@);
            assert(view_arr_seq(s).remove(i)[j] == view_arr_seq(s)[j]);
        } else {
            assert(s.remove(i)[j] == s[j + 1]);
            assert(view_arr_seq(s)[j + 1] == s[j + 1]@);
            assert(view_arr_seq(s).remove(i)[j] == view_arr_seq(s)[j + 1]);
        }
    }
    assert(view_arr_seq(s.remove(i)) =~= view_arr_seq(s).remove(i));
}

/// True iff some member of `s` has key `k`.
pub open spec fn obj_has_key(s: Seq<(Seq<char>, JsonSpec)>, k: Seq<char>) -> bool {
    exists|i: int| 0 <= i < s.len() && s[i].0 == k
}

/// Index of the first member with key `k`; meaningful only when one exists.
pub open spec fn obj_first_key_index(s: Seq<(Seq<char>, JsonSpec)>, k: Seq<char>) -> int
    decreases s.len(),
{
    if s.len() == 0 {
        0
    } else if s[0].0 == k {
        0
    } else {
        1 + obj_first_key_index(s.subrange(1, s.len() as int), k)
    }
}

pub proof fn lemma_obj_first_key(s: Seq<(Seq<char>, JsonSpec)>, k: Seq<char>)
    requires
        obj_has_key(s, k),
    ensures
        0 <= obj_first_key_index(s, k) < s.len(),
        s[obj_first_key_index(s, k)].0 == k,
        forall|j: int| 0 <= j < obj_first_key_index(s, k) ==> s[j].0 != k,
    decreases s.len(),
{
    if s.len() > 0 && s[0].0 != k {
        let rest = s.subrange(1, s.len() as int);
        let w = choose|i: int| 0 <= i < s.len() && s[i].0 == k;
        assert(rest[w - 1].0 == k);
        lemma_obj_first_key(rest, k);
        let r = obj_first_key_index(rest, k);
        assert(s[1 + r] == rest[r]);
        assert forall|j: int| 0 <= j < 1 + r implies s[j].0 != k by {
            if j > 0 {
                assert(rest[j - 1] == s[j]);
            }
        }
    }
}

/// True iff the object holds a member named `k`.
pub fn obj_contains_key(obj: &Vec<(String, JsonValue)>, k: &str) -> (r: bool)
    ensures
        r == obj_has_key(view_obj_seq(obj@), k@),
{
    proof {
        lemma_view_obj_seq(obj@);
    }
    let n = obj.len();
    let mut i: usize = 0;
    while i < n
        invariant
            n == obj@.len(),
            i <= n,
            forall|j: int| 0 <= j < i ==> view_obj_seq(obj@)[j].0 != k@,
        decreases n - i,
    {
        proof {
            lemma_view_obj_seq(obj@);
        }
        if crate::strutil::str_eq(obj[i].0.as_str(), k) {
            proof {
                assert(view_obj_seq(obj@)[i as int].0 == k@);
            }
            return true;
        }
        i = i + 1;
    }
    proof {
        lemma_view_obj_seq(obj@);
    }
    false
}

/// Removes the first member named `k` and hands its value out.
pub fn obj_take(obj: &mut Vec<(String, JsonValue)>, k: &str) -> (r: Option<JsonValue>)
    ensures
        match r {
            Some(v) => {
                &&& obj_has_key(view_obj_seq(old(obj)@), k@)
                &&& v@ == view_obj_seq(old(obj)@)[obj_first_key_index(
                    view_obj_seq(old(obj)@),
                    k@,
                )].1
                &&& view_obj_seq(final(obj)@) == view_obj_seq(old(obj)@).remove(
                    obj_first_key_index(view_obj_seq(old(obj)@), k@),
                )
            },
            None => {
                &&& !obj_has_key(view_obj_seq(old(obj)@), k@)
                &&& final(obj)@ == old(obj)@
            },
        },
        view_obj_seq(final(obj)@).len() <= view_obj_seq(old(obj)@).len(),
{
    proof {
        lemma_view_obj_seq(obj@);
    }
    let n = obj.len();
    let mut i: usize = 0;
    while i < n
        invariant
            n == obj@.len(),
            i <= n,
            obj@ == old(obj)@,
            forall|j: int| 0 <= j < i ==> view_obj_seq(obj@)[j].0 != k@,
        decreases n - i,
    {
        proof {
            lemma_view_obj_seq(obj@);
        }
        if crate::strutil::str_eq(obj[i].0.as_str(), k) {
            proof {
                assert(view_obj_seq(obj@)[i as int].0 == k@);
                lemma_obj_first_key(view_obj_seq(obj@), k@);
                assert(obj_first_key_index(view_obj_seq(obj@), k@) == i as int);
                lemma_view_obj_remove(obj@, i as int);
            }
            let pair = obj.remove(i);
            proof {
                lemma_view_obj_seq(old(obj)@);
            }
            return Some(pair.1);
        }
        i = i + 1;
    }
    proof {
        lemma_view_obj_seq(obj@);
    }
    None
}

impl JsonValue {
    /// A structurally equal copy.
    pub fn duplicate(&self) -> (r: JsonValue)
        ensures
            r@ == self@,
        decreases self,
    {
        match self {
            JsonValue::Null => JsonValue::Null,
            JsonValue::Bool(b) => JsonValue::Bool(*b),
            JsonValue::Number => JsonValue::Number,
            JsonValue::String(s) => JsonValue::String(s.clone()),
            JsonValue::Array(a) => {
                let out = duplicate_arr(a);
                proof {
                    lemma_view_arr_seq(out@);
                    lemma_view_arr_seq(a@);
                    assert forall|i: int| 0 <= i < a@.len() implies view_arr_seq(out@)[i]
                        == view_arr_seq(a@)[i] by {
                        assert(out@[i]@ == a@[i]@);
                    }
                    assert(view_arr_seq(out@) =~= view_arr_seq(a@));
                }
                JsonValue::Array(out)
            },
            JsonValue::Object(o) => {
                let out = duplicate_obj(o);
                proof {
                    lemma_view_obj_seq(out@);
                    lemma_view_obj_seq(o@);
                    assert forall|i: int| 0 <= i < o@.len() implies view_obj_seq(out@)[i]
                        == view_obj_seq(o@)[i] by {
                        assert(view_obj_seq(out@)[i] == (out@[i].0@, out@[i].1@));
                        assert(view_obj_seq(o@)[i] == (o@[i].0@, o@[i].1@));
                        assert(out@[i].0@ == o@[i].0@);
                        assert(out@[i].1@ == o@[i].1@);
                    }
                    assert(view_obj_seq(out@) =~= view_obj_seq(o@));
                }
                JsonValue::Object(out)
            },
        }
    }
}

fn duplicate_arr(v: &Vec<JsonValue>) -> (r: Vec<JsonValue>)
    ensures
        r@.len() == v@.len(),
        forall|i: int| 0 <= i < v@.len() ==> r@[i]@ == #[trigger] v@[i]@,
    decreases *v,
{
    let n = v.len();
    let mut out: Vec<JsonValue> = Vec::new();
    let mut i: usize = 0;
    while i < n
        invariant
            n == v@.len(),
            i <= n,
            out@.len() == i,
            forall|j: int| 0 <= j < i ==> out@[j]@ == #[trigger] v@[j]@,
        decreases n - i,
    {
        out.push(v[i].duplicate());
        i = i + 1;
    }
    out
}

fn duplicate_obj(v: &Vec<(String, JsonValue)>) -> (r: Vec<(String, JsonValue)>)
    ensures
        r@.len() == v@.len(),
        forall|i: int| 0 <= i < v@.len() ==> #[trigger] r@[i].0@ == v@[i].0@,
        forall|i: int| 0 <= i < v@.len() ==> #[trigger] r@[i].1@ == v@[i].1@,
    decreases *v,
{
    let n = v.len();
    let mut out: Vec<(String, JsonValue)> = Vec::new();
    let mut i: usize = 0;
    while i < n
        invariant
            n == v@.len(),
            i <= n,
            out@.len() == i,
            forall|j: int| 0 <= j < i ==> #[trigger] out@[j].0@ == v@[j].0@,
            forall|j: int| 0 <= j < i ==> #[trigger] out@[j].1@ == v@[j].1@,
        decreases n - i,
    {
        let key = v[i].0.clone();
        let val = v[i].1.duplicate();
        out.push((key, val));
        proof {
            assert(out@[i as int].0@ == v@[i as int].0@);
            assert(out@[i as int].1@ == v@[i as int].1@);
        }
        i = i + 1;
    }
    out
}

} // verus!
