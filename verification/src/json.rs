//! JSON documents.
//!
//! A [`Value`] is a JSON value whose objects keep their members as a list of
//! (key, value) pairs. The operations of this module keep such a list sorted by
//! key, as a JSON map ordered by key does, so that two equal documents have the
//! same list. Numbers are kept as the text that a JSON writer prints for them:
//! nothing here computes with them.
use vstd::prelude::*;
use crate::text::{
    same_text, key_less, key_lt, lemma_key_lt_irreflexive, lemma_key_lt_transitive,
    lemma_key_lt_trichotomy,
};

verus! {

/// The mathematical content of a [`Value`].
pub enum JsonView {
    Null,
    Bool(bool),
    Number(Seq<char>),
    Str(Seq<char>),
    Array(Seq<JsonView>),
    Object(Seq<(Seq<char>, JsonView)>),
}

/// A JSON value.
#[derive(Debug, PartialEq)]
pub enum Value {
    Null,
    Bool(bool),
    /// A number, as the text that `serde_json` prints for it. Numbers are
    /// compared by this text; `serde_json` compares them by value, which differs
    /// only in that it takes `-0.0` and `0.0` to be equal.
    Number(String),
    String(String),
    Array(Vec<Value>),
    /// The members of an object, in the order of their keys.
    Object(Vec<(String, Value)>),
}

impl View for Value {
    type V = JsonView;

    open spec fn view(&self) -> JsonView
        decreases self,
    {
        match self {
            Value::Null => JsonView::Null,
            Value::Bool(b) => JsonView::Bool(*b),
            Value::Number(n) => JsonView::Number(n@),
            Value::String(s) => JsonView::Str(s@),
            Value::Array(a) => JsonView::Array(
                Seq::new(
                    a@.len(),
                    |i: int|
                        if 0 <= i < a@.len() {
                            a@[i].view()
                        } else {
                            JsonView::Null
                        },
                ),
            ),
            Value::Object(o) => JsonView::Object(
                Seq::new(
                    o@.len(),
                    |i: int|
                        (
                            o@[i].0@,
                            if 0 <= i < o@.len() {
                                o@[i].1.view()
                            } else {
                                JsonView::Null
                            },
                        ),
                ),
            ),
        }
    }
}

/// The content of a list of values.
pub open spec fn values_view(a: Seq<Value>) -> Seq<JsonView> {
    a.map_values(|x: Value| x@)
}

/// The content of a list of object members.
pub open spec fn entries_view(o: Seq<(String, Value)>) -> Seq<(Seq<char>, JsonView)> {
    o.map_values(|e: (String, Value)| (e.0@, e.1@))
}

pub proof fn lemma_array_view(a: Vec<Value>)
    ensures
        Value::Array(a)@ == JsonView::Array(values_view(a@)),
{
    let v = Value::Array(a);
    match v.view() {
        JsonView::Array(s) => {
            assert(s =~= values_view(a@));
        },
        _ => {},
    }
}

pub proof fn lemma_object_view(o: Vec<(String, Value)>)
    ensures
        Value::Object(o)@ == JsonView::Object(entries_view(o@)),
{
    let v = Value::Object(o);
    assert(v.view() is Object);
    assert(v.view()->Object_0.len() == o@.len());
    match v.view() {
        JsonView::Object(s) => {
            assert(s.len() == o@.len());
            assert forall|i: int| 0 <= i < s.len() implies s[i] == entries_view(o@)[i] by {
                assert(s[i] == (o@[i].0@, o@[i].1.view()));
            }
            assert(s =~= entries_view(o@));
        },
        _ => {},
    }
}

pub proof fn lemma_values_view_push(s: Seq<Value>, x: Value)
    ensures
        values_view(s.push(x)) == values_view(s).push(x@),
{
    assert(values_view(s.push(x)) =~= values_view(s).push(x@));
}

/// The content of a value, one level down.
pub proof fn lemma_view_shape(v: Value)
    ensures
        match v {
            Value::Null => v@ == JsonView::Null,
            Value::Bool(b) => v@ == JsonView::Bool(b),
            Value::Number(n) => v@ == JsonView::Number(n@),
            Value::String(t) => v@ == JsonView::Str(t@),
            Value::Array(a) => v@ == JsonView::Array(values_view(a@)),
            Value::Object(o) => v@ == JsonView::Object(entries_view(o@)),
        },
{
    match v {
        Value::Array(a) => lemma_array_view(a),
        Value::Object(o) => lemma_object_view(o),
        _ => {},
    }
}

/// The value under `k` among the members `e`: the first member with that key.
pub open spec fn entry_get(e: Seq<(Seq<char>, JsonView)>, k: Seq<char>) -> Option<JsonView>
    decreases e.len(),
{
    if e.len() == 0 {
        None
    } else if e[0].0 == k {
        Some(e[0].1)
    } else {
        entry_get(e.drop_first(), k)
    }
}

/// The members `e` with `k` set to `v`: the first member with key `k` is
/// replaced; without one, the pair goes before the first key that sorts after `k`.
pub open spec fn entry_insert(e: Seq<(Seq<char>, JsonView)>, k: Seq<char>, v: JsonView) -> Seq<
    (Seq<char>, JsonView),
>
    decreases e.len(),
{
    if e.len() == 0 {
        seq![(k, v)]
    } else if e[0].0 == k {
        seq![(k, v)] + e.drop_first()
    } else if key_lt(k, e[0].0) {
        seq![(k, v)] + e
    } else {
        seq![e[0]] + entry_insert(e.drop_first(), k, v)
    }
}

/// The members `e` without the first member whose key is `k`.
pub open spec fn entry_remove(e: Seq<(Seq<char>, JsonView)>, k: Seq<char>) -> Seq<
    (Seq<char>, JsonView),
>
    decreases e.len(),
{
    if e.len() == 0 {
        e
    } else if e[0].0 == k {
        e.drop_first()
    } else {
        seq![e[0]] + entry_remove(e.drop_first(), k)
    }
}

/// Keys strictly increasing.
pub open spec fn sorted_keys(e: Seq<(Seq<char>, JsonView)>) -> bool {
    forall|i: int, j: int| 0 <= i < j < e.len() ==> key_lt(#[trigger] e[i].0, #[trigger] e[j].0)
}

/// The member `k` of `v`, where `v` is an object that has one.
pub open spec fn child(v: JsonView, k: Seq<char>) -> Option<JsonView> {
    match v {
        JsonView::Object(e) => entry_get(e, k),
        _ => None,
    }
}

/// Every object in `v`, at any depth, has its keys in increasing order.
pub open spec fn well_formed(v: JsonView) -> bool
    decreases v,
{
    match v {
        JsonView::Array(a) => forall|i: int| 0 <= i < a.len() ==> well_formed(#[trigger] a[i]),
        JsonView::Object(e) => sorted_keys(e) && forall|i: int|
            0 <= i < e.len() ==> well_formed(#[trigger] e[i].1),
        _ => true,
    }
}

/// An array is well formed when its elements are.
pub proof fn lemma_well_formed_array(a: Seq<JsonView>)
    ensures
        well_formed(JsonView::Array(a)) <==> forall|i: int|
            0 <= i < a.len() ==> #[trigger] well_formed(a[i]),
{
    let v = JsonView::Array(a);
    assert(decreases_to!(v => v->Array_0));
    assert forall|i: int| 0 <= i < a.len() implies decreases_to!(v => a[i]) by {
        vstd::seq::axiom_seq_index_decreases(a, i);
        assert(decreases_to!(a => a[i]));
    }
    if forall|i: int| 0 <= i < a.len() ==> #[trigger] well_formed(a[i]) {
        assert forall|i: int| 0 <= i < a.len() implies well_formed(#[trigger] a[i]) by {}
    }
}

/// An object is well formed when its keys increase and its members are well formed.
pub proof fn lemma_well_formed_object(e: Seq<(Seq<char>, JsonView)>)
    ensures
        well_formed(JsonView::Object(e)) <==> sorted_keys(e) && forall|i: int|
            0 <= i < e.len() ==> #[trigger] well_formed(e[i].1),
{
    let v = JsonView::Object(e);
    assert(decreases_to!(v => v->Object_0));
    assert forall|i: int| 0 <= i < e.len() implies decreases_to!(v => e[i].1) by {
        vstd::seq::axiom_seq_index_decreases(e, i);
        assert(decreases_to!(e => e[i]));
        assert(decreases_to!(e[i] => e[i].1));
    }
    if forall|i: int| 0 <= i < e.len() ==> #[trigger] well_formed(e[i].1) {
        assert forall|i: int| 0 <= i < e.len() implies well_formed(#[trigger] e[i].1) by {}
    }
}

pub proof fn lemma_entry_get_at(e: Seq<(Seq<char>, JsonView)>, k: Seq<char>, i: int)
    requires
        0 <= i < e.len(),
        e[i].0 == k,
        forall|j: int| 0 <= j < i ==> e[j].0 != k,
    ensures
        entry_get(e, k) == Some(e[i].1),
        entry_remove(e, k) == e.remove(i),
    decreases i,
{
    if i > 0 {
        lemma_entry_get_at(e.drop_first(), k, i - 1);
        assert(e.remove(i) =~= seq![e[0]] + e.drop_first().remove(i - 1));
    } else {
        assert(e.remove(0) =~= e.drop_first());
    }
}

pub proof fn lemma_entry_get_none(e: Seq<(Seq<char>, JsonView)>, k: Seq<char>)
    requires
        forall|j: int| 0 <= j < e.len() ==> e[j].0 != k,
    ensures
        entry_get(e, k) == None::<JsonView>,
        entry_remove(e, k) == e,
    decreases e.len(),
{
    if e.len() > 0 {
        lemma_entry_get_none(e.drop_first(), k);
        assert(seq![e[0]] + e.drop_first() =~= e);
    }
}

/// Inserting walks past the members whose keys sort before the new one.
pub proof fn lemma_entry_insert_skip(
    e: Seq<(Seq<char>, JsonView)>,
    k: Seq<char>,
    v: JsonView,
    j: int,
)
    requires
        0 <= j <= e.len(),
        forall|x: int| 0 <= x < j ==> key_lt(#[trigger] e[x].0, k),
    ensures
        entry_insert(e, k, v) == e.take(j) + entry_insert(e.skip(j), k, v),
    decreases j,
{
    if j == 0 {
        assert(e.skip(0) =~= e);
        assert(e.take(0) + entry_insert(e, k, v) =~= entry_insert(e, k, v));
    } else {
        lemma_key_lt_irreflexive(k);
        lemma_key_lt_trichotomy(e[0].0, k);
        assert(key_lt(e[0].0, k));
        assert(e[0].0 != k);
        assert(!key_lt(k, e[0].0));
        let rest = e.drop_first();
        assert forall|x: int| 0 <= x < j - 1 implies key_lt(#[trigger] rest[x].0, k) by {
            assert(rest[x] == e[x + 1]);
        }
        lemma_entry_insert_skip(rest, k, v, j - 1);
        assert(rest.skip(j - 1) =~= e.skip(j));
        assert(seq![e[0]] + rest.take(j - 1) =~= e.take(j));
    }
}

pub proof fn lemma_sorted_insert(e: Seq<(Seq<char>, JsonView)>, k: Seq<char>, v: JsonView)
    requires
        sorted_keys(e),
    ensures
        sorted_keys(entry_insert(e, k, v)),
        forall|i: int|
            0 <= i < entry_insert(e, k, v).len() ==> (#[trigger] entry_insert(e, k, v)[i].0 == k
                || exists|j: int| 0 <= j < e.len() && e[j] == entry_insert(e, k, v)[i]),
    decreases e.len(),
{
    let r = entry_insert(e, k, v);
    if e.len() == 0 {
    } else if e[0].0 == k {
        assert forall|i: int| 0 <= i < r.len() implies (#[trigger] r[i].0 == k || exists|j: int|
            0 <= j < e.len() && e[j] == r[i]) by {
            if i > 0 {
                assert(e[i] == r[i]);
            }
        }
    } else if key_lt(k, e[0].0) {
        assert forall|i: int, j: int| 0 <= i < j < r.len() implies key_lt(
            #[trigger] r[i].0,
            #[trigger] r[j].0,
        ) by {
            if i == 0 {
                if j > 1 {
                    lemma_key_lt_transitive(k, e[0].0, e[j - 1].0);
                }
            } else {
                assert(r[i] == e[i - 1]);
                assert(r[j] == e[j - 1]);
            }
        }
        assert forall|i: int| 0 <= i < r.len() implies (#[trigger] r[i].0 == k || exists|j: int|
            0 <= j < e.len() && e[j] == r[i]) by {
            if i > 0 {
                assert(e[i - 1] == r[i]);
            }
        }
    } else {
        let rest = e.drop_first();
        assert(sorted_keys(rest)) by {
            assert forall|i: int, j: int| 0 <= i < j < rest.len() implies key_lt(
                #[trigger] rest[i].0,
                #[trigger] rest[j].0,
            ) by {
                assert(rest[i] == e[i + 1]);
                assert(rest[j] == e[j + 1]);
            }
        }
        lemma_sorted_insert(rest, k, v);
        let rr = entry_insert(rest, k, v);
        lemma_key_lt_trichotomy(k, e[0].0);
        assert(key_lt(e[0].0, k));
        assert forall|i: int| 0 <= i < r.len() implies (#[trigger] r[i].0 == k || exists|j: int|
            0 <= j < e.len() && e[j] == r[i]) by {
            if i == 0 {
                assert(e[0] == r[0]);
            } else {
                assert(r[i] == rr[i - 1]);
                if rr[i - 1].0 != k {
                    let j = choose|j: int| 0 <= j < rest.len() && rest[j] == rr[i - 1];
                    assert(e[j + 1] == r[i]);
                }
            }
        }
        assert forall|i: int, j: int| 0 <= i < j < r.len() implies key_lt(
            #[trigger] r[i].0,
            #[trigger] r[j].0,
        ) by {
            if i == 0 {
                assert(r[j] == rr[j - 1]);
                if rr[j - 1].0 == k {
                } else {
                    let x = choose|x: int| 0 <= x < rest.len() && rest[x] == rr[j - 1];
                    assert(e[x + 1] == rest[x]);
                }
            } else {
                assert(r[i] == rr[i - 1]);
                assert(r[j] == rr[j - 1]);
            }
        }
    }
}

pub proof fn lemma_sorted_remove(e: Seq<(Seq<char>, JsonView)>, i: int)
    requires
        sorted_keys(e),
        0 <= i < e.len(),
    ensures
        sorted_keys(e.remove(i)),
{
    let r = e.remove(i);
    assert forall|a: int, b: int| 0 <= a < b < r.len() implies key_lt(
        #[trigger] r[a].0,
        #[trigger] r[b].0,
    ) by {
        let a2 = if a < i {
            a
        } else {
            a + 1
        };
        let b2 = if b < i {
            b
        } else {
            b + 1
        };
        assert(r[a] == e[a2]);
        assert(r[b] == e[b2]);
    }
}

/// The index of the member with key `k`, if any.
pub fn find_entry(o: &Vec<(String, Value)>, k: &str) -> (r: Option<usize>)
    ensures
        match r {
            Some(i) => i < o@.len() && o@[i as int].0@ == k@ && forall|j: int|
                0 <= j < i ==> (#[trigger] o@[j]).0@ != k@,
            None => forall|j: int| 0 <= j < o@.len() ==> (#[trigger] o@[j]).0@ != k@,
        },
        entry_get(entries_view(o@), k@) == match r {
            Some(i) => Some(o@[i as int].1@),
            None => None::<JsonView>,
        },
{
    let mut i: usize = 0;
    while i < o.len()
        invariant
            i <= o@.len(),
            forall|j: int| 0 <= j < i ==> (#[trigger] o@[j]).0@ != k@,
        decreases o.len() - i,
    {
        if same_text(o[i].0.as_str(), k) {
            proof {
                let e = entries_view(o@);
                assert forall|j: int| 0 <= j < i implies e[j].0 != k@ by {
                    assert(e[j].0 == o@[j].0@);
                }
                lemma_entry_get_at(e, k@, i as int);
            }
            return Some(i);
        }
        i = i + 1;
    }
    proof {
        let e = entries_view(o@);
        assert forall|j: int| 0 <= j < e.len() implies e[j].0 != k@ by {
            assert(e[j].0 == o@[j].0@);
        }
        lemma_entry_get_none(e, k@);
    }
    None
}

/// Sets member `k` of the member list `o` to `v`.
pub fn insert_entry(o: &mut Vec<(String, Value)>, k: String, v: Value)
    ensures
        entries_view(final(o)@) == entry_insert(entries_view(old(o)@), k@, v@),
{
    let ghost e = entries_view(o@);
    let mut j: usize = 0;
    while j < o.len() && key_less(o[j].0.as_str(), k.as_str())
        invariant
            e == entries_view(o@),
            j <= o@.len(),
            forall|x: int| 0 <= x < j ==> key_lt(#[trigger] e[x].0, k@),
        decreases o.len() - j,
    {
        j = j + 1;
    }
    proof {
        lemma_entry_insert_skip(e, k@, v@, j as int);
    }
    let ghost kv = k@;
    let ghost vv = v@;
    if j < o.len() && same_text(o[j].0.as_str(), k.as_str()) {
        o.remove(j);
        o.insert(j, (k, v));
        proof {
            assert(e.skip(j as int)[0].0 == kv);
            assert(entry_insert(e.skip(j as int), kv, vv) == seq![(kv, vv)] + e.skip(
                j as int,
            ).drop_first());
            assert(entries_view(o@) =~= e.take(j as int) + (seq![(kv, vv)] + e.skip(
                j as int,
            ).drop_first()));
        }
    } else {
        proof {
            if j < o@.len() {
                lemma_key_lt_trichotomy(e[j as int].0, kv);
                assert(e.skip(j as int)[0] == e[j as int]);
                assert(entry_insert(e.skip(j as int), kv, vv) == seq![(kv, vv)] + e.skip(
                    j as int,
                ));
            } else {
                assert(e.skip(j as int) =~= Seq::<(Seq<char>, JsonView)>::empty());
            }
        }
        o.insert(j, (k, v));
        proof {
            assert(entries_view(o@) =~= e.take(j as int) + (seq![(kv, vv)] + e.skip(j as int)));
        }
    }
}

/// Removes member `k` from the member list `o`, returning its value if it was there.
pub fn remove_entry(o: &mut Vec<(String, Value)>, k: &str) -> (r: Option<Value>)
    ensures
        entries_view(final(o)@) == entry_remove(entries_view(old(o)@), k@),
        match r {
            Some(x) => entry_get(entries_view(old(o)@), k@) == Some(x@),
            None => entry_get(entries_view(old(o)@), k@) == None::<JsonView>,
        },
{
    let ghost e = entries_view(o@);
    match find_entry(o, k) {
        Some(i) => {
            proof {
                assert forall|j: int| 0 <= j < i implies e[j].0 != k@ by {
                    assert(e[j].0 == o@[j].0@);
                }
                lemma_entry_get_at(e, k@, i as int);
            }
            let (_, x) = o.remove(i);
            proof {
                assert(entries_view(o@) =~= e.remove(i as int));
            }
            Some(x)
        },
        None => {
            proof {
                assert forall|j: int| 0 <= j < e.len() implies e[j].0 != k@ by {
                    assert(e[j].0 == o@[j].0@);
                }
                lemma_entry_get_none(e, k@);
            }
            None
        },
    }
}

impl Value {
    /// Whether two values are the same JSON value (numbers by their text).
    pub fn same_as(&self, other: &Value) -> (r: bool)
        ensures
            r == (self@ == other@),
        decreases self,
    {
        proof {
            lemma_view_shape(*self);
            lemma_view_shape(*other);
        }
        match self {
            Value::Null => match other {
                Value::Null => true,
                _ => false,
            },
            Value::Bool(a) => match other {
                Value::Bool(b) => *a == *b,
                _ => false,
            },
            Value::Number(a) => match other {
                Value::Number(b) => same_text(a.as_str(), b.as_str()),
                _ => false,
            },
            Value::String(a) => match other {
                Value::String(b) => same_text(a.as_str(), b.as_str()),
                _ => false,
            },
            Value::Array(a) => match other {
                Value::Array(b) => {
                    assert(values_view(a@).len() == a@.len());
                    assert(values_view(b@).len() == b@.len());
                    if a.len() != b.len() {
                        return false;
                    }
                    let mut i: usize = 0;
                    while i < a.len()
                        invariant
                            self@ == JsonView::Array(values_view(a@)),
                            other@ == JsonView::Array(values_view(b@)),
                            a@.len() == b@.len(),
                            i <= a@.len(),
                            forall|j: int| 0 <= j < i ==> (#[trigger] a@[j])@ == b@[j]@,
                            forall|j: int|
                                0 <= j < a@.len() ==> decreases_to!(*self => #[trigger] a@[j]),
                        decreases a.len() - i,
                    {
                        if !a[i].same_as(&b[i]) {
                            assert(values_view(a@)[i as int] != values_view(b@)[i as int]);
                            return false;
                        }
                        i = i + 1;
                    }
                    assert(values_view(a@) =~= values_view(b@));
                    true
                },
                _ => false,
            },
            Value::Object(a) => match other {
                Value::Object(b) => {
                    assert(entries_view(a@).len() == a@.len());
                    assert(entries_view(b@).len() == b@.len());
                    if a.len() != b.len() {
                        return false;
                    }
                    let mut i: usize = 0;
                    while i < a.len()
                        invariant
                            self@ == JsonView::Object(entries_view(a@)),
                            other@ == JsonView::Object(entries_view(b@)),
                            a@.len() == b@.len(),
                            i <= a@.len(),
                            forall|j: int|
                                0 <= j < i ==> (#[trigger] a@[j]).0@ == b@[j].0@ && a@[j].1@
                                    == b@[j].1@,
                            forall|j: int|
                                0 <= j < a@.len() ==> decreases_to!(*self => (#[trigger] a@[j]).1),
                        decreases a.len() - i,
                    {
                        if !same_text(a[i].0.as_str(), b[i].0.as_str()) || !a[i].1.same_as(&b[i].1) {
                            assert(entries_view(a@)[i as int] != entries_view(b@)[i as int]);
                            return false;
                        }
                        i = i + 1;
                    }
                    assert(entries_view(a@) =~= entries_view(b@));
                    true
                },
                _ => false,
            },
        }
    }

    /// A copy of the value.
    pub fn duplicate(&self) -> (r: Value)
        ensures
            r@ == self@,
        decreases self,
    {
        match self {
            Value::Null => Value::Null,
            Value::Bool(b) => Value::Bool(*b),
            Value::Number(n) => Value::Number(n.clone()),
            Value::String(s) => Value::String(s.clone()),
            Value::Array(a) => {
                let mut out: Vec<Value> = Vec::new();
                let mut i: usize = 0;
                while i < a.len()
                    invariant
                        i <= a@.len(),
                        out@.len() == i,
                        values_view(out@) == values_view(a@).take(i as int),
                        forall|j: int| 0 <= j < a@.len() ==> decreases_to!(*self => #[trigger] a@[j]),
                    decreases a.len() - i,
                {
                    let x = a[i].duplicate();
                    let ghost before = out@;
                    assert(before.len() == i);
                    out.push(x);
                    proof {
                        assert(out@ == before.push(x));
                        assert forall|j: int| 0 <= j < out@.len() implies #[trigger] values_view(out@)[j]
                            == values_view(a@).take(i + 1)[j] by {
                            if j < i {
                                assert(values_view(out@)[j] == out@[j]@);
                                assert(out@[j] == before[j]);
                                assert(values_view(before)[j] == before[j]@);
                            } else {
                                assert(values_view(out@)[j] == x@);
                            }
                        }
                    }
                    i = i + 1;
                    assert(values_view(out@) =~= values_view(a@).take(i as int));
                }
                proof {
                    lemma_array_view(*a);
                    lemma_array_view(out);
                    assert(values_view(a@).take(a@.len() as int) =~= values_view(a@));
                }
                Value::Array(out)
            },
            Value::Object(o) => {
                let mut out: Vec<(String, Value)> = Vec::new();
                let mut i: usize = 0;
                while i < o.len()
                    invariant
                        i <= o@.len(),
                        out@.len() == i,
                        entries_view(out@) == entries_view(o@).take(i as int),
                        forall|j: int|
                            0 <= j < o@.len() ==> decreases_to!(*self => (#[trigger] o@[j]).1),
                    decreases o.len() - i,
                {
                    let k = o[i].0.clone();
                    let x = o[i].1.duplicate();
                    let ghost before = out@;
                    assert(before.len() == i);
                    out.push((k, x));
                    proof {
                        assert forall|j: int| 0 <= j < out@.len() implies #[trigger] entries_view(out@)[j]
                            == entries_view(o@).take(i + 1)[j] by {
                            if j < i {
                                assert(entries_view(out@)[j] == (out@[j].0@, out@[j].1@));
                                assert(out@[j] == before[j]);
                                assert(entries_view(before)[j] == (before[j].0@, before[j].1@));
                            } else {
                                assert(entries_view(out@)[j] == (out@[j].0@, out@[j].1@));
                            }
                        }
                    }
                    i = i + 1;
                    assert(entries_view(out@) =~= entries_view(o@).take(i as int));
                }
                proof {
                    lemma_object_view(*o);
                    lemma_object_view(out);
                    assert(entries_view(o@).take(o@.len() as int) =~= entries_view(o@));
                }
                Value::Object(out)
            },
        }
    }
}

} // verus!
