//! Resolving dotted paths in a document.
use vstd::prelude::*;
use crate::json::{child, find_entry, lemma_view_shape, values_view, JsonView, Value, entry_get};
use crate::text::{same_text, split_dots, split_dots_exec};

verus! {

/// Whether `v` is an object whose `"id"` member is the string `k`.
pub open spec fn has_id_text(v: JsonView, k: Seq<char>) -> bool {
    child(v, "id"@) == Some(JsonView::Str(k))
}

/// The first object in `a` whose `"id"` is the string `k`.
pub open spec fn find_by_id(a: Seq<JsonView>, k: Seq<char>) -> Option<JsonView>
    decreases a.len(),
{
    if a.len() == 0 {
        None
    } else if has_id_text(a[0], k) {
        Some(a[0])
    } else {
        find_by_id(a.drop_first(), k)
    }
}

/// One step along a path: member `k` of an object, or the object of an array
/// whose `"id"` is `k`. Other values have nothing below them.
pub open spec fn step(v: JsonView, k: Seq<char>) -> Option<JsonView> {
    match v {
        JsonView::Object(e) => entry_get(e, k),
        JsonView::Array(a) => find_by_id(a, k),
        _ => None,
    }
}

/// The value that the path pieces `segs` lead to from `v`.
pub open spec fn resolve(v: JsonView, segs: Seq<Seq<char>>) -> Option<JsonView>
    decreases segs.len(),
{
    if segs.len() == 0 {
        Some(v)
    } else {
        match step(v, segs[0]) {
            Some(c) => resolve(c, segs.drop_first()),
            None => None,
        }
    }
}

/// Whether `path` leads somewhere from `v`; the empty path always does.
pub open spec fn reachable(path: Seq<char>, v: JsonView) -> bool {
    path.len() == 0 || resolve(v, split_dots(path)) is Some
}

proof fn lemma_find_by_id_at(a: Seq<JsonView>, k: Seq<char>, i: int)
    requires
        0 <= i < a.len(),
        has_id_text(a[i], k),
        forall|j: int| 0 <= j < i ==> !has_id_text(#[trigger] a[j], k),
    ensures
        find_by_id(a, k) == Some(a[i]),
    decreases i,
{
    if i > 0 {
        lemma_find_by_id_at(a.drop_first(), k, i - 1);
    }
}

proof fn lemma_find_by_id_none(a: Seq<JsonView>, k: Seq<char>)
    requires
        forall|j: int| 0 <= j < a.len() ==> !has_id_text(#[trigger] a[j], k),
    ensures
        find_by_id(a, k) == None::<JsonView>,
    decreases a.len(),
{
    if a.len() > 0 {
        lemma_find_by_id_none(a.drop_first(), k);
    }
}

/// Whether `v` is an object whose `"id"` is the string `k`.
fn id_is(v: &Value, k: &str) -> (r: bool)
    ensures
        r == has_id_text(v@, k@),
{
    proof {
        lemma_view_shape(*v);
    }
    match v {
        Value::Object(o) => match find_entry(o, "id") {
            Some(i) => {
                proof {
                    lemma_view_shape(o@[i as int].1);
                }
                match &o[i].1 {
                    Value::String(s) => same_text(s.as_str(), k),
                    _ => false,
                }
            },
            None => false,
        },
        _ => false,
    }
}

/// One step along a path from `v`.
fn step_exec<'a>(v: &'a Value, k: &str) -> (r: Option<&'a Value>)
    ensures
        match r {
            Some(c) => step(v@, k@) == Some(c@),
            None => step(v@, k@) == None::<JsonView>,
        },
{
    proof {
        lemma_view_shape(*v);
    }
    match v {
        Value::Object(o) => match find_entry(o, k) {
            Some(i) => Some(&o[i].1),
            None => None,
        },
        Value::Array(a) => {
            let ghost av = values_view(a@);
            let mut i: usize = 0;
            while i < a.len()
                invariant
                    av == values_view(a@),
                    v@ == JsonView::Array(av),
                    i <= a@.len(),
                    forall|j: int| 0 <= j < i ==> !has_id_text(#[trigger] av[j], k@),
                decreases a.len() - i,
            {
                assert(av[i as int] == a@[i as int]@);
                if id_is(&a[i], k) {
                    proof {
                        lemma_find_by_id_at(av, k@, i as int);
                    }
                    return Some(&a[i]);
                }
                i = i + 1;
            }
            proof {
                lemma_find_by_id_none(av, k@);
            }
            None
        },
        _ => None,
    }
}

/// Whether `path` is reachable starting from `value`.
pub fn is_reachable(path: &str, value: &Value) -> (r: bool)
    ensures
        r == reachable(path@, value@),
{
    if path.is_empty() {
        return true;
    }
    let segs = split_dots_exec(path);
    let ghost sv = split_dots(path@);
    let mut content: &Value = value;
    let mut i: usize = 0;
    assert(sv.skip(0) =~= sv);
    while i < segs.len()
        invariant
            path@.len() > 0,
            sv == split_dots(path@),
            segs@.len() == sv.len(),
            forall|j: int| 0 <= j < segs@.len() ==> #[trigger] segs@[j]@ == sv[j],
            i <= segs@.len(),
            resolve(value@, sv) == resolve(content@, sv.skip(i as int)),
        decreases segs.len() - i,
    {
        assert(sv.skip(i as int)[0] == segs@[i as int]@);
        assert(sv.skip(i as int).drop_first() =~= sv.skip(i + 1));
        match step_exec(content, segs[i].as_str()) {
            Some(c) => {
                content = c;
            },
            None => {
                assert(resolve(content@, sv.skip(i as int)) == None::<JsonView>);
                return false;
            },
        }
        i = i + 1;
    }
    assert(sv.skip(i as int) =~= Seq::<Seq<char>>::empty());
    true
}

} // verus!
