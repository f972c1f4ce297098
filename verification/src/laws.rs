//! Properties of applying and rebasing operations.
use vstd::prelude::*;
use crate::json::{
    child, entry_get, entry_insert, entry_remove, lemma_sorted_insert, lemma_sorted_remove,
    sorted_keys, well_formed, JsonView,
};
use crate::operation::{
    Failure,
    apply_spec, op_well_formed, entry_update, set_in, splice_in, splice_seq, with_child, OpView,
};
use crate::model::{apply_all, patch_ops, Patch};
use crate::path::{resolve, step};
use crate::rebase::{op_ot_spec, rebase_spec};
use crate::text::{lemma_key_lt_irreflexive, split_dots};

verus! {

proof fn lemma_get_after_insert(e: Seq<(Seq<char>, JsonView)>, k: Seq<char>, x: JsonView)
    ensures
        entry_get(entry_insert(e, k, x), k) == Some(x),
    decreases e.len(),
{
    lemma_key_lt_irreflexive(k);
    if e.len() > 0 && e[0].0 != k && !crate::text::key_lt(k, e[0].0) {
        lemma_get_after_insert(e.drop_first(), k, x);
        let r = entry_insert(e, k, x);
        assert(r.drop_first() =~= entry_insert(e.drop_first(), k, x));
    }
}

proof fn lemma_get_after_update(e: Seq<(Seq<char>, JsonView)>, k: Seq<char>, x: JsonView)
    requires
        entry_get(e, k) is Some,
    ensures
        entry_get(entry_update(e, k, x), k) == Some(x),
    decreases e.len(),
{
    if e.len() > 0 && e[0].0 != k {
        lemma_get_after_update(e.drop_first(), k, x);
        let r = entry_update(e, k, x);
        assert(r.drop_first() =~= entry_update(e.drop_first(), k, x));
    }
}

proof fn lemma_step_with_child(v: JsonView, k: Seq<char>, c: JsonView)
    requires
        child(v, k) is Some,
    ensures
        step(with_child(v, k, c), k) == Some(c),
{
    match v {
        JsonView::Object(e) => lemma_get_after_update(e, k, c),
        _ => {},
    }
}

proof fn lemma_set_then_resolve(v: JsonView, segs: Seq<Seq<char>>, x: JsonView)
    requires
        segs.len() >= 1,
        set_in(v, segs, Some(x)) is Ok,
    ensures
        resolve(set_in(v, segs, Some(x))->Ok_0, segs) == Some(x),
    decreases segs.len(),
{
    let w = set_in(v, segs, Some(x))->Ok_0;
    if segs.len() == 1 {
        match v {
            JsonView::Object(e) => {
                lemma_get_after_insert(e, segs[0], x);
                assert(segs.drop_first().len() == 0);
                assert(resolve(x, segs.drop_first()) == Some(x));
                assert(step(w, segs[0]) == Some(x));
            },
            _ => {},
        }
    } else {
        let c = child(v, segs[0])->Some_0;
        assert(child(v, segs[0]) is Some);
        let c2 = set_in(c, segs.drop_first(), Some(x))->Ok_0;
        assert(set_in(c, segs.drop_first(), Some(x)) is Ok);
        assert(w == with_child(v, segs[0], c2));
        lemma_set_then_resolve(c, segs.drop_first(), x);
        lemma_step_with_child(v, segs[0], c2);
        assert(step(w, segs[0]) == Some(c2));
        assert(resolve(w, segs) == resolve(c2, segs.drop_first()));
    }
}

proof fn lemma_splice_then_resolve(
    v: JsonView,
    segs: Seq<Seq<char>>,
    index: int,
    remove: int,
    ins: Seq<JsonView>,
)
    requires
        segs.len() >= 1,
        splice_in(v, segs, index, remove, ins) is Ok,
    ensures
        exists|a: Seq<JsonView>|
            resolve(v, segs) == Some(JsonView::Array(a)) && splice_seq(a, index, remove, ins) is Ok
                && resolve(splice_in(v, segs, index, remove, ins)->Ok_0, segs) == Some(
                JsonView::Array(splice_seq(a, index, remove, ins)->Ok_0),
            ),
    decreases segs.len(),
{
    let c = child(v, segs[0])->Some_0;
    if segs.len() == 1 {
        let a = c->Array_0;
        let a2 = splice_seq(a, index, remove, ins)->Ok_0;
        let w = splice_in(v, segs, index, remove, ins)->Ok_0;
        assert(w == with_child(v, segs[0], JsonView::Array(a2)));
        lemma_step_with_child(v, segs[0], JsonView::Array(a2));
        assert(segs.drop_first().len() == 0);
        assert(resolve(c, segs.drop_first()) == Some(c));
        assert(resolve(JsonView::Array(a2), segs.drop_first()) == Some(JsonView::Array(a2)));
        assert(step(v, segs[0]) == Some(c));
        assert(resolve(v, segs) == Some(JsonView::Array(a)));
        assert(resolve(w, segs) == Some(JsonView::Array(a2)));
    } else {
        let c2 = splice_in(c, segs.drop_first(), index, remove, ins)->Ok_0;
        lemma_splice_then_resolve(c, segs.drop_first(), index, remove, ins);
        lemma_step_with_child(v, segs[0], c2);
        let a = choose|a: Seq<JsonView>|
            resolve(c, segs.drop_first()) == Some(JsonView::Array(a)) && splice_seq(
                a,
                index,
                remove,
                ins,
            ) is Ok && resolve(c2, segs.drop_first()) == Some(
                JsonView::Array(splice_seq(a, index, remove, ins)->Ok_0),
            );
        assert(resolve(v, segs) == Some(JsonView::Array(a)));
    }
}

/// Every member of `e` is well formed.
spec fn members_well_formed(e: Seq<(Seq<char>, JsonView)>) -> bool {
    forall|i: int| 0 <= i < e.len() ==> #[trigger] well_formed(e[i].1)
}

proof fn lemma_entry_get_member(e: Seq<(Seq<char>, JsonView)>, k: Seq<char>)
    ensures
        entry_get(e, k) matches Some(x) ==> exists|i: int| 0 <= i < e.len() && e[i] == (k, x),
    decreases e.len(),
{
    if e.len() > 0 && e[0].0 != k {
        lemma_entry_get_member(e.drop_first(), k);
        if entry_get(e, k) is Some {
            let x = entry_get(e, k)->Some_0;
            let i = choose|i: int| 0 <= i < e.drop_first().len() && e.drop_first()[i] == (k, x);
            assert(e[i + 1] == (k, x));
        }
    } else if e.len() > 0 {
        assert(e[0] == (k, e[0].1));
    }
}

/// A member of a well-formed object is well formed.
proof fn lemma_child_well_formed(v: JsonView, k: Seq<char>)
    requires
        well_formed(v),
    ensures
        child(v, k) matches Some(c) ==> well_formed(c),
{
    match v {
        JsonView::Object(e) => {
            crate::json::lemma_well_formed_object(e);
            lemma_entry_get_member(e, k);
            if entry_get(e, k) is Some {
                let x = entry_get(e, k)->Some_0;
                let i = choose|i: int| 0 <= i < e.len() && e[i] == (k, x);
                assert(well_formed(e[i].1));
            }
        },
        _ => {},
    }
}

proof fn lemma_insert_well_formed(e: Seq<(Seq<char>, JsonView)>, k: Seq<char>, x: JsonView)
    requires
        sorted_keys(e),
        members_well_formed(e),
        well_formed(x),
    ensures
        well_formed(JsonView::Object(entry_insert(e, k, x))),
{
    lemma_sorted_insert(e, k, x);
    lemma_insert_members(e, k, x);
    let r = entry_insert(e, k, x);
    assert(sorted_keys(r));
    assert(members_well_formed(r));
    crate::json::lemma_well_formed_object(r);
}

/// The members after an insertion are the new pair or members of before.
proof fn lemma_insert_members(e: Seq<(Seq<char>, JsonView)>, k: Seq<char>, x: JsonView)
    requires
        members_well_formed(e),
        well_formed(x),
    ensures
        members_well_formed(entry_insert(e, k, x)),
    decreases e.len(),
{
    let r = entry_insert(e, k, x);
    if e.len() == 0 {
    } else if e[0].0 == k {
        assert forall|i: int| 0 <= i < r.len() implies #[trigger] well_formed(r[i].1) by {
            if i > 0 {
                assert(r[i] == e[i]);
            }
        }
    } else if crate::text::key_lt(k, e[0].0) {
        assert forall|i: int| 0 <= i < r.len() implies #[trigger] well_formed(r[i].1) by {
            if i > 0 {
                assert(r[i] == e[i - 1]);
            }
        }
    } else {
        let rest = e.drop_first();
        assert(members_well_formed(rest)) by {
            assert forall|i: int| 0 <= i < rest.len() implies #[trigger] well_formed(rest[i].1) by {
                assert(rest[i] == e[i + 1]);
            }
        }
        lemma_insert_members(rest, k, x);
        let rr = entry_insert(rest, k, x);
        assert forall|i: int| 0 <= i < r.len() implies #[trigger] well_formed(r[i].1) by {
            if i > 0 {
                assert(r[i] == rr[i - 1]);
            }
        }
    }
}

/// Removing a key removes the first member with that key, if there is one.
proof fn lemma_remove_shape(e: Seq<(Seq<char>, JsonView)>, k: Seq<char>)
    ensures
        entry_remove(e, k) == e || exists|i: int|
            0 <= i < e.len() && entry_remove(e, k) == e.remove(i),
    decreases e.len(),
{
    if e.len() == 0 {
    } else if e[0].0 == k {
        assert(e.remove(0) =~= e.drop_first());
    } else {
        let rest = e.drop_first();
        lemma_remove_shape(rest, k);
        if entry_remove(rest, k) == rest {
            assert(seq![e[0]] + rest =~= e);
        } else {
            let i = choose|i: int| 0 <= i < rest.len() && entry_remove(rest, k) == rest.remove(i);
            assert(seq![e[0]] + rest.remove(i) =~= e.remove(i + 1));
        }
    }
}

proof fn lemma_remove_well_formed(e: Seq<(Seq<char>, JsonView)>, k: Seq<char>)
    requires
        sorted_keys(e),
        members_well_formed(e),
    ensures
        well_formed(JsonView::Object(entry_remove(e, k))),
{
    lemma_remove_shape(e, k);
    crate::json::lemma_well_formed_object(entry_remove(e, k));
    if entry_remove(e, k) != e {
        let i = choose|i: int| 0 <= i < e.len() && entry_remove(e, k) == e.remove(i);
        lemma_sorted_remove(e, i);
        let r = e.remove(i);
        assert forall|a: int| 0 <= a < r.len() implies #[trigger] well_formed(r[a].1) by {
            if a < i {
                assert(r[a] == e[a]);
            } else {
                assert(r[a] == e[a + 1]);
            }
        }
    }
}

/// Updating a member keeps the keys, and each value is the old one or the new one.
proof fn lemma_update_shape(e: Seq<(Seq<char>, JsonView)>, k: Seq<char>, c: JsonView)
    ensures
        entry_update(e, k, c).len() == e.len(),
        forall|i: int|
            0 <= i < e.len() ==> (#[trigger] entry_update(e, k, c)[i]).0 == e[i].0 && (
            entry_update(e, k, c)[i].1 == e[i].1 || entry_update(e, k, c)[i].1 == c),
    decreases e.len(),
{
    if e.len() > 0 && e[0].0 != k {
        lemma_update_shape(e.drop_first(), k, c);
        let r = entry_update(e, k, c);
        assert forall|i: int| 0 <= i < e.len() implies (#[trigger] r[i]).0 == e[i].0 && (r[i].1
            == e[i].1 || r[i].1 == c) by {
            if i > 0 {
                assert(r[i] == entry_update(e.drop_first(), k, c)[i - 1]);
                assert(e[i] == e.drop_first()[i - 1]);
            }
        }
    } else if e.len() > 0 {
        let r = entry_update(e, k, c);
        assert forall|i: int| 0 <= i < e.len() implies (#[trigger] r[i]).0 == e[i].0 && (r[i].1
            == e[i].1 || r[i].1 == c) by {
            if i > 0 {
                assert(r[i] == e[i]);
            }
        }
    }
}

proof fn lemma_with_child_well_formed(v: JsonView, k: Seq<char>, c: JsonView)
    requires
        well_formed(v),
        well_formed(c),
    ensures
        well_formed(with_child(v, k, c)),
{
    match v {
        JsonView::Object(e) => {
            lemma_update_shape(e, k, c);
            let r = entry_update(e, k, c);
            crate::json::lemma_well_formed_object(e);
            crate::json::lemma_well_formed_object(r);
            assert forall|i: int, j: int| 0 <= i < j < r.len() implies crate::text::key_lt(
                #[trigger] r[i].0,
                #[trigger] r[j].0,
            ) by {
                assert(r[i].0 == e[i].0);
                assert(r[j].0 == e[j].0);
            }
            assert forall|i: int| 0 <= i < r.len() implies #[trigger] well_formed(r[i].1) by {
                assert(r[i].1 == e[i].1 || r[i].1 == c);
            }
        },
        _ => {},
    }
}

proof fn lemma_set_in_well_formed(v: JsonView, segs: Seq<Seq<char>>, value: Option<JsonView>)
    requires
        well_formed(v),
        value matches Some(x) ==> well_formed(x),
    ensures
        set_in(v, segs, value) matches Ok(w) ==> well_formed(w),
    decreases segs.len(),
{
    if segs.len() <= 1 {
        match v {
            JsonView::Object(e) => {
                crate::json::lemma_well_formed_object(e);
                match value {
                    Some(x) => lemma_insert_well_formed(e, segs[0], x),
                    None => lemma_remove_well_formed(e, segs[0]),
                }
            },
            _ => {},
        }
    } else {
        lemma_child_well_formed(v, segs[0]);
        match child(v, segs[0]) {
            Some(c) => {
                lemma_set_in_well_formed(c, segs.drop_first(), value);
                match set_in(c, segs.drop_first(), value) {
                    Ok(c2) => lemma_with_child_well_formed(v, segs[0], c2),
                    Err(_) => {},
                }
            },
            None => {},
        }
    }
}

proof fn lemma_splice_in_well_formed(
    v: JsonView,
    segs: Seq<Seq<char>>,
    index: int,
    remove: int,
    ins: Seq<JsonView>,
)
    requires
        well_formed(v),
        well_formed(JsonView::Array(ins)),
        0 <= index,
        0 <= remove,
    ensures
        splice_in(v, segs, index, remove, ins) matches Ok(w) ==> well_formed(w),
    decreases segs.len(),
{
    lemma_child_well_formed(v, segs[0]);
    if segs.len() <= 1 {
        match child(v, segs[0]) {
            Some(JsonView::Array(a)) => match splice_seq(a, index, remove, ins) {
                Ok(a2) => {
                    crate::json::lemma_well_formed_array(a);
                    crate::json::lemma_well_formed_array(ins);
                    crate::json::lemma_well_formed_array(a2);
                    assert forall|i: int| 0 <= i < a2.len() implies #[trigger] well_formed(
                        a2[i],
                    ) by {
                        if i < index {
                            assert(a2[i] == a[i]);
                        } else if i < index + ins.len() {
                            assert(a2[i] == ins[i - index]);
                        } else {
                            assert(a2[i] == a[i - ins.len() + remove]);
                        }
                    }
                    lemma_with_child_well_formed(v, segs[0], JsonView::Array(a2));
                },
                Err(_) => {},
            },
            _ => {},
        }
    } else {
        match child(v, segs[0]) {
            Some(c) => {
                lemma_splice_in_well_formed(c, segs.drop_first(), index, remove, ins);
                match splice_in(c, segs.drop_first(), index, remove, ins) {
                    Ok(c2) => lemma_with_child_well_formed(v, segs[0], c2),
                    Err(_) => {},
                }
            },
            None => {},
        }
    }
}

/// Applying an operation keeps every object of the document ordered by key,
/// as long as what the operation brings in is ordered too.
pub proof fn law_apply_keeps_well_formed(op: OpView, doc: JsonView)
    requires
        well_formed(doc),
        op_well_formed(op),
    ensures
        apply_spec(op, doc) matches Ok(w) ==> well_formed(w),
{
    match op {
        OpView::Assign { path, value } => {
            if path.len() > 0 {
                lemma_set_in_well_formed(doc, split_dots(path), value);
            }
        },
        OpView::Splice { path, index, remove, insert } => match insert {
            JsonView::Array(ins) => {
                crate::text::lemma_split_dots_nonempty(path);
                lemma_splice_in_well_formed(doc, split_dots(path), index, remove, ins);
            },
            _ => {},
        },
    }
}

/// Reading a path after assigning a value there gives that value: after a
/// successful `Assign` of `x` at `path`, the document is `x` when the path is
/// empty, and otherwise `path` resolves to `x` in it.
pub proof fn law_assign_then_read(path: Seq<char>, x: JsonView, doc: JsonView)
    ensures
        apply_spec(OpView::Assign { path, value: Some(x) }, doc) matches Ok(w) ==> if path.len()
            == 0 {
            w == x
        } else {
            resolve(w, split_dots(path)) == Some(x)
        },
{
    if path.len() > 0 && apply_spec(OpView::Assign { path, value: Some(x) }, doc) is Ok {
        crate::text::lemma_split_dots_nonempty(path);
        lemma_set_then_resolve(doc, split_dots(path), x);
    }
}

/// In an object whose keys increase, removing a key leaves no member with it.
proof fn lemma_get_after_remove(e: Seq<(Seq<char>, JsonView)>, k: Seq<char>)
    requires
        sorted_keys(e),
    ensures
        entry_get(entry_remove(e, k), k) == None::<JsonView>,
    decreases e.len(),
{
    if e.len() == 0 {
    } else if e[0].0 == k {
        let rest = e.drop_first();
        lemma_key_lt_irreflexive(k);
        assert forall|j: int| 0 <= j < rest.len() implies rest[j].0 != k by {
            assert(rest[j] == e[j + 1]);
            assert(crate::text::key_lt(e[0].0, e[j + 1].0));
        }
        crate::json::lemma_entry_get_none(rest, k);
    } else {
        let rest = e.drop_first();
        assert(sorted_keys(rest)) by {
            assert forall|i: int, j: int| 0 <= i < j < rest.len() implies crate::text::key_lt(
                #[trigger] rest[i].0,
                #[trigger] rest[j].0,
            ) by {
                assert(rest[i] == e[i + 1]);
                assert(rest[j] == e[j + 1]);
            }
        }
        lemma_get_after_remove(rest, k);
        let r = entry_remove(e, k);
        assert(r.drop_first() =~= entry_remove(rest, k));
    }
}

proof fn lemma_delete_then_resolve(v: JsonView, segs: Seq<Seq<char>>)
    requires
        segs.len() >= 1,
        well_formed(v),
        set_in(v, segs, None) is Ok,
    ensures
        resolve(set_in(v, segs, None)->Ok_0, segs) == None::<JsonView>,
    decreases segs.len(),
{
    let w = set_in(v, segs, None)->Ok_0;
    if segs.len() == 1 {
        match v {
            JsonView::Object(e) => {
                crate::json::lemma_well_formed_object(e);
                lemma_get_after_remove(e, segs[0]);
                assert(step(w, segs[0]) == None::<JsonView>);
            },
            _ => {},
        }
    } else {
        let c = child(v, segs[0])->Some_0;
        assert(child(v, segs[0]) is Some);
        lemma_child_well_formed(v, segs[0]);
        let c2 = set_in(c, segs.drop_first(), None)->Ok_0;
        assert(set_in(c, segs.drop_first(), None) is Ok);
        assert(w == with_child(v, segs[0], c2));
        lemma_delete_then_resolve(c, segs.drop_first());
        lemma_step_with_child(v, segs[0], c2);
        assert(resolve(w, segs) == resolve(c2, segs.drop_first()));
    }
}

/// An `Assign` without a value deletes: after it succeeds on a document whose
/// objects have their keys in order, its path leads nowhere.
pub proof fn law_delete_then_read(path: Seq<char>, doc: JsonView)
    requires
        well_formed(doc),
    ensures
        apply_spec(OpView::Assign { path, value: None }, doc) matches Ok(w) ==> resolve(
            w,
            split_dots(path),
        ) == None::<JsonView>,
{
    if path.len() > 0 && apply_spec(OpView::Assign { path, value: None }, doc) is Ok {
        crate::text::lemma_split_dots_nonempty(path);
        lemma_delete_then_resolve(doc, split_dots(path));
    }
}

/// A successful splice finds an array at its path and leaves there the array
/// with `remove` elements from `index` on replaced by the inserted ones.
pub proof fn law_splice_then_read(
    path: Seq<char>,
    index: int,
    remove: int,
    ins: Seq<JsonView>,
    doc: JsonView,
)
    ensures
        apply_spec(
            OpView::Splice { path, index, remove, insert: JsonView::Array(ins) },
            doc,
        ) matches Ok(w) ==> exists|a: Seq<JsonView>|
            resolve(doc, split_dots(path)) == Some(JsonView::Array(a)) && index + remove <= a.len()
                && resolve(w, split_dots(path)) == Some(
                JsonView::Array(a.take(index) + ins + a.skip(index + remove)),
            ),
{
    if apply_spec(OpView::Splice { path, index, remove, insert: JsonView::Array(ins) }, doc) is Ok {
        crate::text::lemma_split_dots_nonempty(path);
        lemma_splice_then_resolve(doc, split_dots(path), index, remove, ins);
    }
}

proof fn lemma_get_other_after_insert(
    e: Seq<(Seq<char>, JsonView)>,
    k: Seq<char>,
    x: JsonView,
    k2: Seq<char>,
)
    requires
        k2 != k,
    ensures
        entry_get(entry_insert(e, k, x), k2) == entry_get(e, k2),
    decreases e.len(),
{
    let r = entry_insert(e, k, x);
    if e.len() == 0 {
        assert(r[0].0 == k);
        assert(r.drop_first().len() == 0);
    } else if e[0].0 == k {
        assert(r[0].0 == k);
        assert(r.drop_first() =~= e.drop_first());
        assert(entry_get(r, k2) == entry_get(r.drop_first(), k2));
    } else if crate::text::key_lt(k, e[0].0) {
        assert(r[0].0 == k);
        assert(r.drop_first() =~= e);
        assert(entry_get(r, k2) == entry_get(r.drop_first(), k2));
    } else {
        lemma_get_other_after_insert(e.drop_first(), k, x, k2);
        assert(r[0] == e[0]);
        assert(r.drop_first() =~= entry_insert(e.drop_first(), k, x));
    }
}

proof fn lemma_get_other_after_remove(e: Seq<(Seq<char>, JsonView)>, k: Seq<char>, k2: Seq<char>)
    requires
        k2 != k,
    ensures
        entry_get(entry_remove(e, k), k2) == entry_get(e, k2),
    decreases e.len(),
{
    if e.len() > 0 && e[0].0 != k {
        lemma_get_other_after_remove(e.drop_first(), k, k2);
        let r = entry_remove(e, k);
        assert(r.drop_first() =~= entry_remove(e.drop_first(), k));
    }
}

proof fn lemma_get_other_after_update(
    e: Seq<(Seq<char>, JsonView)>,
    k: Seq<char>,
    c: JsonView,
    k2: Seq<char>,
)
    requires
        k2 != k,
    ensures
        entry_get(entry_update(e, k, c), k2) == entry_get(e, k2),
    decreases e.len(),
{
    let r = entry_update(e, k, c);
    if e.len() == 0 {
    } else if e[0].0 == k {
        assert(r.drop_first() =~= e.drop_first());
    } else {
        lemma_get_other_after_update(e.drop_first(), k, c, k2);
        assert(r.drop_first() =~= entry_update(e.drop_first(), k, c));
    }
}

/// An operation changes only the member of the document that its path starts
/// with: every other member is as it was. (An `Assign` of the whole document,
/// with the empty path, replaces it and is left out.)
pub proof fn law_apply_touches_one_member(op: OpView, doc: JsonView, k: Seq<char>)
    requires
        !(op is Assign && op.path().len() == 0),
        k != split_dots(op.path())[0],
    ensures
        apply_spec(op, doc) matches Ok(w) ==> child(w, k) == child(doc, k),
{
    let segs = split_dots(op.path());
    crate::text::lemma_split_dots_nonempty(op.path());
    match doc {
        JsonView::Object(e) => {
            match op {
                OpView::Assign { path, value } => {
                    if segs.len() <= 1 {
                        match value {
                            Some(x) => lemma_get_other_after_insert(e, segs[0], x, k),
                            None => lemma_get_other_after_remove(e, segs[0], k),
                        }
                    } else if set_in(doc, segs, value) is Ok {
                        let c2 = set_in(child(doc, segs[0])->Some_0, segs.drop_first(), value)->Ok_0;
                        lemma_get_other_after_update(e, segs[0], c2, k);
                    }
                },
                OpView::Splice { path, index, remove, insert } => match insert {
                    JsonView::Array(ins) => {
                        if splice_in(doc, segs, index, remove, ins) is Ok {
                            if segs.len() <= 1 {
                                let a = child(doc, segs[0])->Some_0->Array_0;
                                let a2 = splice_seq(a, index, remove, ins)->Ok_0;
                                lemma_get_other_after_update(e, segs[0], JsonView::Array(a2), k);
                            } else {
                                let c2 = splice_in(
                                    child(doc, segs[0])->Some_0,
                                    segs.drop_first(),
                                    index,
                                    remove,
                                    ins,
                                )->Ok_0;
                                lemma_get_other_after_update(e, segs[0], c2, k);
                            }
                        }
                    },
                    _ => {},
                },
            }
        },
        _ => {},
    }
}

/// A splice made in parallel with an `Assign` at the splice's own path, or at a
/// path above it, is dropped: the array it splices was replaced.
pub proof fn law_splice_under_assign_dropped(content: JsonView, base: OpView, op: OpView)
    requires
        base is Assign,
        op is Splice,
        base.path().is_prefix_of(op.path()),
    ensures
        op_ot_spec(content, base, op) == None::<OpView>,
{
}

/// An operation that is transformed after itself is dropped: duplicates are
/// applied once.
pub proof fn law_duplicate_dropped(content: JsonView, op: OpView)
    ensures
        op_ot_spec(content, op, op) == None::<OpView>,
{
}

/// Operations on paths of which neither is a prefix of the other do not
/// interfere: the later one stands unchanged.
pub proof fn law_disjoint_kept(content: JsonView, base: OpView, op: OpView)
    requires
        !op.path().is_prefix_of(base.path()),
        !base.path().is_prefix_of(op.path()),
    ensures
        op_ot_spec(content, base, op) == Some(op),
{
}

/// Of two operations on the same path, an `Assign` made in parallel with an
/// earlier one (of either kind) stands: the last write wins.
pub proof fn law_last_assign_wins(content: JsonView, base: OpView, op: OpView)
    requires
        op is Assign,
        base.path() == op.path(),
        base != op,
    ensures
        op_ot_spec(content, base, op) == Some(op),
{
    assert(op.path().is_prefix_of(base.path()));
}

/// `a` with `remove` elements from `index` on replaced by `ins`.
pub open spec fn spliced(a: Seq<JsonView>, index: int, remove: int, ins: Seq<JsonView>) -> Seq<
    JsonView,
> {
    a.take(index) + ins + a.skip(index + remove)
}

/// Two different splices of one array, made in parallel, the later one working
/// after the range of the earlier one: the later one is moved by the earlier
/// one's change of length. Moved, it still replaces the elements it was meant
/// to replace, and the two splices commute: the earlier one and then the moved
/// one give the array that the later one and then the earlier one give.
pub proof fn law_shifted_splice_commutes(
    content: JsonView,
    path: Seq<char>,
    bi: int,
    br: int,
    bins: Seq<JsonView>,
    oi: int,
    or: int,
    oins: Seq<JsonView>,
    a: Seq<JsonView>,
)
    requires
        0 <= bi,
        0 <= br,
        bi + br <= oi,
        0 <= or,
        oi + or <= a.len(),
        (OpView::Splice { path, index: bi, remove: br, insert: JsonView::Array(bins) }) != (
        OpView::Splice { path, index: oi, remove: or, insert: JsonView::Array(oins) }),
    ensures
        op_ot_spec(
            content,
            OpView::Splice { path, index: bi, remove: br, insert: JsonView::Array(bins) },
            OpView::Splice { path, index: oi, remove: or, insert: JsonView::Array(oins) },
        ) == Some(
            OpView::Splice {
                path,
                index: oi + bins.len() - br,
                remove: or,
                insert: JsonView::Array(oins),
            },
        ),
        spliced(a, bi, br, bins).subrange(oi + bins.len() - br, oi + bins.len() - br + or)
            == a.subrange(oi, oi + or),
        spliced(spliced(a, bi, br, bins), oi + bins.len() - br, or, oins) == spliced(
            spliced(a, oi, or, oins),
            bi,
            br,
            bins,
        ),
{
    assert(path.subrange(0, path.len() as int) =~= path);
    let a1 = spliced(a, bi, br, bins);
    let j = oi + bins.len() - br;
    assert(a1.subrange(j, j + or) =~= a.subrange(oi, oi + or));
    let both = a.take(bi) + bins + a.subrange(bi + br, oi) + oins + a.skip(oi + or);
    assert(spliced(a1, j, or, oins) =~= both);
    assert(spliced(spliced(a, oi, or, oins), bi, br, bins) =~= both);
}

/// Two splices of one array, made in parallel, the later one working wholly
/// before the range of the earlier one: the later one stands as it is, and the
/// two commute once the earlier one is moved by the later one's change of length.
pub proof fn law_earlier_splice_kept(
    content: JsonView,
    path: Seq<char>,
    bi: int,
    br: int,
    bins: Seq<JsonView>,
    oi: int,
    or: int,
    oins: Seq<JsonView>,
    a: Seq<JsonView>,
)
    requires
        0 <= oi,
        0 <= or,
        oi + or < bi,
        0 <= br,
        bi + br <= a.len(),
    ensures
        op_ot_spec(
            content,
            OpView::Splice { path, index: bi, remove: br, insert: JsonView::Array(bins) },
            OpView::Splice { path, index: oi, remove: or, insert: JsonView::Array(oins) },
        ) == Some(OpView::Splice { path, index: oi, remove: or, insert: JsonView::Array(oins) }),
        spliced(spliced(a, bi, br, bins), oi, or, oins) == spliced(
            spliced(a, oi, or, oins),
            bi + oins.len() - or,
            br,
            bins,
        ),
{
    assert(path.subrange(0, path.len() as int) =~= path);
    let both = a.take(oi) + oins + a.subrange(oi + or, bi) + bins + a.skip(bi + br);
    assert(spliced(spliced(a, bi, br, bins), oi, or, oins) =~= both);
    assert(spliced(spliced(a, oi, or, oins), bi + oins.len() - or, br, bins) =~= both);
}

/// Applying operations in two batches, one after the other, is applying them
/// all at once: a snapshot plus later patches gives the latest content.
pub proof fn law_apply_in_batches(content: JsonView, first: Seq<OpView>, second: Seq<OpView>)
    ensures
        apply_all(content, first + second) == match apply_all(content, first) {
            Ok(c) => apply_all(c, second),
            Err(f) => Err(f),
        },
    decreases first.len(),
{
    if first.len() == 0 {
        assert(first + second =~= second);
    } else {
        assert((first + second).drop_first() =~= first.drop_first() + second);
        assert((first + second)[0] == first[0]);
        match apply_spec(first[0], content) {
            Ok(c) => law_apply_in_batches(c, first.drop_first(), second),
            Err(_) => {},
        }
    }
}

proof fn lemma_update_twice(e: Seq<(Seq<char>, JsonView)>, k: Seq<char>, c1: JsonView, c2: JsonView)
    ensures
        entry_update(entry_update(e, k, c1), k, c2) == entry_update(e, k, c2),
    decreases e.len(),
{
    if e.len() == 0 {
    } else if e[0].0 == k {
        let r = entry_update(e, k, c1);
        assert(r[0].0 == k);
        assert(r.drop_first() =~= e.drop_first());
        assert(entry_update(r, k, c2) =~= entry_update(e, k, c2));
    } else {
        lemma_update_twice(e.drop_first(), k, c1, c2);
        let r = entry_update(e, k, c1);
        assert(r[0] == e[0]);
        assert(r.drop_first() =~= entry_update(e.drop_first(), k, c1));
        assert(entry_update(r, k, c2) =~= seq![e[0]] + entry_update(
            entry_update(e.drop_first(), k, c1),
            k,
            c2,
        ));
    }
}

proof fn lemma_update_same(e: Seq<(Seq<char>, JsonView)>, k: Seq<char>)
    requires
        entry_get(e, k) is Some,
    ensures
        entry_update(e, k, entry_get(e, k)->Some_0) == e,
    decreases e.len(),
{
    if e[0].0 == k {
        assert(entry_update(e, k, e[0].1) =~= e);
    } else {
        lemma_update_same(e.drop_first(), k);
        assert(entry_update(e, k, entry_get(e, k)->Some_0) =~= e);
    }
}

/// Putting back the member that was there before undoes a change of it.
proof fn lemma_with_child_restored(v: JsonView, k: Seq<char>, c1: JsonView)
    requires
        child(v, k) is Some,
    ensures
        child(with_child(v, k, c1), k) == Some(c1),
        with_child(with_child(v, k, c1), k, child(v, k)->Some_0) == v,
{
    match v {
        JsonView::Object(e) => {
            lemma_get_after_update(e, k, c1);
            lemma_update_twice(e, k, c1, entry_get(e, k)->Some_0);
            lemma_update_same(e, k);
        },
        _ => {},
    }
}

proof fn lemma_splice_in_round_trip(v: JsonView, segs: Seq<Seq<char>>, index: int, ins: Seq<JsonView>)
    requires
        segs.len() >= 1,
        0 <= index,
        splice_in(v, segs, index, 0, ins) is Ok,
    ensures
        splice_in(splice_in(v, segs, index, 0, ins)->Ok_0, segs, index, ins.len() as int, seq![])
            == Ok::<JsonView, Failure>(v),
    decreases segs.len(),
{
    let w = splice_in(v, segs, index, 0, ins)->Ok_0;
    let c = child(v, segs[0])->Some_0;
    if segs.len() <= 1 {
        let a = c->Array_0;
        let a2 = splice_seq(a, index, 0, ins)->Ok_0;
        lemma_with_child_restored(v, segs[0], JsonView::Array(a2));
        assert(a2.take(index) + seq![] + a2.skip(index + ins.len()) =~= a);
        assert(splice_seq(a2, index, ins.len() as int, seq![]) == Ok::<Seq<JsonView>, Failure>(a));
    } else {
        let c2 = splice_in(c, segs.drop_first(), index, 0, ins)->Ok_0;
        lemma_splice_in_round_trip(c, segs.drop_first(), index, ins);
        lemma_with_child_restored(v, segs[0], c2);
    }
}

/// A splice that inserts elements and removes none is undone by a splice at
/// the same path and index that removes as many elements and inserts none.
pub proof fn law_splice_round_trip(path: Seq<char>, index: int, ins: Seq<JsonView>, doc: JsonView)
    requires
        0 <= index,
    ensures
        apply_spec(OpView::Splice { path, index, remove: 0, insert: JsonView::Array(ins) }, doc) matches Ok(w)
            ==> apply_spec(
            OpView::Splice {
                path,
                index,
                remove: ins.len() as int,
                insert: JsonView::Array(seq![]),
            },
            w,
        ) == Ok::<JsonView, Failure>(doc),
{
    if apply_spec(OpView::Splice { path, index, remove: 0, insert: JsonView::Array(ins) }, doc) is Ok {
        crate::text::lemma_split_dots_nonempty(path);
        lemma_splice_in_round_trip(doc, split_dots(path), index, ins);
    }
}

/// Once an operation is dropped in rebasing, it stays dropped: the result is
/// no operation, unless one of the further operations does not apply.
pub proof fn law_dropped_stays_dropped(content: JsonView, ops: Seq<OpView>)
    ensures
        rebase_spec(content, None, ops) is Err || rebase_spec(content, None, ops) == Ok::<
            Option<OpView>,
            crate::operation::OtErrorView,
        >(None),
    decreases ops.len(),
{
    if ops.len() > 0 {
        match apply_spec(ops[0], content) {
            Ok(c) => law_dropped_stays_dropped(c, ops.drop_first()),
            Err(_) => {},
        }
    }
}

/// A snapshot takes patches in two batches as it takes them all at once: the
/// operations of `first + second` are those of `first` and then of `second`,
/// and applying them gives what applying `second` after `first` gives.
pub proof fn law_patches_in_batches(content: JsonView, first: Seq<Patch>, second: Seq<Patch>)
    ensures
        patch_ops(first + second) == patch_ops(first) + patch_ops(second),
        apply_all(content, patch_ops(first + second)) == match apply_all(
            content,
            patch_ops(first),
        ) {
            Ok(c) => apply_all(c, patch_ops(second)),
            Err(f) => Err(f),
        },
        apply_all(content, patch_ops(Seq::<Patch>::empty())) == Ok::<JsonView, Failure>(content),
{
    assert(patch_ops(first + second) =~= patch_ops(first) + patch_ops(second));
    law_apply_in_batches(content, patch_ops(first), patch_ops(second));
    assert(patch_ops(Seq::<Patch>::empty()) =~= Seq::<OpView>::empty());
}

/// An operation rebased over no operations is unchanged.
pub proof fn law_rebase_over_nothing(content: JsonView, op: OpView)
    ensures
        rebase_spec(content, Some(op), Seq::empty()) == Ok::<Option<OpView>, crate::operation::OtErrorView>(Some(op)),
{
}

/// Rebasing over operations on paths unrelated to the operation's path leaves
/// it unchanged, unless one of those operations does not apply.
pub proof fn law_rebase_over_unrelated(content: JsonView, op: OpView, ops: Seq<OpView>)
    requires
        forall|i: int|
            0 <= i < ops.len() ==> !op.path().is_prefix_of(#[trigger] ops[i].path())
                && !ops[i].path().is_prefix_of(op.path()),
    ensures
        rebase_spec(content, Some(op), ops) is Err || rebase_spec(content, Some(op), ops) == Ok::<
            Option<OpView>,
            crate::operation::OtErrorView,
        >(Some(op)),
    decreases ops.len(),
{
    if ops.len() > 0 {
        match apply_spec(ops[0], content) {
            Ok(c) => {
                assert(!op.path().is_prefix_of(ops[0].path()) && !ops[0].path().is_prefix_of(
                    op.path(),
                ));
                assert(op.path().subrange(0, op.path().len() as int) =~= op.path());
                assert(ops[0] != op);
                assert(op_ot_spec(c, ops[0], op) == Some(op));
                let rest = ops.drop_first();
                assert forall|i: int| 0 <= i < rest.len() implies !op.path().is_prefix_of(
                    #[trigger] rest[i].path(),
                ) && !rest[i].path().is_prefix_of(op.path()) by {
                    assert(rest[i] == ops[i + 1]);
                }
                law_rebase_over_unrelated(c, op, rest);
            },
            Err(_) => {},
        }
    }
}


/// Of two splices of one array made in parallel, one whose range overlaps the
/// range of the splice applied first conflicts with it and is dropped: only a
/// splice that ends strictly before the first one's index, or that starts at
/// or after the end of its range, survives.
pub proof fn law_overlapping_splices_conflict(
    content: JsonView,
    path: Seq<char>,
    bi: int,
    br: int,
    bins: JsonView,
    oi: int,
    or: int,
    oins: JsonView,
)
    requires
        oi < bi + br,
        bi <= oi + or,
    ensures
        op_ot_spec(
            content,
            OpView::Splice { path, index: bi, remove: br, insert: bins },
            OpView::Splice { path, index: oi, remove: or, insert: oins },
        ) == None::<OpView>,
{
    assert(path.subrange(0, path.len() as int) =~= path);
}

/// One step of a path from a value that has the member `k` is that member.
proof fn lemma_step_is_child(v: JsonView, k: Seq<char>)
    requires
        child(v, k) is Some,
    ensures
        step(v, k) == child(v, k),
{
}

/// A one-piece path resolves to the step along it.
proof fn lemma_resolve_one(v: JsonView, j: Seq<char>)
    ensures
        resolve(v, seq![j]) == step(v, j),
{
    reveal_with_fuel(resolve, 2);
    assert(seq![j].drop_first() =~= Seq::<Seq<char>>::empty());
    assert(seq![j][0] == j);
}

/// Resolving a longer path goes one step and resolves the rest.
proof fn lemma_resolve_first(v: JsonView, p: Seq<Seq<char>>)
    requires
        p.len() >= 1,
        step(v, p[0]) is Some,
    ensures
        resolve(v, p) == resolve(step(v, p[0])->Some_0, p.drop_first()),
{
}

proof fn lemma_set_in_keeps_siblings(
    v: JsonView,
    segs: Seq<Seq<char>>,
    value: Option<JsonView>,
    j: Seq<char>,
)
    requires
        segs.len() >= 1,
        j != segs.last(),
        set_in(v, segs, value) is Ok,
    ensures
        resolve(set_in(v, segs, value)->Ok_0, segs.drop_last().push(j)) == resolve(
            v,
            segs.drop_last().push(j),
        ),
    decreases segs.len(),
{
    let w = set_in(v, segs, value)->Ok_0;
    let p = segs.drop_last().push(j);
    if segs.len() == 1 {
        assert(p =~= seq![j]);
        assert(segs.last() == segs[0]);
        lemma_resolve_one(w, j);
        lemma_resolve_one(v, j);
        match v {
            JsonView::Object(e) => match value {
                Some(x) => lemma_get_other_after_insert(e, segs[0], x, j),
                None => lemma_get_other_after_remove(e, segs[0], j),
            },
            _ => {},
        }
    } else {
        let c = child(v, segs[0])->Some_0;
        let rest = segs.drop_first();
        let c2 = set_in(c, rest, value)->Ok_0;
        assert(set_in(c, rest, value) is Ok);
        assert(w == with_child(v, segs[0], c2));
        assert(rest.last() == segs.last());
        assert(p[0] == segs[0]);
        assert(p.drop_first() =~= rest.drop_last().push(j));
        lemma_set_in_keeps_siblings(c, rest, value, j);
        lemma_step_with_child(v, segs[0], c2);
        lemma_step_is_child(v, segs[0]);
        lemma_resolve_first(w, p);
        lemma_resolve_first(v, p);
    }
}

proof fn lemma_splice_in_keeps_siblings(
    v: JsonView,
    segs: Seq<Seq<char>>,
    index: int,
    remove: int,
    ins: Seq<JsonView>,
    j: Seq<char>,
)
    requires
        segs.len() >= 1,
        j != segs.last(),
        splice_in(v, segs, index, remove, ins) is Ok,
    ensures
        resolve(splice_in(v, segs, index, remove, ins)->Ok_0, segs.drop_last().push(j)) == resolve(
            v,
            segs.drop_last().push(j),
        ),
    decreases segs.len(),
{
    let w = splice_in(v, segs, index, remove, ins)->Ok_0;
    let p = segs.drop_last().push(j);
    let c = child(v, segs[0])->Some_0;
    if segs.len() == 1 {
        assert(p =~= seq![j]);
        assert(segs.last() == segs[0]);
        lemma_resolve_one(w, j);
        lemma_resolve_one(v, j);
        let a2 = splice_seq(c->Array_0, index, remove, ins)->Ok_0;
        assert(w == with_child(v, segs[0], JsonView::Array(a2)));
        match v {
            JsonView::Object(e) => lemma_get_other_after_update(e, segs[0], JsonView::Array(a2), j),
            _ => {},
        }
    } else {
        let rest = segs.drop_first();
        let c2 = splice_in(c, rest, index, remove, ins)->Ok_0;
        assert(splice_in(c, rest, index, remove, ins) is Ok);
        assert(w == with_child(v, segs[0], c2));
        assert(rest.last() == segs.last());
        assert(p[0] == segs[0]);
        assert(p.drop_first() =~= rest.drop_last().push(j));
        lemma_splice_in_keeps_siblings(c, rest, index, remove, ins, j);
        lemma_step_with_child(v, segs[0], c2);
        lemma_step_is_child(v, segs[0]);
        lemma_resolve_first(w, p);
        lemma_resolve_first(v, p);
    }
}

/// An operation changes only the member its path ends at: every other member
/// of the object that holds it, at whatever depth, keeps its value. For a path
/// `p.k` and any `j` other than `k`, `p.j` leads to the same value before and
/// after. (An `Assign` of the whole document, with the empty path, is left out.)
pub proof fn law_apply_keeps_siblings(op: OpView, doc: JsonView, j: Seq<char>)
    requires
        !(op is Assign && op.path().len() == 0),
        j != split_dots(op.path()).last(),
    ensures
        apply_spec(op, doc) matches Ok(w) ==> resolve(
            w,
            split_dots(op.path()).drop_last().push(j),
        ) == resolve(doc, split_dots(op.path()).drop_last().push(j)),
{
    let segs = split_dots(op.path());
    crate::text::lemma_split_dots_nonempty(op.path());
    if apply_spec(op, doc) is Ok {
        match op {
            OpView::Assign { path, value } => lemma_set_in_keeps_siblings(doc, segs, value, j),
            OpView::Splice { path, index, remove, insert } => match insert {
                JsonView::Array(ins) => lemma_splice_in_keeps_siblings(
                    doc,
                    segs,
                    index,
                    remove,
                    ins,
                    j,
                ),
                _ => {},
            },
        }
    }
}

/// Replaying one operation is applying it.
pub proof fn law_apply_one(content: JsonView, op: OpView)
    ensures
        apply_all(content, seq![op]) == apply_spec(op, content),
{
    reveal_with_fuel(apply_all, 2);
    assert(seq![op].drop_first() =~= Seq::<OpView>::empty());
    assert(seq![op][0] == op);
}

/// Rebasing over one operation that applies is transforming after it, from the
/// content it gives.
pub proof fn law_rebase_over_one(content: JsonView, op: OpView, base: OpView)
    ensures
        apply_spec(base, content) matches Ok(c) ==> rebase_spec(content, Some(op), seq![base])
            == Ok::<Option<OpView>, crate::operation::OtErrorView>(op_ot_spec(c, base, op)),
        apply_spec(base, content) is Err ==> rebase_spec(content, Some(op), seq![base]) is Err,
{
    reveal_with_fuel(rebase_spec, 2);
    assert(seq![base].drop_first() =~= Seq::<OpView>::empty());
    assert(seq![base][0] == base);
}

/// Rebasing composes over batches: rebasing over `first + second` is rebasing
/// over `first` and then rebasing the result further over `second`, from the
/// content that `first` gives.
pub proof fn law_rebase_in_batches(
    content: JsonView,
    op: Option<OpView>,
    first: Seq<OpView>,
    second: Seq<OpView>,
)
    requires
        apply_all(content, first) is Ok,
    ensures
        rebase_spec(content, op, first + second) == match rebase_spec(content, op, first) {
            Ok(o) => rebase_spec(apply_all(content, first)->Ok_0, o, second),
            Err(e) => Err(e),
        },
    decreases first.len(),
{
    if first.len() == 0 {
        assert(first + second =~= second);
    } else {
        let all = first + second;
        assert(all[0] == first[0]);
        assert(all.drop_first() =~= first.drop_first() + second);
        let c1 = apply_spec(first[0], content)->Ok_0;
        let next = match op {
            None => None,
            Some(o) => op_ot_spec(c1, first[0], o),
        };
        law_rebase_in_batches(c1, next, first.drop_first(), second);
    }
}

/// Rebasing over stored patches composes over batches too: rebasing over
/// `first + second` is rebasing over `first` and then over `second`, from the
/// content that `first` gives.
pub proof fn law_patch_rebase_in_batches(
    content: JsonView,
    op: Option<OpView>,
    first: Seq<OpView>,
    second: Seq<OpView>,
)
    requires
        apply_all(content, first) is Ok,
    ensures
        crate::avers::rebase_spec(content, op, first + second) == crate::avers::rebase_spec(
            apply_all(content, first)->Ok_0,
            crate::avers::rebase_spec(content, op, first),
            second,
        ),
    decreases first.len(),
{
    if first.len() == 0 {
        assert(first + second =~= second);
    } else {
        let all = first + second;
        assert(all[0] == first[0]);
        assert(all.drop_first() =~= first.drop_first() + second);
        let c1 = apply_spec(first[0], content)->Ok_0;
        match op {
            None => {
                if second.len() > 0 {
                    assert(crate::avers::rebase_spec(
                        apply_all(content, first)->Ok_0,
                        None,
                        second,
                    ) == None::<OpView>);
                }
            },
            Some(o) => law_patch_rebase_in_batches(
                c1,
                op_ot_spec(c1, first[0], o),
                first.drop_first(),
                second,
            ),
        }
    }
}


/// Operations on nested paths, one strictly below the other, made in parallel:
/// - after an `Assign`, an `Assign` below it stands and one above it is dropped;
/// - after an `Assign`, a splice below it is dropped and one above it stands;
/// - after a splice, an operation above it stands, and one below it stands
///   exactly when its path still leads somewhere.
pub proof fn law_nested_paths(content: JsonView, base: OpView, op: OpView)
    requires
        base.path() != op.path(),
        base.path().is_prefix_of(op.path()) || op.path().is_prefix_of(base.path()),
    ensures
        base is Assign && op is Assign ==> (op_ot_spec(content, base, op) is Some
            <==> base.path().is_prefix_of(op.path())),
        base is Assign && op is Splice ==> (op_ot_spec(content, base, op) is Some
            <==> op.path().is_prefix_of(base.path())),
        base is Splice && op.path().is_prefix_of(base.path()) ==> op_ot_spec(content, base, op)
            == Some(op),
        base is Splice && base.path().is_prefix_of(op.path()) ==> (op_ot_spec(content, base, op)
            == if crate::path::reachable(op.path(), content) {
            Some(op)
        } else {
            None::<OpView>
        }),
{
    if base.path().is_prefix_of(op.path()) && op.path().is_prefix_of(base.path()) {
        assert(base.path() =~= op.path());
    }
    assert(base != op);
}

} // verus!
