//! Rebasing an operation over operations that were made in parallel.
//!
//! Conflict resolution, for a `base` operation that was applied first and an
//! operation `op` that was made against the same document (`base -> op`):
//!
//! ```plain
//! Assign (foo)     -> Assign (foo)     = ok
//! Assign (foo)     -> Assign (foo.bar) = ok
//! Assign (foo.bar) -> Assign (foo)     = none
//! Assign (foo)     -> Assign (bar)     = ok
//!
//! Assign (foo)     -> Splice (foo)     = none
//! Assign (foo)     -> Splice (foo.bar) = none
//! Assign (foo.bar) -> Splice (foo)     = ok
//! Assign (foo)     -> Splice (bar)     = ok
//!
//! Splice (foo)     -> Assign (foo)     = ok
//! Splice (foo)     -> Assign (foo.bar) = ok if foo.bar exists
//! Splice (foo.bar) -> Assign (foo)     = ok
//! Splice (foo)     -> Assign (bar)     = ok
//!
//! Splice (foo)     -> Splice (foo)     = moved when after base's range, ok when before it, else none
//! Splice (foo)     -> Splice (foo.bar) = ok if foo.bar exists
//! Splice (foo.bar) -> Splice (foo)     = ok
//! Splice (foo)     -> Splice (bar)     = ok
//! ```
//!
//! An operation equal to `base` is dropped. Paths are compared as text: what
//! holds above of `foo` and `foo.bar` holds of `foo` and `foobar` too.
use vstd::prelude::*;
use vstd::string::*;
use crate::json::{lemma_view_shape, JsonView, Value};
use crate::operation::{
    apply_operation, apply_spec, ot_error_for, ot_error_of, ot_error_text, Failure, OpView,
    Operation, OtError, OtErrorView,
};
use crate::path::{is_reachable, reachable};
use crate::text::starts_with;

verus! {

/// What the transformation does with an operation.
#[derive(Clone, Copy, Debug, PartialEq, Eq, Structural)]
pub enum Verdict {
    /// The operation stands as it is.
    Keep,
    /// The operation conflicts and is dropped.
    Drop,
    /// Both are splices of one array and the operation works after the base's
    /// range: its index moves by the base's change of length.
    Shift,
}

/// The verdict on `op` after `base`, which gave `content`.
pub open spec fn verdict(content: JsonView, base: OpView, op: OpView) -> Verdict {
    let bp = base.path();
    let opp = op.path();
    if base == op {
        Verdict::Drop
    } else if !opp.is_prefix_of(bp) && !bp.is_prefix_of(opp) {
        Verdict::Keep
    } else {
        let same = bp == opp;
        let base_contains_op = opp.is_prefix_of(bp);
        let op_below_base = bp.is_prefix_of(opp) && !same;
        match base {
            OpView::Assign { .. } => match op {
                OpView::Assign { .. } => if !same && base_contains_op {
                    Verdict::Drop
                } else {
                    Verdict::Keep
                },
                OpView::Splice { .. } => if bp.is_prefix_of(opp) {
                    Verdict::Drop
                } else {
                    Verdict::Keep
                },
            },
            OpView::Splice { index: bi, remove: br, .. } => match op {
                OpView::Assign { .. } => if op_below_base && !reachable(opp, content) {
                    Verdict::Drop
                } else {
                    Verdict::Keep
                },
                OpView::Splice { index: oi, remove: or, .. } => if !same {
                    if op_below_base && !reachable(opp, content) {
                        Verdict::Drop
                    } else {
                        Verdict::Keep
                    }
                } else if bi + br <= oi {
                    Verdict::Shift
                } else if oi + or < bi {
                    Verdict::Keep
                } else {
                    Verdict::Drop
                },
            },
        }
    }
}

/// `op`, a splice after the range of the splice `base`, moved by the number
/// of elements `base` inserts less the number it removes; `None` when `base`
/// inserts something that is not an array.
pub open spec fn shifted(base: OpView, op: OpView) -> Option<OpView> {
    match base {
        OpView::Splice { remove: br, insert: JsonView::Array(s), .. } => match op {
            OpView::Splice { path, index, remove, insert } => Some(
                OpView::Splice { path, index: index + s.len() - br, remove, insert },
            ),
            _ => None,
        },
        _ => None,
    }
}

/// `op`, made against the same document as `base`, transformed to apply after
/// `base`, which gave `content`; `None` when it conflicts.
pub open spec fn op_ot_spec(content: JsonView, base: OpView, op: OpView) -> Option<OpView> {
    match verdict(content, base, op) {
        Verdict::Keep => Some(op),
        Verdict::Drop => None,
        Verdict::Shift => shifted(base, op),
    }
}

/// The sums that the transformation computes fit in a `usize`.
pub open spec fn op_ot_fits(base: OpView, op: OpView) -> bool {
    match base {
        OpView::Splice { path: bp, index: bi, remove: br, insert: bins } => match op {
            OpView::Splice { path: opp, index: oi, remove: or, .. } => base == op || bp != opp || (
            bi + br <= usize::MAX && (bi + br > oi ==> oi + or <= usize::MAX) && (bi + br <= oi
                ==> match bins {
                JsonView::Array(s) => oi + s.len() <= usize::MAX,
                _ => true,
            })),
            _ => true,
        },
        _ => true,
    }
}

pub open spec fn opt_op_view(o: Option<Operation>) -> Option<OpView> {
    match o {
        Some(x) => Some(x@),
        None => None,
    }
}

/// The verdict on `op` after `base`, which gave `content`.
pub fn verdict_of(content: &Value, base: &Operation, op: &Operation) -> (v: Verdict)
    ensures
        v == verdict(content@, base@, op@),
{
    if base.same_as(op) {
        return Verdict::Drop;
    }
    let base_path = base.path();
    let op_path = op.path();
    let base_contains_op = starts_with(base_path.as_str(), op_path.as_str());
    let op_contains_base = starts_with(op_path.as_str(), base_path.as_str());
    if !base_contains_op && !op_contains_base {
        return Verdict::Keep;
    }
    let same = base_contains_op && op_contains_base;
    proof {
        if same {
            assert(base_path@ =~= op_path@);
        }
    }
    let op_below_base = op_contains_base && !same;
    match base {
        Operation::Assign { .. } => match op {
            Operation::Assign { .. } => if !same && base_contains_op {
                Verdict::Drop
            } else {
                Verdict::Keep
            },
            Operation::Splice { .. } => if op_contains_base {
                Verdict::Drop
            } else {
                Verdict::Keep
            },
        },
        Operation::Splice { index: bi, remove: br, .. } => match op {
            Operation::Assign { .. } => if op_below_base && !is_reachable(op_path.as_str(), content) {
                Verdict::Drop
            } else {
                Verdict::Keep
            },
            Operation::Splice { index: oi, remove: or, .. } => if !same {
                if op_below_base && !is_reachable(op_path.as_str(), content) {
                    Verdict::Drop
                } else {
                    Verdict::Keep
                }
            } else if *bi <= *oi && *br <= *oi - *bi {
                Verdict::Shift
            } else if *oi < *bi && *or < *bi - *oi {
                Verdict::Keep
            } else {
                Verdict::Drop
            },
        },
    }
}

/// Whether the sums of the transformation fit, and if they do, its result.
pub fn op_ot_checked(content: &Value, base: &Operation, op: Operation) -> (r: Option<
    Option<Operation>,
>)
    ensures
        r is Some <==> op_ot_fits(base@, op@),
        r matches Some(x) ==> opt_op_view(x) == op_ot_spec(content@, base@, op@),
{
    let v = verdict_of(content, base, &op);
    let fits = match base {
        Operation::Splice { index: bi, remove: br, insert: bins, .. } => match &op {
            Operation::Splice { index: oi, remove: or, .. } => {
                if base.same_as(&op) || !crate::text::same_text(base.path().as_str(), op.path().as_str()) {
                    true
                } else if *br > usize::MAX - *bi {
                    false
                } else if *bi + *br > *oi {
                    *or <= usize::MAX - *oi
                } else {
                    proof {
                        lemma_view_shape(*bins);
                    }
                    match bins {
                        Value::Array(s) => s.len() <= usize::MAX - *oi,
                        _ => true,
                    }
                }
            },
            _ => true,
        },
        _ => true,
    };
    if !fits {
        return None;
    }
    match v {
        Verdict::Keep => Some(Some(op)),
        Verdict::Drop => Some(None),
        Verdict::Shift => {
            proof {
                lemma_view_shape(op_insert_of(base));
            }
            match base {
                Operation::Splice { remove: br, insert: bins, .. } => match bins {
                    Value::Array(s) => match op {
                        Operation::Splice { path, index, remove, insert } => Some(
                            Some(
                                Operation::Splice {
                                    path,
                                    index: index + s.len() - *br,
                                    remove,
                                    insert,
                                },
                            ),
                        ),
                        _ => Some(None),
                    },
                    _ => Some(None),
                },
                _ => Some(None),
            }
        },
    }
}

spec fn op_insert_of(o: &Operation) -> Value {
    match o {
        Operation::Splice { insert, .. } => *insert,
        _ => Value::Null,
    }
}

/// Transforms `op`, which was made against the same document as `base`, to
/// apply after `base`; `content` is the document after `base`. `None` when the
/// two conflict (or are the same operation).
pub fn op_ot(content: &Value, base: &Operation, op: Operation) -> (r: Option<Operation>)
    requires
        op_ot_fits(base@, op@),
    ensures
        opt_op_view(r) == op_ot_spec(content@, base@, op@),
{
    match op_ot_checked(content, base, op) {
        Some(x) => x,
        None => None,
    }
}

pub open spec fn ops_view(s: Seq<Operation>) -> Seq<OpView> {
    s.map_values(|o: Operation| o@)
}

/// The error text of a failed rebase step.
pub open spec fn rebase_failure(f: Failure) -> OtErrorView {
    OtErrorView::Rebase(
        "unexpected failure while applying patches: "@ + ot_error_text(ot_error_for(f)),
    )
}

/// Rebasing `op` (when there is still one) over `ops`, from `content`: each of
/// `ops` is applied in turn and `op` transformed after it; once `op` conflicts
/// it is dropped for good. A failure to apply one of `ops` is an error.
pub open spec fn rebase_spec(content: JsonView, op: Option<OpView>, ops: Seq<OpView>) -> Result<
    Option<OpView>,
    OtErrorView,
>
    decreases ops.len(),
{
    if ops.len() == 0 {
        Ok(op)
    } else {
        match apply_spec(ops[0], content) {
            Err(f) => Err(rebase_failure(f)),
            Ok(c) => match op {
                None => rebase_spec(c, None, ops.drop_first()),
                Some(o) => rebase_spec(c, op_ot_spec(c, ops[0], o), ops.drop_first()),
            },
        }
    }
}

/// The sums that rebasing computes fit in a `usize`.
pub open spec fn rebase_fits(content: JsonView, op: Option<OpView>, ops: Seq<OpView>) -> bool
    decreases ops.len(),
{
    if ops.len() == 0 {
        true
    } else {
        match apply_spec(ops[0], content) {
            Err(_) => true,
            Ok(c) => match op {
                None => true,
                Some(o) => op_ot_fits(ops[0], o) && rebase_fits(
                    c,
                    op_ot_spec(c, ops[0], o),
                    ops.drop_first(),
                ),
            },
        }
    }
}

pub open spec fn rebase_result_view(r: Result<Option<Operation>, OtError>) -> Result<
    Option<OpView>,
    OtErrorView,
> {
    match r {
        Ok(o) => Ok(opt_op_view(o)),
        Err(e) => Err(e@),
    }
}

/// Rebases `op` over `operations`, or `None` when a sum that rebasing computes
/// does not fit in a `usize`.
pub fn try_rebase(content: Value, op: Operation, operations: &[Operation]) -> (r: Option<
    Result<Option<Operation>, OtError>,
>)
    ensures
        r is Some <==> rebase_fits(content@, Some(op@), ops_view(operations@)),
        r matches Some(x) ==> rebase_result_view(x) == rebase_spec(
            content@,
            Some(op@),
            ops_view(operations@),
        ),
{
    let ghost all = ops_view(operations@);
    let ghost c0 = content@;
    let ghost o0 = op@;
    let mut doc = content;
    let mut cur: Option<Operation> = Some(op);
    let mut i: usize = 0;
    assert(all.skip(0) =~= all);
    while i < operations.len()
        invariant
            all == ops_view(operations@),
            c0 == content@,
            o0 == op@,
            i <= operations@.len(),
            rebase_spec(c0, Some(o0), all) == rebase_spec(
                doc@,
                opt_op_view(cur),
                all.skip(i as int),
            ),
            rebase_fits(c0, Some(o0), all) == rebase_fits(
                doc@,
                opt_op_view(cur),
                all.skip(i as int),
            ),
        decreases operations.len() - i,
    {
        let ghost rest = all.skip(i as int);
        proof {
            assert(rest[0] == operations@[i as int]@);
            assert(rest.drop_first() =~= all.skip(i + 1));
        }
        let base = &operations[i];
        let ghost before = doc@;
        let ghost cur_op = opt_op_view(cur);
        match apply_operation(base, doc) {
            Ok(value) => {
                proof {
                    assert(apply_spec(rest[0], before) == Ok::<JsonView, Failure>(value@));
                    assert(rebase_fits(before, cur_op, rest) == match cur_op {
                        None => true,
                        Some(o) => op_ot_fits(rest[0], o) && rebase_fits(
                            value@,
                            op_ot_spec(value@, rest[0], o),
                            rest.drop_first(),
                        ),
                    });
                }
                doc = value;
                match cur {
                    Some(next_op) => {
                        match op_ot_checked(&doc, base, next_op) {
                            Some(x) => {
                                cur = x;
                            },
                            None => {
                                return None;
                            },
                        }
                    },
                    None => {},
                }
            },
            Err(f) => {
                let text = ot_error_of(f).to_string();
                let mut m = String::from_str("unexpected failure while applying patches: ");
                m.append(text.as_str());
                return Some(Err(OtError::Rebase(m)));
            },
        }
        i = i + 1;
    }
    assert(all.skip(i as int) =~= Seq::<OpView>::empty());
    Some(Ok(cur))
}

/// Given an `op` which was created against a particular `content`, rebases it
/// on top of operations which were created against the very same content in
/// parallel.
///
/// Returns the resulting operation, `None` if the operations conflict, and
/// [`OtError::Rebase`] if one of the operations does not apply.
pub fn rebase(content: Value, op: Operation, operations: &[Operation]) -> (r: Result<
    Option<Operation>,
    OtError,
>)
    requires
        rebase_fits(content@, Some(op@), ops_view(operations@)),
    ensures
        rebase_result_view(r) == rebase_spec(content@, Some(op@), ops_view(operations@)),
{
    match try_rebase(content, op, operations) {
        Some(x) => x,
        None => Ok(None),
    }
}

} // verus!
