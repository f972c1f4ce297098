//! What storing a client's operation computes: the operation rebased over the
//! patches the client did not know of, and the revision it makes.
use vstd::prelude::*;
use crate::error::AppError;
use crate::json::Value;
use crate::model::{patch_ops, Patch, Snapshot};
use crate::operation::{apply_spec, ot_error_for, ObjectId, Operation, RevId};
use crate::rebase::{ops_view, rebase_fits, rebase_spec, try_rebase};

verus! {

/// The operations of `patches`, in order.
pub fn patch_operations(patches: &Vec<Patch>) -> (ops: Vec<Operation>)
    ensures
        ops_view(ops@) == patch_ops(patches@),
{
    let mut ops: Vec<Operation> = Vec::new();
    let mut i: usize = 0;
    while i < patches.len()
        invariant
            i <= patches@.len(),
            ops_view(ops@) == patch_ops(patches@).take(i as int),
        decreases patches.len() - i,
    {
        let o = patches[i].operation.duplicate();
        let ghost before = ops@;
        ops.push(o);
        proof {
            assert(ops@ == before.push(o));
            assert(ops_view(ops@) =~= ops_view(before).push(o@));
            assert(patch_ops(patches@)[i as int] == patches@[i as int].operation@);
            assert(patch_ops(patches@).take(i + 1) =~= patch_ops(patches@).take(i as int).push(
                o@,
            ));
        }
        i = i + 1;
    }
    assert(patch_ops(patches@).take(patches@.len() as int) =~= patch_ops(patches@));
    ops
}

/// What storing `op` gives: the operation is rebased from `base_content`,
/// the content it was made against, over the operations of `previous`; when
/// that succeeds, it is applied to `snapshot`, the latest snapshot, and the
/// new snapshot and its patch are returned. A rebase that conflicts or fails,
/// and an operation that leaves the content as it is, give nothing to store.
/// `None` when a sum of the rebase does not fit in a `usize`.
pub fn plan_operation(
    base_content: &Value,
    snapshot: &Snapshot,
    previous: &Vec<Patch>,
    object_id: ObjectId,
    author_id: ObjectId,
    op: Operation,
) -> (r: Option<Result<Option<(Snapshot, Patch)>, AppError>>)
    requires
        object_id@ == snapshot.object_id@,
        snapshot.revision_id < RevId::MAX,
    ensures
        r is None <==> !rebase_fits(base_content@, Some(op@), patch_ops(previous@)),
        r matches Some(x) ==> match rebase_spec(base_content@, Some(op@), patch_ops(previous@)) {
            Ok(Some(rop)) => match apply_spec(rop, snapshot.content@) {
                Err(f) => x matches Err(e) && (e matches AppError::Ot(o) && o@ == ot_error_for(f)),
                Ok(w) => if w == snapshot.content@ {
                    x matches Ok(None)
                } else {
                    x matches Ok(Some(sp)) && sp.0.content@ == w && sp.0.object_id == object_id
                        && sp.0.revision_id == snapshot.revision_id + 1 && sp.1.object_id@
                        == object_id@ && sp.1.revision_id == sp.0.revision_id && sp.1.author_id
                        == author_id && sp.1.created_at is None && sp.1.operation@ == rop
                },
            },
            _ => x matches Ok(None),
        },
{
    let ops = patch_operations(previous);
    match try_rebase(base_content.duplicate(), op, ops.as_slice()) {
        None => None,
        Some(Ok(Some(rebased))) => match snapshot.new_revision(object_id, author_id, rebased) {
            Ok(x) => Some(Ok(x)),
            Err(e) => Some(Err(AppError::from_ot(e))),
        },
        Some(_) => Some(Ok(None)),
    }
}

} // verus!
