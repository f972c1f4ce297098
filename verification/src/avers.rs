//! The operational transformation over stored patches: `apply` with its own
//! error type, and `rebase` over patches, which stops at the first conflict.
use vstd::prelude::*;
use vstd::string::*;
use crate::json::{lemma_view_shape, well_formed, JsonView, Value};
use crate::model::{patch_ops, ObjectType, Patch, Timestamp, ROOT_OBJ_ID};
use crate::operation::{
    apply_operation, apply_spec, op_well_formed, opt_view, ApplyFailure, Failure, ObjectId, OpView,
    Operation, Path,
};
use crate::rebase::{op_ot_fits, op_ot_spec, opt_op_view};
use crate::text::{decimal, usize_text};

verus! {

/// Why an operation could not be built.
#[derive(Debug)]
pub enum OperationError {
    InvalidSetOp(),
    ValueIsNotArray(),
}

impl OperationError {
    /// The text of the error.
    pub fn to_string(&self) -> (s: String)
        ensures
            s@ == match *self {
                OperationError::InvalidSetOp() => "NoId"@,
                OperationError::ValueIsNotArray() => "ValueIsNotArray"@,
            },
    {
        match self {
            OperationError::InvalidSetOp() => String::from_str("NoId"),
            OperationError::ValueIsNotArray() => String::from_str("ValueIsNotArray"),
        }
    }
}

/// An `Assign` of `value` at `path`; one of the whole document without a value is refused.
pub fn try_new_set(path: Path, value: Option<Value>) -> (r: Result<Operation, OperationError>)
    ensures
        match r {
            Ok(op) => (path@.len() != 0 || value is Some) && op@ == (OpView::Assign {
                path: path@,
                value: opt_view(value),
            }),
            Err(e) => path@.len() == 0 && value is None && e is InvalidSetOp,
        },
{
    if path.as_str().is_empty() && value.is_none() {
        Err(OperationError::InvalidSetOp())
    } else {
        Ok(Operation::Assign { path, value })
    }
}

/// A `Splice` at `path`; an `insert` that is not an array is refused.
pub fn try_new_splice(path: Path, index: usize, remove: usize, insert: Value) -> (r: Result<
    Operation,
    OperationError,
>)
    ensures
        match r {
            Ok(op) => insert@ is Array && op@ == (OpView::Splice {
                path: path@,
                index: index as int,
                remove: remove as int,
                insert: insert@,
            }),
            Err(e) => !(insert@ is Array) && e is ValueIsNotArray,
        },
{
    proof {
        lemma_view_shape(insert);
    }
    match insert {
        Value::Array(_) => Ok(Operation::Splice { path, index, remove, insert }),
        _ => Err(OperationError::ValueIsNotArray()),
    }
}

/// Why an operation does not apply.
#[derive(Debug)]
pub enum PatchError {
    InconsistentTypes(),
    IndexError(String),
    KeyError(String),
    NoId(),
    PathError(String),
    Unknown(),
    ValueIsNotArray(),
}

/// The content of a [`PatchError`].
pub enum PatchErrorView {
    InconsistentTypes,
    IndexError(Seq<char>),
    KeyError(Seq<char>),
    NoId,
    PathError(Seq<char>),
    Unknown,
    ValueIsNotArray,
}

impl View for PatchError {
    type V = PatchErrorView;

    open spec fn view(&self) -> PatchErrorView {
        match self {
            PatchError::InconsistentTypes() => PatchErrorView::InconsistentTypes,
            PatchError::IndexError(m) => PatchErrorView::IndexError(m@),
            PatchError::KeyError(m) => PatchErrorView::KeyError(m@),
            PatchError::NoId() => PatchErrorView::NoId,
            PatchError::PathError(m) => PatchErrorView::PathError(m@),
            PatchError::Unknown() => PatchErrorView::Unknown,
            PatchError::ValueIsNotArray() => PatchErrorView::ValueIsNotArray,
        }
    }
}

/// The text of an error, as it is displayed.
pub open spec fn patch_error_text(e: PatchErrorView) -> Seq<char> {
    match e {
        PatchErrorView::InconsistentTypes => "InconsistentTypes"@,
        PatchErrorView::IndexError(m) => "IndexError: "@ + m,
        PatchErrorView::KeyError(m) => "KeyError: "@ + m,
        PatchErrorView::NoId => "NoId"@,
        PatchErrorView::PathError(m) => "PathError: "@ + m,
        PatchErrorView::Unknown => "UnknownError"@,
        PatchErrorView::ValueIsNotArray => "ValueIsNotArray"@,
    }
}

/// The error that [`apply`] reports for a failure.
pub open spec fn patch_error_for(f: Failure) -> PatchErrorView {
    match f {
        Failure::SetWithoutValue => PatchErrorView::Unknown,
        Failure::NotArray => PatchErrorView::ValueIsNotArray,
        Failure::Key(k) => PatchErrorView::KeyError(k),
        Failure::NotObject => PatchErrorView::Unknown,
        Failure::Range(len, index, remove) => PatchErrorView::IndexError(
            "len: "@ + decimal(len as nat) + ", index: "@ + decimal(index as nat) + ", remove: "@
                + decimal(remove as nat),
        ),
        Failure::Mixed(_) => PatchErrorView::InconsistentTypes,
        Failure::DifferentTypes => PatchErrorView::InconsistentTypes,
        Failure::MissingId => PatchErrorView::NoId,
    }
}

impl PatchError {
    /// The text of the error.
    pub fn to_string(&self) -> (s: String)
        ensures
            s@ == patch_error_text(self@),
    {
        match self {
            PatchError::InconsistentTypes() => String::from_str("InconsistentTypes"),
            PatchError::IndexError(e) => String::from_str("IndexError: ").concat(e.as_str()),
            PatchError::KeyError(e) => String::from_str("KeyError: ").concat(e.as_str()),
            PatchError::NoId() => String::from_str("NoId"),
            PatchError::PathError(e) => String::from_str("PathError: ").concat(e.as_str()),
            PatchError::Unknown() => String::from_str("UnknownError"),
            PatchError::ValueIsNotArray() => String::from_str("ValueIsNotArray"),
        }
    }
}

/// The error that reports a failure.
pub fn patch_error_of(f: ApplyFailure) -> (e: PatchError)
    ensures
        e@ == patch_error_for(f@),
{
    match f {
        ApplyFailure::SetWithoutValue => PatchError::Unknown(),
        ApplyFailure::NotArray => PatchError::ValueIsNotArray(),
        ApplyFailure::Key(k) => PatchError::KeyError(k),
        ApplyFailure::NotObject => PatchError::Unknown(),
        ApplyFailure::Range(len, index, remove) => {
            let mut m = String::from_str("len: ");
            m.append(usize_text(len).as_str());
            m.append(", index: ");
            m.append(usize_text(index).as_str());
            m.append(", remove: ");
            m.append(usize_text(remove).as_str());
            PatchError::IndexError(m)
        },
        ApplyFailure::Mixed(_) => PatchError::InconsistentTypes(),
        ApplyFailure::DifferentTypes => PatchError::InconsistentTypes(),
        ApplyFailure::MissingId => PatchError::NoId(),
    }
}

/// Applies `operation` to `value`.
pub fn apply(value: Value, operation: Operation) -> (r: Result<Value, PatchError>)
    ensures
        match r {
            Ok(w) => apply_spec(operation@, value@) == Ok::<JsonView, Failure>(w@),
            Err(e) => exists|f: Failure|
                apply_spec(operation@, value@) == Err::<JsonView, Failure>(f) && e@
                    == patch_error_for(f),
        },
        well_formed(value@) && op_well_formed(operation@) ==> (r matches Ok(w) ==> well_formed(
            w@,
        )),
{
    proof {
        if well_formed(value@) && op_well_formed(operation@) {
            crate::laws::law_apply_keeps_well_formed(operation@, value@);
        }
    }
    match apply_operation(&operation, value) {
        Ok(w) => Ok(w),
        Err(f) => Err(patch_error_of(f)),
    }
}

/// Transforms `op`, made against the same document as `base`, to apply after
/// `base`, which gave `content`; `None` when the two conflict. A splice after
/// the range of a splice of the same array moves by the number of elements
/// `base` inserts less the number it removes.
pub fn op_ot(content: &Value, base: &Operation, op: Operation) -> (r: Option<Operation>)
    requires
        op_ot_fits(base@, op@),
    ensures
        opt_op_view(r) == op_ot_spec(content@, base@, op@),
{
    crate::rebase::op_ot(content, base, op)
}

/// Rebasing `op` over `ops`: each is applied in turn and `op` transformed
/// after it, until it conflicts.
pub open spec fn rebase_spec(content: JsonView, op: Option<OpView>, ops: Seq<OpView>) -> Option<
    OpView,
>
    decreases ops.len(),
{
    if ops.len() == 0 {
        op
    } else {
        let c = apply_spec(ops[0], content)->Ok_0;
        match op {
            None => None,
            Some(o) => rebase_spec(c, op_ot_spec(c, ops[0], o), ops.drop_first()),
        }
    }
}

/// Each of `ops` that rebasing applies does apply, and each transformation
/// computes within `usize`. Rebasing applies the operations in turn; once `op`
/// is dropped, it applies the next operation and stops.
pub open spec fn rebase_defined(content: JsonView, op: Option<OpView>, ops: Seq<OpView>) -> bool
    decreases ops.len(),
{
    ops.len() == 0 || (apply_spec(ops[0], content) is Ok && {
        let c = apply_spec(ops[0], content)->Ok_0;
        match op {
            None => true,
            Some(o) => op_ot_fits(ops[0], o) && rebase_defined(
                c,
                op_ot_spec(c, ops[0], o),
                ops.drop_first(),
            ),
        }
    })
}

/// Given an `op` which was created against a particular `content`, rebases it
/// on top of `patches` which were created against the very same content in
/// parallel. The patches must apply cleanly to the content, as far as rebasing
/// applies them: it stops with `None` once `op` conflicts.
pub fn rebase(content: Value, op: Operation, patches: Vec<Patch>) -> (r: Option<Operation>)
    requires
        rebase_defined(content@, Some(op@), patch_ops(patches@)),
    ensures
        opt_op_view(r) == rebase_spec(content@, Some(op@), patch_ops(patches@)),
{
    let ghost all = patch_ops(patches@);
    let ghost c0 = content@;
    let ghost o0 = op@;
    let mut doc = content;
    let mut cur: Option<Operation> = Some(op);
    let mut i: usize = 0;
    assert(all.skip(0) =~= all);
    while i < patches.len()
        invariant
            all == patch_ops(patches@),
            c0 == content@,
            o0 == op@,
            i <= patches@.len(),
            rebase_spec(c0, Some(o0), all) == rebase_spec(
                doc@,
                opt_op_view(cur),
                all.skip(i as int),
            ),
            rebase_defined(doc@, opt_op_view(cur), all.skip(i as int)),
            cur is None ==> rebase_spec(c0, Some(o0), all) == None::<OpView>,
        decreases patches.len() - i,
    {
        let ghost rest = all.skip(i as int);
        proof {
            assert(rest[0] == patches@[i as int].operation@);
            assert(rest.drop_first() =~= all.skip(i + 1));
        }
        let base = &patches[i].operation;
        match apply_operation(base, doc) {
            Ok(value) => {
                doc = value;
                match cur {
                    Some(next_op) => {
                        cur = op_ot(&doc, base, next_op);
                    },
                    None => {
                        return None;
                    },
                }
            },
            Err(_) => {
                return None;
            },
        }
        i = i + 1;
    }
    assert(all.skip(i as int) =~= Seq::<OpView>::empty());
    cur
}

/// An object as this interface stores it.
pub struct Object {
    pub id: Option<ObjectId>,
    pub created_at: Option<Timestamp>,
    pub object_type: ObjectType,
    pub created_by: ObjectId,
    pub deleted: Option<bool>,
}

impl Object {
    /// A new object of kind `object_type`, created internally, without an id yet.
    pub fn new(object_type: ObjectType) -> (o: Object)
        ensures
            o.id is None,
            o.created_at is None,
            o.object_type == object_type,
            o.created_by@ == ROOT_OBJ_ID@,
            o.deleted is None,
    {
        Object {
            id: None,
            created_at: None,
            object_type,
            created_by: String::from_str(ROOT_OBJ_ID),
            deleted: None,
        }
    }

    /// The object's id, which it must have.
    pub fn id(&self) -> (s: String)
        requires
            self.id is Some,
        ensures
            s@ == self.id->0@,
    {
        match &self.id {
            Some(id) => id.clone(),
            None => String::new(),
        }
    }

    /// The object's kind.
    pub fn get_type(&self) -> (t: ObjectType)
        ensures
            t == self.object_type,
    {
        self.object_type
    }
}

} // verus!
