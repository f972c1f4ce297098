//! The objects the service stores: their kinds, their patches and snapshots,
//! and the accounts and boulders that they describe.
use vstd::prelude::*;
use vstd::string::*;
use crate::error::AppError;
use crate::json::{well_formed, JsonView, Value};
use crate::operation::{
    apply_spec, op_well_formed, ot_error_for, Failure, ObjectId, OpView, Operation, RevId,
    ZERO_REV_ID,
};
use crate::text::{decimal, same_text, usize_text};

verus! {

/// The path of the whole document. It is only used in `Assign` operations.
pub const ROOT_PATH: &'static str = "";

/// The creator of objects that are created internally, or have no creator.
pub const ROOT_OBJ_ID: &'static str = "";

/// A point in time, in microseconds since the Unix epoch.
pub type Timestamp = i64;

/// The role of an account.
#[derive(Clone, Copy, Debug, PartialEq, Eq, Structural)]
pub enum AccountRole {
    User,
    Setter,
    Admin,
}

/// The kinds of objects.
#[derive(Clone, Copy, Debug, PartialEq, Eq, Structural)]
pub enum ObjectType {
    Account,
    Boulder,
    Passport,
}

impl ObjectType {
    /// How the kind is written in messages.
    pub fn to_string(&self) -> (s: String)
        ensures
            s@ == match *self {
                ObjectType::Account => "type=account"@,
                ObjectType::Boulder => "type=boulder"@,
                ObjectType::Passport => "type=passport"@,
            },
    {
        match self {
            ObjectType::Account => String::from_str("type=account"),
            ObjectType::Boulder => String::from_str("type=boulder"),
            ObjectType::Passport => String::from_str("type=passport"),
        }
    }
}

/// An account.
pub struct Account {
    pub id: Option<String>,
    pub login: String,
    pub role: AccountRole,
    pub email: String,
    pub name: Option<String>,
}

/// A boulder.
pub struct Boulder {
    pub id: Option<String>,
    pub setter: Vec<ObjectId>,
    pub sector: String,
    pub grade: String,
    pub grade_nr: u32,
    /// Set date, in milliseconds since the Unix epoch.
    pub set_date: usize,
    /// Removal date, in milliseconds since the Unix epoch; 0 when not removed yet.
    pub removed: usize,
    /// Not 0 while the boulder is a draft.
    pub is_draft: usize,
    pub name: String,
}

pub open spec fn strings_view(s: Seq<String>) -> Seq<Seq<char>> {
    s.map_values(|x: String| x@)
}

impl Boulder {
    /// Whether `setter` is one of the boulder's setters.
    pub fn in_setter(&self, setter: &ObjectId) -> (r: bool)
        ensures
            r == strings_view(self.setter@).contains(setter@),
    {
        let mut i: usize = 0;
        while i < self.setter.len()
            invariant
                i <= self.setter@.len(),
                forall|j: int| 0 <= j < i ==> self.setter@[j]@ != setter@,
            decreases self.setter.len() - i,
        {
            if same_text(self.setter[i].as_str(), setter.as_str()) {
                assert(strings_view(self.setter@)[i as int] == setter@);
                return true;
            }
            i = i + 1;
        }
        proof {
            if strings_view(self.setter@).contains(setter@) {
                let j = choose|j: int|
                    0 <= j < strings_view(self.setter@).len() && strings_view(self.setter@)[j]
                        == setter@;
                assert(self.setter@[j]@ == setter@);
            }
        }
        false
    }
}

/// The view of accounts, one document per account.
pub struct AccountsView {}

impl AccountsView {
    /// The collection that holds the view.
    pub fn collection() -> (s: &'static str)
        ensures
            s@ == "accounts_view"@,
    {
        "accounts_view"
    }
}

/// The view of boulders, one document per boulder.
pub struct BouldersView {}

impl BouldersView {
    /// The collection that holds the view.
    pub fn collection() -> (s: &'static str)
        ensures
            s@ == "boulders_view"@,
    {
        "boulders_view"
    }
}

/// An object as it is stored: its identity, kind and creator.
pub struct ObjectDoc {
    pub id: Option<ObjectId>,
    pub created_at: Option<Timestamp>,
    pub object_type: ObjectType,
    pub created_by: ObjectId,
    pub deleted: Option<bool>,
}

impl ObjectDoc {
    /// A new object of kind `object_type`, created internally, without an id yet.
    pub fn new(object_type: ObjectType) -> (d: ObjectDoc)
        ensures
            d.id is None,
            d.created_at is None,
            d.object_type == object_type,
            d.created_by@ == ROOT_OBJ_ID@,
            d.deleted is None,
    {
        ObjectDoc {
            id: None,
            created_at: None,
            object_type,
            created_by: String::from_str(ROOT_OBJ_ID),
            deleted: None,
        }
    }
}

/// A stored object, with an id and a creation time.
pub struct Object {
    pub id: ObjectId,
    pub created_at: Timestamp,
    pub object_type: ObjectType,
    pub created_by: ObjectId,
    pub deleted: bool,
}

impl Object {
    /// The object that a stored document describes; a document without an id
    /// or a creation time is refused.
    pub fn from_doc(doc: ObjectDoc) -> (r: Result<Object, AppError>)
        ensures
            match r {
                Ok(o) => doc.id == Some(o.id) && doc.created_at == Some(o.created_at)
                    && o.object_type == doc.object_type && o.created_by == doc.created_by
                    && o.deleted == (doc.deleted == Some(true)),
                Err(e) => match e {
                    AppError::Query(m) => (doc.id is None && m@ == "object doc is missing an id"@)
                        || (doc.id is Some && doc.created_at is None && m@
                        == "object doc is missing created_at"@),
                    _ => false,
                },
            },
    {
        let id = match doc.id {
            Some(id) => id,
            None => {
                return Err(AppError::Query(String::from_str("object doc is missing an id")));
            },
        };
        let created_at = match doc.created_at {
            Some(t) => t,
            None => {
                return Err(AppError::Query(String::from_str("object doc is missing created_at")));
            },
        };
        let deleted = match doc.deleted {
            Some(d) => d,
            None => false,
        };
        Ok(Object {
            id,
            created_at,
            object_type: doc.object_type,
            created_by: doc.created_by,
            deleted,
        })
    }
}

/// A patch: an operation stored as revision `revision_id` of an object.
pub struct Patch {
    pub object_id: ObjectId,
    pub revision_id: RevId,
    pub author_id: ObjectId,
    pub created_at: Option<Timestamp>,
    pub operation: Operation,
}

impl Patch {
    /// The first patch of an object: it sets the whole document to `value`.
    pub fn new(object_id: ObjectId, author_id: String, value: &Value) -> (p: Patch)
        ensures
            p.object_id == object_id,
            p.revision_id == ZERO_REV_ID,
            p.author_id == author_id,
            p.created_at is None,
            p.operation@ == (OpView::Assign { path: ROOT_PATH@, value: Some(value@) }),
    {
        let op = Operation::new_set(String::from_str(ROOT_PATH), value.duplicate());
        Patch { object_id, revision_id: ZERO_REV_ID, author_id, created_at: None, operation: op }
    }

    /// The patch that stores `operation` as revision `revision_id`.
    pub fn new_revision(
        revision_id: RevId,
        object_id: ObjectId,
        author_id: String,
        operation: Operation,
    ) -> (p: Patch)
        ensures
            p.object_id == object_id,
            p.revision_id == revision_id,
            p.author_id == author_id,
            p.created_at is None,
            p.operation == operation,
    {
        Patch { object_id, revision_id, author_id, created_at: None, operation }
    }

    /// A copy of the patch.
    pub fn duplicate(&self) -> (p: Patch)
        ensures
            p.object_id@ == self.object_id@,
            p.revision_id == self.revision_id,
            p.author_id@ == self.author_id@,
            p.created_at == self.created_at,
            p.operation@ == self.operation@,
    {
        Patch {
            object_id: self.object_id.clone(),
            revision_id: self.revision_id,
            author_id: self.author_id.clone(),
            created_at: self.created_at,
            operation: self.operation.duplicate(),
        }
    }
}

/// The patches among `patches` whose revision is at most `rev_id`, in order.
pub fn patches_through(patches: Vec<Patch>, rev_id: RevId) -> (r: Vec<Patch>)
    ensures
        r@ == patches@.filter(|p: Patch| p.revision_id <= rev_id),
{
    let ghost keep = |p: Patch| p.revision_id <= rev_id;
    let mut out: Vec<Patch> = Vec::new();
    let mut rest = patches;
    let ghost all = rest@;
    let ghost mut seen: Seq<Patch> = Seq::empty();
    proof {
        reveal(Seq::filter);
        assert(all =~= seen + rest@);
    }
    while rest.len() > 0
        invariant
            all == seen + rest@,
            out@ == seen.filter(keep),
            keep == (|p: Patch| p.revision_id <= rev_id),
        decreases rest.len(),
    {
        let p = rest.remove(0);
        proof {
            reveal(Seq::filter);
            assert(seen.push(p).drop_last() =~= seen);
            assert(seen.push(p).last() == p);
        }
        let ghost pv = p;
        if p.revision_id <= rev_id {
            out.push(p);
        }
        proof {
            seen = seen.push(pv);
            assert(all =~= seen + rest@);
        }
    }
    proof {
        assert(seen =~= all);
    }
    out
}

/// Exactly one patch, or a query error that says how many there were.
pub fn single_patch(patches: Vec<Patch>) -> (r: Result<Patch, AppError>)
    ensures
        match r {
            Ok(p) => patches@.len() == 1 && p == patches@[0],
            Err(e) => patches@.len() != 1 && (e matches AppError::Query(m) && m@
                == "lookup_patch found "@ + decimal(patches@.len()) + " patches, expecting only 1"@),
        },
{
    let mut patches = patches;
    if patches.len() != 1 {
        let mut m = String::from_str("lookup_patch found ");
        m.append(usize_text(patches.len()).as_str());
        m.append(" patches, expecting only 1");
        return Err(AppError::Query(m));
    }
    let p = patches.pop().unwrap();
    Ok(p)
}

/// The content of an object at a revision.
pub struct Snapshot {
    pub object_id: ObjectId,
    pub revision_id: RevId,
    pub content: Value,
}

/// The content after applying `ops` in turn, or the first failure.
pub open spec fn apply_all(content: JsonView, ops: Seq<OpView>) -> Result<JsonView, Failure>
    decreases ops.len(),
{
    if ops.len() == 0 {
        Ok(content)
    } else {
        match apply_spec(ops[0], content) {
            Ok(c) => apply_all(c, ops.drop_first()),
            Err(f) => Err(f),
        }
    }
}

pub open spec fn patch_ops(patches: Seq<Patch>) -> Seq<OpView> {
    patches.map_values(|p: Patch| p.operation@)
}

impl Snapshot {
    /// The snapshot that an object starts from: revision -1, an empty object.
    pub fn new(object_id: ObjectId) -> (s: Snapshot)
        ensures
            s.object_id == object_id,
            s.revision_id == -1,
            s.content@ == JsonView::Object(Seq::empty()),
            well_formed(s.content@),
    {
        let content = Value::Object(Vec::new());
        proof {
            crate::json::lemma_view_shape(content);
            assert(crate::json::entries_view(Seq::<(String, Value)>::empty()) =~= Seq::empty());
        }
        Snapshot { object_id, revision_id: -1, content }
    }

    /// A copy of the snapshot.
    pub fn duplicate(&self) -> (s: Snapshot)
        ensures
            s.object_id@ == self.object_id@,
            s.revision_id == self.revision_id,
            s.content@ == self.content@,
    {
        Snapshot {
            object_id: self.object_id.clone(),
            revision_id: self.revision_id,
            content: self.content.duplicate(),
        }
    }

    /// Applies `operation` to the snapshot: the next snapshot and the patch that
    /// records the operation, or `None` when the content does not change.
    pub fn new_revision(&self, object_id: ObjectId, author_id: ObjectId, operation: Operation) -> (r:
        Result<Option<(Snapshot, Patch)>, crate::operation::OtError>)
        requires
            object_id@ == self.object_id@,
            self.revision_id < RevId::MAX,
        ensures
            match r {
                Err(e) => exists|f: Failure|
                    apply_spec(operation@, self.content@) == Err::<JsonView, Failure>(f) && e@
                        == ot_error_for(f),
                Ok(None) => apply_spec(operation@, self.content@) == Ok::<JsonView, Failure>(
                    self.content@,
                ),
                Ok(Some((s, p))) => apply_spec(operation@, self.content@) == Ok::<
                    JsonView,
                    Failure,
                >(s.content@) && s.content@ != self.content@ && s.object_id == object_id
                    && s.revision_id == self.revision_id + 1 && p.object_id@ == object_id@
                    && p.revision_id == s.revision_id && p.author_id == author_id
                    && p.created_at is None && p.operation == operation,
            },
            well_formed(self.content@) && op_well_formed(operation@) ==> (r matches Ok(Some(sp))
                ==> well_formed(sp.0.content@)),
    {
        let content = operation.apply_to(self.content.duplicate())?;
        if content.same_as(&self.content) {
            return Ok(None);
        }
        let revision_id = self.revision_id + 1;
        let patch = Patch::new_revision(revision_id, object_id.clone(), author_id, operation);
        Ok(Some((Snapshot { object_id, revision_id, content }, patch)))
    }

    /// The snapshot after `patch`.
    pub fn apply_patch(&self, patch: &Patch) -> (r: Result<Snapshot, AppError>)
        ensures
            match r {
                Ok(s) => apply_spec(patch.operation@, self.content@) == Ok::<JsonView, Failure>(
                    s.content@,
                ) && s.object_id@ == self.object_id@ && s.revision_id == patch.revision_id,
                Err(e) => exists|f: Failure|
                    apply_spec(patch.operation@, self.content@) == Err::<JsonView, Failure>(f)
                        && (e matches AppError::Ot(o) && o@ == ot_error_for(f)),
            },
            well_formed(self.content@) && op_well_formed(patch.operation@) ==> (r matches Ok(s)
                ==> well_formed(s.content@)),
    {
        match patch.operation.apply_to(self.content.duplicate()) {
            Ok(content) => Ok(
                Snapshot {
                    object_id: self.object_id.clone(),
                    revision_id: patch.revision_id,
                    content,
                },
            ),
            Err(e) => Err(AppError::from_ot(e)),
        }
    }

    /// The snapshot after each of `patches` in turn.
    pub fn apply_patches(&self, patches: &Vec<Patch>) -> (r: Result<Snapshot, AppError>)
        ensures
            match r {
                Ok(s) => apply_all(self.content@, patch_ops(patches@)) == Ok::<JsonView, Failure>(
                    s.content@,
                ) && s.object_id@ == self.object_id@ && s.revision_id == if patches@.len() == 0 {
                    self.revision_id
                } else {
                    patches@.last().revision_id
                },
                Err(e) => exists|f: Failure|
                    apply_all(self.content@, patch_ops(patches@)) == Err::<JsonView, Failure>(f)
                        && (e matches AppError::Ot(o) && o@ == ot_error_for(f)),
            },
            well_formed(self.content@) && (forall|i: int|
                0 <= i < patches@.len() ==> op_well_formed(#[trigger] patches@[i].operation@)) ==> (r matches Ok(
                s,
            ) ==> well_formed(s.content@)),
    {
        let ghost all = patch_ops(patches@);
        let ghost wf = well_formed(self.content@) && (forall|i: int|
            0 <= i < patches@.len() ==> op_well_formed(#[trigger] patches@[i].operation@));
        let mut s = self.duplicate();
        let mut i: usize = 0;
        assert(all.skip(0) =~= all);
        while i < patches.len()
            invariant
                all == patch_ops(patches@),
                i <= patches@.len(),
                apply_all(self.content@, all) == apply_all(s.content@, all.skip(i as int)),
                s.object_id@ == self.object_id@,
                s.revision_id == if i == 0 {
                    self.revision_id
                } else {
                    patches@[i - 1].revision_id
                },
                wf == (well_formed(self.content@) && (forall|i: int|
                    0 <= i < patches@.len() ==> op_well_formed(#[trigger] patches@[i].operation@))),
                wf ==> well_formed(s.content@),
            decreases patches.len() - i,
        {
            proof {
                assert(all.skip(i as int)[0] == patches@[i as int].operation@);
                assert(all.skip(i as int).drop_first() =~= all.skip(i + 1));
            }
            s = s.apply_patch(&patches[i])?;
            i = i + 1;
        }
        assert(all.skip(i as int) =~= Seq::<OpView>::empty());
        Ok(s)
    }
}

/// The answer to a request that patches an object.
pub struct PatchObjectResponse {
    /// Patches which were already in the database; the submitted operations
    /// were rebased on top of these.
    pub previous_patches: Vec<Patch>,
    /// The number of operations which were processed.
    pub num_processed_operations: usize,
    /// The patches which were actually stored.
    pub resulting_patches: Vec<Patch>,
}

impl PatchObjectResponse {
    pub fn new(
        previous_patches: Vec<Patch>,
        num_processed_operations: usize,
        resulting_patches: Vec<Patch>,
    ) -> (r: PatchObjectResponse)
        ensures
            r.previous_patches == previous_patches,
            r.num_processed_operations == num_processed_operations,
            r.resulting_patches == resulting_patches,
    {
        PatchObjectResponse { previous_patches, num_processed_operations, resulting_patches }
    }
}

} // verus!
