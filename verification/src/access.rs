//! Who may read, create and change objects.
use vstd::prelude::*;
use crate::error::AppError;
use crate::model::{strings_view, AccountRole, Boulder, ObjectType};
use crate::operation::{ObjectId, OpView, Operation};
use crate::rebase::ops_view;
use crate::text::{occurs_in, same_text};

verus! {

/// Accounts with the `User` role may only read: they may not create objects,
/// change them, or see statistics.
pub fn deny_users(role: AccountRole) -> (r: Result<(), AppError>)
    ensures
        r is Ok <==> role != AccountRole::User,
        r matches Err(e) ==> e is NotAuthorized,
{
    if role == AccountRole::User {
        Err(AppError::NotAuthorized())
    } else {
        Ok(())
    }
}

/// What is needed to decide whether a request may read an object.
#[derive(Clone, Copy, Debug, PartialEq, Eq, Structural)]
pub enum ReadAccess {
    Allow,
    Deny,
    /// The account that makes the request.
    NeedRequester,
    /// The role of that account.
    NeedRole,
}

/// Whether the account `requester` (once known) with `role` (once known) may
/// read an object of kind `ot_type` that `created_by` created: anyone may
/// read boulders; an account may read what it created; admins and setters
/// may read everything.
pub fn read_access(
    ot_type: ObjectType,
    created_by: &ObjectId,
    requester: Option<&ObjectId>,
    role: Option<AccountRole>,
) -> (r: ReadAccess)
    ensures
        r == if ot_type == ObjectType::Boulder {
            ReadAccess::Allow
        } else {
            match requester {
                None => ReadAccess::NeedRequester,
                Some(a) => if a@ == created_by@ {
                    ReadAccess::Allow
                } else {
                    match role {
                        None => ReadAccess::NeedRole,
                        Some(x) => if x == AccountRole::Admin || x == AccountRole::Setter {
                            ReadAccess::Allow
                        } else {
                            ReadAccess::Deny
                        },
                    }
                },
            }
        },
{
    if ot_type == ObjectType::Boulder {
        return ReadAccess::Allow;
    }
    match requester {
        None => ReadAccess::NeedRequester,
        Some(a) => {
            if same_text(a.as_str(), created_by.as_str()) {
                return ReadAccess::Allow;
            }
            match role {
                None => ReadAccess::NeedRole,
                Some(x) => if x == AccountRole::Admin || x == AccountRole::Setter {
                    ReadAccess::Allow
                } else {
                    ReadAccess::Deny
                },
            }
        },
    }
}

/// Whether one of `ops` has `"role"` in its path.
pub open spec fn changes_role(ops: Seq<OpView>) -> bool {
    exists|i: int| 0 <= i < ops.len() && occurs_in(#[trigger] ops[i].path(), "role"@)
}

/// Whether an account with `role` may apply `operations` to the object
/// `object_id` of kind `ot_type`, which `requester` asks for; `boulder` is the
/// boulder when the object is one.
///
/// A setter may change only its own account, and not its role. A boulder that
/// is not a draft may be changed by a setter only if the setter created it or
/// is one of its setters. Admins may change everything.
pub fn patch_access(
    role: AccountRole,
    ot_type: ObjectType,
    object_id: &ObjectId,
    requester: &ObjectId,
    operations: &Vec<Operation>,
    boulder: Option<&Boulder>,
) -> (r: Result<(), AppError>)
    requires
        ot_type == ObjectType::Boulder ==> boulder is Some,
    ensures
        r is Ok <==> match ot_type {
            ObjectType::Account => role == AccountRole::Setter ==> (!changes_role(
                ops_view(operations@),
            ) && object_id@ == requester@),
            ObjectType::Boulder => boulder->0.is_draft == 0 && role == AccountRole::Setter ==> (
            object_id@ == requester@ || strings_view(boulder->0.setter@).contains(requester@)),
            ObjectType::Passport => true,
        },
        r matches Err(e) ==> e is NotAuthorized,
{
    match ot_type {
        ObjectType::Account => {
            if role == AccountRole::Setter {
                let mut i: usize = 0;
                while i < operations.len()
                    invariant
                        ot_type == ObjectType::Account,
                        role == AccountRole::Setter,
                        i <= operations@.len(),
                        forall|j: int|
                            0 <= j < i ==> !occurs_in(
                                #[trigger] ops_view(operations@)[j].path(),
                                "role"@,
                            ),
                    decreases operations.len() - i,
                {
                    assert(ops_view(operations@)[i as int] == operations@[i as int]@);
                    if operations[i].path_contains("role") {
                        assert(occurs_in(ops_view(operations@)[i as int].path(), "role"@));
                        return Err(AppError::NotAuthorized());
                    }
                    i = i + 1;
                }
                if !same_text(object_id.as_str(), requester.as_str()) {
                    return Err(AppError::NotAuthorized());
                }
            }
            Ok(())
        },
        ObjectType::Boulder => {
            let b = match boulder {
                Some(b) => b,
                None => {
                    return Ok(());
                },
            };
            if b.is_draft > 0 {
                Ok(())
            } else if role == AccountRole::Setter && !(same_text(
                object_id.as_str(),
                requester.as_str(),
            ) || b.in_setter(requester)) {
                Err(AppError::NotAuthorized())
            } else {
                Ok(())
            }
        },
        ObjectType::Passport => Ok(()),
    }
}

} // verus!
