//! Database keys of objects and of their revisions.
use vstd::prelude::*;
use vstd::string::*;
use crate::operation::RevId;
use crate::text::{i64_text, int_text};

verus! {

/// The identity of an object, as the database keys it.
pub enum ObjectId {
    /// The base object whose snapshots contain the actual content.
    Base(String),
    /// An object describing a particular release of the base object.
    Release(String, RevId),
    /// An object which contains authorization rules.
    Authorization(String),
}

impl ObjectId {
    /// The key of the object.
    pub open spec fn key(&self) -> Seq<char> {
        match self {
            ObjectId::Base(id) => id@,
            ObjectId::Release(id, rev) => id@ + "/release/"@ + int_text(*rev as int),
            ObjectId::Authorization(id) => id@ + "/authorization"@,
        }
    }

    /// The database key of the object.
    pub fn to_pk(&self) -> (k: String)
        ensures
            k@ == self.key(),
    {
        match self {
            ObjectId::Base(id) => id.clone(),
            ObjectId::Release(id, rev) => {
                let mut k = id.clone();
                k.append("/release/");
                k.append(i64_text(*rev).as_str());
                k
            },
            ObjectId::Authorization(id) => {
                let mut k = id.clone();
                k.append("/authorization");
                k
            },
        }
    }

    /// The database key of the patch or snapshot of the object at revision `rev`.
    pub fn revision_pk(&self, rev: RevId) -> (k: String)
        ensures
            k@ == self.key() + "@"@ + int_text(rev as int),
    {
        let mut k = self.to_pk();
        k.append("@");
        k.append(i64_text(rev).as_str());
        k
    }
}

} // verus!
