//! Operational transformation on JSON documents, and the rules of the service
//! that stores climbing-gym objects as streams of such operations.
use vstd::prelude::*;

pub mod access;
pub mod avers;
pub mod error;
pub mod feed;
pub mod json;
pub mod keys;
pub mod laws;
pub mod model;
pub mod operation;
pub mod passport;
pub mod path;
pub mod profile;
pub mod rebase;
pub mod text;
pub mod updates;

verus! {
} // verus!
