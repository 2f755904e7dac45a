//! Data returned by the HTTP data APIs.

use vstd::prelude::*;

verus! {

/// Response of the cat-fact API: a fact and its length.
pub struct CatNinja {
    pub fact: String,
    pub length: i32,
}

} // verus!
