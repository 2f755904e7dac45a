//! The checked part of reading a blob from storage.
//!
//! Pulling a blob is a single storage call; the one rule of its own is that
//! an empty blob counts as an error rather than as data.

use vstd::prelude::*;

verus! {

/// Rejects empty blob content: the caller treats `None` as a retrieval error,
/// so that an empty download is never written out as if it were data.
pub fn non_empty_blob(content: Vec<u8>) -> (r: Option<Vec<u8>>)
    ensures
        content@.len() == 0 <==> r is None,
        r is Some ==> r->0@ == content@,
{
    if content.is_empty() {
        None
    } else {
        Some(content)
    }
}

} // verus!
