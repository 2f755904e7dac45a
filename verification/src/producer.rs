//! The producer side: preparing a record and reporting its delivery.
//!
//! The executable performs the send; this module fixes what is sent (the
//! payload under a fresh key) and what the command reports afterwards.

use vstd::prelude::*;
use crate::consumer::char_count;
use crate::consumer::count_payload_chars;

verus! {

/// A record ready to be sent: the payload and the key it will carry.
pub struct PendingRecord {
    pub key: String,
    pub payload: Vec<u8>,
}

/// Relies on `uuid::Uuid::new_v4` and its `Display` form: the hyphenated
/// representation of a UUID is always 36 ASCII characters.
#[verifier::external_body]
fn new_message_key() -> (k: String)
    ensures
        k@.len() == 36,
{
    uuid::Uuid::new_v4().to_string()
}

/// Builds the record a `produce` call sends: the given payload under a fresh
/// 36-character key.
pub fn prepare_record(payload: Vec<u8>) -> (r: PendingRecord)
    ensures
        r.payload@ == payload@,
        r.key@.len() == 36,
{
    PendingRecord { key: new_message_key(), payload }
}

/// What a `produce` call reports once the broker has answered: on delivery,
/// one message sent, the payload's codepoint count reduced modulo 256, and
/// the record's key; on failure, nothing.
pub fn delivery_receipt(record: &PendingRecord, delivered: bool) -> (r: Option<(u8, u8, String)>)
    ensures
        delivered <==> r is Some,
        delivered ==> r == Some(
            (1u8, (char_count(record.payload@) % 256) as u8, record.key),
        ),
{
    if delivered {
        let chars = count_payload_chars(&record.payload);
        Some((1, (chars % 256) as u8, record.key.clone()))
    } else {
        None
    }
}

} // verus!
