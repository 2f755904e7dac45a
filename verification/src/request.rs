//! Data describing a broker request.

use vstd::prelude::*;

verus! {

/// Where a message should go: the broker addresses and the topic.
pub struct KafkaRequest {
    pub kafka_brokers: String,
    pub kafka_topic: String,
}

} // verus!
