//! The consumer polling loop, as a verified state machine.
//!
//! The executable owns the broker connection: it polls, sleeps, commits and
//! stops as the returned [`ConsumerAction`] directs.  Everything the loop
//! decides or accumulates — retry counting with an idle limit, the message
//! counter, the stored payloads and their per-message byte counts — is
//! computed here.

use vstd::prelude::*;

verus! {

/// True of a byte that continues a multi-byte UTF-8 sequence.
pub open spec fn is_utf8_continuation(b: u8) -> bool {
    0x80 <= b < 0xC0
}

/// The number of UTF-8 encoded codepoints a byte sequence holds: the count of
/// bytes that are not continuation bytes.
pub open spec fn char_count(s: Seq<u8>) -> int
    decreases s.len(),
{
    if s.len() == 0 {
        0
    } else {
        (if is_utf8_continuation(s[0]) { 0int } else { 1int }) + char_count(s.drop_first())
    }
}

/// Relies on `bytecount::num_chars`: it returns the number of bytes of the
/// slice that are not UTF-8 continuation bytes (top two bits not `10`).
#[verifier::external_body]
pub(crate) fn count_payload_chars(payload: &Vec<u8>) -> (n: usize)
    ensures
        n == char_count(payload@),
{
    bytecount::num_chars(payload)
}

/// One stored message: the value the message counter had when it arrived,
/// and the payload bytes.
pub struct ReceivedMessage {
    pub index: u8,
    pub payload: Vec<u8>,
}

/// What one poll of the broker produced.
pub enum PollOutcome {
    /// The poll timed out without a message.
    Idle,
    /// A message arrived; its payload bytes.
    Received(Vec<u8>),
    /// The broker reported an error for this poll.
    Failed,
}

/// What the loop must do after a step.
pub enum ConsumerAction {
    /// Commit the message that was just stored, then poll again.
    Commit,
    /// Log the broker error, then poll again.
    Ignore,
    /// Sleep briefly, then poll again.
    Wait,
    /// Sleep briefly, then stop: the idle limit is reached.
    Stop,
}

/// The accumulating state of one consumer run.
pub struct ConsumerState {
    /// How many polls returned something (a message or an error).
    pub message_counter: u8,
    /// How many polls in a row timed out.
    pub retry_counter: u8,
    /// Per stored message, its codepoint count reduced modulo 256.
    pub message_bytes: Vec<u8>,
    /// The stored messages, keyed by the counter value at arrival.
    pub messages: Vec<ReceivedMessage>,
}

impl ConsumerState {
    /// The stored messages as mathematical pairs of key and payload.
    pub open spec fn entries(self) -> Seq<(u8, Seq<u8>)> {
        self.messages@.map_values(|m: ReceivedMessage| (m.index, m.payload@))
    }

    /// What every reachable state satisfies: byte counts match the stored
    /// messages one for one, and keys grow strictly with arrival order, never
    /// past the message counter.
    pub open spec fn wf(self) -> bool {
        &&& self.message_bytes@.len() == self.messages@.len()
        &&& self.messages@.len() <= self.message_counter
        &&& forall|i: int| 0 <= i < self.messages@.len() ==> {
            &&& 1 <= (#[trigger] self.messages@[i]).index <= self.message_counter
            &&& self.message_bytes@[i] == (char_count(self.messages@[i].payload@) % 256) as u8
        }
        &&& forall|i: int, j: int|
            0 <= i < j < self.messages@.len() ==> (#[trigger] self.messages@[i]).index < (
            #[trigger] self.messages@[j]).index
    }
}

/// A fresh state, before the first poll.
pub fn new_consumer_state() -> (s: ConsumerState)
    ensures
        s.wf(),
        s.message_counter == 0,
        s.retry_counter == 0,
        s.entries() == Seq::<(u8, Seq<u8>)>::empty(),
        s.message_bytes@ == Seq::<u8>::empty(),
{
    let s = ConsumerState {
        message_counter: 0,
        retry_counter: 0,
        message_bytes: Vec::new(),
        messages: Vec::new(),
    };
    proof {
        assert(s.entries() =~= Seq::<(u8, Seq<u8>)>::empty());
    }
    s
}

/// One step of the polling loop.
///
/// An idle poll raises the retry counter; the sixth idle poll in a row stops
/// the run.  A message resets the retry counter, raises the message counter,
/// and is stored under it together with its byte count; a broker error also
/// counts and resets the retries, but stores nothing.
pub fn consume_step(state: &mut ConsumerState, event: PollOutcome) -> (action: ConsumerAction)
    requires
        old(state).wf(),
        old(state).retry_counter <= 5,
        !(event is Idle) ==> old(state).message_counter < 255,
    ensures
        final(state).wf(),
        event is Idle ==> {
            &&& final(state).retry_counter == old(state).retry_counter + 1
            &&& final(state).message_counter == old(state).message_counter
            &&& final(state).entries() == old(state).entries()
            &&& final(state).message_bytes@ == old(state).message_bytes@
            &&& (action is Stop <==> old(state).retry_counter == 5)
            &&& (action is Wait <==> old(state).retry_counter < 5)
        },
        event matches PollOutcome::Received(p) ==> {
            &&& final(state).retry_counter == 0
            &&& final(state).message_counter == old(state).message_counter + 1
            &&& final(state).entries() == old(state).entries().push(
                ((old(state).message_counter + 1) as u8, p@),
            )
            &&& final(state).message_bytes@ == old(state).message_bytes@.push(
                (char_count(p@) % 256) as u8,
            )
            &&& action is Commit
        },
        event is Failed ==> {
            &&& final(state).retry_counter == 0
            &&& final(state).message_counter == old(state).message_counter + 1
            &&& final(state).entries() == old(state).entries()
            &&& final(state).message_bytes@ == old(state).message_bytes@
            &&& action is Ignore
        },
{
    match event {
        PollOutcome::Idle => {
            state.retry_counter = state.retry_counter + 1;
            if state.retry_counter > 5 {
                ConsumerAction::Stop
            } else {
                ConsumerAction::Wait
            }
        },
        PollOutcome::Received(payload) => {
            let ghost p0 = payload@;
            state.retry_counter = 0;
            state.message_counter = state.message_counter + 1;
            let chars = count_payload_chars(&payload);
            state.message_bytes.push((chars % 256) as u8);
            state.messages.push(ReceivedMessage { index: state.message_counter, payload });
            proof {
                assert(state.entries() =~= old(state).entries().push(
                    ((old(state).message_counter + 1) as u8, p0),
                ));
            }
            ConsumerAction::Commit
        },
        PollOutcome::Failed => {
            state.retry_counter = 0;
            state.message_counter = state.message_counter + 1;
            proof {
                assert(state.entries() =~= old(state).entries());
            }
            ConsumerAction::Ignore
        },
    }
}

/// The sum of a sequence of byte counts.
pub open spec fn sum_bytes(s: Seq<u8>) -> int
    decreases s.len(),
{
    if s.len() == 0 {
        0
    } else {
        sum_bytes(s.drop_last()) + s.last()
    }
}

pub proof fn lemma_sum_bytes_bounds(s: Seq<u8>)
    ensures
        0 <= sum_bytes(s) <= 255 * s.len(),
    decreases s.len(),
{
    if s.len() > 0 {
        lemma_sum_bytes_bounds(s.drop_last());
    }
}

/// The total number of bytes received: the sum of the per-message counts.
pub fn total_received_bytes(message_bytes: &Vec<u8>) -> (total: u32)
    requires
        message_bytes@.len() <= 0xFFFF,
    ensures
        total == sum_bytes(message_bytes@),
{
    let mut total: u32 = 0;
    let n = message_bytes.len();
    for i in 0..n
        invariant
            n == message_bytes@.len() <= 0xFFFF,
            total == sum_bytes(message_bytes@.take(i as int)),
    {
        proof {
            lemma_sum_bytes_bounds(message_bytes@.take(i as int));
            assert(message_bytes@.take(i as int + 1).drop_last() =~= message_bytes@.take(i as int));
            assert(message_bytes@.take(i as int + 1).last() == message_bytes@[i as int]);
        }
        total = total + message_bytes[i] as u32;
    }
    proof {
        assert(message_bytes@.take(n as int) =~= message_bytes@);
    }
    total
}

} // verus!
