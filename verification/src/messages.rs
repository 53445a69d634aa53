//! The message envelope and its reliability policy.
//!
//! A payload is wrapped with a reliability class; the class alone decides the
//! retransmission deadline and the retry budget the transport will spend on
//! it. The policy is pure data: it performs no timing itself.

use vstd::prelude::*;
use crate::side::KeyboardSide;

verus! {

/// Delivery contract of an envelope.
#[derive(Clone, Copy, PartialEq, Eq, Structural, Debug)]
pub enum ReliabilityClass {
    /// Fire and forget: one transmission attempt, no pool slot retained.
    Unreliable,
    /// Staleness is worse than loss: short deadline, a single retry.
    LowLatency,
    /// Must eventually arrive or report failure: long deadline, several retries.
    Reliable,
}

/// Deadline of the low-latency tier, in milliseconds.
pub const LOW_LATENCY_DEADLINE_MS: u64 = 2;

/// Deadline of the reliable tier, in milliseconds.
pub const RELIABLE_DEADLINE_MS: u64 = 20;

/// Retry budget of the reliable tier.
pub const RELIABLE_RETRIES: u32 = 3;

/// Deadline a transmission of this class must meet before it is retried or
/// dropped; `None` for the unacknowledged tier, which arms no timer.
pub open spec fn spec_deadline_ms(class: ReliabilityClass) -> Option<u64> {
    match class {
        ReliabilityClass::Unreliable => None,
        ReliabilityClass::LowLatency => Some(LOW_LATENCY_DEADLINE_MS),
        ReliabilityClass::Reliable => Some(RELIABLE_DEADLINE_MS),
    }
}

/// How many retransmissions the transport may spend after the first attempt.
pub open spec fn spec_retry_budget(class: ReliabilityClass) -> u32 {
    match class {
        ReliabilityClass::Unreliable => 0,
        ReliabilityClass::LowLatency => 1,
        ReliabilityClass::Reliable => RELIABLE_RETRIES,
    }
}

/// Whether the class expects an acknowledgement and therefore a pool slot.
pub open spec fn spec_is_acknowledged(class: ReliabilityClass) -> bool {
    class != ReliabilityClass::Unreliable
}

pub fn deadline_ms(class: ReliabilityClass) -> (r: Option<u64>)
    ensures
        r == spec_deadline_ms(class),
{
    match class {
        ReliabilityClass::Unreliable => None,
        ReliabilityClass::LowLatency => Some(LOW_LATENCY_DEADLINE_MS),
        ReliabilityClass::Reliable => Some(RELIABLE_DEADLINE_MS),
    }
}

pub fn retry_budget(class: ReliabilityClass) -> (r: u32)
    ensures
        r == spec_retry_budget(class),
{
    match class {
        ReliabilityClass::Unreliable => 0,
        ReliabilityClass::LowLatency => 1,
        ReliabilityClass::Reliable => RELIABLE_RETRIES,
    }
}

pub fn is_acknowledged(class: ReliabilityClass) -> (r: bool)
    ensures
        r == spec_is_acknowledged(class),
{
    match class {
        ReliabilityClass::Unreliable => false,
        ReliabilityClass::LowLatency => true,
        ReliabilityClass::Reliable => true,
    }
}

/// A payload on its way to the other half, together with the timeout its
/// reliability tier grants it; `None` means fire and forget.
///
/// Timeouts are plain millisecond counts.
pub struct TransmittedMessage<T> {
    pub msg: T,
    pub timeout: Option<u64>,
}

pub fn low_latency_msg<T>(msg: T) -> (r: TransmittedMessage<T>)
    ensures
        r.msg == msg,
        r.timeout == Some(LOW_LATENCY_DEADLINE_MS),
{
    TransmittedMessage { msg, timeout: Some(LOW_LATENCY_DEADLINE_MS) }
}

pub fn reliable_msg<T>(msg: T) -> (r: TransmittedMessage<T>)
    ensures
        r.msg == msg,
        r.timeout == Some(RELIABLE_DEADLINE_MS),
{
    TransmittedMessage { msg, timeout: Some(RELIABLE_DEADLINE_MS) }
}

pub fn unreliable_msg<T>(msg: T) -> (r: TransmittedMessage<T>)
    ensures
        r.msg == msg,
        r.timeout is None,
{
    TransmittedMessage { msg, timeout: None }
}

/// One transmissible unit: an opaque tagged payload, its delivery contract,
/// and the per-origin sequence number that lets the receiver reject
/// retransmitted duplicates. Immutable once handed to the transport.
#[derive(Clone, PartialEq, Eq, Debug)]
#[verifier::ext_equal]
pub struct Envelope {
    /// Subsystem tag as it travels on the wire; the distributor maps it to a
    /// channel, and an unknown value is reported as unroutable there.
    pub tag: u8,
    pub data: Vec<u8>,
    pub class: ReliabilityClass,
    pub seq: u32,
    pub origin: KeyboardSide,
}

/// Pure construction of an envelope; no side effects, no I/O.
pub fn wrap(tag: u8, data: Vec<u8>, class: ReliabilityClass, seq: u32, origin: KeyboardSide) -> (r:
    Envelope)
    ensures
        r.tag == tag,
        r.data == data,
        r.class == class,
        r.seq == seq,
        r.origin == origin,
{
    Envelope { tag, data, class, seq, origin }
}

impl Envelope {
    /// An exact copy, for retransmitting the identical frame while the pool
    /// slot keeps the original.
    pub fn duplicate(&self) -> (r: Envelope)
        ensures
            r.tag == self.tag,
            r.data@ == self.data@,
            r.class == self.class,
            r.seq == self.seq,
            r.origin == self.origin,
    {
        let mut data: Vec<u8> = Vec::new();
        let n = self.data.len();
        let mut i: usize = 0;
        while i < n
            invariant
                i <= n,
                n == self.data@.len(),
                data@ == self.data@.take(i as int),
            decreases n - i,
        {
            data.push(self.data[i]);
            proof {
                assert(self.data@.take(i + 1) =~= self.data@.take(i as int) + seq![
                    self.data@[i as int],
                ]);
            }
            i = i + 1;
        }
        proof {
            assert(self.data@.take(n as int) =~= self.data@);
        }
        Envelope {
            tag: self.tag,
            data,
            class: self.class,
            seq: self.seq,
            origin: self.origin,
        }
    }
}

/// Hands out the per-origin sequence numbers, one more than the last each
/// time, so that no number is ever reused by this origin.
pub struct SequenceSource {
    pub next: u32,
}

impl SequenceSource {
    pub fn new() -> (r: SequenceSource)
        ensures
            r.next == 0,
    {
        SequenceSource { next: 0 }
    }

    /// The number handed out is the current one; the source then moves past
    /// it and never offers it again.
    pub fn assign(&mut self) -> (r: u32)
        requires
            old(self).next < u32::MAX,
        ensures
            r == old(self).next,
            final(self).next == old(self).next + 1,
    {
        let r = self.next;
        self.next = self.next + 1;
        r
    }
}

/// Sequence numbers from one origin are never reused: two successive
/// assignments from the same source hand out distinct numbers, and each run
/// of assignments only ever moves the source forward.
pub proof fn lemma_sequence_numbers_unique(s0: SequenceSource, s1: SequenceSource, r1: u32, r2: u32)
    requires
        r1 == s0.next,
        s1.next == s0.next + 1,
        r2 == s1.next,
    ensures
        r1 != r2,
{
}

} // verus!
