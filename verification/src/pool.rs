//! The transmission pool: a bounded set of in-flight message slots.
//!
//! Acknowledged-class submissions take a slot and hold it until the
//! transport resolves them to Delivered or Dropped; when every slot is taken
//! the submitter queues up and is woken in FIFO order as capacity returns.
//! Unreliable submissions bypass slot retention entirely: they are
//! transmitted once and keep nothing, so high-frequency low-value traffic
//! can never exhaust the capacity the critical traffic needs.
//!
//! The pool is a pure state machine here; the cooperative scheduler that
//! suspends and wakes the submitting tasks lives with the caller.

use vstd::prelude::*;
use crate::side::KeyboardSide;
use crate::messages::{
    SequenceSource,
    Envelope,
    ReliabilityClass,
    spec_deadline_ms,
    spec_is_acknowledged,
    spec_retry_budget,
    deadline_ms,
    is_acknowledged,
    retry_budget,
};

verus! {

/// Lifecycle of one slot. A slot is the pool's own: the transport refers to
/// it by index while its envelope is in flight and never copies it.
#[derive(Clone, Copy, PartialEq, Eq, Structural, Debug)]
pub enum SlotState {
    /// Capacity available.
    Free,
    /// Frame transmitted, acknowledgement not yet due or not yet seen.
    Sent,
    /// Retry budget spent on the last transmission; only an ack or the final
    /// deadline can resolve it now.
    AwaitingAck,
    /// Terminal: the peer acknowledged the envelope.
    Delivered,
    /// Terminal: deadline expired with no retries left.
    Dropped,
}

/// One in-flight transmission attempt.
pub struct Slot {
    pub env: Option<Envelope>,
    pub state: SlotState,
    pub retries_left: u32,
    /// When the currently armed timeout fires, in milliseconds.
    pub deadline: u64,
    /// When the envelope was first transmitted; never changes afterwards.
    pub armed_at: u64,
}

pub open spec fn spec_slot_in_flight(s: Slot) -> bool {
    s.state is Sent || s.state is AwaitingAck
}

pub open spec fn spec_slot_occupied(s: Slot) -> bool {
    !(s.state is Free)
}

impl Slot {
    pub fn free() -> (r: Slot)
        ensures
            r.state is Free,
            r.env is None,
    {
        Slot { env: None, state: SlotState::Free, retries_left: 0, deadline: 0, armed_at: 0 }
    }
}

/// Deadline of the class an in-flight slot carries, in milliseconds.
pub open spec fn spec_slot_deadline_ms(s: Slot) -> int {
    match s.env {
        Some(env) => match spec_deadline_ms(env.class) {
            Some(d) => d as int,
            None => 0int,
        },
        None => 0int,
    }
}

/// Retry budget of the class an in-flight slot carries.
pub open spec fn spec_slot_budget(s: Slot) -> int {
    match s.env {
        Some(env) => spec_retry_budget(env.class) as int,
        None => 0int,
    }
}

/// Well-formedness of an in-flight acknowledged slot, established when the
/// pool grants it and preserved by every timer step. The deadline bound is
/// what the resolution-time law rests on: after `k` retransmissions the
/// armed deadline sits at most `(k + 1)` deadlines past the first
/// transmission.
pub open spec fn spec_slot_wf_inflight(s: Slot) -> bool {
    &&& spec_slot_in_flight(s)
    &&& s.env is Some
    &&& spec_is_acknowledged(s.env.unwrap().class)
    &&& s.retries_left <= spec_slot_budget(s)
    &&& s.armed_at <= s.deadline
    &&& s.deadline <= s.armed_at + spec_slot_deadline_ms(s) * (1 + spec_slot_budget(s)
        - s.retries_left)
    &&& s.armed_at + spec_slot_deadline_ms(s) * (spec_slot_budget(s) + 2) <= u64::MAX
}

/// A slot as the pool hands it out is well formed in flight.
pub proof fn lemma_granted_slot_wf(s: Slot, now: u64)
    requires
        s.state is Sent,
        s.env is Some,
        spec_is_acknowledged(s.env.unwrap().class),
        s.retries_left == spec_retry_budget(s.env.unwrap().class),
        s.armed_at == now,
        s.deadline == now + spec_deadline_ms(s.env.unwrap().class).unwrap(),
        now + (spec_retry_budget(s.env.unwrap().class) + 2) * (spec_deadline_ms(
            s.env.unwrap().class,
        ).unwrap() as int) <= u64::MAX,
    ensures
        spec_slot_wf_inflight(s),
{
    let d = spec_slot_deadline_ms(s);
    let b = spec_slot_budget(s);
    assert(d * (1 + b - s.retries_left) == d) by (nonlinear_arith)
        requires
            b == s.retries_left,
    ;
    assert(d * (b + 2) == (b + 2) * d) by (nonlinear_arith);
}

/// The pool-wide invariant: every in-flight slot is well formed, so every
/// law of the retry state machine applies to it.
pub open spec fn spec_pool_wf(p: TransmissionPool) -> bool {
    forall|i: int|
        0 <= i < p.slots@.len() && spec_slot_in_flight(#[trigger] p.slots@[i])
            ==> spec_slot_wf_inflight(p.slots@[i])
}

/// In-flight slots of a slot sequence.
pub open spec fn count_in_flight(s: Seq<Slot>) -> int
    decreases s.len(),
{
    if s.len() == 0 {
        0
    } else {
        count_in_flight(s.drop_last()) + if spec_slot_in_flight(s.last()) {
            1int
        } else {
            0int
        }
    }
}

pub proof fn lemma_count_in_flight_le_len(s: Seq<Slot>)
    ensures
        0 <= count_in_flight(s) <= s.len(),
    decreases s.len(),
{
    if s.len() > 0 {
        lemma_count_in_flight_le_len(s.drop_last());
    }
}

/// How one update moves the in-flight count.
pub proof fn lemma_count_in_flight_update(s: Seq<Slot>, i: int, v: Slot)
    requires
        0 <= i < s.len(),
    ensures
        count_in_flight(s.update(i, v)) == count_in_flight(s) - (if spec_slot_in_flight(s[i]) {
            1int
        } else {
            0int
        }) + (if spec_slot_in_flight(v) {
            1int
        } else {
            0int
        }),
    decreases s.len(),
{
    let t = s.update(i, v);
    if s.len() > 0 {
        if i == s.len() - 1 {
            assert(t.drop_last() =~= s.drop_last());
        } else {
            assert(t.drop_last() =~= s.drop_last().update(i, v));
            assert(t.last() == s.last());
            lemma_count_in_flight_update(s.drop_last(), i, v);
        }
    }
}

/// What a submission got from the pool.
pub enum AcquireOutcome {
    /// Unreliable: the envelope comes straight back to be transmitted once;
    /// the pool retains nothing.
    Bypass { env: Envelope },
    /// An acknowledged-class slot was taken; the transport owns it by index
    /// until it resolves.
    Granted { slot: usize },
    /// No capacity: the submitter holds this ticket and suspends until a
    /// release wakes it, FIFO, or its bounded wait elapses.
    MustWait { ticket: u64 },
}

/// Terminal resolution handed back to the original producer.
#[derive(Clone, Copy, PartialEq, Eq, Structural, Debug)]
pub enum Outcome {
    Delivered,
    Dropped,
}

/// Surfaced when capacity and the bounded wait are both exhausted.
#[derive(Clone, Copy, PartialEq, Eq, Structural, Debug)]
pub struct PoolExhausted;

/// Bounded pool of transmission slots plus the FIFO queue of suspended
/// submitters. All mutation happens under the caller's critical section.
pub struct TransmissionPool {
    pub slots: Vec<Slot>,
    pub waiters: Vec<u64>,
    pub next_ticket: u64,
}

impl TransmissionPool {
    pub open spec fn spec_capacity(&self) -> int {
        self.slots@.len() as int
    }

    pub open spec fn spec_in_flight(&self) -> int {
        count_in_flight(self.slots@)
    }

    pub fn new(capacity: usize) -> (r: TransmissionPool)
        ensures
            r.spec_capacity() == capacity,
            r.spec_in_flight() == 0,
            r.waiters@.len() == 0,
            r.next_ticket == 0,
            forall|j: int| 0 <= j < capacity ==> (#[trigger] r.slots@[j]).state is Free,
            spec_pool_wf(r),
    {
        let mut slots: Vec<Slot> = Vec::new();
        let mut i: usize = 0;
        while i < capacity
            invariant
                i <= capacity,
                slots@.len() == i,
                count_in_flight(slots@) == 0,
                forall|j: int| 0 <= j < i ==> (#[trigger] slots@[j]).state is Free,
            decreases capacity - i,
        {
            let ghost pre = slots@;
            let s = Slot::free();
            slots.push(s);
            proof {
                assert(slots@.drop_last() =~= pre);
            }
            i = i + 1;
        }
        TransmissionPool { slots, waiters: Vec::new(), next_ticket: 0 }
    }

    /// The capacity bound itself: however the pool has been driven, it never
    /// holds more concurrently in-flight slots than it has slots.
    pub proof fn lemma_in_flight_bounded_by_capacity(&self)
        ensures
            0 <= self.spec_in_flight() <= self.spec_capacity(),
    {
        lemma_count_in_flight_le_len(self.slots@);
    }

    /// Submit an envelope.
    ///
    /// Unreliable envelopes bypass the pool: the call returns at once and
    /// the pool is untouched. An acknowledged-class envelope takes the first
    /// free slot and arms its timeout; with no free slot the submitter is
    /// queued behind every earlier waiter and must suspend.
    pub fn acquire(&mut self, env: Envelope, now: u64) -> (r: AcquireOutcome)
        requires
            now + (spec_retry_budget(env.class) + 2) * (match spec_deadline_ms(env.class) {
                Some(d) => d as int,
                None => 0int,
            }) <= u64::MAX,
            old(self).next_ticket < u64::MAX,
        ensures
            spec_pool_wf(*old(self)) ==> spec_pool_wf(*final(self)),
            match r {
                AcquireOutcome::Bypass { env: back } => {
                    &&& !spec_is_acknowledged(env.class)
                    &&& back == env
                    &&& *final(self) == *old(self)
                },
                AcquireOutcome::Granted { slot } => {
                    &&& spec_is_acknowledged(env.class)
                    &&& slot < old(self).slots@.len()
                    &&& old(self).slots@[slot as int].state is Free
                    &&& final(self).slots@ == old(self).slots@.update(
                        slot as int,
                        final(self).slots@[slot as int],
                    )
                    &&& final(self).slots@[slot as int].state is Sent
                    &&& final(self).slots@[slot as int].env == Some(env)
                    &&& final(self).slots@[slot as int].retries_left == spec_retry_budget(
                        env.class,
                    )
                    &&& final(self).slots@[slot as int].armed_at == now
                    &&& final(self).slots@[slot as int].deadline == now + spec_deadline_ms(
                        env.class,
                    ).unwrap()
                    &&& final(self).spec_in_flight() == old(self).spec_in_flight() + 1
                    &&& final(self).waiters == old(self).waiters
                    &&& final(self).next_ticket == old(self).next_ticket
                },
                AcquireOutcome::MustWait { ticket } => {
                    &&& spec_is_acknowledged(env.class)
                    &&& forall|j: int|
                        0 <= j < old(self).slots@.len() ==> !((
                        #[trigger] old(self).slots@[j]).state is Free)
                    &&& ticket == old(self).next_ticket
                    &&& final(self).waiters@ == old(self).waiters@.push(ticket)
                    &&& final(self).slots == old(self).slots
                    &&& final(self).next_ticket == old(self).next_ticket + 1
                },
            },
    {
        if !is_acknowledged(env.class) {
            return AcquireOutcome::Bypass { env };
        }
        let n = self.slots.len();
        let mut free_idx: Option<usize> = None;
        let mut i: usize = 0;
        while i < n && free_idx.is_none()
            invariant
                i <= n,
                n == self.slots@.len(),
                match free_idx {
                    Some(k) => k < n && self.slots@[k as int].state is Free,
                    None => forall|j: int|
                        0 <= j < i ==> !((#[trigger] self.slots@[j]).state is Free),
                },
            decreases n - i,
        {
            let is_free = match self.slots[i].state {
                SlotState::Free => true,
                _ => false,
            };
            if is_free {
                free_idx = Some(i);
            }
            i = i + 1;
        }
        match free_idx {
            Some(k) => {
                let budget = retry_budget(env.class);
                let d = match deadline_ms(env.class) {
                    Some(dd) => dd,
                    None => 0,
                };
                proof {
                    assert((spec_retry_budget(env.class) + 2) * (d as int) >= 1 * (d as int))
                        by (nonlinear_arith)
                        requires
                            spec_retry_budget(env.class) >= 0,
                            d >= 0,
                    ;
                }
                let slot = Slot {
                    env: Some(env),
                    state: SlotState::Sent,
                    retries_left: budget,
                    deadline: now + d,
                    armed_at: now,
                };
                let ghost old_slots = self.slots@;
                self.slots.set(k, slot);
                proof {
                    lemma_count_in_flight_update(old_slots, k as int, self.slots@[k as int]);
                    lemma_granted_slot_wf(self.slots@[k as int], now);
                    assert forall|j: int|
                        0 <= j < self.slots@.len() && spec_slot_in_flight(
                            #[trigger] self.slots@[j],
                        ) && spec_pool_wf(*old(self)) implies spec_slot_wf_inflight(
                        self.slots@[j],
                    ) by {
                        if j != k {
                            assert(self.slots@[j] == old(self).slots@[j]);
                        }
                    }
                }
                AcquireOutcome::Granted { slot: k }
            },
            None => {
                let ticket = self.next_ticket;
                self.next_ticket = self.next_ticket + 1;
                self.waiters.push(ticket);
                AcquireOutcome::MustWait { ticket }
            },
        }
    }

    /// Resolve an occupied slot to its terminal outcome and return its
    /// capacity, waking the longest-suspended submitter if one is queued.
    ///
    /// The freed slot is immediately reusable; the outcome travels back to
    /// the awaiting producer in the result, together with the woken ticket.
    pub fn release(&mut self, slot: usize, outcome: Outcome) -> (r: (Outcome, Option<u64>))
        requires
            slot < old(self).slots@.len(),
        ensures
            r.0 == outcome,
            spec_pool_wf(*old(self)) ==> spec_pool_wf(*final(self)),
            final(self).slots@ == old(self).slots@.update(
                slot as int,
                final(self).slots@[slot as int],
            ),
            final(self).slots@[slot as int].state is Free,
            final(self).slots@[slot as int].env is None,
            final(self).spec_in_flight() == old(self).spec_in_flight() - (
            if spec_slot_in_flight(old(self).slots@[slot as int]) {
                1int
            } else {
                0int
            }),
            final(self).next_ticket == old(self).next_ticket,
            match r.1 {
                Some(ticket) => old(self).waiters@.len() > 0 && ticket == old(self).waiters@[0]
                    && final(self).waiters@ == old(self).waiters@.drop_first(),
                None => old(self).waiters@.len() == 0 && final(self).waiters == old(self).waiters,
            },
    {
        let ghost old_slots = self.slots@;
        let f = Slot::free();
        self.slots.set(slot, f);
        proof {
            lemma_count_in_flight_update(old_slots, slot as int, self.slots@[slot as int]);
        }
        if self.waiters.len() > 0 {
            let ticket = self.waiters.remove(0);
            proof {
                assert(self.waiters@ =~= old(self).waiters@.drop_first());
            }
            (outcome, Some(ticket))
        } else {
            (outcome, None)
        }
    }

    /// A suspended submitter whose bounded wait has elapsed abandons its
    /// ticket; the submission fails with `PoolExhausted`, to be retried
    /// later by its producer.
    pub fn cancel_wait(&mut self, ticket: u64) -> (r: PoolExhausted)
        ensures
            final(self).slots == old(self).slots,
            final(self).next_ticket == old(self).next_ticket,
            (exists|j: int|
                0 <= j < old(self).waiters@.len() && old(self).waiters@[j] == ticket)
                ==> final(self).waiters@.len() == old(self).waiters@.len() - 1,
            (forall|j: int|
                0 <= j < old(self).waiters@.len() ==> old(self).waiters@[j] != ticket)
                ==> final(self).waiters == old(self).waiters,
    {
        let n = self.waiters.len();
        let mut i: usize = 0;
        while i < n
            invariant
                i <= n,
                n == self.waiters@.len(),
                self.slots == old(self).slots,
                self.waiters == old(self).waiters,
                self.next_ticket == old(self).next_ticket,
                forall|j: int| 0 <= j < i ==> self.waiters@[j] != ticket,
            decreases n - i,
        {
            if self.waiters[i] == ticket {
                let _ = self.waiters.remove(i);
                return PoolExhausted;
            }
            i = i + 1;
        }
        PoolExhausted
    }
}

/// The submission entry point every subsystem shares: wrap a payload with
/// its reliability class under the next per-origin sequence number, and
/// submit the envelope to the pool.
///
/// An unreliable submission returns at once with its envelope, for a single
/// transmission, and touches no pool state; an acknowledged-class
/// submission takes a slot or queues up behind earlier waiters.
pub fn submit(
    pool: &mut TransmissionPool,
    seqs: &mut SequenceSource,
    tag: u8,
    data: Vec<u8>,
    class: ReliabilityClass,
    origin: KeyboardSide,
    now: u64,
) -> (r: AcquireOutcome)
    requires
        old(seqs).next < u32::MAX,
        old(pool).next_ticket < u64::MAX,
        now + (spec_retry_budget(class) + 2) * (match spec_deadline_ms(class) {
            Some(d) => d as int,
            None => 0int,
        }) <= u64::MAX,
    ensures
        final(seqs).next == old(seqs).next + 1,
        match r {
            AcquireOutcome::Bypass { env } => {
                &&& !spec_is_acknowledged(class)
                &&& *final(pool) == *old(pool)
                &&& env == (Envelope { tag, data, class, seq: old(seqs).next, origin })
            },
            AcquireOutcome::Granted { slot } => {
                &&& spec_is_acknowledged(class)
                &&& slot < old(pool).slots@.len()
                &&& old(pool).slots@[slot as int].state is Free
                &&& final(pool).spec_in_flight() == old(pool).spec_in_flight() + 1
                &&& final(pool).slots@[slot as int].state is Sent
                &&& final(pool).slots@[slot as int].env == Some(
                    Envelope { tag, data, class, seq: old(seqs).next, origin },
                )
                &&& final(pool).slots@[slot as int].retries_left == spec_retry_budget(class)
                &&& final(pool).slots@[slot as int].armed_at == now
                &&& final(pool).slots@[slot as int].deadline == now + spec_deadline_ms(
                    class,
                ).unwrap()
                &&& final(pool).waiters == old(pool).waiters
            },
            AcquireOutcome::MustWait { ticket } => {
                &&& spec_is_acknowledged(class)
                &&& ticket == old(pool).next_ticket
                &&& final(pool).waiters@ == old(pool).waiters@.push(ticket)
                &&& final(pool).slots == old(pool).slots
                &&& final(pool).next_ticket == old(pool).next_ticket + 1
            },
        },
{
    let seq = seqs.assign();
    let env = Envelope { tag, data, class, seq, origin };
    pool.acquire(env, now)
}

} // verus!
