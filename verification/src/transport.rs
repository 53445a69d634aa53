//! The interboard transport: the retry state machine of each in-flight
//! acknowledged slot, and the receiving side's resynchronization,
//! verification and duplicate rejection.
//!
//! Outbound, a slot is armed when its envelope is first transmitted; on each
//! deadline expiry the identical frame is retransmitted while retry budget
//! remains, and the slot drops when the budget is spent. Inbound, bytes are
//! scanned for a start marker, a candidate frame is verified, and verified
//! frames are deduplicated per origin before anything reaches the
//! distributor; duplicates of acknowledged classes are acknowledged again,
//! since the lost reply may be exactly why the peer retransmitted.

use vstd::prelude::*;
use crate::frame::{
    encode_frame,
    parse_frame_at,
    find_marker,
    spec_frame_bytes,
    spec_parse,
    spec_frame_data,
    Frame,
    FrameView,
    ParseOutcome,
    FRAME_OVERHEAD,
    MAX_PAYLOAD,
    START_MARKER,
};
use crate::messages::{
    Envelope,
    ReliabilityClass,
    RELIABLE_DEADLINE_MS,
    RELIABLE_RETRIES,
    spec_deadline_ms,
    spec_is_acknowledged,
    spec_retry_budget,
    is_acknowledged,
};
use crate::pool::{
    Slot,
    SlotState,
    TransmissionPool,
    lemma_count_in_flight_update,
    spec_pool_wf,
    spec_slot_budget,
    spec_slot_deadline_ms,
    spec_slot_in_flight,
    spec_slot_wf_inflight,
};
use crate::side::KeyboardSide;

verus! {

/// `a <= b` and `0 <= c` give `a * c <= b * c`.
proof fn lemma_mul_le(a: int, b: int, c: int)
    requires
        a <= b,
        0 <= c,
    ensures
        a * c <= b * c,
{
    assert(a * c <= b * c) by (nonlinear_arith)
        requires
            a <= b,
            0 <= c,
    ;
}

/// What one deadline expiry makes of an in-flight slot: a retransmission of
/// the identical frame with a fresh deadline while budget remains, the
/// terminal drop when none does.
pub open spec fn spec_on_expiry(s: Slot) -> Slot {
    if s.retries_left > 0 {
        Slot {
            env: s.env,
            state: if s.retries_left == 1 {
                SlotState::AwaitingAck
            } else {
                SlotState::Sent
            },
            retries_left: (s.retries_left - 1) as u32,
            deadline: (s.deadline + spec_slot_deadline_ms(s)) as u64,
            armed_at: s.armed_at,
        }
    } else {
        Slot {
            env: s.env,
            state: SlotState::Dropped,
            retries_left: s.retries_left,
            deadline: s.deadline,
            armed_at: s.armed_at,
        }
    }
}

/// An expiry of a well-formed slot keeps it well formed (or terminal) and
/// never pushes its deadline past `deadline * (budget + 1)` after the first
/// transmission.
pub proof fn lemma_expiry_preserves_wf(s: Slot)
    requires
        spec_slot_wf_inflight(s),
    ensures
        s.retries_left > 0 ==> s.deadline + spec_slot_deadline_ms(s) <= u64::MAX,
        s.retries_left > 0 ==> spec_slot_wf_inflight(spec_on_expiry(s)),
        s.retries_left > 0 ==> spec_on_expiry(s).retries_left == s.retries_left - 1,
        s.retries_left == 0 ==> spec_on_expiry(s).state is Dropped,
        spec_on_expiry(s).deadline <= s.armed_at + spec_slot_deadline_ms(s) * (spec_slot_budget(s)
            + 1),
        spec_on_expiry(s).armed_at == s.armed_at,
        spec_on_expiry(s).env == s.env,
{
    let d = spec_slot_deadline_ms(s);
    let b = spec_slot_budget(s);
    let r = s.retries_left as int;
    assert(d >= 0);
    lemma_mul_le(1 + b - r, b + 2, d);
    assert((1 + b - r) * d == d * (1 + b - r)) by (nonlinear_arith);
    assert((b + 2) * d == d * (b + 2)) by (nonlinear_arith);
    if s.retries_left > 0 {
        lemma_mul_le(2 + b - r, b + 2, d);
        assert((2 + b - r) * d == d * (1 + b - r) + d) by (nonlinear_arith);
        assert((b + 2) * d == d * (b + 2)) by (nonlinear_arith);
        assert(s.deadline + d <= s.armed_at + d * (1 + b - r) + d);
        assert(d * (1 + b - r) + d == d * (1 + b - (r - 1))) by (nonlinear_arith);
        lemma_mul_le(1 + b - (r - 1), b + 1, d);
        assert((1 + b - (r - 1)) * d == d * (1 + b - (r - 1))) by (nonlinear_arith);
        assert((b + 1) * d == d * (b + 1)) by (nonlinear_arith);
    } else {
        lemma_mul_le(1 + b - r, b + 1, d);
        assert((1 + b - r) * d == d * (1 + b - r)) by (nonlinear_arith);
        assert((b + 1) * d == d * (b + 1)) by (nonlinear_arith);
    }
}

/// The slot after `n` deadline expiries.
pub open spec fn spec_expire_n(s: Slot, n: nat) -> Slot
    decreases n,
{
    if n == 0 {
        s
    } else {
        spec_on_expiry(spec_expire_n(s, (n - 1) as nat))
    }
}

proof fn lemma_expire_n_shift(s: Slot, n: nat)
    ensures
        spec_expire_n(s, n + 1) == spec_expire_n(spec_on_expiry(s), n),
    decreases n,
{
    if n == 0 {
        assert(spec_expire_n(s, 1) == spec_on_expiry(spec_expire_n(s, 0)));
    } else {
        lemma_expire_n_shift(s, (n - 1) as nat);
        assert(spec_expire_n(s, n + 1) == spec_on_expiry(spec_expire_n(s, n)));
        assert(spec_expire_n(spec_on_expiry(s), n) == spec_on_expiry(
            spec_expire_n(spec_on_expiry(s), (n - 1) as nat),
        ));
    }
}

/// No acknowledged envelope remains unresolved indefinitely: a well-formed
/// in-flight slot that never hears an acknowledgement is dropped after at
/// most `retries_left + 1` further deadline expiries, and every one of those
/// expiries — the terminal one included — fires no later than
/// `deadline * (retry budget + 1)` past the first transmission. An
/// acknowledgement can only resolve it sooner, since it must arrive before
/// the armed deadline.
pub proof fn lemma_acknowledged_resolves_within_bound(s: Slot)
    requires
        spec_slot_wf_inflight(s),
    ensures
        spec_expire_n(s, (s.retries_left + 1) as nat).state is Dropped,
        forall|k: nat|
            k <= s.retries_left ==> (#[trigger] spec_expire_n(s, k)).deadline <= s.armed_at
                + spec_slot_deadline_ms(s) * (spec_slot_budget(s) + 1),
    decreases s.retries_left,
{
    let d = spec_slot_deadline_ms(s);
    let b = spec_slot_budget(s);
    lemma_expiry_preserves_wf(s);
    if s.retries_left == 0 {
        assert(spec_expire_n(s, 1) == spec_on_expiry(spec_expire_n(s, 0)));
        assert(forall|k: nat| k <= s.retries_left ==> spec_expire_n(s, k) == s);
        lemma_mul_le(1 + b - 0, b + 1, d);
        assert((1 + b) * d == d * (1 + b)) by (nonlinear_arith);
        assert((b + 1) * d == d * (b + 1)) by (nonlinear_arith);
    } else {
        let s1 = spec_on_expiry(s);
        assert(s1.env == s.env);
        assert(spec_slot_deadline_ms(s1) == d);
        assert(spec_slot_budget(s1) == b);
        lemma_acknowledged_resolves_within_bound(s1);
        lemma_expire_n_shift(s, (s1.retries_left + 1) as nat);
        assert(spec_expire_n(s, (s.retries_left + 1) as nat) == spec_expire_n(
            s1,
            (s1.retries_left + 1) as nat,
        ));
        assert forall|k: nat| k <= s.retries_left implies (#[trigger] spec_expire_n(
            s,
            k,
        )).deadline <= s.armed_at + d * (b + 1) by {
            if k == 0 {
                lemma_mul_le(1 + b - s.retries_left, b + 1, d);
                assert((1 + b - s.retries_left) * d == d * (1 + b - s.retries_left))
                    by (nonlinear_arith);
                assert((b + 1) * d == d * (b + 1)) by (nonlinear_arith);
            } else {
                lemma_expire_n_shift(s, (k - 1) as nat);
                assert(spec_expire_n(s, k) == spec_expire_n(s1, (k - 1) as nat));
            }
        }
    }
}

/// The reliable tier in concrete terms: an in-flight Reliable envelope that
/// never hears an acknowledgement is dropped after at most `retries_left + 1`
/// further expiries, every one of which fires within
/// `RELIABLE_DEADLINE_MS * (RELIABLE_RETRIES + 1)` of the first
/// transmission; an acknowledgement resolves it within the same window.
pub proof fn lemma_reliable_tier_bound(s: Slot)
    requires
        spec_slot_wf_inflight(s),
        s.env.unwrap().class is Reliable,
    ensures
        spec_expire_n(s, (s.retries_left + 1) as nat).state is Dropped,
        forall|k: nat|
            k <= s.retries_left ==> (#[trigger] spec_expire_n(s, k)).deadline <= s.armed_at
                + RELIABLE_DEADLINE_MS * (RELIABLE_RETRIES + 1),
{
    lemma_acknowledged_resolves_within_bound(s);
    assert(spec_slot_deadline_ms(s) == RELIABLE_DEADLINE_MS);
    assert(spec_slot_budget(s) == RELIABLE_RETRIES);
}

/// What the timer path asks of the transport when a deadline fires.
#[derive(Clone, Copy, PartialEq, Eq, Structural, Debug)]
pub enum TimerAction {
    /// Retransmit the identical frame, same sequence number; the deadline
    /// has been re-armed and the budget charged.
    Retransmit,
    /// Budget spent: the slot is terminal and its producer sees `Dropped`.
    Drop,
}

/// Deadline expiry of an in-flight acknowledged slot. The timer fires at
/// the armed deadline itself.
pub fn deadline_expired(slot: &mut Slot, now: u64) -> (r: TimerAction)
    requires
        spec_slot_wf_inflight(*old(slot)),
        now == old(slot).deadline,
    ensures
        *final(slot) == spec_on_expiry(*old(slot)),
        match r {
            TimerAction::Retransmit => old(slot).retries_left > 0 && spec_slot_wf_inflight(
                *final(slot),
            ) && final(slot).retries_left == old(slot).retries_left - 1,
            TimerAction::Drop => old(slot).retries_left == 0 && final(slot).state is Dropped && now
                <= old(slot).armed_at + spec_slot_deadline_ms(*old(slot)) * (spec_slot_budget(
                *old(slot),
            ) + 1),
        },
{
    proof {
        lemma_expiry_preserves_wf(*slot);
    }
    if slot.retries_left > 0 {
        let d = match &slot.env {
            Some(env) => match crate::messages::deadline_ms(env.class) {
                Some(d) => d,
                None => 0,
            },
            None => 0,
        };
        slot.retries_left = slot.retries_left - 1;
        slot.deadline = slot.deadline + d;
        slot.state = if slot.retries_left == 0 {
            SlotState::AwaitingAck
        } else {
            SlotState::Sent
        };
        TimerAction::Retransmit
    } else {
        slot.state = SlotState::Dropped;
        TimerAction::Drop
    }
}

/// The peer's acknowledgement arrived before the armed deadline: the slot
/// resolves to Delivered, within the same absolute bound the drop path
/// obeys.
pub fn ack_received(slot: &mut Slot, now: u64)
    requires
        spec_slot_wf_inflight(*old(slot)),
        now <= old(slot).deadline,
    ensures
        final(slot).state is Delivered,
        final(slot).env == old(slot).env,
        final(slot).armed_at == old(slot).armed_at,
        now <= old(slot).armed_at + spec_slot_deadline_ms(*old(slot)) * (spec_slot_budget(
            *old(slot),
        ) + 1),
{
    proof {
        let d = spec_slot_deadline_ms(*slot);
        let b = spec_slot_budget(*slot);
        lemma_mul_le(1 + b - slot.retries_left, b + 1, d);
        assert((1 + b - slot.retries_left) * d == d * (1 + b - slot.retries_left))
            by (nonlinear_arith);
        assert((b + 1) * d == d * (b + 1)) by (nonlinear_arith);
    }
    slot.state = SlotState::Delivered;
}

/// Deadline expiry of slot `i`, at pool level: the well-formedness of every
/// in-flight slot is an invariant the pool's operations maintain, so the
/// timer path needs nothing beyond it. The expired slot is retransmitted or
/// dropped exactly as `deadline_expired` says, and every other slot stands
/// untouched.
pub fn on_deadline(pool: &mut TransmissionPool, i: usize, now: u64) -> (r: TimerAction)
    requires
        spec_pool_wf(*old(pool)),
        i < old(pool).slots@.len(),
        spec_slot_in_flight(old(pool).slots@[i as int]),
        now == old(pool).slots@[i as int].deadline,
    ensures
        spec_pool_wf(*final(pool)),
        final(pool).slots@ == old(pool).slots@.update(
            i as int,
            spec_on_expiry(old(pool).slots@[i as int]),
        ),
        final(pool).waiters == old(pool).waiters,
        final(pool).next_ticket == old(pool).next_ticket,
        match r {
            TimerAction::Retransmit => {
                &&& old(pool).slots@[i as int].retries_left > 0
                &&& spec_slot_in_flight(final(pool).slots@[i as int])
                &&& final(pool).spec_in_flight() == old(pool).spec_in_flight()
            },
            TimerAction::Drop => {
                &&& old(pool).slots@[i as int].retries_left == 0
                &&& final(pool).slots@[i as int].state is Dropped
                &&& final(pool).spec_in_flight() == old(pool).spec_in_flight() - 1
                &&& now <= old(pool).slots@[i as int].armed_at + spec_slot_deadline_ms(
                    old(pool).slots@[i as int],
                ) * (spec_slot_budget(old(pool).slots@[i as int]) + 1)
            },
        },
{
    let ghost old_slots = pool.slots@;
    let r = deadline_expired(&mut pool.slots[i], now);
    proof {
        lemma_count_in_flight_update(old_slots, i as int, pool.slots@[i as int]);
        assert forall|j: int|
            0 <= j < pool.slots@.len() && spec_slot_in_flight(
                #[trigger] pool.slots@[j],
            ) implies spec_slot_wf_inflight(pool.slots@[j]) by {
            if j != i {
                assert(pool.slots@[j] == old(pool).slots@[j]);
            }
        }
    }
    r
}

/// The peer's acknowledgement for slot `i` arrived in time: the slot
/// resolves to Delivered and leaves flight; every other slot stands
/// untouched. `release` then returns its capacity.
pub fn on_ack(pool: &mut TransmissionPool, i: usize, now: u64)
    requires
        spec_pool_wf(*old(pool)),
        i < old(pool).slots@.len(),
        spec_slot_in_flight(old(pool).slots@[i as int]),
        now <= old(pool).slots@[i as int].deadline,
    ensures
        spec_pool_wf(*final(pool)),
        final(pool).slots@ == old(pool).slots@.update(i as int, final(pool).slots@[i as int]),
        final(pool).slots@[i as int].state is Delivered,
        final(pool).slots@[i as int].env == old(pool).slots@[i as int].env,
        final(pool).spec_in_flight() == old(pool).spec_in_flight() - 1,
        final(pool).waiters == old(pool).waiters,
        final(pool).next_ticket == old(pool).next_ticket,
        now <= old(pool).slots@[i as int].armed_at + spec_slot_deadline_ms(
            old(pool).slots@[i as int],
        ) * (spec_slot_budget(old(pool).slots@[i as int]) + 1),
{
    let ghost old_slots = pool.slots@;
    ack_received(&mut pool.slots[i], now);
    proof {
        lemma_count_in_flight_update(old_slots, i as int, pool.slots@[i as int]);
        assert forall|j: int|
            0 <= j < pool.slots@.len() && spec_slot_in_flight(
                #[trigger] pool.slots@[j],
            ) implies spec_slot_wf_inflight(pool.slots@[j]) by {
            if j != i {
                assert(pool.slots@[j] == old(pool).slots@[j]);
            }
        }
    }
}

/// Per-origin duplicate rejection.
///
/// Sequence numbers from one origin are assigned in increasing order and
/// the link never reorders, so everything an origin has already got through
/// with is exactly the numbers up to the highest one seen; a retransmitted
/// duplicate repeats a number at or below it.
pub struct Receiver {
    pub last_left: Option<u32>,
    pub last_right: Option<u32>,
}

pub open spec fn spec_last_seen(r: Receiver, origin: KeyboardSide) -> Option<u32> {
    match origin {
        KeyboardSide::Left => r.last_left,
        KeyboardSide::Right => r.last_right,
    }
}

/// Whether `(origin, seq)` has already been observed.
pub open spec fn spec_observed(r: Receiver, origin: KeyboardSide, seq: u32) -> bool {
    match spec_last_seen(r, origin) {
        Some(l) => seq <= l,
        None => false,
    }
}

/// The receiver after observing a fresh `(origin, seq)`.
pub open spec fn spec_note(r: Receiver, origin: KeyboardSide, seq: u32) -> Receiver {
    match origin {
        KeyboardSide::Left => Receiver { last_left: Some(seq), last_right: r.last_right },
        KeyboardSide::Right => Receiver { last_left: r.last_left, last_right: Some(seq) },
    }
}

/// One dedup decision: the receiver afterwards, and whether the envelope is
/// fresh and may go to the distributor.
pub open spec fn spec_accept(r: Receiver, origin: KeyboardSide, seq: u32) -> (Receiver, bool) {
    if spec_observed(r, origin, seq) {
        (r, false)
    } else {
        (spec_note(r, origin, seq), true)
    }
}

/// A receiver that observes the same `(origin, seq)` pair again never
/// forwards it again: whatever the first observation did, the second is
/// rejected, so each pair is delivered at most once.
pub proof fn lemma_same_pair_delivered_at_most_once(r: Receiver, origin: KeyboardSide, seq: u32)
    ensures
        spec_accept(spec_accept(r, origin, seq).0, origin, seq).1 == false,
{
}

impl Receiver {
    pub fn new() -> (r: Receiver)
        ensures
            r.last_left is None,
            r.last_right is None,
    {
        Receiver { last_left: None, last_right: None }
    }

    /// Decide one incoming `(origin, seq)`: true exactly when it is fresh,
    /// in which case it is recorded as observed.
    pub fn accept(&mut self, origin: KeyboardSide, seq: u32) -> (fresh: bool)
        ensures
            fresh == !spec_observed(*old(self), origin, seq),
            (*final(self), fresh) == spec_accept(*old(self), origin, seq),
    {
        let last = match origin {
            KeyboardSide::Left => &self.last_left,
            KeyboardSide::Right => &self.last_right,
        };
        let dup = match last {
            Some(l) => seq <= *l,
            None => false,
        };
        if dup {
            false
        } else {
            match origin {
                KeyboardSide::Left => {
                    self.last_left = Some(seq);
                },
                KeyboardSide::Right => {
                    self.last_right = Some(seq);
                },
            }
            true
        }
    }
}

/// What one polling step of the inbound scanner produced.
pub enum RxStep {
    /// A verified, fresh data frame: its envelope goes to the distributor,
    /// and an acknowledgement goes back when the class expects one.
    Delivered { env: Envelope, send_ack: bool },
    /// A verified data frame already observed: discarded without reaching
    /// the distributor, but acknowledged again when the class expects one,
    /// since the peer may have retransmitted exactly because the first
    /// acknowledgement was lost.
    Duplicate { origin: KeyboardSide, seq: u32, class: ReliabilityClass, send_ack: bool },
    /// The peer acknowledged `(origin, seq)`: resolve that slot.
    AckReceived { origin: KeyboardSide, seq: u32 },
    /// Garbage or a corrupt candidate — above all a failing checksum:
    /// silently discarded, no acknowledgement; the sender's timeout governs
    /// recovery. Scanning resumes past it.
    Skipped,
    /// No complete candidate yet; keep the bytes and wait for more.
    NeedMore,
}

/// One step of the inbound path over the receive buffer, from position
/// `pos`: resynchronize to a start marker, verify the candidate frame
/// there, deduplicate, and say what to do. Returns the step and the
/// position where scanning continues.
///
/// Nothing is ever handed to the distributor except by `Delivered`, and
/// `Delivered` happens only for a byte range that parses as a well-formed
/// data frame — checksum verified — whose `(origin, seq)` was never
/// observed before.
pub fn poll_inbound(recv: &mut Receiver, buf: &Vec<u8>, pos: usize) -> (r: (RxStep, usize))
    requires
        pos <= buf@.len(),
    ensures
        pos <= r.1 <= buf@.len(),
        match r.0 {
            RxStep::Delivered { env, send_ack } => {
                &&& send_ack == spec_is_acknowledged(env.class)
                &&& !spec_observed(*old(recv), env.origin, env.seq)
                &&& *final(recv) == spec_note(*old(recv), env.origin, env.seq)
                &&& r.1 >= FRAME_OVERHEAD + env.data@.len()
                &&& spec_parse(
                    buf@.subrange(r.1 - FRAME_OVERHEAD - env.data@.len(), r.1 as int),
                ) == Some(
                    FrameView::Data {
                        tag: env.tag,
                        data: env.data@,
                        class: env.class,
                        seq: env.seq,
                        origin: env.origin,
                    },
                )
            },
            RxStep::Duplicate { origin, seq, class, send_ack } => {
                &&& send_ack == spec_is_acknowledged(class)
                &&& spec_observed(*old(recv), origin, seq)
                &&& *final(recv) == *old(recv)
            },
            RxStep::AckReceived { origin, seq } => {
                &&& *final(recv) == *old(recv)
                &&& r.1 >= FRAME_OVERHEAD
                &&& spec_parse(buf@.subrange(r.1 - FRAME_OVERHEAD, r.1 as int)) == Some(
                    FrameView::Ack { origin, seq },
                )
            },
            RxStep::Skipped => {
                &&& *final(recv) == *old(recv)
                &&& pos < r.1 <= buf@.len()
                &&& buf@[r.1 - 1] == START_MARKER
                &&& r.1 - 1 + FRAME_OVERHEAD + buf@[r.1 - 1 + 8] <= buf@.len()
                &&& spec_parse(
                    buf@.subrange(r.1 - 1, r.1 - 1 + FRAME_OVERHEAD + buf@[r.1 - 1 + 8]),
                ) is None
            },
            RxStep::NeedMore => {
                &&& *final(recv) == *old(recv)
                &&& (r.1 == buf@.len() && (forall|j: int|
                    pos <= j < buf@.len() ==> buf@[j] != START_MARKER)) || (pos <= r.1
                    < buf@.len() && buf@[r.1 as int] == START_MARKER && (buf@.len() < r.1
                    + FRAME_OVERHEAD || buf@.len() < r.1 + FRAME_OVERHEAD + buf@[r.1 + 8]))
            },
        },
{
    let blen = buf.len();
    let m = match find_marker(buf, pos) {
        Some(m) => m,
        None => {
            return (RxStep::NeedMore, blen);
        },
    };
    assert(m < blen);
    match parse_frame_at(buf, m) {
        ParseOutcome::Incomplete => (RxStep::NeedMore, m),
        ParseOutcome::Corrupt => (RxStep::Skipped, m + 1),
        ParseOutcome::Parsed { frame, next } => {
            match frame {
                Frame::Ack { origin, seq } => {
                    proof {
                        assert(spec_frame_data(FrameView::Ack { origin, seq }).len() == 0);
                    }
                    (RxStep::AckReceived { origin, seq }, next)
                },
                Frame::Data { env } => {
                    let send_ack = is_acknowledged(env.class);
                    let fresh = recv.accept(env.origin, env.seq);
                    if fresh {
                        (RxStep::Delivered { env, send_ack }, next)
                    } else {
                        (
                            RxStep::Duplicate {
                                origin: env.origin,
                                seq: env.seq,
                                class: env.class,
                                send_ack,
                            },
                            next,
                        )
                    }
                },
            }
        },
    }
}

/// The bytes an in-flight slot puts on the wire, for the first transmission
/// and for every retransmission alike.
///
/// The result is a function of the envelope alone, and the timer path never
/// touches the envelope: every retransmission of a slot is the identical
/// frame, same sequence number included. `None` exactly when the slot has
/// nothing in flight.
pub fn wire_bytes_for_slot(slot: &Slot) -> (r: Option<Vec<u8>>)
    requires
        match slot.env {
            Some(env) => env.data@.len() <= MAX_PAYLOAD,
            None => true,
        },
    ensures
        (r is Some) <==> (spec_slot_in_flight(*slot) && slot.env is Some),
        match (r, slot.env) {
            (Some(bytes), Some(env)) => bytes@ == spec_frame_bytes(
                FrameView::Data {
                    tag: env.tag,
                    data: env.data@,
                    class: env.class,
                    seq: env.seq,
                    origin: env.origin,
                },
            ),
            _ => true,
        },
{
    let in_flight = match slot.state {
        SlotState::Sent => true,
        SlotState::AwaitingAck => true,
        _ => false,
    };
    if !in_flight {
        return None;
    }
    match &slot.env {
        Some(env) => Some(encode_frame(&Frame::Data { env: env.duplicate() })),
        None => None,
    }
}

/// The acknowledgement frame for a received envelope: it answers with the
/// envelope's own origin and sequence number, so the sender can resolve the
/// matching slot.
pub fn ack_for(env: &Envelope) -> (r: Frame)
    ensures
        r == (Frame::Ack { origin: env.origin, seq: env.seq }),
{
    Frame::Ack { origin: env.origin, seq: env.seq }
}

} // verus!
