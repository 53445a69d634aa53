//! The distributor: fan-out of decoded inbound envelopes to per-subsystem
//! channels, and classification of host commands on their way into the pool.
//!
//! Routing goes by the envelope's wire tag. Envelopes sharing a tag reach
//! their channel in arrival order; nothing is promised across different
//! tags. An envelope whose tag no registered channel claims is dropped and
//! counted, never a hard failure.

use vstd::prelude::*;
use crate::frame::{spec_parse, FrameView, FRAME_OVERHEAD};
use crate::messages::{
    Envelope,
    ReliabilityClass,
    SequenceSource,
    spec_deadline_ms,
    spec_is_acknowledged,
    spec_retry_budget,
    wrap,
};
use crate::pool::{AcquireOutcome, TransmissionPool};
use crate::side::KeyboardSide;
use crate::transport::{poll_inbound, spec_note, spec_observed, Receiver, RxStep};

verus! {

/// The subsystem channels the distributor serves.
#[derive(Clone, Copy, PartialEq, Eq, Structural, Debug)]
pub enum ChannelTag {
    Keys,
    Display,
    Rgb,
    Trackpad,
    UsbBridge,
}

/// Wire byte of each channel tag.
pub open spec fn spec_tag_byte(t: ChannelTag) -> u8 {
    match t {
        ChannelTag::Keys => 0u8,
        ChannelTag::Display => 1u8,
        ChannelTag::Rgb => 2u8,
        ChannelTag::Trackpad => 3u8,
        ChannelTag::UsbBridge => 4u8,
    }
}

/// The channel a wire tag routes to; `None` is an unroutable tag.
pub open spec fn spec_route(b: u8) -> Option<ChannelTag> {
    if b == 0 {
        Some(ChannelTag::Keys)
    } else if b == 1 {
        Some(ChannelTag::Display)
    } else if b == 2 {
        Some(ChannelTag::Rgb)
    } else if b == 3 {
        Some(ChannelTag::Trackpad)
    } else if b == 4 {
        Some(ChannelTag::UsbBridge)
    } else {
        None
    }
}

pub fn tag_byte(t: ChannelTag) -> (r: u8)
    ensures
        r == spec_tag_byte(t),
        spec_route(r) == Some(t),
{
    match t {
        ChannelTag::Keys => 0,
        ChannelTag::Display => 1,
        ChannelTag::Rgb => 2,
        ChannelTag::Trackpad => 3,
        ChannelTag::UsbBridge => 4,
    }
}

pub fn route(b: u8) -> (r: Option<ChannelTag>)
    ensures
        r == spec_route(b),
{
    if b == 0 {
        Some(ChannelTag::Keys)
    } else if b == 1 {
        Some(ChannelTag::Display)
    } else if b == 2 {
        Some(ChannelTag::Rgb)
    } else if b == 3 {
        Some(ChannelTag::Trackpad)
    } else if b == 4 {
        Some(ChannelTag::UsbBridge)
    } else {
        None
    }
}

/// Fan-out point between the transport and the subsystems. Each field is
/// one subsystem's inbound channel, delivered in arrival order.
pub struct Distributor {
    pub keys: Vec<Envelope>,
    pub display: Vec<Envelope>,
    pub rgb: Vec<Envelope>,
    pub trackpad: Vec<Envelope>,
    pub usb_bridge: Vec<Envelope>,
    /// Envelopes dropped for want of a channel; reported, never fatal.
    pub unroutable: u64,
}

/// One channel's content.
pub open spec fn spec_channel(d: Distributor, t: ChannelTag) -> Seq<Envelope> {
    match t {
        ChannelTag::Keys => d.keys@,
        ChannelTag::Display => d.display@,
        ChannelTag::Rgb => d.rgb@,
        ChannelTag::Trackpad => d.trackpad@,
        ChannelTag::UsbBridge => d.usb_bridge@,
    }
}

pub enum DispatchResult {
    Routed { tag: ChannelTag },
    /// Unknown tag: the envelope was dropped and the event counted.
    Unroutable,
}

impl Distributor {
    pub fn new() -> (r: Distributor)
        ensures
            forall|t: ChannelTag| (#[trigger] spec_channel(r, t)).len() == 0,
            r.unroutable == 0,
    {
        Distributor {
            keys: Vec::new(),
            display: Vec::new(),
            rgb: Vec::new(),
            trackpad: Vec::new(),
            usb_bridge: Vec::new(),
            unroutable: 0,
        }
    }

    /// Demultiplex one decoded envelope to the channel its tag names.
    ///
    /// A routed envelope is appended behind everything its channel already
    /// holds — per-tag FIFO — and no other channel moves. An unroutable tag
    /// leaves every channel untouched and bumps the drop count.
    pub fn dispatch(&mut self, env: Envelope) -> (r: DispatchResult)
        requires
            old(self).unroutable < u64::MAX,
        ensures
            match r {
                DispatchResult::Routed { tag } => {
                    &&& spec_route(env.tag) == Some(tag)
                    &&& spec_channel(*final(self), tag) == spec_channel(*old(self), tag).push(env)
                    &&& forall|t: ChannelTag|
                        t != tag ==> spec_channel(*final(self), t) == spec_channel(*old(self), t)
                    &&& final(self).unroutable == old(self).unroutable
                },
                DispatchResult::Unroutable => {
                    &&& spec_route(env.tag) is None
                    &&& forall|t: ChannelTag|
                        spec_channel(*final(self), t) == spec_channel(*old(self), t)
                    &&& final(self).unroutable == old(self).unroutable + 1
                },
            },
    {
        match route(env.tag) {
            Some(ChannelTag::Keys) => {
                self.keys.push(env);
                DispatchResult::Routed { tag: ChannelTag::Keys }
            },
            Some(ChannelTag::Display) => {
                self.display.push(env);
                DispatchResult::Routed { tag: ChannelTag::Display }
            },
            Some(ChannelTag::Rgb) => {
                self.rgb.push(env);
                DispatchResult::Routed { tag: ChannelTag::Rgb }
            },
            Some(ChannelTag::Trackpad) => {
                self.trackpad.push(env);
                DispatchResult::Routed { tag: ChannelTag::Trackpad }
            },
            Some(ChannelTag::UsbBridge) => {
                self.usb_bridge.push(env);
                DispatchResult::Routed { tag: ChannelTag::UsbBridge }
            },
            None => {
                self.unroutable = self.unroutable + 1;
                DispatchResult::Unroutable
            },
        }
    }
}

/// The envelopes of `s` that route to channel `t`, in their order in `s`.
pub open spec fn spec_routed_to(s: Seq<Envelope>, t: ChannelTag) -> Seq<Envelope> {
    s.filter(|e: Envelope| spec_route(e.tag) == Some(t))
}

/// The envelopes of `s` no channel claims, in their order in `s`.
pub open spec fn spec_unroutable_of(s: Seq<Envelope>) -> Seq<Envelope> {
    s.filter(|e: Envelope| spec_route(e.tag) is None)
}

/// One step of a filter along a sequence.
proof fn lemma_filter_step(s: Seq<Envelope>, pred: spec_fn(Envelope) -> bool, i: int)
    requires
        0 <= i < s.len(),
    ensures
        s.take(i + 1).filter(pred) == if pred(s[i]) {
            s.take(i).filter(pred).push(s[i])
        } else {
            s.take(i).filter(pred)
        },
    decreases s.len(),
{
    reveal(Seq::filter);
    let t = s.take(i + 1);
    assert(t.drop_last() =~= s.take(i));
    assert(t.last() == s[i]);
    if pred(s[i]) {
        assert(t.filter(pred) =~= s.take(i).filter(pred).push(s[i]));
    }
}

proof fn lemma_filter_len_le(s: Seq<Envelope>, pred: spec_fn(Envelope) -> bool)
    ensures
        s.filter(pred).len() <= s.len(),
    decreases s.len(),
{
    reveal(Seq::filter);
    if s.len() > 0 {
        lemma_filter_len_le(s.drop_last(), pred);
    }
}

impl Distributor {
    /// Demultiplex a batch of decoded envelopes, in arrival order.
    ///
    /// This is the distributor's ordering guarantee in full: afterwards,
    /// every channel holds what it held before, followed by exactly the
    /// batch's envelopes of its own tag, in their arrival order — FIFO per
    /// tag, nothing promised across tags — and the drop count has grown by
    /// the batch's unroutable envelopes, which reach no channel.
    pub fn dispatch_all(&mut self, envs: Vec<Envelope>)
        requires
            old(self).unroutable + envs@.len() <= u64::MAX,
        ensures
            forall|t: ChannelTag|
                #[trigger] spec_channel(*final(self), t) == spec_channel(*old(self), t)
                    + spec_routed_to(envs@, t),
            final(self).unroutable == old(self).unroutable + spec_unroutable_of(envs@).len(),
    {
        let ghost orig = envs@;
        let mut envs = envs;
        let ghost k: int = 0;
        proof {
            assert(forall|t: ChannelTag|
                #[trigger] spec_routed_to(orig.take(0), t) =~= Seq::<Envelope>::empty()) by {
                reveal(Seq::filter);
            }
            assert(spec_unroutable_of(orig.take(0)) =~= Seq::<Envelope>::empty()) by {
                reveal(Seq::filter);
            }
            assert(forall|t: ChannelTag|
                #[trigger] spec_channel(*self, t) == spec_channel(*old(self), t) + spec_routed_to(
                    orig.take(0),
                    t,
                ));
        }
        while envs.len() > 0
            invariant
                0 <= k <= orig.len(),
                envs@ == orig.skip(k),
                old(self).unroutable + orig.len() <= u64::MAX,
                forall|t: ChannelTag|
                    #[trigger] spec_channel(*self, t) == spec_channel(*old(self), t)
                        + spec_routed_to(orig.take(k), t),
                self.unroutable == old(self).unroutable + spec_unroutable_of(orig.take(k)).len(),
            decreases envs@.len(),
        {
            proof {
                assert(orig.skip(k).len() > 0);
                assert(k < orig.len());
                assert(envs@[0] == orig[k]);
                lemma_filter_len_le(orig.take(k), |e: Envelope| spec_route(e.tag) is None);
            }
            let e = envs.remove(0);
            let ghost pre = *self;
            let _ = self.dispatch(e);
            proof {
                lemma_filter_step(orig, |e: Envelope| spec_route(e.tag) is None, k);
                assert forall|t: ChannelTag|
                    #[trigger] spec_channel(*self, t) == spec_channel(*old(self), t)
                        + spec_routed_to(orig.take(k + 1), t) by {
                    lemma_filter_step(orig, |e: Envelope| spec_route(e.tag) == Some(t), k);
                    if spec_route(orig[k].tag) == Some(t) {
                        assert(spec_channel(*self, t) == spec_channel(pre, t).push(orig[k]));
                        assert(spec_channel(pre, t) + spec_routed_to(orig.take(k + 1), t).drop_last()
                            == spec_channel(pre, t) + spec_routed_to(orig.take(k), t));
                        assert(spec_channel(*old(self), t) + spec_routed_to(orig.take(k + 1), t)
                            =~= (spec_channel(*old(self), t) + spec_routed_to(orig.take(k), t)).push(
                            orig[k],
                        ));
                    } else {
                        assert(spec_channel(*self, t) == spec_channel(pre, t));
                    }
                }
                assert(envs@ =~= orig.skip(k + 1));
                k = k + 1;
            }
        }
        proof {
            assert(orig.take(orig.len() as int) =~= orig);
        }
    }
}

/// What one inbound polling step made of the wire bytes, after routing.
pub enum InboundOutcome {
    /// A verified, fresh data frame reached its subsystem channel; an
    /// acknowledgement is owed when `send_ack`.
    Routed { tag: ChannelTag, origin: KeyboardSide, seq: u32, send_ack: bool },
    /// A verified, fresh data frame with a tag no channel claims: dropped
    /// and counted, still acknowledged when its class expects it.
    UnroutableDropped { origin: KeyboardSide, seq: u32, send_ack: bool },
    /// Already observed: not forwarded, acknowledged again when `send_ack`.
    Duplicate { origin: KeyboardSide, seq: u32, send_ack: bool },
    /// The peer's acknowledgement of `(origin, seq)`.
    AckReceived { origin: KeyboardSide, seq: u32 },
    /// Garbage or a failing checksum: silently discarded, no ack.
    Skipped,
    /// No complete candidate yet.
    NeedMore,
}

/// One whole inbound step: scan, verify, deduplicate, route. Returns the
/// outcome and the position where scanning continues.
///
/// The contract carries the transport guarantees to the distributor's edge:
/// no channel ever moves except on `Routed`, and `Routed` happens only for
/// a byte range that parses as a well-formed data frame — checksum verified
/// — whose `(origin, seq)` was never observed before. A frame that fails
/// verification, and a duplicate, leave every channel exactly as it was.
pub fn receive_into(
    recv: &mut Receiver,
    dist: &mut Distributor,
    buf: &Vec<u8>,
    pos: usize,
) -> (r: (InboundOutcome, usize))
    requires
        pos <= buf@.len(),
        old(dist).unroutable < u64::MAX,
    ensures
        pos <= r.1 <= buf@.len(),
        match r.0 {
            InboundOutcome::Routed { tag, origin, seq, send_ack } => {
                &&& !spec_observed(*old(recv), origin, seq)
                &&& *final(recv) == spec_note(*old(recv), origin, seq)
                &&& final(dist).unroutable == old(dist).unroutable
                &&& spec_channel(*final(dist), tag).len() == spec_channel(*old(dist), tag).len()
                    + 1
                &&& spec_channel(*final(dist), tag) == spec_channel(*old(dist), tag).push(
                    spec_channel(*final(dist), tag).last(),
                )
                &&& forall|t: ChannelTag|
                    t != tag ==> spec_channel(*final(dist), t) == spec_channel(*old(dist), t)
                &&& {
                    let env = spec_channel(*final(dist), tag).last();
                    &&& env.origin == origin
                    &&& env.seq == seq
                    &&& send_ack == spec_is_acknowledged(env.class)
                    &&& spec_route(env.tag) == Some(tag)
                    &&& r.1 >= FRAME_OVERHEAD + env.data@.len()
                    &&& spec_parse(
                        buf@.subrange(r.1 - FRAME_OVERHEAD - env.data@.len(), r.1 as int),
                    ) == Some(
                        FrameView::Data {
                            tag: env.tag,
                            data: env.data@,
                            class: env.class,
                            seq: env.seq,
                            origin: env.origin,
                        },
                    )
                }
            },
            InboundOutcome::UnroutableDropped { origin, seq, send_ack } => {
                &&& !spec_observed(*old(recv), origin, seq)
                &&& *final(recv) == spec_note(*old(recv), origin, seq)
                &&& forall|t: ChannelTag|
                    spec_channel(*final(dist), t) == spec_channel(*old(dist), t)
                &&& final(dist).unroutable == old(dist).unroutable + 1
            },
            InboundOutcome::Duplicate { origin, seq, send_ack } => {
                &&& spec_observed(*old(recv), origin, seq)
                &&& *final(recv) == *old(recv)
                &&& *final(dist) == *old(dist)
            },
            InboundOutcome::AckReceived { origin, seq } => {
                &&& *final(recv) == *old(recv)
                &&& *final(dist) == *old(dist)
                &&& r.1 >= FRAME_OVERHEAD
                &&& spec_parse(buf@.subrange(r.1 - FRAME_OVERHEAD, r.1 as int)) == Some(
                    FrameView::Ack { origin, seq },
                )
            },
            InboundOutcome::Skipped => {
                &&& *final(recv) == *old(recv)
                &&& *final(dist) == *old(dist)
                &&& pos < r.1
            },
            InboundOutcome::NeedMore => {
                &&& *final(recv) == *old(recv)
                &&& *final(dist) == *old(dist)
            },
        },
{
    let (step, next) = poll_inbound(recv, buf, pos);
    match step {
        RxStep::Delivered { env, send_ack } => {
            let origin = env.origin;
            let seq = env.seq;
            match dist.dispatch(env) {
                DispatchResult::Routed { tag } => (
                    InboundOutcome::Routed { tag, origin, seq, send_ack },
                    next,
                ),
                DispatchResult::Unroutable => (
                    InboundOutcome::UnroutableDropped { origin, seq, send_ack },
                    next,
                ),
            }
        },
        RxStep::Duplicate { origin, seq, send_ack, .. } => (
            InboundOutcome::Duplicate { origin, seq, send_ack },
            next,
        ),
        RxStep::AckReceived { origin, seq } => (
            InboundOutcome::AckReceived { origin, seq },
            next,
        ),
        RxStep::Skipped => (InboundOutcome::Skipped, next),
        RxStep::NeedMore => (InboundOutcome::NeedMore, next),
    }
}

/// A command arriving over the USB link, to be classified and forwarded to
/// the other half.
#[derive(Clone, Copy, PartialEq, Eq, Structural, Debug)]
pub enum HostCommand {
    /// Firmware-update trigger: must arrive, whatever it costs.
    FirmwareUpdate,
    /// Routine liveness ping: losing one is cheaper than stalling on it.
    StatusPing,
}

/// Delivery contract of each host command: an update trigger must arrive or
/// fail loudly; a routine ping is fire and forget.
pub open spec fn spec_classify(cmd: HostCommand) -> ReliabilityClass {
    match cmd {
        HostCommand::FirmwareUpdate => ReliabilityClass::Reliable,
        HostCommand::StatusPing => ReliabilityClass::Unreliable,
    }
}

pub fn classify_host_command(cmd: &HostCommand) -> (r: ReliabilityClass)
    ensures
        r == spec_classify(*cmd),
{
    match cmd {
        HostCommand::FirmwareUpdate => ReliabilityClass::Reliable,
        HostCommand::StatusPing => ReliabilityClass::Unreliable,
    }
}

/// Payload byte of each host command.
pub open spec fn spec_command_code(cmd: HostCommand) -> u8 {
    match cmd {
        HostCommand::FirmwareUpdate => 1u8,
        HostCommand::StatusPing => 0u8,
    }
}

pub fn command_code(cmd: &HostCommand) -> (r: u8)
    ensures
        r == spec_command_code(*cmd),
{
    match cmd {
        HostCommand::FirmwareUpdate => 1,
        HostCommand::StatusPing => 0,
    }
}

/// One turn of the USB fan-in loop: classify the command that arrived over
/// the USB link, wrap it for the bridge channel under the next sequence
/// number, and submit it to the pool. The caller performs the transmissions
/// and suspensions the outcome asks for.
///
/// An update trigger is wrapped `Reliable` and so may be told to wait; a
/// status ping is wrapped `Unreliable`, comes straight back for its single
/// transmission, and can never block this loop.
pub fn usb_distributor_step(
    pool: &mut TransmissionPool,
    seqs: &mut SequenceSource,
    cmd: &HostCommand,
    origin: KeyboardSide,
    now: u64,
) -> (r: AcquireOutcome)
    requires
        old(seqs).next < u32::MAX,
        old(pool).next_ticket < u64::MAX,
        now + (spec_retry_budget(spec_classify(*cmd)) + 2) * (match spec_deadline_ms(
            spec_classify(*cmd),
        ) {
            Some(d) => d as int,
            None => 0int,
        }) <= u64::MAX,
    ensures
        final(seqs).next == old(seqs).next + 1,
        match r {
            AcquireOutcome::Bypass { env } => {
                &&& *cmd is StatusPing
                &&& *final(pool) == *old(pool)
                &&& env.class is Unreliable
                &&& env.seq == old(seqs).next
                &&& env.origin == origin
                &&& spec_route(env.tag) == Some(ChannelTag::UsbBridge)
                &&& env.data@ == seq![spec_command_code(*cmd)]
            },
            AcquireOutcome::Granted { slot } => {
                &&& *cmd is FirmwareUpdate
                &&& slot < old(pool).slots@.len()
                &&& final(pool).spec_in_flight() == old(pool).spec_in_flight() + 1
                &&& final(pool).slots@[slot as int].state is Sent
                &&& final(pool).slots@[slot as int].env matches Some(env) && env.class is Reliable
                    && env.seq == old(seqs).next && env.origin == origin && spec_route(env.tag)
                    == Some(ChannelTag::UsbBridge)
            },
            AcquireOutcome::MustWait { ticket } => {
                &&& *cmd is FirmwareUpdate
                &&& ticket == old(pool).next_ticket
                &&& final(pool).waiters@ == old(pool).waiters@.push(ticket)
                &&& final(pool).slots == old(pool).slots
            },
        },
{
    let class = classify_host_command(cmd);
    let mut data: Vec<u8> = Vec::new();
    data.push(command_code(cmd));
    let seq = seqs.assign();
    let tag = tag_byte(ChannelTag::UsbBridge);
    let env = wrap(tag, data, class, seq, origin);
    pool.acquire(env, now)
}

} // verus!
