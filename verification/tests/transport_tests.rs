use splitlink::frame::{encode_frame, find_marker, Frame, FRAME_OVERHEAD, START_MARKER};
use splitlink::messages::{wrap, ReliabilityClass};
use splitlink::pool::{AcquireOutcome, SlotState, TransmissionPool};
use splitlink::side::KeyboardSide;
use splitlink::pool::Outcome;
use splitlink::transport::{
    ack_received, deadline_expired, on_ack, on_deadline, poll_inbound, wire_bytes_for_slot,
    Receiver, RxStep, TimerAction,
};

fn sample_env() -> splitlink::messages::Envelope {
    wrap(0, vec![10, 20, 30], ReliabilityClass::Reliable, 5, KeyboardSide::Left)
}

#[test]
fn encode_then_decode_returns_the_same_envelope() {
    let env = sample_env();
    let bytes = encode_frame(&Frame::Data { env: env.duplicate() });
    assert_eq!(bytes.len(), FRAME_OVERHEAD + 3);
    assert_eq!(bytes[0], START_MARKER);

    let mut recv = Receiver::new();
    let (step, next) = poll_inbound(&mut recv, &bytes, 0);
    match step {
        RxStep::Delivered { env: got, send_ack } => {
            assert!(send_ack);
            assert_eq!(got, env);
        }
        _ => panic!("a clean frame must be delivered"),
    }
    assert_eq!(next, bytes.len());
}

#[test]
fn scanner_resynchronizes_past_garbage() {
    let env = sample_env();
    let mut bytes = vec![0x00, 0x17, 0x99];
    bytes.extend(encode_frame(&Frame::Data { env: env.duplicate() }));

    assert_eq!(find_marker(&bytes, 0), Some(3));
    let mut recv = Receiver::new();
    let (step, next) = poll_inbound(&mut recv, &bytes, 0);
    assert!(matches!(step, RxStep::Delivered { .. }));
    assert_eq!(next, bytes.len());
}

#[test]
fn corrupted_checksum_is_skipped_and_never_delivered() {
    let env = sample_env();
    let mut bytes = encode_frame(&Frame::Data { env });
    // Flip one payload bit: the stored checksum no longer verifies.
    let k = bytes.len() - 2;
    bytes[k] ^= 0x01;

    let mut recv = Receiver::new();
    let (step, next) = poll_inbound(&mut recv, &bytes, 0);
    assert!(matches!(step, RxStep::Skipped));
    // Scanning resumes just past the marker.
    assert_eq!(next, 1);
    // The receiver observed nothing.
    assert_eq!(recv.last_left, None);
    assert_eq!(recv.last_right, None);
}

#[test]
fn truncated_frame_waits_for_more_bytes() {
    let env = sample_env();
    let bytes = encode_frame(&Frame::Data { env });
    let cut = bytes[..bytes.len() - 4].to_vec();
    let mut recv = Receiver::new();
    let (step, next) = poll_inbound(&mut recv, &cut, 0);
    assert!(matches!(step, RxStep::NeedMore));
    assert_eq!(next, 0);
}

#[test]
fn same_origin_and_sequence_is_delivered_at_most_once() {
    let env = sample_env();
    let bytes = encode_frame(&Frame::Data { env });

    let mut recv = Receiver::new();
    let (first, _) = poll_inbound(&mut recv, &bytes, 0);
    assert!(matches!(first, RxStep::Delivered { .. }));

    // The identical retransmitted frame arrives again.
    let (second, _) = poll_inbound(&mut recv, &bytes, 0);
    match second {
        RxStep::Duplicate { origin, seq, send_ack, .. } => {
            assert_eq!(origin, KeyboardSide::Left);
            assert_eq!(seq, 5);
            // Acknowledged again: the peer may have lost the first ack.
            assert!(send_ack);
        }
        _ => panic!("a repeated (origin, seq) must not be delivered again"),
    }
}

#[test]
fn duplicate_unreliable_frame_gets_no_ack() {
    let env = wrap(2, vec![1], ReliabilityClass::Unreliable, 0, KeyboardSide::Right);
    let bytes = encode_frame(&Frame::Data { env });
    let mut recv = Receiver::new();
    let (first, _) = poll_inbound(&mut recv, &bytes, 0);
    match first {
        RxStep::Delivered { send_ack, .. } => assert!(!send_ack),
        _ => panic!("fresh frame must be delivered"),
    }
    let (second, _) = poll_inbound(&mut recv, &bytes, 0);
    match second {
        RxStep::Duplicate { send_ack, .. } => assert!(!send_ack),
        _ => panic!("repeat must be rejected"),
    }
}

#[test]
fn ack_frame_round_trips() {
    let bytes = encode_frame(&Frame::Ack { origin: KeyboardSide::Right, seq: 41 });
    assert_eq!(bytes.len(), FRAME_OVERHEAD);
    let mut recv = Receiver::new();
    let (step, next) = poll_inbound(&mut recv, &bytes, 0);
    match step {
        RxStep::AckReceived { origin, seq } => {
            assert_eq!(origin, KeyboardSide::Right);
            assert_eq!(seq, 41);
        }
        _ => panic!("an ack frame must surface as an ack"),
    }
    assert_eq!(next, bytes.len());
}

#[test]
fn reliable_slot_drops_within_deadline_times_budget_plus_one() {
    let mut pool = TransmissionPool::new(1);
    let env = sample_env();
    let armed_at = 1000;
    let slot_idx = match pool.acquire(env, armed_at) {
        AcquireOutcome::Granted { slot } => slot,
        _ => panic!("empty pool must grant"),
    };
    let slot = &mut pool.slots[slot_idx];
    assert_eq!(slot.deadline, 1020);

    // Three retransmissions, then the drop; never an ack.
    assert_eq!(deadline_expired(slot, 1020), TimerAction::Retransmit);
    assert_eq!(slot.retries_left, 2);
    assert_eq!(deadline_expired(slot, 1040), TimerAction::Retransmit);
    assert_eq!(deadline_expired(slot, 1060), TimerAction::Retransmit);
    assert_eq!(slot.retries_left, 0);
    // Budget spent on the last retransmission: only an ack or the final
    // deadline can resolve it now.
    assert_eq!(slot.state, SlotState::AwaitingAck);
    let drop_time = slot.deadline;
    assert_eq!(deadline_expired(slot, drop_time), TimerAction::Drop);
    assert_eq!(slot.state, SlotState::Dropped);
    // Terminal within deadline * (retry budget + 1) of the first transmission.
    assert_eq!(drop_time, armed_at + 20 * (3 + 1));
}

#[test]
fn ack_before_deadline_resolves_to_delivered() {
    let mut pool = TransmissionPool::new(1);
    let env = sample_env();
    let slot_idx = match pool.acquire(env, 500) {
        AcquireOutcome::Granted { slot } => slot,
        _ => panic!("empty pool must grant"),
    };
    let slot = &mut pool.slots[slot_idx];
    ack_received(slot, 510);
    assert_eq!(slot.state, SlotState::Delivered);
}

#[test]
fn low_latency_deadline_is_armed_from_its_class() {
    let mut pool = TransmissionPool::new(1);
    let env = wrap(1, vec![], ReliabilityClass::LowLatency, 0, KeyboardSide::Right);
    match pool.acquire(env, 100) {
        AcquireOutcome::Granted { slot } => {
            assert_eq!(pool.slots[slot].deadline, 102);
            assert_eq!(pool.slots[slot].retries_left, 1);
        }
        _ => panic!("empty pool must grant"),
    }
}

#[test]
fn largest_payload_round_trips() {
    let data: Vec<u8> = (0..=255u8).collect::<Vec<u8>>()[..255].to_vec();
    let env = wrap(1, data.clone(), ReliabilityClass::Unreliable, 123456789, KeyboardSide::Right);
    let bytes = encode_frame(&Frame::Data { env: env.duplicate() });
    assert_eq!(bytes.len(), FRAME_OVERHEAD + 255);

    let mut recv = Receiver::new();
    let (step, next) = poll_inbound(&mut recv, &bytes, 0);
    match step {
        RxStep::Delivered { env: got, .. } => {
            assert_eq!(got.data, data);
            assert_eq!(got.seq, 123456789);
        }
        _ => panic!("a maximal frame must round-trip"),
    }
    assert_eq!(next, bytes.len());
}

#[test]
fn two_frames_in_one_buffer_are_scanned_in_order() {
    let first = wrap(0, vec![1], ReliabilityClass::Reliable, 1, KeyboardSide::Left);
    let second = wrap(0, vec![2], ReliabilityClass::Reliable, 2, KeyboardSide::Left);
    let mut bytes = encode_frame(&Frame::Data { env: first });
    bytes.extend(encode_frame(&Frame::Data { env: second }));

    let mut recv = Receiver::new();
    let (step, next) = poll_inbound(&mut recv, &bytes, 0);
    match step {
        RxStep::Delivered { env, .. } => assert_eq!(env.seq, 1),
        _ => panic!("first frame must be delivered"),
    }
    let (step, next2) = poll_inbound(&mut recv, &bytes, next);
    match step {
        RxStep::Delivered { env, .. } => assert_eq!(env.seq, 2),
        _ => panic!("second frame must be delivered"),
    }
    assert_eq!(next2, bytes.len());
}

#[test]
fn retransmission_bytes_are_identical() {
    let mut pool = TransmissionPool::new(1);
    let slot_idx = match pool.acquire(sample_env(), 0) {
        AcquireOutcome::Granted { slot } => slot,
        _ => panic!("empty pool must grant"),
    };
    let first = wire_bytes_for_slot(&pool.slots[slot_idx]).expect("in flight");
    let slot = &mut pool.slots[slot_idx];
    assert_eq!(deadline_expired(slot, 20), TimerAction::Retransmit);
    let again = wire_bytes_for_slot(&pool.slots[slot_idx]).expect("still in flight");
    // Same frame, same sequence number, byte for byte.
    assert_eq!(first, again);

    // A freed slot has nothing to transmit.
    let _ = pool.release(slot_idx, Outcome::Dropped);
    assert!(wire_bytes_for_slot(&pool.slots[slot_idx]).is_none());
}

#[test]
fn pool_level_timer_and_ack_paths() {
    let mut pool = TransmissionPool::new(2);
    let slot = match pool.acquire(sample_env(), 1000) {
        AcquireOutcome::Granted { slot } => slot,
        _ => panic!("empty pool must grant"),
    };
    let deadline = pool.slots[slot].deadline;
    assert_eq!(on_deadline(&mut pool, slot, deadline), TimerAction::Retransmit);
    assert_eq!(pool.slots[slot].retries_left, 2);

    on_ack(&mut pool, slot, deadline + 5);
    assert_eq!(pool.slots[slot].state, SlotState::Delivered);
    let (outcome, _) = pool.release(slot, Outcome::Delivered);
    assert_eq!(outcome, Outcome::Delivered);
    assert!(matches!(pool.slots[slot].state, SlotState::Free));
}
