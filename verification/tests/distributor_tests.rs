use splitlink::distributor::{
    classify_host_command, receive_into, route, tag_byte, usb_distributor_step, ChannelTag,
    DispatchResult, Distributor, HostCommand, InboundOutcome,
};
use splitlink::frame::{encode_frame, Frame};
use splitlink::transport::Receiver;
use splitlink::messages::{wrap, ReliabilityClass, SequenceSource};
use splitlink::pool::{AcquireOutcome, TransmissionPool};
use splitlink::side::KeyboardSide;

fn env_with_tag(tag: u8, seq: u32) -> splitlink::messages::Envelope {
    wrap(tag, vec![seq as u8], ReliabilityClass::LowLatency, seq, KeyboardSide::Left)
}

#[test]
fn known_tags_route_to_their_channels() {
    assert_eq!(route(0), Some(ChannelTag::Keys));
    assert_eq!(route(1), Some(ChannelTag::Display));
    assert_eq!(route(2), Some(ChannelTag::Rgb));
    assert_eq!(route(3), Some(ChannelTag::Trackpad));
    assert_eq!(route(4), Some(ChannelTag::UsbBridge));
    assert_eq!(route(5), None);
    assert_eq!(route(255), None);
    for t in [
        ChannelTag::Keys,
        ChannelTag::Display,
        ChannelTag::Rgb,
        ChannelTag::Trackpad,
        ChannelTag::UsbBridge,
    ] {
        assert_eq!(route(tag_byte(t)), Some(t));
    }
}

#[test]
fn dispatch_keeps_per_tag_fifo_order() {
    let mut d = Distributor::new();
    let r1 = d.dispatch(env_with_tag(0, 1));
    let r2 = d.dispatch(env_with_tag(3, 2));
    let r3 = d.dispatch(env_with_tag(0, 3));
    assert!(matches!(r1, DispatchResult::Routed { tag: ChannelTag::Keys }));
    assert!(matches!(r2, DispatchResult::Routed { tag: ChannelTag::Trackpad }));
    assert!(matches!(r3, DispatchResult::Routed { tag: ChannelTag::Keys }));

    // Same tag: submission order preserved.
    assert_eq!(d.keys.len(), 2);
    assert_eq!(d.keys[0].seq, 1);
    assert_eq!(d.keys[1].seq, 3);
    assert_eq!(d.trackpad.len(), 1);
    assert_eq!(d.display.len(), 0);
}

#[test]
fn unroutable_tag_is_dropped_and_counted() {
    let mut d = Distributor::new();
    let r = d.dispatch(env_with_tag(9, 0));
    assert!(matches!(r, DispatchResult::Unroutable));
    assert_eq!(d.unroutable, 1);
    assert_eq!(d.keys.len(), 0);
    assert_eq!(d.display.len(), 0);
    assert_eq!(d.rgb.len(), 0);
    assert_eq!(d.trackpad.len(), 0);
    assert_eq!(d.usb_bridge.len(), 0);
}

#[test]
fn update_trigger_is_reliable_and_ping_is_unreliable() {
    assert_eq!(
        classify_host_command(&HostCommand::FirmwareUpdate),
        ReliabilityClass::Reliable
    );
    assert_eq!(
        classify_host_command(&HostCommand::StatusPing),
        ReliabilityClass::Unreliable
    );
}

#[test]
fn usb_step_sends_ping_without_blocking() {
    let mut pool = TransmissionPool::new(1);
    let mut seqs = SequenceSource::new();
    // Saturate the pool first.
    let _ = usb_distributor_step(
        &mut pool,
        &mut seqs,
        &HostCommand::FirmwareUpdate,
        KeyboardSide::Right,
        0,
    );
    // A ping still goes straight through.
    match usb_distributor_step(&mut pool, &mut seqs, &HostCommand::StatusPing, KeyboardSide::Right, 0)
    {
        AcquireOutcome::Bypass { env } => {
            assert_eq!(env.class, ReliabilityClass::Unreliable);
            assert_eq!(env.tag, 4);
            assert_eq!(env.data, vec![0]);
            assert_eq!(env.seq, 1);
            assert_eq!(env.origin, KeyboardSide::Right);
        }
        _ => panic!("a status ping must never block the distributor loop"),
    }
}

#[test]
fn usb_step_submits_update_trigger_reliably() {
    let mut pool = TransmissionPool::new(1);
    let mut seqs = SequenceSource::new();
    match usb_distributor_step(
        &mut pool,
        &mut seqs,
        &HostCommand::FirmwareUpdate,
        KeyboardSide::Right,
        50,
    ) {
        AcquireOutcome::Granted { slot } => {
            let s = &pool.slots[slot];
            let env = s.env.as_ref().expect("granted slot holds its envelope");
            assert_eq!(env.class, ReliabilityClass::Reliable);
            assert_eq!(env.tag, 4);
            assert_eq!(env.data, vec![1]);
            assert_eq!(s.deadline, 70);
            assert_eq!(s.retries_left, 3);
        }
        _ => panic!("an update trigger must take a slot when one is free"),
    }
}

#[test]
fn receive_into_routes_a_verified_fresh_frame_once() {
    let env = wrap(0, vec![42], ReliabilityClass::Reliable, 11, KeyboardSide::Right);
    let bytes = encode_frame(&Frame::Data { env });
    let mut recv = Receiver::new();
    let mut dist = Distributor::new();

    let (outcome, next) = receive_into(&mut recv, &mut dist, &bytes, 0);
    match outcome {
        InboundOutcome::Routed { tag, origin, seq, send_ack } => {
            assert_eq!(tag, ChannelTag::Keys);
            assert_eq!(origin, KeyboardSide::Right);
            assert_eq!(seq, 11);
            assert!(send_ack);
        }
        _ => panic!("a clean fresh frame must be routed"),
    }
    assert_eq!(next, bytes.len());
    assert_eq!(dist.keys.len(), 1);
    assert_eq!(dist.keys[0].data, vec![42]);

    // The identical frame again: rejected before the distributor.
    let (outcome, _) = receive_into(&mut recv, &mut dist, &bytes, 0);
    assert!(matches!(outcome, InboundOutcome::Duplicate { .. }));
    assert_eq!(dist.keys.len(), 1);
}

#[test]
fn receive_into_never_forwards_a_failing_checksum() {
    let env = wrap(0, vec![42], ReliabilityClass::Reliable, 11, KeyboardSide::Right);
    let mut bytes = encode_frame(&Frame::Data { env });
    let k = bytes.len() - 2;
    bytes[k] ^= 0x08;

    let mut recv = Receiver::new();
    let mut dist = Distributor::new();
    let (outcome, _) = receive_into(&mut recv, &mut dist, &bytes, 0);
    assert!(matches!(outcome, InboundOutcome::Skipped));
    // Whatever the payload held, no channel saw it.
    assert_eq!(dist.keys.len(), 0);
    assert_eq!(dist.display.len(), 0);
    assert_eq!(dist.rgb.len(), 0);
    assert_eq!(dist.trackpad.len(), 0);
    assert_eq!(dist.usb_bridge.len(), 0);
}

#[test]
fn receive_into_counts_an_unroutable_tag() {
    let env = wrap(9, vec![1], ReliabilityClass::LowLatency, 0, KeyboardSide::Left);
    let bytes = encode_frame(&Frame::Data { env });
    let mut recv = Receiver::new();
    let mut dist = Distributor::new();
    let (outcome, _) = receive_into(&mut recv, &mut dist, &bytes, 0);
    match outcome {
        InboundOutcome::UnroutableDropped { send_ack, .. } => assert!(send_ack),
        _ => panic!("an unknown tag is dropped and reported"),
    }
    assert_eq!(dist.unroutable, 1);
    assert_eq!(dist.keys.len(), 0);
}

#[test]
fn batch_dispatch_is_fifo_per_tag() {
    let mut d = Distributor::new();
    let _ = d.dispatch(env_with_tag(0, 100));
    let batch = vec![
        env_with_tag(0, 1),
        env_with_tag(2, 2),
        env_with_tag(0, 3),
        env_with_tag(9, 4),
        env_with_tag(2, 5),
    ];
    d.dispatch_all(batch);

    // Each channel: what it held, then its own envelopes in arrival order.
    let keys: Vec<u32> = d.keys.iter().map(|e| e.seq).collect();
    assert_eq!(keys, vec![100, 1, 3]);
    let rgb: Vec<u32> = d.rgb.iter().map(|e| e.seq).collect();
    assert_eq!(rgb, vec![2, 5]);
    assert_eq!(d.unroutable, 1);
    assert_eq!(d.trackpad.len(), 0);
}
