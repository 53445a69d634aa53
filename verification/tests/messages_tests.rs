use splitlink::frame::{checksum_range, encode_frame, Frame, START_MARKER};
use splitlink::keys::{custom_event_code, custom_event_of_code, CustomEvent};
use splitlink::messages::{
    deadline_ms, is_acknowledged, low_latency_msg, reliable_msg, retry_budget, unreliable_msg,
    wrap, ReliabilityClass, SequenceSource,
};
use splitlink::side::{role_from_detection, side_from_pin, KeyboardSide, Role, SideConfig};

#[test]
fn policy_constructors_carry_their_deadlines() {
    let l = low_latency_msg("l");
    assert_eq!(l.msg, "l");
    assert_eq!(l.timeout, Some(2));

    let r = reliable_msg(7u32);
    assert_eq!(r.msg, 7);
    assert_eq!(r.timeout, Some(20));

    let u = unreliable_msg([1u8, 2]);
    assert_eq!(u.msg, [1, 2]);
    assert_eq!(u.timeout, None);
}

#[test]
fn class_policy_table() {
    assert_eq!(deadline_ms(ReliabilityClass::Unreliable), None);
    assert_eq!(deadline_ms(ReliabilityClass::LowLatency), Some(2));
    assert_eq!(deadline_ms(ReliabilityClass::Reliable), Some(20));
    assert_eq!(retry_budget(ReliabilityClass::Unreliable), 0);
    assert_eq!(retry_budget(ReliabilityClass::LowLatency), 1);
    assert_eq!(retry_budget(ReliabilityClass::Reliable), 3);
    assert!(!is_acknowledged(ReliabilityClass::Unreliable));
    assert!(is_acknowledged(ReliabilityClass::LowLatency));
    assert!(is_acknowledged(ReliabilityClass::Reliable));
}

#[test]
fn wrap_is_pure_construction() {
    let env = wrap(3, vec![1, 2, 3], ReliabilityClass::LowLatency, 9, KeyboardSide::Right);
    assert_eq!(env.tag, 3);
    assert_eq!(env.data, vec![1, 2, 3]);
    assert_eq!(env.class, ReliabilityClass::LowLatency);
    assert_eq!(env.seq, 9);
    assert_eq!(env.origin, KeyboardSide::Right);
}

#[test]
fn sequence_source_counts_up_and_never_repeats() {
    let mut s = SequenceSource::new();
    let a = s.assign();
    let b = s.assign();
    let c = s.assign();
    assert_eq!((a, b, c), (0, 1, 2));
}

#[test]
fn duplicate_is_an_exact_copy() {
    let env = wrap(1, vec![5, 6], ReliabilityClass::Reliable, 3, KeyboardSide::Left);
    let copy = env.duplicate();
    assert_eq!(copy, env);
}

#[test]
fn side_and_role_follow_the_pins() {
    assert_eq!(side_from_pin(true), KeyboardSide::Right);
    assert_eq!(side_from_pin(false), KeyboardSide::Left);
    assert_eq!(role_from_detection(true), Role::Initiator);
    assert_eq!(role_from_detection(false), Role::Responder);

    let usb_half = SideConfig::new(KeyboardSide::Left, true);
    let bare_half = SideConfig::new(KeyboardSide::Right, false);
    assert!(usb_half.this_side_has_usb());
    assert!(!bare_half.this_side_has_usb());
    // Exactly one side ever initiates.
    assert_ne!(usb_half.role(), bare_half.role());
}

#[test]
fn keyboard_side_helpers() {
    assert!(KeyboardSide::Right.is_right());
    assert!(!KeyboardSide::Left.is_right());
    assert_eq!(KeyboardSide::Left.other(), KeyboardSide::Right);
    assert_eq!(KeyboardSide::Right.other(), KeyboardSide::Left);
}

#[test]
fn custom_events_round_trip_through_their_codes() {
    for e in [
        CustomEvent::MouseLeft,
        CustomEvent::MouseRight,
        CustomEvent::MouseScroll,
        CustomEvent::MouseMiddle,
    ] {
        assert_eq!(custom_event_of_code(custom_event_code(e)), Some(e));
    }
    assert_eq!(custom_event_of_code(4), None);
}

#[test]
fn checksum_is_the_byte_sum_modulo_256() {
    let buf = vec![1u8, 2, 3, 250, 255];
    assert_eq!(checksum_range(&buf, 0, 3), 6);
    assert_eq!(checksum_range(&buf, 0, 5), ((1 + 2 + 3 + 250 + 255) % 256) as u8);
    assert_eq!(checksum_range(&buf, 2, 2), 0);
}

#[test]
fn encoded_frame_carries_a_verifiable_checksum() {
    let env = wrap(2, vec![8, 9], ReliabilityClass::Unreliable, 1, KeyboardSide::Left);
    let bytes = encode_frame(&Frame::Data { env });
    assert_eq!(bytes[0], START_MARKER);
    let body_sum = checksum_range(&bytes, 1, bytes.len() - 1);
    assert_eq!(*bytes.last().unwrap(), body_sum);
}
