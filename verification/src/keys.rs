//! Key-layer events that are not ordinary key codes.
//!
//! The keymap itself — chords, layers, hold-tap — is an external
//! collaborator; what crosses the link from it are the custom mouse events
//! below, carried as one byte of a key-channel payload.

use vstd::prelude::*;

verus! {

/// A custom action resolved by the keymap, to be forwarded to the side that
/// talks to the host.
#[derive(Clone, Copy, PartialEq, Eq, Structural, Debug)]
pub enum CustomEvent {
    MouseLeft,
    MouseRight,
    MouseScroll,
    MouseMiddle,
}

/// Payload byte of each custom event.
pub open spec fn spec_custom_event_code(e: CustomEvent) -> u8 {
    match e {
        CustomEvent::MouseLeft => 0u8,
        CustomEvent::MouseRight => 1u8,
        CustomEvent::MouseScroll => 2u8,
        CustomEvent::MouseMiddle => 3u8,
    }
}

pub open spec fn spec_custom_event_of_code(b: u8) -> Option<CustomEvent> {
    if b == 0 {
        Some(CustomEvent::MouseLeft)
    } else if b == 1 {
        Some(CustomEvent::MouseRight)
    } else if b == 2 {
        Some(CustomEvent::MouseScroll)
    } else if b == 3 {
        Some(CustomEvent::MouseMiddle)
    } else {
        None
    }
}

pub fn custom_event_code(e: CustomEvent) -> (r: u8)
    ensures
        r == spec_custom_event_code(e),
        spec_custom_event_of_code(r) == Some(e),
{
    match e {
        CustomEvent::MouseLeft => 0,
        CustomEvent::MouseRight => 1,
        CustomEvent::MouseScroll => 2,
        CustomEvent::MouseMiddle => 3,
    }
}

pub fn custom_event_of_code(b: u8) -> (r: Option<CustomEvent>)
    ensures
        r == spec_custom_event_of_code(b),
{
    if b == 0 {
        Some(CustomEvent::MouseLeft)
    } else if b == 1 {
        Some(CustomEvent::MouseRight)
    } else if b == 2 {
        Some(CustomEvent::MouseScroll)
    } else if b == 3 {
        Some(CustomEvent::MouseMiddle)
    } else {
        None
    }
}

} // verus!
