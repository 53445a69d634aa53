//! Which half of the keyboard this controller is, whether it sees the USB
//! host, and the half-duplex role that follows from both.
//!
//! The role is decided once at boot from pin levels and never changes; it is
//! the sole arbitration mechanism on the link, so the two sides must always
//! come out with distinct roles.

use vstd::prelude::*;

verus! {

/// The physical half of the keyboard a controller sits on.
#[derive(Clone, Copy, PartialEq, Eq, Structural, Debug)]
pub enum KeyboardSide {
    Left,
    Right,
}

impl KeyboardSide {
    pub fn is_right(&self) -> (r: bool)
        ensures
            r == (*self is Right),
    {
        match self {
            KeyboardSide::Right => true,
            KeyboardSide::Left => false,
        }
    }

    pub fn other(&self) -> (r: KeyboardSide)
        ensures
            r != *self,
    {
        match self {
            KeyboardSide::Right => KeyboardSide::Left,
            KeyboardSide::Left => KeyboardSide::Right,
        }
    }
}

/// Who may open an exchange on the half-duplex link.
///
/// The initiator drives the request/response cadence; the responder only
/// transmits inside an exchange the initiator began.
#[derive(Clone, Copy, PartialEq, Eq, Structural, Debug)]
pub enum Role {
    Initiator,
    Responder,
}

/// The side pin reads high on the right half.
pub fn side_from_pin(pin_high: bool) -> (r: KeyboardSide)
    ensures
        r == (if pin_high {
            KeyboardSide::Right
        } else {
            KeyboardSide::Left
        }),
{
    if pin_high {
        KeyboardSide::Right
    } else {
        KeyboardSide::Left
    }
}

/// The half that sees the USB host drives the link; the other half answers.
pub fn role_from_detection(usb_present: bool) -> (r: Role)
    ensures
        r == (if usb_present {
            Role::Initiator
        } else {
            Role::Responder
        }),
{
    if usb_present {
        Role::Initiator
    } else {
        Role::Responder
    }
}

/// Boot-time facts about this controller, fixed before any task runs.
#[derive(Clone, Copy, PartialEq, Eq, Structural, Debug)]
pub struct SideConfig {
    pub side: KeyboardSide,
    pub usb_present: bool,
}

impl SideConfig {
    pub fn new(side: KeyboardSide, usb_present: bool) -> (r: SideConfig)
        ensures
            r.side == side,
            r.usb_present == usb_present,
    {
        SideConfig { side, usb_present }
    }

    pub fn this_side_has_usb(&self) -> (r: bool)
        ensures
            r == self.usb_present,
    {
        self.usb_present
    }

    pub fn role(&self) -> (r: Role)
        ensures
            r == (if self.usb_present {
                Role::Initiator
            } else {
                Role::Responder
            }),
    {
        role_from_detection(self.usb_present)
    }
}

/// Only the initiator may begin an unsolicited transmission; the responder
/// speaks only inside an exchange the initiator opened.
pub fn may_transmit_unsolicited(role: Role) -> (r: bool)
    ensures
        r == (role is Initiator),
{
    match role {
        Role::Initiator => true,
        Role::Responder => false,
    }
}

/// Exactly one side sees the USB host, so exactly one side ever initiates:
/// the roles the two halves compute are always distinct, which is what makes
/// the boot-time role a sound half-duplex arbiter.
pub proof fn lemma_roles_are_exclusive(a: SideConfig, b: SideConfig)
    requires
        a.usb_present != b.usb_present,
    ensures
        (if a.usb_present {
            Role::Initiator
        } else {
            Role::Responder
        }) != (if b.usb_present {
            Role::Initiator
        } else {
            Role::Responder
        }),
{
}

} // verus!
