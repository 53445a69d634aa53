//! The double-reset bootloader handshake.
//!
//! A single word of persisted raw storage survives a warm reset but comes up
//! zero after a cold power-up. On every boot the firmware reads it first:
//! if the magic sentinel is absent, the word is armed with the sentinel, a
//! fixed window is waited out, and the word is cleared before normal startup
//! goes on. If the sentinel is already there at the very start of a boot,
//! the previous boot's window was cut short by a second reset — the user's
//! double-tap gesture — so the word is cleared and control is handed, once
//! and for all, to the built-in firmware-update routine.
//!
//! Reading and writing the persisted word and the busy wait are the caller's
//! to perform; this module owns every decision, as pure functions from the
//! word's value, so a test can drive whole reset histories through it.
//!
//! A deliberate, software-triggered update reset transfers control directly
//! and never goes through this word, so an in-progress update cannot be
//! mistaken for a double-tap gesture.

use vstd::prelude::*;

verus! {

/// Sentinel marking an armed window; distinct from zero and from any
/// plausible uninitialized pattern.
pub const MAGIC_TOKEN: u32 = 0xCAFE_B0BA;

/// Cleared value of the persisted word.
pub const TOKEN_ABSENT: u32 = 0;

/// What a boot does after reading the persisted word.
#[derive(Clone, Copy, PartialEq, Eq, Structural, Debug)]
pub enum BootDecision {
    /// Arm the word, wait the window out, clear the word, then boot normally.
    ArmAndContinue,
    /// Second reset inside the window: clear the word and hand off to the
    /// update routine. That transfer never returns to firmware execution.
    EnterBootloader,
}

/// Phase of the handshake as the spec sees it.
#[derive(Clone, Copy, PartialEq, Eq, Structural, Debug)]
pub enum HandshakePhase {
    /// Token absent; no window open.
    Idle,
    /// Token holds the sentinel; the window of one boot attempt is open.
    Armed,
    /// Control has been handed to the update routine; never left again.
    BootloaderEntry,
}

/// The phase the persisted word encodes when a boot begins.
pub open spec fn spec_phase_of(token: u32) -> HandshakePhase {
    if token == MAGIC_TOKEN {
        HandshakePhase::Armed
    } else {
        HandshakePhase::Idle
    }
}

/// The decision a boot takes on reading the word: enter the update routine
/// exactly when the word was left armed by an interrupted window.
pub open spec fn spec_boot_decision(token: u32) -> BootDecision {
    if token == MAGIC_TOKEN {
        BootDecision::EnterBootloader
    } else {
        BootDecision::ArmAndContinue
    }
}

/// First step of every boot: interpret the word as read from persisted
/// storage, before any task scheduling.
pub fn boot_decision(token: u32) -> (r: BootDecision)
    ensures
        r == spec_boot_decision(token),
        (r is EnterBootloader) <==> token == MAGIC_TOKEN,
{
    if token == MAGIC_TOKEN {
        BootDecision::EnterBootloader
    } else {
        BootDecision::ArmAndContinue
    }
}

/// The value to write right after an `ArmAndContinue` decision: the armed
/// sentinel, opening this boot's window.
pub fn arm_value() -> (r: u32)
    ensures
        r == MAGIC_TOKEN,
        spec_phase_of(r) is Armed,
{
    MAGIC_TOKEN
}

/// The value to write when the window has elapsed undisturbed, and likewise
/// on entry to the update routine: the cleared word.
pub fn clear_value() -> (r: u32)
    ensures
        r == TOKEN_ABSENT,
        spec_phase_of(r) is Idle,
{
    TOKEN_ABSENT
}

/// One whole boot attempt over the persisted word, as a pure function.
///
/// `window_completed` says whether the armed window ran to its end or was cut
/// short by another reset. The result is the word as the *next* boot will
/// read it, and the decision this boot took.
pub open spec fn spec_boot_attempt(token: u32, window_completed: bool) -> (u32, BootDecision) {
    if token == MAGIC_TOKEN {
        // The update routine clears the word before the one-way transfer.
        (TOKEN_ABSENT, BootDecision::EnterBootloader)
    } else if window_completed {
        (TOKEN_ABSENT, BootDecision::ArmAndContinue)
    } else {
        // Armed, then reset before the clear ever ran.
        (MAGIC_TOKEN, BootDecision::ArmAndContinue)
    }
}

/// The same boot attempt, executable: what the word read at boot and the
/// fate of the window make of the device. The first component is the word
/// the next boot will read, the second the decision this boot took.
pub fn run_boot_attempt(token: u32, window_completed: bool) -> (r: (u32, BootDecision))
    ensures
        r == spec_boot_attempt(token, window_completed),
        (r.1 is EnterBootloader) <==> token == MAGIC_TOKEN,
{
    let d = boot_decision(token);
    match d {
        BootDecision::EnterBootloader => (clear_value(), d),
        BootDecision::ArmAndContinue => {
            if window_completed {
                (clear_value(), d)
            } else {
                (arm_value(), d)
            }
        },
    }
}

/// A single, undisturbed reset completes the set/wait/clear cycle and boots
/// normally: whatever non-armed value the word held, the boot continues into
/// the firmware and leaves the token absent for the next boot.
pub proof fn lemma_single_reset_boots_normally(token: u32)
    requires
        token != MAGIC_TOKEN,
    ensures
        spec_boot_attempt(token, true) == (TOKEN_ABSENT, BootDecision::ArmAndContinue),
{
}

/// A second reset inside the first boot's window sends the device to the
/// update routine: the interrupted first boot leaves the word armed, and the
/// boot that follows reads the sentinel, clears it, and hands off.
pub proof fn lemma_double_reset_enters_bootloader(token: u32)
    requires
        token != MAGIC_TOKEN,
    ensures
        spec_boot_attempt(token, false).0 == MAGIC_TOKEN,
        spec_boot_attempt(spec_boot_attempt(token, false).0, true).1
            == BootDecision::EnterBootloader,
        spec_boot_attempt(spec_boot_attempt(token, false).0, false).1
            == BootDecision::EnterBootloader,
{
}

/// The handshake never leaves the word armed across a completed boot: any
/// boot whose window runs to its end — and any boot that enters the update
/// routine — hands the next boot a cleared word.
pub proof fn lemma_completed_boot_clears_token(token: u32)
    ensures
        spec_boot_attempt(token, true).0 == TOKEN_ABSENT,
{
}

} // verus!
