use splitlink::bootloader::{
    arm_value, boot_decision, clear_value, run_boot_attempt, BootDecision, MAGIC_TOKEN,
    TOKEN_ABSENT,
};

#[test]
fn single_reset_completes_the_cycle_and_boots_normally() {
    // Cold power-up: the persisted word comes up zero.
    let (token_after, decision) = run_boot_attempt(TOKEN_ABSENT, true);
    assert_eq!(decision, BootDecision::ArmAndContinue);
    // The set/wait/clear cycle ran to its end: the token ends Absent.
    assert_eq!(token_after, TOKEN_ABSENT);
}

#[test]
fn second_reset_inside_the_window_enters_the_bootloader() {
    // First reset: the window is cut short, so the clear never runs.
    let (token_after_first, d1) = run_boot_attempt(TOKEN_ABSENT, false);
    assert_eq!(d1, BootDecision::ArmAndContinue);
    assert_eq!(token_after_first, MAGIC_TOKEN);

    // Second boot reads the still-armed token and hands off.
    let (token_after_second, d2) = run_boot_attempt(token_after_first, true);
    assert_eq!(d2, BootDecision::EnterBootloader);
    // The update entry clears the token behind itself.
    assert_eq!(token_after_second, TOKEN_ABSENT);
}

#[test]
fn decision_depends_only_on_the_magic_sentinel() {
    assert_eq!(boot_decision(MAGIC_TOKEN), BootDecision::EnterBootloader);
    assert_eq!(boot_decision(TOKEN_ABSENT), BootDecision::ArmAndContinue);
    // Any other residue of uninitialized memory is not the sentinel.
    assert_eq!(boot_decision(0xDEAD_BEEF), BootDecision::ArmAndContinue);
    assert_eq!(boot_decision(1), BootDecision::ArmAndContinue);
}

#[test]
fn arm_and_clear_write_the_expected_words() {
    assert_eq!(arm_value(), MAGIC_TOKEN);
    assert_eq!(clear_value(), TOKEN_ABSENT);
    assert_ne!(arm_value(), clear_value());
}

#[test]
fn a_boot_whose_window_elapses_never_leaves_the_token_armed() {
    for token in [TOKEN_ABSENT, MAGIC_TOKEN, 7, 0xFFFF_FFFF] {
        let (after, _) = run_boot_attempt(token, true);
        assert_eq!(after, TOKEN_ABSENT);
    }
}
