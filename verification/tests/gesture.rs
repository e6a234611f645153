use mouseless::event_handler::{
    detector_step, is_modifier_key_code, DetectorState, TapEvent, ESCAPE_KEY_CODE,
    LEFT_SHIFT_KEY_CODE, RIGHT_COMMAND_KEY_CODE,
};

fn press() -> TapEvent {
    TapEvent::FlagsChanged { key_code: RIGHT_COMMAND_KEY_CODE, flag_active: true }
}

fn release() -> TapEvent {
    TapEvent::FlagsChanged { key_code: RIGHT_COMMAND_KEY_CODE, flag_active: false }
}

#[test]
fn quick_tap_while_hidden_emits_one_show() {
    let s0 = DetectorState::new();
    let (s1, e1) = detector_step(s0, &press(), 1000, false, false);
    assert!(!e1.emit_show);
    assert_eq!(s1.rcmd_press_start, Some(1000));
    let (s2, e2) = detector_step(s1, &release(), 1150, false, false);
    assert!(e2.emit_show);
    assert_eq!(s2.rcmd_press_start, None);
    // A repeated release emits nothing: the press was consumed.
    let (_, e3) = detector_step(s2, &release(), 1160, false, false);
    assert!(!e3.emit_show);
}

#[test]
fn held_key_emits_nothing() {
    let s0 = DetectorState::new();
    let (s1, _) = detector_step(s0, &press(), 1000, false, false);
    let (s2, e2) = detector_step(s1, &release(), 1200, false, false);
    assert!(!e2.emit_show);
    assert_eq!(s2.rcmd_press_start, None);
}

#[test]
fn tap_at_threshold_boundary() {
    // 199 ms is a tap; 200 ms is a hold.
    let s0 = DetectorState::new();
    let (s1, _) = detector_step(s0, &press(), 0, false, false);
    let (_, e) = detector_step(s1, &release(), 199, false, false);
    assert!(e.emit_show);
    let (s1b, _) = detector_step(s0, &press(), 0, false, false);
    let (_, eb) = detector_step(s1b, &release(), 200, false, false);
    assert!(!eb.emit_show);
}

#[test]
fn tap_while_visible_is_ignored() {
    let s0 = DetectorState::new();
    let (s1, _) = detector_step(s0, &press(), 1000, true, false);
    let (s2, e2) = detector_step(s1, &release(), 1050, true, false);
    assert!(!e2.emit_show);
    assert_eq!(s2.rcmd_press_start, None);
}

#[test]
fn escape_while_visible_is_swallowed_and_requests_hide() {
    let s0 = DetectorState::new();
    let ev = TapEvent::KeyDown { key_code: ESCAPE_KEY_CODE };
    let (s1, e) = detector_step(s0, &ev, 500, true, false);
    assert!(e.swallow);
    assert!(e.request_hide);
    assert!(!e.emit_show);
    assert_eq!(s1, s0);
}

#[test]
fn escape_while_hidden_passes_through() {
    let s0 = DetectorState::new();
    let ev = TapEvent::KeyDown { key_code: ESCAPE_KEY_CODE };
    let (_, e) = detector_step(s0, &ev, 500, false, false);
    assert!(!e.swallow);
    assert!(!e.request_hide);
}

#[test]
fn other_key_down_cancels_pending_tap() {
    let s0 = DetectorState::new();
    let (s1, _) = detector_step(s0, &press(), 1000, false, false);
    // Key code 0 is the letter A on the observed layout: not a modifier.
    let (s2, _) = detector_step(s1, &TapEvent::KeyDown { key_code: 0 }, 1010, false, false);
    assert_eq!(s2.rcmd_press_start, None);
    // The release that follows no longer emits a show signal.
    let (_, e) = detector_step(s2, &release(), 1050, false, false);
    assert!(!e.emit_show);
}

#[test]
fn modifier_key_down_keeps_pending_tap() {
    let s0 = DetectorState::new();
    let (s1, _) = detector_step(s0, &press(), 1000, false, false);
    let (s2, _) = detector_step(
        s1,
        &TapEvent::KeyDown { key_code: LEFT_SHIFT_KEY_CODE },
        1010,
        false,
        false,
    );
    assert_eq!(s2.rcmd_press_start, Some(1000));
}

#[test]
fn other_modifier_flag_change_cancels_pending_tap() {
    let s0 = DetectorState::new();
    let (s1, _) = detector_step(s0, &press(), 1000, false, false);
    let ev = TapEvent::FlagsChanged { key_code: 58, flag_active: true };
    let (s2, _) = detector_step(s1, &ev, 1010, false, false);
    assert_eq!(s2.rcmd_press_start, None);
}

#[test]
fn left_shift_state_is_tracked() {
    let s0 = DetectorState::new();
    let down = TapEvent::FlagsChanged { key_code: LEFT_SHIFT_KEY_CODE, flag_active: true };
    let up = TapEvent::FlagsChanged { key_code: LEFT_SHIFT_KEY_CODE, flag_active: false };
    let (_, e1) = detector_step(s0, &down, 10, false, false);
    assert_eq!(e1.set_lshift, Some(true));
    // No change reported when the snapshot already agrees.
    let (_, e2) = detector_step(s0, &down, 20, false, true);
    assert_eq!(e2.set_lshift, None);
    let (_, e3) = detector_step(s0, &up, 30, false, true);
    assert_eq!(e3.set_lshift, Some(false));
}

#[test]
fn modifier_key_code_range() {
    assert!(is_modifier_key_code(54));
    assert!(is_modifier_key_code(56));
    assert!(is_modifier_key_code(63));
    assert!(!is_modifier_key_code(53));
    assert!(!is_modifier_key_code(64));
    assert!(!is_modifier_key_code(0));
}
