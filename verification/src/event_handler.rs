//! Gesture detection over the global key stream.
//!
//! A hardware-level event tap reports every key-down and modifier-flag
//! change in the system. The detector classifies a brief tap of the
//! monitored hotkey (press and release under a threshold) into a single
//! "show the overlay" signal, tracks the held state of the click-button
//! modifier, and swallows Escape while the overlay is visible so it hides
//! the overlay instead of reaching the application beneath. Everything here
//! is a pure transition function; the thread that pumps the OS event tap
//! feeds it one event at a time and carries out the returned effects.

use vstd::prelude::*;
use crate::geom::Point;

verus! {

/// Milliseconds the monitored hotkey may stay down and still count as a tap.
pub const RCMD_TAP_DURATION_MS: u64 = 200;

/// Hardware key code of the monitored hotkey (right command).
pub const RIGHT_COMMAND_KEY_CODE: i64 = 54;

/// Hardware key code of the tracked click-button modifier (left shift).
pub const LEFT_SHIFT_KEY_CODE: i64 = 56;

/// Hardware key code of the Escape key.
pub const ESCAPE_KEY_CODE: i64 = 53;

/// A message from the gesture detector to the overlay navigator: show the
/// grid. Carries the cursor position at tap time when it could be read;
/// a failed cursor query degrades to an absent position, never to a
/// dropped signal.
#[derive(Debug, Clone, Copy, PartialEq)]
pub enum GlobalEvent {
    ShowGrid(Option<Point>),
}

/// The detector's thread-local state: when the monitored hotkey's current
/// press began, if a press is open.
#[derive(Debug, Clone, Copy, PartialEq)]
pub struct DetectorState {
    pub rcmd_press_start: Option<u64>,
}

/// What the detector asks of its surroundings after one event. The state
/// transition is returned beside it.
#[derive(Debug, Clone, Copy, PartialEq)]
pub struct DetectorEffects {
    /// Drop the event instead of passing it through (Escape while visible).
    pub swallow: bool,
    /// Ask the overlay to hide (Escape while visible).
    pub request_hide: bool,
    /// Emit the show-grid signal: a completed tap while the overlay was hidden.
    pub emit_show: bool,
    /// New held state for the click-button modifier, when it changed.
    pub set_lshift: Option<bool>,
}

/// One hardware-level event, reduced to the fields the detector reads.
#[derive(Debug, Clone, Copy, PartialEq)]
pub enum TapEvent {
    /// A modifier key's flag state changed; `flag_active` is the new state
    /// of the modifier flag that belongs to `key_code`.
    FlagsChanged { key_code: i64, flag_active: bool },
    /// A key went down.
    KeyDown { key_code: i64 },
    /// Any other observed event.
    Other,
}

impl DetectorState {
    /// The initial detector state: no press open.
    pub fn new() -> (s: DetectorState)
        ensures
            s == (DetectorState { rcmd_press_start: None::<u64> }),
    {
        DetectorState { rcmd_press_start: None }
    }

    /// Any open press began no later than `now`.
    pub open spec fn wf(self, now: u64) -> bool {
        match self.rcmd_press_start {
            Option::Some(t) => t <= now,
            Option::None => true,
        }
    }
}

/// Key codes of the modifier keys: command, shift, control, option and
/// their siblings. A key-down of anything else while a hotkey press is open
/// means the hotkey is being used as a modifier, not tapped.
pub open spec fn is_modifier_code(key_code: int) -> bool {
    54 <= key_code <= 63
}

/// Whether a hardware key code names a modifier key.
pub fn is_modifier_key_code(key_code: i64) -> (r: bool)
    ensures
        r == is_modifier_code(key_code as int),
{
    matches!(key_code, 54 | 55 | 56 | 57 | 58 | 59 | 60 | 61 | 62 | 63)
}

/// No effects: the event passes through and nothing is signaled.
pub open spec fn no_effects() -> DetectorEffects {
    DetectorEffects { swallow: false, request_hide: false, emit_show: false, set_lshift: None }
}

/// The detector's transition function, as a mathematical map from state,
/// event, clock and shared-flag snapshots to the next state and effects.
pub open spec fn detector_step_spec(
    s: DetectorState,
    ev: TapEvent,
    now: u64,
    visible: bool,
    lshift_held: bool,
) -> (DetectorState, DetectorEffects) {
    match ev {
        TapEvent::KeyDown { key_code } => {
            if visible && key_code == ESCAPE_KEY_CODE {
                // Swallowed so Escape does not reach whatever is beneath
                // the overlay; the navigator sees only the hide request.
                (
                    s,
                    DetectorEffects {
                        swallow: true,
                        request_hide: true,
                        emit_show: false,
                        set_lshift: None,
                    },
                )
            } else if s.rcmd_press_start is Some && !is_modifier_code(key_code as int)
                && key_code != RIGHT_COMMAND_KEY_CODE {
                // The hotkey is being held as a modifier for another key:
                // the open press no longer counts as a pending tap.
                (DetectorState { rcmd_press_start: None }, no_effects())
            } else {
                (s, no_effects())
            }
        },
        TapEvent::FlagsChanged { key_code, flag_active } => {
            if key_code == RIGHT_COMMAND_KEY_CODE {
                if flag_active {
                    if s.rcmd_press_start is None {
                        (DetectorState { rcmd_press_start: Some(now) }, no_effects())
                    } else {
                        (s, no_effects())
                    }
                } else {
                    match s.rcmd_press_start {
                        Option::Some(t0) => (
                            DetectorState { rcmd_press_start: None },
                            DetectorEffects {
                                swallow: false,
                                request_hide: false,
                                emit_show: now - t0 < RCMD_TAP_DURATION_MS && !visible,
                                set_lshift: None,
                            },
                        ),
                        Option::None => (s, no_effects()),
                    }
                }
            } else if key_code == LEFT_SHIFT_KEY_CODE {
                (
                    s,
                    DetectorEffects {
                        swallow: false,
                        request_hide: false,
                        emit_show: false,
                        set_lshift: if flag_active != lshift_held {
                            Some(flag_active)
                        } else {
                            None
                        },
                    },
                )
            } else {
                if s.rcmd_press_start is Some {
                    // Another modifier changed while the hotkey press was
                    // open: the press is part of a chord, not a tap.
                    (DetectorState { rcmd_press_start: None }, no_effects())
                } else {
                    (s, no_effects())
                }
            }
        },
        TapEvent::Other => (s, no_effects()),
    }
}

/// Classify one raw event. `visible` and `lshift_held` are the snapshots of
/// the shared flags at the moment the event arrived; the caller carries out
/// the returned effects (forward or drop the event, set the shared flags,
/// send the show signal) and keeps the returned state for the next event.
pub fn detector_step(
    s: DetectorState,
    ev: &TapEvent,
    now_ms: u64,
    visible: bool,
    lshift_held: bool,
) -> (r: (DetectorState, DetectorEffects))
    requires
        s.wf(now_ms),
    ensures
        r == detector_step_spec(s, *ev, now_ms, visible, lshift_held),
        r.0.wf(now_ms),
{
    match *ev {
        TapEvent::KeyDown { key_code } => {
            if visible && key_code == ESCAPE_KEY_CODE {
                (
                    s,
                    DetectorEffects {
                        swallow: true,
                        request_hide: true,
                        emit_show: false,
                        set_lshift: None,
                    },
                )
            } else if s.rcmd_press_start.is_some() && !is_modifier_key_code(key_code) && key_code
                != RIGHT_COMMAND_KEY_CODE {
                (
                    DetectorState { rcmd_press_start: None },
                    DetectorEffects {
                        swallow: false,
                        request_hide: false,
                        emit_show: false,
                        set_lshift: None,
                    },
                )
            } else {
                (
                    s,
                    DetectorEffects {
                        swallow: false,
                        request_hide: false,
                        emit_show: false,
                        set_lshift: None,
                    },
                )
            }
        },
        TapEvent::FlagsChanged { key_code, flag_active } => {
            if key_code == RIGHT_COMMAND_KEY_CODE {
                if flag_active {
                    if s.rcmd_press_start.is_none() {
                        (
                            DetectorState { rcmd_press_start: Some(now_ms) },
                            DetectorEffects {
                                swallow: false,
                                request_hide: false,
                                emit_show: false,
                                set_lshift: None,
                            },
                        )
                    } else {
                        (
                            s,
                            DetectorEffects {
                                swallow: false,
                                request_hide: false,
                                emit_show: false,
                                set_lshift: None,
                            },
                        )
                    }
                } else {
                    match s.rcmd_press_start {
                        Some(t0) => (
                            DetectorState { rcmd_press_start: None },
                            DetectorEffects {
                                swallow: false,
                                request_hide: false,
                                emit_show: now_ms - t0 < RCMD_TAP_DURATION_MS && !visible,
                                set_lshift: None,
                            },
                        ),
                        None => (
                            s,
                            DetectorEffects {
                                swallow: false,
                                request_hide: false,
                                emit_show: false,
                                set_lshift: None,
                            },
                        ),
                    }
                }
            } else if key_code == LEFT_SHIFT_KEY_CODE {
                (
                    s,
                    DetectorEffects {
                        swallow: false,
                        request_hide: false,
                        emit_show: false,
                        set_lshift: if flag_active != lshift_held {
                            Some(flag_active)
                        } else {
                            None
                        },
                    },
                )
            } else {
                if s.rcmd_press_start.is_some() {
                    (
                        DetectorState { rcmd_press_start: None },
                        DetectorEffects {
                            swallow: false,
                            request_hide: false,
                            emit_show: false,
                            set_lshift: None,
                        },
                    )
                } else {
                    (
                        s,
                        DetectorEffects {
                            swallow: false,
                            request_hide: false,
                            emit_show: false,
                            set_lshift: None,
                        },
                    )
                }
            }
        },
        TapEvent::Other => (
            s,
            DetectorEffects {
                swallow: false,
                request_hide: false,
                emit_show: false,
                set_lshift: None,
            },
        ),
    }
}

/// Gesture timing. From a state with no open press, a press of the
/// monitored hotkey at `t1` emits nothing, and the matching release at `t2`
/// emits the show signal exactly when the press lasted less than the tap
/// threshold and the overlay was hidden at release time: a longer hold
/// emits nothing, and a tap over a visible overlay emits nothing. In every
/// case the release closes the press.
pub proof fn lemma_tap_timing(
    t1: u64,
    t2: u64,
    press_visible: bool,
    release_visible: bool,
    press_lshift: bool,
    release_lshift: bool,
)
    requires
        t1 <= t2,
    ensures
        ({
            let s0 = DetectorState { rcmd_press_start: None };
            let press = TapEvent::FlagsChanged {
                key_code: RIGHT_COMMAND_KEY_CODE,
                flag_active: true,
            };
            let release = TapEvent::FlagsChanged {
                key_code: RIGHT_COMMAND_KEY_CODE,
                flag_active: false,
            };
            let (s1, press_eff) = detector_step_spec(s0, press, t1, press_visible, press_lshift);
            let (s2, release_eff) = detector_step_spec(
                s1,
                release,
                t2,
                release_visible,
                release_lshift,
            );
            &&& press_eff == no_effects()
            &&& s1 == (DetectorState { rcmd_press_start: Some(t1) })
            &&& release_eff.emit_show == (t2 - t1 < RCMD_TAP_DURATION_MS && !release_visible)
            &&& !release_eff.swallow
            &&& !release_eff.request_hide
            &&& release_eff.set_lshift is None
            &&& s2 == (DetectorState { rcmd_press_start: None::<u64> })
        }),
{
}

} // verus!
