//! The overlay navigator: the render-loop-driven state machine.
//!
//! Once per render tick the navigator consumes at most one gesture signal,
//! honours a pending hide request, services the deferred click, relays out
//! the grids when the window size changed, and feeds the tick's local key
//! events through the label matcher. It never touches the operating system
//! itself: the tick returns the commands to carry out (show or hide the
//! window, move the pointer, post the click, schedule a repaint), and the
//! host loop reports back the one outcome the state machine depends on,
//! whether the pointer move succeeded.
//!
//! The whole transition is specified as a mathematical function over an
//! abstract view of the state (`NavView`), phase by phase, and the tick is
//! proved equal to it.

use vstd::prelude::*;
use crate::geom::{Point, Rect};
use crate::grid::{
    DisplayMode, MAIN_GRID_COLS, MAIN_GRID_ROWS, SUB_GRID_COLS, SUB_GRID_ROWS,
    generate_main_grid_layout, generate_sub_grid_layout, main_labels_seq, sub_labels_seq,
    rects_seq, label_views, lemma_main_labels_views, lemma_sub_labels_views, lemma_rects_seq_of_ok,
    lemma_rects_seq_within,
};
use crate::event_handler::GlobalEvent;

verus! {

/// Milliseconds the overlay must have been hidden before the deferred
/// click is posted, so the click lands beneath the overlay, not on it.
pub const DEFERRED_CLICK_DELAY_MS: u64 = 150;

/// Repaint interval while waiting out the deferred-click delay.
pub const CLICK_WAIT_REPAINT_MS: u64 = 20;

/// Repaint interval while the overlay is hidden and idle.
pub const HIDDEN_REPAINT_MS: u64 = 50;

/// Snapshot of the two shared overlay-control flags: whether the overlay
/// is currently shown, and whether a hide was requested. The host keeps
/// them in atomics shared with the gesture detector; each tick works on a
/// snapshot and writes the result back.
#[derive(Debug, Clone, Copy, PartialEq, Eq, Structural)]
pub struct EframeControl {
    pub hide_requested: bool,
    pub is_visible: bool,
}

impl Default for EframeControl {
    /// Both flags start cleared: the overlay begins hidden, with no hide
    /// pending.
    fn default() -> (c: Self)
        ensures
            c == (EframeControl { hide_requested: false, is_visible: false }),
    {
        EframeControl { hide_requested: false, is_visible: false }
    }
}

/// A key event local to the overlay window, reduced to what the navigator
/// reads: the letter keys, the confirm key, and everything else.
#[derive(Debug, Clone, Copy, PartialEq, Eq, Structural)]
pub enum Key {
    A, B, C, D, E, F, G, H, I, J, K, L, M,
    N, O, P, Q, R, S, T, U, V, W, X, Y, Z,
    Space,
    Other,
}

/// The character a key contributes to a label, if any.
pub open spec fn key_char(k: Key) -> Option<char> {
    match k {
        Key::A => Some('A'), Key::B => Some('B'), Key::C => Some('C'), Key::D => Some('D'),
        Key::E => Some('E'), Key::F => Some('F'), Key::G => Some('G'), Key::H => Some('H'),
        Key::I => Some('I'), Key::J => Some('J'), Key::K => Some('K'), Key::L => Some('L'),
        Key::M => Some('M'), Key::N => Some('N'), Key::O => Some('O'), Key::P => Some('P'),
        Key::Q => Some('Q'), Key::R => Some('R'), Key::S => Some('S'), Key::T => Some('T'),
        Key::U => Some('U'), Key::V => Some('V'), Key::W => Some('W'), Key::X => Some('X'),
        Key::Y => Some('Y'), Key::Z => Some('Z'),
        Key::Space => None,
        Key::Other => None,
    }
}

/// Map a key to the upper-case character it contributes to a label.
pub fn key_to_char(key: Key) -> (r: Option<char>)
    ensures
        r == key_char(key),
{
    match key {
        Key::A => Some('A'), Key::B => Some('B'), Key::C => Some('C'), Key::D => Some('D'),
        Key::E => Some('E'), Key::F => Some('F'), Key::G => Some('G'), Key::H => Some('H'),
        Key::I => Some('I'), Key::J => Some('J'), Key::K => Some('K'), Key::L => Some('L'),
        Key::M => Some('M'), Key::N => Some('N'), Key::O => Some('O'), Key::P => Some('P'),
        Key::Q => Some('Q'), Key::R => Some('R'), Key::S => Some('S'), Key::T => Some('T'),
        Key::U => Some('U'), Key::V => Some('V'), Key::W => Some('W'), Key::X => Some('X'),
        Key::Y => Some('Y'), Key::Z => Some('Z'),
        Key::Space => None,
        Key::Other => None,
    }
}

/// Which mouse button a click uses.
#[derive(Debug, Clone, Copy, PartialEq, Eq, Structural)]
pub enum MouseButton {
    Left,
    Right,
}

/// A synthetic click to post: the global point and the button, chosen from
/// the modifier snapshot at scheduling time.
#[derive(Debug, Clone, Copy, PartialEq, Eq, Structural)]
pub struct ClickCommand {
    pub point: Point,
    pub button: MouseButton,
}

/// The navigator's state. All of it is owned by the render-loop thread;
/// cross-thread coordination goes through the `EframeControl` snapshot and
/// the gesture-signal channel alone.
pub struct NavigatorState {
    /// Which grid the overlay is showing.
    pub display_mode: DisplayMode,
    /// Characters typed so far toward a main-grid label.
    pub key_input_buffer: Vec<char>,
    /// The chosen main cell, while the sub-grid is active.
    pub selected_main_cell_index: Option<usize>,
    /// Labels of the main grid, row-major.
    pub main_grid_labels: Vec<String>,
    /// Cell rectangles of the main grid, row-major; empty until a layout
    /// pass has seen a usable window size.
    pub main_grid_rects: Vec<Rect>,
    /// Labels of the sub-grid inside the selected main cell.
    pub sub_grid_labels: Vec<String>,
    /// Cell rectangles of the sub-grid.
    pub sub_grid_rects: Vec<Rect>,
    /// The content rectangle of the last layout pass; a change forces a
    /// relayout.
    pub last_layout_rect: Option<Rect>,
    /// The overlay is hiding so a scheduled click can be posted.
    pub is_hiding_to_perform_click: bool,
    /// When the hide began, for the deferred-click delay.
    pub hide_initiated_at: Option<u64>,
    /// The global point the deferred click will hit.
    pub pending_click_pos_after_hide: Option<Point>,
}

/// The navigator's state, abstracted: label lists become character
/// sequences and the index becomes a mathematical integer. The transition
/// functions below are written over this view.
#[verifier::ext_equal]
pub struct NavView {
    pub display_mode: DisplayMode,
    pub key_input_buffer: Seq<char>,
    pub selected_main_cell_index: Option<int>,
    pub main_grid_labels: Seq<Seq<char>>,
    pub main_grid_rects: Seq<Rect>,
    pub sub_grid_labels: Seq<Seq<char>>,
    pub sub_grid_rects: Seq<Rect>,
    pub last_layout_rect: Option<Rect>,
    pub is_hiding_to_perform_click: bool,
    pub hide_initiated_at: Option<u64>,
    pub pending_click_pos_after_hide: Option<Point>,
}

impl View for NavigatorState {
    type V = NavView;

    open spec fn view(&self) -> NavView {
        NavView {
            display_mode: self.display_mode,
            key_input_buffer: self.key_input_buffer@,
            selected_main_cell_index: match self.selected_main_cell_index {
                Option::Some(i) => Some(i as int),
                Option::None => None,
            },
            main_grid_labels: label_views(self.main_grid_labels@),
            main_grid_rects: self.main_grid_rects@,
            sub_grid_labels: label_views(self.sub_grid_labels@),
            sub_grid_rects: self.sub_grid_rects@,
            last_layout_rect: self.last_layout_rect,
            is_hiding_to_perform_click: self.is_hiding_to_perform_click,
            hide_initiated_at: self.hide_initiated_at,
            pending_click_pos_after_hide: self.pending_click_pos_after_hide,
        }
    }
}

/// Every rectangle of the list is well-formed and lies inside `outer`.
pub open spec fn rects_within(rs: Seq<Rect>, outer: Rect) -> bool {
    forall|i: int|
        0 <= i < rs.len() ==> (#[trigger] rs[i]).wf() && rs[i].spec_within(outer)
}

/// The navigator's internal invariant: grid rectangles always belong to
/// the rectangle of the last layout pass (whose origin is the window's own
/// origin, zero), and before any layout pass there are none. Click targets
/// computed from cell centers therefore stay inside the window's content
/// area.
pub open spec fn nav_inv(v: NavView) -> bool {
    match v.last_layout_rect {
        Option::Some(r) => {
            &&& r.x == 0
            &&& r.y == 0
            &&& r.wf()
            &&& rects_within(v.main_grid_rects, r)
            &&& (v.display_mode == DisplayMode::SubGrid ==> rects_within(v.sub_grid_rects, r))
        },
        Option::None => v.main_grid_rects.len() == 0,
    }
}

/// Any recorded hide instant lies in the past.
pub open spec fn time_ok(v: NavView, now: u64) -> bool {
    match v.hide_initiated_at {
        Option::Some(t) => t <= now,
        Option::None => true,
    }
}

/// What one render tick reads: the gesture signal drained from the channel
/// (at most one per tick), the clock, the window's content size, the
/// window's global origin when the host can report it, the tick's local
/// key events in order, and the click-button modifier snapshot.
pub struct TickInput {
    pub event: Option<GlobalEvent>,
    pub now_ms: u64,
    pub content_w: i32,
    pub content_h: i32,
    pub window_origin: Option<Point>,
    pub keys: Vec<Key>,
    pub lshift_held: bool,
}

impl TickInput {
    /// The content size is a size, and the window's far corner stays in
    /// coordinate range, so window-local points translate to global ones
    /// without overflow.
    pub open spec fn wf(self) -> bool {
        &&& 0 <= self.content_w
        &&& 0 <= self.content_h
        &&& match self.window_origin {
            Option::Some(o) => o.x + self.content_w <= i32::MAX && o.y + self.content_h
                <= i32::MAX,
            Option::None => true,
        }
    }

    /// The window-local content rectangle.
    pub open spec fn content_rect(self) -> Rect {
        Rect { x: 0, y: 0, w: self.content_w, h: self.content_h }
    }
}

/// What one render tick asks of the host loop, in the order the host
/// carries it out: window visibility and focus commands, a pointer move
/// whose outcome comes back through `note_pointer_move`, a deferred click
/// to post, and repaint scheduling. `paint` says whether the tick reached
/// the drawing phase at all.
#[derive(Debug, Clone, Copy, PartialEq)]
pub struct TickOutput {
    pub set_visible: Option<bool>,
    pub request_focus: bool,
    pub move_pointer_to: Option<Point>,
    pub fire_click: Option<ClickCommand>,
    pub repaint_after_ms: Option<u64>,
    pub repaint_now: bool,
    pub paint: bool,
}

/// Receiving a show signal while hidden brings the overlay up fresh: main
/// grid, empty buffer, no selection, and a forced relayout; the signal is
/// ignored while the overlay is already visible.
pub open spec fn receive_step(v: NavView, c: EframeControl, ev: Option<GlobalEvent>) -> (
    NavView,
    EframeControl,
    bool,
) {
    match ev {
        Option::Some(GlobalEvent::ShowGrid(_pos)) => {
            if !c.is_visible {
                (
                    NavView {
                        display_mode: DisplayMode::MainGrid,
                        key_input_buffer: Seq::empty(),
                        selected_main_cell_index: None,
                        main_grid_rects: Seq::empty(),
                        ..v
                    },
                    EframeControl { is_visible: true, hide_requested: false },
                    true,
                )
            } else {
                (v, c, false)
            }
        },
        Option::None => (v, c, false),
    }
}

/// An observed hide request while visible hides the overlay and resets the
/// selection; if a click is queued, the deferred-click wait begins now. A
/// hide request while already hidden is consumed and abandons any queued
/// click.
pub open spec fn hide_step(v: NavView, c: EframeControl, now: u64) -> (
    NavView,
    EframeControl,
    bool,
    bool,
) {
    if c.hide_requested {
        if c.is_visible {
            let hiding = v.pending_click_pos_after_hide is Some;
            (
                NavView {
                    display_mode: DisplayMode::MainGrid,
                    key_input_buffer: Seq::empty(),
                    selected_main_cell_index: None,
                    is_hiding_to_perform_click: hiding,
                    hide_initiated_at: if hiding {
                        Some(now)
                    } else {
                        v.hide_initiated_at
                    },
                    ..v
                },
                EframeControl { hide_requested: false, is_visible: false },
                true,
                true,
            )
        } else {
            (
                NavView {
                    pending_click_pos_after_hide: None,
                    is_hiding_to_perform_click: false,
                    hide_initiated_at: None,
                    ..v
                },
                EframeControl { hide_requested: false, ..c },
                false,
                false,
            )
        }
    } else {
        (v, c, false, false)
    }
}

/// Once the deferred-click delay has passed, the queued click fires with
/// the button chosen by the modifier snapshot, and the state returns to
/// the main grid; before that the tick only keeps the wait alive. A
/// hiding state without a recorded instant is abandoned.
pub open spec fn deferred_step(v: NavView, c: EframeControl, now: u64, lshift_held: bool) -> (
    NavView,
    EframeControl,
    Option<ClickCommand>,
    bool,
) {
    if v.is_hiding_to_perform_click {
        match v.hide_initiated_at {
            Option::Some(t0) => {
                if now - t0 >= DEFERRED_CLICK_DELAY_MS {
                    let fire = match v.pending_click_pos_after_hide {
                        Option::Some(p) => Some(
                            ClickCommand {
                                point: p,
                                button: if lshift_held {
                                    MouseButton::Right
                                } else {
                                    MouseButton::Left
                                },
                            },
                        ),
                        Option::None => None,
                    };
                    (
                        NavView {
                            display_mode: DisplayMode::MainGrid,
                            key_input_buffer: Seq::empty(),
                            selected_main_cell_index: None,
                            is_hiding_to_perform_click: false,
                            hide_initiated_at: None,
                            pending_click_pos_after_hide: None,
                            ..v
                        },
                        EframeControl { hide_requested: false, ..c },
                        fire,
                        false,
                    )
                } else {
                    (v, c, None, true)
                }
            },
            Option::None => (
                NavView {
                    is_hiding_to_perform_click: false,
                    pending_click_pos_after_hide: None,
                    ..v
                },
                EframeControl { hide_requested: false, ..c },
                None,
                false,
            ),
        }
    } else {
        (v, c, None, false)
    }
}

impl NavigatorState {
    /// The initial navigator state: main grid mode, the full main-grid
    /// label list, and no layout, selection or pending click yet.
    pub fn new() -> (s: Self)
        ensures
            s@ == initial_nav_view(),
            nav_inv(s@),
    {
        let (labels, _rects) = generate_main_grid_layout(
            MAIN_GRID_COLS,
            MAIN_GRID_ROWS,
            Rect { x: 0, y: 0, w: 0, h: 0 },
        );
        let s = NavigatorState {
            display_mode: DisplayMode::MainGrid,
            key_input_buffer: Vec::new(),
            selected_main_cell_index: None,
            main_grid_labels: labels,
            main_grid_rects: Vec::new(),
            sub_grid_labels: Vec::new(),
            sub_grid_rects: Vec::new(),
            last_layout_rect: None,
            is_hiding_to_perform_click: false,
            hide_initiated_at: None,
            pending_click_pos_after_hide: None,
        };
        proof {
            lemma_main_labels_views(s.main_grid_labels@, MAIN_GRID_COLS as int, MAIN_GRID_ROWS as int);
            assert(s@ =~~= initial_nav_view());
        }
        s
    }

    /// Apply a drained gesture signal; reports whether the overlay was
    /// brought up.
    fn apply_receive(&mut self, ctrl: &mut EframeControl, ev: Option<GlobalEvent>) -> (shown: bool)
        ensures
            ({
                let (v2, c2, sh) = receive_step(old(self)@, *old(ctrl), ev);
                &&& final(self)@ == v2
                &&& *final(ctrl) == c2
                &&& shown == sh
            }),
    {
        match ev {
            Some(GlobalEvent::ShowGrid(_pos)) => {
                if !ctrl.is_visible {
                    ctrl.is_visible = true;
                    ctrl.hide_requested = false;
                    self.key_input_buffer.clear();
                    self.selected_main_cell_index = None;
                    self.display_mode = DisplayMode::MainGrid;
                    self.main_grid_rects.clear();
                    proof {
                        let (v2, _, _) = receive_step(old(self)@, *old(ctrl), ev);
                        assert(self@ =~~= v2);
                    }
                    true
                } else {
                    false
                }
            },
            None => false,
        }
    }

    /// Apply a pending hide request; reports `(hid, early)`: whether the
    /// window was hidden, and whether the tick ends here.
    fn apply_hide(&mut self, ctrl: &mut EframeControl, now_ms: u64) -> (r: (bool, bool))
        ensures
            ({
                let (v2, c2, hid, early) = hide_step(old(self)@, *old(ctrl), now_ms);
                &&& final(self)@ == v2
                &&& *final(ctrl) == c2
                &&& r == (hid, early)
            }),
    {
        if ctrl.hide_requested {
            if ctrl.is_visible {
                ctrl.is_visible = false;
                ctrl.hide_requested = false;
                self.key_input_buffer.clear();
                self.selected_main_cell_index = None;
                self.display_mode = DisplayMode::MainGrid;
                self.is_hiding_to_perform_click = self.pending_click_pos_after_hide.is_some();
                if self.is_hiding_to_perform_click {
                    self.hide_initiated_at = Some(now_ms);
                }
                proof {
                    let (v2, _, _, _) = hide_step(old(self)@, *old(ctrl), now_ms);
                    assert(self@ =~~= v2);
                }
                (true, true)
            } else {
                ctrl.hide_requested = false;
                self.pending_click_pos_after_hide = None;
                self.is_hiding_to_perform_click = false;
                self.hide_initiated_at = None;
                proof {
                    let (v2, _, _, _) = hide_step(old(self)@, *old(ctrl), now_ms);
                    assert(self@ =~~= v2);
                }
                (false, false)
            }
        } else {
            (false, false)
        }
    }

    /// Service the deferred click; reports the click to post, if its delay
    /// has passed, and whether the tick is still waiting out the delay.
    fn apply_deferred(&mut self, ctrl: &mut EframeControl, now_ms: u64, lshift_held: bool) -> (r: (
        Option<ClickCommand>,
        bool,
    ))
        requires
            time_ok(old(self)@, now_ms),
        ensures
            ({
                let (v2, c2, fire, waiting) = deferred_step(
                    old(self)@,
                    *old(ctrl),
                    now_ms,
                    lshift_held,
                );
                &&& final(self)@ == v2
                &&& *final(ctrl) == c2
                &&& r == (fire, waiting)
            }),
    {
        if self.is_hiding_to_perform_click {
            match self.hide_initiated_at {
                Some(t0) => {
                    if now_ms - t0 >= DEFERRED_CLICK_DELAY_MS {
                        let fire = match self.pending_click_pos_after_hide {
                            Some(p) => Some(
                                ClickCommand {
                                    point: p,
                                    button: if lshift_held {
                                        MouseButton::Right
                                    } else {
                                        MouseButton::Left
                                    },
                                },
                            ),
                            None => None,
                        };
                        self.display_mode = DisplayMode::MainGrid;
                        self.key_input_buffer.clear();
                        self.selected_main_cell_index = None;
                        self.is_hiding_to_perform_click = false;
                        self.hide_initiated_at = None;
                        self.pending_click_pos_after_hide = None;
                        ctrl.hide_requested = false;
                        proof {
                            let (v2, _, _, _) = deferred_step(
                                old(self)@,
                                *old(ctrl),
                                now_ms,
                                lshift_held,
                            );
                            assert(self@ =~~= v2);
                        }
                        (fire, false)
                    } else {
                        (None, true)
                    }
                },
                None => {
                    self.is_hiding_to_perform_click = false;
                    self.pending_click_pos_after_hide = None;
                    ctrl.hide_requested = false;
                    proof {
                        let (v2, _, _, _) = deferred_step(
                            old(self)@,
                            *old(ctrl),
                            now_ms,
                            lshift_held,
                        );
                        assert(self@ =~~= v2);
                    }
                    (None, false)
                },
            }
        } else {
            (None, false)
        }
    }

    /// Redo the grid layout when the window's content rectangle changed.
    fn apply_relayout(&mut self, content_w: i32, content_h: i32)
        requires
            0 <= content_w,
            0 <= content_h,
            nav_inv(old(self)@),
        ensures
            final(self)@ == relayout_step(
                old(self)@,
                Rect { x: 0, y: 0, w: content_w, h: content_h },
            ),
            nav_inv(final(self)@),
            final(self)@.last_layout_rect == Some(
                Rect { x: 0, y: 0, w: content_w, h: content_h },
            ),
            final(self)@.hide_initiated_at == old(self)@.hide_initiated_at,
    {
        let content = Rect { x: 0, y: 0, w: content_w, h: content_h };
        let same_rect = match self.last_layout_rect {
            Some(r) => r == content,
            None => false,
        };
        if self.main_grid_rects.is_empty() || !same_rect {
            let (labels, rects) = generate_main_grid_layout(MAIN_GRID_COLS, MAIN_GRID_ROWS, content);
            self.main_grid_labels = labels;
            self.main_grid_rects = rects;
            self.last_layout_rect = Some(content);
            proof {
                lemma_main_labels_views(
                    self.main_grid_labels@,
                    MAIN_GRID_COLS as int,
                    MAIN_GRID_ROWS as int,
                );
                lemma_rects_seq_of_ok(
                    self.main_grid_rects@,
                    content,
                    MAIN_GRID_COLS as int,
                    MAIN_GRID_ROWS as int,
                );
                lemma_rects_seq_within(content, MAIN_GRID_COLS as int, MAIN_GRID_ROWS as int);
                assert forall|j: int| 0 <= j < self.main_grid_rects@.len()
                    implies (#[trigger] self.main_grid_rects@[j]).wf()
                        && self.main_grid_rects@[j].spec_within(content) by {
                    assert(self.main_grid_rects@[j] == rects_seq(
                        content,
                        MAIN_GRID_COLS as int,
                        MAIN_GRID_ROWS as int,
                    )[j]);
                }
                assert(rects_within(self.main_grid_rects@, content));
            }
            if self.display_mode == DisplayMode::SubGrid {
                let fallback = match self.selected_main_cell_index {
                    Some(idx) => {
                        if idx < self.main_grid_rects.len() {
                            let cell = self.main_grid_rects[idx];
                            proof {
                                assert(cell == self.main_grid_rects@[idx as int]);
                                assert(cell.wf() && cell.spec_within(content));
                            }
                            let (sl, sr) = generate_sub_grid_layout(
                                cell,
                                SUB_GRID_COLS,
                                SUB_GRID_ROWS,
                            );
                            self.sub_grid_labels = sl;
                            self.sub_grid_rects = sr;
                            proof {
                                lemma_sub_labels_views(
                                    self.sub_grid_labels@,
                                    SUB_GRID_COLS as int,
                                    SUB_GRID_ROWS as int,
                                );
                                lemma_rects_seq_of_ok(
                                    self.sub_grid_rects@,
                                    cell,
                                    SUB_GRID_COLS as int,
                                    SUB_GRID_ROWS as int,
                                );
                                lemma_rects_seq_within(
                                    cell,
                                    SUB_GRID_COLS as int,
                                    SUB_GRID_ROWS as int,
                                );
                                assert forall|j: int| 0 <= j < self.sub_grid_rects@.len()
                                    implies (#[trigger] self.sub_grid_rects@[j]).wf()
                                        && self.sub_grid_rects@[j].spec_within(content) by {
                                    assert(self.sub_grid_rects@[j] == rects_seq(
                                        cell,
                                        SUB_GRID_COLS as int,
                                        SUB_GRID_ROWS as int,
                                    )[j]);
                                }
                                assert(rects_within(self.sub_grid_rects@, content));
                            }
                            false
                        } else {
                            true
                        }
                    },
                    None => true,
                };
                if fallback {
                    self.display_mode = DisplayMode::MainGrid;
                }
            }
            proof {
                assert(self@ =~~= relayout_step(old(self)@, content));
            }
        }
    }

    /// Feed the tick's local key events through the grid the display mode
    /// selects; a click request ends the processing and returns the global
    /// point the pointer should move to.
    fn apply_keys(&mut self, ctrl: &mut EframeControl, input: &TickInput) -> (mv: Option<Point>)
        requires
            input.wf(),
            nav_inv(old(self)@),
            old(self)@.last_layout_rect == Some(input.content_rect()),
        ensures
            ({
                let (v2, c2, m) = keys_step(
                    old(self)@,
                    *old(ctrl),
                    input.window_origin,
                    input.keys@,
                );
                &&& final(self)@ == v2
                &&& *final(ctrl) == c2
                &&& mv == m
            }),
            nav_inv(final(self)@),
            final(self)@.hide_initiated_at == old(self)@.hide_initiated_at,
    {
        let ghost v0 = self@;
        let ghost c0 = *ctrl;
        let ghost content = input.content_rect();
        let n = input.keys.len();
        proof {
            assert(input.keys@.skip(0) =~= input.keys@);
        }
        if self.display_mode == DisplayMode::MainGrid {
            let mut i: usize = 0;
            while i < n
                invariant
                    n == input.keys@.len(),
                    i <= n,
                    input.wf(),
                    content == input.content_rect(),
                    nav_inv(self@),
                    self@.last_layout_rect == Some(content),
                    self@.hide_initiated_at == v0.hide_initiated_at,
                    main_keys_fold(v0, input.keys@) == main_keys_fold(
                        self@,
                        input.keys@.skip(i as int),
                    ),
                decreases n - i,
            {
                let ghost prev = self@;
                let k = input.keys[i];
                match key_to_char(k) {
                    Some(ch) => {
                        self.key_input_buffer.push(ch);
                        if self.key_input_buffer.len() == 2 {
                            match find_label(&self.main_grid_labels, &self.key_input_buffer) {
                                Some(index) => {
                                    self.selected_main_cell_index = Some(index);
                                    self.display_mode = DisplayMode::SubGrid;
                                    self.key_input_buffer.clear();
                                    if index < self.main_grid_rects.len() {
                                        let cell = self.main_grid_rects[index];
                                        proof {
                                            assert(cell == self.main_grid_rects@[index as int]);
                                            assert(cell.wf() && cell.spec_within(content));
                                        }
                                        let (sl, sr) = generate_sub_grid_layout(
                                            cell,
                                            SUB_GRID_COLS,
                                            SUB_GRID_ROWS,
                                        );
                                        self.sub_grid_labels = sl;
                                        self.sub_grid_rects = sr;
                                        proof {
                                            lemma_sub_labels_views(
                                                self.sub_grid_labels@,
                                                SUB_GRID_COLS as int,
                                                SUB_GRID_ROWS as int,
                                            );
                                            lemma_rects_seq_of_ok(
                                                self.sub_grid_rects@,
                                                cell,
                                                SUB_GRID_COLS as int,
                                                SUB_GRID_ROWS as int,
                                            );
                                            lemma_rects_seq_within(
                                                cell,
                                                SUB_GRID_COLS as int,
                                                SUB_GRID_ROWS as int,
                                            );
                                            assert forall|j: int| 0 <= j < self.sub_grid_rects@.len()
                                                implies (#[trigger] self.sub_grid_rects@[j]).wf()
                                                    && self.sub_grid_rects@[j].spec_within(content) by {
                                                assert(self.sub_grid_rects@[j] == rects_seq(
                                                    cell,
                                                    SUB_GRID_COLS as int,
                                                    SUB_GRID_ROWS as int,
                                                )[j]);
                                            }
                                            assert(rects_within(self.sub_grid_rects@, content));
                                        }
                                    } else {
                                        self.display_mode = DisplayMode::MainGrid;
                                    }
                                },
                                None => {
                                    self.key_input_buffer.clear();
                                },
                            }
                        }
                    },
                    None => {},
                }
                proof {
                    assert(self@ =~~= main_keys_step(prev, k));
                    assert(input.keys@.skip(i as int)[0] == input.keys@[i as int]);
                    assert(input.keys@.skip(i as int).skip(1) =~= input.keys@.skip(i as int + 1));
                }
                i = i + 1;
            }
            proof {
                assert(input.keys@.skip(n as int) =~= Seq::<Key>::empty());
            }
            None
        } else {
            let mut i: usize = 0;
            let mut mv: Option<Point> = None;
            while i < n
                invariant_except_break
                    n == input.keys@.len(),
                    i <= n,
                    input.wf(),
                    content == input.content_rect(),
                    nav_inv(self@),
                    self@ == v0,
                    *ctrl == c0,
                    mv is None,
                    self@.last_layout_rect == Some(content),
                    v0.display_mode == DisplayMode::SubGrid,
                    sub_keys_fold(v0, input.window_origin, input.keys@) == sub_keys_fold(
                        self@,
                        input.window_origin,
                        input.keys@.skip(i as int),
                    ),
                ensures
                    ({
                        let (v2, h2, m2, _cl) = sub_keys_fold(
                            v0,
                            input.window_origin,
                            input.keys@,
                        );
                        &&& self@ == v2
                        &&& *ctrl == (if h2 {
                            EframeControl { hide_requested: true, ..c0 }
                        } else {
                            c0
                        })
                        &&& mv == m2
                        &&& nav_inv(self@)
                        &&& self@.hide_initiated_at == v0.hide_initiated_at
                    }),
                decreases n - i,
            {
                let k = input.keys[i];
                proof {
                    assert(input.keys@.skip(i as int)[0] == input.keys@[i as int]);
                    assert(input.keys@.skip(i as int).skip(1) =~= input.keys@.skip(i as int + 1));
                }
                if k == Key::Space {
                    match self.selected_main_cell_index {
                        Some(mi) => {
                            if mi < self.main_grid_rects.len() {
                                let cell = self.main_grid_rects[mi];
                                proof {
                                    assert(cell == self@.main_grid_rects[mi as int]);
                                    assert(cell.wf() && cell.spec_within(content));
                                }
                                mv = self.request_click(ctrl, input, cell);
                                break;
                            }
                        },
                        None => {},
                    }
                }
                match key_to_char(k) {
                    Some(ch) => {
                        let mut single: Vec<char> = Vec::new();
                        single.push(ch);
                        proof {
                            assert(single@ =~= seq![ch]);
                        }
                        match find_label(&self.sub_grid_labels, &single) {
                            Some(si) => {
                                if si < self.sub_grid_rects.len() {
                                    let cell = self.sub_grid_rects[si];
                                    proof {
                                        assert(cell == self@.sub_grid_rects[si as int]);
                                        assert(cell.wf() && cell.spec_within(content));
                                    }
                                    mv = self.request_click(ctrl, input, cell);
                                    break;
                                }
                            },
                            None => {},
                        }
                    },
                    None => {},
                }
                i = i + 1;
            }
            proof {
                assert(input.keys@.skip(n as int) =~= Seq::<Key>::empty());
            }
            mv
        }
    }

    /// Schedule a click at the center of `cell`: emit the global point to
    /// move the pointer to, or abandon the click and hide when the host
    /// cannot report the window origin.
    fn request_click(&mut self, ctrl: &mut EframeControl, input: &TickInput, cell: Rect) -> (mv:
        Option<Point>)
        requires
            input.wf(),
            cell.wf(),
            cell.spec_within(input.content_rect()),
        ensures
            ({
                let (v2, h, m) = click_request(
                    old(self)@,
                    input.window_origin,
                    cell.spec_center(),
                );
                &&& final(self)@ == v2
                &&& *final(ctrl) == (if h {
                    EframeControl { hide_requested: true, ..*old(ctrl) }
                } else {
                    *old(ctrl)
                })
                &&& mv == m
            }),
    {
        let rel = cell.center();
        match input.window_origin {
            Some(o) => {
                proof {
                    assert(0 <= rel.x <= input.content_w);
                    assert(0 <= rel.y <= input.content_h);
                }
                let gx = o.x + rel.x;
                let gy = o.y + rel.y;
                Some(Point { x: gx, y: gy })
            },
            None => {
                self.pending_click_pos_after_hide = None;
                ctrl.hide_requested = true;
                proof {
                    let (v2, _, _) = click_request(old(self)@, input.window_origin, cell.spec_center());
                    assert(self@ =~~= v2);
                }
                None
            },
        }
    }

    /// One render tick of the overlay navigator. `ctrl` holds the snapshot
    /// of the shared flags taken just before the call; the caller stores
    /// the result back, carries out the commands in `out`, and reports a
    /// pointer-move outcome through `note_pointer_move`. The clock must be
    /// monotone from tick to tick.
    pub fn tick(&mut self, ctrl: &mut EframeControl, input: &TickInput) -> (out: TickOutput)
        requires
            input.wf(),
            nav_inv(old(self)@),
            time_ok(old(self)@, input.now_ms),
        ensures
            ({
                let (v2, c2, o) = tick_spec(old(self)@, *old(ctrl), *input);
                &&& final(self)@ == v2
                &&& *final(ctrl) == c2
                &&& out == o
            }),
            nav_inv(final(self)@),
            time_ok(final(self)@, input.now_ms),
    {
        let shown = self.apply_receive(ctrl, input.event);
        let (hid, early) = self.apply_hide(ctrl, input.now_ms);
        let sv: Option<bool> = if shown {
            Some(true)
        } else if hid {
            Some(false)
        } else {
            None
        };
        if early {
            return TickOutput {
                set_visible: sv,
                request_focus: shown,
                move_pointer_to: None,
                fire_click: None,
                repaint_after_ms: None,
                repaint_now: false,
                paint: false,
            };
        }
        let (fire, waiting) = self.apply_deferred(ctrl, input.now_ms, input.lshift_held);
        if !ctrl.is_visible && !self.is_hiding_to_perform_click {
            return TickOutput {
                set_visible: sv,
                request_focus: shown,
                move_pointer_to: None,
                fire_click: fire,
                repaint_after_ms: Some(HIDDEN_REPAINT_MS),
                repaint_now: false,
                paint: false,
            };
        }
        self.apply_relayout(input.content_w, input.content_h);
        let mv = self.apply_keys(ctrl, input);
        TickOutput {
            set_visible: sv,
            request_focus: shown,
            move_pointer_to: mv,
            fire_click: fire,
            repaint_after_ms: if waiting {
                Some(CLICK_WAIT_REPAINT_MS)
            } else {
                None
            },
            repaint_now: true,
            paint: true,
        }
    }

    /// Complete a scheduled click after the host attempted the pointer
    /// move: a successful move queues the click point for the deferred
    /// click, a failed one abandons the click. Either way the overlay is
    /// asked to hide, as the original selection is spent.
    pub fn note_pointer_move(&mut self, ctrl: &mut EframeControl, target: Point, moved_ok: bool)
        ensures
            final(self)@ == (NavView {
                pending_click_pos_after_hide: if moved_ok {
                    Some(target)
                } else {
                    None::<Point>
                },
                ..old(self)@
            }),
            *final(ctrl) == (EframeControl { hide_requested: true, ..*old(ctrl) }),
            nav_inv(old(self)@) ==> nav_inv(final(self)@),
            forall|now: u64| time_ok(old(self)@, now) ==> time_ok(final(self)@, now),
    {
        self.pending_click_pos_after_hide = if moved_ok {
            Some(target)
        } else {
            None
        };
        ctrl.hide_requested = true;
        proof {
            assert(self@ =~~= (NavView {
                pending_click_pos_after_hide: if moved_ok {
                    Some(target)
                } else {
                    None::<Point>
                },
                ..old(self)@
            }));
        }
    }
}

/// When the content rectangle changed, or no layout exists yet, recompute
/// the main grid for the new size; while the sub-grid is active, recompute
/// it inside the (possibly shifted) selected cell, or fall back to the
/// main grid when the retained selection no longer names a cell.
pub open spec fn relayout_step(v: NavView, content: Rect) -> NavView {
    if v.main_grid_rects.len() == 0 || v.last_layout_rect != Some(content) {
        let mr = rects_seq(content, MAIN_GRID_COLS as int, MAIN_GRID_ROWS as int);
        let v1 = NavView {
            main_grid_labels: main_labels_seq(MAIN_GRID_COLS as int, MAIN_GRID_ROWS as int),
            main_grid_rects: mr,
            last_layout_rect: Some(content),
            ..v
        };
        if v.display_mode == DisplayMode::SubGrid {
            match v.selected_main_cell_index {
                Option::Some(idx) => {
                    if 0 <= idx < mr.len() {
                        NavView {
                            sub_grid_labels: sub_labels_seq(
                                SUB_GRID_COLS as int,
                                SUB_GRID_ROWS as int,
                            ),
                            sub_grid_rects: rects_seq(
                                mr[idx],
                                SUB_GRID_COLS as int,
                                SUB_GRID_ROWS as int,
                            ),
                            ..v1
                        }
                    } else {
                        NavView { display_mode: DisplayMode::MainGrid, ..v1 }
                    }
                },
                Option::None => NavView { display_mode: DisplayMode::MainGrid, ..v1 },
            }
        } else {
            v1
        }
    } else {
        v
    }
}

/// Schedule a click at a window-local point: with a known window origin
/// the click point becomes global and a pointer-move command is emitted
/// (its outcome completes the scheduling through `note_pointer_move`);
/// without an origin the click is abandoned and the overlay just hides.
pub open spec fn click_request(v: NavView, origin: Option<Point>, rel: Point) -> (
    NavView,
    bool,
    Option<Point>,
) {
    match origin {
        Option::Some(o) => (
            v,
            false,
            Some(Point { x: (o.x + rel.x) as i32, y: (o.y + rel.y) as i32 }),
        ),
        Option::None => (NavView { pending_click_pos_after_hide: None, ..v }, true, None),
    }
}

/// One key while the main grid is active: letters accumulate in the
/// buffer; the second letter either selects the labeled cell, entering the
/// sub-grid scoped to it, or clears the buffer when no cell has that
/// label.
pub open spec fn main_keys_step(v: NavView, k: Key) -> NavView {
    match key_char(k) {
        Option::Some(ch) => {
            let buf = v.key_input_buffer.push(ch);
            if buf.len() == 2 {
                match find_label_index(v.main_grid_labels, buf) {
                    Option::Some(idx) => {
                        if idx < v.main_grid_rects.len() {
                            NavView {
                                selected_main_cell_index: Some(idx),
                                display_mode: DisplayMode::SubGrid,
                                key_input_buffer: Seq::empty(),
                                sub_grid_labels: sub_labels_seq(
                                    SUB_GRID_COLS as int,
                                    SUB_GRID_ROWS as int,
                                ),
                                sub_grid_rects: rects_seq(
                                    v.main_grid_rects[idx],
                                    SUB_GRID_COLS as int,
                                    SUB_GRID_ROWS as int,
                                ),
                                ..v
                            }
                        } else {
                            NavView {
                                selected_main_cell_index: Some(idx),
                                display_mode: DisplayMode::MainGrid,
                                key_input_buffer: Seq::empty(),
                                ..v
                            }
                        }
                    },
                    Option::None => NavView { key_input_buffer: Seq::empty(), ..v },
                }
            } else {
                NavView { key_input_buffer: buf, ..v }
            }
        },
        Option::None => v,
    }
}

/// All of a tick's keys, in order, while the main grid is active.
pub open spec fn main_keys_fold(v: NavView, keys: Seq<Key>) -> NavView
    decreases keys.len(),
{
    if keys.len() == 0 {
        v
    } else {
        main_keys_fold(main_keys_step(v, keys[0]), keys.skip(1))
    }
}

/// One key while the sub-grid is active: the confirm key clicks the center
/// of the selected main cell, a letter naming a sub-cell clicks that
/// cell's center, and anything else does nothing. The flag reports whether
/// a click was requested (which ends the tick's key processing).
pub open spec fn sub_keys_step(v: NavView, origin: Option<Point>, k: Key) -> (
    NavView,
    bool,
    Option<Point>,
    bool,
) {
    if k == Key::Space && v.selected_main_cell_index is Some && v.selected_main_cell_index->0
        < v.main_grid_rects.len() {
        let (v2, h, m) = click_request(
            v,
            origin,
            v.main_grid_rects[v.selected_main_cell_index->0].spec_center(),
        );
        (v2, h, m, true)
    } else {
        match key_char(k) {
            Option::Some(ch) => match find_label_index(v.sub_grid_labels, seq![ch]) {
                Option::Some(si) => {
                    if si < v.sub_grid_rects.len() {
                        let (v2, h, m) = click_request(
                            v,
                            origin,
                            v.sub_grid_rects[si].spec_center(),
                        );
                        (v2, h, m, true)
                    } else {
                        (v, false, None, false)
                    }
                },
                Option::None => (v, false, None, false),
            },
            Option::None => (v, false, None, false),
        }
    }
}

/// A tick's keys while the sub-grid is active, stopping at the first
/// click.
pub open spec fn sub_keys_fold(v: NavView, origin: Option<Point>, keys: Seq<Key>) -> (
    NavView,
    bool,
    Option<Point>,
    bool,
)
    decreases keys.len(),
{
    if keys.len() == 0 {
        (v, false, None, false)
    } else {
        let (v1, h1, m1, clicked) = sub_keys_step(v, origin, keys[0]);
        if clicked {
            (v1, h1, m1, true)
        } else {
            sub_keys_fold(v1, origin, keys.skip(1))
        }
    }
}

/// The tick's key phase: the branch is chosen by the display mode the
/// relayout left behind, and a sub-grid click may raise the hide request.
pub open spec fn keys_step(
    v: NavView,
    c: EframeControl,
    origin: Option<Point>,
    keys: Seq<Key>,
) -> (NavView, EframeControl, Option<Point>) {
    if v.display_mode == DisplayMode::MainGrid {
        (main_keys_fold(v, keys), c, None)
    } else {
        let (v2, set_hide, mv, _clicked) = sub_keys_fold(v, origin, keys);
        (
            v2,
            if set_hide {
                EframeControl { hide_requested: true, ..c }
            } else {
                c
            },
            mv,
        )
    }
}

/// One full render tick, composed of the phases in order: signal intake,
/// hide handling (which may end the tick at once), the deferred click, the
/// hidden-idle early end, relayout, and key processing.
pub open spec fn tick_spec(v: NavView, c: EframeControl, input: TickInput) -> (
    NavView,
    EframeControl,
    TickOutput,
) {
    let (v1, c1, shown) = receive_step(v, c, input.event);
    let (v2, c2, hid, early) = hide_step(v1, c1, input.now_ms);
    let sv = if shown {
        Some(true)
    } else if hid {
        Some(false)
    } else {
        None::<bool>
    };
    if early {
        (
            v2,
            c2,
            TickOutput {
                set_visible: sv,
                request_focus: shown,
                move_pointer_to: None,
                fire_click: None,
                repaint_after_ms: None,
                repaint_now: false,
                paint: false,
            },
        )
    } else {
        let (v3, c3, fire, waiting) = deferred_step(v2, c2, input.now_ms, input.lshift_held);
        if !c3.is_visible && !v3.is_hiding_to_perform_click {
            (
                v3,
                c3,
                TickOutput {
                    set_visible: sv,
                    request_focus: shown,
                    move_pointer_to: None,
                    fire_click: fire,
                    repaint_after_ms: Some(HIDDEN_REPAINT_MS),
                    repaint_now: false,
                    paint: false,
                },
            )
        } else {
            let v4 = relayout_step(v3, input.content_rect());
            let (v5, c5, mv) = keys_step(v4, c3, input.window_origin, input.keys@);
            (
                v5,
                c5,
                TickOutput {
                    set_visible: sv,
                    request_focus: shown,
                    move_pointer_to: mv,
                    fire_click: fire,
                    repaint_after_ms: if waiting {
                        Some(CLICK_WAIT_REPAINT_MS)
                    } else {
                        None::<u64>
                    },
                    repaint_now: true,
                    paint: true,
                },
            )
        }
    }
}

/// The view of the freshly constructed navigator.
pub open spec fn initial_nav_view() -> NavView {
    NavView {
        display_mode: DisplayMode::MainGrid,
        key_input_buffer: Seq::empty(),
        selected_main_cell_index: None,
        main_grid_labels: main_labels_seq(MAIN_GRID_COLS as int, MAIN_GRID_ROWS as int),
        main_grid_rects: Seq::empty(),
        sub_grid_labels: Seq::empty(),
        sub_grid_rects: Seq::empty(),
        last_layout_rect: None,
        is_hiding_to_perform_click: false,
        hide_initiated_at: None,
        pending_click_pos_after_hide: None,
    }
}

/// The index of the first label equal to `target`, if any.
pub open spec fn find_label_index(labels: Seq<Seq<char>>, target: Seq<char>) -> Option<int>
    decreases labels.len(),
{
    if labels.len() == 0 {
        None
    } else if labels[0] == target {
        Some(0)
    } else {
        match find_label_index(labels.skip(1), target) {
            Option::Some(i) => Some(i + 1),
            Option::None => None,
        }
    }
}

/// `find_label_index` returns the first match: a found index holds the
/// target with no earlier match, and an absent result means no label
/// matches at all.
pub proof fn lemma_find_label_index_spec(labels: Seq<Seq<char>>, target: Seq<char>)
    ensures
        match find_label_index(labels, target) {
            Option::Some(i) => 0 <= i < labels.len() && labels[i] == target && forall|j: int|
                0 <= j < i ==> labels[j] != target,
            Option::None => forall|j: int| 0 <= j < labels.len() ==> labels[j] != target,
        },
    decreases labels.len(),
{
    if labels.len() != 0 && labels[0] != target {
        let rest = labels.skip(1);
        lemma_find_label_index_spec(rest, target);
        match find_label_index(rest, target) {
            Option::Some(i) => {
                assert(rest[i] == labels[i + 1]);
                assert forall|j: int| 0 <= j < i + 1 implies labels[j] != target by {
                    if j > 0 {
                        assert(rest[j - 1] == labels[j]);
                    }
                }
            },
            Option::None => {
                assert forall|j: int| 0 <= j < labels.len() implies labels[j] != target by {
                    if j > 0 {
                        assert(rest[j - 1] == labels[j]);
                    }
                }
            },
        }
    }
}

/// Whether a label holds exactly the buffered characters.
fn label_matches(label: &String, buf: &Vec<char>) -> (r: bool)
    ensures
        r == (label@ == buf@),
{
    let s = label.as_str();
    let n = s.unicode_len();
    if n != buf.len() {
        return false;
    }
    let mut i: usize = 0;
    while i < n
        invariant
            n == s@.len(),
            n == buf@.len(),
            label@ == s@,
            i <= n,
            forall|j: int| 0 <= j < i ==> s@[j] == buf@[j],
        decreases n - i,
    {
        if s.get_char(i) != buf[i] {
            return false;
        }
        i = i + 1;
    }
    proof {
        assert(label@ =~= buf@);
    }
    true
}

/// The index of the first label equal to the buffer, if any.
fn find_label(labels: &Vec<String>, buf: &Vec<char>) -> (r: Option<usize>)
    ensures
        match r {
            Option::Some(i) => find_label_index(label_views(labels@), buf@) == Some(i as int),
            Option::None => find_label_index(label_views(labels@), buf@) is None,
        },
{
    let n = labels.len();
    let mut i: usize = 0;
    while i < n
        invariant
            n == labels@.len(),
            i <= n,
            forall|j: int| 0 <= j < i ==> label_views(labels@)[j] != buf@,
        decreases n - i,
    {
        if label_matches(&labels[i], buf) {
            proof {
                assert(label_views(labels@)[i as int] == buf@);
                lemma_find_label_index_spec(label_views(labels@), buf@);
                match find_label_index(label_views(labels@), buf@) {
                    Option::Some(j) => {
                        if j < i {
                            assert(label_views(labels@)[j] != buf@);
                        }
                        if j > i {
                            assert(label_views(labels@)[i as int] != buf@);
                        }
                    },
                    Option::None => {
                        assert(label_views(labels@)[i as int] != buf@);
                    },
                }
            }
            return Some(i);
        }
        i = i + 1;
    }
    proof {
        lemma_find_label_index_spec(label_views(labels@), buf@);
    }
    None
}

/// State machine, label selection. From the main grid with an empty input
/// buffer, typing the exact two-character label of cell `k` selects that
/// cell and enters the sub-grid scoped to it (computed over cell `k`'s
/// rectangle); typing two characters that name no cell returns to the main
/// grid with the buffer cleared and nothing else changed.
pub proof fn lemma_main_grid_label_selection(v: NavView, ka: Key, kb: Key, ca: char, cb: char)
    requires
        v.display_mode == DisplayMode::MainGrid,
        v.key_input_buffer == Seq::<char>::empty(),
        key_char(ka) == Some(ca),
        key_char(kb) == Some(cb),
    ensures
        ({
            let v2 = main_keys_fold(v, seq![ka, kb]);
            match find_label_index(v.main_grid_labels, seq![ca, cb]) {
                Option::Some(k) => {
                    &&& (k < v.main_grid_rects.len() ==> v2 == (NavView {
                        selected_main_cell_index: Some(k),
                        display_mode: DisplayMode::SubGrid,
                        key_input_buffer: Seq::empty(),
                        sub_grid_labels: sub_labels_seq(SUB_GRID_COLS as int, SUB_GRID_ROWS as int),
                        sub_grid_rects: rects_seq(
                            v.main_grid_rects[k],
                            SUB_GRID_COLS as int,
                            SUB_GRID_ROWS as int,
                        ),
                        ..v
                    }))
                    &&& (k >= v.main_grid_rects.len() ==> v2 == (NavView {
                        selected_main_cell_index: Some(k),
                        display_mode: DisplayMode::MainGrid,
                        key_input_buffer: Seq::empty(),
                        ..v
                    }))
                },
                Option::None => v2 == (NavView { key_input_buffer: Seq::empty(), ..v }),
            }
        }),
{
    let s = seq![ka, kb];
    assert(s.skip(1) =~= seq![kb]);
    assert(seq![kb].skip(1) =~= Seq::<Key>::empty());
    let v1 = main_keys_step(v, ka);
    assert(v.key_input_buffer.push(ca).len() == 1);
    assert(v1 == (NavView { key_input_buffer: v.key_input_buffer.push(ca), ..v }));
    let buf = v1.key_input_buffer.push(cb);
    assert(buf =~= seq![ca, cb]);
    let v2 = main_keys_step(v1, kb);
    assert(s[0] == ka && s[1] == kb);
    assert(main_keys_fold(v, s) == main_keys_fold(v1, s.skip(1)));
    assert(main_keys_fold(v1, seq![kb]) == main_keys_fold(v2, seq![kb].skip(1)));
    assert(main_keys_fold(v2, Seq::<Key>::empty()) == v2);
    assert(main_keys_fold(v, s) == v2);
    match find_label_index(v.main_grid_labels, seq![ca, cb]) {
        Option::Some(k) => {
            if k < v.main_grid_rects.len() {
                assert(v2 =~~= (NavView {
                    selected_main_cell_index: Some(k),
                    display_mode: DisplayMode::SubGrid,
                    key_input_buffer: Seq::empty(),
                    sub_grid_labels: sub_labels_seq(SUB_GRID_COLS as int, SUB_GRID_ROWS as int),
                    sub_grid_rects: rects_seq(
                        v.main_grid_rects[k],
                        SUB_GRID_COLS as int,
                        SUB_GRID_ROWS as int,
                    ),
                    ..v
                }));
            } else {
                assert(v2 =~~= (NavView {
                    selected_main_cell_index: Some(k),
                    display_mode: DisplayMode::MainGrid,
                    key_input_buffer: Seq::empty(),
                    ..v
                }));
            }
        },
        Option::None => {
            assert(v2 =~~= (NavView { key_input_buffer: Seq::empty(), ..v }));
        },
    }
}

/// Deferred click, firing conditions. A tick posts the deferred click
/// only out of the hiding-for-click state — reached only by hiding the
/// overlay with a click queued, so the overlay was already reported
/// hidden when the tick began — and only once the full delay has passed
/// since the hide began. Conversely, when the state holds a queued click
/// whose delay has elapsed and no new hide request interferes, the click
/// is posted, at the queued point, with the button the modifier snapshot
/// selects.
pub proof fn lemma_deferred_click_guard(v: NavView, c: EframeControl, input: TickInput)
    requires
        v.is_hiding_to_perform_click ==> !c.is_visible,
    ensures
        ({
            let (v2, c2, out) = tick_spec(v, c, input);
            &&& (out.fire_click is Some ==> {
                &&& v.is_hiding_to_perform_click
                &&& !c.is_visible
                &&& v.pending_click_pos_after_hide is Some
                &&& v.hide_initiated_at is Some
                &&& input.now_ms - v.hide_initiated_at->0 >= DEFERRED_CLICK_DELAY_MS
            })
            &&& ((v.is_hiding_to_perform_click && v.pending_click_pos_after_hide is Some
                && v.hide_initiated_at is Some && input.now_ms - v.hide_initiated_at->0
                >= DEFERRED_CLICK_DELAY_MS && !c.hide_requested) ==> out.fire_click == Some(
                ClickCommand {
                    point: v.pending_click_pos_after_hide->0,
                    button: if input.lshift_held {
                        MouseButton::Right
                    } else {
                        MouseButton::Left
                    },
                },
            ))
        }),
{
    let (v1, c1, shown) = receive_step(v, c, input.event);
    let (v2, c2, hid, early) = hide_step(v1, c1, input.now_ms);
    assert(v1.is_hiding_to_perform_click == v.is_hiding_to_perform_click);
    assert(v1.pending_click_pos_after_hide == v.pending_click_pos_after_hide);
    assert(v1.hide_initiated_at == v.hide_initiated_at);
    let (tv, tc, out) = tick_spec(v, c, input);
    if early {
        assert(out.fire_click is None);
    } else {
        let (v3, c3, fire, waiting) = deferred_step(v2, c2, input.now_ms, input.lshift_held);
        assert(out.fire_click == fire);
        if fire is Some {
            assert(v2.is_hiding_to_perform_click);
            assert(v2.is_hiding_to_perform_click == v.is_hiding_to_perform_click);
            assert(v2.pending_click_pos_after_hide == v.pending_click_pos_after_hide);
            assert(v2.hide_initiated_at == v.hide_initiated_at);
            assert(!c.is_visible);
        }
        if v.is_hiding_to_perform_click && v.pending_click_pos_after_hide is Some
            && v.hide_initiated_at is Some && input.now_ms - v.hide_initiated_at->0
            >= DEFERRED_CLICK_DELAY_MS && !c.hide_requested {
            assert(!c1.hide_requested);
            assert(v2 == v1);
            assert(fire == Some(
                ClickCommand {
                    point: v.pending_click_pos_after_hide->0,
                    button: if input.lshift_held {
                        MouseButton::Right
                    } else {
                        MouseButton::Left
                    },
                },
            ));
        }
    }
}

/// The main-grid key branch never changes the hiding flag.
proof fn lemma_main_keys_fold_keeps_hiding(v: NavView, keys: Seq<Key>)
    ensures
        main_keys_fold(v, keys).is_hiding_to_perform_click == v.is_hiding_to_perform_click,
    decreases keys.len(),
{
    if keys.len() != 0 {
        lemma_main_keys_fold_keeps_hiding(main_keys_step(v, keys[0]), keys.skip(1));
    }
}

/// The sub-grid key branch never changes the hiding flag.
proof fn lemma_sub_keys_fold_keeps_hiding(v: NavView, origin: Option<Point>, keys: Seq<Key>)
    ensures
        sub_keys_fold(v, origin, keys).0.is_hiding_to_perform_click
            == v.is_hiding_to_perform_click,
    decreases keys.len(),
{
    if keys.len() != 0 {
        let (v1, h1, m1, clicked) = sub_keys_step(v, origin, keys[0]);
        if !clicked {
            lemma_sub_keys_fold_keeps_hiding(v1, origin, keys.skip(1));
        }
    }
}

/// Deferred click, hidden-overlay invariant. The hiding-for-click state
/// keeps the overlay hidden across ticks, provided no show signal arrives
/// during the wait. (A tap landing inside the wait re-shows the overlay
/// while the scheduled click stays queued; that race is inherited and the
/// invariant does not cover it.)
pub proof fn lemma_hiding_stays_hidden(v: NavView, c: EframeControl, input: TickInput)
    requires
        v.is_hiding_to_perform_click ==> !c.is_visible,
        v.is_hiding_to_perform_click ==> input.event is None,
    ensures
        ({
            let (v2, c2, _out) = tick_spec(v, c, input);
            v2.is_hiding_to_perform_click ==> !c2.is_visible
        }),
{
    let (v1, c1, shown) = receive_step(v, c, input.event);
    let (v2, c2, hid, early) = hide_step(v1, c1, input.now_ms);
    if !early {
        let (v3, c3, fire, waiting) = deferred_step(v2, c2, input.now_ms, input.lshift_held);
        if !(!c3.is_visible && !v3.is_hiding_to_perform_click) {
            let v4 = relayout_step(v3, input.content_rect());
            let (v5, c5, mv) = keys_step(v4, c3, input.window_origin, input.keys@);
            assert(v4.is_hiding_to_perform_click == v3.is_hiding_to_perform_click);
            if v4.display_mode == DisplayMode::MainGrid {
                lemma_main_keys_fold_keeps_hiding(v4, input.keys@);
            } else {
                lemma_sub_keys_fold_keeps_hiding(v4, input.window_origin, input.keys@);
            }
            assert(v5.is_hiding_to_perform_click == v3.is_hiding_to_perform_click);
            assert(c5.is_visible == c3.is_visible);
        }
    }
}

/// Resize fallback. A relayout pass during sub-grid input whose retained
/// selection no longer names a cell of the new main grid (or that has no
/// selection at all) falls back to the main grid.
pub proof fn lemma_resize_stale_selection_falls_back(v: NavView, content: Rect)
    requires
        v.display_mode == DisplayMode::SubGrid,
        v.main_grid_rects.len() == 0 || v.last_layout_rect != Some(content),
        match v.selected_main_cell_index {
            Option::Some(idx) => !(0 <= idx < rects_seq(
                content,
                MAIN_GRID_COLS as int,
                MAIN_GRID_ROWS as int,
            ).len()),
            Option::None => true,
        },
    ensures
        relayout_step(v, content).display_mode == DisplayMode::MainGrid,
{
}

} // verus!
