use mouseless::event_handler::GlobalEvent;
use mouseless::geom::Point;
use mouseless::grid::DisplayMode;
use mouseless::navigator::{
    key_to_char, ClickCommand, EframeControl, Key, MouseButton, NavigatorState, TickInput,
};

fn input(
    event: Option<GlobalEvent>,
    now_ms: u64,
    keys: Vec<Key>,
    lshift_held: bool,
) -> TickInput {
    TickInput {
        event,
        now_ms,
        content_w: 1200,
        content_h: 1200,
        window_origin: Some(Point { x: 10, y: 20 }),
        keys,
        lshift_held,
    }
}

fn shown_navigator(now_ms: u64) -> (NavigatorState, EframeControl) {
    let mut nav = NavigatorState::new();
    let mut ctrl = EframeControl::default();
    let out = nav.tick(
        &mut ctrl,
        &input(Some(GlobalEvent::ShowGrid(None)), now_ms, vec![], false),
    );
    assert_eq!(out.set_visible, Some(true));
    assert!(out.request_focus);
    assert!(ctrl.is_visible);
    (nav, ctrl)
}

#[test]
fn show_signal_brings_overlay_up_fresh() {
    let (nav, ctrl) = shown_navigator(0);
    assert!(ctrl.is_visible);
    assert!(!ctrl.hide_requested);
    assert_eq!(nav.display_mode, DisplayMode::MainGrid);
    assert!(nav.key_input_buffer.is_empty());
    assert_eq!(nav.selected_main_cell_index, None);
    assert_eq!(nav.main_grid_rects.len(), 144);
    assert_eq!(nav.main_grid_labels.len(), 144);
}

#[test]
fn show_signal_while_visible_is_ignored() {
    let (mut nav, mut ctrl) = shown_navigator(0);
    let out = nav.tick(
        &mut ctrl,
        &input(Some(GlobalEvent::ShowGrid(None)), 10, vec![], false),
    );
    assert_eq!(out.set_visible, None);
    assert!(!out.request_focus);
    assert!(ctrl.is_visible);
}

#[test]
fn typing_exact_label_enters_sub_grid() {
    let (mut nav, mut ctrl) = shown_navigator(0);
    // Cell 0 of the main grid is labeled "AH".
    let out = nav.tick(&mut ctrl, &input(None, 10, vec![Key::A, Key::H], false));
    assert_eq!(out.move_pointer_to, None);
    assert_eq!(nav.display_mode, DisplayMode::SubGrid);
    assert_eq!(nav.selected_main_cell_index, Some(0));
    assert!(nav.key_input_buffer.is_empty());
    assert_eq!(nav.sub_grid_rects.len(), 25);
    assert_eq!(nav.sub_grid_labels.len(), 25);
}

#[test]
fn typing_unknown_label_clears_buffer_and_stays() {
    let (mut nav, mut ctrl) = shown_navigator(0);
    // "XX" names no cell: neither alphabet places X at the needed spot.
    nav.tick(&mut ctrl, &input(None, 10, vec![Key::X, Key::X], false));
    assert_eq!(nav.display_mode, DisplayMode::MainGrid);
    assert!(nav.key_input_buffer.is_empty());
    assert_eq!(nav.selected_main_cell_index, None);
}

#[test]
fn single_letter_keeps_buffer() {
    let (mut nav, mut ctrl) = shown_navigator(0);
    nav.tick(&mut ctrl, &input(None, 10, vec![Key::A], false));
    assert_eq!(nav.key_input_buffer, vec!['A']);
    assert_eq!(nav.display_mode, DisplayMode::MainGrid);
}

#[test]
fn full_selection_schedules_click_inside_sub_cell() {
    let (mut nav, mut ctrl) = shown_navigator(0);
    nav.tick(&mut ctrl, &input(None, 10, vec![Key::A, Key::H], false));
    // Sub-cell "A" is the top-left 20 x 20 cell of main cell 0; its center
    // is (10, 10) in window coordinates, so the global click point is the
    // window origin (10, 20) plus that.
    let out = nav.tick(&mut ctrl, &input(None, 20, vec![Key::A], false));
    assert_eq!(out.move_pointer_to, Some(Point { x: 20, y: 30 }));
    // The scheduled point lies inside sub-cell "A" offset by the origin.
    let cell = nav.sub_grid_rects[0];
    let p = out.move_pointer_to.unwrap();
    assert!(cell.x + 10 <= p.x && p.x < cell.x + cell.w + 10);
    assert!(cell.y + 20 <= p.y && p.y < cell.y + cell.h + 20);
    // The host moves the pointer and reports success: the click is queued
    // and a hide is requested.
    nav.note_pointer_move(&mut ctrl, p, true);
    assert_eq!(nav.pending_click_pos_after_hide, Some(p));
    assert!(ctrl.hide_requested);
}

#[test]
fn space_clicks_center_of_selected_main_cell() {
    let (mut nav, mut ctrl) = shown_navigator(0);
    nav.tick(&mut ctrl, &input(None, 10, vec![Key::A, Key::H], false));
    // Main cell 0 is (0, 0, 100, 100): center (50, 50), global (60, 70).
    let out = nav.tick(&mut ctrl, &input(None, 20, vec![Key::Space], false));
    assert_eq!(out.move_pointer_to, Some(Point { x: 60, y: 70 }));
}

#[test]
fn failed_pointer_move_abandons_click_but_hides() {
    let (mut nav, mut ctrl) = shown_navigator(0);
    nav.tick(&mut ctrl, &input(None, 10, vec![Key::A, Key::H], false));
    let out = nav.tick(&mut ctrl, &input(None, 20, vec![Key::A], false));
    nav.note_pointer_move(&mut ctrl, out.move_pointer_to.unwrap(), false);
    assert_eq!(nav.pending_click_pos_after_hide, None);
    assert!(ctrl.hide_requested);
}

#[test]
fn deferred_click_fires_only_after_hide_and_delay() {
    let (mut nav, mut ctrl) = shown_navigator(0);
    nav.tick(&mut ctrl, &input(None, 10, vec![Key::A, Key::H], false));
    let out = nav.tick(&mut ctrl, &input(None, 20, vec![Key::A], false));
    let p = out.move_pointer_to.unwrap();
    nav.note_pointer_move(&mut ctrl, p, true);

    // The window is still visible: even a long-elapsed tick posts nothing,
    // it only hides the window and starts the delay now.
    let out_hide = nav.tick(&mut ctrl, &input(None, 5000, vec![], false));
    assert_eq!(out_hide.set_visible, Some(false));
    assert_eq!(out_hide.fire_click, None);
    assert!(!ctrl.is_visible);
    assert!(nav.is_hiding_to_perform_click);
    assert_eq!(nav.hide_initiated_at, Some(5000));

    // Hidden, but the delay has not passed: nothing is posted.
    let out_wait = nav.tick(&mut ctrl, &input(None, 5149, vec![], false));
    assert_eq!(out_wait.fire_click, None);
    assert_eq!(out_wait.repaint_after_ms, Some(20));
    assert!(nav.is_hiding_to_perform_click);

    // Hidden and the delay has passed: the click is posted, left button.
    let out_fire = nav.tick(&mut ctrl, &input(None, 5150, vec![], false));
    assert_eq!(
        out_fire.fire_click,
        Some(ClickCommand { point: p, button: MouseButton::Left })
    );
    assert!(!nav.is_hiding_to_perform_click);
    assert_eq!(nav.pending_click_pos_after_hide, None);

    // Afterwards the overlay idles hidden.
    let out_idle = nav.tick(&mut ctrl, &input(None, 5200, vec![], false));
    assert_eq!(out_idle.fire_click, None);
    assert_eq!(out_idle.repaint_after_ms, Some(50));
    assert!(!out_idle.paint);
}

#[test]
fn modifier_snapshot_selects_right_button() {
    let (mut nav, mut ctrl) = shown_navigator(0);
    nav.tick(&mut ctrl, &input(None, 10, vec![Key::A, Key::H], false));
    let out = nav.tick(&mut ctrl, &input(None, 20, vec![Key::A], false));
    let p = out.move_pointer_to.unwrap();
    nav.note_pointer_move(&mut ctrl, p, true);
    nav.tick(&mut ctrl, &input(None, 100, vec![], false));
    // The modifier is held at the moment the click fires.
    let out_fire = nav.tick(&mut ctrl, &input(None, 250, vec![], true));
    assert_eq!(
        out_fire.fire_click,
        Some(ClickCommand { point: p, button: MouseButton::Right })
    );
}

#[test]
fn hide_request_without_pending_click_just_hides() {
    let (mut nav, mut ctrl) = shown_navigator(0);
    ctrl.hide_requested = true;  // as the detector sets it for Escape
    let out = nav.tick(&mut ctrl, &input(None, 10, vec![], false));
    assert_eq!(out.set_visible, Some(false));
    assert!(!ctrl.is_visible);
    assert!(!nav.is_hiding_to_perform_click);
    assert_eq!(nav.hide_initiated_at, None);
    let out2 = nav.tick(&mut ctrl, &input(None, 20, vec![], false));
    assert_eq!(out2.fire_click, None);
    assert_eq!(out2.repaint_after_ms, Some(50));
}

#[test]
fn resize_with_stale_selection_falls_back_to_main_grid() {
    let (mut nav, mut ctrl) = shown_navigator(0);
    nav.tick(&mut ctrl, &input(None, 10, vec![Key::A, Key::H], false));
    assert_eq!(nav.display_mode, DisplayMode::SubGrid);
    // The window collapses to a degenerate size: the new layout has no
    // cells, the retained selection is out of range, and the navigator
    // falls back to the main grid.
    let shrunk = TickInput {
        event: None,
        now_ms: 30,
        content_w: 1,
        content_h: 1,
        window_origin: Some(Point { x: 10, y: 20 }),
        keys: vec![],
        lshift_held: false,
    };
    nav.tick(&mut ctrl, &shrunk);
    assert_eq!(nav.display_mode, DisplayMode::MainGrid);
    assert!(nav.main_grid_rects.is_empty());
}

#[test]
fn resize_with_valid_selection_recomputes_sub_grid() {
    let (mut nav, mut ctrl) = shown_navigator(0);
    nav.tick(&mut ctrl, &input(None, 10, vec![Key::A, Key::H], false));
    let grown = TickInput {
        event: None,
        now_ms: 30,
        content_w: 2400,
        content_h: 1200,
        window_origin: Some(Point { x: 10, y: 20 }),
        keys: vec![],
        lshift_held: false,
    };
    nav.tick(&mut ctrl, &grown);
    assert_eq!(nav.display_mode, DisplayMode::SubGrid);
    assert_eq!(nav.selected_main_cell_index, Some(0));
    // The sub-grid now covers the wider main cell 0: 200 x 100.
    assert_eq!(nav.sub_grid_rects[0].w, 40);
    assert_eq!(nav.sub_grid_rects[0].h, 20);
}

#[test]
fn key_to_char_maps_letters_only() {
    assert_eq!(key_to_char(Key::A), Some('A'));
    assert_eq!(key_to_char(Key::Z), Some('Z'));
    assert_eq!(key_to_char(Key::Space), None);
    assert_eq!(key_to_char(Key::Other), None);
}
