//! Keyboard-driven mouse navigation core.
//!
//! A full-screen overlay divides the screen into a labeled grid; typing a
//! two-character label refines the choice to a sub-grid, and a final key
//! moves the pointer and schedules a synthetic click once the overlay has
//! hidden itself. This crate holds the verified core of that system: the
//! grid geometry and labeling, the tap-gesture classifier that watches the
//! global key stream, and the overlay navigator state machine driven once
//! per render tick. The platform glue (event tap, window management,
//! pointer injection, painting) lives outside and talks to this core in
//! plain values.

pub mod geom;
pub mod event_handler;
pub mod grid;
pub mod navigator;
