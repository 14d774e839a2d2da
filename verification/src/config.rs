//! The defaults and limits the simulation is configured with.
use vstd::prelude::*;

verus! {

/// The title of the window.
pub const INIT_TITLE: &'static str = "Gravity Sim";

/// The width of the window at startup, in window pixels.
pub const INIT_WIDTH: u32 = 800;

/// The height of the window at startup, in window pixels.
pub const INIT_HEIGHT: u32 = 600;

/// How many window pixels make one cell of the pixel buffer at startup.
pub const INIT_SCALE: u32 = 3;

/// The largest scale factor the scale keys reach.
pub const SIM_MAX_SCALE: u32 = 10;

/// The brush size at startup.
pub const INIT_DRAW_SIZE: i32 = 8;

/// The largest brush size.
pub const MAX_DRAW_SIZE: i32 = 500;

/// The speed, in cells per frame, of a particle that is flung by a drag
/// across the whole viewport.
pub const MOUSE_DRAWBACK_MULTIPLIER: i64 = 20;

/// The number of simulation steps per second that one frame stands for.
pub const TARGET_FPS: u64 = 60;

} // verus!
