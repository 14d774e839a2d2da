//! The simulation's frame state and its pixel buffer.
//!
//! The buffer holds four bytes per cell, row by row from the top left. It is
//! always as large as the render-space size, which is the window size
//! divided by the scale factor. One frame reduces the inputs to a new state
//! and to the actions the particle world has to take, clears the buffer,
//! draws a marker for every particle it is handed, and lays the brush
//! outline over the cursor.
use crate::colour::{background, green, white, Rgba, BACKGROUND_BYTE};
use crate::config::{INIT_DRAW_SIZE, MAX_DRAW_SIZE, MOUSE_DRAWBACK_MULTIPLIER, SIM_MAX_SCALE};
use crate::input::{InputData, Key};
use crate::shape::{offsets_of, Shape};
use crate::space::{clamped, quotient, vec2, RenderSpace, Scale, ScreenSpace, Vec2, WorldSpace};
use vstd::prelude::*;

verus! {

/// What the user has set and what the last frame left behind.
#[derive(Debug, Clone, Copy)]
pub struct State {
    /// The number of frames that have been completed.
    pub frame: usize,
    pub draw_size: i32,
    pub draw_shape: Shape,
    pub scale: Scale<i32, ScreenSpace, RenderSpace>,
    pub running: bool,
    /// Whether the frame in progress steps the physics although the simulation is paused.
    pub step_sim: bool,
    /// Where the cursor was when the inputs were last read.
    pub mouse: Vec2<i32, ScreenSpace>,
}

/// Whether the physics advance.
#[derive(Debug, Clone, Copy, PartialEq, Eq, Structural)]
pub enum RunState {
    Paused,
    Running,
    /// Paused, but the frame in progress advances the physics once.
    SteppingOnce,
}

impl State {
    pub open spec fn run_state(self) -> RunState {
        if self.running {
            RunState::Running
        } else if self.step_sim {
            RunState::SteppingOnce
        } else {
            RunState::Paused
        }
    }

    /// Whether the brush size and the scale factor are within their limits.
    pub open spec fn wf(self) -> bool {
        &&& 1 <= self.draw_size <= MAX_DRAW_SIZE
        &&& 1 <= self.scale.value()
    }

    /// The state after the inputs of a frame have been read: space toggles
    /// between running and paused, the right arrow asks for a single step,
    /// the up and down arrows change the brush size within its limits, tab
    /// cycles the brush shape, and the cursor is where the inputs have it.
    pub open spec fn after_input(self, inputs: InputData) -> State {
        State {
            frame: self.frame,
            draw_size: clamped(
                self.draw_size + one_if(inputs.key(Key::ArrowUp).tapped) - one_if(
                    inputs.key(Key::ArrowDown).tapped,
                ),
                1,
                MAX_DRAW_SIZE as int,
            ) as i32,
            draw_shape: if inputs.key(Key::Tab).tapped {
                self.draw_shape.successor()
            } else {
                self.draw_shape
            },
            scale: self.scale,
            running: self.running != inputs.key(Key::Space).tapped,
            step_sim: inputs.key(Key::ArrowRight).tapped,
            mouse: inputs.mouse,
        }
    }

    /// The cell the cursor is in.
    pub open spec fn mouse_cell(self) -> (int, int) {
        (
            quotient(self.mouse.x as int, self.scale.value() as int),
            quotient(self.mouse.y as int, self.scale.value() as int),
        )
    }

    /// The cells of the brush outline around the cursor, in a buffer of the
    /// given size. What would fall outside the buffer lies on its border.
    pub open spec fn brush_cells(self, size: Vec2<i32, RenderSpace>) -> Seq<(int, int)> {
        placed_all(
            self.mouse_cell(),
            self.draw_shape.offsets(self.draw_size as int),
            size.x as int,
            size.y as int,
            true,
        )
    }

    /// The state after a frame is complete.
    pub open spec fn after_frame(self) -> State {
        State { frame: (self.frame + 1) as usize, step_sim: false, ..self }
    }
}

/// What the renderer reads once a frame is complete.
pub struct SimData<'a> {
    /// The pixel buffer: four bytes per cell, row by row.
    pub buf: &'a [u8],
    pub size: Vec2<u32, RenderSpace>,
    pub frame: usize,
}

/// The colour of the cell `(x, y)` in a buffer of the given width.
pub open spec fn pixel_of(buf: Seq<u8>, width: int, x: int, y: int) -> Rgba {
    let i = 4 * (y * width + x);
    Rgba { r: buf[i], g: buf[i + 1], b: buf[i + 2], a: buf[i + 3] }
}

/// Whether the pixel buffer of a window of `width` by `height` pixels at
/// the given scale can be addressed: its length, four bytes for every cell,
/// fits the machine's signed integers.
pub open spec fn buffer_fits(width: int, height: int, scale: int) -> bool {
    4 * ((width / scale) * (height / scale)) <= i32::MAX
}

/// Whether a window of the given size can be shown at the given scale: both
/// numbers fit the machine's signed integers, the pixel buffer has at least
/// one cell, and it can be addressed.
pub open spec fn can_show(window_size: Vec2<u32, ScreenSpace>, scale: int) -> bool {
    &&& 1 <= scale
    &&& scale <= window_size.x <= i32::MAX
    &&& scale <= window_size.y <= i32::MAX
    &&& buffer_fits(window_size.x as int, window_size.y as int, scale)
}

/// What a frame asks of the particle list.
#[derive(Debug, Clone, Copy, PartialEq, Eq, Structural)]
pub enum ParticleCommand {
    Keep,
    /// Remove every particle.
    Clear,
    /// Replace the particles by the initial ones.
    Reset,
}

/// A velocity in world units per frame, as an exact fraction on each axis:
/// `num.x / den.x` and `num.y / den.y`. The denominators are positive.
#[derive(Debug, Clone, Copy)]
pub struct Velocity {
    pub num: Vec2<i64, WorldSpace>,
    pub den: Vec2<i64, WorldSpace>,
}

/// A particle to be created, in the terms of the gesture that asked for it.
#[derive(Debug, Clone, Copy)]
pub struct Spawn {
    /// Where the mouse button went down.
    pub at: Vec2<i32, ScreenSpace>,
    /// Zero for a press without a drag.
    pub velocity: Velocity,
    /// The brush size at the time, which becomes the particle's radius.
    pub size: i32,
}

/// The velocity of a particle that is flung by a drag: the way from where
/// the button went up back to where it went down, in cells, as a share of
/// the viewport, times [`MOUSE_DRAWBACK_MULTIPLIER`]. Dragging backwards
/// flings the particle forwards.
pub open spec fn slingshot(
    pressed: Vec2<i32, ScreenSpace>,
    released: Vec2<i32, ScreenSpace>,
    scale: int,
    viewport: Vec2<i32, RenderSpace>,
) -> Velocity {
    Velocity {
        num: Vec2 {
            x: ((pressed.x - released.x) * MOUSE_DRAWBACK_MULTIPLIER) as i64,
            y: ((pressed.y - released.y) * MOUSE_DRAWBACK_MULTIPLIER) as i64,
            _unit: core::marker::PhantomData,
        },
        den: Vec2 {
            x: (scale * viewport.x) as i64,
            y: (scale * viewport.y) as i64,
            _unit: core::marker::PhantomData,
        },
    }
}

/// What the particle world has to do in a frame, as the inputs decide it.
#[derive(Debug, Clone, Copy)]
pub struct FrameActions {
    pub spawn: Option<Spawn>,
    /// Applies after `spawn`.
    pub particles: ParticleCommand,
    /// The direction the camera is pushed in, each component -1, 0 or 1.
    pub camera_push: Vec2<i32, WorldSpace>,
    /// Whether the physics advance in this frame.
    pub step: bool,
}

/// One where `b` holds, else zero.
pub open spec fn one_if(b: bool) -> int {
    if b {
        1
    } else {
        0
    }
}

/// The particle the mouse asks for, if any: one that is flung where a drag
/// ended since the last frame, else one at rest where the button went down.
pub open spec fn spawn_of(
    state: State,
    viewport: Vec2<i32, RenderSpace>,
    inputs: InputData,
) -> Option<Spawn> {
    let pressed = inputs.mouse_pressed.pos;
    let released = inputs.mouse_released.pos;
    let scale = state.scale.value() as int;
    if inputs.dragged() {
        Some(
            Spawn {
                at: pressed,
                velocity: slingshot(pressed, released, scale, viewport),
                size: state.draw_size,
            },
        )
    } else if inputs.press_edge {
        Some(
            Spawn {
                at: pressed,
                velocity: slingshot(pressed, pressed, scale, viewport),
                size: state.draw_size,
            },
        )
    } else {
        None
    }
}

/// The actions of a frame that starts in `state`, with a viewport of the
/// given size, and reads `inputs`.
pub open spec fn frame_actions(
    state: State,
    viewport: Vec2<i32, RenderSpace>,
    inputs: InputData,
) -> FrameActions {
    FrameActions {
        spawn: spawn_of(state, viewport, inputs),
        particles: if inputs.key(Key::KeyC).tapped {
            ParticleCommand::Clear
        } else if inputs.key(Key::KeyR).tapped {
            ParticleCommand::Reset
        } else {
            ParticleCommand::Keep
        },
        camera_push: Vec2 {
            x: (one_if(inputs.key(Key::KeyD).held) - one_if(inputs.key(Key::KeyA).held)) as i32,
            y: (one_if(inputs.key(Key::KeyS).held) - one_if(inputs.key(Key::KeyW).held)) as i32,
            _unit: core::marker::PhantomData,
        },
        step: state.after_input(inputs).run_state() != RunState::Paused,
    }
}

/// The scale the scale keys ask for: one less on a tap of minus, else one
/// more on a tap of equal, and never outside `1..=SIM_MAX_SCALE` unless it
/// was there before.
pub open spec fn requested_scale(scale: int, inputs: InputData) -> int {
    if inputs.key(Key::Minus).tapped {
        if scale <= 1 {
            scale
        } else {
            scale - 1
        }
    } else if inputs.key(Key::Equal).tapped {
        if scale >= SIM_MAX_SCALE {
            scale
        } else {
            scale + 1
        }
    } else {
        scale
    }
}

/// Where a particle shows in the pixel buffer: the cell of its centre and
/// its radius in cells.
#[derive(Debug, Clone, Copy)]
pub struct Disc {
    pub centre: Vec2<i32, RenderSpace>,
    pub radius: i32,
}

/// The cell an offset from `centre` lands on. With `clamp`, a cell outside
/// the buffer of `w` by `h` cells is moved to the nearest cell inside.
pub open spec fn placed(centre: (int, int), offset: (int, int), w: int, h: int, clamp: bool) -> (
    int,
    int,
) {
    if clamp {
        (clamped(centre.0 + offset.0, 0, w - 1), clamped(centre.1 + offset.1, 0, h - 1))
    } else {
        (centre.0 + offset.0, centre.1 + offset.1)
    }
}

/// The cells a run of offsets from `centre` lands on.
pub open spec fn placed_all(
    centre: (int, int),
    offsets: Seq<(int, int)>,
    w: int,
    h: int,
    clamp: bool,
) -> Seq<(int, int)> {
    offsets.map_values(|o: (int, int)| placed(centre, o, w, h, clamp))
}

/// The colour of a cell after painting: `colour` where the cell is `hit`
/// and, if only one colour is to be replaced, had that colour before;
/// else the colour it had.
pub open spec fn painted(before: Rgba, hit: bool, colour: Rgba, replacing: Option<Rgba>) -> Rgba {
    if hit && (replacing is None || replacing == Some(before)) {
        colour
    } else {
        before
    }
}

/// Whether one of the first `n` cells is `(x, y)`.
spec fn hits_upto(cells: Seq<(int, int)>, n: int, x: int, y: int) -> bool {
    exists|i: int| 0 <= i < n && i < cells.len() && cells[i] == (x, y)
}

proof fn lemma_hits_step(cells: Seq<(int, int)>, n: int, x: int, y: int)
    requires
        0 <= n < cells.len(),
    ensures
        hits_upto(cells, n + 1, x, y) <==> hits_upto(cells, n, x, y) || cells[n] == (x, y),
        hits_upto(cells, 0, x, y) == false,
{
    if hits_upto(cells, n + 1, x, y) {
        let i = choose|i: int| 0 <= i < n + 1 && i < cells.len() && cells[i] == (x, y);
        if i < n {
            assert(hits_upto(cells, n, x, y));
        }
    }
    if hits_upto(cells, n, x, y) {
        let i = choose|i: int| 0 <= i < n && i < cells.len() && cells[i] == (x, y);
        assert(0 <= i < n + 1 && i < cells.len() && cells[i] == (x, y));
    }
    if cells[n] == (x, y) {
        assert(0 <= n < n + 1 && n < cells.len() && cells[n] == (x, y));
    }
}

proof fn lemma_hits_all(cells: Seq<(int, int)>, x: int, y: int)
    ensures
        hits_upto(cells, cells.len() as int, x, y) <==> cells.contains((x, y)),
{
    if hits_upto(cells, cells.len() as int, x, y) {
        let i = choose|i: int| 0 <= i < cells.len() && i < cells.len() && cells[i] == (x, y);
        assert(cells[i] == (x, y));
    }
    if cells.contains((x, y)) {
        let i = choose|i: int| 0 <= i < cells.len() && cells[i] == (x, y);
        assert(0 <= i < cells.len() && i < cells.len() && cells[i] == (x, y));
    }
}

impl Disc {
    /// The cells of the particle's marker: a circle outline of its radius
    /// around its centre. Some of them may lie outside the buffer.
    pub open spec fn cells(self) -> Seq<(int, int)> {
        placed_all(
            (self.centre.x as int, self.centre.y as int),
            Shape::CircleOutline.offsets(self.radius as int),
            0,
            0,
            false,
        )
    }
}

/// Whether the marker of one of the first `n` discs has the cell `(x, y)`.
pub open spec fn marked_upto(discs: Seq<Disc>, n: int, x: int, y: int) -> bool {
    exists|k: int| 0 <= k < n && k < discs.len() && (#[trigger] discs[k]).cells().contains((x, y))
}

/// Whether the marker of one of the discs has the cell `(x, y)`.
pub open spec fn marked(discs: Seq<Disc>, x: int, y: int) -> bool {
    marked_upto(discs, discs.len() as int, x, y)
}

proof fn lemma_marked_step(discs: Seq<Disc>, n: int, x: int, y: int)
    requires
        0 <= n < discs.len(),
    ensures
        marked_upto(discs, n + 1, x, y) <==> marked_upto(discs, n, x, y) || discs[n].cells().contains(
            (x, y),
        ),
        marked_upto(discs, 0, x, y) == false,
{
    if marked_upto(discs, n + 1, x, y) {
        let k = choose|k: int|
            0 <= k < n + 1 && k < discs.len() && (#[trigger] discs[k]).cells().contains((x, y));
        if k < n {
            assert(marked_upto(discs, n, x, y));
        }
    }
    if marked_upto(discs, n, x, y) {
        let k = choose|k: int|
            0 <= k < n && k < discs.len() && (#[trigger] discs[k]).cells().contains((x, y));
        assert(0 <= k < n + 1 && discs[k].cells().contains((x, y)));
    }
    if discs[n].cells().contains((x, y)) {
        assert(0 <= n < n + 1 && discs[n].cells().contains((x, y)));
    }
}

/// `base + offset`, or the nearest machine integer where the sum is none.
fn shifted(base: i32, offset: i32) -> (r: i32)
    ensures
        r == clamped(base + offset, i32::MIN as int, i32::MAX as int),
{
    let sum: i64 = base as i64 + offset as i64;
    if sum < i32::MIN as i64 {
        i32::MIN
    } else if sum > i32::MAX as i64 {
        i32::MAX
    } else {
        sum as i32
    }
}

/// The simulation's frame state together with its pixel buffer.
pub struct GravitySim {
    state: State,
    prev_state: State,
    window_size: Vec2<i32, ScreenSpace>,
    sim_size: Vec2<i32, RenderSpace>,
    buf: Vec<u8>,
}

/// The cells of a window axis of `window` pixels at the given scale.
proof fn lemma_cells(window: int, scale: int)
    requires
        1 <= scale <= window,
    ensures
        1 <= quotient(window, scale) <= window,
        quotient(window, scale) == window / scale,
{
    vstd::arithmetic::div_mod::lemma_fundamental_div_mod(window, scale);
    let q = window / scale;
    assert(1 <= q <= window) by (nonlinear_arith)
        requires
            window == scale * q + window % scale,
            0 <= window % scale < scale,
            1 <= scale <= window,
    ;
}

/// A buffer of `w` by `h` cells is no longer than one of `ww` by `hh` cells
/// when neither side is longer.
proof fn lemma_area(w: int, h: int, ww: int, hh: int)
    requires
        0 <= w <= ww,
        0 <= h <= hh,
    ensures
        0 <= 4 * w * h <= 4 * ww * hh,
        4 * w * h == 4 * (w * h),
{
    assert(0 <= w * h <= ww * hh) by (nonlinear_arith)
        requires
            0 <= w <= ww,
            0 <= h <= hh,
    ;
    assert(4 * w * h == 4 * (w * h)) by (nonlinear_arith);
    assert(4 * ww * hh == 4 * (ww * hh)) by (nonlinear_arith);
}

/// The number of cells of `w` columns and `h` rows, within the machine's wide integers.
proof fn lemma_product(w: int, h: int)
    requires
        1 <= w <= i32::MAX,
        1 <= h <= i32::MAX,
    ensures
        1 <= w * h <= 0x8000_0000 * 0x8000_0000,
{
    assert(1 <= w * h <= 0x8000_0000 * 0x8000_0000) by (nonlinear_arith)
        requires
            1 <= w <= 0x8000_0000,
            1 <= h <= 0x8000_0000,
    ;
}

/// The four bytes of a cell lie inside the buffer, apart from those of every other cell.
proof fn lemma_cell_index(w: int, h: int, x: int, y: int)
    requires
        0 <= x < w,
        0 <= y < h,
    ensures
        0 <= y * w <= y * w + x < w * h,
        0 <= 4 * (y * w + x),
        4 * (y * w + x) + 3 < 4 * (w * h),
{
    assert(0 <= y * w <= y * w + x < w * h) by (nonlinear_arith)
        requires
            0 <= x < w,
            0 <= y < h,
    ;
}

proof fn lemma_cells_apart(w: int, x: int, y: int, x2: int, y2: int)
    requires
        0 <= x < w,
        0 <= x2 < w,
        y * w + x == y2 * w + x2,
    ensures
        x == x2,
        y == y2,
{
    assert((y - y2) * w == y * w - y2 * w) by (nonlinear_arith);
    assert(y == y2) by (nonlinear_arith)
        requires
            0 <= x < w,
            0 <= x2 < w,
            (y - y2) * w == x2 - x,
    ;
}

/// Writes the four bytes of `col` at `index`.
pub fn write_colour(index: usize, buf: &mut Vec<u8>, col: Rgba)
    requires
        index + 3 < old(buf).len(),
    ensures
        final(buf)@ == old(buf)@.update(index as int, col.r).update(index + 1, col.g).update(
            index + 2,
            col.b,
        ).update(index + 3, col.a),
{
    buf[index] = col.r;
    buf[index + 1] = col.g;
    buf[index + 2] = col.b;
    buf[index + 3] = col.a;
}

impl GravitySim {
    pub closed spec fn state(self) -> State {
        self.state
    }

    /// The state as the last completed frame left it.
    pub closed spec fn prev_state(self) -> State {
        self.prev_state
    }

    /// The size of the window the buffer was last fitted to.
    pub closed spec fn window_size(self) -> Vec2<i32, ScreenSpace> {
        self.window_size
    }

    /// The size of the pixel buffer in cells.
    pub closed spec fn sim_size(self) -> Vec2<i32, RenderSpace> {
        self.sim_size
    }

    /// The bytes of the pixel buffer.
    pub closed spec fn pixels(self) -> Seq<u8> {
        self.buf@
    }

    /// The colour of the cell `(x, y)`.
    pub open spec fn pixel(self, x: int, y: int) -> Rgba {
        pixel_of(self.pixels(), self.sim_size().x as int, x, y)
    }

    /// Whether `(x, y)` is a cell of the buffer.
    pub open spec fn in_view(self, x: int, y: int) -> bool {
        0 <= x < self.sim_size().x && 0 <= y < self.sim_size().y
    }

    /// What holds of every simulation between two calls: the buffer has four
    /// bytes for every cell and at least one cell, its size is the window
    /// size divided by the scale, and brush and scale are within their limits.
    pub open spec fn wf(self) -> bool {
        &&& self.state().wf()
        &&& self.prev_state().wf()
        &&& self.state().scale.value() <= self.window_size().x
        &&& self.state().scale.value() <= self.window_size().y
        &&& self.sim_size().x == self.window_size().x / self.state().scale.value()
        &&& self.sim_size().y == self.window_size().y / self.state().scale.value()
        &&& self.pixels().len() == 4 * (self.sim_size().x * self.sim_size().y)
        &&& self.pixels().len() <= i32::MAX
    }

    /// A well-formed simulation has at least one cell, and no more cells than
    /// the window has pixels.
    pub proof fn lemma_size(self)
        requires
            self.wf(),
        ensures
            1 <= self.sim_size().x <= self.window_size().x,
            1 <= self.sim_size().y <= self.window_size().y,
            self.pixels().len() == 4 * (self.sim_size().x * self.sim_size().y),
            self.pixels().len() == 4 * self.sim_size().x * self.sim_size().y,
            self.pixels().len() <= i32::MAX,
            buffer_fits(
                self.window_size().x as int,
                self.window_size().y as int,
                self.state().scale.value() as int,
            ),
    {
        let s = self.state().scale.value() as int;
        lemma_cells(self.window_size().x as int, s);
        lemma_cells(self.window_size().y as int, s);
        lemma_area(
            self.sim_size().x as int,
            self.sim_size().y as int,
            self.sim_size().x as int,
            self.sim_size().y as int,
        );
    }

    /// Whether every byte of the buffer is the background byte.
    pub open spec fn is_blank(self) -> bool {
        forall|i: int| 0 <= i < self.pixels().len() ==> self.pixels()[i] == BACKGROUND_BYTE
    }

    /// Whether `other` differs from `self` at most in the colours of its cells.
    pub open spec fn same_frame(self, other: GravitySim) -> bool {
        &&& self.state() == other.state()
        &&& self.prev_state() == other.prev_state()
        &&& self.window_size() == other.window_size()
        &&& self.sim_size() == other.sim_size()
        &&& self.pixels().len() == other.pixels().len()
    }

    /// A paused simulation for a window of the given size, with a blank buffer.
    pub fn new(window_size: Vec2<u32, ScreenSpace>, scale: u32) -> (sim: Self)
        requires
            can_show(window_size, scale as int),
        ensures
            sim.wf(),
            sim.is_blank(),
            sim.window_size().x == window_size.x,
            sim.window_size().y == window_size.y,
            sim.sim_size().x == window_size.x / scale,
            sim.sim_size().y == window_size.y / scale,
            sim.prev_state() == sim.state(),
            sim.state().frame == 0,
            sim.state().draw_size == INIT_DRAW_SIZE,
            sim.state().draw_shape == Shape::CircleFill,
            sim.state().scale.value() == scale,
            !sim.state().running,
            !sim.state().step_sim,
            sim.state().mouse.x == 0 && sim.state().mouse.y == 0,
    {
        let scale = Scale::new(scale as i32);
        let window_size: Vec2<i32, ScreenSpace> = window_size.cast();
        let sim_size = window_size.scale(scale);
        proof {
            lemma_cells(window_size.x as int, scale.value() as int);
            lemma_cells(window_size.y as int, scale.value() as int);
            lemma_product(sim_size.x as int, sim_size.y as int);
        }
        let buf_size = (sim_size.x * sim_size.y * 4) as usize;
        let buf = vec![BACKGROUND_BYTE; buf_size];
        let state = State {
            frame: 0,
            draw_size: INIT_DRAW_SIZE,
            draw_shape: Shape::CircleFill,
            scale,
            running: false,
            step_sim: false,
            mouse: vec2(0, 0),
        };
        GravitySim { state, prev_state: state, window_size, sim_size, buf }
    }

    /// The finished frame, for the renderer.
    pub fn get_sim_data(&self) -> (data: SimData<'_>)
        requires
            self.wf(),
        ensures
            data.buf@ == self.pixels(),
            data.size.x == self.sim_size().x,
            data.size.y == self.sim_size().y,
            data.frame == self.state().frame,
            data.buf@.len() == 4 * data.size.x * data.size.y,
    {
        proof {
            self.lemma_size();
        }
        SimData { buf: self.buf.as_slice(), size: self.sim_size.cast(), frame: self.state.frame }
    }

    pub fn get_scale(&self) -> (scale: u32)
        requires
            self.wf(),
        ensures
            scale == self.state().scale.value(),
    {
        self.state.scale.get() as u32
    }

    /// Sets the cell at `pos` to `col`.
    pub fn write_to_buf(&mut self, pos: Vec2<i32, RenderSpace>, col: Rgba)
        requires
            old(self).wf(),
            old(self).in_view(pos.x as int, pos.y as int),
        ensures
            final(self).wf(),
            final(self).same_frame(*old(self)),
            final(self).pixel(pos.x as int, pos.y as int) == col,
            forall|x: int, y: int|
                old(self).in_view(x, y) && (x != pos.x || y != pos.y) ==> final(self).pixel(x, y)
                    == old(self).pixel(x, y),
    {
        let ghost w = self.sim_size.x as int;
        let ghost h = self.sim_size.y as int;
        proof {
            self.lemma_size();
            lemma_cell_index(w, h, pos.x as int, pos.y as int);
        }
        let index = 4 * (pos.y * self.sim_size.x + pos.x) as usize;
        write_colour(index, &mut self.buf, col);
        proof {
            assert forall|x: int, y: int|
                old(self).in_view(x, y) && (x != pos.x || y != pos.y) implies self.pixel(x, y)
                == old(self).pixel(x, y) by {
                lemma_cell_index(w, h, x, y);
                if y * w + x == pos.y * w + pos.x {
                    lemma_cells_apart(w, x, y, pos.x as int, pos.y as int);
                }
            }
        }
    }

    /// The size of the window the buffer was last fitted to.
    pub fn get_window_size(&self) -> (size: Vec2<i32, ScreenSpace>)
        ensures
            size == self.window_size(),
    {
        self.window_size
    }

    /// Whether `after` is this simulation fitted to a window of the given
    /// size at the given scale. Where the window has room for a cell and the
    /// buffer can be addressed, window size, scale and buffer size are the new
    /// ones, and the buffer is blank unless it keeps its size. Otherwise
    /// nothing has changed.
    pub open spec fn is_fitted(
        self,
        after: GravitySim,
        window: Vec2<i32, ScreenSpace>,
        scale: int,
    ) -> bool {
        let fits = 1 <= scale <= window.x && scale <= window.y && buffer_fits(
            window.x as int,
            window.y as int,
            scale,
        );
        let keeps_size = window.x as int / scale == self.sim_size().x && window.y as int / scale
            == self.sim_size().y;
        &&& after.wf()
        &&& after.prev_state() == self.prev_state()
        &&& after.state() == (State { scale: after.state().scale, ..self.state() })
        &&& if fits {
            &&& after.state().scale.value() == scale
            &&& after.window_size() == window
            &&& after.sim_size().x == window.x as int / scale
            &&& after.sim_size().y == window.y as int / scale
            &&& if keeps_size {
                after.pixels() == self.pixels()
            } else {
                after.is_blank()
            }
        } else {
            &&& after.state().scale.value() == self.state().scale.value()
            &&& after.window_size() == self.window_size()
            &&& after.sim_size() == self.sim_size()
            &&& after.pixels() == self.pixels()
        }
    }

    fn fit(&mut self, window: Vec2<i32, ScreenSpace>, scale: i32)
        requires
            old(self).wf(),
            1 <= scale,
        ensures
            old(self).is_fitted(*final(self), window, scale as int),
    {
        if window.x < scale || window.y < scale {
            return ;
        }
        let typed: Scale<i32, ScreenSpace, RenderSpace> = Scale::new(scale);
        let new_size = window.scale(typed);
        proof {
            lemma_cells(window.x as int, scale as int);
            lemma_cells(window.y as int, scale as int);
            lemma_product(new_size.x as int, new_size.y as int);
        }
        let cells: i64 = new_size.x as i64 * new_size.y as i64;
        if cells > (i32::MAX / 4) as i64 {
            return ;
        }
        self.state.scale = typed;
        self.window_size = window;
        if new_size.x == self.sim_size.x && new_size.y == self.sim_size.y {
            return ;
        }
        let buf_size = (cells * 4) as usize;
        self.sim_size = new_size;
        self.buf = vec![BACKGROUND_BYTE; buf_size];
    }

    /// Fits the buffer to a new window size. Nothing changes where the
    /// window has no width or no height or is otherwise too small for a
    /// single cell. Where the buffer keeps its size it keeps its contents;
    /// otherwise size and buffer are replaced together, and the new buffer
    /// is blank.
    pub fn resize_sim(&mut self, window_size: Vec2<u32, ScreenSpace>)
        requires
            old(self).wf(),
            window_size.x <= i32::MAX,
            window_size.y <= i32::MAX,
            buffer_fits(
                window_size.x as int,
                window_size.y as int,
                old(self).state().scale.value() as int,
            ),
        ensures
            old(self).is_fitted(
                *final(self),
                window_size.signed(),
                old(self).state().scale.value() as int,
            ),
    {
        let window: Vec2<i32, ScreenSpace> = window_size.cast();
        let scale = self.state.scale.get();
        self.fit(window, scale);
    }

    /// Changes the scale factor and fits the buffer to it. Nothing changes
    /// where the window is too small for a single cell at the new scale.
    pub fn rescale_sim(&mut self, new_scale: u32)
        requires
            old(self).wf(),
            1 <= new_scale <= i32::MAX,
            buffer_fits(
                old(self).window_size().x as int,
                old(self).window_size().y as int,
                new_scale as int,
            ),
        ensures
            old(self).is_fitted(*final(self), old(self).window_size(), new_scale as int),
    {
        let window = self.window_size;
        self.fit(window, new_scale as i32);
    }

    /// Applies the scale keys. The scale stays as it is where the window has
    /// no room for a cell at the scale asked for, or where the buffer could
    /// not be addressed. Says whether the scale has changed, in which case
    /// whoever shows the buffer has to fit its texture anew.
    pub fn handle_scale_input(&mut self, inputs: &InputData) -> (rescaled: bool)
        requires
            old(self).wf(),
        ensures
            rescaled == (final(self).state().scale.value() != old(self).state().scale.value()),
            old(self).is_fitted(
                *final(self),
                old(self).window_size(),
                requested_scale(old(self).state().scale.value() as int, *inputs),
            ),
    {
        let scale = self.state.scale.get();
        let window = self.window_size;
        let target = if inputs.is_pressed(Key::Minus) {
            if scale <= 1 {
                scale
            } else {
                scale - 1
            }
        } else if inputs.is_pressed(Key::Equal) {
            if scale >= SIM_MAX_SCALE as i32 {
                scale
            } else {
                scale + 1
            }
        } else {
            scale
        };
        self.fit(window, target);
        self.state.scale.get() != scale
    }

    /// The velocity of a particle flung by a drag from `pressed` to `released`.
    fn slingshot_from(
        &self,
        pressed: Vec2<i32, ScreenSpace>,
        released: Vec2<i32, ScreenSpace>,
    ) -> (v: Velocity)
        requires
            self.wf(),
        ensures
            v == slingshot(pressed, released, self.state().scale.value() as int, self.sim_size()),
            v.den.x >= 1,
            v.den.y >= 1,
    {
        proof {
            self.lemma_size();
        }
        let pull = pressed.widen() - released.widen();
        let scale = self.state.scale.get() as i64;
        let viewport = self.sim_size.widen();
        proof {
            lemma_product(scale as int, viewport.x as int);
            lemma_product(scale as int, viewport.y as int);
            assert(viewport.x * scale == scale * viewport.x && viewport.y * scale == scale
                * viewport.y) by (nonlinear_arith);
        }
        Velocity {
            num: (pull * MOUSE_DRAWBACK_MULTIPLIER).cast_unit(),
            den: (viewport * scale).cast_unit(),
        }
    }

    /// Reads the inputs of a frame into the state, and says what they ask
    /// of the particle world. The buffer is left as it is.
    pub fn handle_input_state(&mut self, inputs: &InputData) -> (actions: FrameActions)
        requires
            old(self).wf(),
        ensures
            final(self).wf(),
            final(self).state() == old(self).state().after_input(*inputs),
            final(self).prev_state() == old(self).prev_state(),
            final(self).window_size() == old(self).window_size(),
            final(self).sim_size() == old(self).sim_size(),
            final(self).pixels() == old(self).pixels(),
            actions == frame_actions(old(self).state(), old(self).sim_size(), *inputs),
    {
        let pressed = inputs.mouse_pressed.pos;
        let released = inputs.mouse_released.pos;
        let size = self.state.draw_size;
        let spawn = if inputs.was_mouse_dragging() {
            Some(Spawn { at: pressed, velocity: self.slingshot_from(pressed, released), size })
        } else if inputs.was_mouse_pressed() {
            Some(Spawn { at: pressed, velocity: self.slingshot_from(pressed, pressed), size })
        } else {
            None
        };
        if inputs.is_pressed(Key::Space) {
            self.state.running = !self.state.running;
        }
        self.state.step_sim = inputs.is_pressed(Key::ArrowRight);
        let particles = if inputs.is_pressed(Key::KeyC) {
            ParticleCommand::Clear
        } else if inputs.is_pressed(Key::KeyR) {
            ParticleCommand::Reset
        } else {
            ParticleCommand::Keep
        };
        let mut push_x: i32 = 0;
        let mut push_y: i32 = 0;
        if inputs.is_held(Key::KeyW) {
            push_y = push_y - 1;
        }
        if inputs.is_held(Key::KeyS) {
            push_y = push_y + 1;
        }
        if inputs.is_held(Key::KeyD) {
            push_x = push_x + 1;
        }
        if inputs.is_held(Key::KeyA) {
            push_x = push_x - 1;
        }
        let mut draw_size = self.state.draw_size;
        if inputs.is_pressed(Key::ArrowUp) {
            draw_size = draw_size + 1;
        }
        if inputs.is_pressed(Key::ArrowDown) {
            draw_size = draw_size - 1;
        }
        if draw_size < 1 {
            draw_size = 1;
        } else if draw_size > MAX_DRAW_SIZE {
            draw_size = MAX_DRAW_SIZE;
        }
        self.state.draw_size = draw_size;
        if inputs.is_pressed(Key::Tab) {
            self.state.draw_shape = self.state.draw_shape.next();
        }
        self.state.mouse = inputs.mouse;
        FrameActions {
            spawn,
            particles,
            camera_push: vec2(push_x, push_y),
            step: self.state.running || self.state.step_sim,
        }
    }

    /// The colour of the cell at `pos`.
    pub fn read_pixel(&self, pos: Vec2<i32, RenderSpace>) -> (col: Rgba)
        requires
            self.wf(),
            self.in_view(pos.x as int, pos.y as int),
        ensures
            col == self.pixel(pos.x as int, pos.y as int),
    {
        proof {
            self.lemma_size();
            lemma_cell_index(
                self.sim_size.x as int,
                self.sim_size.y as int,
                pos.x as int,
                pos.y as int,
            );
        }
        let index = 4 * (pos.y * self.sim_size.x + pos.x) as usize;
        Rgba {
            r: self.buf[index],
            g: self.buf[index + 1],
            b: self.buf[index + 2],
            a: self.buf[index + 3],
        }
    }

    /// Paints the cells that `offsets` land on around `centre`. Cells outside
    /// the buffer are moved onto its border with `clamp` and left out
    /// without. With `replacing`, only cells of that colour are painted.
    fn paint(
        &mut self,
        centre: Vec2<i32, RenderSpace>,
        offsets: &Vec<(i32, i32)>,
        clamp: bool,
        colour: Rgba,
        replacing: Option<Rgba>,
    )
        requires
            old(self).wf(),
        ensures
            final(self).wf(),
            final(self).same_frame(*old(self)),
            forall|x: int, y: int|
                old(self).in_view(x, y) ==> #[trigger] final(self).pixel(x, y) == painted(
                    old(self).pixel(x, y),
                    placed_all(
                        (centre.x as int, centre.y as int),
                        offsets_of(offsets@),
                        old(self).sim_size().x as int,
                        old(self).sim_size().y as int,
                        clamp,
                    ).contains((x, y)),
                    colour,
                    replacing,
                ),
    {
        let ghost w = self.sim_size.x as int;
        let ghost h = self.sim_size.y as int;
        let ghost c = (centre.x as int, centre.y as int);
        let ghost cells = placed_all(c, offsets_of(offsets@), w, h, clamp);
        proof {
            self.lemma_size();
            assert forall|x: int, y: int| !hits_upto(cells, 0, x, y) by {}
        }
        let mut i: usize = 0;
        while i < offsets.len()
            invariant
                self.wf(),
                self.same_frame(*old(self)),
                w == self.sim_size.x,
                h == self.sim_size.y,
                1 <= w,
                1 <= h,
                c == (centre.x as int, centre.y as int),
                cells == placed_all(c, offsets_of(offsets@), w, h, clamp),
                i <= offsets.len(),
                forall|x: int, y: int|
                    old(self).in_view(x, y) ==> #[trigger] self.pixel(x, y) == painted(
                        old(self).pixel(x, y),
                        hits_upto(cells, i as int, x, y),
                        colour,
                        replacing,
                    ),
            decreases offsets.len() - i,
        {
            let off = offsets[i];
            let ghost cell = cells[i as int];
            assert(cell == placed(c, (off.0 as int, off.1 as int), w, h, clamp));
            let ghost before = *self;
            let target = if clamp {
                let raw: Vec2<i32, RenderSpace> = vec2(
                    shifted(centre.x, off.0),
                    shifted(centre.y, off.1),
                );
                Some(raw.clamp(vec2(0, 0), self.sim_size - 1))
            } else {
                let x: i64 = centre.x as i64 + off.0 as i64;
                let y: i64 = centre.y as i64 + off.1 as i64;
                if 0 <= x && x < self.sim_size.x as i64 && 0 <= y && y < self.sim_size.y as i64 {
                    Some(vec2(x as i32, y as i32))
                } else {
                    None
                }
            };
            if let Some(pos) = target {
                assert(cell == (pos.x as int, pos.y as int));
                let write = match replacing {
                    None => true,
                    Some(only) => self.read_pixel(pos) == only,
                };
                if write {
                    self.write_to_buf(pos, colour);
                }
            } else {
                assert(!before.in_view(cell.0, cell.1));
            }
            proof {
                assert forall|x: int, y: int| old(self).in_view(x, y) implies #[trigger] self.pixel(
                    x,
                    y,
                ) == painted(
                    old(self).pixel(x, y),
                    hits_upto(cells, i + 1, x, y),
                    colour,
                    replacing,
                ) by {
                    lemma_hits_step(cells, i as int, x, y);
                    assert(before.pixel(x, y) == painted(
                        old(self).pixel(x, y),
                        hits_upto(cells, i as int, x, y),
                        colour,
                        replacing,
                    ));
                }
            }
            i = i + 1;
        }
        proof {
            assert forall|x: int, y: int| old(self).in_view(x, y) implies #[trigger] self.pixel(
                x,
                y,
            ) == painted(old(self).pixel(x, y), cells.contains((x, y)), colour, replacing) by {
                lemma_hits_all(cells, x, y);
            }
        }
    }

    /// Draws the marker of one particle in white: a circle outline of its
    /// radius around its centre, as far as it lies inside the buffer.
    pub fn render_particle(&mut self, disc: Disc)
        requires
            old(self).wf(),
        ensures
            final(self).wf(),
            final(self).same_frame(*old(self)),
            forall|x: int, y: int|
                old(self).in_view(x, y) ==> #[trigger] final(self).pixel(x, y) == painted(
                    old(self).pixel(x, y),
                    disc.cells().contains((x, y)),
                    white(),
                    None,
                ),
    {
        let offsets = Shape::CircleOutline.draw(disc.radius);
        let ghost w = self.sim_size.x as int;
        let ghost h = self.sim_size.y as int;
        let ghost c = (disc.centre.x as int, disc.centre.y as int);
        proof {
            assert(placed_all(c, offsets_of(offsets@), w, h, false) =~= disc.cells());
        }
        self.paint(disc.centre, &offsets, false, white(), None);
    }

    /// Draws the marker of every particle.
    pub fn render_particles(&mut self, discs: &Vec<Disc>)
        requires
            old(self).wf(),
        ensures
            final(self).wf(),
            final(self).same_frame(*old(self)),
            forall|x: int, y: int|
                old(self).in_view(x, y) ==> #[trigger] final(self).pixel(x, y) == painted(
                    old(self).pixel(x, y),
                    marked(discs@, x, y),
                    white(),
                    None,
                ),
    {
        proof {
            assert forall|x: int, y: int| !marked_upto(discs@, 0, x, y) by {}
        }
        let mut k: usize = 0;
        while k < discs.len()
            invariant
                self.wf(),
                self.same_frame(*old(self)),
                k <= discs.len(),
                forall|x: int, y: int|
                    old(self).in_view(x, y) ==> #[trigger] self.pixel(x, y) == painted(
                        old(self).pixel(x, y),
                        marked_upto(discs@, k as int, x, y),
                        white(),
                        None,
                    ),
            decreases discs.len() - k,
        {
            let ghost before = *self;
            self.render_particle(discs[k]);
            proof {
                assert forall|x: int, y: int| old(self).in_view(x, y) implies #[trigger] self.pixel(
                    x,
                    y,
                ) == painted(
                    old(self).pixel(x, y),
                    marked_upto(discs@, k + 1, x, y),
                    white(),
                    None,
                ) by {
                    lemma_marked_step(discs@, k as int, x, y);
                    assert(before.in_view(x, y));
                    assert(before.pixel(x, y) == painted(
                        old(self).pixel(x, y),
                        marked_upto(discs@, k as int, x, y),
                        white(),
                        None,
                    ));
                }
            }
            k = k + 1;
        }
    }

    fn paint_brush(&mut self, brush: State, colour: Rgba, replacing: Option<Rgba>)
        requires
            old(self).wf(),
            brush.wf(),
        ensures
            final(self).wf(),
            final(self).same_frame(*old(self)),
            forall|x: int, y: int|
                old(self).in_view(x, y) ==> #[trigger] final(self).pixel(x, y) == painted(
                    old(self).pixel(x, y),
                    brush.brush_cells(old(self).sim_size()).contains((x, y)),
                    colour,
                    replacing,
                ),
    {
        let mouse: Vec2<i32, RenderSpace> = brush.mouse.scale(brush.scale);
        let offsets = brush.draw_shape.draw(brush.draw_size);
        self.paint(mouse, &offsets, true, colour, replacing);
    }

    /// Draws the brush outline around the cursor in the given colour. What
    /// would fall outside the buffer is drawn on its border.
    pub fn render_mouse_outline(&mut self, colour: Rgba)
        requires
            old(self).wf(),
        ensures
            final(self).wf(),
            final(self).same_frame(*old(self)),
            forall|x: int, y: int|
                old(self).in_view(x, y) ==> #[trigger] final(self).pixel(x, y) == painted(
                    old(self).pixel(x, y),
                    old(self).state().brush_cells(old(self).sim_size()).contains((x, y)),
                    colour,
                    None,
                ),
    {
        let brush = self.state;
        self.paint_brush(brush, colour, None);
    }

    /// Erases the brush outline that the last frame drew: every cell of it
    /// that still has the given colour gets the background colour.
    pub fn clear_mouse_outline(&mut self, colour: Rgba)
        requires
            old(self).wf(),
        ensures
            final(self).wf(),
            final(self).same_frame(*old(self)),
            forall|x: int, y: int|
                old(self).in_view(x, y) ==> #[trigger] final(self).pixel(x, y) == painted(
                    old(self).pixel(x, y),
                    old(self).prev_state().brush_cells(old(self).sim_size()).contains((x, y)),
                    background(),
                    Some(colour),
                ),
    {
        let brush = self.prev_state;
        self.paint_brush(brush, background(), Some(colour));
    }

    /// The colour of the cell `(x, y)` once the cursor overlay is drawn:
    /// green on the brush outline of this frame, background where the last
    /// frame's outline is still green, else as before.
    pub open spec fn overlaid(self, x: int, y: int) -> Rgba {
        painted(
            painted(
                self.pixel(x, y),
                self.prev_state().brush_cells(self.sim_size()).contains((x, y)),
                background(),
                Some(green()),
            ),
            self.state().brush_cells(self.sim_size()).contains((x, y)),
            green(),
            None,
        )
    }

    /// Draws the cursor overlay: erases the outline of the last frame, then
    /// draws that of this frame.
    pub fn handle_input_renders(&mut self)
        requires
            old(self).wf(),
        ensures
            final(self).wf(),
            final(self).same_frame(*old(self)),
            forall|x: int, y: int|
                old(self).in_view(x, y) ==> #[trigger] final(self).pixel(x, y) == old(
                    self,
                ).overlaid(x, y),
    {
        self.clear_mouse_outline(green());
        let ghost erased = *self;
        self.render_mouse_outline(green());
        proof {
            assert forall|x: int, y: int| old(self).in_view(x, y) implies #[trigger] self.pixel(
                x,
                y,
            ) == old(self).overlaid(x, y) by {
                assert(erased.in_view(x, y));
                assert(erased.pixel(x, y) == painted(
                    old(self).pixel(x, y),
                    old(self).prev_state().brush_cells(old(self).sim_size()).contains((x, y)),
                    background(),
                    Some(green()),
                ));
            }
        }
    }

    /// Begins a frame: reads the inputs into the state and clears the
    /// buffer. Returns what the particle world has to do before the frame
    /// is ended.
    pub fn begin_frame(&mut self, inputs: &InputData) -> (actions: FrameActions)
        requires
            old(self).wf(),
        ensures
            final(self).wf(),
            final(self).state() == old(self).state().after_input(*inputs),
            final(self).prev_state() == old(self).prev_state(),
            final(self).window_size() == old(self).window_size(),
            final(self).sim_size() == old(self).sim_size(),
            final(self).is_blank(),
            actions == frame_actions(old(self).state(), old(self).sim_size(), *inputs),
    {
        let actions = self.handle_input_state(inputs);
        self.clear_buffer();
        actions
    }

    /// Ends a frame: draws the particles' markers and the cursor overlay,
    /// keeps the state for the next frame's erasing, counts the frame, and
    /// forgets the taps and mouse edges that the frame has read.
    pub fn end_frame(&mut self, inputs: &mut InputData, discs: &Vec<Disc>)
        requires
            old(self).wf(),
            old(self).state().frame < usize::MAX,
        ensures
            final(self).wf(),
            final(self).state() == old(self).state().after_frame(),
            final(self).prev_state() == old(self).state(),
            final(self).window_size() == old(self).window_size(),
            final(self).sim_size() == old(self).sim_size(),
            forall|x: int, y: int|
                old(self).in_view(x, y) ==> #[trigger] final(self).pixel(x, y) == painted(
                    painted(
                        painted(old(self).pixel(x, y), marked(discs@, x, y), white(), None),
                        old(self).prev_state().brush_cells(old(self).sim_size()).contains((x, y)),
                        background(),
                        Some(green()),
                    ),
                    old(self).state().brush_cells(old(self).sim_size()).contains((x, y)),
                    green(),
                    None,
                ),
            forall|k: Key|
                final(inputs).key(k) == old(inputs).key(k).after(crate::input::KeySignal::FrameEnd),
            *final(inputs) == (InputData {
                keys_tapped: final(inputs).keys_tapped,
                press_edge: false,
                release_edge: false,
                ..*old(inputs)
            }),
    {
        self.render_particles(discs);
        let ghost marked_up = *self;
        self.handle_input_renders();
        let ghost drawn = *self;
        self.prev_state = self.state;
        self.state.step_sim = false;
        self.state.frame = self.state.frame + 1;
        inputs.end_frame();
        proof {
            assert forall|x: int, y: int| old(self).in_view(x, y) implies #[trigger] self.pixel(
                x,
                y,
            ) == painted(
                painted(
                    painted(old(self).pixel(x, y), marked(discs@, x, y), white(), None),
                    old(self).prev_state().brush_cells(old(self).sim_size()).contains((x, y)),
                    background(),
                    Some(green()),
                ),
                old(self).state().brush_cells(old(self).sim_size()).contains((x, y)),
                green(),
                None,
            ) by {
                assert(marked_up.in_view(x, y));
                assert(self.pixel(x, y) == drawn.pixel(x, y));
                assert(drawn.pixel(x, y) == marked_up.overlaid(x, y));
                assert(marked_up.pixel(x, y) == painted(
                    old(self).pixel(x, y),
                    marked(discs@, x, y),
                    white(),
                    None,
                ));
            }
        }
    }

    /// Resets every byte of the buffer to the background byte.
    pub fn clear_buffer(&mut self)
        requires
            old(self).wf(),
        ensures
            final(self).wf(),
            final(self).same_frame(*old(self)),
            final(self).is_blank(),
    {
        let n = self.buf.len();
        let mut i: usize = 0;
        while i < n
            invariant
                n == self.buf@.len(),
                i <= n,
                self.same_frame(*old(self)),
                forall|j: int| 0 <= j < i ==> self.buf@[j] == BACKGROUND_BYTE,
            decreases n - i,
        {
            self.buf[i] = BACKGROUND_BYTE;
            i = i + 1;
        }
    }
}

} // verus!
