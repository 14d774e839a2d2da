use toy_physics::colour::{background, green, white, Rgba, BACKGROUND_BYTE};
use toy_physics::config::{INIT_DRAW_SIZE, MAX_DRAW_SIZE, SIM_MAX_SCALE};
use toy_physics::gravity_sim::{write_colour, Disc, GravitySim, ParticleCommand};
use toy_physics::input::{InputData, Key};
use toy_physics::shape::Shape;
use toy_physics::space::{vec2, RenderSpace, ScreenSpace, Vec2};

fn sim(width: u32, height: u32, scale: u32) -> GravitySim {
    let window: Vec2<u32, ScreenSpace> = vec2(width, height);
    GravitySim::new(window, scale)
}

fn cell(x: i32, y: i32) -> Vec2<i32, RenderSpace> {
    vec2(x, y)
}

fn tap(inputs: &mut InputData, key: Key, now: u64) {
    inputs.register_key(key, true, now);
    assert!(inputs.is_pressed(key));
}

/// The cells of the buffer that have the given colour.
fn cells_of(sim: &GravitySim, colour: Rgba) -> Vec<(i32, i32)> {
    let data = sim.get_sim_data();
    let mut out = Vec::new();
    for y in 0..data.size.y as i32 {
        for x in 0..data.size.x as i32 {
            if sim.read_pixel(cell(x, y)) == colour {
                out.push((x, y));
            }
        }
    }
    out
}

fn blank() -> Rgba {
    Rgba::from_rgba(BACKGROUND_BYTE, BACKGROUND_BYTE, BACKGROUND_BYTE, BACKGROUND_BYTE)
}

#[test]
fn a_new_simulation_is_paused_and_blank() {
    let sim = sim(800, 600, 3);
    let data = sim.get_sim_data();
    assert_eq!((data.size.x, data.size.y), (266, 200));
    assert_eq!(data.buf.len(), 266 * 200 * 4);
    assert!(data.buf.iter().all(|b| *b == 44));
    assert_eq!(data.frame, 0);
    assert_eq!(sim.get_scale(), 3);
}

#[test]
fn resizing_the_window_refits_the_buffer() {
    let mut s = sim(200, 200, 2);
    assert_eq!(s.get_sim_data().size, vec2(100, 100));
    assert_eq!(s.get_sim_data().buf.len(), 100 * 100 * 4);
    s.write_to_buf(cell(3, 3), white());
    s.resize_sim(vec2(100, 100));
    let data = s.get_sim_data();
    assert_eq!(data.size, vec2(50, 50));
    assert_eq!(data.buf.len(), 50 * 50 * 4);
    assert!(data.buf.iter().all(|b| *b == BACKGROUND_BYTE));
    assert_eq!(s.get_scale(), 2);
    assert_eq!(data.frame, 0);
}

#[test]
fn a_resize_to_nothing_is_skipped() {
    let mut s = sim(200, 100, 2);
    s.write_to_buf(cell(3, 3), white());
    for (w, h) in [(0, 0), (0, 50), (50, 0), (0, i32::MAX as u32), (1, 50), (50, 1)] {
        s.resize_sim(vec2(w, h));
        let data = s.get_sim_data();
        assert_eq!(data.size, vec2(100, 50));
        assert_eq!(data.buf.len(), 100 * 50 * 4);
    }
    assert_eq!(s.read_pixel(cell(3, 3)), white());
}

#[test]
fn a_resize_that_keeps_the_size_keeps_the_buffer() {
    let mut s = sim(200, 100, 2);
    s.write_to_buf(cell(3, 3), white());
    s.resize_sim(vec2(201, 101));
    assert_eq!(s.get_sim_data().size, vec2(100, 50));
    assert_eq!(s.read_pixel(cell(3, 3)), white());
    // The window is the new one all the same.
    assert_eq!(s.get_window_size(), vec2(201, 101));
    s.rescale_sim(1);
    assert_eq!(s.get_sim_data().size, vec2(201, 101));
}

#[test]
fn a_skipped_resize_keeps_the_window() {
    let mut s = sim(200, 100, 4);
    s.resize_sim(vec2(3, 100));
    assert_eq!(s.get_window_size(), vec2(200, 100));
    assert_eq!(s.get_sim_data().size, vec2(50, 25));
}

#[test]
fn a_large_window_is_shown_where_its_buffer_fits() {
    let s = sim(40_000, 40_000, 10);
    let data = s.get_sim_data();
    assert_eq!(data.size, vec2(4_000, 4_000));
    assert_eq!(data.buf.len(), 4_000 * 4_000 * 4);
    let mut small = sim(100, 100, 10);
    small.resize_sim(vec2(40_000, 20_000));
    assert_eq!(small.get_sim_data().size, vec2(4_000, 2_000));
    assert_eq!(small.get_sim_data().buf.len(), 4_000 * 2_000 * 4);
}

#[test]
fn the_scale_keys_leave_the_scale_where_no_cell_would_be_left() {
    let mut s = sim(5, 5, 5);
    let mut inputs = InputData::new(0);
    tap(&mut inputs, Key::Equal, 1_000);
    assert!(!s.handle_scale_input(&inputs));
    assert_eq!(s.get_scale(), 5);
    assert_eq!(s.get_sim_data().size, vec2(1, 1));
}

#[test]
fn rescaling_refits_the_buffer() {
    let mut s = sim(200, 100, 2);
    s.rescale_sim(4);
    assert_eq!(s.get_scale(), 4);
    assert_eq!(s.get_sim_data().size, vec2(50, 25));
    assert_eq!(s.get_sim_data().buf.len(), 50 * 25 * 4);
    s.rescale_sim(1);
    assert_eq!(s.get_sim_data().size, vec2(200, 100));
    // At a scale beyond the window no cell would be left: nothing changes.
    s.rescale_sim(101);
    assert_eq!(s.get_scale(), 1);
    assert_eq!(s.get_sim_data().size, vec2(200, 100));
}

#[test]
fn the_scale_keys_stay_within_their_limits() {
    let mut s = sim(200, 200, 1);
    let mut inputs = InputData::new(0);
    tap(&mut inputs, Key::Minus, 1_000);
    assert!(!s.handle_scale_input(&inputs));
    assert_eq!(s.get_scale(), 1);
    inputs.end_frame();
    assert!(!s.handle_scale_input(&inputs));
    let mut now = 2_000;
    for expected in 2..=SIM_MAX_SCALE {
        tap(&mut inputs, Key::Equal, now);
        assert!(s.handle_scale_input(&inputs));
        assert_eq!(s.get_scale(), expected);
        assert_eq!(s.get_sim_data().size, vec2(200 / expected, 200 / expected));
        inputs.end_frame();
        now += 1_000;
    }
    tap(&mut inputs, Key::Equal, now);
    assert!(!s.handle_scale_input(&inputs));
    assert_eq!(s.get_scale(), SIM_MAX_SCALE);
    // Minus wins where both were tapped.
    tap(&mut inputs, Key::Minus, now);
    assert!(s.handle_scale_input(&inputs));
    assert_eq!(s.get_scale(), SIM_MAX_SCALE - 1);
}

#[test]
fn a_drag_asks_for_a_particle_flung_against_the_drag() {
    let mut s = sim(100, 100, 1);
    let mut inputs = InputData::new(0);
    inputs.register_cursor(vec2(10, 10));
    inputs.register_mouse_button(true);
    inputs.register_cursor(vec2(20, 10));
    inputs.register_mouse_button(false);
    let actions = s.handle_input_state(&inputs);
    let spawn = actions.spawn.unwrap();
    assert_eq!(spawn.at, vec2(10, 10));
    assert_eq!(spawn.velocity.num, vec2(-200, 0));
    assert_eq!(spawn.velocity.den, vec2(100, 100));
    assert!(spawn.velocity.num.x < 0 && spawn.velocity.den.x > 0);
    assert_eq!(spawn.velocity.num.x as f64 / spawn.velocity.den.x as f64, -2.0);
    assert_eq!(spawn.size, INIT_DRAW_SIZE);
}

#[test]
fn the_fling_is_measured_in_cells_and_viewports() {
    // A window of 300 by 150 pixels at scale 3 is a viewport of 100 by 50 cells.
    let mut s = sim(300, 150, 3);
    let mut inputs = InputData::new(0);
    inputs.register_cursor(vec2(90, 60));
    inputs.register_mouse_button(true);
    inputs.register_cursor(vec2(60, 75));
    inputs.register_mouse_button(false);
    let spawn = s.handle_input_state(&inputs).spawn.unwrap();
    assert_eq!(spawn.at, vec2(90, 60));
    assert_eq!(spawn.velocity.num, vec2(30 * 20, -15 * 20));
    assert_eq!(spawn.velocity.den, vec2(3 * 100, 3 * 50));
}

#[test]
fn a_press_asks_for_a_particle_at_rest() {
    let mut s = sim(100, 100, 1);
    let mut inputs = InputData::new(0);
    inputs.register_cursor(vec2(30, 40));
    inputs.register_mouse_button(true);
    let actions = s.handle_input_state(&inputs);
    let spawn = actions.spawn.unwrap();
    assert_eq!(spawn.at, vec2(30, 40));
    assert_eq!(spawn.velocity.num, vec2(0, 0));
    assert_eq!(spawn.velocity.den, vec2(100, 100));
    inputs.end_frame();
    // The button is still down, but that is no new press.
    assert!(s.handle_input_state(&inputs).spawn.is_none());
}

#[test]
fn the_fling_of_the_widest_drag_fits() {
    let mut s = sim(100, 100, 1);
    let mut inputs = InputData::new(0);
    inputs.register_cursor(vec2(i32::MIN, i32::MAX));
    inputs.register_mouse_button(true);
    inputs.register_cursor(vec2(i32::MAX, i32::MIN));
    inputs.register_mouse_button(false);
    let spawn = s.handle_input_state(&inputs).spawn.unwrap();
    assert_eq!(spawn.velocity.num, vec2(-20 * (u32::MAX as i64), 20 * (u32::MAX as i64)));
}

#[test]
fn space_toggles_running_and_the_right_arrow_steps_once() {
    let mut s = sim(100, 100, 1);
    let mut inputs = InputData::new(0);
    let discs: Vec<Disc> = Vec::new();
    // Paused, no input: no step.
    assert!(!s.begin_frame(&inputs).step);
    s.end_frame(&mut inputs, &discs);
    // A step while paused: one frame of physics, then paused again.
    tap(&mut inputs, Key::ArrowRight, 1_000);
    assert!(s.begin_frame(&inputs).step);
    s.end_frame(&mut inputs, &discs);
    assert!(!s.begin_frame(&inputs).step);
    s.end_frame(&mut inputs, &discs);
    // Space: running until space is tapped again.
    tap(&mut inputs, Key::Space, 2_000);
    assert!(s.begin_frame(&inputs).step);
    s.end_frame(&mut inputs, &discs);
    assert!(s.begin_frame(&inputs).step);
    s.end_frame(&mut inputs, &discs);
    tap(&mut inputs, Key::Space, 3_000);
    assert!(!s.begin_frame(&inputs).step);
    s.end_frame(&mut inputs, &discs);
    assert_eq!(s.get_sim_data().frame, 6);
}

#[test]
fn clear_comes_before_reset() {
    let mut s = sim(100, 100, 1);
    let mut inputs = InputData::new(0);
    assert_eq!(s.handle_input_state(&inputs).particles, ParticleCommand::Keep);
    tap(&mut inputs, Key::KeyR, 1_000);
    assert_eq!(s.handle_input_state(&inputs).particles, ParticleCommand::Reset);
    tap(&mut inputs, Key::KeyC, 1_000);
    assert_eq!(s.handle_input_state(&inputs).particles, ParticleCommand::Clear);
}

#[test]
fn held_keys_push_the_camera() {
    let mut s = sim(100, 100, 1);
    let mut inputs = InputData::new(0);
    assert_eq!(s.handle_input_state(&inputs).camera_push, vec2(0, 0));
    inputs.register_key(Key::KeyW, true, 1_000);
    inputs.register_key(Key::KeyD, true, 1_000);
    inputs.end_frame();
    assert_eq!(s.handle_input_state(&inputs).camera_push, vec2(1, -1));
    inputs.register_key(Key::KeyS, true, 1_000);
    inputs.register_key(Key::KeyA, true, 1_000);
    assert_eq!(s.handle_input_state(&inputs).camera_push, vec2(0, 0));
    inputs.register_key(Key::KeyW, false, 1_001);
    inputs.register_key(Key::KeyD, false, 1_001);
    assert_eq!(s.handle_input_state(&inputs).camera_push, vec2(-1, 1));
}

/// The brush as the overlay shows it: the green cells after a frame.
fn brush_after_frame(s: &mut GravitySim, inputs: &mut InputData) -> Vec<(i32, i32)> {
    s.begin_frame(inputs);
    s.end_frame(inputs, &Vec::new());
    let mut cells = cells_of(s, green());
    cells.sort();
    cells
}

fn placed(shape: Shape, size: i32, centre: (i32, i32), w: i32, h: i32) -> Vec<(i32, i32)> {
    let mut cells: Vec<(i32, i32)> = shape
        .draw(size)
        .into_iter()
        .map(|(dx, dy)| ((centre.0 + dx).clamp(0, w - 1), (centre.1 + dy).clamp(0, h - 1)))
        .collect();
    cells.sort();
    cells.dedup();
    cells
}

#[test]
fn the_brush_size_stays_within_its_limits() {
    let mut s = sim(2_000, 2_000, 1);
    let mut inputs = InputData::new(0);
    inputs.register_cursor(vec2(1_000, 1_000));
    let mut now = 1_000;
    for _ in 0..INIT_DRAW_SIZE + 3 {
        tap(&mut inputs, Key::ArrowDown, now);
        s.begin_frame(&inputs);
        s.end_frame(&mut inputs, &Vec::new());
        now += 1_000;
    }
    // Size 1: the filled circle of radius 1 is the centre and its four neighbours.
    let mut cells = cells_of(&s, green());
    cells.sort();
    assert_eq!(
        cells,
        vec![(999, 1_000), (1_000, 999), (1_000, 1_000), (1_000, 1_001), (1_001, 1_000)]
    );
    tap(&mut inputs, Key::ArrowUp, now);
    assert_eq!(
        brush_after_frame(&mut s, &mut inputs),
        placed(Shape::CircleFill, 2, (1_000, 1_000), 2_000, 2_000)
    );
}

#[test]
fn the_brush_size_stops_at_its_maximum() {
    let mut s = sim(100, 100, 1);
    let mut inputs = InputData::new(0);
    let mut now = 1_000;
    for _ in INIT_DRAW_SIZE..MAX_DRAW_SIZE + 5 {
        tap(&mut inputs, Key::ArrowUp, now);
        s.handle_input_state(&inputs);
        inputs.end_frame();
        now += 1_000;
    }
    inputs.register_cursor(vec2(10, 10));
    inputs.register_mouse_button(true);
    let spawn = s.handle_input_state(&inputs).spawn.unwrap();
    assert_eq!(spawn.size, MAX_DRAW_SIZE);
}

#[test]
fn tab_cycles_the_brush_shape() {
    let mut s = sim(100, 100, 1);
    let mut inputs = InputData::new(0);
    inputs.register_cursor(vec2(50, 50));
    let size = INIT_DRAW_SIZE;
    assert_eq!(
        brush_after_frame(&mut s, &mut inputs),
        placed(Shape::CircleFill, size, (50, 50), 100, 100)
    );
    tap(&mut inputs, Key::Tab, 1_000);
    assert_eq!(
        brush_after_frame(&mut s, &mut inputs),
        placed(Shape::SquareCentered, size, (50, 50), 100, 100)
    );
    tap(&mut inputs, Key::Tab, 2_000);
    assert_eq!(
        brush_after_frame(&mut s, &mut inputs),
        placed(Shape::CircleOutline, size, (50, 50), 100, 100)
    );
    tap(&mut inputs, Key::Tab, 3_000);
    assert_eq!(
        brush_after_frame(&mut s, &mut inputs),
        placed(Shape::CircleFill, size, (50, 50), 100, 100)
    );
}

#[test]
fn the_brush_is_drawn_in_the_cell_under_the_cursor() {
    let mut s = sim(300, 300, 3);
    let mut inputs = InputData::new(0);
    inputs.register_cursor(vec2(152, 91));
    assert_eq!(
        brush_after_frame(&mut s, &mut inputs),
        placed(Shape::CircleFill, INIT_DRAW_SIZE, (50, 30), 100, 100)
    );
}

#[test]
fn a_brush_beyond_the_buffer_lies_on_its_border() {
    let mut s = sim(100, 100, 1);
    let mut inputs = InputData::new(0);
    inputs.register_cursor(vec2(-500, 50));
    let cells = brush_after_frame(&mut s, &mut inputs);
    assert!(!cells.is_empty());
    assert!(cells.iter().all(|(x, _)| *x == 0));
    inputs.register_cursor(vec2(i32::MAX, i32::MIN));
    assert_eq!(brush_after_frame(&mut s, &mut inputs), vec![(99, 0)]);
    inputs.register_cursor(vec2(i32::MIN, i32::MAX));
    assert_eq!(brush_after_frame(&mut s, &mut inputs), vec![(0, 99)]);
}

#[test]
fn begin_frame_clears_the_buffer() {
    let mut s = sim(40, 40, 1);
    let mut inputs = InputData::new(0);
    inputs.register_cursor(vec2(20, 20));
    s.begin_frame(&inputs);
    s.end_frame(&mut inputs, &vec![Disc { centre: cell(10, 10), radius: 3 }]);
    assert!(!cells_of(&s, green()).is_empty());
    assert!(!cells_of(&s, white()).is_empty());
    s.begin_frame(&inputs);
    assert!(s.get_sim_data().buf.iter().all(|b| *b == BACKGROUND_BYTE));
}

#[test]
fn a_particle_shows_as_a_white_circle_outline() {
    let mut s = sim(40, 30, 1);
    s.render_particle(Disc { centre: cell(20, 15), radius: 5 });
    let mut expected: Vec<(i32, i32)> =
        Shape::CircleOutline.draw(5).into_iter().map(|(dx, dy)| (20 + dx, 15 + dy)).collect();
    expected.sort();
    expected.dedup();
    let mut cells = cells_of(&s, white());
    cells.sort();
    assert_eq!(cells, expected);
    assert_eq!(cells_of(&s, blank()).len(), 40 * 30 - expected.len());
}

#[test]
fn a_particle_at_the_edge_is_clipped() {
    let mut s = sim(40, 30, 1);
    s.render_particle(Disc { centre: cell(0, 0), radius: 5 });
    let mut expected: Vec<(i32, i32)> = Shape::CircleOutline
        .draw(5)
        .into_iter()
        .filter(|(dx, dy)| *dx >= 0 && *dy >= 0)
        .collect();
    expected.sort();
    expected.dedup();
    let mut cells = cells_of(&s, white());
    cells.sort();
    assert_eq!(cells, expected);
}

#[test]
fn particles_far_away_or_without_radius_leave_no_mark() {
    let mut s = sim(40, 30, 1);
    let discs = vec![
        Disc { centre: cell(i32::MAX, i32::MAX), radius: 7 },
        Disc { centre: cell(i32::MIN, 10), radius: i32::MAX / 1_000_000 },
        Disc { centre: cell(20, 15), radius: 0 },
        Disc { centre: cell(20, 15), radius: -4 },
    ];
    s.render_particles(&discs);
    assert!(s.get_sim_data().buf.iter().all(|b| *b == BACKGROUND_BYTE));
}

#[test]
fn every_particle_is_drawn() {
    let mut s = sim(60, 60, 1);
    let discs = vec![
        Disc { centre: cell(20, 20), radius: 2 },
        Disc { centre: cell(40, 40), radius: 1 },
    ];
    s.render_particles(&discs);
    assert_eq!(s.read_pixel(cell(22, 20)), white());
    assert_eq!(s.read_pixel(cell(20, 18)), white());
    assert_eq!(s.read_pixel(cell(41, 40)), white());
    assert_eq!(s.read_pixel(cell(40, 39)), white());
    assert_eq!(s.read_pixel(cell(20, 20)), blank());
    assert_eq!(s.read_pixel(cell(30, 30)), blank());
}

#[test]
fn erasing_spares_what_was_drawn_over_the_outline() {
    let mut s = sim(60, 60, 1);
    let mut inputs = InputData::new(0);
    inputs.register_cursor(vec2(30, 30));
    // A first frame, so that the last frame's brush is where the cursor is.
    s.begin_frame(&inputs);
    s.end_frame(&mut inputs, &Vec::new());
    s.begin_frame(&inputs);
    s.clear_buffer();
    s.render_mouse_outline(green());
    s.write_to_buf(cell(30, 30), white());
    s.write_to_buf(cell(0, 0), green());
    s.clear_mouse_outline(green());
    // The outline is gone, but for the cell that something else was drawn on.
    assert_eq!(cells_of(&s, white()), vec![(30, 30)]);
    // Green outside the outline is not touched.
    assert_eq!(cells_of(&s, green()), vec![(0, 0)]);
    let erased = cells_of(&s, background());
    let mut expected = placed(Shape::CircleFill, INIT_DRAW_SIZE, (30, 30), 60, 60);
    expected.retain(|c| *c != (30, 30));
    assert_eq!(erased, {
        expected.sort_by_key(|(x, y)| (*y, *x));
        expected
    });
}

#[test]
fn erasing_uses_the_brush_of_the_last_frame() {
    let mut s = sim(60, 60, 1);
    let mut inputs = InputData::new(0);
    inputs.register_cursor(vec2(10, 10));
    s.begin_frame(&inputs);
    s.end_frame(&mut inputs, &Vec::new());
    // The cursor moves; the new frame has not been begun, so the buffer
    // still shows the old outline.
    inputs.register_cursor(vec2(40, 40));
    s.handle_input_state(&inputs);
    s.handle_input_renders();
    let mut cells = cells_of(&s, green());
    cells.sort();
    assert_eq!(cells, placed(Shape::CircleFill, INIT_DRAW_SIZE, (40, 40), 60, 60));
    let mut erased = cells_of(&s, background());
    erased.sort();
    assert_eq!(erased, placed(Shape::CircleFill, INIT_DRAW_SIZE, (10, 10), 60, 60));
}

#[test]
fn end_frame_counts_the_frame_and_forgets_the_taps() {
    let mut s = sim(60, 60, 1);
    let mut inputs = InputData::new(0);
    tap(&mut inputs, Key::KeyC, 1_000);
    inputs.register_mouse_button(true);
    let actions = s.begin_frame(&inputs);
    assert_eq!(actions.particles, ParticleCommand::Clear);
    s.end_frame(&mut inputs, &Vec::new());
    assert_eq!(s.get_sim_data().frame, 1);
    assert!(!inputs.is_pressed(Key::KeyC));
    assert!(inputs.is_held(Key::KeyC));
    assert!(!inputs.was_mouse_pressed());
    assert!(inputs.mouse_down);
    let actions = s.begin_frame(&inputs);
    assert_eq!(actions.particles, ParticleCommand::Keep);
    assert!(actions.spawn.is_none());
}

#[test]
fn write_colour_writes_four_bytes() {
    let mut buf = vec![0u8; 12];
    write_colour(4, &mut buf, Rgba::from_rgba(1, 2, 3, 4));
    assert_eq!(buf, vec![0, 0, 0, 0, 1, 2, 3, 4, 0, 0, 0, 0]);
}

#[test]
fn write_to_buf_sets_one_cell() {
    let mut s = sim(8, 6, 2);
    s.write_to_buf(cell(3, 2), Rgba::from_rgba(1, 2, 3, 4));
    let data = s.get_sim_data();
    assert_eq!(data.size, vec2(4, 3));
    let at = 4 * (2 * 4 + 3);
    assert_eq!(&data.buf[at..at + 4], &[1, 2, 3, 4]);
    assert_eq!(data.buf.iter().filter(|b| **b != BACKGROUND_BYTE).count(), 4);
    assert_eq!(s.read_pixel(cell(3, 2)), Rgba::from_rgba(1, 2, 3, 4));
    assert_eq!(s.read_pixel(cell(2, 2)), blank());
}
