use conway::{Coord, Event, Key, Pointer, Simulation};

fn sorted(sim: &Simulation) -> Vec<(i32, i32)> {
    let mut v: Vec<(i32, i32)> = sim.cells().as_slice().iter().map(|p| (p.x, p.y)).collect();
    v.sort();
    v
}

fn paint(x: i32, y: i32) -> Pointer {
    Pointer { x, y, paint: true, erase: false }
}

fn erase(x: i32, y: i32) -> Pointer {
    Pointer { x, y, paint: false, erase: true }
}

#[test]
fn paint_then_erase_leaves_cell_dead() {
    let mut sim = Simulation::new();
    sim.edit(paint(25, 35));
    assert!(sim.cells().contains(Coord { x: 2, y: 3 }));
    sim.edit(erase(25, 35));
    assert!(!sim.cells().contains(Coord { x: 2, y: 3 }));
    assert!(sim.cells().is_empty());
}

#[test]
fn erasing_dead_cell_is_no_op() {
    let mut sim = Simulation::new();
    sim.edit(paint(5, 5));
    sim.edit(erase(55, 55));
    assert_eq!(sorted(&sim), vec![(0, 0)]);
}

#[test]
fn erase_wins_over_paint() {
    let mut sim = Simulation::new();
    sim.edit(Pointer { x: 15, y: 15, paint: true, erase: true });
    assert!(sim.cells().is_empty());
}

#[test]
fn clear_while_running_and_paused() {
    let mut sim = Simulation::new();
    sim.edit(paint(0, 0));
    sim.edit(paint(10, 0));
    assert!(sim.is_running());
    assert!(sim.handle(Event::KeyDown(Key::Clear)));
    assert!(sim.cells().is_empty());
    assert!(sim.is_running());

    sim.edit(paint(0, 0));
    assert!(sim.handle(Event::KeyDown(Key::ToggleRun)));
    assert!(!sim.is_running());
    assert!(sim.handle(Event::KeyDown(Key::Clear)));
    assert!(sim.cells().is_empty());
    assert!(!sim.is_running());
}

#[test]
fn quit_and_close_end_the_loop() {
    let mut sim = Simulation::new();
    assert!(!sim.handle(Event::KeyDown(Key::Quit)));
    assert!(!sim.handle(Event::Close));
    assert!(sim.handle(Event::KeyUp(Key::Quit)));
}

#[test]
fn held_keys_pan_the_camera() {
    let mut sim = Simulation::new();
    sim.handle(Event::KeyDown(Key::Right));
    sim.handle(Event::KeyDown(Key::Up));
    sim.pan();
    assert_eq!(sim.camera(), (15, -15));
    sim.pan();
    assert_eq!(sim.camera(), (30, -30));
    sim.handle(Event::KeyUp(Key::Up));
    sim.handle(Event::KeyDown(Key::Left));
    sim.pan();
    assert_eq!(sim.camera(), (30, -30));
    sim.handle(Event::KeyUp(Key::Left));
    sim.handle(Event::KeyUp(Key::Right));
    sim.handle(Event::KeyDown(Key::Down));
    sim.pan();
    assert_eq!(sim.camera(), (30, -15));
}

#[test]
fn camera_offsets_painting() {
    let mut sim = Simulation::new();
    sim.handle(Event::KeyDown(Key::Right));
    for _ in 0..2 {
        sim.pan();
    }
    sim.edit(paint(5, 5));
    assert_eq!(sorted(&sim), vec![(3, 0)]);
}

#[test]
fn paused_simulation_does_not_step() {
    let mut sim = Simulation::new();
    sim.edit(paint(0, 0));
    sim.handle(Event::KeyDown(Key::ToggleRun));
    for _ in 0..100 {
        assert!(!sim.tick());
    }
    assert_eq!(sorted(&sim), vec![(0, 0)]);
}

#[test]
fn steps_every_step_frame_ticks() {
    let mut sim = Simulation::new();
    let mut stepped_at = Vec::new();
    for i in 0..40u64 {
        if sim.tick() {
            stepped_at.push(i);
        }
    }
    let f = conway::sim::STEP_FRAME;
    assert_eq!(stepped_at, vec![f, 2 * f, 3 * f]);
}

#[test]
fn painted_blinker_turns_after_one_generation() {
    let mut sim = Simulation::new();
    for (gx, gy) in [(0, 0), (1, 0), (2, 0)] {
        sim.edit(paint(gx * conway::CELL_SIZE, gy * conway::CELL_SIZE));
    }
    assert_eq!(sorted(&sim), vec![(0, 0), (1, 0), (2, 0)]);
    while !sim.tick() {}
    assert_eq!(sorted(&sim), vec![(1, -1), (1, 0), (1, 1)]);
}
