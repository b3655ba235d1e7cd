use vstd::prelude::*;

use crate::cells::CellSet;
use crate::coord::{grid_of, mouse_to_grid};
use crate::life::{all_interior, next_generation, step};

verus! {

/// Pixels the camera moves per frame while a direction is held.
pub const PAN_SPEED: i32 = 15;

/// Frames rendered per second.
pub const FPS: u64 = 144;

/// Generations per second while running.
pub const STEPS_RATE: u64 = 12;

/// Frames between two generations while running.
pub const STEP_FRAME: u64 = FPS / STEPS_RATE;

/// The keys that the simulation reacts to.
#[derive(Clone, Copy, Debug, PartialEq, Eq, Structural)]
pub enum Key {
    Up,
    Left,
    Down,
    Right,
    ToggleRun,
    Clear,
    Quit,
}

/// An input event.
#[derive(Clone, Copy, Debug, PartialEq, Eq, Structural)]
pub enum Event {
    KeyDown(Key),
    KeyUp(Key),
    Close,
}

/// The pointer as sampled once per frame.
#[derive(Clone, Copy, Debug, PartialEq, Eq, Structural)]
pub struct Pointer {
    pub x: i32,
    pub y: i32,
    /// The paint button is held.
    pub paint: bool,
    /// The erase button is held.
    pub erase: bool,
}

/// Whether a directional key `k` is held after event `e`, given that it was
/// held before exactly when `was`.
pub open spec fn latch(was: bool, k: Key, e: Event) -> bool {
    match e {
        Event::KeyDown(j) => if j == k {
            true
        } else {
            was
        },
        Event::KeyUp(j) => if j == k {
            false
        } else {
            was
        },
        Event::Close => was,
    }
}

/// The event ends the simulation.
pub open spec fn quits(e: Event) -> bool {
    e == Event::Close || e == Event::KeyDown(Key::Quit)
}

/// The live cells after a frame whose pointer is over `cell`: painting
/// inserts it, then erasing removes it, so erasing wins when both are held.
pub open spec fn edited(live: Set<(int, int)>, cell: (int, int), paint: bool, erase: bool) -> Set<
    (int, int),
> {
    let painted = if paint {
        live.insert(cell)
    } else {
        live
    };
    if erase {
        painted.remove(cell)
    } else {
        painted
    }
}

/// How far one axis of the camera moves in a frame, with `neg` and `pos`
/// the two directions of that axis held or not.
pub open spec fn pan_delta(neg: bool, pos: bool) -> int {
    (if pos {
        PAN_SPEED as int
    } else {
        0int
    }) - (if neg {
        PAN_SPEED as int
    } else {
        0int
    })
}

/// The state of a running simulation: the live cells, the camera, the
/// directional keys held, whether generations advance, and the frames
/// since the last generation.
pub struct Simulation {
    cells: CellSet,
    cam_x: i32,
    cam_y: i32,
    up: bool,
    left: bool,
    down: bool,
    right: bool,
    running: bool,
    frame: u64,
}

impl Simulation {
    /// The cells are well formed and the frame counter has not passed its
    /// threshold.
    pub closed spec fn inv(&self) -> bool {
        &&& self.cells.well_formed()
        &&& self.frame <= STEP_FRAME
    }

    /// The live cells.
    pub closed spec fn live(&self) -> Set<(int, int)> {
        self.cells@
    }

    /// The camera offset.
    pub closed spec fn cam(&self) -> (int, int) {
        (self.cam_x as int, self.cam_y as int)
    }

    /// Whether directional key `k` is held; false for the other keys.
    pub closed spec fn held(&self, k: Key) -> bool {
        match k {
            Key::Up => self.up,
            Key::Left => self.left,
            Key::Down => self.down,
            Key::Right => self.right,
            _ => false,
        }
    }

    /// Whether generations advance.
    pub closed spec fn running(&self) -> bool {
        self.running
    }

    /// Frames counted toward the next generation.
    pub closed spec fn frames(&self) -> int {
        self.frame as int
    }

    /// A simulation with no live cells, the camera at the origin, no key
    /// held, and generations advancing.
    pub fn new() -> (r: Simulation)
        ensures
            r.inv(),
            r.live() == Set::<(int, int)>::empty(),
            r.cam() == (0int, 0int),
            forall|k: Key| !#[trigger] r.held(k),
            r.running(),
            r.frames() == 0,
    {
        Simulation {
            cells: CellSet::new(),
            cam_x: 0,
            cam_y: 0,
            up: false,
            left: false,
            down: false,
            right: false,
            running: true,
            frame: 0,
        }
    }

    /// The live cells.
    pub fn cells(&self) -> (r: &CellSet)
        requires
            self.inv(),
        ensures
            r.well_formed(),
            r@ == self.live(),
    {
        &self.cells
    }

    /// The camera offset.
    pub fn camera(&self) -> (r: (i32, i32))
        ensures
            (r.0 as int, r.1 as int) == self.cam(),
    {
        (self.cam_x, self.cam_y)
    }

    /// Whether generations advance.
    pub fn is_running(&self) -> (r: bool)
        ensures
            r == self.running(),
    {
        self.running
    }

    /// Makes every cell dead, running or paused.
    pub fn clear(&mut self)
        requires
            old(self).inv(),
        ensures
            final(self).inv(),
            final(self).live() == Set::<(int, int)>::empty(),
            final(self).cam() == old(self).cam(),
            forall|k: Key| #[trigger] final(self).held(k) == old(self).held(k),
            final(self).running() == old(self).running(),
            final(self).frames() == old(self).frames(),
    {
        self.cells.clear();
    }

    /// Applies one input event; returns false when the event ends the
    /// simulation, which then stays as it was.
    pub fn handle(&mut self, e: Event) -> (go_on: bool)
        requires
            old(self).inv(),
        ensures
            final(self).inv(),
            go_on == !quits(e),
            final(self).live() == if e == Event::KeyDown(Key::Clear) {
                Set::<(int, int)>::empty()
            } else {
                old(self).live()
            },
            final(self).running() == if e == Event::KeyDown(Key::ToggleRun) {
                !old(self).running()
            } else {
                old(self).running()
            },
            forall|k: Key|
                k == Key::Up || k == Key::Left || k == Key::Down || k == Key::Right
                    ==> #[trigger] final(self).held(k) == latch(old(self).held(k), k, e),
            forall|k: Key|
                !(k == Key::Up || k == Key::Left || k == Key::Down || k == Key::Right)
                    ==> !#[trigger] final(self).held(k),
            final(self).cam() == old(self).cam(),
            final(self).frames() == old(self).frames(),
    {
        match e {
            Event::Close => false,
            Event::KeyDown(Key::Quit) => false,
            Event::KeyDown(k) => {
                match k {
                    Key::Up => self.up = true,
                    Key::Left => self.left = true,
                    Key::Down => self.down = true,
                    Key::Right => self.right = true,
                    Key::ToggleRun => self.running = !self.running,
                    Key::Clear => self.clear(),
                    Key::Quit => {},
                }
                true
            },
            Event::KeyUp(k) => {
                match k {
                    Key::Up => self.up = false,
                    Key::Left => self.left = false,
                    Key::Down => self.down = false,
                    Key::Right => self.right = false,
                    _ => {},
                }
                true
            },
        }
    }

    /// Does the camera stay in the `i32` range after `pan`?
    pub fn can_pan(&self) -> (r: bool)
        ensures
            r == (i32::MIN <= self.cam().0 + pan_delta(self.held(Key::Left), self.held(Key::Right))
                <= i32::MAX && i32::MIN <= self.cam().1 + pan_delta(
                self.held(Key::Up),
                self.held(Key::Down),
            ) <= i32::MAX),
    {
        let dx: i64 = (if self.right {
            PAN_SPEED as i64
        } else {
            0
        }) - (if self.left {
            PAN_SPEED as i64
        } else {
            0
        });
        let dy: i64 = (if self.down {
            PAN_SPEED as i64
        } else {
            0
        }) - (if self.up {
            PAN_SPEED as i64
        } else {
            0
        });
        let x = self.cam_x as i64 + dx;
        let y = self.cam_y as i64 + dy;
        i32::MIN as i64 <= x && x <= i32::MAX as i64 && i32::MIN as i64 <= y && y <= i32::MAX as i64
    }

    /// Moves the camera by `PAN_SPEED` along each held direction.
    pub fn pan(&mut self)
        requires
            old(self).inv(),
            i32::MIN <= old(self).cam().0 + pan_delta(old(self).held(Key::Left), old(self).held(Key::Right)) <= i32::MAX,
            i32::MIN <= old(self).cam().1 + pan_delta(old(self).held(Key::Up), old(self).held(Key::Down)) <= i32::MAX,
        ensures
            final(self).cam() == (
                old(self).cam().0 + pan_delta(old(self).held(Key::Left), old(self).held(Key::Right)),
                old(self).cam().1 + pan_delta(old(self).held(Key::Up), old(self).held(Key::Down)),
            ),
            final(self).inv(),
            final(self).live() == old(self).live(),
            forall|k: Key| #[trigger] final(self).held(k) == old(self).held(k),
            final(self).running() == old(self).running(),
            final(self).frames() == old(self).frames(),
    {
        let dx: i32 = (if self.right {
            PAN_SPEED
        } else {
            0
        }) - (if self.left {
            PAN_SPEED
        } else {
            0
        });
        let dy: i32 = (if self.down {
            PAN_SPEED
        } else {
            0
        }) - (if self.up {
            PAN_SPEED
        } else {
            0
        });
        self.cam_x = self.cam_x + dx;
        self.cam_y = self.cam_y + dy;
    }

    /// Paints or erases, or both, the cell under the pointer.
    pub fn edit(&mut self, p: Pointer)
        requires
            old(self).inv(),
            i32::MIN <= p.x + old(self).cam().0 <= i32::MAX,
            i32::MIN <= p.y + old(self).cam().1 <= i32::MAX,
        ensures
            final(self).inv(),
            final(self).live() == edited(
                old(self).live(),
                grid_of(p.x as int, p.y as int, old(self).cam().0, old(self).cam().1),
                p.paint,
                p.erase,
            ),
            final(self).cam() == old(self).cam(),
            forall|k: Key| #[trigger] final(self).held(k) == old(self).held(k),
            final(self).running() == old(self).running(),
            final(self).frames() == old(self).frames(),
    {
        let cell = mouse_to_grid(p.x, p.y, self.cam_x, self.cam_y);
        if p.paint {
            self.cells.insert(cell);
        }
        if p.erase {
            self.cells.remove(cell);
        }
    }

    /// Counts one frame; while running, every `STEP_FRAME` frames the live
    /// cells become their next generation. Returns whether they did.
    pub fn tick(&mut self) -> (stepped: bool)
        requires
            old(self).inv(),
            all_interior(old(self).live()),
        ensures
            final(self).inv(),
            stepped == (old(self).running() && old(self).frames() >= STEP_FRAME),
            final(self).live() == if stepped {
                next_generation(old(self).live())
            } else {
                old(self).live()
            },
            final(self).frames() == if !old(self).running() {
                old(self).frames()
            } else if stepped {
                1
            } else {
                old(self).frames() + 1
            },
            final(self).cam() == old(self).cam(),
            forall|k: Key| #[trigger] final(self).held(k) == old(self).held(k),
            final(self).running() == old(self).running(),
    {
        if !self.running {
            return false;
        }
        let mut stepped = false;
        if self.frame >= STEP_FRAME {
            self.frame = 0;
            self.cells = step(&self.cells);
            stepped = true;
        }
        self.frame = self.frame + 1;
        stepped
    }
}

} // verus!
