use vstd::prelude::*;

verus! {

/// Side length, in pixels, of one cell on screen.
pub const CELL_SIZE: i32 = 10;

/// A cell of the lattice.
#[derive(Clone, Copy, Debug, PartialEq, Eq, Structural, Hash)]
pub struct Coord {
    pub x: i32,
    pub y: i32,
}

impl View for Coord {
    type V = (int, int);

    open spec fn view(&self) -> (int, int) {
        (self.x as int, self.y as int)
    }
}

/// Both components of `p` fit in an `i32`.
pub open spec fn in_i32(p: (int, int)) -> bool {
    i32::MIN <= p.0 <= i32::MAX && i32::MIN <= p.1 <= i32::MAX
}

/// Every neighbour of `p` still fits in an `i32`.
pub open spec fn interior(p: (int, int)) -> bool {
    i32::MIN < p.0 < i32::MAX && i32::MIN < p.1 < i32::MAX
}

/// The Moore neighbourhood of `p`, in a fixed order.
pub open spec fn neighbours_of(p: (int, int)) -> Seq<(int, int)> {
    seq![
        (p.0 - 1, p.1 - 1),
        (p.0 - 1, p.1),
        (p.0 - 1, p.1 + 1),
        (p.0, p.1 - 1),
        (p.0, p.1 + 1),
        (p.0 + 1, p.1 - 1),
        (p.0 + 1, p.1),
        (p.0 + 1, p.1 + 1),
    ]
}

/// `p` and `q` are distinct cells that touch by a side or a corner.
pub open spec fn adjacent(p: (int, int), q: (int, int)) -> bool {
    p != q && -1 <= p.0 - q.0 <= 1 && -1 <= p.1 - q.1 <= 1
}

/// Integer division rounded toward zero, as Rust's `/` does.
pub open spec fn trunc_div(a: int, d: int) -> int {
    if a >= 0 {
        a / d
    } else {
        -((-a) / d)
    }
}

/// The grid cell under screen point `(x, y)` seen through a camera at `(cam_x, cam_y)`.
pub open spec fn grid_of(x: int, y: int, cam_x: int, cam_y: int) -> (int, int) {
    (trunc_div(x + cam_x, CELL_SIZE as int), trunc_div(y + cam_y, CELL_SIZE as int))
}

/// The key of a cell in hash maps: both components shifted to be non-negative
/// and packed into 64 bits.
pub open spec fn key_of(p: (int, int)) -> int {
    (p.0 + 0x8000_0000) * 0x1_0000_0000 + (p.1 + 0x8000_0000)
}

/// Distinct cells have distinct keys.
pub proof fn lemma_key_injective(p: (int, int), q: (int, int))
    requires
        in_i32(p),
        in_i32(q),
        key_of(p) == key_of(q),
    ensures
        p == q,
{
    let a = p.0 + 0x8000_0000;
    let b = q.0 + 0x8000_0000;
    assert(a == b) by (nonlinear_arith)
        requires
            a * 0x1_0000_0000 + (p.1 + 0x8000_0000) == b * 0x1_0000_0000 + (q.1 + 0x8000_0000),
            0 <= p.1 + 0x8000_0000 < 0x1_0000_0000,
            0 <= q.1 + 0x8000_0000 < 0x1_0000_0000,
    ;
}

/// The hash-map key of `c`.
pub fn key(c: Coord) -> (k: u64)
    ensures
        k == key_of(c@),
{
    let hi: u64 = (c.x as i64 + 0x8000_0000i64) as u64;
    let lo: u64 = (c.y as i64 + 0x8000_0000i64) as u64;
    hi * 0x1_0000_0000u64 + lo
}

/// The eight neighbours of `cell`.
pub fn neighbours(cell: Coord) -> (r: [Coord; 8])
    requires
        interior(cell@),
    ensures
        r@.len() == 8,
        forall|i: int| 0 <= i < 8 ==> #[trigger] r@[i]@ == neighbours_of(cell@)[i],
{
    let (x, y) = (cell.x, cell.y);
    [
        Coord { x: x - 1, y: y - 1 },
        Coord { x: x - 1, y },
        Coord { x: x - 1, y: y + 1 },
        Coord { x, y: y - 1 },
        Coord { x, y: y + 1 },
        Coord { x: x + 1, y: y - 1 },
        Coord { x: x + 1, y },
        Coord { x: x + 1, y: y + 1 },
    ]
}

/// Converts a pointer position on screen into the grid cell under it.
pub fn mouse_to_grid(x: i32, y: i32, cam_x: i32, cam_y: i32) -> (r: Coord)
    requires
        i32::MIN <= x + cam_x <= i32::MAX,
        i32::MIN <= y + cam_y <= i32::MAX,
    ensures
        r@ == grid_of(x as int, y as int, cam_x as int, cam_y as int),
{
    Coord { x: (x + cam_x) / CELL_SIZE, y: (y + cam_y) / CELL_SIZE }
}

} // verus!
