use vstd::prelude::*;

use crate::coord::{adjacent, grid_of, neighbours_of, CELL_SIZE};
use crate::life::{alive, live_neighbours, next_generation, survives};
use crate::sim::edited;

verus! {

/// How many items of `s` are alive in `live`.
pub open spec fn alive_count(live: Set<(int, int)>, s: Seq<(int, int)>) -> int
    decreases s.len(),
{
    if s.len() == 0 {
        0
    } else {
        alive_count(live, s.drop_last()) + alive(live, s.last())
    }
}

/// For a sequence without repeats, the live items are as many as the live
/// cells among its items.
proof fn lemma_alive_count(live: Set<(int, int)>, s: Seq<(int, int)>)
    requires
        s.no_duplicates(),
    ensures
        alive_count(live, s) == live.intersect(s.to_set()).len(),
        live.intersect(s.to_set()).finite(),
    decreases s.len(),
{
    if s.len() == 0 {
        assert(live.intersect(s.to_set()) =~= Set::<(int, int)>::empty());
    } else {
        let t = s.drop_last();
        let x = s.last();
        assert(t.no_duplicates()) by {
            assert forall|i: int, j: int| 0 <= i < t.len() && 0 <= j < t.len() && i != j implies t[i]
                != t[j] by {
                assert(t[i] == s[i] && t[j] == s[j]);
            }
        }
        lemma_alive_count(live, t);
        assert(s =~= t.push(x));
        assert(s.to_set() =~= t.to_set().insert(x)) by {
            assert forall|p: (int, int)| s.contains(p) <==> (t.contains(p) || p == x) by {
                if s.contains(p) {
                    let j = choose|j: int| 0 <= j < s.len() && #[trigger] s[j] == p;
                    if j < t.len() {
                        assert(t[j] == p);
                    }
                }
                if t.contains(p) {
                    let j = choose|j: int| 0 <= j < t.len() && #[trigger] t[j] == p;
                    assert(s[j] == p);
                }
                if p == x {
                    assert(s[s.len() - 1] == p);
                }
            }
        }
        assert(!t.contains(x)) by {
            if t.contains(x) {
                let j = choose|j: int| 0 <= j < t.len() && #[trigger] t[j] == x;
                assert(s[j] == s[s.len() - 1]);
            }
        }
        let before = live.intersect(t.to_set());
        if live.contains(x) {
            assert(live.intersect(s.to_set()) =~= before.insert(x));
        } else {
            assert(live.intersect(s.to_set()) =~= before);
        }
    }
}

/// The neighbourhood of `p` has eight cells, all different, none of them
/// `p`; they are exactly the cells adjacent to `p`, so that `q` is a
/// neighbour of `p` just when `p` is one of `q`.
pub proof fn law_neighbours(p: (int, int), q: (int, int))
    ensures
        neighbours_of(p).len() == 8,
        neighbours_of(p).no_duplicates(),
        !neighbours_of(p).contains(p),
        neighbours_of(p).contains(q) <==> adjacent(p, q),
        neighbours_of(p).contains(q) <==> neighbours_of(q).contains(p),
{
    let n = neighbours_of(p);
    let m = neighbours_of(q);
    if adjacent(p, q) {
        let dx = q.0 - p.0;
        let dy = q.1 - p.1;
        let j: int = if dx == -1 {
            if dy == -1 { 0 } else if dy == 0 { 1 } else { 2 }
        } else if dx == 0 {
            if dy == -1 { 3 } else { 4 }
        } else {
            if dy == -1 { 5 } else if dy == 0 { 6 } else { 7 }
        };
        assert(n[j] == q);
        let k: int = 7 - j;
        assert(m[k] == p);
    }
    if n.contains(q) {
        let j = choose|j: int| 0 <= j < n.len() && #[trigger] n[j] == q;
        assert(adjacent(p, q));
    }
    if m.contains(p) {
        let j = choose|j: int| 0 <= j < m.len() && #[trigger] m[j] == p;
        assert(adjacent(p, q));
    }
    if n.contains(p) {
        let j = choose|j: int| 0 <= j < n.len() && #[trigger] n[j] == p;
    }
}

/// A cell never has more live neighbours than there are live cells, nor,
/// when it is alive itself, more than the others.
pub proof fn law_neighbour_bound(live: Set<(int, int)>, p: (int, int))
    requires
        live.finite(),
    ensures
        0 <= live_neighbours(live, p) <= live.len(),
        live.contains(p) ==> live_neighbours(live, p) < live.len(),
{
    let n = neighbours_of(p);
    law_neighbours(p, p);
    reveal_with_fuel(alive_count, 9);
    assert(n.drop_last().drop_last().drop_last().drop_last().drop_last().drop_last().drop_last().drop_last()
        =~= Seq::<(int, int)>::empty());
    assert(alive_count(live, n) == live_neighbours(live, p));
    lemma_alive_count(live, n);
    let near = live.intersect(n.to_set());
    vstd::set_lib::lemma_len_subset(near, live);
    if live.contains(p) {
        assert(!near.contains(p));
        vstd::set_lib::lemma_len_subset(near, live.remove(p));
    }
}

/// An empty lattice stays empty, generation after generation.
pub proof fn law_empty_stays_empty()
    ensures
        next_generation(Set::<(int, int)>::empty()) == Set::<(int, int)>::empty(),
        next_generation(next_generation(Set::<(int, int)>::empty())) == Set::<(int, int)>::empty(),
{
    assert(next_generation(Set::<(int, int)>::empty()) =~= Set::<(int, int)>::empty());
}

/// One or two live cells all die, and none is born.
pub proof fn law_few_cells_die(live: Set<(int, int)>)
    requires
        live.finite(),
        live.len() <= 2,
    ensures
        next_generation(live) == Set::<(int, int)>::empty(),
{
    assert forall|p: (int, int)| !next_generation(live).contains(p) by {
        law_neighbour_bound(live, p);
    }
    assert(next_generation(live) =~= Set::<(int, int)>::empty());
}

/// The two-by-two block with lower corner `(x, y)`.
pub open spec fn block(x: int, y: int) -> Set<(int, int)> {
    set![(x, y), (x + 1, y), (x, y + 1), (x + 1, y + 1)]
}

/// A block is a still life: it is its own next generation.
pub proof fn law_block_is_still(x: int, y: int)
    ensures
        next_generation(block(x, y)) == block(x, y),
{
    let b = block(x, y);
    assert forall|p: (int, int)| survives(b, p) <==> b.contains(p) by {
        law_block_counts(x, y, p);
    }
    assert(next_generation(b) =~= b);
}

/// Live neighbours of any cell near a block.
proof fn law_block_counts(x: int, y: int, p: (int, int))
    ensures
        block(x, y).contains(p) ==> live_neighbours(block(x, y), p) == 3,
        !block(x, y).contains(p) ==> live_neighbours(block(x, y), p) <= 2,
{
}

/// Three cells in a row centred on `(x, y)`.
pub open spec fn row(x: int, y: int) -> Set<(int, int)> {
    set![(x - 1, y), (x, y), (x + 1, y)]
}

/// Three cells in a column centred on `(x, y)`.
pub open spec fn column(x: int, y: int) -> Set<(int, int)> {
    set![(x, y - 1), (x, y), (x, y + 1)]
}

/// A row of three turns into the column of three through its centre.
pub proof fn law_row_turns(x: int, y: int)
    ensures
        next_generation(row(x, y)) == column(x, y),
{
    let r = row(x, y);
    let c = column(x, y);
    assert forall|p: (int, int)| survives(r, p) <==> c.contains(p) by {}
    assert(next_generation(r) =~= c);
}

/// A column of three turns into the row of three through its centre.
pub proof fn law_column_turns(x: int, y: int)
    ensures
        next_generation(column(x, y)) == row(x, y),
{
    let r = row(x, y);
    let c = column(x, y);
    assert forall|p: (int, int)| survives(c, p) <==> r.contains(p) by {}
    assert(next_generation(c) =~= r);
}

/// The blinker, in either orientation, comes back after two generations and
/// differs after one.
pub proof fn law_blinker_period_two(x: int, y: int)
    ensures
        next_generation(next_generation(row(x, y))) == row(x, y),
        next_generation(row(x, y)) != row(x, y),
        next_generation(next_generation(column(x, y))) == column(x, y),
        next_generation(column(x, y)) != column(x, y),
{
    law_row_turns(x, y);
    law_column_turns(x, y);
    assert(row(x, y).contains((x - 1, y)));
    assert(!column(x, y).contains((x - 1, y)));
}

/// The next generation depends on the live cells alone: two lists of the
/// same cells, in whatever order, lead to the same generation.
pub proof fn law_order_free(a: Seq<(int, int)>, b: Seq<(int, int)>)
    requires
        a.to_set() == b.to_set(),
    ensures
        next_generation(a.to_set()) == next_generation(b.to_set()),
{
}

/// Moving the pointer one cell to the right, away from the axis where
/// rounding toward zero merges two cells, moves the grid cell by one.
pub proof fn law_pointer_moves_one_cell(x: int, y: int, cam_x: int, cam_y: int)
    requires
        x + cam_x >= 0 || x + cam_x + CELL_SIZE <= 0,
    ensures
        grid_of(x + CELL_SIZE, y, cam_x, cam_y).0 == grid_of(x, y, cam_x, cam_y).0 + 1,
        grid_of(x + CELL_SIZE, y, cam_x, cam_y).1 == grid_of(x, y, cam_x, cam_y).1,
{
}

/// Painting a cell in one frame and erasing it in the next leaves it dead,
/// and erasing a dead cell changes nothing.
pub proof fn law_paint_then_erase(live: Set<(int, int)>, cell: (int, int))
    ensures
        !edited(edited(live, cell, true, false), cell, false, true).contains(cell),
        !live.contains(cell) ==> edited(live, cell, false, true) == live,
{
    if !live.contains(cell) {
        assert(live.remove(cell) =~= live);
    }
}

} // verus!
