use vstd::prelude::*;

use crate::cells::{CellSet, points};
use crate::coord::{Coord, interior, neighbours, neighbours_of};
use crate::counts::NeighbourCounts;

verus! {

/// One if `p` is alive in `live`, zero if not.
pub open spec fn alive(live: Set<(int, int)>, p: (int, int)) -> int {
    if live.contains(p) {
        1
    } else {
        0
    }
}

/// How many of the eight neighbours of `p` are alive in `live`.
pub open spec fn live_neighbours(live: Set<(int, int)>, p: (int, int)) -> int {
    let n = neighbours_of(p);
    alive(live, n[0]) + alive(live, n[1]) + alive(live, n[2]) + alive(live, n[3]) + alive(live, n[4])
        + alive(live, n[5]) + alive(live, n[6]) + alive(live, n[7])
}

/// `p` is alive in the generation after `live`: born with exactly three live
/// neighbours, kept alive with two or three.
pub open spec fn survives(live: Set<(int, int)>, p: (int, int)) -> bool {
    let n = live_neighbours(live, p);
    n == 3 || (n == 2 && live.contains(p))
}

/// The generation after `live`.
pub open spec fn next_generation(live: Set<(int, int)>) -> Set<(int, int)> {
    Set::new(|p: (int, int)| survives(live, p))
}

/// Every live cell lies away from the edges of the `i32` range.
pub open spec fn all_interior(live: Set<(int, int)>) -> bool {
    forall|p: (int, int)| #[trigger] live.contains(p) ==> interior(p)
}

/// How many times `p` occurs in `s`.
pub open spec fn occurrences(s: Seq<(int, int)>, p: (int, int)) -> int
    decreases s.len(),
{
    if s.len() == 0 {
        0
    } else {
        occurrences(s.drop_last(), p) + if s.last() == p {
            1int
        } else {
            0int
        }
    }
}

/// Adding a cell `l` to `live` adds one live neighbour to each neighbour of `l`.
proof fn lemma_add_cell(live: Set<(int, int)>, l: (int, int), p: (int, int))
    requires
        !live.contains(l),
    ensures
        live_neighbours(live.insert(l), p) == live_neighbours(live, p) + occurrences(
            neighbours_of(l),
            p,
        ),
{
    reveal_with_fuel(occurrences, 9);
    let n = neighbours_of(l);
    assert(n.drop_last().drop_last().drop_last().drop_last().drop_last().drop_last().drop_last().drop_last()
        =~= Seq::<(int, int)>::empty());
}

/// Counts, for every cell with at least one live neighbour, how many of its
/// neighbours are alive.
pub fn neighbour_counts(cells: &CellSet) -> (r: NeighbourCounts)
    requires
        cells.well_formed(),
        all_interior(cells@),
    ensures
        r.well_formed(),
        forall|p: (int, int)| #[trigger] r.count(p) == live_neighbours(cells@, p),
{
    let mut counts = NeighbourCounts::new();
    let list = cells.as_slice();
    proof {
        cells.lemma_order();
    }
    let ghost order = points(cells.order());
    let mut i: usize = 0;
    while i < list.len()
        invariant
            cells.well_formed(),
            all_interior(cells@),
            list@ == cells.order(),
            order == points(cells.order()),
            order.no_duplicates(),
            order.to_set() == cells@,
            0 <= i <= list@.len(),
            counts.well_formed(),
            forall|p: (int, int)|
                #[trigger] counts.count(p) == live_neighbours(order.take(i as int).to_set(), p),
        decreases list@.len() - i,
    {
        let c = list[i];
        assert(order[i as int] == c@);
        assert(cells@.contains(c@));
        let nei = neighbours(c);
        let ghost seen = order.take(i as int).to_set();
        let mut k: usize = 0;
        while k < 8
            invariant
                0 <= k <= 8,
                nei@.len() == 8,
                forall|j: int| 0 <= j < 8 ==> #[trigger] nei@[j]@ == neighbours_of(c@)[j],
                counts.well_formed(),
                forall|p: (int, int)|
                    #[trigger] counts.count(p) == live_neighbours(seen, p) + occurrences(
                        neighbours_of(c@).take(k as int),
                        p,
                    ),
            decreases 8 - k,
        {
            let n = nei[k];
            proof {
                let s = neighbours_of(c@).take(k as int + 1);
                assert(s.drop_last() =~= neighbours_of(c@).take(k as int));
                assert(occurrences(neighbours_of(c@).take(k as int), n@) <= k) by {
                    lemma_occurrences_bound(neighbours_of(c@).take(k as int), n@);
                }
            }
            counts.bump(n);
            proof {
                let s = neighbours_of(c@).take(k as int + 1);
                assert(s.drop_last() =~= neighbours_of(c@).take(k as int));
            }
            k = k + 1;
        }
        proof {
            assert(neighbours_of(c@).take(8) =~= neighbours_of(c@));
            assert(!seen.contains(c@)) by {
                if seen.contains(c@) {
                    let j = choose|j: int| 0 <= j < i && order.take(i as int)[j] == c@;
                    assert(order[j] == order[i as int]);
                }
            }
            lemma_take_one_more(order, i as int);
            assert forall|p: (int, int)| #[trigger] counts.count(p) == live_neighbours(
                order.take(i as int + 1).to_set(),
                p,
            ) by {
                lemma_add_cell(seen, c@, p);
            }
        }
        i = i + 1;
    }
    assert(order.take(i as int) =~= order);
    counts
}

/// The cells of the first `i + 1` items are those of the first `i` and item `i`.
proof fn lemma_take_one_more(s: Seq<(int, int)>, i: int)
    requires
        0 <= i < s.len(),
    ensures
        s.take(i + 1).to_set() == s.take(i).to_set().insert(s[i]),
{
    let longer = s.take(i + 1);
    let shorter = s.take(i);
    assert forall|p: (int, int)| longer.contains(p) <==> (shorter.contains(p) || p == s[i]) by {
        if longer.contains(p) {
            let j = choose|j: int| 0 <= j < longer.len() && #[trigger] longer[j] == p;
            if j < i {
                assert(shorter[j] == p);
            }
        }
        if shorter.contains(p) {
            let j = choose|j: int| 0 <= j < shorter.len() && #[trigger] shorter[j] == p;
            assert(longer[j] == p);
        }
        if p == s[i] {
            assert(longer[i] == p);
        }
    }
    assert(longer.to_set() =~= shorter.to_set().insert(s[i]));
}

/// `p` occurs in `s` at most as many times as `s` is long.
proof fn lemma_occurrences_bound(s: Seq<(int, int)>, p: (int, int))
    ensures
        0 <= occurrences(s, p) <= s.len(),
    decreases s.len(),
{
    if s.len() > 0 {
        lemma_occurrences_bound(s.drop_last(), p);
    }
}

/// The generation that follows `cells`.
pub fn step(cells: &CellSet) -> (r: CellSet)
    requires
        cells.well_formed(),
        all_interior(cells@),
    ensures
        r.well_formed(),
        r@ == next_generation(cells@),
{
    let counts = neighbour_counts(cells);
    proof {
        counts.lemma_order();
    }
    let ghost order = points(counts.order());
    let mut next = CellSet::new();
    let n = counts.len();
    let mut i: usize = 0;
    while i < n
        invariant
            cells.well_formed(),
            counts.well_formed(),
            n == counts.order().len(),
            order == points(counts.order()),
            forall|p: (int, int)| #[trigger] counts.count(p) == live_neighbours(cells@, p),
            0 <= i <= n,
            next.well_formed(),
            next@ == order.take(i as int).to_set().filter(|p: (int, int)| survives(cells@, p)),
        decreases n - i,
    {
        let (c, count) = counts.entry(i);
        let keep = count == 3 || (count == 2 && cells.contains(c));
        let ghost before = next@;
        if keep {
            next.insert(c);
        }
        proof {
            assert(order[i as int] == c@);
            lemma_take_one_more(order, i as int);
            assert(next@ =~= order.take(i as int + 1).to_set().filter(
                |p: (int, int)| survives(cells@, p),
            ));
        }
        i = i + 1;
    }
    proof {
        assert(order.take(i as int) =~= order);
        assert(next@ =~= next_generation(cells@)) by {
            assert forall|p: (int, int)| next_generation(cells@).contains(p) implies next@.contains(
                p,
            ) by {
                assert(counts.count(p) > 0);
            }
        }
    }
    next
}

} // verus!
