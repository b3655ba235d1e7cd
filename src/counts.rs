use vstd::prelude::*;
use std::collections::HashMap;

use crate::cells::{ckey, indexes, lemma_ckey, points};
use crate::coord::{Coord, key, key_of, in_i32};

verus! {

broadcast use vstd::std_specs::hash::group_hash_axioms;

/// A tally from cells to positive counts. Cells that were never counted
/// are not stored.
pub struct NeighbourCounts {
    cells: Vec<Coord>,
    counts: Vec<usize>,
    index: HashMap<u64, usize>,
}

impl NeighbourCounts {
    /// The cells, their counts and the index agree.
    pub closed spec fn well_formed(&self) -> bool {
        &&& indexes(self.cells@, self.index@)
        &&& self.cells@.len() == self.counts@.len()
        &&& forall|i: int| 0 <= i < self.counts@.len() ==> #[trigger] self.counts@[i] > 0
    }

    /// The counted cells, each once, in the order in which `entry` gives them.
    pub closed spec fn order(&self) -> Seq<Coord> {
        self.cells@
    }

    /// The count of `p`; zero where `p` was never counted.
    pub closed spec fn count(&self, p: (int, int)) -> int {
        if in_i32(p) && self.index@.contains_key(key_of(p) as u64) {
            self.counts@[self.index@[key_of(p) as u64] as int] as int
        } else {
            0
        }
    }

    /// The count of the `i`-th cell of `order` is positive, and every cell with a
    /// positive count stands in `order`, once.
    pub proof fn lemma_order(&self)
        requires
            self.well_formed(),
        ensures
            points(self.order()).no_duplicates(),
            forall|i: int|
                0 <= i < self.order().len() ==> #[trigger] self.count(self.order()[i]@) > 0,
            forall|p: (int, int)|
                #[trigger] self.count(p) > 0 ==> points(self.order()).contains(p),
    {
        let s = points(self.cells@);
        assert forall|i: int, j: int| 0 <= i < s.len() && 0 <= j < s.len() && i != j implies s[i]
            != s[j] by {
            let a = self.cells@[i];
            let b = self.cells@[j];
            assert(self.index@.contains_key(ckey(a)));
            assert(self.index@.contains_key(ckey(b)));
            if s[i] == s[j] {
                assert(ckey(a) == ckey(b));
            }
        }
        assert forall|i: int| 0 <= i < self.order().len() implies #[trigger] self.count(
            self.order()[i]@,
        ) > 0 by {
            lemma_ckey(self.cells@[i], self.cells@[i]);
            assert(self.index@.contains_key(ckey(self.cells@[i])));
        }
        assert forall|p: (int, int)| #[trigger] self.count(p) > 0 implies s.contains(p) by {
            let k = key_of(p) as u64;
            let i = self.index@[k] as int;
            let c = self.cells@[i];
            lemma_ckey(c, c);
            let q = Coord { x: p.0 as i32, y: p.1 as i32 };
            lemma_ckey(q, c);
            assert(s[i] == p);
        }
    }

    /// An empty tally.
    pub fn new() -> (r: NeighbourCounts)
        ensures
            r.well_formed(),
            forall|p: (int, int)| #[trigger] r.count(p) == 0,
    {
        NeighbourCounts { cells: Vec::new(), counts: Vec::new(), index: HashMap::new() }
    }

    /// Adds one to the count of `c`.
    pub fn bump(&mut self, c: Coord)
        requires
            old(self).well_formed(),
            old(self).count(c@) < usize::MAX,
        ensures
            final(self).well_formed(),
            forall|p: (int, int)|
                #[trigger] final(self).count(p) == old(self).count(p) + if p == c@ {
                    1int
                } else {
                    0int
                },
    {
        let k = key(c);
        proof {
            lemma_ckey(c, c);
        }
        match self.index.get(&k) {
            Some(i) => {
                let i = *i;
                let n = self.counts[i];
                self.counts.set(i, n + 1);
                proof {
                    assert forall|p: (int, int)| #[trigger] self.count(p) == old(self).count(p) + if p
                        == c@ {
                        1int
                    } else {
                        0int
                    } by {
                        if in_i32(p) && self.index@.contains_key(key_of(p) as u64) && p != c@ {
                            let q = Coord { x: p.0 as i32, y: p.1 as i32 };
                            lemma_ckey(q, c);
                        }
                    }
                }
            },
            None => {
                let n = self.cells.len();
                proof {
                    assert forall|i: int| 0 <= i < n implies #[trigger] ckey(self.cells@[i]) != k by {
                        assert(self.index@.contains_key(ckey(self.cells@[i])));
                    }
                }
                self.cells.push(c);
                self.counts.push(1);
                self.index.insert(k, n);
                proof {
                    assert(indexes(self.cells@, self.index@));
                    assert forall|p: (int, int)| #[trigger] self.count(p) == old(self).count(p) + if p
                        == c@ {
                        1int
                    } else {
                        0int
                    } by {
                        if in_i32(p) && p != c@ {
                            let q = Coord { x: p.0 as i32, y: p.1 as i32 };
                            lemma_ckey(q, c);
                        }
                    }
                }
            },
        }
    }

    /// The number of counted cells.
    pub fn len(&self) -> (r: usize)
        requires
            self.well_formed(),
        ensures
            r == self.order().len(),
    {
        self.cells.len()
    }

    /// The `i`-th counted cell and its count.
    pub fn entry(&self, i: usize) -> (r: (Coord, usize))
        requires
            self.well_formed(),
            i < self.order().len(),
        ensures
            r.0 == self.order()[i as int],
            r.1 == self.count(r.0@),
    {
        let c = self.cells[i];
        proof {
            lemma_ckey(c, c);
            assert(self.index@.contains_key(ckey(c)));
        }
        (c, self.counts[i])
    }
}

} // verus!
