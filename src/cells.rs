use vstd::prelude::*;
use std::collections::HashMap;

use crate::coord::{Coord, interior, key, key_of, in_i32, lemma_key_injective};
use crate::life::all_interior;

verus! {

broadcast use vstd::std_specs::hash::group_hash_axioms;

/// The key of `c` as the maps store it.
pub open spec fn ckey(c: Coord) -> u64 {
    key_of(c@) as u64
}

/// `ckey` is exactly `key_of`, and tells cells apart.
pub proof fn lemma_ckey(a: Coord, b: Coord)
    ensures
        ckey(a) as int == key_of(a@),
        ckey(a) == ckey(b) ==> a == b,
{
    assert(0 <= key_of(a@) <= u64::MAX) by (nonlinear_arith)
        requires
            in_i32(a@),
    ;
    assert(0 <= key_of(b@) <= u64::MAX) by (nonlinear_arith)
        requires
            in_i32(b@),
    ;
    if ckey(a) == ckey(b) {
        lemma_key_injective(a@, b@);
    }
}

/// The cells of a sequence, as points.
pub open spec fn points(s: Seq<Coord>) -> Seq<(int, int)> {
    s.map_values(|c: Coord| c@)
}

/// `index` maps the key of each cell of `list` to its position, and holds
/// nothing else.
pub open spec fn indexes(list: Seq<Coord>, index: Map<u64, usize>) -> bool {
    &&& forall|i: int|
        0 <= i < list.len() ==> #[trigger] index.contains_key(ckey(list[i]))
            && index[ckey(list[i])] == i
    &&& forall|k: u64|
        #[trigger] index.contains_key(k) ==> index[k] < list.len() && ckey(list[index[k] as int])
            == k
}

/// A set of live cells: a list of the cells, each once, with an index
/// from each cell's key to its place in the list.
pub struct CellSet {
    list: Vec<Coord>,
    index: HashMap<u64, usize>,
}

impl View for CellSet {
    type V = Set<(int, int)>;

    closed spec fn view(&self) -> Set<(int, int)> {
        points(self.list@).to_set()
    }
}

impl CellSet {
    /// The list and its index agree.
    pub closed spec fn well_formed(&self) -> bool {
        indexes(self.list@, self.index@)
    }

    /// The cells, each once, in the order in which `as_slice` gives them.
    pub closed spec fn order(&self) -> Seq<Coord> {
        self.list@
    }

    /// What `order` says of the set.
    pub proof fn lemma_order(&self)
        requires
            self.well_formed(),
        ensures
            points(self.order()).no_duplicates(),
            points(self.order()).to_set() == self@,
            self@.finite(),
            self@.len() == self.order().len(),
            forall|p: (int, int)| #[trigger] self@.contains(p) ==> in_i32(p),
    {
        let s = points(self.list@);
        assert forall|i: int, j: int| 0 <= i < s.len() && 0 <= j < s.len() && i != j implies s[i]
            != s[j] by {
            let a = self.list@[i];
            let b = self.list@[j];
            assert(self.index@.contains_key(ckey(a)));
            assert(self.index@.contains_key(ckey(b)));
            if s[i] == s[j] {
                assert(ckey(a) == ckey(b));
            }
        }
        assert(s.no_duplicates());
        s.unique_seq_to_set();
        assert forall|p: (int, int)| #[trigger] self@.contains(p) implies in_i32(p) by {
            assert(s.contains(p));
        }
    }

    /// An empty set.
    pub fn new() -> (r: CellSet)
        ensures
            r.well_formed(),
            r@ == Set::<(int, int)>::empty(),
    {
        let r = CellSet { list: Vec::new(), index: HashMap::new() };
        assert(points(r.list@) =~= Seq::empty());
        r
    }

    /// Is `c` alive?
    pub fn contains(&self, c: Coord) -> (r: bool)
        requires
            self.well_formed(),
        ensures
            r == self@.contains(c@),
    {
        let k = key(c);
        proof {
            lemma_ckey(c, c);
        }
        let r = self.index.contains_key(&k);
        proof {
            if r {
                let i = self.index@[k] as int;
                lemma_ckey(self.list@[i], c);
                assert(points(self.list@)[i] == c@);
            }
            if self@.contains(c@) {
                let i = choose|i: int| 0 <= i < points(self.list@).len() && points(self.list@)[i] == c@;
                assert(self.list@[i] == c);
            }
        }
        r
    }

    /// Makes `c` alive; nothing changes if it already is.
    pub fn insert(&mut self, c: Coord)
        requires
            old(self).well_formed(),
        ensures
            final(self).well_formed(),
            final(self)@ == old(self)@.insert(c@),
    {
        if self.contains(c) {
            assert(self@.insert(c@) =~= self@);
            return;
        }
        let k = key(c);
        let n = self.list.len();
        proof {
            lemma_ckey(c, c);
            assert forall|i: int| 0 <= i < n implies #[trigger] ckey(self.list@[i]) != k by {
                assert(points(self.list@)[i] == self.list@[i]@);
            }
        }
        self.list.push(c);
        self.index.insert(k, n);
        assert(points(self.list@) =~= points(old(self).list@).push(c@));
        let ghost before = points(old(self).list@);
        let ghost after = points(self.list@);
        assert forall|p: (int, int)| after.contains(p) <==> before.contains(p) || p == c@ by {
            if after.contains(p) {
                let j = choose|j: int| 0 <= j < after.len() && after[j] == p;
                if j < before.len() {
                    assert(before[j] == p);
                }
            }
            if before.contains(p) {
                let j = choose|j: int| 0 <= j < before.len() && before[j] == p;
                assert(after[j] == p);
            }
            if p == c@ {
                assert(after[n as int] == p);
            }
        }
        assert(after.to_set() =~= before.to_set().insert(c@));
    }

    /// Makes `c` dead; nothing changes if it already is.
    pub fn remove(&mut self, c: Coord)
        requires
            old(self).well_formed(),
        ensures
            final(self).well_formed(),
            final(self)@ == old(self)@.remove(c@),
    {
        let k = key(c);
        proof {
            lemma_ckey(c, c);
        }
        let i = match self.index.get(&k) {
            Some(i) => *i,
            None => {
                proof {
                    if self@.contains(c@) {
                        let j = choose|j: int|
                            0 <= j < points(self.list@).len() && points(self.list@)[j] == c@;
                        assert(self.list@[j] == c);
                    }
                }
                assert(self@.remove(c@) =~= self@);
                return;
            },
        };
        let ghost old_list = self.list@;
        proof {
            lemma_ckey(self.list@[i as int], c);
            assert(self.list@[i as int] == c);
            self.lemma_order();
        }
        let last = self.list.len() - 1;
        let moved = self.list[last];
        self.list.swap_remove(i);
        self.index.remove(&k);
        if i < last {
            let mk = key(moved);
            proof {
                lemma_ckey(moved, moved);
            }
            self.index.insert(mk, i);
        }
        proof {
            assert forall|a: int| 0 <= a < self.list@.len() implies #[trigger] self.index@.contains_key(
                ckey(self.list@[a]),
            ) && self.index@[ckey(self.list@[a])] == a by {
                if a == i {
                    assert(self.list@[a] == moved);
                } else {
                    assert(self.list@[a] == old_list[a]);
                    assert(old(self).index@.contains_key(ckey(old_list[a])));
                    assert(old(self).index@.contains_key(ckey(moved)));
                    assert(ckey(old_list[a]) != k);
                    if i < last {
                        assert(ckey(old_list[a]) != ckey(moved));
                    }
                }
            }
            assert forall|kk: u64| #[trigger] self.index@.contains_key(kk) implies self.index@[kk]
                < self.list@.len() && ckey(self.list@[self.index@[kk] as int]) == kk by {
                if kk != ckey(moved) {
                    let j = old(self).index@[kk] as int;
                    if j == last {
                        lemma_ckey(old_list[j], moved);
                    }
                }
            }
            let before = points(old_list);
            let after = points(self.list@);
            assert forall|p: (int, int)| after.contains(p) <==> before.contains(p) && p != c@ by {
                if after.contains(p) {
                    let j = choose|j: int| 0 <= j < after.len() && after[j] == p;
                    if j == i {
                        assert(before[last as int] == p);
                    } else {
                        assert(before[j] == p);
                    }
                    assert(before[i as int] == c@);
                }
                if before.contains(p) && p != c@ {
                    let j = choose|j: int| 0 <= j < before.len() && before[j] == p;
                    if j == last {
                        assert(after[i as int] == p);
                    } else {
                        assert(after[j] == p);
                    }
                }
            }
            assert(after.to_set() =~= before.to_set().remove(c@));
            assert(indexes(self.list@, self.index@));
        }
    }

    /// Makes every cell dead.
    pub fn clear(&mut self)
        requires
            old(self).well_formed(),
        ensures
            final(self).well_formed(),
            final(self)@ == Set::<(int, int)>::empty(),
    {
        self.list.clear();
        self.index.clear();
        assert(points(self.list@) =~= Seq::empty());
    }

    /// The number of live cells.
    pub fn len(&self) -> (r: usize)
        requires
            self.well_formed(),
        ensures
            r == self@.len(),
    {
        proof {
            self.lemma_order();
        }
        self.list.len()
    }

    /// Is no cell alive?
    pub fn is_empty(&self) -> (r: bool)
        requires
            self.well_formed(),
        ensures
            r == (self@ == Set::<(int, int)>::empty()),
    {
        proof {
            self.lemma_order();
        }
        if self.list.len() == 0 {
            assert(self@ =~= Set::<(int, int)>::empty());
            true
        } else {
            assert(self@.contains(points(self.list@)[0]));
            false
        }
    }

    /// Is every live cell away from the edges of the `i32` range?
    pub fn is_interior(&self) -> (r: bool)
        requires
            self.well_formed(),
        ensures
            r == all_interior(self@),
    {
        proof {
            self.lemma_order();
        }
        let mut i: usize = 0;
        while i < self.list.len()
            invariant
                self.well_formed(),
                points(self.list@).to_set() == self@,
                0 <= i <= self.list@.len(),
                forall|j: int| 0 <= j < i ==> interior(#[trigger] self.list@[j]@),
            decreases self.list@.len() - i,
        {
            let c = self.list[i];
            if c.x == i32::MIN || c.x == i32::MAX || c.y == i32::MIN || c.y == i32::MAX {
                assert(points(self.list@)[i as int] == c@);
                assert(self@.contains(c@));
                return false;
            }
            i = i + 1;
        }
        assert forall|p: (int, int)| #[trigger] self@.contains(p) implies interior(p) by {
            let j = choose|j: int| 0 <= j < points(self.list@).len() && points(self.list@)[j] == p;
            assert(self.list@[j]@ == p);
        }
        true
    }

    /// The live cells, each once.
    pub fn as_slice(&self) -> (r: &[Coord])
        requires
            self.well_formed(),
        ensures
            r@ == self.order(),
    {
        self.list.as_slice()
    }
}

} // verus!
