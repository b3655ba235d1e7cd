use conway::{CellSet, Coord};

fn c(x: i32, y: i32) -> Coord {
    Coord { x, y }
}

#[test]
fn insert_is_idempotent() {
    let mut s = CellSet::new();
    s.insert(c(1, 2));
    s.insert(c(1, 2));
    assert_eq!(s.len(), 1);
    assert!(s.contains(c(1, 2)));
    assert!(!s.contains(c(2, 1)));
}

#[test]
fn remove_takes_out_one_cell() {
    let mut s = CellSet::new();
    for i in 0..5 {
        s.insert(c(i, -i));
    }
    s.remove(c(0, 0));
    assert_eq!(s.len(), 4);
    assert!(!s.contains(c(0, 0)));
    for i in 1..5 {
        assert!(s.contains(c(i, -i)));
    }
    s.remove(c(4, -4));
    assert_eq!(s.len(), 3);
    assert!(s.contains(c(1, -1)));
    assert!(!s.contains(c(4, -4)));
}

#[test]
fn removing_dead_cell_changes_nothing() {
    let mut s = CellSet::new();
    s.insert(c(0, 0));
    s.insert(c(9, 9));
    s.remove(c(5, 5));
    assert_eq!(s.len(), 2);
    assert!(s.contains(c(0, 0)));
    assert!(s.contains(c(9, 9)));
}

#[test]
fn extreme_coordinates_are_kept_apart() {
    let mut s = CellSet::new();
    s.insert(c(i32::MIN, i32::MAX));
    s.insert(c(i32::MAX, i32::MIN));
    s.insert(c(-1, 0));
    s.insert(c(0, -1));
    assert_eq!(s.len(), 4);
    assert!(s.contains(c(i32::MIN, i32::MAX)));
    assert!(!s.contains(c(i32::MIN, i32::MIN)));
}

#[test]
fn interior_check_finds_edge_cells() {
    let mut s = CellSet::new();
    s.insert(c(0, 0));
    assert!(s.is_interior());
    s.insert(c(i32::MAX, 0));
    assert!(!s.is_interior());
}

#[test]
fn clear_empties() {
    let mut s = CellSet::new();
    s.insert(c(0, 0));
    s.insert(c(3, 3));
    s.clear();
    assert!(s.is_empty());
    assert_eq!(s.len(), 0);
}
