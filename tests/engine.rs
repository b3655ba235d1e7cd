use conway::{mouse_to_grid, neighbour_counts, neighbours, step, CellSet, Coord};

fn c(x: i32, y: i32) -> Coord {
    Coord { x, y }
}

fn set_of(cells: &[(i32, i32)]) -> CellSet {
    let mut s = CellSet::new();
    for &(x, y) in cells {
        s.insert(c(x, y));
    }
    s
}

fn sorted(s: &CellSet) -> Vec<(i32, i32)> {
    let mut v: Vec<(i32, i32)> = s.as_slice().iter().map(|p| (p.x, p.y)).collect();
    v.sort();
    v
}

#[test]
fn neighbours_of_origin_in_order() {
    let n = neighbours(c(0, 0));
    let got: Vec<(i32, i32)> = n.iter().map(|p| (p.x, p.y)).collect();
    assert_eq!(
        got,
        vec![(-1, -1), (-1, 0), (-1, 1), (0, -1), (0, 1), (1, -1), (1, 0), (1, 1)]
    );
}

#[test]
fn neighbours_are_eight_distinct_and_symmetric() {
    let centre = c(5, -7);
    let n = neighbours(centre);
    let mut v: Vec<(i32, i32)> = n.iter().map(|p| (p.x, p.y)).collect();
    v.sort();
    v.dedup();
    assert_eq!(v.len(), 8);
    assert!(!n.contains(&centre));
    for m in n.iter() {
        assert!(neighbours(*m).contains(&centre));
    }
    assert!(!neighbours(c(7, -7)).contains(&centre));
}

#[test]
fn mouse_to_grid_divides_by_cell_size() {
    assert_eq!(mouse_to_grid(25, 37, 0, 0), c(2, 3));
    assert_eq!(mouse_to_grid(25, 37, 100, -40), c(12, 0));
    assert_eq!(mouse_to_grid(-15, -25, 0, 0), c(-1, -2));
}

#[test]
fn mouse_to_grid_rounds_toward_zero() {
    assert_eq!(mouse_to_grid(-1, -9, 0, 0), c(0, 0));
    assert_eq!(mouse_to_grid(0, 0, -5, 5), c(0, 0));
}

#[test]
fn mouse_to_grid_follows_camera_by_one_cell() {
    let a = mouse_to_grid(33, 8, 120, 0);
    let b = mouse_to_grid(33 + conway::CELL_SIZE, 8, 120, 0);
    assert_eq!(b, c(a.x + 1, a.y));
    let a = mouse_to_grid(-40, 8, -200, 0);
    let b = mouse_to_grid(-40 + conway::CELL_SIZE, 8, -200, 0);
    assert_eq!(b, c(a.x + 1, a.y));
}

#[test]
fn counts_of_a_row() {
    let s = set_of(&[(0, 0), (1, 0), (2, 0)]);
    let counts = neighbour_counts(&s);
    let mut found: Vec<((i32, i32), usize)> = Vec::new();
    for i in 0..counts.len() {
        let (p, n) = counts.entry(i);
        found.push(((p.x, p.y), n));
    }
    found.sort();
    let expected = vec![
        ((-1, -1), 1), ((-1, 0), 1), ((-1, 1), 1),
        ((0, -1), 2), ((0, 0), 1), ((0, 1), 2),
        ((1, -1), 3), ((1, 0), 2), ((1, 1), 3),
        ((2, -1), 2), ((2, 0), 1), ((2, 1), 2),
        ((3, -1), 1), ((3, 0), 1), ((3, 1), 1),
    ];
    assert_eq!(found, expected);
}

#[test]
fn empty_stays_empty() {
    let s = CellSet::new();
    let once = step(&s);
    assert!(once.is_empty());
    assert!(step(&once).is_empty());
}

#[test]
fn lone_cell_dies() {
    assert!(step(&set_of(&[(3, 4)])).is_empty());
}

#[test]
fn two_cells_die() {
    assert!(step(&set_of(&[(0, 0), (1, 0)])).is_empty());
    assert!(step(&set_of(&[(0, 0), (1, 1)])).is_empty());
    assert!(step(&set_of(&[(0, 0), (5, 5)])).is_empty());
}

#[test]
fn block_is_still() {
    let s = set_of(&[(0, 0), (1, 0), (0, 1), (1, 1)]);
    let next = step(&s);
    assert_eq!(sorted(&next), sorted(&s));
}

#[test]
fn blinker_has_period_two() {
    let s = set_of(&[(-1, 4), (0, 4), (1, 4)]);
    let once = step(&s);
    assert_eq!(sorted(&once), vec![(0, 3), (0, 4), (0, 5)]);
    assert_ne!(sorted(&once), sorted(&s));
    let twice = step(&once);
    assert_eq!(sorted(&twice), sorted(&s));
}

#[test]
fn step_ignores_insertion_order() {
    let cells = [(0, 0), (1, 0), (2, 0), (2, 1), (1, 2)];
    let forward = set_of(&cells);
    let mut reversed: Vec<(i32, i32)> = cells.to_vec();
    reversed.reverse();
    let backward = set_of(&reversed);
    assert_eq!(sorted(&step(&forward)), sorted(&step(&backward)));
    assert_eq!(sorted(&step(&forward)), vec![(0, 1), (1, -1), (1, 0), (2, 0), (2, 1)]);
}

#[test]
fn step_leaves_input_unchanged() {
    let s = set_of(&[(0, 0), (1, 0), (2, 0)]);
    let _ = step(&s);
    assert_eq!(sorted(&s), vec![(0, 0), (1, 0), (2, 0)]);
}
