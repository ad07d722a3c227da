use softbody2d::state::Bond;
use softbody2d::topology::grid_topology;

/// A 3 x 3 grid has exactly 12 bonds: 2 x 3 horizontal and 3 x 2 vertical,
/// and each particle index appears in the expected number of bonds
/// (corner 2, edge 3, center 4).
#[test]
fn grid_3x3_bond_count_and_degrees() {
    let bonds: Vec<Bond> = grid_topology(3, 3, 5000, 10);
    assert_eq!(bonds.len(), 12);
    let mut degree: Vec<usize> = vec![0; 9];
    for b in &bonds {
        assert!(b.i != b.j);
        assert!(b.i < 9 && b.j < 9);
        assert_eq!(b.rest, 5000);
        assert_eq!(b.stiffness, 10);
        degree[b.i] += 1;
        degree[b.j] += 1;
    }
    let expected: Vec<usize> = vec![2, 3, 2, 3, 4, 3, 2, 3, 2];
    assert_eq!(degree, expected);
}

/// The exact bond list of a 2 x 3 mesh, in construction order: each
/// particle contributes its right neighbor first, then its lower one.
#[test]
fn grid_2x3_bond_list() {
    let bonds: Vec<Bond> = grid_topology(2, 3, 7, 3);
    let pairs: Vec<(usize, usize)> = bonds.iter().map(|b| (b.i, b.j)).collect();
    assert_eq!(pairs, vec![(0, 1), (0, 3), (1, 2), (1, 4), (2, 5), (3, 4), (4, 5)]);
}

/// A single row has only horizontal bonds; a single column only vertical.
#[test]
fn grid_degenerate_rows_and_columns() {
    let row: Vec<Bond> = grid_topology(1, 4, 100, 1);
    assert_eq!(row.len(), 3);
    assert!(row.iter().all(|b| b.j == b.i + 1));
    let col: Vec<Bond> = grid_topology(4, 1, 100, 1);
    assert_eq!(col.len(), 3);
    assert!(col.iter().all(|b| b.j == b.i + 1));
    let single: Vec<Bond> = grid_topology(1, 1, 100, 1);
    assert_eq!(single.len(), 0);
}
