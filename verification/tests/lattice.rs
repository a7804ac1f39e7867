use uft_ca::Lattice3D;

#[test]
fn test_lattice_creation() {
    let lattice = Lattice3D::new(10, 10, 10);
    assert_eq!(lattice.size(), 1000);
}

#[test]
fn test_moore_neighbors() {
    let lattice = Lattice3D::new(3, 3, 3);
    let neighbors = lattice.moore_neighbors(1, 1, 1);
    assert_eq!(neighbors.len(), 26);
}

#[test]
fn test_moore_neighbors_corner() {
    let lattice = Lattice3D::new(3, 3, 3);
    let neighbors = lattice.moore_neighbors(0, 0, 0);
    assert_eq!(neighbors.len(), 7);
}

#[test]
fn new_keeps_the_dimensions() {
    let lattice = Lattice3D::new(4, 5, 6);
    assert_eq!(lattice.width, 4);
    assert_eq!(lattice.height, 5);
    assert_eq!(lattice.depth, 6);
    assert_eq!(lattice.size(), 120);
}

#[test]
fn index_is_row_major_with_z_outermost() {
    let lattice = Lattice3D::new(4, 5, 6);
    assert_eq!(lattice.index(0, 0, 0), 0);
    assert_eq!(lattice.index(1, 0, 0), 1);
    assert_eq!(lattice.index(0, 1, 0), 4);
    assert_eq!(lattice.index(0, 0, 1), 20);
    assert_eq!(lattice.index(1, 2, 3), 69);
    assert_eq!(lattice.index(3, 4, 5), 119);
}

#[test]
fn index_visits_every_cell_once_in_loop_order() {
    let lattice = Lattice3D::new(3, 2, 4);
    let mut expected = 0;
    for z in 0..4 {
        for y in 0..2 {
            for x in 0..3 {
                assert_eq!(lattice.index(x, y, z), expected);
                expected += 1;
            }
        }
    }
    assert_eq!(expected, lattice.size());
}

#[test]
fn zero_dimension_gives_an_empty_lattice() {
    assert_eq!(Lattice3D::new(0, 5, 5).size(), 0);
    assert_eq!(Lattice3D::new(5, 0, 5).size(), 0);
    assert_eq!(Lattice3D::new(5, 5, 0).size(), 0);
    assert_eq!(Lattice3D::new(0, 0, 0).size(), 0);
    assert_eq!(Lattice3D::new(usize::MAX, usize::MAX, 0).size(), 0);
    assert!(Lattice3D::new(0, 5, 5).moore_neighbors(0, 0, 0).is_empty());
}

#[test]
fn checked_size_tells_when_the_count_fits() {
    assert_eq!(Lattice3D::new(10, 10, 10).checked_size(), Some(1000));
    assert_eq!(Lattice3D::new(7, 0, 3).checked_size(), Some(0));
    assert_eq!(Lattice3D::new(usize::MAX, usize::MAX, 0).checked_size(), Some(0));
    assert_eq!(Lattice3D::new(usize::MAX, 1, 1).checked_size(), Some(usize::MAX));
    assert_eq!(Lattice3D::new(usize::MAX, 2, 1).checked_size(), None);
    assert_eq!(Lattice3D::new(usize::MAX, 1, 2).checked_size(), None);
    assert_eq!(Lattice3D::new(usize::MAX, usize::MAX, usize::MAX).checked_size(), None);
}

#[test]
fn interior_neighbors_are_listed_in_offset_order() {
    let lattice = Lattice3D::new(3, 3, 3);
    let expected: Vec<usize> = (0..27).filter(|i| *i != 13).collect();
    assert_eq!(lattice.moore_neighbors(1, 1, 1), expected);
}

#[test]
fn corner_neighbors_are_listed_in_offset_order() {
    let lattice = Lattice3D::new(3, 3, 3);
    assert_eq!(lattice.moore_neighbors(0, 0, 0), vec![1, 3, 4, 9, 10, 12, 13]);
    assert_eq!(lattice.moore_neighbors(2, 2, 2), vec![13, 14, 16, 17, 22, 23, 25]);
}

#[test]
fn interior_cell_has_26_distinct_neighbors_without_itself() {
    let lattice = Lattice3D::new(4, 5, 6);
    for z in 1..5 {
        for y in 1..4 {
            for x in 1..3 {
                let neighbors = lattice.moore_neighbors(x, y, z);
                assert_eq!(neighbors.len(), 26);
                let mut sorted = neighbors.clone();
                sorted.sort();
                sorted.dedup();
                assert_eq!(sorted.len(), 26);
                assert!(!neighbors.contains(&lattice.index(x, y, z)));
                assert!(neighbors.iter().all(|n| *n < lattice.size()));
            }
        }
    }
    assert_eq!(
        lattice.moore_neighbors(1, 2, 3),
        vec![
            44, 45, 46, 48, 49, 50, 52, 53, 54, 64, 65, 66, 68, 70, 72, 73, 74, 84, 85, 86, 88,
            89, 90, 92, 93, 94
        ]
    );
}

#[test]
fn every_corner_has_7_neighbors() {
    for (w, h, d) in [(2, 2, 2), (2, 3, 4), (3, 3, 3), (5, 2, 7)] {
        let lattice = Lattice3D::new(w, h, d);
        for x in [0, w - 1] {
            for y in [0, h - 1] {
                for z in [0, d - 1] {
                    assert_eq!(lattice.moore_neighbors(x, y, z).len(), 7);
                }
            }
        }
    }
    assert_eq!(Lattice3D::new(2, 2, 2).moore_neighbors(0, 0, 0), vec![1, 2, 3, 4, 5, 6, 7]);
}

#[test]
fn edge_and_face_cells_have_11_and_17_neighbors() {
    let lattice = Lattice3D::new(3, 3, 3);
    assert_eq!(lattice.moore_neighbors(1, 0, 0), vec![0, 2, 3, 4, 5, 9, 10, 11, 12, 13, 14]);
    assert_eq!(lattice.moore_neighbors(1, 1, 0).len(), 17);
    assert_eq!(lattice.moore_neighbors(0, 1, 1).len(), 17);
    assert_eq!(lattice.moore_neighbors(2, 1, 0).len(), 11);
}

#[test]
fn thin_lattices_do_not_wrap_around() {
    assert!(Lattice3D::new(1, 1, 1).moore_neighbors(0, 0, 0).is_empty());
    assert_eq!(Lattice3D::new(3, 1, 1).moore_neighbors(1, 0, 0), vec![0, 2]);
    assert_eq!(Lattice3D::new(3, 1, 1).moore_neighbors(0, 0, 0), vec![1]);
    assert_eq!(Lattice3D::new(1, 1, 4).moore_neighbors(0, 0, 3), vec![2]);
}

#[test]
fn a_coordinate_outside_lists_only_cells_inside() {
    let lattice = Lattice3D::new(3, 3, 3);
    assert_eq!(lattice.moore_neighbors(3, 0, 0), vec![2, 5, 11, 14]);
    assert!(lattice.moore_neighbors(5, 0, 0).is_empty());
    assert!(lattice.moore_neighbors(usize::MAX, usize::MAX, usize::MAX).is_empty());
    assert!(lattice.moore_neighbors(usize::MAX, 0, 0).is_empty());
}

#[test]
fn neighbors_are_the_same_on_every_call() {
    let lattice = Lattice3D::new(4, 3, 5);
    for z in 0..5 {
        for y in 0..3 {
            for x in 0..4 {
                assert_eq!(lattice.moore_neighbors(x, y, z), lattice.moore_neighbors(x, y, z));
            }
        }
    }
    assert_eq!(lattice.width, 4);
    assert_eq!(lattice.height, 3);
    assert_eq!(lattice.depth, 5);
}
