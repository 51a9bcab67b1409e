use cellular_automata_backend::world::Coord;

#[test]
fn test_chunk_coord() {
    let coord = Coord::new(65, 130);
    assert_eq!(coord.chunk_coord(64), (1, 2));

    let coord = Coord::new(-10, -20);
    assert_eq!(coord.chunk_coord(64), (-1, -1));
}

#[test]
fn test_local_coord() {
    let coord = Coord::new(65, 130);
    assert_eq!(coord.local_coord(64), (1, 2));

    let coord = Coord::new(-10, -20);
    assert_eq!(coord.local_coord(64), (54, 44));
}

#[test]
fn test_neighbors() {
    let coord = Coord::new(5, 5);
    let neighbors = coord.neighbors();
    assert_eq!(neighbors.len(), 8);
    assert!(neighbors.contains(&Coord::new(4, 4)));
    assert!(neighbors.contains(&Coord::new(6, 6)));
}

#[test]
fn negative_one_maps_to_last_place_of_chunk_before_origin() {
    let coord = Coord::new(-1, -1);
    assert_eq!(coord.chunk_coord(64), (-1, -1));
    assert_eq!(coord.local_coord(64), (63, 63));
}

#[test]
fn chunk_and_local_give_the_coordinate_back() {
    let sizes = [1, 2, 7, 64, 1000];
    let values = [i32::MIN, -129, -128, -65, -64, -63, -1, 0, 1, 63, 64, 65, 127, i32::MAX];
    for n in sizes {
        for x in values {
            for y in values {
                let c = Coord::new(x, y);
                let (cx, cy) = c.chunk_coord(n);
                let (lx, ly) = c.local_coord(n);
                assert!(0 <= lx && lx < n && 0 <= ly && ly < n);
                assert_eq!(cx as i64 * n as i64 + lx as i64, x as i64);
                assert_eq!(cy as i64 * n as i64 + ly as i64, y as i64);
            }
        }
    }
}

#[test]
fn floored_division_agrees_with_the_standard_library() {
    for x in [-200, -65, -64, -1, 0, 1, 64, 200] {
        let c = Coord::new(x, -x);
        assert_eq!(c.chunk_coord(64), (x.div_euclid(64), (-x).div_euclid(64)));
        assert_eq!(c.local_coord(64), (x.rem_euclid(64), (-x).rem_euclid(64)));
    }
}

#[test]
fn neighbors_are_eight_distinct_adjacent_cells_in_row_order() {
    let c = Coord::new(-3, 7);
    let ns = c.neighbors();
    let expected = [
        Coord::new(-4, 6),
        Coord::new(-3, 6),
        Coord::new(-2, 6),
        Coord::new(-4, 7),
        Coord::new(-2, 7),
        Coord::new(-4, 8),
        Coord::new(-3, 8),
        Coord::new(-2, 8),
    ];
    assert_eq!(ns, expected);
    for i in 0..8 {
        assert_ne!(ns[i], c);
        for j in 0..i {
            assert_ne!(ns[i], ns[j]);
        }
    }
}

#[test]
fn neighbor_at_leaves_out_what_the_lattice_does_not_hold() {
    let corner = Coord::new(i32::MIN, i32::MAX);
    assert_eq!(corner.neighbor_at(0), None);
    assert_eq!(corner.neighbor_at(1), Some(Coord::new(i32::MIN, i32::MAX - 1)));
    assert_eq!(corner.neighbor_at(2), Some(Coord::new(i32::MIN + 1, i32::MAX - 1)));
    assert_eq!(corner.neighbor_at(3), None);
    assert_eq!(corner.neighbor_at(4), Some(Coord::new(i32::MIN + 1, i32::MAX)));
    assert_eq!(corner.neighbor_at(5), None);
    assert_eq!(corner.neighbor_at(6), None);
    assert_eq!(corner.neighbor_at(7), None);
    let inner = Coord::new(5, 5);
    let ns = inner.neighbors();
    for k in 0..8 {
        assert_eq!(inner.neighbor_at(k), Some(ns[k]));
    }
}

#[test]
fn coords_add_and_subtract_by_component() {
    let a = Coord::new(1, 2);
    let b = Coord::new(10, -20);
    assert_eq!(a + b, Coord::new(11, -18));
    assert_eq!(a - b, Coord::new(-9, 22));
}
