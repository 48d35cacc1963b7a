use gadget_core::grid::Grid;
use gadget_core::math::vec2;

#[test]
fn test_from_iter() {
    let grid = Grid::from_entries(vec![
        ("a", vec2(0, 0), (1, 1)),
        ("b", vec2(1, 0), (2, 1)),
    ]);

    assert_eq!(Some(&("a", vec2(0, 0), (1, 1))), grid.get(vec2(0, 0)));
    assert_eq!(Some(&("b", vec2(1, 0), (2, 1))), grid.get(vec2(1, 0)));
    assert_eq!(Some(&("b", vec2(1, 0), (2, 1))), grid.get(vec2(2, 0)));
}

#[test]
fn test_insert_overlapping() {
    let mut grid = Grid::new();

    grid.insert("a", vec2(0, 0), (2, 2));
    let evicted = grid.insert("b", vec2(1, 1), (2, 2));

    assert_eq!(None, grid.get(vec2(0, 0)));
    assert_eq!(evicted, vec![("a", vec2(0, 0), (2, 2))]);
    assert_eq!(Some(&("b", vec2(1, 1), (2, 2))), grid.get(vec2(2, 2)));
}

#[test]
fn test_translate() {
    let mut grid = Grid::new();
    grid.insert("a", vec2(-1, 2), (3, 2));

    let grid = grid.translate(vec2(-1, 5));

    assert_eq!(("a", vec2(-2, 7), (3, 2)), grid.iter()[0]);
}

#[test]
fn test_rotate_ccw() {
    let mut grid = Grid::new();
    grid.insert("a", vec2(-1, 2), (3, 2));

    // One counterclockwise quarter turn around (-0.5, 2.5).
    let grid = grid.rotate(vec2(-1, 2), 1);

    assert_eq!(("a", vec2(-2, 2), (2, 3)), grid.iter()[0]);
}

#[test]
fn test_rotate_upside_down() {
    let mut grid = Grid::new();
    grid.insert("a", vec2(-1, 2), (3, 2));

    // Two quarter turns around (1.5, -1.5).
    let grid = grid.rotate(vec2(1, -2), 2);

    assert_eq!(("a", vec2(1, -7), (3, 2)), grid.iter()[0]);
}

#[test]
fn test_rotate_cw() {
    let mut grid = Grid::new();
    grid.insert("a", vec2(-1, 2), (3, 2));

    // One clockwise quarter turn around (-0.5, 2.5).
    let grid = grid.rotate(vec2(-1, 2), -1);

    assert_eq!(("a", vec2(-1, 0), (2, 3)), grid.iter()[0]);
}

#[test]
fn test_flip_x() {
    let mut grid = Grid::new();
    grid.insert("a", vec2(-1, 2), (3, 2));

    // Mirror across the vertical line x = 1.5.
    let grid = grid.flip_x(1);

    assert_eq!(("a", vec2(1, 2), (3, 2)), grid.iter()[0]);
}

#[test]
fn test_flip_y() {
    let mut grid = Grid::new();
    grid.insert("a", vec2(-1, 2), (3, 2));

    // Mirror across the horizontal line y = -0.5.
    let grid = grid.flip_y(-1);

    assert_eq!(("a", vec2(-1, -5), (3, 2)), grid.iter()[0]);
}

#[test]
fn test_insert_remove_round_trip() {
    let mut grid = Grid::new();
    let evicted = grid.insert("a", vec2(2, 3), (2, 1));
    assert!(evicted.is_empty());

    assert_eq!(Some(("a", vec2(2, 3), (2, 1))), grid.remove(vec2(2, 3)));
    assert!(grid.is_empty());
    assert_eq!(None, grid.remove(vec2(2, 3)));
}

#[test]
fn test_every_covered_cell_maps_to_the_occupant() {
    let mut grid = Grid::new();
    grid.insert("a", vec2(-1, 2), (3, 2));

    for x in -1..2 {
        for y in 2..4 {
            assert_eq!(Some(&("a", vec2(-1, 2), (3, 2))), grid.get(vec2(x, y)));
        }
    }
    assert_eq!(None, grid.get(vec2(2, 2)));
    assert_eq!(None, grid.get(vec2(-2, 2)));
    assert_eq!(None, grid.get(vec2(-1, 1)));
    assert_eq!(None, grid.get(vec2(-1, 4)));
}

#[test]
fn test_rotate_four_times_round_trip() {
    let mut grid = Grid::new();
    grid.insert("a", vec2(-1, 2), (3, 2));
    grid.insert("b", vec2(5, -3), (1, 4));

    let grid = grid.rotate(vec2(7, 11), 1).rotate(vec2(7, 11), 1).rotate(vec2(7, 11), 1).rotate(
        vec2(7, 11),
        1,
    );

    assert_eq!(("a", vec2(-1, 2), (3, 2)), grid.iter()[0]);
    assert_eq!(("b", vec2(5, -3), (1, 4)), grid.iter()[1]);
}

#[test]
fn test_flip_involution() {
    let mut grid = Grid::new();
    grid.insert("a", vec2(-1, 2), (3, 2));
    grid.insert("b", vec2(5, -3), (1, 4));

    let grid = grid.flip_x(3).flip_x(3);
    assert_eq!(("a", vec2(-1, 2), (3, 2)), grid.iter()[0]);
    assert_eq!(("b", vec2(5, -3), (1, 4)), grid.iter()[1]);

    let grid = grid.flip_y(-2).flip_y(-2);
    assert_eq!(("a", vec2(-1, 2), (3, 2)), grid.iter()[0]);
    assert_eq!(("b", vec2(5, -3), (1, 4)), grid.iter()[1]);
}

#[test]
fn test_center() {
    let mut grid = Grid::new();
    grid.insert("a", vec2(-1, 2), (3, 2));

    let grid = grid.center();

    assert_eq!(("a", vec2(-1, -1), (3, 2)), grid.iter()[0]);
}

#[test]
fn test_get_item_touching_edge_unit_square() {
    let mut grid = Grid::new();
    grid.insert("a", vec2(0, 0), (1, 1));

    // Bottom edge, approached facing north from below.
    let (i, xy, wh, idx) = grid.get_item_touching_edge(vec2(1, 0), vec2(0, 1)).unwrap();
    assert_eq!((xy, wh, idx), (vec2(0, 0), (1, 1), 0));
    assert_eq!(grid.iter()[i].0, "a");

    // Right edge, approached facing west from the right.
    let (_, xy, wh, idx) = grid.get_item_touching_edge(vec2(2, 1), vec2(-1, 0)).unwrap();
    assert_eq!((xy, wh, idx), (vec2(0, 0), (1, 1), 1));

    // Top edge, approached facing south from above.
    let (_, xy, wh, idx) = grid.get_item_touching_edge(vec2(1, 2), vec2(0, -1)).unwrap();
    assert_eq!((xy, wh, idx), (vec2(0, 0), (1, 1), 2));

    // Left edge, approached facing east from the left.
    let (_, xy, wh, idx) = grid.get_item_touching_edge(vec2(0, 1), vec2(1, 0)).unwrap();
    assert_eq!((xy, wh, idx), (vec2(0, 0), (1, 1), 3));

    // An edge with nothing on the examined side.
    assert_eq!(None, grid.get_item_touching_edge(vec2(1, 0), vec2(0, -1)));
    assert_eq!(None, grid.get_item_touching_edge(vec2(2, 1), vec2(1, 0)));
}

#[test]
fn test_get_item_touching_edge_two_by_one() {
    let mut grid = Grid::new();
    grid.insert("a", vec2(0, 0), (2, 1));

    let expectations = [
        // Bottom edges, facing north.
        (vec2(1, 0), vec2(0, 1), 0),
        (vec2(3, 0), vec2(0, 1), 1),
        // Right edge, facing west.
        (vec2(4, 1), vec2(-1, 0), 2),
        // Top edges, facing south.
        (vec2(3, 2), vec2(0, -1), 3),
        (vec2(1, 2), vec2(0, -1), 4),
        // Left edge, facing east.
        (vec2(0, 1), vec2(1, 0), 5),
    ];
    for (double_xy, direction, expected) in expectations {
        let (_, xy, wh, idx) = grid.get_item_touching_edge(double_xy, direction).unwrap();
        assert_eq!((xy, wh), (vec2(0, 0), (2, 1)));
        assert_eq!(idx, expected, "wrong perimeter index at {:?}", double_xy);
    }
}

#[test]
fn test_get_in_bounds() {
    let mut grid = Grid::new();
    grid.insert("a", vec2(0, 0), (1, 1));
    grid.insert("b", vec2(5, 5), (2, 2));

    let hits = grid.get_in_bounds(0, 1, 0, 1);
    assert_eq!(hits.len(), 1);
    assert_eq!(*hits[0], ("a", vec2(0, 0), (1, 1)));

    let hits = grid.get_in_bounds(-10, 10, -10, 10);
    assert_eq!(hits.len(), 2);

    let hits = grid.get_in_bounds(2, 3, 2, 3);
    assert_eq!(hits.len(), 0);
}

#[test]
fn test_get_empty_in_bounds() {
    let mut grid = Grid::new();
    grid.insert("a", vec2(0, 0), (1, 1));

    let empty = grid.get_empty_in_bounds(0, 1, 0, 0);
    assert_eq!(empty, vec![vec2(1, 0)]);

    let empty = grid.get_empty_in_bounds(0, 0, 0, 0);
    assert_eq!(empty, vec![]);
}

#[test]
fn test_get_mut() {
    let mut grid = Grid::new();
    grid.insert("a", vec2(0, 0), (2, 2));

    let (item, xy, wh) = grid.get_mut(vec2(1, 1)).unwrap();
    assert_eq!((xy, wh), (vec2(0, 0), (2, 2)));
    *item = "b";

    assert_eq!(Some(&("b", vec2(0, 0), (2, 2))), grid.get(vec2(0, 0)));
    assert!(grid.get_mut(vec2(5, 5)).is_none());
}

#[test]
fn test_extend_and_into_entries() {
    let mut grid = Grid::new();
    grid.extend(vec![("a", vec2(0, 0), (1, 1)), ("b", vec2(1, 0), (1, 1))]);
    assert!(!grid.is_empty());

    let entries = grid.into_entries();
    assert_eq!(entries, vec![("a", vec2(0, 0), (1, 1)), ("b", vec2(1, 0), (1, 1))]);
}
