use little_helpers::coords::{
    coord_along_edge, coords_to_index, index_along_edge, index_to_x, index_to_y,
};

#[test]
fn index_follows_the_formula() {
    assert_eq!(coords_to_index(0, 0, 5), 0);
    assert_eq!(coords_to_index(2, 3, 10), 32);
    assert_eq!(coords_to_index(4, 0, 5), 4);
    assert_eq!(coords_to_index(0, 1, 5), 5);
    assert_eq!(coords_to_index(6, 7, 1), 13);
    assert_eq!(coords_to_index(3, 9, 0), 3);
}

#[test]
fn column_and_row_of_an_index() {
    assert_eq!(index_to_x(32, 10), 2);
    assert_eq!(index_to_y(32, 10), 3);
    assert_eq!(index_to_x(9, 10), 9);
    assert_eq!(index_to_y(9, 10), 0);
    assert_eq!(index_to_x(10, 10), 0);
    assert_eq!(index_to_y(10, 10), 1);
    assert_eq!(index_to_x(7, 1), 0);
    assert_eq!(index_to_y(7, 1), 7);
}

#[test]
fn index_round_trip_over_grids() {
    for width in 1..8usize {
        for height in 1..8usize {
            for y in 0..height {
                for x in 0..width {
                    let index = coords_to_index(x, y, width);
                    assert!(index < width * height);
                    assert_eq!(index_to_x(index, width), x);
                    assert_eq!(index_to_y(index, width), y);
                }
            }
        }
    }
}

#[test]
fn edge_checks_agree_over_grids() {
    for width in 1..8usize {
        for height in 1..8usize {
            for y in 0..height {
                for x in 0..width {
                    let index = coords_to_index(x, y, width);
                    assert_eq!(
                        index_along_edge(index, width, height),
                        coord_along_edge(x, y, width, height)
                    );
                }
            }
        }
    }
}

#[test]
fn single_cell_grid_is_all_edge() {
    assert!(coord_along_edge(0, 0, 1, 1));
    assert!(index_along_edge(0, 1, 1));
}

#[test]
fn edges_of_a_three_by_three_grid() {
    let expected = [true, true, true, true, false, true, true, true, true];
    for index in 0..9usize {
        assert_eq!(index_along_edge(index, 3, 3), expected[index]);
        assert_eq!(
            coord_along_edge(index % 3, index / 3, 3, 3),
            expected[index]
        );
    }
}

#[test]
fn edges_of_a_wide_grid() {
    assert!(coord_along_edge(0, 1, 4, 3));
    assert!(coord_along_edge(3, 1, 4, 3));
    assert!(coord_along_edge(1, 0, 4, 3));
    assert!(coord_along_edge(2, 2, 4, 3));
    assert!(!coord_along_edge(1, 1, 4, 3));
    assert!(!coord_along_edge(2, 1, 4, 3));
    assert!(!index_along_edge(5, 4, 3));
    assert!(index_along_edge(7, 4, 3));
}
