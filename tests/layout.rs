use tileset_loader::{atlas_grid, atlas_layout, tile_cell};

#[test]
fn two_columns_wrap_in_row_major_order() {
    let cells = atlas_layout(5, Some(2));
    assert_eq!(cells, vec![(0, 0), (1, 0), (0, 1), (1, 1), (0, 2)]);
    assert_eq!(atlas_grid(5, Some(2)), (2, 3));
}

#[test]
fn no_column_limit_keeps_one_row() {
    let cells = atlas_layout(5, None);
    assert_eq!(cells, vec![(0, 0), (1, 0), (2, 0), (3, 0), (4, 0)]);
    assert_eq!(atlas_grid(5, None), (5, 1));
}

#[test]
fn zero_column_limit_keeps_one_row() {
    assert_eq!(atlas_layout(3, Some(0)), vec![(0, 0), (1, 0), (2, 0)]);
    assert_eq!(atlas_grid(3, Some(0)), (3, 1));
}

#[test]
fn grid_of_fewer_tiles_than_columns() {
    assert_eq!(atlas_grid(2, Some(4)), (2, 1));
    assert_eq!(atlas_grid(0, Some(4)), (0, 0));
    assert_eq!(atlas_grid(8, Some(4)), (4, 2));
    assert_eq!(atlas_grid(9, Some(4)), (4, 3));
}

#[test]
fn single_cell() {
    assert_eq!(tile_cell(7, Some(3)), (1, 2));
    assert_eq!(tile_cell(7, None), (7, 0));
    assert_eq!(atlas_layout(0, None), Vec::<(usize, usize)>::new());
}
