use tile_picker::grid::{overlay_labels, tile_grid, tile_index};

#[test]
fn grid_counts_whole_tiles() {
    let grid = tile_grid(256, 128, 16);
    assert_eq!((grid.tiles_wide, grid.tiles_high, grid.tiles_count), (16, 8, 128));
    let partial = tile_grid(100, 40, 16);
    assert_eq!((partial.tiles_wide, partial.tiles_high, partial.tiles_count), (6, 2, 12));
    let small = tile_grid(10, 10, 16);
    assert_eq!(small.tiles_count, 0);
}

#[test]
fn click_index_zero_and_one_based() {
    assert_eq!(tile_index(16, 3, 2, false), 35);
    assert_eq!(tile_index(16, 3, 2, true), 36);
    assert_eq!(tile_index(16, 0, 0, false), 0);
    assert_eq!(tile_index(16, 0, 0, true), 1);
}

#[test]
fn overlay_labels_row_by_row() {
    let grid = tile_grid(48, 32, 16);
    let labels = overlay_labels(&grid, false);
    assert_eq!(labels.len(), 6);
    let cells: Vec<(i32, i32, i32)> = labels.iter().map(|l| (l.column, l.row, l.index)).collect();
    assert_eq!(cells, vec![(0, 0, 0), (1, 0, 1), (2, 0, 2), (0, 1, 3), (1, 1, 4), (2, 1, 5)]);
    let one_based = overlay_labels(&grid, true);
    assert_eq!(one_based[5].index, 6);
}

#[test]
fn overlay_label_equals_click_index() {
    let grid = tile_grid(80, 48, 16);
    for one_based in [false, true] {
        for label in overlay_labels(&grid, one_based) {
            assert_eq!(tile_index(grid.tiles_wide, label.column, label.row, one_based), label.index);
        }
    }
}

#[test]
fn empty_grid_has_no_labels() {
    let grid = tile_grid(0, 0, 16);
    assert!(overlay_labels(&grid, true).is_empty());
}
