use tile_picker::tile_size::{determine_tile_size, DEFAULT_TILE_SIZE};

#[test]
fn test_determine_tile_size() {
    assert_eq!(determine_tile_size("tiles-table-32-32.png"), 32);
    assert_eq!(determine_tile_size("ships-table-64-64.png"), 64);
    assert_eq!(determine_tile_size("path/to/sprites-table-16-16.png"), 16);
    assert_eq!(determine_tile_size("file_name.png"), 16); // default case
}

#[test]
fn tile_size_default_constant_is_sixteen() {
    assert_eq!(DEFAULT_TILE_SIZE, 16);
}

#[test]
fn tile_size_uses_width_not_height() {
    assert_eq!(determine_tile_size("a-table-8-24.png"), 8);
    assert_eq!(determine_tile_size("a-table-24-8.png"), 24);
}

#[test]
fn tile_size_ignores_repeated_png_extension() {
    assert_eq!(determine_tile_size("a-table-12-12.png.png"), 12);
    assert_eq!(determine_tile_size("a-table-12-12"), 12);
}

#[test]
fn tile_size_first_marker_of_file_name_counts() {
    assert_eq!(determine_tile_size("x-table-10-10-table-20-20.png"), 10);
    assert_eq!(determine_tile_size("a-table-8-table-9.png"), 8);
    assert_eq!(determine_tile_size("a-table-8-x-table-y.png"), 8);
    assert_eq!(determine_tile_size("my-ships-table-48-48.png"), 48);
}

#[test]
fn tile_size_reads_file_name_not_directories() {
    assert_eq!(determine_tile_size("my-table-art/tiles-table-32-32.png"), 32);
    assert_eq!(determine_tile_size("my-table-art/tiles.png"), 16);
    assert_eq!(determine_tile_size("sheets-table-8-8/tiles.png"), 16);
    assert_eq!(determine_tile_size("a/b/c-table-24-24.png"), 24);
    assert_eq!(determine_tile_size("dir/"), 16);
}

#[test]
fn tile_size_without_height_separator_is_default() {
    assert_eq!(determine_tile_size("tiles-table-32.png"), 16);
    assert_eq!(determine_tile_size("tiles-table-.png"), 16);
}

#[test]
fn tile_size_unparsable_width_is_default() {
    assert_eq!(determine_tile_size("tiles-table-abc-32.png"), 16);
    assert_eq!(determine_tile_size("tiles-table--32-32.png"), 16);
    assert_eq!(determine_tile_size("tiles-table-3x-32.png"), 16);
    assert_eq!(determine_tile_size("tiles-table-99999999999-1.png"), 16);
}

#[test]
fn tile_size_accepts_plus_sign_and_limits() {
    assert_eq!(determine_tile_size("t-table-+7-7.png"), 7);
    assert_eq!(determine_tile_size("t-table-+-7.png"), 16);
    assert_eq!(determine_tile_size("t-table-2147483647-1.png"), 2147483647);
    assert_eq!(determine_tile_size("t-table-2147483648-1.png"), 16);
    assert_eq!(determine_tile_size("t-table-0-0.png"), 0);
    assert_eq!(determine_tile_size("t-table-007-7.png"), 7);
}

#[test]
fn tile_size_non_ascii_names() {
    assert_eq!(determine_tile_size("épée-table-24-24.png"), 24);
    assert_eq!(determine_tile_size("tiles-table-٣-3.png"), 16);
}

#[test]
fn tile_size_empty_name_is_default() {
    assert_eq!(determine_tile_size(""), 16);
    assert_eq!(determine_tile_size(".png"), 16);
}

#[test]
fn tile_size_of_table_names_is_width() {
    for width in [0, 1, 8, 16, 33, 128, 1000] {
        let name = format!("sheet-table-{}-{}.png", width, width * 2);
        assert_eq!(determine_tile_size(&name), width);
        let plain = format!("sheet-table-{}-x", width);
        assert_eq!(determine_tile_size(&plain), width);
    }
}

#[test]
fn tile_size_never_negative() {
    for name in ["a-table--5-5.png", "a-table-+0-0.png", "-table-1-1", "a-table--1"] {
        assert!(determine_tile_size(name) >= 0);
    }
}
