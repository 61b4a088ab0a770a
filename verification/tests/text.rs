use tile_picker::text::{
    chars_of, copied_message, decimal_text, index_base_message, texture_size_text,
    tile_count_text, tile_size_text,
};

#[test]
fn decimal_text_matches_to_string() {
    for n in [0, 1, 9, 10, 42, 99, 100, 12345, -1, -10, -987, i32::MAX, i32::MIN] {
        assert_eq!(decimal_text(n), n.to_string());
    }
}

#[test]
fn chars_of_keeps_order() {
    assert_eq!(chars_of("aé-1"), vec!['a', 'é', '-', '1']);
    assert_eq!(chars_of(""), Vec::<char>::new());
}

#[test]
fn index_base_messages() {
    assert_eq!(index_base_message(true), "Switched to 1-indexed (Lua)");
    assert_eq!(index_base_message(false), "Switched to 0-indexed");
}

#[test]
fn copied_message_text() {
    assert_eq!(copied_message(17), "Copied to clipboard: 17");
    assert_eq!(copied_message(0), "Copied to clipboard: 0");
}

#[test]
fn info_panel_lines() {
    assert_eq!(texture_size_text(256, 128), "256x128px");
    assert_eq!(tile_count_text(128), "Tiles: 128");
    assert_eq!(tile_size_text(16), "Tile size: 16px");
}
