use tile_picker::scene::{
    background_color, load_active_into_texture, navigate, preview_scale, switch_scene,
    update_pick_file, update_view_image, view_button_visible, BackgroundColor, PickKeys, Scene,
    State, TextureRequest, TextureSize, TileCell, ViewKeys,
};

fn paths(names: &[&str]) -> Vec<String> {
    names.iter().map(|s| s.to_string()).collect()
}

fn keys(up: bool, down: bool, confirm: bool) -> PickKeys {
    PickKeys { up, down, confirm }
}

fn view_keys(r: bool, b: bool, one: bool) -> ViewKeys {
    ViewKeys { toggle_overlay: r, cycle_background: b, toggle_index_base: one }
}

#[test]
fn navigation_wraps_both_ways() {
    assert_eq!(navigate(0, 3, true, false), 2);
    assert_eq!(navigate(2, 3, false, true), 0);
    assert_eq!(navigate(1, 3, false, true), 2);
    assert_eq!(navigate(1, 3, true, true), 1);
    assert_eq!(navigate(-1, 3, false, false), 2);
    assert_eq!(navigate(0, 0, true, false), -1);
    assert_eq!(navigate(0, 0, false, true), 0);
}

#[test]
fn active_texture_only_for_existing_item() {
    let p = paths(&["a.png", "b.png"]);
    assert_eq!(load_active_into_texture(&p, 0), Some(0));
    assert_eq!(load_active_into_texture(&p, 1), Some(1));
    assert_eq!(load_active_into_texture(&p, 2), None);
    assert_eq!(load_active_into_texture(&p, -1), None);
    assert_eq!(load_active_into_texture(&Vec::new(), 0), None);
}

#[test]
fn picking_moves_and_requests_textures() {
    let mut state = State::new(paths(&["a.png", "b.png", "c.png"]), false);
    assert!(update_pick_file(&mut state, keys(false, false, false)) == TextureRequest::Keep);
    assert!(update_pick_file(&mut state, keys(false, true, false)) == TextureRequest::Load(1));
    assert_eq!(state.list_active, 1);
    assert_eq!(state.list_active_last, 1);
    assert!(update_pick_file(&mut state, keys(false, true, false)) == TextureRequest::Load(2));
    assert!(update_pick_file(&mut state, keys(false, true, false)) == TextureRequest::Load(0));
    assert!(state.scene == Scene::PickFile);
}

#[test]
fn deselected_item_drops_texture() {
    let mut state = State::new(paths(&["a.png", "b.png"]), false);
    state.list_active = -1;
    // no key: -1 wraps to the last item
    assert!(update_pick_file(&mut state, keys(false, false, false)) == TextureRequest::Load(1));
    let mut empty = State::new(Vec::new(), false);
    assert!(update_pick_file(&mut empty, keys(true, false, false)) == TextureRequest::Clear);
    assert_eq!(empty.list_active, -1);
}

#[test]
fn confirm_opens_viewer_with_tile_size() {
    let mut state = State::new(paths(&["x.png", "tiles-table-32-32.png"]), true);
    update_pick_file(&mut state, keys(false, true, true));
    assert!(state.scene == Scene::ViewImage);
    let view = state.view_state.unwrap();
    assert_eq!(view.tile_size, 32);
    assert!(view.show_overlay);
    assert_eq!(view.background_color_idx, 0);
    assert!(view.one_based_index);
    switch_scene(&mut state, Scene::PickFile);
    assert!(state.scene == Scene::PickFile);
    assert!(state.view_state.is_none());
}

#[test]
fn view_button_and_preview_scale() {
    let mut state = State::new(paths(&["a.png"]), false);
    assert!(view_button_visible(&state, true));
    assert!(!view_button_visible(&state, false));
    state.list_active = -1;
    assert!(!view_button_visible(&state, true));
    assert_eq!(preview_scale(399), 2);
    assert_eq!(preview_scale(400), 1);
}

#[test]
fn background_colors_cycle() {
    assert!(background_color(0) == BackgroundColor::Gray);
    assert!(background_color(1) == BackgroundColor::Black);
    assert!(background_color(2) == BackgroundColor::White);
    let mut state = State::new(paths(&["a-table-16-16.png"]), false);
    switch_scene(&mut state, Scene::ViewImage);
    let tex = || Some(TextureSize { width: 64, height: 64 });
    for expected in [1usize, 2, 0, 1] {
        update_view_image(&mut state, view_keys(false, true, false), tex(), None).unwrap();
        assert_eq!(state.view_state.unwrap().background_color_idx, expected);
    }
}

#[test]
fn viewer_toggles_and_copies() {
    let mut state = State::new(paths(&["a-table-16-16.png"]), false);
    switch_scene(&mut state, Scene::ViewImage);
    let tex = || Some(TextureSize { width: 64, height: 32 });

    let frame = update_view_image(&mut state, view_keys(true, false, false), tex(), None).unwrap();
    assert!(!state.view_state.unwrap().show_overlay);
    assert_eq!((frame.grid.tiles_wide, frame.grid.tiles_high, frame.grid.tiles_count), (4, 2, 8));
    assert!(frame.copied.is_none());
    assert!(frame.toast.is_none());

    let frame = update_view_image(&mut state, view_keys(false, false, false), tex(), Some(TileCell { column: 2, row: 1 })).unwrap();
    assert_eq!(frame.copied.as_deref(), Some("6"));
    assert_eq!(frame.toast.as_deref(), Some("Copied to clipboard: 6"));

    let frame = update_view_image(&mut state, view_keys(false, false, true), tex(), None).unwrap();
    assert!(state.view_state.unwrap().one_based_index);
    assert_eq!(frame.toast.as_deref(), Some("Switched to 1-indexed (Lua)"));

    // switching and clicking in one frame: the click uses the new base and its notice wins
    let frame = update_view_image(&mut state, view_keys(false, false, true), tex(), Some(TileCell { column: 2, row: 1 })).unwrap();
    assert!(!state.view_state.unwrap().one_based_index);
    assert_eq!(frame.copied.as_deref(), Some("6"));
    assert_eq!(frame.toast.as_deref(), Some("Copied to clipboard: 6"));

    let frame = update_view_image(&mut state, view_keys(false, false, true), tex(), Some(TileCell { column: 0, row: 0 })).unwrap();
    assert_eq!(frame.copied.as_deref(), Some("1"));
}

#[test]
fn viewer_without_texture_or_state_does_nothing() {
    let mut state = State::new(paths(&["a-table-16-16.png"]), false);
    assert!(update_view_image(&mut state, view_keys(true, true, true), Some(TextureSize { width: 64, height: 64 }), None).is_none());
    switch_scene(&mut state, Scene::ViewImage);
    assert!(update_view_image(&mut state, view_keys(true, true, true), None, None).is_none());
    let view = state.view_state.unwrap();
    assert!(view.show_overlay);
    assert_eq!(view.background_color_idx, 0);
}

#[test]
fn closing_viewer_returns_to_picker() {
    let mut state = State::new(paths(&["a-table-8-8.png"]), false);
    switch_scene(&mut state, Scene::ViewImage);
    tile_picker::scene::close_viewer(&mut state);
    assert!(state.scene == Scene::PickFile);
    assert_eq!(state.view_state.unwrap().tile_size, 8);
    // opening again starts a fresh viewer
    update_pick_file(&mut state, keys(false, false, true));
    assert!(state.scene == Scene::ViewImage);
    assert_eq!(state.view_state.unwrap().background_color_idx, 0);
}

#[test]
fn overlay_and_index_base_toggles_undo_themselves() {
    let mut state = State::new(paths(&["a-table-16-16.png"]), false);
    switch_scene(&mut state, Scene::ViewImage);
    let before = state.view_state.unwrap();
    let tex = || Some(TextureSize { width: 32, height: 32 });
    update_view_image(&mut state, view_keys(true, false, true), tex(), None).unwrap();
    assert!(state.view_state.unwrap() != before);
    update_view_image(&mut state, view_keys(true, false, true), tex(), None).unwrap();
    assert!(state.view_state.unwrap() == before);
}

#[test]
fn moving_down_then_up_returns() {
    for count in 1usize..5 {
        for start in 0..count as i32 {
            let down = navigate(start, count, false, true);
            assert_eq!(navigate(down, count, true, false), start);
        }
    }
}
