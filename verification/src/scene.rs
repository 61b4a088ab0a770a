//! The viewer's state machine.  Each frame the program reads the keyboard and
//! mouse, hands what it read to one of the step functions here, performs the
//! action that comes back (load a texture, copy to the clipboard, show a
//! notice) and draws the state.  Positions, zoom and timers are floating
//! point and stay with the program; everything decided on integers, flags
//! and text is here.

use vstd::prelude::*;
use vstd::arithmetic::div_mod::lemma_fundamental_div_mod_converse;
use crate::grid::{TileGrid, tile_grid, tile_index, spec_tile_index};
use crate::text::{copied_message, copied_message_text, decimal_text, spec_decimal, index_base_message, index_base_message_text};
use crate::tile_size::{determine_tile_size, spec_tile_size};

verus! {

/// Which screen is shown.
#[derive(Clone, Copy, PartialEq, Eq, Structural)]
pub enum Scene {
    /// The list of images to choose from.
    PickFile,
    /// One tilesheet, with its tile grid.
    ViewImage,
}

/// The number of background colours the viewer cycles through.
pub const BACKGROUND_COLOR_COUNT: usize = 3;

/// The viewer's background colours, in cycling order.
#[derive(Clone, Copy, PartialEq, Eq, Structural)]
pub enum BackgroundColor {
    Gray,
    Black,
    White,
}

/// The integer and flag part of the image viewer's state.
#[derive(Clone, Copy, PartialEq, Eq, Structural)]
pub struct ViewImageState {
    /// Width and height of each tile in pixels.
    pub tile_size: i32,
    /// Whether the grid and the indexes are drawn over the tilesheet.
    pub show_overlay: bool,
    /// Position of the background colour in the cycle.
    pub background_color_idx: usize,
    /// When true, shown and copied indexes are 1-based.
    pub one_based_index: bool,
}

impl ViewImageState {
    pub open spec fn wf(&self) -> bool {
        &&& self.tile_size >= 0
        &&& self.background_color_idx < BACKGROUND_COLOR_COUNT
    }
}

/// The program state that the step functions decide on.
pub struct State {
    pub scene: Scene,
    pub image_paths: Vec<String>,
    /// List item being hovered.
    pub list_focus: i32,
    /// Scroll position of the list.
    pub list_scroll_index: i32,
    /// List item that is selected (-1: none).
    pub list_active: i32,
    /// The selection the texture was last loaded for.
    pub list_active_last: i32,
    pub view_state: Option<ViewImageState>,
    /// The configured index base, given to each new viewer.
    pub one_based_index: bool,
}

impl State {
    /// The viewer state exists while the viewer is shown and keeps its own
    /// invariant; the number of images fits the list's `i32` indexes.
    pub open spec fn wf(&self) -> bool {
        &&& self.image_paths.len() <= i32::MAX
        &&& self.scene == Scene::ViewImage ==> self.view_state is Some
        &&& match self.view_state {
            Some(view) => view.wf(),
            None => true,
        }
    }

    /// The start state: the file picker, first item selected, no viewer.
    pub fn new(image_paths: Vec<String>, one_based_index: bool) -> (state: State)
        requires
            image_paths.len() <= i32::MAX,
        ensures
            state.wf(),
            state.scene == Scene::PickFile,
            state.image_paths@ == image_paths@,
            state.list_focus == 0,
            state.list_scroll_index == 0,
            state.list_active == 0,
            state.list_active_last == 0,
            state.view_state is None,
            state.one_based_index == one_based_index,
    {
        State {
            scene: Scene::PickFile,
            image_paths,
            list_focus: 0,
            list_scroll_index: 0,
            list_active: 0,
            list_active_last: 0,
            view_state: None,
            one_based_index,
        }
    }
}

/// The colour at position `idx` of the background cycle.
pub open spec fn spec_background_color(idx: int) -> BackgroundColor {
    if idx == 0 {
        BackgroundColor::Gray
    } else if idx == 1 {
        BackgroundColor::Black
    } else {
        BackgroundColor::White
    }
}

/// The colour at position `idx` of the background cycle.
pub fn background_color(idx: usize) -> (color: BackgroundColor)
    requires
        idx < BACKGROUND_COLOR_COUNT,
    ensures
        color == spec_background_color(idx as int),
{
    if idx == 0 {
        BackgroundColor::Gray
    } else if idx == 1 {
        BackgroundColor::Black
    } else {
        BackgroundColor::White
    }
}

/// The next position in the background cycle, wrapping to the first.
pub open spec fn spec_next_background(idx: int) -> int {
    if idx + 1 >= BACKGROUND_COLOR_COUNT { 0 } else { idx + 1 }
}

/// The selection after moving up and/or down in a list of `count` items;
/// moving off either end wraps to the other.
pub open spec fn spec_navigate(active: int, count: int, up: bool, down: bool) -> int {
    let moved = active - (if up { 1int } else { 0int }) + (if down { 1int } else { 0int });
    let low_wrapped = if moved < 0 { count - 1 } else { moved };
    if low_wrapped >= count { 0 } else { low_wrapped }
}

/// The list item whose image is shown for a selection: the selected item when
/// it exists, none otherwise.
pub open spec fn spec_active_texture(count: int, idx: int) -> Option<int> {
    if 0 <= idx < count { Some(idx) } else { None }
}

/// The viewer state for a freshly opened image: tile size from its file name,
/// overlay on, first background colour, the configured index base.
pub open spec fn fresh_view_state(paths: Seq<String>, active: int, one_based: bool) -> ViewImageState {
    ViewImageState {
        tile_size: spec_tile_size(paths[active]@) as i32,
        show_overlay: true,
        background_color_idx: 0,
        one_based_index: one_based,
    }
}

/// What happens to the viewer state on a frame with the given keys.
pub open spec fn spec_view_step(view: ViewImageState, keys: ViewKeys) -> ViewImageState {
    ViewImageState {
        tile_size: view.tile_size,
        show_overlay: if keys.toggle_overlay { !view.show_overlay } else { view.show_overlay },
        background_color_idx: if keys.cycle_background {
            spec_next_background(view.background_color_idx as int) as usize
        } else {
            view.background_color_idx
        },
        one_based_index: if keys.toggle_index_base { !view.one_based_index } else { view.one_based_index },
    }
}

/// What the texture shown in the picker has to become.
#[derive(Clone, Copy, PartialEq, Eq, Structural)]
pub enum TextureRequest {
    /// Leave it as it is.
    Keep,
    /// Drop it: no item is selected.
    Clear,
    /// Load the image at this position of the list.
    Load(usize),
}

/// The keys of one picker frame.
pub struct PickKeys {
    /// W or Up pressed.
    pub up: bool,
    /// S or Down pressed.
    pub down: bool,
    /// Space or Enter pressed.
    pub confirm: bool,
}

/// The keys of one viewer frame.
pub struct ViewKeys {
    /// R pressed.
    pub toggle_overlay: bool,
    /// B pressed.
    pub cycle_background: bool,
    /// 1 pressed.
    pub toggle_index_base: bool,
}

/// Dimensions of the loaded texture in pixels.
pub struct TextureSize {
    pub width: i32,
    pub height: i32,
}

/// The tile cell under a click inside the texture.
pub struct TileCell {
    pub column: i32,
    pub row: i32,
}

/// What a viewer frame shows and does.
pub struct ViewFrame {
    /// The tile grid over the texture.
    pub grid: TileGrid,
    /// Text to put on the clipboard and print, if a tile was clicked.
    pub copied: Option<String>,
    /// Notice to show, if any.
    pub toast: Option<String>,
}

/// Moves the selection of a list of `image_count` items up and/or down,
/// wrapping around at both ends.
pub fn navigate(list_active: i32, image_count: usize, up: bool, down: bool) -> (active: i32)
    requires
        image_count <= i32::MAX,
        up ==> list_active > i32::MIN,
        down ==> list_active - (if up { 1int } else { 0int }) < i32::MAX,
    ensures
        active == spec_navigate(list_active as int, image_count as int, up, down),
        0 <= list_active < image_count ==> active == (list_active - (if up { 1int } else { 0int })
            + (if down { 1int } else { 0int })) % (image_count as int),
        0 <= list_active < image_count && !up && !down ==> active == list_active,
{
    proof {
        if 0 <= list_active < image_count {
            lemma_navigate_moves_by_keys(list_active as int, image_count as int, up, down);
        }
    }
    let mut active = list_active;
    if up {
        active = active - 1;
    }
    if down {
        active = active + 1;
    }
    let count = image_count as i32;
    if active < 0 {
        active = count - 1;
    }
    if active >= count {
        active = 0;
    }
    active
}

/// The list item whose image has to be loaded for selection `idx`, or `None`
/// when nothing is selected and the texture is dropped.
pub fn load_active_into_texture(image_paths: &Vec<String>, idx: i32) -> (target: Option<usize>)
    requires
        image_paths.len() <= i32::MAX,
    ensures
        match spec_active_texture(image_paths.len() as int, idx as int) {
            Some(i) => target == Some(i as usize),
            None => target is None,
        },
        0 <= idx < image_paths.len() ==> target == Some(idx as usize),
        (idx < 0 || idx >= image_paths.len()) ==> target is None,
{
    let len = image_paths.len() as i32;
    if idx < 0 || len <= 0 || idx > len - 1 {
        None
    } else {
        Some(idx as usize)
    }
}

/// Switches to `next_scene`: the picker drops the viewer state; the viewer
/// starts from a fresh viewer state for the selected image.
pub fn switch_scene(state: &mut State, next_scene: Scene)
    requires
        old(state).wf(),
        next_scene == Scene::ViewImage ==> 0 <= old(state).list_active < old(state).image_paths.len(),
    ensures
        final(state).wf(),
        final(state).scene == next_scene,
        final(state).view_state == match next_scene {
            Scene::PickFile => None,
            Scene::ViewImage => Some(
                fresh_view_state(
                    old(state).image_paths@,
                    old(state).list_active as int,
                    old(state).one_based_index,
                ),
            ),
        },
        next_scene == Scene::ViewImage ==> (final(state).view_state matches Some(view) && {
            &&& view.tile_size == spec_tile_size(
                old(state).image_paths@[old(state).list_active as int]@,
            )
            &&& view.show_overlay
            &&& view.background_color_idx == 0
            &&& view.one_based_index == old(state).one_based_index
        }),
        final(state).image_paths@ == old(state).image_paths@,
        final(state).list_focus == old(state).list_focus,
        final(state).list_scroll_index == old(state).list_scroll_index,
        final(state).list_active == old(state).list_active,
        final(state).list_active_last == old(state).list_active_last,
        final(state).one_based_index == old(state).one_based_index,
{
    match next_scene {
        Scene::PickFile => {
            state.view_state = None;
        },
        Scene::ViewImage => {
            let idx = state.list_active as usize;
            let tile_size = determine_tile_size(state.image_paths[idx].as_str());
            proof {
                crate::tile_size::lemma_tile_size_nonnegative(state.image_paths@[idx as int]@);
                lemma_fresh_view_state_of_selection(
                    state.image_paths@,
                    idx as int,
                    state.one_based_index,
                );
            }
            state.view_state = Some(
                ViewImageState {
                    tile_size,
                    show_overlay: true,
                    background_color_idx: 0,
                    one_based_index: state.one_based_index,
                },
            );
        },
    }
    state.scene = next_scene;
}

/// The viewer's close button: back to the picker.  The viewer state is left
/// as it is; the next opening of the viewer replaces it.
pub fn close_viewer(state: &mut State)
    requires
        old(state).wf(),
    ensures
        final(state).wf(),
        final(state).scene == Scene::PickFile,
        final(state).view_state == old(state).view_state,
        final(state).image_paths@ == old(state).image_paths@,
        final(state).list_focus == old(state).list_focus,
        final(state).list_scroll_index == old(state).list_scroll_index,
        final(state).list_active == old(state).list_active,
        final(state).list_active_last == old(state).list_active_last,
        final(state).one_based_index == old(state).one_based_index,
{
    state.scene = Scene::PickFile;
}

/// One frame of the file picker, up to drawing: moves the selection, opens
/// the viewer on confirm, and says what the shown texture has to become.
pub fn update_pick_file(state: &mut State, keys: PickKeys) -> (request: TextureRequest)
    requires
        old(state).wf(),
        keys.up ==> old(state).list_active > i32::MIN,
        keys.down ==> old(state).list_active - (if keys.up { 1int } else { 0int }) < i32::MAX,
        keys.confirm ==> old(state).image_paths.len() > 0,
    ensures
        ({
            let count = old(state).image_paths.len() as int;
            let active = spec_navigate(old(state).list_active as int, count, keys.up, keys.down);
            &&& final(state).wf()
            &&& final(state).list_active == active
            &&& final(state).list_active_last == active
            &&& final(state).image_paths@ == old(state).image_paths@
            &&& final(state).list_focus == old(state).list_focus
            &&& final(state).list_scroll_index == old(state).list_scroll_index
            &&& final(state).one_based_index == old(state).one_based_index
            &&& if keys.confirm {
                &&& final(state).scene == Scene::ViewImage
                &&& final(state).view_state == Some(
                    fresh_view_state(old(state).image_paths@, active, old(state).one_based_index),
                )
            } else {
                &&& final(state).scene == old(state).scene
                &&& final(state).view_state == old(state).view_state
            }
            &&& request == if old(state).list_active_last == active {
                TextureRequest::Keep
            } else {
                match spec_active_texture(count, active) {
                    Some(i) => TextureRequest::Load(i as usize),
                    None => TextureRequest::Clear,
                }
            }
        }),
{
    let active = navigate(state.list_active, state.image_paths.len(), keys.up, keys.down);
    state.list_active = active;
    proof {
        lemma_navigate_in_range(
            old(state).list_active as int,
            old(state).image_paths.len() as int,
            keys.up,
            keys.down,
        );
    }
    if keys.confirm {
        switch_scene(state, Scene::ViewImage);
    }
    if state.list_active_last != state.list_active {
        let target = load_active_into_texture(&state.image_paths, state.list_active);
        state.list_active_last = state.list_active;
        match target {
            Some(i) => TextureRequest::Load(i),
            None => TextureRequest::Clear,
        }
    } else {
        TextureRequest::Keep
    }
}

/// Whether the picker shows its View button: an item is selected and its
/// texture is loaded.
pub fn view_button_visible(state: &State, texture_loaded: bool) -> (visible: bool)
    ensures
        visible == (state.list_active >= 0 && texture_loaded),
{
    state.list_active >= 0 && texture_loaded
}

/// The factor the picker's preview is drawn at: small textures are doubled.
pub fn preview_scale(texture_width: i32) -> (scale: i32)
    ensures
        scale == if texture_width < 400 { 2int } else { 1int },
{
    if texture_width < 400 {
        2
    } else {
        1
    }
}

/// One frame of the image viewer, up to drawing.  Without a viewer state or a
/// texture nothing happens.  Otherwise R toggles the overlay, B moves to the
/// next background colour, 1 switches the index base (with a notice), and a
/// click on a tile yields its index, 0- or 1-based by the switched base, to
/// copy (with a notice that replaces the other).
pub fn update_view_image(
    state: &mut State,
    keys: ViewKeys,
    texture: Option<TextureSize>,
    click: Option<TileCell>,
) -> (frame: Option<ViewFrame>)
    requires
        old(state).wf(),
        old(state).view_state matches Some(view) ==> (texture matches Some(t) ==> {
            let next = spec_view_step(view, keys);
            let tiles_wide = t.width / view.tile_size;
            &&& t.width >= 0
            &&& t.height >= 0
            &&& view.tile_size != 0
            &&& tiles_wide * (t.height / view.tile_size) <= i32::MAX
            &&& click matches Some(c) ==> {
                &&& i32::MIN <= tiles_wide * c.row <= i32::MAX
                &&& i32::MIN <= tiles_wide * c.row + c.column <= i32::MAX
                &&& i32::MIN <= spec_tile_index(tiles_wide, c.column as int, c.row as int, next.one_based_index) <= i32::MAX
            }
        }),
    ensures
        final(state).wf(),
        final(state).scene == old(state).scene,
        final(state).image_paths@ == old(state).image_paths@,
        final(state).list_focus == old(state).list_focus,
        final(state).list_scroll_index == old(state).list_scroll_index,
        final(state).list_active == old(state).list_active,
        final(state).list_active_last == old(state).list_active_last,
        final(state).one_based_index == old(state).one_based_index,
        match (old(state).view_state, texture) {
            (Some(view), Some(t)) => {
                let next = spec_view_step(view, keys);
                let tiles_wide = t.width / view.tile_size;
                let tiles_high = t.height / view.tile_size;
                let index = match click {
                    Some(c) => spec_tile_index(tiles_wide, c.column as int, c.row as int, next.one_based_index),
                    None => 0,
                };
                &&& final(state).view_state == Some(next)
                &&& frame matches Some(f)
                &&& f.grid.tiles_wide == tiles_wide
                &&& f.grid.tiles_high == tiles_high
                &&& f.grid.tiles_count == tiles_wide * tiles_high
                &&& final(state).view_state matches Some(after) && {
                    &&& after.tile_size == view.tile_size
                    &&& after.show_overlay == (view.show_overlay != keys.toggle_overlay)
                    &&& after.one_based_index == (view.one_based_index != keys.toggle_index_base)
                    &&& after.background_color_idx == if keys.cycle_background {
                        (view.background_color_idx + 1) % (BACKGROUND_COLOR_COUNT as int)
                    } else {
                        view.background_color_idx as int
                    }
                }
                &&& click matches Some(c) ==> (f.copied matches Some(text) && text@ == spec_decimal(
                    tiles_wide * c.row + c.column + if view.one_based_index != keys.toggle_index_base {
                        1int
                    } else {
                        0int
                    },
                ))
                &&& match click {
                    Some(c) => {
                        &&& f.copied matches Some(text) && text@ == spec_decimal(index)
                        &&& f.toast matches Some(message) && message@ == copied_message_text(index)
                    },
                    None => {
                        &&& f.copied is None
                        &&& if keys.toggle_index_base {
                            f.toast matches Some(message) && message@ == index_base_message_text(next.one_based_index)
                        } else {
                            f.toast is None
                        }
                    },
                }
            },
            _ => {
                &&& final(state).view_state == old(state).view_state
                &&& frame is None
            },
        },
{
    let view = match state.view_state {
        Some(view) => view,
        None => return None,
    };
    let size = match texture {
        Some(size) => size,
        None => return None,
    };
    let grid = tile_grid(size.width, size.height, view.tile_size);
    let mut next = view;
    if keys.toggle_overlay {
        next.show_overlay = !next.show_overlay;
    }
    if keys.cycle_background {
        next.background_color_idx = next.background_color_idx + 1;
        if next.background_color_idx >= BACKGROUND_COLOR_COUNT {
            next.background_color_idx = 0;
        }
    }
    let mut toast: Option<String> = None;
    if keys.toggle_index_base {
        next.one_based_index = !next.one_based_index;
        toast = Some(index_base_message(next.one_based_index));
    }
    let mut copied: Option<String> = None;
    match click {
        Some(cell) => {
            let index = tile_index(grid.tiles_wide, cell.column, cell.row, next.one_based_index);
            copied = Some(decimal_text(index));
            toast = Some(copied_message(index));
        },
        None => {},
    }
    assert(next == spec_view_step(view, keys));
    proof {
        lemma_view_step_fields(view, keys);
    }
    state.view_state = Some(next);
    Some(ViewFrame { grid, copied, toast })
}

/// Moving through a non-empty list never leaves it; in an empty list the
/// selection is the first slot or none (-1).
pub proof fn lemma_navigate_in_range(active: int, count: int, up: bool, down: bool)
    requires
        count >= 0,
    ensures
        count > 0 ==> 0 <= spec_navigate(active, count, up, down) < count,
        count == 0 ==> -1 <= spec_navigate(active, count, up, down) <= 0,
{
}

/// Moving down from the last item wraps to the first; moving up from the
/// first wraps to the last.
pub proof fn lemma_navigate_wraps(count: int)
    requires
        count > 0,
    ensures
        spec_navigate(count - 1, count, false, true) == 0,
        spec_navigate(0, count, true, false) == count - 1,
{
}

/// Moving down and then up (or up and then down) returns to the item one
/// started from.
pub proof fn lemma_navigate_undo(active: int, count: int)
    requires
        0 <= active < count,
    ensures
        spec_navigate(spec_navigate(active, count, false, true), count, true, false) == active,
        spec_navigate(spec_navigate(active, count, true, false), count, false, true) == active,
{
}

/// Pressing B as many times as there are colours returns to the colour one
/// started from, and the position always stays within the cycle.
pub proof fn lemma_background_cycle(idx: int)
    requires
        0 <= idx < BACKGROUND_COLOR_COUNT,
    ensures
        0 <= spec_next_background(idx) < BACKGROUND_COLOR_COUNT,
        spec_next_background(spec_next_background(spec_next_background(idx))) == idx,
{
}

/// The overlay and index-base switches undo themselves: pressing R and 1 in
/// two frames restores the viewer state.
pub proof fn lemma_toggles_undo(view: ViewImageState, keys: ViewKeys)
    requires
        !keys.cycle_background,
    ensures
        spec_view_step(spec_view_step(view, keys), keys) == view,
{
}

/// A frame keeps the viewer state well formed.
pub proof fn lemma_view_step_wf(view: ViewImageState, keys: ViewKeys)
    requires
        view.wf(),
    ensures
        spec_view_step(view, keys).wf(),
{
}

/// Moving the selection within a non-empty list is adding the key moves
/// (up: -1, down: +1) modulo the length: without a key the selection stays,
/// and moving off either end comes back at the other.
pub proof fn lemma_navigate_moves_by_keys(active: int, count: int, up: bool, down: bool)
    requires
        0 <= active < count,
    ensures
        spec_navigate(active, count, up, down) == (active - (if up { 1int } else { 0int }) + (
        if down { 1int } else { 0int })) % count,
        !up && !down ==> spec_navigate(active, count, up, down) == active,
{
    let moved = active - (if up { 1int } else { 0int }) + (if down { 1int } else { 0int });
    if moved < 0 {
        lemma_fundamental_div_mod_converse(moved, count, -1, count - 1);
    } else if moved >= count {
        lemma_fundamental_div_mod_converse(moved, count, 1, 0);
    } else {
        lemma_fundamental_div_mod_converse(moved, count, 0, moved);
    }
}

/// The image whose texture is shown is the selected one whenever the
/// selection is an item of the list, and there is none exactly when it is not.
pub proof fn lemma_active_texture_is_selection(count: int, idx: int)
    ensures
        0 <= idx < count ==> spec_active_texture(count, idx) == Some(idx),
        spec_active_texture(count, idx) is None <==> (idx < 0 || idx >= count),
{
}

/// The next background is the following colour of the cycle, modulo its
/// length.
pub proof fn lemma_next_background_is_successor(idx: int)
    requires
        0 <= idx < BACKGROUND_COLOR_COUNT,
    ensures
        spec_next_background(idx) == (idx + 1) % (BACKGROUND_COLOR_COUNT as int),
{
}

/// Each key of a viewer frame changes its own field and nothing else: R flips
/// the overlay, 1 flips the index base, B moves the background one step round
/// the cycle, and the tile size never changes.
pub proof fn lemma_view_step_fields(view: ViewImageState, keys: ViewKeys)
    requires
        view.wf(),
    ensures
        spec_view_step(view, keys).tile_size == view.tile_size,
        spec_view_step(view, keys).show_overlay == (view.show_overlay != keys.toggle_overlay),
        spec_view_step(view, keys).one_based_index == (view.one_based_index
            != keys.toggle_index_base),
        spec_view_step(view, keys).background_color_idx == if keys.cycle_background {
            (view.background_color_idx + 1) % (BACKGROUND_COLOR_COUNT as int)
        } else {
            view.background_color_idx as int
        },
{
}

/// A freshly opened viewer shows the selected image with the tile size read
/// from that image's own file name, whichever item of the list it is, with
/// the overlay on, the first background and the configured index base.
pub proof fn lemma_fresh_view_state_of_selection(paths: Seq<String>, active: int, one_based: bool)
    requires
        0 <= active < paths.len(),
    ensures
        fresh_view_state(paths, active, one_based).tile_size == spec_tile_size(paths[active]@),
        fresh_view_state(paths, active, one_based).show_overlay,
        fresh_view_state(paths, active, one_based).background_color_idx == 0,
        fresh_view_state(paths, active, one_based).one_based_index == one_based,
{
    crate::tile_size::lemma_tile_size_nonnegative(paths[active]@);
}

/// The background cycle goes through three different colours, starting
/// from gray.
pub proof fn lemma_background_colors_distinct()
    ensures
        spec_background_color(0) == BackgroundColor::Gray,
        spec_background_color(0) != spec_background_color(1),
        spec_background_color(1) != spec_background_color(2),
        spec_background_color(0) != spec_background_color(2),
{
}

} // verus!
