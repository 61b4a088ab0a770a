//! The tile grid laid over a tilesheet: how many tiles it holds, the index of
//! the tile under a click, and the index labels drawn on each tile.

use vstd::prelude::*;
use vstd::arithmetic::div_mod::{lemma_fundamental_div_mod, lemma_fundamental_div_mod_converse};

verus! {

/// The number of whole tiles across, down, and in total.
pub struct TileGrid {
    pub tiles_wide: i32,
    pub tiles_high: i32,
    pub tiles_count: i32,
}

/// A label drawn on the tile in `column` and `row`, showing `index`.
pub struct TileLabel {
    pub column: i32,
    pub row: i32,
    pub index: i32,
}

/// What is added to a 0-based tile index when indexes are shown 1-based.
pub open spec fn index_offset(one_based: bool) -> int {
    if one_based { 1 } else { 0 }
}

/// The index of the tile in `column` and `row` of a grid `tiles_wide` tiles
/// across: tiles are numbered row by row, left to right.
pub open spec fn spec_tile_index(tiles_wide: int, column: int, row: int, one_based: bool) -> int {
    tiles_wide * row + column + index_offset(one_based)
}

/// The grid of `tile_size`-pixel tiles over a `width` x `height` texture.
/// Partial tiles at the right and bottom edges are not counted.
pub fn tile_grid(width: i32, height: i32, tile_size: i32) -> (grid: TileGrid)
    requires
        width >= 0,
        height >= 0,
        tile_size > 0,
        (width / tile_size) * (height / tile_size) <= i32::MAX,
    ensures
        grid.tiles_wide == width / tile_size,
        grid.tiles_high == height / tile_size,
        grid.tiles_count == grid.tiles_wide * grid.tiles_high,
        grid.tiles_wide >= 0,
        grid.tiles_high >= 0,
        grid.tiles_count >= 0,
{
    let tiles_wide = width / tile_size;
    let tiles_high = height / tile_size;
    assert(tiles_wide * tiles_high >= 0) by (nonlinear_arith)
        requires
            tiles_wide >= 0,
            tiles_high >= 0,
    ;
    TileGrid { tiles_wide, tiles_high, tiles_count: tiles_wide * tiles_high }
}

/// The index of the tile in `column` and `row`, 0- or 1-based.
pub fn tile_index(tiles_wide: i32, column: i32, row: i32, one_based: bool) -> (index: i32)
    requires
        i32::MIN <= tiles_wide * row <= i32::MAX,
        i32::MIN <= tiles_wide * row + column <= i32::MAX,
        i32::MIN <= spec_tile_index(tiles_wide as int, column as int, row as int, one_based)
            <= i32::MAX,
    ensures
        index == spec_tile_index(tiles_wide as int, column as int, row as int, one_based),
        !one_based ==> index == tiles_wide * row + column,
        one_based ==> index == tiles_wide * row + column + 1,
{
    let offset: i32 = if one_based { 1 } else { 0 };
    tiles_wide * row + column + offset
}

/// One label per tile, in index order: tile `i` sits in column `i % tiles_wide`
/// and row `i / tiles_wide` and shows its index, 0- or 1-based.
pub fn overlay_labels(grid: &TileGrid, one_based: bool) -> (labels: Vec<TileLabel>)
    requires
        grid.tiles_count >= 0,
        grid.tiles_count > 0 ==> grid.tiles_wide > 0,
    ensures
        labels.len() == grid.tiles_count,
        forall|i: int|
            0 <= i < labels.len() ==> {
                &&& (#[trigger] labels[i]).column == i % (grid.tiles_wide as int)
                &&& labels[i].row == i / (grid.tiles_wide as int)
                &&& labels[i].index == i + index_offset(one_based)
                &&& labels[i].index == if one_based { i + 1 } else { i }
            },
{
    let offset: i32 = if one_based { 1 } else { 0 };
    let mut labels: Vec<TileLabel> = Vec::new();
    let mut idx: i32 = 0;
    while idx < grid.tiles_count
        invariant
            0 <= idx <= grid.tiles_count,
            grid.tiles_count > 0 ==> grid.tiles_wide > 0,
            offset == index_offset(one_based),
            labels.len() == idx,
            forall|i: int|
                0 <= i < labels.len() ==> {
                    &&& (#[trigger] labels[i]).column == i % (grid.tiles_wide as int)
                    &&& labels[i].row == i / (grid.tiles_wide as int)
                    &&& labels[i].index == i + index_offset(one_based)
                },
        decreases grid.tiles_count - idx,
    {
        labels.push(
            TileLabel {
                column: idx % grid.tiles_wide,
                row: idx / grid.tiles_wide,
                index: idx + offset,
            },
        );
        idx = idx + 1;
    }
    labels
}

/// The label drawn on a tile shows the very index that a click on that tile
/// yields: tile `i` of the overlay sits in column `i % w` and row `i / w`,
/// and the click index of that cell is `i` (plus one when 1-based).
pub proof fn lemma_label_matches_click_index(tiles_wide: int, i: int, one_based: bool)
    requires
        tiles_wide > 0,
        0 <= i,
    ensures
        spec_tile_index(tiles_wide, i % tiles_wide, i / tiles_wide, one_based) == i
            + index_offset(one_based),
{
    lemma_fundamental_div_mod(i, tiles_wide);
}

/// Different tiles of a grid get different indexes: two cells whose columns
/// lie within the grid's width share an index only if they are the same cell.
pub proof fn lemma_tile_index_distinct(
    tiles_wide: int,
    column1: int,
    row1: int,
    column2: int,
    row2: int,
    one_based: bool,
)
    requires
        0 <= column1 < tiles_wide,
        0 <= column2 < tiles_wide,
        spec_tile_index(tiles_wide, column1, row1, one_based) == spec_tile_index(
            tiles_wide,
            column2,
            row2,
            one_based,
        ),
    ensures
        column1 == column2,
        row1 == row2,
{
    let x = tiles_wide * row1 + column1;
    assert(x == row1 * tiles_wide + column1) by (nonlinear_arith)
        requires
            x == tiles_wide * row1 + column1,
    ;
    assert(x == row2 * tiles_wide + column2) by (nonlinear_arith)
        requires
            x == tiles_wide * row2 + column2,
    ;
    lemma_fundamental_div_mod_converse(x, tiles_wide, row1, column1);
    lemma_fundamental_div_mod_converse(x, tiles_wide, row2, column2);
}

/// A cell inside a `tiles_wide` x `tiles_high` grid gets an index between the
/// first index and the number of tiles (shifted by one when 1-based).
pub proof fn lemma_tile_index_in_grid(
    tiles_wide: int,
    tiles_high: int,
    column: int,
    row: int,
    one_based: bool,
)
    requires
        0 <= column < tiles_wide,
        0 <= row < tiles_high,
    ensures
        index_offset(one_based) <= spec_tile_index(tiles_wide, column, row, one_based)
            < tiles_wide * tiles_high + index_offset(one_based),
{
    assert(0 <= tiles_wide * row) by (nonlinear_arith)
        requires
            0 <= row,
            0 < tiles_wide,
    ;
    assert(tiles_wide * row + tiles_wide <= tiles_wide * tiles_high) by (nonlinear_arith)
        requires
            row + 1 <= tiles_high,
            0 < tiles_wide,
    ;
}

/// Tiles are counted from 0, or from 1 when 1-based: the top-left tile has
/// index 0 (1), the next tile to its right one more, and the first tile of
/// the next row `tiles_wide` more.
pub proof fn lemma_tile_index_counts_row_by_row(tiles_wide: int, column: int, row: int, one_based: bool)
    ensures
        spec_tile_index(tiles_wide, 0, 0, false) == 0,
        spec_tile_index(tiles_wide, 0, 0, true) == 1,
        spec_tile_index(tiles_wide, column + 1, row, one_based) == spec_tile_index(
            tiles_wide,
            column,
            row,
            one_based,
        ) + 1,
        spec_tile_index(tiles_wide, column, row + 1, one_based) == spec_tile_index(
            tiles_wide,
            column,
            row,
            one_based,
        ) + tiles_wide,
{
    assert(tiles_wide * (row + 1) == tiles_wide * row + tiles_wide) by (nonlinear_arith);
}

} // verus!
