//! Pure coordinate mapping between the source document's grid frame
//! (top-left origin, rows numbered downward) and the world frame consumed
//! by rendering and physics (origin at the map's center, y up).
//!
//! All world distances are fixed-point integers with 256 subpixel units
//! per source pixel, so every cell center is exact.

use vstd::prelude::*;

verus! {

/// Largest accepted map width or height, in cells.
pub const MAX_MAP_DIM: u32 = 32768;

/// Largest accepted tile edge or spacing, in pixels.
pub const MAX_TILE_PIXELS: u32 = 65536;

/// Largest accepted magnitude for a layer offset, an object position or a
/// collision-shape extent, in subpixels (256 subpixels per pixel).
pub const MAX_SUBPIX: i64 = 0x100_0000_0000;

/// Orientation tag of a map document. Only `Orthogonal` has coordinate
/// math; every other orientation is rejected rather than approximated.
#[derive(Clone, Copy, PartialEq, Eq, Structural, Debug)]
pub enum Orientation {
    Orthogonal,
    Isometric,
    Staggered,
    Hexagonal,
}

/// Error raised when a computation is asked to lay out a map whose
/// orientation has no supported coordinate math.
#[derive(Clone, Copy, PartialEq, Eq, Structural, Debug)]
pub enum MapError {
    UnsupportedOrientation,
}

/// A position in the world frame, in subpixels; `z` is a plain depth.
#[derive(Clone, Copy, PartialEq, Eq, Structural, Debug)]
pub struct WorldPos {
    pub x: i64,
    pub y: i64,
    pub z: i64,
}

/// View of a world position with exact integer coordinates.
pub struct WorldPosView {
    pub x: int,
    pub y: int,
    pub z: int,
}

impl DeepView for WorldPos {
    type V = WorldPosView;

    open spec fn deep_view(&self) -> WorldPosView {
        WorldPosView { x: self.x as int, y: self.y as int, z: self.z as int }
    }
}

/// The per-map quantities that the coordinate mapping depends on.
#[derive(Clone, Copy, PartialEq, Eq, Structural, Debug)]
pub struct MapFrame {
    /// Map width in cells.
    pub width: u32,
    /// Map height in cells.
    pub height: u32,
    /// Width of a grid cell, in pixels.
    pub tile_width: u32,
    /// Height of a grid cell, in pixels.
    pub tile_height: u32,
    /// Layout rule of the document.
    pub orientation: Orientation,
}

/// Bounds under which every coordinate computation stays well inside `i64`.
pub open spec fn frame_wf(f: MapFrame) -> bool {
    &&& 0 < f.width <= MAX_MAP_DIM
    &&& 0 < f.height <= MAX_MAP_DIM
    &&& 0 < f.tile_width <= MAX_TILE_PIXELS
    &&& 0 < f.tile_height <= MAX_TILE_PIXELS
}

/// The source document numbers rows from the top; the world counts them
/// from the bottom.
pub open spec fn flip_row(height: int, row: int) -> int {
    height - 1 - row
}

/// World coordinate (in subpixels) of the center of the cell at `index`
/// along an axis of `count` cells of pixel size `tile`, after the whole
/// map is centered on the origin and shifted by `offset` subpixels.
pub open spec fn axis_center(index: int, count: int, tile: int, offset: int) -> int {
    index * tile * 256 - (count - 1) * tile * 128 + offset
}

/// The grid cell containing a source-frame point given in subpixels, or
/// cell (0, 0) when the point lies outside the grid.
pub open spec fn spec_point_cell(px: int, py: int, f: MapFrame) -> (int, int) {
    let cx = px / (f.tile_width * 256);
    let cy = py / (f.tile_height * 256);
    if 0 <= px && 0 <= py && cx < f.width && cy < f.height {
        (cx, cy)
    } else {
        (0, 0)
    }
}

/// Maps a grid cell to the world position of its center: the row index is
/// flipped (the source counts rows downward, the world upward), the map is
/// centered on the origin, and the layer's pixel offset is added with its
/// vertical sign inverted to match the up-positive world frame. Any
/// orientation other than `Orthogonal` is refused outright.
pub fn to_world(
    frame: &MapFrame,
    grid_x: u32,
    grid_y: u32,
    offset_x: i64,
    offset_y: i64,
    z: i64,
) -> (r: Result<WorldPos, MapError>)
    requires
        frame_wf(*frame),
        grid_x < frame.width,
        grid_y < frame.height,
        -MAX_SUBPIX <= offset_x <= MAX_SUBPIX,
        -MAX_SUBPIX <= offset_y <= MAX_SUBPIX,
    ensures
        match r {
            Ok(p) => {
                &&& frame.orientation is Orthogonal
                &&& p.x == axis_center(grid_x as int, frame.width as int, frame.tile_width as int, offset_x as int)
                &&& p.y == axis_center(
                    flip_row(frame.height as int, grid_y as int),
                    frame.height as int,
                    frame.tile_height as int,
                    -(offset_y as int),
                )
                &&& p.z == z
            },
            Err(e) => !(frame.orientation is Orthogonal) && e == MapError::UnsupportedOrientation,
        },
{
    match frame.orientation {
        Orientation::Orthogonal => {
            let mapped_y: u32 = frame.height - 1 - grid_y;
            let x = axis_center_exec(grid_x, frame.width, frame.tile_width, offset_x);
            let y = axis_center_exec(mapped_y, frame.height, frame.tile_height, -offset_y);
            Ok(WorldPos { x, y, z })
        },
        _ => Err(MapError::UnsupportedOrientation),
    }
}

/// Executable form of `axis_center`, proved free of overflow under the
/// `frame_wf` bounds.
pub fn axis_center_exec(index: u32, count: u32, tile: u32, offset: i64) -> (r: i64)
    requires
        index < count <= MAX_MAP_DIM,
        0 < tile <= MAX_TILE_PIXELS,
        -MAX_SUBPIX <= offset <= MAX_SUBPIX,
    ensures
        r == axis_center(index as int, count as int, tile as int, offset as int),
        -3 * MAX_SUBPIX <= r <= 3 * MAX_SUBPIX,
{
    let i = index as i64;
    let c = count as i64;
    let t = tile as i64;
    assert(i * t <= 32767 * 65536 && 0 <= i * t) by (nonlinear_arith)
        requires
            0 <= i <= 32767,
            0 <= t <= 65536,
    ;
    assert((c - 1) * t <= 32767 * 65536 && 0 <= (c - 1) * t) by (nonlinear_arith)
        requires
            0 <= c - 1 <= 32767,
            0 <= t <= 65536,
    ;
    i * t * 256 - (c - 1) * t * 128 + offset
}

/// The grid cell containing a source-frame point, snapping out-of-range
/// points to cell (0, 0); the returned cell is always inside the grid.
pub fn point_cell(frame: &MapFrame, px: i64, py: i64) -> (r: (u32, u32))
    requires
        frame_wf(*frame),
    ensures
        (r.0 as int, r.1 as int) == spec_point_cell(px as int, py as int, *frame),
        r.0 < frame.width,
        r.1 < frame.height,
{
    if px < 0 || py < 0 {
        return (0, 0);
    }
    let dx = (frame.tile_width as u64) * 256;
    let dy = (frame.tile_height as u64) * 256;
    let cx = (px as u64) / dx;
    let cy = (py as u64) / dy;
    if cx >= frame.width as u64 || cy >= frame.height as u64 {
        return (0, 0);
    }
    (cx as u32, cy as u32)
}

/// Flipping a row index twice gives the index back, and a flipped index
/// stays inside the grid: mapping between the two row conventions loses
/// nothing.
pub proof fn lemma_flip_row_involution(height: int, row: int)
    requires
        0 <= row < height,
    ensures
        0 <= flip_row(height, row) < height,
        flip_row(height, flip_row(height, row)) == row,
{
}

} // verus!
