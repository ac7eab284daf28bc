//! The fixed transform between an editing canvas's texels and grid cells.
//! Texel `(tx, ty)` counts from the left and from the top; the grid's `y`
//! grows upward, so the top texel row shows the highest cells.
use crate::ship::grid::texel_position;
use crate::vec::{in_i32_range, IVec2, UVec2};
use vstd::prelude::*;

verus! {

/// Every cell of the region with lowest corner `origin` and extent `size`
/// has `i32` coordinates.
pub open spec fn region_fits(origin: IVec2, size: UVec2) -> bool {
    origin.x + size.x <= i32::MAX + 1 && origin.y + size.y <= i32::MAX + 1
}

/// Texel `(tx, ty)` lies on the canvas.
pub open spec fn on_canvas(size: UVec2, tx: int, ty: int) -> bool {
    0 <= tx < size.x && 0 <= ty < size.y
}

/// The cell texel `(tx, ty)` shows.
pub open spec fn texel_to_cell(origin: IVec2, size: UVec2, tx: int, ty: int) -> (int, int) {
    (origin.x + tx, origin.y + size.y - 1 - ty)
}

/// The texel that shows `cell`.
pub open spec fn cell_to_texel(origin: IVec2, size: UVec2, cell: (int, int)) -> (int, int) {
    (cell.0 - origin.x, size.y - 1 - (cell.1 - origin.y))
}

/// The cell under texel `(tx, ty)`, or `None` off the canvas.
pub fn canvas_cell(origin: IVec2, size: UVec2, tx: i32, ty: i32) -> (r: Option<IVec2>)
    requires
        region_fits(origin, size),
    ensures
        match r {
            Some(c) => on_canvas(size, tx as int, ty as int) && c@ == texel_to_cell(
                origin,
                size,
                tx as int,
                ty as int,
            ),
            None => !on_canvas(size, tx as int, ty as int),
        },
{
    if tx < 0 || ty < 0 || tx as i64 >= size.x as i64 || ty as i64 >= size.y as i64 {
        return None;
    }
    let x = origin.x as i64 + tx as i64;
    let y = origin.y as i64 + size.y as i64 - 1 - ty as i64;
    Some(IVec2 { x: x as i32, y: y as i32 })
}

/// The texel showing `cell`, column from the left and row from the top.
pub fn cell_texel(origin: IVec2, size: UVec2, cell: IVec2) -> (r: (i64, i64))
    ensures
        (r.0 as int, r.1 as int) == cell_to_texel(origin, size, cell@),
{
    (cell.x as i64 - origin.x as i64, size.y as i64 - 1 - (cell.y as i64 - origin.y as i64))
}

/// The two transforms undo each other: a texel on the canvas shows a cell
/// inside the region, and that cell is shown by the same texel.
pub proof fn lemma_texel_round_trip(origin: IVec2, size: UVec2, tx: int, ty: int)
    requires
        region_fits(origin, size),
        on_canvas(size, tx, ty),
    ensures
        in_i32_range(texel_to_cell(origin, size, tx, ty)),
        cell_to_texel(origin, size, texel_to_cell(origin, size, tx, ty)) == (tx, ty),
{
}

/// A cell inside the region is shown by a texel on the canvas, which maps
/// back to it.
pub proof fn lemma_cell_round_trip(origin: IVec2, size: UVec2, cell: (int, int))
    requires
        0 <= cell.0 - origin.x < size.x,
        0 <= cell.1 - origin.y < size.y,
    ensures
        on_canvas(size, cell_to_texel(origin, size, cell).0, cell_to_texel(origin, size, cell).1),
        texel_to_cell(
            origin,
            size,
            cell_to_texel(origin, size, cell).0,
            cell_to_texel(origin, size, cell).1,
        ) == cell,
{
}

/// The canvas and a raster of the same region agree: texel `(tx, ty)` is
/// pixel `ty * width + tx` of the raster, and both show the same cell.
pub proof fn lemma_canvas_matches_raster(origin: IVec2, size: UVec2, tx: int, ty: int)
    requires
        on_canvas(size, tx, ty),
    ensures
        texel_position(origin, size, ty * size.x + tx) == texel_to_cell(origin, size, tx, ty),
{
    vstd::arithmetic::div_mod::lemma_fundamental_div_mod_converse(
        ty * size.x + tx,
        size.x as int,
        ty,
        tx,
    );
}

} // verus!
