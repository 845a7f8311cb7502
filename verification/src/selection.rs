//! Rectangular cell selections, the clipboard and the paste orientation.
use vstd::prelude::*;

use crate::editor::PasteState;
use crate::tile::TileRef;

verus! {

/// A cell position on the map.
#[derive(Clone, Copy, Debug, PartialEq, Eq, Structural, Default)]
pub struct CellPos {
    pub x: u32,
    pub y: u32,
}

/// A selection: the cells from `min` to `max`, both included.
#[derive(Clone, Copy, Debug, PartialEq, Eq, Structural, Default)]
pub struct SelectionRect {
    pub min: CellPos,
    pub max: CellPos,
}

impl SelectionRect {
    /// Number of selected columns (1 when `max.x` is left of `min.x`).
    pub fn width(&self) -> (r: u32)
        requires
            self.max.x - self.min.x < u32::MAX,
        ensures
            r == if self.max.x >= self.min.x {
                self.max.x - self.min.x + 1
            } else {
                1
            },
    {
        let d: u32 = if self.max.x >= self.min.x { self.max.x - self.min.x } else { 0 };
        d + 1
    }

    /// Number of selected rows (1 when `max.y` is above `min.y`).
    pub fn height(&self) -> (r: u32)
        requires
            self.max.y - self.min.y < u32::MAX,
        ensures
            r == if self.max.y >= self.min.y {
                self.max.y - self.min.y + 1
            } else {
                1
            },
    {
        let d: u32 = if self.max.y >= self.min.y { self.max.y - self.min.y } else { 0 };
        d + 1
    }
}

/// The smallest rectangle holding the cells `a` and `b`.
pub fn rect_from_two(a: CellPos, b: CellPos) -> (r: SelectionRect)
    ensures
        r == rect_spanned(a, b),
        r.min.x <= a.x <= r.max.x && r.min.x <= b.x <= r.max.x,
        r.min.y <= a.y <= r.max.y && r.min.y <= b.y <= r.max.y,
        r.min.x == a.x || r.min.x == b.x,
        r.max.x == a.x || r.max.x == b.x,
        r.min.y == a.y || r.min.y == b.y,
        r.max.y == a.y || r.max.y == b.y,
{
    SelectionRect {
        min: CellPos { x: if a.x <= b.x { a.x } else { b.x }, y: if a.y <= b.y { a.y } else { b.y } },
        max: CellPos { x: if a.x >= b.x { a.x } else { b.x }, y: if a.y >= b.y { a.y } else { b.y } },
    }
}

/// The rectangle spanned by two cells does not depend on their order, and
/// has `min` at or above-left of `max`.
pub proof fn lemma_rect_from_two_symmetric(a: CellPos, b: CellPos)
    ensures
        rect_spanned(a, b) == rect_spanned(b, a),
        rect_spanned(a, b).min.x <= rect_spanned(a, b).max.x,
        rect_spanned(a, b).min.y <= rect_spanned(a, b).max.y,
{
}

/// The rectangle spanned by two cells.
pub open spec fn rect_spanned(a: CellPos, b: CellPos) -> SelectionRect {
    SelectionRect {
        min: CellPos { x: if a.x <= b.x { a.x } else { b.x }, y: if a.y <= b.y { a.y } else { b.y } },
        max: CellPos { x: if a.x >= b.x { a.x } else { b.x }, y: if a.y >= b.y { a.y } else { b.y } },
    }
}

/// Selection state: a box being dragged from `start` to `current`, the
/// finished rectangle, and whether its content is being moved.
#[derive(Debug, Default)]
pub struct SelectionState {
    pub dragging: bool,
    pub start: CellPos,
    pub current: CellPos,
    pub rect: Option<SelectionRect>,
    pub moving: bool,
}

/// Copied cells: `width` by `height`, row by row.
#[derive(Debug)]
pub struct Clipboard {
    pub width: u32,
    pub height: u32,
    pub tiles: Vec<Option<TileRef>>,
}

impl Clipboard {
    /// An empty clipboard.
    pub fn new() -> (r: Self)
        ensures
            r.width == 0,
            r.height == 0,
            r.tiles@.len() == 0,
    {
        Clipboard { width: 0, height: 0, tiles: Vec::new() }
    }

    /// The clipboard holds something to paste.
    pub open spec fn has_content_spec(&self) -> bool {
        self.width > 0 && self.height > 0 && self.tiles@.len() > 0
    }

    /// Whether the clipboard holds something to paste.
    pub fn has_content(&self) -> (r: bool)
        ensures
            r == self.has_content_spec(),
    {
        self.width > 0 && self.height > 0 && self.tiles.len() > 0
    }
}

/// The size that pasting a `width` by `height` block takes after the paste
/// rotation: a quarter or three-quarter turn swaps the two.
pub open spec fn pasted_size(width: u32, height: u32, rot: u8) -> (u32, u32) {
    if rot % 4 == 1 || rot % 4 == 3 {
        (height, width)
    } else {
        (width, height)
    }
}

/// The size that pasting a `width` by `height` block takes.
pub fn paste_dims(width: u32, height: u32, paste: &PasteState) -> (r: (u32, u32))
    ensures
        r == pasted_size(width, height, paste.rot),
{
    let rot: u8 = paste.rot % 4;
    if rot == 1 || rot == 3 {
        (height, width)
    } else {
        (width, height)
    }
}

/// The paste rotation in degrees: 0, 90, 180 or 270.
pub fn paste_degrees(paste: &PasteState) -> (r: u32)
    ensures
        r == (paste.rot % 4) * 90,
        r < 360,
{
    ((paste.rot % 4) as u32) * 90
}

/// Two quarter turns keep the pasted size.
pub proof fn lemma_pasted_size_half_turn(width: u32, height: u32, rot: u8)
    requires
        rot <= 253,
    ensures
        pasted_size(width, height, (rot + 2) as u8) == pasted_size(width, height, rot),
{
}

} // verus!

verus! {

impl Default for Clipboard {
    fn default() -> (r: Self)
        ensures
            r.width == 0,
            r.height == 0,
            r.tiles@.len() == 0,
    {
        Clipboard::new()
    }
}

} // verus!
