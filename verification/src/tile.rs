use vstd::prelude::*;

verus! {

/// Stable id of a tileset: the hex digest of its image (see `hash`).
pub type TilesetId = String;

/// Reference to one tile of one tileset, with its orientation.
///
/// `rot` counts clockwise quarter turns: 0, 1, 2, 3 stand for 0, 90, 180 and
/// 270 degrees.
#[derive(Debug, PartialEq, Eq, Hash)]
pub struct TileRef {
    pub tileset_id: String,
    pub index: u32,
    pub rot: u8,
    pub flip_x: bool,
    pub flip_y: bool,
}

impl View for TileRef {
    type V = (Seq<char>, u32, u8, bool, bool);

    open spec fn view(&self) -> Self::V {
        (self.tileset_id@, self.index, self.rot, self.flip_x, self.flip_y)
    }
}

/// The content of an optional tile, with the tileset id taken by its characters.
pub open spec fn cell_view(c: Option<TileRef>) -> Option<(Seq<char>, u32, u8, bool, bool)> {
    match c {
        Some(t) => Some(t@),
        None => None,
    }
}

impl Clone for TileRef {
    fn clone(&self) -> (r: Self)
        ensures
            r == *self,
    {
        TileRef {
            tileset_id: self.tileset_id.clone(),
            index: self.index,
            rot: self.rot,
            flip_x: self.flip_x,
            flip_y: self.flip_y,
        }
    }
}

/// Copies an optional tile; the copy is equal to the original.
pub fn copy_cell(c: &Option<TileRef>) -> (r: Option<TileRef>)
    ensures
        r == *c,
{
    match c {
        Some(t) => Some(t.clone()),
        None => None,
    }
}

/// Field-wise equality of two tile references (ids compared by content).
pub fn same_tile(a: &TileRef, b: &TileRef) -> (r: bool)
    ensures
        r == (a@ == b@),
{
    a.tileset_id == b.tileset_id && a.index == b.index && a.rot == b.rot && a.flip_x == b.flip_x
        && a.flip_y == b.flip_y
}

/// Equality of two optional tiles, by content.
pub fn same_cell(a: &Option<TileRef>, b: &Option<TileRef>) -> (r: bool)
    ensures
        r == (cell_view(*a) == cell_view(*b)),
{
    match (a, b) {
        (Some(x), Some(y)) => same_tile(x, y),
        (None, None) => true,
        _ => false,
    }
}

/// Renderer flags for a tile: mirror on x, mirror on y, and swap of the
/// diagonal (transpose).
#[derive(Clone, Copy, Debug, PartialEq, Eq, Structural)]
pub struct TileFlip {
    pub x: bool,
    pub y: bool,
    pub d: bool,
}

/// The flags that render a tile with the given rotation and mirrors.
pub open spec fn flip_of(rot: u8, flip_x: bool, flip_y: bool) -> TileFlip {
    let r = rot % 4;
    if r == 0 {
        TileFlip { x: flip_x, y: flip_y, d: false }
    } else if r == 1 {
        TileFlip { x: !flip_x, y: flip_y, d: true }
    } else if r == 2 {
        TileFlip { x: !flip_x, y: !flip_y, d: false }
    } else {
        TileFlip { x: flip_x, y: !flip_y, d: true }
    }
}

/// Converts a tile's rotation and mirrors into renderer flags.
pub fn tile_flip_from_ref(tile: &TileRef) -> (f: TileFlip)
    ensures
        f == flip_of(tile.rot, tile.flip_x, tile.flip_y),
{
    let mut flip = TileFlip { x: tile.flip_x, y: tile.flip_y, d: false };
    let r: u8 = tile.rot % 4;
    if r == 1 {
        flip.d = true;
        flip.x = !flip.x;
    } else if r == 2 {
        flip.x = !flip.x;
        flip.y = !flip.y;
    } else if r == 3 {
        flip.d = true;
        flip.y = !flip.y;
    }
    flip
}

} // verus!
