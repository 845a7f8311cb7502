//! What the renderer must do when cells change, and which cell the cursor is on.
use vstd::prelude::*;

use crate::selection::CellPos;
use crate::tile::TileRef;

verus! {

/// One change to the renderer's per-tileset tilemaps for a cell.
#[derive(Debug)]
pub enum RenderOp {
    /// Remove the cell's tile from the tilemap of this tileset.
    Remove(String),
    /// Show the new tile in the tilemap of this tileset.
    Show(String),
}

impl View for RenderOp {
    type V = (bool, Seq<char>);

    /// `(true, id)` for setting, `(false, id)` for removing.
    open spec fn view(&self) -> (bool, Seq<char>) {
        match self {
            RenderOp::Remove(id) => (false, id@),
            RenderOp::Show(id) => (true, id@),
        }
    }
}

/// The renderer updates for a cell going from `before` to `after`: the old
/// tile leaves its tileset's tilemap when the new one is missing or from
/// another tileset; the new tile, if any, is set in its tileset's tilemap;
/// a cell that becomes empty is removed (again) from the old tilemap.
pub open spec fn render_ops(before: Option<TileRef>, after: Option<TileRef>) -> Seq<(bool, Seq<char>)> {
    let first = match before {
        Some(b) => match after {
            Some(a) => if a.tileset_id@ != b.tileset_id@ {
                seq![(false, b.tileset_id@)]
            } else {
                Seq::empty()
            },
            None => seq![(false, b.tileset_id@)],
        },
        None => Seq::empty(),
    };
    let second = match after {
        Some(a) => seq![(true, a.tileset_id@)],
        None => match before {
            Some(b) => seq![(false, b.tileset_id@)],
            None => Seq::empty(),
        },
    };
    first + second
}

/// The contents of a sequence of renderer updates.
pub open spec fn op_models(s: Seq<RenderOp>) -> Seq<(bool, Seq<char>)> {
    Seq::new(s.len(), |i: int| s[i]@)
}

/// Lists the renderer updates for a cell going from `before` to `after`.
pub fn tile_render_ops(before: &Option<TileRef>, after: &Option<TileRef>) -> (r: Vec<RenderOp>)
    ensures
        op_models(r@) == render_ops(*before, *after),
{
    let mut ops: Vec<RenderOp> = Vec::new();
    if let Some(b) = before {
        let differs = match after {
            Some(a) => a.tileset_id != b.tileset_id,
            None => true,
        };
        if differs {
            ops.push(RenderOp::Remove(b.tileset_id.clone()));
        }
    }
    if let Some(a) = after {
        ops.push(RenderOp::Show(a.tileset_id.clone()));
    } else if let Some(b) = before {
        ops.push(RenderOp::Remove(b.tileset_id.clone()));
    }
    proof {
        assert(op_models(ops@) =~= render_ops(*before, *after));
    }
    ops
}

/// The map cell at whole-cell coordinates `(x, y)`, when it lies inside a
/// `width` by `height` map.
pub fn cell_at(x: i32, y: i32, width: u32, height: u32) -> (r: Option<CellPos>)
    ensures
        r matches Some(p) ==> p.x == x && p.y == y,
        r is Some <==> (0 <= x < width && 0 <= y < height),
{
    if x < 0 || y < 0 {
        return None;
    }
    let ux = x as u32;
    let uy = y as u32;
    if ux >= width || uy >= height {
        return None;
    }
    Some(CellPos { x: ux, y: uy })
}

/// What happens to a tileset image waiting to be loaded.
#[derive(Clone, Copy, Debug, PartialEq, Eq, Structural)]
pub enum LoadOutcome {
    /// Its tileset is already loaded: drop it.
    AlreadyLoaded,
    /// The image is not there yet: keep waiting.
    Waiting,
    /// The image holds no whole tile: drop it.
    TooSmall,
    /// Ready, with this many columns and rows of tiles.
    Ready(u32, u32),
}

/// Decides what to do with a waiting tileset image, given whether its
/// tileset is already loaded, the image size once it is available, and the
/// tile size.
pub fn loading_step(already_loaded: bool, image_size: Option<(u32, u32)>, tile_w: u32, tile_h: u32) -> (r: LoadOutcome)
    ensures
        already_loaded ==> r == LoadOutcome::AlreadyLoaded,
        !already_loaded && image_size is None ==> r == LoadOutcome::Waiting,
        !already_loaded ==> (image_size matches Some((w, h)) ==> {
            let tw: u32 = if tile_w == 0 {
                1
            } else {
                tile_w
            };
            let th: u32 = if tile_h == 0 {
                1
            } else {
                tile_h
            };
            if w / tw == 0 || h / th == 0 {
                r == LoadOutcome::TooSmall
            } else {
                r == LoadOutcome::Ready(w / tw, h / th)
            }
        }),
{
    if already_loaded {
        return LoadOutcome::AlreadyLoaded;
    }
    match image_size {
        None => LoadOutcome::Waiting,
        Some((w, h)) => match crate::palette::tileset_grid_dims(w, h, tile_w, tile_h) {
            Some((c, rows)) => LoadOutcome::Ready(c, rows),
            None => LoadOutcome::TooSmall,
        },
    }
}

} // verus!
