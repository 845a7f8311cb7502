//! Orientation edits on the topmost tile under the cursor, recorded for undo.
use vstd::prelude::*;

use crate::tile::{cell_view, copy_cell, same_cell, TileRef};
use crate::tilemap::TileMapData;
use crate::editor::PasteState;
use crate::undo::{pushed_history, CellChange, CellRedraw, EditCommand, UndoStack};

verus! {

/// An orientation edit of a single placed tile.
#[derive(Clone, Copy, Debug, PartialEq, Eq, Structural)]
pub enum TileTransform {
    /// A quarter turn counter-clockwise.
    RotateCcw,
    /// A quarter turn clockwise.
    RotateCw,
    /// Mirror on the x axis.
    FlipX,
    /// Mirror on the y axis.
    FlipY,
    /// Back to no rotation and no mirror.
    Reset,
}

/// The tile after `op`, with the rotation brought into `0..4`.
pub open spec fn transformed(t: TileRef, op: TileTransform) -> TileRef {
    let t1 = match op {
        TileTransform::RotateCcw => TileRef { rot: ((t.rot + 3) % 4) as u8, ..t },
        TileTransform::RotateCw => TileRef { rot: ((t.rot + 1) % 4) as u8, ..t },
        TileTransform::FlipX => TileRef { flip_x: !t.flip_x, ..t },
        TileTransform::FlipY => TileRef { flip_y: !t.flip_y, ..t },
        TileTransform::Reset => TileRef { rot: 0, flip_x: false, flip_y: false, ..t },
    };
    TileRef { rot: t1.rot % 4, ..t1 }
}

/// `op` can be applied to `t` without overflowing the rotation counter.
pub open spec fn transform_ok(t: TileRef, op: TileTransform) -> bool {
    match op {
        TileTransform::RotateCcw => t.rot + 3 <= u8::MAX,
        TileTransform::RotateCw => t.rot + 1 <= u8::MAX,
        _ => true,
    }
}

/// What each edit does to a tile, field by field: the tileset and tile index
/// never change; a turn moves the rotation one quarter clockwise or
/// counter-clockwise (in `0..4`) and keeps both mirrors; a mirror flips its
/// own axis only and keeps the rotation (brought into `0..4`) and the other
/// mirror; a reset clears rotation and both mirrors.
pub open spec fn transform_fields(t: TileRef, op: TileTransform, r: TileRef) -> bool {
    &&& r.tileset_id == t.tileset_id
    &&& r.index == t.index
    &&& match op {
        TileTransform::RotateCw => r.rot == (t.rot + 1) % 4 && r.flip_x == t.flip_x && r.flip_y == t.flip_y,
        TileTransform::RotateCcw => r.rot == (t.rot + 3) % 4 && r.flip_x == t.flip_x && r.flip_y == t.flip_y,
        TileTransform::FlipX => r.rot == t.rot % 4 && r.flip_x == !t.flip_x && r.flip_y == t.flip_y,
        TileTransform::FlipY => r.rot == t.rot % 4 && r.flip_x == t.flip_x && r.flip_y == !t.flip_y,
        TileTransform::Reset => r.rot == 0 && !r.flip_x && !r.flip_y,
    }
}

/// Every edit changes a tile exactly as `transform_fields` describes, for
/// every rotation the tile may have.
pub proof fn lemma_transform_fields(t: TileRef, op: TileTransform)
    ensures
        transform_fields(t, op, transformed(t, op)),
{
}

/// Applies `op` to `t`.
pub fn transform_tile(t: &mut TileRef, op: TileTransform)
    requires
        transform_ok(*old(t), op),
    ensures
        *final(t) == transformed(*old(t), op),
        transform_fields(*old(t), op, *final(t)),
{
    match op {
        TileTransform::RotateCcw => t.rot = (t.rot + 3) % 4,
        TileTransform::RotateCw => t.rot = (t.rot + 1) % 4,
        TileTransform::FlipX => t.flip_x = !t.flip_x,
        TileTransform::FlipY => t.flip_y = !t.flip_y,
        TileTransform::Reset => {
            t.rot = 0;
            t.flip_x = false;
            t.flip_y = false;
        },
    }
    t.rot = t.rot % 4;
}

/// `layer` is the highest layer whose cell `(x, y)` holds a tile.
pub open spec fn is_topmost(map: TileMapData, layer: int, x: int, y: int) -> bool {
    &&& 0 <= layer < map.layers
    &&& map.occupied(layer, x, y)
    &&& forall|k: int| layer < k < map.layers ==> !#[trigger] map.occupied(k, x, y)
}

/// The topmost tile at `(x, y)`, if any, can take `op`.
pub open spec fn topmost_transform_ok(map: TileMapData, x: int, y: int, op: TileTransform) -> bool {
    forall|l: int|
        #![trigger map.index_of(l, x, y)]
        is_topmost(map, l, x, y) ==> transform_ok(map.tiles@[map.index_of(l, x, y)].unwrap(), op)
}

/// What an orientation edit of the topmost tile at `(x, y)` does, from map
/// `m0` and history `h0` to `m1` and `h1`, with the redraw `r` it returns.
/// Without a change (`None`) nothing moves, and the topmost tile, if any, is
/// one that `op` leaves as it is. With a change, the topmost tile at `(x, y)`
/// is replaced by its transformed copy, the redraw names that cell and both
/// tiles, and the history records exactly that change as its newest action,
/// with the redo history emptied.
pub open spec fn topmost_edit(
    m0: TileMapData,
    h0: UndoStack,
    x: int,
    y: int,
    op: TileTransform,
    r: Option<CellRedraw>,
    m1: TileMapData,
    h1: UndoStack,
) -> bool {
    &&& r is None ==> m1 == m0 && h1 == h0
    &&& r is None ==> forall|l: int|
        #![trigger m0.index_of(l, x, y)]
        is_topmost(m0, l, x, y) ==> {
            let t = m0.tiles@[m0.index_of(l, x, y)].unwrap();
            transformed(t, op)@ == t@
        }
    &&& r matches Some(c) ==> {
        let i = m0.index_of(c.layer as int, x, y);
        &&& is_topmost(m0, c.layer as int, x, y)
        &&& c.x == x && c.y == y
        &&& c.from == m0.tiles@[i]
        &&& c.to == Some(transformed(m0.tiles@[i].unwrap(), op))
        &&& cell_view(c.from) != cell_view(c.to)
        &&& m1.width == m0.width
        &&& m1.height == m0.height
        &&& m1.layers == m0.layers
        &&& m1.tiles@ == m0.tiles@.update(i, c.to)
        &&& h1.max_len == h0.max_len
        &&& h1.redo@.len() == 0
        &&& h1.undo@ == pushed_history(h0.undo@, h1.undo@.last(), h0.max_len)
        &&& h1.undo@.last().changes@ == seq![CellChange { idx: i as usize, before: c.from, after: c.to }]
    }
}

/// Applies `op` to the topmost tile at `(x, y)`. When there is such a tile
/// and `op` changes it, the change is written, recorded as one undoable
/// action and returned as the cell to redraw; otherwise nothing changes and
/// the result is `None`.
pub fn edit_topmost_tile(map: &mut TileMapData, history: &mut UndoStack, x: u32, y: u32, op: TileTransform) -> (r: Option<CellRedraw>)
    requires
        old(map).indexable(x as int, y as int),
        topmost_transform_ok(*old(map), x as int, y as int, op),
    ensures
        topmost_edit(*old(map), *old(history), x as int, y as int, op, r, *final(map), *final(history)),
        r matches Some(c) ==> c.from is Some && c.to is Some && transform_fields(c.from.unwrap(), op, c.to.unwrap()),
{
    let layer = match map.topmost_layer_at(x, y) {
        Some(l) => l,
        None => return None,
    };
    proof {
        crate::arith::lemma_mul_mono(layer as int, map.layers - 1, map.cells_per_layer());
    }
    let idx = map.idx_layer(layer, x, y);
    if idx >= map.tiles.len() {
        return None;
    }
    let before = copy_cell(&map.tiles[idx]);
    let mut after_tile = match &map.tiles[idx] {
        Some(t) => t.clone(),
        None => return None,
    };
    proof {
        assert(is_topmost(*old(map), layer as int, x as int, y as int));
    }
    transform_tile(&mut after_tile, op);
    let after = Some(after_tile);
    if same_cell(&before, &after) {
        return None;
    }
    map.tiles.set(idx, copy_cell(&after));
    let mut changes: Vec<CellChange> = Vec::new();
    changes.push(CellChange { idx, before: copy_cell(&before), after: copy_cell(&after) });
    let ghost ch = changes@;
    history.push(EditCommand { changes });
    proof {
        assert(ch =~= seq![CellChange { idx: idx, before: before, after: after }]);
    }
    Some(CellRedraw { layer, x, y, from: before, to: after })
}

/// The paste orientation after `op`: the same turns and mirrors as a tile.
pub open spec fn paste_transformed(p: PasteState, op: TileTransform) -> PasteState {
    match op {
        TileTransform::RotateCcw => PasteState { rot: ((p.rot + 3) % 4) as u8, ..p },
        TileTransform::RotateCw => PasteState { rot: ((p.rot + 1) % 4) as u8, ..p },
        TileTransform::FlipX => PasteState { flip_x: !p.flip_x, ..p },
        TileTransform::FlipY => PasteState { flip_y: !p.flip_y, ..p },
        TileTransform::Reset => PasteState { rot: 0, flip_x: false, flip_y: false },
    }
}

/// Applies `op` to the orientation the clipboard is pasted with.
pub fn transform_paste(p: &mut PasteState, op: TileTransform)
    requires
        op == TileTransform::RotateCcw ==> old(p).rot + 3 <= u8::MAX,
        op == TileTransform::RotateCw ==> old(p).rot + 1 <= u8::MAX,
    ensures
        *final(p) == paste_transformed(*old(p), op),
{
    match op {
        TileTransform::RotateCcw => p.rot = (p.rot + 3) % 4,
        TileTransform::RotateCw => p.rot = (p.rot + 1) % 4,
        TileTransform::FlipX => p.flip_x = !p.flip_x,
        TileTransform::FlipY => p.flip_y = !p.flip_y,
        TileTransform::Reset => {
            p.rot = 0;
            p.flip_x = false;
            p.flip_y = false;
        },
    }
}

} // verus!

verus! {

/// Orientation edits undo one another: a clockwise turn is undone by a
/// counter-clockwise one and the other way round, a mirror undoes itself,
/// four turns in one direction come back to the start, and a reset is the
/// same however often it is applied. Stated for a tile whose rotation is
/// already in `0..4`, the only rotations an edit leaves.
pub proof fn lemma_transforms_cancel(t: TileRef)
    requires
        t.rot < 4,
    ensures
        transformed(transformed(t, TileTransform::RotateCw), TileTransform::RotateCcw) == t,
        transformed(transformed(t, TileTransform::RotateCcw), TileTransform::RotateCw) == t,
        transformed(transformed(t, TileTransform::FlipX), TileTransform::FlipX) == t,
        transformed(transformed(t, TileTransform::FlipY), TileTransform::FlipY) == t,
        transformed(
            transformed(transformed(transformed(t, TileTransform::RotateCw), TileTransform::RotateCw), TileTransform::RotateCw),
            TileTransform::RotateCw,
        ) == t,
        transformed(transformed(t, TileTransform::Reset), TileTransform::Reset) == transformed(t, TileTransform::Reset),
{
}

/// The same laws hold of the paste orientation.
pub proof fn lemma_paste_transforms_cancel(p: PasteState)
    requires
        p.rot < 4,
    ensures
        paste_transformed(paste_transformed(p, TileTransform::RotateCw), TileTransform::RotateCcw) == p,
        paste_transformed(paste_transformed(p, TileTransform::RotateCcw), TileTransform::RotateCw) == p,
        paste_transformed(paste_transformed(p, TileTransform::FlipX), TileTransform::FlipX) == p,
        paste_transformed(paste_transformed(p, TileTransform::FlipY), TileTransform::FlipY) == p,
        paste_transformed(
            paste_transformed(paste_transformed(paste_transformed(p, TileTransform::RotateCw), TileTransform::RotateCw), TileTransform::RotateCw),
            TileTransform::RotateCw,
        ) == p,
{
}

/// A cell has at most one topmost layer, so `topmost_layer_at` and
/// `topmost_idx_at` name the same layer.
pub proof fn lemma_topmost_unique(map: TileMapData, l1: int, l2: int, x: int, y: int)
    requires
        is_topmost(map, l1, x, y),
        is_topmost(map, l2, x, y),
    ensures
        l1 == l2,
{
    if l1 < l2 {
        assert(!map.occupied(l2, x, y));
    } else if l2 < l1 {
        assert(!map.occupied(l1, x, y));
    }
}

/// A clockwise turn of the cell at `i` followed by a counter-clockwise turn
/// of the same cell gives the cells back (for a rotation in `0..4`).
pub proof fn lemma_turn_back_cells(s: Seq<Option<TileRef>>, i: int)
    requires
        0 <= i < s.len(),
        s[i] is Some,
        s[i].unwrap().rot < 4,
    ensures
        ({
            let t = s[i].unwrap();
            let s1 = s.update(i, Some(transformed(t, TileTransform::RotateCw)));
            s1.update(i, Some(transformed(s1[i].unwrap(), TileTransform::RotateCcw)))
        }) == s,
{
    let t = s[i].unwrap();
    lemma_transforms_cancel(t);
    let s1 = s.update(i, Some(transformed(t, TileTransform::RotateCw)));
    assert(s1.update(i, Some(transformed(s1[i].unwrap(), TileTransform::RotateCcw))) =~= s);
}

/// Turning the topmost tile at `(x, y)` clockwise and then
/// counter-clockwise gives the map back: both edits take effect, on the same
/// cell, and the history ends with the clockwise change followed by the
/// counter-clockwise one, with nothing to redo. Stated for a tile whose
/// rotation is in `0..4` and a history that keeps more than one action.
pub proof fn lemma_turn_back_map(
    m0: TileMapData,
    h0: UndoStack,
    x: int,
    y: int,
    l: int,
    r1: Option<CellRedraw>,
    m1: TileMapData,
    h1: UndoStack,
    r2: Option<CellRedraw>,
    m2: TileMapData,
    h2: UndoStack,
)
    requires
        is_topmost(m0, l, x, y),
        m0.tiles@[m0.index_of(l, x, y)].unwrap().rot < 4,
        h0.max_len != 1,
        topmost_edit(m0, h0, x, y, TileTransform::RotateCw, r1, m1, h1),
        topmost_edit(m1, h1, x, y, TileTransform::RotateCcw, r2, m2, h2),
    ensures
        r1 is Some && r2 is Some,
        r1.unwrap().layer == l && r2.unwrap().layer == l,
        m2.width == m0.width && m2.height == m0.height && m2.layers == m0.layers,
        m2.tiles@ == m0.tiles@,
        h2.redo@.len() == 0,
        h2.undo@.len() >= 2,
        ({
            let i = m0.index_of(l, x, y);
            let t = m0.tiles@[i].unwrap();
            let t1 = transformed(t, TileTransform::RotateCw);
            &&& h2.undo@[h2.undo@.len() - 2].changes@ == seq![CellChange { idx: i as usize, before: Some(t), after: Some(t1) }]
            &&& h2.undo@.last().changes@ == seq![CellChange { idx: i as usize, before: Some(t1), after: Some(t) }]
        }),
{
    let i = m0.index_of(l, x, y);
    let t = m0.tiles@[i].unwrap();
    let t1 = transformed(t, TileTransform::RotateCw);
    lemma_transforms_cancel(t);
    assert(t1.rot != t.rot);
    if r1 is None {
        assert(transformed(t, TileTransform::RotateCw)@ == t@);
        assert(false);
    }
    let c1 = r1.unwrap();
    lemma_topmost_unique(m0, c1.layer as int, l, x, y);
    assert(m1.tiles@ == m0.tiles@.update(i, Some(t1)));
    // The first edit keeps every cell's occupancy, so `l` stays topmost.
    assert forall|k: int| #![trigger m1.occupied(k, x, y)] 0 <= k < m1.layers implies m1.occupied(k, x, y) == m0.occupied(k, x, y) by {
        if m0.index_of(k, x, y) == i {
            assert(m1.index_of(k, x, y) == i);
        }
    }
    assert(is_topmost(m1, l, x, y));
    assert(m1.index_of(l, x, y) == i);
    assert(m1.tiles@[i] == Some(t1));
    if r2 is None {
        assert(transformed(t1, TileTransform::RotateCcw)@ == t1@);
        assert(false);
    }
    let c2 = r2.unwrap();
    lemma_topmost_unique(m1, c2.layer as int, l, x, y);
    assert(m2.tiles@ =~= m0.tiles@);
    let s1 = h1.undo@;
    assert(s1.len() >= 1);
    let s2 = s1.push(h2.undo@.last());
    if s2.len() > crate::undo::undo_limit(h1.max_len) {
        let lim = crate::undo::undo_limit(h1.max_len);
        assert(h2.undo@ == s2.subrange(s2.len() - lim, s2.len() as int));
        assert(h2.undo@[h2.undo@.len() - 2] == s2[s2.len() - 2]);
    } else {
        assert(h2.undo@ == s2);
    }
    assert(s2[s2.len() - 2] == s1.last());
}

/// Undoing an orientation edit gives back the map: replaying the recorded
/// change backwards over the edited cells restores them.
pub proof fn lemma_edit_then_undo(s: Seq<Option<TileRef>>, i: usize, after: Option<TileRef>)
    requires
        i < s.len(),
    ensures
        crate::undo::apply_cells(
            s.update(i as int, after),
            seq![CellChange { idx: i, before: s[i as int], after }],
            false,
        ) == s,
{
    let t = s.update(i as int, after);
    let cs = seq![CellChange { idx: i, before: s[i as int], after }];
    assert(cs.drop_last() =~= Seq::<CellChange>::empty());
    assert(crate::undo::apply_cells(t, cs.drop_last(), false) == t);
    assert(t.update(i as int, s[i as int]) =~= s);
}

} // verus!
