//! Cell edits, the undo/redo history, and replaying recorded edits on a map.
use vstd::prelude::*;

use crate::tile::{copy_cell, TileRef};
use crate::tilemap::TileMapData;

verus! {

/// One cell of the flat tile vector changing from `before` to `after`.
#[derive(Debug)]
pub struct CellChange {
    pub idx: usize,
    pub before: Option<TileRef>,
    pub after: Option<TileRef>,
}

/// One user action: the cells it changed, in the order they changed.
#[derive(Debug)]
pub struct EditCommand {
    pub changes: Vec<CellChange>,
}

/// Undo and redo history. `max_len` bounds the undo history; 0 stands for
/// the default bound of 200.
#[derive(Debug)]
pub struct UndoStack {
    pub undo: Vec<EditCommand>,
    pub redo: Vec<EditCommand>,
    pub max_len: usize,
}

/// History bound used when `max_len` is 0.
pub const DEFAULT_UNDO_LIMIT: usize = 200;

/// The bound on the undo history that `max_len` stands for.
pub open spec fn undo_limit(max_len: usize) -> int {
    if max_len == 0 {
        DEFAULT_UNDO_LIMIT as int
    } else {
        max_len as int
    }
}

/// The undo history after recording `cmd` on top of `undo`: the oldest
/// entries are dropped so that at most `undo_limit(max_len)` remain.
pub open spec fn pushed_history(undo: Seq<EditCommand>, cmd: EditCommand, max_len: usize) -> Seq<
    EditCommand,
> {
    let s = undo.push(cmd);
    if s.len() > undo_limit(max_len) {
        s.subrange(s.len() - undo_limit(max_len), s.len() as int)
    } else {
        s
    }
}

/// Replays `cs` in order on `s`: each change whose index lies inside the
/// sequence writes its `after` tile (`forward`) or its `before` tile (back).
pub open spec fn apply_cells(s: Seq<Option<TileRef>>, cs: Seq<CellChange>, forward: bool) -> Seq<
    Option<TileRef>,
>
    decreases cs.len(),
{
    if cs.len() == 0 {
        s
    } else {
        let s1 = apply_cells(s, cs.drop_last(), forward);
        let c = cs.last();
        if c.idx < s1.len() {
            s1.update(c.idx as int, if forward { c.after } else { c.before })
        } else {
            s1
        }
    }
}

/// A cell to redraw: position, tile shown before and tile shown after.
#[derive(Debug)]
pub struct CellRedraw {
    pub layer: u32,
    pub x: u32,
    pub y: u32,
    pub from: Option<TileRef>,
    pub to: Option<TileRef>,
}

/// The redraw of change `c` on a map of `width` whose layers have `ll` cells.
pub open spec fn redraw_of(c: CellChange, ll: int, width: int, forward: bool) -> CellRedraw {
    let local = c.idx as int % ll;
    CellRedraw {
        layer: (c.idx as int / ll) as u32,
        x: (local % width) as u32,
        y: (local / width) as u32,
        from: if forward { c.before } else { c.after },
        to: if forward { c.after } else { c.before },
    }
}

/// The redraws that replaying `cs` on a vector of `len` cells asks for.
pub open spec fn redraws(cs: Seq<CellChange>, len: nat, ll: int, width: int, forward: bool) -> Seq<
    CellRedraw,
>
    decreases cs.len(),
{
    if cs.len() == 0 {
        Seq::empty()
    } else {
        let r = redraws(cs.drop_last(), len, ll, width, forward);
        let c = cs.last();
        if c.idx < len {
            r.push(redraw_of(c, ll, width, forward))
        } else {
            r
        }
    }
}

/// Some change of `cs` lies inside a vector of `len` cells.
pub open spec fn touches(cs: Seq<CellChange>, len: nat) -> bool {
    exists|i: int| 0 <= i < cs.len() && #[trigger] cs[i].idx < len
}

/// Replaying never changes the length.
pub proof fn lemma_apply_cells_len(s: Seq<Option<TileRef>>, cs: Seq<CellChange>, forward: bool)
    ensures
        apply_cells(s, cs, forward).len() == s.len(),
    decreases cs.len(),
{
    if cs.len() > 0 {
        lemma_apply_cells_len(s, cs.drop_last(), forward);
    }
}

impl UndoStack {
    /// Forgets the whole history.
    pub fn clear(&mut self)
        ensures
            final(self).undo@.len() == 0,
            final(self).redo@.len() == 0,
            final(self).max_len == old(self).max_len,
    {
        self.undo.clear();
        self.redo.clear();
    }

    /// Records `cmd` as the latest action. A command without changes is
    /// ignored; otherwise the redo history is dropped and the undo history
    /// keeps its newest `undo_limit(max_len)` entries.
    pub fn push(&mut self, cmd: EditCommand)
        ensures
            final(self).max_len == old(self).max_len,
            cmd.changes@.len() == 0 ==> *final(self) == *old(self),
            cmd.changes@.len() > 0 ==> {
                &&& final(self).redo@.len() == 0
                &&& final(self).undo@ == pushed_history(old(self).undo@, cmd, old(self).max_len)
            },
    {
        if cmd.changes.len() == 0 {
            return;
        }
        self.redo.clear();
        self.undo.push(cmd);
        let max_len: usize = if self.max_len == 0 { DEFAULT_UNDO_LIMIT } else { self.max_len };
        if self.undo.len() > max_len {
            let drain: usize = self.undo.len() - max_len;
            let kept = self.undo.split_off(drain);
            self.undo = kept;
        }
    }
}

/// Replays the changes of `cmd` on `map`, forward (writing each `after`) or
/// back (writing each `before`); returns the redraws, in order.
fn replay(map: &mut TileMapData, cmd: &EditCommand, forward: bool) -> (out: Vec<CellRedraw>)
    requires
        old(map).cells_per_layer() <= u32::MAX,
        touches(cmd.changes@, old(map).tiles@.len()) ==> old(map).cells_per_layer() > 0,
    ensures
        final(map).width == old(map).width,
        final(map).height == old(map).height,
        final(map).layers == old(map).layers,
        final(map).tiles@ == apply_cells(old(map).tiles@, cmd.changes@, forward),
        out@ == redraws(
            cmd.changes@,
            old(map).tiles@.len(),
            old(map).cells_per_layer(),
            old(map).width as int,
            forward,
        ),
{
    let layer_len = map.layer_len();
    let mut out: Vec<CellRedraw> = Vec::new();
    let ghost start = map.tiles@;
    let ghost cs = cmd.changes@;
    let mut i: usize = 0;
    while i < cmd.changes.len()
        invariant
            i <= cs.len(),
            cs == cmd.changes@,
            map.width == old(map).width,
            map.height == old(map).height,
            map.layers == old(map).layers,
            start == old(map).tiles@,
            layer_len == old(map).cells_per_layer(),
            touches(cs, start.len()) ==> layer_len > 0,
            map.tiles@ == apply_cells(start, cs.take(i as int), forward),
            out@ == redraws(cs.take(i as int), start.len(), layer_len as int, map.width as int, forward),
        decreases cs.len() - i,
    {
        proof {
            lemma_apply_cells_len(start, cs.take(i as int), forward);
            assert(cs.take(i + 1).drop_last() == cs.take(i as int));
        }
        let ch = &cmd.changes[i];
        if ch.idx < map.tiles.len() {
            proof {
                assert(cs[i as int].idx < start.len());
                assert(touches(cs, start.len()));
            }
            let v = if forward { copy_cell(&ch.after) } else { copy_cell(&ch.before) };
            map.tiles.set(ch.idx, v);
            let layer: u32 = (ch.idx / layer_len) as u32;
            let local: usize = ch.idx % layer_len;
            let w: usize = map.width as usize;
            proof {
                assert(w > 0) by (nonlinear_arith)
                    requires
                        layer_len == (map.width as int) * (map.height as int),
                        layer_len > 0,
                        w == map.width,
                ;
            }
            let x: u32 = (local % w) as u32;
            let y: u32 = (local / w) as u32;
            let from = if forward { copy_cell(&ch.before) } else { copy_cell(&ch.after) };
            let to = if forward { copy_cell(&ch.after) } else { copy_cell(&ch.before) };
            out.push(CellRedraw { layer, x, y, from, to });
        }
        i = i + 1;
    }
    proof {
        assert(cs.take(cs.len() as int) == cs);
    }
    out
}

/// Undo and redo histories after undoing the latest action.
pub open spec fn undone(undo: Seq<EditCommand>, redo: Seq<EditCommand>) -> (Seq<EditCommand>, Seq<EditCommand>) {
    (undo.drop_last(), redo.push(undo.last()))
}

/// Undo and redo histories after redoing the latest undone action.
pub open spec fn redone(undo: Seq<EditCommand>, redo: Seq<EditCommand>) -> (Seq<EditCommand>, Seq<EditCommand>) {
    (undo.push(redo.last()), redo.drop_last())
}

/// Undoes the latest action: writes back the `before` tile of each of its
/// changes that lies inside the map, moves the action to the redo history,
/// and returns the cells to redraw. With nothing to undo, returns `None`
/// and changes nothing.
pub fn apply_undo(map: &mut TileMapData, history: &mut UndoStack) -> (out: Option<Vec<CellRedraw>>)
    requires
        old(history).undo@.len() > 0 ==> {
            &&& old(map).cells_per_layer() <= u32::MAX
            &&& touches(old(history).undo@.last().changes@, old(map).tiles@.len())
                ==> old(map).cells_per_layer() > 0
        },
    ensures
        old(history).undo@.len() == 0 <==> out is None,
        out is None ==> *final(map) == *old(map) && *final(history) == *old(history),
        out matches Some(r) ==> {
            let cmd = old(history).undo@.last();
            &&& (final(history).undo@, final(history).redo@) == undone(old(history).undo@, old(history).redo@)
            &&& final(history).max_len == old(history).max_len
            &&& final(map).width == old(map).width
            &&& final(map).height == old(map).height
            &&& final(map).layers == old(map).layers
            &&& final(map).tiles@ == apply_cells(old(map).tiles@, cmd.changes@, false)
            &&& r@ == redraws(cmd.changes@, old(map).tiles@.len(), old(map).cells_per_layer(), old(map).width as int, false)
        },
{
    if history.undo.len() == 0 {
        return None;
    }
    let cmd = history.undo.pop().unwrap();
    let out = replay(map, &cmd, false);
    history.redo.push(cmd);
    Some(out)
}

/// Redoes the latest undone action: writes the `after` tile of each of its
/// changes that lies inside the map, moves the action back to the undo
/// history, and returns the cells to redraw. With nothing to redo, returns
/// `None` and changes nothing.
pub fn apply_redo(map: &mut TileMapData, history: &mut UndoStack) -> (out: Option<Vec<CellRedraw>>)
    requires
        old(history).redo@.len() > 0 ==> {
            &&& old(map).cells_per_layer() <= u32::MAX
            &&& touches(old(history).redo@.last().changes@, old(map).tiles@.len())
                ==> old(map).cells_per_layer() > 0
        },
    ensures
        old(history).redo@.len() == 0 <==> out is None,
        out is None ==> *final(map) == *old(map) && *final(history) == *old(history),
        out matches Some(r) ==> {
            let cmd = old(history).redo@.last();
            &&& (final(history).undo@, final(history).redo@) == redone(old(history).undo@, old(history).redo@)
            &&& final(history).max_len == old(history).max_len
            &&& final(map).width == old(map).width
            &&& final(map).height == old(map).height
            &&& final(map).layers == old(map).layers
            &&& final(map).tiles@ == apply_cells(old(map).tiles@, cmd.changes@, true)
            &&& r@ == redraws(cmd.changes@, old(map).tiles@.len(), old(map).cells_per_layer(), old(map).width as int, true)
        },
{
    if history.redo.len() == 0 {
        return None;
    }
    let cmd = history.redo.pop().unwrap();
    let out = replay(map, &cmd, true);
    history.undo.push(cmd);
    Some(out)
}

} // verus!

verus! {

/// No two changes of `cs` touch the same cell.
pub open spec fn distinct_cells(cs: Seq<CellChange>) -> bool {
    forall|i: int, k: int| 0 <= i < cs.len() && 0 <= k < cs.len() && i != k ==> cs[i].idx != cs[k].idx
}

/// The value change `c` writes when replayed in the given direction.
pub open spec fn written(c: CellChange, forward: bool) -> Option<TileRef> {
    if forward {
        c.after
    } else {
        c.before
    }
}

/// Replaying distinct changes leaves every changed cell with the value of its change.
pub proof fn lemma_apply_cells_at(s: Seq<Option<TileRef>>, cs: Seq<CellChange>, forward: bool, i: int)
    requires
        distinct_cells(cs),
        0 <= i < cs.len(),
        cs[i].idx < s.len(),
    ensures
        apply_cells(s, cs, forward)[cs[i].idx as int] == written(cs[i], forward),
    decreases cs.len(),
{
    lemma_apply_cells_len(s, cs.drop_last(), forward);
    if i < cs.len() - 1 {
        lemma_apply_cells_at(s, cs.drop_last(), forward, i);
        assert(cs.last().idx != cs[i].idx);
    }
}

/// Replaying changes leaves every cell that none of them touches as it was.
pub proof fn lemma_apply_cells_other(s: Seq<Option<TileRef>>, cs: Seq<CellChange>, forward: bool, j: int)
    requires
        0 <= j < s.len(),
        forall|i: int| 0 <= i < cs.len() ==> cs[i].idx != j,
    ensures
        apply_cells(s, cs, forward)[j] == s[j],
    decreases cs.len(),
{
    if cs.len() > 0 {
        lemma_apply_cells_len(s, cs.drop_last(), forward);
        lemma_apply_cells_other(s, cs.drop_last(), forward, j);
        assert(cs.last().idx != j);
    }
}

/// Undo reverts an edit: when the changes touch distinct cells inside the
/// map and each records as `before` what the cell held, replaying them
/// forward and then back gives the map back.
pub proof fn lemma_undo_reverts_edit(s: Seq<Option<TileRef>>, cs: Seq<CellChange>)
    requires
        distinct_cells(cs),
        forall|i: int| 0 <= i < cs.len() ==> #[trigger] cs[i].idx < s.len() && cs[i].before == s[cs[i].idx as int],
    ensures
        apply_cells(apply_cells(s, cs, true), cs, false) == s,
{
    let f = apply_cells(s, cs, true);
    let b = apply_cells(f, cs, false);
    lemma_apply_cells_len(s, cs, true);
    lemma_apply_cells_len(f, cs, false);
    assert forall|j: int| 0 <= j < s.len() implies b[j] == s[j] by {
        if exists|i: int| 0 <= i < cs.len() && cs[i].idx == j {
            let i = choose|i: int| 0 <= i < cs.len() && cs[i].idx == j;
            lemma_apply_cells_at(f, cs, false, i);
        } else {
            lemma_apply_cells_other(s, cs, true, j);
            lemma_apply_cells_other(f, cs, false, j);
        }
    }
    assert(b =~= s);
}

/// Redo reverts an undo: when the changes touch distinct cells inside the
/// map and each records as `after` what the cell now holds, replaying them
/// back and then forward gives the map back.
pub proof fn lemma_redo_reverts_undo(s: Seq<Option<TileRef>>, cs: Seq<CellChange>)
    requires
        distinct_cells(cs),
        forall|i: int| 0 <= i < cs.len() ==> #[trigger] cs[i].idx < s.len() && cs[i].after == s[cs[i].idx as int],
    ensures
        apply_cells(apply_cells(s, cs, false), cs, true) == s,
{
    let b = apply_cells(s, cs, false);
    let f = apply_cells(b, cs, true);
    lemma_apply_cells_len(s, cs, false);
    lemma_apply_cells_len(b, cs, true);
    assert forall|j: int| 0 <= j < s.len() implies f[j] == s[j] by {
        if exists|i: int| 0 <= i < cs.len() && cs[i].idx == j {
            let i = choose|i: int| 0 <= i < cs.len() && cs[i].idx == j;
            lemma_apply_cells_at(b, cs, true, i);
        } else {
            lemma_apply_cells_other(s, cs, false, j);
            lemma_apply_cells_other(b, cs, true, j);
        }
    }
    assert(f =~= s);
}

/// Redo re-applies an undone edit: replaying distinct in-range changes back
/// and then forward gives the same cells as replaying them forward alone.
pub proof fn lemma_redo_reapplies_edit(s: Seq<Option<TileRef>>, cs: Seq<CellChange>)
    requires
        distinct_cells(cs),
        forall|i: int| 0 <= i < cs.len() ==> #[trigger] cs[i].idx < s.len(),
    ensures
        apply_cells(apply_cells(s, cs, false), cs, true) == apply_cells(s, cs, true),
{
    let b = apply_cells(s, cs, false);
    let f = apply_cells(b, cs, true);
    let g = apply_cells(s, cs, true);
    lemma_apply_cells_len(s, cs, false);
    lemma_apply_cells_len(b, cs, true);
    lemma_apply_cells_len(s, cs, true);
    assert forall|j: int| 0 <= j < s.len() implies f[j] == g[j] by {
        if exists|i: int| 0 <= i < cs.len() && cs[i].idx == j {
            let i = choose|i: int| 0 <= i < cs.len() && cs[i].idx == j;
            lemma_apply_cells_at(b, cs, true, i);
            lemma_apply_cells_at(s, cs, true, i);
        } else {
            lemma_apply_cells_other(s, cs, false, j);
            lemma_apply_cells_other(b, cs, true, j);
            lemma_apply_cells_other(s, cs, true, j);
        }
    }
    assert(f =~= g);
}

/// Redo after undo gives both histories back.
pub proof fn lemma_undo_then_redo(undo: Seq<EditCommand>, redo: Seq<EditCommand>)
    requires
        undo.len() > 0,
    ensures
        redone(undone(undo, redo).0, undone(undo, redo).1) == (undo, redo),
{
    assert(undo.drop_last().push(undo.last()) =~= undo);
    assert(redo.push(undo.last()).drop_last() =~= redo);
}

/// Undo after redo gives both histories back.
pub proof fn lemma_redo_then_undo(undo: Seq<EditCommand>, redo: Seq<EditCommand>)
    requires
        redo.len() > 0,
    ensures
        undone(redone(undo, redo).0, redone(undo, redo).1) == (undo, redo),
{
    assert(undo.push(redo.last()).drop_last() =~= undo);
    assert(redo.drop_last().push(redo.last()) =~= redo);
}

/// Recording an action keeps the undo history within its bound and puts the
/// action on top.
pub proof fn lemma_pushed_history_bounded(undo: Seq<EditCommand>, cmd: EditCommand, max_len: usize)
    requires
        undo.len() <= undo_limit(max_len),
    ensures
        pushed_history(undo, cmd, max_len).len() <= undo_limit(max_len),
        pushed_history(undo, cmd, max_len).last() == cmd,
        pushed_history(undo, cmd, max_len).len() == if undo.len() < undo_limit(max_len) {
            undo.len() + 1int
        } else {
            undo.len() as int
        },
{
}

} // verus!

verus! {

impl Clone for CellChange {
    fn clone(&self) -> (r: Self)
        ensures
            r == *self,
    {
        CellChange { idx: self.idx, before: copy_cell(&self.before), after: copy_cell(&self.after) }
    }
}

impl Clone for EditCommand {
    fn clone(&self) -> (r: Self)
        ensures
            r.changes@ == self.changes@,
    {
        let mut changes: Vec<CellChange> = Vec::new();
        let mut i: usize = 0;
        while i < self.changes.len()
            invariant
                i <= self.changes@.len(),
                changes@ == self.changes@.take(i as int),
            decreases self.changes@.len() - i,
        {
            changes.push(self.changes[i].clone());
            proof {
                assert(self.changes@.take(i + 1) == self.changes@.take(i as int).push(self.changes@[i as int]));
            }
            i = i + 1;
        }
        proof {
            assert(self.changes@.take(self.changes@.len() as int) == self.changes@);
        }
        EditCommand { changes }
    }
}

impl Default for EditCommand {
    fn default() -> (r: Self)
        ensures
            r.changes@.len() == 0,
    {
        EditCommand { changes: Vec::new() }
    }
}

impl Default for UndoStack {
    fn default() -> (r: Self)
        ensures
            r.undo@.len() == 0,
            r.redo@.len() == 0,
            r.max_len == 0,
    {
        UndoStack { undo: Vec::new(), redo: Vec::new(), max_len: 0 }
    }
}

} // verus!
