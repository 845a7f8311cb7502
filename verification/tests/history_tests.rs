use tilemap_editor::edit::{edit_topmost_tile, transform_paste, transform_tile, TileTransform};
use tilemap_editor::editor::PasteState;
use tilemap_editor::tile::TileRef;
use tilemap_editor::tilemap::TileMapData;
use tilemap_editor::undo::{apply_redo, apply_undo, CellChange, EditCommand, UndoStack};

fn tile(id: &str, index: u32) -> Option<TileRef> {
    Some(TileRef { tileset_id: id.to_string(), index, rot: 0, flip_x: false, flip_y: false })
}

fn history() -> UndoStack {
    UndoStack { undo: Vec::new(), redo: Vec::new(), max_len: 0 }
}

fn change(idx: usize, before: Option<TileRef>, after: Option<TileRef>) -> CellChange {
    CellChange { idx, before, after }
}

#[test]
fn push_ignores_empty_commands() {
    let mut h = history();
    h.redo.push(EditCommand { changes: vec![change(0, None, tile("a", 1))] });
    h.push(EditCommand { changes: Vec::new() });
    assert_eq!(h.undo.len(), 0);
    assert_eq!(h.redo.len(), 1);
}

#[test]
fn push_clears_redo_and_caps_history() {
    let mut h = UndoStack { undo: Vec::new(), redo: Vec::new(), max_len: 3 };
    h.redo.push(EditCommand { changes: vec![change(0, None, tile("a", 1))] });
    for i in 0..5usize {
        h.push(EditCommand { changes: vec![change(i, None, tile("a", i as u32))] });
    }
    assert_eq!(h.redo.len(), 0);
    assert_eq!(h.undo.len(), 3);
    let firsts: Vec<usize> = h.undo.iter().map(|c| c.changes[0].idx).collect();
    assert_eq!(firsts, vec![2, 3, 4]);
}

#[test]
fn default_history_limit_is_two_hundred() {
    let mut h = history();
    for i in 0..205usize {
        h.push(EditCommand { changes: vec![change(i, None, None)] });
    }
    assert_eq!(h.undo.len(), 200);
    assert_eq!(h.undo[0].changes[0].idx, 5);
}

#[test]
fn clear_forgets_everything() {
    let mut h = history();
    h.push(EditCommand { changes: vec![change(0, None, tile("a", 1))] });
    h.redo.push(EditCommand { changes: vec![change(0, None, tile("a", 1))] });
    h.clear();
    assert!(h.undo.is_empty() && h.redo.is_empty());
}

#[test]
fn undo_then_redo_round_trip() {
    let mut m = TileMapData::new_with_layers(3, 2, 2);
    let before = m.tiles.clone();
    let i = m.idx_layer(1, 2, 1);
    let j = m.idx(0, 1);
    m.tiles[i] = tile("a", 5);
    m.tiles[j] = tile("b", 6);
    let edited = m.tiles.clone();
    let mut h = history();
    h.push(EditCommand { changes: vec![change(i, None, tile("a", 5)), change(j, None, tile("b", 6))] });

    let r = apply_undo(&mut m, &mut h).unwrap();
    assert_eq!(m.tiles, before);
    assert_eq!(h.undo.len(), 0);
    assert_eq!(h.redo.len(), 1);
    assert_eq!(r.len(), 2);
    assert_eq!((r[0].layer, r[0].x, r[0].y), (1, 2, 1));
    assert_eq!(r[0].from, tile("a", 5));
    assert_eq!(r[0].to, None);
    assert_eq!((r[1].layer, r[1].x, r[1].y), (0, 0, 1));

    let r2 = apply_redo(&mut m, &mut h).unwrap();
    assert_eq!(m.tiles, edited);
    assert_eq!(h.undo.len(), 1);
    assert_eq!(h.redo.len(), 0);
    assert_eq!(r2[1].to, tile("b", 6));
}

#[test]
fn undo_and_redo_with_empty_history() {
    let mut m = TileMapData::new(2, 2);
    let mut h = history();
    assert!(apply_undo(&mut m, &mut h).is_none());
    assert!(apply_redo(&mut m, &mut h).is_none());
}

#[test]
fn undo_skips_changes_outside_the_map() {
    let mut m = TileMapData::new_with_layers(2, 2, 1);
    let mut h = history();
    h.push(EditCommand { changes: vec![change(99, tile("a", 1), None), change(1, tile("z", 2), None)] });
    let r = apply_undo(&mut m, &mut h).unwrap();
    assert_eq!(r.len(), 1);
    assert_eq!(m.tiles[1], tile("z", 2));
    assert_eq!(m.tiles[99 % 4], None);
}

#[test]
fn rotate_topmost_tile_and_undo() {
    let mut m = TileMapData::new_with_layers(2, 2, 2);
    let lower = m.idx_layer(0, 1, 0);
    let upper = m.idx_layer(1, 1, 0);
    m.tiles[lower] = tile("a", 1);
    m.tiles[upper] = tile("b", 2);
    let before = m.tiles.clone();
    let mut h = history();
    let r = edit_topmost_tile(&mut m, &mut h, 1, 0, TileTransform::RotateCw).unwrap();
    assert_eq!(r.layer, 1);
    assert_eq!(m.tiles[upper].as_ref().unwrap().rot, 1);
    assert_eq!(m.tiles[lower], tile("a", 1));
    assert_eq!(h.undo.len(), 1);
    edit_topmost_tile(&mut m, &mut h, 1, 0, TileTransform::RotateCcw).unwrap();
    edit_topmost_tile(&mut m, &mut h, 1, 0, TileTransform::RotateCcw).unwrap();
    assert_eq!(m.tiles[upper].as_ref().unwrap().rot, 3);
    apply_undo(&mut m, &mut h).unwrap();
    apply_undo(&mut m, &mut h).unwrap();
    apply_undo(&mut m, &mut h).unwrap();
    assert_eq!(m.tiles, before);
}

#[test]
fn edit_without_effect_records_nothing() {
    let mut m = TileMapData::new_with_layers(1, 1, 1);
    m.tiles[0] = tile("a", 1);
    let mut h = history();
    assert!(edit_topmost_tile(&mut m, &mut h, 0, 0, TileTransform::Reset).is_none());
    assert_eq!(h.undo.len(), 0);
    let mut empty = TileMapData::new(2, 2);
    assert!(edit_topmost_tile(&mut empty, &mut h, 1, 1, TileTransform::FlipX).is_none());
}

#[test]
fn flips_and_reset_transform() {
    let mut t = TileRef { tileset_id: "s".to_string(), index: 3, rot: 6, flip_x: false, flip_y: false };
    transform_tile(&mut t, TileTransform::FlipX);
    assert_eq!((t.rot, t.flip_x, t.flip_y), (2, true, false));
    transform_tile(&mut t, TileTransform::FlipY);
    assert_eq!((t.rot, t.flip_x, t.flip_y), (2, true, true));
    transform_tile(&mut t, TileTransform::RotateCcw);
    assert_eq!(t.rot, 1);
    transform_tile(&mut t, TileTransform::Reset);
    assert_eq!((t.rot, t.flip_x, t.flip_y), (0, false, false));
    assert_eq!(t.index, 3);
}

#[test]
fn paste_orientation_transforms() {
    let mut p = PasteState::default();
    transform_paste(&mut p, TileTransform::RotateCcw);
    assert_eq!(p.rot, 3);
    transform_paste(&mut p, TileTransform::RotateCw);
    assert_eq!(p.rot, 0);
    transform_paste(&mut p, TileTransform::RotateCw);
    transform_paste(&mut p, TileTransform::FlipX);
    transform_paste(&mut p, TileTransform::FlipY);
    assert_eq!((p.rot, p.flip_x, p.flip_y), (1, true, true));
    transform_paste(&mut p, TileTransform::FlipX);
    assert_eq!((p.rot, p.flip_x, p.flip_y), (1, false, true));
    transform_paste(&mut p, TileTransform::Reset);
    assert_eq!((p.rot, p.flip_x, p.flip_y), (0, false, false));
}

#[test]
fn four_quarter_turns_come_back() {
    let mut t = TileRef { tileset_id: "s".to_string(), index: 1, rot: 2, flip_x: true, flip_y: false };
    for _ in 0..4 {
        transform_tile(&mut t, TileTransform::RotateCw);
    }
    assert_eq!((t.rot, t.flip_x, t.flip_y, t.index), (2, true, false, 1));
    transform_tile(&mut t, TileTransform::RotateCw);
    transform_tile(&mut t, TileTransform::RotateCcw);
    assert_eq!(t.rot, 2);
}
