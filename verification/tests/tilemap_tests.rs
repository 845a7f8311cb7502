use tilemap_editor::tile::{tile_flip_from_ref, TileFlip, TileRef};
use tilemap_editor::tilemap::{default_layers, map_for_size, resized_map_copy, TileMapData, DEFAULT_LAYER_COUNT};

fn tile(id: &str, index: u32) -> Option<TileRef> {
    Some(TileRef { tileset_id: id.to_string(), index, rot: 0, flip_x: false, flip_y: false })
}

#[test]
fn new_map_has_default_layers_and_empty_cells() {
    let m = TileMapData::new(4, 3);
    assert_eq!(m.width, 4);
    assert_eq!(m.height, 3);
    assert_eq!(m.layers, DEFAULT_LAYER_COUNT);
    assert_eq!(m.tiles.len(), 24);
    assert!(m.tiles.iter().all(|t| t.is_none()));
}

#[test]
fn new_with_zero_layers_gets_one() {
    let m = TileMapData::new_with_layers(2, 2, 0);
    assert_eq!(m.layers, 1);
    assert_eq!(m.tiles.len(), 4);
    assert_eq!(default_layers(), 1);
}

#[test]
fn indices_are_row_major_per_layer() {
    let m = TileMapData::new_with_layers(5, 4, 3);
    assert_eq!(m.layer_len(), 20);
    assert_eq!(m.idx(0, 0), 0);
    assert_eq!(m.idx(3, 2), 13);
    assert_eq!(m.idx_layer(0, 3, 2), 13);
    assert_eq!(m.idx_layer(2, 1, 1), 46);
}

#[test]
fn ensure_layers_grows_and_keeps_layer_zero() {
    let mut m = TileMapData::new_with_layers(2, 2, 1);
    m.tiles[3] = tile("a", 7);
    m.ensure_layers(3);
    assert_eq!(m.layers, 3);
    assert_eq!(m.tiles.len(), 12);
    assert_eq!(m.tiles[3], tile("a", 7));
    assert!(m.tiles[4..].iter().all(|t| t.is_none()));
}

#[test]
fn ensure_layers_never_shrinks() {
    let mut m = TileMapData::new_with_layers(2, 2, 3);
    m.tiles[9] = tile("b", 1);
    m.ensure_layers(2);
    assert_eq!(m.layers, 3);
    assert_eq!(m.tiles.len(), 12);
    assert_eq!(m.tiles[9], tile("b", 1));
    m.ensure_layers(0);
    assert_eq!(m.layers, 3);
}

#[test]
fn topmost_layer_prefers_upper_layers() {
    let mut m = TileMapData::new_with_layers(3, 3, 3);
    assert_eq!(m.topmost_layer_at(1, 1), None);
    assert_eq!(m.topmost_idx_at(1, 1), None);
    let i0 = m.idx_layer(0, 1, 1);
    m.tiles[i0] = tile("a", 1);
    assert_eq!(m.topmost_layer_at(1, 1), Some(0));
    let i2 = m.idx_layer(2, 1, 1);
    m.tiles[i2] = tile("a", 2);
    assert_eq!(m.topmost_layer_at(1, 1), Some(2));
    assert_eq!(m.topmost_idx_at(1, 1), Some(i2));
    assert_eq!(m.topmost_layer_at(0, 0), None);
}

#[test]
fn topmost_layer_ignores_missing_cells() {
    let mut m = TileMapData::new_with_layers(2, 2, 3);
    m.tiles.truncate(5);
    m.tiles[4] = tile("x", 0);
    assert_eq!(m.topmost_layer_at(0, 0), Some(1));
    assert_eq!(m.topmost_layer_at(1, 1), None);
}

#[test]
fn topmost_on_map_without_layers() {
    let m = TileMapData { width: 2, height: 2, layers: 0, tiles: vec![tile("a", 0); 4] };
    assert_eq!(m.topmost_layer_at(0, 0), None);
}

#[test]
fn resize_keeps_overlap_and_clears_rest() {
    let mut old = TileMapData::new(3, 2);
    for y in 0..2 {
        for x in 0..3 {
            let i = old.idx_layer(1, x, y);
            old.tiles[i] = tile("t", 10 * y + x);
            let j = old.idx(x, y);
            old.tiles[j] = tile("g", 10 * y + x);
        }
    }
    let m = resized_map_copy(Some(&old), 2, 4);
    assert_eq!(m.width, 2);
    assert_eq!(m.height, 4);
    assert_eq!(m.layers, 2);
    assert_eq!(m.tiles.len(), 16);
    assert_eq!(m.tiles[m.idx(1, 1)], tile("g", 11));
    assert_eq!(m.tiles[m.idx_layer(1, 0, 1)], tile("t", 10));
    assert_eq!(m.tiles[m.idx(1, 2)], None);
    assert_eq!(m.tiles[m.idx_layer(1, 1, 3)], None);
}

#[test]
fn resize_from_nothing_is_empty() {
    let m = resized_map_copy(None, 3, 3);
    assert_eq!(m.layers, 2);
    assert!(m.tiles.iter().all(|t| t.is_none()));
}

#[test]
fn resize_copies_only_whole_old_layers() {
    let mut old = TileMapData::new_with_layers(2, 1, 3);
    old.tiles = vec![tile("a", 0), tile("a", 1), tile("b", 0)];
    let m = resized_map_copy(Some(&old), 2, 1);
    assert_eq!(m.tiles, vec![tile("a", 0), tile("a", 1), None, None]);
}

#[test]
fn resize_with_single_layer_source() {
    let mut old = TileMapData::new_with_layers(1, 1, 1);
    old.tiles[0] = tile("a", 3);
    let m = resized_map_copy(Some(&old), 2, 2);
    assert_eq!(m.tiles[0], tile("a", 3));
    assert_eq!(m.tiles.iter().filter(|t| t.is_some()).count(), 1);
}

#[test]
fn map_for_size_refuses_zero() {
    assert!(map_for_size(None, 0, 5).is_none());
    assert!(map_for_size(None, 5, 0).is_none());
    let m = map_for_size(None, 5, 6).unwrap();
    assert_eq!((m.width, m.height, m.tiles.len()), (5, 6, 60));
}

#[test]
fn flip_flags_for_each_rotation() {
    let mut t = TileRef { tileset_id: "a".to_string(), index: 0, rot: 0, flip_x: true, flip_y: false };
    assert_eq!(tile_flip_from_ref(&t), TileFlip { x: true, y: false, d: false });
    t.rot = 1;
    assert_eq!(tile_flip_from_ref(&t), TileFlip { x: false, y: false, d: true });
    t.rot = 2;
    assert_eq!(tile_flip_from_ref(&t), TileFlip { x: false, y: true, d: false });
    t.rot = 3;
    assert_eq!(tile_flip_from_ref(&t), TileFlip { x: true, y: true, d: true });
    t.rot = 7;
    assert_eq!(tile_flip_from_ref(&t), TileFlip { x: true, y: true, d: true });
}

#[test]
fn resize_of_short_data_carries_nothing() {
    let old = TileMapData { width: 2, height: 2, layers: 1, tiles: vec![] };
    let m = resized_map_copy(Some(&old), 2, 2);
    assert_eq!((m.width, m.height, m.layers), (2, 2, 2));
    assert_eq!(m.tiles, vec![None; 8]);
    let short = TileMapData { width: 2, height: 2, layers: 2, tiles: vec![tile("a", 0), tile("a", 1)] };
    let m = resized_map_copy(Some(&short), 3, 3);
    assert!(m.tiles.iter().all(|t| t.is_none()));
}

#[test]
fn resize_carries_one_layer_when_none_declared() {
    let old = TileMapData { width: 2, height: 2, layers: 0, tiles: vec![tile("a", 0), None, None, tile("a", 3)] };
    let m = resized_map_copy(Some(&old), 2, 2);
    assert_eq!(m.tiles[0], tile("a", 0));
    assert_eq!(m.tiles[3], tile("a", 3));
    assert!(m.tiles[4..].iter().all(|t| t.is_none()));
}
