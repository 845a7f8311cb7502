use tilemap_editor::library::{
    active_tileset_label, cycle_category, import_tileset, library_after_load, merge_tilesets_from_map,
    next_category, select_tileset, tileset_menu_items, tilesets_for_map, TilesetEntry, TilesetLibrary,
};
use tilemap_editor::tile::TileRef;
use tilemap_editor::tilemap::TileMapData;

fn entry(id: &str, name: &str, category: &str, path: &str) -> TilesetEntry {
    TilesetEntry {
        id: id.to_string(),
        name: name.to_string(),
        category: category.to_string(),
        asset_path: path.to_string(),
    }
}

fn lib_with(entries: Vec<TilesetEntry>) -> TilesetLibrary {
    TilesetLibrary { entries, active_id: None, active_category: String::new() }
}

#[test]
fn merge_adds_unknown_and_fills_known() {
    let mut lib = lib_with(vec![entry("a", " ", "", "")]);
    let loads = merge_tilesets_from_map(
        &mut lib,
        vec![
            entry("a", "Grass", "nature", "tilesets/a.png"),
            entry("  ", "ignored", "x", "tilesets/x.png"),
            entry("b", "Walls", "town", ""),
        ],
    );
    assert_eq!(lib.entries.len(), 2);
    assert_eq!(lib.entries[0].name, "Grass");
    assert_eq!(lib.entries[0].category, "nature");
    assert_eq!(lib.entries[0].asset_path, "tilesets/a.png");
    assert_eq!(lib.entries[1].name, "Walls");
    assert_eq!(lib.active_id.as_deref(), Some("a"));
    assert_eq!(loads.len(), 1);
    assert_eq!((loads[0].id.as_str(), loads[0].asset_path.as_str()), ("a", "tilesets/a.png"));
}

#[test]
fn merge_keeps_existing_values() {
    let mut lib = lib_with(vec![entry("a", "Mine", "cat", "p.png")]);
    lib.active_id = Some("z".to_string());
    merge_tilesets_from_map(&mut lib, vec![entry("a", "Theirs", "other", "q.png")]);
    assert_eq!(lib.entries[0].name, "Mine");
    assert_eq!(lib.entries[0].category, "cat");
    assert_eq!(lib.entries[0].asset_path, "p.png");
    assert_eq!(lib.active_id.as_deref(), Some("z"));
}

#[test]
fn import_adds_entry_with_hash_id() {
    let mut lib = TilesetLibrary::new();
    let load = import_tileset(&mut lib, b"", "tilesets", "grass.png", "grass".to_string());
    let id = "af1349b9f5f9a1a6a0404dea36dcc9499bcb25c9adc112b7cc9a93cae41f3262";
    assert_eq!(load.id, id);
    assert_eq!(load.asset_path, "tilesets/grass.png");
    assert_eq!(lib.entries.len(), 1);
    assert_eq!(lib.entries[0].category, "default");
    assert_eq!(lib.entries[0].name, "grass");
    assert_eq!(lib.active_id.as_deref(), Some(id));
}

#[test]
fn reimport_updates_path_only() {
    let mut lib = TilesetLibrary::new();
    import_tileset(&mut lib, b"img", "tilesets", "a.png", "a".to_string());
    lib.entries[0].category = "terrain".to_string();
    import_tileset(&mut lib, b"img", "new", "b.png", "b".to_string());
    assert_eq!(lib.entries.len(), 1);
    assert_eq!(lib.entries[0].asset_path, "new/b.png");
    assert_eq!(lib.entries[0].name, "a");
    assert_eq!(lib.entries[0].category, "terrain");
}

#[test]
fn startup_loads_and_default_active() {
    let mut lib = lib_with(vec![entry("a", "A", "", "a.png"), entry("b", "B", "", ""), entry("c", "C", "", "c.png")]);
    let loads = library_after_load(&mut lib);
    let ids: Vec<&str> = loads.iter().map(|l| l.id.as_str()).collect();
    assert_eq!(ids, vec!["a", "c"]);
    assert_eq!(lib.active_id.as_deref(), Some("a"));
    let mut empty = TilesetLibrary::new();
    assert!(library_after_load(&mut empty).is_empty());
    assert!(empty.active_id.is_none());
}

#[test]
fn map_carries_used_tilesets() {
    let lib = lib_with(vec![entry("b", "Bee", "x", "b.png")]);
    let mut m = TileMapData::new_with_layers(2, 2, 1);
    let t = |id: &str| Some(TileRef { tileset_id: id.to_string(), index: 0, rot: 0, flip_x: false, flip_y: false });
    m.tiles = vec![t("a"), t("b"), t("a"), t("")];
    let sets = tilesets_for_map(&m, &lib);
    assert_eq!(sets.len(), 2);
    assert_eq!(sets[0].id, "a");
    assert_eq!(sets[0].name, "a");
    assert_eq!(sets[0].category, "default");
    assert_eq!(sets[0].asset_path, "");
    assert_eq!(sets[1].name, "Bee");
    assert_eq!(sets[1].asset_path, "b.png");
}

#[test]
fn category_cycle_visits_all_then_back() {
    let mut lib = lib_with(vec![
        entry("1", "", " town ", ""),
        entry("2", "", "", ""),
        entry("3", "", "nature", ""),
        entry("4", "", "town", ""),
    ]);
    assert_eq!(next_category(&lib), "nature");
    cycle_category(&mut lib);
    assert_eq!(lib.active_category, "nature");
    cycle_category(&mut lib);
    assert_eq!(lib.active_category, "town");
    cycle_category(&mut lib);
    assert_eq!(lib.active_category, "");
    lib.active_category = "unknown".to_string();
    assert_eq!(next_category(&lib), "");
    assert_eq!(next_category(&lib_with(Vec::new())), "");
}

#[test]
fn category_cycle_returns_after_each_category() {
    let mut lib = lib_with(vec![
        entry("1", "", "b", ""),
        entry("2", "", "a", ""),
        entry("3", "", " a ", ""),
        entry("4", "", "", ""),
    ]);
    let mut seen = Vec::new();
    for _ in 0..3 {
        cycle_category(&mut lib);
        seen.push(lib.active_category.clone());
    }
    assert_eq!(seen, vec!["a".to_string(), "b".to_string(), String::new()]);
}

#[test]
fn active_label_fallbacks() {
    let mut lib = lib_with(vec![entry("a", "Grass", "", "a.png"), entry("b", " ", "", "b.png"), entry("c", "", "", " ")]);
    assert_eq!(active_tileset_label(&lib), None);
    lib.active_id = Some("a".to_string());
    assert_eq!(active_tileset_label(&lib).as_deref(), Some("Grass"));
    select_tileset(&mut lib, "b".to_string());
    assert_eq!(active_tileset_label(&lib).as_deref(), Some("b.png"));
    select_tileset(&mut lib, "c".to_string());
    assert_eq!(active_tileset_label(&lib).as_deref(), Some("c"));
    select_tileset(&mut lib, "zz".to_string());
    assert_eq!(active_tileset_label(&lib).as_deref(), Some("zz"));
}

#[test]
fn menu_lists_category_entries() {
    let mut lib = lib_with(vec![entry("a", "Grass", "nature", ""), entry("b", "", "town", "b.png"), entry("c", "Sky", "", "")]);
    lib.active_id = Some("b".to_string());
    let all = tileset_menu_items(&lib);
    let labels: Vec<&str> = all.iter().map(|i| i.label.as_str()).collect();
    assert_eq!(labels, vec!["Grass  [nature]", "b.png  [town]", "Sky"]);
    assert_eq!(all.iter().map(|i| i.active).collect::<Vec<bool>>(), vec![false, true, false]);
    lib.active_category = " town".to_string();
    let town = tileset_menu_items(&lib);
    assert_eq!(town.len(), 1);
    assert_eq!(town[0].id, "b");
}
