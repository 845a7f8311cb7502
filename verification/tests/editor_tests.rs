use tilemap_editor::editor::{
    clamp_layer, clamp_selected_tile, hud_layer_name, hud_layer_position, layer_next, layer_prev,
    select_tool, toggle_menu, MenuId, PasteState, ShiftMapMode, ToolKind, ToolState,
};
use tilemap_editor::entities::TileEntities;
use tilemap_editor::input::{
    requested_map_size, resolved_layer_name, parse_u32_strict, LayerNameInput, MapSizeFocus, MapSizeInput,
    PaletteSearchInput, TextKey,
};
use tilemap_editor::menus::{
    context_menu_entries, menu_signature, tile_under_cursor, ContextMenuAction, ContextMenuCommand,
    ContextMenuEntry, ContextMenuState, MenuContext,
};
use tilemap_editor::render::{cell_at, loading_step, tile_render_ops, LoadOutcome, RenderOp};
use tilemap_editor::selection::{paste_dims, paste_degrees, rect_from_two, CellPos, Clipboard, SelectionRect};
use tilemap_editor::tile::TileRef;
use tilemap_editor::tilemap::TileMapData;

fn ctx(tool: ToolKind) -> MenuContext {
    MenuContext {
        tool,
        can_undo: false,
        can_redo: false,
        has_selection: false,
        has_clipboard: false,
        tile_under_cursor: false,
    }
}

#[test]
fn tool_selection_resets_paste() {
    let mut tools = ToolState::default();
    assert_eq!(tools.tool, ToolKind::Pencil);
    let mut paste = PasteState { rot: 3, flip_x: true, flip_y: false };
    select_tool(&mut tools, &mut paste, ToolKind::Fill);
    assert_eq!(paste.rot, 3);
    select_tool(&mut tools, &mut paste, ToolKind::Paste);
    assert_eq!(tools.tool, ToolKind::Paste);
    assert_eq!(paste, PasteState::default());
}

#[test]
fn shift_mode_toggles() {
    assert_eq!(ShiftMapMode::default(), ShiftMapMode::Blank);
    assert_eq!(ShiftMapMode::Blank.toggled(), ShiftMapMode::Wrap);
    assert_eq!(ShiftMapMode::Wrap.toggled(), ShiftMapMode::Blank);
}

#[test]
fn layer_navigation() {
    assert_eq!(layer_prev(0), 0);
    assert_eq!(layer_prev(3), 2);
    assert_eq!(layer_next(0, 2), 1);
    assert_eq!(layer_next(1, 2), 1);
    assert_eq!(layer_next(5, 0), 0);
    assert_eq!(clamp_layer(7, 3), 2);
    assert_eq!(clamp_layer(1, 3), 1);
    assert_eq!(hud_layer_position(4, Some(2)), (1, 2));
    assert_eq!(hud_layer_position(4, Some(0)), (0, 1));
    assert_eq!(hud_layer_position(4, None), (4, 1));
    assert_eq!(hud_layer_name(0), "Ground");
    assert_eq!(hud_layer_name(1), "Upper");
    assert_eq!(hud_layer_name(9), "Other");
}

#[test]
fn selected_tile_clamped_to_sheet() {
    assert_eq!(clamp_selected_tile(50, 4, 4), 15);
    assert_eq!(clamp_selected_tile(3, 4, 4), 3);
    assert_eq!(clamp_selected_tile(3, 0, 4), 0);
}

#[test]
fn menus_toggle_open() {
    assert_eq!(toggle_menu(None, MenuId::File), Some(MenuId::File));
    assert_eq!(toggle_menu(Some(MenuId::File), MenuId::File), None);
    assert_eq!(toggle_menu(Some(MenuId::Edit), MenuId::MapMenu), Some(MenuId::MapMenu));
}

#[test]
fn selection_rect_sizes() {
    let r = rect_from_two(CellPos { x: 5, y: 1 }, CellPos { x: 2, y: 4 });
    assert_eq!(r, SelectionRect { min: CellPos { x: 2, y: 1 }, max: CellPos { x: 5, y: 4 } });
    assert_eq!((r.width(), r.height()), (4, 4));
    let odd = SelectionRect { min: CellPos { x: 5, y: 5 }, max: CellPos { x: 1, y: 5 } };
    assert_eq!((odd.width(), odd.height()), (1, 1));
}

#[test]
fn paste_size_and_angle() {
    let p = PasteState { rot: 1, flip_x: false, flip_y: false };
    assert_eq!(paste_dims(3, 2, &p), (2, 3));
    assert_eq!(paste_degrees(&p), 90);
    let q = PasteState { rot: 6, flip_x: false, flip_y: false };
    assert_eq!(paste_dims(3, 2, &q), (3, 2));
    assert_eq!(paste_degrees(&q), 180);
    let mut c = Clipboard::new();
    assert!(!c.has_content());
    c.width = 1;
    c.height = 1;
    c.tiles.push(None);
    assert!(c.has_content());
}

#[test]
fn signature_bits() {
    let mut c = ctx(ToolKind::Paste);
    assert_eq!(menu_signature(&c), 5);
    c.can_undo = true;
    c.has_clipboard = true;
    assert_eq!(menu_signature(&c), 5 ^ (1 << 4) ^ (1 << 16));
    c.tile_under_cursor = true;
    assert_eq!(menu_signature(&c), 5 ^ (1 << 4) ^ (1 << 16));
}

#[test]
fn context_menu_lines() {
    let base = context_menu_entries(&ctx(ToolKind::Pencil));
    assert_eq!(base.len(), 11);
    assert_eq!(base[0], ContextMenuEntry::Item(ContextMenuAction::Undo, false));
    assert_eq!(base[9], ContextMenuEntry::Item(ContextMenuAction::SelectionSelectAll, true));
    let mut c = ctx(ToolKind::Paste);
    c.tile_under_cursor = true;
    let full = context_menu_entries(&c);
    assert_eq!(full.len(), 18);
    assert_eq!(full[11], ContextMenuEntry::Separator);
    assert_eq!(full[17], ContextMenuEntry::Item(ContextMenuAction::ExitPaste, true));
    c.tool = ToolKind::Select;
    assert_eq!(context_menu_entries(&c).len(), 17);
}

#[test]
fn context_menu_clicks() {
    let mut st = ContextMenuState::default();
    let mut cmd = ContextMenuCommand::default();
    st.click_item(&mut cmd, ContextMenuAction::Undo, true);
    assert!(cmd.action.is_none() && !st.consume_left_click);
    st.open = true;
    assert!(st.needs_rebuild(9));
    assert!(!st.needs_rebuild(9));
    st.click_item(&mut cmd, ContextMenuAction::Redo, false);
    assert!(st.open && st.consume_left_click && cmd.action.is_none());
    st.click_item(&mut cmd, ContextMenuAction::Redo, true);
    assert!(!st.open);
    assert_eq!(cmd.action, Some(ContextMenuAction::Redo));
    st.open = true;
    st.consume_left_click = false;
    st.click_backdrop();
    assert!(!st.open && st.consume_left_click);
}

#[test]
fn cursor_tile_lookup() {
    let mut m = TileMapData::new(3, 3);
    let i = m.idx(2, 1);
    m.tiles[i] = Some(TileRef { tileset_id: "a".to_string(), index: 1, rot: 0, flip_x: false, flip_y: false });
    assert!(tile_under_cursor(Some(&m), Some((2, 1))));
    assert!(!tile_under_cursor(Some(&m), Some((1, 1))));
    assert!(!tile_under_cursor(Some(&m), Some((3, 1))));
    assert!(!tile_under_cursor(None, Some((2, 1))));
    let mut upper = TileMapData::new_with_layers(1, 1, 2);
    assert!(!tile_under_cursor(Some(&upper), Some((0, 0))));
    let j = upper.idx_layer(1, 0, 0);
    upper.tiles[j] = Some(TileRef { tileset_id: "b".to_string(), index: 2, rot: 0, flip_x: false, flip_y: false });
    assert!(tile_under_cursor(Some(&upper), Some((0, 0))));
    let mut c = ctx(ToolKind::Pencil);
    c.tile_under_cursor = tile_under_cursor(Some(&upper), Some((0, 0)));
    assert!(context_menu_entries(&c).contains(&ContextMenuEntry::Item(ContextMenuAction::PasteRotateCw, true)));
    assert_eq!(cell_at(2, 1, 3, 3), Some(CellPos { x: 2, y: 1 }));
    assert_eq!(cell_at(-1, 1, 3, 3), None);
    assert_eq!(cell_at(3, 1, 3, 3), None);
}

#[test]
fn render_updates_for_cell_changes() {
    let t = |id: &str| Some(TileRef { tileset_id: id.to_string(), index: 0, rot: 0, flip_x: false, flip_y: false });
    let ids = |ops: Vec<RenderOp>| -> Vec<String> {
        ops.into_iter()
            .map(|o| match o {
                RenderOp::Remove(s) => format!("-{s}"),
                RenderOp::Show(s) => format!("+{s}"),
            })
            .collect()
    };
    assert_eq!(ids(tile_render_ops(&t("a"), &t("b"))), vec!["-a", "+b"]);
    assert_eq!(ids(tile_render_ops(&t("a"), &t("a"))), vec!["+a"]);
    assert_eq!(ids(tile_render_ops(&None, &t("a"))), vec!["+a"]);
    assert_eq!(ids(tile_render_ops(&t("a"), &None)), vec!["-a", "-a"]);
    assert!(tile_render_ops(&None, &None).is_empty());
}

#[test]
fn tileset_loading_decisions() {
    assert_eq!(loading_step(true, Some((64, 64)), 32, 32), LoadOutcome::AlreadyLoaded);
    assert_eq!(loading_step(false, None, 32, 32), LoadOutcome::Waiting);
    assert_eq!(loading_step(false, Some((64, 16)), 32, 32), LoadOutcome::TooSmall);
    assert_eq!(loading_step(false, Some((64, 96)), 32, 32), LoadOutcome::Ready(2, 3));
}

#[test]
fn map_size_fields() {
    let mut input = MapSizeInput {
        width_buf: "40".to_string(),
        height_buf: "25".to_string(),
        focus: MapSizeFocus::NoField,
        apply_requested: false,
    };
    input.type_key(TextKey::Char('7'));
    assert_eq!(input.width_buf, "40");
    input.focus = MapSizeFocus::Width;
    for c in ['1', '2', '3', '4'] {
        input.type_key(TextKey::Char(c));
    }
    assert_eq!(input.width_buf, "40123");
    input.type_key(TextKey::Backspace);
    input.type_key(TextKey::Enter);
    assert_eq!(input.width_buf, "4012");
    assert!(input.apply_requested);
    assert_eq!(input.focus, MapSizeFocus::NoField);
    assert_eq!(requested_map_size(&input), Some((4012, 25)));
    input.height_buf = "0".to_string();
    assert_eq!(requested_map_size(&input), None);
    input.sync_from_size(64, 36);
    assert_eq!((input.width_buf.as_str(), input.height_buf.as_str()), ("64", "36"));
    assert_eq!(parse_u32_strict("+12"), Some(12));
    assert_eq!(parse_u32_strict(" 12"), None);
    assert_eq!(parse_u32_strict(""), None);
}

#[test]
fn name_and_search_fields() {
    let mut name = LayerNameInput { buf: String::new(), focused: true, apply_requested: false };
    name.type_key(TextKey::Char('a'));
    name.type_key(TextKey::Escape);
    name.type_key(TextKey::Char('b'));
    assert_eq!(name.buf, "a");
    assert!(!name.focused);
    assert_eq!(resolved_layer_name("  ", 1), "Layer 2");
    assert_eq!(resolved_layer_name(" Trees ", 0), "Trees");

    let mut search = PaletteSearchInput { buf: "x".repeat(32), focused: true };
    assert!(!search.type_key(TextKey::Char('y')));
    assert!(search.type_key(TextKey::Backspace));
    assert!(search.type_key(TextKey::Char('y')));
    search.buf.clear();
    assert!(!search.type_key(TextKey::Backspace));
    assert!(!search.type_key(TextKey::Enter));
    assert!(!search.focused);
}

#[test]
fn tilemap_entity_index() {
    let mut e = TileEntities::new(4, 4, 0);
    assert_eq!(e.layers, 1);
    e.layers = 3;
    let a = "a".to_string();
    assert_eq!(e.layer_entity(&a, 0), None);
    e.set_layer_entity(a.clone(), 1, 77);
    assert_eq!(e.layer_entity(&a, 1), Some(77));
    assert_eq!(e.layer_entity(&a, 0), None);
    assert_eq!(e.tilemaps[0].layers.len(), 3);
    e.set_layer_entity("b".to_string(), 5, 9);
    assert_eq!(e.layer_entity(&"b".to_string(), 5), None);
    e.set_layer_entity(a.clone(), 2, 78);
    assert_eq!(e.all_tilemap_entities(), vec![77, 78]);
    assert_eq!(e.tileset_index(&a), 0);
    assert_eq!(e.tileset_index(&"b".to_string()), 1);
    assert_eq!(e.tileset_index(&a), 0);
    assert_eq!(e.tileset_order.len(), 2);
}
