//! Editor state and the decisions behind its tools, menus, layers and HUD.
use vstd::prelude::*;

verus! {

/// The painting and editing tools.
#[derive(Clone, Copy, Debug, PartialEq, Eq, Structural)]
pub enum ToolKind {
    Pencil,
    Eraser,
    Rect,
    Fill,
    Select,
    Paste,
    Eyedropper,
}

impl Default for ToolKind {
    fn default() -> (r: Self)
        ensures
            r == ToolKind::Pencil,
    {
        ToolKind::Pencil
    }
}

/// The position of a tool in the tool list (its number in the menu signature).
pub open spec fn tool_number(t: ToolKind) -> u64 {
    match t {
        ToolKind::Pencil => 0,
        ToolKind::Eraser => 1,
        ToolKind::Rect => 2,
        ToolKind::Fill => 3,
        ToolKind::Select => 4,
        ToolKind::Paste => 5,
        ToolKind::Eyedropper => 6,
    }
}

/// The position of a tool in the tool list.
pub fn tool_index(t: ToolKind) -> (r: u64)
    ensures
        r == tool_number(t),
{
    match t {
        ToolKind::Pencil => 0,
        ToolKind::Eraser => 1,
        ToolKind::Rect => 2,
        ToolKind::Fill => 3,
        ToolKind::Select => 4,
        ToolKind::Paste => 5,
        ToolKind::Eyedropper => 6,
    }
}

/// The active tool, and the tool to go back to after a one-shot paste.
#[derive(Debug)]
pub struct ToolState {
    pub tool: ToolKind,
    pub return_after_paste: Option<ToolKind>,
}

impl Default for ToolState {
    fn default() -> (r: Self)
        ensures
            r.tool == ToolKind::Pencil,
            r.return_after_paste is None,
    {
        ToolState { tool: ToolKind::Pencil, return_after_paste: None }
    }
}

/// Rotation (clockwise quarter turns) and mirrors applied to pasted tiles.
#[derive(Clone, Copy, Debug, PartialEq, Eq, Structural)]
pub struct PasteState {
    pub rot: u8,
    pub flip_x: bool,
    pub flip_y: bool,
}

impl Default for PasteState {
    fn default() -> (r: Self)
        ensures
            r == (PasteState { rot: 0, flip_x: false, flip_y: false }),
    {
        PasteState { rot: 0, flip_x: false, flip_y: false }
    }
}

/// Picks `next` as the active tool; picking the paste tool starts from an
/// untransformed paste.
pub fn select_tool(tools: &mut ToolState, paste: &mut PasteState, next: ToolKind)
    ensures
        final(tools).tool == next,
        final(tools).return_after_paste == old(tools).return_after_paste,
        next == ToolKind::Paste ==> *final(paste) == (PasteState { rot: 0, flip_x: false, flip_y: false }),
        next != ToolKind::Paste ==> *final(paste) == *old(paste),
{
    tools.tool = next;
    if next == ToolKind::Paste {
        *paste = PasteState::default();
    }
}

/// What shifting the map does with cells pushed over the edge.
#[derive(Clone, Copy, Debug, PartialEq, Eq, Structural)]
pub enum ShiftMapMode {
    /// They are dropped and the freed cells are empty.
    Blank,
    /// They come back in on the other side.
    Wrap,
}

impl Default for ShiftMapMode {
    fn default() -> (r: Self)
        ensures
            r == ShiftMapMode::Blank,
    {
        ShiftMapMode::Blank
    }
}

impl ShiftMapMode {
    /// The other mode.
    pub fn toggled(self) -> (r: Self)
        ensures
            r != self,
            r.toggled_spec() == self,
    {
        match self {
            ShiftMapMode::Blank => ShiftMapMode::Wrap,
            ShiftMapMode::Wrap => ShiftMapMode::Blank,
        }
    }

    /// The other mode.
    pub open spec fn toggled_spec(self) -> ShiftMapMode {
        match self {
            ShiftMapMode::Blank => ShiftMapMode::Wrap,
            ShiftMapMode::Wrap => ShiftMapMode::Blank,
        }
    }
}

/// Toggling the shift mode twice gives the mode back.
pub proof fn lemma_shift_mode_toggle_twice(m: ShiftMapMode)
    ensures
        m.toggled_spec().toggled_spec() == m,
{
}

/// Square brush size in cells.
#[derive(Clone, Copy, Debug)]
pub struct BrushSettings {
    pub size: u32,
}

impl Default for BrushSettings {
    fn default() -> (r: Self)
        ensures
            r.size == 1,
    {
        BrushSettings { size: 1 }
    }
}

/// The tile picked in the palette.
#[derive(Debug)]
pub struct EditorState {
    pub selected_tile: u32,
}

impl Default for EditorState {
    fn default() -> (r: Self)
        ensures
            r.selected_tile == 0,
    {
        EditorState { selected_tile: 0 }
    }
}

/// The layer being edited (0 is the bottom layer).
#[derive(Clone, Copy, Debug)]
pub struct LayerState {
    pub active: u32,
}

impl Default for LayerState {
    fn default() -> (r: Self)
        ensures
            r.active == 0,
    {
        LayerState { active: 0 }
    }
}

/// The number of layers the layer controls work with: the map's layer
/// count, at least 1; 1 without a map.
pub open spec fn layer_total(map_layers: Option<u32>) -> u32 {
    match map_layers {
        Some(l) => if l == 0 {
            1
        } else {
            l
        },
        None => 1,
    }
}

/// The layer below `active`, staying at 0.
pub open spec fn layer_below(active: u32) -> u32 {
    if active == 0 {
        0
    } else {
        (active - 1) as u32
    }
}

/// The layer above `active`, staying at the top layer of `total` layers.
pub open spec fn layer_above(active: u32, total: u32) -> u32 {
    if total == 0 {
        0
    } else if active + 1 <= total - 1 {
        (active + 1) as u32
    } else {
        (total - 1) as u32
    }
}

/// The layer below `active` (staying at 0).
pub fn layer_prev(active: u32) -> (r: u32)
    ensures
        r == layer_below(active),
{
    if active == 0 {
        0
    } else {
        active - 1
    }
}

/// The layer above `active`, staying at the top layer of `total` layers.
pub fn layer_next(active: u32, total: u32) -> (r: u32)
    requires
        active < u32::MAX,
    ensures
        r == layer_above(active, total),
{
    let max_layer: u32 = if total == 0 { 0 } else { total - 1 };
    if active + 1 <= max_layer {
        active + 1
    } else {
        max_layer
    }
}

/// Moving a layer up and back down returns to the starting layer when
/// there is a layer above it; moving up never leaves the `total` layers, and
/// at the top it stays on the top layer.
pub proof fn lemma_layer_up_down(active: u32, total: u32)
    requires
        total >= 1,
    ensures
        layer_above(active, total) < total,
        active + 1 < total ==> layer_below(layer_above(active, total)) == active,
        active + 1 >= total ==> layer_above(active, total) == total - 1,
{
}

/// `active` brought inside `total` layers (`total` at least 1).
pub fn clamp_layer(active: u32, total: u32) -> (r: u32)
    requires
        total >= 1,
    ensures
        r == if active >= total {
            (total - 1) as u32
        } else {
            active
        },
        r < total,
{
    if active >= total {
        total - 1
    } else {
        active
    }
}

/// The name the HUD gives a layer: `Ground` for 0, `Upper` for 1, `Other` above.
pub fn hud_layer_name(layer: u32) -> (r: &'static str)
    ensures
        layer == 0 ==> r@ == "Ground"@,
        layer == 1 ==> r@ == "Upper"@,
        layer >= 2 ==> r@ == "Other"@,
{
    if layer == 0 {
        "Ground"
    } else if layer == 1 {
        "Upper"
    } else {
        "Other"
    }
}

/// The HUD's layer line: the active layer brought inside the map's layers
/// and the layer count; without a map, the active layer as is and 1.
pub fn hud_layer_position(active: u32, map_layers: Option<u32>) -> (r: (u32, u32))
    ensures
        r.1 == layer_total(map_layers),
        map_layers is Some ==> r.0 == if active <= r.1 - 1 {
            active
        } else {
            (r.1 - 1) as u32
        },
        map_layers is None ==> r.0 == active,
{
    match map_layers {
        Some(l) => {
            let total: u32 = if l == 0 { 1 } else { l };
            let a = if active <= total - 1 { active } else { total - 1 };
            (a, total)
        },
        None => (active, 1),
    }
}

/// `selected` brought inside a sheet of `columns` by `rows` tiles (the tile
/// count saturates at `u32::MAX` and is at least 1).
pub fn clamp_selected_tile(selected: u32, columns: u32, rows: u32) -> (r: u32)
    ensures
        ({
            let n = crate::palette::sheet_tile_count(columns, rows);
            let count: u32 = if n == 0 {
                1
            } else {
                n
            };
            r == if selected <= count - 1 {
                selected
            } else {
                (count - 1) as u32
            }
        }),
{
    let n = crate::palette::saturating_product(columns, rows);
    let count: u32 = if n == 0 { 1 } else { n };
    if selected <= count - 1 {
        selected
    } else {
        count - 1
    }
}

/// The top menus.
#[derive(Clone, Copy, Debug, PartialEq, Eq, Structural)]
pub enum MenuId {
    File,
    Edit,
    View,
    MapMenu,
    Layer,
    Help,
}

/// Which top menu is open.
#[derive(Debug)]
pub struct MenuState {
    pub open: Option<MenuId>,
}

/// The open menu after clicking menu `id`.
pub open spec fn menu_after_click(open: Option<MenuId>, id: MenuId) -> Option<MenuId> {
    if open == Some(id) {
        None
    } else {
        Some(id)
    }
}

/// Clicking menu `id` opens it, or closes it when it is already open.
pub fn toggle_menu(open: Option<MenuId>, id: MenuId) -> (r: Option<MenuId>)
    ensures
        r == menu_after_click(open, id),
{
    match open {
        Some(o) => if o == id {
            None
        } else {
            Some(id)
        },
        None => Some(id),
    }
}

/// Clicking the same menu twice gives back the previous state when no other
/// menu was open.
pub proof fn lemma_menu_click_twice(open: Option<MenuId>, id: MenuId)
    requires
        open is None || open == Some(id),
    ensures
        menu_after_click(menu_after_click(open, id), id) == open,
{
}

} // verus!
