//! The right-click context menu: which entries it shows, which are enabled,
//! and when it must be rebuilt.
use vstd::prelude::*;

use crate::editor::{tool_index, tool_number, ToolKind};
use crate::tilemap::TileMapData;

verus! {

/// The commands of the context menu.
#[derive(Clone, Copy, Debug, PartialEq, Eq, Structural)]
pub enum ContextMenuAction {
    Undo,
    Redo,
    EnterPaste,
    SelectionCopy,
    SelectionCut,
    SelectionDelete,
    SelectionSelectAll,
    SelectionDeselect,
    PasteRotateCcw,
    PasteRotateCw,
    PasteFlipX,
    PasteFlipY,
    PasteReset,
    ExitPaste,
}

/// One line of the context menu.
#[derive(Clone, Copy, Debug, PartialEq, Eq, Structural)]
pub enum ContextMenuEntry {
    /// A command, enabled or greyed out.
    Item(ContextMenuAction, bool),
    /// A separating rule.
    Separator,
}

/// What the context menu depends on.
#[derive(Clone, Copy, Debug, PartialEq, Eq, Structural)]
pub struct MenuContext {
    pub tool: ToolKind,
    pub can_undo: bool,
    pub can_redo: bool,
    pub has_selection: bool,
    pub has_clipboard: bool,
    pub tile_under_cursor: bool,
}

/// A number that changes whenever the tool, the undo and redo
/// availability, the selection or the clipboard presence changes.
pub open spec fn signature_of(c: MenuContext) -> u64 {
    let t = tool_number(c.tool);
    let u: u64 = if c.can_undo { 1 } else { 0 };
    let r: u64 = if c.can_redo { 1 } else { 0 };
    let s: u64 = if c.has_selection { 1 } else { 0 };
    let k: u64 = if c.has_clipboard { 1 } else { 0 };
    t ^ ((u << 4u64) as u64) ^ ((r << 5u64) as u64) ^ ((s << 8u64) as u64) ^ ((k << 16u64) as u64)
}

/// The rebuild signature of the context menu.
pub fn menu_signature(c: &MenuContext) -> (r: u64)
    ensures
        r == signature_of(*c),
{
    let t = tool_index(c.tool);
    let u: u64 = if c.can_undo { 1 } else { 0 };
    let r: u64 = if c.can_redo { 1 } else { 0 };
    let s: u64 = if c.has_selection { 1 } else { 0 };
    let k: u64 = if c.has_clipboard { 1 } else { 0 };
    t ^ (u << 4u64) ^ (r << 5u64) ^ (s << 8u64) ^ (k << 16u64)
}

/// Menus that differ in their tool, undo, redo, selection or clipboard
/// state get different signatures.
pub proof fn lemma_signature_separates(a: MenuContext, b: MenuContext)
    requires
        signature_of(a) == signature_of(b),
    ensures
        a.tool == b.tool,
        a.can_undo == b.can_undo,
        a.can_redo == b.can_redo,
        a.has_selection == b.has_selection,
        a.has_clipboard == b.has_clipboard,
{
    let ta = tool_number(a.tool);
    let tb = tool_number(b.tool);
    let ua: u64 = if a.can_undo { 1 } else { 0 };
    let ra: u64 = if a.can_redo { 1 } else { 0 };
    let sa: u64 = if a.has_selection { 1 } else { 0 };
    let ka: u64 = if a.has_clipboard { 1 } else { 0 };
    let ub: u64 = if b.can_undo { 1 } else { 0 };
    let rb: u64 = if b.can_redo { 1 } else { 0 };
    let sb: u64 = if b.has_selection { 1 } else { 0 };
    let kb: u64 = if b.has_clipboard { 1 } else { 0 };
    assert(ta < 8 && tb < 8);
    assert((ta ^ ((ua << 4u64) as u64) ^ ((ra << 5u64) as u64) ^ ((sa << 8u64) as u64) ^ ((ka << 16u64) as u64))
        == (tb ^ ((ub << 4u64) as u64) ^ ((rb << 5u64) as u64) ^ ((sb << 8u64) as u64) ^ ((kb << 16u64) as u64))
        ==> ta == tb && ua == ub && ra == rb && sa == sb && ka == kb) by (bit_vector)
        requires
            ta < 8,
            tb < 8,
            ua < 2,
            ra < 2,
            sa < 2,
            ka < 2,
            ub < 2,
            rb < 2,
            sb < 2,
            kb < 2,
    ;
}

/// The lines of the context menu: undo and redo; paste; copy, cut, delete;
/// select all and deselect; then, when the clipboard or the cell under the
/// cursor has something to transform, the rotate, flip and reset commands,
/// and leaving paste mode while the paste tool is active.
pub open spec fn menu_entries(c: MenuContext) -> Seq<ContextMenuEntry> {
    let base = seq![
        ContextMenuEntry::Item(ContextMenuAction::Undo, c.can_undo),
        ContextMenuEntry::Item(ContextMenuAction::Redo, c.can_redo),
        ContextMenuEntry::Separator,
        ContextMenuEntry::Item(ContextMenuAction::EnterPaste, c.has_clipboard),
        ContextMenuEntry::Separator,
        ContextMenuEntry::Item(ContextMenuAction::SelectionCopy, c.has_selection),
        ContextMenuEntry::Item(ContextMenuAction::SelectionCut, c.has_selection),
        ContextMenuEntry::Item(ContextMenuAction::SelectionDelete, c.has_selection),
        ContextMenuEntry::Separator,
        ContextMenuEntry::Item(ContextMenuAction::SelectionSelectAll, true),
        ContextMenuEntry::Item(ContextMenuAction::SelectionDeselect, c.has_selection),
    ];
    let can_transform = c.has_clipboard || c.tile_under_cursor;
    if can_transform {
        let t = base + seq![
            ContextMenuEntry::Separator,
            ContextMenuEntry::Item(ContextMenuAction::PasteRotateCcw, true),
            ContextMenuEntry::Item(ContextMenuAction::PasteRotateCw, true),
            ContextMenuEntry::Item(ContextMenuAction::PasteFlipX, true),
            ContextMenuEntry::Item(ContextMenuAction::PasteFlipY, true),
            ContextMenuEntry::Item(ContextMenuAction::PasteReset, true),
        ];
        if c.tool == ToolKind::Paste {
            t.push(ContextMenuEntry::Item(ContextMenuAction::ExitPaste, true))
        } else {
            t
        }
    } else {
        base
    }
}

/// Whether a command can run in the given context: undo when there is
/// something to undo, redo when there is something to redo, pasting when the
/// clipboard holds tiles, the selection commands (but select-all) when there
/// is a selection; select-all, the orientation commands and leaving the paste
/// tool always.
pub open spec fn action_enabled(a: ContextMenuAction, c: MenuContext) -> bool {
    match a {
        ContextMenuAction::Undo => c.can_undo,
        ContextMenuAction::Redo => c.can_redo,
        ContextMenuAction::EnterPaste => c.has_clipboard,
        ContextMenuAction::SelectionCopy => c.has_selection,
        ContextMenuAction::SelectionCut => c.has_selection,
        ContextMenuAction::SelectionDelete => c.has_selection,
        ContextMenuAction::SelectionDeselect => c.has_selection,
        _ => true,
    }
}

/// The context menu shows every command in the state its context allows:
/// each command line is enabled exactly when the command can run; undo and
/// redo head the menu; the orientation commands appear exactly when there
/// is a clipboard or a tile under the cursor, and leaving the paste tool
/// exactly when, in addition, the paste tool is active.
pub proof fn lemma_menu_entries_enabled(c: MenuContext)
    ensures
        menu_entries(c)[0] == ContextMenuEntry::Item(ContextMenuAction::Undo, c.can_undo),
        menu_entries(c)[1] == ContextMenuEntry::Item(ContextMenuAction::Redo, c.can_redo),
        forall|i: int|
            0 <= i < menu_entries(c).len() ==> ((#[trigger] menu_entries(c)[i]) matches ContextMenuEntry::Item(a, en)
                ==> en == action_enabled(a, c)),
        (exists|i: int|
            0 <= i < menu_entries(c).len() && #[trigger] menu_entries(c)[i] == ContextMenuEntry::Item(
                ContextMenuAction::PasteRotateCw,
                true,
            )) <==> (c.has_clipboard || c.tile_under_cursor),
        (exists|i: int|
            0 <= i < menu_entries(c).len() && #[trigger] menu_entries(c)[i] == ContextMenuEntry::Item(
                ContextMenuAction::ExitPaste,
                true,
            )) <==> ((c.has_clipboard || c.tile_under_cursor) && c.tool == ToolKind::Paste),
{
    let m = menu_entries(c);
    if c.has_clipboard || c.tile_under_cursor {
        assert(m[13] == ContextMenuEntry::Item(ContextMenuAction::PasteRotateCw, true));
        if c.tool == ToolKind::Paste {
            assert(m[17] == ContextMenuEntry::Item(ContextMenuAction::ExitPaste, true));
        }
    }
}

/// Builds the lines of the context menu for the given context.
pub fn context_menu_entries(c: &MenuContext) -> (r: Vec<ContextMenuEntry>)
    ensures
        r@ == menu_entries(*c),
        forall|i: int|
            0 <= i < r@.len() ==> ((#[trigger] r@[i]) matches ContextMenuEntry::Item(a, en) ==> en == action_enabled(
                a,
                *c,
            )),
        r@[0] == ContextMenuEntry::Item(ContextMenuAction::Undo, c.can_undo),
        r@[1] == ContextMenuEntry::Item(ContextMenuAction::Redo, c.can_redo),
{
    proof {
        lemma_menu_entries_enabled(*c);
    }
    let mut v: Vec<ContextMenuEntry> = Vec::new();
    v.push(ContextMenuEntry::Item(ContextMenuAction::Undo, c.can_undo));
    v.push(ContextMenuEntry::Item(ContextMenuAction::Redo, c.can_redo));
    v.push(ContextMenuEntry::Separator);
    v.push(ContextMenuEntry::Item(ContextMenuAction::EnterPaste, c.has_clipboard));
    v.push(ContextMenuEntry::Separator);
    v.push(ContextMenuEntry::Item(ContextMenuAction::SelectionCopy, c.has_selection));
    v.push(ContextMenuEntry::Item(ContextMenuAction::SelectionCut, c.has_selection));
    v.push(ContextMenuEntry::Item(ContextMenuAction::SelectionDelete, c.has_selection));
    v.push(ContextMenuEntry::Separator);
    v.push(ContextMenuEntry::Item(ContextMenuAction::SelectionSelectAll, true));
    v.push(ContextMenuEntry::Item(ContextMenuAction::SelectionDeselect, c.has_selection));
    if c.has_clipboard || c.tile_under_cursor {
        v.push(ContextMenuEntry::Separator);
        v.push(ContextMenuEntry::Item(ContextMenuAction::PasteRotateCcw, true));
        v.push(ContextMenuEntry::Item(ContextMenuAction::PasteRotateCw, true));
        v.push(ContextMenuEntry::Item(ContextMenuAction::PasteFlipX, true));
        v.push(ContextMenuEntry::Item(ContextMenuAction::PasteFlipY, true));
        v.push(ContextMenuEntry::Item(ContextMenuAction::PasteReset, true));
        if c.tool == ToolKind::Paste {
            v.push(ContextMenuEntry::Item(ContextMenuAction::ExitPaste, true));
        }
    }
    proof {
        assert(v@ =~= menu_entries(*c));
    }
    v
}

/// Whether the map cell at `pos` has content on some layer, that is, whether
/// there is a topmost tile there for an orientation edit to work on (false
/// without a map or position, or outside the map).
pub fn tile_under_cursor(map: Option<&TileMapData>, pos: Option<(u32, u32)>) -> (r: bool)
    requires
        map matches Some(m) ==> m.cells_per_layer() <= u32::MAX && m.cells_per_layer() * m.layers <= usize::MAX,
    ensures
        r == match (map, pos) {
            (Some(m), Some((x, y))) => x < m.width && y < m.height && exists|l: int|
                0 <= l < m.layers && #[trigger] m.occupied(l, x as int, y as int),
            _ => false,
        },
{
    match (map, pos) {
        (Some(m), Some((x, y))) => {
            if x >= m.width || y >= m.height {
                return false;
            }
            proof {
                crate::arith::lemma_cell_in_layer(x as int, y as int, m.width as int, m.height as int);
                if m.layers > 0 {
                    let c = m.cells_per_layer();
                    assert((m.layers - 1) * c + c == m.layers * c) by (nonlinear_arith);
                    assert(c * m.layers == m.layers * c) by (nonlinear_arith);
                }
            }
            let top = m.topmost_layer_at(x, y);
            proof {
                if let Some(l) = top {
                    assert(m.occupied(l as int, x as int, y as int));
                }
            }
            top.is_some()
        },
        _ => false,
    }
}

} // verus!

verus! {

/// The context menu's state: whether it is open, the map cell it was opened
/// on, whether the left click that closed it must not reach the canvas, and
/// the signature it was last built for.
#[derive(Debug, Default)]
pub struct ContextMenuState {
    pub open: bool,
    pub map_pos: Option<crate::selection::CellPos>,
    pub consume_left_click: bool,
    pub signature: u64,
}

/// The command picked in the context menu, waiting to be run.
#[derive(Debug, Default)]
pub struct ContextMenuCommand {
    pub action: Option<ContextMenuAction>,
}

impl ContextMenuState {
    /// A click released on a menu line. An enabled command is handed over
    /// and closes the menu; a greyed-out one keeps the menu open. Either way
    /// the click does not reach the canvas. A closed menu ignores clicks.
    pub fn click_item(&mut self, cmd: &mut ContextMenuCommand, action: ContextMenuAction, enabled: bool)
        ensures
            final(self).map_pos == old(self).map_pos,
            final(self).signature == old(self).signature,
            !old(self).open ==> final(self).open == old(self).open && final(self).consume_left_click
                == old(self).consume_left_click && final(cmd).action == old(cmd).action,
            old(self).open ==> final(self).consume_left_click,
            old(self).open && enabled ==> !final(self).open && final(cmd).action == Some(action),
            old(self).open && !enabled ==> final(self).open && final(cmd).action == old(cmd).action,
    {
        if !self.open {
            return;
        }
        if !enabled {
            self.consume_left_click = true;
            return;
        }
        cmd.action = Some(action);
        self.open = false;
        self.consume_left_click = true;
    }

    /// A click released on the backdrop closes an open menu without reaching the canvas.
    pub fn click_backdrop(&mut self)
        ensures
            final(self).map_pos == old(self).map_pos,
            final(self).signature == old(self).signature,
            old(self).open ==> !final(self).open && final(self).consume_left_click,
            !old(self).open ==> *final(self) == *old(self),
    {
        if self.open {
            self.open = false;
            self.consume_left_click = true;
        }
    }

    /// Whether an open menu must be rebuilt for the context with signature
    /// `sig`; records `sig` when it must.
    pub fn needs_rebuild(&mut self, sig: u64) -> (r: bool)
        ensures
            r == (old(self).open && sig != old(self).signature),
            final(self).open == old(self).open,
            final(self).map_pos == old(self).map_pos,
            final(self).consume_left_click == old(self).consume_left_click,
            final(self).signature == if r {
                sig
            } else {
                old(self).signature
            },
    {
        if !self.open || sig == self.signature {
            return false;
        }
        self.signature = sig;
        true
    }
}

} // verus!
