//! Keyboard shortcuts of the editor: which editor state a key press changes.

use vstd::prelude::*;

verus! {

/// A file or edit action requested from the menus or a shortcut
#[derive(Debug, Clone, Copy, PartialEq, Eq, Structural)]
pub enum PendingAction {
    New,
    Open,
    Save,
    SaveAs,
    Exit,
    Undo,
    Redo,
    Cut,
    Copy,
    Paste,
    SelectAll,
    /// Create a stamp from the current tile selection
    CreateStampFromSelection,
    /// Open the game settings dialog
    OpenGameSettings,
    /// Run the game (save first, then launch)
    RunGame,
    /// Create a new game project using Bevy CLI
    CreateGameProject,
    /// Install Bevy CLI
    InstallBevyCli,
}

/// Which view the editor shows
#[derive(Debug, Clone, Copy, PartialEq, Eq, Structural)]
pub enum EditorViewMode {
    Level,
    World,
}

/// The keyboard as a frame sees it: whether a modifier is held, and which
/// keys were pressed this frame.
#[derive(Debug, Clone, Copy)]
pub struct ShortcutKeys {
    pub ctrl: bool,
    pub shift: bool,
    pub z: bool,
    pub y: bool,
    pub c: bool,
    pub x: bool,
    pub v: bool,
    pub a: bool,
    pub s: bool,
    pub o: bool,
    pub n: bool,
    pub l: bool,
    pub w: bool,
    pub delete: bool,
    pub backspace: bool,
    pub escape: bool,
}

/// The editor state that shortcuts read and change
#[derive(Debug, Clone, Copy)]
pub struct ShortcutState {
    pub pending_action: Option<PendingAction>,
    /// Whether tiles are selected
    pub has_tile_selection: bool,
    pub pending_delete_selection: bool,
    pub is_moving: bool,
    pub pending_cancel_move: bool,
    pub is_pasting: bool,
    pub view_mode: EditorViewMode,
    pub paint_flip_x: bool,
    pub paint_flip_y: bool,
}

/// The action a Ctrl shortcut requests: of the keys pressed this frame, the
/// one handled last wins; Ctrl+Shift+S creates a stamp from the selection and
/// Ctrl+S saves.
pub open spec fn ctrl_action(k: ShortcutKeys, current: Option<PendingAction>) -> Option<PendingAction> {
    if !k.ctrl {
        current
    } else if k.n {
        Some(PendingAction::New)
    } else if k.o {
        Some(PendingAction::Open)
    } else if k.s && k.shift {
        Some(PendingAction::CreateStampFromSelection)
    } else if k.s {
        Some(PendingAction::Save)
    } else if k.a {
        Some(PendingAction::SelectAll)
    } else if k.v {
        Some(PendingAction::Paste)
    } else if k.x {
        Some(PendingAction::Cut)
    } else if k.c {
        Some(PendingAction::Copy)
    } else if (k.z && k.shift) || k.y {
        Some(PendingAction::Redo)
    } else if k.z {
        Some(PendingAction::Undo)
    } else {
        current
    }
}

/// The view after the view keys: W toggles between level and world view,
/// then L selects the level view.
pub open spec fn view_after(k: ShortcutKeys, view: EditorViewMode) -> EditorViewMode {
    if k.ctrl {
        view
    } else if k.l {
        EditorViewMode::Level
    } else if k.w {
        match view {
            EditorViewMode::Level => EditorViewMode::World,
            EditorViewMode::World => EditorViewMode::Level,
        }
    } else {
        view
    }
}

/// The action the Ctrl shortcuts of this frame request, or `current` when none
/// does. When several are pressed together the one handled last wins.
fn ctrl_shortcut(keys: &ShortcutKeys, current: Option<PendingAction>) -> (r: Option<PendingAction>)
    ensures
        r == ctrl_action(*keys, current),
{
    if !keys.ctrl {
        current
    } else if keys.n {
        Some(PendingAction::New)
    } else if keys.o {
        Some(PendingAction::Open)
    } else if keys.s && keys.shift {
        Some(PendingAction::CreateStampFromSelection)
    } else if keys.s {
        Some(PendingAction::Save)
    } else if keys.a {
        Some(PendingAction::SelectAll)
    } else if keys.v {
        Some(PendingAction::Paste)
    } else if keys.x {
        Some(PendingAction::Cut)
    } else if keys.c {
        Some(PendingAction::Copy)
    } else if (keys.z && keys.shift) || keys.y {
        Some(PendingAction::Redo)
    } else if keys.z {
        Some(PendingAction::Undo)
    } else {
        current
    }
}

/// The view after the view keys of this frame.
fn view_shortcut(keys: &ShortcutKeys, view: EditorViewMode) -> (r: EditorViewMode)
    ensures
        r == view_after(*keys, view),
{
    if keys.ctrl {
        view
    } else if keys.l {
        EditorViewMode::Level
    } else if keys.w {
        match view {
            EditorViewMode::Level => EditorViewMode::World,
            EditorViewMode::World => EditorViewMode::Level,
        }
    } else {
        view
    }
}

/// Apply the shortcuts pressed this frame to the editor state: Ctrl+Z undo,
/// Ctrl+Shift+Z or Ctrl+Y redo, Ctrl+C/X/V copy, cut and paste, Ctrl+A select
/// all, Ctrl+S save, Ctrl+O open, Ctrl+N new; Delete or Backspace deletes the
/// tile selection; Escape cancels a move, else leaves paste mode, else clears
/// the selection; without Ctrl, W toggles the world view, L shows the level
/// view, X and Y toggle the paint flips.
pub fn handle_keyboard_shortcuts(keys: &ShortcutKeys, state: &mut ShortcutState)
    ensures
        final(state).pending_action == ctrl_action(*keys, old(state).pending_action),
        final(state).pending_delete_selection == (old(state).pending_delete_selection || ((
        keys.delete || keys.backspace) && old(state).has_tile_selection)),
        final(state).pending_cancel_move == (old(state).pending_cancel_move || (keys.escape
            && old(state).is_moving)),
        final(state).is_pasting == (old(state).is_pasting && !(keys.escape && !old(
            state,
        ).is_moving)),
        final(state).has_tile_selection == (old(state).has_tile_selection && !(keys.escape
            && !old(state).is_moving && !old(state).is_pasting)),
        final(state).is_moving == old(state).is_moving,
        final(state).view_mode == view_after(*keys, old(state).view_mode),
        final(state).paint_flip_x == (old(state).paint_flip_x != (!keys.ctrl && keys.x)),
        final(state).paint_flip_y == (old(state).paint_flip_y != (!keys.ctrl && keys.y)),
{
    state.pending_action = ctrl_shortcut(keys, state.pending_action);
    if (keys.delete || keys.backspace) && state.has_tile_selection {
        state.pending_delete_selection = true;
    }
    if keys.escape {
        if state.is_moving {
            state.pending_cancel_move = true;
        } else if state.is_pasting {
            state.is_pasting = false;
        } else {
            state.has_tile_selection = false;
        }
    }
    state.view_mode = view_shortcut(keys, state.view_mode);
    if !keys.ctrl && keys.x {
        state.paint_flip_x = !state.paint_flip_x;
    }
    if !keys.ctrl && keys.y {
        state.paint_flip_y = !state.paint_flip_y;
    }
}

} // verus!
