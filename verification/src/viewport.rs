//! The viewport's pointer handling as a state machine over tile coordinates:
//! from the tool, its mode and what the pointer did this frame, the next
//! input state and the editing actions to carry out, in order. Turning screen
//! positions into tiles, hit-testing and panning the camera are left to the
//! caller, which reports their outcome in the input.

use vstd::prelude::*;
use crate::ids::Uuid;

verus! {

/// Editing tools
#[derive(Debug, Clone, Copy, PartialEq, Eq, Structural)]
pub enum EditorTool {
    Select,
    Paint,
    Erase,
    Fill,
    Entity,
    Terrain,
}

/// How a tool that supports modes is applied: cell by cell or by rectangle
#[derive(Debug, Clone, Copy, PartialEq, Eq, Structural)]
pub enum ToolMode {
    Point,
    Rectangle,
}

/// The viewport's input state kept between frames
#[derive(Debug, Clone, Copy)]
pub struct ViewportState {
    /// Whether the camera is being dragged (middle or right button held)
    pub is_panning: bool,
    /// Whether a rectangle (fill or marquee) is being drawn
    pub is_drawing_rect: bool,
    /// The tile where the rectangle started
    pub rect_start_tile: Option<(i32, i32)>,
    /// The tile a Shift+click line starts from
    pub line_brush_anchor: Option<(i32, i32)>,
    /// Whether an entity or a tile selection is being moved
    pub is_moving: bool,
}

impl Default for ViewportState {
    fn default() -> (r: Self)
        ensures
            !r.is_panning && !r.is_drawing_rect && r.rect_start_tile is None
                && r.line_brush_anchor is None && !r.is_moving,
    {
        ViewportState {
            is_panning: false,
            is_drawing_rect: false,
            rect_start_tile: None,
            line_brush_anchor: None,
            is_moving: false,
        }
    }
}

/// What the pointer did this frame, with the outcome of the caller's hit
/// tests, in tile coordinates
#[derive(Debug, Clone, Copy)]
pub struct PointerInput {
    /// The tile under the pointer
    pub tile: (i32, i32),
    /// The user interface is using the pointer (dragging a widget)
    pub pointer_captured: bool,
    /// The middle or right button is held
    pub pan_pressed: bool,
    pub left_just_pressed: bool,
    pub left_pressed: bool,
    pub left_just_released: bool,
    pub shift: bool,
    /// The pointer is over the inspector panel, or a modal editor is open
    pub blocked: bool,
    /// The press is on the selected entity
    pub hits_selected_entity: bool,
    /// The press is on the selected tiles
    pub hits_tile_selection: bool,
    /// The entity of the selected object layer under the pointer, if any
    pub entity_hit: Option<Uuid>,
    /// Terrain painting mode is on
    pub terrain_mode: bool,
    /// A tile is selected for painting
    pub has_selected_tile: bool,
}

/// An editing action the viewport asks for
#[derive(Debug, Clone, Copy, PartialEq, Eq, Structural)]
pub enum ToolAction {
    /// The user interface has the pointer: stop painting and hide the brush
    PointerBlocked,
    /// Place an entity of the selected type under the pointer
    PlaceEntity,
    /// Flood fill from the tile under the pointer
    FillArea,
    /// Start moving the selected entity
    StartEntityMove,
    /// Start moving the selected tiles
    StartTileMove,
    /// Select the entity under the pointer (and clear the tile selection)
    SelectEntity(Uuid),
    /// Clear the selection and start a marquee at a tile
    StartMarquee(i32, i32),
    /// Fill a terrain rectangle between two tiles
    FillTerrainRect(i32, i32, i32, i32),
    /// Fill (or, with the erase tool, clear) a rectangle between two tiles
    FillRect(i32, i32, i32, i32),
    /// Select the tiles from (min x, min y) to (max x, max y) and end the marquee
    SelectRect(u32, u32, u32, u32),
    /// Finish the move in progress
    FinalizeMove,
    /// Follow the pointer with the move in progress
    DragMove,
    /// Paint every tile on the line between two tiles
    PaintLine(i32, i32, i32, i32),
    /// Paint the tile under the pointer
    Paint,
    /// Erase every tile on the line between two tiles
    EraseLine(i32, i32, i32, i32),
    /// Erase the tile under the pointer
    Erase,
    /// Paint terrain under the pointer
    PaintTerrain,
    /// Show the brush preview at a tile
    ShowBrushPreview(i32, i32),
    /// Hide the brush preview
    HideBrushPreview,
    /// The stroke has ended: stop painting
    StopPainting,
}

/// Whether the tool is applied by rectangle this frame.
pub open spec fn rectangle_mode(tool: EditorTool, mode: ToolMode) -> bool {
    mode == ToolMode::Rectangle && (tool == EditorTool::Paint || tool == EditorTool::Erase
        || tool == EditorTool::Terrain)
}

/// The smaller of two integers.
pub open spec fn min_i(a: i32, b: i32) -> i32 {
    if a <= b { a } else { b }
}

/// The larger of two integers.
pub open spec fn max_i(a: i32, b: i32) -> i32 {
    if a >= b { a } else { b }
}

/// `v` clamped below at zero, as a `u32`.
pub open spec fn at_least_zero(v: i32) -> u32 {
    if v < 0 { 0 } else { v as u32 }
}

/// A press of the left button: the tool's action, and whether the press ends
/// the frame's handling (a move starts or an entity is selected).
pub open spec fn press_step(s: ViewportState, tool: EditorTool, mode: ToolMode, ev: PointerInput) -> (
    ViewportState,
    Seq<ToolAction>,
    bool,
) {
    if ev.left_just_pressed && !s.is_panning && !ev.blocked {
        match tool {
            EditorTool::Entity => (s, seq![ToolAction::PlaceEntity], false),
            EditorTool::Fill => (s, seq![ToolAction::FillArea], false),
            EditorTool::Select => if ev.hits_selected_entity {
                (ViewportState { is_moving: true, ..s }, seq![ToolAction::StartEntityMove], true)
            } else if ev.hits_tile_selection {
                (ViewportState { is_moving: true, ..s }, seq![ToolAction::StartTileMove], true)
            } else if ev.entity_hit is Some {
                (s, seq![ToolAction::SelectEntity(ev.entity_hit->0)], true)
            } else {
                (
                    ViewportState { rect_start_tile: Some(ev.tile), is_drawing_rect: true, ..s },
                    seq![ToolAction::StartMarquee(ev.tile.0, ev.tile.1)],
                    false,
                )
            },
            _ => if rectangle_mode(tool, mode) {
                (ViewportState { rect_start_tile: Some(ev.tile), is_drawing_rect: true, ..s }, seq![], false)
            } else {
                (s, seq![], false)
            },
        }
    } else {
        (s, seq![], false)
    }
}

/// A release of the left button while a rectangle is drawn: the rectangle's
/// action by tool, and the rectangle ends.
pub open spec fn rect_release_step(s: ViewportState, tool: EditorTool, ev: PointerInput) -> (
    ViewportState,
    Seq<ToolAction>,
) {
    if ev.left_just_released && s.is_drawing_rect {
        let acts = match s.rect_start_tile {
            Some(st) => match tool {
                EditorTool::Terrain => seq![ToolAction::FillTerrainRect(st.0, st.1, ev.tile.0, ev.tile.1)],
                EditorTool::Paint | EditorTool::Erase => seq![
                    ToolAction::FillRect(st.0, st.1, ev.tile.0, ev.tile.1),
                ],
                EditorTool::Select => seq![
                    ToolAction::SelectRect(
                        at_least_zero(min_i(st.0, ev.tile.0)),
                        at_least_zero(min_i(st.1, ev.tile.1)),
                        at_least_zero(max_i(st.0, ev.tile.0)),
                        at_least_zero(max_i(st.1, ev.tile.1)),
                    ),
                ],
                _ => seq![],
            },
            None => seq![],
        };
        (ViewportState { rect_start_tile: None, is_drawing_rect: false, ..s }, acts)
    } else {
        (s, seq![])
    }
}

/// Releasing the button ends a move; holding it drags the move along.
pub open spec fn move_step(s: ViewportState, ev: PointerInput) -> (ViewportState, Seq<ToolAction>) {
    let (s1, a1) = if ev.left_just_released && s.is_moving {
        (ViewportState { is_moving: false, ..s }, seq![ToolAction::FinalizeMove])
    } else {
        (s, seq![])
    };
    if ev.left_pressed && s1.is_moving && !s1.is_panning {
        (s1, a1.push(ToolAction::DragMove))
    } else {
        (s1, a1)
    }
}

/// The brush preview follows the pointer while the paint tool (outside
/// terrain mode) has a tile and no rectangle is drawn.
pub open spec fn preview_step(s: ViewportState, tool: EditorTool, ev: PointerInput) -> Seq<ToolAction> {
    if tool == EditorTool::Paint && !ev.terrain_mode && ev.has_selected_tile && !s.is_drawing_rect
        && !ev.blocked {
        seq![ToolAction::ShowBrushPreview(ev.tile.0, ev.tile.1)]
    } else {
        seq![ToolAction::HideBrushPreview]
    }
}

/// Painting while the button is held in point mode: a Shift+click draws a
/// line from the anchor, otherwise the tile under the pointer is painted; the
/// first press of a stroke sets the anchor. Without the button (and without a
/// rectangle) the stroke ends.
pub open spec fn point_step(s: ViewportState, tool: EditorTool, mode: ToolMode, ev: PointerInput) -> (
    ViewportState,
    Seq<ToolAction>,
) {
    if ev.left_pressed && !s.is_panning && !rectangle_mode(tool, mode) {
        match tool {
            EditorTool::Paint | EditorTool::Erase => {
                let line = ev.left_just_pressed && ev.shift && s.line_brush_anchor is Some;
                let a = s.line_brush_anchor->0;
                let act = if tool == EditorTool::Paint {
                    if line {
                        ToolAction::PaintLine(a.0, a.1, ev.tile.0, ev.tile.1)
                    } else {
                        ToolAction::Paint
                    }
                } else {
                    if line {
                        ToolAction::EraseLine(a.0, a.1, ev.tile.0, ev.tile.1)
                    } else {
                        ToolAction::Erase
                    }
                };
                let anchor = if line || ev.left_just_pressed {
                    Some(ev.tile)
                } else {
                    s.line_brush_anchor
                };
                (ViewportState { line_brush_anchor: anchor, ..s }, seq![act])
            },
            EditorTool::Terrain => (s, seq![ToolAction::PaintTerrain]),
            _ => (s, seq![]),
        }
    } else if !s.is_drawing_rect {
        (s, seq![ToolAction::StopPainting])
    } else {
        (s, seq![])
    }
}

/// One frame of pointer handling: the next state and the actions in order.
pub open spec fn spec_viewport_step(s: ViewportState, tool: EditorTool, mode: ToolMode, ev: PointerInput) -> (
    ViewportState,
    Seq<ToolAction>,
) {
    if ev.pointer_captured && !s.is_drawing_rect {
        (ViewportState { is_panning: false, ..s }, seq![ToolAction::PointerBlocked])
    } else {
        let s0 = ViewportState { is_panning: ev.pan_pressed, ..s };
        let (s1, a1, done) = press_step(s0, tool, mode, ev);
        if done {
            (s1, a1)
        } else {
            let (s2, a2) = rect_release_step(s1, tool, ev);
            let (s3, a3) = move_step(s2, ev);
            let a4 = preview_step(s3, tool, ev);
            let (s5, a5) = point_step(s3, tool, mode, ev);
            (s5, a1 + a2 + a3 + a4 + a5)
        }
    }
}

/// Whether an action puts tiles or terrain down, or previews a brush.
pub open spec fn is_paint_action(a: ToolAction) -> bool {
    a is Paint || a is PaintLine || a is PaintTerrain || a is FillTerrainRect || a is ShowBrushPreview
}

/// Whether an action removes tiles.
pub open spec fn is_erase_action(a: ToolAction) -> bool {
    a is Erase || a is EraseLine
}

/// Whether the frame is a Shift+click of the paint or erase tool in point
/// mode with a line anchor set: the pointer is free, the camera is not
/// panned, and the left button has just been pressed with Shift held.
pub open spec fn shift_click_line(s: ViewportState, tool: EditorTool, mode: ToolMode, ev: PointerInput) -> bool {
    &&& tool == EditorTool::Paint || tool == EditorTool::Erase
    &&& mode == ToolMode::Point
    &&& !ev.pointer_captured
    &&& !ev.pan_pressed
    &&& ev.left_just_pressed
    &&& ev.left_pressed
    &&& ev.shift
    &&& s.line_brush_anchor is Some
}

/// The line a Shift+click asks for: painted with the paint tool, erased
/// otherwise, from the anchor to the clicked tile.
pub open spec fn line_action(tool: EditorTool, from: (i32, i32), to: (i32, i32)) -> ToolAction {
    if tool == EditorTool::Paint {
        ToolAction::PaintLine(from.0, from.1, to.0, to.1)
    } else {
        ToolAction::EraseLine(from.0, from.1, to.0, to.1)
    }
}

/// Whether no action of `acts` paints.
pub open spec fn none_paint(acts: Seq<ToolAction>) -> bool {
    forall|i: int| 0 <= i < acts.len() ==> !is_paint_action(#[trigger] acts[i])
}

/// Whether no action of `acts` erases.
pub open spec fn none_erase(acts: Seq<ToolAction>) -> bool {
    forall|i: int| 0 <= i < acts.len() ==> !is_erase_action(#[trigger] acts[i])
}

proof fn lemma_none_paint_concat(a: Seq<ToolAction>, b: Seq<ToolAction>)
    requires
        none_paint(a),
        none_paint(b),
    ensures
        none_paint(a + b),
{
    assert forall|i: int| 0 <= i < (a + b).len() implies !is_paint_action(#[trigger] (a + b)[i]) by {
        if i < a.len() {
            assert((a + b)[i] == a[i]);
        } else {
            assert((a + b)[i] == b[i - a.len()]);
        }
    }
}

proof fn lemma_none_erase_concat(a: Seq<ToolAction>, b: Seq<ToolAction>)
    requires
        none_erase(a),
        none_erase(b),
    ensures
        none_erase(a + b),
{
    assert forall|i: int| 0 <= i < (a + b).len() implies !is_erase_action(#[trigger] (a + b)[i]) by {
        if i < a.len() {
            assert((a + b)[i] == a[i]);
        } else {
            assert((a + b)[i] == b[i - a.len()]);
        }
    }
}

/// With the erase tool the viewport never asks to paint, paint terrain, fill
/// a terrain rectangle or show the brush preview.
pub proof fn law_erase_never_paints(s: ViewportState, mode: ToolMode, ev: PointerInput)
    ensures
        forall|i: int|
            0 <= i < spec_viewport_step(s, EditorTool::Erase, mode, ev).1.len() ==> !is_paint_action(
                #[trigger] spec_viewport_step(s, EditorTool::Erase, mode, ev).1[i],
            ),
{
    let t = EditorTool::Erase;
    if !(ev.pointer_captured && !s.is_drawing_rect) {
        let s0 = ViewportState { is_panning: ev.pan_pressed, ..s };
        let (s1, a1, done) = press_step(s0, t, mode, ev);
        assert(none_paint(a1));
        if !done {
            let (s2, a2) = rect_release_step(s1, t, ev);
            let (s3, a3) = move_step(s2, ev);
            let a4 = preview_step(s3, t, ev);
            let (s5, a5) = point_step(s3, t, mode, ev);
            assert(none_paint(a2));
            assert(none_paint(a3));
            assert(none_paint(a4));
            assert(none_paint(a5));
            lemma_none_paint_concat(a1, a2);
            lemma_none_paint_concat(a1 + a2, a3);
            lemma_none_paint_concat(a1 + a2 + a3, a4);
            lemma_none_paint_concat(a1 + a2 + a3 + a4, a5);
        }
    } else {
        assert(none_paint(seq![ToolAction::PointerBlocked]));
    }
}

/// With the paint tool the viewport never asks to erase.
pub proof fn law_paint_never_erases(s: ViewportState, mode: ToolMode, ev: PointerInput)
    ensures
        forall|i: int|
            0 <= i < spec_viewport_step(s, EditorTool::Paint, mode, ev).1.len() ==> !is_erase_action(
                #[trigger] spec_viewport_step(s, EditorTool::Paint, mode, ev).1[i],
            ),
{
    let t = EditorTool::Paint;
    if !(ev.pointer_captured && !s.is_drawing_rect) {
        let s0 = ViewportState { is_panning: ev.pan_pressed, ..s };
        let (s1, a1, done) = press_step(s0, t, mode, ev);
        assert(none_erase(a1));
        if !done {
            let (s2, a2) = rect_release_step(s1, t, ev);
            let (s3, a3) = move_step(s2, ev);
            let a4 = preview_step(s3, t, ev);
            let (s5, a5) = point_step(s3, t, mode, ev);
            assert(none_erase(a2));
            assert(none_erase(a3));
            assert(none_erase(a4));
            assert(none_erase(a5));
            lemma_none_erase_concat(a1, a2);
            lemma_none_erase_concat(a1 + a2, a3);
            lemma_none_erase_concat(a1 + a2 + a3, a4);
            lemma_none_erase_concat(a1 + a2 + a3 + a4, a5);
        }
    } else {
        assert(none_erase(seq![ToolAction::PointerBlocked]));
    }
}

/// A Shift+click of the paint or erase tool in point mode, with an anchor
/// set, ends with the line from the anchor to the clicked tile (painted or
/// erased by tool), and the clicked tile becomes the new anchor.
pub proof fn law_shift_click_draws_a_line(s: ViewportState, tool: EditorTool, mode: ToolMode, ev: PointerInput)
    ensures
        shift_click_line(s, tool, mode, ev) ==> {
            let (s1, acts) = spec_viewport_step(s, tool, mode, ev);
            &&& s1.line_brush_anchor == Some(ev.tile)
            &&& acts.len() > 0
            &&& acts.last() == line_action(tool, s.line_brush_anchor->0, ev.tile)
        },
{
}

fn push_all(out: &mut Vec<ToolAction>, more: Vec<ToolAction>)
    ensures
        final(out)@ == old(out)@ + more@,
{
    let mut more = more;
    out.append(&mut more);
}

fn exec_press_step(s: ViewportState, tool: EditorTool, mode: ToolMode, ev: PointerInput) -> (r: (
    ViewportState,
    Vec<ToolAction>,
    bool,
))
    ensures
        (r.0, r.1@, r.2) == press_step(s, tool, mode, ev),
{
    let mut acts: Vec<ToolAction> = Vec::new();
    if ev.left_just_pressed && !s.is_panning && !ev.blocked {
        match tool {
            EditorTool::Entity => {
                acts.push(ToolAction::PlaceEntity);
                (s, acts, false)
            },
            EditorTool::Fill => {
                acts.push(ToolAction::FillArea);
                (s, acts, false)
            },
            EditorTool::Select => {
                if ev.hits_selected_entity {
                    acts.push(ToolAction::StartEntityMove);
                    (ViewportState { is_moving: true, ..s }, acts, true)
                } else if ev.hits_tile_selection {
                    acts.push(ToolAction::StartTileMove);
                    (ViewportState { is_moving: true, ..s }, acts, true)
                } else if let Some(e) = ev.entity_hit {
                    acts.push(ToolAction::SelectEntity(e));
                    (s, acts, true)
                } else {
                    acts.push(ToolAction::StartMarquee(ev.tile.0, ev.tile.1));
                    (ViewportState { rect_start_tile: Some(ev.tile), is_drawing_rect: true, ..s }, acts, false)
                }
            },
            _ => {
                if mode == ToolMode::Rectangle && (tool == EditorTool::Paint || tool == EditorTool::Erase
                    || tool == EditorTool::Terrain) {
                    (ViewportState { rect_start_tile: Some(ev.tile), is_drawing_rect: true, ..s }, acts, false)
                } else {
                    (s, acts, false)
                }
            },
        }
    } else {
        (s, acts, false)
    }
}

fn exec_rect_release_step(s: ViewportState, tool: EditorTool, ev: PointerInput) -> (r: (
    ViewportState,
    Vec<ToolAction>,
))
    ensures
        (r.0, r.1@) == rect_release_step(s, tool, ev),
{
    let mut acts: Vec<ToolAction> = Vec::new();
    if ev.left_just_released && s.is_drawing_rect {
        if let Some(st) = s.rect_start_tile {
            match tool {
                EditorTool::Terrain => acts.push(ToolAction::FillTerrainRect(st.0, st.1, ev.tile.0, ev.tile.1)),
                EditorTool::Paint | EditorTool::Erase => acts.push(
                    ToolAction::FillRect(st.0, st.1, ev.tile.0, ev.tile.1),
                ),
                EditorTool::Select => {
                    let min_x = if st.0 <= ev.tile.0 { st.0 } else { ev.tile.0 };
                    let min_y = if st.1 <= ev.tile.1 { st.1 } else { ev.tile.1 };
                    let max_x = if st.0 >= ev.tile.0 { st.0 } else { ev.tile.0 };
                    let max_y = if st.1 >= ev.tile.1 { st.1 } else { ev.tile.1 };
                    let cx: u32 = if min_x < 0 { 0 } else { min_x as u32 };
                    let cy: u32 = if min_y < 0 { 0 } else { min_y as u32 };
                    let dx: u32 = if max_x < 0 { 0 } else { max_x as u32 };
                    let dy: u32 = if max_y < 0 { 0 } else { max_y as u32 };
                    acts.push(ToolAction::SelectRect(cx, cy, dx, dy));
                },
                _ => {},
            }
        }
        (ViewportState { rect_start_tile: None, is_drawing_rect: false, ..s }, acts)
    } else {
        (s, acts)
    }
}

fn exec_move_step(s: ViewportState, ev: PointerInput) -> (r: (ViewportState, Vec<ToolAction>))
    ensures
        (r.0, r.1@) == move_step(s, ev),
{
    let mut acts: Vec<ToolAction> = Vec::new();
    let mut s1 = s;
    if ev.left_just_released && s.is_moving {
        s1 = ViewportState { is_moving: false, ..s };
        acts.push(ToolAction::FinalizeMove);
    }
    if ev.left_pressed && s1.is_moving && !s1.is_panning {
        acts.push(ToolAction::DragMove);
    }
    (s1, acts)
}

fn exec_point_step(s: ViewportState, tool: EditorTool, mode: ToolMode, ev: PointerInput) -> (r: (
    ViewportState,
    Vec<ToolAction>,
))
    ensures
        (r.0, r.1@) == point_step(s, tool, mode, ev),
        tool == EditorTool::Erase ==> none_paint(r.1@),
        tool == EditorTool::Paint ==> none_erase(r.1@),
        (tool == EditorTool::Paint || tool == EditorTool::Erase) && mode == ToolMode::Point && ev.left_pressed
            && !s.is_panning && ev.left_just_pressed && ev.shift && s.line_brush_anchor is Some ==> r.1@ == seq![
            line_action(tool, s.line_brush_anchor->0, ev.tile),
        ] && r.0.line_brush_anchor == Some(ev.tile),
{
    let mut acts: Vec<ToolAction> = Vec::new();
    let rect_mode = mode == ToolMode::Rectangle && (tool == EditorTool::Paint || tool
        == EditorTool::Erase || tool == EditorTool::Terrain);
    if ev.left_pressed && !s.is_panning && !rect_mode {
        match tool {
            EditorTool::Paint | EditorTool::Erase => {
                let line = ev.left_just_pressed && ev.shift && s.line_brush_anchor.is_some();
                let act = match s.line_brush_anchor {
                    Some(a) if line => if tool == EditorTool::Paint {
                        ToolAction::PaintLine(a.0, a.1, ev.tile.0, ev.tile.1)
                    } else {
                        ToolAction::EraseLine(a.0, a.1, ev.tile.0, ev.tile.1)
                    },
                    _ => if tool == EditorTool::Paint {
                        ToolAction::Paint
                    } else {
                        ToolAction::Erase
                    },
                };
                let anchor = if line || ev.left_just_pressed {
                    Some(ev.tile)
                } else {
                    s.line_brush_anchor
                };
                acts.push(act);
                (ViewportState { line_brush_anchor: anchor, ..s }, acts)
            },
            EditorTool::Terrain => {
                acts.push(ToolAction::PaintTerrain);
                (s, acts)
            },
            _ => (s, acts),
        }
    } else if !s.is_drawing_rect {
        acts.push(ToolAction::StopPainting);
        (s, acts)
    } else {
        (s, acts)
    }
}

/// One frame of the viewport's pointer handling (see `spec_viewport_step`):
/// the next input state and the editing actions to carry out, in order.
pub fn viewport_step(state: ViewportState, tool: EditorTool, mode: ToolMode, event: PointerInput) -> (r: (
    ViewportState,
    Vec<ToolAction>,
))
    ensures
        (r.0, r.1@) == spec_viewport_step(state, tool, mode, event),
        tool == EditorTool::Erase ==> forall|i: int| 0 <= i < r.1@.len() ==> !is_paint_action(#[trigger] r.1@[i]),
        tool == EditorTool::Paint ==> forall|i: int| 0 <= i < r.1@.len() ==> !is_erase_action(#[trigger] r.1@[i]),
        shift_click_line(state, tool, mode, event) ==> r.0.line_brush_anchor == Some(event.tile) && r.1@.len() > 0
            && r.1@.last() == line_action(tool, state.line_brush_anchor->0, event.tile),
{
    let r = step_frame(state, tool, mode, event);
    proof {
        law_erase_never_paints(state, mode, event);
        law_paint_never_erases(state, mode, event);
        law_shift_click_draws_a_line(state, tool, mode, event);
    }
    r
}

/// One frame of pointer handling, computed as `spec_viewport_step` states it.
fn step_frame(state: ViewportState, tool: EditorTool, mode: ToolMode, event: PointerInput) -> (r: (
    ViewportState,
    Vec<ToolAction>,
))
    ensures
        (r.0, r.1@) == spec_viewport_step(state, tool, mode, event),
{
    if event.pointer_captured && !state.is_drawing_rect {
        let mut acts: Vec<ToolAction> = Vec::new();
        acts.push(ToolAction::PointerBlocked);
        return (ViewportState { is_panning: false, ..state }, acts);
    }
    let s0 = ViewportState { is_panning: event.pan_pressed, ..state };
    let (s1, mut acts, done) = exec_press_step(s0, tool, mode, event);
    if done {
        return (s1, acts);
    }
    let ghost a1 = acts@;
    let (s2, a2) = exec_rect_release_step(s1, tool, event);
    let ghost a2v = a2@;
    push_all(&mut acts, a2);
    let (s3, a3) = exec_move_step(s2, event);
    let ghost a3v = a3@;
    push_all(&mut acts, a3);
    if tool == EditorTool::Paint && !event.terrain_mode && event.has_selected_tile && !s3.is_drawing_rect
        && !event.blocked {
        acts.push(ToolAction::ShowBrushPreview(event.tile.0, event.tile.1));
    } else {
        acts.push(ToolAction::HideBrushPreview);
    }
    let ghost a4 = preview_step(s3, tool, event);
    assert(acts@ =~= a1 + a2v + a3v + a4);
    let (s5, a5) = exec_point_step(s3, tool, mode, event);
    push_all(&mut acts, a5);
    (s5, acts)
}

} // verus!

verus! {

/// Whether a frame releases the left button over a rectangle being drawn,
/// with the pointer free and no new press.
pub open spec fn rect_release_frame(s: ViewportState, ev: PointerInput) -> bool {
    &&& !ev.pointer_captured
    &&& !ev.left_just_pressed
    &&& ev.left_just_released
    &&& s.is_drawing_rect
    &&& s.rect_start_tile is Some
}

/// `v` clamped below at zero.
pub open spec fn clamp_zero(v: i32) -> int {
    if v < 0 { 0 } else { v as int }
}

/// Releasing the button ends a rectangle and acts on the rectangle between
/// the tile where it started and the tile under the pointer: the paint and
/// erase tools fill it, the terrain tool fills it with terrain, and the
/// select tool selects the tiles it covers, corners ordered and clamped at
/// zero.
pub proof fn law_rectangle_release(s: ViewportState, tool: EditorTool, mode: ToolMode, ev: PointerInput)
    ensures
        rect_release_frame(s, ev) ==> {
            let (s1, acts) = spec_viewport_step(s, tool, mode, ev);
            let st = s.rect_start_tile->0;
            let t = ev.tile;
            &&& !s1.is_drawing_rect
            &&& s1.rect_start_tile is None
            &&& (tool == EditorTool::Paint || tool == EditorTool::Erase) ==> acts[0] == ToolAction::FillRect(
                st.0,
                st.1,
                t.0,
                t.1,
            )
            &&& tool == EditorTool::Terrain ==> acts[0] == ToolAction::FillTerrainRect(st.0, st.1, t.0, t.1)
            &&& tool == EditorTool::Select ==> (acts[0] matches ToolAction::SelectRect(x0, y0, x1, y1) && {
                &&& x0 <= x1 && y0 <= y1
                &&& x0 <= clamp_zero(st.0) <= x1 && x0 <= clamp_zero(t.0) <= x1
                &&& y0 <= clamp_zero(st.1) <= y1 && y0 <= clamp_zero(t.1) <= y1
                &&& (x0 == clamp_zero(st.0) || x0 == clamp_zero(t.0))
                &&& (x1 == clamp_zero(st.0) || x1 == clamp_zero(t.0))
                &&& (y0 == clamp_zero(st.1) || y0 == clamp_zero(t.1))
                &&& (y1 == clamp_zero(st.1) || y1 == clamp_zero(t.1))
            })
        },
{
}

/// Holding the button in point mode without a Shift+click line paints (or
/// erases) the tile under the pointer, and a fresh press makes that tile the
/// line anchor; without the button and without a rectangle the stroke ends.
pub proof fn law_point_stroke(s: ViewportState, tool: EditorTool, ev: PointerInput)
    ensures
        !ev.pointer_captured && !ev.pan_pressed && ev.left_pressed && !(ev.left_just_pressed && ev.shift
            && s.line_brush_anchor is Some) && (tool == EditorTool::Paint || tool == EditorTool::Erase) ==> {
            let (s1, acts) = spec_viewport_step(s, tool, ToolMode::Point, ev);
            &&& acts.len() > 0
            &&& acts.last() == if tool == EditorTool::Paint { ToolAction::Paint } else { ToolAction::Erase }
            &&& s1.line_brush_anchor == if ev.left_just_pressed { Some(ev.tile) } else { s.line_brush_anchor }
        },
        !ev.pointer_captured && !ev.left_pressed && !ev.left_just_pressed && !ev.left_just_released
            && !s.is_drawing_rect ==> spec_viewport_step(s, tool, ToolMode::Point, ev).1.last()
            == ToolAction::StopPainting,
{
}

} // verus!
