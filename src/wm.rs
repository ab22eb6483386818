//! The reducer: the window manager's state, and how X events and client commands
//! change it and which X requests they issue.

use vstd::prelude::*;
use crate::config::{class_names, spec_rule_tags, Config, LoadConfigError};
use crate::geometry::{is_first_position, Direction, LayoutType, Rect, TagId, TagValueError};
use crate::history::{first_from, forget_successor, has_id, id_pred, lemma_first_from, lemma_first_from_same, lemma_visible_same, next_visible, prev_visible, shift_result, shift_target, visible_pred};
use crate::layout::{at_least_one, layout_spec, Placement};
use crate::modkey::{clean_mask, spec_clean_mask};
use crate::monitor::{law_send_then_switch, tilable_ids, tilable_pred, lemma_next_prev_bounds, only_visible, switched_tags, clamp_i16, clamp_u16, lemma_same_shape, lemma_unique_position, same_id_and_tags, Monitor};
use crate::monitors::{lemma_replace_adding, lemma_replace_shrinking, managed, monitors_wf, MonitorsHistory};
use crate::window::{is_visible, visible_ids, win_visible, TagState, WinState};
use crate::command::{Command, ConfigSubcommand, Destination, LayoutSubcommand, MonitorSubcommand, TagSubcommand, WindowSubcommand, WindowToggle};

verus! {

/// The pointer shapes the window manager sets.
#[derive(Debug, Clone, Copy, PartialEq, Eq, Structural)]
pub enum CursorShape {
    LeftPtr,
    Fleur,
    BottomRightCorner,
}

impl CursorShape {
    /// The cursor theme's name for the shape.
    pub fn name(&self) -> (r: &'static str)
        ensures
            r@ == (match self {
                CursorShape::LeftPtr => "left_ptr"@,
                CursorShape::Fleur => "fleur"@,
                CursorShape::BottomRightCorner => "bottom_right_corner"@,
            }),
    {
        match self {
            CursorShape::LeftPtr => "left_ptr",
            CursorShape::Fleur => "fleur",
            CursorShape::BottomRightCorner => "bottom_right_corner",
        }
    }
}

/// A request for the X server.
#[derive(Debug, Clone, Copy, PartialEq, Eq, Structural)]
pub enum XRequest {
    SetBorderWidth { window: u32, border_width: u32 },
    /// Listen for enter, focus, property and structure events on the window.
    SelectEvents { window: u32 },
    /// Ungrab all buttons, then grab them as `modkey::button_grabs` says.
    GrabButtons { window: u32, focused: bool },
    UngrabButtons { window: u32 },
    /// Give the window the placement's geometry and border.
    Place(Placement),
    /// Move the window and raise it.
    MoveAbove { window: u32, x: i32, y: i32 },
    /// Resize the window and raise it.
    ResizeAbove { window: u32, width: u32, height: u32 },
    MapWindow { window: u32 },
    UnmapWindow { window: u32 },
    SetBorderColor { window: u32, argb: u32 },
    SetInputFocus { window: u32 },
    Destroy { window: u32 },
    /// Move the pointer to this offset from the window's origin.
    WarpPointer { window: u32, x: i16, y: i16 },
    SetCursor { window: u32, cursor: CursorShape },
}

/// What the X server says of a window about to be managed.
#[derive(Debug)]
pub struct NewWindow {
    pub id: u32,
    pub x: i16,
    pub y: i16,
    pub width: u16,
    pub height: u16,
    /// The window named by its `WM_TRANSIENT_FOR` property.
    pub transient_for: Option<u32>,
    /// Its `WM_CLASS` property.
    pub class_prop: String,
    /// Its `WM_NAME` property.
    pub wm_name: String,
}

/// A window found at startup.
#[derive(Debug)]
pub struct ScannedWindow {
    pub info: NewWindow,
    pub override_redirect: bool,
    /// It is mapped (viewable or unviewable).
    pub mapped: bool,
}

/// X's `NotifyMode` Normal and `NotifyDetail` Inferior.
pub const NOTIFY_NORMAL: u8 = 0;
pub const NOTIFY_INFERIOR: u8 = 2;

/// An X event, with what the engine reads of it.
#[derive(Debug)]
pub enum XEvent {
    MapRequest(NewWindow),
    DestroyNotify { window: u32 },
    ButtonPress { window: u32, detail: u8, state: u16, event_x: i16, event_y: i16 },
    ButtonRelease { detail: u8 },
    MotionNotify { window: u32, root_x: i16, root_y: i16 },
    EnterNotify { window: u32, mode: u8, detail: u8 },
    /// `transient_for` is the window's `WM_TRANSIENT_FOR` at the time of the event.
    PropertyNotify { window: u32, deleted: bool, atom: u32, transient_for: Option<u32> },
}

/// What a command asks of the caller beyond the X requests.
#[derive(Debug, Clone, PartialEq, Eq)]
pub enum Outcome {
    Done,
    /// Reply with the current configuration.
    PrintConfig,
    /// Read and parse the configuration at this path, then call `apply_config`.
    LoadConfig(String),
    Failed(String),
}

/// Why the window manager could not start.
#[derive(Debug, Clone, Copy, PartialEq, Eq, Structural)]
pub enum StartupError {
    NoLayouts,
    NoMonitors,
}

#[derive(Debug)]
pub struct WMState {
    pub config: Config,
    /// The root window of the screen.
    pub root: u32,
    /// The interned `WM_TRANSIENT_FOR` atom.
    pub transient_for_atom: u32,
    pub running: bool,
    pub monitors: MonitorsHistory,
    /// The window being dragged, and its origin's offset from the pointer.
    pub dragging_window: Option<(u32, (i16, i16))>,
    /// The window being resized, and the pointer position the size was last taken at.
    pub resizing_window: Option<(u32, (i16, i16))>,
}

/// The monitor holding the window.
pub open spec fn owner_of(ms: Seq<Monitor>, id: u32) -> int {
    choose|o: int| 0 <= o < ms.len() && #[trigger] has_id(ms[o].windows.windows@, id)
}

pub proof fn lemma_owner(ms: Seq<Monitor>, o: int, id: u32)
    requires
        monitors_wf(ms),
        0 <= o < ms.len(),
        has_id(ms[o].windows.windows@, id),
    ensures
        owner_of(ms, id) == o,
        managed(ms, id),
{
}

/// `b` is `a` with its cursor at `c`.
pub open spec fn cursor_moved(a: Monitor, b: Monitor, c: Option<usize>) -> bool {
    &&& b.windows.windows@ == a.windows.windows@
    &&& b.windows.cur == c
    &&& b.tags == a.tags && b.id == a.id && b.rect == a.rect && b.layout == a.layout
}

/// `ms2` is `ms` but for monitor `o`.
pub open spec fn others_kept(ms: Seq<Monitor>, ms2: Seq<Monitor>, o: int) -> bool {
    ms2.len() == ms.len() && forall|m: int| 0 <= m < ms.len() && m != o ==> #[trigger] ms2[m] == ms[m]
}

/// The window is managed and visible on its monitor: focusing it takes effect.
pub open spec fn focusable(ms: Seq<Monitor>, id: u32) -> bool {
    let o = owner_of(ms, id);
    let ws = ms[o].windows.windows@;
    managed(ms, id) && win_visible(ws[first_from(ws, id_pred(id), 0)->0], ms[o].tags@)
}

/// The requests that show a window as focused.
pub open spec fn focused_look(s: WMState, id: u32) -> Seq<XRequest> {
    seq![
        XRequest::GrabButtons { window: id, focused: true },
        XRequest::SetBorderColor { window: id, argb: s.config.focused_border_color.spec_argb() },
        XRequest::SetInputFocus { window: id },
    ]
}

/// The requests that show a window as no longer focused.
pub open spec fn unfocused_look(s: WMState, id: u32) -> Seq<XRequest> {
    seq![
        XRequest::GrabButtons { window: id, focused: false },
        XRequest::SetBorderColor { window: id, argb: s.config.normal_border_color.spec_argb() },
    ]
}

/// What focusing `id` asks of the X server: nothing for a window that cannot take
/// focus or already has it on the only monitor; else the old focused window's look
/// reverts and the new one's is applied.
pub open spec fn focus_requests(s: WMState, id: u32) -> Seq<XRequest> {
    if !focusable(s.ms(), id) {
        Seq::empty()
    } else {
        let cm = cur_mon(s);
        match cm.windows.cur {
            Some(c) => {
                let prev = cm.windows.windows@[c as int].id;
                if s.ms().len() == 1 && prev == id {
                    Seq::empty()
                } else {
                    unfocused_look(s, prev) + focused_look(s, id)
                }
            },
            None => focused_look(s, id),
        }
    }
}

/// Map a visible window, unmap a hidden one, in history order.
pub open spec fn window_map_requests(m: Monitor) -> Seq<XRequest> {
    Seq::new(
        m.windows.windows@.len(),
        |i: int|
            if win_visible(m.windows.windows@[i], m.tags@) {
                XRequest::MapWindow { window: m.windows.windows@[i].id }
            } else {
                XRequest::UnmapWindow { window: m.windows.windows@[i].id }
            },
    )
}

/// The map and unmap requests of the first `n` monitors.
pub open spec fn map_requests(ms: Seq<Monitor>, n: int) -> Seq<XRequest>
    decreases n,
{
    if n <= 0 {
        Seq::empty()
    } else {
        map_requests(ms, n - 1) + window_map_requests(ms[n - 1])
    }
}

/// The placements the layout gives the first `n` monitors' tiled windows.
pub open spec fn place_requests(ms: Seq<Monitor>, n: int, bw: int, gap: int) -> Seq<XRequest>
    decreases n,
{
    if n <= 0 {
        Seq::empty()
    } else {
        place_requests(ms, n - 1, bw, gap) + layout_spec(
            ms[n - 1].layout,
            ms[n - 1].rect,
            tilable_ids(ms[n - 1].windows.windows@, ms[n - 1].tags@),
            bw,
            gap,
        ).map_values(|p: Placement| XRequest::Place(p))
    }
}

/// What reconciliation asks of the X server: mapping, placements, and input focus on
/// the root window when the focused monitor has no focused window.
pub open spec fn reconcile_requests(ms: Seq<Monitor>, cur: int, root: u32, bw: int, gap: int) -> Seq<XRequest> {
    map_requests(ms, ms.len() as int) + place_requests(ms, ms.len() as int, bw, gap) + if ms[cur].windows.cur is None {
        seq![XRequest::SetInputFocus { window: root }]
    } else {
        Seq::empty()
    }
}

/// A map request: a new window enters the focused monitor's history at the front,
/// with its spawn tags, and takes focus when it is visible there.
pub open spec fn map_done(s0: WMState, s1: WMState, info: NewWindow, r: Seq<XRequest>) -> bool {
    &&& s1.config == s0.config && s1.running == s0.running && s1.root == s0.root
    &&& forall|w: u32| managed(s0.ms(), w) ==> #[trigger] managed(s1.ms(), w)
    &&& !managed(s0.ms(), info.id) && cur_mon(s0).windows.windows@.len() < usize::MAX ==> {
        &&& s1.monitors.cur == s0.monitors.cur
        &&& map_new_done(s0, s1, info, r)
    }
}

/// A map request for a window not yet managed.
pub open spec fn map_new_done(s0: WMState, s1: WMState, info: NewWindow, r: Seq<XRequest>) -> bool {
    {
        let before = cur_mon(s0);
        let after = cur_mon(s1);
        let w = after.windows.windows@[0];
        let vis = win_visible(w, before.tags@);
        &&& managed(s1.ms(), info.id)
        &&& others_same(s0.ms(), s1.ms(), s0.monitors.cur as int)
        &&& after.tags == before.tags
        &&& after.windows.windows@.len() == before.windows.windows@.len() + 1
        &&& same_windows(before.windows.windows@, after.windows.windows@.drop_first())
        &&& w.id == info.id
        &&& w.tags@ == new_window_tags(s0, info)
        &&& w.floating == has_managed_parent(s0.ms(), info)
        &&& after.windows.cursor() == (if vis {
            Some(0int)
        } else {
            match before.windows.cursor() {
                Some(k) => Some(k + 1),
                None => None::<int>,
            }
        })
        &&& r == manage_requests(s0, info) + (if vis {
            match before.windows.cur {
                Some(k) => unfocused_look(s0, before.windows.windows@[k as int].id) + focused_look(s0, info.id),
                None => focused_look(s0, info.id),
            }
        } else {
            Seq::empty()
        }) + reconciled(s1)
    }
}

/// What taking a window under management asks of the X server: its border, the
/// events it reports, click-to-focus grabs, a move to the monitor's origin under
/// the floating layout, and mapping.
pub open spec fn manage_requests(s: WMState, info: NewWindow) -> Seq<XRequest> {
    let m = cur_mon(s);
    let id = info.id;
    seq![
        XRequest::SetBorderWidth { window: id, border_width: s.config.border_width },
        XRequest::SelectEvents { window: id },
        XRequest::GrabButtons { window: id, focused: false },
    ] + (if m.layout == LayoutType::Floating {
        seq![XRequest::Place(Placement {
            window: id,
            x: m.rect.x as i64,
            y: m.rect.y as i64,
            width: info.width as u32,
            height: info.height as u32,
            border_width: s.config.border_width,
        })]
    } else {
        Seq::empty()
    }) + seq![XRequest::MapWindow { window: id }]
}

/// Monitors other than `o` keep their windows (up to geometry), cursors and tags.
pub open spec fn others_same(ms: Seq<Monitor>, ms2: Seq<Monitor>, o: int) -> bool {
    &&& ms2.len() == ms.len()
    &&& forall|m: int| 0 <= m < ms.len() && m != o ==> {
        &&& same_windows((#[trigger] ms[m]).windows.windows@, ms2[m].windows.windows@)
        &&& ms2[m].windows.cur == ms[m].windows.cur
        &&& ms2[m].tags == ms[m].tags
    }
}

/// A destroyed window is forgotten; on its monitor the window that follows it
/// takes focus.
pub open spec fn unmanage_done(s0: WMState, s1: WMState, id: u32) -> bool {
    &&& s1.config == s0.config && s1.running == s0.running
    &&& s1.monitors.cur == s0.monitors.cur
    &&& !managed(s1.ms(), id)
    &&& forall|w: u32| w != id ==> (managed(s1.ms(), w) == #[trigger] managed(s0.ms(), w))
    &&& !managed(s0.ms(), id) ==> others_same(s0.ms(), s1.ms(), -1)
    &&& managed(s0.ms(), id) ==> {
        let o = owner_of(s0.ms(), id);
        let before = s0.ms()[o];
        let after = s1.ms()[o];
        let pos = first_from(before.windows.windows@, id_pred(id), 0)->0;
        let next = forget_successor(before.windows.windows@, before.tags@, before.windows.cursor(), pos);
        &&& same_windows(before.windows.windows@.remove(pos), after.windows.windows@)
        &&& after.tags == before.tags
        &&& others_same(s0.ms(), s1.ms(), o)
        &&& match next {
            Some(nid) => after.windows.cursor() == first_from(after.windows.windows@, id_pred(nid), 0),
            None => after.windows.cur is None,
        }
    }
}

/// What a button press asks of the X server: the focus change, then for a drag the
/// border width and the moving cursor, for a resize a pointer warp to the window's
/// bottom-right corner and the resizing cursor.
pub open spec fn press_requests(s0: WMState, s1: WMState, window: u32, detail: u8, state: u16) -> Seq<XRequest> {
    if window == s0.root {
        Seq::empty()
    } else {
        let here = s0.ms()[s1.monitors.cur as int];
        focus_requests(s0, window) + if is_mod_click(s0, detail, state) && has_id(here.windows.windows@, window) {
            if detail == 1 && s0.resizing_window is None {
                seq![
                    XRequest::SetBorderWidth { window, border_width: s0.config.border_width },
                    XRequest::SetCursor { window, cursor: CursorShape::Fleur },
                ]
            } else if detail == 3 && s0.dragging_window is None {
                let rec = record_of(here, window);
                seq![
                    XRequest::WarpPointer { window, x: clamp_i16(rec.width as int), y: clamp_i16(rec.height as int) },
                    XRequest::SetCursor { window, cursor: CursorShape::BottomRightCorner },
                ]
            } else {
                Seq::empty()
            }
        } else {
            Seq::empty()
        }
    }
}

/// A clicked window that can take focus becomes the focused window of its monitor,
/// which becomes the focused monitor; the other monitors are untouched.
pub open spec fn press_focuses(s0: WMState, s1: WMState, window: u32) -> bool {
    window != s0.root && focusable(s0.ms(), window) ==> {
        let o = owner_of(s0.ms(), window);
        let k = first_from(s0.ms()[o].windows.windows@, id_pred(window), 0)->0;
        &&& s1.monitors.cur == o
        &&& s1.ms()[o].windows.cur == Some(k as usize)
        &&& s1.ms()[o].tags == s0.ms()[o].tags
        &&& s1.ms()[o].windows.windows@.len() == s0.ms()[o].windows.windows@.len()
        &&& forall|i: int| 0 <= i < s0.ms()[o].windows.windows@.len()
            ==> same_id_and_tags(#[trigger] s1.ms()[o].windows.windows@[i], s0.ms()[o].windows.windows@[i])
        &&& others_kept(s0.ms(), s1.ms(), o)
    }
}

/// What a button release asks of the X server: the ordinary cursor back on the
/// window whose drag or resize ends.
pub open spec fn release_requests(s0: WMState, detail: u8) -> Seq<XRequest> {
    if detail == 1 {
        match s0.dragging_window {
            Some((w, _)) => seq![XRequest::SetCursor { window: w, cursor: CursorShape::LeftPtr }],
            None => Seq::empty(),
        }
    } else if detail == 3 {
        match s0.resizing_window {
            Some((w, _)) => seq![XRequest::SetCursor { window: w, cursor: CursorShape::LeftPtr }],
            None => Seq::empty(),
        }
    } else {
        Seq::empty()
    }
}

/// What entering a window asks of the X server: the focus change when focus follows
/// the pointer and the window was entered from its parent.
pub open spec fn enter_requests(s0: WMState, window: u32, mode: u8, detail: u8) -> Seq<XRequest> {
    if mode == NOTIFY_NORMAL && detail == NOTIFY_INFERIOR && s0.config.follow_cursor {
        focus_requests(s0, window)
    } else {
        Seq::empty()
    }
}

/// A mouse button press.
pub open spec fn button_press_done(s0: WMState, s1: WMState, window: u32, detail: u8, state: u16, event_x: i16, event_y: i16) -> bool {
    &&& s1.config == s0.config && s1.running == s0.running
    &&& forall|w: u32| #[trigger] managed(s1.ms(), w) == managed(s0.ms(), w)
    &&& window == s0.root ==> s1.monitors == s0.monitors
        && s1.dragging_window == s0.dragging_window && s1.resizing_window == s0.resizing_window
    &&& window != s0.root && is_mod_click(s0, detail, state) && detail == 1 && s0.resizing_window is None
        && has_id(s1.ms()[s1.monitors.cur as int].windows.windows@, window)
        ==> s1.dragging_window == Some((window, (
            (if event_x == i16::MIN { i16::MAX as int } else { -event_x }) as i16,
            (if event_y == i16::MIN { i16::MAX as int } else { -event_y }) as i16,
        )))
    &&& window != s0.root && is_mod_click(s0, detail, state) && detail == 3 && s0.dragging_window is None
        && has_id(s1.ms()[s1.monitors.cur as int].windows.windows@, window)
        ==> (s1.resizing_window matches Some((w, _)) && w == window)
    &&& window != s0.root && focusable(s0.ms(), window) ==> s1.monitors.cur == owner_of(s0.ms(), window)
    &&& window != s0.root && is_mod_click(s0, detail, state) && has_id(cur_mon(s1).windows.windows@, window)
        ==> record_of(cur_mon(s1), window).floating
    &&& !(window != s0.root && is_mod_click(s0, detail, state)) ==> s1.dragging_window == s0.dragging_window
        && s1.resizing_window == s0.resizing_window
}

/// A mouse button release.
pub open spec fn button_release_done(s0: WMState, s1: WMState, detail: u8) -> bool {
    &&& s1.monitors == s0.monitors && s1.config == s0.config
    &&& s1.running == s0.running
    &&& s1.dragging_window == (if detail == 1 { None } else { s0.dragging_window })
    &&& s1.resizing_window == (if detail == 3 { None } else { s0.resizing_window })
}

/// `shape_kept` composes.
pub proof fn lemma_shape_kept_trans(a: Seq<Monitor>, b: Seq<Monitor>, c: Seq<Monitor>)
    requires
        shape_kept(a, b),
        shape_kept(b, c),
    ensures
        shape_kept(a, c),
{
    assert forall|m: int| 0 <= m < a.len() implies {
        &&& (#[trigger] c[m]).windows.windows@.len() == a[m].windows.windows@.len()
        &&& c[m].windows.cur == a[m].windows.cur
        &&& c[m].tags == a[m].tags
        &&& forall|i: int| 0 <= i < a[m].windows.windows@.len() ==> same_id_and_tags(#[trigger] c[m].windows.windows@[i], a[m].windows.windows@[i])
    } by {
        assert(b[m].windows.windows@.len() == a[m].windows.windows@.len());
        assert forall|i: int| 0 <= i < a[m].windows.windows@.len() implies same_id_and_tags(#[trigger] c[m].windows.windows@[i], a[m].windows.windows@[i]) by {
            assert(same_id_and_tags(c[m].windows.windows@[i], b[m].windows.windows@[i]));
            assert(same_id_and_tags(b[m].windows.windows@[i], a[m].windows.windows@[i]));
        }
    }
}

/// Reconciliation keeps the shape.
pub proof fn lemma_same_model_shape(a: Seq<Monitor>, b: Seq<Monitor>)
    requires
        same_model(a, b),
    ensures
        shape_kept(a, b),
{
    assert forall|m: int| 0 <= m < a.len() implies {
        &&& (#[trigger] b[m]).windows.windows@.len() == a[m].windows.windows@.len()
        &&& b[m].windows.cur == a[m].windows.cur
        &&& b[m].tags == a[m].tags
        &&& forall|i: int| 0 <= i < a[m].windows.windows@.len() ==> same_id_and_tags(#[trigger] b[m].windows.windows@[i], a[m].windows.windows@[i])
    } by {
        let x = a[m];
        assert forall|i: int| 0 <= i < x.windows.windows@.len() implies same_id_and_tags(#[trigger] b[m].windows.windows@[i], x.windows.windows@[i]) by {}
    }
}

/// The drag's move survives later steps that keep the shape and the focused monitor.
pub proof fn lemma_drag_moves_kept(s0: WMState, sa: WMState, sb: WMState, x: i16, y: i16)
    requires
        drag_moves(s0, sa, x, y),
        shape_kept(sa.ms(), sb.ms()),
        sb.monitors.cur == sa.monitors.cur,
        sa.monitors.cur < sa.ms().len(),
    ensures
        drag_moves(s0, sb, x, y),
{
    lemma_shape_kept(sa.ms(), sb.ms());
    let c = sa.monitors.cur as int;
    assert(sb.ms()[c] == cur_mon(sb));
}

/// Pointer motion.
pub open spec fn motion_done(s0: WMState, s1: WMState, window: u32, root_x: i16, root_y: i16) -> bool {
    &&& s1.config == s0.config && s1.running == s0.running
    &&& s1.ms().len() == s0.ms().len()
    &&& forall|m: int| 0 <= m < s0.ms().len() ==> (#[trigger] s1.ms()[m]).rect == s0.ms()[m].rect && s1.ms()[m].tags == s0.ms()[m].tags
    &&& s0.dragging_window is None ==> shape_kept(s0.ms(), s1.ms())
    &&& s1.dragging_window == s0.dragging_window
    &&& forall|w: u32| #[trigger] managed(s1.ms(), w) == managed(s0.ms(), w)
    &&& crosses(s0, root_x, root_y) && (exists|j: int| 0 <= j < s0.ms().len() && (#[trigger] s0.ms()[j]).rect.spec_contains(root_x as int, root_y as int))
        ==> s1.ms()[s1.monitors.cur as int].rect.spec_contains(root_x as int, root_y as int)
        && (forall|j: int| 0 <= j < s1.monitors.cur ==> !(#[trigger] s1.ms()[j]).rect.spec_contains(root_x as int, root_y as int))
    &&& !crosses(s0, root_x, root_y) ==> s1.monitors.cur == s0.monitors.cur
    &&& match s0.dragging_window {
        Some((w, (ax, ay))) => window == w && has_id(cur_mon(s1).windows.windows@, w) ==> {
            let rec = record_of(cur_mon(s1), w);
            &&& rec.floating
            &&& rec.x == clamp_i16(ax + root_x)
            &&& rec.y == clamp_i16(ay + root_y)
        },
        None => true,
    }
    &&& match (s0.dragging_window, s0.resizing_window) {
        (None, Some((w, (ox, oy)))) => window == w && s1.monitors.cur == s0.monitors.cur
            && has_id(cur_mon(s0).windows.windows@, w) ==> {
            let before = record_of(cur_mon(s0), w);
            let rec = record_of(cur_mon(s1), w);
            &&& s1.resizing_window == Some((w, (root_x, root_y)))
            &&& has_id(cur_mon(s1).windows.windows@, w)
            &&& rec.floating
            &&& rec.width == clamp_u16(at_least_one(before.width + root_x - ox))
            &&& rec.height == clamp_u16(at_least_one(before.height + root_y - oy))
        },
        _ => true,
    }
}

/// A drag that crosses into another monitor takes the dragged window along: it is
/// held by the monitor under the pointer and no other, at the front when it came
/// from elsewhere, and focused there when visible.
pub open spec fn drag_moves(s0: WMState, s1: WMState, x: i16, y: i16) -> bool {
    match s0.dragging_window {
        Some((w, _)) => crosses(s0, x, y)
            && (exists|j: int| 0 <= j < s0.ms().len() && (#[trigger] s0.ms()[j]).rect.spec_contains(x as int, y as int))
            && managed(s0.ms(), w) && s0.ms()[s1.monitors.cur as int].windows.windows@.len() < usize::MAX ==> {
            let here = cur_mon(s1);
            &&& has_id(here.windows.windows@, w)
            &&& forall|m: int| 0 <= m < s1.ms().len() && m != s1.monitors.cur ==> !#[trigger] has_id(s1.ms()[m].windows.windows@, w)
            &&& !has_id(s0.ms()[s1.monitors.cur as int].windows.windows@, w) ==> {
                &&& here.windows.windows@[0].id == w
                &&& here.windows.windows@[0].tags == record_of(s0.ms()[owner_of(s0.ms(), w)], w).tags
                &&& win_visible(here.windows.windows@[0], here.tags@) ==> here.windows.cur == Some(0usize)
            }
        },
        None => true,
    }
}

/// What pointer motion asks of the X server: move and raise a dragged window,
/// resize and raise a resized one, then reconcile; reconcile alone when focus
/// crossed to another monitor; nothing for motion over another window.
pub open spec fn motion_requests(s0: WMState, s1: WMState, window: u32, x: i16, y: i16) -> Seq<XRequest> {
    match s0.dragging_window {
        Some((w, (ax, ay))) => if window != w {
            Seq::empty()
        } else {
            seq![XRequest::MoveAbove { window: w, x: (ax + x) as i32, y: (ay + y) as i32 }] + reconciled(s1)
        },
        None => match s0.resizing_window {
            Some((w, (ox, oy))) => if window != w {
                Seq::empty()
            } else {
                (if has_id(s0.ms()[s1.monitors.cur as int].windows.windows@, w) {
                    let rec = record_of(s0.ms()[s1.monitors.cur as int], w);
                    seq![XRequest::ResizeAbove {
                        window: w,
                        width: at_least_one(rec.width + x - ox) as u32,
                        height: at_least_one(rec.height + y - oy) as u32,
                    }]
                } else {
                    Seq::empty()
                }) + reconciled(s1)
            },
            None => if s1.monitors.cur != s0.monitors.cur {
                reconciled(s1)
            } else {
                Seq::empty()
            },
        },
    }
}

/// Every monitor keeps its windows' ids and tags, its cursor and its tag slots.
pub open spec fn shape_kept(ms: Seq<Monitor>, ms2: Seq<Monitor>) -> bool {
    &&& ms2.len() == ms.len()
    &&& forall|m: int| 0 <= m < ms.len() ==> {
        &&& (#[trigger] ms2[m]).windows.windows@.len() == ms[m].windows.windows@.len()
        &&& ms2[m].windows.cur == ms[m].windows.cur
        &&& ms2[m].tags == ms[m].tags
        &&& forall|i: int| 0 <= i < ms[m].windows.windows@.len() ==> same_id_and_tags(#[trigger] ms2[m].windows.windows@[i], ms[m].windows.windows@[i])
    }
}

pub proof fn lemma_shape_kept(ms: Seq<Monitor>, ms2: Seq<Monitor>)
    requires
        shape_kept(ms, ms2),
    ensures
        forall|m: int, id: u32| 0 <= m < ms.len() ==> #[trigger] has_id(ms2[m].windows.windows@, id) == has_id(ms[m].windows.windows@, id),
        forall|m: int| 0 <= m < ms.len() && ms[m].windows.windows@.len() > 0 ==> (#[trigger] ms2[m]).windows.windows@[0].id == ms[m].windows.windows@[0].id
            && ms2[m].windows.windows@[0].tags == ms[m].windows.windows@[0].tags
            && win_visible(ms2[m].windows.windows@[0], ms2[m].tags@) == win_visible(ms[m].windows.windows@[0], ms[m].tags@),
{
    assert forall|m: int, id: u32| 0 <= m < ms.len() implies #[trigger] has_id(ms2[m].windows.windows@, id) == has_id(ms[m].windows.windows@, id) by {
        let a = ms[m].windows.windows@;
        let b = ms2[m].windows.windows@;
        assert forall|i: int| 0 <= i < a.len() implies (#[trigger] b[i]).id == a[i].id by {
            assert(same_id_and_tags(b[i], a[i]));
        }
        lemma_first_same_ids(a, b, id);
    }
    assert forall|m: int| 0 <= m < ms.len() && ms[m].windows.windows@.len() > 0 implies (#[trigger] ms2[m]).windows.windows@[0].id == ms[m].windows.windows@[0].id
        && ms2[m].windows.windows@[0].tags == ms[m].windows.windows@[0].tags
        && win_visible(ms2[m].windows.windows@[0], ms2[m].tags@) == win_visible(ms[m].windows.windows@[0], ms[m].tags@) by {
        assert(same_id_and_tags(ms2[m].windows.windows@[0], ms[m].windows.windows@[0]));
        assert(ms2[m].windows.windows@[0].tags@ == ms[m].windows.windows@[0].tags@);
    }
}

/// The pointer entering a window.
pub open spec fn enter_done(s0: WMState, s1: WMState, window: u32, mode: u8, detail: u8) -> bool {
    &&& s1.config == s0.config && s1.running == s0.running
    &&& s1.dragging_window == s0.dragging_window && s1.resizing_window == s0.resizing_window
    &&& !(mode == NOTIFY_NORMAL && detail == NOTIFY_INFERIOR && s0.config.follow_cursor) ==> s1.monitors == s0.monitors
    &&& mode == NOTIFY_NORMAL && detail == NOTIFY_INFERIOR && s0.config.follow_cursor && focusable(s0.ms(), window) ==> {
        let o = owner_of(s0.ms(), window);
        let k = first_from(s0.ms()[o].windows.windows@, id_pred(window), 0)->0;
        &&& s1.monitors.cur == o
        &&& others_kept(s0.ms(), s1.ms(), o)
        &&& cursor_moved(s0.ms()[o], s1.ms()[o], Some(k as usize))
    }
    &&& forall|w: u32| #[trigger] managed(s1.ms(), w) == managed(s0.ms(), w)
}

/// A property change.
pub open spec fn property_done(s0: WMState, s1: WMState, window: u32, deleted: bool, atom: u32, transient_for: Option<u32>) -> bool {
    &&& s1.config == s0.config && s1.running == s0.running
    &&& s1.dragging_window == s0.dragging_window && s1.resizing_window == s0.resizing_window
    &&& s1.monitors.cur == s0.monitors.cur
    &&& forall|w: u32| #[trigger] managed(s1.ms(), w) == managed(s0.ms(), w)
    &&& !makes_transient(s0, window, deleted, atom, transient_for) ==> s1.monitors == s0.monitors
    &&& makes_transient(s0, window, deleted, atom, transient_for) ==> {
        let o = owner_of(s0.ms(), window);
        let k = first_from(s0.ms()[o].windows.windows@, id_pred(window), 0)->0;
        &&& others_kept(s0.ms(), s1.ms(), o)
        &&& s1.ms()[o].windows.windows@ == s0.ms()[o].windows.windows@.update(k,
            s1.ms()[o].windows.windows@[k])
        &&& s1.ms()[o].windows.windows@[k].floating
    }
}

/// The pointer left the focused monitor while dragging, resizing or following it.
pub open spec fn crosses(s: WMState, x: i16, y: i16) -> bool {
    !cur_mon(s).rect.spec_contains(x as int, y as int)
        && (s.dragging_window is Some || s.resizing_window is Some || s.config.follow_cursor)
}

/// The record of a window on the monitor.
pub open spec fn record_of(m: Monitor, id: u32) -> WinState {
    m.windows.windows@[first_from(m.windows.windows@, id_pred(id), 0)->0]
}

/// Histories with the same ids at each position find the same record for an id.
pub proof fn lemma_first_same_ids(a: Seq<WinState>, b: Seq<WinState>, id: u32)
    requires
        b.len() == a.len(),
        forall|i: int| 0 <= i < a.len() ==> (#[trigger] b[i]).id == a[i].id,
    ensures
        first_from(b, id_pred(id), 0) == first_from(a, id_pred(id), 0),
        has_id(b, id) == has_id(a, id),
{
    let p = id_pred(id);
    assert forall|i: int| 0 <= i < a.len() implies p(#[trigger] b[i]) == p(a[i]) by {}
    lemma_first_from_same(a, b, p, 0);
    if has_id(a, id) {
        let k = choose|k: int| 0 <= k < a.len() && #[trigger] a[k].id == id;
        assert(b[k].id == id);
    }
    if has_id(b, id) {
        let k = choose|k: int| 0 <= k < b.len() && #[trigger] b[k].id == id;
        assert(a[k].id == id);
    }
}

/// Floating windows keep their records.
pub open spec fn floating_kept(ms: Seq<Monitor>, ms2: Seq<Monitor>) -> bool {
    forall|m: int, i: int|
        0 <= m < ms.len() && 0 <= i < ms[m].windows.windows@.len() && (#[trigger] ms[m].windows.windows@[i]).floating
            ==> ms2[m].windows.windows@[i] == ms[m].windows.windows@[i]
}

/// The reconciliation requests of a state, with its own border width and gap.
pub open spec fn reconciled(s: WMState) -> Seq<XRequest> {
    reconcile_requests(s.ms(), s.monitors.cur as int, s.root, s.config.border_width as int, s.config.gap as int)
}

/// Same windows, tags, cursors and layouts; only geometry may differ.
pub open spec fn same_model(ms: Seq<Monitor>, ms2: Seq<Monitor>) -> bool {
    &&& ms2.len() == ms.len()
    &&& forall|m: int| 0 <= m < ms.len() ==> {
        let a = #[trigger] ms[m];
        let b = ms2[m];
        &&& b.tags == a.tags && b.id == a.id && b.rect == a.rect && b.layout == a.layout
        &&& b.windows.cur == a.windows.cur
        &&& b.windows.windows@.len() == a.windows.windows@.len()
        &&& forall|i: int| 0 <= i < a.windows.windows@.len() ==> same_id_and_tags(#[trigger] b.windows.windows@[i], a.windows.windows@[i])
            && b.windows.windows@[i].floating == a.windows.windows@[i].floating
    }
}

impl WMState {
    /// The monitors are well formed (tags, focus, one owner per window), the layout
    /// ring is not empty, and the pointer does not drag and resize at once.
    pub open spec fn wf(&self) -> bool {
        &&& self.monitors.wf()
        &&& self.config.layouts@.len() > 0
        &&& !(self.dragging_window is Some && self.resizing_window is Some)
    }

    pub open spec fn ms(&self) -> Seq<Monitor> {
        self.monitors.monitors@
    }

    /// A window manager with one monitor per rectangle, each with a random id and
    /// the configuration's first layout; the first monitor is focused.
    pub fn new(config: Config, root: u32, transient_for_atom: u32, rects: Vec<Rect>, rng: &mut oorandom::Rand32) -> (r: Result<WMState, StartupError>)
        ensures
            config.layouts@.len() == 0 ==> r == Err::<WMState, StartupError>(StartupError::NoLayouts),
            config.layouts@.len() > 0 && rects@.len() == 0 ==> r == Err::<WMState, StartupError>(StartupError::NoMonitors),
            config.layouts@.len() > 0 && rects@.len() > 0 ==> (r matches Ok(s) && {
                &&& s.wf()
                &&& s.config == config && s.root == root && s.transient_for_atom == transient_for_atom
                &&& s.running && s.dragging_window is None && s.resizing_window is None
                &&& s.monitors.cur == 0
                &&& s.ms().len() == rects@.len()
                &&& forall|m: int| 0 <= m < rects@.len() ==> (#[trigger] s.ms()[m]).rect == rects@[m]
                    && s.ms()[m].layout == config.layouts@[0] && s.ms()[m].windows.windows@.len() == 0
            }),
    {
        if config.layouts.len() == 0 {
            return Err(StartupError::NoLayouts);
        }
        if rects.len() == 0 {
            return Err(StartupError::NoMonitors);
        }
        let layout = config.layouts[0];
        let mut monitors: Vec<Monitor> = Vec::new();
        let mut i: usize = 0;
        while i < rects.len()
            invariant
                i <= rects@.len(),
                monitors@.len() == i,
                forall|m: int| 0 <= m < i ==> (#[trigger] monitors@[m]).wf() && monitors@[m].rect == rects@[m]
                    && monitors@[m].layout == layout && monitors@[m].windows.windows@.len() == 0,
            decreases rects.len() - i,
        {
            let m = Monitor::new(layout, rng, rects[i]);
            monitors.push(m);
            i = i + 1;
        }
        Ok(WMState {
            config,
            root,
            transient_for_atom,
            running: true,
            monitors: MonitorsHistory::new(monitors),
            dragging_window: None,
            resizing_window: None,
        })
    }

    /// Gives focus to a managed, visible window: its monitor becomes the focused one
    /// and the window that monitor's focused window. Any other id changes nothing.
    pub fn focus(&mut self, id: u32, reqs: &mut Vec<XRequest>)
        requires
            old(self).wf(),
        ensures
            final(self).root == old(self).root && final(self).transient_for_atom == old(self).transient_for_atom,
            final(self).wf(),
            final(self).config == old(self).config && final(self).running == old(self).running,
            final(self).dragging_window == old(self).dragging_window && final(self).resizing_window == old(self).resizing_window,
            focusable(old(self).ms(), id) ==> {
                let o = owner_of(old(self).ms(), id);
                let k = first_from(old(self).ms()[o].windows.windows@, id_pred(id), 0)->0;
                &&& final(self).monitors.cur == o
                &&& others_kept(old(self).ms(), final(self).ms(), o)
                &&& cursor_moved(old(self).ms()[o], final(self).ms()[o], Some(k as usize))
            },
            !focusable(old(self).ms(), id) ==> final(self).monitors == old(self).monitors,
            forall|w: u32| #[trigger] managed(final(self).ms(), w) == managed(old(self).ms(), w),
            final(reqs)@ == old(reqs)@ + focus_requests(*old(self), id),
    {
        let ghost ms = self.ms();
        let o = match self.monitors.find_window(id) {
            Some(o) => o,
            None => {
                return;
            },
        };
        proof {
            lemma_owner(ms, o as int, id);
            lemma_first_from(ms[o as int].windows.windows@, id_pred(id), 0);
        }
        let k = match self.monitors.monitors[o].windows.find_by_id(id) {
            Some(k) => k,
            None => {
                return;
            },
        };
        if !is_visible(&self.monitors.monitors[o].windows.windows[k], self.monitors.monitors[o].tags.as_slice()) {
            return;
        }
        let cur = self.monitors.cur;
        if let Some(prev) = self.monitors.monitors[cur].focused_id() {
            if self.monitors.monitors.len() == 1 && prev == id {
                proof {
                    let m = ms[o as int];
                    lemma_unique_position(m.windows.windows@, m.windows.cur->0 as int);
                }
                return;
            }
            self.emit_unfocus(prev, reqs);
        }
        self.monitors.cur = o;
        self.monitors.monitors[o].focus_window(id);
        proof {
            let m2 = self.ms()[o as int];
            assert(self.ms() =~= ms.update(o as int, m2));
            lemma_replace_shrinking(ms, o as int, m2);
            lemma_keeps_managed(ms, o as int, m2);
        }
        self.emit_focus(id, reqs);
    }

    /// Reconciles the X server with the model: maps the visible windows and unmaps
    /// the others, places the tiled windows of every monitor, and gives input focus
    /// to the root window when the focused monitor has no focused window. The
    /// requests are exactly `reconcile_requests` of the state before.
    pub fn update_windows(&mut self, reqs: &mut Vec<XRequest>)
        requires
            old(self).wf(),
        ensures
            final(self).root == old(self).root && final(self).transient_for_atom == old(self).transient_for_atom,
            final(self).wf(),
            final(self).config == old(self).config && final(self).running == old(self).running,
            final(self).dragging_window == old(self).dragging_window && final(self).resizing_window == old(self).resizing_window,
            final(self).monitors.cur == old(self).monitors.cur,
            same_model(old(self).ms(), final(self).ms()),
            floating_kept(old(self).ms(), final(self).ms()),
            final(reqs)@ == old(reqs)@ + reconcile_requests(old(self).ms(), old(self).monitors.cur as int, old(self).root,
                old(self).config.border_width as int, old(self).config.gap as int),
            final(reqs)@ == old(reqs)@ + reconciled(*final(self)),
    {
        let ghost r0 = reqs@;
        let ghost ms0 = self.ms();
        let n = self.monitors.monitors.len();
        let mut m: usize = 0;
        while m < n
            invariant
                n == self.ms().len(),
                m <= n,
                self.monitors == old(self).monitors,
                ms0 == old(self).ms(),
                reqs@ == r0 + map_requests(ms0, m as int),
            decreases n - m,
        {
            let mon = &self.monitors.monitors[m];
            let ghost before = reqs@;
            let mut i: usize = 0;
            while i < mon.windows.windows.len()
                invariant
                    i <= mon.windows.windows@.len(),
                    *mon == ms0[m as int],
                    reqs@ == before + window_map_requests(ms0[m as int]).take(i as int),
                decreases mon.windows.windows.len() - i,
            {
                let w = mon.windows.windows[i].id;
                if is_visible(&mon.windows.windows[i], mon.tags.as_slice()) {
                    reqs.push(XRequest::MapWindow { window: w });
                } else {
                    reqs.push(XRequest::UnmapWindow { window: w });
                }
                assert(window_map_requests(ms0[m as int]).take(i as int + 1) =~= window_map_requests(ms0[m as int]).take(i as int).push(
                    window_map_requests(ms0[m as int])[i as int]));
                i = i + 1;
            }
            assert(window_map_requests(ms0[m as int]).take(i as int) =~= window_map_requests(ms0[m as int]));
            assert(reqs@ =~= r0 + map_requests(ms0, m as int + 1));
            m = m + 1;
        }
        let bw = self.config.border_width;
        let gap = self.config.gap;
        let ghost r1 = reqs@;
        m = 0;
        while m < n
            invariant
                n == self.ms().len(),
                m <= n,
                monitors_wf(self.ms()),
                self.monitors.cur == old(self).monitors.cur,
                self.monitors.cur < n,
                ms0 == old(self).ms(),
                same_model(ms0, self.ms()),
                floating_kept(ms0, self.ms()),
                forall|j: int| m <= j < n ==> #[trigger] self.ms()[j] == ms0[j],
                self.config == old(self).config && self.running == old(self).running,
                self.dragging_window == old(self).dragging_window && self.resizing_window == old(self).resizing_window,
                bw == self.config.border_width && gap == self.config.gap,
                self.root == old(self).root && self.transient_for_atom == old(self).transient_for_atom,
                r1 == r0 + map_requests(ms0, n as int),
                reqs@ == r1 + place_requests(ms0, m as int, bw as int, gap as int),
            decreases n - m,
        {
            let ghost before = self.ms();
            let placements = self.monitors.monitors[m].update_layout(bw, gap);
            proof {
                let a = before[m as int];
                let b = self.ms()[m as int];
                lemma_same_shape(a.windows.windows@, b.windows.windows@, a.tags@);
                assert(self.ms() =~= before.update(m as int, b));
                lemma_replace_shrinking(before, m as int, b);
                assert forall|j: int, i: int|
                    0 <= j < ms0.len() && 0 <= i < ms0[j].windows.windows@.len() && (#[trigger] ms0[j].windows.windows@[i]).floating
                        implies self.ms()[j].windows.windows@[i] == ms0[j].windows.windows@[i] by {
                    if j == m {
                        assert(before[j] == ms0[j]);
                        assert(!crate::monitor::tilable(ms0[j].windows.windows@[i], ms0[j].tags@));
                    } else {
                        assert(self.ms()[j] == before[j]);
                    }
                }
                assert forall|j: int| 0 <= j < n implies {
                    let a = #[trigger] ms0[j];
                    let b = self.ms()[j];
                    &&& b.tags == a.tags && b.id == a.id && b.rect == a.rect && b.layout == a.layout
                    &&& b.windows.cur == a.windows.cur
                    &&& b.windows.windows@.len() == a.windows.windows@.len()
                    &&& forall|i: int| 0 <= i < a.windows.windows@.len() ==> same_id_and_tags(#[trigger] b.windows.windows@[i], a.windows.windows@[i])
                        && b.windows.windows@[i].floating == a.windows.windows@[i].floating
                } by {
                    if j == m {
                        let c = before[j];
                        assert forall|i: int| 0 <= i < ms0[j].windows.windows@.len() implies same_id_and_tags(#[trigger] self.ms()[j].windows.windows@[i], ms0[j].windows.windows@[i])
                            && self.ms()[j].windows.windows@[i].floating == ms0[j].windows.windows@[i].floating by {
                            assert(same_id_and_tags(c.windows.windows@[i], ms0[j].windows.windows@[i]));
                        }
                    }
                }
            }
            let ghost before_reqs = reqs@;
            let ghost places = placements@.map_values(|p: Placement| XRequest::Place(p));
            let mut i: usize = 0;
            while i < placements.len()
                invariant
                    i <= placements@.len(),
                    places == placements@.map_values(|p: Placement| XRequest::Place(p)),
                    reqs@ == before_reqs + places.take(i as int),
                decreases placements.len() - i,
            {
                reqs.push(XRequest::Place(placements[i]));
                assert(places.take(i as int + 1) =~= places.take(i as int).push(places[i as int]));
                i = i + 1;
            }
            assert(places.take(i as int) =~= places);
            assert(reqs@ =~= r1 + place_requests(ms0, m as int + 1, bw as int, gap as int));
            m = m + 1;
        }
        let cur = self.monitors.cur;
        if self.monitors.monitors[cur].windows.cur.is_none() {
            reqs.push(XRequest::SetInputFocus { window: self.root });
        }
        assert(reqs@ =~= old(reqs)@ + reconcile_requests(ms0, self.monitors.cur as int, self.root, bw as int, gap as int));
        proof {
            lemma_reconcile_same_model(ms0, self.ms(), self.monitors.cur as int, self.root, bw as int, gap as int);
        }
    }
}

/// A copy of the tag list.
fn copy_tags(v: &Vec<TagId>) -> (r: Vec<TagId>)
    ensures
        r@ == v@,
{
    let mut r: Vec<TagId> = Vec::new();
    let mut i: usize = 0;
    while i < v.len()
        invariant
            i <= v@.len(),
            r@ == v@.take(i as int),
        decreases v.len() - i,
    {
        r.push(v[i]);
        assert(r@ =~= v@.take(i as int + 1));
        i = i + 1;
    }
    assert(v@.take(v@.len() as int) =~= v@);
    r
}

/// `-v`, with `i16::MIN` taken to `i16::MAX`.
fn neg_i16(v: i16) -> (r: i16)
    ensures
        r == (if v == i16::MIN { i16::MAX as int } else { -v }),
{
    if v == i16::MIN {
        i16::MAX
    } else {
        -v
    }
}

fn clamp_to_i16(v: i32) -> (r: i16)
    ensures
        r == clamp_i16(v as int),
{
    if v < i16::MIN as i32 {
        i16::MIN
    } else if v > i16::MAX as i32 {
        i16::MAX
    } else {
        v as i16
    }
}

fn clamp_to_u16(v: i32) -> (r: u16)
    requires
        v >= 0,
    ensures
        r == clamp_u16(v as int),
{
    if v > u16::MAX as i32 {
        u16::MAX
    } else {
        v as u16
    }
}

/// The window is transient for a managed window.
pub open spec fn has_managed_parent(ms: Seq<Monitor>, info: NewWindow) -> bool {
    match info.transient_for {
        Some(p) => managed(ms, p),
        None => false,
    }
}

/// The tags a new window gets: the spawn rule's, else its managed parent's, else
/// the visible tags of the monitor it spawns on.
pub open spec fn new_window_tags(s: WMState, info: NewWindow) -> Seq<TagId> {
    let ms = s.ms();
    match spec_rule_tags(s.config.rules@, class_names(info.class_prop@), info.wm_name@) {
        Some(t) => t,
        None => match info.transient_for {
            Some(p) => if managed(ms, p) {
                let o = owner_of(ms, p);
                ms[o].windows.windows@[first_from(ms[o].windows.windows@, id_pred(p), 0)->0].tags@
            } else {
                visible_ids(ms[s.monitors.cur as int].tags@)
            },
            None => visible_ids(ms[s.monitors.cur as int].tags@),
        },
    }
}

impl WMState {
    /// The record of a managed window, if any.
    fn find_record(&self, id: u32) -> (r: Option<(usize, usize)>)
        requires
            self.wf(),
        ensures
            match r {
                Some((o, k)) => managed(self.ms(), id) && o == owner_of(self.ms(), id)
                    && first_from(self.ms()[o as int].windows.windows@, id_pred(id), 0) == Some(k as int)
                    && k < self.ms()[o as int].windows.windows@.len(),
                None => !managed(self.ms(), id),
            },
    {
        match self.monitors.find_window(id) {
            Some(o) => {
                proof {
                    lemma_owner(self.ms(), o as int, id);
                    lemma_first_from(self.ms()[o as int].windows.windows@, id_pred(id), 0);
                }
                match self.monitors.monitors[o].windows.find_by_id(id) {
                    Some(k) => Some((o, k)),
                    None => None,
                }
            },
            None => None,
        }
    }

    /// Takes a new window under management on the focused monitor: border, events
    /// and button grabs, placement at the monitor's origin under the floating layout,
    /// mapping, then a record at the front of the monitor's history with the tags of
    /// `new_window_tags`; a transient window with a managed parent floats. A window
    /// already managed is left as it is.
    pub fn manage_window(&mut self, info: NewWindow, reqs: &mut Vec<XRequest>)
        requires
            old(self).wf(),
        ensures
            final(self).root == old(self).root && final(self).transient_for_atom == old(self).transient_for_atom,
            final(self).wf(),
            final(self).config == old(self).config && final(self).running == old(self).running,
            final(self).dragging_window == old(self).dragging_window && final(self).resizing_window == old(self).resizing_window,
            final(self).monitors.cur == old(self).monitors.cur,
            managed(old(self).ms(), info.id) ==> final(self).monitors == old(self).monitors,
            cur_mon(*old(self)).windows.windows@.len() == usize::MAX ==> final(self).monitors == old(self).monitors,
            final(reqs)@ == old(reqs)@ + (if managed(old(self).ms(), info.id) || cur_mon(*old(self)).windows.windows@.len() == usize::MAX {
                Seq::empty()
            } else {
                manage_requests(*old(self), info)
            }),
            forall|w: u32| managed(old(self).ms(), w) ==> #[trigger] managed(final(self).ms(), w),
            !managed(old(self).ms(), info.id) && old(self).ms()[old(self).monitors.cur as int].windows.windows@.len() < usize::MAX ==> {
                let c = old(self).monitors.cur as int;
                let before = old(self).ms()[c];
                let after = final(self).ms()[c];
                let w = after.windows.windows@[0];
                &&& others_kept(old(self).ms(), final(self).ms(), c)
                &&& after.windows.windows@.len() == before.windows.windows@.len() + 1
                &&& after.windows.windows@.drop_first() == before.windows.windows@
                &&& after.tags == before.tags
                &&& w.id == info.id && w.width == info.width && w.height == info.height
                &&& w.tags@ == new_window_tags(*old(self), info)
                &&& w.floating == has_managed_parent(old(self).ms(), info)
                &&& (w.x, w.y) == (if before.layout == LayoutType::Floating { (before.rect.x, before.rect.y) } else { (info.x, info.y) })
                &&& after.windows.cursor() == (match before.windows.cursor() {
                    Some(k) => Some(k + 1),
                    None => if win_visible(w, before.tags@) {
                        Some(0int)
                    } else {
                        None::<int>
                    },
                })
            },
    {
        if self.monitors.find_window(info.id).is_some() {
            assert(old(reqs)@ + Seq::empty() =~= old(reqs)@);
            return;
        }
        let id = info.id;
        let cur = self.monitors.cur;
        if self.monitors.monitors[cur].windows.windows.len() == usize::MAX {
            assert(old(reqs)@ + Seq::empty() =~= old(reqs)@);
            return;
        }
        reqs.push(XRequest::SetBorderWidth { window: id, border_width: self.config.border_width });
        reqs.push(XRequest::SelectEvents { window: id });
        reqs.push(XRequest::GrabButtons { window: id, focused: false });
        let (mut x, mut y) = (info.x, info.y);
        if self.monitors.monitors[cur].layout == LayoutType::Floating {
            x = self.monitors.monitors[cur].rect.x;
            y = self.monitors.monitors[cur].rect.y;
            reqs.push(XRequest::Place(Placement {
                window: id,
                x: x as i64,
                y: y as i64,
                width: info.width as u32,
                height: info.height as u32,
                border_width: self.config.border_width,
            }));
        }
        reqs.push(XRequest::MapWindow { window: id });
        assert(reqs@ =~= old(reqs)@ + manage_requests(*old(self), info));
        let mut win = WinState::new(id, x, y, info.width, info.height, self.monitors.monitors[cur].tags.as_slice());
        if let Some(p) = info.transient_for {
            if let Some((o, k)) = self.find_record(p) {
                win.tags = copy_tags(&self.monitors.monitors[o].windows.windows[k].tags);
                win.floating = true;
            }
        }
        if let Some(t) = self.config.rule_tags_for(info.class_prop.as_str(), info.wm_name.as_str()) {
            win.tags = t;
        }
        let ghost ms = self.ms();
        self.monitors.monitors[cur].add_window(win);
        proof {
            lemma_replace_adding(ms, cur as int, self.ms()[cur as int], id);
            assert(self.ms() =~= ms.update(cur as int, self.ms()[cur as int]));
            let ws0 = ms[cur as int].windows.windows@;
            let ws1 = self.ms()[cur as int].windows.windows@;
            assert(ws1.drop_first() =~= ws0);
            assert forall|w: u32| managed(ms, w) implies #[trigger] managed(self.ms(), w) by {
                let m = choose|m: int| 0 <= m < ms.len() && #[trigger] has_id(ms[m].windows.windows@, w);
                if m == cur {
                    let k = choose|k: int| 0 <= k < ws0.len() && #[trigger] ws0[k].id == w;
                    assert(ws1[k + 1] == ws0[k]);
                }
                assert(has_id(self.ms()[m].windows.windows@, w));
            }
        }
    }

    /// Forgets a destroyed window. On the focused monitor the window that follows it
    /// takes focus; on another monitor that monitor's cursor follows the same rule.
    pub fn unmanage_window(&mut self, id: u32, reqs: &mut Vec<XRequest>)
        requires
            old(self).wf(),
        ensures
            final(self).wf(),
            unmanage_done(*old(self), *final(self), id),
    {
        reqs.push(XRequest::UnmapWindow { window: id });
        if let Some((w, _)) = self.dragging_window {
            if w == id {
                self.dragging_window = None;
            }
        }
        if let Some((w, _)) = self.resizing_window {
            if w == id {
                self.resizing_window = None;
            }
        }
        let cur = self.monitors.cur;
        let ghost ms = self.ms();
        match self.monitors.find_window(id) {
            Some(o) => {
                proof {
                    lemma_owner(ms, o as int, id);
                }
                let (_, next) = self.monitors.monitors[o].remove_window(id);
                proof {
                    lemma_first_from(ms[o as int].windows.windows@, id_pred(id), 0);
                    lemma_removed(ms, o as int, self.ms()[o as int], id);
                    assert(self.ms() =~= ms.update(o as int, self.ms()[o as int]));
                }
                if o == cur {
                    if let Some(n) = next {
                        self.emit_focus(n, reqs);
                    }
                }
            },
            None => {},
        }
        reqs.push(XRequest::UngrabButtons { window: id });
        let ghost ms1 = self.ms();
        self.update_windows(reqs);
        proof {
            lemma_same_model_managed(ms1, self.ms());
            let o_any: int = if managed(ms, id) { owner_of(ms, id) } else { -1 };
            assert forall|m: int| 0 <= m < ms.len() && m != o_any implies #[trigger] ms1[m] == ms[m] by {}
            assert forall|m: int| 0 <= m < ms.len() && m != o_any implies {
                &&& same_windows((#[trigger] ms[m]).windows.windows@, self.ms()[m].windows.windows@)
                &&& self.ms()[m].windows.cur == ms[m].windows.cur
                &&& self.ms()[m].tags == ms[m].tags
            } by {
                assert(ms1[m] == ms[m]);
                let x = ms1[m];
                assert forall|i: int| 0 <= i < x.windows.windows@.len() implies same_id_and_tags(#[trigger] self.ms()[m].windows.windows@[i], x.windows.windows@[i])
                    && self.ms()[m].windows.windows@[i].floating == x.windows.windows@[i].floating by {}
            }
            if managed(ms, id) {
                let o = owner_of(ms, id);
                let wa = ms1[o].windows.windows@;
                let wb = self.ms()[o].windows.windows@;
                assert forall|i: int| 0 <= i < wa.len() implies (#[trigger] wb[i]).id == wa[i].id by {
                    assert(same_id_and_tags(wb[i], wa[i]));
                }
                let next = forget_successor(ms[o].windows.windows@, ms[o].tags@, ms[o].windows.cursor(),
                    first_from(ms[o].windows.windows@, id_pred(id), 0)->0);
                if let Some(nid) = next {
                    lemma_first_same_ids(wa, wb, nid);
                }
            }
        }
    }
}

/// Monitor `o` lost the window `id` and nothing else.
proof fn lemma_removed(ms: Seq<Monitor>, o: int, m2: Monitor, id: u32)
    requires
        monitors_wf(ms),
        0 <= o < ms.len(),
        m2.wf(),
        first_from(ms[o].windows.windows@, id_pred(id), 0) matches Some(pos) && m2.windows.windows@ == ms[o].windows.windows@.remove(pos),
    ensures
        monitors_wf(ms.update(o, m2)),
        !managed(ms.update(o, m2), id),
        forall|w: u32| w != id ==> (managed(ms.update(o, m2), w) == #[trigger] managed(ms, w)),
{
    let ws = ms[o].windows.windows@;
    let pos = first_from(ws, id_pred(id), 0)->0;
    lemma_first_from(ws, id_pred(id), 0);
    let rest = m2.windows.windows@;
    assert forall|w: u32| #[trigger] has_id(rest, w) implies has_id(ws, w) && w != id by {
        let k = choose|k: int| 0 <= k < rest.len() && #[trigger] rest[k].id == w;
        let pk = if k < pos { k } else { k + 1 };
        assert(rest[k] == ws[pk]);
    }
    lemma_replace_shrinking(ms, o, m2);
    let ms2 = ms.update(o, m2);
    assert forall|w: u32| w != id implies (managed(ms2, w) == #[trigger] managed(ms, w)) by {
        if managed(ms, w) {
            let m = choose|m: int| 0 <= m < ms.len() && #[trigger] has_id(ms[m].windows.windows@, w);
            if m == o {
                let k = choose|k: int| 0 <= k < ws.len() && #[trigger] ws[k].id == w;
                assert(k != pos);
                let rk = if k < pos { k } else { k - 1 };
                assert(rest[rk] == ws[k]);
                assert(has_id(ms2[o].windows.windows@, w));
            } else {
                assert(has_id(ms2[m].windows.windows@, w));
            }
        }
    }
    if managed(ms2, id) {
        let m = choose|m: int| 0 <= m < ms2.len() && #[trigger] has_id(ms2[m].windows.windows@, id);
        if m != o {
            assert(has_id(ms[o].windows.windows@, id));
        }
    }
}

/// Reconciling keeps the set of managed windows.
proof fn lemma_same_model_managed(ms: Seq<Monitor>, ms2: Seq<Monitor>)
    requires
        same_model(ms, ms2),
    ensures
        forall|w: u32| #[trigger] managed(ms2, w) == managed(ms, w),
{
    assert forall|w: u32| #[trigger] managed(ms2, w) == managed(ms, w) by {
        if managed(ms, w) {
            let m = choose|m: int| 0 <= m < ms.len() && #[trigger] has_id(ms[m].windows.windows@, w);
            let k = choose|k: int| 0 <= k < ms[m].windows.windows@.len() && #[trigger] ms[m].windows.windows@[k].id == w;
            assert(same_id_and_tags(ms2[m].windows.windows@[k], ms[m].windows.windows@[k]));
            assert(has_id(ms2[m].windows.windows@, w));
        }
        if managed(ms2, w) {
            let m = choose|m: int| 0 <= m < ms2.len() && #[trigger] has_id(ms2[m].windows.windows@, w);
            let k = choose|k: int| 0 <= k < ms2[m].windows.windows@.len() && #[trigger] ms2[m].windows.windows@[k].id == w;
            assert(same_id_and_tags(ms2[m].windows.windows@[k], ms[m].windows.windows@[k]));
            assert(has_id(ms[m].windows.windows@, w));
        }
    }
}

/// The press starts a drag or a resize: button 1 or 3 with exactly the mod key held.
pub open spec fn is_mod_click(s: WMState, detail: u8, state: u16) -> bool {
    (detail == 1 || detail == 3) && spec_clean_mask(state) == s.config.mod_key.spec_bits()
}

/// The property change marks a managed window transient for a managed window.
pub open spec fn makes_transient(s: WMState, window: u32, deleted: bool, atom: u32, transient_for: Option<u32>) -> bool {
    &&& !deleted
    &&& atom == s.transient_for_atom
    &&& managed(s.ms(), window)
    &&& match transient_for {
        Some(p) => managed(s.ms(), p),
        None => false,
    }
}

impl WMState {
    /// A click focuses the window under the pointer. With the mod key, button 1
    /// starts dragging it and button 3 resizing it (unless the other is under way);
    /// either way it floats from then on.
    pub fn on_button_press(&mut self, window: u32, detail: u8, state: u16, event_x: i16, event_y: i16, reqs: &mut Vec<XRequest>)
        requires
            old(self).wf(),
        ensures
            final(self).wf(),
            button_press_done(*old(self), *final(self), window, detail, state, event_x, event_y),
            press_focuses(*old(self), *final(self), window),
            final(reqs)@ == old(reqs)@ + press_requests(*old(self), *final(self), window, detail, state),
    {
        if window == self.root {
            assert(old(reqs)@ + Seq::empty() =~= old(reqs)@);
            return;
        }
        self.focus(window, reqs);
        let ghost s_f = *self;
        let ghost r_f = reqs@;
        assert(r_f =~= old(reqs)@ + focus_requests(*old(self), window) + Seq::empty());
        if detail != 1 && detail != 3 {
            return;
        }
        if clean_mask(state) != self.config.mod_key.bits() {
            return;
        }
        proof {
            assert(is_mod_click(*old(self), detail, state));
        }
        let cur = self.monitors.cur;
        let k = match self.monitors.monitors[cur].windows.find_by_id(window) {
            Some(k) => k,
            None => {
                proof {
                    lemma_first_from(self.ms()[cur as int].windows.windows@, id_pred(window), 0);
                }
                return;
            },
        };
        proof {
            lemma_first_from(self.ms()[cur as int].windows.windows@, id_pred(window), 0);
        }
        let (wx, wy) = (self.monitors.monitors[cur].windows.windows[k].x, self.monitors.monitors[cur].windows.windows[k].y);
        let (ww, wh) = (self.monitors.monitors[cur].windows.windows[k].width, self.monitors.monitors[cur].windows.windows[k].height);
        let ghost ms = self.ms();
        self.monitors.monitors[cur].update_window(window, true, None, None);
        proof {
            let a = ms[cur as int];
            let b = self.ms()[cur as int];
            lemma_same_shape(a.windows.windows@, b.windows.windows@, a.tags@);
            lemma_replace_shrinking(ms, cur as int, b);
            assert(self.ms() =~= ms.update(cur as int, b));
            lemma_keeps_managed(ms, cur as int, b);
            lemma_first_same_ids(a.windows.windows@, b.windows.windows@, window);
        }
        proof {
            assert(s_f.ms()[cur as int] == ms[cur as int]);
        }
        if detail == 1 && self.resizing_window.is_none() {
            self.dragging_window = Some((window, (neg_i16(event_x), neg_i16(event_y))));
            reqs.push(XRequest::SetBorderWidth { window, border_width: self.config.border_width });
            reqs.push(XRequest::SetCursor { window, cursor: CursorShape::Fleur });
        } else if detail == 3 && self.dragging_window.is_none() {
            let dx = clamp_to_i16(ww as i32);
            let dy = clamp_to_i16(wh as i32);
            reqs.push(XRequest::WarpPointer { window, x: dx, y: dy });
            self.resizing_window = Some((window, (clamp_to_i16(dx as i32 + wx as i32), clamp_to_i16(dy as i32 + wy as i32))));
            reqs.push(XRequest::SetCursor { window, cursor: CursorShape::BottomRightCorner });
        }
        assert(reqs@ =~= old(reqs)@ + press_requests(*old(self), *self, window, detail, state));
    }

    /// Ends a drag on button 1 and a resize on button 3.
    pub fn on_button_release(&mut self, detail: u8, reqs: &mut Vec<XRequest>)
        requires
            old(self).wf(),
        ensures
            final(self).wf(),
            button_release_done(*old(self), *final(self), detail),
            final(reqs)@ == old(reqs)@ + release_requests(*old(self), detail),
    {
        if detail == 1 {
            if let Some((window, _)) = self.dragging_window {
                reqs.push(XRequest::SetCursor { window, cursor: CursorShape::LeftPtr });
                self.dragging_window = None;
            }
        } else if detail == 3 {
            if let Some((window, _)) = self.resizing_window {
                reqs.push(XRequest::SetCursor { window, cursor: CursorShape::LeftPtr });
                self.resizing_window = None;
            }
        }
        assert(reqs@ =~= old(reqs)@ + release_requests(*old(self), detail));
    }

    /// With focus following the pointer, entering a window from its parent focuses it.
    pub fn on_enter_notify(&mut self, window: u32, mode: u8, detail: u8, reqs: &mut Vec<XRequest>)
        requires
            old(self).wf(),
        ensures
            final(reqs)@ == old(reqs)@ + enter_requests(*old(self), window, mode, detail),
            final(self).wf(),
            enter_done(*old(self), *final(self), window, mode, detail),
    {
        assert(old(reqs)@ + Seq::empty() =~= old(reqs)@);
        if mode != NOTIFY_NORMAL || detail != NOTIFY_INFERIOR {
            return;
        }
        if self.config.follow_cursor {
            self.focus(window, reqs);
        }
    }

    /// A window whose `WM_TRANSIENT_FOR` now names a managed window floats.
    pub fn on_property_notify(&mut self, window: u32, deleted: bool, atom: u32, transient_for: Option<u32>)
        requires
            old(self).wf(),
        ensures
            final(self).wf(),
            property_done(*old(self), *final(self), window, deleted, atom, transient_for),
    {
        if deleted || atom != self.transient_for_atom {
            return;
        }
        let (o, _) = match self.find_record(window) {
            Some(r) => r,
            None => {
                return;
            },
        };
        let parent = match transient_for {
            Some(p) => p,
            None => {
                return;
            },
        };
        if self.monitors.find_window(parent).is_none() {
            return;
        }
        let ghost ms = self.ms();
        self.monitors.monitors[o].update_window(window, true, None, None);
        proof {
            let a = ms[o as int];
            let b = self.ms()[o as int];
            lemma_same_shape(a.windows.windows@, b.windows.windows@, a.tags@);
            lemma_replace_shrinking(ms, o as int, b);
            assert(self.ms() =~= ms.update(o as int, b));
            lemma_keeps_managed(ms, o as int, b);
            let k = first_from(a.windows.windows@, id_pred(window), 0)->0;
            assert(b.windows.windows@ =~= a.windows.windows@.update(k, b.windows.windows@[k]));
        }
    }
}

/// Replacing a monitor by one with the same ids keeps the managed windows.
proof fn lemma_keeps_managed(ms: Seq<Monitor>, o: int, m2: Monitor)
    requires
        0 <= o < ms.len(),
        m2.windows.windows@.len() == ms[o].windows.windows@.len(),
        forall|i: int| 0 <= i < ms[o].windows.windows@.len() ==> #[trigger] m2.windows.windows@[i].id == ms[o].windows.windows@[i].id,
    ensures
        forall|w: u32| #[trigger] managed(ms.update(o, m2), w) == managed(ms, w),
{
    let ms2 = ms.update(o, m2);
    let ws = ms[o].windows.windows@;
    let ws2 = m2.windows.windows@;
    assert forall|id: u32| has_id(ws2, id) == #[trigger] has_id(ws, id) by {
        if has_id(ws, id) {
            let k = choose|k: int| 0 <= k < ws.len() && #[trigger] ws[k].id == id;
            assert(ws2[k].id == id);
        }
        if has_id(ws2, id) {
            let k = choose|k: int| 0 <= k < ws2.len() && #[trigger] ws2[k].id == id;
            assert(ws[k].id == id);
        }
    }
    assert forall|w: u32| #[trigger] managed(ms2, w) == managed(ms, w) by {
        if managed(ms, w) {
            let m = choose|m: int| 0 <= m < ms.len() && #[trigger] has_id(ms[m].windows.windows@, w);
            assert(has_id(ms2[m].windows.windows@, w));
        }
        if managed(ms2, w) {
            let m = choose|m: int| 0 <= m < ms2.len() && #[trigger] has_id(ms2[m].windows.windows@, w);
            assert(has_id(ms[m].windows.windows@, w));
        }
    }
}

impl WMState {
    /// Moves a managed window from its monitor to monitor `to`, at the front of the
    /// history, focused there when visible.
    fn move_window(&mut self, id: u32, to: usize) -> (moved: bool)
        requires
            old(self).wf(),
            to < old(self).ms().len(),
        ensures
            final(self).wf(),
            final(self).config == old(self).config && final(self).running == old(self).running,
            final(self).dragging_window == old(self).dragging_window && final(self).resizing_window == old(self).resizing_window,
            final(self).monitors.cur == old(self).monitors.cur,
            forall|w: u32| #[trigger] managed(final(self).ms(), w) == managed(old(self).ms(), w),
            final(self).ms().len() == old(self).ms().len(),
            forall|m: int| 0 <= m < old(self).ms().len() ==> (#[trigger] final(self).ms()[m]).rect == old(self).ms()[m].rect,
            moved ==> has_id(final(self).ms()[to as int].windows.windows@, id)
                && final(self).ms()[to as int].windows.windows@[0].id == id,
            moved && win_visible(final(self).ms()[to as int].windows.windows@[0], final(self).ms()[to as int].tags@)
                ==> final(self).ms()[to as int].windows.cur == Some(0usize),
            moved ==> final(self).ms()[to as int].tags == old(self).ms()[to as int].tags,
            forall|m: int| 0 <= m < old(self).ms().len() ==> (#[trigger] final(self).ms()[m]).tags == old(self).ms()[m].tags,
            moved ==> final(self).ms()[to as int].windows.windows@[0] == record_of(old(self).ms()[owner_of(old(self).ms(), id)], id),
            moved ==> forall|m: int| 0 <= m < old(self).ms().len() && m != to && m != owner_of(old(self).ms(), id)
                ==> #[trigger] final(self).ms()[m] == old(self).ms()[m],
            managed(old(self).ms(), id) && old(self).ms()[to as int].windows.windows@.len() < usize::MAX
                ==> has_id(final(self).ms()[to as int].windows.windows@, id)
                && (forall|m: int| 0 <= m < final(self).ms().len() && m != to ==> !#[trigger] has_id(final(self).ms()[m].windows.windows@, id)),
            !moved ==> final(self).monitors == old(self).monitors,
            managed(old(self).ms(), id) && old(self).ms()[to as int].windows.windows@.len() < usize::MAX
                && owner_of(old(self).ms(), id) != to ==> moved,
    {
        let from = match self.monitors.find_window(id) {
            Some(o) => o,
            None => {
                return false;
            },
        };
        proof {
            lemma_owner(self.ms(), from as int, id);
        }
        if from == to || self.monitors.monitors[to].windows.windows.len() == usize::MAX {
            return false;
        }
        let ghost ms = self.ms();
        proof {
            lemma_owner(ms, from as int, id);
            lemma_first_from(ms[from as int].windows.windows@, id_pred(id), 0);
        }
        let (removed, _) = self.monitors.monitors[from].remove_window(id);
        proof {
            lemma_removed(ms, from as int, self.ms()[from as int], id);
            assert(self.ms() =~= ms.update(from as int, self.ms()[from as int]));
        }
        let win = match removed {
            Some(w) => w,
            None => {
                return false;
            },
        };
        let ghost ms1 = self.ms();
        assert(!has_id(ms1[to as int].windows.windows@, id));
        self.monitors.monitors[to].add_window(win);
        proof {
            let b = self.ms()[to as int];
            assert forall|w: u32| #[trigger] has_id(b.windows.windows@, w) implies has_id(ms1[to as int].windows.windows@, w) || w == id by {
                let k = choose|k: int| 0 <= k < b.windows.windows@.len() && #[trigger] b.windows.windows@[k].id == w;
                if k > 0 {
                    assert(b.windows.windows@[k] == ms1[to as int].windows.windows@[k - 1]);
                }
            }
            lemma_replace_adding(ms1, to as int, b, id);
            assert(self.ms() =~= ms1.update(to as int, b));
            assert(b.windows.windows@[0].id == id);
            assert forall|w: u32| #[trigger] managed(self.ms(), w) == managed(ms, w) by {
                if w == id {
                    assert(has_id(self.ms()[to as int].windows.windows@, id));
                } else {
                    if managed(ms1, w) {
                        let m = choose|m: int| 0 <= m < ms1.len() && #[trigger] has_id(ms1[m].windows.windows@, w);
                        if m == to {
                            let k = choose|k: int| 0 <= k < ms1[m].windows.windows@.len() && #[trigger] ms1[m].windows.windows@[k].id == w;
                            assert(b.windows.windows@[k + 1] == ms1[m].windows.windows@[k]);
                        }
                        assert(has_id(self.ms()[m].windows.windows@, w));
                    }
                    if managed(self.ms(), w) {
                        let m = choose|m: int| 0 <= m < self.ms().len() && #[trigger] has_id(self.ms()[m].windows.windows@, w);
                        if m == to {
                            let k = choose|k: int| 0 <= k < b.windows.windows@.len() && #[trigger] b.windows.windows@[k].id == w;
                            assert(k > 0);
                            assert(b.windows.windows@[k] == ms1[m].windows.windows@[k - 1]);
                        }
                        assert(has_id(ms1[m].windows.windows@, w));
                    }
                }
            }
        }
        let ghost ms2 = self.ms();
        self.monitors.monitors[to].focus_window(id);
        proof {
            let b = ms2[to as int];
            let c = self.ms()[to as int];
            assert(self.ms() =~= ms2.update(to as int, c));
            assert forall|w: u32| #[trigger] has_id(c.windows.windows@, w) implies has_id(b.windows.windows@, w) by {}
            lemma_replace_shrinking(ms2, to as int, c);
            lemma_keeps_managed(ms2, to as int, c);
            lemma_unique_position(b.windows.windows@, 0);
            assert(has_id(c.windows.windows@, id));
        }
        true
    }

    /// Pointer motion. When the pointer leaves the focused monitor while dragging,
    /// resizing or following the pointer, the monitor under it takes focus, and a
    /// dragged window moves to it. A dragged window follows the pointer; a resized
    /// window grows or shrinks by the pointer's travel, to no less than one pixel.
    #[verifier::rlimit(80)]
    pub fn on_motion_notify(&mut self, window: u32, root_x: i16, root_y: i16, reqs: &mut Vec<XRequest>)
        requires
            old(self).wf(),
        ensures
            final(self).wf(),
            motion_done(*old(self), *final(self), window, root_x, root_y),
            drag_moves(*old(self), *final(self), root_x, root_y),
            final(reqs)@ == old(reqs)@ + motion_requests(*old(self), *final(self), window, root_x, root_y),
    {
        let ghost ms_start = self.ms();
        let mut should_update = false;
        let cur = self.monitors.cur;
        if !self.monitors.monitors[cur].contains_point(root_x, root_y)
            && (self.dragging_window.is_some() || self.resizing_window.is_some() || self.config.follow_cursor) {
            if let Some(to) = self.monitors.find_point(root_x, root_y) {
                should_update = true;
                self.monitors.cur = to;
                if let Some((wid, _)) = self.dragging_window {
                    self.move_window(wid, to);
                }
            }
        }
        proof {
            assert forall|j: int| 0 <= j < ms_start.len() implies (#[trigger] self.ms()[j]).rect == ms_start[j].rect by {}
            if old(self).dragging_window is None {
                assert(self.ms() == ms_start);
            }
            assert(drag_moves(*old(self), *self, root_x, root_y));
            assert(should_update == (self.monitors.cur != old(self).monitors.cur));
        }
        let ghost ms_cross = self.ms();
        let ghost s_cross = *self;
        if let Some((wid, (ax, ay))) = self.dragging_window {
            if window != wid {
                return;
            }
            let x = ax as i32 + root_x as i32;
            let y = ay as i32 + root_y as i32;
            reqs.push(XRequest::MoveAbove { window: wid, x, y });
            let cur = self.monitors.cur;
            let ghost ms = self.ms();
            self.monitors.monitors[cur].update_window(wid, true, Some((clamp_to_i16(x), clamp_to_i16(y))), None);
            proof {
                self.lemma_updated(ms, cur as int);
                let wa = ms[cur as int].windows.windows@;
                let wb = self.ms()[cur as int].windows.windows@;
                lemma_first_same_ids(wa, wb, wid);
                if has_id(wb, wid) {
                    lemma_first_from(wa, id_pred(wid), 0);
                }
                assert forall|m: int| 0 <= m < ms.len() implies {
                    &&& (#[trigger] self.ms()[m]).windows.windows@.len() == ms[m].windows.windows@.len()
                    &&& self.ms()[m].windows.cur == ms[m].windows.cur
                    &&& self.ms()[m].tags == ms[m].tags
                    &&& forall|i: int| 0 <= i < ms[m].windows.windows@.len() ==> same_id_and_tags(#[trigger] self.ms()[m].windows.windows@[i], ms[m].windows.windows@[i])
                } by {
                    if m == cur {
                        assert forall|i: int| 0 <= i < wa.len() implies same_id_and_tags(#[trigger] wb[i], wa[i]) by {}
                    }
                }
                assert(shape_kept(ms_cross, self.ms()));
                lemma_drag_moves_kept(*old(self), s_cross, *self, root_x, root_y);
            }
            should_update = true;
        } else if let Some((wid, (ox, oy))) = self.resizing_window {
            if window != wid {
                return;
            }
            let cur = self.monitors.cur;
            proof {
                lemma_first_from(self.ms()[cur as int].windows.windows@, id_pred(wid), 0);
            }
            if let Some(k) = self.monitors.monitors[cur].windows.find_by_id(wid) {
                let dw = root_x as i32 - ox as i32;
                let dh = root_y as i32 - oy as i32;
                let w0 = self.monitors.monitors[cur].windows.windows[k].width as i32;
                let h0 = self.monitors.monitors[cur].windows.windows[k].height as i32;
                let nw = if w0 + dw >= 1 { w0 + dw } else { 1 };
                let nh = if h0 + dh >= 1 { h0 + dh } else { 1 };
                reqs.push(XRequest::ResizeAbove { window: wid, width: nw as u32, height: nh as u32 });
                self.resizing_window = Some((wid, (root_x, root_y)));
                let ghost ms = self.ms();
                self.monitors.monitors[cur].update_window(wid, true, None, Some((clamp_to_u16(nw), clamp_to_u16(nh))));
                proof {
                    self.lemma_updated(ms, cur as int);
                    let wa = ms[cur as int].windows.windows@;
                    let wb = self.ms()[cur as int].windows.windows@;
                    lemma_first_same_ids(wa, wb, wid);
                }
            }
            should_update = true;
        }
        let ghost s_mid = *self;
        let ghost r_mid = reqs@;
        if should_update {
            let ghost ms1 = self.ms();
            let ghost c1 = self.monitors.cur as int;
            self.update_windows(reqs);
            proof {
                lemma_same_model_managed(ms1, self.ms());
                lemma_same_model_shape(ms1, self.ms());
                lemma_drag_moves_kept(*old(self), s_mid, *self, root_x, root_y);
                let wa = ms1[c1].windows.windows@;
                let wb = self.ms()[c1].windows.windows@;
                assert forall|i: int| 0 <= i < wa.len() implies (#[trigger] wb[i]).id == wa[i].id by {
                    assert(same_id_and_tags(wb[i], wa[i]));
                }
                lemma_first_same_ids(wa, wb, window);
                if has_id(wa, window) {
                    lemma_first_from(wa, id_pred(window), 0);
                }
                assert forall|j: int| 0 <= j < ms_start.len() implies (#[trigger] self.ms()[j]).rect == ms_start[j].rect by {
                    assert(self.ms()[j].rect == ms1[j].rect);
                }
            }
        }
    }

    /// After monitor `o` changed without gaining or losing a window, the monitors are
    /// still well formed and hold the same windows.
    proof fn lemma_same_ids(&self, ms: Seq<Monitor>, o: int)
        requires
            monitors_wf(ms),
            0 <= o < ms.len(),
            self.ms().len() == ms.len(),
            forall|m: int| 0 <= m < ms.len() && m != o ==> #[trigger] self.ms()[m] == ms[m],
            self.ms()[o].wf(),
            forall|id: u32| #[trigger] has_id(self.ms()[o].windows.windows@, id) == has_id(ms[o].windows.windows@, id),
        ensures
            monitors_wf(self.ms()),
            forall|w: u32| #[trigger] managed(self.ms(), w) == managed(ms, w),
    {
        let b = self.ms()[o];
        assert(self.ms() =~= ms.update(o, b));
        lemma_replace_shrinking(ms, o, b);
        let ms2 = self.ms();
        assert forall|w: u32| #[trigger] managed(ms2, w) == managed(ms, w) by {
            if managed(ms, w) {
                let m = choose|m: int| 0 <= m < ms.len() && #[trigger] has_id(ms[m].windows.windows@, w);
                assert(has_id(ms2[m].windows.windows@, w));
            }
            if managed(ms2, w) {
                let m = choose|m: int| 0 <= m < ms2.len() && #[trigger] has_id(ms2[m].windows.windows@, w);
                assert(has_id(ms[m].windows.windows@, w));
            }
        }
    }

    /// After `update_window` on monitor `o`, the monitors are still well formed and
    /// hold the same windows.
    proof fn lemma_updated(&self, ms: Seq<Monitor>, o: int)
        requires
            monitors_wf(ms),
            0 <= o < ms.len(),
            self.ms().len() == ms.len(),
            forall|m: int| 0 <= m < ms.len() && m != o ==> #[trigger] self.ms()[m] == ms[m],
            self.ms()[o].wf(),
            self.ms()[o].windows.windows@.len() == ms[o].windows.windows@.len(),
            forall|i: int| 0 <= i < ms[o].windows.windows@.len() ==> #[trigger] self.ms()[o].windows.windows@[i].id == ms[o].windows.windows@[i].id,
        ensures
            monitors_wf(self.ms()),
            forall|w: u32| #[trigger] managed(self.ms(), w) == managed(ms, w),
    {
        let b = self.ms()[o];
        assert(self.ms() =~= ms.update(o, b));
        lemma_keeps_managed(ms, o, b);
        assert forall|id: u32| #[trigger] has_id(b.windows.windows@, id) implies has_id(ms[o].windows.windows@, id) by {
            let k = choose|k: int| 0 <= k < b.windows.windows@.len() && #[trigger] b.windows.windows@[k].id == id;
            assert(ms[o].windows.windows@[k].id == id);
        }
        lemma_replace_shrinking(ms, o, b);
    }
}

/// The focused monitor.
pub open spec fn cur_mon(s: WMState) -> Monitor {
    s.ms()[s.monitors.cur as int]
}

/// Two histories hold the same windows, with the same tags and floating flags, in order.
pub open spec fn same_windows(a: Seq<WinState>, b: Seq<WinState>) -> bool {
    &&& b.len() == a.len()
    &&& forall|i: int| 0 <= i < a.len() ==> same_id_and_tags(#[trigger] b[i], a[i]) && b[i].floating == a[i].floating
}

/// What a tag command with a valid tag does to the focused monitor.
pub open spec fn tag_cmd_done(s0: WMState, s1: WMState, sub: TagSubcommand, r: Outcome) -> bool {
    match sub {
        TagSubcommand::Switch { tag_id } => tag_id.valid() ==> {
            let before = cur_mon(s0);
            let after = cur_mon(s1);
            &&& s1.monitors.cur == s0.monitors.cur
            &&& r == Outcome::Done
            &&& after.tags@ == switched_tags(before.tags@, tag_id)
            &&& after.layout == before.tags@[tag_id.0 - 1].layout
            &&& same_windows(before.windows.windows@, after.windows.windows@)
            &&& after.windows.cursor() == first_from(after.windows.windows@, visible_pred(after.tags@), 0)
        },
        TagSubcommand::Toggle { tag_id } => tag_id.valid() ==> {
            let before = cur_mon(s0);
            let after = cur_mon(s1);
            &&& r == Outcome::Done
            &&& only_visible(before.tags@, tag_id.0 - 1) ==> s1.monitors == s0.monitors
            &&& !only_visible(before.tags@, tag_id.0 - 1) ==> {
                &&& after.tags@ == before.tags@.update(tag_id.0 - 1,
                    TagState { visible: !before.tags@[tag_id.0 - 1].visible, ..before.tags@[tag_id.0 - 1] })
                &&& same_windows(before.windows.windows@, after.windows.windows@)
                &&& after.windows.cursor() == first_from(after.windows.windows@, visible_pred(after.tags@), 0)
            }
        },
    }
}

/// The window is held by the focused monitor and no other, at the front of its
/// history, and focused there when visible.
pub open spec fn sent_here(s: WMState, w: u32) -> bool {
    let here = cur_mon(s);
    &&& has_id(here.windows.windows@, w)
    &&& forall|m: int| 0 <= m < s.ms().len() && m != s.monitors.cur ==> !#[trigger] has_id(s.ms()[m].windows.windows@, w)
    &&& here.windows.windows@[0].id == w
    &&& win_visible(here.windows.windows@[0], here.tags@) ==> here.windows.cur == Some(0usize)
}

pub proof fn lemma_sent_here_kept(sa: WMState, sb: WMState, w: u32)
    requires
        sent_here(sa, w),
        shape_kept(sa.ms(), sb.ms()),
        sb.monitors.cur == sa.monitors.cur,
        sa.monitors.cur < sa.ms().len(),
    ensures
        sent_here(sb, w),
{
    lemma_shape_kept(sa.ms(), sb.ms());
    assert(sb.ms()[sa.monitors.cur as int] == cur_mon(sb));
}

/// `r` extends `r0` and ends with the reconciliation of `s`.
pub open spec fn ends_with_reconcile(r0: Seq<XRequest>, r: Seq<XRequest>, s: WMState) -> bool {
    exists|mid: Seq<XRequest>| r == r0 + mid + reconciled(s)
}

/// What a tag command asks of the X server: reconciliation when it changed the tags.
pub open spec fn tag_cmd_requests(s0: WMState, s1: WMState, sub: TagSubcommand) -> Seq<XRequest> {
    match sub {
        TagSubcommand::Switch { tag_id } => if tag_id.valid() {
            reconciled(s1)
        } else {
            Seq::empty()
        },
        TagSubcommand::Toggle { tag_id } => if tag_id.valid() && !only_visible(cur_mon(s0).tags@, tag_id.0 - 1) {
            reconciled(s1)
        } else {
            Seq::empty()
        },
    }
}

/// What a window command does when the focused monitor has a focused window.
pub open spec fn window_cmd_done(s0: WMState, s1: WMState, sub: WindowSubcommand) -> bool {
    let before = cur_mon(s0);
    let after = cur_mon(s1);
    let ws = before.windows.windows@;
    let c = before.windows.cur->0 as int;
    match sub {
        WindowSubcommand::Destroy => {
            &&& s1.monitors.cur == s0.monitors.cur
            &&& same_windows(ws, after.windows.windows@)
            &&& after.windows.cursor() == next_visible(ws, before.tags@, Some(c))
        },
        WindowSubcommand::Send(Destination::Monitor(dir)) => s0.ms().len() > 1 ==> {
            &&& s1.monitors.cur == s0.monitors.spec_focus(dir)
            &&& s1.ms().len() == s0.ms().len()
            &&& forall|m: int| 0 <= m < s0.ms().len() ==> (#[trigger] s1.ms()[m]).tags == s0.ms()[m].tags
            &&& s0.ms()[s1.monitors.cur as int].windows.windows@.len() < usize::MAX ==> sent_here(s1, ws[c].id)
                && after.windows.windows@[0].tags == ws[c].tags
        },
        WindowSubcommand::Focus(dir) => {
            &&& s1.monitors.cur == s0.monitors.cur
            &&& same_windows(ws, after.windows.windows@)
            &&& after.windows.cursor() == (match dir {
                Direction::Down => next_visible(ws, before.tags@, Some(c)),
                Direction::Up => prev_visible(ws, before.tags@, Some(c)),
            })
        },
        WindowSubcommand::Shift(dir) => {
            let (ws1, c1) = shift_result(ws, before.tags@, Some(c), dir);
            &&& s1.monitors.cur == s0.monitors.cur
            &&& after.tags == before.tags
            &&& same_windows(ws1, after.windows.windows@)
            &&& after.windows.cursor() == c1
        },
        WindowSubcommand::Send(Destination::Tag { tag_id }) => tag_id.valid() ==> {
            let ws2 = after.windows.windows@;
            &&& s1.monitors.cur == s0.monitors.cur
            &&& after.tags == before.tags
            &&& ws2.len() == ws.len()
            &&& forall|i: int| 0 <= i < ws.len() && i != c ==> same_id_and_tags(#[trigger] ws2[i], ws[i])
            &&& ws2[c].id == ws[c].id && ws2[c].tags@ == seq![tag_id]
            &&& after.windows.cursor() == next_visible(ws2, before.tags@, Some(c))
        },
        WindowSubcommand::Toggle(WindowToggle::Float) => {
            let ws2 = after.windows.windows@;
            &&& s1.monitors.cur == s0.monitors.cur
            &&& after.windows.cur == before.windows.cur
            &&& ws2.len() == ws.len()
            &&& forall|i: int| 0 <= i < ws.len() ==> same_id_and_tags(#[trigger] ws2[i], ws[i])
            &&& forall|i: int| 0 <= i < ws.len() && i != c ==> (#[trigger] ws2[i]).floating == ws[i].floating
            &&& ws2[c].floating == !ws[c].floating
        },
    }
}

impl WMState {
    /// `Tag Toggle` and `Tag Switch` on the focused monitor, then reconciliation. A
    /// toggle that would hide the last visible tag is refused and changes nothing.
    pub fn on_tag_cmd(&mut self, sub: TagSubcommand, reqs: &mut Vec<XRequest>) -> (r: Outcome)
        requires
            old(self).wf(),
        ensures
            final(reqs)@ == old(reqs)@ + tag_cmd_requests(*old(self), *final(self), sub),
            final(self).wf(),
            final(self).config == old(self).config && final(self).running == old(self).running,
            final(self).monitors.cur == old(self).monitors.cur,
            forall|w: u32| #[trigger] managed(final(self).ms(), w) == managed(old(self).ms(), w),
            tag_cmd_done(*old(self), *final(self), sub, r),
    {
        assert(old(reqs)@ + Seq::empty() =~= old(reqs)@);
        let cur = self.monitors.cur;
        let tag = match sub {
            TagSubcommand::Toggle { tag_id } => tag_id,
            TagSubcommand::Switch { tag_id } => tag_id,
        };
        if tag.0 < 1 || tag.0 > 9 {
            return Outcome::Failed(TagValueError { tag_num: tag.0 }.message());
        }
        let ghost ms = self.ms();
        match sub {
            TagSubcommand::Toggle { tag_id } => {
                if !self.monitors.monitors[cur].can_toggle(tag_id) {
                    return Outcome::Done;
                }
                self.monitors.monitors[cur].toggle_tag(tag_id);
            },
            TagSubcommand::Switch { tag_id } => {
                self.monitors.monitors[cur].switch_tag(tag_id);
            },
        }
        proof {
            let b = self.ms()[cur as int];
            lemma_keeps_managed(ms, cur as int, b);
            self.lemma_updated(ms, cur as int);
        }
        let ghost ms1 = self.ms();
        self.update_windows(reqs);
        proof {
            lemma_same_model_managed(ms1, self.ms());
            let a = ms1[cur as int];
            let b = self.ms()[cur as int];
            assert forall|i: int| 0 <= i < a.windows.windows@.len() implies win_visible(#[trigger] b.windows.windows@[i], a.tags@)
                == win_visible(a.windows.windows@[i], a.tags@) by {
                assert(same_id_and_tags(b.windows.windows@[i], a.windows.windows@[i]));
                assert(b.windows.windows@[i].tags@ == a.windows.windows@[i].tags@);
            }
            lemma_visible_same(a.windows.windows@, b.windows.windows@, a.tags@, None);
        }
        Outcome::Done
    }
}

impl WMState {
    /// Focuses a visible window of the focused monitor given by its position.
    fn focus_position(&mut self, k: usize, reqs: &mut Vec<XRequest>)
        requires
            old(self).wf(),
            k < cur_mon(*old(self)).windows.windows@.len(),
            win_visible(cur_mon(*old(self)).windows.windows@[k as int], cur_mon(*old(self)).tags@),
        ensures
            final(reqs)@ == old(reqs)@ + focus_requests(*old(self), cur_mon(*old(self)).windows.windows@[k as int].id),
            final(self).wf(),
            final(self).config == old(self).config && final(self).running == old(self).running,
            final(self).dragging_window == old(self).dragging_window && final(self).resizing_window == old(self).resizing_window,
            final(self).monitors.cur == old(self).monitors.cur,
            others_kept(old(self).ms(), final(self).ms(), old(self).monitors.cur as int),
            cursor_moved(cur_mon(*old(self)), cur_mon(*final(self)), Some(k)),
            forall|w: u32| #[trigger] managed(final(self).ms(), w) == managed(old(self).ms(), w),
    {
        let cur = self.monitors.cur;
        let id = self.monitors.monitors[cur].windows.windows[k].id;
        proof {
            let ws = self.ms()[cur as int].windows.windows@;
            assert(has_id(ws, id));
            lemma_owner(self.ms(), cur as int, id);
            lemma_unique_position(ws, k as int);
        }
        self.focus(id, reqs);
    }

    /// The window commands, on the focused window of the focused monitor; nothing
    /// happens when there is none. Each ends with reconciliation.
    #[verifier::rlimit(100)]
    pub fn on_window_cmd(&mut self, sub: WindowSubcommand, reqs: &mut Vec<XRequest>) -> (r: Outcome)
        requires
            old(self).wf(),
        ensures
            cur_mon(*old(self)).windows.cur is None ==> final(reqs)@ == old(reqs)@,
            r == Outcome::Done && cur_mon(*old(self)).windows.cur is Some ==> ends_with_reconcile(old(reqs)@, final(reqs)@, *final(self)),
            cur_mon(*old(self)).windows.cur is Some && sub == WindowSubcommand::Destroy ==> final(reqs)@.len() > old(reqs)@.len()
                && final(reqs)@[old(reqs)@.len() as int] == (XRequest::Destroy {
                    window: cur_mon(*old(self)).windows.windows@[cur_mon(*old(self)).windows.cur->0 as int].id,
                }),
            final(self).wf(),
            final(self).config == old(self).config && final(self).running == old(self).running,
            forall|w: u32| #[trigger] managed(final(self).ms(), w) == managed(old(self).ms(), w),
            cur_mon(*old(self)).windows.cur is None ==> final(self).monitors == old(self).monitors && r == Outcome::Done,
            cur_mon(*old(self)).windows.cur is Some ==> window_cmd_done(*old(self), *final(self), sub),
    {
        let ghost r0 = reqs@;
        let cur = self.monitors.cur;
        let focused = match self.monitors.monitors[cur].focused_id() {
            Some(f) => f,
            None => {
                return Outcome::Done;
            },
        };
        let ghost ms = self.ms();
        let ghost tags = ms[cur as int].tags@;
        let ghost ws = ms[cur as int].windows.windows@;
        let ghost c = ms[cur as int].windows.cur->0 as int;
        proof {
            lemma_next_prev_bounds(ws, tags, Some(c));
        }
        match sub {
            WindowSubcommand::Destroy => {
                reqs.push(XRequest::Destroy { window: focused });
                assert(reqs@[r0.len() as int] == XRequest::Destroy { window: focused });
                if let Some(k) = self.monitors.monitors[cur].windows.find_next(self.monitors.monitors[cur].tags.as_slice()) {
                    self.focus_position(k, reqs);
                }
            },
            WindowSubcommand::Send(Destination::Tag { tag_id }) => {
                if tag_id.0 < 1 || tag_id.0 > 9 {
                    return Outcome::Failed(TagValueError { tag_num: tag_id.0 }.message());
                }
                let moved = self.monitors.monitors[cur].retag_focused(tag_id);
                proof {
                    self.lemma_updated(ms, cur as int);
                }
                if let Some((sent, Some(n))) = moved {
                    if !(n == sent && self.monitors.monitors.len() == 1) {
                        self.emit_unfocus(sent, reqs);
                        self.emit_focus(n, reqs);
                    }
                }
            },
            WindowSubcommand::Send(Destination::Monitor(dir)) => {
                if self.monitors.monitors.len() > 1 {
                    self.monitors.focus(dir);
                    let to = self.monitors.cur;
                    proof {
                        lemma_owner(old(self).ms(), cur as int, focused);
                        assert(has_id(ws, focused)) by {
                            assert(ws[c].id == focused);
                        }
                    }
                    if self.move_window(focused, to) {
                        let ghost s_m = *self;
                        proof {
                            lemma_owner(self.ms(), to as int, focused);
                            lemma_unique_position(self.ms()[to as int].windows.windows@, 0);
                        }
                        self.focus(focused, reqs);
                        proof {
                            assert(sent_here(*self, focused));
                            lemma_unique_position(ws, c);
                            assert(self.ms()[to as int].windows.windows@[0].tags == ws[c].tags);
                        }
                    }
                }
            },
            WindowSubcommand::Focus(dir) => {
                let next = match dir {
                    Direction::Up => self.monitors.monitors[cur].windows.find_prev(self.monitors.monitors[cur].tags.as_slice()),
                    Direction::Down => self.monitors.monitors[cur].windows.find_next(self.monitors.monitors[cur].tags.as_slice()),
                };
                if let Some(k) = next {
                    self.focus_position(k, reqs);
                }
            },
            WindowSubcommand::Shift(dir) => {
                self.monitors.monitors[cur].shift_windows(dir);
                proof {
                    let ws2 = self.ms()[cur as int].windows.windows@;
                    assert forall|id: u32| #[trigger] has_id(ws2, id) == has_id(ws, id) by {
                        if let Some(n) = shift_target(ws, tags, Some(c), dir) {
                            if has_id(ws, id) {
                                let k = choose|k: int| 0 <= k < ws.len() && #[trigger] ws[k].id == id;
                                let pk = if k == c { n } else if k == n { c } else { k };
                                assert(ws2[pk].id == id);
                            }
                            if has_id(ws2, id) {
                                let k = choose|k: int| 0 <= k < ws2.len() && #[trigger] ws2[k].id == id;
                                let pk = if k == c { n } else if k == n { c } else { k };
                                assert(ws[pk].id == id);
                            }
                        }
                    }
                    self.lemma_same_ids(ms, cur as int);
                }
                if let Some(k) = self.monitors.monitors[cur].windows.cur {
                    self.focus_position(k, reqs);
                }
            },
            WindowSubcommand::Toggle(WindowToggle::Float) => {
                self.monitors.monitors[cur].toggle_float_focused();
                proof {
                    self.lemma_updated(ms, cur as int);
                }
            },
        }
        let ghost r_pre = reqs@;
        proof {
            assert(r_pre =~= r0 + r_pre.subrange(r0.len() as int, r_pre.len() as int));
        }
        let ghost s_pre = *self;
        let ghost ms1 = self.ms();
        let ghost cur1 = self.monitors.cur;
        self.update_windows(reqs);
        proof {
            lemma_same_model_shape(ms1, self.ms());
            lemma_shape_kept(ms1, self.ms());
            if sent_here(s_pre, focused) {
                lemma_sent_here_kept(s_pre, *self, focused);
            }
            lemma_same_model_managed(ms1, self.ms());
            let a = ms1[cur1 as int];
            let b = self.ms()[cur1 as int];
            assert forall|i: int| 0 <= i < a.windows.windows@.len() implies win_visible(#[trigger] b.windows.windows@[i], a.tags@)
                == win_visible(a.windows.windows@[i], a.tags@) by {
                assert(same_id_and_tags(b.windows.windows@[i], a.windows.windows@[i]));
                assert(b.windows.windows@[i].tags@ == a.windows.windows@[i].tags@);
            }
            lemma_visible_same(a.windows.windows@, b.windows.windows@, a.tags@, Some(c));
            let mid = r_pre.subrange(r0.len() as int, r_pre.len() as int);
            assert(reqs@ == r0 + mid + reconciled(*self));
        }
        Outcome::Done
    }
}

impl WMState {
    /// Runs a client command. Returns what the caller still has to do (reply,
    /// print or load the configuration), and appends the X requests to `reqs`.
    pub fn handle_command(&mut self, cmd: Command, reqs: &mut Vec<XRequest>) -> (r: Outcome)
        requires
            old(self).wf(),
        ensures
            final(self).wf(),
            final(self).config == old(self).config,
            forall|w: u32| #[trigger] managed(final(self).ms(), w) == managed(old(self).ms(), w),
            match cmd {
                Command::Quit => !final(self).running && r == Outcome::Done && final(self).monitors == old(self).monitors,
                Command::Config(ConfigSubcommand::Print) => r == Outcome::PrintConfig && final(self).monitors == old(self).monitors,
                Command::Config(ConfigSubcommand::Load { path }) => final(self).monitors == old(self).monitors && match path {
                    Some(p) => r == Outcome::LoadConfig(p),
                    None => match old(self).config.path {
                        Some(p) => r == Outcome::LoadConfig(p),
                        None => r is Failed,
                    },
                },
                Command::Monitor(MonitorSubcommand::Focus(dir)) => {
                    &&& old(self).ms().len() > 1 ==> final(self).monitors.cur == old(self).monitors.spec_focus(dir)
                    &&& old(self).ms().len() <= 1 ==> final(self).monitors == old(self).monitors
                },
                Command::Layout(dir) => {
                    let before = cur_mon(*old(self));
                    let after = cur_mon(*final(self));
                    let layouts = old(self).config.layouts@;
                    &&& final(reqs)@ == old(reqs)@ + reconciled(*final(self))
                    &&& final(self).monitors.cur == old(self).monitors.cur
                    &&& layouts.contains(before.layout) ==> exists|k: int|
                        is_first_position(layouts, before.layout, k) && after.layout == (match dir {
                            LayoutSubcommand::Next => layouts[(k + 1) % (layouts.len() as int)],
                            LayoutSubcommand::Prev => layouts[if k == 0 { layouts.len() - 1 } else { k - 1 }],
                        })
                    &&& !layouts.contains(before.layout) ==> after.layout == layouts[0]
                },
                Command::Tag(sub) => tag_cmd_done(*old(self), *final(self), sub, r),
                Command::Window(sub) => cur_mon(*old(self)).windows.cur is Some ==> window_cmd_done(*old(self), *final(self), sub),
            },
    {
        match cmd {
            Command::Quit => {
                self.running = false;
                Outcome::Done
            },
            Command::Tag(sub) => self.on_tag_cmd(sub, reqs),
            Command::Window(sub) => self.on_window_cmd(sub, reqs),
            Command::Layout(sub) => {
                let cur = self.monitors.cur;
                let dir = match sub {
                    LayoutSubcommand::Next => Direction::Down,
                    LayoutSubcommand::Prev => Direction::Up,
                };
                let ghost ms = self.ms();
                self.monitors.monitors[cur].change_layout(dir, self.config.layouts.as_slice());
                proof {
                    self.lemma_updated(ms, cur as int);
                }
                let ghost ms1 = self.ms();
                self.update_windows(reqs);
                proof {
                    lemma_same_model_managed(ms1, self.ms());
                }
                Outcome::Done
            },
            Command::Config(ConfigSubcommand::Print) => Outcome::PrintConfig,
            Command::Config(ConfigSubcommand::Load { path }) => match self.config.load_path(path) {
                Ok(p) => Outcome::LoadConfig(p),
                Err(e) => Outcome::Failed(e.error),
            },
            Command::Monitor(MonitorSubcommand::Focus(dir)) => {
                if self.monitors.monitors.len() > 1 {
                    let cur = self.monitors.cur;
                    if let Some(f) = self.monitors.monitors[cur].focused_id() {
                        reqs.push(XRequest::SetBorderColor { window: f, argb: self.config.normal_border_color.argb() });
                    }
                    self.monitors.focus(dir);
                    let now = self.monitors.cur;
                    if let Some(k) = self.monitors.monitors[now].windows.cur {
                        self.focus_position(k, reqs);
                    }
                    let ghost ms1 = self.ms();
                    self.update_windows(reqs);
                    proof {
                        lemma_same_model_managed(ms1, self.ms());
                    }
                }
                Outcome::Done
            },
        }
    }

    /// Replaces the configuration by one read from `path` and reconciles; a
    /// configuration without layouts is refused and the old one kept.
    pub fn apply_config(&mut self, config: Config, path: String, reqs: &mut Vec<XRequest>) -> (r: Result<(), LoadConfigError>)
        requires
            old(self).wf(),
        ensures
            final(self).wf(),
            forall|w: u32| #[trigger] managed(final(self).ms(), w) == managed(old(self).ms(), w),
            config.layouts@.len() == 0 ==> r is Err && final(self).config == old(self).config && final(self).monitors == old(self).monitors,
            config.layouts@.len() > 0 ==> {
                &&& r is Ok
                &&& final(self).config.path == Some(path)
                &&& final(self).config.border_width == config.border_width && final(self).config.gap == config.gap
                &&& final(self).config.focused_border_color == config.focused_border_color
                &&& final(self).config.normal_border_color == config.normal_border_color
                &&& final(self).config.mod_key == config.mod_key && final(self).config.follow_cursor == config.follow_cursor
                &&& final(self).config.layouts == config.layouts && final(self).config.rules == config.rules
            },
    {
        if config.layouts.len() == 0 {
            return Err(LoadConfigError::new(String::from_str("There needs to be at least one layout in the config")));
        }
        let mut config = config;
        config.path = Some(path);
        self.config = config;
        let ghost ms1 = self.ms();
        self.update_windows(reqs);
        proof {
            lemma_same_model_managed(ms1, self.ms());
        }
        Ok(())
    }

    /// Dispatches an X event to its handler and returns the X requests it makes.
    /// A map request manages the window, focuses it and reconciles; a destroy
    /// notification forgets it.
    pub fn handle_event(&mut self, event: XEvent) -> (r: Vec<XRequest>)
        requires
            old(self).wf(),
        ensures
            final(self).wf(),
            final(self).config == old(self).config && final(self).running == old(self).running,
            match event {
                XEvent::MapRequest(info) => map_done(*old(self), *final(self), info, r@),
                XEvent::DestroyNotify { window } => unmanage_done(*old(self), *final(self), window),
                XEvent::ButtonPress { window, detail, state, event_x, event_y } => button_press_done(*old(self), *final(self), window, detail, state, event_x, event_y),
                XEvent::ButtonRelease { detail } => button_release_done(*old(self), *final(self), detail),
                XEvent::MotionNotify { window, root_x, root_y } => motion_done(*old(self), *final(self), window, root_x, root_y),
                XEvent::EnterNotify { window, mode, detail } => enter_done(*old(self), *final(self), window, mode, detail),
                XEvent::PropertyNotify { window, deleted, atom, transient_for } => property_done(*old(self), *final(self), window, deleted, atom, transient_for),
            },
            match event {
                XEvent::ButtonPress { window, detail, state, event_x, event_y } => r@ == press_requests(*old(self), *final(self), window, detail, state)
                    && press_focuses(*old(self), *final(self), window),
                XEvent::ButtonRelease { detail } => r@ == release_requests(*old(self), detail),
                XEvent::MotionNotify { window, root_x, root_y } => r@ == motion_requests(*old(self), *final(self), window, root_x, root_y)
                    && drag_moves(*old(self), *final(self), root_x, root_y),
                XEvent::EnterNotify { window, mode, detail } => r@ == enter_requests(*old(self), window, mode, detail),
                XEvent::PropertyNotify { .. } => r@.len() == 0,
                _ => true,
            },
    {
        let mut reqs: Vec<XRequest> = Vec::new();
        match event {
            XEvent::MapRequest(info) => {
                let id = info.id;
                let ghost info_ghost = info;
                let cur0 = self.monitors.cur;
                let prev = self.monitors.monitors[cur0].focused_id();
                let ghost was = managed(self.ms(), id);
                let ghost full = cur_mon(*self).windows.windows@.len() == usize::MAX;
                let ghost c = self.monitors.cur as int;
                let ghost len0 = cur_mon(*self).windows.windows@.len();
                // Reading the length tells the prover that it fits in a usize.
                let _len = self.monitors.monitors[self.monitors.cur].windows.windows.len();
                assert(!full ==> len0 < usize::MAX);
                self.manage_window(info, &mut reqs);
                proof {
                    if !was && !full {
                        assert(self.ms()[c].windows.windows@.len() == len0 + 1);
                        assert(self.ms()[c].windows.windows@[0].id == id);
                        assert(has_id(self.ms()[c].windows.windows@, id));
                        assert(managed(self.ms(), id));
                    }
                }
                let ghost mid = self.ms();
                let ghost r_mid = reqs@;
                let cur = self.monitors.cur;
                match prev {
                    None => {
                        if let Some(now) = self.monitors.monitors[cur].focused_id() {
                            if now == id {
                                self.emit_focus(id, &mut reqs);
                            }
                        }
                    },
                    Some(_) => {
                        proof {
                            if !was && !full {
                                lemma_owner(mid, c, id);
                                lemma_unique_position(mid[c].windows.windows@, 0);
                            }
                        }
                        self.focus(id, &mut reqs);
                    },
                }
                let ghost ms1 = self.ms();
                let ghost r1 = reqs@;
                self.update_windows(&mut reqs);
                proof {
                    lemma_same_model_managed(ms1, self.ms());
                    assert(reqs@ =~= r1 + reconciled(*self));
                    if !was && !full {
                        let s0 = *old(self);
                        let before = cur_mon(s0);
                        let w0 = mid[c].windows.windows@[0];
                        let vis = win_visible(w0, before.tags@);
                        assert(r_mid =~= manage_requests(s0, info_ghost));
                        if vis {
                            assert(focusable(mid, id));
                            assert(ms1[c].windows.cur == Some(0usize));
                            match before.windows.cur {
                                Some(k) => {
                                    assert(mid[c].windows.windows@[k + 1] == before.windows.windows@[k as int]);
                                    assert(r1 =~= r_mid + unfocused_look(s0, before.windows.windows@[k as int].id) + focused_look(s0, id));
                                },
                                None => {
                                    assert(r1 =~= r_mid + focused_look(s0, id));
                                },
                            }
                        } else {
                            assert(r1 =~= r_mid);
                            assert(ms1[c].windows.cur == mid[c].windows.cur);
                        }
                    }
                    let a = ms1[c].windows.windows@;
                    let b = self.ms()[c].windows.windows@;
                    if !was && !full {
                        assert forall|m: int| 0 <= m < mid.len() && m != c implies #[trigger] ms1[m] == old(self).ms()[m] by {}
                        assert forall|m: int| 0 <= m < old(self).ms().len() && m != c implies {
                            &&& same_windows((#[trigger] old(self).ms()[m]).windows.windows@, self.ms()[m].windows.windows@)
                            &&& self.ms()[m].windows.cur == old(self).ms()[m].windows.cur
                            &&& self.ms()[m].tags == old(self).ms()[m].tags
                        } by {
                            assert(ms1[m] == old(self).ms()[m]);
                            let x = ms1[m];
                            assert forall|i: int| 0 <= i < x.windows.windows@.len() implies same_id_and_tags(#[trigger] self.ms()[m].windows.windows@[i], x.windows.windows@[i])
                                && self.ms()[m].windows.windows@[i].floating == x.windows.windows@[i].floating by {}
                        }
                        assert(cur_mon(*self).tags == cur_mon(*old(self)).tags);
                        assert(self.root == old(self).root);
                        assert(same_id_and_tags(b[0], a[0]));
                        assert(b[0].tags@ == a[0].tags@);
                        assert(win_visible(b[0], ms1[c].tags@) == win_visible(a[0], ms1[c].tags@));
                        assert(a[0] == mid[c].windows.windows@[0]);
                        assert(self.ms()[c].windows.cur == ms1[c].windows.cur);
                        assert forall|i: int| 0 <= i < a.len() - 1 implies same_id_and_tags(#[trigger] b.drop_first()[i], old(self).ms()[c].windows.windows@[i])
                            && b.drop_first()[i].floating == old(self).ms()[c].windows.windows@[i].floating by {
                            assert(same_id_and_tags(b[i + 1], a[i + 1]));
                            assert(a[i + 1] == a.drop_first()[i]);
                        }
                    }
                }
            },
            XEvent::DestroyNotify { window } => self.unmanage_window(window, &mut reqs),
            XEvent::ButtonPress { window, detail, state, event_x, event_y } => self.on_button_press(window, detail, state, event_x, event_y, &mut reqs),
            XEvent::ButtonRelease { detail } => self.on_button_release(detail, &mut reqs),
            XEvent::MotionNotify { window, root_x, root_y } => self.on_motion_notify(window, root_x, root_y, &mut reqs),
            XEvent::EnterNotify { window, mode, detail } => {
                self.on_enter_notify(window, mode, detail, &mut reqs);
            },
            XEvent::PropertyNotify { window, deleted, atom, transient_for } => self.on_property_notify(window, deleted, atom, transient_for),
        }
        reqs
    }

    /// Manages the windows that were there before the window manager started (those
    /// mapped and not override-redirect), then focuses the focused monitor's focused
    /// window and reconciles.
    pub fn scan_windows(&mut self, windows: Vec<ScannedWindow>) -> (r: Vec<XRequest>)
        requires
            old(self).wf(),
        ensures
            final(self).wf(),
            final(self).config == old(self).config && final(self).running == old(self).running,
            final(self).monitors.cur == old(self).monitors.cur,
            forall|w: u32| managed(old(self).ms(), w) ==> #[trigger] managed(final(self).ms(), w),
            forall|i: int| 0 <= i < windows@.len() && !windows@[i].override_redirect && windows@[i].mapped
                ==> managed(final(self).ms(), #[trigger] windows@[i].info.id) || cur_mon(*final(self)).windows.windows@.len() == usize::MAX,
    {
        let mut reqs: Vec<XRequest> = Vec::new();
        let ghost all = windows@;
        let mut windows = windows;
        let ghost mut k: int = 0;
        while windows.len() > 0
            invariant
                self.wf(),
                self.config == old(self).config && self.running == old(self).running,
                self.monitors.cur == old(self).monitors.cur,
                forall|w: u32| managed(old(self).ms(), w) ==> #[trigger] managed(self.ms(), w),
                0 <= k <= all.len(),
                windows@ == all.skip(k),
                forall|i: int| 0 <= i < k && !all[i].override_redirect && all[i].mapped
                    ==> managed(self.ms(), #[trigger] all[i].info.id) || cur_mon(*self).windows.windows@.len() == usize::MAX,
            decreases windows.len(),
        {
            let w = windows.remove(0);
            assert(all.skip(k).remove(0) =~= all.skip(k + 1));
            assert(w == all[k]);
            if !w.override_redirect && w.mapped {
                let ghost before = self.ms();
                let ghost full = cur_mon(*self).windows.windows@.len() == usize::MAX;
                // Reading the length tells the prover that it fits in a usize.
                let _len = self.monitors.monitors[self.monitors.cur].windows.windows.len();
                let id = w.info.id;
                self.manage_window(w.info, &mut reqs);
                proof {
                    let c = self.monitors.cur as int;
                    if !managed(before, id) && !full {
                        assert(self.ms()[c].windows.windows@[0].id == id);
                        assert(has_id(self.ms()[c].windows.windows@, id));
                    }
                }
            }
            proof {
                k = k + 1;
            }
        }
        let cur = self.monitors.cur;
        if let Some(f) = self.monitors.monitors[cur].focused_id() {
            self.emit_focus(f, &mut reqs);
        }
        let ghost ms1 = self.ms();
        self.update_windows(&mut reqs);
        proof {
            lemma_same_model_managed(ms1, self.ms());
        }
        reqs
    }

    /// The requests that show a window as focused: focus-mode grabs, the focused
    /// border colour and the input focus.
    fn emit_focus(&self, id: u32, reqs: &mut Vec<XRequest>)
        ensures
            final(reqs)@ == old(reqs)@ + focused_look(*self, id),
    {
        reqs.push(XRequest::GrabButtons { window: id, focused: true });
        reqs.push(XRequest::SetBorderColor { window: id, argb: self.config.focused_border_color.argb() });
        reqs.push(XRequest::SetInputFocus { window: id });
        assert(reqs@ =~= old(reqs)@ + seq![
            XRequest::GrabButtons { window: id, focused: true },
            XRequest::SetBorderColor { window: id, argb: self.config.focused_border_color.spec_argb() },
            XRequest::SetInputFocus { window: id },
        ]);
    }

    /// The requests that show a window as no longer focused: click-to-focus grabs and
    /// the normal border colour.
    fn emit_unfocus(&self, id: u32, reqs: &mut Vec<XRequest>)
        ensures
            final(reqs)@ == old(reqs)@ + unfocused_look(*self, id),
    {
        reqs.push(XRequest::GrabButtons { window: id, focused: false });
        reqs.push(XRequest::SetBorderColor { window: id, argb: self.config.normal_border_color.argb() });
        assert(reqs@ =~= old(reqs)@ + seq![
            XRequest::GrabButtons { window: id, focused: false },
            XRequest::SetBorderColor { window: id, argb: self.config.normal_border_color.spec_argb() },
        ]);
    }
}

/// In every reachable state the focused monitor's focused window, if any, is
/// visible under that monitor's tags.
pub proof fn law_focused_window_visible(s: WMState)
    requires
        s.wf(),
    ensures
        cur_mon(s).windows.cur matches Some(c) ==> win_visible(cur_mon(s).windows.windows@[c as int], cur_mon(s).tags@),
{
    assert(cur_mon(s).wf());
}

pub open spec fn has_visible_tag(tags: Seq<TagState>) -> bool {
    exists|i: int| 0 <= i < tags.len() && #[trigger] tags[i].visible
}

/// In every reachable state each monitor shows at least one tag.
pub proof fn law_some_tag_visible(s: WMState)
    requires
        s.wf(),
    ensures
        forall|m: int| 0 <= m < s.ms().len() ==> has_visible_tag(#[trigger] s.ms()[m].tags@),
{
    assert forall|m: int| 0 <= m < s.ms().len() implies has_visible_tag(#[trigger] s.ms()[m].tags@) by {
        assert(s.ms()[m].wf());
    }
}

/// In every reachable state a managed window is held by exactly one monitor, at
/// exactly one position of its history.
pub proof fn law_one_owner(s: WMState, id: u32)
    requires
        s.wf(),
    ensures
        forall|a: int, b: int| 0 <= a < s.ms().len() && 0 <= b < s.ms().len()
            && #[trigger] has_id(s.ms()[a].windows.windows@, id) && #[trigger] has_id(s.ms()[b].windows.windows@, id) ==> a == b,
        forall|m: int, i: int, j: int| 0 <= m < s.ms().len() && 0 <= i < s.ms()[m].windows.windows@.len()
            && 0 <= j < s.ms()[m].windows.windows@.len() && #[trigger] s.ms()[m].windows.windows@[i].id == id
            && #[trigger] s.ms()[m].windows.windows@[j].id == id ==> i == j,
{
    assert forall|m: int, i: int, j: int| 0 <= m < s.ms().len() && 0 <= i < s.ms()[m].windows.windows@.len()
        && 0 <= j < s.ms()[m].windows.windows@.len() && #[trigger] s.ms()[m].windows.windows@[i].id == id
        && #[trigger] s.ms()[m].windows.windows@[j].id == id implies i == j by {
        assert(s.ms()[m].wf());
    }
}

/// `Window Send` to tag `t` and then `Tag Switch` to `t` leave the sent window
/// focused, when no window before it in the focus history was already on `t`.
pub proof fn law_send_then_switch_focuses_sent(s0: WMState, s1: WMState, s2: WMState, t: TagId, r: Outcome)
    requires
        s0.wf(),
        s1.wf(),
        t.valid(),
        cur_mon(s0).windows.cur is Some,
        window_cmd_done(s0, s1, WindowSubcommand::Send(Destination::Tag { tag_id: t })),
        tag_cmd_done(s1, s2, TagSubcommand::Switch { tag_id: t }, r),
        forall|i: int| 0 <= i < cur_mon(s0).windows.cur->0 ==> !(#[trigger] cur_mon(s0).windows.windows@[i]).tags@.contains(t),
    ensures
        ({
            let c = cur_mon(s0).windows.cur->0 as int;
            &&& cur_mon(s2).windows.cursor() == Some(c)
            &&& cur_mon(s2).windows.windows@[c].id == cur_mon(s0).windows.windows@[c].id
        }),
{
    let c = cur_mon(s0).windows.cur->0 as int;
    let ws0 = cur_mon(s0).windows.windows@;
    let ws1 = cur_mon(s1).windows.windows@;
    let ws2 = cur_mon(s2).windows.windows@;
    assert(cur_mon(s1).wf());
    assert forall|i: int| 0 <= i < c implies !(#[trigger] ws2[i]).tags@.contains(t) by {
        assert(same_id_and_tags(ws2[i], ws1[i]));
        assert(same_id_and_tags(ws1[i], ws0[i]));
        assert(!ws0[i].tags@.contains(t));
    }
    assert(same_id_and_tags(ws2[c], ws1[c]));
    law_send_then_switch(ws2, cur_mon(s1).tags@, c, t);
}

/// `Window Shift` one way and then the other leaves the focused monitor's windows
/// in their first order, with the same window focused.
pub proof fn law_shift_commands_round_trip(s0: WMState, s1: WMState, s2: WMState, dir: Direction)
    requires
        s0.wf(),
        s1.wf(),
        cur_mon(s0).windows.cur is Some,
        window_cmd_done(s0, s1, WindowSubcommand::Shift(dir)),
        window_cmd_done(s1, s2, WindowSubcommand::Shift(dir.spec_opposite())),
    ensures
        s2.monitors.cur == s0.monitors.cur,
        cur_mon(s2).windows.windows@.len() == cur_mon(s0).windows.windows@.len(),
        forall|i: int| 0 <= i < cur_mon(s0).windows.windows@.len()
            ==> (#[trigger] cur_mon(s2).windows.windows@[i]).id == cur_mon(s0).windows.windows@[i].id,
        cur_mon(s2).windows.cur == cur_mon(s0).windows.cur,
{
    let m0 = cur_mon(s0);
    let m1 = cur_mon(s1);
    let tags = m0.tags@;
    let ws0 = m0.windows.windows@;
    let c = m0.windows.cur->0 as int;
    assert(m0.wf());
    assert(m1.tags == m0.tags);
    crate::history::law_shift_round_trip(ws0, tags, c, dir);
    lemma_next_prev_bounds(ws0, tags, Some(c));
    let (wsa, ca) = shift_result(ws0, tags, Some(c), dir);
    let ws1 = m1.windows.windows@;
    assert forall|i: int| 0 <= i < wsa.len() implies win_visible(#[trigger] ws1[i], tags) == win_visible(wsa[i], tags) by {
        assert(same_id_and_tags(ws1[i], wsa[i]));
        assert(ws1[i].tags@ == wsa[i].tags@);
    }
    lemma_visible_same(wsa, ws1, tags, ca);
    let (wsb, cb) = shift_result(wsa, tags, ca, dir.spec_opposite());
    assert(wsb == ws0 && cb == Some(c));
    let (wsc, cc) = shift_result(ws1, tags, ca, dir.spec_opposite());
    assert(cc == cb);
    assert(m1.windows.cursor() == ca);
    let ws2 = cur_mon(s2).windows.windows@;
    assert forall|i: int| 0 <= i < ws0.len() implies (#[trigger] ws2[i]).id == ws0[i].id by {
        assert(same_id_and_tags(ws2[i], wsc[i]));
        let n = shift_target(wsa, tags, ca, dir.spec_opposite())->0;
        let a = ca->0;
        assert(wsc[i] == (if i == a { ws1[n] } else if i == n { ws1[a] } else { ws1[i] }));
        assert(wsb[i] == (if i == a { wsa[n] } else if i == n { wsa[a] } else { wsa[i] }));
        assert(same_id_and_tags(ws1[i], wsa[i]));
        assert(same_id_and_tags(ws1[n], wsa[n]));
        assert(same_id_and_tags(ws1[a], wsa[a]));
    }
}

/// The tiled windows' ids depend only on ids, tags and floating flags.
proof fn lemma_tilable_same(ws: Seq<WinState>, ws2: Seq<WinState>, tags: Seq<TagState>)
    requires
        ws2.len() == ws.len(),
        forall|i: int| 0 <= i < ws.len() ==> same_id_and_tags(#[trigger] ws2[i], ws[i]) && ws2[i].floating == ws[i].floating,
    ensures
        tilable_ids(ws2, tags) == tilable_ids(ws, tags),
    decreases ws.len(),
{
    reveal(Seq::filter);
    let p = tilable_pred(tags);
    if ws.len() > 0 {
        lemma_tilable_same(ws.drop_last(), ws2.drop_last(), tags);
        let a = ws.last();
        let b = ws2.last();
        assert(same_id_and_tags(b, a));
        assert(b.tags@ == a.tags@);
        assert(win_visible(b, tags) == win_visible(a, tags));
        assert(p(b) == p(a));
        let fa = ws.drop_last().filter(p);
        let fb = ws2.drop_last().filter(p);
        assert(fa.map_values(|w: WinState| w.id) == fb.map_values(|w: WinState| w.id));
        if p(a) {
            assert(ws.filter(p) == fa.push(a));
            assert(ws2.filter(p) == fb.push(b));
            assert(fa.push(a).map_values(|w: WinState| w.id) =~= fa.map_values(|w: WinState| w.id).push(a.id));
            assert(fb.push(b).map_values(|w: WinState| w.id) =~= fb.map_values(|w: WinState| w.id).push(b.id));
        } else {
            assert(ws.filter(p) == fa);
            assert(ws2.filter(p) == fb);
        }
    } else {
        assert(ws2 =~= ws);
    }
}

/// Reconciliation asks the same of two states that differ only in geometry.
pub proof fn lemma_reconcile_same_model(ms: Seq<Monitor>, ms2: Seq<Monitor>, cur: int, root: u32, bw: int, gap: int)
    requires
        same_model(ms, ms2),
        0 <= cur < ms.len(),
    ensures
        reconcile_requests(ms2, cur, root, bw, gap) == reconcile_requests(ms, cur, root, bw, gap),
{
    assert forall|m: int| 0 <= m < ms.len() implies window_map_requests(#[trigger] ms2[m]) == window_map_requests(ms[m])
        && tilable_ids(ms2[m].windows.windows@, ms2[m].tags@) == tilable_ids(ms[m].windows.windows@, ms[m].tags@) by {
        let a = ms[m];
        let b = ms2[m];
        assert forall|i: int| 0 <= i < a.windows.windows@.len() implies win_visible(#[trigger] b.windows.windows@[i], b.tags@)
            == win_visible(a.windows.windows@[i], a.tags@) by {
            assert(same_id_and_tags(b.windows.windows@[i], a.windows.windows@[i]));
            assert(b.windows.windows@[i].tags@ == a.windows.windows@[i].tags@);
        }
        assert(window_map_requests(b) =~= window_map_requests(a));
        lemma_tilable_same(a.windows.windows@, b.windows.windows@, a.tags@);
    }
    lemma_map_requests_same(ms, ms2, ms.len() as int);
    lemma_place_requests_same(ms, ms2, ms.len() as int, bw, gap);
}

proof fn lemma_map_requests_same(ms: Seq<Monitor>, ms2: Seq<Monitor>, n: int)
    requires
        ms2.len() == ms.len(),
        n <= ms.len(),
        forall|m: int| 0 <= m < ms.len() ==> window_map_requests(#[trigger] ms2[m]) == window_map_requests(ms[m]),
    ensures
        map_requests(ms2, n) == map_requests(ms, n),
    decreases n,
{
    if n > 0 {
        lemma_map_requests_same(ms, ms2, n - 1);
    }
}

proof fn lemma_place_requests_same(ms: Seq<Monitor>, ms2: Seq<Monitor>, n: int, bw: int, gap: int)
    requires
        same_model(ms, ms2),
        n <= ms.len(),
        forall|m: int| 0 <= m < ms.len() ==> tilable_ids((#[trigger] ms2[m]).windows.windows@, ms2[m].tags@)
            == tilable_ids(ms[m].windows.windows@, ms[m].tags@),
    ensures
        place_requests(ms2, n, bw, gap) == place_requests(ms, n, bw, gap),
    decreases n,
{
    if n > 0 {
        lemma_place_requests_same(ms, ms2, n - 1, bw, gap);
        assert(ms2[n - 1].layout == ms[n - 1].layout && ms2[n - 1].rect == ms[n - 1].rect);
    }
}

} // verus!
