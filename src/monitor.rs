//! A monitor: its rectangle, nine tag slots, focus history and current layout.

use vstd::prelude::*;
use crate::geometry::{is_first_position, Direction, LayoutType, Rect, TagId};
use crate::history::{first_from, has_id, has_visible, forget_successor, shift_result, ids_unique, opt_int, id_pred, lemma_first_from, lemma_last_before, next_visible, prev_visible, visible_pred, WindowsHistory};
use crate::layout::{arrange, layout_spec, Placement};
use crate::window::{is_visible, tag_visible, win_visible, TagState, WinState};

verus! {

/// Nine slots for tags 1 to 9 in order, at least one of them visible.
pub open spec fn tags_wf(tags: Seq<TagState>) -> bool {
    &&& tags.len() == 9
    &&& forall|i: int| 0 <= i < 9 ==> (#[trigger] tags[i]).id == TagId((i + 1) as u8)
    &&& exists|i: int| 0 <= i < 9 && #[trigger] tags[i].visible
}

/// The focused window is visible, and nothing is focused only when no window is visible.
pub open spec fn focus_wf(h: WindowsHistory, tags: Seq<TagState>) -> bool {
    match h.cur {
        Some(c) => win_visible(h.windows@[c as int], tags),
        None => !has_visible(h.windows@, tags),
    }
}

/// The window takes part in tiling: it is visible and not floating.
pub open spec fn tilable(w: WinState, tags: Seq<TagState>) -> bool {
    win_visible(w, tags) && !w.floating
}

/// The ids of the tilable windows, in history order.
pub open spec fn tilable_ids(ws: Seq<WinState>, tags: Seq<TagState>) -> Seq<u32> {
    ws.filter(tilable_pred(tags)).map_values(|w: WinState| w.id)
}

pub open spec fn tilable_pred(tags: Seq<TagState>) -> spec_fn(WinState) -> bool {
    |w: WinState| tilable(w, tags)
}

pub open spec fn clamp_i16(v: int) -> i16 {
    if v < i16::MIN {
        i16::MIN
    } else if v > i16::MAX {
        i16::MAX
    } else {
        v as i16
    }
}

pub open spec fn clamp_u16(v: int) -> u16 {
    if v > u16::MAX {
        u16::MAX
    } else {
        v as u16
    }
}

/// Two records agree on id and tags.
pub open spec fn same_id_and_tags(a: WinState, b: WinState) -> bool {
    a.id == b.id && a.tags == b.tags
}

/// The record holds the clamped geometry of the placement.
pub open spec fn placed(w: WinState, p: Placement) -> bool {
    &&& w.x == clamp_i16(p.x as int)
    &&& w.y == clamp_i16(p.y as int)
    &&& w.width == clamp_u16(p.width as int)
    &&& w.height == clamp_u16(p.height as int)
}

fn clamp_i16_exec(v: i64) -> (r: i16)
    ensures
        r == clamp_i16(v as int),
{
    if v < i16::MIN as i64 {
        i16::MIN
    } else if v > i16::MAX as i64 {
        i16::MAX
    } else {
        v as i16
    }
}

fn clamp_u16_exec(v: u32) -> (r: u16)
    ensures
        r == clamp_u16(v as int),
{
    if v > u16::MAX as u32 {
        u16::MAX
    } else {
        v as u16
    }
}

/// The slots after `tag` alone is made visible.
pub open spec fn switched_tags(tags: Seq<TagState>, tag: TagId) -> Seq<TagState> {
    tags.map_values(|t: TagState| TagState { visible: t.id == tag, ..t })
}

/// Slot `k` is the only visible one.
pub open spec fn only_visible(tags: Seq<TagState>, k: int) -> bool {
    tags[k].visible && forall|j: int| 0 <= j < tags.len() && j != k ==> !(#[trigger] tags[j]).visible
}

#[verifier::external_type_specification]
#[verifier::external_body]
pub struct ExRand32(oorandom::Rand32);

/// Relies on oorandom's `Rand32::rand_u32`: the next number of the generator,
/// which it advances. Nothing is known of the number.
#[verifier::external_body]
fn random_u32(rng: &mut oorandom::Rand32) -> (r: u32) {
    rng.rand_u32()
}

#[derive(Debug)]
pub struct Monitor {
    /// A random number that names the monitor.
    pub id: u32,
    pub windows: WindowsHistory,
    pub tags: Vec<TagState>,
    pub layout: LayoutType,
    pub rect: Rect,
}

/// Monitors are the same when their ids are.
impl PartialEq for Monitor {
    fn eq(&self, o: &Monitor) -> (r: bool) {
        self.id == o.id
    }
}

impl vstd::std_specs::cmp::PartialEqSpecImpl for Monitor {
    open spec fn obeys_eq_spec() -> bool {
        true
    }

    open spec fn eq_spec(&self, o: &Monitor) -> bool {
        self.id == o.id
    }
}

impl Monitor {
    pub open spec fn wf(&self) -> bool {
        &&& self.windows.wf()
        &&& tags_wf(self.tags@)
        &&& focus_wf(self.windows, self.tags@)
    }

    /// A monitor with no windows, tag 1 visible, and every slot on `layout`.
    pub fn with_id(id: u32, layout: LayoutType, rect: Rect) -> (r: Monitor)
        ensures
            r.wf(),
            r.id == id && r.layout == layout && r.rect == rect,
            r.windows.windows@.len() == 0,
            forall|i: int| 0 <= i < 9 ==> (#[trigger] r.tags@[i]).visible == (i == 0) && r.tags@[i].layout == layout,
    {
        let mut tags: Vec<TagState> = Vec::new();
        let mut i: u8 = 1;
        while i <= 9
            invariant
                1 <= i <= 10,
                tags@.len() == i - 1,
                forall|k: int| 0 <= k < i - 1 ==> (#[trigger] tags@[k]) == (TagState { id: TagId((k + 1) as u8), visible: k == 0, layout }),
            decreases 10 - i,
        {
            tags.push(TagState { id: TagId(i), visible: i == 1, layout });
            i = i + 1;
        }
        assert(tags@[0].visible);
        Monitor { id, windows: WindowsHistory::new(), tags, layout, rect }
    }

    /// A monitor with no windows, tag 1 visible, every slot on `layout`, and a random id.
    pub fn new(layout: LayoutType, rng: &mut oorandom::Rand32, rect: Rect) -> (r: Monitor)
        ensures
            r.wf(),
            r.layout == layout && r.rect == rect,
            r.windows.windows@.len() == 0,
            forall|i: int| 0 <= i < 9 ==> (#[trigger] r.tags@[i]).visible == (i == 0) && r.tags@[i].layout == layout,
    {
        let id = random_u32(rng);
        Monitor::with_id(id, layout, rect)
    }

    pub fn contains_point(&self, x: i16, y: i16) -> (r: bool)
        ensures
            r == self.rect.spec_contains(x as int, y as int),
    {
        self.rect.contains_point(x, y)
    }

    pub fn contains_window(&self, id: u32) -> (r: bool)
        ensures
            r == has_id(self.windows.windows@, id),
    {
        self.windows.contains(id)
    }

    /// The id of the focused window.
    pub fn focused_id(&self) -> (r: Option<u32>)
        requires
            self.wf(),
        ensures
            r == (match self.windows.cur {
                Some(c) => Some(self.windows.windows@[c as int].id),
                None => None::<u32>,
            }),
    {
        match self.windows.get_focused() {
            Some(w) => Some(w.id),
            None => None,
        }
    }

    /// The id of the window that `Window Focus Down` moves to.
    pub fn get_next_win(&self) -> (r: Option<u32>)
        requires
            self.wf(),
        ensures
            r == (match next_visible(self.windows.windows@, self.tags@, self.windows.cursor()) {
                Some(k) => Some(self.windows.windows@[k].id),
                None => None::<u32>,
            }),
    {
        proof {
            lemma_next_prev_bounds(self.windows.windows@, self.tags@, self.windows.cursor());
        }
        match self.windows.find_next(self.tags.as_slice()) {
            Some(k) => Some(self.windows.windows[k].id),
            None => None,
        }
    }

    /// The id of the window that `Window Focus Up` moves to.
    pub fn get_prev_win(&self) -> (r: Option<u32>)
        requires
            self.wf(),
        ensures
            r == (match prev_visible(self.windows.windows@, self.tags@, self.windows.cursor()) {
                Some(k) => Some(self.windows.windows@[k].id),
                None => None::<u32>,
            }),
    {
        proof {
            lemma_next_prev_bounds(self.windows.windows@, self.tags@, self.windows.cursor());
        }
        match self.windows.find_prev(self.tags.as_slice()) {
            Some(k) => Some(self.windows.windows[k].id),
            None => None,
        }
    }

    /// Adds a window at the front of the history. The cursor keeps its record; when
    /// nothing was focused and the new window is visible, it takes the cursor, since a
    /// monitor with a visible window always has one focused.
    pub fn add_window(&mut self, w: WinState)
        requires
            old(self).wf(),
            !has_id(old(self).windows.windows@, w.id),
            old(self).windows.windows@.len() < usize::MAX,
        ensures
            final(self).wf(),
            final(self).windows.windows@ == seq![w] + old(self).windows.windows@,
            final(self).tags == old(self).tags,
            final(self).id == old(self).id && final(self).rect == old(self).rect && final(self).layout == old(self).layout,
            final(self).windows.cursor() == (match old(self).windows.cursor() {
                Some(c) => Some(c + 1),
                None => if win_visible(w, old(self).tags@) {
                    Some(0int)
                } else {
                    None::<int>
                },
            }),
    {
        let vis = is_visible(&w, self.tags.as_slice());
        let ghost ws = self.windows.windows@;
        let was_none = self.windows.cur.is_none();
        self.windows.push_front(w);
        if vis && was_none {
            self.windows.cur = Some(0);
        }
        proof {
            let ws2 = self.windows.windows@;
            assert(forall|i: int| 0 <= i < ws.len() ==> ws2[i + 1] == ws[i]);
            if let Some(c) = self.windows.cur {
                if c > 0 {
                    assert(ws2[c as int] == ws[c - 1]);
                }
            } else {
                assert forall|i: int| 0 <= i < ws2.len() implies !win_visible(#[trigger] ws2[i], self.tags@) by {
                    if i > 0 {
                        assert(ws2[i] == ws[i - 1]);
                    }
                }
            }
        }
    }

    /// Focuses the window with this id when it is on this monitor and visible; returns
    /// whether it did.
    pub fn focus_window(&mut self, id: u32) -> (r: bool)
        requires
            old(self).wf(),
        ensures
            final(self).wf(),
            final(self).windows.windows@ == old(self).windows.windows@,
            final(self).tags == old(self).tags,
            final(self).id == old(self).id && final(self).rect == old(self).rect && final(self).layout == old(self).layout,
            r == (match first_from(old(self).windows.windows@, id_pred(id), 0) {
                Some(k) => win_visible(old(self).windows.windows@[k], old(self).tags@),
                None => false,
            }),
            r ==> final(self).windows.cursor() == first_from(old(self).windows.windows@, id_pred(id), 0),
            !r ==> final(self).windows.cur == old(self).windows.cur,
    {
        proof {
            lemma_first_from(self.windows.windows@, id_pred(id), 0);
        }
        match self.windows.find_by_id(id) {
            Some(k) => {
                if is_visible(&self.windows.windows[k], self.tags.as_slice()) {
                    self.windows.cur = Some(k);
                    true
                } else {
                    false
                }
            },
            None => false,
        }
    }

    /// Focuses the first visible window, or nothing when none is visible.
    pub fn reset_focus(&mut self) -> (r: Option<usize>)
        requires
            old(self).windows.wf(),
            tags_wf(old(self).tags@),
        ensures
            final(self).wf(),
            final(self).windows.windows@ == old(self).windows.windows@,
            final(self).tags == old(self).tags,
            final(self).id == old(self).id && final(self).rect == old(self).rect && final(self).layout == old(self).layout,
            final(self).windows.cur == r,
            opt_int(r) == first_from(old(self).windows.windows@, visible_pred(old(self).tags@), 0),
    {
        let r = self.windows.reset_focus(self.tags.as_slice());
        proof {
            lemma_next_prev_bounds(self.windows.windows@, self.tags@, None);
        }
        r
    }

    /// Exchanges the focused window with its visible neighbour in direction `dir`; focus
    /// follows the moved window.
    pub fn shift_windows(&mut self, dir: Direction)
        requires
            old(self).wf(),
        ensures
            final(self).wf(),
            (final(self).windows.windows@, final(self).windows.cursor()) == shift_result(
                old(self).windows.windows@,
                old(self).tags@,
                old(self).windows.cursor(),
                dir,
            ),
            final(self).tags == old(self).tags,
            final(self).id == old(self).id && final(self).rect == old(self).rect && final(self).layout == old(self).layout,
    {
        let ghost ws = self.windows.windows@;
        proof {
            lemma_next_prev_bounds(ws, self.tags@, self.windows.cursor());
        }
        self.windows.shift(dir, self.tags.as_slice());
        proof {
            let ws2 = self.windows.windows@;
            if let Some(n) = self.windows.cur {
                let c = old(self).windows.cur->0;
                if n != c {
                    assert(ws2[n as int] == ws[c as int]);
                }
            }
        }
    }

    /// Removes the window with this id and focuses the window that should follow it:
    /// the previously focused one, or, when the removed window had focus, the next
    /// visible one. Returns the removed record and the newly focused id.
    pub fn remove_window(&mut self, id: u32) -> (r: (Option<WinState>, Option<u32>))
        requires
            old(self).wf(),
        ensures
            final(self).wf(),
            final(self).tags == old(self).tags,
            final(self).id == old(self).id && final(self).rect == old(self).rect && final(self).layout == old(self).layout,
            match first_from(old(self).windows.windows@, id_pred(id), 0) {
                None => r.0 is None && r.1 is None && final(self).windows.windows@ == old(self).windows.windows@
                    && final(self).windows.cur == old(self).windows.cur,
                Some(pos) => {
                    &&& final(self).windows.windows@ == old(self).windows.windows@.remove(pos)
                    &&& r.0 == Some(old(self).windows.windows@[pos])
                    &&& r.1 == forget_successor(old(self).windows.windows@, old(self).tags@, old(self).windows.cursor(), pos)
                    &&& match r.1 {
                        Some(nid) => final(self).windows.cursor() == first_from(final(self).windows.windows@, id_pred(nid), 0),
                        None => final(self).windows.cur is None,
                    }
                },
            },
    {
        let ghost ws = self.windows.windows@;
        let ghost c0 = self.windows.cur;
        let (removed, next) = self.windows.forget(id, self.tags.as_slice());
        proof {
            lemma_first_from(ws, id_pred(id), 0);
        }
        if let Some(nid) = next {
            self.windows.set_focused(nid);
        }
        proof {
            let rest = self.windows.windows@;
            if let Some(pos) = first_from(ws, id_pred(id), 0) {
                if let Some(nid) = next {
                    let c = c0->0 as int;
                    if c != pos {
                        let k = if pos < c { c - 1 } else { c };
                        assert(rest[k] == ws[c]);
                        lemma_unique_position(rest, k);
                    } else {
                        let k = choose|k: int| 0 <= k < rest.len() && #[trigger] rest[k].id == nid && win_visible(rest[k], self.tags@);
                        lemma_unique_position(rest, k);
                    }
                } else {
                    if let Some(c) = c0 {
                        assert(c as int == pos);
                    } else {
                        assert forall|i: int| 0 <= i < rest.len() implies !win_visible(#[trigger] rest[i], self.tags@) by {
                            let pi = if i < pos { i } else { i + 1 };
                            assert(rest[i] == ws[pi]);
                        }
                    }
                }
            }
        }
        (removed, next)
    }

    /// Makes `tag` the only visible tag, adopts its layout, and focuses the first visible window.
    pub fn switch_tag(&mut self, tag: TagId)
        requires
            old(self).wf(),
            tag.valid(),
        ensures
            final(self).wf(),
            final(self).tags@ == switched_tags(old(self).tags@, tag),
            final(self).layout == old(self).tags@[tag.0 - 1].layout,
            final(self).windows.windows@ == old(self).windows.windows@,
            final(self).windows.cursor() == first_from(old(self).windows.windows@, visible_pred(final(self).tags@), 0),
            final(self).id == old(self).id && final(self).rect == old(self).rect,
    {
        let mut i: usize = 0;
        let ghost t0 = self.tags@;
        while i < 9
            invariant
                i <= 9,
                self.tags@.len() == 9,
                tags_wf(t0),
                self.windows == old(self).windows,
                self.id == old(self).id && self.rect == old(self).rect,
                t0 == old(self).tags@,
                forall|k: int| 0 <= k < i ==> #[trigger] self.tags@[k] == switched_tags(t0, tag)[k],
                forall|k: int| i <= k < 9 ==> #[trigger] self.tags@[k] == t0[k],
                i > tag.0 - 1 ==> self.layout == t0[tag.0 - 1].layout,
            decreases 9 - i,
        {
            let t = self.tags[i];
            let on = t.id == tag;
            if on {
                self.layout = t.layout;
            }
            self.tags.set(i, TagState { id: t.id, visible: on, layout: t.layout });
            i = i + 1;
        }
        assert(self.tags@ =~= switched_tags(t0, tag));
        assert(self.tags@[tag.0 - 1].visible);
        self.reset_focus();
    }

    /// Whether `tag` may be flipped: it is not the only visible tag.
    pub fn can_toggle(&self, tag: TagId) -> (r: bool)
        requires
            self.wf(),
            tag.valid(),
        ensures
            r == !only_visible(self.tags@, tag.0 - 1),
    {
        let k = (tag.0 - 1) as usize;
        if !self.tags[k].visible {
            return true;
        }
        let mut i: usize = 0;
        while i < 9
            invariant
                i <= 9,
                self.tags@.len() == 9,
                k < 9,
                k == tag.0 - 1,
                forall|j: int| 0 <= j < i && j != k ==> !(#[trigger] self.tags@[j]).visible,
            decreases 9 - i,
        {
            if i != k && self.tags[i].visible {
                assert(self.tags@[i as int].visible);
                return true;
            }
            i = i + 1;
        }
        false
    }

    /// Flips the visibility of `tag`, unless that would hide the last visible tag.
    /// Returns whether it changed; on a change the first visible window takes focus.
    pub fn toggle_tag(&mut self, tag: TagId) -> (r: bool)
        requires
            old(self).wf(),
            tag.valid(),
        ensures
            final(self).wf(),
            r == !only_visible(old(self).tags@, tag.0 - 1),
            r ==> final(self).tags@ == old(self).tags@.update(
                tag.0 - 1,
                TagState { visible: !old(self).tags@[tag.0 - 1].visible, ..old(self).tags@[tag.0 - 1] },
            ),
            r ==> final(self).windows.cursor() == first_from(old(self).windows.windows@, visible_pred(final(self).tags@), 0),
            !r ==> *final(self) == *old(self),
            final(self).windows.windows@ == old(self).windows.windows@,
            final(self).id == old(self).id && final(self).rect == old(self).rect && final(self).layout == old(self).layout,
    {
        let k = (tag.0 - 1) as usize;
        let t = self.tags[k];
        if t.visible {
            let mut others = false;
            let mut i: usize = 0;
            while i < 9
                invariant
                    i <= 9,
                    self.tags@.len() == 9,
                    k < 9,
                    others == exists|j: int| 0 <= j < i && j != k && #[trigger] self.tags@[j].visible,
                decreases 9 - i,
            {
                if i != k && self.tags[i].visible {
                    others = true;
                }
                i = i + 1;
            }
            if !others {
                return false;
            }
        }
        let ghost t0 = self.tags@;
        self.tags.set(k, TagState { id: t.id, visible: !t.visible, layout: t.layout });
        proof {
            if !t.visible {
                assert(self.tags@[k as int].visible);
            } else {
                let j = choose|j: int| 0 <= j < 9 && j != k && #[trigger] t0[j].visible;
                assert(self.tags@[j].visible);
            }
            assert forall|i: int| 0 <= i < 9 implies (#[trigger] self.tags@[i]).id == TagId((i + 1) as u8) by {
                assert(t0[i].id == TagId((i + 1) as u8));
            }
        }
        self.reset_focus();
        true
    }

    /// Moves the focused window to `tag` alone and focuses the next visible window
    /// (nothing when none is visible). Returns the moved window's id and the newly
    /// focused id; `None` when nothing was focused.
    pub fn retag_focused(&mut self, tag: TagId) -> (r: Option<(u32, Option<u32>)>)
        requires
            old(self).wf(),
        ensures
            final(self).wf(),
            final(self).tags == old(self).tags,
            final(self).id == old(self).id && final(self).rect == old(self).rect && final(self).layout == old(self).layout,
            match old(self).windows.cur {
                None => r is None && final(self).windows.windows@ == old(self).windows.windows@
                    && final(self).windows.cur is None,
                Some(c) => {
                    let ws = old(self).windows.windows@;
                    let ws2 = final(self).windows.windows@;
                    &&& ws2.len() == ws.len()
                    &&& forall|i: int| 0 <= i < ws.len() && i != c ==> #[trigger] ws2[i] == ws[i]
                    &&& ws2[c as int].id == ws[c as int].id && ws2[c as int].tags@ == seq![tag]
                    &&& ws2[c as int].floating == ws[c as int].floating
                    &&& final(self).windows.cursor() == next_visible(ws2, old(self).tags@, Some(c as int))
                    &&& r == Some((ws[c as int].id, match next_visible(ws2, old(self).tags@, Some(c as int)) {
                        Some(k) => Some(ws2[k].id),
                        None => None::<u32>,
                    }))
                },
            },
    {
        let c = match self.windows.cur {
            Some(c) => c,
            None => {
                return None;
            },
        };
        let ghost ws = self.windows.windows@;
        let moved = self.windows.windows[c].id;
        self.windows.windows[c].tags = vec![tag];
        proof {
            let ws2 = self.windows.windows@;
            assert forall|i: int, j: int|
                0 <= i < ws2.len() && 0 <= j < ws2.len() && i != j
                    implies #[trigger] ws2[i].id != #[trigger] ws2[j].id by {
                assert(ws2[i].id == ws[i].id);
                assert(ws2[j].id == ws[j].id);
            }
            lemma_next_prev_bounds(ws2, self.tags@, Some(c as int));
        }
        let next = self.windows.find_next(self.tags.as_slice());
        self.windows.cur = next;
        match next {
            Some(k) => Some((moved, Some(self.windows.windows[k].id))),
            None => Some((moved, None)),
        }
    }

    /// Flips the floating flag of the focused window; returns its id.
    pub fn toggle_float_focused(&mut self) -> (r: Option<u32>)
        requires
            old(self).wf(),
        ensures
            final(self).wf(),
            final(self).tags == old(self).tags,
            final(self).id == old(self).id && final(self).rect == old(self).rect && final(self).layout == old(self).layout,
            final(self).windows.cur == old(self).windows.cur,
            match old(self).windows.cur {
                None => r is None && final(self).windows.windows@ == old(self).windows.windows@,
                Some(c) => {
                    let ws = old(self).windows.windows@;
                    let ws2 = final(self).windows.windows@;
                    &&& r == Some(ws[c as int].id)
                    &&& ws2.len() == ws.len()
                    &&& forall|i: int| 0 <= i < ws.len() && i != c ==> #[trigger] ws2[i] == ws[i]
                    &&& ws2[c as int] == (WinState { floating: !ws[c as int].floating, ..ws[c as int] })
                },
            },
    {
        let c = match self.windows.cur {
            Some(c) => c,
            None => {
                return None;
            },
        };
        let ghost ws = self.windows.windows@;
        let f = self.windows.windows[c].floating;
        self.windows.windows[c].floating = !f;
        proof {
            lemma_same_shape(ws, self.windows.windows@, self.tags@);
        }
        Some(self.windows.windows[c].id)
    }

    /// Sets the floating flag and, where given, the geometry of the window with this
    /// id; returns whether the window is on this monitor.
    pub fn update_window(&mut self, id: u32, floating: bool, pos: Option<(i16, i16)>, size: Option<(u16, u16)>) -> (r: bool)
        requires
            old(self).wf(),
        ensures
            final(self).wf(),
            final(self).tags == old(self).tags,
            final(self).id == old(self).id && final(self).rect == old(self).rect && final(self).layout == old(self).layout,
            final(self).windows.cur == old(self).windows.cur,
            r == has_id(old(self).windows.windows@, id),
            match first_from(old(self).windows.windows@, id_pred(id), 0) {
                None => final(self).windows.windows@ == old(self).windows.windows@,
                Some(k) => {
                    let ws = old(self).windows.windows@;
                    let ws2 = final(self).windows.windows@;
                    &&& ws2.len() == ws.len()
                    &&& forall|i: int| 0 <= i < ws.len() && i != k ==> #[trigger] ws2[i] == ws[i]
                    &&& same_id_and_tags(ws2[k], ws[k])
                    &&& ws2[k].floating == floating
                    &&& ws2[k].x == (match pos { Some(p) => p.0, None => ws[k].x })
                    &&& ws2[k].y == (match pos { Some(p) => p.1, None => ws[k].y })
                    &&& ws2[k].width == (match size { Some(s) => s.0, None => ws[k].width })
                    &&& ws2[k].height == (match size { Some(s) => s.1, None => ws[k].height })
                },
            },
    {
        proof {
            lemma_first_from(self.windows.windows@, id_pred(id), 0);
        }
        let k = match self.windows.find_by_id(id) {
            Some(k) => k,
            None => {
                return false;
            },
        };
        let ghost ws = self.windows.windows@;
        let (x, y) = match pos {
            Some(p) => p,
            None => (self.windows.windows[k].x, self.windows.windows[k].y),
        };
        let (w, h) = match size {
            Some(s) => s,
            None => (self.windows.windows[k].width, self.windows.windows[k].height),
        };
        let rec = &mut self.windows.windows[k];
        rec.floating = floating;
        rec.x = x;
        rec.y = y;
        rec.width = w;
        rec.height = h;
        proof {
            lemma_same_shape(ws, self.windows.windows@, self.tags@);
        }
        true
    }

    /// The ids of the tilable windows, in history order.
    pub fn tilable_window_ids(&self) -> (r: Vec<u32>)
        ensures
            r@ == tilable_ids(self.windows.windows@, self.tags@),
    {
        let ghost ws = self.windows.windows@;
        let mut r: Vec<u32> = Vec::new();
        let mut j: usize = 0;
        while j < self.windows.windows.len()
            invariant
                ws == self.windows.windows@,
                j <= ws.len(),
                r@ == tilable_ids(ws.take(j as int), self.tags@),
            decreases ws.len() - j,
        {
            assert(ws.take(j as int + 1).drop_last() =~= ws.take(j as int));
            reveal(Seq::filter);
            if is_visible(&self.windows.windows[j], self.tags.as_slice()) && !self.windows.windows[j].floating {
                r.push(self.windows.windows[j].id);
            }
            j = j + 1;
        }
        assert(ws.take(ws.len() as int) =~= ws);
        r
    }

    /// Runs the layout engine on the tilable windows, records the geometry each one is
    /// given, and returns the placements to send to the X server.
    pub fn update_layout(&mut self, border_width: u32, gap: u32) -> (r: Vec<Placement>)
        requires
            old(self).wf(),
        ensures
            final(self).wf(),
            final(self).tags == old(self).tags,
            final(self).id == old(self).id && final(self).rect == old(self).rect && final(self).layout == old(self).layout,
            final(self).windows.cur == old(self).windows.cur,
            r@ == layout_spec(old(self).layout, old(self).rect, tilable_ids(old(self).windows.windows@, old(self).tags@), border_width as int, gap as int),
            ({
                let ws = old(self).windows.windows@;
                let ws2 = final(self).windows.windows@;
                &&& ws2.len() == ws.len()
                &&& forall|i: int| 0 <= i < ws.len() ==> same_id_and_tags(#[trigger] ws2[i], ws[i]) && ws2[i].floating == ws[i].floating
                &&& forall|i: int| 0 <= i < ws.len() && !(tilable(ws[i], old(self).tags@) && old(self).layout != LayoutType::Floating)
                    ==> #[trigger] ws2[i] == ws[i]
                &&& forall|i: int| 0 <= i < ws.len() && tilable(ws[i], old(self).tags@) && old(self).layout != LayoutType::Floating
                    ==> placed(#[trigger] ws2[i], r@[tilable_ids(ws.take(i), old(self).tags@).len() as int])
            }),
    {
        let ids = self.tilable_window_ids();
        let r = arrange(self.layout, ids.as_slice(), self.rect, border_width, gap);
        if self.layout == LayoutType::Floating {
            return r;
        }
        let ghost ws = self.windows.windows@;
        let ghost tags = self.tags@;
        let ghost p = tilable_pred(tags);
        let mut k: usize = 0;
        let mut j: usize = 0;
        while j < self.windows.windows.len()
            invariant
                self.tags@ == tags,
                p == tilable_pred(tags),
                self.tags == old(self).tags,
                self.id == old(self).id && self.rect == old(self).rect && self.layout == old(self).layout,
                self.layout != LayoutType::Floating,
                self.windows.cur == old(self).windows.cur,
                ws == old(self).windows.windows@,
                self.windows.windows@.len() == ws.len(),
                j <= ws.len(),
                ids@ == tilable_ids(ws, tags),
                r@ == layout_spec(self.layout, self.rect, ids@, border_width as int, gap as int),
                k == tilable_ids(ws.take(j as int), tags).len(),
                forall|i: int| 0 <= i < ws.len() ==> same_id_and_tags(#[trigger] self.windows.windows@[i], ws[i])
                    && self.windows.windows@[i].floating == ws[i].floating,
                forall|i: int| j <= i < ws.len() || (0 <= i < j && !tilable(ws[i], tags))
                    ==> #[trigger] self.windows.windows@[i] == ws[i],
                forall|i: int| 0 <= i < j && tilable(ws[i], tags)
                    ==> placed(#[trigger] self.windows.windows@[i], r@[tilable_ids(ws.take(i), tags).len() as int]),
            decreases ws.len() - j,
        {
            assert(ws.take(j as int + 1).drop_last() =~= ws.take(j as int));
            assert(self.windows.windows@[j as int] == ws[j as int]);
            reveal(Seq::filter);
            let vis = is_visible(&self.windows.windows[j], self.tags.as_slice());
            if vis && !self.windows.windows[j].floating {
                proof {
                    assert(win_visible(ws[j as int], tags));
                    assert(tilable(ws[j as int], tags));
                    Seq::filter_distributes_over_add(ws.take(j as int), ws.skip(j as int), p);
                    assert(ws.take(j as int) + ws.skip(j as int) =~= ws);
                    Seq::filter_distributes_over_add(seq![ws[j as int]], ws.skip(j as int + 1), p);
                    assert(seq![ws[j as int]] + ws.skip(j as int + 1) =~= ws.skip(j as int));
                    assert(p(ws[j as int]));
                    assert(seq![ws[j as int]].drop_last() =~= Seq::<WinState>::empty());
                    assert(Seq::<WinState>::empty().filter(p) =~= Seq::<WinState>::empty());
                    assert(seq![ws[j as int]].filter(p) =~= seq![ws[j as int]]);
                }
                let pl = r[k];
                let rec = &mut self.windows.windows[j];
                rec.x = clamp_i16_exec(pl.x);
                rec.y = clamp_i16_exec(pl.y);
                rec.width = clamp_u16_exec(pl.width);
                rec.height = clamp_u16_exec(pl.height);
                k = k + 1;
            }
            j = j + 1;
        }
        proof {
            lemma_same_shape(ws, self.windows.windows@, tags);
        }
        r
    }

    /// Rotates the monitor's layout through the ring `layouts`; a layout missing from
    /// the ring gives way to the ring's first.
    pub fn change_layout(&mut self, dir: Direction, layouts: &[LayoutType])
        requires
            old(self).wf(),
            layouts@.len() > 0,
        ensures
            final(self).wf(),
            final(self).tags == old(self).tags,
            final(self).windows == old(self).windows,
            final(self).id == old(self).id && final(self).rect == old(self).rect,
            layouts@.contains(old(self).layout) ==> exists|k: int|
                is_first_position(layouts@, old(self).layout, k) && final(self).layout == (match dir {
                    Direction::Down => layouts@[(k + 1) % (layouts@.len() as int)],
                    Direction::Up => layouts@[if k == 0 { layouts@.len() - 1 } else { k - 1 }],
                }),
            !layouts@.contains(old(self).layout) ==> final(self).layout == layouts@[0],
    {
        let mut found = false;
        let mut i: usize = 0;
        while i < layouts.len()
            invariant
                i <= layouts@.len(),
                found == exists|j: int| 0 <= j < i && layouts@[j] == self.layout,
            decreases layouts.len() - i,
        {
            if layouts[i] == self.layout {
                found = true;
            }
            i = i + 1;
        }
        if !found {
            self.layout = layouts[0];
            return;
        }
        self.layout = match dir {
            Direction::Down => self.layout.next(layouts),
            Direction::Up => self.layout.prev(layouts),
        };
    }
}

/// Records that keep their ids and tags keep uniqueness and visibility.
pub proof fn lemma_same_shape(ws: Seq<WinState>, ws2: Seq<WinState>, tags: Seq<TagState>)
    requires
        ws2.len() == ws.len(),
        forall|i: int| 0 <= i < ws.len() ==> (#[trigger] ws2[i]).id == ws[i].id && ws2[i].tags == ws[i].tags,
    ensures
        ids_unique(ws) ==> ids_unique(ws2),
        forall|i: int| 0 <= i < ws.len() ==> win_visible(#[trigger] ws2[i], tags) == win_visible(ws[i], tags),
        has_visible(ws2, tags) == has_visible(ws, tags),
        forall|id: u32| first_from(ws2, id_pred(id), 0) == #[trigger] first_from(ws, id_pred(id), 0),
{
    assert forall|i: int| 0 <= i < ws.len() implies win_visible(#[trigger] ws2[i], tags) == win_visible(ws[i], tags) by {
        assert(ws2[i].tags@ == ws[i].tags@);
    }
    if has_visible(ws, tags) {
        let i = choose|i: int| 0 <= i < ws.len() && win_visible(#[trigger] ws[i], tags);
        assert(win_visible(ws2[i], tags));
    }
    if has_visible(ws2, tags) {
        let i = choose|i: int| 0 <= i < ws2.len() && win_visible(#[trigger] ws2[i], tags);
        assert(win_visible(ws[i], tags));
    }
    assert forall|id: u32| has_id(ws2, id) == #[trigger] has_id(ws, id) by {
        if has_id(ws, id) {
            let k = choose|k: int| 0 <= k < ws.len() && #[trigger] ws[k].id == id;
            assert(ws2[k].id == id);
        }
        if has_id(ws2, id) {
            let k = choose|k: int| 0 <= k < ws2.len() && #[trigger] ws2[k].id == id;
            assert(ws[k].id == id);
        }
    }
    assert forall|id: u32| first_from(ws2, id_pred(id), 0) == #[trigger] first_from(ws, id_pred(id), 0) by {
        lemma_first_from(ws, id_pred(id), 0);
        lemma_first_from(ws2, id_pred(id), 0);
        let a = first_from(ws, id_pred(id), 0);
        let b = first_from(ws2, id_pred(id), 0);
        if let Some(k) = a {
            assert(id_pred(id)(ws2[k]));
        }
        if let Some(k) = b {
            assert(id_pred(id)(ws[k]));
        }
    }
}

/// In a history with unique ids, the first record with an id is the only one.
pub proof fn lemma_unique_position(ws: Seq<WinState>, k: int)
    requires
        ids_unique(ws),
        0 <= k < ws.len(),
    ensures
        first_from(ws, id_pred(ws[k].id), 0) == Some(k),
{
    lemma_first_from(ws, id_pred(ws[k].id), 0);
    assert(id_pred(ws[k].id)(ws[k]));
}

/// Positions returned by the ring searches are in bounds and visible.
pub proof fn lemma_next_prev_bounds(ws: Seq<WinState>, tags: Seq<TagState>, cur: Option<int>)
    requires
        cur matches Some(c) ==> 0 <= c < ws.len(),
    ensures
        next_visible(ws, tags, cur) matches Some(k) ==> 0 <= k < ws.len() && win_visible(ws[k], tags),
        prev_visible(ws, tags, cur) matches Some(k) ==> 0 <= k < ws.len() && win_visible(ws[k], tags),
        next_visible(ws, tags, cur) is None <==> !has_visible(ws, tags),
        prev_visible(ws, tags, cur) is None <==> !has_visible(ws, tags),
{
    let p = visible_pred(tags);
    lemma_first_from(ws, p, 0);
    lemma_last_before(ws, p, ws.len() as int);
    if let Some(c) = cur {
        lemma_first_from(ws, p, c + 1);
        lemma_last_before(ws, p, c);
    }
    if has_visible(ws, tags) {
        let i = choose|i: int| 0 <= i < ws.len() && win_visible(#[trigger] ws[i], tags);
        assert(p(ws[i]));
    }
}

/// Under the slots that `switched_tags` leaves, a window is visible exactly when
/// it is on that tag.
pub proof fn lemma_switched_visible(tags: Seq<TagState>, t: TagId, w: WinState)
    requires
        tags_wf(tags),
        t.valid(),
    ensures
        win_visible(w, switched_tags(tags, t)) == w.tags@.contains(t),
{
    let st = switched_tags(tags, t);
    assert(st[t.0 - 1].id == t && st[t.0 - 1].visible);
    if w.tags@.contains(t) {
        let j = choose|j: int| 0 <= j < w.tags@.len() && w.tags@[j] == t;
        assert(tag_visible(st, w.tags@[j]));
    }
    if win_visible(w, st) {
        let j = choose|j: int| 0 <= j < w.tags@.len() && tag_visible(st, #[trigger] w.tags@[j]);
        let i = choose|i: int| 0 <= i < st.len() && #[trigger] st[i].visible && st[i].id == w.tags@[j];
        assert(w.tags@[j] == t);
    }
}

/// Sending the focused window to tag `t` and then switching to `t` leaves that
/// window focused, when no window before it in the history is already on `t`.
/// `ws` is the history after the send: the window at `c` is on `t` alone.
pub proof fn law_send_then_switch(ws: Seq<WinState>, tags: Seq<TagState>, c: int, t: TagId)
    requires
        tags_wf(tags),
        t.valid(),
        0 <= c < ws.len(),
        ws[c].tags@ == seq![t],
        forall|i: int| 0 <= i < c ==> !(#[trigger] ws[i]).tags@.contains(t),
    ensures
        first_from(ws, visible_pred(switched_tags(tags, t)), 0) == Some(c),
{
    let p = visible_pred(switched_tags(tags, t));
    lemma_first_from(ws, p, 0);
    lemma_switched_visible(tags, t, ws[c]);
    assert(ws[c].tags@[0] == t);
    assert(p(ws[c]));
    if let Some(k) = first_from(ws, p, 0) {
        lemma_switched_visible(tags, t, ws[k]);
        if k < c {
            assert(!ws[k].tags@.contains(t));
        }
    }
}

} // verus!
