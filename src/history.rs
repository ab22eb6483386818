//! The per-monitor focus history: windows in most-recently-focused order and a
//! cursor on the focused one.

use vstd::prelude::*;
use crate::geometry::Direction;
use crate::window::{is_visible, win_visible, TagState, WinState};

verus! {

/// An index of `usize` seen as a mathematical integer.
pub open spec fn opt_int(r: Option<usize>) -> Option<int> {
    match r {
        Some(i) => Some(i as int),
        None => None,
    }
}

pub open spec fn or_else(a: Option<int>, b: Option<int>) -> Option<int> {
    if a is Some {
        a
    } else {
        b
    }
}

/// The first position at or after `start` whose record satisfies `p`.
pub open spec fn first_from(ws: Seq<WinState>, p: spec_fn(WinState) -> bool, start: int) -> Option<int>
    decreases ws.len() - start,
{
    if 0 <= start < ws.len() {
        if p(ws[start]) {
            Some(start)
        } else {
            first_from(ws, p, start + 1)
        }
    } else {
        None
    }
}

/// The last position before `end` whose record satisfies `p`.
pub open spec fn last_before(ws: Seq<WinState>, p: spec_fn(WinState) -> bool, end: int) -> Option<int>
    decreases end,
{
    if 0 < end <= ws.len() {
        if p(ws[end - 1]) {
            Some(end - 1)
        } else {
            last_before(ws, p, end - 1)
        }
    } else {
        None
    }
}

pub open spec fn visible_pred(tags: Seq<TagState>) -> spec_fn(WinState) -> bool {
    |w: WinState| win_visible(w, tags)
}

pub open spec fn id_pred(id: u32) -> spec_fn(WinState) -> bool {
    |w: WinState| w.id == id
}

/// The next visible position after `cur`, wrapping to the first visible one.
pub open spec fn next_visible(ws: Seq<WinState>, tags: Seq<TagState>, cur: Option<int>) -> Option<int> {
    match cur {
        Some(c) => or_else(
            first_from(ws, visible_pred(tags), c + 1),
            first_from(ws, visible_pred(tags), 0),
        ),
        None => first_from(ws, visible_pred(tags), 0),
    }
}

/// The previous visible position before `cur`, wrapping to the last visible one.
pub open spec fn prev_visible(ws: Seq<WinState>, tags: Seq<TagState>, cur: Option<int>) -> Option<int> {
    match cur {
        Some(c) => or_else(
            last_before(ws, visible_pred(tags), c),
            last_before(ws, visible_pred(tags), ws.len() as int),
        ),
        None => last_before(ws, visible_pred(tags), ws.len() as int),
    }
}

pub open spec fn has_visible(ws: Seq<WinState>, tags: Seq<TagState>) -> bool {
    exists|i: int| 0 <= i < ws.len() && win_visible(#[trigger] ws[i], tags)
}

pub open spec fn has_id(ws: Seq<WinState>, id: u32) -> bool {
    exists|i: int| 0 <= i < ws.len() && #[trigger] ws[i].id == id
}

/// No two records share an id.
pub open spec fn ids_unique(ws: Seq<WinState>) -> bool {
    forall|i: int, j: int| 0 <= i < ws.len() && 0 <= j < ws.len() && i != j ==> #[trigger] ws[i].id != #[trigger] ws[j].id
}

/// `ws` with the records at `a` and `b` exchanged.
pub open spec fn swapped(ws: Seq<WinState>, a: int, b: int) -> Seq<WinState> {
    ws.update(a, ws[b]).update(b, ws[a])
}

/// The id that should take focus after the record at `pos` is removed from `ws`,
/// where `cur` was the focused position: the focused record when another one was
/// removed, else the next visible record from the removed position, wrapping.
pub open spec fn forget_successor(ws: Seq<WinState>, tags: Seq<TagState>, cur: Option<int>, pos: int) -> Option<u32> {
    match cur {
        None => None,
        Some(c) => if c != pos {
            Some(ws[c].id)
        } else {
            let rest = ws.remove(pos);
            match or_else(first_from(rest, visible_pred(tags), pos), first_from(rest, visible_pred(tags), 0)) {
                Some(k) => Some(rest[k].id),
                None => None,
            }
        },
    }
}

/// The position that `shift` exchanges the focused record with.
pub open spec fn shift_target(ws: Seq<WinState>, tags: Seq<TagState>, cur: Option<int>, dir: Direction) -> Option<int> {
    match dir {
        Direction::Up => prev_visible(ws, tags, cur),
        Direction::Down => next_visible(ws, tags, cur),
    }
}

/// The order and cursor that `shift` leaves.
pub open spec fn shift_result(ws: Seq<WinState>, tags: Seq<TagState>, cur: Option<int>, dir: Direction) -> (Seq<WinState>, Option<int>) {
    match (cur, shift_target(ws, tags, cur, dir)) {
        (Some(c), Some(n)) => (swapped(ws, c, n), Some(n)),
        _ => (ws, cur),
    }
}

/// Shifting the focused window one way and then the other way gives back the
/// order and the cursor it started from.
pub proof fn law_shift_round_trip(ws: Seq<WinState>, tags: Seq<TagState>, c: int, dir: Direction)
    requires
        0 <= c < ws.len(),
        win_visible(ws[c], tags),
    ensures
        ({
            let (ws1, cur1) = shift_result(ws, tags, Some(c), dir);
            shift_result(ws1, tags, cur1, dir.spec_opposite()) == (ws, Some(c))
        }),
{
    let p = visible_pred(tags);
    let len = ws.len() as int;
    lemma_first_from(ws, p, c + 1);
    lemma_first_from(ws, p, 0);
    lemma_last_before(ws, p, c);
    lemma_last_before(ws, p, len);
    assert(p(ws[c]));
    let n = shift_target(ws, tags, Some(c), dir)->0;
    let ws1 = swapped(ws, c, n);
    assert(swapped(ws1, n, c) =~= ws);
    assert(forall|j: int| 0 <= j < len && j != c && j != n ==> ws1[j] == ws[j]);
    lemma_first_from(ws1, p, n + 1);
    lemma_first_from(ws1, p, 0);
    lemma_last_before(ws1, p, n);
    lemma_last_before(ws1, p, len);
    assert(p(ws1[c]));
    assert(p(ws1[n]));
}

/// The searches agree on two histories whose records satisfy `p` at the same positions.
pub proof fn lemma_first_from_same(ws: Seq<WinState>, ws2: Seq<WinState>, p: spec_fn(WinState) -> bool, start: int)
    requires
        ws2.len() == ws.len(),
        forall|i: int| 0 <= i < ws.len() ==> p(#[trigger] ws2[i]) == p(ws[i]),
    ensures
        first_from(ws2, p, start) == first_from(ws, p, start),
    decreases ws.len() - start,
{
    if 0 <= start < ws.len() {
        lemma_first_from_same(ws, ws2, p, start + 1);
    }
}

pub proof fn lemma_last_before_same(ws: Seq<WinState>, ws2: Seq<WinState>, p: spec_fn(WinState) -> bool, end: int)
    requires
        ws2.len() == ws.len(),
        forall|i: int| 0 <= i < ws.len() ==> p(#[trigger] ws2[i]) == p(ws[i]),
    ensures
        last_before(ws2, p, end) == last_before(ws, p, end),
    decreases end,
{
    if 0 < end <= ws.len() {
        lemma_last_before_same(ws, ws2, p, end - 1);
    }
}

/// The ring searches agree on two histories with the same visibility at each position.
pub proof fn lemma_visible_same(ws: Seq<WinState>, ws2: Seq<WinState>, tags: Seq<TagState>, cur: Option<int>)
    requires
        ws2.len() == ws.len(),
        forall|i: int| 0 <= i < ws.len() ==> win_visible(#[trigger] ws2[i], tags) == win_visible(ws[i], tags),
    ensures
        next_visible(ws2, tags, cur) == next_visible(ws, tags, cur),
        prev_visible(ws2, tags, cur) == prev_visible(ws, tags, cur),
        first_from(ws2, visible_pred(tags), 0) == first_from(ws, visible_pred(tags), 0),
{
    let p = visible_pred(tags);
    assert forall|i: int| 0 <= i < ws.len() implies p(#[trigger] ws2[i]) == p(ws[i]) by {
        assert(win_visible(ws2[i], tags) == win_visible(ws[i], tags));
    }
    lemma_first_from_same(ws, ws2, p, 0);
    lemma_last_before_same(ws, ws2, p, ws.len() as int);
    if let Some(c) = cur {
        lemma_first_from_same(ws, ws2, p, c + 1);
        lemma_last_before_same(ws, ws2, p, c);
    }
}

pub proof fn lemma_first_from(ws: Seq<WinState>, p: spec_fn(WinState) -> bool, start: int)
    requires
        0 <= start,
    ensures
        match first_from(ws, p, start) {
            Some(k) => start <= k < ws.len() && p(ws[k]) && forall|j: int| start <= j < k ==> !p(#[trigger] ws[j]),
            None => forall|j: int| start <= j < ws.len() ==> !p(#[trigger] ws[j]),
        },
    decreases ws.len() - start,
{
    if 0 <= start < ws.len() && !p(ws[start]) {
        lemma_first_from(ws, p, start + 1);
    }
}

pub proof fn lemma_last_before(ws: Seq<WinState>, p: spec_fn(WinState) -> bool, end: int)
    requires
        end <= ws.len(),
    ensures
        match last_before(ws, p, end) {
            Some(k) => 0 <= k < end && p(ws[k]) && forall|j: int| k < j < end ==> !p(#[trigger] ws[j]),
            None => forall|j: int| 0 <= j < end ==> !p(#[trigger] ws[j]),
        },
    decreases end,
{
    if 0 < end && !p(ws[end - 1]) {
        lemma_last_before(ws, p, end - 1);
    }
}

/// The windows of one monitor, most recently focused first, and the focused position.
#[derive(Debug)]
pub struct WindowsHistory {
    pub windows: Vec<WinState>,
    pub cur: Option<usize>,
}

impl WindowsHistory {
    /// Ids are unique and the cursor is in bounds.
    pub open spec fn wf(&self) -> bool {
        &&& ids_unique(self.windows@)
        &&& self.cur matches Some(c) ==> c < self.windows@.len()
    }

    pub open spec fn cursor(&self) -> Option<int> {
        opt_int(self.cur)
    }

    pub fn new() -> (r: WindowsHistory)
        ensures
            r.windows@.len() == 0,
            r.cur is None,
            r.wf(),
    {
        WindowsHistory { windows: Vec::new(), cur: None }
    }

    fn first_visible_from(&self, tags: &[TagState], start: usize) -> (r: Option<usize>)
        ensures
            opt_int(r) == first_from(self.windows@, visible_pred(tags@), start as int),
    {
        let mut i = start;
        while i < self.windows.len()
            invariant
                start <= i,
                forall|j: int| start <= j < i ==> !win_visible(#[trigger] self.windows@[j], tags@),
            decreases self.windows.len() - i,
        {
            if is_visible(&self.windows[i], tags) {
                proof {
                    lemma_first_from(self.windows@, visible_pred(tags@), start as int);
                }
                return Some(i);
            }
            i = i + 1;
        }
        proof {
            lemma_first_from(self.windows@, visible_pred(tags@), start as int);
        }
        None
    }

    fn last_visible_before(&self, tags: &[TagState], end: usize) -> (r: Option<usize>)
        requires
            end <= self.windows@.len(),
        ensures
            opt_int(r) == last_before(self.windows@, visible_pred(tags@), end as int),
    {
        let mut i = end;
        while i > 0
            invariant
                i <= end,
                end <= self.windows@.len(),
                forall|j: int| i <= j < end ==> !win_visible(#[trigger] self.windows@[j], tags@),
            decreases i,
        {
            if is_visible(&self.windows[i - 1], tags) {
                proof {
                    lemma_last_before(self.windows@, visible_pred(tags@), end as int);
                }
                return Some(i - 1);
            }
            i = i - 1;
        }
        proof {
            lemma_last_before(self.windows@, visible_pred(tags@), end as int);
        }
        None
    }

    /// The next visible window after the focused one, wrapping (the first visible one when
    /// nothing is focused); `None` iff no window is visible.
    pub fn find_next(&self, tags: &[TagState]) -> (r: Option<usize>)
        requires
            self.wf(),
        ensures
            opt_int(r) == next_visible(self.windows@, tags@, self.cursor()),
    {
        let n = self.windows.len();
        match self.cur {
            Some(c) => {
                assert(c < n);
                match self.first_visible_from(tags, c + 1) {
                    Some(i) => Some(i),
                    None => self.first_visible_from(tags, 0),
                }
            },
            None => self.first_visible_from(tags, 0),
        }
    }

    /// The previous visible window before the focused one, wrapping (the last visible one
    /// when nothing is focused); `None` iff no window is visible.
    pub fn find_prev(&self, tags: &[TagState]) -> (r: Option<usize>)
        requires
            self.wf(),
        ensures
            opt_int(r) == prev_visible(self.windows@, tags@, self.cursor()),
    {
        match self.cur {
            Some(c) => match self.last_visible_before(tags, c) {
                Some(i) => Some(i),
                None => self.last_visible_before(tags, self.windows.len()),
            },
            None => self.last_visible_before(tags, self.windows.len()),
        }
    }

    /// Focuses the first visible window, or nothing when none is visible.
    pub fn reset_focus(&mut self, tags: &[TagState]) -> (r: Option<usize>)
        requires
            old(self).wf(),
        ensures
            final(self).wf(),
            final(self).windows@ == old(self).windows@,
            opt_int(r) == first_from(old(self).windows@, visible_pred(tags@), 0),
            final(self).cur == r,
    {
        let r = self.first_visible_from(tags, 0);
        proof {
            lemma_first_from(self.windows@, visible_pred(tags@), 0);
        }
        self.cur = r;
        r
    }

    /// The position of the window with this id.
    pub fn find_by_id(&self, id: u32) -> (r: Option<usize>)
        ensures
            opt_int(r) == first_from(self.windows@, id_pred(id), 0),
    {
        let mut i: usize = 0;
        while i < self.windows.len()
            invariant
                forall|j: int| 0 <= j < i ==> (#[trigger] self.windows@[j]).id != id,
            decreases self.windows.len() - i,
        {
            if self.windows[i].id == id {
                proof {
                    lemma_first_from(self.windows@, id_pred(id), 0);
                }
                return Some(i);
            }
            i = i + 1;
        }
        proof {
            lemma_first_from(self.windows@, id_pred(id), 0);
        }
        None
    }

    pub fn contains(&self, id: u32) -> (r: bool)
        ensures
            r == has_id(self.windows@, id),
    {
        proof {
            lemma_first_from(self.windows@, id_pred(id), 0);
        }
        self.find_by_id(id).is_some()
    }

    /// Adds a window at the front without focusing it; the cursor keeps its record.
    pub fn push_front(&mut self, w: WinState)
        requires
            old(self).wf(),
            !has_id(old(self).windows@, w.id),
            old(self).windows@.len() < usize::MAX,
        ensures
            final(self).wf(),
            final(self).windows@ == seq![w] + old(self).windows@,
            final(self).cursor() == (match old(self).cursor() {
                Some(c) => Some(c + 1),
                None => None::<int>,
            }),
    {
        self.windows.insert(0, w);
        assert(self.windows@ =~= seq![w] + old(self).windows@);
        if let Some(c) = self.cur {
            self.cur = Some(c + 1);
        }
        assert forall|i: int, j: int|
            0 <= i < self.windows@.len() && 0 <= j < self.windows@.len() && i != j
                implies #[trigger] self.windows@[i].id != #[trigger] self.windows@[j].id by {
            if i > 0 && j > 0 {
                assert(self.windows@[i] == old(self).windows@[i - 1]);
                assert(self.windows@[j] == old(self).windows@[j - 1]);
            } else if i == 0 {
                assert(self.windows@[j] == old(self).windows@[j - 1]);
            } else {
                assert(self.windows@[i] == old(self).windows@[i - 1]);
            }
        }
    }

    /// Focuses the window with this id if it is present; otherwise nothing changes.
    pub fn set_focused(&mut self, id: u32)
        requires
            old(self).wf(),
        ensures
            final(self).wf(),
            final(self).windows@ == old(self).windows@,
            final(self).cursor() == or_else(
                first_from(old(self).windows@, id_pred(id), 0),
                old(self).cursor(),
            ),
    {
        if let Some(i) = self.find_by_id(id) {
            proof {
                lemma_first_from(self.windows@, id_pred(id), 0);
            }
            self.cur = Some(i);
        }
    }

    /// Exchanges the records at `a` and `b`; the cursor stays where it is.
    fn swap_records(&mut self, a: usize, b: usize)
        requires
            old(self).wf(),
            a < old(self).windows@.len(),
            b < old(self).windows@.len(),
        ensures
            final(self).wf(),
            final(self).windows@ == swapped(old(self).windows@, a as int, b as int),
            final(self).cur == old(self).cur,
    {
        let ghost ws = self.windows@;
        if a == b {
            assert(self.windows@ =~= swapped(ws, a as int, b as int));
            return;
        }
        let lo = if a < b { a } else { b };
        let hi = if a < b { b } else { a };
        let mut t = self.windows.remove(hi);
        std::mem::swap(&mut self.windows[lo], &mut t);
        self.windows.insert(hi, t);
        assert(self.windows@ =~= swapped(ws, a as int, b as int));
        let ghost sw = self.windows@;
        assert forall|i: int, j: int|
            0 <= i < sw.len() && 0 <= j < sw.len() && i != j
                implies #[trigger] sw[i].id != #[trigger] sw[j].id by {
            let pi = if i == a { b as int } else if i == b { a as int } else { i };
            let pj = if j == a { b as int } else if j == b { a as int } else { j };
            assert(sw[i] == ws[pi]);
            assert(sw[j] == ws[pj]);
        }
    }

    /// Exchanges the focused record with the next (`Down`) or previous (`Up`) visible
    /// one; the cursor follows the focused record. Nothing changes when nothing is focused.
    pub fn shift(&mut self, dir: Direction, tags: &[TagState])
        requires
            old(self).wf(),
        ensures
            final(self).wf(),
            (final(self).windows@, final(self).cursor()) == shift_result(
                old(self).windows@,
                tags@,
                old(self).cursor(),
                dir,
            ),
    {
        if let Some(c) = self.cur {
            let target = match dir {
                Direction::Up => self.find_prev(tags),
                Direction::Down => self.find_next(tags),
            };
            if let Some(n) = target {
                proof {
                    lemma_first_from(self.windows@, visible_pred(tags@), 0);
                    lemma_first_from(self.windows@, visible_pred(tags@), c + 1);
                    lemma_last_before(self.windows@, visible_pred(tags@), c as int);
                    lemma_last_before(self.windows@, visible_pred(tags@), self.windows@.len() as int);
                }
                self.swap_records(c, n);
                self.cur = Some(n);
            }
        }
    }

    /// Removes the window with this id. Returns the removed record and the id that should
    /// take focus next (see `forget_successor`); the cursor is left empty. Nothing changes
    /// when the id is absent.
    pub fn forget(&mut self, id: u32, tags: &[TagState]) -> (r: (Option<WinState>, Option<u32>))
        requires
            old(self).wf(),
        ensures
            final(self).wf(),
            match first_from(old(self).windows@, id_pred(id), 0) {
                None => r.0 is None && r.1 is None && final(self).windows@ == old(self).windows@
                    && final(self).cur == old(self).cur,
                Some(pos) => {
                    &&& final(self).windows@ == old(self).windows@.remove(pos)
                    &&& final(self).cur is None
                    &&& r.0 == Some(old(self).windows@[pos])
                    &&& r.1 == forget_successor(old(self).windows@, tags@, old(self).cursor(), pos)
                    &&& old(self).cursor() == Some(pos) ==> match r.1 {
                        Some(nid) => exists|k: int|
                            0 <= k < final(self).windows@.len() && #[trigger] final(self).windows@[k].id == nid
                                && win_visible(final(self).windows@[k], tags@),
                        None => !has_visible(final(self).windows@, tags@),
                    }
                },
            },
    {
        let pos = match self.find_by_id(id) {
            Some(p) => p,
            None => {
                return (None, None);
            },
        };
        proof {
            lemma_first_from(self.windows@, id_pred(id), 0);
        }
        let ghost ws = self.windows@;
        let old_cur = self.cur;
        self.cur = None;
        let win = self.windows.remove(pos);
        assert(self.windows@ =~= ws.remove(pos as int));
        let ghost rest = self.windows@;
        assert forall|i: int, j: int|
            0 <= i < rest.len() && 0 <= j < rest.len() && i != j
                implies #[trigger] rest[i].id != #[trigger] rest[j].id by {
            let pi = if i < pos { i } else { i + 1 };
            let pj = if j < pos { j } else { j + 1 };
            assert(rest[i] == ws[pi]);
            assert(rest[j] == ws[pj]);
        }
        let next = match old_cur {
            None => None,
            Some(c) => {
                if pos < c {
                    assert(rest[c - 1] == ws[c as int]);
                    Some(self.windows[c - 1].id)
                } else if pos > c {
                    assert(rest[c as int] == ws[c as int]);
                    Some(self.windows[c].id)
                } else {
                    proof {
                        lemma_first_from(rest, visible_pred(tags@), pos as int);
                        lemma_first_from(rest, visible_pred(tags@), 0);
                    }
                    match self.first_visible_from(tags, pos) {
                        Some(k) => Some(self.windows[k].id),
                        None => match self.first_visible_from(tags, 0) {
                            Some(k) => Some(self.windows[k].id),
                            None => None,
                        },
                    }
                }
            },
        };
        (Some(win), next)
    }

    /// The focused window.
    pub fn get_focused(&self) -> (r: Option<&WinState>)
        requires
            self.wf(),
        ensures
            match self.cur {
                Some(c) => r == Some(&self.windows@[c as int]),
                None => r is None,
            },
    {
        match self.cur {
            Some(c) => Some(&self.windows[c]),
            None => None,
        }
    }
}

} // verus!
