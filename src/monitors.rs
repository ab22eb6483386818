//! The monitors, in construction order, and which one has focus.

use vstd::prelude::*;
use crate::geometry::Direction;
use crate::history::{has_id};
use crate::monitor::Monitor;

verus! {

/// No window id is on two monitors.
pub open spec fn disjoint(ms: Seq<Monitor>) -> bool {
    forall|a: int, b: int, id: u32|
        0 <= a < ms.len() && 0 <= b < ms.len() && a != b && #[trigger] has_id(ms[a].windows.windows@, id)
            ==> !#[trigger] has_id(ms[b].windows.windows@, id)
}

/// Some monitor holds the window.
pub open spec fn managed(ms: Seq<Monitor>, id: u32) -> bool {
    exists|m: int| 0 <= m < ms.len() && #[trigger] has_id(ms[m].windows.windows@, id)
}

pub open spec fn monitors_wf(ms: Seq<Monitor>) -> bool {
    &&& ms.len() >= 1
    &&& forall|m: int| 0 <= m < ms.len() ==> (#[trigger] ms[m]).wf()
    &&& disjoint(ms)
}

/// Monitor `i` was replaced by one whose windows it already held.
pub proof fn lemma_replace_shrinking(ms: Seq<Monitor>, i: int, m2: Monitor)
    requires
        monitors_wf(ms),
        0 <= i < ms.len(),
        m2.wf(),
        forall|id: u32| #[trigger] has_id(m2.windows.windows@, id) ==> has_id(ms[i].windows.windows@, id),
    ensures
        monitors_wf(ms.update(i, m2)),
        forall|id: u32| managed(ms.update(i, m2), id) ==> #[trigger] managed(ms, id),
{
    let ms2 = ms.update(i, m2);
    assert forall|id: u32| managed(ms2, id) implies #[trigger] managed(ms, id) by {
        let m = choose|m: int| 0 <= m < ms2.len() && #[trigger] has_id(ms2[m].windows.windows@, id);
        assert(has_id(ms[m].windows.windows@, id));
    }
}

/// Monitor `i` was replaced by one that holds its windows and one more that no
/// monitor held.
pub proof fn lemma_replace_adding(ms: Seq<Monitor>, i: int, m2: Monitor, new_id: u32)
    requires
        monitors_wf(ms),
        0 <= i < ms.len(),
        m2.wf(),
        !managed(ms, new_id),
        forall|id: u32| #[trigger] has_id(m2.windows.windows@, id) ==> has_id(ms[i].windows.windows@, id) || id == new_id,
    ensures
        monitors_wf(ms.update(i, m2)),
{
    let ms2 = ms.update(i, m2);
    assert forall|a: int, b: int, id: u32|
        0 <= a < ms2.len() && 0 <= b < ms2.len() && a != b && #[trigger] has_id(ms2[a].windows.windows@, id)
            implies !#[trigger] has_id(ms2[b].windows.windows@, id) by {
        if id == new_id {
            if a != i {
                assert(managed(ms, new_id));
            }
            if b != i {
                if has_id(ms2[b].windows.windows@, id) {
                    assert(managed(ms, new_id));
                }
            }
        }
    }
}

#[derive(Debug)]
pub struct MonitorsHistory {
    pub monitors: Vec<Monitor>,
    /// The focused monitor.
    pub cur: usize,
}

impl MonitorsHistory {
    pub open spec fn wf(&self) -> bool {
        &&& monitors_wf(self.monitors@)
        &&& self.cur < self.monitors@.len()
    }

    /// The history of the given monitors, the first focused.
    pub fn new(monitors: Vec<Monitor>) -> (r: MonitorsHistory)
        requires
            monitors_wf(monitors@),
        ensures
            r.wf(),
            r.monitors@ == monitors@,
            r.cur == 0,
    {
        MonitorsHistory { monitors, cur: 0 }
    }

    pub fn len(&self) -> (r: usize)
        ensures
            r == self.monitors@.len(),
    {
        self.monitors.len()
    }

    pub fn cur(&self) -> (r: &Monitor)
        requires
            self.wf(),
        ensures
            *r == self.monitors@[self.cur as int],
    {
        &self.monitors[self.cur]
    }

    pub open spec fn spec_focus(self, dir: Direction) -> usize {
        match dir {
            Direction::Up => if self.cur == 0 {
                (self.monitors@.len() - 1) as usize
            } else {
                (self.cur - 1) as usize
            },
            Direction::Down => if self.cur == self.monitors@.len() - 1 {
                0
            } else {
                (self.cur + 1) as usize
            },
        }
    }

    /// Focuses the monitor before (`Up`) or after (`Down`) the current one, wrapping.
    pub fn focus(&mut self, dir: Direction)
        requires
            old(self).wf(),
        ensures
            final(self).wf(),
            final(self).monitors == old(self).monitors,
            final(self).cur == old(self).spec_focus(dir),
    {
        self.cur = match dir {
            Direction::Up => if self.cur == 0 {
                self.monitors.len() - 1
            } else {
                self.cur - 1
            },
            Direction::Down => if self.cur == self.monitors.len() - 1 {
                0
            } else {
                self.cur + 1
            },
        };
    }

    /// The first monitor containing the point.
    pub fn find_point(&self, x: i16, y: i16) -> (r: Option<usize>)
        ensures
            match r {
                Some(i) => i < self.monitors@.len() && self.monitors@[i as int].rect.spec_contains(x as int, y as int)
                    && forall|j: int| 0 <= j < i ==> !(#[trigger] self.monitors@[j]).rect.spec_contains(x as int, y as int),
                None => forall|j: int| 0 <= j < self.monitors@.len() ==> !(#[trigger] self.monitors@[j]).rect.spec_contains(x as int, y as int),
            },
    {
        let mut i: usize = 0;
        while i < self.monitors.len()
            invariant
                i <= self.monitors@.len(),
                forall|j: int| 0 <= j < i ==> !(#[trigger] self.monitors@[j]).rect.spec_contains(x as int, y as int),
            decreases self.monitors.len() - i,
        {
            if self.monitors[i].contains_point(x, y) {
                return Some(i);
            }
            i = i + 1;
        }
        None
    }

    /// The monitor holding the window.
    pub fn find_window(&self, id: u32) -> (r: Option<usize>)
        requires
            self.wf(),
        ensures
            match r {
                Some(i) => i < self.monitors@.len() && has_id(self.monitors@[i as int].windows.windows@, id),
                None => !managed(self.monitors@, id),
            },
    {
        let mut i: usize = 0;
        while i < self.monitors.len()
            invariant
                i <= self.monitors@.len(),
                forall|j: int| 0 <= j < i ==> !has_id(#[trigger] self.monitors@[j].windows.windows@, id),
            decreases self.monitors.len() - i,
        {
            if self.monitors[i].contains_window(id) {
                return Some(i);
            }
            i = i + 1;
        }
        None
    }
}

} // verus!
