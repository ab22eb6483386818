//! Per-window and per-tag records, and visibility.

use vstd::prelude::*;
use crate::geometry::{is_tag_number, LayoutType, TagId, TagValueError};

verus! {

/// One of a monitor's nine tag slots. Two slots are the same tag when their ids are equal.
#[derive(Debug, Clone, Copy)]
pub struct TagState {
    pub id: TagId,
    pub visible: bool,
    pub layout: LayoutType,
}

impl PartialEq for TagState {
    fn eq(&self, o: &TagState) -> (r: bool) {
        self.id == o.id
    }
}

impl vstd::std_specs::cmp::PartialEqSpecImpl for TagState {
    open spec fn obeys_eq_spec() -> bool {
        true
    }

    open spec fn eq_spec(&self, o: &TagState) -> bool {
        self.id == o.id
    }
}

impl TagState {
    pub fn new(tag: u8, visible: bool, layout: LayoutType) -> (r: Result<TagState, TagValueError>)
        ensures
            is_tag_number(tag as int) ==> r == Ok::<TagState, TagValueError>(
                TagState { id: TagId(tag), visible, layout },
            ),
            !is_tag_number(tag as int) ==> r == Err::<TagState, TagValueError>(
                TagValueError { tag_num: tag },
            ),
    {
        match TagId::new(tag) {
            Ok(id) => Ok(TagState { id, visible, layout }),
            Err(e) => Err(e),
        }
    }
}

/// A managed window: its X id, last known geometry, the tags it is on, and
/// whether it is left out of tiling.
#[derive(Debug)]
pub struct WinState {
    pub id: u32,
    pub x: i16,
    pub y: i16,
    pub width: u16,
    pub height: u16,
    pub tags: Vec<TagId>,
    pub floating: bool,
}

/// Tag `t` is visible among the slots `tags`.
pub open spec fn tag_visible(tags: Seq<TagState>, t: TagId) -> bool {
    exists|i: int| 0 <= i < tags.len() && #[trigger] tags[i].visible && tags[i].id == t
}

/// The window is on at least one visible tag.
pub open spec fn win_visible(w: WinState, tags: Seq<TagState>) -> bool {
    exists|j: int| 0 <= j < w.tags@.len() && tag_visible(tags, #[trigger] w.tags@[j])
}

/// The ids of the visible slots, in slot order.
pub open spec fn visible_ids(tags: Seq<TagState>) -> Seq<TagId> {
    tags.filter(|t: TagState| t.visible).map_values(|t: TagState| t.id)
}

impl WinState {
    /// A floating-off record on the currently visible tags.
    pub fn new(id: u32, x: i16, y: i16, width: u16, height: u16, tags: &[TagState]) -> (r: WinState)
        ensures
            r.id == id && r.x == x && r.y == y && r.width == width && r.height == height,
            !r.floating,
            r.tags@ == visible_ids(tags@),
    {
        WinState { id, x, y, width, height, tags: visible_tag_ids(tags), floating: false }
    }
}

/// The ids of the visible slots, in slot order.
pub fn visible_tag_ids(tags: &[TagState]) -> (r: Vec<TagId>)
    ensures
        r@ == visible_ids(tags@),
{
    let mut r: Vec<TagId> = Vec::new();
    let mut i: usize = 0;
    while i < tags.len()
        invariant
            i <= tags@.len(),
            r@ == visible_ids(tags@.subrange(0, i as int)),
        decreases tags.len() - i,
    {
        let ghost pre = tags@.subrange(0, i as int);
        assert(tags@.subrange(0, i as int + 1).drop_last() =~= pre);
        reveal(Seq::filter);
        if tags[i].visible {
            r.push(tags[i].id);
        }
        i = i + 1;
    }
    assert(tags@.subrange(0, tags@.len() as int) =~= tags@);
    r
}

/// Tag `t` is visible among `tags`.
pub fn is_tag_visible(tags: &[TagState], t: TagId) -> (r: bool)
    ensures
        r == tag_visible(tags@, t),
{
    let mut i: usize = 0;
    while i < tags.len()
        invariant
            i <= tags@.len(),
            forall|k: int| 0 <= k < i ==> !(#[trigger] tags@[k].visible && tags@[k].id == t),
        decreases tags.len() - i,
    {
        if tags[i].visible && tags[i].id == t {
            return true;
        }
        i = i + 1;
    }
    false
}

/// The window is on a tag that is visible among `tags`.
pub fn is_visible(win: &WinState, tags: &[TagState]) -> (r: bool)
    ensures
        r == win_visible(*win, tags@),
{
    let mut j: usize = 0;
    while j < win.tags.len()
        invariant
            j <= win.tags@.len(),
            forall|k: int| 0 <= k < j ==> !tag_visible(tags@, #[trigger] win.tags@[k]),
        decreases win.tags.len() - j,
    {
        if is_tag_visible(tags, win.tags[j]) {
            return true;
        }
        j = j + 1;
    }
    false
}

} // verus!
