//! The layout engine: from the tilable windows of a monitor, its rectangle, the
//! border width and the gap, to the geometry each window is given.

use vstd::prelude::*;
use crate::geometry::{LayoutType, Rect};

verus! {

/// The geometry commanded for one window.
#[derive(Debug, Clone, Copy, PartialEq, Eq, Structural)]
pub struct Placement {
    pub window: u32,
    pub x: i64,
    pub y: i64,
    pub width: u32,
    pub height: u32,
    pub border_width: u32,
}

/// `v`, but at least 1: a cell too small for its border and gap keeps one pixel.
pub open spec fn at_least_one(v: int) -> int {
    if v >= 1 {
        v
    } else {
        1
    }
}

/// The whole rectangle with no border: the layout of a single window.
pub open spec fn full_cell(w: u32, rect: Rect) -> Placement {
    Placement { window: w, x: rect.x as i64, y: rect.y as i64, width: rect.width as u32, height: rect.height as u32, border_width: 0 }
}

pub open spec fn master_width(rect: Rect) -> int {
    rect.width as int * 60 / 100
}

/// Monad-tall with `n >= 2` windows: the first takes the left 60%, the others
/// share the right 40% in equal rows.
pub open spec fn monad_tall_cell(rect: Rect, n: int, i: int, w: u32, bw: int, gap: int) -> Placement {
    let mw = master_width(rect);
    if i == 0 {
        Placement {
            window: w,
            x: (rect.x + gap) as i64,
            y: (rect.y + gap) as i64,
            width: at_least_one(mw - 2 * bw - gap) as u32,
            height: at_least_one(rect.height - 2 * bw - 2 * gap) as u32,
            border_width: bw as u32,
        }
    } else {
        let sh = rect.height as int / (n - 1);
        Placement {
            window: w,
            x: (rect.x + mw + 2 * gap) as i64,
            y: (rect.y + sh * (i - 1) + gap) as i64,
            width: at_least_one(rect.width - mw - 2 * bw - 3 * gap) as u32,
            height: at_least_one(sh - 2 * bw - 2 * gap) as u32,
            border_width: bw as u32,
        }
    }
}

/// Grid with `n >= 2` windows: two columns and `ceil(n / 2)` rows, filled row by row.
pub open spec fn grid_cell(rect: Rect, n: int, i: int, w: u32, bw: int, gap: int) -> Placement {
    let rows = (n + 1) / 2;
    let wh = rect.height as int / rows;
    let ww = rect.width as int / 2;
    Placement {
        window: w,
        x: (rect.x + (if i % 2 == 0 { gap } else { ww + gap })) as i64,
        y: (rect.y + wh * (i / 2) + gap) as i64,
        width: at_least_one(ww - 2 * bw - 2 * gap) as u32,
        height: at_least_one(wh - 2 * bw - 2 * gap) as u32,
        border_width: bw as u32,
    }
}

/// The placement of the `i`-th of the `n` tilable windows `ws`.
pub open spec fn layout_cell(kind: LayoutType, rect: Rect, ws: Seq<u32>, i: int, bw: int, gap: int) -> Placement {
    if ws.len() == 1 {
        full_cell(ws[i], rect)
    } else {
        match kind {
            LayoutType::Grid => grid_cell(rect, ws.len() as int, i, ws[i], bw, gap),
            _ => monad_tall_cell(rect, ws.len() as int, i, ws[i], bw, gap),
        }
    }
}

/// What the layout commands: one placement per tilable window, in order; none for
/// the floating layout.
pub open spec fn layout_spec(kind: LayoutType, rect: Rect, ws: Seq<u32>, bw: int, gap: int) -> Seq<Placement> {
    if kind == LayoutType::Floating {
        Seq::empty()
    } else {
        Seq::new(ws.len(), |i: int| layout_cell(kind, rect, ws, i, bw, gap))
    }
}

fn at_least_one_exec(v: i64) -> (r: u32)
    requires
        v <= u32::MAX,
    ensures
        r == at_least_one(v as int),
{
    if v >= 1 {
        v as u32
    } else {
        1
    }
}

fn monad_tall(ws: &[u32], rect: Rect, bw: u32, gap: u32) -> (r: Vec<Placement>)
    requires
        ws@.len() >= 2,
    ensures
        r@ == Seq::new(ws@.len(), |i: int| layout_cell(LayoutType::MonadTall, rect, ws@, i, bw as int, gap as int)),
{
    let n = ws.len();
    let mw: i64 = rect.width as i64 * 60 / 100;
    let bw64 = bw as i64;
    let gap64 = gap as i64;
    let mut r: Vec<Placement> = Vec::new();
    r.push(Placement {
        window: ws[0],
        x: rect.x as i64 + gap64,
        y: rect.y as i64 + gap64,
        width: at_least_one_exec(mw - 2 * bw64 - gap64),
        height: at_least_one_exec(rect.height as i64 - 2 * bw64 - 2 * gap64),
        border_width: bw,
    });
    let sh_u: u64 = rect.height as u64 / (n as u64 - 1);
    let sh: i64 = sh_u as i64;
    assert(0 <= sh <= rect.height) by (nonlinear_arith)
        requires
            sh == rect.height as int / (n as int - 1),
            n >= 2,
    ;
    let mut i: usize = 1;
    while i < n
        invariant
            1 <= i <= n,
            n == ws@.len(),
            n >= 2,
            mw == master_width(rect),
            sh == rect.height as int / (n - 1),
            sh_u == sh,
            0 <= sh <= rect.height,
            bw64 == bw,
            gap64 == gap,
            r@.len() == i,
            forall|k: int| 0 <= k < i ==> r@[k] == layout_cell(LayoutType::MonadTall, rect, ws@, k, bw as int, gap as int),
        decreases n - i,
    {
        let k: u64 = (i - 1) as u64;
        assert(sh * k <= rect.height) by (nonlinear_arith)
            requires
                sh == rect.height as int / (n - 1),
                0 <= sh,
                0 <= k <= n - 1,
                n >= 2,
        ;
        let off: i64 = (sh_u * k) as i64;
        assert(n <= usize::MAX);
        r.push(Placement {
            window: ws[i],
            x: rect.x as i64 + mw + 2 * gap64,
            y: rect.y as i64 + off + gap64,
            width: at_least_one_exec(rect.width as i64 - mw - 2 * bw64 - 3 * gap64),
            height: at_least_one_exec(sh - 2 * bw64 - 2 * gap64),
            border_width: bw,
        });
        i = i + 1;
    }
    assert(r@ =~= Seq::new(ws@.len(), |i: int| layout_cell(LayoutType::MonadTall, rect, ws@, i, bw as int, gap as int)));
    r
}

fn grid(ws: &[u32], rect: Rect, bw: u32, gap: u32) -> (r: Vec<Placement>)
    requires
        ws@.len() >= 2,
    ensures
        r@ == Seq::new(ws@.len(), |i: int| layout_cell(LayoutType::Grid, rect, ws@, i, bw as int, gap as int)),
{
    let n = ws.len();
    let n64 = n as u64;
    let rows: u64 = n64 / 2 + n64 % 2;
    assert(rows == (n + 1) / 2 && rows >= 1) by (nonlinear_arith)
        requires
            rows == n64 / 2 + n64 % 2,
            n64 == n,
            n >= 2,
    ;
    let wh_u: u64 = rect.height as u64 / rows;
    let wh: i64 = wh_u as i64;
    let ww: i64 = rect.width as i64 / 2;
    let bw64 = bw as i64;
    let gap64 = gap as i64;
    let mut r: Vec<Placement> = Vec::new();
    let mut i: usize = 0;
    while i < n
        invariant
            i <= n,
            n == ws@.len(),
            n >= 2,
            rows == (n + 1) / 2,
            rows >= 1,
            wh == rect.height as int / rows as int,
            wh_u == wh,
            ww == rect.width as int / 2,
            bw64 == bw,
            gap64 == gap,
            r@.len() == i,
            forall|k: int| 0 <= k < i ==> r@[k] == layout_cell(LayoutType::Grid, rect, ws@, k, bw as int, gap as int),
        decreases n - i,
    {
        let row: u64 = (i / 2) as u64;
        assert(wh * row <= rect.height) by (nonlinear_arith)
            requires
                wh == rect.height as int / rows as int,
                rows >= 1,
                0 <= wh,
                row == i / 2,
                i < n,
                rows == (n + 1) / 2,
        ;
        let off: i64 = (wh_u * row) as i64;
        let col: i64 = if i % 2 == 0 { gap64 } else { ww + gap64 };
        r.push(Placement {
            window: ws[i],
            x: rect.x as i64 + col,
            y: rect.y as i64 + off + gap64,
            width: at_least_one_exec(ww - 2 * bw64 - 2 * gap64),
            height: at_least_one_exec(wh - 2 * bw64 - 2 * gap64),
            border_width: bw,
        });
        i = i + 1;
    }
    assert(r@ =~= Seq::new(ws@.len(), |i: int| layout_cell(LayoutType::Grid, rect, ws@, i, bw as int, gap as int)));
    r
}

/// The placements that the layout `kind` gives the tilable windows `ws` (in
/// focus-history order) on a monitor of rectangle `rect`. A single window fills
/// the rectangle with no border; no cell is ever narrower or lower than one pixel.
pub fn arrange(kind: LayoutType, ws: &[u32], rect: Rect, border_width: u32, gap: u32) -> (r: Vec<Placement>)
    ensures
        r@ == layout_spec(kind, rect, ws@, border_width as int, gap as int),
        rect.width > 0 && rect.height > 0 ==> forall|i: int| 0 <= i < r@.len() ==> #[trigger] r@[i].width >= 1 && r@[i].height >= 1,
{
    if kind == LayoutType::Floating || ws.len() == 0 {
        let r: Vec<Placement> = Vec::new();
        assert(r@ =~= layout_spec(kind, rect, ws@, border_width as int, gap as int));
        return r;
    }
    if ws.len() == 1 {
        let mut r: Vec<Placement> = Vec::new();
        r.push(Placement {
            window: ws[0],
            x: rect.x as i64,
            y: rect.y as i64,
            width: rect.width as u32,
            height: rect.height as u32,
            border_width: 0,
        });
        assert(r@ =~= layout_spec(kind, rect, ws@, border_width as int, gap as int));
        return r;
    }
    match kind {
        LayoutType::Grid => grid(ws, rect, border_width, gap),
        _ => monad_tall(ws, rect, border_width, gap),
    }
}

} // verus!
