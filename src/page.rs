//! The drawing program of the print-page backend, which has absolute lines
//! only, and its agreement with the relative path of the vector backend.

use vstd::prelude::*;
use crate::geometry::{Placement, Point, SCALE, abs, lemma_place_bound};
use crate::tile::{
    CORNER_LIMIT,
    PathOp,
    delta_of,
    hat_corners_spec,
    hat_deltas,
    hat_walk,
    is_hat_path,
    lemma_corners_small,
};

verus! {

/// One drawing-state command of a page canvas.
#[derive(Clone, Copy, Debug, PartialEq, Eq, Structural)]
pub enum PageOp {
    SaveState,
    SetLineWidth(i64),
    MoveTo(Point),
    LineTo(Point),
    ClosePath,
    Fill,
    Stroke,
    RestoreState,
}

/// The pen of a path: its current point and the start of its current subpath.
pub type Pen = ((int, int), (int, int));

/// The pen after one instruction.
pub open spec fn pen_step(pen: Pen, op: PathOp) -> Pen {
    match op {
        PathOp::MoveTo(q) => (q@, q@),
        PathOp::LineBy(d) => ((pen.0.0 + d@.0, pen.0.1 + d@.1), pen.1),
        PathOp::Close => (pen.1, pen.1),
    }
}

/// The pen after all of `ops`, starting at the origin.
pub open spec fn pen_after(ops: Seq<PathOp>) -> Pen
    decreases ops.len(),
{
    if ops.len() == 0 {
        ((0, 0), (0, 0))
    } else {
        pen_step(pen_after(ops.drop_last()), ops.last())
    }
}

pub open spec fn fits(v: (int, int)) -> bool {
    i64::MIN <= v.0 <= i64::MAX && i64::MIN <= v.1 <= i64::MAX
}

/// Every pen position along `ops` has coordinates that fit in an `i64`.
pub open spec fn pen_fits(ops: Seq<PathOp>) -> bool {
    forall|k: int|
        0 <= k <= ops.len() ==> fits(#[trigger] pen_after(ops.take(k)).0) && fits(
            pen_after(ops.take(k)).1,
        )
}

/// The point that a page command draws to, if any.
pub open spec fn page_point(op: PageOp) -> Option<(int, int)> {
    match op {
        PageOp::MoveTo(q) => Some(q@),
        PageOp::LineTo(q) => Some(q@),
        _ => None,
    }
}

/// The page command that stands for the `k`-th instruction of `ops`.
pub open spec fn page_op_matches(op: PageOp, ops: Seq<PathOp>, k: int) -> bool {
    match ops[k] {
        PathOp::MoveTo(q) => op == PageOp::MoveTo(q),
        PathOp::LineBy(_) => op is LineTo && page_point(op) == Some(pen_after(ops.take(k + 1)).0),
        PathOp::Close => op == PageOp::ClosePath,
    }
}

/// `page` draws `ops` on a page: it saves the drawing state, sets a line
/// width of one unit, draws each instruction with absolute points, fills,
/// strokes, and restores the drawing state.
pub open spec fn is_page_program(page: Seq<PageOp>, ops: Seq<PathOp>) -> bool {
    &&& page.len() == ops.len() + 5
    &&& page[0] == PageOp::SaveState
    &&& page[1] == PageOp::SetLineWidth(SCALE)
    &&& forall|k: int| 0 <= k < ops.len() ==> page_op_matches(#[trigger] page[k + 2], ops, k)
    &&& page[ops.len() + 2int] == PageOp::Fill
    &&& page[ops.len() + 3int] == PageOp::Stroke
    &&& page[ops.len() + 4int] == PageOp::RestoreState
}

/// The page commands that draw `ops`.
pub fn page_program(ops: &Vec<PathOp>) -> (page: Vec<PageOp>)
    requires
        pen_fits(ops@),
        ops.len() + 5 <= usize::MAX,
    ensures
        is_page_program(page@, ops@),
{
    let mut page: Vec<PageOp> = Vec::new();
    page.push(PageOp::SaveState);
    page.push(PageOp::SetLineWidth(SCALE));
    let mut cur = Point { x: 0, y: 0 };
    let mut start = Point { x: 0, y: 0 };
    let mut i: usize = 0;
    assert(ops@.take(0) =~= Seq::<PathOp>::empty());
    while i < ops.len()
        invariant
            pen_fits(ops@),
            0 <= i <= ops.len(),
            page.len() == i + 2,
            page[0] == PageOp::SaveState,
            page[1] == PageOp::SetLineWidth(SCALE),
            (cur@, start@) == pen_after(ops@.take(i as int)),
            forall|k: int| 0 <= k < i ==> page_op_matches(#[trigger] page[k + 2], ops@, k),
        decreases ops.len() - i,
    {
        let ghost next = ops@.take(i + 1);
        assert(next.drop_last() =~= ops@.take(i as int));
        assert(next.last() == ops@[i as int]);
        assert(fits(pen_after(next).0) && fits(pen_after(next).1));
        match ops[i] {
            PathOp::MoveTo(q) => {
                cur = q;
                start = q;
                page.push(PageOp::MoveTo(q));
            },
            PathOp::LineBy(d) => {
                cur = Point { x: cur.x + d.x, y: cur.y + d.y };
                page.push(PageOp::LineTo(cur));
            },
            PathOp::Close => {
                cur = start;
                page.push(PageOp::ClosePath);
            },
        }
        i = i + 1;
    }
    page.push(PageOp::Fill);
    page.push(PageOp::Stroke);
    page.push(PageOp::RestoreState);
    page
}

/// The pen after the first `k` instructions of the hat path placed by `p`.
pub open spec fn hat_pen(p: Placement, k: int) -> Pen {
    let a = p.anchor@;
    if k == 0 {
        ((0, 0), (0, 0))
    } else if k <= 14 {
        let w = hat_walk(p)[k - 1];
        ((a.0 + w.0, a.1 + w.1), a)
    } else {
        (a, a)
    }
}

proof fn lemma_hat_pen(ops: Seq<PathOp>, p: Placement, k: int)
    requires
        is_hat_path(ops, p),
        0 <= k <= 15,
    ensures
        pen_after(ops.take(k)) == hat_pen(p, k),
    decreases k,
{
    if k > 0 {
        lemma_hat_pen(ops, p, k - 1);
        assert(ops.take(k).drop_last() =~= ops.take(k - 1));
        assert(ops.take(k).last() == ops[k - 1]);
        assert(hat_walk(p).len() == 14);
        assert(hat_walk(p)[0] == (0int, 0int));
        if 2 <= k <= 14 {
            assert(ops[(k - 2) + 1] is LineBy);
            assert(delta_of(ops[k - 1]) == hat_deltas(p)[k - 2]);
        }
    }
}

proof fn lemma_hat_walk_small(p: Placement)
    requires
        p.wf(),
    ensures
        hat_walk(p).len() == 14,
        forall|j: int|
            0 <= j < 14 ==> abs(#[trigger] hat_walk(p)[j].0) <= CORNER_LIMIT && abs(
                hat_walk(p)[j].1,
            ) <= CORNER_LIMIT,
{
    lemma_corners_small();
    assert forall|j: int| 0 <= j < 14 implies abs(#[trigger] hat_walk(p)[j].0) <= CORNER_LIMIT
        && abs(hat_walk(p)[j].1) <= CORNER_LIMIT by {
        if 1 <= j <= 12 {
            lemma_place_bound(hat_corners_spec()[j - 1], p);
        }
    }
}

/// Every pen position along a placed hat's path fits in an `i64`.
pub proof fn lemma_hat_pen_fits(ops: Seq<PathOp>, p: Placement)
    requires
        p.wf(),
        is_hat_path(ops, p),
    ensures
        pen_fits(ops),
{
    lemma_hat_walk_small(p);
    assert forall|k: int| 0 <= k <= ops.len() implies fits(#[trigger] pen_after(ops.take(k)).0)
        && fits(pen_after(ops.take(k)).1) by {
        lemma_hat_pen(ops, p, k);
    }
}

/// The `k`-th vertex of the placed hat on the canvas: the anchor plus the
/// `k`-th point of its walk.
pub open spec fn hat_vertex(p: Placement, k: int) -> (int, int) {
    (p.anchor@.0 + hat_walk(p)[k].0, p.anchor@.1 + hat_walk(p)[k].1)
}

/// The vector path of a placed hat and the page program drawn from it visit
/// the same vertices in the same order: the vertices of the placed hat, from
/// the anchor round to the anchor again.
pub proof fn backends_share_vertices(ops: Seq<PathOp>, page: Seq<PageOp>, p: Placement)
    requires
        is_hat_path(ops, p),
        is_page_program(page, ops),
    ensures
        forall|k: int| 0 <= k < 14 ==> #[trigger] pen_after(ops.take(k + 1)).0 == hat_vertex(p, k),
        forall|k: int| 0 <= k < 14 ==> page_point(#[trigger] page[k + 2]) == Some(hat_vertex(p, k)),
{
    assert forall|k: int| 0 <= k < 14 implies #[trigger] pen_after(ops.take(k + 1)).0
        == hat_vertex(p, k) && page_point(page[k + 2]) == Some(hat_vertex(p, k)) by {
        lemma_hat_pen(ops, p, k + 1);
        assert(page_op_matches(page[k + 2], ops, k));
        assert(hat_walk(p)[0] == (0int, 0int));
        if k >= 1 {
            assert(ops[(k - 1) + 1] is LineBy);
        }
    }
    assert forall|k: int| 0 <= k < 14 implies page_point(#[trigger] page[k + 2]) == Some(
        hat_vertex(p, k),
    ) by {
        assert(pen_after(ops.take(k + 1)).0 == hat_vertex(p, k));
    }
}

/// How many saved drawing states are still open after `page` has run.
pub open spec fn open_states(page: Seq<PageOp>) -> nat
    decreases page.len(),
{
    if page.len() == 0 {
        0
    } else {
        let n = open_states(page.drop_last());
        match page.last() {
            PageOp::SaveState => n + 1,
            PageOp::RestoreState => if n > 0 {
                (n - 1) as nat
            } else {
                0
            },
            _ => n,
        }
    }
}

/// How many restores bring the drawing state back to where it was before
/// `page` started, once its first `done` commands have run.
pub fn restores_needed(page: &Vec<PageOp>, done: usize) -> (n: usize)
    requires
        done <= page.len(),
    ensures
        n == open_states(page@.take(done as int)),
{
    let mut n: usize = 0;
    let mut i: usize = 0;
    assert(page@.take(0) =~= Seq::<PageOp>::empty());
    while i < done
        invariant
            done <= page.len(),
            0 <= i <= done,
            n <= i,
            n == open_states(page@.take(i as int)),
        decreases done - i,
    {
        assert(page@.take(i + 1).drop_last() =~= page@.take(i as int));
        assert(page@.take(i + 1).last() == page@[i as int]);
        match page[i] {
            PageOp::SaveState => {
                n = n + 1;
            },
            PageOp::RestoreState => {
                if n > 0 {
                    n = n - 1;
                }
            },
            _ => {},
        }
        i = i + 1;
    }
    n
}

/// While a page program runs, exactly one saved drawing state is open, and
/// when it ends none is.
pub proof fn page_program_balanced(page: Seq<PageOp>, ops: Seq<PathOp>)
    requires
        is_page_program(page, ops),
    ensures
        forall|k: int| 1 <= k < page.len() ==> #[trigger] open_states(page.take(k)) == 1,
        open_states(page) == 0,
{
    assert forall|k: int| 1 <= k < page.len() implies #[trigger] open_states(page.take(k)) == 1 by {
        lemma_page_open(page, ops, k);
    }
    let n = page.len() as int;
    lemma_page_open(page, ops, n - 1);
    assert(page.take(n).drop_last() =~= page.take(n - 1));
    assert(page.take(n) =~= page);
}

proof fn lemma_page_open(page: Seq<PageOp>, ops: Seq<PathOp>, k: int)
    requires
        is_page_program(page, ops),
        1 <= k < page.len(),
    ensures
        open_states(page.take(k)) == 1,
    decreases k,
{
    assert(page.take(k).drop_last() =~= page.take(k - 1));
    assert(page.take(k).last() == page[k - 1]);
    if k == 1 {
        assert(page.take(0) =~= Seq::<PageOp>::empty());
        assert(open_states(page.take(0)) == 0);
    } else {
        lemma_page_open(page, ops, k - 1);
        let j = k - 1;
        if 2 <= j < ops.len() + 2 {
            assert(page_op_matches(page[(j - 2) + 2], ops, j - 2));
            match ops[j - 2] {
                PathOp::MoveTo(_) => {},
                PathOp::LineBy(_) => {},
                PathOp::Close => {},
            }
        }
        assert(!(page[j] is SaveState) && !(page[j] is RestoreState));
        assert(open_states(page.take(k)) == open_states(page.take(k - 1)));
    }
}

} // verus!
