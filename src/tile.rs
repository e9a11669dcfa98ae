//! The hat polygon and the path that outlines it.

use vstd::prelude::*;
use crate::geometry::{Placement, Point, abs, identity_placement_keeps_offsets, place_spec};

verus! {

/// Corners of the hat, as offsets from its start point, in units of
/// `1 / SCALE` (the start point itself is the thirteenth corner).
pub open spec fn hat_corners_spec() -> Seq<(int, int)> {
    seq![
        (0, -173_205_081),
        (-100_000_000, -173_205_081),
        (-150_000_000, -259_807_000),
        (-300_000_000, -173_205_081),
        (-300_000_000, 0),
        (-400_000_000, 0),
        (-450_000_000, 86_602_540),
        (-300_000_000, 173_205_080),
        (-150_000_000, 86_602_540),
        (-100_000_000, 173_205_080),
        (100_000_000, 173_205_080),
        (150_000_000, 86_602_540),
    ]
}

/// Bound on `|x| + |y|` of every corner.
pub const CORNER_LIMIT: i64 = 1_000_000_000;

pub proof fn lemma_corners_small()
    ensures
        hat_corners_spec().len() == 12,
        forall|i: int|
            0 <= i < 12 ==> abs(#[trigger] hat_corners_spec()[i].0) + abs(hat_corners_spec()[i].1)
                <= CORNER_LIMIT,
{
}

/// The corners of the hat.
pub fn hat_corners() -> (r: Vec<Point>)
    ensures
        r.len() == 12,
        forall|i: int| 0 <= i < 12 ==> (#[trigger] r[i])@ == hat_corners_spec()[i],
{
    let r = vec![
        Point { x: 0, y: -173_205_081 },
        Point { x: -100_000_000, y: -173_205_081 },
        Point { x: -150_000_000, y: -259_807_000 },
        Point { x: -300_000_000, y: -173_205_081 },
        Point { x: -300_000_000, y: 0 },
        Point { x: -400_000_000, y: 0 },
        Point { x: -450_000_000, y: 86_602_540 },
        Point { x: -300_000_000, y: 173_205_080 },
        Point { x: -150_000_000, y: 86_602_540 },
        Point { x: -100_000_000, y: 173_205_080 },
        Point { x: 100_000_000, y: 173_205_080 },
        Point { x: 150_000_000, y: 86_602_540 },
    ];
    assert(forall|i: int| 0 <= i < 12 ==> (#[trigger] r[i])@ == hat_corners_spec()[i]);
    r
}

/// The hat's outline as canvas-space offsets from the anchor: the start
/// point, the twelve placed corners, and the start point again.
pub open spec fn hat_walk(p: Placement) -> Seq<(int, int)> {
    seq![(0int, 0int)] + hat_corners_spec().map_values(|v: (int, int)| place_spec(v, p)) + seq![
        (0int, 0int),
    ]
}

/// With the angle zero and no mirroring, the placed corners are the
/// canonical corners unchanged.
pub proof fn identity_placement_keeps_hat(p: Placement)
    requires
        p.rotation.is_identity(),
        !p.mirror,
    ensures
        hat_corners_spec().map_values(|v: (int, int)| place_spec(v, p)) == hat_corners_spec(),
        hat_walk(p) == seq![(0int, 0int)] + hat_corners_spec() + seq![(0int, 0int)],
{
    let c = hat_corners_spec();
    assert forall|i: int| 0 <= i < c.len() implies place_spec(c[i], p) == c[i] by {
        identity_placement_keeps_offsets(c[i], p);
    }
    assert(c.map_values(|v: (int, int)| place_spec(v, p)) =~= c);
}

/// The displacements between consecutive points of `w`.
pub open spec fn differences(w: Seq<(int, int)>) -> Seq<(int, int)> {
    Seq::new(
        (w.len() - 1) as nat,
        |k: int| (w[k + 1].0 - w[k].0, w[k + 1].1 - w[k].1),
    )
}

/// The thirteen edges of the placed hat, in drawing order.
pub open spec fn hat_deltas(p: Placement) -> Seq<(int, int)> {
    differences(hat_walk(p))
}

/// The sum of a sequence of displacements.
pub open spec fn total(d: Seq<(int, int)>) -> (int, int)
    decreases d.len(),
{
    if d.len() == 0 {
        (0, 0)
    } else {
        let t = total(d.drop_last());
        (t.0 + d.last().0, t.1 + d.last().1)
    }
}

/// One path-drawing instruction: move to an absolute point, draw a line by a
/// displacement from the current point, or close the current subpath.
#[derive(Clone, Copy, Debug, PartialEq, Eq, Structural)]
pub enum PathOp {
    MoveTo(Point),
    LineBy(Point),
    Close,
}

/// The displacement of a relative line, and zero for any other instruction.
pub open spec fn delta_of(op: PathOp) -> (int, int) {
    match op {
        PathOp::LineBy(d) => d@,
        _ => (0, 0),
    }
}

/// `ops` outlines the hat placed by `p`: a move to the anchor, one relative
/// line per edge of `hat_deltas(p)`, and a close.
pub open spec fn is_hat_path(ops: Seq<PathOp>, p: Placement) -> bool {
    &&& ops.len() == 15
    &&& ops[0] == PathOp::MoveTo(p.anchor)
    &&& forall|k: int|
        0 <= k < 13 ==> (#[trigger] ops[k + 1]) is LineBy && delta_of(ops[k + 1]) == hat_deltas(p)[k]
    &&& ops[14] == PathOp::Close
}

/// Emits the path that outlines the hat placed by `p`.
pub fn hat_path(p: &Placement) -> (ops: Vec<PathOp>)
    requires
        p.wf(),
    ensures
        is_hat_path(ops@, *p),
{
    let corners = hat_corners();
    proof {
        lemma_corners_small();
    }
    let ghost walk = hat_walk(*p);
    assert(walk.len() == 14);
    let mut ops: Vec<PathOp> = Vec::new();
    ops.push(PathOp::MoveTo(p.anchor));
    let mut prev = Point { x: 0, y: 0 };
    let mut i: usize = 0;
    while i < corners.len()
        invariant
            p.wf(),
            walk == hat_walk(*p),
            corners.len() == 12,
            forall|j: int| 0 <= j < 12 ==> (#[trigger] corners[j])@ == hat_corners_spec()[j],
            forall|j: int|
                0 <= j < 12 ==> abs(#[trigger] hat_corners_spec()[j].0) + abs(
                    hat_corners_spec()[j].1,
                ) <= CORNER_LIMIT,
            0 <= i <= 12,
            ops.len() == i + 1,
            ops[0] == PathOp::MoveTo(p.anchor),
            prev@ == walk[i as int],
            abs(prev.x as int) <= CORNER_LIMIT,
            abs(prev.y as int) <= CORNER_LIMIT,
            forall|k: int|
                0 <= k < i ==> (#[trigger] ops[k + 1]) is LineBy && delta_of(ops[k + 1])
                    == differences(walk)[k],
        decreases 12 - i,
    {
        let c = corners[i];
        assert(abs(c.x as int) + abs(c.y as int) <= CORNER_LIMIT);
        let t = p.apply(c);
        assert(t@ == walk[i + 1]);
        ops.push(PathOp::LineBy(Point { x: t.x - prev.x, y: t.y - prev.y }));
        prev = t;
        i = i + 1;
    }
    ops.push(PathOp::LineBy(Point { x: -prev.x, y: -prev.y }));
    ops.push(PathOp::Close);
    ops
}

/// `total(differences(w))` is the displacement from the first point of `w`
/// to its last.
pub proof fn lemma_differences_telescope(w: Seq<(int, int)>)
    requires
        w.len() >= 1,
    ensures
        total(differences(w)) == (w.last().0 - w[0].0, w.last().1 - w[0].1),
    decreases w.len(),
{
    if w.len() > 1 {
        let v = w.drop_last();
        lemma_differences_telescope(v);
        assert(differences(w).drop_last() =~= differences(v));
    }
}

/// The relative lines of a hat path add up to no displacement: the path
/// ends where it started.
pub proof fn hat_path_closes(ops: Seq<PathOp>, p: Placement)
    requires
        is_hat_path(ops, p),
    ensures
        total(ops.subrange(1, 14).map_values(|op: PathOp| delta_of(op))) == (0int, 0int),
{
    let w = hat_walk(p);
    assert(w.len() == 14);
    lemma_differences_telescope(w);
    assert forall|k: int| 0 <= k < 13 implies ops.subrange(1, 14).map_values(
        |op: PathOp| delta_of(op),
    )[k] == hat_deltas(p)[k] by {
        assert(ops[k + 1] is LineBy);
    }
    assert(ops.subrange(1, 14).map_values(|op: PathOp| delta_of(op)) =~= hat_deltas(p));
}

} // verus!
