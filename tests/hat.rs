use monotiles_every_way::geometry::{mirror, rotate, Placement, Point, Rotation, SCALE};
use monotiles_every_way::page::{page_program, restores_needed, PageOp};
use monotiles_every_way::tile::{hat_corners, hat_path, PathOp};
use monotiles_every_way::Monotile;

fn line_deltas(ops: &[PathOp]) -> Vec<Point> {
    ops.iter()
        .filter_map(|op| match op {
            PathOp::LineBy(d) => Some(*d),
            _ => None,
        })
        .collect()
}

fn pen_positions(ops: &[PathOp]) -> Vec<Point> {
    let mut cur = Point::new(0, 0);
    let mut out = Vec::new();
    for op in ops {
        match op {
            PathOp::MoveTo(q) => {
                cur = *q;
                out.push(cur);
            }
            PathOp::LineBy(d) => {
                cur = Point::new(cur.x + d.x, cur.y + d.y);
                out.push(cur);
            }
            PathOp::Close => {}
        }
    }
    out
}

fn page_points(page: &[PageOp]) -> Vec<Point> {
    page.iter()
        .filter_map(|op| match op {
            PageOp::MoveTo(q) | PageOp::LineTo(q) => Some(*q),
            _ => None,
        })
        .collect()
}

fn rotation_of_degrees(deg: f64) -> Rotation {
    let t = deg.to_radians();
    let c = (t.cos() * SCALE as f64).round() as i64;
    let s = (t.sin() * SCALE as f64).round() as i64;
    Rotation::new(c, s).unwrap()
}

#[test]
fn anchor_is_canvas_centre() {
    for &(w, h) in &[(400u32, 400u32), (2, 2), (3, 7), (1, 1), (u32::MAX, u32::MAX)] {
        let p = Monotile::new(w, h, "#ff0000".to_string()).placement();
        assert_eq!(2 * p.anchor.x as i128, w as i128 * SCALE as i128);
        assert_eq!(2 * p.anchor.y as i128, h as i128 * SCALE as i128);
    }
    let p = Monotile::new(3, 5, String::new()).placement();
    assert_eq!(p.anchor, Point::new(150_000_000, 250_000_000));
}

#[test]
fn identity_placement_keeps_corners() {
    let p = Placement::centered(400, 400, Rotation::identity(), false);
    let corners = hat_corners();
    assert_eq!(corners.len(), 12);
    for c in &corners {
        assert_eq!(p.apply(*c), *c);
    }
    assert_eq!(corners[0], Point::new(0, -173_205_081));
    assert_eq!(corners[2], Point::new(-150_000_000, -259_807_000));
    assert_eq!(corners[11], Point::new(150_000_000, 86_602_540));
}

#[test]
fn rotation_round_trip_is_close() {
    for &deg in &[0.0, 30.0, 45.0, 90.0, 123.4, 180.0, 270.0, -60.0] {
        let r = rotation_of_degrees(deg);
        let defect = (r.cos as i128).pow(2) + (r.sin as i128).pow(2) - (SCALE as i128).pow(2);
        let ss = (SCALE as i128).pow(2);
        for c in hat_corners() {
            let back = rotate(rotate(c, r), r.inverse());
            for (a, b) in [(back.x, c.x), (back.y, c.y)] {
                let err = ss * (a as i128 - b as i128).abs();
                assert!(err <= (defect * b as i128).abs() + 3 * ss);
            }
        }
    }
}

#[test]
fn quarter_turn_is_exact() {
    let r = Rotation::new(0, SCALE).unwrap();
    assert_eq!(rotate(Point::new(3, 5), r), Point::new(-5, 3));
    let half = Rotation::new(-SCALE, 0).unwrap();
    assert_eq!(rotate(Point::new(3, -5), half), Point::new(-3, 5));
}

#[test]
fn rotation_rounds_down() {
    let r = Rotation::new(SCALE / 2, 0).unwrap();
    assert_eq!(rotate(Point::new(3, 0), r), Point::new(1, 0));
    assert_eq!(rotate(Point::new(-3, 0), r), Point::new(-2, 0));
}

#[test]
fn rotation_out_of_range_is_refused() {
    assert!(Rotation::new(SCALE + 1, 0).is_none());
    assert!(Rotation::new(0, -SCALE - 1).is_none());
    assert!(Rotation::new(SCALE, -SCALE).is_some());
}

#[test]
fn mirroring_twice_is_identity() {
    for c in hat_corners() {
        let once = mirror(c, true);
        assert_eq!(once.x, -c.x);
        assert_eq!(once.y, c.y);
        assert_eq!(mirror(once, true), c);
        assert_eq!(mirror(c, false), c);
    }
}

#[test]
fn emitted_path_closes() {
    let rotations = [Rotation::identity(), rotation_of_degrees(30.0), rotation_of_degrees(77.7)];
    for r in rotations {
        for flip in [false, true] {
            let p = Placement::centered(400, 300, r, flip);
            let ops = hat_path(&p);
            assert_eq!(ops.len(), 15);
            assert_eq!(ops[0], PathOp::MoveTo(p.anchor));
            assert_eq!(ops[14], PathOp::Close);
            let deltas = line_deltas(&ops);
            assert_eq!(deltas.len(), 13);
            let sx: i64 = deltas.iter().map(|d| d.x).sum();
            let sy: i64 = deltas.iter().map(|d| d.y).sum();
            assert_eq!((sx, sy), (0, 0));
        }
    }
}

#[test]
fn mirrored_path_negates_x() {
    let r = rotation_of_degrees(30.0);
    let plain = hat_path(&Placement::centered(400, 400, r, false));
    let flipped = hat_path(&Placement::centered(400, 400, r, true));
    let a = line_deltas(&plain);
    let b = line_deltas(&flipped);
    for (p, q) in a.iter().zip(b.iter()) {
        assert_eq!(q.x, -p.x);
        assert_eq!(q.y, p.y);
    }
}

#[test]
fn backends_agree_on_vertices() {
    let tile = Monotile::new(400, 400, "#ff0000".to_string());
    let ops = tile.vector_document().path;
    let page = tile.print_page().commands;
    let vector = pen_positions(&ops);
    let printed = page_points(&page);
    assert_eq!(vector.len(), 14);
    assert_eq!(vector, printed);
    let rounded = |v: &Vec<Point>| -> Vec<(f64, f64)> {
        v.iter()
            .map(|q| {
                (
                    (q.x as f64 / SCALE as f64 * 1e6).round() / 1e6,
                    (q.y as f64 / SCALE as f64 * 1e6).round() / 1e6,
                )
            })
            .collect()
    };
    assert_eq!(rounded(&vector), rounded(&printed));
}

#[test]
fn page_program_balances_state() {
    let page = Monotile::new(400, 400, "#ff0000".to_string()).print_page().commands;
    assert_eq!(page.len(), 20);
    assert_eq!(page[0], PageOp::SaveState);
    assert_eq!(page[1], PageOp::SetLineWidth(SCALE));
    assert_eq!(page[16], PageOp::ClosePath);
    assert_eq!(page[17], PageOp::Fill);
    assert_eq!(page[18], PageOp::Stroke);
    assert_eq!(page[19], PageOp::RestoreState);
    let saves = page.iter().filter(|op| **op == PageOp::SaveState).count();
    let restores = page.iter().filter(|op| **op == PageOp::RestoreState).count();
    assert_eq!((saves, restores), (1, 1));
}

#[test]
fn page_program_follows_moves_and_closes() {
    let ops = vec![
        PathOp::MoveTo(Point::new(10, 20)),
        PathOp::LineBy(Point::new(5, 0)),
        PathOp::Close,
        PathOp::LineBy(Point::new(0, 7)),
    ];
    let page = page_program(&ops);
    assert_eq!(
        page,
        vec![
            PageOp::SaveState,
            PageOp::SetLineWidth(SCALE),
            PageOp::MoveTo(Point::new(10, 20)),
            PageOp::LineTo(Point::new(15, 20)),
            PageOp::ClosePath,
            PageOp::LineTo(Point::new(10, 27)),
            PageOp::Fill,
            PageOp::Stroke,
            PageOp::RestoreState,
        ]
    );
}

#[test]
fn scenario_four_hundred_square() {
    let tile = Monotile::new(400, 400, "#ff0000".to_string());
    let p = tile.placement();
    assert_eq!(p.anchor, Point::new(20_000_000_000, 20_000_000_000));
    let ops = tile.vector_document().path;
    assert_eq!(ops[1], PathOp::LineBy(Point::new(0, -173_205_081)));
    assert_eq!(ops[2], PathOp::LineBy(Point::new(-100_000_000, 0)));
    let pts = pen_positions(&ops);
    assert_eq!(pts[0], Point::new(20_000_000_000, 20_000_000_000));
    assert_eq!(pts[1], Point::new(20_000_000_000, 19_826_794_919));
    let y = pts[1].y as f64 / SCALE as f64;
    assert!((y - 198.26795).abs() < 1e-5);
    assert_eq!(pts[13], pts[0]);
    let page = tile.print_page().commands;
    assert_eq!(page[2], PageOp::MoveTo(Point::new(20_000_000_000, 20_000_000_000)));
    assert_eq!(page[3], PageOp::LineTo(Point::new(20_000_000_000, 19_826_794_919)));
    assert_eq!(page[15], PageOp::LineTo(Point::new(20_000_000_000, 20_000_000_000)));
}

#[test]
fn scenario_tiny_canvas() {
    let tile = Monotile::new(2, 2, "#000000".to_string());
    assert_eq!(tile.color, "#000000");
    let ops = tile.vector_document().path;
    assert_eq!(ops.len(), 15);
    let pts = pen_positions(&ops);
    assert_eq!(pts[0], Point::new(100_000_000, 100_000_000));
    assert!(pts.iter().any(|q| q.x < 0));
    assert_eq!(tile.print_page().commands.len(), 20);
}

#[test]
fn largest_canvas_is_drawn() {
    let tile = Monotile::new(u32::MAX, u32::MAX, String::new());
    let pts = pen_positions(&tile.vector_document().path);
    assert_eq!(pts, page_points(&tile.print_page().commands));
    assert_eq!(pts[13], pts[0]);
}

#[test]
fn documents_have_canvas_size_and_colour() {
    let tile = Monotile::new(640, 480, "rebeccapurple".to_string());
    assert_eq!((tile.width, tile.height), (640, 480));
    let doc = tile.vector_document();
    assert_eq!((doc.width, doc.height), (640, 480));
    assert_eq!(doc.fill, "rebeccapurple");
    assert_eq!(doc.path[0], PathOp::MoveTo(Point::new(32_000_000_000, 24_000_000_000)));
    let page = tile.print_page();
    assert_eq!((page.width, page.height), (640, 480));
    assert_eq!(page_points(&page.commands), pen_positions(&doc.path));
}

#[test]
fn one_state_is_open_while_the_page_draws() {
    let page = Monotile::new(400, 400, "#ff0000".to_string()).print_page().commands;
    assert_eq!(restores_needed(&page, 0), 0);
    for k in 1..page.len() {
        assert_eq!(restores_needed(&page, k), 1);
    }
    assert_eq!(restores_needed(&page, page.len()), 0);
}

#[test]
fn restores_follow_nesting() {
    let page = vec![
        PageOp::SaveState,
        PageOp::SaveState,
        PageOp::Fill,
        PageOp::RestoreState,
        PageOp::RestoreState,
        PageOp::RestoreState,
    ];
    let counts: Vec<usize> = (0..=page.len()).map(|k| restores_needed(&page, k)).collect();
    assert_eq!(counts, vec![0, 1, 2, 2, 1, 0, 0]);
}
