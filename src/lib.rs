//! Geometry of the "hat" monotile: the canonical outline, its placement on a
//! canvas, and the path instructions that both output backends draw from.
//!
//! All coordinates are exact fixed-point integers counted in units of
//! `1 / SCALE` of a local length unit, so the outline's corner values are
//! held exactly and a placed path closes exactly.

use vstd::prelude::*;

pub mod geometry;
pub mod page;
pub mod tile;

use crate::geometry::{Placement, Point, Rotation, SCALE};
use crate::page::{
    PageOp,
    backends_share_vertices,
    hat_vertex,
    is_page_program,
    lemma_hat_pen_fits,
    page_point,
    page_program,
};
use crate::tile::{PathOp, hat_path, is_hat_path};

verus! {

/// One hat tile drawn at the centre of a `width` by `height` canvas and
/// filled with `color`, which is handed to the backends as it is.
pub struct Monotile {
    pub width: u32,
    pub height: u32,
    pub color: String,
}

impl Monotile {
    pub fn new(width: u32, height: u32, color: String) -> (r: Monotile)
        ensures
            r.width == width,
            r.height == height,
            r.color@ == color@,
    {
        Monotile { width, height, color }
    }

    /// The tile's placement: centred, at the angle zero, not mirrored.
    pub open spec fn placement_spec(&self) -> Placement {
        Placement {
            anchor: Point {
                x: (self.width * SCALE / 2) as i64,
                y: (self.height * SCALE / 2) as i64,
            },
            rotation: Rotation { cos: SCALE, sin: 0 },
            mirror: false,
        }
    }

    /// The tile's placement on its canvas.
    pub fn placement(&self) -> (p: Placement)
        ensures
            p == self.placement_spec(),
            p.wf(),
            2 * p.anchor.x == self.width * SCALE,
            2 * p.anchor.y == self.height * SCALE,
    {
        Placement::centered(self.width, self.height, Rotation::identity(), false)
    }

    /// The tile as a vector document: a canvas of the tile's size and one
    /// path, filled with the tile's colour and not stroked.
    pub fn vector_document(&self) -> (d: VectorDocument)
        ensures
            d.width == self.width,
            d.height == self.height,
            d.fill@ == self.color@,
            is_hat_path(d.path@, self.placement_spec()),
    {
        let p = self.placement();
        VectorDocument {
            width: self.width,
            height: self.height,
            fill: self.color.clone(),
            path: hat_path(&p),
        }
    }

    /// The tile as a print page: a page of the tile's size and the commands
    /// that draw the same path with absolute points, filled and stroked,
    /// between a save and a restore of the drawing state.
    pub fn print_page(&self) -> (page: PrintPage)
        ensures
            page.width == self.width,
            page.height == self.height,
            exists|ops: Seq<PathOp>|
                is_hat_path(ops, self.placement_spec()) && is_page_program(page.commands@, ops),
            forall|k: int|
                0 <= k < 14 ==> page_point(#[trigger] page.commands@[k + 2]) == Some(
                    hat_vertex(self.placement_spec(), k),
                ),
    {
        let p = self.placement();
        let ops = hat_path(&p);
        proof {
            lemma_hat_pen_fits(ops@, p);
        }
        let commands = page_program(&ops);
        proof {
            backends_share_vertices(ops@, commands@, p);
        }
        PrintPage { width: self.width, height: self.height, commands }
    }
}

/// What the vector backend renders: a `width` by `height` canvas holding one
/// path, filled with `fill` and not stroked.
pub struct VectorDocument {
    pub width: u32,
    pub height: u32,
    pub fill: String,
    pub path: Vec<PathOp>,
}

/// What the print-page backend renders: a `width` by `height` page and the
/// drawing commands run on it.
pub struct PrintPage {
    pub width: u32,
    pub height: u32,
    pub commands: Vec<PageOp>,
}

} // verus!
