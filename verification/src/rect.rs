//! Axis-aligned rectangles with exact union semantics.
//!
//! The dirty rectangle of a frame is accumulated by repeatedly taking the
//! union of resolved layout areas, so the union here is the bounding box of
//! its two arguments.  Coordinates are kept within [`COORD_LIMIT`] so that
//! unions never overflow and stay well formed under arbitrary iteration.

use vstd::prelude::*;

verus! {

/// Bound on every coordinate of a well-formed rectangle.
pub const COORD_LIMIT: i64 = 0x4000_0000;

/// An axis-aligned rectangle: origin plus non-negative extent.
#[derive(Clone, Copy, PartialEq, Eq, Structural, Debug)]
pub struct Rect {
    pub x: i64,
    pub y: i64,
    pub width: i64,
    pub height: i64,
}

impl Rect {
    /// A rectangle is well formed when its extent is non-negative and the
    /// whole of it lies within the coordinate bound.
    pub open spec fn wf(self) -> bool {
        &&& -COORD_LIMIT <= self.x
        &&& -COORD_LIMIT <= self.y
        &&& 0 <= self.width
        &&& 0 <= self.height
        &&& self.x + self.width <= COORD_LIMIT
        &&& self.y + self.height <= COORD_LIMIT
    }

    pub open spec fn max_x(self) -> int {
        self.x + self.width
    }

    pub open spec fn max_y(self) -> int {
        self.y + self.height
    }

    /// The bounding box of two rectangles.
    pub open spec fn union_spec(self, other: Rect) -> Rect {
        let nx = if self.x <= other.x { self.x } else { other.x };
        let ny = if self.y <= other.y { self.y } else { other.y };
        let mx = if self.max_x() >= other.max_x() { self.max_x() } else { other.max_x() };
        let my = if self.max_y() >= other.max_y() { self.max_y() } else { other.max_y() };
        Rect { x: nx, y: ny, width: (mx - nx) as i64, height: (my - ny) as i64 }
    }

    /// `self` contains the whole of `other`.
    pub open spec fn covers(self, other: Rect) -> bool {
        &&& self.x <= other.x
        &&& self.y <= other.y
        &&& other.max_x() <= self.max_x()
        &&& other.max_y() <= self.max_y()
    }

    pub fn new(x: i64, y: i64, width: i64, height: i64) -> (r: Rect)
        requires
            -COORD_LIMIT <= x,
            -COORD_LIMIT <= y,
            0 <= width,
            0 <= height,
            x + width <= COORD_LIMIT,
            y + height <= COORD_LIMIT,
        ensures
            r == (Rect { x, y, width, height }),
            r.wf(),
    {
        Rect { x, y, width, height }
    }

    /// The bounding box of `self` and `other`.
    pub fn union(&self, other: &Rect) -> (r: Rect)
        requires
            self.wf(),
            other.wf(),
        ensures
            r == self.union_spec(*other),
            r.wf(),
            r.covers(*self),
            r.covers(*other),
    {
        let nx = if self.x <= other.x { self.x } else { other.x };
        let ny = if self.y <= other.y { self.y } else { other.y };
        let sx = self.x + self.width;
        let ox = other.x + other.width;
        let sy = self.y + self.height;
        let oy = other.y + other.height;
        let mx = if sx >= ox { sx } else { ox };
        let my = if sy >= oy { sy } else { oy };
        Rect { x: nx, y: ny, width: mx - nx, height: my - ny }
    }
}

/// The union of two rectangles does not depend on the order of its arguments.
pub proof fn lemma_union_comm(a: Rect, b: Rect)
    ensures
        a.union_spec(b) == b.union_spec(a),
{
}

/// The union of three rectangles does not depend on grouping.
pub proof fn lemma_union_assoc(a: Rect, b: Rect, c: Rect)
    requires
        a.wf(),
        b.wf(),
        c.wf(),
    ensures
        a.union_spec(b).union_spec(c) == a.union_spec(b.union_spec(c)),
{
}

/// A union of well-formed rectangles is well formed and covers both.
pub proof fn lemma_union_wf(a: Rect, b: Rect)
    requires
        a.wf(),
        b.wf(),
    ensures
        a.union_spec(b).wf(),
        a.union_spec(b).covers(a),
        a.union_spec(b).covers(b),
{
}

/// Covering is transitive, so an accumulated union keeps covering every
/// rectangle that was folded into it.
pub proof fn lemma_covers_trans(a: Rect, b: Rect, c: Rect)
    requires
        a.covers(b),
        b.covers(c),
    ensures
        a.covers(c),
{
}

} // verus!
