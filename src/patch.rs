//! Patches: catalog shapes turned by a rotation, placed by an anchor point.

use vstd::prelude::*;

use crate::geometry::{
    bounded, closed, covers_cell, lemma_contains_translate, lemma_rotate_ring_keeps,
    lemma_rotate_ring_then, rectilinear, ring_contains, ring_contains_doubled, rotate_ring,
    rotate_vertices, quarter_turns, rotation_at, translate, Point, Polygon, Rotation, COORD_LIMIT,
};
use crate::shape::{lemma_shape_ring_well_formed, shape_ring, Shape, SPAN};

verus! {

/// A shape, turned by a rotation about its own origin.
#[derive(Clone, Copy, Debug, PartialEq, Eq, Structural)]
pub struct Patch {
    pub shape: Shape,
    pub rotation: Rotation,
}

impl Patch {
    /// The patch's outline in its own coordinates.
    pub open spec fn outline(self) -> Seq<(int, int)> {
        rotate_ring(shape_ring(self.shape), self.rotation)
    }

    /// Whether the patch, anchored at `anchor`, covers the cell `(cx, cy)`.
    pub open spec fn covers(self, anchor: Point, cx: int, cy: int) -> bool {
        covers_cell(self.outline(), anchor.x as int, anchor.y as int, cx, cy)
    }

    /// The same shape, turned by `r` beyond the patch's own rotation.
    pub open spec fn turned(self, r: Rotation) -> Patch {
        Patch {
            shape: self.shape,
            rotation: rotation_at((quarter_turns(self.rotation) + quarter_turns(r)) % 4),
        }
    }

    /// Creates a new, unturned patch for a specific shape.
    pub fn from_shape(shape: Shape) -> (p: Patch)
        ensures
            p.shape == shape,
            p.rotation == Rotation::Deg0,
            p.outline() == shape_ring(shape),
    {
        let p = Patch { shape, rotation: Rotation::Deg0 };
        assert(p.outline() =~= shape_ring(shape));
        p
    }

    /// The shape of the patch.
    pub fn shape(&self) -> (s: Shape)
        ensures
            s == self.shape,
    {
        self.shape
    }

    /// The rotation of the patch relative to its shape's catalog outline.
    pub fn rotation(&self) -> (r: Rotation)
        ensures
            r == self.rotation,
    {
        self.rotation
    }

    /// The same shape, turned further by `r`.
    pub fn rotated(&self, r: Rotation) -> (p: Patch)
        ensures
            p == self.turned(r),
            p.outline() == rotate_ring(self.outline(), r),
    {
        let rotation = self.rotation.compose(r);
        proof {
            lemma_rotate_ring_then(shape_ring(self.shape), self.rotation, r, rotation);
        }
        Patch { shape: self.shape, rotation }
    }

    /// Returns the patch's outline in its own coordinates.
    pub fn geometry(&self) -> (p: Polygon)
        ensures
            p@ == self.outline(),
    {
        let base = self.shape.geometry();
        proof {
            lemma_shape_ring_well_formed(self.shape);
            assert forall|i: int| 0 <= i < base.exterior@.len() implies -COORD_LIMIT
                <= #[trigger] base.exterior@[i].0 <= COORD_LIMIT && -COORD_LIMIT
                <= base.exterior@[i].1 <= COORD_LIMIT by {
                assert(base@[i] == shape_ring(self.shape)[i]);
            }
        }
        Polygon { exterior: rotate_vertices(&base.exterior, self.rotation) }
    }

    /// Returns the geometry of a patch relative to a specific point.
    pub fn relative_geometry(&self, point: &Point) -> (p: Polygon)
        ensures
            p@ == translate(self.outline(), point.x as int, point.y as int),
            forall|i: int|
                0 <= i < p.exterior@.len() ==> -COORD_LIMIT <= #[trigger] p.exterior@[i].0
                    <= COORD_LIMIT && -COORD_LIMIT <= p.exterior@[i].1 <= COORD_LIMIT,
    {
        let local = self.geometry();
        proof {
            lemma_outline_well_formed(*self);
        }
        let dx = point.x as i64;
        let dy = point.y as i64;
        let mut exterior: Vec<(i64, i64)> = Vec::new();
        let mut k: usize = 0;
        while k < local.exterior.len()
            invariant
                local@ == self.outline(),
                bounded(self.outline(), SPAN as int),
                dx == point.x as i64,
                dy == point.y as i64,
                k <= local.exterior@.len(),
                exterior@.len() == k,
                forall|i: int|
                    0 <= i < k ==> (#[trigger] exterior@[i]).0 as int == local@[i].0 + dx
                        && exterior@[i].1 as int == local@[i].1 + dy,
            decreases local.exterior@.len() - k,
        {
            let (x, y) = local.exterior[k];
            assert(local@[k as int] == (x as int, y as int));
            exterior.push((x + dx, y + dy));
            k = k + 1;
        }
        let p = Polygon { exterior };
        assert(p@ =~= translate(self.outline(), point.x as int, point.y as int));
        p
    }
}

/// The supply of patches that players draw from, read from the spool onward.
#[derive(Debug)]
pub struct PatchCircle {
    spool: usize,
    patches: Vec<Patch>,
}

impl PatchCircle {
    /// The position of the spool.
    pub closed spec fn spool_at(&self) -> int {
        self.spool as int
    }

    /// The patches of the circle, in order.
    pub closed spec fn patches_of(&self) -> Seq<Patch> {
        self.patches@
    }

    /// Returns the next `k` patches after the spool, with their positions.
    pub fn next(&self, k: usize) -> (r: Vec<(usize, &Patch)>)
        requires
            self.spool_at() + k <= self.patches_of().len(),
        ensures
            r@.len() == k,
            forall|i: int|
                0 <= i < k ==> (#[trigger] r@[i]).0 == self.spool_at() + i && *r@[i].1
                    == self.patches_of()[self.spool_at() + i],
    {
        let mut next: Vec<(usize, &Patch)> = Vec::new();
        let n = self.patches.len();
        let mut i: usize = 0;
        while i < k
            invariant
                n == self.patches@.len(),
                self.spool + k <= self.patches@.len(),
                i <= k,
                next@.len() == i,
                forall|j: int|
                    0 <= j < i ==> (#[trigger] next@[j]).0 == self.spool + j && *next@[j].1
                        == self.patches@[self.spool + j],
            decreases k - i,
        {
            let index = self.spool + i;
            next.push((index, &self.patches[index]));
            i = i + 1;
        }
        next
    }
}

impl Default for PatchCircle {
    /// A circle of `Shape::NUM` patches of shapes drawn at random, spool at the start.
    fn default() -> (c: PatchCircle)
        ensures
            c.spool_at() == 0,
            c.patches_of().len() == Shape::NUM,
            forall|i: int| 0 <= i < c.patches_of().len() ==> (#[trigger] c.patches_of()[i]).rotation == Rotation::Deg0,
    {
        let mut patches: Vec<Patch> = Vec::new();
        let mut i: u8 = 0;
        while i < Shape::NUM
            invariant
                i <= Shape::NUM,
                patches@.len() == i,
                forall|j: int| 0 <= j < patches@.len() ==> (#[trigger] patches@[j]).rotation == Rotation::Deg0,
            decreases Shape::NUM - i,
        {
            patches.push(Patch::from_shape(Shape::random()));
            i = i + 1;
        }
        PatchCircle { spool: 0, patches }
    }
}

impl Patch {
    /// Whether the patch, anchored at `anchor`, covers the cell `(cx, cy)`.
    pub fn covers_cell(&self, anchor: Point, cx: i64, cy: i64) -> (r: bool)
        requires
            -COORD_LIMIT <= cx <= COORD_LIMIT,
            -COORD_LIMIT <= cy <= COORD_LIMIT,
        ensures
            r == self.covers(anchor, cx as int, cy as int),
    {
        let ring = self.relative_geometry(&anchor);
        proof {
            lemma_relative_covers(*self, anchor, cx as int, cy as int);
        }
        holds_cell(&ring, cx, cy)
    }
}

/// Whether a ring in board coordinates holds the center of cell `(cx, cy)`.
pub(crate) fn holds_cell(ring: &Polygon, cx: i64, cy: i64) -> (r: bool)
    requires
        forall|i: int|
            0 <= i < ring.exterior@.len() ==> -COORD_LIMIT <= #[trigger] ring.exterior@[i].0
                <= COORD_LIMIT && -COORD_LIMIT <= ring.exterior@[i].1 <= COORD_LIMIT,
        -COORD_LIMIT <= cx <= COORD_LIMIT,
        -COORD_LIMIT <= cy <= COORD_LIMIT,
    ensures
        r == ring_contains(ring@, 2 * cx + 1, 2 * cy + 1),
{
    ring_contains_doubled(&ring.exterior, 2 * cx + 1, 2 * cy + 1)
}

/// Sampling a placed outline at a cell's center is the patch covering that cell.
pub proof fn lemma_relative_covers(p: Patch, anchor: Point, cx: int, cy: int)
    ensures
        ring_contains(translate(p.outline(), anchor.x as int, anchor.y as int), 2 * cx + 1, 2 * cy + 1)
            == p.covers(anchor, cx, cy),
{
    lemma_contains_translate(p.outline(), anchor.x as int, anchor.y as int, 2 * cx + 1, 2 * cy + 1);
}

/// Every patch outline is a closed rectilinear ring that starts at the origin
/// and stays within `[-SPAN, SPAN]`.
pub proof fn lemma_outline_well_formed(p: Patch)
    ensures
        closed(p.outline()),
        rectilinear(p.outline()),
        bounded(p.outline(), SPAN as int),
        p.outline()[0] == (0int, 0int),
{
    lemma_shape_ring_well_formed(p.shape);
    lemma_rotate_ring_keeps(shape_ring(p.shape), p.rotation, SPAN as int);
}

} // verus!
