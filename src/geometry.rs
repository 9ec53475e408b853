//! Integer plane geometry: anchor points, closed polygon rings, and the
//! crossing-number test that decides whether a ring covers a unit cell.

use vstd::prelude::*;

verus! {

/// The largest magnitude of a coordinate that the executable containment test accepts.
pub const COORD_LIMIT: i64 = 0x1000_0000;

/// An integer point on the board, used as the anchor of a placement.
#[derive(Clone, Copy, Debug, PartialEq, Eq, Hash, Structural)]
pub struct Point {
    pub x: u8,
    pub y: u8,
}

impl Point {
    pub fn new(x: u8, y: u8) -> (p: Point)
        ensures
            p.x == x,
            p.y == y,
    {
        Point { x, y }
    }
}

/// A closed ring of vertices (the last vertex repeats the first), y pointing up.
#[derive(Debug)]
pub struct Polygon {
    pub exterior: Vec<(i64, i64)>,
}

impl View for Polygon {
    type V = Seq<(int, int)>;

    open spec fn view(&self) -> Seq<(int, int)> {
        Seq::new(self.exterior@.len(), |i: int| (self.exterior@[i].0 as int, self.exterior@[i].1 as int))
    }
}

/// Number of edges of a ring: one fewer than its vertices.
pub open spec fn edge_count(ring: Seq<(int, int)>) -> nat {
    if ring.len() == 0 {
        0
    } else {
        (ring.len() - 1) as nat
    }
}

/// Whether the edge from `a` to `b` crosses the ray that leaves the point
/// `(px2 / 2, py2 / 2)` towards growing x. Coordinates of the point are doubled
/// so that cell centers stay integral.
pub open spec fn edge_crosses(a: (int, int), b: (int, int), px2: int, py2: int) -> bool {
    a.0 == b.0 && 2 * a.0 > px2 && ((2 * a.1 < py2 && py2 < 2 * b.1) || (2 * b.1 < py2 && py2
        < 2 * a.1))
}

/// How many of the first `n` edges of `ring` the ray from the doubled point crosses.
pub open spec fn crossings(ring: Seq<(int, int)>, px2: int, py2: int, n: nat) -> nat
    decreases n,
{
    if n == 0 {
        0
    } else {
        crossings(ring, px2, py2, (n - 1) as nat) + if edge_crosses(
            ring[n - 1],
            ring[n as int],
            px2,
            py2,
        ) {
            1nat
        } else {
            0nat
        }
    }
}

/// Whether the interior of `ring` holds the point `(px2 / 2, py2 / 2)`.
pub open spec fn ring_contains(ring: Seq<(int, int)>, px2: int, py2: int) -> bool {
    crossings(ring, px2, py2, edge_count(ring)) % 2 == 1
}

/// Whether `ring`, moved by `(dx, dy)`, covers the unit cell whose lower-left
/// corner is `(cx, cy)`; the cell is sampled at its center.
pub open spec fn covers_cell(ring: Seq<(int, int)>, dx: int, dy: int, cx: int, cy: int) -> bool {
    ring_contains(ring, 2 * (cx - dx) + 1, 2 * (cy - dy) + 1)
}

/// The ring moved by `(dx, dy)`.
pub open spec fn translate(ring: Seq<(int, int)>, dx: int, dy: int) -> Seq<(int, int)> {
    Seq::new(ring.len(), |i: int| (ring[i].0 + dx, ring[i].1 + dy))
}

/// Every coordinate of `ring` lies in `[-b, b]`.
pub open spec fn bounded(ring: Seq<(int, int)>, b: int) -> bool {
    forall|i: int| 0 <= i < ring.len() ==> -b <= #[trigger] ring[i].0 <= b && -b <= ring[i].1 <= b
}

/// Every edge of `ring` is horizontal or vertical.
pub open spec fn rectilinear(ring: Seq<(int, int)>) -> bool {
    forall|i: int|
        0 <= i < edge_count(ring) ==> (#[trigger] ring[i]).0 == ring[i + 1].0 || ring[i].1 == ring[i
            + 1].1
}

/// The ring has at least one vertex and ends where it starts.
pub open spec fn closed(ring: Seq<(int, int)>) -> bool {
    ring.len() >= 1 && ring[0] == ring[ring.len() - 1]
}

/// Every vertex of the ring lies in the rectangle `[0, w] x [0, h]`.
pub open spec fn within_rect(ring: Seq<(int, int)>, w: int, h: int) -> bool {
    forall|i: int| 0 <= i < ring.len() ==> 0 <= #[trigger] ring[i].0 <= w && 0 <= ring[i].1 <= h
}

pub proof fn lemma_crossings_translate(ring: Seq<(int, int)>, dx: int, dy: int, px2: int, py2: int, n: nat)
    requires
        n <= edge_count(ring),
    ensures
        crossings(translate(ring, dx, dy), px2, py2, n) == crossings(ring, px2 - 2 * dx, py2 - 2 * dy, n),
    decreases n,
{
    if n > 0 {
        lemma_crossings_translate(ring, dx, dy, px2, py2, (n - 1) as nat);
    }
}

/// Moving a ring and the sampled point by the same offset keeps the answer.
pub proof fn lemma_contains_translate(ring: Seq<(int, int)>, dx: int, dy: int, px2: int, py2: int)
    ensures
        ring_contains(translate(ring, dx, dy), px2, py2) == ring_contains(ring, px2 - 2 * dx, py2 - 2 * dy),
{
    lemma_crossings_translate(ring, dx, dy, px2, py2, edge_count(ring));
}

proof fn lemma_some_edge_crosses(ring: Seq<(int, int)>, px2: int, py2: int, n: nat)
    requires
        crossings(ring, px2, py2, n) > 0,
    ensures
        exists|k: int| 0 <= k < n && edge_crosses(#[trigger] ring[k], ring[k + 1], px2, py2),
    decreases n,
{
    if !edge_crosses(ring[n - 1], ring[n as int], px2, py2) {
        lemma_some_edge_crosses(ring, px2, py2, (n - 1) as nat);
    }
}

/// Left of every vertex, the ray crosses the ring once for each change of
/// side of the sampled row, so the parity tracks the side of vertex `n`.
proof fn lemma_crossings_parity(ring: Seq<(int, int)>, px2: int, cy: int, n: nat)
    requires
        n <= edge_count(ring),
        rectilinear(ring),
        forall|i: int| 0 <= i < ring.len() ==> 2 * (#[trigger] ring[i]).0 > px2,
    ensures
        (crossings(ring, px2, 2 * cy + 1, n) % 2 == 1) == ((ring[0].1 > cy) != (ring[n as int].1 > cy)),
    decreases n,
{
    if n > 0 {
        lemma_crossings_parity(ring, px2, cy, (n - 1) as nat);
        let k = n - 1;
        assert(ring[k].0 == ring[k + 1].0 || ring[k].1 == ring[k + 1].1);
        assert(2 * ring[k].0 > px2);
    }
}

/// A rectilinear closed ring with coordinates in `[-b, b]` covers only cells
/// inside `[-b, b) x [-b, b)`.
pub proof fn lemma_covered_cell_in_span(ring: Seq<(int, int)>, b: int, cx: int, cy: int)
    requires
        closed(ring),
        rectilinear(ring),
        bounded(ring, b),
        ring_contains(ring, 2 * cx + 1, 2 * cy + 1),
    ensures
        -b <= cx < b,
        -b <= cy < b,
{
    let n = edge_count(ring);
    lemma_some_edge_crosses(ring, 2 * cx + 1, 2 * cy + 1, n);
    let k = choose|k: int| 0 <= k < n && edge_crosses(#[trigger] ring[k], ring[k + 1], 2 * cx + 1, 2 * cy + 1);
    assert(-b <= ring[k].0 <= b && -b <= ring[k].1 <= b);
    assert(-b <= ring[k + 1].0 <= b && -b <= ring[k + 1].1 <= b);
    if cx < -b {
        assert forall|i: int| 0 <= i < ring.len() implies 2 * (#[trigger] ring[i]).0 > 2 * cx + 1 by {
            assert(-b <= ring[i].0);
        }
        lemma_crossings_parity(ring, 2 * cx + 1, cy, n);
    }
}

/// Whether the ring holds the doubled point `(px2, py2)` in its interior.
pub fn ring_contains_doubled(ring: &Vec<(i64, i64)>, px2: i64, py2: i64) -> (r: bool)
    requires
        forall|i: int| 0 <= i < ring@.len() ==> -COORD_LIMIT <= #[trigger] ring@[i].0 <= COORD_LIMIT && -COORD_LIMIT <= ring@[i].1 <= COORD_LIMIT,
    ensures
        r == ring_contains(Polygon { exterior: *ring }@, px2 as int, py2 as int),
{
    let ghost s = Polygon { exterior: *ring }@;
    let n: usize = if ring.len() == 0 { 0 } else { ring.len() - 1 };
    let mut inside = false;
    let mut k: usize = 0;
    while k < n
        invariant
            s == (Polygon { exterior: *ring })@,
            n == edge_count(s),
            n < ring@.len() || n == 0,
            s.len() == ring@.len(),
            k <= n,
            inside == (crossings(s, px2 as int, py2 as int, k as nat) % 2 == 1),
            forall|i: int| 0 <= i < ring@.len() ==> -COORD_LIMIT <= #[trigger] ring@[i].0 <= COORD_LIMIT && -COORD_LIMIT <= ring@[i].1 <= COORD_LIMIT,
        decreases n - k,
    {
        let (ax, ay) = ring[k];
        let (bx, by) = ring[k + 1];
        assert(s[k as int] == (ax as int, ay as int));
        assert(s[k + 1] == (bx as int, by as int));
        let crosses = ax == bx && 2 * ax > px2 && ((2 * ay < py2 && py2 < 2 * by) || (2 * by < py2
            && py2 < 2 * ay));
        if crosses {
            inside = !inside;
        }
        k = k + 1;
    }
    inside
}

/// One of the four axis-aligned rotations, counter-clockwise about the origin.
#[derive(Clone, Copy, Debug, PartialEq, Eq, Hash, Structural)]
pub enum Rotation {
    Deg0,
    Deg90,
    Deg180,
    Deg270,
}

/// The four rotations in the order in which a search tries them.
pub open spec fn rotation_at(k: int) -> Rotation {
    if k == 0 {
        Rotation::Deg0
    } else if k == 1 {
        Rotation::Deg90
    } else if k == 2 {
        Rotation::Deg180
    } else {
        Rotation::Deg270
    }
}

/// The number of quarter turns a rotation makes.
pub open spec fn quarter_turns(r: Rotation) -> int {
    match r {
        Rotation::Deg0 => 0,
        Rotation::Deg90 => 1,
        Rotation::Deg180 => 2,
        Rotation::Deg270 => 3,
    }
}

/// The image of a point under a rotation about the origin.
pub open spec fn rotate_point(r: Rotation, p: (int, int)) -> (int, int) {
    match r {
        Rotation::Deg0 => p,
        Rotation::Deg90 => (-p.1, p.0),
        Rotation::Deg180 => (-p.0, -p.1),
        Rotation::Deg270 => (p.1, -p.0),
    }
}

/// The ring with every vertex rotated about the origin.
pub open spec fn rotate_ring(ring: Seq<(int, int)>, r: Rotation) -> Seq<(int, int)> {
    Seq::new(ring.len(), |i: int| rotate_point(r, ring[i]))
}

impl Rotation {
    /// The rotation that turns by `self` and then by `other`.
    pub fn compose(self, other: Rotation) -> (r: Rotation)
        ensures
            quarter_turns(r) == (quarter_turns(self) + quarter_turns(other)) % 4,
            r == rotation_at((quarter_turns(self) + quarter_turns(other)) % 4),
            forall|p: (int, int)| rotate_point(r, p) == rotate_point(other, rotate_point(self, p)),
    {
        let turns: u8 = self.turns() + other.turns();
        Rotation::from_turns(turns % 4)
    }

    /// The number of quarter turns.
    pub fn turns(self) -> (t: u8)
        ensures
            t as int == quarter_turns(self),
    {
        match self {
            Rotation::Deg0 => 0,
            Rotation::Deg90 => 1,
            Rotation::Deg180 => 2,
            Rotation::Deg270 => 3,
        }
    }

    /// The rotation by `t` quarter turns.
    pub fn from_turns(t: u8) -> (r: Rotation)
        requires
            t < 4,
        ensures
            quarter_turns(r) == t as int,
            r == rotation_at(t as int),
    {
        if t == 0 {
            Rotation::Deg0
        } else if t == 1 {
            Rotation::Deg90
        } else if t == 2 {
            Rotation::Deg180
        } else {
            Rotation::Deg270
        }
    }
}

/// Turning twice is turning once by the composed rotation.
pub proof fn lemma_rotate_ring_then(ring: Seq<(int, int)>, r1: Rotation, r2: Rotation, r: Rotation)
    requires
        forall|p: (int, int)| rotate_point(r, p) == rotate_point(r2, rotate_point(r1, p)),
    ensures
        rotate_ring(rotate_ring(ring, r1), r2) == rotate_ring(ring, r),
{
    assert(rotate_ring(rotate_ring(ring, r1), r2) =~= rotate_ring(ring, r));
}

/// A rotation keeps a ring closed, rectilinear and bounded, and keeps the origin in place.
pub proof fn lemma_rotate_ring_keeps(ring: Seq<(int, int)>, r: Rotation, b: int)
    requires
        closed(ring),
        rectilinear(ring),
        bounded(ring, b),
        ring[0] == (0int, 0int),
    ensures
        closed(rotate_ring(ring, r)),
        rectilinear(rotate_ring(ring, r)),
        bounded(rotate_ring(ring, r), b),
        rotate_ring(ring, r)[0] == (0int, 0int),
{
    let s = rotate_ring(ring, r);
    assert forall|i: int| 0 <= i < edge_count(s) implies (#[trigger] s[i]).0 == s[i + 1].0 || s[i].1
        == s[i + 1].1 by {
        assert(ring[i].0 == ring[i + 1].0 || ring[i].1 == ring[i + 1].1);
    }
    assert forall|i: int| 0 <= i < s.len() implies -b <= #[trigger] s[i].0 <= b && -b <= s[i].1
        <= b by {
        assert(-b <= ring[i].0 <= b && -b <= ring[i].1 <= b);
    }
}

/// Rotates every vertex of a ring whose coordinates fit the executable limits.
pub fn rotate_vertices(ring: &Vec<(i64, i64)>, r: Rotation) -> (out: Vec<(i64, i64)>)
    requires
        forall|i: int| 0 <= i < ring@.len() ==> -COORD_LIMIT <= #[trigger] ring@[i].0 <= COORD_LIMIT && -COORD_LIMIT <= ring@[i].1 <= COORD_LIMIT,
    ensures
        (Polygon { exterior: out })@ == rotate_ring((Polygon { exterior: *ring })@, r),
{
    let ghost src = (Polygon { exterior: *ring })@;
    let mut out: Vec<(i64, i64)> = Vec::new();
    let mut k: usize = 0;
    while k < ring.len()
        invariant
            src == (Polygon { exterior: *ring })@,
            k <= ring@.len(),
            out@.len() == k,
            forall|i: int| 0 <= i < ring@.len() ==> -COORD_LIMIT <= #[trigger] ring@[i].0 <= COORD_LIMIT && -COORD_LIMIT <= ring@[i].1 <= COORD_LIMIT,
            forall|i: int| 0 <= i < k ==> ((#[trigger] out@[i]).0 as int, out@[i].1 as int) == rotate_point(r, src[i]),
        decreases ring@.len() - k,
    {
        let (x, y) = ring[k];
        let v: (i64, i64) = match r {
            Rotation::Deg0 => (x, y),
            Rotation::Deg90 => (-y, x),
            Rotation::Deg180 => (-x, -y),
            Rotation::Deg270 => (y, -x),
        };
        out.push(v);
        k = k + 1;
    }
    assert((Polygon { exterior: out })@ =~= rotate_ring(src, r));
    out
}

} // verus!
