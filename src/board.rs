//! The board: validated placement of patches, the search for a legal
//! placement, and the discretised occupancy grid.

use vstd::prelude::*;

use crate::geometry::{
    lemma_covered_cell_in_span, quarter_turns, translate, within_rect, Point,
    Rotation, COORD_LIMIT,
};
use crate::patch::{holds_cell, lemma_outline_well_formed, lemma_relative_covers, Patch};
use crate::shape::{Shape, SPAN};

verus! {

/// Why a placement was refused.
#[derive(Clone, Copy, Debug, PartialEq, Eq, Hash, Structural)]
pub enum PlacementFailure {
    /// Some part of the patch lies outside the board.
    OutOfBounds,
    /// The patch shares a positive area with a placed patch.
    Overlap,
}

/// A refused placement: the anchor and the shape that were tried, and why.
#[derive(Clone, Copy, Debug, PartialEq, Eq, Hash, Structural)]
pub struct PlacementError {
    pub point: Point,
    pub shape: Shape,
    pub reason: PlacementFailure,
}

/// Whether two placed patches share a positive area. Outlines have integer
/// vertices and axis-parallel edges, so they share area exactly when some
/// unit cell has its center inside both; shared edges and corners do not count.
pub open spec fn overlap(p: Patch, a: Point, q: Patch, b: Point) -> bool {
    exists|cx: int, cy: int| #[trigger] p.covers(a, cx, cy) && #[trigger] q.covers(b, cx, cy)
}

/// Whether the patch anchored at `a` lies within the rectangle `[0, w] x [0, h]`;
/// the rectangle is convex, so this holds exactly when every vertex lies in it.
pub open spec fn in_bounds(p: Patch, a: Point, w: int, h: int) -> bool {
    within_rect(translate(p.outline(), a.x as int, a.y as int), w, h)
}

/// The abstract state of a board: its size and its placements in the order they were made.
pub struct BoardView {
    pub width: nat,
    pub height: nat,
    pub placements: Seq<(Point, Patch)>,
}

impl BoardView {
    /// Whether the patch anchored at `a` lies on the board.
    pub open spec fn fits_on_board(self, a: Point, p: Patch) -> bool {
        in_bounds(p, a, self.width as int, self.height as int)
    }

    /// Whether the patch anchored at `a` overlaps some placed patch.
    pub open spec fn overlaps_any(self, a: Point, p: Patch) -> bool {
        exists|i: int|
            0 <= i < self.placements.len() && overlap(
                (#[trigger] self.placements[i]).1,
                self.placements[i].0,
                p,
                a,
            )
    }

    /// What placing the patch at `a` answers: the bounds are checked first,
    /// then overlap with each placed patch.
    pub open spec fn place_outcome(self, a: Point, p: Patch) -> Result<(), PlacementError> {
        if !self.fits_on_board(a, p) {
            Err(PlacementError { point: a, shape: p.shape, reason: PlacementFailure::OutOfBounds })
        } else if self.overlaps_any(a, p) {
            Err(PlacementError { point: a, shape: p.shape, reason: PlacementFailure::Overlap })
        } else {
            Ok(())
        }
    }

    /// Whether placing the patch at `a` succeeds.
    pub open spec fn placeable(self, a: Point, p: Patch) -> bool {
        self.place_outcome(a, p) is Ok
    }

    /// The board after the patch has been placed at `a`.
    pub open spec fn with_placement(self, a: Point, p: Patch) -> BoardView {
        BoardView { placements: self.placements.push((a, p)), ..self }
    }

    /// The board after trying to place the patch at `a`: a refused placement changes nothing.
    pub open spec fn after_place(self, a: Point, p: Patch) -> BoardView {
        if self.placeable(a, p) {
            self.with_placement(a, p)
        } else {
            self
        }
    }

    /// Whether `(a, r)` is the answer of `fit` for patch `p`: the patch turned
    /// by `r` can be placed at `a`, and no candidate searched before can.
    pub open spec fn first_fit(self, p: Patch, a: Point, r: Rotation) -> bool {
        &&& self.placeable(a, p.turned(r))
        &&& forall|r2: Rotation, a2: Point|
            searched_before(r2, a2, r, a) ==> !#[trigger] self.placeable(a2, p.turned(r2))
    }

    /// Whether no turn of patch `p` can be placed anywhere on the board.
    pub open spec fn no_fit(self, p: Patch) -> bool {
        forall|r2: Rotation, a2: Point| !#[trigger] self.placeable(a2, p.turned(r2))
    }

    /// No two placed patches share a positive area.
    pub open spec fn disjoint(self) -> bool {
        forall|i: int, j: int|
            0 <= i < j < self.placements.len() ==> !overlap(
                #[trigger] self.placements[i].1,
                self.placements[i].0,
                #[trigger] self.placements[j].1,
                self.placements[j].0,
            )
    }

    /// Every placed patch lies on the board.
    pub open spec fn contained(self) -> bool {
        forall|i: int|
            0 <= i < self.placements.len() ==> self.fits_on_board(
                (#[trigger] self.placements[i]).0,
                self.placements[i].1,
            )
    }

    /// The shape shown at cell `(cx, cy)`: that of the first placement from
    /// index `k` on that covers the cell.
    pub open spec fn first_cover_from(self, k: int, cx: int, cy: int) -> Option<Shape>
        decreases self.placements.len() - k,
    {
        if k < 0 || k >= self.placements.len() {
            None
        } else if self.placements[k].1.covers(self.placements[k].0, cx, cy) {
            Some(self.placements[k].1.shape)
        } else {
            self.first_cover_from(k + 1, cx, cy)
        }
    }

    /// The shape shown at cell `(cx, cy)`, or `None` where the cell is blank.
    pub open spec fn cell(self, cx: int, cy: int) -> Option<Shape> {
        self.first_cover_from(0, cx, cy)
    }
}

/// Whether candidate `(r1, a1)` comes before `(r2, a2)` in the search order of
/// `fit`: rotations from 0 to 270 degrees, then anchors row by row from the
/// lowest y, each row from the lowest x.
pub open spec fn searched_before(r1: Rotation, a1: Point, r2: Rotation, a2: Point) -> bool {
    quarter_turns(r1) < quarter_turns(r2) || (quarter_turns(r1) == quarter_turns(r2) && (a1.y
        < a2.y || (a1.y == a2.y && a1.x < a2.x)))
}

/// A rectangular board and the patches placed on it, each with its anchor, in
/// the order they were placed. Patches turned differently may share an anchor.
#[derive(Debug)]
pub struct Board {
    width: u8,
    height: u8,
    placements: Vec<(Point, Patch)>,
}

/// A refused placement leaves the board as it was, so trying it again is
/// refused with the same error and again changes nothing.
pub proof fn lemma_rejection_repeats(b: BoardView, a: Point, p: Patch)
    requires
        b.place_outcome(a, p) is Err,
    ensures
        b.after_place(a, p) == b,
        b.after_place(a, p).place_outcome(a, p) == b.place_outcome(a, p),
        b.after_place(a, p).after_place(a, p) == b,
{
}

/// A patch that does not lie on the board is refused, and the board keeps
/// as many placements as it had.
pub proof fn lemma_out_of_bounds_refused(b: BoardView, a: Point, p: Patch)
    requires
        !b.fits_on_board(a, p),
    ensures
        b.place_outcome(a, p) is Err,
        b.after_place(a, p).placements.len() == b.placements.len(),
{
}

/// The board after trying each placement of `attempts` in turn.
pub open spec fn after_attempts(b: BoardView, attempts: Seq<(Point, Patch)>) -> BoardView
    decreases attempts.len(),
{
    if attempts.len() == 0 {
        b
    } else {
        let last = attempts[attempts.len() - 1];
        after_attempts(b, attempts.drop_last()).after_place(last.0, last.1)
    }
}

/// Whatever placements are tried, in whatever order, on an empty board, no
/// two patches that end up on it share a positive area.
pub proof fn lemma_placements_stay_disjoint(w: nat, h: nat, attempts: Seq<(Point, Patch)>)
    ensures
        after_attempts(BoardView { width: w, height: h, placements: Seq::empty() }, attempts).disjoint(),
    decreases attempts.len(),
{
    if attempts.len() > 0 {
        let last = attempts[attempts.len() - 1];
        lemma_placements_stay_disjoint(w, h, attempts.drop_last());
        let before = after_attempts(BoardView { width: w, height: h, placements: Seq::empty() }, attempts.drop_last());
        lemma_place_keeps_disjoint(before, last.0, last.1);
    }
}

/// Trying one placement keeps every pair of placed patches apart.
pub proof fn lemma_place_keeps_disjoint(b: BoardView, a: Point, p: Patch)
    requires
        b.disjoint(),
    ensures
        b.after_place(a, p).disjoint(),
{
    if b.placeable(a, p) {
        let after = b.with_placement(a, p);
        assert forall|i: int, j: int| 0 <= i < j < after.placements.len() implies !overlap(
            #[trigger] after.placements[i].1,
            after.placements[i].0,
            #[trigger] after.placements[j].1,
            after.placements[j].0,
        ) by {
            if j == b.placements.len() {
                assert(after.placements[i] == b.placements[i]);
                assert(!overlap(b.placements[i].1, b.placements[i].0, p, a));
            } else {
                assert(after.placements[i] == b.placements[i]);
                assert(after.placements[j] == b.placements[j]);
            }
        }
    }
}

/// A placed patch lies on the board only if its anchor does.
pub proof fn lemma_fitting_anchor_on_board(b: BoardView, a: Point, p: Patch)
    requires
        b.fits_on_board(a, p),
    ensures
        a.x <= b.width,
        a.y <= b.height,
{
    lemma_outline_well_formed(p);
    let ring = translate(p.outline(), a.x as int, a.y as int);
    assert(ring[0] == (a.x as int, a.y as int));
}

proof fn lemma_first_cover_from(b: BoardView, k: int, cx: int, cy: int)
    requires
        0 <= k <= b.placements.len(),
    ensures
        b.first_cover_from(k, cx, cy) is Some <==> exists|i: int|
            k <= i < b.placements.len() && (#[trigger] b.placements[i]).1.covers(b.placements[i].0, cx, cy),
        b.first_cover_from(k, cx, cy) matches Some(s) ==> exists|i: int|
            k <= i < b.placements.len() && (#[trigger] b.placements[i]).1.covers(b.placements[i].0, cx, cy)
                && b.placements[i].1.shape == s,
    decreases b.placements.len() - k,
{
    if k < b.placements.len() {
        lemma_first_cover_from(b, k + 1, cx, cy);
    }
}

/// A cell is shown occupied exactly when some placement covers its center,
/// and the shape it shows is the shape of such a placement.
pub proof fn lemma_render_consistent(b: BoardView, cx: int, cy: int)
    ensures
        b.cell(cx, cy) is Some <==> exists|i: int|
            0 <= i < b.placements.len() && (#[trigger] b.placements[i]).1.covers(b.placements[i].0, cx, cy),
        b.cell(cx, cy) matches Some(s) ==> exists|i: int|
            0 <= i < b.placements.len() && (#[trigger] b.placements[i]).1.covers(b.placements[i].0, cx, cy)
                && b.placements[i].1.shape == s,
{
    lemma_first_cover_from(b, 0, cx, cy);
}

impl View for Board {
    type V = BoardView;

    closed spec fn view(&self) -> BoardView {
        BoardView {
            width: self.width as nat,
            height: self.height as nat,
            placements: self.placements@,
        }
    }
}

impl Board {
    #[verifier::type_invariant]
    spec fn well_formed(&self) -> bool {
        &&& self@.disjoint()
        &&& self@.contained()
    }

    /// An empty board of the given size.
    pub fn new(width: u8, height: u8) -> (b: Board)
        ensures
            b@.width == width,
            b@.height == height,
            b@.placements.len() == 0,
            b@.disjoint(),
    {
        Board { width, height, placements: Vec::new() }
    }

    /// The width of the board.
    pub fn width(&self) -> (w: u8)
        ensures
            w == self@.width,
    {
        self.width
    }

    /// The height of the board.
    pub fn height(&self) -> (h: u8)
        ensures
            h == self@.height,
    {
        self.height
    }

    /// How many patches lie on the board.
    pub fn placement_count(&self) -> (n: usize)
        ensures
            n == self@.placements.len(),
    {
        self.placements.len()
    }

    /// Places the patch at `point` if it lies on the board and shares no area
    /// with a placed patch; otherwise reports why and changes nothing.
    pub fn place(&mut self, point: Point, patch: Patch) -> (r: Result<(), PlacementError>)
        ensures
            r == old(self)@.place_outcome(point, patch),
            final(self)@ == old(self)@.after_place(point, patch),
            r is Ok ==> final(self)@ == old(self)@.with_placement(point, patch),
            r is Err ==> final(self)@ == old(self)@,
            !old(self)@.fits_on_board(point, patch) ==> r is Err && final(self)@.placements.len()
                == old(self)@.placements.len(),
            final(self)@.disjoint(),
            final(self)@.contained(),
    {
        proof {
            use_type_invariant(&*self);
        }
        let outcome = self.check(point, &patch);
        if outcome.is_ok() {
            let ghost before = self@;
            let mut placements: Vec<(Point, Patch)> = Vec::new();
            std::mem::swap(&mut placements, &mut self.placements);
            assert(placements@ == before.placements);
            placements.push((point, patch));
            assert(placements@ == before.placements.push((point, patch)));
            self.placements = placements;
        }
        proof {
            use_type_invariant(&*self);
        }
        outcome
    }

    /// Finds an anchor and a rotation at which the patch can be placed,
    /// without placing it. Rotations are tried from 0 to 270 degrees; for
    /// each, anchors row by row from the lowest y, each row from the lowest x.
    /// The first candidate that `place` would accept is returned.
    pub fn fit(&self, patch: &Patch) -> (r: Option<(Point, Rotation)>)
        ensures
            match r {
                Some((a, rot)) => self@.first_fit(*patch, a, rot),
                None => self@.no_fit(*patch),
            },
    {
        let w = self.width as u16;
        let h = self.height as u16;
        let mut t: u8 = 0;
        while t < 4
            invariant
                t <= 4,
                w == self@.width,
                h == self@.height,
                forall|r2: Rotation, a2: Point|
                    quarter_turns(r2) < t ==> !#[trigger] self@.placeable(a2, patch.turned(r2)),
            decreases 4 - t,
        {
            let rot = Rotation::from_turns(t);
            let candidate = patch.rotated(rot);
            let mut y: u16 = 0;
            while y <= h
                invariant
                    t < 4,
                    y <= h + 1,
                    w == self@.width,
                    h == self@.height,
                    quarter_turns(rot) == t,
                    candidate == patch.turned(rot),
                    forall|r2: Rotation, a2: Point|
                        quarter_turns(r2) < t ==> !#[trigger] self@.placeable(a2, patch.turned(r2)),
                    forall|a2: Point| a2.y < y ==> !#[trigger] self@.placeable(a2, candidate),
                decreases h + 1 - y,
            {
                let mut x: u16 = 0;
                while x <= w
                    invariant
                        t < 4,
                        y <= h,
                        x <= w + 1,
                        w == self@.width,
                        h == self@.height,
                        quarter_turns(rot) == t,
                        candidate == patch.turned(rot),
                        forall|r2: Rotation, a2: Point|
                            quarter_turns(r2) < t ==> !#[trigger] self@.placeable(a2, patch.turned(r2)),
                        forall|a2: Point|
                            a2.y < y || (a2.y == y && a2.x < x) ==> !#[trigger] self@.placeable(a2, candidate),
                    decreases w + 1 - x,
                {
                    let a = Point { x: x as u8, y: y as u8 };
                    if self.check(a, &candidate).is_ok() {
                        proof {
                            assert forall|r2: Rotation, a2: Point|
                                searched_before(r2, a2, rot, a) implies !#[trigger] self@.placeable(a2, patch.turned(r2)) by {
                                if quarter_turns(r2) == t {
                                    assert(r2 == rot);
                                }
                            }
                        }
                        return Some((a, rot));
                    }
                    x = x + 1;
                }
                proof {
                    assert forall|a2: Point| a2.y < y + 1 implies !#[trigger] self@.placeable(a2, candidate) by {
                        if self@.placeable(a2, candidate) {
                            lemma_fitting_anchor_on_board(self@, a2, candidate);
                        }
                    }
                }
                y = y + 1;
            }
            proof {
                assert forall|r2: Rotation, a2: Point|
                    quarter_turns(r2) < t + 1 implies !#[trigger] self@.placeable(a2, patch.turned(r2)) by {
                    if quarter_turns(r2) == t {
                        assert(r2 == rot);
                        if self@.placeable(a2, candidate) {
                            lemma_fitting_anchor_on_board(self@, a2, candidate);
                        }
                    }
                }
            }
            t = t + 1;
        }
        None
    }

    /// The shape shown at cell `(cx, cy)`: that of the first placement that covers it.
    fn cell_owner(&self, cx: u8, cy: u8) -> (r: Option<Shape>)
        ensures
            r == self@.cell(cx as int, cy as int),
    {
        let mut k: usize = 0;
        while k < self.placements.len()
            invariant
                k <= self@.placements.len(),
                self@.first_cover_from(0, cx as int, cy as int) == self@.first_cover_from(
                    k as int,
                    cx as int,
                    cy as int,
                ),
            decreases self@.placements.len() - k,
        {
            let (point, patch) = self.placements[k];
            assert(self@.placements[k as int] == (point, patch));
            if patch.covers_cell(point, cx as i64, cy as i64) {
                return Some(patch.shape);
            }
            k = k + 1;
        }
        None
    }

    /// The occupancy grid, top row first: row `i` shows the cells at
    /// `y = height - 1 - i`, each cell sampled at its center.
    pub fn render(&self) -> (grid: Vec<Vec<Option<Shape>>>)
        ensures
            grid@.len() == self@.height,
            forall|i: int| 0 <= i < grid@.len() ==> (#[trigger] grid@[i])@.len() == self@.width,
            forall|i: int, x: int|
                0 <= i < self@.height && 0 <= x < self@.width ==> #[trigger] grid@[i]@[x]
                    == self@.cell(x, self@.height - 1 - i),
    {
        let mut rows: Vec<Vec<Option<Shape>>> = Vec::new();
        let mut i: u8 = 0;
        while i < self.height
            invariant
                i <= self@.height,
                rows@.len() == i,
                forall|j: int| 0 <= j < i ==> (#[trigger] rows@[j])@.len() == self@.width,
                forall|j: int, x: int|
                    0 <= j < i && 0 <= x < self@.width ==> #[trigger] rows@[j]@[x] == self@.cell(
                        x,
                        self@.height - 1 - j,
                    ),
            decreases self@.height - i,
        {
            let y = self.height - 1 - i;
            let mut row: Vec<Option<Shape>> = Vec::new();
            let mut x: u8 = 0;
            while x < self.width
                invariant
                    x <= self@.width,
                    y == self@.height - 1 - i,
                    row@.len() == x,
                    forall|c: int| 0 <= c < x ==> #[trigger] row@[c] == self@.cell(c, y as int),
                decreases self@.width - x,
            {
                row.push(self.cell_owner(x, y));
                x = x + 1;
            }
            rows.push(row);
            i = i + 1;
        }
        rows
    }

    /// Whether every vertex of the placed outline lies on the board.
    fn fits_on_board(&self, point: Point, patch: &Patch) -> (r: bool)
        ensures
            r == self@.fits_on_board(point, *patch),
    {
        let geometry = patch.relative_geometry(&point);
        let ghost ring = translate(patch.outline(), point.x as int, point.y as int);
        let w = self.width as i64;
        let h = self.height as i64;
        let mut k: usize = 0;
        while k < geometry.exterior.len()
            invariant
                ring == translate(patch.outline(), point.x as int, point.y as int),
                geometry@ == ring,
                w == self@.width,
                h == self@.height,
                k <= geometry.exterior@.len(),
                forall|i: int| 0 <= i < k ==> 0 <= #[trigger] ring[i].0 <= w && 0 <= ring[i].1 <= h,
            decreases geometry.exterior@.len() - k,
        {
            let (x, y) = geometry.exterior[k];
            assert(ring[k as int] == (x as int, y as int));
            if x < 0 || x > w || y < 0 || y > h {
                assert(!(0 <= ring[k as int].0 <= w && 0 <= ring[k as int].1 <= h));
                return false;
            }
            k = k + 1;
        }
        true
    }

    /// Whether the two placed patches cover a common cell.
    fn overlapping(p: &Patch, a: Point, q: &Patch, b: Point) -> (r: bool)
        ensures
            r == overlap(*p, a, *q, b),
    {
        let pg = p.relative_geometry(&a);
        let qg = q.relative_geometry(&b);
        let bx = b.x as i64;
        let by = b.y as i64;
        let mut dx: i64 = -SPAN;
        while dx < SPAN
            invariant
                -SPAN <= dx <= SPAN,
                bx == b.x,
                by == b.y,
                pg@ == translate(p.outline(), a.x as int, a.y as int),
                qg@ == translate(q.outline(), b.x as int, b.y as int),
                forall|i: int|
                    0 <= i < pg.exterior@.len() ==> -COORD_LIMIT <= #[trigger] pg.exterior@[i].0
                        <= COORD_LIMIT && -COORD_LIMIT <= pg.exterior@[i].1 <= COORD_LIMIT,
                forall|i: int|
                    0 <= i < qg.exterior@.len() ==> -COORD_LIMIT <= #[trigger] qg.exterior@[i].0
                        <= COORD_LIMIT && -COORD_LIMIT <= qg.exterior@[i].1 <= COORD_LIMIT,
                forall|cx: int, cy: int|
                    b.x - SPAN <= cx < b.x + dx && b.y - SPAN <= cy < b.y + SPAN ==> !(
                    #[trigger] p.covers(a, cx, cy) && #[trigger] q.covers(b, cx, cy)),
            decreases SPAN - dx,
        {
            let mut dy: i64 = -SPAN;
            while dy < SPAN
                invariant
                    -SPAN <= dx < SPAN,
                    -SPAN <= dy <= SPAN,
                    bx == b.x,
                    by == b.y,
                    pg@ == translate(p.outline(), a.x as int, a.y as int),
                    qg@ == translate(q.outline(), b.x as int, b.y as int),
                    forall|i: int|
                        0 <= i < pg.exterior@.len() ==> -COORD_LIMIT <= #[trigger] pg.exterior@[i].0
                            <= COORD_LIMIT && -COORD_LIMIT <= pg.exterior@[i].1 <= COORD_LIMIT,
                    forall|i: int|
                        0 <= i < qg.exterior@.len() ==> -COORD_LIMIT <= #[trigger] qg.exterior@[i].0
                            <= COORD_LIMIT && -COORD_LIMIT <= qg.exterior@[i].1 <= COORD_LIMIT,
                    forall|cx: int, cy: int|
                        b.x - SPAN <= cx < b.x + dx && b.y - SPAN <= cy < b.y + SPAN ==> !(
                        #[trigger] p.covers(a, cx, cy) && #[trigger] q.covers(b, cx, cy)),
                    forall|cy: int|
                        b.y - SPAN <= cy < b.y + dy ==> !(#[trigger] p.covers(a, b.x + dx, cy)
                            && q.covers(b, b.x + dx, cy)),
                decreases SPAN - dy,
            {
                let cx = bx + dx;
                let cy = by + dy;
                proof {
                    lemma_relative_covers(*p, a, cx as int, cy as int);
                    lemma_relative_covers(*q, b, cx as int, cy as int);
                }
                if holds_cell(&pg, cx, cy) && holds_cell(&qg, cx, cy) {
                    return true;
                }
                dy = dy + 1;
            }
            dx = dx + 1;
        }
        proof {
            assert forall|cx: int, cy: int| !(#[trigger] p.covers(a, cx, cy) && #[trigger] q.covers(b, cx, cy)) by {
                if q.covers(b, cx, cy) {
                    lemma_outline_well_formed(*q);
                    lemma_covered_cell_in_span(q.outline(), SPAN as int, cx - b.x, cy - b.y);
                }
            }
        }
        false
    }

    /// Decides whether the patch can be placed at `point`, without placing it.
    pub fn check(&self, point: Point, patch: &Patch) -> (r: Result<(), PlacementError>)
        ensures
            r == self@.place_outcome(point, *patch),
    {
        if !self.fits_on_board(point, patch) {
            return Err(PlacementError { point, shape: patch.shape, reason: PlacementFailure::OutOfBounds });
        }
        let mut k: usize = 0;
        while k < self.placements.len()
            invariant
                self@.fits_on_board(point, *patch),
                k <= self@.placements.len(),
                forall|i: int| 0 <= i < k ==> !overlap(
                    (#[trigger] self@.placements[i]).1,
                    self@.placements[i].0,
                    *patch,
                    point,
                ),
            decreases self@.placements.len() - k,
        {
            let (epoint, epatch) = self.placements[k];
            assert(self@.placements[k as int] == (epoint, epatch));
            if Board::overlapping(&epatch, epoint, patch, point) {
                return Err(PlacementError { point, shape: patch.shape, reason: PlacementFailure::Overlap });
            }
            k = k + 1;
        }
        Ok(())
    }
}

impl Default for Board {
    /// An empty board of nine by nine cells.
    fn default() -> (b: Board)
        ensures
            b@.width == 9,
            b@.height == 9,
            b@.placements.len() == 0,
            b@.disjoint(),
    {
        Board::new(9, 9)
    }
}

} // verus!
