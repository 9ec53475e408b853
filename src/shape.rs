//! The catalog of patch shapes: their outlines, button yields and sampling.

use vstd::prelude::*;

use crate::geometry::{bounded, closed, rectilinear, Polygon};

verus! {

/// Every coordinate of a catalog outline lies in `[-SPAN, SPAN]`, in every rotation.
pub const SPAN: i64 = 5;

/// A polyomino of the catalog.
#[derive(Clone, Copy, Debug, PartialEq, Eq, Hash, Structural)]
pub enum Shape {
    Start,
    T,
    L,
    I,
    U,
    SpaceInvader,
    LongPlus,
    FatPlus,
    LongL,
    BlueL,
    Step,
    LongT,
    LongI,
    HalfCross,
    StripedStep,
}

/// The outline of a shape in its own coordinates: a closed ring whose footprint
/// touches the origin from above and the right, starting at the origin.
pub open spec fn shape_ring(s: Shape) -> Seq<(int, int)> {
    match s {
        Shape::Start => seq![(0int, 0int), (0int, 1int), (2int, 1int), (2int, 0int), (0int, 0int)],
        Shape::T => seq![(0int, 0int), (0int, 2int), (-1int, 2int), (-1int, 3int), (2int, 3int), (2int, 2int), (1int, 2int), (1int, 0int), (0int, 0int)],
        Shape::L => seq![(0int, 0int), (0int, 3int), (1int, 3int), (1int, 1int), (2int, 1int), (2int, 0int), (0int, 0int)],
        Shape::I => seq![(0int, 0int), (0int, 3int), (1int, 3int), (1int, 0int), (0int, 0int)],
        Shape::U => seq![(0int, 0int), (0int, 2int), (1int, 2int), (1int, 1int), (2int, 1int), (2int, 2int), (3int, 2int), (3int, 0int), (0int, 0int)],
        Shape::SpaceInvader => seq![(0int, 0int), (0int, 2int), (1int, 2int), (1int, 3int), (2int, 3int), (2int, 2int), (3int, 2int), (3int, 0int), (2int, 0int), (2int, 1int), (1int, 1int), (1int, 0int), (0int, 0int)],
        Shape::LongPlus => seq![(0int, 0int), (0int, 2int), (-1int, 2int), (-1int, 3int), (0int, 3int), (0int, 5int), (1int, 5int), (1int, 3int), (2int, 3int), (2int, 2int), (1int, 2int), (1int, 0int), (0int, 0int)],
        Shape::FatPlus => seq![(0int, 0int), (0int, 1int), (-1int, 1int), (-1int, 3int), (0int, 3int), (0int, 4int), (1int, 4int), (1int, 3int), (2int, 3int), (2int, 1int), (1int, 1int), (1int, 0int), (0int, 0int)],
        Shape::LongL => seq![(0int, 0int), (0int, 4int), (1int, 4int), (1int, 1int), (2int, 1int), (2int, 0int), (0int, 0int)],
        Shape::BlueL => seq![(0int, 0int), (0int, 3int), (1int, 3int), (1int, 1int), (2int, 1int), (2int, 0int), (0int, 0int)],
        Shape::Step => seq![(0int, 0int), (0int, 2int), (1int, 2int), (1int, 3int), (2int, 3int), (2int, 1int), (1int, 1int), (1int, 0int), (0int, 0int)],
        Shape::LongT => seq![(0int, 0int), (0int, 3int), (-1int, 3int), (-1int, 4int), (2int, 4int), (2int, 3int), (1int, 3int), (1int, 0int), (0int, 0int)],
        Shape::LongI => seq![(0int, 0int), (0int, 4int), (1int, 4int), (1int, 0int), (0int, 0int)],
        Shape::HalfCross => seq![(0int, 0int), (0int, 2int), (-1int, 2int), (-1int, 3int), (0int, 3int), (0int, 4int), (1int, 4int), (1int, 3int), (2int, 3int), (2int, 2int), (1int, 2int), (1int, 0int), (0int, 0int)],
        Shape::StripedStep => seq![(0int, 0int), (0int, 2int), (1int, 2int), (1int, 3int), (2int, 3int), (2int, 1int), (1int, 1int), (1int, 0int), (0int, 0int)],
    }
}

/// The buttons a shape yields.
pub open spec fn shape_buttons(s: Shape) -> nat {
    match s {
        Shape::Start => 0,
        Shape::T => 2,
        Shape::L => 1,
        Shape::I => 0,
        Shape::U => 0,
        Shape::SpaceInvader => 2,
        Shape::LongPlus => 1,
        Shape::FatPlus => 1,
        Shape::LongL => 2,
        Shape::BlueL => 2,
        Shape::Step => 1,
        Shape::LongT => 2,
        Shape::LongI => 1,
        Shape::HalfCross => 1,
        Shape::StripedStep => 3,
    }
}

/// The shape that a sampled index stands for; every index from the last one up
/// stands for the last shape.
pub open spec fn shape_at(i: int) -> Shape {
    if i == 0 {
        Shape::Start
    }     else if i == 1 {
        Shape::T
    }     else if i == 2 {
        Shape::L
    }     else if i == 3 {
        Shape::I
    }     else if i == 4 {
        Shape::U
    }     else if i == 5 {
        Shape::SpaceInvader
    }     else if i == 6 {
        Shape::LongPlus
    }     else if i == 7 {
        Shape::FatPlus
    }     else if i == 8 {
        Shape::LongL
    }     else if i == 9 {
        Shape::BlueL
    }     else if i == 10 {
        Shape::Step
    }     else if i == 11 {
        Shape::LongT
    }     else if i == 12 {
        Shape::LongI
    }     else if i == 13 {
        Shape::HalfCross
    } else {
        Shape::StripedStep
    }
}

impl Shape {
    /// How many shapes the catalog holds.
    pub const NUM: u8 = 15;

    /// Returns the number of buttons on a shape.
    pub fn buttons(&self) -> (b: usize)
        ensures
            b as nat == shape_buttons(*self),
    {
        match self {
            Shape::Start => 0,
            Shape::T => 2,
            Shape::L => 1,
            Shape::I => 0,
            Shape::U => 0,
            Shape::SpaceInvader => 2,
            Shape::LongPlus => 1,
            Shape::FatPlus => 1,
            Shape::LongL => 2,
            Shape::BlueL => 2,
            Shape::Step => 1,
            Shape::LongT => 2,
            Shape::LongI => 1,
            Shape::HalfCross => 1,
            Shape::StripedStep => 3,
        }
    }

    /// The shape that a sampled index in `0..NUM` stands for.
    pub fn from_index(i: u8) -> (s: Shape)
        ensures
            s == shape_at(i as int),
    {
        match i {
            0 => Shape::Start,
            1 => Shape::T,
            2 => Shape::L,
            3 => Shape::I,
            4 => Shape::U,
            5 => Shape::SpaceInvader,
            6 => Shape::LongPlus,
            7 => Shape::FatPlus,
            8 => Shape::LongL,
            9 => Shape::BlueL,
            10 => Shape::Step,
            11 => Shape::LongT,
            12 => Shape::LongI,
            13 => Shape::HalfCross,
            _ => Shape::StripedStep,
        }
    }

    /// Draws a shape of the catalog at random.
    pub fn random() -> (s: Shape)
        ensures
            exists|i: int| 0 <= i < Shape::NUM && s == shape_at(i),
    {
        let i = random_below(Shape::NUM);
        Shape::from_index(i)
    }

    /// Returns the outline of the shape in its own coordinates.
    pub fn geometry(&self) -> (p: Polygon)
        ensures
            p@ == shape_ring(*self),
    {
        let exterior: Vec<(i64, i64)> = match self {
            Shape::Start => vec![(0, 0), (0, 1), (2, 1), (2, 0), (0, 0)],
            Shape::T => vec![(0, 0), (0, 2), (-1, 2), (-1, 3), (2, 3), (2, 2), (1, 2), (1, 0), (0, 0)],
            Shape::L => vec![(0, 0), (0, 3), (1, 3), (1, 1), (2, 1), (2, 0), (0, 0)],
            Shape::I => vec![(0, 0), (0, 3), (1, 3), (1, 0), (0, 0)],
            Shape::U => vec![(0, 0), (0, 2), (1, 2), (1, 1), (2, 1), (2, 2), (3, 2), (3, 0), (0, 0)],
            Shape::SpaceInvader => vec![(0, 0), (0, 2), (1, 2), (1, 3), (2, 3), (2, 2), (3, 2), (3, 0), (2, 0), (2, 1), (1, 1), (1, 0), (0, 0)],
            Shape::LongPlus => vec![(0, 0), (0, 2), (-1, 2), (-1, 3), (0, 3), (0, 5), (1, 5), (1, 3), (2, 3), (2, 2), (1, 2), (1, 0), (0, 0)],
            Shape::FatPlus => vec![(0, 0), (0, 1), (-1, 1), (-1, 3), (0, 3), (0, 4), (1, 4), (1, 3), (2, 3), (2, 1), (1, 1), (1, 0), (0, 0)],
            Shape::LongL => vec![(0, 0), (0, 4), (1, 4), (1, 1), (2, 1), (2, 0), (0, 0)],
            Shape::BlueL => vec![(0, 0), (0, 3), (1, 3), (1, 1), (2, 1), (2, 0), (0, 0)],
            Shape::Step => vec![(0, 0), (0, 2), (1, 2), (1, 3), (2, 3), (2, 1), (1, 1), (1, 0), (0, 0)],
            Shape::LongT => vec![(0, 0), (0, 3), (-1, 3), (-1, 4), (2, 4), (2, 3), (1, 3), (1, 0), (0, 0)],
            Shape::LongI => vec![(0, 0), (0, 4), (1, 4), (1, 0), (0, 0)],
            Shape::HalfCross => vec![(0, 0), (0, 2), (-1, 2), (-1, 3), (0, 3), (0, 4), (1, 4), (1, 3), (2, 3), (2, 2), (1, 2), (1, 0), (0, 0)],
            Shape::StripedStep => vec![(0, 0), (0, 2), (1, 2), (1, 3), (2, 3), (2, 1), (1, 1), (1, 0), (0, 0)],
        };
        let p = Polygon { exterior };
        assert(p@ =~= shape_ring(*self));
        p
    }
}

/// Relies on rand::Rng::gen_range on rand::thread_rng: a number drawn from
/// `0..n`; the call panics on an empty range.
#[verifier::external_body]
fn random_below(n: u8) -> (r: u8)
    requires
        n > 0,
    ensures
        r < n,
{
    rand::Rng::gen_range(&mut rand::thread_rng(), 0..n)
}

/// Every outline of the catalog is a closed rectilinear ring that starts at
/// the origin and stays within `[-SPAN, SPAN]`.
pub proof fn lemma_shape_ring_well_formed(s: Shape)
    ensures
        closed(shape_ring(s)),
        rectilinear(shape_ring(s)),
        bounded(shape_ring(s), SPAN as int),
        shape_ring(s)[0] == (0int, 0int),
{
}

} // verus!
