//! Placement engine for a patch-quilting board game: polyomino patches are
//! placed on a rectangular board so that no two of them share any area.

pub mod geometry;
pub mod patch;
pub mod shape;

pub use geometry::{Point, Polygon, Rotation};
pub use patch::{Patch, PatchCircle};
pub use shape::Shape;
pub mod board;

pub use board::{Board, BoardView, PlacementError, PlacementFailure};
pub mod time;

pub use time::{TimeTrack, Token};
pub mod game;

pub use game::Game;
