use quilting::{Game, Patch, PatchCircle, Point, Rotation, Shape, TimeTrack, Token};

const ALL_SHAPES: [Shape; 15] = [
    Shape::Start,
    Shape::T,
    Shape::L,
    Shape::I,
    Shape::U,
    Shape::SpaceInvader,
    Shape::LongPlus,
    Shape::FatPlus,
    Shape::LongL,
    Shape::BlueL,
    Shape::Step,
    Shape::LongT,
    Shape::LongI,
    Shape::HalfCross,
    Shape::StripedStep,
];

/// Twice the signed area enclosed by a ring.
fn double_area(ring: &[(i64, i64)]) -> i64 {
    let mut sum = 0;
    for w in ring.windows(2) {
        sum += w[0].0 * w[1].1 - w[1].0 * w[0].1;
    }
    sum.abs()
}

#[test]
fn button_yields() {
    let buttons: Vec<usize> = ALL_SHAPES.iter().map(|s| s.buttons()).collect();
    assert_eq!(buttons, vec![0, 2, 1, 0, 0, 2, 1, 1, 2, 2, 1, 2, 1, 1, 3]);
}

#[test]
fn indices_map_to_catalog_order() {
    for (i, shape) in ALL_SHAPES.iter().enumerate() {
        assert_eq!(Shape::from_index(i as u8), *shape);
    }
    assert_eq!(Shape::from_index(200), Shape::StripedStep);
    assert_eq!(Shape::NUM as usize, ALL_SHAPES.len());
}

#[test]
fn random_shapes_vary() {
    let mut seen: Vec<Shape> = Vec::new();
    for _ in 0..300 {
        let s = Shape::random();
        if !seen.contains(&s) {
            seen.push(s);
        }
    }
    assert!(seen.len() > 3);
}

#[test]
fn start_outline() {
    assert_eq!(
        Shape::Start.geometry().exterior,
        vec![(0, 0), (0, 1), (2, 1), (2, 0), (0, 0)]
    );
}

#[test]
fn outlines_are_closed_and_cover_their_area() {
    for shape in ALL_SHAPES {
        let ring = shape.geometry().exterior;
        assert_eq!(ring.first(), ring.last());
        assert_eq!(ring[0], (0, 0));
        let patch = Patch::from_shape(shape);
        let mut cells = 0;
        for cx in -6..6 {
            for cy in -6..6 {
                if patch.covers_cell(Point::new(0, 0), cx, cy) {
                    cells += 1;
                }
            }
        }
        assert_eq!(2 * cells, double_area(&ring), "{shape:?}");
    }
}

#[test]
fn relative_geometry_moves_every_vertex() {
    let patch = Patch::from_shape(Shape::T);
    let ring = patch.relative_geometry(&Point::new(3, 4)).exterior;
    assert_eq!(
        ring,
        vec![(3, 4), (3, 6), (2, 6), (2, 7), (5, 7), (5, 6), (4, 6), (4, 4), (3, 4)]
    );
}

#[test]
fn rotations_turn_counter_clockwise() {
    let start = Patch::from_shape(Shape::Start);
    assert_eq!(
        start.rotated(Rotation::Deg90).geometry().exterior,
        vec![(0, 0), (-1, 0), (-1, 2), (0, 2), (0, 0)]
    );
    assert_eq!(
        start.rotated(Rotation::Deg180).geometry().exterior,
        vec![(0, 0), (0, -1), (-2, -1), (-2, 0), (0, 0)]
    );
    assert_eq!(
        start.rotated(Rotation::Deg270).geometry().exterior,
        vec![(0, 0), (1, 0), (1, -2), (0, -2), (0, 0)]
    );
}

#[test]
fn rotations_compose() {
    let p = Patch::from_shape(Shape::LongL);
    let twice = p.rotated(Rotation::Deg90).rotated(Rotation::Deg270);
    assert_eq!(twice.rotation(), Rotation::Deg0);
    assert_eq!(twice.geometry().exterior, p.geometry().exterior);
    let three = p.rotated(Rotation::Deg180).rotated(Rotation::Deg90);
    assert_eq!(three.rotation(), Rotation::Deg270);
    assert_eq!(Rotation::Deg270.compose(Rotation::Deg180), Rotation::Deg90);
    assert_eq!(three.shape(), Shape::LongL);
}

#[test]
fn cover_is_sampled_at_cell_centers() {
    let patch = Patch::from_shape(Shape::Start);
    let a = Point::new(2, 5);
    assert!(patch.covers_cell(a, 2, 5));
    assert!(patch.covers_cell(a, 3, 5));
    assert!(!patch.covers_cell(a, 4, 5));
    assert!(!patch.covers_cell(a, 1, 5));
    assert!(!patch.covers_cell(a, 2, 6));
    assert!(!patch.covers_cell(a, 2, 4));
}

#[test]
fn patch_circle_is_full_of_unturned_patches() {
    let circle = PatchCircle::default();
    let next = circle.next(Shape::NUM as usize);
    assert_eq!(next.len(), 15);
    for (i, (index, patch)) in next.iter().enumerate() {
        assert_eq!(*index, i);
        assert_eq!(patch.rotation(), Rotation::Deg0);
    }
    assert_eq!(circle.next(3).len(), 3);
}

#[test]
fn time_track_layout() {
    let track = TimeTrack::for_players(2);
    assert_eq!(track.len(), 54);
    assert_eq!(track.token_count(0), 2);
    for p in [5, 11, 17, 23, 29, 35, 41, 47, 53, 20, 26, 32, 44, 50] {
        assert_eq!(track.token_count(p), 1, "square {p}");
    }
    for p in [1, 4, 6, 19, 21, 52] {
        assert_eq!(track.token_count(p), 0, "square {p}");
    }
}

#[test]
fn time_track_place_adds_a_token() {
    let mut track = TimeTrack::for_players(3);
    assert_eq!(track.token_count(0), 3);
    assert_eq!(track.place(Token::Time, 4), (4, 0));
    assert_eq!(track.token_count(4), 1);
    assert_eq!(track.place(Token::Button, 5), (5, 1));
    assert_eq!(track.token_count(5), 2);
    assert_eq!(track.place(Token::Time, 0), (0, 3));
    assert_eq!(track.len(), 54);
}

#[test]
fn new_game_offers_a_fitting_patch() {
    let mut game = Game::for_players(2);
    game.turn();
    let (anchor, patch) = game.pick_patch(0).expect("an empty board has room");
    let mut board = quilting::Board::default();
    // The first patch of the supply always fits an empty board, unturned at first.
    assert_eq!(
        board.fit(&Patch::from_shape(patch.shape())),
        Some((anchor, patch.rotation()))
    );
    assert_eq!(board.place(anchor, patch), Ok(()));
    let game = Game::default();
    drop(game);
}
