use quilting::{Board, Patch, PlacementError, PlacementFailure, Point, Rotation, Shape};

const ALL_SHAPES: [Shape; 15] = [
    Shape::Start,
    Shape::T,
    Shape::L,
    Shape::I,
    Shape::U,
    Shape::SpaceInvader,
    Shape::LongPlus,
    Shape::FatPlus,
    Shape::LongL,
    Shape::BlueL,
    Shape::Step,
    Shape::LongT,
    Shape::LongI,
    Shape::HalfCross,
    Shape::StripedStep,
];

const ALL_ROTATIONS: [Rotation; 4] =
    [Rotation::Deg0, Rotation::Deg90, Rotation::Deg180, Rotation::Deg270];

/// The grid cell at board coordinates `(x, y)`.
fn cell(board: &Board, x: usize, y: usize) -> Option<Shape> {
    let grid = board.render();
    let h = board.height() as usize;
    grid[h - 1 - y][x]
}

fn covered_cells(patch: &Patch, anchor: Point) -> Vec<(i64, i64)> {
    let mut cells = Vec::new();
    for cx in -10..270 {
        for cy in -10..270 {
            if patch.covers_cell(anchor, cx, cy) {
                cells.push((cx, cy));
            }
        }
    }
    cells
}

#[test]
fn start_on_empty_board_fills_two_cells() {
    let mut board = Board::default();
    assert_eq!(board.place(Point::new(0, 0), Patch::from_shape(Shape::Start)), Ok(()));
    assert_eq!(cell(&board, 0, 0), Some(Shape::Start));
    assert_eq!(cell(&board, 1, 0), Some(Shape::Start));
    assert_eq!(cell(&board, 2, 0), None);
    assert_eq!(cell(&board, 0, 1), None);
    assert_eq!(board.placement_count(), 1);
}

#[test]
fn second_start_on_same_anchor_overlaps() {
    let mut board = Board::default();
    board.place(Point::new(0, 0), Patch::from_shape(Shape::Start)).unwrap();
    let r = board.place(Point::new(0, 0), Patch::from_shape(Shape::Start));
    assert_eq!(
        r,
        Err(PlacementError {
            point: Point::new(0, 0),
            shape: Shape::Start,
            reason: PlacementFailure::Overlap
        })
    );
    assert_eq!(board.placement_count(), 1);
}

#[test]
fn edge_touching_ell_is_accepted() {
    let mut board = Board::default();
    board.place(Point::new(0, 0), Patch::from_shape(Shape::Start)).unwrap();
    assert_eq!(board.place(Point::new(2, 0), Patch::from_shape(Shape::L)), Ok(()));
    assert_eq!(cell(&board, 1, 0), Some(Shape::Start));
    assert_eq!(cell(&board, 2, 0), Some(Shape::L));
    assert_eq!(cell(&board, 3, 0), Some(Shape::L));
    assert_eq!(cell(&board, 2, 2), Some(Shape::L));
    assert_eq!(cell(&board, 3, 1), None);
}

#[test]
fn corner_touching_is_accepted() {
    let mut board = Board::default();
    board.place(Point::new(0, 0), Patch::from_shape(Shape::Start)).unwrap();
    assert_eq!(board.place(Point::new(2, 1), Patch::from_shape(Shape::I)), Ok(()));
}

#[test]
fn footprint_past_right_edge_is_out_of_bounds() {
    let mut board = Board::default();
    let r = board.place(Point::new(8, 0), Patch::from_shape(Shape::Start));
    assert_eq!(
        r,
        Err(PlacementError {
            point: Point::new(8, 0),
            shape: Shape::Start,
            reason: PlacementFailure::OutOfBounds
        })
    );
    assert_eq!(board.placement_count(), 0);
    assert_eq!(board.place(Point::new(7, 0), Patch::from_shape(Shape::Start)), Ok(()));
}

#[test]
fn negative_local_coordinates_need_room_on_the_left() {
    let mut board = Board::default();
    let r = board.place(Point::new(0, 0), Patch::from_shape(Shape::T));
    assert_eq!(r.unwrap_err().reason, PlacementFailure::OutOfBounds);
    assert_eq!(board.place(Point::new(1, 0), Patch::from_shape(Shape::T)), Ok(()));
    assert_eq!(cell(&board, 0, 2), Some(Shape::T));
    assert_eq!(cell(&board, 2, 2), Some(Shape::T));
    assert_eq!(cell(&board, 0, 0), None);
}

#[test]
fn out_of_bounds_never_changes_the_board() {
    for shape in ALL_SHAPES {
        for rot in ALL_ROTATIONS {
            let mut board = Board::default();
            board.place(Point::new(4, 4), Patch::from_shape(Shape::Start)).unwrap();
            let patch = Patch::from_shape(shape).rotated(rot);
            for (x, y) in [(10u8, 0u8), (0, 10), (10, 10), (200, 3), (255, 255)] {
                let r = board.place(Point::new(x, y), patch);
                assert_eq!(r.unwrap_err().reason, PlacementFailure::OutOfBounds);
                assert_eq!(board.placement_count(), 1);
            }
        }
    }
}

#[test]
fn refused_placement_repeats_the_same_error() {
    let mut board = Board::default();
    board.place(Point::new(0, 0), Patch::from_shape(Shape::LongI)).unwrap();
    let patch = Patch::from_shape(Shape::Start);
    let first = board.place(Point::new(0, 2), patch);
    let grid_before = board.render();
    let second = board.place(Point::new(0, 2), patch);
    assert!(first.is_err());
    assert_eq!(first, second);
    assert_eq!(board.render(), grid_before);
    assert_eq!(board.placement_count(), 1);
}

#[test]
fn same_anchor_without_overlap_is_accepted() {
    let mut board = Board::default();
    board.place(Point::new(1, 3), Patch::from_shape(Shape::I)).unwrap();
    let turned = Patch::from_shape(Shape::I).rotated(Rotation::Deg180);
    assert_eq!(board.place(Point::new(1, 3), turned), Ok(()));
    assert_eq!(board.placement_count(), 2);
    assert_eq!(cell(&board, 1, 3), Some(Shape::I));
    assert_eq!(cell(&board, 0, 2), Some(Shape::I));
}

#[test]
fn fit_of_patch_larger_than_board_is_none() {
    let board = Board::new(3, 3);
    assert_eq!(board.fit(&Patch::from_shape(Shape::LongI)), None);
    let tiny = Board::new(1, 1);
    assert_eq!(tiny.fit(&Patch::from_shape(Shape::Start)), None);
}

#[test]
fn fit_on_empty_board_takes_first_candidate() {
    let board = Board::default();
    assert_eq!(
        board.fit(&Patch::from_shape(Shape::Start)),
        Some((Point::new(0, 0), Rotation::Deg0))
    );
    // The T reaches one column left of its anchor.
    assert_eq!(
        board.fit(&Patch::from_shape(Shape::T)),
        Some((Point::new(1, 0), Rotation::Deg0))
    );
}

#[test]
fn fit_turns_a_patch_when_only_a_turn_fits() {
    let board = Board::new(4, 1);
    let r = board.fit(&Patch::from_shape(Shape::LongI));
    // Turned by 90 degrees the bar runs from x = -1 to x = -4 to the left of its anchor.
    assert_eq!(r, Some((Point::new(4, 0), Rotation::Deg90)));
}

#[test]
fn fit_result_is_accepted_by_place() {
    let mut board = Board::default();
    board.place(Point::new(0, 0), Patch::from_shape(Shape::Start)).unwrap();
    board.place(Point::new(2, 0), Patch::from_shape(Shape::T)).unwrap();
    board.place(Point::new(0, 1), Patch::from_shape(Shape::L)).unwrap();
    for shape in ALL_SHAPES {
        let patch = Patch::from_shape(shape);
        let (anchor, rot) = board.fit(&patch).expect("room is left");
        let mut copy = Board::default();
        copy.place(Point::new(0, 0), Patch::from_shape(Shape::Start)).unwrap();
        copy.place(Point::new(2, 0), Patch::from_shape(Shape::T)).unwrap();
        copy.place(Point::new(0, 1), Patch::from_shape(Shape::L)).unwrap();
        assert_eq!(copy.place(anchor, patch.rotated(rot)), Ok(()));
    }
}

#[test]
fn fit_none_means_no_candidate_succeeds() {
    let mut board = Board::new(3, 3);
    board.place(Point::new(0, 0), Patch::from_shape(Shape::U)).unwrap();
    // The free cells form a T, which no turn of the L fills.
    let patch = Patch::from_shape(Shape::L);
    assert_eq!(board.fit(&patch), None);
    for rot in ALL_ROTATIONS {
        for x in 0..=255u8 {
            for y in 0..=255u8 {
                assert!(board.check(Point::new(x, y), &patch.rotated(rot)).is_err());
            }
        }
    }
}

#[test]
fn filling_the_board_keeps_patches_apart() {
    let mut board = Board::default();
    let mut placed: Vec<(Point, Patch)> = Vec::new();
    for round in 0..3 {
        for shape in ALL_SHAPES {
            let patch = Patch::from_shape(shape);
            if let Some((anchor, rot)) = board.fit(&patch) {
                let turned = patch.rotated(rot);
                assert_eq!(board.place(anchor, turned), Ok(()), "round {round}");
                placed.push((anchor, turned));
            }
        }
    }
    assert_eq!(board.placement_count(), placed.len());
    assert!(placed.len() > 5);
    let cells: Vec<Vec<(i64, i64)>> = placed.iter().map(|(a, p)| covered_cells(p, *a)).collect();
    for i in 0..cells.len() {
        for j in (i + 1)..cells.len() {
            for c in &cells[i] {
                assert!(!cells[j].contains(c));
            }
        }
    }
}

#[test]
fn render_matches_sample_points() {
    let mut board = Board::default();
    let placements = [
        (Point::new(0, 0), Patch::from_shape(Shape::Start)),
        (Point::new(2, 0), Patch::from_shape(Shape::T)),
        (Point::new(0, 1), Patch::from_shape(Shape::L)),
        (Point::new(6, 6), Patch::from_shape(Shape::FatPlus).rotated(Rotation::Deg90)),
    ];
    for (a, p) in placements {
        board.place(a, p).unwrap();
    }
    let grid = board.render();
    assert_eq!(grid.len(), 9);
    let mut occupied = 0;
    for (i, row) in grid.iter().enumerate() {
        assert_eq!(row.len(), 9);
        let y = 8 - i as i64;
        for (x, shown) in row.iter().enumerate() {
            let owner = placements
                .iter()
                .find(|(a, p)| p.covers_cell(*a, x as i64, y))
                .map(|(_, p)| p.shape());
            assert_eq!(*shown, owner);
            if shown.is_some() {
                occupied += 1;
            }
        }
    }
    assert_eq!(occupied, 2 + 5 + 4 + 8);
}

#[test]
fn rendered_rows_run_top_down() {
    let mut board = Board::new(2, 3);
    board.place(Point::new(0, 0), Patch::from_shape(Shape::I)).unwrap();
    let grid = board.render();
    assert_eq!(
        grid,
        vec![
            vec![Some(Shape::I), None],
            vec![Some(Shape::I), None],
            vec![Some(Shape::I), None]
        ]
    );
    let mut wide = Board::new(3, 2);
    wide.place(Point::new(1, 1), Patch::from_shape(Shape::Start)).unwrap();
    assert_eq!(
        wide.render(),
        vec![vec![None, Some(Shape::Start), Some(Shape::Start)], vec![None, None, None]]
    );
}

#[test]
fn board_dimensions() {
    let board = Board::default();
    assert_eq!((board.width(), board.height()), (9, 9));
    let board = Board::new(5, 7);
    assert_eq!((board.width(), board.height()), (5, 7));
    assert_eq!(board.render().len(), 7);
    assert_eq!(board.placement_count(), 0);
}
