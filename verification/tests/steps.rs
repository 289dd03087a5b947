use tetris_bot::{Board, Location, Move, Orientation, Piece, Rotation, Spin};

fn empty_board() -> Board {
    Board {
        hold: None,
        queue: vec![Piece::T, Piece::I],
        combo: 0,
        back_to_back: false,
        board: [[None; 10]; 40],
    }
}

fn board_with(filled: &[(usize, usize)]) -> Board {
    let mut board = empty_board();
    for &(x, y) in filled {
        board.board[y][x] = Some('G');
    }
    board
}

fn pose(piece: Piece, orientation: Orientation, x: i8, y: i8) -> Location {
    Location { piece, orientation, x, y }
}

#[test]
fn walls_and_floor_are_occupied() {
    let board = empty_board();
    assert!(board.occupied(-1, 0));
    assert!(board.occupied(10, 0));
    assert!(board.occupied(0, -1));
    assert!(board.occupied(0, 40));
    assert!(board.occupied(i8::MIN, i8::MAX));
    assert!(!board.occupied(0, 0));
    assert!(!board.occupied(9, 39));
}

#[test]
fn filled_cells_are_occupied() {
    let board = board_with(&[(3, 7)]);
    assert!(board.occupied(3, 7));
    assert!(!board.occupied(7, 3));
    assert!(!board.occupied(3, 6));
}

#[test]
fn collision_looks_at_all_four_cells() {
    let board = board_with(&[(6, 0)]);
    // T flat on the floor covers (4,0) (5,0) (6,0) (5,1) at x = 5.
    assert!(board.collision(&pose(Piece::T, Orientation::North, 5, 0)));
    assert!(!board.collision(&pose(Piece::T, Orientation::North, 4, 0)));
    assert!(!board.collision(&pose(Piece::T, Orientation::North, 5, 1)));
    // Against the left wall.
    assert!(board.collision(&pose(Piece::T, Orientation::North, 0, 5)));
    assert!(!board.collision(&pose(Piece::T, Orientation::East, 0, 5)));
    // Far outside the grid, where the coordinates of the cells would not fit.
    assert!(board.collision(&pose(Piece::I, Orientation::North, 127, 127)));
    assert!(board.collision(&pose(Piece::I, Orientation::South, -128, -128)));
}

#[test]
fn cells_of_a_pose_are_its_offsets_moved() {
    let cells = pose(Piece::L, Orientation::North, 4, 7).cells();
    assert_eq!(cells, [(4, 7), (3, 7), (5, 7), (5, 8)]);
}

#[test]
fn a_piece_drops_to_the_floor_or_onto_the_stack() {
    let board = board_with(&[(5, 3)]);
    assert_eq!(pose(Piece::T, Orientation::North, 5, 19).drop_y(&board), 4);
    assert_eq!(pose(Piece::T, Orientation::North, 2, 19).drop_y(&board), 0);
    assert_eq!(pose(Piece::I, Orientation::East, 2, 19).drop_y(&board), 2);
    // A resting piece stays.
    assert_eq!(pose(Piece::T, Orientation::North, 2, 0).drop_y(&board), 0);
    // A pose that collides is taken to rest one row up.
    assert_eq!(pose(Piece::T, Orientation::North, 5, 3).drop_y(&board), 4);
}

#[test]
fn shift_moves_by_one_column_unless_blocked() {
    let board = board_with(&[(7, 0)]);
    let start = pose(Piece::O, Orientation::North, 4, 0);
    assert_eq!(
        start.shift(&board, 1),
        Some(Move { location: pose(Piece::O, Orientation::North, 5, 0), spin: Spin::NoSpin })
    );
    assert_eq!(
        start.shift(&board, -1),
        Some(Move { location: pose(Piece::O, Orientation::North, 3, 0), spin: Spin::NoSpin })
    );
    assert_eq!(pose(Piece::O, Orientation::North, 5, 0).shift(&board, 1), None);
    assert_eq!(pose(Piece::O, Orientation::North, 0, 0).shift(&board, -1), None);
    assert_eq!(pose(Piece::O, Orientation::North, 8, 5).shift(&board, 1), None);
    assert_eq!(pose(Piece::O, Orientation::North, 4, 0).shift(&board, 127), None);
    assert_eq!(pose(Piece::O, Orientation::North, 4, 0).shift(&board, -128), None);
}

#[test]
fn a_turn_in_the_open_stays_in_place() {
    let board = empty_board();
    let start = pose(Piece::T, Orientation::North, 5, 19);
    assert_eq!(
        start.rotate(&board, Rotation::Clockwise),
        Some(Move { location: pose(Piece::T, Orientation::East, 5, 19), spin: Spin::NoSpin })
    );
    assert_eq!(
        start.rotate(&board, Rotation::AntiClockwise),
        Some(Move { location: pose(Piece::T, Orientation::West, 5, 19), spin: Spin::NoSpin })
    );
}

#[test]
fn a_turn_on_the_floor_takes_the_first_kick_that_fits() {
    let board = empty_board();
    // Flat on the floor, a clockwise turn in place would reach below the floor, and so
    // would the second kick; the third lifts the piece.
    assert_eq!(
        pose(Piece::T, Orientation::North, 5, 0).rotate(&board, Rotation::Clockwise),
        Some(Move { location: pose(Piece::T, Orientation::East, 4, 1), spin: Spin::NoSpin })
    );
    // Upright against the left wall, a turn to flat is pushed off the wall.
    assert_eq!(
        pose(Piece::T, Orientation::East, 0, 5).rotate(&board, Rotation::AntiClockwise),
        Some(Move { location: pose(Piece::T, Orientation::North, 1, 5), spin: Spin::NoSpin })
    );
}

#[test]
fn a_turn_that_fits_nowhere_gives_nothing() {
    // A well one cell wide holds the upright long piece and lets it turn nowhere.
    let mut filled = Vec::new();
    for y in 0..8 {
        for x in 0..10 {
            if x != 4 {
                filled.push((x, y));
            }
        }
    }
    let board = board_with(&filled);
    let start = pose(Piece::I, Orientation::East, 4, 2);
    assert!(!board.collision(&start));
    assert_eq!(start.rotate(&board, Rotation::Clockwise), None);
    assert_eq!(start.rotate(&board, Rotation::AntiClockwise), None);
    // Far outside the grid no kick leads back.
    assert_eq!(
        pose(Piece::T, Orientation::North, 127, 127).rotate(&board, Rotation::Clockwise),
        None
    );
}

#[test]
fn the_square_piece_turns_in_place_or_not_at_all() {
    let board = empty_board();
    assert_eq!(
        pose(Piece::O, Orientation::North, 4, 0).rotate(&board, Rotation::Clockwise),
        None
    );
    assert_eq!(
        pose(Piece::O, Orientation::North, 4, 1).rotate(&board, Rotation::Clockwise),
        Some(Move { location: pose(Piece::O, Orientation::East, 4, 1), spin: Spin::NoSpin })
    );
}

#[test]
fn a_turn_into_three_corners_is_a_spin() {
    // Both corners below the slot and one above it are filled.
    let board = board_with(&[(3, 0), (5, 0), (3, 2)]);
    assert_eq!(
        pose(Piece::T, Orientation::East, 4, 1).rotate(&board, Rotation::Clockwise),
        Some(Move { location: pose(Piece::T, Orientation::South, 4, 1), spin: Spin::Full })
    );
    // The same turn of another piece earns nothing.
    assert_eq!(board.classify_spin(&pose(Piece::L, Orientation::South, 4, 1), false), Spin::NoSpin);
}

#[test]
fn spin_classification() {
    let south = pose(Piece::T, Orientation::South, 4, 1);
    // Two corners: nothing.
    assert_eq!(board_with(&[(3, 0), (5, 0)]).classify_spin(&south, false), Spin::NoSpin);
    assert_eq!(board_with(&[(3, 0), (5, 0)]).classify_spin(&south, true), Spin::NoSpin);
    // Three corners, both facing ones: full.
    assert_eq!(board_with(&[(3, 0), (5, 0), (5, 2)]).classify_spin(&south, false), Spin::Full);
    // Three corners, one facing one: mini, or full by the last kick.
    assert_eq!(board_with(&[(3, 0), (3, 2), (5, 2)]).classify_spin(&south, false), Spin::Mini);
    assert_eq!(board_with(&[(3, 0), (3, 2), (5, 2)]).classify_spin(&south, true), Spin::Full);
    // Four corners.
    assert_eq!(
        board_with(&[(3, 0), (5, 0), (3, 2), (5, 2)]).classify_spin(&south, false),
        Spin::Full
    );
    // Walls and floor count as filled corners.
    let corner = pose(Piece::T, Orientation::East, 0, 0);
    assert_eq!(empty_board().classify_spin(&corner, false), Spin::Mini);
    let west = pose(Piece::T, Orientation::West, 0, 0);
    assert_eq!(empty_board().classify_spin(&west, false), Spin::Full);
    // Each orientation has its own facing corners.
    let filled = [(3, 2), (5, 2), (3, 0)];
    assert_eq!(
        board_with(&filled).classify_spin(&pose(Piece::T, Orientation::North, 4, 1), false),
        Spin::Full
    );
    assert_eq!(
        board_with(&filled).classify_spin(&pose(Piece::T, Orientation::East, 4, 1), false),
        Spin::Mini
    );
    assert_eq!(
        board_with(&filled).classify_spin(&pose(Piece::T, Orientation::West, 4, 1), false),
        Spin::Full
    );
}

#[test]
fn soft_drop_gives_the_resting_pose_if_it_is_another() {
    let board = board_with(&[(5, 3)]);
    assert_eq!(
        pose(Piece::T, Orientation::North, 5, 19).soft_drop(&board),
        Some(Move { location: pose(Piece::T, Orientation::North, 5, 4), spin: Spin::NoSpin })
    );
    assert_eq!(pose(Piece::T, Orientation::North, 5, 4).soft_drop(&board), None);
    // From a pose that collides the piece is taken one row up, if it fits there.
    assert_eq!(
        pose(Piece::T, Orientation::North, 5, 3).soft_drop(&board),
        Some(Move { location: pose(Piece::T, Orientation::North, 5, 4), spin: Spin::NoSpin })
    );
    assert_eq!(pose(Piece::T, Orientation::North, 5, 2).soft_drop(&board), None);
    assert_eq!(pose(Piece::T, Orientation::North, 5, 127).soft_drop(&board), None);
    assert_eq!(pose(Piece::T, Orientation::North, 5, 39).soft_drop(&board), None);
}

#[test]
fn a_turn_by_the_last_kick_is_a_full_spin() {
    // The first four kicks of the turn are blocked; the last one takes the piece one
    // column left and two rows down, into a slot with three corners filled.
    let board = board_with(&[(5, 2), (4, 4), (3, 2), (3, 0)]);
    let start = pose(Piece::T, Orientation::North, 5, 3);
    assert!(!board.collision(&start));
    assert_eq!(
        start.rotate(&board, Rotation::Clockwise),
        Some(Move { location: pose(Piece::T, Orientation::East, 4, 1), spin: Spin::Full })
    );
    // By any other kick the same pose would be a mini spin.
    assert_eq!(
        board.classify_spin(&pose(Piece::T, Orientation::East, 4, 1), false),
        Spin::Mini
    );
}

#[test]
fn a_move_stands_for_the_placement_where_it_comes_to_rest() {
    let board = board_with(&[(5, 3)]);
    let falling = Move { location: pose(Piece::T, Orientation::South, 5, 10), spin: Spin::Full };
    assert_eq!(
        falling.placed_on(&board),
        Move { location: pose(Piece::T, Orientation::South, 5, 5), spin: Spin::NoSpin }
    );
    let resting = Move { location: pose(Piece::T, Orientation::South, 5, 5), spin: Spin::Mini };
    assert_eq!(resting.placed_on(&board), resting);
}
