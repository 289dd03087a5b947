use tetris_bot::moves::sorted_distinct;
use tetris_bot::{Board, Location, Move, Orientation, Piece, Spin};

const PLACEABLE: [Piece; 7] = [Piece::O, Piece::I, Piece::T, Piece::L, Piece::J, Piece::S, Piece::Z];

fn board_with(filled: &[(usize, usize)]) -> Board {
    let mut board = [[None; 10]; 40];
    for &(x, y) in filled {
        board[y][x] = Some('G');
    }
    Board {
        back_to_back: false,
        board,
        combo: 0,
        hold: None,
        queue: vec![Piece::I, Piece::J, Piece::O, Piece::S, Piece::Z, Piece::L, Piece::T],
    }
}

fn placement(spin: Spin, orientation: Orientation, x: i8, y: i8) -> Move {
    Move { spin, location: Location { piece: Piece::T, orientation, x, y } }
}

fn touched_rows(mv: &Move) -> Vec<usize> {
    mv.location.cells().iter().map(|c| c.1 as usize).collect()
}

fn row_is_full(board: &Board, y: usize) -> bool {
    board.board[y].iter().all(|cell| cell.is_some())
}

#[test]
fn line_clear() {
    // Row 38, far above where the piece enters, holds three filled cells.
    let board = board_with(&[(0, 38), (1, 38), (2, 38)]);
    let mut moves = board.gen_moves_for_piece(Piece::T);
    let generated = moves.clone();
    moves.sort_by(|a, b| a.partial_cmp(b).unwrap());
    moves.dedup();
    println!("{:?}", moves);
    assert_eq!(moves, generated);
    let new_board = board.make_move(moves[12]);
    assert_eq!(new_board.queue.len(), 5);
    assert_eq!(false, board.collision(&moves[0].location));
    // Flat and upside down the piece fits in eight columns, upright in nine.
    assert_eq!(34, moves.len());
    let mut expected = Vec::new();
    for x in 1..=8 {
        expected.push(placement(Spin::NoSpin, Orientation::North, x, 0));
    }
    for x in 0..=8 {
        expected.push(placement(Spin::NoSpin, Orientation::East, x, 1));
    }
    for x in 1..=8 {
        expected.push(placement(Spin::NoSpin, Orientation::South, x, 1));
    }
    for x in 1..=9 {
        expected.push(placement(Spin::NoSpin, Orientation::West, x, 1));
    }
    assert_eq!(moves, expected);
    for mv in &moves {
        assert_eq!(mv.location.piece, Piece::T);
    }
}

#[test]
fn every_piece_has_free_placements_on_an_empty_board() {
    let board = board_with(&[]);
    for piece in PLACEABLE {
        let moves = board.gen_moves_for_piece(piece);
        assert!(!moves.is_empty());
        for mv in &moves {
            assert_eq!(mv.location.piece, piece);
            assert!(!board.collision(&mv.location));
            assert_eq!(mv.location.drop_y(&board), mv.location.y);
        }
    }
    assert_eq!(board.gen_moves_for_piece(Piece::O).len(), 36);
    assert_eq!(board.gen_moves_for_piece(Piece::I).len(), 34);
    assert_eq!(board.gen_moves_for_piece(Piece::L).len(), 34);
    assert_eq!(board.gen_moves_for_piece(Piece::S).len(), 34);
}

#[test]
fn generated_lists_are_in_normal_form() {
    let boards = [
        board_with(&[]),
        board_with(&[(0, 1), (1, 1), (2, 1)]),
        board_with(&[(3, 0), (5, 0), (3, 2)]),
        board_with(&[(4, 19), (5, 19), (6, 19)]),
    ];
    for board in &boards {
        for piece in PLACEABLE {
            let moves = board.gen_moves_for_piece(piece);
            assert_eq!(sorted_distinct(&moves), moves);
            let mut again = moves.clone();
            again.sort_by(|a, b| a.partial_cmp(b).unwrap());
            again.dedup();
            assert_eq!(again, moves);
            for pair in moves.windows(2) {
                assert!(pair[0].comes_before(&pair[1]));
                assert!(pair[0] < pair[1]);
                assert!(pair[0] != pair[1]);
            }
            for mv in &moves {
                assert_eq!(mv.location.piece, piece);
            }
        }
    }
}

#[test]
fn tucks_under_an_overhang_are_found() {
    // Three filled cells in row 1 hang over the left of the floor.
    let board = board_with(&[(0, 1), (1, 1), (2, 1)]);
    let moves = board.gen_moves_for_piece(Piece::T);
    assert_eq!(moves.len(), 35);
    // The flat piece slides under the overhang as far as its raised middle allows.
    assert!(moves.contains(&placement(Spin::NoSpin, Orientation::North, 3, 0)));
    assert!(!moves.contains(&placement(Spin::NoSpin, Orientation::North, 2, 0)));
    // On top of the overhang it rests in row 2.
    assert!(moves.contains(&placement(Spin::NoSpin, Orientation::North, 1, 2)));
}

#[test]
fn a_spin_into_a_slot_is_tagged() {
    let board = board_with(&[(3, 0), (5, 0), (3, 2)]);
    let moves = board.gen_moves_for_piece(Piece::T);
    assert!(moves.contains(&placement(Spin::Full, Orientation::South, 4, 1)));
    assert!(!moves.contains(&placement(Spin::NoSpin, Orientation::South, 4, 1)));
    // Moves with a spin come after all those without.
    let first_spin = moves.iter().position(|m| m.spin != Spin::NoSpin).unwrap();
    assert!(moves[first_spin..].iter().all(|m| m.spin != Spin::NoSpin));
}

#[test]
fn a_piece_that_collides_where_it_enters_is_taken_one_row_up() {
    // Row 19 is blocked where the piece enters, and so is all around it.
    let mut filled = Vec::new();
    for x in 0..10 {
        for y in 17..=19 {
            filled.push((x, y));
        }
    }
    let board = board_with(&filled);
    let moves = board.gen_moves_for_piece(Piece::T);
    assert!(moves.contains(&placement(Spin::NoSpin, Orientation::North, 5, 20)));
    for mv in &moves {
        assert!(board.can_place(mv));
        assert!(mv.location.y >= 20);
    }
}

#[test]
fn generated_moves_can_be_placed_and_leave_no_touched_row_full() {
    let mut filled = Vec::new();
    for x in 0..10 {
        if x != 4 {
            filled.push((x, 0));
        }
        if x != 4 && x != 5 {
            filled.push((x, 1));
        }
    }
    let board = board_with(&filled);
    for piece in PLACEABLE {
        for mv in board.gen_moves_for_piece(piece) {
            assert!(board.can_place(&mv));
            let after = board.make_move(mv);
            for y in touched_rows(&mv) {
                assert!(!row_is_full(&after, y));
            }
            for y in 0..40 {
                assert!(!row_is_full(&after, y));
            }
        }
    }
}

#[test]
fn moves_of_the_front_piece_come_before_those_of_the_alternative() {
    let mut board = board_with(&[]);
    let front = board.gen_moves_for_piece(Piece::I);
    let second = board.gen_moves_for_piece(Piece::J);
    let mut both = front.clone();
    both.extend(second.iter().copied());
    assert_eq!(board.gen_moves(), both);
    let pieces: Vec<Piece> = board.gen_moves().iter().map(|mv| mv.location.piece).collect();
    let expected: Vec<Piece> = both.iter().map(|mv| mv.location.piece).collect();
    assert_eq!(pieces, expected);
    assert_eq!(pieces[0], Piece::I);
    assert_eq!(pieces[pieces.len() - 1], Piece::J);

    board.hold = Some(Piece::T);
    let held = board.gen_moves_for_piece(Piece::T);
    let mut both = front.clone();
    both.extend(held.iter().copied());
    assert_eq!(board.gen_moves(), both);

    board.hold = None;
    board.queue = vec![Piece::I];
    assert_eq!(board.gen_moves(), front);
}

#[test]
fn a_board_is_playable_unless_the_filler_would_be_played() {
    let mut board = board_with(&[]);
    assert!(board.is_playable());
    board.queue = vec![];
    assert!(!board.is_playable());
    board.queue = vec![Piece::G, Piece::T];
    assert!(!board.is_playable());
    board.queue = vec![Piece::T, Piece::G];
    assert!(!board.is_playable());
    board.hold = Some(Piece::O);
    assert!(board.is_playable());
    board.hold = Some(Piece::G);
    assert!(!board.is_playable());
    board.hold = None;
    board.queue = vec![Piece::T];
    assert!(board.is_playable());
}

#[test]
fn placements_depend_on_the_grid_alone() {
    let board = board_with(&[(0, 1), (1, 1), (2, 1)]);
    let mut other = board.clone();
    other.queue = vec![Piece::Z];
    other.hold = Some(Piece::O);
    other.combo = 7;
    other.back_to_back = true;
    for piece in PLACEABLE {
        let moves = board.gen_moves_for_piece(piece);
        assert_eq!(moves, other.gen_moves_for_piece(piece));
        assert!(moves.iter().all(|mv| mv.location.piece == piece));
    }
}
