use tetris_bot::{Board, Location, Move, Orientation, Piece, Spin};

fn board_with(filled: &[(usize, usize, char)]) -> Board {
    let mut board = [[None; 10]; 40];
    for &(x, y, marker) in filled {
        board[y][x] = Some(marker);
    }
    Board {
        back_to_back: true,
        board,
        combo: 3,
        hold: None,
        queue: vec![Piece::I, Piece::J, Piece::O],
    }
}

fn mv(piece: Piece, orientation: Orientation, x: i8, y: i8) -> Move {
    Move { spin: Spin::NoSpin, location: Location { piece, orientation, x, y } }
}

fn row(text: &str) -> [Option<char>; 10] {
    let mut cells = [None; 10];
    for (x, c) in text.chars().enumerate() {
        if c != '.' {
            cells[x] = Some(c);
        }
    }
    cells
}

#[test]
fn locked_cells_are_marked() {
    let board = board_with(&[]);
    let after = board.make_move(mv(Piece::I, Orientation::North, 4, 0));
    assert_eq!(after.board[0], row("...TTTT..."));
    for y in 1..40 {
        assert_eq!(after.board[y], row(".........."));
    }
    assert_eq!(after.combo, 3);
    assert_eq!(after.back_to_back, true);
    // The board that was played on is as it was.
    assert_eq!(board.board[0], row(".........."));
    assert_eq!(board.queue, vec![Piece::I, Piece::J, Piece::O]);
}

#[test]
fn a_full_row_goes_and_the_rows_above_sink_by_one() {
    let mut filled = Vec::new();
    for x in 0..10 {
        if !(3..=6).contains(&x) {
            filled.push((x, 0, 'G'));
        }
    }
    filled.push((0, 1, 'a'));
    filled.push((9, 2, 'b'));
    filled.push((5, 39, 'c'));
    let board = board_with(&filled);
    let after = board.make_move(mv(Piece::I, Orientation::North, 4, 0));
    assert_eq!(after.board[0], row("a........."));
    assert_eq!(after.board[1], row(".........b"));
    for y in 2..38 {
        assert_eq!(after.board[y], row(".........."));
    }
    assert_eq!(after.board[38], row(".....c...."));
    assert_eq!(after.board[39], row(".........."));
}

#[test]
fn rows_that_are_not_completed_stay() {
    let mut filled = Vec::new();
    for x in 0..10 {
        if x != 0 {
            filled.push((x, 1, 'G'));
        }
    }
    filled.push((7, 0, 'x'));
    filled.push((2, 2, 'y'));
    let board = board_with(&filled);
    // The upright long piece fills column 0 from row 0 to row 3 and completes row 1.
    let after = board.make_move(mv(Piece::I, Orientation::East, 0, 2));
    assert_eq!(after.board[0], row("T......x.."));
    assert_eq!(after.board[1], row("T.y......."));
    assert_eq!(after.board[2], row("T........."));
    assert_eq!(after.board[3], row(".........."));
}

#[test]
fn several_rows_go_at_once() {
    let mut filled = Vec::new();
    for y in [0, 1, 3] {
        for x in 1..10 {
            filled.push((x, y, 'G'));
        }
    }
    filled.push((5, 2, 'm'));
    filled.push((6, 4, 'n'));
    let board = board_with(&filled);
    let after = board.make_move(mv(Piece::I, Orientation::East, 0, 2));
    assert_eq!(after.board[0], row("T....m...."));
    assert_eq!(after.board[1], row("......n..."));
    for y in 2..40 {
        assert_eq!(after.board[y], row(".........."));
    }
}

#[test]
fn a_full_row_that_the_move_does_not_touch_stays() {
    let mut filled = Vec::new();
    for x in 0..10 {
        filled.push((x, 30, 'G'));
    }
    let board = board_with(&filled);
    let after = board.make_move(mv(Piece::O, Orientation::North, 0, 0));
    assert_eq!(after.board[30], row("GGGGGGGGGG"));
    assert_eq!(after.board[0], row("TT........"));
    assert_eq!(after.board[1], row("TT........"));
}

#[test]
fn the_top_row_can_be_cleared() {
    let mut filled = Vec::new();
    for x in 0..6 {
        filled.push((x, 39, 'G'));
    }
    filled.push((0, 38, 'k'));
    let board = board_with(&filled);
    let after = board.make_move(mv(Piece::I, Orientation::North, 7, 39));
    assert_eq!(after.board[39], row(".........."));
    assert_eq!(after.board[38], row("k........."));
}

#[test]
fn playing_the_front_of_the_queue() {
    let board = board_with(&[]);
    let after = board.make_move(mv(Piece::I, Orientation::North, 4, 0));
    assert_eq!(after.hold, None);
    assert_eq!(after.queue, vec![Piece::J, Piece::O]);
}

#[test]
fn playing_the_second_of_the_queue_with_nothing_held() {
    let board = board_with(&[]);
    let after = board.make_move(mv(Piece::J, Orientation::North, 4, 0));
    assert_eq!(after.hold, Some(Piece::I));
    assert_eq!(after.queue, vec![Piece::O]);
}

#[test]
fn playing_the_held_piece() {
    let mut board = board_with(&[]);
    board.hold = Some(Piece::T);
    let after = board.make_move(mv(Piece::T, Orientation::North, 4, 0));
    assert_eq!(after.hold, Some(Piece::I));
    assert_eq!(after.queue, vec![Piece::J, Piece::O]);
}

#[test]
fn playing_another_piece_from_a_queue_of_one() {
    let mut board = board_with(&[]);
    board.queue = vec![Piece::I];
    let after = board.make_move(mv(Piece::T, Orientation::North, 4, 0));
    assert_eq!(after.hold, Some(Piece::I));
    assert_eq!(after.queue, vec![]);
}

#[test]
fn making_a_move_in_place() {
    let mut board = board_with(&[]);
    let expected = board.make_move(mv(Piece::J, Orientation::West, 5, 1));
    board.make_move_in_place(mv(Piece::J, Orientation::West, 5, 1));
    assert_eq!(board.board, expected.board);
    assert_eq!(board.hold, expected.hold);
    assert_eq!(board.queue, expected.queue);
    assert_eq!(board.combo, expected.combo);
    assert_eq!(board.back_to_back, expected.back_to_back);
    assert_eq!(board.board[0], row("....TT...."));
    assert_eq!(board.board[1], row(".....T...."));
    assert_eq!(board.board[2], row(".....T...."));
    assert_eq!(board.hold, Some(Piece::I));
    assert_eq!(board.queue, vec![Piece::O]);
}

#[test]
fn what_can_be_placed() {
    let mut board = board_with(&[]);
    assert!(board.can_place(&mv(Piece::I, Orientation::North, 4, 0)));
    assert!(board.can_place(&mv(Piece::I, Orientation::North, 1, 39)));
    assert!(!board.can_place(&mv(Piece::I, Orientation::North, 0, 0)));
    assert!(!board.can_place(&mv(Piece::I, Orientation::North, 8, 0)));
    assert!(!board.can_place(&mv(Piece::I, Orientation::East, 4, 1)));
    assert!(!board.can_place(&mv(Piece::I, Orientation::East, 4, 39)));
    assert!(!board.can_place(&mv(Piece::I, Orientation::North, 127, -128)));
    assert!(!board.can_place(&mv(Piece::G, Orientation::North, 4, 4)));
    board.queue = vec![];
    assert!(!board.can_place(&mv(Piece::I, Orientation::North, 4, 0)));
}

#[test]
fn a_full_row_from_above_can_sink_into_a_cleared_one() {
    // Row 20 is full before the move. The long piece enters in row 19, rests there and
    // completes it; only rows that the move touches are looked at.
    let mut filled = vec![(5, 18, 'G')];
    for x in 0..10 {
        if !(4..=7).contains(&x) {
            filled.push((x, 19, 'G'));
        }
        filled.push((x, 20, 'H'));
    }
    let board = board_with(&filled);
    let moves = board.gen_moves_for_piece(Piece::I);
    let flat = mv(Piece::I, Orientation::North, 5, 19);
    assert!(moves.contains(&flat));
    let after = board.make_move(flat);
    assert_eq!(after.board[19], row("HHHHHHHHHH"));
    assert_eq!(after.board[20], row(".........."));
    assert_eq!(after.board[18], row(".....G...."));
}

#[test]
fn a_picture_shows_the_rows_from_the_top_down() {
    let board = board_with(&[(0, 0, 'a'), (9, 0, 'b'), (4, 39, 'c'), (5, 1, 'G')]);
    let picture = board.picture();
    assert_eq!(picture.len(), 40);
    let text: Vec<String> = picture.iter().map(|row| row.iter().collect()).collect();
    assert_eq!(text[0], "....c.....");
    assert_eq!(text[38], ".....G....");
    assert_eq!(text[39], "a........b");
    for row in &text[1..38] {
        assert_eq!(row, "..........");
    }
}
