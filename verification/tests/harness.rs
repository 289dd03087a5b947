use tetris_bot::{
    Board, BotMessage, FrontendMessage, Location, Move, Orientation, Piece, Reaction, SearchStatus,
    Spin, TBPBoard,
};

fn snapshot() -> TBPBoard {
    let mut board = vec![vec![None; 10]; 40];
    board[0][3] = Some('G');
    board[39][9] = Some('Z');
    TBPBoard {
        hold: Some(Piece::S),
        queue: vec![Piece::T, Piece::I],
        combo: 2,
        back_to_back: true,
        board,
    }
}

fn mv(x: i8) -> Move {
    Move {
        spin: Spin::NoSpin,
        location: Location { piece: Piece::T, orientation: Orientation::North, x, y: 0 },
    }
}

fn started() -> SearchStatus {
    let mut status = SearchStatus::new();
    assert!(matches!(status.handle_message(FrontendMessage::Start(snapshot())), Reaction::Spawn(_)));
    status
}

#[test]
fn a_snapshot_becomes_a_board() {
    let board = Board::from_tbp(snapshot());
    assert_eq!(board.hold, Some(Piece::S));
    assert_eq!(board.queue, vec![Piece::T, Piece::I]);
    assert_eq!(board.combo, 2);
    assert_eq!(board.back_to_back, true);
    for y in 0..40 {
        for x in 0..10 {
            let expected = match (x, y) {
                (3, 0) => Some('G'),
                (9, 39) => Some('Z'),
                _ => None,
            };
            assert_eq!(board.board[y][x], expected);
        }
    }
}

#[test]
fn a_snapshot_may_hold_more_than_the_grid() {
    let mut tbp = snapshot();
    tbp.board.push(vec![Some('X'); 12]);
    tbp.board[5] = vec![Some('Y'); 11];
    assert!(tbp.has_full_grid());
    let board = Board::from_tbp(tbp);
    assert_eq!(board.board[5], [Some('Y'); 10]);
}

#[test]
fn a_snapshot_must_cover_the_grid() {
    assert!(snapshot().has_full_grid());
    let mut short = snapshot();
    short.board.pop();
    assert!(!short.has_full_grid());
    let mut narrow = snapshot();
    narrow.board[17].pop();
    assert!(!narrow.has_full_grid());
}

#[test]
fn a_new_state_is_idle() {
    let mut status = SearchStatus::new();
    assert!(status.terminate());
    assert_eq!(status.new_move(), None);
    assert_eq!(status.new_piece(), None);
    assert_eq!(status.current_moves(&vec![mv(1)]), None);
}

#[test]
fn rules_are_answered_with_ready() {
    let mut status = SearchStatus::new();
    assert!(matches!(
        status.handle_message(FrontendMessage::Rules),
        Reaction::Reply(BotMessage::Ready)
    ));
    assert!(status.terminate());
}

#[test]
fn quit_leaves_the_loop() {
    let mut status = started();
    assert!(matches!(status.handle_message(FrontendMessage::Quit), Reaction::Quit));
    assert!(!status.terminate());
}

#[test]
fn start_spawns_a_task_on_the_board_of_the_snapshot() {
    let mut status = SearchStatus::new();
    match status.handle_message(FrontendMessage::Start(snapshot())) {
        Reaction::Spawn(board) => {
            assert_eq!(board.queue, vec![Piece::T, Piece::I]);
            assert_eq!(board.hold, Some(Piece::S));
            assert_eq!(board.board[0][3], Some('G'));
        }
        _ => panic!("no task was started"),
    }
    assert!(!status.terminate());
}

#[test]
fn a_second_start_spawns_nothing() {
    let mut status = started();
    status.handle_message(FrontendMessage::Play { mv: mv(4) });
    assert!(matches!(
        status.handle_message(FrontendMessage::Start(snapshot())),
        Reaction::AlreadyCalculating
    ));
    assert!(!status.terminate());
    // What was pending is still pending.
    assert_eq!(status.new_move(), Some(mv(4)));
    // Not even a snapshot that is too small is looked at.
    let mut short = snapshot();
    short.board.clear();
    assert!(matches!(
        status.handle_message(FrontendMessage::Start(short)),
        Reaction::AlreadyCalculating
    ));
}

#[test]
fn stop_ends_the_task_and_start_begins_another() {
    let mut status = started();
    assert!(matches!(status.handle_message(FrontendMessage::Stop), Reaction::Continue));
    assert!(status.terminate());
    assert!(matches!(
        status.handle_message(FrontendMessage::Start(snapshot())),
        Reaction::Spawn(_)
    ));
    assert!(!status.terminate());
}

#[test]
fn the_last_move_played_wins() {
    let mut status = started();
    assert!(matches!(
        status.handle_message(FrontendMessage::Play { mv: mv(1) }),
        Reaction::Continue
    ));
    assert!(matches!(
        status.handle_message(FrontendMessage::Play { mv: mv(2) }),
        Reaction::Continue
    ));
    assert_eq!(status.new_move(), Some(mv(2)));
    assert_eq!(status.new_move(), None);
}

#[test]
fn a_move_that_was_taken_is_not_lost_to_the_next() {
    let mut status = started();
    status.handle_message(FrontendMessage::Play { mv: mv(1) });
    assert_eq!(status.new_move(), Some(mv(1)));
    status.handle_message(FrontendMessage::Play { mv: mv(2) });
    assert_eq!(status.new_move(), Some(mv(2)));
    assert_eq!(status.new_move(), None);
}

#[test]
fn the_last_piece_dealt_wins() {
    let mut status = started();
    assert!(matches!(
        status.handle_message(FrontendMessage::NewPiece { piece: Piece::L }),
        Reaction::Continue
    ));
    status.handle_message(FrontendMessage::NewPiece { piece: Piece::Z });
    assert_eq!(status.new_piece(), Some(Piece::Z));
    assert_eq!(status.new_piece(), None);
    assert_eq!(status.new_move(), None);
}

#[test]
fn one_suggestion_answers_one_request() {
    let mut status = started();
    let moves = vec![mv(3), mv(5)];
    assert_eq!(status.current_moves(&moves), None);
    assert!(matches!(
        status.handle_message(FrontendMessage::Suggest),
        Reaction::AwaitSuggestion
    ));
    assert_eq!(status.current_moves(&moves), Some(vec![mv(3), mv(5)]));
    assert_eq!(status.current_moves(&moves), None);
}
