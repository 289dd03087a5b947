use tetris_bot::bot::pick;
use tetris_bot::{
    Board, Bot, FrontendMessage, Location, Move, Orientation, Piece, RandomBot, SearchStatus, Spin,
    TBPBoard, TaskState,
};

fn board(queue: Vec<Piece>) -> Board {
    Board { hold: None, queue, combo: 0, back_to_back: false, board: [[None; 10]; 40] }
}

fn running() -> SearchStatus {
    let mut status = SearchStatus::new();
    status.handle_message(FrontendMessage::Start(TBPBoard {
        hold: None,
        queue: vec![Piece::T],
        combo: 0,
        back_to_back: false,
        board: vec![vec![None; 10]; 40],
    }));
    status
}

fn flat(piece: Piece, x: i8) -> Move {
    Move {
        spin: Spin::NoSpin,
        location: Location { piece, orientation: Orientation::North, x, y: 0 },
    }
}

#[test]
fn pick_takes_the_move_at_the_index() {
    let moves = vec![flat(Piece::T, 1), flat(Piece::T, 2), flat(Piece::T, 3)];
    assert_eq!(pick(&moves, 0), flat(Piece::T, 1));
    assert_eq!(pick(&moves, 2), flat(Piece::T, 3));
}

#[test]
fn a_random_move_is_one_of_the_moves_that_can_be_played() {
    let board = board(vec![Piece::T, Piece::I]);
    let moves = board.gen_moves();
    let mut seen = Vec::new();
    for _ in 0..400 {
        let mv = RandomBot::get_move(&board);
        assert!(moves.contains(&mv));
        if !seen.contains(&mv) {
            seen.push(mv);
        }
    }
    // Chance picks more than one move.
    assert!(seen.len() > 1);
}

#[test]
fn a_random_move_of_a_single_one() {
    // A well one cell wide and closed at the top leaves the long piece one placement:
    // where it enters.
    let mut board = board(vec![Piece::I]);
    for y in 0..40 {
        for x in 0..10 {
            board.board[y][x] = Some('G');
        }
    }
    for x in 4..=7 {
        board.board[19][x] = None;
    }
    let moves = board.gen_moves();
    assert_eq!(moves.len(), 1);
    assert_eq!(RandomBot::get_move(&board), moves[0]);
}

#[test]
fn a_new_bot_has_made_its_choice() {
    let bot = RandomBot::new(board(vec![Piece::T, Piece::I]));
    let choice = bot.choice.unwrap();
    assert!(bot.board.gen_moves().contains(&choice));
    assert!(RandomBot::new(board(vec![])).choice.is_none());
    assert!(RandomBot::new(board(vec![Piece::G])).choice.is_none());
}

#[test]
fn a_round_answers_a_request_with_the_choice() {
    let mut bot = RandomBot::new(board(vec![Piece::T, Piece::I]));
    let mut status = running();
    let step = bot.search(&mut status);
    assert_eq!(step.published, None);
    assert_eq!(step.state, TaskState::Running);
    status.handle_message(FrontendMessage::Suggest);
    let step = bot.search(&mut status);
    assert_eq!(step.published, Some(vec![bot.choice.unwrap()]));
    assert_eq!(step.state, TaskState::Running);
    let step = bot.search(&mut status);
    assert_eq!(step.published, None);
}

#[test]
fn a_round_ends_the_task_once_it_is_stopped() {
    let mut bot = RandomBot::new(board(vec![Piece::T, Piece::I]));
    let mut status = running();
    status.handle_message(FrontendMessage::Suggest);
    status.handle_message(FrontendMessage::Play { mv: flat(Piece::T, 4) });
    status.handle_message(FrontendMessage::Stop);
    let choice = bot.choice;
    let step = bot.search(&mut status);
    // The request is answered still, and nothing else is taken in.
    assert_eq!(step.published, Some(vec![choice.unwrap()]));
    assert_eq!(step.state, TaskState::Finished);
    assert_eq!(bot.board.queue, vec![Piece::T, Piece::I]);
    assert_eq!(status.new_move(), Some(flat(Piece::T, 4)));
}

#[test]
fn a_round_takes_in_what_was_played_and_dealt() {
    let mut bot = RandomBot::new(board(vec![Piece::T, Piece::I]));
    let mut status = running();
    status.handle_message(FrontendMessage::Play { mv: flat(Piece::T, 4) });
    status.handle_message(FrontendMessage::NewPiece { piece: Piece::O });
    let step = bot.search(&mut status);
    assert_eq!(step.state, TaskState::Running);
    assert_eq!(bot.board.queue, vec![Piece::I, Piece::O]);
    assert_eq!(bot.board.board[0][4], Some('T'));
    assert_eq!(bot.board.board[1][4], Some('T'));
    assert_eq!(status.new_move(), None);
    assert_eq!(status.new_piece(), None);
    // The new choice is a move on the new board: of the long piece, before the square
    // one has joined the queue.
    let choice = bot.choice.unwrap();
    assert_eq!(choice.location.piece, Piece::I);
    assert!(!bot.board.collision(&choice.location));
}

#[test]
fn a_round_fails_on_a_move_that_cannot_be_placed() {
    let mut bot = RandomBot::new(board(vec![Piece::T, Piece::I]));
    let mut status = running();
    status.handle_message(FrontendMessage::Play { mv: flat(Piece::T, 0) });
    let step = bot.search(&mut status);
    assert_eq!(step.state, TaskState::Failed);
    assert_eq!(bot.board.queue, vec![Piece::T, Piece::I]);
    let step = bot.search(&mut status);
    assert_eq!(step.state, TaskState::Failed);
}

#[test]
fn a_round_fails_once_the_queue_runs_out() {
    let mut bot = RandomBot::new(board(vec![Piece::T]));
    let mut status = running();
    status.handle_message(FrontendMessage::Play { mv: flat(Piece::T, 4) });
    let step = bot.search(&mut status);
    assert_eq!(step.state, TaskState::Failed);
    assert!(bot.board.queue.is_empty());
    assert!(bot.choice.is_none());
}
