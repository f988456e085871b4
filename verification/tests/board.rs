use checkers_backend::api::Error;
use checkers_backend::game::checker::CheckersGame;
use checkers_backend::game::{checker, chess};
use checkers_backend::game::{
    at, default_board, is_valid_pos, mov, p, GameState, GameStatus, Move, Piece, PieceType, Player, Pos,
};

fn man(player: Player) -> Option<Piece> {
    Some(Piece { type_: PieceType::Man, player })
}

fn blank(current_player: Player) -> GameState {
    GameState { board: [[None; 10]; 10], current_player, status: GameStatus::InProgress }
}

#[test]
fn codes_of_sides_and_pieces() {
    assert_eq!(Player::White.to_string(), "W");
    assert_eq!(Player::Black.to_string(), "B");
    assert_eq!(PieceType::Man.to_string(), "M");
    assert_eq!(PieceType::King.to_string(), "K");
    assert_eq!(Piece { type_: PieceType::King, player: Player::Black }.to_string(), "KB");
    assert_eq!(Player::White.opponent(), Player::Black);
    assert_eq!(Player::Black.opponent(), Player::White);
}

#[test]
fn default_board_has_three_rows_of_men_on_each_side() {
    let board = default_board();
    for x in 0..10 {
        for y in 0..10 {
            let expected = if (x + y) % 2 != 0 {
                None
            } else if x < 3 {
                man(Player::Black)
            } else if x >= 7 {
                man(Player::White)
            } else {
                None
            };
            assert_eq!(board[x][y], expected);
        }
    }
    assert_eq!(board.iter().flatten().filter(|c| c.is_some()).count(), 30);
}

#[test]
fn csv_of_the_empty_board() {
    let text = blank(Player::White).to_csv_string();
    let row = ";;;;;;;;;";
    let expected = vec![row; 10].join("\n");
    assert_eq!(text, expected);
}

#[test]
fn csv_of_a_row_with_pieces() {
    let mut state = blank(Player::White);
    state.board[0][0] = man(Player::White);
    state.board[0][2] = Some(Piece { type_: PieceType::King, player: Player::Black });
    state.board[9][9] = man(Player::Black);
    let text = state.to_csv_string();
    let lines: Vec<&str> = text.split('\n').collect();
    assert_eq!(lines.len(), 10);
    assert_eq!(lines[0], "MW;;KB;;;;;;;");
    assert_eq!(lines[1], ";;;;;;;;;");
    assert_eq!(lines[9], ";;;;;;;;;MB");
}

#[test]
fn csv_of_the_starting_position() {
    let text = GameState::default().to_csv_string();
    let expected = "MB;;MB;;MB;;MB;;MB;\n\
                    ;MB;;MB;;MB;;MB;;MB\n\
                    MB;;MB;;MB;;MB;;MB;\n\
                    ;;;;;;;;;\n\
                    ;;;;;;;;;\n\
                    ;;;;;;;;;\n\
                    ;;;;;;;;;\n\
                    ;MW;;MW;;MW;;MW;;MW\n\
                    MW;;MW;;MW;;MW;;MW;\n\
                    ;MW;;MW;;MW;;MW;;MW";
    assert_eq!(text, expected);
}

#[test]
fn csv_gives_the_occupancy_back() {
    let mut state = GameState::default();
    state.board[4][3] = Some(Piece { type_: PieceType::King, player: Player::White });
    let text = state.to_csv_string();
    for (x, line) in text.split('\n').enumerate() {
        for (y, cell) in line.split(';').enumerate() {
            let read = match cell {
                "" => None,
                "MW" => Some(Piece { type_: PieceType::Man, player: Player::White }),
                "MB" => Some(Piece { type_: PieceType::Man, player: Player::Black }),
                "KW" => Some(Piece { type_: PieceType::King, player: Player::White }),
                "KB" => Some(Piece { type_: PieceType::King, player: Player::Black }),
                _ => panic!(),
            };
            assert_eq!(read, state.board[x][y]);
        }
    }
}

#[test]
fn apply_move_relocates_the_piece() {
    let mut state = blank(Player::White);
    state.board[5][2] = man(Player::White);
    assert!(state.apply_move((5, 2), (4, 1)).is_ok());
    assert_eq!(state.board[5][2], None);
    assert_eq!(state.board[4][1], man(Player::White));
    assert_eq!(state.current_player, Player::White);
}

#[test]
fn apply_sequence_plays_a_step() {
    let mut state = blank(Player::White);
    state.board[5][2] = man(Player::White);
    let r = state.apply_sequence(&vec![Move { from: (5, 2), to: (4, 3) }]);
    assert!(r.is_ok());
    assert_eq!(state.board[5][2], None);
    assert_eq!(state.board[4][3], man(Player::White));
    assert_eq!(state.current_player, Player::Black);
    assert_eq!(state.status, GameStatus::InProgress);
}

#[test]
fn apply_sequence_takes_the_captured_pieces_off() {
    let mut state = blank(Player::White);
    state.board[5][2] = man(Player::White);
    state.board[4][3] = man(Player::Black);
    state.board[2][5] = man(Player::Black);
    let seq = vec![Move { from: (5, 2), to: (3, 4) }, Move { from: (3, 4), to: (1, 6) }];
    assert!(state.apply_sequence(&seq).is_ok());
    assert_eq!(state.board[1][6], man(Player::White));
    assert_eq!(state.board.iter().flatten().filter(|c| c.is_some()).count(), 1);
    assert_eq!(state.current_player, Player::Black);
}

#[test]
fn apply_sequence_refuses_a_step_where_a_capture_is_forced() {
    let mut state = blank(Player::White);
    state.board[5][2] = man(Player::White);
    state.board[4][3] = man(Player::Black);
    let before = state;
    let r = state.apply_sequence(&vec![Move { from: (5, 2), to: (4, 1) }]);
    assert!(matches!(r, Err(Error::InvalidMove)));
    assert_eq!(state.board, before.board);
    assert_eq!(state.current_player, Player::White);
}

#[test]
fn apply_sequence_refuses_what_is_no_move() {
    let mut state = GameState::default();
    assert!(matches!(state.apply_sequence(&vec![]), Err(Error::InvalidMove)));
    assert!(matches!(
        state.apply_sequence(&vec![Move { from: (7, 1), to: (5, 1) }]),
        Err(Error::InvalidMove)
    ));
    assert!(matches!(
        state.apply_sequence(&vec![Move { from: (2, 0), to: (3, 1) }]),
        Err(Error::InvalidMove)
    ));
    assert!(matches!(
        state.apply_sequence(&vec![Move { from: (70, 1), to: (6, 0) }]),
        Err(Error::InvalidMove)
    ));
    assert_eq!(state.board, default_board());
}

#[test]
fn apply_sequence_refuses_a_move_in_a_finished_game() {
    let mut state = GameState::default();
    state.status = GameStatus::Victory(Player::Black);
    let r = state.apply_sequence(&vec![Move { from: (7, 1), to: (6, 0) }]);
    assert!(matches!(r, Err(Error::InvalidMove)));
    assert_eq!(state.board, default_board());
    assert_eq!(state.status, GameStatus::Victory(Player::Black));
}

#[test]
fn small_board_starts_with_twelve_men_each() {
    let game = CheckersGame::default();
    assert_eq!(game.current_player, Player::White);
    let count = |player: Player| {
        game.board
            .iter()
            .flatten()
            .filter(|c| {
                **c == Some(checker::Piece { type_: checker::PieceType::Man, player })
            })
            .count()
    };
    assert_eq!(count(Player::Black), 12);
    assert_eq!(count(Player::White), 12);
    assert_eq!(game.board[3], [None; 8]);
    assert_eq!(game.board[4], [None; 8]);
    assert_eq!(
        game.to_csv_string(),
        "MB;;MB;;MB;;MB;\n;MB;;MB;;MB;;MB\nMB;;MB;;MB;;MB;\n;;;;;;;\n;;;;;;;\n;MW;;MW;;MW;;MW\nMW;;MW;;MW;;MW;\n;MW;;MW;;MW;;MW"
    );
}

#[test]
fn small_board_apply_move() {
    let mut game = CheckersGame::default();
    assert!(game.apply_move((5, 1), (4, 0)).is_ok());
    assert_eq!(game.board[5][1], None);
    assert_eq!(
        game.board[4][0],
        Some(checker::Piece { type_: checker::PieceType::Man, player: Player::White })
    );
    assert_eq!(checker::PieceType::King.to_string(), "K");
}

#[test]
fn chess_board_starts_with_mirrored_back_rows() {
    let board = chess::default_board();
    let row = [
        chess::PieceType::Rook,
        chess::PieceType::Knight,
        chess::PieceType::Bishop,
        chess::PieceType::Queen,
        chess::PieceType::King,
        chess::PieceType::Bishop,
        chess::PieceType::Knight,
        chess::PieceType::Rook,
    ];
    for i in 0..8 {
        assert_eq!(board[0][i], Some(chess::Piece { type_: row[i], player: Player::Black }));
        assert_eq!(
            board[1][i],
            Some(chess::Piece { type_: chess::PieceType::Pawn, player: Player::Black })
        );
        assert_eq!(
            board[6][i],
            Some(chess::Piece { type_: chess::PieceType::Pawn, player: Player::White })
        );
        assert_eq!(board[7][i], Some(chess::Piece { type_: row[7 - i], player: Player::White }));
        for x in 2..6 {
            assert_eq!(board[x][i], None);
        }
    }
}

#[test]
fn coordinates_add_and_scale() {
    assert_eq!(p(3, -4), Pos { x: 3, y: -4 });
    assert_eq!(p(5, 2).add(p(-1, 1)), p(4, 3));
    assert_eq!(p(-1, 1).mul(3), p(-3, 3));
    assert_eq!(p(5, 2).add(p(1, -1).mul(2)), p(7, 0));
    assert!(is_valid_pos(p(0, 0)));
    assert!(is_valid_pos(p(9, 9)));
    assert!(!is_valid_pos(p(10, 0)));
    assert!(!is_valid_pos(p(0, -1)));
    assert_eq!(mov(p(5, 2), p(4, 1)), Move { from: (5, 2), to: (4, 1) });
    let board = default_board();
    assert_eq!(at(&board, p(0, 0)), man(Player::Black));
    assert_eq!(at(&board, p(9, 1)), man(Player::White));
    assert_eq!(at(&board, p(0, 1)), None);
}
