use checkers_backend::game::{Board, GameState, GameStatus, Move, MoveSequence, Piece, PieceType, Player};
use core::hash::Hash;
use std::collections::HashSet;

fn p(type_: char, player: char) -> Option<Piece> {
    Some(Piece {
        type_: match type_ {
            'M' => PieceType::Man,
            'K' => PieceType::King,
            _ => panic!(),
        },
        player: match player {
            'W' => Player::White,
            'B' => Player::Black,
            _ => panic!(),
        },
    })
}

fn m(x1: usize, y1: usize, x2: usize, y2: usize) -> Move {
    Move {
        from: (x1, y1),
        to: (x2, y2),
    }
}

fn state(board: Board, current_player: Player) -> GameState {
    GameState {
        board,
        current_player,
        status: GameStatus::InProgress,
    }
}

fn list(board: Board) -> (Vec<MoveSequence>, Vec<MoveSequence>) {
    (
        state(board, Player::White).list_valid_moves(),
        state(board, Player::Black).list_valid_moves(),
    )
}

fn iters_equal_anyorder<T: Eq + Hash>(
    mut i1: impl Iterator<Item = T>,
    i2: impl Iterator<Item = T>,
) -> bool {
    let set: HashSet<T> = i2.collect();
    i1.all(|x| set.contains(&x))
}

fn same_set(found: &Vec<MoveSequence>, expected: &Vec<MoveSequence>) -> bool {
    found.len() == expected.len()
        && iters_equal_anyorder(found.iter(), expected.iter())
        && iters_equal_anyorder(expected.iter(), found.iter())
}

fn blank() -> Board {
    [[None; 10]; 10]
}

#[test]
fn empty() {
    let state = GameState {
        board: [
            [None, None, None, None, None, None, None, None, None, None],
            [None, None, None, None, None, None, None, None, None, None],
            [None, None, None, None, None, None, None, None, None, None],
            [None, None, None, None, None, None, None, None, None, None],
            [None, None, None, None, None, None, None, None, None, None],
            [None, None, None, None, None, None, None, None, None, None],
            [None, None, None, None, None, None, None, None, None, None],
            [None, None, None, None, None, None, None, None, None, None],
            [None, None, None, None, None, None, None, None, None, None],
            [None, None, None, None, None, None, None, None, None, None],
        ],
        current_player: Player::White,
        status: GameStatus::InProgress,
    };
    assert!(state.list_valid_moves().is_empty());
}

#[test]
fn trivial_man() {
    let board = [
        [None, None, None, None, None, None, None, None, None, None],
        [None, None, None, None, None, None, None, None, None, None],
        [None, None, None, None, None, None, None, None, None, None],
        [None, None, None, None, None, None, None, None, None, None],
        [None, None, None, None, None, None, None, None, None, None],
        [
            None,
            None,
            p('M', 'W'),
            None,
            None,
            None,
            None,
            None,
            None,
            None,
        ],
        [None, None, None, None, None, None, None, None, None, None],
        [None, None, None, None, None, None, None, None, None, None],
        [None, None, None, None, None, None, None, None, None, None],
        [None, None, None, None, None, None, None, None, None, None],
    ];

    let (white_moves, black_moves) = list(board);

    assert_eq!(white_moves.len(), 2);
    assert!(iters_equal_anyorder(
        white_moves.iter(),
        [(vec![m(5, 2, 4, 1)], vec![]), (vec![m(5, 2, 4, 3)], vec![])].iter()
    ));

    assert!(black_moves.is_empty());
}

#[test]
fn trivial_king() {
    let board = [
        [None, None, None, None, None, None, None, None, None, None],
        [None, None, None, None, None, None, None, None, None, None],
        [None, None, None, None, None, None, None, None, None, None],
        [None, None, None, None, None, None, None, None, None, None],
        [None, None, None, None, None, None, None, None, None, None],
        [
            None,
            None,
            p('K', 'W'),
            None,
            None,
            None,
            None,
            None,
            None,
            None,
        ],
        [None, None, None, None, None, None, None, None, None, None],
        [None, None, None, None, None, None, None, None, None, None],
        [None, None, None, None, None, None, None, None, None, None],
        [None, None, None, None, None, None, None, None, None, None],
    ];

    let (white_moves, black_moves) = list(board);

    assert_eq!(white_moves.len(), 13);
    assert!(iters_equal_anyorder(
        white_moves.iter(),
        [
            (vec![m(5, 2, 3, 0)], vec![]),
            (vec![m(5, 2, 4, 1)], vec![]),
            (vec![m(5, 2, 6, 3)], vec![]),
            (vec![m(5, 2, 7, 4)], vec![]),
            (vec![m(5, 2, 8, 5)], vec![]),
            (vec![m(5, 2, 9, 6)], vec![]),
            (vec![m(5, 2, 7, 0)], vec![]),
            (vec![m(5, 2, 6, 1)], vec![]),
            (vec![m(5, 2, 4, 3)], vec![]),
            (vec![m(5, 2, 3, 4)], vec![]),
            (vec![m(5, 2, 2, 5)], vec![]),
            (vec![m(5, 2, 1, 6)], vec![]),
            (vec![m(5, 2, 0, 7)], vec![]),
        ]
        .iter()
    ));

    assert!(black_moves.is_empty());
}

#[test]
fn trivial_king_lists_each_slide_once() {
    let mut board = blank();
    board[5][2] = p('K', 'W');
    let (white_moves, _) = list(board);
    let expected: Vec<MoveSequence> = vec![
        (vec![m(5, 2, 3, 0)], vec![]),
        (vec![m(5, 2, 4, 1)], vec![]),
        (vec![m(5, 2, 6, 3)], vec![]),
        (vec![m(5, 2, 7, 4)], vec![]),
        (vec![m(5, 2, 8, 5)], vec![]),
        (vec![m(5, 2, 9, 6)], vec![]),
        (vec![m(5, 2, 7, 0)], vec![]),
        (vec![m(5, 2, 6, 1)], vec![]),
        (vec![m(5, 2, 4, 3)], vec![]),
        (vec![m(5, 2, 3, 4)], vec![]),
        (vec![m(5, 2, 2, 5)], vec![]),
        (vec![m(5, 2, 1, 6)], vec![]),
        (vec![m(5, 2, 0, 7)], vec![]),
    ];
    assert!(same_set(&white_moves, &expected));
}

#[test]
fn black_man_steps_down_the_board() {
    let mut board = blank();
    board[3][4] = p('M', 'B');
    let (white_moves, black_moves) = list(board);
    assert!(white_moves.is_empty());
    let expected: Vec<MoveSequence> = vec![(vec![m(3, 4, 4, 5)], vec![]), (vec![m(3, 4, 4, 3)], vec![])];
    assert_eq!(black_moves, expected);
}

#[test]
fn man_at_the_far_edge_has_no_move() {
    let mut board = blank();
    board[0][4] = p('M', 'W');
    let (white_moves, _) = list(board);
    assert!(white_moves.is_empty());
}

#[test]
fn man_blocked_by_own_pieces_has_no_move() {
    let mut board = blank();
    board[5][2] = p('M', 'W');
    board[4][1] = p('M', 'W');
    board[4][3] = p('M', 'W');
    board[3][0] = p('M', 'W');
    board[3][2] = p('M', 'W');
    board[3][4] = p('M', 'W');
    board[2][1] = p('M', 'B');
    board[2][3] = p('M', 'B');
    board[2][5] = p('M', 'B');
    board[1][0] = p('M', 'B');
    board[1][2] = p('M', 'B');
    board[1][4] = p('M', 'B');
    board[1][6] = p('M', 'B');
    let moves = state(board, Player::White).list_valid_moves();
    assert!(moves.iter().all(|s| s.0[0].from != (5, 2)));
}

#[test]
fn capture_is_forced() {
    let mut board = blank();
    board[5][2] = p('M', 'W');
    board[4][3] = p('M', 'B');
    let (white_moves, _) = list(board);
    let expected: Vec<MoveSequence> = vec![(vec![m(5, 2, 3, 4)], vec![(4, 3)])];
    assert_eq!(white_moves, expected);
}

#[test]
fn capture_needs_an_empty_landing() {
    let mut board = blank();
    board[5][2] = p('M', 'W');
    board[4][3] = p('M', 'B');
    board[3][4] = p('M', 'B');
    let (white_moves, _) = list(board);
    let expected: Vec<MoveSequence> = vec![(vec![m(5, 2, 4, 1)], vec![])];
    assert_eq!(white_moves, expected);
}

#[test]
fn man_jumps_on_to_the_end_of_the_chain() {
    let mut board = blank();
    board[5][2] = p('M', 'W');
    board[4][3] = p('M', 'B');
    board[2][5] = p('M', 'B');
    let (white_moves, _) = list(board);
    let expected: Vec<MoveSequence> =
        vec![(vec![m(5, 2, 3, 4), m(3, 4, 1, 6)], vec![(4, 3), (2, 5)])];
    assert_eq!(white_moves, expected);
}

#[test]
fn man_in_a_chain_captures_backwards() {
    let mut board = blank();
    board[5][2] = p('M', 'W');
    board[4][3] = p('M', 'B');
    board[4][5] = p('M', 'B');
    let (white_moves, _) = list(board);
    let expected: Vec<MoveSequence> =
        vec![(vec![m(5, 2, 3, 4), m(3, 4, 5, 6)], vec![(4, 3), (4, 5)])];
    assert_eq!(white_moves, expected);
}

#[test]
fn only_the_largest_capture_is_legal() {
    let mut board = blank();
    board[5][2] = p('M', 'W');
    board[4][3] = p('M', 'B');
    board[2][5] = p('M', 'B');
    board[8][7] = p('M', 'W');
    board[7][8] = p('M', 'B');
    board[9][0] = p('M', 'W');
    let (white_moves, _) = list(board);
    let expected: Vec<MoveSequence> =
        vec![(vec![m(5, 2, 3, 4), m(3, 4, 1, 6)], vec![(4, 3), (2, 5)])];
    assert_eq!(white_moves, expected);
}

#[test]
fn equal_captures_are_all_legal() {
    let mut board = blank();
    board[5][2] = p('M', 'W');
    board[4][3] = p('M', 'B');
    board[4][1] = p('M', 'B');
    let (white_moves, _) = list(board);
    let expected: Vec<MoveSequence> = vec![
        (vec![m(5, 2, 3, 4)], vec![(4, 3)]),
        (vec![m(5, 2, 3, 0)], vec![(4, 1)]),
    ];
    assert!(same_set(&white_moves, &expected));
}

#[test]
fn king_captures_along_a_ray() {
    let mut board = blank();
    board[5][2] = p('K', 'W');
    board[3][4] = p('M', 'B');
    let (white_moves, _) = list(board);
    let expected: Vec<MoveSequence> = vec![
        (vec![m(5, 2, 2, 5)], vec![(3, 4)]),
        (vec![m(5, 2, 1, 6)], vec![(3, 4)]),
        (vec![m(5, 2, 0, 7)], vec![(3, 4)]),
    ];
    assert!(same_set(&white_moves, &expected));
}

#[test]
fn king_is_stopped_by_two_pieces_in_a_row() {
    let mut board = blank();
    board[5][2] = p('K', 'W');
    board[4][3] = p('M', 'B');
    board[3][4] = p('M', 'B');
    let (white_moves, _) = list(board);
    assert_eq!(white_moves.len(), 8);
    assert!(white_moves.iter().all(|s| s.1.is_empty()));
    assert!(white_moves.iter().all(|s| s.0[0].to != (4, 3) && s.0[0].to != (2, 5)));
}

#[test]
fn king_is_stopped_by_its_own_side() {
    let mut board = blank();
    board[5][2] = p('K', 'W');
    board[4][3] = p('M', 'W');
    let moves = state(board, Player::White).list_valid_moves();
    let of_king: Vec<&MoveSequence> = moves.iter().filter(|s| s.0[0].from == (5, 2)).collect();
    assert_eq!(of_king.len(), 8);
    assert!(of_king.iter().all(|s| s.0[0].to.0 > 5 || s.0[0].to.1 < 2));
}

#[test]
fn king_chain_takes_two_pieces() {
    let mut board = blank();
    board[9][0] = p('K', 'W');
    board[7][2] = p('M', 'B');
    board[4][3] = p('M', 'B');
    let (white_moves, _) = list(board);
    assert!(!white_moves.is_empty());
    for s in white_moves.iter() {
        assert_eq!(s.1.len(), 2);
        assert_eq!(s.0.len(), 2);
        assert_eq!(s.0[0], m(9, 0, 5, 4));
        assert_eq!(s.1, vec![(7, 2), (4, 3)]);
    }
    let ends: HashSet<(usize, usize)> = white_moves.iter().map(|s| s.0[1].to).collect();
    let expected: HashSet<(usize, usize)> = [(3, 2), (2, 1), (1, 0)].into_iter().collect();
    assert_eq!(ends, expected);
}

#[test]
fn no_cell_is_captured_twice() {
    let mut board = blank();
    board[5][4] = p('K', 'W');
    board[4][3] = p('M', 'B');
    board[4][5] = p('M', 'B');
    board[6][3] = p('M', 'B');
    board[6][5] = p('M', 'B');
    board[2][3] = p('M', 'B');
    board[2][5] = p('M', 'B');
    let (white_moves, _) = list(board);
    assert!(!white_moves.is_empty());
    let most = white_moves[0].1.len();
    assert!(most > 0);
    for s in white_moves.iter() {
        assert_eq!(s.1.len(), most);
        let cells: HashSet<&(usize, usize)> = s.1.iter().collect();
        assert_eq!(cells.len(), s.1.len());
        for c in s.1.iter() {
            assert_eq!(board[c.0][c.1].map(|piece| piece.player), Some(Player::Black));
        }
        for k in 1..s.0.len() {
            assert_eq!(s.0[k - 1].to, s.0[k].from);
        }
    }
}

#[test]
fn starting_position_has_nine_moves_for_white() {
    let state = GameState::default();
    assert_eq!(state.current_player, Player::White);
    assert_eq!(state.status, GameStatus::InProgress);
    let moves = state.list_valid_moves();
    assert_eq!(moves.len(), 9);
    assert!(moves.iter().all(|s| s.1.is_empty() && s.0.len() == 1));
    assert!(moves.iter().all(|s| s.0[0].from.0 == 7 && s.0[0].to.0 == 6));
}

fn scattered(seed: u64) -> Board {
    let mut board = blank();
    let mut x = seed;
    for row in 0..10 {
        for col in 0..10 {
            x = x.wrapping_mul(6364136223846793005).wrapping_add(1442695040888963407);
            let roll = (x >> 33) % 16;
            if (row + col) % 2 == 0 {
                board[row][col] = match roll {
                    0 | 1 => p('M', 'W'),
                    2 | 3 | 4 => p('M', 'B'),
                    5 => p('K', 'W'),
                    6 => p('K', 'B'),
                    _ => None,
                };
            }
        }
    }
    board
}

#[test]
fn listed_turns_obey_the_rules_on_scattered_boards() {
    let mut capturing = 0;
    for seed in 0..300u64 {
        let board = scattered(seed);
        for player in [Player::White, Player::Black] {
            let position = state(board, player);
            let moves = position.list_valid_moves();
            let count = board.iter().flatten().filter(|c| c.is_some()).count();
            for s in moves.iter() {
                assert_eq!(s.1.len(), moves[0].1.len());
                assert!(!s.0.is_empty());
                assert!(s.1.len() <= s.0.len());
                let from = s.0[0].from;
                assert_eq!(board[from.0][from.1].map(|piece| piece.player), Some(player));
                for k in 0..s.0.len() {
                    let step = s.0[k];
                    assert!(step.to.0 < 10 && step.to.1 < 10);
                    assert_eq!(board[step.to.0][step.to.1], None);
                    assert_eq!(step.from.0.abs_diff(step.to.0), step.from.1.abs_diff(step.to.1));
                    assert!(step.from != step.to);
                    if k > 0 {
                        assert_eq!(s.0[k - 1].to, step.from);
                    }
                }
                let cells: HashSet<&(usize, usize)> = s.1.iter().collect();
                assert_eq!(cells.len(), s.1.len());
                for c in s.1.iter() {
                    assert_eq!(board[c.0][c.1].map(|piece| piece.player), Some(player.opponent()));
                }
                let mut after = position;
                assert!(after.apply_sequence(&s.0).is_ok());
                assert_eq!(after.current_player, player.opponent());
                assert_eq!(
                    after.board.iter().flatten().filter(|c| c.is_some()).count(),
                    count - s.1.len()
                );
                let to = s.0[s.0.len() - 1].to;
                assert_eq!(after.board[to.0][to.1], board[from.0][from.1]);
            }
            if !moves.is_empty() && !moves[0].1.is_empty() {
                capturing += 1;
            }
        }
    }
    assert!(capturing > 50);
}
