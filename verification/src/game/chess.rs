//! The pieces of chess and their starting position.

use crate::game::Player;
use vstd::prelude::*;

verus! {

/// What a chess piece is.
#[derive(Debug, Clone, Copy, PartialEq, Eq, Structural)]
pub enum PieceType {
    Pawn,
    Rook,
    Queen,
    Knight,
    Bishop,
    King,
}

/// A piece on the board: its kind and its owner.
#[derive(Debug, Clone, Copy, PartialEq, Eq, Structural)]
pub struct Piece {
    pub type_: PieceType,
    pub player: Player,
}

/// Side length of the board.
pub const BOARD_SIZE: usize = 8;

/// The grid: `board[x][y]` is the cell in row `x`, column `y`.
pub type Board = [[Option<Piece>; 8]; 8];

/// The piece in column `i` of a back row that is read from the left: rook,
/// knight, bishop, queen, king, bishop, knight, rook.
pub open spec fn back_row(i: int) -> PieceType {
    if i == 0 || i == 7 {
        PieceType::Rook
    } else if i == 1 || i == 6 {
        PieceType::Knight
    } else if i == 2 || i == 5 {
        PieceType::Bishop
    } else if i == 3 {
        PieceType::Queen
    } else {
        PieceType::King
    }
}

/// What the starting position holds on the cell in row `x`, column `y`.
/// `Black` has its back row in row 0 and its pawns in row 1; `White` has its
/// pawns in row 6 and its back row, read from the right, in row 7.
pub open spec fn initial_cell(x: int, y: int) -> Option<Piece> {
    if x == 0 {
        Some(Piece { type_: back_row(y), player: Player::Black })
    } else if x == 1 {
        Some(Piece { type_: PieceType::Pawn, player: Player::Black })
    } else if x == 6 {
        Some(Piece { type_: PieceType::Pawn, player: Player::White })
    } else if x == 7 {
        Some(Piece { type_: back_row(7 - y), player: Player::White })
    } else {
        None
    }
}

/// The piece in column `i` of a back row, see [`back_row`].
pub fn back_row_piece(i: usize) -> (r: PieceType)
    requires
        i < 8,
    ensures
        r == back_row(i as int),
{
    if i == 0 || i == 7 {
        PieceType::Rook
    } else if i == 1 || i == 6 {
        PieceType::Knight
    } else if i == 2 || i == 5 {
        PieceType::Bishop
    } else if i == 3 {
        PieceType::Queen
    } else {
        PieceType::King
    }
}

/// The board of the starting position.
pub fn default_board() -> (board: Board)
    ensures
        forall|x: int, y: int| 0 <= x < 8 && 0 <= y < 8 ==> (#[trigger] board[x][y]) == initial_cell(x, y),
{
    let row: [Option<Piece>; 8] = [None; 8];
    let mut board: Board = [row; 8];
    assert(forall|x: int, y: int| 0 <= x < 8 && 0 <= y < 8 ==> (#[trigger] board[x][y]) is None);
    let mut i: usize = 0;
    while i < 8
        invariant
            i <= 8,
            forall|x: int, y: int|
                0 <= x < 8 && 0 <= y < 8 ==> (#[trigger] board[x][y]) == (if y < i {
                    initial_cell(x, y)
                } else {
                    None
                }),
        decreases 8 - i,
    {
        board[0][i] = Some(Piece { player: Player::Black, type_: back_row_piece(i) });
        board[1][i] = Some(Piece { player: Player::Black, type_: PieceType::Pawn });
        board[BOARD_SIZE - 2][i] = Some(Piece { player: Player::White, type_: PieceType::Pawn });
        board[BOARD_SIZE - 1][i] = Some(
            Piece { player: Player::White, type_: back_row_piece(BOARD_SIZE - 1 - i) },
        );
        i += 1;
    }
    board
}

} // verus!
