//! Checkers on the small board of eight rows and eight columns.

use crate::api::Error;
use crate::game::Player;
use vstd::prelude::*;

verus! {

/// What a piece is: a man, or a promoted king.
#[derive(Debug, Clone, Copy, PartialEq, Eq, Structural)]
pub enum PieceType {
    Man,
    King,
}

impl PieceType {
    /// The one-character code of the kind on the wire.
    pub open spec fn code(self) -> char {
        match self {
            PieceType::Man => 'M',
            PieceType::King => 'K',
        }
    }

    /// The wire code of the kind, as text.
    pub fn to_string(&self) -> (s: String)
        ensures
            s@ == seq![self.code()],
    {
        proof {
            reveal_strlit("M");
            reveal_strlit("K");
        }
        let s = match self {
            PieceType::Man => String::from_str("M"),
            PieceType::King => String::from_str("K"),
        };
        assert(s@ =~= seq![self.code()]);
        s
    }
}

/// A piece on the board: its kind and its owner.
#[derive(Debug, Clone, Copy, PartialEq, Eq, Structural)]
pub struct Piece {
    pub type_: PieceType,
    pub player: Player,
}

impl Piece {
    /// The two characters that stand for the piece on the wire: kind, then owner.
    pub open spec fn code(self) -> Seq<char> {
        seq![self.type_.code(), self.player.code()]
    }

    /// The wire text of the piece.
    pub fn to_string(&self) -> (s: String)
        ensures
            s@ == self.code(),
    {
        let mut s = self.type_.to_string();
        let owner = self.player.to_string();
        s.append(owner.as_str());
        assert(s@ =~= self.code());
        s
    }
}

/// Side length of the board.
pub const BOARD_SIZE: usize = 8;

/// The grid: `board[x][y]` is the cell in row `x`, column `y`.
pub type Board = [[Option<Piece>; 8]; 8];

/// What the starting position holds on the cell in row `x`, column `y`: men
/// on every second cell of the three rows at each end, `Black` in rows 0 to 2
/// and `White` in the last three.
pub open spec fn initial_cell(x: int, y: int) -> Option<Piece> {
    if (x + y) % 2 != 0 {
        None
    } else if 0 <= x < 3 {
        Some(Piece { type_: PieceType::Man, player: Player::Black })
    } else if 5 <= x < 8 {
        Some(Piece { type_: PieceType::Man, player: Player::White })
    } else {
        None
    }
}

/// Puts a man of `player` on every second cell of a row.
pub fn fill_row(board: &mut Board, row: usize, player: Player)
    requires
        row < 8,
    ensures
        forall|x: int, y: int|
            0 <= x < 8 && 0 <= y < 8 ==> (#[trigger] final(board)[x][y]) == (if x == row && (x + y) % 2 == 0 {
                Some(Piece { type_: PieceType::Man, player })
            } else {
                old(board)[x][y]
            }),
{
    let mut i: usize = 0;
    while i < 8
        invariant
            row < 8,
            i <= 8,
            forall|x: int, y: int|
                0 <= x < 8 && 0 <= y < 8 ==> (#[trigger] board[x][y]) == (if x == row && y < i && (x + y) % 2
                    == 0 {
                    Some(Piece { type_: PieceType::Man, player })
                } else {
                    old(board)[x][y]
                }),
        decreases 8 - i,
    {
        if (i + row) % 2 == 0 {
            board[row][i] = Some(Piece { type_: PieceType::Man, player });
        }
        i += 1;
    }
}

/// The board of the starting position.
pub fn default_board() -> (board: Board)
    ensures
        forall|x: int, y: int| 0 <= x < 8 && 0 <= y < 8 ==> (#[trigger] board[x][y]) == initial_cell(x, y),
{
    let row: [Option<Piece>; 8] = [None; 8];
    let mut board: Board = [row; 8];
    assert(forall|x: int, y: int| 0 <= x < 8 && 0 <= y < 8 ==> (#[trigger] board[x][y]) is None);
    fill_row(&mut board, 0, Player::Black);
    fill_row(&mut board, 1, Player::Black);
    fill_row(&mut board, 2, Player::Black);
    fill_row(&mut board, BOARD_SIZE - 3, Player::White);
    fill_row(&mut board, BOARD_SIZE - 2, Player::White);
    fill_row(&mut board, BOARD_SIZE - 1, Player::White);
    board
}

/// A position on the small board: the board and the side to move.
#[derive(Debug, Clone, Copy)]
pub struct CheckersGame {
    pub board: Board,
    pub current_player: Player,
}

impl Default for CheckersGame {
    /// The starting position: `White` is to move.
    fn default() -> (state: Self)
        ensures
            forall|x: int, y: int|
                0 <= x < 8 && 0 <= y < 8 ==> (#[trigger] state.board[x][y]) == initial_cell(x, y),
            state.current_player == Player::White,
    {
        Self { board: default_board(), current_player: Player::White }
    }
}

/// The wire text of one cell: nothing for an empty cell, else the code of
/// its piece.
pub open spec fn cell_text(cell: Option<Piece>) -> Seq<char> {
    match cell {
        Some(piece) => piece.code(),
        None => Seq::empty(),
    }
}

/// What stands before the `k`-th cell in the wire text, the cells counted row
/// by row: nothing before the first, a line break before the first cell of a
/// later row, and a semicolon before any other.
pub open spec fn separator(k: int) -> Seq<char> {
    if k <= 0 {
        Seq::empty()
    } else if k % 8 == 0 {
        seq!['\n']
    } else {
        seq![';']
    }
}

/// The wire text of the first `n` cells of a board, the cells counted row by
/// row. With `n` = 64 it is the text of the board.
pub open spec fn wire_text(board: Board, n: int) -> Seq<char>
    decreases n,
{
    if n <= 0 {
        Seq::empty()
    } else {
        wire_text(board, n - 1) + separator(n - 1) + cell_text(board[(n - 1) / 8][(n - 1) % 8])
    }
}

impl CheckersGame {
    /// The wire text of the board.
    pub open spec fn csv(&self) -> Seq<char> {
        wire_text(self.board, 64)
    }

    /// Renders the board as wire text: one line per row, the cells of a row
    /// separated by semicolons, an empty cell as nothing and a piece as the
    /// code of its kind and the code of its owner.
    pub fn to_csv_string(&self) -> (text: String)
        ensures
            text@ == self.csv(),
    {
        let mut text = String::new();
        let mut x: usize = 0;
        while x < 8
            invariant
                x <= 8,
                text@ == wire_text(self.board, x * 8),
            decreases 8 - x,
        {
            let mut y: usize = 0;
            while y < 8
                invariant
                    x < 8,
                    y <= 8,
                    text@ == wire_text(self.board, x * 8 + y),
                decreases 8 - y,
            {
                let ghost before = text@;
                let ghost k = (x * 8 + y) as int;
                assert(k / 8 == x && k % 8 == y);
                proof {
                    reveal_strlit("\n");
                    reveal_strlit(";");
                }
                if y > 0 {
                    text.append(";");
                } else if x > 0 {
                    text.append("\n");
                }
                assert(text@ =~= before + separator(k));
                match self.board[x][y] {
                    Some(piece) => {
                        let code = piece.to_string();
                        text.append(code.as_str());
                    },
                    None => {},
                }
                assert(text@ =~= before + separator(k) + cell_text(self.board[x as int][y as int]));
                y += 1;
            }
            x += 1;
        }
        text
    }

    /// Moves what stands on `from` to `to`, and leaves `from` empty.
    pub fn apply_move(&mut self, from: (usize, usize), to: (usize, usize)) -> (r: Result<(), Error>)
        requires
            from.0 < 8 && from.1 < 8,
            to.0 < 8 && to.1 < 8,
        ensures
            r is Ok,
            final(self).current_player == old(self).current_player,
            forall|x: int, y: int|
                0 <= x < 8 && 0 <= y < 8 ==> (#[trigger] final(self).board[x][y]) == (if x == to.0 && y
                    == to.1 {
                    old(self).board[from.0 as int][from.1 as int]
                } else if x == from.0 && y == from.1 {
                    None
                } else {
                    old(self).board[x][y]
                }),
    {
        let piece = self.board[from.0][from.1];
        self.board[from.0][from.1] = None;
        self.board[to.0][to.1] = piece;
        Ok(())
    }
}

} // verus!
