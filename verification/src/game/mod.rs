//! The board, its pieces, and the generator of legal move sequences.

use crate::api::Error;
use vstd::prelude::*;

pub mod checker;
pub mod chess;
pub mod generator;
pub mod rules;
pub mod turn;

verus! {

/// One of the two sides. `White` moves first and advances towards row 0.
#[derive(Debug, Clone, Copy, PartialEq, Eq, Hash, Structural)]
pub enum Player {
    White,
    Black,
}

impl Player {
    /// The other side.
    pub open spec fn spec_opponent(self) -> Player {
        match self {
            Player::White => Player::Black,
            Player::Black => Player::White,
        }
    }

    /// The one-character code of the side on the wire.
    pub open spec fn code(self) -> char {
        match self {
            Player::White => 'W',
            Player::Black => 'B',
        }
    }

    /// The other side.
    #[verifier::when_used_as_spec(spec_opponent)]
    pub fn opponent(self) -> (r: Player)
        ensures
            r == self.spec_opponent(),
    {
        match self {
            Player::White => Player::Black,
            Player::Black => Player::White,
        }
    }

    /// The wire code of the side, as text.
    pub fn to_string(&self) -> (s: String)
        ensures
            s@ == seq![self.code()],
    {
        proof {
            reveal_strlit("W");
            reveal_strlit("B");
        }
        let s = match self {
            Player::White => String::from_str("W"),
            Player::Black => String::from_str("B"),
        };
        assert(s@ =~= seq![self.code()]);
        s
    }
}

/// What a piece is: a man, or a promoted king.
#[derive(Debug, Clone, Copy, PartialEq, Eq, Hash, Structural)]
pub enum PieceType {
    Man,
    King,
}

impl PieceType {
    /// The one-character code of the kind on the wire.
    pub open spec fn code(self) -> char {
        match self {
            PieceType::Man => 'M',
            PieceType::King => 'K',
        }
    }

    /// The wire code of the kind, as text.
    pub fn to_string(&self) -> (s: String)
        ensures
            s@ == seq![self.code()],
    {
        proof {
            reveal_strlit("M");
            reveal_strlit("K");
        }
        let s = match self {
            PieceType::Man => String::from_str("M"),
            PieceType::King => String::from_str("K"),
        };
        assert(s@ =~= seq![self.code()]);
        s
    }
}

/// A piece on the board: its kind and its owner.
#[derive(Debug, Clone, Copy, PartialEq, Eq, Hash, Structural)]
pub struct Piece {
    pub type_: PieceType,
    pub player: Player,
}

impl Piece {
    /// The two characters that stand for the piece on the wire: kind, then owner.
    pub open spec fn code(self) -> Seq<char> {
        seq![self.type_.code(), self.player.code()]
    }

    /// The wire text of the piece.
    pub fn to_string(&self) -> (s: String)
        ensures
            s@ == self.code(),
    {
        let mut s = self.type_.to_string();
        let owner = self.player.to_string();
        s.append(owner.as_str());
        assert(s@ =~= self.code());
        s
    }
}

/// Side length of the board.
pub const BOARD_SIZE: usize = 10;

/// The grid: `board[x][y]` is the cell in row `x`, column `y`.
pub type Board = [[Option<Piece>; 10]; 10];

/// A cell given by row and column.
pub type Position = (usize, usize);

/// One turn: the steps of one piece, and the cells it captured on the way.
pub type MoveSequence = (Vec<Move>, Vec<Position>);

/// One relocation of a piece, from one cell to another.
#[derive(Debug, Clone, Copy, PartialEq, Eq, Hash)]
pub struct Move {
    pub from: Position,
    pub to: Position,
}

/// Whether a game still runs, or who has won it.
#[derive(Debug, Clone, Copy, PartialEq, Eq, Structural)]
pub enum GameStatus {
    InProgress,
    Victory(Player),
}

/// A position: the board, the side to move, and the status of the game.
#[derive(Debug, Clone, Copy)]
pub struct GameState {
    pub board: Board,
    pub current_player: Player,
    pub status: GameStatus,
}

/// What a caller gets after a turn: the position, and the diagnostic text of
/// the program.
#[derive(Debug)]
pub struct TurnStatus {
    pub game: GameState,
    pub ai_output: String,
}

/// A signed coordinate pair: a cell when both parts lie on the board, or an
/// offset between two cells.
#[derive(Debug, Clone, Copy, PartialEq, Eq, Structural)]
pub struct Pos {
    pub x: i32,
    pub y: i32,
}

impl Pos {
    /// Componentwise sum.
    pub open spec fn spec_add(self, rhs: Pos) -> Pos {
        Pos { x: (self.x + rhs.x) as i32, y: (self.y + rhs.y) as i32 }
    }

    /// Both components multiplied by `rhs`.
    pub open spec fn spec_mul(self, rhs: i32) -> Pos {
        Pos { x: (self.x * rhs) as i32, y: (self.y * rhs) as i32 }
    }

    /// Componentwise sum, see [`Pos::spec_add`].
    pub fn add(self, rhs: Pos) -> (r: Pos)
        requires
            i32::MIN <= self.x + rhs.x <= i32::MAX,
            i32::MIN <= self.y + rhs.y <= i32::MAX,
        ensures
            r == self.spec_add(rhs),
            r.x == self.x + rhs.x,
            r.y == self.y + rhs.y,
    {
        Pos { x: self.x + rhs.x, y: self.y + rhs.y }
    }

    /// Both components multiplied by `rhs`, see [`Pos::spec_mul`].
    pub fn mul(self, rhs: i32) -> (r: Pos)
        requires
            i32::MIN <= self.x * rhs <= i32::MAX,
            i32::MIN <= self.y * rhs <= i32::MAX,
        ensures
            r == self.spec_mul(rhs),
            r.x == self.x * rhs,
            r.y == self.y * rhs,
    {
        Pos { x: self.x * rhs, y: self.y * rhs }
    }
}

/// Whether a coordinate pair names a cell of the board.
pub open spec fn valid_pos(pos: Pos) -> bool {
    0 <= pos.x < 10 && 0 <= pos.y < 10
}

/// What stands on a cell of the board.
pub open spec fn piece_at(board: Board, pos: Pos) -> Option<Piece> {
    board[pos.x as int][pos.y as int]
}

/// The step of a piece from one cell to another.
pub open spec fn spec_mov(from: Pos, to: Pos) -> Move {
    Move { from: (from.x as usize, from.y as usize), to: (to.x as usize, to.y as usize) }
}

/// Whether a coordinate pair names a cell of the board.
pub fn is_valid_pos(pos: Pos) -> (r: bool)
    ensures
        r == valid_pos(pos),
{
    0 <= pos.x && pos.x < 10 && 0 <= pos.y && pos.y < 10
}

/// What stands on a cell of the board.
pub fn at(board: &Board, pos: Pos) -> (r: Option<Piece>)
    requires
        valid_pos(pos),
    ensures
        r == piece_at(*board, pos),
{
    board[pos.x as usize][pos.y as usize]
}

/// The coordinate pair of row `x` and column `y`.
pub fn p(x: i32, y: i32) -> (r: Pos)
    ensures
        r == (Pos { x, y }),
{
    Pos { x, y }
}

/// The step of a piece from one cell to another.
pub fn mov(from: Pos, to: Pos) -> (r: Move)
    requires
        valid_pos(from),
        valid_pos(to),
    ensures
        r == spec_mov(from, to),
{
    Move { from: (from.x as usize, from.y as usize), to: (to.x as usize, to.y as usize) }
}

/// What the starting position holds on the cell in row `x`, column `y`: men
/// on every second cell of the three rows at each end, `Black` in rows 0 to 2
/// and `White` in the last three.
pub open spec fn initial_cell(x: int, y: int) -> Option<Piece> {
    if (x + y) % 2 != 0 {
        None
    } else if 0 <= x < 3 {
        Some(Piece { type_: PieceType::Man, player: Player::Black })
    } else if 7 <= x < 10 {
        Some(Piece { type_: PieceType::Man, player: Player::White })
    } else {
        None
    }
}

/// Puts a man of `player` on every second cell of a row.
pub fn fill_row(board: &mut Board, row: usize, player: Player)
    requires
        row < 10,
    ensures
        forall|x: int, y: int|
            0 <= x < 10 && 0 <= y < 10 ==> (#[trigger] final(board)[x][y]) == (if x == row && (x + y) % 2
                == 0 {
                Some(Piece { type_: PieceType::Man, player })
            } else {
                old(board)[x][y]
            }),
{
    let mut i: usize = 0;
    while i < 10
        invariant
            row < 10,
            i <= 10,
            forall|x: int, y: int|
                0 <= x < 10 && 0 <= y < 10 ==> (#[trigger] board[x][y]) == (if x == row && y < i && (x + y)
                    % 2 == 0 {
                    Some(Piece { type_: PieceType::Man, player })
                } else {
                    old(board)[x][y]
                }),
        decreases 10 - i,
    {
        if (i + row) % 2 == 0 {
            board[row][i] = Some(Piece { type_: PieceType::Man, player });
        }
        i += 1;
    }
}

/// The board of the starting position.
pub fn default_board() -> (board: Board)
    ensures
        forall|x: int, y: int| 0 <= x < 10 && 0 <= y < 10 ==> (#[trigger] board[x][y]) == initial_cell(x, y),
{
    let row: [Option<Piece>; 10] = [None; 10];
    let mut board: Board = [row; 10];
    assert(forall|x: int, y: int| 0 <= x < 10 && 0 <= y < 10 ==> (#[trigger] board[x][y]) is None);
    fill_row(&mut board, 0, Player::Black);
    fill_row(&mut board, 1, Player::Black);
    fill_row(&mut board, 2, Player::Black);
    fill_row(&mut board, BOARD_SIZE - 3, Player::White);
    fill_row(&mut board, BOARD_SIZE - 2, Player::White);
    fill_row(&mut board, BOARD_SIZE - 1, Player::White);
    board
}

impl Default for GameState {
    /// The starting position: `White` is to move.
    fn default() -> (state: Self)
        ensures
            forall|x: int, y: int|
                0 <= x < 10 && 0 <= y < 10 ==> (#[trigger] state.board[x][y]) == initial_cell(x, y),
            state.current_player == Player::White,
            state.status == GameStatus::InProgress,
    {
        Self { board: default_board(), current_player: Player::White, status: GameStatus::InProgress }
    }
}

/// The wire text of one cell: nothing for an empty cell, else the code of
/// its piece.
pub open spec fn cell_text(cell: Option<Piece>) -> Seq<char> {
    match cell {
        Some(piece) => piece.code(),
        None => Seq::empty(),
    }
}

/// What stands before the `k`-th cell in the wire text, the cells counted row
/// by row: nothing before the first, a line break before the first cell of a
/// later row, and a semicolon before any other.
pub open spec fn separator(k: int) -> Seq<char> {
    if k <= 0 {
        Seq::empty()
    } else if k % 10 == 0 {
        seq!['\n']
    } else {
        seq![';']
    }
}

/// The wire text of the first `n` cells of a board, the cells counted row by
/// row. With `n` = 100 it is the text of the board: one line per row, the
/// cells of a row separated by semicolons.
pub open spec fn wire_text(board: Board, n: int) -> Seq<char>
    decreases n,
{
    if n <= 0 {
        Seq::empty()
    } else {
        wire_text(board, n - 1) + separator(n - 1) + cell_text(board[(n - 1) / 10][(n - 1) % 10])
    }
}

/// Whether a character is the code of a side.
pub open spec fn is_owner_code(c: char) -> bool {
    c == 'W' || c == 'B'
}

/// The piece that two characters of wire text stand for.
pub open spec fn piece_of_codes(kind: char, owner: char) -> Piece {
    Piece {
        type_: if kind == 'K' {
            PieceType::King
        } else {
            PieceType::Man
        },
        player: if owner == 'B' {
            Player::Black
        } else {
            Player::White
        },
    }
}

/// Reads the last `n` cells back from a wire text, from its end: a text that
/// ends in the code of a side ends in a piece, any other in an empty cell.
pub open spec fn read_cells(text: Seq<char>, n: int) -> Seq<Option<Piece>>
    decreases n,
{
    if n <= 0 {
        Seq::empty()
    } else if text.len() >= 2 && is_owner_code(text.last()) {
        let piece = piece_of_codes(text[text.len() - 2], text[text.len() - 1]);
        let rest = if text.len() >= 3 {
            text.take(text.len() - 3)
        } else {
            Seq::empty()
        };
        read_cells(rest, n - 1).push(Some(piece))
    } else {
        let rest = if text.len() >= 1 {
            text.drop_last()
        } else {
            Seq::empty()
        };
        read_cells(rest, n - 1).push(None)
    }
}

/// Reading the cells back from the wire text of the first `n` cells of a
/// board gives those cells.
pub proof fn lemma_read_cells_of_wire_text(board: Board, n: int)
    requires
        0 <= n <= 100,
    ensures
        read_cells(wire_text(board, n), n).len() == n,
        forall|k: int| 0 <= k < n ==> (#[trigger] read_cells(wire_text(board, n), n)[k]) == board[k / 10][k % 10],
    decreases n,
{
    if n > 0 {
        lemma_read_cells_of_wire_text(board, n - 1);
        let before = wire_text(board, n - 1);
        let text = wire_text(board, n);
        let cell = board[(n - 1) / 10][(n - 1) % 10];
        assert(text == before + separator(n - 1) + cell_text(cell));
        match cell {
            Some(piece) => {
                assert(cell_text(cell) == seq![piece.type_.code(), piece.player.code()]);
                assert(text.len() == before.len() + separator(n - 1).len() + 2);
                assert(text.last() == piece.player.code());
                assert(text[text.len() - 2] == piece.type_.code());
                assert(piece_of_codes(piece.type_.code(), piece.player.code()) == piece);
                if n == 1 {
                    assert(before =~= Seq::empty());
                    assert(text.len() == 2);
                } else {
                    assert(text.take(text.len() - 3) =~= before);
                }
            },
            None => {
                if n == 1 {
                    assert(text =~= Seq::empty());
                    assert(before =~= Seq::empty());
                } else {
                    assert(text =~= before + separator(n - 1));
                    assert(text.last() == separator(n - 1)[0]);
                    assert(text.drop_last() =~= before);
                }
            },
        }
    }
}

impl GameState {
    /// The wire text of the board.
    pub open spec fn csv(&self) -> Seq<char> {
        wire_text(self.board, 100)
    }

    /// The occupancy of the board read back from its wire text is the board:
    /// the text loses no piece and invents none.
    pub proof fn lemma_csv_round_trip(&self)
        ensures
            read_cells(self.csv(), 100).len() == 100,
            forall|x: int, y: int|
                0 <= x < 10 && 0 <= y < 10 ==> (#[trigger] read_cells(self.csv(), 100)[x * 10 + y])
                    == self.board[x][y],
    {
        lemma_read_cells_of_wire_text(self.board, 100);
        assert forall|x: int, y: int| 0 <= x < 10 && 0 <= y < 10 implies (#[trigger] read_cells(
            self.csv(),
            100,
        )[x * 10 + y]) == self.board[x][y] by {
            let k = x * 10 + y;
            assert(k / 10 == x && k % 10 == y);
        }
    }

    /// Renders the board as wire text: one line per row, the cells of a row
    /// separated by semicolons, an empty cell as nothing and a piece as the
    /// code of its kind and the code of its owner.
    pub fn to_csv_string(&self) -> (text: String)
        ensures
            text@ == self.csv(),
    {
        let mut text = String::new();
        let mut x: usize = 0;
        while x < 10
            invariant
                x <= 10,
                text@ == wire_text(self.board, x * 10),
            decreases 10 - x,
        {
            let mut y: usize = 0;
            while y < 10
                invariant
                    x < 10,
                    y <= 10,
                    text@ == wire_text(self.board, x * 10 + y),
                decreases 10 - y,
            {
                let ghost before = text@;
                let ghost k = (x * 10 + y) as int;
                assert(k / 10 == x && k % 10 == y);
                proof {
                    reveal_strlit("\n");
                    reveal_strlit(";");
                }
                if y > 0 {
                    text.append(";");
                } else if x > 0 {
                    text.append("\n");
                }
                assert(text@ =~= before + separator(k));
                match self.board[x][y] {
                    Some(piece) => {
                        let code = piece.to_string();
                        text.append(code.as_str());
                    },
                    None => {},
                }
                assert(text@ =~= before + separator(k) + cell_text(self.board[x as int][y as int]));
                y += 1;
            }
            x += 1;
        }
        text
    }

    /// Moves what stands on `from` to `to`, and leaves `from` empty.
    pub fn apply_move(&mut self, from: (usize, usize), to: (usize, usize)) -> (r: Result<(), Error>)
        requires
            from.0 < 10 && from.1 < 10,
            to.0 < 10 && to.1 < 10,
        ensures
            r is Ok,
            final(self).current_player == old(self).current_player,
            final(self).status == old(self).status,
            forall|x: int, y: int|
                0 <= x < 10 && 0 <= y < 10 ==> (#[trigger] final(self).board[x][y]) == (if x == to.0 && y
                    == to.1 {
                    old(self).board[from.0 as int][from.1 as int]
                } else if x == from.0 && y == from.1 {
                    None
                } else {
                    old(self).board[x][y]
                }),
    {
        let piece = self.board[from.0][from.1];
        self.board[from.0][from.1] = None;
        self.board[to.0][to.1] = piece;
        Ok(())
    }
}

} // verus!
