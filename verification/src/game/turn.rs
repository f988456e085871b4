//! Playing a turn: a sequence of steps is accepted where the generator lists
//! it as legal, and then changes the board.

use crate::api::Error;
use crate::game::generator::{on_board, sequence_of, sequences_view, sound_turn, Chain};
use crate::game::{Board, GameState, GameStatus, Move, MoveSequence, Piece, Position};
use vstd::prelude::*;

verus! {

/// Whether `i` is the first of the turns whose steps are `moves`.
pub open spec fn first_turn_with(
    turns: Seq<(Seq<Move>, Seq<(usize, usize)>)>,
    moves: Seq<Move>,
    i: int,
) -> bool {
    &&& 0 <= i < turns.len()
    &&& turns[i].0 == moves
    &&& forall|j: int| 0 <= j < i ==> (#[trigger] turns[j]).0 != moves
}

/// Whether one of the turns has the steps `moves`.
pub open spec fn has_turn_with(turns: Seq<(Seq<Move>, Seq<(usize, usize)>)>, moves: Seq<Move>) -> bool {
    exists|i: int| 0 <= i < turns.len() && (#[trigger] turns[i]).0 == moves
}

/// The cells that the first turn with the steps `moves` captures.
pub open spec fn captures_of(turns: Seq<(Seq<Move>, Seq<(usize, usize)>)>, moves: Seq<Move>) -> Seq<
    (usize, usize),
> {
    turns[choose|i: int| first_turn_with(turns, moves, i)].1
}

/// What stands in row `x`, column `y` once a turn is played: the piece has
/// gone from where the first step begins to where the last one ends, and the
/// captured cells are empty.
pub open spec fn cell_after(
    board: Board,
    moves: Seq<Move>,
    captures: Seq<(usize, usize)>,
    x: int,
    y: int,
) -> Option<Piece> {
    let origin = moves[0].from;
    let target = moves.last().to;
    if x == target.0 && y == target.1 {
        board[origin.0 as int][origin.1 as int]
    } else if (x == origin.0 && y == origin.1) || captures.contains((x as usize, y as usize)) {
        None
    } else {
        board[x][y]
    }
}

/// The number of pieces on the first `n` cells of a board, the cells counted
/// row by row. With `n` = 100 it is the number of pieces on the board.
pub open spec fn pieces(board: Board, n: int) -> nat
    decreases n,
{
    if n <= 0 {
        0
    } else {
        pieces(board, n - 1) + if board[(n - 1) / 10][(n - 1) % 10] is Some {
            1nat
        } else {
            0nat
        }
    }
}

/// Two boards that differ in one cell at most differ in their number of
/// pieces by what that cell holds.
pub proof fn lemma_pieces_after_write(before: Board, after: Board, x: int, y: int, n: int)
    requires
        0 <= x < 10,
        0 <= y < 10,
        0 <= n <= 100,
        forall|a: int, b: int|
            0 <= a < 10 && 0 <= b < 10 && !(a == x && b == y) ==> (#[trigger] after[a][b]) == before[a][b],
    ensures
        pieces(after, n) + (if x * 10 + y < n && before[x][y] is Some {
            1int
        } else {
            0int
        }) == pieces(before, n) + (if x * 10 + y < n && after[x][y] is Some {
            1int
        } else {
            0int
        }),
    decreases n,
{
    if n > 0 {
        lemma_pieces_after_write(before, after, x, y, n - 1);
        let a = (n - 1) / 10;
        let b = (n - 1) % 10;
        if a == x && b == y {
            assert(x * 10 + y == n - 1);
        } else {
            assert(x * 10 + y != n - 1);
            assert(after[a][b] == before[a][b]);
        }
    }
}

/// Whether two steps are the same.
pub fn same_move(a: &Move, b: &Move) -> (r: bool)
    ensures
        r == (*a == *b),
{
    a.from.0 == b.from.0 && a.from.1 == b.from.1 && a.to.0 == b.to.0 && a.to.1 == b.to.1
}

/// Whether two lists of steps are the same.
pub fn same_moves(a: &Vec<Move>, b: &Vec<Move>) -> (r: bool)
    ensures
        r == (a@ == b@),
{
    if a.len() != b.len() {
        return false;
    }
    let mut k: usize = 0;
    while k < a.len()
        invariant
            k <= a.len(),
            a.len() == b.len(),
            forall|j: int| 0 <= j < k ==> a@[j] == b@[j],
        decreases a.len() - k,
    {
        if !same_move(&a[k], &b[k]) {
            return false;
        }
        k += 1;
    }
    assert(a@ =~= b@);
    true
}

/// The place of the first turn with the steps `moves`, if there is one.
pub fn find_turn(turns: &Vec<MoveSequence>, moves: &Vec<Move>) -> (r: Option<usize>)
    ensures
        match r {
            Some(i) => first_turn_with(sequences_view(turns@), moves@, i as int),
            None => !has_turn_with(sequences_view(turns@), moves@),
        },
{
    let mut k: usize = 0;
    while k < turns.len()
        invariant
            k <= turns.len(),
            forall|j: int| 0 <= j < k ==> (#[trigger] sequences_view(turns@)[j]).0 != moves@,
        decreases turns.len() - k,
    {
        if same_moves(&turns[k].0, moves) {
            return Some(k);
        }
        k += 1;
    }
    None
}

impl GameState {
    /// Whether the steps `moves` are a turn that the side to move may play:
    /// the game still runs, and the generator lists a turn with these steps.
    pub open spec fn accepts(&self, moves: Seq<Move>) -> bool {
        self.status == GameStatus::InProgress && has_turn_with(self.legal_sequences(), moves)
    }

    /// A turn is accepted exactly if the game still runs and the steps are
    /// those of a legal chain.
    pub proof fn lemma_accepts(&self, moves: Seq<Move>)
        ensures
            self.accepts(moves) <==> self.status == GameStatus::InProgress && exists|c: Chain|
                #[trigger] self.legal_chains().contains(c) && c.moves == moves,
    {
        let chains = self.legal_chains();
        let turns = self.legal_sequences();
        if has_turn_with(turns, moves) {
            let i = choose|i: int| 0 <= i < turns.len() && (#[trigger] turns[i]).0 == moves;
            assert(turns[i] == sequence_of(chains[i]));
            assert(chains.contains(chains[i]) && chains[i].moves == moves);
        }
        if exists|c: Chain| #[trigger] chains.contains(c) && c.moves == moves {
            let c = choose|c: Chain| #[trigger] chains.contains(c) && c.moves == moves;
            let i = choose|i: int| 0 <= i < chains.len() && chains[i] == c;
            assert(turns[i] == sequence_of(chains[i]));
            assert(turns[i].0 == moves);
        }
    }

    /// Whether `after` is this position once the legal turn with the steps
    /// `moves` is played: the piece has moved, what the turn captures is off
    /// the board, the other side is to move, and the game goes on. The board
    /// has lost as many pieces as the turn captures, and gained none.
    pub open spec fn played(&self, moves: Seq<Move>, after: GameState) -> bool {
        &&& after.current_player == self.current_player.spec_opponent()
        &&& after.status == self.status
        &&& pieces(after.board, 100) + captures_of(self.legal_sequences(), moves).len() == pieces(
            self.board,
            100,
        )
        &&& forall|x: int, y: int|
            0 <= x < 10 && 0 <= y < 10 ==> (#[trigger] after.board[x][y]) == cell_after(
                self.board,
                moves,
                captures_of(self.legal_sequences(), moves),
                x,
                y,
            )
    }

    /// Plays a turn on the board and hands the move to the other side.
    pub fn play_turn(&mut self, moves: &Vec<Move>, captures: &Vec<Position>)
        requires
            sound_turn(old(self).board, old(self).current_player, moves@, captures@),
        ensures
            forall|x: int, y: int|
                0 <= x < 10 && 0 <= y < 10 ==> (#[trigger] final(self).board[x][y]) == cell_after(
                    old(self).board,
                    moves@,
                    captures@,
                    x,
                    y,
                ),
            final(self).current_player == old(self).current_player.spec_opponent(),
            final(self).status == old(self).status,
            pieces(final(self).board, 100) + captures@.len() == pieces(old(self).board, 100),
    {
        assert(on_board(moves@[0]));
        assert(on_board(moves@[moves@.len() - 1]));
        let origin = moves[0].from;
        let target = moves[moves.len() - 1].to;
        let piece = self.board[origin.0][origin.1];
        self.board[origin.0][origin.1] = None;
        proof {
            lemma_pieces_after_write(old(self).board, self.board, origin.0 as int, origin.1 as int, 100);
        }
        let mut k: usize = 0;
        while k < captures.len()
            invariant
                k <= captures.len(),
                origin.0 < 10 && origin.1 < 10,
                sound_turn(old(self).board, old(self).current_player, moves@, captures@),
                origin == moves@[0].from,
                self.current_player == old(self).current_player,
                self.status == old(self).status,
                pieces(self.board, 100) + 1 + k == pieces(old(self).board, 100),
                forall|x: int, y: int|
                    0 <= x < 10 && 0 <= y < 10 ==> (#[trigger] self.board[x][y]) == (if (x == origin.0 && y
                        == origin.1) || captures@.take(k as int).contains((x as usize, y as usize)) {
                        None
                    } else {
                        old(self).board[x][y]
                    }),
            decreases captures.len() - k,
        {
            let cell = captures[k];
            assert(cell == captures@[k as int]);
            let ghost earlier = self.board;
            proof {
                let done = captures@.take(k as int);
                if done.contains(cell) {
                    let j = choose|j: int| 0 <= j < done.len() && done[j] == cell;
                    assert(captures@[j] == captures@[k as int]);
                }
                assert(!done.contains(cell));
                assert(old(self).board[cell.0 as int][cell.1 as int] is Some);
                assert(crate::game::generator::holds_own(
                    old(self).board,
                    old(self).current_player,
                    moves@[0].from,
                ));
                assert(!(cell.0 == origin.0 && cell.1 == origin.1));
                assert(((cell.0 as int) as usize, (cell.1 as int) as usize) == cell);
                assert(earlier[cell.0 as int][cell.1 as int] == old(self).board[cell.0 as int][cell.1 as int]);
            }
            self.board[cell.0][cell.1] = None;
            proof {
                lemma_pieces_after_write(earlier, self.board, cell.0 as int, cell.1 as int, 100);
                let done = captures@.take(k as int);
                let more = captures@.take(k as int + 1);
                assert(more =~= done.push(cell));
                assert forall|c: (usize, usize)| #[trigger] more.contains(c) == (done.contains(c) || c == cell) by {
                    if done.contains(c) {
                        let j = choose|j: int| 0 <= j < done.len() && done[j] == c;
                        assert(more[j] == c);
                    }
                    if c == cell {
                        assert(more[k as int] == c);
                    }
                }
            }
            k += 1;
        }
        assert(captures@.take(captures@.len() as int) =~= captures@);
        let ghost lifted = self.board;
        proof {
            let last = moves@[moves@.len() - 1];
            assert(crate::game::generator::free_diagonal_step(old(self).board, last));
            assert(lifted[target.0 as int][target.1 as int] is None);
        }
        self.board[target.0][target.1] = piece;
        proof {
            lemma_pieces_after_write(lifted, self.board, target.0 as int, target.1 as int, 100);
        }
        self.current_player = self.current_player.opponent();
    }

    /// Plays the steps `seq` for the side to move, if they are a legal turn.
    ///
    /// The steps are held against the turns that the generator lists for the
    /// position. Where one has these steps, the piece is moved, what it captured
    /// is taken off the board, and the other side is to move. Otherwise, and in
    /// a game that is over, nothing changes and the turn is refused.
    pub fn apply_sequence(&mut self, seq: &Vec<Move>) -> (r: Result<(), Error>)
        ensures
            r is Ok <==> old(self).accepts(seq@),
            r is Err ==> r.unwrap_err() is InvalidMove && *final(self) == *old(self),
            r is Ok ==> old(self).played(seq@, *final(self)),
    {
        match self.status {
            GameStatus::InProgress => {},
            GameStatus::Victory(_) => {
                return Err(Error::InvalidMove);
            },
        }
        let legal = self.list_valid_moves();
        match find_turn(&legal, seq) {
            Some(i) => {
                let ghost turns = sequences_view(legal@);
                proof {
                    let chosen = choose|j: int| first_turn_with(turns, seq@, j);
                    assert(first_turn_with(turns, seq@, i as int));
                    assert(chosen == i) by {
                        if chosen < i {
                            assert(turns[chosen].0 != seq@);
                        } else if i < chosen {
                            assert(turns[i as int].0 != seq@);
                        }
                    }
                    assert(turns[i as int] == (legal@[i as int].0@, legal@[i as int].1@));
                    assert(has_turn_with(turns, seq@));
                }
                self.play_turn(&legal[i].0, &legal[i].1);
                Ok(())
            },
            None => Err(Error::InvalidMove),
        }
    }
}

} // verus!
