//! The search for the legal move sequences of a position.
//!
//! A turn is a plain step of one piece, or a chain of capturing jumps by one
//! piece. The search builds the chains of every piece of the side to move and
//! keeps those that capture the most.

use crate::game::{at, is_valid_pos, mov, p, piece_at, spec_mov, valid_pos};
use crate::game::{Board, GameState, Move, MoveSequence, PieceType, Player, Pos};
use vstd::prelude::*;

verus! {

/// A chain in the making, as a mathematical value: where the piece stands,
/// the cells it has captured so far, and the steps it has made.
pub struct Chain {
    pub pos: Pos,
    pub captures: Seq<Pos>,
    pub moves: Seq<Move>,
}

/// A chain in the making.
#[derive(Debug)]
pub struct Intermediate {
    pub pos: Pos,
    pub captures: Vec<Pos>,
    pub moves: Vec<Move>,
}

impl View for Intermediate {
    type V = Chain;

    open spec fn view(&self) -> Chain {
        Chain { pos: self.pos, captures: self.captures@, moves: self.moves@ }
    }
}

/// The chains that a vector of search states stands for.
pub open spec fn chains_view(v: Seq<Intermediate>) -> Seq<Chain> {
    v.map_values(|i: Intermediate| i@)
}

/// The number of cells of the board: no chain captures more.
pub open spec fn max_chain_captures() -> nat {
    100
}

/// The `k`-th of the four diagonal directions.
pub open spec fn diagonal(k: int) -> Pos {
    if k == 0 {
        Pos { x: 1i32, y: 1i32 }
    } else if k == 1 {
        Pos { x: 1i32, y: -1i32 }
    } else if k == 2 {
        Pos { x: -1i32, y: 1i32 }
    } else {
        Pos { x: -1i32, y: -1i32 }
    }
}

/// The row direction in which the men of a side advance.
pub open spec fn forward(player: Player) -> int {
    match player {
        Player::White => -1,
        Player::Black => 1,
    }
}

/// The chain `c` after one more step to `new_pos`, which captures `captured`
/// if that is a cell. There is none if the cell was captured before in this
/// chain, or if the chain already holds as many captures as the board has
/// cells.
pub open spec fn extend(c: Chain, new_pos: Pos, captured: Option<Pos>) -> Option<Chain> {
    match captured {
        Some(cell) => if c.captures.contains(cell) || c.captures.len() >= max_chain_captures() {
            None
        } else {
            Some(
                Chain {
                    pos: new_pos,
                    captures: c.captures.push(cell),
                    moves: c.moves.push(spec_mov(c.pos, new_pos)),
                },
            )
        },
        None => Some(
            Chain {
                pos: new_pos,
                captures: c.captures,
                moves: c.moves.push(spec_mov(c.pos, new_pos)),
            },
        ),
    }
}

/// Whether a piece of `player` on `from` can jump in direction `d`: the next
/// cell holds a piece of the other side, and the cell behind it is on the
/// board and empty.
pub open spec fn capture_jump(board: Board, player: Player, from: Pos, d: Pos) -> bool {
    let landing = from.spec_add(d.spec_mul(2));
    let victim = from.spec_add(d);
    &&& valid_pos(landing)
    &&& piece_at(board, landing) is None
    &&& piece_at(board, victim) is Some
    &&& piece_at(board, victim).unwrap().player != player
}

/// The chain `c` after a jump of a man in the `k`-th diagonal direction, if
/// the man can jump there and has not captured that piece before.
pub open spec fn man_jump_to(board: Board, player: Player, c: Chain, k: int) -> Option<Chain> {
    let d = diagonal(k);
    if 0 <= k < 4 && capture_jump(board, player, c.pos, d) {
        extend(c, c.pos.spec_add(d.spec_mul(2)), Some(c.pos.spec_add(d)))
    } else {
        None
    }
}

/// The chains of a man that continue `c` with a jump in the `k`-th diagonal
/// direction.
pub open spec fn man_jump(board: Board, player: Player, c: Chain, k: int) -> Seq<Chain>
    decreases max_chain_captures() - c.captures.len(), 0int, 0int,
{
    match man_jump_to(board, player, c, k) {
        Some(next) => man_continue(board, player, next),
        None => Seq::empty(),
    }
}

/// The chains of a man that continue `c` with a jump in one of the first `n`
/// diagonal directions.
pub open spec fn man_jumps(board: Board, player: Player, c: Chain, n: int) -> Seq<Chain>
    decreases max_chain_captures() - c.captures.len(), 1int, n,
{
    if n <= 0 {
        Seq::empty()
    } else {
        man_jumps(board, player, c, n - 1) + man_jump(board, player, c, n - 1)
    }
}

/// The finished chains of a man that has captured already and stands at the
/// end of `c`: every way to jump on, in all four directions, to the end; or
/// `c` itself where no jump is left.
pub open spec fn man_continue(board: Board, player: Player, c: Chain) -> Seq<Chain>
    decreases max_chain_captures() - c.captures.len(), 2int, 0int,
{
    let longer = man_jumps(board, player, c, 4);
    if longer.len() == 0 {
        seq![c]
    } else {
        longer
    }
}

/// The first step of a man on `pos` to the side `dy` (1 or -1): a plain step
/// forward where that cell is empty, else every chain that begins with a jump
/// over it.
pub open spec fn man_opening(board: Board, player: Player, pos: Pos, dy: int) -> Seq<Chain> {
    let d = Pos { x: forward(player) as i32, y: dy as i32 };
    let next = pos.spec_add(d);
    if !valid_pos(next) {
        Seq::empty()
    } else if piece_at(board, next) is None {
        seq![Chain { pos: next, captures: Seq::empty(), moves: seq![spec_mov(pos, next)] }]
    } else if capture_jump(board, player, pos, d) {
        let landing = pos.spec_add(d.spec_mul(2));
        man_continue(
            board,
            player,
            Chain { pos: landing, captures: seq![next], moves: seq![spec_mov(pos, landing)] },
        )
    } else {
        Seq::empty()
    }
}

/// Every finished chain of a man of `player` that stands on `pos`.
pub open spec fn man_chains(board: Board, player: Player, pos: Pos) -> Seq<Chain> {
    man_opening(board, player, pos, 1) + man_opening(board, player, pos, -1)
}

/// Whether a cell holds a piece of the side that `player` plays against.
pub open spec fn holds_opponent(board: Board, player: Player, cell: Pos) -> bool {
    &&& valid_pos(cell)
    &&& piece_at(board, cell) is Some
    &&& piece_at(board, cell).unwrap().player != player
}

/// What holds of every chain of the search. The piece stands on the board;
/// each captured cell holds a piece of the other side, and no cell is
/// captured twice; there are no more captures than steps; the steps follow
/// one another along diagonals over the board, each to an empty cell, from
/// a cell that holds a piece of `player` to where the piece stands now.
pub open spec fn well_formed(board: Board, player: Player, c: Chain) -> bool {
    &&& valid_pos(c.pos)
    &&& forall|k: int| 0 <= k < c.captures.len() ==> holds_opponent(board, player, #[trigger] c.captures[k])
    &&& c.captures.no_duplicates()
    &&& c.captures.len() <= c.moves.len()
    &&& connected(c.moves)
    &&& forall|k: int| 0 <= k < c.moves.len() ==> free_diagonal_step(board, #[trigger] c.moves[k])
    &&& c.moves.len() > 0 ==> c.moves.last().to == position_of(c.pos)
    &&& holds_own(board, player, origin(c))
}

/// The cell on which the piece of a chain stood before its first step.
pub open spec fn origin(c: Chain) -> (usize, usize) {
    if c.moves.len() > 0 {
        c.moves[0].from
    } else {
        position_of(c.pos)
    }
}

/// Whether a cell lies on the board and holds a piece of `player`.
pub open spec fn holds_own(board: Board, player: Player, cell: (usize, usize)) -> bool {
    &&& cell.0 < 10
    &&& cell.1 < 10
    &&& board[cell.0 as int][cell.1 as int] is Some
    &&& board[cell.0 as int][cell.1 as int].unwrap().player == player
}

/// Whether a step goes along a diagonal, by one cell or more, to a cell that
/// is empty on the board.
pub open spec fn free_diagonal_step(board: Board, m: Move) -> bool {
    let dx = m.to.0 - m.from.0;
    let dy = m.to.1 - m.from.1;
    &&& dx != 0
    &&& (dx == dy || dx == -dy)
    &&& board[m.to.0 as int][m.to.1 as int] is None
}

/// Whether the steps of a turn stay on the board and each begins where the
/// one before it ended.
pub open spec fn connected(moves: Seq<Move>) -> bool {
    &&& forall|k: int| 0 <= k < moves.len() ==> on_board(#[trigger] moves[k])
    &&& forall|k: int| 0 < k < moves.len() ==> moves[k - 1].to == (#[trigger] moves[k]).from
}

/// Whether a step begins and ends on the board.
pub open spec fn on_board(m: Move) -> bool {
    m.from.0 < 10 && m.from.1 < 10 && m.to.0 < 10 && m.to.1 < 10
}

/// Whether a chain is well formed and has made a step.
pub open spec fn finished(board: Board, player: Player, c: Chain) -> bool {
    well_formed(board, player, c) && c.moves.len() > 0
}

/// Whether every chain of a list is well formed and has made a step.
pub open spec fn all_well_formed(board: Board, player: Player, chains: Seq<Chain>) -> bool {
    forall|k: int| 0 <= k < chains.len() ==> finished(board, player, #[trigger] chains[k])
}

/// A well-formed chain stays well formed when it is extended by a step onto
/// the board that captures nothing or a piece of the other side.
pub proof fn lemma_extend_well_formed(
    board: Board,
    player: Player,
    c: Chain,
    new_pos: Pos,
    captured: Option<Pos>,
)
    requires
        well_formed(board, player, c),
        valid_pos(new_pos),
        free_diagonal_step(board, spec_mov(c.pos, new_pos)),
        captured is Some ==> holds_opponent(board, player, captured.unwrap()),
        extend(c, new_pos, captured) is Some,
    ensures
        well_formed(board, player, extend(c, new_pos, captured).unwrap()),
{
    let next = extend(c, new_pos, captured).unwrap();
    match captured {
        Some(cell) => {
            assert(!c.captures.contains(cell));
            assert forall|a: int, b: int|
                0 <= a < next.captures.len() && 0 <= b < next.captures.len() && a != b implies next.captures[a]
                != next.captures[b] by {
                if a < c.captures.len() && b < c.captures.len() {
                } else if a < c.captures.len() {
                    assert(c.captures.contains(c.captures[a]));
                } else {
                    assert(c.captures.contains(c.captures[b]));
                }
            }
        },
        None => {},
    }
}

/// A copy of a list of cells.
pub fn copy_cells(v: &Vec<Pos>) -> (r: Vec<Pos>)
    ensures
        r@ == v@,
{
    let mut r: Vec<Pos> = Vec::new();
    let mut k: usize = 0;
    while k < v.len()
        invariant
            k <= v.len(),
            r@ == v@.take(k as int),
        decreases v.len() - k,
    {
        r.push(v[k]);
        k += 1;
        assert(r@ =~= v@.take(k as int));
    }
    assert(v@.take(v.len() as int) =~= v@);
    r
}

/// A copy of a list of steps.
pub fn copy_moves(v: &Vec<Move>) -> (r: Vec<Move>)
    ensures
        r@ == v@,
{
    let mut r: Vec<Move> = Vec::new();
    let mut k: usize = 0;
    while k < v.len()
        invariant
            k <= v.len(),
            r@ == v@.take(k as int),
        decreases v.len() - k,
    {
        r.push(v[k]);
        k += 1;
        assert(r@ =~= v@.take(k as int));
    }
    assert(v@.take(v.len() as int) =~= v@);
    r
}

/// Whether a cell is among those of a list.
pub fn contains_cell(v: &Vec<Pos>, cell: Pos) -> (r: bool)
    ensures
        r == v@.contains(cell),
{
    let mut k: usize = 0;
    while k < v.len()
        invariant
            k <= v.len(),
            forall|j: int| 0 <= j < k ==> v@[j] != cell,
        decreases v.len() - k,
    {
        if v[k] == cell {
            return true;
        }
        k += 1;
    }
    false
}

/// Extends a chain by one step, see [`extend`].
pub fn update_intermediate(new_pos: Pos, captured_pos: Option<Pos>, i: &Intermediate) -> (r: Option<Intermediate>)
    requires
        valid_pos(i.pos),
        valid_pos(new_pos),
    ensures
        r is Some <==> extend(i@, new_pos, captured_pos) is Some,
        r is Some ==> r.unwrap()@ == extend(i@, new_pos, captured_pos).unwrap(),
{
    match captured_pos {
        Some(cell) => {
            if contains_cell(&i.captures, cell) || i.captures.len() >= BOARD_CELLS {
                return None;
            }
            let mut captures = copy_cells(&i.captures);
            let mut moves = copy_moves(&i.moves);
            captures.push(cell);
            moves.push(mov(i.pos, new_pos));
            Some(Intermediate { pos: new_pos, captures, moves })
        },
        None => {
            let captures = copy_cells(&i.captures);
            let mut moves = copy_moves(&i.moves);
            moves.push(mov(i.pos, new_pos));
            Some(Intermediate { pos: new_pos, captures, moves })
        },
    }
}

/// The number of cells of the board.
pub const BOARD_CELLS: usize = 100;

/// Whether the piece of the side to move on `from` can jump in direction `d`.
pub fn is_valid_capture_move(state: &GameState, from: Pos, d: Pos) -> (r: bool)
    requires
        valid_pos(from),
        -1 <= d.x <= 1,
        -1 <= d.y <= 1,
    ensures
        r == capture_jump(state.board, state.current_player, from, d),
{
    let landing = from.add(d.mul(2));
    let victim = from.add(d);
    if !is_valid_pos(landing) {
        return false;
    }
    assert(valid_pos(victim)) by {
        assert(victim.x == from.x + d.x && landing.x == from.x + 2 * d.x);
        assert(victim.y == from.y + d.y && landing.y == from.y + 2 * d.y);
    }
    match at(&state.board, victim) {
        Some(piece) => at(&state.board, landing).is_none() && piece.player != state.current_player,
        None => false,
    }
}

/// The `k`-th of the four diagonal directions.
pub fn direction(k: usize) -> (d: Pos)
    requires
        k < 4,
    ensures
        d == diagonal(k as int),
        d.x == 1 || d.x == -1,
        d.y == 1 || d.y == -1,
{
    if k == 0 {
        p(1, 1)
    } else if k == 1 {
        p(1, -1)
    } else if k == 2 {
        p(-1, 1)
    } else {
        p(-1, -1)
    }
}

/// Appends the chains of `more` to `out`.
pub fn append_chains(out: &mut Vec<Intermediate>, more: Vec<Intermediate>)
    ensures
        chains_view(final(out)@) == chains_view(old(out)@) + chains_view(more@),
{
    let mut more = more;
    let ghost added = more@;
    out.append(&mut more);
    assert(chains_view(out@) =~= chains_view(old(out)@) + chains_view(added));
}

/// The finished chains of a man that has captured already, see
/// [`man_continue`].
pub fn list_valid_moves_for_man(state: &GameState, i: Intermediate) -> (r: Vec<Intermediate>)
    requires
        finished(state.board, state.current_player, i@),
    ensures
        chains_view(r@) == man_continue(state.board, state.current_player, i@),
        all_well_formed(state.board, state.current_player, chains_view(r@)),
    decreases max_chain_captures() - i.captures@.len(),
{
    let mut out: Vec<Intermediate> = Vec::new();
    let mut k: usize = 0;
    while k < 4
        invariant
            k <= 4,
            finished(state.board, state.current_player, i@),
            all_well_formed(state.board, state.current_player, chains_view(out@)),
            chains_view(out@) == man_jumps(state.board, state.current_player, i@, k as int),
        decreases 4 - k,
    {
        let d = direction(k);
        let ghost before = chains_view(out@);
        let ghost step = man_jump(state.board, state.current_player, i@, k as int);
        if is_valid_capture_move(state, i.pos, d) {
            let landing = i.pos.add(d.mul(2));
            let victim = i.pos.add(d);
            match update_intermediate(landing, Some(victim), &i) {
                Some(next) => {
                    proof {
                        lemma_extend_well_formed(
                            state.board,
                            state.current_player,
                            i@,
                            landing,
                            Some(victim),
                        );
                    }
                    let more = list_valid_moves_for_man(state, next);
                    append_chains(&mut out, more);
                    assert(chains_view(out@) == before + step);
                },
                None => {
                    assert(chains_view(out@) =~= before + step);
                },
            }
        } else {
            assert(chains_view(out@) =~= before + step);
        }
        k += 1;
    }
    if out.len() == 0 {
        let ghost c = i@;
        out.push(i);
        assert(chains_view(out@) =~= seq![c]);
    }
    out
}

/// The chains that begin with the first step of a man to the side `dy`, see
/// [`man_opening`].
pub fn man_first_step(state: &GameState, pos: Pos, dy: i32) -> (r: Vec<Intermediate>)
    requires
        valid_pos(pos),
        holds_own(state.board, state.current_player, position_of(pos)),
        dy == 1 || dy == -1,
    ensures
        chains_view(r@) == man_opening(state.board, state.current_player, pos, dy as int),
        all_well_formed(state.board, state.current_player, chains_view(r@)),
{
    let dv: i32 = match state.current_player {
        Player::White => -1,
        Player::Black => 1,
    };
    let d = p(dv, dy);
    let next = pos.add(d);
    let mut out: Vec<Intermediate> = Vec::new();
    if !is_valid_pos(next) {
        assert(chains_view(out@) =~= Seq::empty());
        return out;
    }
    if at(&state.board, next).is_none() {
        let mut moves: Vec<Move> = Vec::new();
        moves.push(mov(pos, next));
        let first = Intermediate { pos: next, captures: Vec::new(), moves };
        let ghost c = first@;
        out.push(first);
        assert(c.captures =~= Seq::empty());
        assert(c.moves =~= seq![spec_mov(pos, next)]);
        assert(chains_view(out@) =~= seq![c]);
        out
    } else if is_valid_capture_move(state, pos, d) {
        let landing = pos.add(d.mul(2));
        let mut captures: Vec<Pos> = Vec::new();
        captures.push(next);
        let mut moves: Vec<Move> = Vec::new();
        moves.push(mov(pos, landing));
        let first = Intermediate { pos: landing, captures, moves };
        assert(first@.captures =~= seq![next]);
        assert(first@.moves =~= seq![spec_mov(pos, landing)]);
        list_valid_moves_for_man(state, first)
    } else {
        assert(chains_view(out@) =~= Seq::empty());
        out
    }
}

/// Every finished chain of the man of the side to move on `pos`, see
/// [`man_chains`].
pub fn man_moves(state: &GameState, pos: Pos) -> (r: Vec<Intermediate>)
    requires
        valid_pos(pos),
        holds_own(state.board, state.current_player, position_of(pos)),
    ensures
        chains_view(r@) == man_chains(state.board, state.current_player, pos),
        all_well_formed(state.board, state.current_player, chains_view(r@)),
{
    let mut out = man_first_step(state, pos, 1);
    let more = man_first_step(state, pos, -1);
    append_chains(&mut out, more);
    out
}

/// What a king on `from` finds along the ray in direction `delta`, from the
/// cell at distance `dist` on: each cell it can go to, with the cell it
/// captures on the way there, if any. `capturable` is the one piece of the
/// other side that the ray has passed before `dist`. Empty cells before any
/// piece are plain slides, left out where `must_capture` holds; empty cells
/// behind the first piece of the other side are landings of a jump over it.
/// The ray ends at the edge of the board, at a piece of the king's own side,
/// and at a second piece.
pub open spec fn king_ray(
    board: Board,
    player: Player,
    from: Pos,
    delta: Pos,
    must_capture: bool,
    dist: int,
    capturable: Option<Pos>,
) -> Seq<(Pos, Option<Pos>)>
    decreases 10 - dist,
{
    let pos = from.spec_add(delta.spec_mul(dist as i32));
    if dist < 1 || dist >= 10 || !valid_pos(pos) {
        Seq::empty()
    } else {
        match piece_at(board, pos) {
            Some(piece) => if piece.player == player || capturable is Some {
                Seq::empty()
            } else {
                king_ray(board, player, from, delta, must_capture, dist + 1, Some(pos))
            },
            None => if !must_capture || capturable is Some {
                seq![(pos, capturable)] + king_ray(
                    board,
                    player,
                    from,
                    delta,
                    must_capture,
                    dist + 1,
                    capturable,
                )
            } else {
                king_ray(board, player, from, delta, must_capture, dist + 1, capturable)
            },
        }
    }
}

/// The chains of a king that continue `c` with the step `target`: a slide
/// ends the chain, a jump is followed to its end.
pub open spec fn king_step(board: Board, player: Player, c: Chain, target: (Pos, Option<Pos>)) -> Seq<
    Chain,
>
    decreases max_chain_captures() - c.captures.len(), 0int, 0int,
{
    match extend(c, target.0, target.1) {
        Some(next) => if target.1 is Some {
            king_chains(board, player, next)
        } else {
            seq![next]
        },
        None => Seq::empty(),
    }
}

/// The chains of a king that continue `c` with one of the first `n` steps of
/// `targets`.
pub open spec fn king_steps(
    board: Board,
    player: Player,
    c: Chain,
    targets: Seq<(Pos, Option<Pos>)>,
    n: int,
) -> Seq<Chain>
    decreases max_chain_captures() - c.captures.len(), 1int, n,
{
    if n <= 0 || n > targets.len() {
        Seq::empty()
    } else {
        king_steps(board, player, c, targets, n - 1) + king_step(board, player, c, targets[n - 1])
    }
}

/// The chains of a king that continue `c` along one of the first `n`
/// diagonal directions.
pub open spec fn king_rays(board: Board, player: Player, c: Chain, n: int) -> Seq<Chain>
    decreases max_chain_captures() - c.captures.len(), 2int, n,
{
    if n <= 0 {
        Seq::empty()
    } else {
        let targets = king_ray(
            board,
            player,
            c.pos,
            diagonal(n - 1),
            c.captures.len() > 0,
            1,
            None,
        );
        king_rays(board, player, c, n - 1) + king_steps(
            board,
            player,
            c,
            targets,
            targets.len() as int,
        )
    }
}

/// The finished chains of a king that stands at the end of `c`. A king that
/// has not captured yet slides or jumps; one that has captured only jumps on,
/// and where no jump is left `c` itself is finished.
pub open spec fn king_chains(board: Board, player: Player, c: Chain) -> Seq<Chain>
    decreases max_chain_captures() - c.captures.len(), 3int, 0int,
{
    let found = king_rays(board, player, c, 4);
    if c.captures.len() > 0 && found.len() == 0 {
        seq![c]
    } else {
        found
    }
}

/// Whether a step of a king leads onto the board and captures, if anything,
/// a piece of the other side.
pub open spec fn target_on_board(
    board: Board,
    player: Player,
    from: Pos,
    target: (Pos, Option<Pos>),
) -> bool {
    &&& valid_pos(target.0)
    &&& free_diagonal_step(board, spec_mov(from, target.0))
    &&& target.1 is Some ==> holds_opponent(board, player, target.1.unwrap())
}

/// Walks one ray of a king, see [`king_ray`].
pub fn scan_ray(state: &GameState, from: Pos, delta: Pos, must_capture: bool) -> (r: Vec<
    (Pos, Option<Pos>),
>)
    requires
        valid_pos(from),
        delta.x == 1 || delta.x == -1,
        delta.y == 1 || delta.y == -1,
    ensures
        r@ == king_ray(state.board, state.current_player, from, delta, must_capture, 1, None),
        forall|j: int|
            0 <= j < r@.len() ==> target_on_board(state.board, state.current_player, from, #[trigger] r@[j]),
{
    let mut moves: Vec<(Pos, Option<Pos>)> = Vec::new();
    let mut capturable: Option<Pos> = None;
    let mut done = false;
    let mut distance: i32 = 1;
    let ghost whole = king_ray(state.board, state.current_player, from, delta, must_capture, 1, None);
    while distance < 10 && !done
        invariant
            1 <= distance <= 10,
            valid_pos(from),
            delta.x == 1 || delta.x == -1,
            delta.y == 1 || delta.y == -1,
            whole == moves@ + (if done {
                Seq::<(Pos, Option<Pos>)>::empty()
            } else {
                king_ray(
                    state.board,
                    state.current_player,
                    from,
                    delta,
                    must_capture,
                    distance as int,
                    capturable,
                )
            }),
            capturable is Some ==> holds_opponent(state.board, state.current_player, capturable.unwrap()),
            forall|j: int|
                0 <= j < moves@.len() ==> target_on_board(
                    state.board,
                    state.current_player,
                    from,
                    #[trigger] moves@[j],
                ),
        decreases 10 - distance + (if done { 0int } else { 1int }),
    {
        let ghost rest = king_ray(
            state.board,
            state.current_player,
            from,
            delta,
            must_capture,
            distance as int,
            capturable,
        );
        let pos = from.add(delta.mul(distance));
        assert(pos.x - from.x == distance || pos.x - from.x == -distance) by (nonlinear_arith)
            requires
                pos.x == from.x + delta.x * distance,
                delta.x == 1 || delta.x == -1,
        ;
        assert(pos.y - from.y == distance || pos.y - from.y == -distance) by (nonlinear_arith)
            requires
                pos.y == from.y + delta.y * distance,
                delta.y == 1 || delta.y == -1,
        ;
        if !is_valid_pos(pos) {
            done = true;
            assert(rest =~= Seq::empty());
        } else {
            match at(&state.board, pos) {
                Some(piece) => {
                    if piece.player == state.current_player || capturable.is_some() {
                        done = true;
                        assert(rest =~= Seq::empty());
                    } else {
                        capturable = Some(pos);
                    }
                },
                None => {
                    if !must_capture || capturable.is_some() {
                        moves.push((pos, capturable));
                        assert(whole =~= moves@ + king_ray(
                            state.board,
                            state.current_player,
                            from,
                            delta,
                            must_capture,
                            distance + 1,
                            capturable,
                        ));
                    }
                },
            }
            distance += 1;
        }
    }
    assert(whole =~= moves@);
    moves
}

/// The finished chains of a king, see [`king_chains`].
pub fn list_valid_moves_for_king(state: &GameState, i: Intermediate) -> (r: Vec<Intermediate>)
    requires
        well_formed(state.board, state.current_player, i@),
    ensures
        chains_view(r@) == king_chains(state.board, state.current_player, i@),
        all_well_formed(state.board, state.current_player, chains_view(r@)),
    decreases max_chain_captures() - i.captures@.len(),
{
    let must_capture = i.captures.len() > 0;
    let mut out: Vec<Intermediate> = Vec::new();
    let mut k: usize = 0;
    while k < 4
        invariant
            k <= 4,
            well_formed(state.board, state.current_player, i@),
            all_well_formed(state.board, state.current_player, chains_view(out@)),
            must_capture == (i.captures@.len() > 0),
            chains_view(out@) == king_rays(state.board, state.current_player, i@, k as int),
        decreases 4 - k,
    {
        let targets = scan_ray(state, i.pos, direction(k), must_capture);
        let ghost before = chains_view(out@);
        let mut j: usize = 0;
        while j < targets.len()
            invariant
                j <= targets.len(),
                well_formed(state.board, state.current_player, i@),
                all_well_formed(state.board, state.current_player, chains_view(out@)),
                forall|t: int|
                    0 <= t < targets@.len() ==> target_on_board(
                        state.board,
                        state.current_player,
                        i.pos,
                        #[trigger] targets@[t],
                    ),
                chains_view(out@) == before + king_steps(
                    state.board,
                    state.current_player,
                    i@,
                    targets@,
                    j as int,
                ),
            decreases targets.len() - j,
        {
            let target = targets[j];
            let ghost sofar = chains_view(out@);
            let ghost step = king_step(state.board, state.current_player, i@, target);
            assert(target_on_board(state.board, state.current_player, i.pos, targets@[j as int]));
            match update_intermediate(target.0, target.1, &i) {
                Some(next) => {
                    proof {
                        lemma_extend_well_formed(
                            state.board,
                            state.current_player,
                            i@,
                            target.0,
                            target.1,
                        );
                    }
                    if target.1.is_some() {
                        let more = list_valid_moves_for_king(state, next);
                        append_chains(&mut out, more);
                    } else {
                        let ghost c = next@;
                        out.push(next);
                        assert(chains_view(out@) =~= sofar + seq![c]);
                    }
                },
                None => {
                    assert(step =~= Seq::empty());
                },
            }
            assert(chains_view(out@) =~= sofar + step);
            assert(chains_view(out@) =~= before + king_steps(
                state.board,
                state.current_player,
                i@,
                targets@,
                j as int + 1,
            ));
            j += 1;
        }
        k += 1;
    }
    if must_capture && out.len() == 0 {
        let ghost c = i@;
        out.push(i);
        assert(chains_view(out@) =~= seq![c]);
    }
    out
}

/// The cell with the given number, where the cells are counted column by
/// column, each column from row 0 down.
pub open spec fn cell_of_index(k: int) -> Pos {
    Pos { x: (k % 10) as i32, y: (k / 10) as i32 }
}

/// A chain that has not begun: the piece stands on `pos`.
pub open spec fn start_of_chain(pos: Pos) -> Chain {
    Chain { pos, captures: Seq::empty(), moves: Seq::empty() }
}

/// Every finished chain of the piece on `pos`, if it is one of `player`; a
/// cell that is empty or holds a piece of the other side gives none.
pub open spec fn piece_chains(board: Board, player: Player, pos: Pos) -> Seq<Chain> {
    match piece_at(board, pos) {
        Some(piece) => if piece.player == player {
            match piece.type_ {
                PieceType::Man => man_chains(board, player, pos),
                PieceType::King => king_chains(board, player, start_of_chain(pos)),
            }
        } else {
            Seq::empty()
        },
        None => Seq::empty(),
    }
}

/// Every finished chain of the pieces of `player` on the first `n` cells.
pub open spec fn all_chains(board: Board, player: Player, n: int) -> Seq<Chain>
    decreases n,
{
    if n <= 0 {
        Seq::empty()
    } else {
        all_chains(board, player, n - 1) + piece_chains(board, player, cell_of_index(n - 1))
    }
}

/// The largest number of captures among the first `n` chains of a list, and
/// 0 where there is none.
pub open spec fn most_captures(chains: Seq<Chain>, n: int) -> nat
    decreases n,
{
    if n <= 0 || n > chains.len() {
        0
    } else {
        let before = most_captures(chains, n - 1);
        if chains[n - 1].captures.len() > before {
            chains[n - 1].captures.len()
        } else {
            before
        }
    }
}

/// No chain among the first `n` captures more than [`most_captures`] says,
/// and where there is a chain, one of them captures that many.
pub proof fn lemma_most_captures(chains: Seq<Chain>, n: int)
    requires
        0 <= n <= chains.len(),
    ensures
        forall|j: int| 0 <= j < n ==> (#[trigger] chains[j]).captures.len() <= most_captures(chains, n),
        n > 0 ==> exists|j: int|
            0 <= j < n && (#[trigger] chains[j]).captures.len() == most_captures(chains, n),
    decreases n,
{
    if n > 0 {
        lemma_most_captures(chains, n - 1);
        if chains[n - 1].captures.len() > most_captures(chains, n - 1) || n == 1 {
            assert(chains[n - 1].captures.len() == most_captures(chains, n));
        } else {
            let j = choose|j: int|
                0 <= j < n - 1 && (#[trigger] chains[j]).captures.len() == most_captures(chains, n - 1);
            assert(chains[j].captures.len() == most_captures(chains, n));
        }
    }
}

/// A chain is among those that pass a test exactly if it is in the list and
/// passes the test.
pub proof fn lemma_filter_members(chains: Seq<Chain>, keep: spec_fn(Chain) -> bool, c: Chain)
    ensures
        chains.filter(keep).contains(c) <==> chains.contains(c) && keep(c),
    decreases chains.len(),
{
    reveal(Seq::filter);
    if chains.len() > 0 {
        let front = chains.drop_last();
        let last = chains.last();
        lemma_filter_members(front, keep, c);
        if chains.contains(c) {
            let i = choose|i: int| 0 <= i < chains.len() && chains[i] == c;
            if i < chains.len() - 1 {
                assert(front[i] == c);
            }
        }
        if front.contains(c) {
            let i = choose|i: int| 0 <= i < front.len() && front[i] == c;
            assert(chains[i] == c);
        }
        assert(chains[chains.len() - 1] == last);
        if keep(last) {
            let kept = front.filter(keep).push(last);
            assert(chains.filter(keep) == kept);
            if front.filter(keep).contains(c) {
                let i = choose|i: int| 0 <= i < front.filter(keep).len() && front.filter(keep)[i] == c;
                assert(kept[i] == c);
            }
            if c == last {
                assert(kept[kept.len() - 1] == c);
            }
            if kept.contains(c) {
                let i = choose|i: int| 0 <= i < kept.len() && kept[i] == c;
                if i < kept.len() - 1 {
                    assert(front.filter(keep)[i] == c);
                }
            }
        }
    }
}

/// The cell that a coordinate pair names, as row and column.
pub open spec fn position_of(pos: Pos) -> (usize, usize) {
    (pos.x as usize, pos.y as usize)
}

/// A chain as a turn: its steps, and the cells it captured.
pub open spec fn sequence_of(c: Chain) -> (Seq<Move>, Seq<(usize, usize)>) {
    (c.moves, c.captures.map_values(|cell: Pos| position_of(cell)))
}

/// The turns that a vector of move sequences holds.
pub open spec fn sequences_view(v: Seq<MoveSequence>) -> Seq<(Seq<Move>, Seq<(usize, usize)>)> {
    v.map_values(|s: MoveSequence| (s.0@, s.1@))
}

/// What holds of every turn that the generator lists. The turn has a step;
/// its steps stay on the board and follow one another, the first from a cell
/// that holds a piece of the side to move; each step goes along a diagonal
/// to a cell that is empty; each captured cell lies on the board and holds a
/// piece of the other side; and no cell is captured twice.
pub open spec fn sound_turn(board: Board, player: Player, moves: Seq<Move>, captures: Seq<(usize, usize)>) -> bool {
    &&& moves.len() > 0
    &&& connected(moves)
    &&& holds_own(board, player, moves[0].from)
    &&& forall|k: int| 0 <= k < moves.len() ==> free_diagonal_step(board, #[trigger] moves[k])
    &&& captures.len() <= moves.len()
    &&& captures.no_duplicates()
    &&& forall|a: int|
        0 <= a < captures.len() ==> {
            let cell = #[trigger] captures[a];
            &&& cell.0 < 10
            &&& cell.1 < 10
            &&& board[cell.0 as int][cell.1 as int] is Some
            &&& board[cell.0 as int][cell.1 as int].unwrap().player != player
        }
}

/// A finished chain of the search, read as a turn, is sound.
pub proof fn lemma_finished_chain_is_sound(board: Board, player: Player, c: Chain)
    requires
        finished(board, player, c),
    ensures
        sound_turn(board, player, sequence_of(c).0, sequence_of(c).1),
{
    let captures = sequence_of(c).1;
    assert forall|a: int, b: int|
        0 <= a < captures.len() && 0 <= b < captures.len() && a != b implies captures[a] != captures[b] by {
        assert(c.captures[a] != c.captures[b]);
        assert(holds_opponent(board, player, c.captures[a]));
        assert(holds_opponent(board, player, c.captures[b]));
    }
    assert forall|a: int| 0 <= a < captures.len() implies {
        let cell = #[trigger] captures[a];
        &&& cell.0 < 10
        &&& cell.1 < 10
        &&& board[cell.0 as int][cell.1 as int] is Some
        &&& board[cell.0 as int][cell.1 as int].unwrap().player != player
    } by {
        assert(holds_opponent(board, player, c.captures[a]));
    }
}

/// Every finished chain of the piece on `pos`, see [`piece_chains`].
pub fn piece_moves(state: &GameState, pos: Pos) -> (r: Vec<Intermediate>)
    requires
        valid_pos(pos),
    ensures
        chains_view(r@) == piece_chains(state.board, state.current_player, pos),
        all_well_formed(state.board, state.current_player, chains_view(r@)),
{
    match at(&state.board, pos) {
        Some(piece) => {
            if piece.player == state.current_player {
                match piece.type_ {
                    PieceType::Man => man_moves(state, pos),
                    PieceType::King => {
                        let start = Intermediate { pos, captures: Vec::new(), moves: Vec::new() };
                        assert(start@.captures =~= Seq::empty());
                        assert(start@.moves =~= Seq::empty());
                        assert(start@ == start_of_chain(pos));
                        list_valid_moves_for_king(state, start)
                    },
                }
            } else {
                let out: Vec<Intermediate> = Vec::new();
                assert(chains_view(out@) =~= Seq::empty());
                out
            }
        },
        None => {
            let out: Vec<Intermediate> = Vec::new();
            assert(chains_view(out@) =~= Seq::empty());
            out
        },
    }
}

/// Every finished chain of every piece of the side to move, before the
/// forced-capture rule is applied.
pub fn list_all_chains(state: &GameState) -> (r: Vec<Intermediate>)
    ensures
        chains_view(r@) == all_chains(state.board, state.current_player, 100),
        all_well_formed(state.board, state.current_player, chains_view(r@)),
{
    let mut out: Vec<Intermediate> = Vec::new();
    assert(chains_view(out@) =~= Seq::empty());
    let mut row: i32 = 0;
    while row < 10
        invariant
            0 <= row <= 10,
            chains_view(out@) == all_chains(state.board, state.current_player, row * 10),
            all_well_formed(state.board, state.current_player, chains_view(out@)),
        decreases 10 - row,
    {
        let mut col: i32 = 0;
        while col < 10
            invariant
                0 <= row < 10,
                0 <= col <= 10,
                chains_view(out@) == all_chains(state.board, state.current_player, row * 10 + col),
                all_well_formed(state.board, state.current_player, chains_view(out@)),
            decreases 10 - col,
        {
            let pos = p(col, row);
            assert(pos == cell_of_index(row * 10 + col));
            let more = piece_moves(state, pos);
            append_chains(&mut out, more);
            col += 1;
        }
        row += 1;
    }
    out
}

/// The largest number of captures among the chains, see [`most_captures`].
pub fn max_captures(all: &Vec<Intermediate>) -> (r: usize)
    ensures
        r == most_captures(chains_view(all@), all@.len() as int),
{
    let mut max: usize = 0;
    let mut k: usize = 0;
    while k < all.len()
        invariant
            k <= all.len(),
            max == most_captures(chains_view(all@), k as int),
        decreases all.len() - k,
    {
        if all[k].captures.len() > max {
            max = all[k].captures.len();
        }
        k += 1;
    }
    max
}

/// The cells of a list as rows and columns.
pub fn positions_of(cells: &Vec<Pos>) -> (r: Vec<(usize, usize)>)
    requires
        forall|k: int| 0 <= k < cells@.len() ==> valid_pos(#[trigger] cells@[k]),
    ensures
        r@ == cells@.map_values(|cell: Pos| position_of(cell)),
{
    let mut r: Vec<(usize, usize)> = Vec::new();
    let mut k: usize = 0;
    while k < cells.len()
        invariant
            k <= cells.len(),
            forall|k: int| 0 <= k < cells@.len() ==> valid_pos(#[trigger] cells@[k]),
            r@ == cells@.take(k as int).map_values(|cell: Pos| position_of(cell)),
        decreases cells.len() - k,
    {
        let cell = cells[k];
        assert(valid_pos(cells@[k as int]));
        r.push((cell.x as usize, cell.y as usize));
        k += 1;
        assert(r@ =~= cells@.take(k as int).map_values(|cell: Pos| position_of(cell)));
    }
    assert(cells@.take(cells@.len() as int) =~= cells@);
    r
}

impl GameState {
    /// Every finished chain of the side to move, whatever it captures.
    pub open spec fn candidate_chains(&self) -> Seq<Chain> {
        all_chains(self.board, self.current_player, 100)
    }

    /// The largest number of captures that a turn of the side to move can
    /// make.
    pub open spec fn forced_captures(&self) -> nat {
        most_captures(self.candidate_chains(), self.candidate_chains().len() as int)
    }

    /// The legal chains of the side to move: of all its finished chains,
    /// those that capture the most.
    pub open spec fn legal_chains(&self) -> Seq<Chain> {
        self.candidate_chains().filter(|c: Chain| c.captures.len() == self.forced_captures())
    }

    /// The legal turns of the side to move.
    pub open spec fn legal_sequences(&self) -> Seq<(Seq<Move>, Seq<(usize, usize)>)> {
        self.legal_chains().map_values(|c: Chain| sequence_of(c))
    }

    /// A chain is legal exactly if it is one of the finished chains of the
    /// side to move and captures as much as any of them does.
    pub proof fn lemma_legal_chains(&self, c: Chain)
        ensures
            self.legal_chains().contains(c) <==> self.candidate_chains().contains(c) && c.captures.len()
                == self.forced_captures(),
            self.candidate_chains().contains(c) ==> c.captures.len() <= self.forced_captures(),
    {
        let all = self.candidate_chains();
        lemma_filter_members(all, |c: Chain| c.captures.len() == self.forced_captures(), c);
        lemma_most_captures(all, all.len() as int);
    }

    /// A capture is forced: where some finished chain of the side to move
    /// captures, no legal chain is without a capture. And a side that has a
    /// finished chain has a legal one.
    pub proof fn lemma_capture_is_forced(&self)
        ensures
            (exists|c: Chain| self.candidate_chains().contains(c) && c.captures.len() > 0) ==> forall|c: Chain|
                self.legal_chains().contains(c) ==> c.captures.len() > 0,
            self.candidate_chains().len() > 0 ==> self.legal_chains().len() > 0,
    {
        let all = self.candidate_chains();
        lemma_most_captures(all, all.len() as int);
        assert forall|c: Chain| self.legal_chains().contains(c) implies c.captures.len()
            == self.forced_captures() by {
            self.lemma_legal_chains(c);
        }
        if all.len() > 0 {
            let j = choose|j: int|
                0 <= j < all.len() && (#[trigger] all[j]).captures.len() == most_captures(all, all.len() as int);
            assert(all.contains(all[j]));
            self.lemma_legal_chains(all[j]);
        }
    }

    /// Lists the legal turns of the side to move. A capture is forced, and so
    /// is the largest: where any chain captures, only the chains that capture
    /// the most are legal. A side without a move gets the empty list.
    pub fn list_valid_moves(&self) -> (r: Vec<MoveSequence>)
        ensures
            sequences_view(r@) == self.legal_sequences(),
            forall|k: int| 0 <= k < r@.len() ==> (#[trigger] r@[k]).1@.len() == self.forced_captures(),
            forall|a: int, b: int|
                0 <= a < r@.len() && 0 <= b < r@.len() ==> (#[trigger] r@[a]).1@.len() == (#[trigger] r@[b]).1@.len(),
            forall|j: int|
                0 <= j < self.candidate_chains().len() ==> (#[trigger] self.candidate_chains()[j]).captures.len()
                    <= self.forced_captures(),
            (exists|j: int|
                0 <= j < self.candidate_chains().len() && (#[trigger] self.candidate_chains()[j]).captures.len()
                    > 0) ==> forall|k: int| 0 <= k < r@.len() ==> (#[trigger] r@[k]).1@.len() > 0,
            forall|k: int|
                0 <= k < r@.len() ==> sound_turn(self.board, self.current_player, (#[trigger] r@[k]).0@, r@[k].1@),
    {
        let all = list_all_chains(self);
        let max = max_captures(&all);
        let ghost chains = chains_view(all@);
        let ghost keep = |c: Chain| c.captures.len() == self.forced_captures();
        let ghost turn = |c: Chain| sequence_of(c);
        proof {
            lemma_most_captures(chains, chains.len() as int);
        }
        let mut out: Vec<MoveSequence> = Vec::new();
        let mut k: usize = 0;
        assert(chains.take(0).filter(keep) =~= Seq::empty()) by {
            reveal(Seq::filter);
        }
        assert(sequences_view(out@) =~= chains.take(0).filter(keep).map_values(turn));
        while k < all.len()
            invariant
                k <= all.len(),
                chains == chains_view(all@),
                chains == self.candidate_chains(),
                max == self.forced_captures(),
                keep == (|c: Chain| c.captures.len() == self.forced_captures()),
                turn == (|c: Chain| sequence_of(c)),
                all_well_formed(self.board, self.current_player, chains),
                sequences_view(out@) == chains.take(k as int).filter(keep).map_values(turn),
                forall|j: int| 0 <= j < out@.len() ==> (#[trigger] out@[j]).1@.len() == max,
                forall|j: int|
                    0 <= j < out@.len() ==> sound_turn(
                        self.board,
                        self.current_player,
                        (#[trigger] out@[j]).0@,
                        out@[j].1@,
                    ),
            decreases all.len() - k,
        {
            let ghost c = chains[k as int];
            assert(c == all@[k as int]@);
            assert(finished(self.board, self.current_player, c));
            proof {
                reveal(Seq::filter);
                assert(chains.take(k as int + 1).drop_last() =~= chains.take(k as int));
                assert(chains.take(k as int + 1).last() == c);
            }
            if all[k].captures.len() == max {
                let moves = copy_moves(&all[k].moves);
                let captures = positions_of(&all[k].captures);
                let ghost before = out@;
                proof {
                    lemma_finished_chain_is_sound(self.board, self.current_player, c);
                }
                out.push((moves, captures));
                assert(sequences_view(out@) =~= sequences_view(before).push(sequence_of(c)));
            }
            k += 1;
            assert(sequences_view(out@) =~= chains.take(k as int).filter(keep).map_values(turn));
        }
        assert(chains.take(all@.len() as int) =~= chains);
        out
    }
}

} // verus!
