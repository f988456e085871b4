//! The rules, said without the search.
//!
//! The generator walks rays and follows chains. This file says what it finds
//! in terms of the board alone: which cells a king reaches along a ray,
//! which chains a piece can make, and which of them are legal. Each lemma
//! proves that the search gives exactly that.

use crate::game::generator::{
    Chain, all_chains, capture_jump, cell_of_index, diagonal, extend, forward, holds_opponent,
    king_chains, king_ray, king_rays, king_step, king_steps, lemma_most_captures, man_continue,
    man_jump, man_jump_to, man_jumps, man_opening, max_chain_captures, most_captures, piece_chains,
    start_of_chain, well_formed,
};
use crate::game::{piece_at, spec_mov, valid_pos, Board, GameState, PieceType, Player, Pos};
use vstd::prelude::*;
use vstd::set_lib::{lemma_int_range, lemma_len_subset, set_int_range};

verus! {

/// Where a man gets from the end of `c` by jumping in the given directions,
/// one after the other, if it can make all these jumps.
pub open spec fn man_path(board: Board, player: Player, c: Chain, dirs: Seq<int>) -> Option<Chain>
    decreases dirs.len(),
{
    if dirs.len() == 0 {
        Some(c)
    } else {
        match man_jump_to(board, player, c, dirs[0]) {
            Some(next) => man_path(board, player, next, dirs.drop_first()),
            None => None,
        }
    }
}

/// Whether a man at the end of `c` has no jump left.
pub open spec fn man_stuck(board: Board, player: Player, c: Chain) -> bool {
    forall|k: int| 0 <= k < 4 ==> (#[trigger] man_jump_to(board, player, c, k)) is None
}

/// Whether a man gets from the end of `c` to the chain `end` by jumps, and
/// has no jump left there.
pub open spec fn man_jumps_to_the_end(board: Board, player: Player, c: Chain, end: Chain) -> bool {
    man_stuck(board, player, end) && exists|dirs: Seq<int>|
        #[trigger] man_path(board, player, c, dirs) == Some(end)
}

/// A man that has captured always has a finished chain.
pub proof fn lemma_man_continue_nonempty(board: Board, player: Player, c: Chain)
    ensures
        man_continue(board, player, c).len() > 0,
{
}

/// What the four directions give together: a chain is among the jumps of a
/// man from `c` exactly if it is among those in one of the directions.
pub proof fn lemma_man_jumps_members(board: Board, player: Player, c: Chain, end: Chain)
    ensures
        man_jumps(board, player, c, 4).contains(end) <==> exists|k: int|
            0 <= k < 4 && (#[trigger] man_jump(board, player, c, k)).contains(end),
        man_jumps(board, player, c, 4).len() == 0 <==> forall|k: int|
            0 <= k < 4 ==> (#[trigger] man_jump(board, player, c, k)).len() == 0,
{
    reveal_with_fuel(man_jumps, 5);
    let j0 = man_jump(board, player, c, 0);
    let j1 = man_jump(board, player, c, 1);
    let j2 = man_jump(board, player, c, 2);
    let j3 = man_jump(board, player, c, 3);
    let all = man_jumps(board, player, c, 4);
    assert(all =~= j0 + j1 + j2 + j3);
    if all.contains(end) {
        let i = choose|i: int| 0 <= i < all.len() && all[i] == end;
        if i < j0.len() {
            assert(j0[i] == end);
        } else if i < j0.len() + j1.len() {
            assert(j1[i - j0.len()] == end);
        } else if i < j0.len() + j1.len() + j2.len() {
            assert(j2[i - j0.len() - j1.len()] == end);
        } else {
            assert(j3[i - j0.len() - j1.len() - j2.len()] == end);
        }
    }
    if exists|k: int| 0 <= k < 4 && (#[trigger] man_jump(board, player, c, k)).contains(end) {
        let k = choose|k: int| 0 <= k < 4 && (#[trigger] man_jump(board, player, c, k)).contains(end);
        let j = man_jump(board, player, c, k);
        let i = choose|i: int| 0 <= i < j.len() && j[i] == end;
        if k == 0 {
            assert(all[i] == end);
        } else if k == 1 {
            assert(all[j0.len() + i] == end);
        } else if k == 2 {
            assert(all[j0.len() + j1.len() + i] == end);
        } else {
            assert(all[j0.len() + j1.len() + j2.len() + i] == end);
        }
    }
}

/// Every finished chain that the search gives for a man that has captured
/// is reached from `c` by jumps, and the man has no jump left there.
pub proof fn lemma_man_chain_is_a_path(board: Board, player: Player, c: Chain, end: Chain)
    requires
        man_continue(board, player, c).contains(end),
    ensures
        man_jumps_to_the_end(board, player, c, end),
    decreases max_chain_captures() - c.captures.len(),
{
    let longer = man_jumps(board, player, c, 4);
    lemma_man_jumps_members(board, player, c, end);
    if longer.len() == 0 {
        assert(end == c);
        assert forall|k: int| 0 <= k < 4 implies (#[trigger] man_jump_to(board, player, c, k)) is None by {
            assert(man_jump(board, player, c, k).len() == 0);
            if man_jump_to(board, player, c, k) is Some {
                lemma_man_continue_nonempty(board, player, man_jump_to(board, player, c, k).unwrap());
            }
        }
        assert(man_path(board, player, c, Seq::<int>::empty()) == Some(end));
    } else {
        let k = choose|k: int| 0 <= k < 4 && (#[trigger] man_jump(board, player, c, k)).contains(end);
        let next = man_jump_to(board, player, c, k).unwrap();
        lemma_man_chain_is_a_path(board, player, next, end);
        let rest = choose|dirs: Seq<int>| #[trigger] man_path(board, player, next, dirs) == Some(end);
        let dirs = seq![k] + rest;
        assert(dirs.drop_first() =~= rest);
        assert(man_path(board, player, c, dirs) == Some(end));
    }
}

/// Every chain that a man reaches from `c` by jumps, and at which it has no
/// jump left, is among the finished chains that the search gives.
pub proof fn lemma_man_path_is_found(board: Board, player: Player, c: Chain, dirs: Seq<int>, end: Chain)
    requires
        man_path(board, player, c, dirs) == Some(end),
        man_stuck(board, player, end),
    ensures
        man_continue(board, player, c).contains(end),
    decreases dirs.len(),
{
    lemma_man_jumps_members(board, player, c, end);
    if dirs.len() == 0 {
        assert forall|k: int| 0 <= k < 4 implies (#[trigger] man_jump(board, player, c, k)).len() == 0 by {
            assert(man_jump_to(board, player, c, k) is None);
        }
        assert(man_continue(board, player, c)[0] == c);
    } else {
        let k = dirs[0];
        let next = man_jump_to(board, player, c, k).unwrap();
        lemma_man_path_is_found(board, player, next, dirs.drop_first(), end);
        assert(man_jump(board, player, c, k).contains(end));
    }
}

/// The cell at distance `d` from `from` in direction `delta`.
pub open spec fn ray_cell(from: Pos, delta: Pos, d: int) -> Pos {
    from.spec_add(delta.spec_mul(d as i32))
}

/// Whether a cell lies on the board and is empty.
pub open spec fn free_cell(board: Board, cell: Pos) -> bool {
    valid_pos(cell) && piece_at(board, cell) is None
}

/// Whether the cells of a ray at the distances from `a` up to, but not
/// with, `b` lie on the board and are empty.
pub open spec fn ray_clear(board: Board, from: Pos, delta: Pos, a: int, b: int) -> bool {
    forall|d: int| a <= d < b ==> free_cell(board, #[trigger] ray_cell(from, delta, d))
}

/// Whether the cell `victim` is the one piece between the distances `dist`
/// and `d` of a ray: it lies at the distance `e`, holds a piece of the other
/// side, and every other cell from `dist` up to `d` is empty.
pub open spec fn ray_jumps(
    board: Board,
    player: Player,
    from: Pos,
    delta: Pos,
    dist: int,
    d: int,
    victim: Pos,
    e: int,
) -> bool {
    &&& dist <= e < d
    &&& victim == ray_cell(from, delta, e)
    &&& holds_opponent(board, player, victim)
    &&& ray_clear(board, from, delta, dist, e)
    &&& ray_clear(board, from, delta, e + 1, d)
}

/// Whether the step `target` leads to the cell at distance `d` of a ray
/// that is looked at from the distance `dist` on, with `capturable` the piece
/// that the ray has passed before. The cell is empty. Either the ray has
/// passed a piece, the step captures it, and the ray is empty from `dist` to
/// the cell; or the step captures nothing, the king need not capture, and the
/// ray is empty up to the cell; or the step captures the one piece of the
/// other side that stands between `dist` and the cell.
pub open spec fn ray_lands(
    board: Board,
    player: Player,
    from: Pos,
    delta: Pos,
    must_capture: bool,
    dist: int,
    capturable: Option<Pos>,
    target: (Pos, Option<Pos>),
    d: int,
) -> bool {
    &&& 1 <= dist <= d < 10
    &&& target.0 == ray_cell(from, delta, d)
    &&& free_cell(board, target.0)
    &&& match capturable {
        Some(passed) => target.1 == Some(passed) && ray_clear(board, from, delta, dist, d),
        None => match target.1 {
            None => !must_capture && ray_clear(board, from, delta, dist, d),
            Some(victim) => exists|e: int| #[trigger] ray_jumps(board, player, from, delta, dist, d, victim, e),
        },
    }
}

/// Whether `target` is a step along a ray, see [`ray_lands`].
pub open spec fn ray_target(
    board: Board,
    player: Player,
    from: Pos,
    delta: Pos,
    must_capture: bool,
    dist: int,
    capturable: Option<Pos>,
    target: (Pos, Option<Pos>),
) -> bool {
    exists|d: int| #[trigger] ray_lands(board, player, from, delta, must_capture, dist, capturable, target, d)
}

/// What a king finds along a ray, said without the walk: a step is found
/// exactly if it leads to an empty cell of the ray with nothing in between,
/// or with one piece of the other side in between, which it captures.
pub proof fn lemma_king_ray(
    board: Board,
    player: Player,
    from: Pos,
    delta: Pos,
    must_capture: bool,
    dist: int,
    capturable: Option<Pos>,
    target: (Pos, Option<Pos>),
)
    requires
        1 <= dist,
    ensures
        king_ray(board, player, from, delta, must_capture, dist, capturable).contains(target) <==> ray_target(
            board,
            player,
            from,
            delta,
            must_capture,
            dist,
            capturable,
            target,
        ),
    decreases 10 - dist,
{
    let pos = ray_cell(from, delta, dist);
    let found = king_ray(board, player, from, delta, must_capture, dist, capturable);
    if dist >= 10 || !valid_pos(pos) {
        assert(found =~= Seq::empty());
        assert forall|d: int|
            !#[trigger] ray_lands(board, player, from, delta, must_capture, dist, capturable, target, d) by {
            if dist < 10 {
                lemma_ray_blocked(board, player, from, delta, must_capture, dist, capturable, target, d);
            }
        }
    } else {
        match piece_at(board, pos) {
            Some(piece) => {
                if piece.player == player || capturable is Some {
                    assert(found =~= Seq::empty());
                    assert forall|d: int|
                        !#[trigger] ray_lands(
                            board,
                            player,
                            from,
                            delta,
                            must_capture,
                            dist,
                            capturable,
                            target,
                            d,
                        ) by {
                        lemma_ray_blocked(board, player, from, delta, must_capture, dist, capturable, target, d);
                    }
                } else {
                    lemma_king_ray(board, player, from, delta, must_capture, dist + 1, Some(pos), target);
                    assert(found == king_ray(board, player, from, delta, must_capture, dist + 1, Some(pos)));
                    if found.contains(target) {
                        let d = choose|d: int|
                            #[trigger] ray_lands(
                                board,
                                player,
                                from,
                                delta,
                                must_capture,
                                dist + 1,
                                Some(pos),
                                target,
                                d,
                            );
                        assert(ray_jumps(board, player, from, delta, dist, d, pos, dist));
                        assert(ray_lands(board, player, from, delta, must_capture, dist, None, target, d));
                    }
                    if ray_target(board, player, from, delta, must_capture, dist, capturable, target) {
                        let d = choose|d: int|
                            #[trigger] ray_lands(board, player, from, delta, must_capture, dist, None, target, d);
                        assert(!free_cell(board, ray_cell(from, delta, dist)));
                        assert(d != dist);
                        assert(target.1 is Some);
                        let e = choose|e: int|
                            #[trigger] ray_jumps(board, player, from, delta, dist, d, target.1.unwrap(), e);
                        assert(e == dist);
                        assert(ray_lands(
                            board,
                            player,
                            from,
                            delta,
                            must_capture,
                            dist + 1,
                            Some(pos),
                            target,
                            d,
                        ));
                    }
                }
            },
            None => {
                let rest = king_ray(board, player, from, delta, must_capture, dist + 1, capturable);
                lemma_king_ray(board, player, from, delta, must_capture, dist + 1, capturable, target);
                let emits = !must_capture || capturable is Some;
                let here = (pos, capturable);
                if emits {
                    assert(found == seq![here] + rest);
                    if found.contains(target) {
                        let i = choose|i: int| 0 <= i < found.len() && found[i] == target;
                        if i > 0 {
                            assert(rest[i - 1] == target);
                        }
                    }
                    if rest.contains(target) {
                        let i = choose|i: int| 0 <= i < rest.len() && rest[i] == target;
                        assert(found[i + 1] == target);
                    }
                    assert(found[0] == here);
                    assert(found.contains(target) <==> target == here || rest.contains(target));
                } else {
                    assert(found == rest);
                }
                assert(free_cell(board, ray_cell(from, delta, dist)));
                if rest.contains(target) {
                    let d = choose|d: int|
                        #[trigger] ray_lands(
                            board,
                            player,
                            from,
                            delta,
                            must_capture,
                            dist + 1,
                            capturable,
                            target,
                            d,
                        );
                    lemma_ray_grows(board, player, from, delta, must_capture, dist, capturable, target, d);
                }
                if emits && target == here {
                    assert(ray_lands(board, player, from, delta, must_capture, dist, capturable, target, dist));
                }
                if ray_target(board, player, from, delta, must_capture, dist, capturable, target) {
                    let d = choose|d: int|
                        #[trigger] ray_lands(board, player, from, delta, must_capture, dist, capturable, target, d);
                    if d == dist {
                        if capturable is None && target.1 is Some {
                            let e = choose|e: int|
                                #[trigger] ray_jumps(board, player, from, delta, dist, d, target.1.unwrap(), e);
                        }
                        assert(target == here);
                        assert(emits);
                    } else {
                        lemma_ray_shrinks(board, player, from, delta, must_capture, dist, capturable, target, d);
                    }
                }
            },
        }
    }
}

/// No step leads along a ray that leaves the board at the distance `dist`,
/// or that meets there a piece which cannot be jumped.
pub proof fn lemma_ray_blocked(
    board: Board,
    player: Player,
    from: Pos,
    delta: Pos,
    must_capture: bool,
    dist: int,
    capturable: Option<Pos>,
    target: (Pos, Option<Pos>),
    d: int,
)
    requires
        !free_cell(board, ray_cell(from, delta, dist)),
        capturable is Some || !holds_opponent(board, player, ray_cell(from, delta, dist)),
    ensures
        !ray_lands(board, player, from, delta, must_capture, dist, capturable, target, d),
{
    if ray_lands(board, player, from, delta, must_capture, dist, capturable, target, d) {
        if d > dist {
            if capturable is None && target.1 is Some {
                let e = choose|e: int|
                    #[trigger] ray_jumps(board, player, from, delta, dist, d, target.1.unwrap(), e);
                if e > dist {
                    assert(free_cell(board, ray_cell(from, delta, dist)));
                }
            } else {
                assert(free_cell(board, ray_cell(from, delta, dist)));
            }
        }
    }
}

/// A step along a ray from the distance `dist` + 1 on is one from `dist` on,
/// where the cell at `dist` is empty.
pub proof fn lemma_ray_grows(
    board: Board,
    player: Player,
    from: Pos,
    delta: Pos,
    must_capture: bool,
    dist: int,
    capturable: Option<Pos>,
    target: (Pos, Option<Pos>),
    d: int,
)
    requires
        1 <= dist,
        free_cell(board, ray_cell(from, delta, dist)),
        ray_lands(board, player, from, delta, must_capture, dist + 1, capturable, target, d),
    ensures
        ray_lands(board, player, from, delta, must_capture, dist, capturable, target, d),
{
    if capturable is None && target.1 is Some {
        let victim = target.1.unwrap();
        let e = choose|e: int| #[trigger] ray_jumps(board, player, from, delta, dist + 1, d, victim, e);
        assert(ray_clear(board, from, delta, dist, e));
        assert(ray_jumps(board, player, from, delta, dist, d, victim, e));
    } else {
        assert(ray_clear(board, from, delta, dist, d));
    }
}

/// A step along a ray from the distance `dist` on that leads beyond the
/// cell at `dist`, which is empty, is a step from `dist` + 1 on.
pub proof fn lemma_ray_shrinks(
    board: Board,
    player: Player,
    from: Pos,
    delta: Pos,
    must_capture: bool,
    dist: int,
    capturable: Option<Pos>,
    target: (Pos, Option<Pos>),
    d: int,
)
    requires
        1 <= dist < d,
        free_cell(board, ray_cell(from, delta, dist)),
        ray_lands(board, player, from, delta, must_capture, dist, capturable, target, d),
    ensures
        ray_lands(board, player, from, delta, must_capture, dist + 1, capturable, target, d),
{
    if capturable is None && target.1 is Some {
        let victim = target.1.unwrap();
        let e = choose|e: int| #[trigger] ray_jumps(board, player, from, delta, dist, d, victim, e);
        assert(e != dist);
        assert(ray_clear(board, from, delta, dist + 1, e));
        assert(ray_jumps(board, player, from, delta, dist + 1, d, victim, e));
    } else {
        assert(ray_clear(board, from, delta, dist + 1, d));
    }
}

/// The steps that a king at the end of `c` finds along the `k`-th diagonal.
pub open spec fn king_targets(board: Board, player: Player, c: Chain, k: int) -> Seq<(Pos, Option<Pos>)> {
    king_ray(board, player, c.pos, diagonal(k), c.captures.len() > 0, 1, None)
}

/// The chain `c` after the king jumps to the `j`-th cell that it finds along
/// the `k`-th diagonal, if that is a jump over a piece that it has not
/// captured before.
pub open spec fn king_jump_to(board: Board, player: Player, c: Chain, k: int, j: int) -> Option<Chain> {
    let targets = king_targets(board, player, c, k);
    if 0 <= k < 4 && 0 <= j < targets.len() && targets[j].1 is Some {
        extend(c, targets[j].0, targets[j].1)
    } else {
        None
    }
}

/// The chain `c` after the king slides to the `j`-th cell that it finds
/// along the `k`-th diagonal, if it gets there without a jump.
pub open spec fn king_slide_to(board: Board, player: Player, c: Chain, k: int, j: int) -> Option<Chain> {
    let targets = king_targets(board, player, c, k);
    if 0 <= k < 4 && 0 <= j < targets.len() && targets[j].1 is None {
        extend(c, targets[j].0, targets[j].1)
    } else {
        None
    }
}

/// Where a king gets from the end of `c` by the given jumps, one after the
/// other, if it can make all of them. A jump is given by the number of a
/// diagonal and the place of the landing cell among what the king finds
/// there.
pub open spec fn king_path(board: Board, player: Player, c: Chain, jumps: Seq<(int, int)>) -> Option<Chain>
    decreases jumps.len(),
{
    if jumps.len() == 0 {
        Some(c)
    } else {
        match king_jump_to(board, player, c, jumps[0].0, jumps[0].1) {
            Some(next) => king_path(board, player, next, jumps.drop_first()),
            None => None,
        }
    }
}

/// Whether a king at the end of `c` has no jump left.
pub open spec fn king_stuck(board: Board, player: Player, c: Chain) -> bool {
    forall|k: int, j: int| (#[trigger] king_jump_to(board, player, c, k, j)) is None
}

/// Whether a king gets from the end of `c` to the chain `end` by jumps, has
/// captured by then, and has no jump left there.
pub open spec fn king_jumps_to_the_end(board: Board, player: Player, c: Chain, end: Chain) -> bool {
    &&& end.captures.len() > 0
    &&& king_stuck(board, player, end)
    &&& exists|jumps: Seq<(int, int)>| #[trigger] king_path(board, player, c, jumps) == Some(end)
}

/// Whether a king that has not captured gets from `c` to the chain `end` by
/// one slide.
pub open spec fn king_slides_to(board: Board, player: Player, c: Chain, end: Chain) -> bool {
    c.captures.len() == 0 && exists|k: int, j: int|
        #[trigger] king_slide_to(board, player, c, k, j) == Some(end)
}

/// A king that has to capture finds only jumps along a ray.
pub proof fn lemma_king_ray_only_jumps(
    board: Board,
    player: Player,
    from: Pos,
    delta: Pos,
    dist: int,
    capturable: Option<Pos>,
)
    ensures
        forall|j: int|
            0 <= j < king_ray(board, player, from, delta, true, dist, capturable).len() ==> (#[trigger] king_ray(
                board,
                player,
                from,
                delta,
                true,
                dist,
                capturable,
            )[j]).1 is Some,
    decreases 10 - dist,
{
    let pos = from.spec_add(delta.spec_mul(dist as i32));
    if !(dist < 1 || dist >= 10 || !valid_pos(pos)) {
        match piece_at(board, pos) {
            Some(piece) => {
                if !(piece.player == player || capturable is Some) {
                    lemma_king_ray_only_jumps(board, player, from, delta, dist + 1, Some(pos));
                }
            },
            None => {
                lemma_king_ray_only_jumps(board, player, from, delta, dist + 1, capturable);
            },
        }
    }
}

/// A chain is in one of two lists exactly if it is in the two put together.
pub proof fn lemma_concat_members(a: Seq<Chain>, b: Seq<Chain>, c: Chain)
    ensures
        (a + b).contains(c) <==> a.contains(c) || b.contains(c),
{
    if (a + b).contains(c) {
        let i = choose|i: int| 0 <= i < (a + b).len() && (a + b)[i] == c;
        if i < a.len() {
            assert(a[i] == c);
        } else {
            assert(b[i - a.len()] == c);
        }
    }
    if a.contains(c) {
        let i = choose|i: int| 0 <= i < a.len() && a[i] == c;
        assert((a + b)[i] == c);
    }
    if b.contains(c) {
        let i = choose|i: int| 0 <= i < b.len() && b[i] == c;
        assert((a + b)[a.len() + i] == c);
    }
}

/// What the steps along one ray give together: a chain is among the chains
/// of the first `n` steps exactly if it is among those of one of them.
pub proof fn lemma_king_steps_members(
    board: Board,
    player: Player,
    c: Chain,
    targets: Seq<(Pos, Option<Pos>)>,
    n: int,
    end: Chain,
)
    requires
        0 <= n <= targets.len(),
    ensures
        king_steps(board, player, c, targets, n).contains(end) <==> exists|j: int|
            0 <= j < n && king_step(board, player, c, #[trigger] targets[j]).contains(end),
        king_steps(board, player, c, targets, n).len() == 0 <==> forall|j: int|
            0 <= j < n ==> king_step(board, player, c, #[trigger] targets[j]).len() == 0,
    decreases n,
{
    if n > 0 {
        lemma_king_steps_members(board, player, c, targets, n - 1, end);
        let before = king_steps(board, player, c, targets, n - 1);
        let last = king_step(board, player, c, targets[n - 1]);
        lemma_concat_members(before, last, end);
        assert(king_steps(board, player, c, targets, n) == before + last);
        if exists|j: int| 0 <= j < n && king_step(board, player, c, #[trigger] targets[j]).contains(end) {
            let j = choose|j: int|
                0 <= j < n && king_step(board, player, c, #[trigger] targets[j]).contains(end);
            if j < n - 1 {
                assert(before.contains(end));
            }
        }
    }
}

/// The chains of one step of a king, given by the number of a diagonal and
/// the place of the step among what the king finds there.
pub open spec fn king_step_at(board: Board, player: Player, c: Chain, k: int, j: int) -> Seq<Chain> {
    king_step(board, player, c, king_targets(board, player, c, k)[j])
}

/// Whether `k` and `j` name a step of a king at the end of `c`.
pub open spec fn is_king_step(board: Board, player: Player, c: Chain, k: int, j: int) -> bool {
    0 <= k < 4 && 0 <= j < king_targets(board, player, c, k).len()
}

/// What the four rays give together: a chain is among the chains of a king
/// from `c` exactly if it is among those of one of its steps.
pub proof fn lemma_king_rays_members(board: Board, player: Player, c: Chain, end: Chain)
    ensures
        king_rays(board, player, c, 4).contains(end) <==> exists|k: int, j: int|
            is_king_step(board, player, c, k, j) && (#[trigger] king_step_at(board, player, c, k, j)).contains(
                end,
            ),
        king_rays(board, player, c, 4).len() == 0 <==> forall|k: int, j: int|
            is_king_step(board, player, c, k, j) ==> (#[trigger] king_step_at(board, player, c, k, j)).len()
                == 0,
{
    reveal_with_fuel(king_rays, 5);
    let t0 = king_targets(board, player, c, 0);
    let t1 = king_targets(board, player, c, 1);
    let t2 = king_targets(board, player, c, 2);
    let t3 = king_targets(board, player, c, 3);
    let s0 = king_steps(board, player, c, t0, t0.len() as int);
    let s1 = king_steps(board, player, c, t1, t1.len() as int);
    let s2 = king_steps(board, player, c, t2, t2.len() as int);
    let s3 = king_steps(board, player, c, t3, t3.len() as int);
    let all = king_rays(board, player, c, 4);
    assert(all =~= ((s0 + s1) + s2) + s3);
    lemma_king_steps_members(board, player, c, t0, t0.len() as int, end);
    lemma_king_steps_members(board, player, c, t1, t1.len() as int, end);
    lemma_king_steps_members(board, player, c, t2, t2.len() as int, end);
    lemma_king_steps_members(board, player, c, t3, t3.len() as int, end);
    lemma_concat_members(s0, s1, end);
    lemma_concat_members(s0 + s1, s2, end);
    lemma_concat_members((s0 + s1) + s2, s3, end);
    if all.contains(end) {
        if s0.contains(end) {
            let j = choose|j: int| 0 <= j < t0.len() && king_step(board, player, c, #[trigger] t0[j]).contains(end);
            assert(king_step_at(board, player, c, 0, j).contains(end));
        } else if s1.contains(end) {
            let j = choose|j: int| 0 <= j < t1.len() && king_step(board, player, c, #[trigger] t1[j]).contains(end);
            assert(king_step_at(board, player, c, 1, j).contains(end));
        } else if s2.contains(end) {
            let j = choose|j: int| 0 <= j < t2.len() && king_step(board, player, c, #[trigger] t2[j]).contains(end);
            assert(king_step_at(board, player, c, 2, j).contains(end));
        } else {
            let j = choose|j: int| 0 <= j < t3.len() && king_step(board, player, c, #[trigger] t3[j]).contains(end);
            assert(king_step_at(board, player, c, 3, j).contains(end));
        }
    }
    if all.len() == 0 {
        assert forall|k: int, j: int| is_king_step(board, player, c, k, j) implies (#[trigger] king_step_at(
            board,
            player,
            c,
            k,
            j,
        )).len() == 0 by {
            if k == 0 {
                assert(king_step(board, player, c, t0[j]).len() == 0);
            } else if k == 1 {
                assert(king_step(board, player, c, t1[j]).len() == 0);
            } else if k == 2 {
                assert(king_step(board, player, c, t2[j]).len() == 0);
            } else {
                assert(king_step(board, player, c, t3[j]).len() == 0);
            }
        }
    }
    if forall|k: int, j: int|
        is_king_step(board, player, c, k, j) ==> (#[trigger] king_step_at(board, player, c, k, j)).len() == 0 {
        assert forall|j: int| 0 <= j < t0.len() implies king_step(board, player, c, #[trigger] t0[j]).len()
            == 0 by {
            assert(king_step_at(board, player, c, 0, j).len() == 0);
        }
        assert forall|j: int| 0 <= j < t1.len() implies king_step(board, player, c, #[trigger] t1[j]).len()
            == 0 by {
            assert(king_step_at(board, player, c, 1, j).len() == 0);
        }
        assert forall|j: int| 0 <= j < t2.len() implies king_step(board, player, c, #[trigger] t2[j]).len()
            == 0 by {
            assert(king_step_at(board, player, c, 2, j).len() == 0);
        }
        assert forall|j: int| 0 <= j < t3.len() implies king_step(board, player, c, #[trigger] t3[j]).len()
            == 0 by {
            assert(king_step_at(board, player, c, 3, j).len() == 0);
        }
    }
    if exists|k: int, j: int|
        is_king_step(board, player, c, k, j) && (#[trigger] king_step_at(board, player, c, k, j)).contains(end) {
        let (k, j) = choose|k: int, j: int|
            is_king_step(board, player, c, k, j) && (#[trigger] king_step_at(board, player, c, k, j)).contains(
                end,
            );
        if k == 0 {
            assert(king_step(board, player, c, t0[j]).contains(end));
        } else if k == 1 {
            assert(king_step(board, player, c, t1[j]).contains(end));
        } else if k == 2 {
            assert(king_step(board, player, c, t2[j]).contains(end));
        } else {
            assert(king_step(board, player, c, t3[j]).contains(end));
        }
    }
}

/// A king that has captured always has a finished chain.
pub proof fn lemma_king_chains_nonempty(board: Board, player: Player, c: Chain)
    requires
        c.captures.len() > 0,
    ensures
        king_chains(board, player, c).len() > 0,
{
}

/// Every finished chain that the search gives for a king is either one
/// slide of a king that has not captured, or is reached by jumps and leaves
/// the king no jump.
pub proof fn lemma_king_chain_is_a_path(board: Board, player: Player, c: Chain, end: Chain)
    requires
        king_chains(board, player, c).contains(end),
    ensures
        king_slides_to(board, player, c, end) || king_jumps_to_the_end(board, player, c, end),
    decreases max_chain_captures() - c.captures.len(),
{
    let found = king_rays(board, player, c, 4);
    lemma_king_rays_members(board, player, c, end);
    if c.captures.len() > 0 && found.len() == 0 {
        assert(end == c);
        assert forall|k: int, j: int| (#[trigger] king_jump_to(board, player, c, k, j)) is None by {
            if king_jump_to(board, player, c, k, j) is Some {
                let next = king_jump_to(board, player, c, k, j).unwrap();
                assert(is_king_step(board, player, c, k, j));
                assert(king_step_at(board, player, c, k, j) == king_chains(board, player, next));
                lemma_king_chains_nonempty(board, player, next);
            }
        }
        assert(king_path(board, player, c, Seq::<(int, int)>::empty()) == Some(end));
    } else {
        assert(found.contains(end));
        let (k, j) = choose|k: int, j: int|
            is_king_step(board, player, c, k, j) && (#[trigger] king_step_at(board, player, c, k, j)).contains(
                end,
            );
        let target = king_targets(board, player, c, k)[j];
        let next = extend(c, target.0, target.1).unwrap();
        if target.1 is Some {
            assert(king_jump_to(board, player, c, k, j) == Some(next));
            lemma_king_chain_is_a_path(board, player, next, end);
            let rest = choose|jumps: Seq<(int, int)>| #[trigger] king_path(board, player, next, jumps) == Some(end);
            let jumps = seq![(k, j)] + rest;
            assert(jumps.drop_first() =~= rest);
            assert(king_path(board, player, c, jumps) == Some(end));
        } else {
            assert(king_step_at(board, player, c, k, j) == seq![next]);
            assert(end == next);
            if c.captures.len() > 0 {
                lemma_king_ray_only_jumps(board, player, c.pos, diagonal(k), 1, None);
            }
            assert(king_slide_to(board, player, c, k, j) == Some(end));
        }
    }
}

/// Every chain that a king that has not captured reaches by one slide is
/// among the finished chains that the search gives.
pub proof fn lemma_king_slide_is_found(board: Board, player: Player, c: Chain, end: Chain)
    requires
        king_slides_to(board, player, c, end),
    ensures
        king_chains(board, player, c).contains(end),
{
    let (k, j) = choose|k: int, j: int| #[trigger] king_slide_to(board, player, c, k, j) == Some(end);
    lemma_king_rays_members(board, player, c, end);
    assert(is_king_step(board, player, c, k, j));
    assert(king_step_at(board, player, c, k, j) == seq![end]);
    assert(king_step_at(board, player, c, k, j)[0] == end);
}

/// Every chain that a king reaches from `c` by jumps, having captured, and
/// at which it has no jump left, is among the finished chains that the
/// search gives.
pub proof fn lemma_king_path_is_found(
    board: Board,
    player: Player,
    c: Chain,
    jumps: Seq<(int, int)>,
    end: Chain,
)
    requires
        king_path(board, player, c, jumps) == Some(end),
        king_stuck(board, player, end),
        end.captures.len() > 0,
    ensures
        king_chains(board, player, c).contains(end),
    decreases jumps.len(),
{
    lemma_king_rays_members(board, player, c, end);
    if jumps.len() == 0 {
        assert forall|k: int, j: int| is_king_step(board, player, c, k, j) implies (#[trigger] king_step_at(
            board,
            player,
            c,
            k,
            j,
        )).len() == 0 by {
            lemma_king_ray_only_jumps(board, player, c.pos, diagonal(k), 1, None);
            assert(king_jump_to(board, player, c, k, j) is None);
        }
        assert(king_chains(board, player, c)[0] == c);
    } else {
        let (k, j) = jumps[0];
        let next = king_jump_to(board, player, c, k, j).unwrap();
        lemma_king_path_is_found(board, player, next, jumps.drop_first(), end);
        assert(is_king_step(board, player, c, k, j));
        assert(king_step_at(board, player, c, k, j) == king_chains(board, player, next));
    }
}

/// Whether `end` is a finished chain of a man of `player` on `pos` that
/// begins to the side `dy` (1 or -1): one step forward to an empty cell; or
/// a jump forward over a piece of the other side and then jumps in any
/// direction until no jump is left.
pub open spec fn man_opens_to(board: Board, player: Player, pos: Pos, dy: int, end: Chain) -> bool {
    let d = Pos { x: forward(player) as i32, y: dy as i32 };
    let next = pos.spec_add(d);
    let landing = pos.spec_add(d.spec_mul(2));
    &&& valid_pos(next)
    &&& if piece_at(board, next) is None {
        end == (Chain { pos: next, captures: Seq::empty(), moves: seq![spec_mov(pos, next)] })
    } else {
        &&& capture_jump(board, player, pos, d)
        &&& man_jumps_to_the_end(
            board,
            player,
            Chain { pos: landing, captures: seq![next], moves: seq![spec_mov(pos, landing)] },
            end,
        )
    }
}

/// Whether `end` is a turn of the piece on `pos`, before the forced-capture
/// rule is applied. The cell holds a piece of `player`. A man steps forward
/// once, or jumps to the end of a chain. A king slides once, or jumps to the
/// end of a chain.
pub open spec fn finished_chain_of(board: Board, player: Player, pos: Pos, end: Chain) -> bool {
    match piece_at(board, pos) {
        Some(piece) => piece.player == player && match piece.type_ {
            PieceType::Man => man_opens_to(board, player, pos, 1, end) || man_opens_to(
                board,
                player,
                pos,
                -1,
                end,
            ),
            PieceType::King => king_slides_to(board, player, start_of_chain(pos), end)
                || king_jumps_to_the_end(board, player, start_of_chain(pos), end),
        },
        None => false,
    }
}

/// The search gives for the piece on `pos` exactly its turns: a chain is
/// listed if and only if it is a turn of that piece.
pub proof fn lemma_piece_chains(board: Board, player: Player, pos: Pos, end: Chain)
    ensures
        piece_chains(board, player, pos).contains(end) <==> finished_chain_of(board, player, pos, end),
{
    match piece_at(board, pos) {
        Some(piece) => {
            if piece.player == player {
                match piece.type_ {
                    PieceType::Man => {
                        lemma_concat_members(
                            man_opening(board, player, pos, 1),
                            man_opening(board, player, pos, -1),
                            end,
                        );
                        lemma_man_opening(board, player, pos, 1, end);
                        lemma_man_opening(board, player, pos, -1, end);
                    },
                    PieceType::King => {
                        let start = start_of_chain(pos);
                        if king_chains(board, player, start).contains(end) {
                            lemma_king_chain_is_a_path(board, player, start, end);
                        }
                        if king_slides_to(board, player, start, end) {
                            lemma_king_slide_is_found(board, player, start, end);
                        }
                        if king_jumps_to_the_end(board, player, start, end) {
                            let jumps = choose|jumps: Seq<(int, int)>|
                                #[trigger] king_path(board, player, start, jumps) == Some(end);
                            lemma_king_path_is_found(board, player, start, jumps, end);
                        }
                    },
                }
            } else {
                assert(piece_chains(board, player, pos) =~= Seq::empty());
            }
        },
        None => {
            assert(piece_chains(board, player, pos) =~= Seq::empty());
        },
    }
}

/// The search gives for the first step of a man to one side exactly the
/// turns that begin there.
pub proof fn lemma_man_opening(board: Board, player: Player, pos: Pos, dy: int, end: Chain)
    ensures
        man_opening(board, player, pos, dy).contains(end) <==> man_opens_to(board, player, pos, dy, end),
{
    let d = Pos { x: forward(player) as i32, y: dy as i32 };
    let next = pos.spec_add(d);
    let landing = pos.spec_add(d.spec_mul(2));
    if !valid_pos(next) {
    } else if piece_at(board, next) is None {
        let step = Chain { pos: next, captures: Seq::empty(), moves: seq![spec_mov(pos, next)] };
        assert(man_opening(board, player, pos, dy) == seq![step]);
        assert(seq![step][0] == step);
    } else if capture_jump(board, player, pos, d) {
        let first = Chain { pos: landing, captures: seq![next], moves: seq![spec_mov(pos, landing)] };
        if man_continue(board, player, first).contains(end) {
            lemma_man_chain_is_a_path(board, player, first, end);
        }
        if man_jumps_to_the_end(board, player, first, end) {
            let dirs = choose|dirs: Seq<int>| #[trigger] man_path(board, player, first, dirs) == Some(end);
            lemma_man_path_is_found(board, player, first, dirs, end);
        }
    } else {
    }
}

/// The search over the first `n` cells gives exactly the turns of the
/// pieces on these cells.
pub proof fn lemma_all_chains(board: Board, player: Player, n: int, end: Chain)
    requires
        0 <= n,
    ensures
        all_chains(board, player, n).contains(end) <==> exists|k: int|
            0 <= k < n && #[trigger] finished_chain_of(board, player, cell_of_index(k), end),
    decreases n,
{
    if n > 0 {
        lemma_all_chains(board, player, n - 1, end);
        lemma_piece_chains(board, player, cell_of_index(n - 1), end);
        lemma_concat_members(
            all_chains(board, player, n - 1),
            piece_chains(board, player, cell_of_index(n - 1)),
            end,
        );
        if exists|k: int| 0 <= k < n && #[trigger] finished_chain_of(board, player, cell_of_index(k), end) {
            let k = choose|k: int| 0 <= k < n && #[trigger] finished_chain_of(board, player, cell_of_index(k), end);
            if k < n - 1 {
                assert(all_chains(board, player, n - 1).contains(end));
            }
        }
    }
}

impl GameState {
    /// Whether `end` is a turn of a piece of the side to move, whatever it
    /// captures.
    pub open spec fn is_turn(&self, end: Chain) -> bool {
        exists|k: int|
            0 <= k < 100 && #[trigger] finished_chain_of(self.board, self.current_player, cell_of_index(k), end)
    }

    /// What the generator lists, said without the search: a chain is legal
    /// exactly if it is a turn of a piece of the side to move and no turn of
    /// that side captures more.
    pub proof fn lemma_legal_is_largest_turn(&self, end: Chain)
        ensures
            self.legal_chains().contains(end) <==> self.is_turn(end) && forall|other: Chain|
                self.is_turn(other) ==> other.captures.len() <= end.captures.len(),
    {
        let all = self.candidate_chains();
        lemma_all_chains(self.board, self.current_player, 100, end);
        self.lemma_legal_chains(end);
        lemma_most_captures(all, all.len() as int);
        assert forall|other: Chain| self.is_turn(other) implies other.captures.len()
            <= self.forced_captures() by {
            lemma_all_chains(self.board, self.current_player, 100, other);
            self.lemma_legal_chains(other);
        }
        if self.is_turn(end) && forall|other: Chain|
            self.is_turn(other) ==> other.captures.len() <= end.captures.len() {
            let j = choose|j: int|
                0 <= j < all.len() && (#[trigger] all[j]).captures.len() == most_captures(all, all.len() as int);
            assert(all.contains(all[j]));
            lemma_all_chains(self.board, self.current_player, 100, all[j]);
            assert(self.is_turn(all[j]));
        }
    }
}

/// Cells of the board that differ from one another are a hundred at most.
pub proof fn lemma_distinct_cells_fit(cells: Seq<Pos>)
    requires
        cells.no_duplicates(),
        forall|k: int| 0 <= k < cells.len() ==> valid_pos(#[trigger] cells[k]),
    ensures
        cells.len() <= max_chain_captures(),
{
    let numbers = cells.map_values(|cell: Pos| cell.x * 10 + cell.y);
    assert forall|a: int, b: int|
        0 <= a < numbers.len() && 0 <= b < numbers.len() && a != b implies numbers[a] != numbers[b] by {
        assert(valid_pos(cells[a]) && valid_pos(cells[b]));
        assert(cells[a] != cells[b]);
    }
    numbers.unique_seq_to_set();
    lemma_int_range(0, 100);
    assert forall|n: int| numbers.to_set().contains(n) implies set_int_range(0, 100).contains(n) by {
        let k = choose|k: int| 0 <= k < numbers.len() && numbers[k] == n;
        assert(valid_pos(cells[k]));
    }
    lemma_len_subset(numbers.to_set(), set_int_range(0, 100));
}

/// The board never runs out of room for a capture: a well-formed chain can
/// always be extended by a jump over a piece of the other side that it has
/// not captured before.
pub proof fn lemma_fresh_capture_extends(
    board: Board,
    player: Player,
    c: Chain,
    new_pos: Pos,
    victim: Pos,
)
    requires
        well_formed(board, player, c),
        holds_opponent(board, player, victim),
    ensures
        extend(c, new_pos, Some(victim)) is Some <==> !c.captures.contains(victim),
{
    if !c.captures.contains(victim) {
        let cells = c.captures.push(victim);
        assert forall|a: int, b: int|
            0 <= a < cells.len() && 0 <= b < cells.len() && a != b implies cells[a] != cells[b] by {
            if a < c.captures.len() && b < c.captures.len() {
            } else if a < c.captures.len() {
                assert(c.captures.contains(c.captures[a]));
            } else {
                assert(c.captures.contains(c.captures[b]));
            }
        }
        assert forall|k: int| 0 <= k < cells.len() implies valid_pos(#[trigger] cells[k]) by {
            if k < c.captures.len() {
                assert(holds_opponent(board, player, c.captures[k]));
            }
        }
        lemma_distinct_cells_fit(cells);
    }
}

} // verus!
