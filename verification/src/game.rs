//! The deterministic per-tick simulation of one match: movement with wall
//! resolution, territory enforcement on player collisions, flag capture and
//! the scoring check.

use crate::arena::{flag_xs, flag_ys, spawn_xs, spawn_ys, wall_xs, wall_ys, Arena, HEIGHT, WIDTH};
use crate::geometry::{
    boxes_overlap, boxes_overlap_exec, clamp, clamp_coord, clear_of_walls,
    lemma_resolve_down_clear, lemma_resolve_left_clear, lemma_resolve_right_clear,
    lemma_resolve_up_clear, lemma_resolve_walls_from_bounds,
    lemma_resolve_walls_from_clear, resolve_wall_exec, resolve_walls, resolve_walls_from, X_MAX,
    Y_MAX,
};
use crate::player_move::{move_dx, move_dy, Move};
use vstd::prelude::*;

verus! {

/// The mathematical state of one match. Player and spawn positions are in
/// quarters; flag and wall coordinates are whole cells.
#[verifier::ext_equal]
pub struct GameView {
    pub n: int,
    pub width: i32,
    pub height: i32,
    pub px: Seq<i32>,
    pub py: Seq<i32>,
    pub sx: Seq<i32>,
    pub sy: Seq<i32>,
    pub fx: Seq<i32>,
    pub fy: Seq<i32>,
    pub wx: Seq<i32>,
    pub wy: Seq<i32>,
    pub captors: Seq<Option<usize>>,
    pub scores: Seq<u32>,
}

/// The team of player `i` is `i mod 2`.
pub open spec fn team_of(i: int) -> int {
    i % 2
}

/// Whether a player of `team` whose left edge is at quarter `x` stands on
/// their own home half: the box center left of the midline for team 0, at
/// or right of it for team 1.
pub open spec fn home_for_team(team: int, x: int) -> bool {
    if team == 0 {
        x + 2 < 2 * WIDTH
    } else {
        x + 2 >= 2 * WIDTH
    }
}

/// Whether player `i` stands on their own home half.
pub open spec fn player_home(v: GameView, i: int) -> bool {
    home_for_team(team_of(i), v.px[i] as int)
}

/// The captor entry for team `t` is well formed: a live opposing player.
pub open spec fn captor_ok(v: GameView, t: int) -> bool {
    match v.captors[t] {
        Some(p) => p < v.n && team_of(p as int) != t,
        None => true,
    }
}

/// Well-formedness of a match state: the supported player count, the fixed
/// arena size, consistent lengths, all positions and spawns inside the
/// arena, flag and wall cells inside the arena, and well-formed captors.
pub open spec fn wf(v: GameView) -> bool {
    &&& (v.n == 2 || v.n == 4)
    &&& v.width == WIDTH
    &&& v.height == HEIGHT
    &&& v.px.len() == v.n
    &&& v.py.len() == v.n
    &&& v.sx.len() == v.n
    &&& v.sy.len() == v.n
    &&& v.fx.len() == 2
    &&& v.fy.len() == 2
    &&& v.wx.len() == v.wy.len()
    &&& v.captors.len() == 2
    &&& v.scores.len() == 2
    &&& forall|i: int| 0 <= i < v.n ==> 0 <= #[trigger] v.px[i] <= X_MAX
    &&& forall|i: int| 0 <= i < v.n ==> 0 <= #[trigger] v.py[i] <= Y_MAX
    &&& forall|i: int| 0 <= i < v.n ==> 0 <= #[trigger] v.sx[i] <= X_MAX
    &&& forall|i: int| 0 <= i < v.n ==> 0 <= #[trigger] v.sy[i] <= Y_MAX
    &&& forall|t: int| 0 <= t < 2 ==> 0 <= #[trigger] v.fx[t] < WIDTH
    &&& forall|t: int| 0 <= t < 2 ==> 0 <= #[trigger] v.fy[t] < HEIGHT
    &&& forall|k: int| 0 <= k < v.wx.len() ==> 0 <= #[trigger] v.wx[k] < WIDTH
    &&& forall|k: int| 0 <= k < v.wx.len() ==> 0 <= #[trigger] v.wy[k] < HEIGHT
    &&& forall|t: int| 0 <= t < 2 ==> #[trigger] captor_ok(v, t)
}

/// The position of player `i` after applying move `m`: one quarter of
/// movement, clamped to the arena, then resolved against every wall.
pub open spec fn moved_pos(v: GameView, i: int, m: Move) -> (int, int) {
    let tx = clamp(v.px[i] + move_dx(m), X_MAX as int);
    let ty = clamp(v.py[i] + move_dy(m), Y_MAX as int);
    resolve_walls(tx, ty, v.wx, v.wy)
}

/// Movement: every player advances independently by their move.
pub open spec fn move_phase(v: GameView, moves: Seq<Move>) -> GameView {
    GameView {
        px: Seq::new(v.px.len(), |i: int| moved_pos(v, i, moves[i]).0 as i32),
        py: Seq::new(v.py.len(), |i: int| moved_pos(v, i, moves[i]).1 as i32),
        ..v
    }
}

/// Whether the boxes of players `i` and `j` overlap.
pub open spec fn players_collide(v: GameView, i: int, j: int) -> bool {
    boxes_overlap(v.px[i] as int, v.py[i] as int, v.px[j] as int, v.py[j] as int)
}

/// Whether player `i` is sent back to spawn this tick: they overlap some
/// opposing player while standing outside their own home half.
pub open spec fn reset_in(v: GameView, i: int) -> bool {
    &&& !player_home(v, i)
    &&& exists|j: int| 0 <= j < v.n && team_of(j) != team_of(i) && #[trigger] players_collide(v, i, j)
}

/// The players among 0..k that are sent back to spawn, in index order.
pub open spec fn reset_seq_upto(v: GameView, k: int) -> Seq<usize>
    decreases k,
{
    if k <= 0 {
        Seq::empty()
    } else if reset_in(v, k - 1) {
        reset_seq_upto(v, k - 1).push((k - 1) as usize)
    } else {
        reset_seq_upto(v, k - 1)
    }
}

/// Territory enforcement: every colliding player caught outside their home
/// half is reset to their spawn, and any flag such a player held is freed.
pub open spec fn collide_phase(v: GameView) -> GameView {
    GameView {
        px: Seq::new(v.px.len(), |i: int| if reset_in(v, i) { v.sx[i] } else { v.px[i] }),
        py: Seq::new(v.py.len(), |i: int| if reset_in(v, i) { v.sy[i] } else { v.py[i] }),
        captors: Seq::new(
            v.captors.len(),
            |t: int|
                match v.captors[t] {
                    Some(p) => if reset_in(v, p as int) {
                        None
                    } else {
                        Some(p)
                    },
                    None => None,
                },
        ),
        ..v
    }
}

/// Whether player `i` stands on the spawn cell of team `t`'s flag while
/// belonging to the other team.
pub open spec fn captures_flag(v: GameView, i: int, t: int) -> bool {
    &&& team_of(i) != t
    &&& boxes_overlap(v.px[i] as int, v.py[i] as int, 4 * v.fx[t], 4 * v.fy[t])
}

/// The captor entries after players 0..k have tried, in index order, to
/// pick up the opposing flag; an already captured flag cannot be taken.
pub open spec fn capture_upto(v: GameView, k: int) -> Seq<Option<usize>>
    decreases k,
{
    if k <= 0 {
        v.captors
    } else {
        let cap = capture_upto(v, k - 1);
        let i = k - 1;
        let t = 1 - team_of(i);
        if cap[t] is None && captures_flag(v, i, t) {
            cap.update(t, Some(i as usize))
        } else {
            cap
        }
    }
}

/// Flag capture: players take an uncaptured opposing flag they stand on.
pub open spec fn capture_phase(v: GameView) -> GameView {
    GameView { captors: capture_upto(v, v.n), ..v }
}

/// The scoring check: a captor that has come home frees the flag they held.
/// The score counters are tracked but deliberately left untouched here.
pub open spec fn scoring_phase(v: GameView) -> GameView {
    GameView {
        captors: Seq::new(
            v.captors.len(),
            |t: int|
                match v.captors[t] {
                    Some(p) => if player_home(v, p as int) {
                        None
                    } else {
                        Some(p)
                    },
                    None => None,
                },
        ),
        ..v
    }
}

/// One full tick: movement, territory enforcement, flag capture, scoring.
pub open spec fn step_view(v: GameView, moves: Seq<Move>) -> GameView {
    scoring_phase(capture_phase(collide_phase(move_phase(v, moves))))
}

/// The players reported as reset by one full tick, in index order.
pub open spec fn step_resets(v: GameView, moves: Seq<Move>) -> Seq<usize> {
    let m = move_phase(v, moves);
    reset_seq_upto(m, m.n)
}

/// The freshly initialized state for a match of `n` players: everyone at
/// their spawn, both flags free, both scores zero.
pub open spec fn initial_view(n: int) -> GameView {
    GameView {
        n: n,
        width: WIDTH,
        height: HEIGHT,
        px: Seq::new(n as nat, |i: int| (4 * spawn_xs(n)[i]) as i32),
        py: Seq::new(n as nat, |i: int| (4 * spawn_ys(n)[i]) as i32),
        sx: Seq::new(n as nat, |i: int| (4 * spawn_xs(n)[i]) as i32),
        sy: Seq::new(n as nat, |i: int| (4 * spawn_ys(n)[i]) as i32),
        fx: flag_xs(),
        fy: flag_ys(),
        wx: wall_xs(),
        wy: wall_ys(),
        captors: seq![None, None],
        scores: seq![0u32, 0u32],
    }
}

/// Movement keeps a well-formed state well formed.
pub proof fn lemma_move_phase_wf(v: GameView, moves: Seq<Move>)
    requires
        wf(v),
        moves.len() == v.n,
    ensures
        wf(move_phase(v, moves)),
{
    let m = move_phase(v, moves);
    assert forall|i: int| 0 <= i < m.n implies 0 <= #[trigger] m.px[i] <= X_MAX by {
        let tx = clamp(v.px[i] + move_dx(moves[i]), X_MAX as int);
        let ty = clamp(v.py[i] + move_dy(moves[i]), Y_MAX as int);
        lemma_resolve_walls_from_bounds(tx, ty, v.wx, v.wy, 0);
    }
    assert forall|i: int| 0 <= i < m.n implies 0 <= #[trigger] m.py[i] <= Y_MAX by {
        let tx = clamp(v.px[i] + move_dx(moves[i]), X_MAX as int);
        let ty = clamp(v.py[i] + move_dy(moves[i]), Y_MAX as int);
        lemma_resolve_walls_from_bounds(tx, ty, v.wx, v.wy, 0);
    }
    assert forall|t: int| 0 <= t < 2 implies #[trigger] captor_ok(m, t) by {
        assert(captor_ok(v, t));
    }
}

/// Territory enforcement keeps a well-formed state well formed.
pub proof fn lemma_collide_phase_wf(v: GameView)
    requires
        wf(v),
    ensures
        wf(collide_phase(v)),
{
    let c = collide_phase(v);
    assert forall|t: int| 0 <= t < 2 implies #[trigger] captor_ok(c, t) by {
        assert(captor_ok(v, t));
    }
}

/// After capture, every captor entry still names a live opposing player.
pub proof fn lemma_capture_upto_ok(v: GameView, k: int)
    requires
        wf(v),
        0 <= k <= v.n,
    ensures
        capture_upto(v, k).len() == 2,
        forall|t: int|
            0 <= t < 2 ==> match #[trigger] capture_upto(v, k)[t] {
                Some(p) => p < v.n && team_of(p as int) != t,
                None => true,
            },
    decreases k,
{
    if k <= 0 {
        assert forall|t: int| 0 <= t < 2 implies match #[trigger] capture_upto(v, k)[t] {
            Some(p) => p < v.n && team_of(p as int) != t,
            None => true,
        } by {
            assert(captor_ok(v, t));
        }
    } else {
        lemma_capture_upto_ok(v, k - 1);
    }
}

/// Flag capture keeps a well-formed state well formed.
pub proof fn lemma_capture_phase_wf(v: GameView)
    requires
        wf(v),
    ensures
        wf(capture_phase(v)),
{
    lemma_capture_upto_ok(v, v.n);
    let c = capture_phase(v);
    assert forall|t: int| 0 <= t < 2 implies #[trigger] captor_ok(c, t) by {
        assert(match capture_upto(v, v.n)[t] {
            Some(p) => p < v.n && team_of(p as int) != t,
            None => true,
        });
    }
}

/// The scoring check keeps a well-formed state well formed.
pub proof fn lemma_scoring_phase_wf(v: GameView)
    requires
        wf(v),
    ensures
        wf(scoring_phase(v)),
{
    let c = scoring_phase(v);
    assert forall|t: int| 0 <= t < 2 implies #[trigger] captor_ok(c, t) by {
        assert(captor_ok(v, t));
    }
}

/// A full tick keeps a well-formed state well formed. In particular every
/// player position stays within the arena after any sequence of ticks, and
/// each flag is held by at most one player, never of the flag's own team.
pub proof fn lemma_step_view_wf(v: GameView, moves: Seq<Move>)
    requires
        wf(v),
        moves.len() == v.n,
    ensures
        wf(step_view(v, moves)),
{
    lemma_move_phase_wf(v, moves);
    lemma_collide_phase_wf(move_phase(v, moves));
    lemma_capture_phase_wf(collide_phase(move_phase(v, moves)));
    lemma_scoring_phase_wf(capture_phase(collide_phase(move_phase(v, moves))));
}

/// Whether player `i`'s box overlaps wall cell `k`.
pub open spec fn player_wall_overlap(v: GameView, i: int, k: int) -> bool {
    boxes_overlap(v.px[i] as int, v.py[i] as int, 4 * v.wx[k], 4 * v.wy[k])
}

/// Whether player `i` stands on an uncaptured opposing flag, so that the
/// next tick would record a capture.
pub open spec fn capture_pending(v: GameView, i: int) -> bool {
    &&& v.captors[1 - team_of(i)] is None
    &&& captures_flag(v, i, 1 - team_of(i))
}

/// The move list that keeps every player still.
pub open spec fn all_stay(n: int) -> Seq<Move> {
    Seq::new(n as nat, |i: int| Move::Stay)
}

/// A state at rest: no player box touches a wall or an opposing player in a
/// way the next tick would act on, no capture is pending, and no captor
/// already stands on their home half.
pub open spec fn quiescent(v: GameView) -> bool {
    &&& forall|i: int, k: int|
        0 <= i < v.n && 0 <= k < v.wx.len() ==> !#[trigger] player_wall_overlap(v, i, k)
    &&& forall|i: int| 0 <= i < v.n ==> !#[trigger] reset_in(v, i)
    &&& forall|i: int| 0 <= i < v.n ==> !#[trigger] capture_pending(v, i)
    &&& forall|t: int|
        0 <= t < 2 ==> match #[trigger] v.captors[t] {
            Some(p) => !player_home(v, p as int),
            None => true,
        }
}

/// When no capture is pending, the capture pass changes nothing.
proof fn lemma_capture_noop(v: GameView, k: int)
    requires
        wf(v),
        0 <= k <= v.n,
        forall|i: int| 0 <= i < v.n ==> !#[trigger] capture_pending(v, i),
    ensures
        capture_upto(v, k) == v.captors,
    decreases k,
{
    if k > 0 {
        lemma_capture_noop(v, k - 1);
        assert(!capture_pending(v, k - 1));
    }
}

/// When nobody is reset, the reported reset list is empty.
proof fn lemma_reset_seq_empty(v: GameView, k: int)
    requires
        forall|i: int| 0 <= i < k ==> !#[trigger] reset_in(v, i),
    ensures
        reset_seq_upto(v, k) == Seq::<usize>::empty(),
    decreases k,
{
    if k > 0 {
        lemma_reset_seq_empty(v, k - 1);
    }
}

/// Idempotence at rest: stepping a quiescent state with Stay for every
/// player leaves all positions, captors and scores unchanged. (A state in
/// which, say, two overlapping opposing players are still waiting to be
/// sent home is changed even by an all-Stay tick, so those states are
/// excluded by `quiescent`.)
pub proof fn lemma_stay_step_identity(v: GameView)
    requires
        wf(v),
        quiescent(v),
    ensures
        step_view(v, all_stay(v.n)) == v,
        step_resets(v, all_stay(v.n)) == Seq::<usize>::empty(),
{
    let moves = all_stay(v.n);
    let m = move_phase(v, moves);
    assert forall|i: int| 0 <= i < v.n implies moved_pos(v, i, moves[i]) == (
        v.px[i] as int,
        v.py[i] as int,
    ) by {
        assert(moves[i] == Move::Stay);
        assert(clamp(v.px[i] + 0, X_MAX as int) == v.px[i] as int);
        assert(clamp(v.py[i] + 0, Y_MAX as int) == v.py[i] as int);
        assert forall|k: int| 0 <= k < v.wx.len() implies !boxes_overlap(
            v.px[i] as int,
            v.py[i] as int,
            4 * #[trigger] v.wx[k],
            4 * v.wy[k],
        ) by {
            assert(!player_wall_overlap(v, i, k));
        }
        lemma_resolve_walls_from_clear(v.px[i] as int, v.py[i] as int, v.wx, v.wy, 0);
    }
    assert(m.px =~= v.px);
    assert(m.py =~= v.py);
    assert(m =~= v);
    let c = collide_phase(v);
    assert(c.px =~= v.px);
    assert(c.py =~= v.py);
    assert forall|t: int| 0 <= t < 2 implies #[trigger] c.captors[t] == v.captors[t] by {
        match v.captors[t] {
            Some(p) => {
                assert(captor_ok(v, t));
                assert(!reset_in(v, p as int));
            },
            None => {},
        }
    }
    assert(c.captors =~= v.captors);
    assert(c =~= v);
    lemma_capture_noop(v, v.n);
    let g = capture_phase(v);
    assert(g =~= v);
    let s = scoring_phase(v);
    assert forall|t: int| 0 <= t < 2 implies #[trigger] s.captors[t] == v.captors[t] by {}
    assert(s.captors =~= v.captors);
    assert(s =~= v);
    assert(step_view(v, moves) == v);
    lemma_reset_seq_empty(v, v.n);
}

/// Whether player `i`'s box overlaps no wall cell.
pub open spec fn player_clear_of_walls(v: GameView, i: int) -> bool {
    clear_of_walls(v.px[i] as int, v.py[i] as int, v.wx, v.wy)
}

/// Whether player `i`'s spawn box overlaps no wall cell.
pub open spec fn spawn_clear_of_walls(v: GameView, i: int) -> bool {
    clear_of_walls(v.sx[i] as int, v.sy[i] as int, v.wx, v.wy)
}

/// A single-axis move: a straight sideways or vertical move, or standing
/// still; the diagonal moves are the ones left out.
pub open spec fn single_axis_move(m: Move) -> bool {
    move_dx(m) == 0 || move_dy(m) == 0
}

/// One qualifying move from a wall-clear position resolves to a wall-clear
/// position, and a sideways move keeps the player's row unchanged.
proof fn lemma_moved_pos_clear(v: GameView, i: int, m: Move)
    requires
        wf(v),
        0 <= i < v.n,
        player_clear_of_walls(v, i),
        single_axis_move(m),
    ensures
        clear_of_walls(moved_pos(v, i, m).0, moved_pos(v, i, m).1, v.wx, v.wy),
        0 <= moved_pos(v, i, m).0 <= X_MAX,
        0 <= moved_pos(v, i, m).1 <= Y_MAX,
{
    lemma_resolve_walls_from_bounds(
        clamp(v.px[i] + move_dx(m), X_MAX as int),
        clamp(v.py[i] + move_dy(m), Y_MAX as int),
        v.wx,
        v.wy,
        0,
    );
    let x0 = v.px[i] as int;
    let y0 = v.py[i] as int;
    let tx = clamp(x0 + move_dx(m), X_MAX as int);
    let ty = clamp(y0 + move_dy(m), Y_MAX as int);
    if tx == x0 && ty == y0 {
        lemma_resolve_walls_from_clear(x0, y0, v.wx, v.wy, 0);
    } else if move_dy(m) == 0 {
        if move_dx(m) == 1 && x0 + 1 <= X_MAX as int {
            lemma_resolve_right_clear(x0, y0, v.wx, v.wy, 0);
        } else if move_dx(m) == -1 && x0 >= 1 {
            lemma_resolve_left_clear(x0, y0, v.wx, v.wy, 0);
        } else {
            lemma_resolve_walls_from_clear(x0, y0, v.wx, v.wy, 0);
        }
    } else {
        if move_dy(m) == 1 && y0 + 1 <= Y_MAX as int {
            lemma_resolve_down_clear(x0, y0, v.wx, v.wy, 0);
        } else if move_dy(m) == -1 && y0 >= 1 {
            lemma_resolve_up_clear(x0, y0, v.wx, v.wy, 0);
        } else {
            lemma_resolve_walls_from_clear(x0, y0, v.wx, v.wy, 0);
        }
    }
}

/// Non-traversal: when every player starts clear of the walls (as at
/// spawn) and every move this tick is single-axis, then after the whole
/// tick no player's box overlaps any wall cell — in particular no box
/// ends up fully inside a wall. Spawn boxes must be wall-clear too, since
/// a collided player may be reset onto one; the conclusion re-establishes
/// every hypothesis on the positions, so the law carries over any
/// sequence of single-axis ticks.
pub proof fn lemma_step_non_traversal(v: GameView, moves: Seq<Move>)
    requires
        wf(v),
        moves.len() == v.n,
        forall|i: int| 0 <= i < v.n ==> #[trigger] player_clear_of_walls(v, i),
        forall|i: int| 0 <= i < v.n ==> #[trigger] spawn_clear_of_walls(v, i),
        forall|i: int| 0 <= i < v.n ==> single_axis_move(#[trigger] moves[i]),
    ensures
        forall|i: int| 0 <= i < v.n ==> #[trigger] player_clear_of_walls(step_view(v, moves), i),
        forall|i: int| 0 <= i < v.n ==> #[trigger] spawn_clear_of_walls(step_view(v, moves), i),
        forall|i: int, l: int|
            #![trigger step_view(v, moves).px[i], v.wx[l]]
            0 <= i < v.n && 0 <= l < v.wx.len() ==> !(step_view(v, moves).px[i] == 4 * v.wx[l]
                && step_view(v, moves).py[i] == 4 * v.wy[l]),
{
    let m = move_phase(v, moves);
    let s = step_view(v, moves);
    assert forall|i: int| 0 <= i < v.n implies #[trigger] player_clear_of_walls(m, i) by {
        lemma_moved_pos_clear(v, i, moves[i]);
        assert(m.px[i] as int == moved_pos(v, i, moves[i]).0);
        assert(m.py[i] as int == moved_pos(v, i, moves[i]).1);
    }
    assert forall|i: int| 0 <= i < v.n implies #[trigger] player_clear_of_walls(s, i) by {
        assert(player_clear_of_walls(m, i));
        if reset_in(m, i) {
            assert(s.px[i] == v.sx[i] && s.py[i] == v.sy[i]);
            assert(spawn_clear_of_walls(v, i));
        } else {
            assert(s.px[i] == m.px[i] && s.py[i] == m.py[i]);
        }
    }
    assert forall|i: int| 0 <= i < v.n implies #[trigger] spawn_clear_of_walls(s, i) by {
        assert(s.sx[i] == v.sx[i] && s.sy[i] == v.sy[i] && s.wx == v.wx && s.wy == v.wy);
        assert(spawn_clear_of_walls(v, i));
    }
    assert forall|i: int, l: int|
        #![trigger step_view(v, moves).px[i], v.wx[l]]
        0 <= i < v.n && 0 <= l < v.wx.len() implies !(s.px[i] == 4 * v.wx[l]
        && s.py[i] == 4 * v.wy[l]) by {
        assert(player_clear_of_walls(s, i));
        if s.px[i] == 4 * v.wx[l] && s.py[i] == 4 * v.wy[l] {
            assert(boxes_overlap(s.px[i] as int, s.py[i] as int, 4 * v.wx[l], 4 * v.wy[l]));
        }
    }
}

/// At the start of a match every player and spawn box is clear of the
/// walls, so the non-traversal law applies from the first tick on.
pub proof fn lemma_initial_clear(n: int)
    requires
        n == 2 || n == 4,
    ensures
        forall|i: int| 0 <= i < n ==> #[trigger] player_clear_of_walls(initial_view(n), i),
        forall|i: int| 0 <= i < n ==> #[trigger] spawn_clear_of_walls(initial_view(n), i),
{
    let v = initial_view(n);
    assert forall|i: int| 0 <= i < n implies #[trigger] player_clear_of_walls(v, i)
        && spawn_clear_of_walls(v, i) by {
        assert(v.py[i] as int == 4 * spawn_ys(n)[i]);
        assert(spawn_ys(n)[i] == 0 || spawn_ys(n)[i] == 13);
        assert forall|l: int| 0 <= l < v.wx.len() implies !boxes_overlap(
            v.px[i] as int,
            v.py[i] as int,
            4 * #[trigger] v.wx[l],
            4 * v.wy[l],
        ) by {
            assert(1 <= wall_ys()[l] <= 12);
        }
    }
}

/// A freshly initialized match is quiescent: players stand clear of the
/// walls and of each other, nobody stands on an opposing flag cell, and
/// no flag is captured — so by `lemma_stay_step_identity` an all-Stay
/// tick leaves it exactly as it is.
pub proof fn lemma_initial_quiescent(n: int)
    requires
        n == 2 || n == 4,
    ensures
        quiescent(initial_view(n)),
{
    let v = initial_view(n);
    lemma_initial_clear(n);
    assert forall|i: int, k: int|
        0 <= i < v.n && 0 <= k < v.wx.len() implies !#[trigger] player_wall_overlap(v, i, k) by {
        assert(player_clear_of_walls(v, i));
    }
    assert forall|i: int| 0 <= i < v.n implies !#[trigger] reset_in(v, i) by {
        assert forall|j: int|
            0 <= j < v.n && team_of(j) != team_of(i) implies !#[trigger] players_collide(
            v,
            i,
            j,
        ) by {
            assert(v.px[i] as int == 4 * spawn_xs(n)[i]);
            assert(v.px[j] as int == 4 * spawn_xs(n)[j]);
            assert(spawn_xs(n)[i] == 0 || spawn_xs(n)[i] == 27);
        }
    }
    assert forall|i: int| 0 <= i < v.n implies !#[trigger] capture_pending(v, i) by {
        let t = 1 - team_of(i);
        assert(v.py[i] as int == 4 * spawn_ys(n)[i]);
        assert(spawn_ys(n)[i] == 0 || spawn_ys(n)[i] == 13);
        assert(v.fy[t] == 7 || v.fy[t] == 6);
        assert(!captures_flag(v, i, t));
    }
}

/// Containment: a tick keeps every player position inside
/// [0, width-1] x [0, height-1]; with `GameState::new` establishing `wf`
/// and `step` preserving it, this holds after any sequence of ticks.
pub proof fn lemma_containment(v: GameView, moves: Seq<Move>)
    requires
        wf(v),
        moves.len() == v.n,
    ensures
        forall|i: int| 0 <= i < v.n ==> 0 <= #[trigger] step_view(v, moves).px[i] <= X_MAX,
        forall|i: int| 0 <= i < v.n ==> 0 <= #[trigger] step_view(v, moves).py[i] <= Y_MAX,
{
    lemma_step_view_wf(v, moves);
}

/// Flag exclusivity: each flag has at most one captor (its entry is a
/// single optional player), a captor is never of the flag's own team, and
/// no player holds both flags at once.
pub proof fn lemma_flag_exclusivity(v: GameView)
    requires
        wf(v),
    ensures
        forall|t: int|
            0 <= t < 2 ==> match #[trigger] v.captors[t] {
                Some(p) => 0 <= p < v.n && team_of(p as int) != t,
                None => true,
            },
        v.captors[0] is Some && v.captors[1] is Some ==> v.captors[0] != v.captors[1],
{
    assert(captor_ok(v, 0));
    assert(captor_ok(v, 1));
}

/// Exec resolution of a tentative position against the whole wall list.
fn resolve_against_walls(tx: i32, ty: i32, wall_x: &Vec<i32>, wall_y: &Vec<i32>) -> (r: (i32, i32))
    requires
        0 <= tx <= X_MAX,
        0 <= ty <= Y_MAX,
        wall_x@.len() == wall_y@.len(),
        forall|k: int| 0 <= k < wall_x@.len() ==> 0 <= #[trigger] wall_x@[k] < WIDTH,
        forall|k: int| 0 <= k < wall_x@.len() ==> 0 <= #[trigger] wall_y@[k] < HEIGHT,
    ensures
        (r.0 as int, r.1 as int) == resolve_walls(tx as int, ty as int, wall_x@, wall_y@),
        0 <= r.0 <= X_MAX,
        0 <= r.1 <= Y_MAX,
{
    let mut x = tx;
    let mut y = ty;
    let mut k: usize = 0;
    while k < wall_x.len()
        invariant
            0 <= x <= X_MAX,
            0 <= y <= Y_MAX,
            k <= wall_x@.len(),
            wall_x@.len() == wall_y@.len(),
            forall|l: int| 0 <= l < wall_x@.len() ==> 0 <= #[trigger] wall_x@[l] < WIDTH,
            forall|l: int| 0 <= l < wall_x@.len() ==> 0 <= #[trigger] wall_y@[l] < HEIGHT,
            resolve_walls_from(x as int, y as int, wall_x@, wall_y@, k as int) == resolve_walls(
                tx as int,
                ty as int,
                wall_x@,
                wall_y@,
            ),
        decreases wall_x@.len() - k,
    {
        let p = resolve_wall_exec(x, y, wall_x[k] * 4, wall_y[k] * 4);
        x = p.0;
        y = p.1;
        k = k + 1;
    }
    (x, y)
}

/// Exec test of the home half for the player in slot `i`.
fn on_home_side(x: i32, i: usize) -> (r: bool)
    requires
        -1000 <= x <= 1000,
    ensures
        r == home_for_team(team_of(i as int), x as int),
{
    if i % 2 == 0 {
        x + 2 < 2 * WIDTH
    } else {
        x + 2 >= 2 * WIDTH
    }
}

/// Whether cell (x, y) is a wall cell of this state.
pub open spec fn wall_at(v: GameView, x: int, y: int) -> bool {
    exists|l: int| 0 <= l < v.wx.len() && #[trigger] v.wx[l] == x && v.wy[l] == y
}

/// Whether team `t`'s flag is uncaptured and spawns in cell (x, y).
pub open spec fn flag_uncaptured_at(v: GameView, t: int, x: int, y: int) -> bool {
    v.captors[t] is None && v.fx[t] == x && v.fy[t] == y
}

/// The player drawn in cell (x, y): of the players with index below k
/// whose box's top-left corner falls in that cell, the one with the
/// largest index.
pub open spec fn last_player_at(v: GameView, x: int, y: int, k: int) -> Option<usize>
    decreases k,
{
    if k <= 0 {
        None
    } else if v.px[k - 1] / 4 == x && v.py[k - 1] / 4 == y {
        Some((k - 1) as usize)
    } else {
        last_player_at(v, x, y, k - 1)
    }
}

/// A drawn player index is below the scanned bound.
pub proof fn lemma_last_player_bound(v: GameView, x: int, y: int, k: int)
    requires
        0 <= k,
    ensures
        match last_player_at(v, x, y, k) {
            Some(p) => p < k,
            None => true,
        },
    decreases k,
{
    if k > 0 {
        lemma_last_player_bound(v, x, y, k - 1);
    }
}

/// The byte drawn in grid cell (x, y): uncaptured flags first ('B', 'R'),
/// then walls ('#'), then the topmost player's slot digit, then a space.
pub open spec fn cell_byte(v: GameView, x: int, y: int) -> u8 {
    if flag_uncaptured_at(v, 0, x, y) {
        66u8
    } else if flag_uncaptured_at(v, 1, x, y) {
        82u8
    } else if wall_at(v, x, y) {
        35u8
    } else {
        match last_player_at(v, x, y, v.n) {
            Some(i) => (48 + i) as u8,
            None => 32u8,
        }
    }
}

/// The authoritative state of one running match.
pub struct GameState {
    n: usize,
    width: i32,
    height: i32,
    player_x: Vec<i32>,
    player_y: Vec<i32>,
    spawn_x: Vec<i32>,
    spawn_y: Vec<i32>,
    flag_x: Vec<i32>,
    flag_y: Vec<i32>,
    wall_x: Vec<i32>,
    wall_y: Vec<i32>,
    flag_captors: Vec<Option<usize>>,
    scores: Vec<u32>,
}

impl View for GameState {
    type V = GameView;

    closed spec fn view(&self) -> GameView {
        GameView {
            n: self.n as int,
            width: self.width,
            height: self.height,
            px: self.player_x@,
            py: self.player_y@,
            sx: self.spawn_x@,
            sy: self.spawn_y@,
            fx: self.flag_x@,
            fy: self.flag_y@,
            wx: self.wall_x@,
            wy: self.wall_y@,
            captors: self.flag_captors@,
            scores: self.scores@,
        }
    }
}

impl GameState {
    /// Starts a match of `n` players on the fixed arena layout.
    pub fn new(n: usize) -> (r: GameState)
        requires
            n == 2 || n == 4,
        ensures
            r@ == initial_view(n as int),
            wf(r@),
    {
        let arena = Arena::new(n);
        let mut player_x: Vec<i32> = Vec::new();
        let mut player_y: Vec<i32> = Vec::new();
        let mut spawn_x: Vec<i32> = Vec::new();
        let mut spawn_y: Vec<i32> = Vec::new();
        let mut i: usize = 0;
        while i < n
            invariant
                n == 2 || n == 4,
                i <= n,
                arena.player_spawn_x@ == spawn_xs(n as int),
                arena.player_spawn_y@ == spawn_ys(n as int),
                player_x@.len() == i,
                player_y@.len() == i,
                spawn_x@.len() == i,
                spawn_y@.len() == i,
                forall|k: int|
                    0 <= k < i ==> #[trigger] player_x@[k] == (4 * spawn_xs(n as int)[k]) as i32,
                forall|k: int|
                    0 <= k < i ==> #[trigger] player_y@[k] == (4 * spawn_ys(n as int)[k]) as i32,
                forall|k: int|
                    0 <= k < i ==> #[trigger] spawn_x@[k] == (4 * spawn_xs(n as int)[k]) as i32,
                forall|k: int|
                    0 <= k < i ==> #[trigger] spawn_y@[k] == (4 * spawn_ys(n as int)[k]) as i32,
            decreases n - i,
        {
            assert(spawn_xs(n as int).len() == n && spawn_ys(n as int).len() == n);
            assert(0 <= spawn_xs(n as int)[i as int] <= 27);
            assert(0 <= spawn_ys(n as int)[i as int] <= 13);
            let qx = arena.player_spawn_x[i] * 4;
            let qy = arena.player_spawn_y[i] * 4;
            player_x.push(qx);
            player_y.push(qy);
            spawn_x.push(qx);
            spawn_y.push(qy);
            i = i + 1;
        }
        let mut flag_captors: Vec<Option<usize>> = Vec::new();
        flag_captors.push(None);
        flag_captors.push(None);
        let mut scores: Vec<u32> = Vec::new();
        scores.push(0);
        scores.push(0);
        let r = GameState {
            n,
            width: arena.width,
            height: arena.height,
            player_x,
            player_y,
            spawn_x,
            spawn_y,
            flag_x: arena.flag_spawn_x,
            flag_y: arena.flag_spawn_y,
            wall_x: arena.wall_x,
            wall_y: arena.wall_y,
            flag_captors,
            scores,
        };
        proof {
            assert(r@.px =~= initial_view(n as int).px);
            assert(r@.py =~= initial_view(n as int).py);
            assert(r@.sx =~= initial_view(n as int).sx);
            assert(r@.sy =~= initial_view(n as int).sy);
            assert(r@.captors =~= initial_view(n as int).captors);
            assert(r@.scores =~= initial_view(n as int).scores);
            assert(r@ =~= initial_view(n as int));
            assert forall|k: int| 0 <= k < r@.n implies 0 <= #[trigger] r@.px[k] <= X_MAX by {
                assert(0 <= spawn_xs(n as int)[k] <= 27);
            }
            assert forall|k: int| 0 <= k < r@.n implies 0 <= #[trigger] r@.py[k] <= Y_MAX by {
                assert(0 <= spawn_ys(n as int)[k] <= 13);
            }
            assert forall|k: int| 0 <= k < r@.n implies 0 <= #[trigger] r@.sx[k] <= X_MAX by {
                assert(0 <= spawn_xs(n as int)[k] <= 27);
            }
            assert forall|k: int| 0 <= k < r@.n implies 0 <= #[trigger] r@.sy[k] <= Y_MAX by {
                assert(0 <= spawn_ys(n as int)[k] <= 13);
            }
            assert forall|k: int| 0 <= k < r@.wx.len() implies 0 <= #[trigger] r@.wx[k] < WIDTH by {
                assert(0 <= wall_xs()[k] < WIDTH);
            }
            assert forall|k: int| 0 <= k < r@.wx.len() implies 0 <= #[trigger] r@.wy[k] < HEIGHT by {
                assert(0 <= wall_ys()[k] < HEIGHT);
            }
        }
        r
    }

    /// The number of players in this match.
    pub fn player_count(&self) -> (r: usize)
        ensures
            r as int == self@.n,
    {
        self.n
    }

    /// The current player positions in quarters, in player order.
    pub fn positions(&self) -> (r: Vec<(i32, i32)>)
        requires
            wf(self@),
        ensures
            r@.len() == self@.n,
            forall|i: int|
                0 <= i < self@.n ==> #[trigger] r@[i] == (self@.px[i], self@.py[i]),
    {
        let mut r: Vec<(i32, i32)> = Vec::new();
        let mut i: usize = 0;
        while i < self.n
            invariant
                wf(self@),
                i <= self@.n,
                r@.len() == i,
                forall|k: int| 0 <= k < i ==> #[trigger] r@[k] == (self@.px[k], self@.py[k]),
            decreases self@.n - i,
        {
            r.push((self.player_x[i], self.player_y[i]));
            i = i + 1;
        }
        r
    }

    /// Who currently holds each team's flag.
    pub fn get_flag_captors(&self) -> (r: Vec<Option<usize>>)
        ensures
            r@ == self@.captors,
    {
        let mut r: Vec<Option<usize>> = Vec::new();
        let mut i: usize = 0;
        while i < self.flag_captors.len()
            invariant
                i <= self@.captors.len(),
                r@ =~= self@.captors.subrange(0, i as int),
            decreases self@.captors.len() - i,
        {
            r.push(self.flag_captors[i]);
            i = i + 1;
        }
        proof {
            assert(r@ =~= self@.captors);
        }
        r
    }

    /// Advances the match by one tick, consuming one move per player:
    /// every player moves one quarter and is resolved against the walls,
    /// every colliding player caught outside their home half is sent back
    /// to spawn (dropping any flag they held), free flags are captured, and
    /// a captor that reached home frees their flag. Returns the players
    /// that were sent back to spawn, in index order.
    pub fn step(&mut self, player_moves: &Vec<Move>) -> (r: Vec<usize>)
        requires
            wf(old(self)@),
            player_moves@.len() == old(self)@.n,
        ensures
            final(self)@ == step_view(old(self)@, player_moves@),
            r@ == step_resets(old(self)@, player_moves@),
            wf(final(self)@),
    {
        let ghost v0 = self@;
        let n = self.n;

        // Movement with wall resolution against the tentative position.
        let mut i: usize = 0;
        while i < n
            invariant
                wf(v0),
                player_moves@.len() == v0.n,
                n == v0.n,
                self.n == n,
                self@.width == v0.width,
                self@.height == v0.height,
                self@.sx == v0.sx,
                self@.sy == v0.sy,
                self@.fx == v0.fx,
                self@.fy == v0.fy,
                self@.wx == v0.wx,
                self@.wy == v0.wy,
                self@.captors == v0.captors,
                self@.scores == v0.scores,
                self@.px.len() == n,
                self@.py.len() == n,
                i <= n,
                forall|k: int|
                    0 <= k < i ==> (#[trigger] self@.px[k]) as int == moved_pos(
                        v0,
                        k,
                        player_moves@[k],
                    ).0,
                forall|k: int|
                    0 <= k < i ==> (#[trigger] self@.py[k]) as int == moved_pos(
                        v0,
                        k,
                        player_moves@[k],
                    ).1,
                forall|k: int| i <= k < n ==> #[trigger] self@.px[k] == v0.px[k],
                forall|k: int| i <= k < n ==> #[trigger] self@.py[k] == v0.py[k],
            decreases n - i,
        {
            let mv = player_moves[i];
            let (dx, dy) = mv.to_coords();
            let tx = clamp_coord(self.player_x[i] + dx, X_MAX);
            let ty = clamp_coord(self.player_y[i] + dy, Y_MAX);
            let p = resolve_against_walls(tx, ty, &self.wall_x, &self.wall_y);
            self.player_x[i] = p.0;
            self.player_y[i] = p.1;
            i = i + 1;
        }
        let ghost v1 = move_phase(v0, player_moves@);
        proof {
            assert(self@.px =~= v1.px);
            assert(self@.py =~= v1.py);
            assert(self@ =~= v1);
            lemma_move_phase_wf(v0, player_moves@);
        }

        // Decide the territory resets against the frozen post-move state.
        let mut reset_flags: Vec<bool> = Vec::new();
        let mut resets: Vec<usize> = Vec::new();
        let mut i: usize = 0;
        while i < n
            invariant
                wf(v1),
                self@ == v1,
                n == v1.n,
                self.n == n,
                i <= n,
                reset_flags@.len() == i,
                forall|k: int| 0 <= k < i ==> #[trigger] reset_flags@[k] == reset_in(v1, k),
                resets@ == reset_seq_upto(v1, i as int),
            decreases n - i,
        {
            let home = on_home_side(self.player_x[i], i);
            let mut hit = false;
            let mut j: usize = 0;
            while j < n
                invariant
                    wf(v1),
                    self@ == v1,
                    n == v1.n,
                    self.n == n,
                    i < n,
                    j <= n,
                    hit == exists|l: int|
                        0 <= l < j && team_of(l) != team_of(i as int)
                            && #[trigger] players_collide(v1, i as int, l),
                decreases n - j,
            {
                if j % 2 != i % 2 {
                    if boxes_overlap_exec(
                        self.player_x[i],
                        self.player_y[i],
                        self.player_x[j],
                        self.player_y[j],
                    ) {
                        proof {
                            assert(players_collide(v1, i as int, j as int));
                        }
                        hit = true;
                    }
                }
                j = j + 1;
            }
            let is_reset = hit && !home;
            proof {
                assert(home == player_home(v1, i as int));
                assert(is_reset == reset_in(v1, i as int));
            }
            reset_flags.push(is_reset);
            if is_reset {
                resets.push(i);
            }
            i = i + 1;
        }
        let ghost v2 = collide_phase(v1);
        proof {
            lemma_collide_phase_wf(v1);
        }

        // Apply the resets.
        let mut i: usize = 0;
        while i < n
            invariant
                wf(v1),
                v2 == collide_phase(v1),
                n == v1.n,
                self.n == n,
                i <= n,
                reset_flags@.len() == n,
                forall|k: int| 0 <= k < n ==> #[trigger] reset_flags@[k] == reset_in(v1, k),
                self@.n == v1.n,
                self@.width == v1.width,
                self@.height == v1.height,
                self@.sx == v1.sx,
                self@.sy == v1.sy,
                self@.fx == v1.fx,
                self@.fy == v1.fy,
                self@.wx == v1.wx,
                self@.wy == v1.wy,
                self@.captors == v1.captors,
                self@.scores == v1.scores,
                self@.px.len() == n,
                self@.py.len() == n,
                forall|k: int| 0 <= k < i ==> #[trigger] self@.px[k] == v2.px[k],
                forall|k: int| 0 <= k < i ==> #[trigger] self@.py[k] == v2.py[k],
                forall|k: int| i <= k < n ==> #[trigger] self@.px[k] == v1.px[k],
                forall|k: int| i <= k < n ==> #[trigger] self@.py[k] == v1.py[k],
            decreases n - i,
        {
            if reset_flags[i] {
                self.player_x[i] = self.spawn_x[i];
                self.player_y[i] = self.spawn_y[i];
            }
            i = i + 1;
        }
        // Free the flags held by reset players.
        proof {
            assert(captor_ok(v1, 0) && captor_ok(v1, 1));
        }
        let c0 = self.flag_captors[0];
        if let Some(p) = c0 {
            if reset_flags[p] {
                self.flag_captors[0] = None;
            }
        }
        let c1 = self.flag_captors[1];
        if let Some(p) = c1 {
            if reset_flags[p] {
                self.flag_captors[1] = None;
            }
        }
        proof {
            assert(self@.captors =~= v2.captors);
            assert(self@.px =~= v2.px);
            assert(self@.py =~= v2.py);
            assert(self@ =~= v2);
        }

        // Flag capture, in player order.
        let mut i: usize = 0;
        while i < n
            invariant
                wf(v2),
                n == v2.n,
                self.n == n,
                i <= n,
                self@.n == v2.n,
                self@.width == v2.width,
                self@.height == v2.height,
                self@.px == v2.px,
                self@.py == v2.py,
                self@.sx == v2.sx,
                self@.sy == v2.sy,
                self@.fx == v2.fx,
                self@.fy == v2.fy,
                self@.wx == v2.wx,
                self@.wy == v2.wy,
                self@.scores == v2.scores,
                self@.captors == capture_upto(v2, i as int),
            decreases n - i,
        {
            proof {
                lemma_capture_upto_ok(v2, i as int);
            }
            let t: usize = 1 - (i % 2);
            if self.flag_captors[t].is_none() {
                let fqx = self.flag_x[t] * 4;
                let fqy = self.flag_y[t] * 4;
                if boxes_overlap_exec(self.player_x[i], self.player_y[i], fqx, fqy) {
                    self.flag_captors[t] = Some(i);
                }
            }
            i = i + 1;
        }
        let ghost v3 = capture_phase(v2);
        proof {
            assert(self@ =~= v3);
            lemma_capture_phase_wf(v2);
        }

        // Scoring check: captors that reached home free their flag.
        proof {
            assert(captor_ok(v3, 0) && captor_ok(v3, 1));
        }
        let h0 = self.flag_captors[0];
        if let Some(p) = h0 {
            if on_home_side(self.player_x[p], p) {
                self.flag_captors[0] = None;
            }
        }
        let h1 = self.flag_captors[1];
        if let Some(p) = h1 {
            if on_home_side(self.player_x[p], p) {
                self.flag_captors[1] = None;
            }
        }
        proof {
            assert(self@.captors =~= scoring_phase(v3).captors);
            assert(self@ =~= scoring_phase(v3));
            lemma_scoring_phase_wf(v3);
            assert(resets@ == step_resets(v0, player_moves@));
        }
        resets
    }

    /// The byte drawn in grid cell (x, y).
    fn cell_byte_exec(&self, x: i32, y: i32) -> (b: u8)
        requires
            wf(self@),
            0 <= x < WIDTH,
            0 <= y < HEIGHT,
        ensures
            b == cell_byte(self@, x as int, y as int),
    {
        if self.flag_captors[0].is_none() && self.flag_x[0] == x && self.flag_y[0] == y {
            return 66;
        }
        if self.flag_captors[1].is_none() && self.flag_x[1] == x && self.flag_y[1] == y {
            return 82;
        }
        let mut k: usize = 0;
        let mut hit_wall = false;
        while k < self.wall_x.len()
            invariant
                wf(self@),
                k <= self@.wx.len(),
                hit_wall == exists|l: int|
                    0 <= l < k && #[trigger] self@.wx[l] == x && self@.wy[l] == y,
            decreases self@.wx.len() - k,
        {
            if self.wall_x[k] == x && self.wall_y[k] == y {
                hit_wall = true;
            }
            k = k + 1;
        }
        if hit_wall {
            proof {
                assert(wall_at(self@, x as int, y as int));
            }
            return 35;
        }
        let mut i: usize = 0;
        let mut best: Option<usize> = None;
        while i < self.n
            invariant
                wf(self@),
                i <= self@.n,
                best == last_player_at(self@, x as int, y as int, i as int),
            decreases self@.n - i,
        {
            if self.player_x[i] / 4 == x && self.player_y[i] / 4 == y {
                best = Some(i);
            }
            i = i + 1;
        }
        proof {
            assert(!wall_at(self@, x as int, y as int));
            lemma_last_player_bound(self@, x as int, y as int, self@.n);
        }
        match best {
            Some(p) => 48 + (p as u8),
            None => 32,
        }
    }

    /// Renders the arena as one row of bytes per grid line: uncaptured
    /// flags as 'B' and 'R', walls as '#', players as their slot digit
    /// (later slots drawn on top), empty cells as spaces.
    pub fn pretty_print(&self) -> (r: Vec<Vec<u8>>)
        requires
            wf(self@),
        ensures
            r@.len() == self@.height as int,
            forall|y: int| 0 <= y < r@.len() ==> #[trigger] r@[y]@.len() == self@.width as int,
            forall|y: int, x: int|
                0 <= y < r@.len() && 0 <= x < self@.width as int ==> #[trigger] r@[y]@[x]
                    == cell_byte(self@, x, y),
    {
        let mut rows: Vec<Vec<u8>> = Vec::new();
        let mut y: i32 = 0;
        while y < self.height
            invariant
                wf(self@),
                0 <= y <= HEIGHT,
                rows@.len() == y as int,
                forall|l: int| 0 <= l < y as int ==> #[trigger] rows@[l]@.len() == self@.width as int,
                forall|l: int, x: int|
                    0 <= l < y as int && 0 <= x < self@.width as int ==> #[trigger] rows@[l]@[x]
                        == cell_byte(self@, x, l),
            decreases HEIGHT - y,
        {
            let mut row: Vec<u8> = Vec::new();
            let mut x: i32 = 0;
            while x < self.width
                invariant
                    wf(self@),
                    0 <= y < HEIGHT,
                    0 <= x <= WIDTH,
                    row@.len() == x as int,
                    forall|m: int|
                        0 <= m < x as int ==> #[trigger] row@[m] == cell_byte(self@, m, y as int),
                decreases WIDTH - x,
            {
                let b = self.cell_byte_exec(x, y);
                row.push(b);
                x = x + 1;
            }
            rows.push(row);
            y = y + 1;
        }
        rows
    }

    /// The two team scores.
    pub fn get_scores(&self) -> (r: Vec<u32>)
        ensures
            r@ == self@.scores,
    {
        let mut r: Vec<u32> = Vec::new();
        let mut i: usize = 0;
        while i < self.scores.len()
            invariant
                i <= self@.scores.len(),
                r@ =~= self@.scores.subrange(0, i as int),
            decreases self@.scores.len() - i,
        {
            r.push(self.scores[i]);
            i = i + 1;
        }
        proof {
            assert(r@ =~= self@.scores);
        }
        r
    }
}

} // verus!
