//! The static arena layout: spawn cells, flag cells and wall cells for a
//! match of two or four players.

use vstd::prelude::*;

verus! {

/// Arena width in cells.
pub const WIDTH: i32 = 28;

/// Arena height in cells.
pub const HEIGHT: i32 = 14;

/// x coordinates of the player spawn cells, one per player.
pub open spec fn spawn_xs(n: int) -> Seq<i32> {
    if n == 2 {
        seq![0i32, 27i32]
    } else {
        seq![0i32, 27i32, 0i32, 27i32]
    }
}

/// y coordinates of the player spawn cells, one per player.
pub open spec fn spawn_ys(n: int) -> Seq<i32> {
    if n == 2 {
        seq![0i32, 0i32]
    } else {
        seq![0i32, 0i32, 13i32, 13i32]
    }
}

/// x coordinates of the two flag spawn cells: team 0 left, team 1 right.
pub open spec fn flag_xs() -> Seq<i32> {
    seq![0i32, 27i32]
}

/// y coordinates of the two flag spawn cells, vertically offset by one cell
/// so that the layout is symmetric.
pub open spec fn flag_ys() -> Seq<i32> {
    seq![7i32, 6i32]
}

/// x coordinates of the sixteen wall cells.
pub open spec fn wall_xs() -> Seq<i32> {
    seq![0i32, 27i32, 8i32, 19i32, 8i32, 9i32, 18i32, 19i32, 8i32, 9i32, 18i32, 19i32, 8i32, 19i32, 0i32, 27i32]
}

/// y coordinates of the sixteen wall cells.
pub open spec fn wall_ys() -> Seq<i32> {
    seq![1i32, 1i32, 2i32, 2i32, 6i32, 6i32, 6i32, 6i32, 7i32, 7i32, 7i32, 7i32, 11i32, 11i32, 12i32, 12i32]
}

/// A static per-match layout: arena size, player spawn cells, the two flag
/// spawn cells and the fixed wall cells. Built once per new match and never
/// mutated. All coordinates here are whole cells.
pub struct Arena {
    pub width: i32,
    pub height: i32,
    pub player_spawn_x: Vec<i32>,
    pub player_spawn_y: Vec<i32>,
    pub flag_spawn_x: Vec<i32>,
    pub flag_spawn_y: Vec<i32>,
    pub wall_x: Vec<i32>,
    pub wall_y: Vec<i32>,
}

impl Arena {
    /// Builds the fixed layout for a match of `n` players.
    pub fn new(n: usize) -> (r: Arena)
        requires
            n == 2 || n == 4,
        ensures
            r.width == WIDTH,
            r.height == HEIGHT,
            r.player_spawn_x@ == spawn_xs(n as int),
            r.player_spawn_y@ == spawn_ys(n as int),
            r.flag_spawn_x@ == flag_xs(),
            r.flag_spawn_y@ == flag_ys(),
            r.wall_x@ == wall_xs(),
            r.wall_y@ == wall_ys(),
    {
        let mut player_spawn_x: Vec<i32> = Vec::new();
        let mut player_spawn_y: Vec<i32> = Vec::new();
        player_spawn_x.push(0);
        player_spawn_x.push(27);
        player_spawn_y.push(0);
        player_spawn_y.push(0);
        if n == 4 {
            player_spawn_x.push(0);
            player_spawn_x.push(27);
            player_spawn_y.push(13);
            player_spawn_y.push(13);
        }

        let mut flag_spawn_x: Vec<i32> = Vec::new();
        let mut flag_spawn_y: Vec<i32> = Vec::new();
        flag_spawn_x.push(0);
        flag_spawn_x.push(27);
        flag_spawn_y.push(7);
        flag_spawn_y.push(6);

        let mut wall_x: Vec<i32> = Vec::new();
        let mut wall_y: Vec<i32> = Vec::new();
        wall_x.push(0);
        wall_x.push(27);
        wall_x.push(8);
        wall_x.push(19);
        wall_x.push(8);
        wall_x.push(9);
        wall_x.push(18);
        wall_x.push(19);
        wall_x.push(8);
        wall_x.push(9);
        wall_x.push(18);
        wall_x.push(19);
        wall_x.push(8);
        wall_x.push(19);
        wall_x.push(0);
        wall_x.push(27);
        wall_y.push(1);
        wall_y.push(1);
        wall_y.push(2);
        wall_y.push(2);
        wall_y.push(6);
        wall_y.push(6);
        wall_y.push(6);
        wall_y.push(6);
        wall_y.push(7);
        wall_y.push(7);
        wall_y.push(7);
        wall_y.push(7);
        wall_y.push(11);
        wall_y.push(11);
        wall_y.push(12);
        wall_y.push(12);

        proof {
            assert(player_spawn_x@ =~= spawn_xs(n as int));
            assert(player_spawn_y@ =~= spawn_ys(n as int));
            assert(flag_spawn_x@ =~= flag_xs());
            assert(flag_spawn_y@ =~= flag_ys());
            assert(wall_x@ =~= wall_xs());
            assert(wall_y@ =~= wall_ys());
        }

        Arena {
            width: WIDTH,
            height: HEIGHT,
            player_spawn_x,
            player_spawn_y,
            flag_spawn_x,
            flag_spawn_y,
            wall_x,
            wall_y,
        }
    }
}

/// Whether cell (x, y) is one of the wall cells.
pub open spec fn is_wall_cell(x: i32, y: i32) -> bool {
    exists|k: int|
        0 <= k < wall_xs().len() && wall_xs()[k] == x && wall_ys()[k] == y
}

/// For both supported player counts, every spawn cell lies inside the arena,
/// no two player spawns coincide, and no player spawn sits on a wall cell or
/// on a flag spawn cell.
pub proof fn lemma_spawns_valid(n: int)
    requires
        n == 2 || n == 4,
    ensures
        spawn_xs(n).len() == n && spawn_ys(n).len() == n,
        forall|i: int|
            0 <= i < n ==> 0 <= #[trigger] spawn_xs(n)[i] < WIDTH && 0 <= #[trigger] spawn_ys(
                n,
            )[i] < HEIGHT,
        forall|i: int, j: int|
            0 <= i < j < n ==> !(spawn_xs(n)[i] == spawn_xs(n)[j] && #[trigger] spawn_ys(n)[i]
                == #[trigger] spawn_ys(n)[j]),
        forall|i: int|
            0 <= i < n ==> !is_wall_cell(#[trigger] spawn_xs(n)[i], spawn_ys(n)[i]),
{
    assert forall|i: int| 0 <= i < n implies !is_wall_cell(
        #[trigger] spawn_xs(n)[i],
        spawn_ys(n)[i],
    ) by {
        let sx = spawn_xs(n)[i];
        let sy = spawn_ys(n)[i];
        assert(sy == 0 || sy == 13);
        assert forall|k: int| 0 <= k < wall_xs().len() implies !(wall_xs()[k] == sx
            && #[trigger] wall_ys()[k] == sy) by {
            assert(wall_ys()[k] != 0 && wall_ys()[k] != 13);
        }
    }
}

} // verus!
