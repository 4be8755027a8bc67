//! The process-wide room registry: active rooms by six-digit numeric key,
//! each with its roster, pending moves, tick-loop flag and simulation.
//!
//! Connection plumbing (sockets, fan-out channels, the tick task itself)
//! is owned by the caller; the registry holds every decision those loops
//! take: key generation and collision retry, slot assignment, move updates,
//! the move list a tick consumes, and advancing the simulation.

use crate::error::Error;
use crate::game::{initial_view, step_resets, step_view, wf, GameState};
use crate::player_move::Move;
use std::collections::HashMap;
use vstd::prelude::*;

verus! {

broadcast use vstd::std_specs::hash::group_hash_axioms;

/// The number of player slots in a room.
pub const MAX_PLAYERS: usize = 4;

/// One active room: the ordered roster of assigned player slots, the last
/// move received per slot, whether the tick loop has been started, and the
/// simulation of the match.
pub struct Room {
    pub roster: Vec<i32>,
    pub pending_moves: Vec<Move>,
    pub loop_running: bool,
    pub game: GameState,
}

/// Whether a slot id is already assigned in a roster.
pub open spec fn slot_taken(roster: Seq<i32>, id: int) -> bool {
    exists|j: int| 0 <= j < roster.len() && roster[j] == id
}

/// The smallest free slot id, or -1 when the room is full.
pub open spec fn first_free_slot(roster: Seq<i32>) -> int {
    if !slot_taken(roster, 0) {
        0
    } else if !slot_taken(roster, 1) {
        1
    } else if !slot_taken(roster, 2) {
        2
    } else if !slot_taken(roster, 3) {
        3
    } else {
        -1
    }
}

/// Well-formedness of one room: four pending-move slots, a roster of
/// distinct slot ids in range, and a well-formed four-player simulation.
pub open spec fn room_wf(r: Room) -> bool {
    &&& r.pending_moves@.len() == MAX_PLAYERS
    &&& r.roster@.len() <= MAX_PLAYERS
    &&& forall|j: int| 0 <= j < r.roster@.len() ==> 0 <= #[trigger] r.roster@[j] < MAX_PLAYERS
    &&& forall|j: int, l: int| 0 <= j < l < r.roster@.len() ==> r.roster@[j] != r.roster@[l]
    &&& wf(r.game@)
    &&& r.game@.n == MAX_PLAYERS
}

/// The state of a freshly created room: empty roster, every pending move
/// Stay, the tick loop not yet started, a fresh four-player match.
pub open spec fn fresh_room(r: Room) -> bool {
    &&& r.roster@ == Seq::<i32>::empty()
    &&& r.pending_moves@ == Seq::new(MAX_PLAYERS as nat, |i: int| Move::Stay)
    &&& r.loop_running == false
    &&& r.game@ == initial_view(MAX_PLAYERS as int)
}

/// The move list one tick consumes, from a room's roster order and pending
/// moves: slot order position idx plays the pending move of the slot id in
/// roster position idx, and unoccupied positions play Stay.
pub open spec fn tick_moves_of(r: Room) -> Seq<Move> {
    Seq::new(
        MAX_PLAYERS as nat,
        |idx: int|
            if idx < r.roster@.len() && 0 <= r.roster@[idx] < r.pending_moves@.len() {
                r.pending_moves@[r.roster@[idx] as int]
            } else {
                Move::Stay
            },
    )
}

/// The process-wide registry of active rooms.
pub struct Registry {
    rooms: HashMap<u32, Room>,
    keys: Vec<u32>,
}

impl Registry {
    /// The active rooms, by key.
    pub closed spec fn rooms_map(&self) -> Map<u32, Room> {
        self.rooms@
    }

    /// The active room keys, in creation order.
    pub closed spec fn key_order(&self) -> Seq<u32> {
        self.keys@
    }

    /// Whether a room with this key is active.
    pub open spec fn has_room(&self, key: u32) -> bool {
        self.rooms_map().contains_key(key)
    }

    /// The room under this key.
    pub open spec fn room(&self, key: u32) -> Room {
        self.rooms_map()[key]
    }

    /// Well-formedness: the key list carries exactly the active keys, once
    /// each, every key is a six-digit number, and every room is well formed.
    pub open spec fn wf(&self) -> bool {
        &&& forall|j: int|
            0 <= j < self.key_order().len() ==> self.rooms_map().contains_key(
                #[trigger] self.key_order()[j],
            )
        &&& forall|k: u32| #[trigger] self.rooms_map().contains_key(k) ==> self.key_order().contains(k)
        &&& forall|j: int, l: int|
            0 <= j < l < self.key_order().len() ==> self.key_order()[j] != self.key_order()[l]
        &&& forall|j: int| 0 <= j < self.key_order().len() ==> #[trigger] self.key_order()[j] < 1000000
        &&& forall|k: u32|
            #[trigger] self.rooms_map().contains_key(k) ==> room_wf(self.rooms_map()[k])
    }

    /// An empty registry.
    pub fn new() -> (r: Registry)
        ensures
            r.wf(),
            r.rooms_map() == Map::<u32, Room>::empty(),
            r.key_order() == Seq::<u32>::empty(),
    {
        Registry { rooms: HashMap::new(), keys: Vec::new() }
    }
}

/// Relies on rand's `random_range`: a sample within the given nonempty
/// range, here a number below one million.
#[verifier::external_body]
fn random_room_key() -> (r: u32)
    ensures
        r < 1000000,
{
    rand::Rng::random_range(&mut rand::rng(), 0..1000000u32)
}

/// A fresh, well-formed room.
fn make_room() -> (r: Room)
    ensures
        fresh_room(r),
        room_wf(r),
{
    let mut pending_moves: Vec<Move> = Vec::new();
    pending_moves.push(Move::Stay);
    pending_moves.push(Move::Stay);
    pending_moves.push(Move::Stay);
    pending_moves.push(Move::Stay);
    let game = GameState::new(MAX_PLAYERS);
    let r = Room { roster: Vec::new(), pending_moves, loop_running: false, game };
    proof {
        assert(r.pending_moves@ =~= Seq::new(MAX_PLAYERS as nat, |i: int| Move::Stay));
        assert(r.roster@ =~= Seq::<i32>::empty());
    }
    r
}

/// Creates a room under the given candidate key if that key is free.
/// Returns whether the room was created; an occupied key changes nothing.
pub fn try_create_room_with_key(reg: &mut Registry, key: u32) -> (r: bool)
    requires
        old(reg).wf(),
        key < 1000000,
    ensures
        final(reg).wf(),
        r == !old(reg).has_room(key),
        r ==> {
            &&& final(reg).has_room(key)
            &&& fresh_room(final(reg).room(key))
            &&& final(reg).rooms_map() == old(reg).rooms_map().insert(key, final(reg).room(key))
            &&& final(reg).key_order() == old(reg).key_order().push(key)
        },
        !r ==> {
            &&& final(reg).rooms_map() == old(reg).rooms_map()
            &&& final(reg).key_order() == old(reg).key_order()
        },
{
    if reg.rooms.contains_key(&key) {
        false
    } else {
        let room = make_room();
        reg.rooms.insert(key, room);
        reg.keys.push(key);
        proof {
            assert(reg.key_order().drop_last() =~= old(reg).key_order());
            assert forall|j: int, l: int|
                0 <= j < l < reg.key_order().len() implies reg.key_order()[j]
                != reg.key_order()[l] by {
                if l == reg.key_order().len() - 1 {
                    assert(reg.key_order()[l] == key);
                    assert(!old(reg).rooms_map().contains_key(key));
                    assert(old(reg).key_order()[j] == reg.key_order()[j]);
                    if reg.key_order()[j] == key {
                        assert(old(reg).key_order().contains(key));
                        assert(old(reg).rooms_map().contains_key(old(reg).key_order()[
                            choose|m: int|
                                0 <= m < old(reg).key_order().len() && old(reg).key_order()[m]
                                    == key
                        ]));
                    }
                }
            }
            assert forall|k: u32|
                #[trigger] reg.rooms_map().contains_key(k) implies reg.key_order().contains(
                k,
            ) by {
                if k == key {
                    assert(reg.key_order()[reg.key_order().len() - 1] == key);
                } else {
                    assert(old(reg).rooms_map().contains_key(k));
                    let m = choose|m: int|
                        0 <= m < old(reg).key_order().len() && old(reg).key_order()[m] == k;
                    assert(reg.key_order()[m] == k);
                }
            }
        }
        true
    }
}

/// Creates a new room under a freshly drawn six-digit key, retrying on a
/// collision with an existing key, and returns the key. Gives up (with no
/// change to the registry) only if every draw of a bounded number of
/// retries collided.
pub fn create_room(reg: &mut Registry) -> (r: Option<u32>)
    requires
        old(reg).wf(),
    ensures
        final(reg).wf(),
        match r {
            Some(key) => {
                &&& key < 1000000
                &&& !old(reg).has_room(key)
                &&& final(reg).has_room(key)
                &&& fresh_room(final(reg).room(key))
                &&& final(reg).rooms_map() == old(reg).rooms_map().insert(
                    key,
                    final(reg).room(key),
                )
                &&& final(reg).key_order() == old(reg).key_order().push(key)
            },
            None => {
                &&& final(reg).rooms_map() == old(reg).rooms_map()
                &&& final(reg).key_order() == old(reg).key_order()
            },
        },
{
    let mut attempts: usize = 0;
    while attempts < 64
        invariant
            reg.wf(),
            reg.rooms_map() == old(reg).rooms_map(),
            reg.key_order() == old(reg).key_order(),
        decreases 64 - attempts,
    {
        let key = random_room_key();
        if try_create_room_with_key(reg, key) {
            return Some(key);
        }
        attempts = attempts + 1;
    }
    None
}

/// The pending moves of the room with this key, if it exists.
pub fn get_room_state(reg: &Registry, key: u32) -> (r: Option<Vec<Move>>)
    requires
        reg.wf(),
    ensures
        match r {
            Some(v) => reg.has_room(key) && v@ == reg.room(key).pending_moves@,
            None => !reg.has_room(key),
        },
{
    match reg.rooms.get(&key) {
        Some(room) => {
            let mut v: Vec<Move> = Vec::new();
            let mut i: usize = 0;
            while i < room.pending_moves.len()
                invariant
                    i <= room.pending_moves@.len(),
                    v@ =~= room.pending_moves@.subrange(0, i as int),
                decreases room.pending_moves@.len() - i,
            {
                v.push(room.pending_moves[i]);
                i = i + 1;
            }
            proof {
                assert(v@ =~= room.pending_moves@);
            }
            Some(v)
        },
        None => None,
    }
}

/// The pending moves of the room with this key, if it exists.
pub fn get_players_state(reg: &Registry, key: u32) -> (r: Option<Vec<Move>>)
    requires
        reg.wf(),
    ensures
        match r {
            Some(v) => reg.has_room(key) && v@ == reg.room(key).pending_moves@,
            None => !reg.has_room(key),
        },
{
    get_room_state(reg, key)
}

/// Deletes the room with this key, returning whether one was removed.
pub fn delete_room(reg: &mut Registry, key: u32) -> (r: bool)
    requires
        old(reg).wf(),
    ensures
        final(reg).wf(),
        r == old(reg).has_room(key),
        final(reg).rooms_map() == old(reg).rooms_map().remove(key),
        final(reg).key_order() == old(reg).key_order().filter(|k: u32| k != key),
{
    let removed = reg.rooms.remove(&key);
    let ghost pred = |k: u32| k != key;
    let mut keys2: Vec<u32> = Vec::new();
    let mut i: usize = 0;
    while i < reg.keys.len()
        invariant
            i <= reg.keys@.len(),
            keys2@ == reg.keys@.subrange(0, i as int).filter(pred),
            pred == (|k: u32| k != key),
        decreases reg.keys@.len() - i,
    {
        let k = reg.keys[i];
        proof {
            reveal(Seq::filter);
            assert(reg.keys@.subrange(0, i as int + 1).drop_last() =~= reg.keys@.subrange(
                0,
                i as int,
            ));
            assert(reg.keys@.subrange(0, i as int + 1).last() == reg.keys@[i as int]);
        }
        if k != key {
            keys2.push(k);
        }
        i = i + 1;
    }
    proof {
        assert(reg.keys@.subrange(0, reg.keys@.len() as int) =~= reg.keys@);
    }
    reg.keys = keys2;
    proof {
        let kept = old(reg).key_order().filter(pred);
        assert(reg.key_order() == kept);
        // the filtered key list still carries exactly the remaining keys
        assert forall|j: int|
            0 <= j < reg.key_order().len() implies reg.rooms_map().contains_key(
            #[trigger] reg.key_order()[j],
        ) by {
            old(reg).key_order().lemma_filter_pred(pred, j);
            lemma_filter_membership(old(reg).key_order(), pred, j);
        }
        assert forall|k: u32|
            #[trigger] reg.rooms_map().contains_key(k) implies reg.key_order().contains(k) by {
            assert(old(reg).rooms_map().contains_key(k) && k != key);
            let m = choose|m: int|
                0 <= m < old(reg).key_order().len() && old(reg).key_order()[m] == k;
            old(reg).key_order().lemma_filter_contains(pred, m);
        }
        assert forall|j: int, l: int|
            0 <= j < l < reg.key_order().len() implies reg.key_order()[j]
            != reg.key_order()[l] by {
            lemma_filter_distinct(old(reg).key_order(), pred, j, l);
        }
        assert forall|j: int|
            0 <= j < reg.key_order().len() implies #[trigger] reg.key_order()[j] < 1000000 by {
            lemma_filter_membership(old(reg).key_order(), pred, j);
        }
        assert forall|k: u32|
            #[trigger] reg.rooms_map().contains_key(k) implies room_wf(reg.rooms_map()[k]) by {
            assert(old(reg).rooms_map().contains_key(k));
            assert(reg.rooms_map()[k] == old(reg).rooms_map()[k]);
        }
    }
    removed.is_some()
}

/// Every element of a filtered sequence comes from the original.
proof fn lemma_filter_membership<A>(s: Seq<A>, pred: spec_fn(A) -> bool, j: int)
    requires
        0 <= j < s.filter(pred).len(),
    ensures
        exists|m: int| 0 <= m < s.len() && s[m] == #[trigger] s.filter(pred)[j],
    decreases s.len(),
{
    reveal(Seq::filter);
    if s.len() > 0 {
        let sub = s.drop_last().filter(pred);
        if j < sub.len() {
            lemma_filter_membership(s.drop_last(), pred, j);
            let m = choose|m: int| 0 <= m < s.drop_last().len() && s.drop_last()[m] == sub[j];
            assert(s[m] == s.filter(pred)[j]);
        } else {
            assert(s[s.len() - 1] == s.filter(pred)[j]);
        }
    }
}

/// Filtering a duplicate-free sequence keeps its elements distinct.
proof fn lemma_filter_distinct<A>(s: Seq<A>, pred: spec_fn(A) -> bool, j: int, l: int)
    requires
        forall|a: int, b: int| 0 <= a < b < s.len() ==> s[a] != s[b],
        0 <= j < l < s.filter(pred).len(),
    ensures
        s.filter(pred)[j] != s.filter(pred)[l],
    decreases s.len(),
{
    reveal(Seq::filter);
    if s.len() > 0 {
        let sub = s.drop_last().filter(pred);
        if l < sub.len() {
            lemma_filter_distinct(s.drop_last(), pred, j, l);
        } else {
            // l names the pushed last element; j names an earlier one
            lemma_filter_membership(s.drop_last(), pred, j);
            let m = choose|m: int|
                0 <= m < s.drop_last().len() && s.drop_last()[m] == s.drop_last().filter(pred)[j];
            assert(s[m] == s.filter(pred)[j]);
            assert(s.filter(pred)[l] == s[s.len() - 1]);
        }
    }
}

/// Whether a slot id is already assigned in a roster.
fn roster_contains(roster: &Vec<i32>, id: i32) -> (r: bool)
    ensures
        r == slot_taken(roster@, id as int),
{
    let mut j: usize = 0;
    let mut found = false;
    while j < roster.len()
        invariant
            j <= roster@.len(),
            found == exists|l: int| 0 <= l < j && #[trigger] roster@[l] == id,
        decreases roster@.len() - j,
    {
        if roster[j] == id {
            found = true;
        }
        j = j + 1;
    }
    found
}

/// A roster of four distinct in-range slot ids has every slot taken.
proof fn lemma_full_roster(ro: Seq<i32>)
    requires
        ro.len() == 4,
        forall|j: int| 0 <= j < ro.len() ==> 0 <= #[trigger] ro[j] < 4,
        forall|j: int, l: int| 0 <= j < l < ro.len() ==> ro[j] != ro[l],
    ensures
        slot_taken(ro, 0),
        slot_taken(ro, 1),
        slot_taken(ro, 2),
        slot_taken(ro, 3),
{
    assert(ro[0] == 0 || ro[1] == 0 || ro[2] == 0 || ro[3] == 0);
    assert(ro[0] == 1 || ro[1] == 1 || ro[2] == 1 || ro[3] == 1);
    assert(ro[0] == 2 || ro[1] == 2 || ro[2] == 2 || ro[3] == 2);
    assert(ro[0] == 3 || ro[1] == 3 || ro[2] == 3 || ro[3] == 3);
}

/// Assigns the smallest free player slot of the room, if any. An unknown
/// key is a structured error; a full room is reported by the sentinel -1,
/// with nothing changed.
pub fn add_player(reg: &mut Registry, key: u32) -> (r: Result<i32, Error>)
    requires
        old(reg).wf(),
    ensures
        final(reg).wf(),
        final(reg).key_order() == old(reg).key_order(),
        match r {
            Err(e) => {
                &&& e == Error::RoomNotFound
                &&& !old(reg).has_room(key)
                &&& final(reg).rooms_map() == old(reg).rooms_map()
            },
            Ok(id) => {
                &&& old(reg).has_room(key)
                &&& id == first_free_slot(old(reg).room(key).roster@)
                &&& if id == -1 {
                    final(reg).rooms_map() == old(reg).rooms_map()
                } else {
                    &&& final(reg).rooms_map() == old(reg).rooms_map().insert(
                        key,
                        final(reg).room(key),
                    )
                    &&& final(reg).room(key).roster@ == old(reg).room(key).roster@.push(id)
                    &&& final(reg).room(key).pending_moves@ == old(reg).room(
                        key,
                    ).pending_moves@.update(id as int, Move::Stay)
                    &&& final(reg).room(key).loop_running == old(reg).room(key).loop_running
                    &&& final(reg).room(key).game@ == old(reg).room(key).game@
                }
            },
        },
{
    let room_opt = reg.rooms.remove(&key);
    match room_opt {
        None => {
            proof {
                assert(reg.rooms_map() =~= old(reg).rooms_map());
            }
            Err(Error::RoomNotFound)
        },
        Some(mut room) => {
            proof {
                assert(old(reg).rooms_map().contains_key(key));
                assert(old(reg).rooms_map()[key] == room);
                assert(room_wf(room));
            }
            let id: i32 = if !roster_contains(&room.roster, 0) {
                0
            } else if !roster_contains(&room.roster, 1) {
                1
            } else if !roster_contains(&room.roster, 2) {
                2
            } else if !roster_contains(&room.roster, 3) {
                3
            } else {
                -1
            };
            if id >= 0 {
                proof {
                    if room.roster@.len() == 4 {
                        lemma_full_roster(room.roster@);
                    }
                }
                room.roster.push(id);
                room.pending_moves[id as usize] = Move::Stay;
            }
            reg.rooms.insert(key, room);
            proof {
                assert(reg.rooms_map() =~= old(reg).rooms_map().insert(key, reg.room(key)));
                lemma_same_keys_wf(*old(reg), *reg, key);
            }
            Ok(id)
        },
    }
}

/// A registry whose map changed only in the value under an already active
/// key, to another well-formed room, is still well formed.
proof fn lemma_same_keys_wf(r0: Registry, r1: Registry, key: u32)
    requires
        r0.wf(),
        r0.has_room(key),
        r1.key_order() == r0.key_order(),
        r1.rooms_map() == r0.rooms_map().insert(key, r1.rooms_map()[key]),
        room_wf(r1.rooms_map()[key]),
    ensures
        r1.wf(),
{
    assert forall|k: u32| #[trigger] r1.rooms_map().contains_key(k) implies r1.key_order().contains(
        k,
    ) by {
        assert(r0.rooms_map().contains_key(k));
    }
    assert forall|k: u32| #[trigger] r1.rooms_map().contains_key(k) implies room_wf(
        r1.rooms_map()[k],
    ) by {
        if k != key {
            assert(r0.rooms_map().contains_key(k));
            assert(r1.rooms_map()[k] == r0.rooms_map()[k]);
        }
    }
}

/// Records the last move received for a player slot, overwriting the
/// previous one; unknown keys and out-of-range slots change nothing.
pub fn update_player_state(reg: &mut Registry, key: u32, player_id: i32, new_move: Move)
    requires
        old(reg).wf(),
    ensures
        final(reg).wf(),
        final(reg).key_order() == old(reg).key_order(),
        if old(reg).has_room(key) && 0 <= player_id < MAX_PLAYERS {
            &&& final(reg).rooms_map() == old(reg).rooms_map().insert(key, final(reg).room(key))
            &&& final(reg).room(key).pending_moves@ == old(reg).room(key).pending_moves@.update(
                player_id as int,
                new_move,
            )
            &&& final(reg).room(key).roster@ == old(reg).room(key).roster@
            &&& final(reg).room(key).loop_running == old(reg).room(key).loop_running
            &&& final(reg).room(key).game@ == old(reg).room(key).game@
        } else {
            final(reg).rooms_map() == old(reg).rooms_map()
        },
{
    let room_opt = reg.rooms.remove(&key);
    match room_opt {
        None => {
            proof {
                assert(reg.rooms_map() =~= old(reg).rooms_map());
            }
        },
        Some(mut room) => {
            proof {
                assert(old(reg).rooms_map().contains_key(key));
                assert(old(reg).rooms_map()[key] == room);
                assert(room_wf(room));
            }
            if player_id >= 0 && (player_id as usize) < MAX_PLAYERS {
                room.pending_moves[player_id as usize] = new_move;
            }
            reg.rooms.insert(key, room);
            proof {
                assert(reg.rooms_map() =~= old(reg).rooms_map().insert(key, reg.room(key)));
                if !(0 <= player_id < MAX_PLAYERS) {
                    assert(reg.room(key).pending_moves@ =~= old(reg).room(key).pending_moves@);
                    assert(reg.rooms_map() =~= old(reg).rooms_map());
                }
                lemma_same_keys_wf(*old(reg), *reg, key);
            }
        },
    }
}

/// Removes a player slot from the room's roster and resets its pending
/// move; unknown keys change nothing.
pub fn remove_player(reg: &mut Registry, key: u32, player_id: i32)
    requires
        old(reg).wf(),
    ensures
        final(reg).wf(),
        final(reg).key_order() == old(reg).key_order(),
        if old(reg).has_room(key) {
            &&& final(reg).rooms_map() == old(reg).rooms_map().insert(key, final(reg).room(key))
            &&& final(reg).room(key).roster@ == old(reg).room(key).roster@.filter(
                |id: i32| id != player_id,
            )
            &&& final(reg).room(key).pending_moves@ == if 0 <= player_id < MAX_PLAYERS {
                old(reg).room(key).pending_moves@.update(player_id as int, Move::Stay)
            } else {
                old(reg).room(key).pending_moves@
            }
            &&& final(reg).room(key).loop_running == old(reg).room(key).loop_running
            &&& final(reg).room(key).game@ == old(reg).room(key).game@
        } else {
            final(reg).rooms_map() == old(reg).rooms_map()
        },
{
    let room_opt = reg.rooms.remove(&key);
    match room_opt {
        None => {
            proof {
                assert(reg.rooms_map() =~= old(reg).rooms_map());
            }
        },
        Some(mut room) => {
            proof {
                assert(old(reg).rooms_map().contains_key(key));
                assert(old(reg).rooms_map()[key] == room);
                assert(room_wf(room));
            }
            let ghost pred = |id: i32| id != player_id;
            let ghost ro0 = room.roster@;
            let mut roster2: Vec<i32> = Vec::new();
            let mut i: usize = 0;
            while i < room.roster.len()
                invariant
                    i <= ro0.len(),
                    room.roster@ == ro0,
                    roster2@ == ro0.subrange(0, i as int).filter(pred),
                    pred == (|id: i32| id != player_id),
                decreases ro0.len() - i,
            {
                let id = room.roster[i];
                proof {
                    reveal(Seq::filter);
                    assert(ro0.subrange(0, i as int + 1).drop_last() =~= ro0.subrange(
                        0,
                        i as int,
                    ));
                    assert(ro0.subrange(0, i as int + 1).last() == ro0[i as int]);
                }
                if id != player_id {
                    roster2.push(id);
                }
                i = i + 1;
            }
            proof {
                assert(ro0.subrange(0, ro0.len() as int) =~= ro0);
            }
            room.roster = roster2;
            if player_id >= 0 && (player_id as usize) < MAX_PLAYERS {
                room.pending_moves[player_id as usize] = Move::Stay;
            }
            proof {
                broadcast use vstd::seq_lib::group_seq_properties;

                ro0.lemma_filter_len(pred);
                assert forall|j: int|
                    0 <= j < room.roster@.len() implies 0 <= #[trigger] room.roster@[j]
                    < MAX_PLAYERS by {
                    lemma_filter_membership(ro0, pred, j);
                }
                assert forall|j: int, l: int|
                    0 <= j < l < room.roster@.len() implies room.roster@[j] != room.roster@[l] by {
                    lemma_filter_distinct(ro0, pred, j, l);
                }
                assert(room_wf(room));
            }
            reg.rooms.insert(key, room);
            proof {
                assert(reg.rooms_map() =~= old(reg).rooms_map().insert(key, reg.room(key)));
                if !(0 <= player_id < MAX_PLAYERS) {
                    assert(reg.room(key).pending_moves@ =~= old(reg).room(key).pending_moves@);
                }
                lemma_same_keys_wf(*old(reg), *reg, key);
            }
        },
    }
}

/// Marks the room's tick loop as running. Returns true exactly when the
/// room exists and its loop was not yet running — the caller then starts
/// the one tick task of this room; starting twice is a no-op.
pub fn ensure_room_loop(reg: &mut Registry, key: u32) -> (r: bool)
    requires
        old(reg).wf(),
    ensures
        final(reg).wf(),
        final(reg).key_order() == old(reg).key_order(),
        r == (old(reg).has_room(key) && !old(reg).room(key).loop_running),
        if r {
            &&& final(reg).rooms_map() == old(reg).rooms_map().insert(key, final(reg).room(key))
            &&& final(reg).room(key).loop_running
            &&& final(reg).room(key).roster@ == old(reg).room(key).roster@
            &&& final(reg).room(key).pending_moves@ == old(reg).room(key).pending_moves@
            &&& final(reg).room(key).game@ == old(reg).room(key).game@
        } else {
            final(reg).rooms_map() == old(reg).rooms_map()
        },
{
    let room_opt = reg.rooms.remove(&key);
    match room_opt {
        None => {
            proof {
                assert(reg.rooms_map() =~= old(reg).rooms_map());
            }
            false
        },
        Some(mut room) => {
            proof {
                assert(old(reg).rooms_map().contains_key(key));
                assert(old(reg).rooms_map()[key] == room);
                assert(room_wf(room));
            }
            let newly_started = !room.loop_running;
            room.loop_running = true;
            reg.rooms.insert(key, room);
            proof {
                assert(reg.rooms_map() =~= old(reg).rooms_map().insert(key, reg.room(key)));
                if !newly_started {
                    assert(reg.room(key) == old(reg).room(key));
                    assert(reg.rooms_map() =~= old(reg).rooms_map());
                }
                lemma_same_keys_wf(*old(reg), *reg, key);
            }
            newly_started
        },
    }
}

/// The move list the next tick of this room consumes, built from the
/// roster order and the pending moves; an unknown key yields nothing.
pub fn tick_moves(reg: &Registry, key: u32) -> (r: Option<Vec<Move>>)
    requires
        reg.wf(),
    ensures
        match r {
            Some(v) => reg.has_room(key) && v@ == tick_moves_of(reg.room(key)),
            None => !reg.has_room(key),
        },
{
    match reg.rooms.get(&key) {
        None => None,
        Some(room) => {
            proof {
                assert(reg.rooms_map().contains_key(key));
                assert(reg.rooms_map()[key] == *room);
                assert(room_wf(*room));
            }
            let mut v: Vec<Move> = Vec::new();
            let mut idx: usize = 0;
            while idx < MAX_PLAYERS
                invariant
                    room_wf(*room),
                    idx <= MAX_PLAYERS,
                    v@.len() == idx,
                    forall|l: int| 0 <= l < idx ==> #[trigger] v@[l] == tick_moves_of(*room)[l],
                decreases MAX_PLAYERS - idx,
            {
                let mv = if idx < room.roster.len() {
                    let pid = room.roster[idx];
                    room.pending_moves[pid as usize]
                } else {
                    Move::Stay
                };
                v.push(mv);
                idx = idx + 1;
            }
            proof {
                assert(v@ =~= tick_moves_of(*room));
            }
            Some(v)
        },
    }
}

/// Advances the room's simulation by one tick with the given moves and
/// returns the players the tick sent back to spawn; an unknown key yields
/// nothing. The pending moves are left as they are: a move submitted after
/// the caller collected the tick's move list applies one tick later.
pub fn apply_tick(reg: &mut Registry, key: u32, moves: &Vec<Move>) -> (r: Option<Vec<usize>>)
    requires
        old(reg).wf(),
        moves@.len() == MAX_PLAYERS,
    ensures
        final(reg).wf(),
        final(reg).key_order() == old(reg).key_order(),
        match r {
            Some(resets) => {
                &&& old(reg).has_room(key)
                &&& final(reg).rooms_map() == old(reg).rooms_map().insert(
                    key,
                    final(reg).room(key),
                )
                &&& final(reg).room(key).game@ == step_view(old(reg).room(key).game@, moves@)
                &&& resets@ == step_resets(old(reg).room(key).game@, moves@)
                &&& final(reg).room(key).roster@ == old(reg).room(key).roster@
                &&& final(reg).room(key).pending_moves@ == old(reg).room(key).pending_moves@
                &&& final(reg).room(key).loop_running == old(reg).room(key).loop_running
            },
            None => !old(reg).has_room(key) && final(reg).rooms_map() == old(reg).rooms_map(),
        },
{
    let room_opt = reg.rooms.remove(&key);
    match room_opt {
        None => {
            proof {
                assert(reg.rooms_map() =~= old(reg).rooms_map());
            }
            None
        },
        Some(mut room) => {
            proof {
                assert(old(reg).rooms_map().contains_key(key));
                assert(old(reg).rooms_map()[key] == room);
                assert(room_wf(room));
            }
            let resets = room.game.step(moves);
            reg.rooms.insert(key, room);
            proof {
                assert(reg.rooms_map() =~= old(reg).rooms_map().insert(key, reg.room(key)));
                lemma_same_keys_wf(*old(reg), *reg, key);
            }
            Some(resets)
        },
    }
}

/// A read-only snapshot of a room's match for broadcasting: positions in
/// quarters, flag captors and scores; an unknown key yields nothing.
pub fn room_snapshot(reg: &Registry, key: u32) -> (r: Option<
    (Vec<(i32, i32)>, Vec<Option<usize>>, Vec<u32>),
>)
    requires
        reg.wf(),
    ensures
        match r {
            Some(t) => {
                &&& reg.has_room(key)
                &&& t.0@.len() == reg.room(key).game@.n
                &&& forall|i: int|
                    0 <= i < t.0@.len() ==> #[trigger] t.0@[i] == (
                        reg.room(key).game@.px[i],
                        reg.room(key).game@.py[i],
                    )
                &&& t.1@ == reg.room(key).game@.captors
                &&& t.2@ == reg.room(key).game@.scores
            },
            None => !reg.has_room(key),
        },
{
    match reg.rooms.get(&key) {
        None => None,
        Some(room) => {
            proof {
                assert(reg.rooms_map().contains_key(key));
                assert(reg.rooms_map()[key] == *room);
                assert(room_wf(*room));
            }
            let p = room.game.positions();
            let c = room.game.get_flag_captors();
            let s = room.game.get_scores();
            Some((p, c, s))
        },
    }
}

/// The numeric value a six-ASCII-digit sequence denotes.
pub open spec fn six_digit_value(s: Seq<u8>) -> int
    recommends
        s.len() == 6,
{
    100000 * (s[0] - 48) + 10000 * (s[1] - 48) + 1000 * (s[2] - 48) + 100 * (s[3] - 48) + 10 * (
    s[4] - 48) + (s[5] - 48)
}

/// The six decimal digits of a room key, most significant first, as ASCII
/// bytes; this is the wire form of a key.
pub fn key_digits(key: u32) -> (r: Vec<u8>)
    requires
        key < 1000000,
    ensures
        r@.len() == 6,
        forall|i: int| 0 <= i < 6 ==> 48 <= #[trigger] r@[i] <= 57,
        six_digit_value(r@) == key,
{
    let d0 = (key / 100000) as u8 + 48;
    let rem0 = key % 100000;
    let d1 = (rem0 / 10000) as u8 + 48;
    let rem1 = rem0 % 10000;
    let d2 = (rem1 / 1000) as u8 + 48;
    let rem2 = rem1 % 1000;
    let d3 = (rem2 / 100) as u8 + 48;
    let rem3 = rem2 % 100;
    let d4 = (rem3 / 10) as u8 + 48;
    let d5 = (rem3 % 10) as u8 + 48;
    let mut r: Vec<u8> = Vec::new();
    r.push(d0);
    r.push(d1);
    r.push(d2);
    r.push(d3);
    r.push(d4);
    r.push(d5);
    r
}

/// The active room keys, in creation order.
pub fn list_rooms(reg: &Registry) -> (r: Vec<u32>)
    requires
        reg.wf(),
    ensures
        r@ == reg.key_order(),
{
    let mut r: Vec<u32> = Vec::new();
    let mut i: usize = 0;
    while i < reg.keys.len()
        invariant
            i <= reg.key_order().len(),
            r@ =~= reg.key_order().subrange(0, i as int),
        decreases reg.key_order().len() - i,
    {
        r.push(reg.keys[i]);
        i = i + 1;
    }
    proof {
        assert(r@ =~= reg.key_order());
    }
    r
}

} // verus!
