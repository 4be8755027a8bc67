use ctf_backend::error::Error;
use ctf_backend::player_move::Move;
use ctf_backend::registry::{
    add_player, apply_tick, create_room, delete_room, ensure_room_loop, get_players_state,
    get_room_state, key_digits, list_rooms, remove_player, room_snapshot, tick_moves,
    try_create_room_with_key, update_player_state, Registry,
};

#[test]
fn two_rooms_get_distinct_keys() {
    let mut reg = Registry::new();
    let k1 = create_room(&mut reg).expect("an empty registry accepts a room");
    let k2 = create_room(&mut reg).expect("a registry of one room accepts another");
    assert_ne!(k1, k2);
    assert!(k1 < 1_000_000);
    assert!(k2 < 1_000_000);
    assert_eq!(key_digits(k1).len(), 6);
    assert_eq!(key_digits(k2).len(), 6);
    assert_eq!(list_rooms(&reg), vec![k1, k2]);
}

#[test]
fn unknown_key_is_not_found_and_not_created() {
    let mut reg = Registry::new();
    let k1 = create_room(&mut reg).unwrap();
    let unknown = if k1 == 123456 { 654321 } else { 123456 };
    assert!(get_room_state(&reg, unknown).is_none());
    assert!(matches!(add_player(&mut reg, unknown), Err(Error::RoomNotFound)));
    // The lookups did not create the room as a side effect.
    assert_eq!(list_rooms(&reg), vec![k1]);
    assert!(get_room_state(&reg, unknown).is_none());
}

#[test]
fn slots_fill_smallest_first_and_full_room_is_sentinel() {
    let mut reg = Registry::new();
    let key = create_room(&mut reg).unwrap();
    assert_eq!(add_player(&mut reg, key), Ok(0));
    assert_eq!(add_player(&mut reg, key), Ok(1));
    assert_eq!(add_player(&mut reg, key), Ok(2));
    assert_eq!(add_player(&mut reg, key), Ok(3));
    // No free slot left: the sentinel value signals a full room.
    assert_eq!(add_player(&mut reg, key), Ok(-1));
    // Freeing a middle slot makes it the smallest free one again.
    remove_player(&mut reg, key, 1);
    assert_eq!(add_player(&mut reg, key), Ok(1));
}

#[test]
fn moves_are_last_write_wins_and_tick_consumes_them() {
    let mut reg = Registry::new();
    let key = create_room(&mut reg).unwrap();
    assert_eq!(add_player(&mut reg, key), Ok(0));
    assert_eq!(add_player(&mut reg, key), Ok(1));
    update_player_state(&mut reg, key, 0, Move::Up);
    update_player_state(&mut reg, key, 0, Move::Right);
    update_player_state(&mut reg, key, 1, Move::Down);
    let pending = get_players_state(&reg, key).unwrap();
    assert!(matches!(pending[0], Move::Right));
    assert!(matches!(pending[1], Move::Down));
    let moves = tick_moves(&reg, key).unwrap();
    assert_eq!(moves.len(), 4);
    assert!(matches!(moves[0], Move::Right));
    assert!(matches!(moves[1], Move::Down));
    assert!(matches!(moves[2], Move::Stay));
    assert!(matches!(moves[3], Move::Stay));
}

#[test]
fn apply_tick_advances_the_room_simulation() {
    let mut reg = Registry::new();
    let key = create_room(&mut reg).unwrap();
    assert_eq!(add_player(&mut reg, key), Ok(0));
    update_player_state(&mut reg, key, 0, Move::Right);
    let moves = tick_moves(&reg, key).unwrap();
    let resets = apply_tick(&mut reg, key, &moves).unwrap();
    assert!(resets.is_empty());
    let (positions, captors, scores) = room_snapshot(&reg, key).unwrap();
    assert_eq!(positions[0], (1, 0));
    assert_eq!(positions[1], (108, 0));
    assert_eq!(captors, vec![None, None]);
    assert_eq!(scores, vec![0, 0]);
    // A move submitted between snapshot and step applies one tick later:
    // the pending move is left in place, not consumed.
    let again = tick_moves(&reg, key).unwrap();
    assert!(matches!(again[0], Move::Right));
    assert!(apply_tick(&mut reg, key, &moves).is_some());
    let (positions, _, _) = room_snapshot(&reg, key).unwrap();
    assert_eq!(positions[0], (2, 0));
    // An unknown key advances nothing.
    let unknown = if key == 1 { 2 } else { 1 };
    assert!(apply_tick(&mut reg, unknown, &moves).is_none());
}

#[test]
fn tick_loop_starts_once() {
    let mut reg = Registry::new();
    let key = create_room(&mut reg).unwrap();
    assert!(ensure_room_loop(&mut reg, key));
    assert!(!ensure_room_loop(&mut reg, key));
    let unknown = if key == 1 { 2 } else { 1 };
    assert!(!ensure_room_loop(&mut reg, unknown));
}

#[test]
fn delete_room_removes_exactly_that_room() {
    let mut reg = Registry::new();
    let k1 = create_room(&mut reg).unwrap();
    let k2 = create_room(&mut reg).unwrap();
    assert!(delete_room(&mut reg, k1));
    assert!(!delete_room(&mut reg, k1));
    assert!(get_room_state(&reg, k1).is_none());
    assert!(get_room_state(&reg, k2).is_some());
    assert_eq!(list_rooms(&reg), vec![k2]);
}

#[test]
fn try_create_room_with_key_reports_collisions() {
    let mut reg = Registry::new();
    assert!(try_create_room_with_key(&mut reg, 42));
    assert!(!try_create_room_with_key(&mut reg, 42));
    assert_eq!(list_rooms(&reg), vec![42]);
    let pending = get_room_state(&reg, 42).unwrap();
    assert_eq!(pending.len(), 4);
    assert!(pending.iter().all(|m| matches!(m, Move::Stay)));
}

#[test]
fn key_digit_rendering() {
    assert_eq!(key_digits(0), b"000000".to_vec());
    assert_eq!(key_digits(42), b"000042".to_vec());
    assert_eq!(key_digits(999_999), b"999999".to_vec());
    assert_eq!(key_digits(123_456), b"123456".to_vec());
}
