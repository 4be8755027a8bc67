use ctf_backend::error::Error;
use ctf_backend::player_move::Move;

#[test]
fn moves_map_to_unit_deltas() {
    assert_eq!(Move::Up.to_coords(), (0, -1));
    assert_eq!(Move::UpRight.to_coords(), (1, -1));
    assert_eq!(Move::Right.to_coords(), (1, 0));
    assert_eq!(Move::DownRight.to_coords(), (1, 1));
    assert_eq!(Move::Down.to_coords(), (0, 1));
    assert_eq!(Move::DownLeft.to_coords(), (-1, 1));
    assert_eq!(Move::Left.to_coords(), (-1, 0));
    assert_eq!(Move::UpLeft.to_coords(), (-1, -1));
    assert_eq!(Move::Stay.to_coords(), (0, 0));
}

#[test]
fn deltas_normalize_by_sign() {
    assert_eq!(Move::new(0, 0), Move::Stay);
    assert_eq!(Move::new(1, 0), Move::Right);
    assert_eq!(Move::new(-1, -1), Move::UpLeft);
    // Out-of-range components are accepted and normalized via sign.
    assert_eq!(Move::new(5, 0), Move::Right);
    assert_eq!(Move::new(-7, 100), Move::DownLeft);
    assert_eq!(Move::new(0, -3), Move::Up);
}

#[test]
fn round_trip_through_coords() {
    let all = [
        Move::Up,
        Move::UpRight,
        Move::Right,
        Move::DownRight,
        Move::Down,
        Move::DownLeft,
        Move::Left,
        Move::UpLeft,
        Move::Stay,
    ];
    for m in all {
        let (dx, dy) = m.to_coords();
        assert_eq!(Move::new(dx, dy), m);
    }
}

#[test]
fn room_not_found_error_text() {
    let e = Error::RoomNotFound;
    assert_eq!(e.kind(), "room_not_found");
    assert_eq!(e.message(), "the requested room does not exist");
}
