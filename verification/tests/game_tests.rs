use ctf_backend::game::GameState;
use ctf_backend::player_move::Move;

fn stay4() -> Vec<Move> {
    vec![Move::Stay, Move::Stay, Move::Stay, Move::Stay]
}

fn print_grid(game: &GameState) {
    for row in game.pretty_print() {
        println!("{}", String::from_utf8(row).unwrap());
    }
}

#[test]
fn quick_dev() {
    let mut game = GameState::new(4);
    print_grid(&game);
    for _ in 0..104 {
        game.step(&vec![Move::Right, Move::Stay, Move::Stay, Move::Stay]);
    }
    for _ in 0..24 {
        game.step(&vec![Move::Down, Move::Stay, Move::Stay, Move::Stay]);
    }
    for _ in 0..4 {
        game.step(&vec![Move::Right, Move::Stay, Move::Stay, Move::Stay]);
    }
    for _ in 0..4 {
        game.step(&vec![Move::Up, Move::Stay, Move::Stay, Move::Stay]);
    }
    for _ in 0..96 {
        game.step(&vec![Move::Left, Move::Stay, Move::Stay, Move::Stay]);
    }
    print_grid(&game);
}

#[test]
fn new_game_spawns() {
    let game = GameState::new(2);
    assert_eq!(game.player_count(), 2);
    let p = game.positions();
    assert_eq!(p, vec![(0, 0), (108, 0)]);
    assert_eq!(game.get_flag_captors(), vec![None, None]);
    assert_eq!(game.get_scores(), vec![0, 0]);

    let game4 = GameState::new(4);
    let p4 = game4.positions();
    assert_eq!(p4, vec![(0, 0), (108, 0), (0, 52), (108, 52)]);
}

// Stepping with Stay for every player changes nothing.
#[test]
fn stay_is_idempotent() {
    let mut game = GameState::new(4);
    let before = game.positions();
    let resets = game.step(&stay4());
    assert!(resets.is_empty());
    assert_eq!(game.positions(), before);
    assert_eq!(game.get_flag_captors(), vec![None, None]);
    assert_eq!(game.get_scores(), vec![0, 0]);
}

// Player 0 marches to the right arena boundary once the right spawn
// corner has been vacated; no wall stands in row 0, so the reachable x is
// the boundary cell 27 (108 quarters).
#[test]
fn march_to_right_boundary() {
    let mut game = GameState::new(2);
    // Move player 1 out of the corner: four cells left, then two cells down.
    for _ in 0..16 {
        game.step(&vec![Move::Stay, Move::Left]);
    }
    for _ in 0..8 {
        game.step(&vec![Move::Stay, Move::Down]);
    }
    assert_eq!(game.positions()[1], (92, 8));
    for _ in 0..108 {
        let resets = game.step(&vec![Move::Right, Move::Stay]);
        assert!(resets.is_empty());
    }
    assert_eq!(game.positions()[0], (108, 0));
    // Clamped at the hard boundary: one more step changes nothing.
    game.step(&vec![Move::Right, Move::Stay]);
    assert_eq!(game.positions()[0], (108, 0));
}

// A wall cell sits directly below the left spawn: moving down from (0,0)
// is resolved back out of the wall, so the player never enters it.
#[test]
fn wall_blocks_descent_from_spawn() {
    let mut game = GameState::new(2);
    for _ in 0..10 {
        game.step(&vec![Move::Down, Move::Stay]);
    }
    assert_eq!(game.positions()[0], (0, 0));
}

// A one-quarter corner clip on a wall is resolved sideways onto the cell
// boundary (minimum-translation resolution), letting the player slide
// around the wall instead of entering or tunnelling through it.
#[test]
fn corner_clip_slides_around_wall() {
    let mut game = GameState::new(2);
    for _ in 0..35 {
        game.step(&vec![Move::Right, Move::Stay]);
    }
    for _ in 0..4 {
        game.step(&vec![Move::Down, Move::Stay]);
    }
    // The player's box now touches the top edge of the wall cell at (8, 2)
    // and overhangs its left edge by one quarter.
    assert_eq!(game.positions()[0], (35, 4));
    // Descending clips the wall's corner; the minimum push is to the
    // right, onto the cell boundary next to the wall.
    game.step(&vec![Move::Down, Move::Stay]);
    assert_eq!(game.positions()[0], (36, 5));
    // From there the descent continues unobstructed along the wall's side.
    for _ in 0..3 {
        game.step(&vec![Move::Down, Move::Stay]);
    }
    assert_eq!(game.positions()[0], (36, 8));
}

// An intruder colliding with an opponent outside its home half is sent
// back to spawn; the defender on its own half is unaffected.
#[test]
fn intruder_reset_on_collision() {
    let mut game = GameState::new(2);
    // Player 1 walks left along row 0 towards player 0's spawn.
    for _ in 0..104 {
        let resets = game.step(&vec![Move::Stay, Move::Left]);
        assert!(resets.is_empty());
    }
    assert_eq!(game.positions()[1], (4, 0));
    // The next step makes the boxes overlap while player 1 is deep in the
    // left half: player 1 is reset, player 0 stays.
    let resets = game.step(&vec![Move::Stay, Move::Left]);
    assert_eq!(resets, vec![1]);
    assert_eq!(game.positions()[0], (0, 0));
    assert_eq!(game.positions()[1], (108, 0));
}

// Two team-1 players reach team 0's flag cell in the same tick; only the
// lower-indexed one becomes captor, and holding persists while the captor
// stays outside its home half.
#[test]
fn flag_capture_is_exclusive() {
    let mut game = GameState::new(4);
    for tick in 0..140 {
        let m1 = if tick < 4 {
            Move::Left
        } else if tick < 36 {
            Move::Down
        } else {
            Move::Left
        };
        let m3 = if tick < 12 {
            Move::Stay
        } else if tick < 116 {
            Move::Left
        } else if tick < 136 {
            Move::Up
        } else {
            Move::Left
        };
        let resets = game.step(&vec![Move::Stay, m1, Move::Stay, m3]);
        assert!(resets.is_empty(), "unexpected reset at tick {tick}");
        assert_eq!(game.get_flag_captors(), vec![None, None]);
    }
    assert_eq!(game.positions()[1], (0, 32));
    assert_eq!(game.positions()[3], (0, 32));
    // Both players step onto the flag cell in the same tick.
    game.step(&vec![Move::Stay, Move::Up, Move::Stay, Move::Up]);
    assert_eq!(game.get_flag_captors(), vec![Some(1), None]);
    // The flag stays captured (and exclusively held) on a quiet tick.
    game.step(&stay4());
    assert_eq!(game.get_flag_captors(), vec![Some(1), None]);
}

// A captor that returns to its home half frees the flag at its spawn.
#[test]
fn captor_coming_home_frees_flag() {
    let mut game = GameState::new(4);
    for tick in 0..140 {
        let m1 = if tick < 4 {
            Move::Left
        } else if tick < 36 {
            Move::Down
        } else {
            Move::Left
        };
        game.step(&vec![Move::Stay, m1, Move::Stay, Move::Stay]);
    }
    assert_eq!(game.positions()[1], (0, 32));
    game.step(&vec![Move::Stay, Move::Up, Move::Stay, Move::Stay]);
    assert_eq!(game.get_flag_captors(), vec![Some(1), None]);
    // Walk the captor down to a wall-free row, then back to the right
    // half; the flag is freed the tick its center crosses the midline.
    for _ in 0..5 {
        game.step(&vec![Move::Stay, Move::Down, Move::Stay, Move::Stay]);
        assert_eq!(game.get_flag_captors(), vec![Some(1), None]);
    }
    let mut freed = false;
    for _ in 0..120 {
        game.step(&vec![Move::Stay, Move::Right, Move::Stay, Move::Stay]);
        if game.get_flag_captors()[0].is_none() {
            freed = true;
            break;
        }
    }
    assert!(freed);
    // Scoring is tracked but deliberately dormant: no counter moves.
    assert_eq!(game.get_scores(), vec![0, 0]);
}

// After a long arbitrary walk every position is still inside the arena.
#[test]
fn containment_under_long_walk() {
    let mut game = GameState::new(4);
    let cycle = [
        Move::DownRight,
        Move::Down,
        Move::Left,
        Move::UpLeft,
        Move::Right,
        Move::Up,
        Move::DownLeft,
        Move::UpRight,
    ];
    for tick in 0..400 {
        let moves = vec![
            cycle[tick % 8],
            cycle[(tick + 3) % 8],
            cycle[(tick + 5) % 8],
            cycle[(tick + 7) % 8],
        ];
        game.step(&moves);
        for (x, y) in game.positions() {
            assert!((0..=108).contains(&x), "x out of bounds: {x}");
            assert!((0..=52).contains(&y), "y out of bounds: {y}");
        }
        let captors = game.get_flag_captors();
        for (team, captor) in captors.iter().enumerate() {
            if let Some(p) = captor {
                assert_ne!(p % 2, team, "captor of its own flag");
            }
        }
    }
}

#[test]
fn pretty_print_shows_layout() {
    let game = GameState::new(4);
    let rows = game.pretty_print();
    assert_eq!(rows.len(), 14);
    for row in &rows {
        assert_eq!(row.len(), 28);
    }
    // Players at their spawn corners.
    assert_eq!(rows[0][0], b'0');
    assert_eq!(rows[0][27], b'1');
    assert_eq!(rows[13][0], b'2');
    assert_eq!(rows[13][27], b'3');
    // Both flags at their spawn cells.
    assert_eq!(rows[7][0], b'B');
    assert_eq!(rows[6][27], b'R');
    // A wall cell below the left spawn.
    assert_eq!(rows[1][0], b'#');
    // An empty cell in the middle.
    assert_eq!(rows[0][14], b' ');
}
