use xonix::board::Field;
use xonix::game::{State, Transition};
use xonix::geometry::{Direction, Position};
use xonix::play_state::{Delay, Enemy, PlayState};

/// A state with deterministic enemy placement, far from the action.
fn quiet_state(lives: u32) -> PlayState {
    let mut ps = PlayState::new(1, 0, lives);
    ps.sea_enemies = vec![Enemy {
        position: Position { x: 25, y: 8 },
        direction: Direction { dx: 1, dy: 1 },
    }];
    ps.land_enemies = vec![Enemy {
        position: Position { x: 16, y: 10 },
        direction: Direction { dx: 1, dy: 1 },
    }];
    ps
}

#[test]
fn fresh_level_spawns_player_and_enemies() {
    let ps = PlayState::new(1, 0, 3);
    assert_eq!(ps.board.width, 32);
    assert_eq!(ps.board.height, 12);
    assert_eq!(ps.player.position, Position { x: 16, y: 0 });
    assert_eq!(ps.player.direction, Direction { dx: 0, dy: 0 });
    assert_eq!(ps.lives, 3);
    assert_eq!(ps.score, 0);
    assert_eq!(ps.level, 1);
    assert!(matches!(ps.delay, Delay::Idle));
    assert_eq!(ps.land_enemies.len(), 1);
    assert_eq!(ps.land_enemies[0].position, Position { x: 16, y: 10 });
    assert_eq!(ps.sea_enemies.len(), 1);
    let e = &ps.sea_enemies[0];
    assert_eq!(ps.board.get(e.position.x as usize, e.position.y as usize), Field::Sea);
}

/// Steering right from a sea cell advances the player one cell and leaves
/// trail on the cell it came from.
#[test]
fn steering_right_across_sea_leaves_trail() {
    let mut ps = quiet_state(3);
    ps.player.position = Position { x: 5, y: 5 };
    assert_eq!(ps.board.get(5, 5), Field::Sea);
    let t = ps.handle_event(xonix::game::Event::Right);
    assert!(matches!(t, Transition::Stay));
    assert_eq!(ps.player.direction, Direction { dx: 1, dy: 0 });
    let t = ps.update();
    assert!(matches!(t, Transition::Stay));
    assert_eq!(ps.player.position, Position { x: 6, y: 5 });
    assert_eq!(ps.board.get(5, 5), Field::Sand);
}

/// A land enemy whose next horizontal cell is off-grid has its x-direction
/// flipped, with the vertical and diagonal probes checked afterward in the
/// fixed order.
#[test]
fn land_enemy_bounces_off_the_grid_edge() {
    let mut ps = quiet_state(3);
    ps.land_enemies = vec![Enemy {
        position: Position { x: 0, y: 0 },
        direction: Direction { dx: -1, dy: -1 },
    }];
    let t = ps.update();
    assert!(matches!(t, Transition::Stay));
    // horizontal probe (-1, 0) was off-grid: dx flipped; vertical probe
    // (0, -1) off-grid: dy flipped; diagonal (1, 1) is land: no flip.
    assert_eq!(ps.land_enemies[0].direction, Direction { dx: 1, dy: 1 });
    assert_eq!(ps.land_enemies[0].position, Position { x: 1, y: 1 });
}

/// A tick that predicts a collision freezes every piece; only lives and
/// the delay change.
#[test]
fn collision_tick_moves_nothing_and_starts_the_death_delay() {
    let mut ps = quiet_state(3);
    ps.player.position = Position { x: 5, y: 5 };
    ps.player.direction = Direction { dx: 1, dy: 0 };
    ps.board.set(6, 5, Field::Sand);  // running into its own trail
    let t = ps.update();
    assert!(matches!(t, Transition::Stay));
    assert_eq!(ps.lives, 2);
    assert!(matches!(ps.delay, Delay::Death(20)));
    assert_eq!(ps.player.position, Position { x: 5, y: 5 });
    assert_eq!(ps.sea_enemies[0].position, Position { x: 25, y: 8 });
    assert_eq!(ps.land_enemies[0].position, Position { x: 16, y: 10 });
    assert_eq!(ps.board.get(6, 5), Field::Sand);
    assert_eq!(ps.score, 0);
}

/// Losing the last life pushes the game-over overlay — a push, not a
/// replace — leaving the play screen intact beneath it.
#[test]
fn last_life_pushes_game_over_over_the_frozen_play_screen() {
    let mut ps = quiet_state(1);
    ps.player.position = Position { x: 5, y: 5 };
    ps.player.direction = Direction { dx: 1, dy: 0 };
    ps.board.set(6, 5, Field::Sand);
    let t = ps.update();
    assert!(matches!(t, Transition::Push(State::GameOver(_))));
    assert_eq!(ps.lives, 0);
    assert!(matches!(ps.delay, Delay::Idle));
    // the play state is frozen, not torn down
    assert_eq!(ps.player.position, Position { x: 5, y: 5 });
    assert_eq!(ps.sea_enemies[0].position, Position { x: 25, y: 8 });
    assert_eq!(ps.land_enemies[0].position, Position { x: 16, y: 10 });
}

/// The death delay counts down, then cleans the trail and respawns the
/// player and the land enemies; sea enemies, score and lives survive.
#[test]
fn death_delay_counts_down_then_resets_the_level() {
    let mut ps = quiet_state(2);
    ps.board.set(5, 5, Field::Sand);
    ps.score = 7;
    ps.delay = Delay::Death(1);
    let t = ps.update();
    assert!(matches!(t, Transition::Stay));
    assert!(matches!(ps.delay, Delay::Death(0)));
    assert_eq!(ps.board.get(5, 5), Field::Sand);  // still frozen
    let t = ps.update();
    assert!(matches!(t, Transition::Stay));
    assert!(matches!(ps.delay, Delay::Idle));
    assert_eq!(ps.board.get(5, 5), Field::Sea);  // trail discarded
    assert_eq!(ps.player.position, Position { x: 16, y: 0 });
    assert_eq!(ps.player.direction, Direction { dx: 0, dy: 0 });
    assert_eq!(ps.land_enemies.len(), 1);
    assert_eq!(ps.land_enemies[0].position, Position { x: 16, y: 10 });
    assert_eq!(ps.sea_enemies[0].position, Position { x: 25, y: 8 });
    assert_eq!(ps.score, 7);
    assert_eq!(ps.lives, 2);
}

/// The next-level delay counts down, then replaces the screen with a fresh
/// level carrying score and lives forward.
#[test]
fn next_level_delay_ends_in_a_replace_with_the_following_level() {
    let mut ps = quiet_state(2);
    ps.level = 2;
    ps.score = 55;
    ps.delay = Delay::NextLevel(1);
    let t = ps.update();
    assert!(matches!(t, Transition::Stay));
    assert!(matches!(ps.delay, Delay::NextLevel(0)));
    let t = ps.update();
    match t {
        Transition::Replace(State::Play(p2)) => {
            assert_eq!(p2.level, 3);
            assert_eq!(p2.score, 55);
            assert_eq!(p2.lives, 2);
            assert!(matches!(p2.delay, Delay::Idle));
            assert_eq!(p2.sea_enemies.len(), 3);
        },
        _ => panic!("expected a replace with the next level"),
    }
}

/// Closing a trail against land captures the enemy-free side, banks the
/// gained cells as score, and — past the one-fifth threshold — starts the
/// next-level delay.
#[test]
fn closing_a_large_trail_captures_scores_and_triggers_next_level() {
    let mut ps = quiet_state(3);
    // a finished wall at x = 4 across the whole interior, enemy on its left
    for y in 2..10usize {
        ps.board.set(4, y, Field::Sand);
    }
    ps.sea_enemies = vec![Enemy {
        position: Position { x: 2, y: 2 },
        direction: Direction { dx: 1, dy: 1 },
    }];
    ps.player.position = Position { x: 2, y: 5 };
    ps.player.direction = Direction { dx: -1, dy: 0 };  // step onto the border
    let t = ps.update();
    assert!(matches!(t, Transition::Stay));
    // wall (8) + right region (25 columns x 8 rows) + the player's own cell
    assert_eq!(ps.score, 8 + 200 + 1);
    assert_eq!(ps.player.position, Position { x: 1, y: 5 });
    assert_eq!(ps.player.direction, Direction { dx: 0, dy: 0 });
    assert_eq!(ps.board.get(2, 5), Field::Land);
    assert_eq!(ps.board.get(10, 5), Field::Land);
    assert_eq!(ps.board.get(3, 3), Field::Sea);
    assert_eq!(ps.board.remaining_sea, 15);
    assert!(matches!(ps.delay, Delay::NextLevel(20)));
}

/// A small capture below the threshold scores but keeps playing.
#[test]
fn a_small_capture_scores_without_ending_the_level() {
    let mut ps = quiet_state(3);
    ps.player.position = Position { x: 2, y: 5 };
    ps.player.direction = Direction { dx: -1, dy: 0 };
    let t = ps.update();
    assert!(matches!(t, Transition::Stay));
    // only the player's own trail cell is cut off from nothing: the sea
    // stays connected to the enemy, so just that one sand cell is claimed
    assert_eq!(ps.score, 1);
    assert_eq!(ps.board.get(2, 5), Field::Land);
    assert!(matches!(ps.delay, Delay::Idle));
    assert_eq!(ps.board.remaining_sea, 223);
}

/// Walking against the outer wall stops the player without moving it.
#[test]
fn the_grid_edge_stops_the_player() {
    let mut ps = quiet_state(3);
    ps.player.position = Position { x: 16, y: 0 };
    ps.player.direction = Direction { dx: 0, dy: -1 };
    let t = ps.update();
    assert!(matches!(t, Transition::Stay));
    assert_eq!(ps.player.position, Position { x: 16, y: 0 });
    assert_eq!(ps.player.direction, Direction { dx: 0, dy: 0 });
}

/// From its spawn on the land border the player slides along land: it
/// advances without leaving any trail, since its cell one step right is
/// not sea.
#[test]
fn steering_right_from_spawn_slides_along_the_border() {
    let mut ps = quiet_state(3);
    assert_eq!(ps.player.position, Position { x: 16, y: 0 });
    assert_eq!(ps.board.get(17, 0), Field::Land);
    ps.handle_event(xonix::game::Event::Right);
    let t = ps.update();
    assert!(matches!(t, Transition::Stay));
    assert_eq!(ps.player.position, Position { x: 17, y: 0 });
    assert_eq!(ps.board.get(16, 0), Field::Land);
}

/// A sea enemy meeting land straight ahead horizontally flips only its
/// x-direction: the horizontal probe is resolved first.
#[test]
fn sea_enemy_flips_horizontally_at_the_land_edge() {
    let mut ps = quiet_state(3);
    ps.sea_enemies = vec![Enemy {
        position: Position { x: 2, y: 5 },
        direction: Direction { dx: -1, dy: 1 },
    }];
    let t = ps.update();
    assert!(matches!(t, Transition::Stay));
    assert_eq!(ps.sea_enemies[0].direction, Direction { dx: 1, dy: 1 });
    assert_eq!(ps.sea_enemies[0].position, Position { x: 3, y: 6 });
}

/// With both axes clear but land exactly on the diagonal, a sea enemy
/// reverses both components — the diagonal probe comes last.
#[test]
fn sea_enemy_reverses_on_an_exact_diagonal_strike() {
    let mut ps = quiet_state(3);
    ps.board.set(4, 4, Field::Land);
    ps.sea_enemies = vec![Enemy {
        position: Position { x: 3, y: 3 },
        direction: Direction { dx: 1, dy: 1 },
    }];
    let t = ps.update();
    assert!(matches!(t, Transition::Stay));
    assert_eq!(ps.sea_enemies[0].direction, Direction { dx: -1, dy: -1 });
    assert_eq!(ps.sea_enemies[0].position, Position { x: 2, y: 2 });
}

/// In a corner of the sea both axis probes flip, in order, before the
/// diagonal is rechecked against the already-flipped direction.
#[test]
fn sea_enemy_corner_bounce_resolves_axes_in_order() {
    let mut ps = quiet_state(3);
    ps.sea_enemies = vec![Enemy {
        position: Position { x: 2, y: 2 },
        direction: Direction { dx: -1, dy: -1 },
    }];
    let t = ps.update();
    assert!(matches!(t, Transition::Stay));
    assert_eq!(ps.sea_enemies[0].direction, Direction { dx: 1, dy: 1 });
    assert_eq!(ps.sea_enemies[0].position, Position { x: 3, y: 3 });
}

/// The threshold comparison is exact integer arithmetic on the cached
/// counts: strictly more than a fifth of the interior must be captured.
#[test]
fn threshold_matches_the_exact_fifth() {
    let mut ps = quiet_state(3);
    // interior of the standard board: 28 * 8 = 224 cells
    ps.board.remaining_sea = 180;  // captured 44, ratio just under 0.2: 5*180 =900 >= 896
    assert!(!ps.board.fill_ratio_exceeds_threshold());
    ps.board.remaining_sea = 179;  // captured 45: 5*179 = 895 < 896
    assert!(ps.board.fill_ratio_exceeds_threshold());
}
