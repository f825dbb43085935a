use xonix::game::{init, Event, State, Transition};
use xonix::game_over_state::GameOverState;
use xonix::renderer::{Color, Renderer};

/// A renderer that records every cell it is asked to draw.
struct Recorder {
    cells: Vec<(u16, u16, char)>,
}

impl Renderer for Recorder {
    fn put_cell(&mut self, x: u16, y: u16, c: char, _color: Color) {
        self.cells.push((x, y, c));
    }
}

#[test]
fn init_starts_with_the_welcome_screen_alone() {
    let g = init();
    assert_eq!(g.states.len(), 1);
    assert!(matches!(g.states[0], State::Welcome(_)));
}

#[test]
fn a_tick_on_the_welcome_screen_changes_nothing() {
    let mut g = init();
    assert!(g.update());
    assert_eq!(g.states.len(), 1);
    assert!(matches!(g.states[0], State::Welcome(_)));
}

#[test]
fn handle_event_with_an_empty_queue_succeeds() {
    let mut g = init();
    assert!(g.handle_event());
    assert_eq!(g.states.len(), 1);
}

#[test]
fn starting_a_game_pushes_the_play_screen() {
    let mut g = init();
    g.push_event(Event::Right);
    assert!(g.handle_event());
    assert_eq!(g.states.len(), 2);
    match &g.states[1] {
        State::Play(p) => {
            assert_eq!(p.level, 1);
            assert_eq!(p.score, 0);
            assert_eq!(p.lives, 3);
        },
        _ => panic!("expected the play screen on top"),
    }
}

#[test]
fn select_also_starts_a_game() {
    let mut g = init();
    g.push_event(Event::Select);
    assert!(g.handle_event());
    assert_eq!(g.states.len(), 2);
    assert!(matches!(g.states[1], State::Play(_)));
}

/// Popping as deep as the whole stack is rejected: the stack never
/// empties, and the caller sees the failed navigation.
#[test]
fn popping_the_last_screen_is_rejected() {
    let mut g = init();
    g.push_event(Event::Back);
    assert!(!g.handle_event());
    assert_eq!(g.states.len(), 1);
    assert!(matches!(g.states[0], State::Welcome(_)));
}

/// One event is consumed per call, in arrival order.
#[test]
fn events_are_consumed_one_per_tick_in_order() {
    let mut g = init();
    g.push_event(Event::Up);      // ignored by the welcome screen
    g.push_event(Event::Right);   // starts the game
    assert!(g.handle_event());
    assert_eq!(g.states.len(), 1);
    assert!(g.handle_event());
    assert_eq!(g.states.len(), 2);
}

/// Any key on the game-over overlay pops back to the welcome screen.
#[test]
fn game_over_pops_back_to_the_welcome_screen() {
    let mut g = init();
    g.push_event(Event::Right);
    assert!(g.handle_event());
    g.states.push(State::GameOver(GameOverState {}));
    g.push_event(Event::Select);
    assert!(g.handle_event());
    assert_eq!(g.states.len(), 1);
    assert!(matches!(g.states[0], State::Welcome(_)));
}

/// The welcome screen renders its banner.
#[test]
fn welcome_screen_renders_the_banner() {
    let g = init();
    let mut rec = Recorder { cells: Vec::new() };
    g.render(&mut rec);
    assert!(rec.cells.contains(&(0, 0, '+')));
    assert!(rec.cells.contains(&(3, 1, 'X')));
}

/// With the game-over overlay on top, the play screen beneath it is drawn
/// first and the overlay lands on top of it.
#[test]
fn game_over_renders_as_an_overlay_on_the_play_screen() {
    let mut g = init();
    g.push_event(Event::Right);
    assert!(g.handle_event());
    g.states.push(State::GameOver(GameOverState {}));
    let mut rec = Recorder { cells: Vec::new() };
    g.render(&mut rec);
    // a border cell of the play board, drawn beneath
    assert!(rec.cells.contains(&(0, 0, '█')));
    // the overlay text, drawn after it
    assert!(rec.cells.contains(&(36, 12, 'G')));
    // the welcome banner is hidden beneath the opaque play screen
    assert!(!rec.cells.contains(&(3, 1, 'X')));
    let board_cell = rec.cells.iter().position(|c| *c == (0, 0, '█')).unwrap();
    let overlay_cell = rec.cells.iter().position(|c| *c == (36, 12, 'G')).unwrap();
    assert!(board_cell < overlay_cell);
}

/// The play screen's status line shows the score and lives.
#[test]
fn play_screen_renders_the_status_line() {
    let mut g = init();
    g.push_event(Event::Right);
    assert!(g.handle_event());
    let mut rec = Recorder { cells: Vec::new() };
    g.render(&mut rec);
    // "Score: 0 ..." drawn on the row beneath the board
    assert!(rec.cells.contains(&(0, 12, 'S')));
    assert!(rec.cells.contains(&(7, 12, '0')));
}
