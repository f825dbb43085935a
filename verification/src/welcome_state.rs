//! The title screen: draws the banner and starts a run.

use vstd::prelude::*;

use crate::game::{Event, State, Transition};
use crate::play_state::{Delay, PlayState};
use crate::renderer::{draw_text, Color, Renderer};

verus! {

/// The opening screen.  It holds no state of its own: it waits for the
/// player to start a game or leave.
#[derive(Clone, Copy, PartialEq, Eq, Structural, Debug)]
pub struct WelcomeState {}

impl WelcomeState {
    /// The title screen does nothing on a tick.
    pub fn update(&mut self) -> (t: Transition)
        ensures
            t == Transition::Stay,
    {
        Transition::Stay
    }

    /// Draw the banner and the start hint.
    pub fn render<R: Renderer>(&self, renderer: &mut R) {
        draw_text(renderer, 0, 0, "+==============================================+", Color::White);
        draw_text(renderer, 0, 1, "|  X   X  OOOOO  N   N  III  X   X             |", Color::Cyan);
        draw_text(renderer, 0, 2, "|   X X   O   O  NN  N   I    X X              |", Color::Cyan);
        draw_text(renderer, 0, 3, "|    X    O   O  N N N   I     X               |", Color::Cyan);
        draw_text(renderer, 0, 4, "|   X X   O   O  N  NN   I    X X              |", Color::Cyan);
        draw_text(renderer, 0, 5, "|  X   X  OOOOO  N   N  III  X   X             |", Color::Cyan);
        draw_text(renderer, 0, 6, "|                                              |", Color::White);
        draw_text(renderer, 0, 7, "|              [ START GAME ]                  |", Color::White);
        draw_text(renderer, 0, 8, "|   arrows: steer   space or right: start      |", Color::Magenta);
        draw_text(renderer, 0, 9, "|   esc: quit                                  |", Color::Magenta);
        draw_text(renderer, 0, 10, "+==============================================+", Color::White);
    }

    /// The title screen is opaque: nothing beneath it is drawn.
    pub fn render_parent(&self) -> (r: bool)
        ensures
            r == false,
    {
        false
    }

    /// Start a fresh run on select or right; back asks to leave (popping
    /// the last screen is rejected, which the driver treats as quitting).
    pub fn handle_event(&mut self, event: Event) -> (t: Transition)
        ensures
            match event {
                Event::Right | Event::Select => t matches Transition::Push(s) && s matches
                    State::Play(p) && p.wf() && p.level == 1 && p.score == 0 && p.lives == 3
                    && p.delay == Delay::Idle,
                Event::Back => t == Transition::Pop(1),
                _ => t == Transition::Stay,
            },
    {
        match event {
            Event::Right | Event::Select => {
                let state = PlayState::new(1, 0, 3);
                Transition::Push(State::Play(state))
            },
            Event::Back => Transition::Pop(1),
            _ => Transition::Stay,
        }
    }
}

} // verus!
