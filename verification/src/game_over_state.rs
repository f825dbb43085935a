//! The game-over overlay: drawn atop the frozen play screen.

use vstd::prelude::*;

use crate::game::{Event, Transition};
use crate::renderer::{draw_text, Color, Renderer};

verus! {

/// The overlay shown when the last life is lost.  It leaves the play
/// screen beneath it visible and frozen.
#[derive(Clone, Copy, PartialEq, Eq, Structural, Debug)]
pub struct GameOverState {}

impl GameOverState {
    /// The overlay does nothing on a tick.
    pub fn update(&mut self) -> (t: Transition)
        ensures
            t == Transition::Stay,
    {
        Transition::Stay
    }

    /// Draw the game-over box.
    pub fn render<R: Renderer>(&self, renderer: &mut R) {
        draw_text(renderer, 34, 11, "+===========+", Color::White);
        draw_text(renderer, 34, 12, "| GAME OVER |", Color::White);
        draw_text(renderer, 34, 13, "+===========+", Color::White);
    }

    /// The overlay is transparent: the screen beneath it is drawn first.
    pub fn render_parent(&self) -> (r: bool)
        ensures
            r == true,
    {
        true
    }

    /// Any key leaves the dead run: pop the overlay and the play screen.
    pub fn handle_event(&mut self, _event: Event) -> (t: Transition)
        ensures
            t == Transition::Pop(2),
    {
        Transition::Pop(2)
    }
}

} // verus!
