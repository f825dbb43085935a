//! The navigation engine: a stack of screens, a queue of pending events,
//! and the tick protocol that feeds the topmost screen.

use vstd::prelude::*;

use crate::game_over_state::GameOverState;
use crate::play_state::{play_handle_event_rel, play_update_rel, PlayState};
use crate::renderer::Renderer;
use crate::welcome_state::WelcomeState;
use std::collections::VecDeque;

verus! {

/// The closed set of input and clock events the engine consumes.
#[derive(Clone, Copy, PartialEq, Eq, Structural, Debug)]
pub enum Event {
    Tick,
    Up,
    Down,
    Left,
    Right,
    Select,
    Back,
}

/// One screen of the game.  The set of screens is fixed, so the stack
/// holds a closed sum rather than dynamically dispatched units.
pub enum State {
    Welcome(WelcomeState),
    Play(PlayState),
    GameOver(GameOverState),
}

/// What a screen asks the stack to do after an event or a tick.  `Stay`
/// leaves the stack as it is.
pub enum Transition {
    Push(State),
    Pop(usize),
    Replace(State),
    Stay,
}

impl State {
    /// The play screen carries the one real invariant; the two overlays
    /// are stateless.
    pub open spec fn wf(self) -> bool {
        match self {
            State::Play(p) => p.wf(),
            _ => true,
        }
    }

    /// Advance this screen by one tick.
    pub fn update(&mut self) -> (t: Transition)
        requires
            old(self).wf(),
        ensures
            final(self).wf(),
            state_update_rel(*old(self), *final(self), t),
    {
        match self {
            State::Welcome(w) => w.update(),
            State::Play(p) => p.update(),
            State::GameOver(g) => g.update(),
        }
    }

    /// Deliver one event to this screen.
    pub fn handle_event(&mut self, event: Event) -> (t: Transition)
        requires
            old(self).wf(),
        ensures
            final(self).wf(),
            state_handle_event_rel(*old(self), event, *final(self), t),
    {
        match self {
            State::Welcome(w) => w.handle_event(event),
            State::Play(p) => p.handle_event(event),
            State::GameOver(g) => g.handle_event(event),
        }
    }

    /// Whether the screen beneath this one must be drawn first.
    pub fn render_parent(&self) -> (r: bool)
        ensures
            r == (self is GameOver),
    {
        match self {
            State::Welcome(w) => w.render_parent(),
            State::Play(p) => p.render_parent(),
            State::GameOver(g) => g.render_parent(),
        }
    }

    /// Draw this screen.
    pub fn render<R: Renderer>(&self, renderer: &mut R)
        requires
            self.wf(),
    {
        match self {
            State::Welcome(w) => w.render(renderer),
            State::Play(p) => p.render(renderer),
            State::GameOver(g) => g.render(renderer),
        }
    }
}

/// How a tick transforms one screen: overlays hold still, the play screen
/// follows its tick relation.
pub open spec fn state_update_rel(pre: State, post: State, t: Transition) -> bool {
    match pre {
        State::Welcome(w) => post == pre && t == Transition::Stay,
        State::GameOver(g) => post == pre && t == Transition::Stay,
        State::Play(p) => post matches State::Play(p2) && play_update_rel(p, p2, t),
    }
}

/// How one delivered event transforms one screen.
pub open spec fn state_handle_event_rel(pre: State, ev: Event, post: State, t: Transition) -> bool {
    match pre {
        State::Welcome(w) => post == pre && (match ev {
            Event::Right | Event::Select => t matches Transition::Push(s) && s matches State::Play(
                p,
            ) && p.wf() && p.level == 1 && p.score == 0 && p.lives == 3,
            Event::Back => t == Transition::Pop(1),
            _ => t == Transition::Stay,
        }),
        State::GameOver(g) => post == pre && t == Transition::Pop(2),
        State::Play(p) => post matches State::Play(p2) && play_handle_event_rel(p, ev, p2, t),
    }
}

/// How a transition rewrites the screen stack, and whether the navigation
/// succeeded.  A pop that would empty the stack is rejected and leaves the
/// stack unchanged.
pub open spec fn navigate_rel(t: Transition, pre: Seq<State>, post: Seq<State>, ok: bool) -> bool {
    match t {
        Transition::Push(s) => post == pre.push(s) && ok,
        Transition::Replace(s) => post == pre.update(pre.len() - 1, s) && ok,
        Transition::Pop(n) => if n >= pre.len() {
            post == pre && !ok
        } else {
            post == pre.subrange(0, pre.len() - n) && ok
        },
        Transition::Stay => post == pre && ok,
    }
}

impl Transition {
    /// Apply this transition to the stack.  Returns true iff navigation
    /// succeeded; the one failure is a pop as deep as the whole stack,
    /// which is rejected so that the stack never empties.
    pub fn navigate(self, states: &mut Vec<State>) -> (ok: bool)
        requires
            old(states)@.len() >= 1,
            forall|i: int| 0 <= i < old(states)@.len() ==> (#[trigger] old(states)@[i]).wf(),
            self matches Transition::Push(s) ==> s.wf(),
            self matches Transition::Replace(s) ==> s.wf(),
        ensures
            navigate_rel(self, old(states)@, final(states)@, ok),
            final(states)@.len() >= 1,
            forall|i: int| 0 <= i < final(states)@.len() ==> (#[trigger] final(states)@[i]).wf(),
    {
        let ghost pre = states@;
        match self {
            Transition::Push(next) => {
                states.push(next);
                true
            },
            Transition::Replace(next) => {
                let last = states.len() - 1;
                states[last] = next;
                true
            },
            Transition::Pop(count) => {
                if count >= states.len() {
                    return false;
                }
                let mut k: usize = 0;
                while k < count
                    invariant
                        k <= count,
                        count < pre.len(),
                        states@ == pre.subrange(0, pre.len() - k),
                    decreases count - k,
                {
                    proof {
                        assert(states@.len() == pre.len() - k);
                    }
                    let _ = states.pop();
                    proof {
                        assert(states@ =~= pre.subrange(0, pre.len() - (k + 1)));
                    }
                    k = k + 1;
                }
                true
            },
            Transition::Stay => true,
        }
    }
}

/// The running game: a FIFO of pending events and the stack of screens,
/// which is never empty.
pub struct Game {
    pub events: VecDeque<Event>,
    pub states: Vec<State>,
}

impl Game {
    /// The stack holds at least one screen and every screen is sound.
    pub open spec fn wf(self) -> bool {
        &&& self.states@.len() >= 1
        &&& forall|i: int| 0 <= i < self.states@.len() ==> (#[trigger] self.states@[i]).wf()
    }

    /// Queue one event for the next tick.
    pub fn push_event(&mut self, e: Event)
        ensures
            final(self).events@ == old(self).events@.push(e),
            final(self).states == old(self).states,
    {
        self.events.push_back(e);
    }

    /// Deliver at most one queued event to the topmost screen and apply
    /// the resulting transition.  Returns false iff the screen asked for a
    /// navigation the stack rejected.
    pub fn handle_event(&mut self) -> (ok: bool)
        requires
            old(self).wf(),
        ensures
            final(self).wf(),
            old(self).events@.len() == 0 ==> ok && final(self).events == old(self).events
                && final(self).states == old(self).states,
            old(self).events@.len() > 0 ==> final(self).events@ == old(self).events@.subrange(
                1,
                old(self).events@.len() as int,
            ) && exists|s1: State, t: Transition|
                #[trigger] state_handle_event_rel(
                    old(self).states@.last(),
                    old(self).events@[0],
                    s1,
                    t,
                ) && navigate_rel(
                    t,
                    old(self).states@.update(old(self).states@.len() - 1, s1),
                    final(self).states@,
                    ok,
                ),
    {
        if self.events.len() == 0 {
            return true;
        }
        let event = self.events.pop_front().unwrap();
        let last = self.states.len() - 1;
        let t = self.states[last].handle_event(event);
        let ghost s1 = self.states@[last as int];
        let ghost tg = t;
        let ok = t.navigate(&mut self.states);
        proof {
            assert(state_handle_event_rel(
                old(self).states@.last(),
                old(self).events@[0],
                s1,
                tg,
            ));
        }
        ok
    }

    /// Advance the topmost screen by one tick and apply its transition.
    pub fn update(&mut self) -> (ok: bool)
        requires
            old(self).wf(),
        ensures
            final(self).wf(),
            final(self).events == old(self).events,
            exists|s1: State, t: Transition|
                #[trigger] state_update_rel(old(self).states@.last(), s1, t) && navigate_rel(
                    t,
                    old(self).states@.update(old(self).states@.len() - 1, s1),
                    final(self).states@,
                    ok,
                ),
    {
        let last = self.states.len() - 1;
        let t = self.states[last].update();
        let ghost s1 = self.states@[last as int];
        let ghost tg = t;
        let ok = t.navigate(&mut self.states);
        proof {
            assert(state_update_rel(old(self).states@.last(), s1, tg));
        }
        ok
    }

    /// Draw the visible suffix of the stack: scan from the top for the
    /// nearest opaque screen, then draw from it upward so overlays land on
    /// top.  (Should every screen be transparent, drawing starts at the
    /// bottom.)
    pub fn render<R: Renderer>(&self, renderer: &mut R)
        requires
            self.wf(),
    {
        let mut start: usize = 0;
        let mut i: usize = 0;
        while i < self.states.len()
            invariant
                self.wf(),
                start <= i,
            decreases self.states@.len() - i,
        {
            if !self.states[i].render_parent() {
                start = i;
            }
            i = i + 1;
        }
        let mut j: usize = start;
        while j < self.states.len()
            invariant
                self.wf(),
            decreases self.states@.len() - j,
        {
            self.states[j].render(renderer);
            j = j + 1;
        }
    }
}

/// Create the game as it starts up: no pending events and the welcome
/// screen alone on the stack.
pub fn init() -> (g: Game)
    ensures
        g.wf(),
        g.events@.len() == 0,
        g.states@.len() == 1,
        g.states@[0] is Welcome,
{
    let mut states: Vec<State> = Vec::new();
    states.push(State::Welcome(WelcomeState {}));
    Game { events: VecDeque::new(), states }
}

} // verus!
