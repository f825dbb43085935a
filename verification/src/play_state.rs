//! One level of play: the board, the player, the two enemy kinds, and the
//! tick logic — bounce, one-tick-ahead collision prediction, movement,
//! capture triggering, and the death / next-level delay machine.

use vstd::prelude::*;

use crate::board::{
    count_grid, fill_post, in_grid, lemma_count_grid_bound, no_deep_sea, Board, Field, Grid,
};
use crate::game::{Event, State, Transition};
use crate::game_over_state::GameOverState;
use crate::geometry::{Direction, Position};
use crate::renderer::{draw_bytes, push_number, push_text, Color, Renderer};
use crate::rng::random_below;

verus! {

/// Board width of a standard level.
pub const BOARD_WIDTH: usize = 32;

/// Board height of a standard level.
pub const BOARD_HEIGHT: usize = 12;

/// Ticks of stillness after a death, before play resumes.
pub const DEATH_DELAY_TICKS: u32 = 20;

/// Ticks of stillness after clearing a level, before the next one starts.
pub const NEXT_LEVEL_DELAY_TICKS: u32 = 20;

/// The player's piece: a position and the direction it will move next tick.
#[derive(Clone, Copy, PartialEq, Eq, Structural, Debug)]
pub struct Player {
    pub position: Position,
    pub direction: Direction,
}

/// An enemy piece: a position and its current travel direction.  The two
/// enemy kinds share this shape and differ only in bounce policy.
#[derive(Clone, Copy, PartialEq, Eq, Structural, Debug)]
pub struct Enemy {
    pub position: Position,
    pub direction: Direction,
}

/// The delay sub-state of a level: the pause after a death, the pause
/// before the next level, or `Idle` for normal play.
#[derive(Clone, Copy, PartialEq, Eq, Structural, Debug)]
pub enum Delay {
    Death(u32),
    NextLevel(u32),
    Idle,
}

/// The projected cell blocks a sea enemy: it lies off the grid or holds
/// land.  (Off-grid cells act as walls; with the two-cell land border they
/// are never probed in ordinary play.)
pub open spec fn blocked_for_sea(b: Board, c: (int, int)) -> bool {
    !b.spec_within(c.0, c.1) || b.spec_cell(c.0, c.1) == Field::Land
}

/// The projected cell blocks a land enemy: it lies off the grid or holds
/// anything but land.
pub open spec fn blocked_for_land(b: Board, c: (int, int)) -> bool {
    !b.spec_within(c.0, c.1) || b.spec_cell(c.0, c.1) != Field::Land
}

/// A sea enemy's direction after bounce resolution: the horizontal probe
/// first, then the vertical probe, then the exact diagonal against the
/// already-flipped direction.  The order is significant for corner bounces.
pub open spec fn sea_bounce(b: Board, pos: Position, dir: Direction) -> Direction {
    let d1 = if blocked_for_sea(b, pos.spec_moved_to(dir.spec_horizontal())) {
        dir.spec_flipped_x()
    } else {
        dir
    };
    let d2 = if blocked_for_sea(b, pos.spec_moved_to(d1.spec_vertical())) {
        d1.spec_flipped_y()
    } else {
        d1
    };
    if blocked_for_sea(b, pos.spec_moved_to(d2)) {
        d2.spec_flipped_x().spec_flipped_y()
    } else {
        d2
    }
}

/// A land enemy's direction after bounce resolution, with the inverted
/// blocking condition: the land mass boundary is its wall on all sides,
/// the outer grid edge included.
pub open spec fn land_bounce(b: Board, pos: Position, dir: Direction) -> Direction {
    let d1 = if blocked_for_land(b, pos.spec_moved_to(dir.spec_horizontal())) {
        dir.spec_flipped_x()
    } else {
        dir
    };
    let d2 = if blocked_for_land(b, pos.spec_moved_to(d1.spec_vertical())) {
        d1.spec_flipped_y()
    } else {
        d1
    };
    if blocked_for_land(b, pos.spec_moved_to(d2)) {
        d2.spec_flipped_x().spec_flipped_y()
    } else {
        d2
    }
}

/// Where a piece at `p` heading `d` stands after one tick: one step along
/// `d` if that stays on the grid, else unmoved (the grid edge is a wall).
pub open spec fn stepped(b: Board, p: Position, d: Direction) -> Position {
    let c = p.spec_moved_to(d);
    if b.spec_within(c.0, c.1) {
        Position { x: c.0 as i16, y: c.1 as i16 }
    } else {
        p
    }
}

/// The positions of a list of enemies, in order.
pub open spec fn positions_of(es: Seq<Enemy>) -> Seq<Position> {
    es.map_values(|e: Enemy| e.position)
}

/// The cell `c` holds the player's trail.
pub open spec fn sand_at(b: Board, c: (int, int)) -> bool {
    b.spec_within(c.0, c.1) && b.spec_cell(c.0, c.1) == Field::Sand
}

/// The player's projected next cell is its own trail.
pub open spec fn player_hits_own_trail(b: Board, p: Player) -> bool {
    sand_at(b, p.position.spec_moved_to(p.direction))
}

/// One of the enemy's three projected cells — full diagonal, horizontal
/// only, vertical only — lands on the player, or (for sea enemies) on the
/// player's trail.
pub open spec fn enemy_threatens(b: Board, pp: Position, e: Enemy, against_sand: bool) -> bool {
    let cd = e.position.spec_moved_to(e.direction);
    let ch = e.position.spec_moved_to(e.direction.spec_horizontal());
    let cv = e.position.spec_moved_to(e.direction.spec_vertical());
    let pc = (pp.x as int, pp.y as int);
    ||| cd == pc
    ||| ch == pc
    ||| cv == pc
    ||| (against_sand && (sand_at(b, cd) || sand_at(b, ch) || sand_at(b, cv)))
}

/// The one-tick-ahead collision predicate, evaluated on bounce-adjusted
/// directions before any piece has moved.
pub open spec fn collision_found(
    b: Board,
    player: Player,
    seas: Seq<Enemy>,
    lands: Seq<Enemy>,
) -> bool {
    ||| player_hits_own_trail(b, player)
    ||| exists|i: int|
        0 <= i < seas.len() && enemy_threatens(b, player.position, #[trigger] seas[i], true)
    ||| exists|i: int|
        0 <= i < lands.len() && enemy_threatens(b, player.position, #[trigger] lands[i], false)
}

/// The grid of `b` with the cell under `p` marked as trail.
pub open spec fn sand_marked(b: Board, p: Position) -> Grid {
    b.grid().update(p.y as int, b.grid()[p.y as int].update(p.x as int, Field::Sand))
}

/// Score addition, saturating at the counter's ceiling.
pub open spec fn add_score(s: u32, gain: int) -> int {
    if s + gain > u32::MAX {
        u32::MAX as int
    } else {
        s + gain
    }
}

/// The player's spawn: the middle of the top border row, at rest.
pub open spec fn spawn_player(b: Board) -> Player {
    Player {
        position: Position { x: (b.width / 2) as i16, y: 0 },
        direction: Direction { dx: 0, dy: 0 },
    }
}

/// Where a fresh land enemy stands: the middle of the lower border band.
pub open spec fn land_enemy_spawn(b: Board) -> Position {
    Position { x: (b.width / 2) as i16, y: (b.height - 2) as i16 }
}

/// How the player's move transforms board, player and score, given the
/// capture sources to use if the trail closes.  Off-grid destinations stop
/// the player; stepping off sea onto land triggers the capture and banks
/// the gained territory as score.
pub open spec fn player_step_rel(
    b0: Board,
    p0: Player,
    sources: Seq<Position>,
    s0: u32,
    b1: Board,
    p1: Player,
    s1: u32,
) -> bool {
    let c = p0.position.spec_moved_to(p0.direction);
    &&& b1.width == b0.width
    &&& b1.height == b0.height
    &&& if !b0.spec_within(c.0, c.1) {
        &&& p1.position == p0.position
        &&& p1.direction == (Direction { dx: 0, dy: 0 })
        &&& b1.grid() == b0.grid()
        &&& b1.remaining_sea == b0.remaining_sea
        &&& s1 == s0
    } else {
        let on_sea = b0.spec_cell(p0.position.x as int, p0.position.y as int) == Field::Sea;
        let capture = on_sea && b0.spec_cell(c.0, c.1) == Field::Land;
        &&& p1.position == (Position { x: c.0 as i16, y: c.1 as i16 })
        &&& p1.direction == (if capture {
            Direction { dx: 0, dy: 0 }
        } else {
            p0.direction
        })
        &&& if !on_sea {
            &&& b1.grid() == b0.grid()
            &&& b1.remaining_sea == b0.remaining_sea
            &&& s1 == s0
        } else if !capture {
            &&& b1.grid() == sand_marked(b0, p0.position)
            &&& b1.remaining_sea == b0.remaining_sea
            &&& s1 == s0
        } else {
            &&& fill_post(sand_marked(b0, p0.position), sources, b1.grid())
            &&& b1.remaining_sea == count_grid(b1.grid(), Field::Sea)
            &&& s1 == add_score(
                s0,
                count_grid(b1.grid(), Field::Land) - count_grid(
                    sand_marked(b0, p0.position),
                    Field::Land,
                ),
            )
        }
    }
}

/// One level of play.
pub struct PlayState {
    pub player: Player,
    pub sea_enemies: Vec<Enemy>,
    pub land_enemies: Vec<Enemy>,
    pub board: Board,
    pub level: u32,
    pub score: u32,
    pub lives: u32,
    pub delay: Delay,
}

impl PlayState {
    /// Everything a tick relies on: a well-formed board holding no
    /// in-progress flood marks, and every piece on the grid with a legal
    /// direction.
    pub open spec fn wf(self) -> bool {
        &&& self.board.wf()
        &&& self.board.remaining_sea <= 900000000
        &&& no_deep_sea(self.board.grid())
        &&& self.board.spec_within(self.player.position.x as int, self.player.position.y as int)
        &&& self.player.direction.valid()
        &&& forall|i: int|
            0 <= i < self.sea_enemies@.len() ==> self.board.spec_within(
                (#[trigger] self.sea_enemies@[i]).position.x as int,
                self.sea_enemies@[i].position.y as int,
            ) && self.sea_enemies@[i].direction.valid()
        &&& forall|i: int|
            0 <= i < self.land_enemies@.len() ==> self.board.spec_within(
                (#[trigger] self.land_enemies@[i]).position.x as int,
                self.land_enemies@[i].position.y as int,
            ) && self.land_enemies@[i].direction.valid()
    }

    /// The sea enemies with their directions bounce-adjusted against the
    /// current board, positions untouched.
    pub open spec fn bounced_seas(self) -> Seq<Enemy> {
        self.sea_enemies@.map_values(
            |e: Enemy|
                Enemy {
                    position: e.position,
                    direction: sea_bounce(self.board, e.position, e.direction),
                },
        )
    }

    /// The land enemies with their directions bounce-adjusted against the
    /// current board, positions untouched.
    pub open spec fn bounced_lands(self) -> Seq<Enemy> {
        self.land_enemies@.map_values(
            |e: Enemy|
                Enemy {
                    position: e.position,
                    direction: land_bounce(self.board, e.position, e.direction),
                },
        )
    }

    /// The tick ahead predicts a collision, once both enemy kinds have
    /// bounced.
    pub open spec fn tick_collision(self) -> bool {
        collision_found(self.board, self.player, self.bounced_seas(), self.bounced_lands())
    }
}

/// Probe one cell for a sea enemy: blocked iff off the grid or land.
fn probe_blocks_sea(board: &Board, pos: &Position, d: &Direction) -> (r: bool)
    requires
        board.wf(),
        board.spec_within(pos.x as int, pos.y as int),
        d.valid(),
    ensures
        r == blocked_for_sea(*board, pos.spec_moved_to(*d)),
{
    let q = pos.moved_to(d);
    if !board.within_bounds(&q) {
        true
    } else {
        board.get_pos(&q) == Field::Land
    }
}

/// Probe one cell for a land enemy: blocked iff off the grid or not land.
fn probe_blocks_land(board: &Board, pos: &Position, d: &Direction) -> (r: bool)
    requires
        board.wf(),
        board.spec_within(pos.x as int, pos.y as int),
        d.valid(),
    ensures
        r == blocked_for_land(*board, pos.spec_moved_to(*d)),
{
    let q = pos.moved_to(d);
    if !board.within_bounds(&q) {
        true
    } else {
        board.get_pos(&q) != Field::Land
    }
}

/// Resolve one sea enemy's bounce against the board.
fn sea_bounce_dir(board: &Board, e: &Enemy) -> (d: Direction)
    requires
        board.wf(),
        board.spec_within(e.position.x as int, e.position.y as int),
        e.direction.valid(),
    ensures
        d == sea_bounce(*board, e.position, e.direction),
        d.valid(),
{
    let mut d = e.direction;
    if probe_blocks_sea(board, &e.position, &d.horizontal()) {
        d = d.flipped_x();
    }
    if probe_blocks_sea(board, &e.position, &d.vertical()) {
        d = d.flipped_y();
    }
    if probe_blocks_sea(board, &e.position, &d) {
        d = d.flipped_x().flipped_y();
    }
    d
}

/// Resolve one land enemy's bounce against the board.
fn land_bounce_dir(board: &Board, e: &Enemy) -> (d: Direction)
    requires
        board.wf(),
        board.spec_within(e.position.x as int, e.position.y as int),
        e.direction.valid(),
    ensures
        d == land_bounce(*board, e.position, e.direction),
        d.valid(),
{
    let mut d = e.direction;
    if probe_blocks_land(board, &e.position, &d.horizontal()) {
        d = d.flipped_x();
    }
    if probe_blocks_land(board, &e.position, &d.vertical()) {
        d = d.flipped_y();
    }
    if probe_blocks_land(board, &e.position, &d) {
        d = d.flipped_x().flipped_y();
    }
    d
}

impl Enemy {
    /// The three cells where this enemy can strike next tick: the full
    /// diagonal step, the horizontal component alone, and the vertical
    /// component alone.
    pub fn hit_positions(&self) -> (ps: Vec<Position>)
        requires
            i16::MIN < self.position.x < i16::MAX,
            i16::MIN < self.position.y < i16::MAX,
            self.direction.valid(),
        ensures
            ps@.len() == 3,
            ps@[0].x == self.position.x + self.direction.dx && ps@[0].y == self.position.y
                + self.direction.dy,
            ps@[1].x == self.position.x + self.direction.dx && ps@[1].y == self.position.y,
            ps@[2].x == self.position.x && ps@[2].y == self.position.y + self.direction.dy,
    {
        let mut ps: Vec<Position> = Vec::new();
        ps.push(self.position.moved_to(&self.direction));
        ps.push(self.position.moved_to(&self.direction.horizontal()));
        ps.push(self.position.moved_to(&self.direction.vertical()));
        ps
    }

    /// Does any of the three projected cells land on the player, or — when
    /// `against_sand` is set — on the player's trail?
    pub fn hit_check(&self, board: &Board, player_pos: &Position, against_sand: bool) -> (r: bool)
        requires
            board.wf(),
            board.spec_within(self.position.x as int, self.position.y as int),
            self.direction.valid(),
        ensures
            r == enemy_threatens(*board, *player_pos, *self, against_sand),
    {
        let ps = self.hit_positions();
        let p0 = ps[0];
        let p1 = ps[1];
        let p2 = ps[2];
        if p0 == *player_pos || p1 == *player_pos || p2 == *player_pos {
            return true;
        }
        if against_sand {
            let s0 = board.within_bounds(&p0) && board.get_pos(&p0) == Field::Sand;
            let s1 = board.within_bounds(&p1) && board.get_pos(&p1) == Field::Sand;
            let s2 = board.within_bounds(&p2) && board.get_pos(&p2) == Field::Sand;
            if s0 || s1 || s2 {
                return true;
            }
        }
        false
    }
}

/// The diagonal direction with index `k`, in the fixed order north-east,
/// north-west, south-east, south-west.
pub open spec fn spec_diagonal(k: int) -> Direction {
    if k == 0 {
        Direction { dx: 1i16, dy: -1i16 }
    } else if k == 1 {
        Direction { dx: -1i16, dy: -1i16 }
    } else if k == 2 {
        Direction { dx: 1i16, dy: 1i16 }
    } else {
        Direction { dx: -1i16, dy: 1i16 }
    }
}

/// Map a drawn index to its diagonal direction.
pub fn diagonal_of(k: usize) -> (d: Direction)
    requires
        k < 4,
    ensures
        d == spec_diagonal(k as int),
        d.valid(),
        d.is_diagonal(),
{
    if k == 0 {
        Direction { dx: 1, dy: -1 }
    } else if k == 1 {
        Direction { dx: -1, dy: -1 }
    } else if k == 2 {
        Direction { dx: 1, dy: 1 }
    } else {
        Direction { dx: -1, dy: 1 }
    }
}

/// One of the four diagonal directions, drawn at random.
pub fn random_diagonal() -> (d: Direction)
    ensures
        d.valid(),
        d.is_diagonal(),
{
    diagonal_of(random_below(4))
}

impl PlayState {
    /// Bounce every sea enemy against the board, in list order; positions
    /// stay put, directions become their bounce-adjusted values.
    pub fn bounce_sea_enemies(&mut self)
        requires
            old(self).wf(),
        ensures
            final(self).wf(),
            final(self).board == old(self).board,
            final(self).player == old(self).player,
            final(self).land_enemies == old(self).land_enemies,
            final(self).level == old(self).level,
            final(self).score == old(self).score,
            final(self).lives == old(self).lives,
            final(self).delay == old(self).delay,
            final(self).sea_enemies@ == old(self).bounced_seas(),
    {
        let ghost st0 = *self;
        let mut i: usize = 0;
        while i < self.sea_enemies.len()
            invariant
                self.wf(),
                self.board == st0.board,
                self.player == st0.player,
                self.land_enemies == st0.land_enemies,
                self.level == st0.level,
                self.score == st0.score,
                self.lives == st0.lives,
                self.delay == st0.delay,
                i <= self.sea_enemies@.len(),
                self.sea_enemies@.len() == st0.sea_enemies@.len(),
                forall|j: int| 0 <= j < i ==> #[trigger] self.sea_enemies@[j] == st0.bounced_seas()[j],
                forall|j: int|
                    i <= j < self.sea_enemies@.len() ==> #[trigger] self.sea_enemies@[j]
                        == st0.sea_enemies@[j],
            decreases self.sea_enemies@.len() - i,
        {
            let e = self.sea_enemies[i];
            let d = sea_bounce_dir(&self.board, &e);
            self.sea_enemies[i] = Enemy { position: e.position, direction: d };
            i = i + 1;
        }
        proof {
            assert(self.sea_enemies@ =~= st0.bounced_seas());
        }
    }

    /// Bounce every land enemy against the board, in list order.
    pub fn bounce_land_enemies(&mut self)
        requires
            old(self).wf(),
        ensures
            final(self).wf(),
            final(self).board == old(self).board,
            final(self).player == old(self).player,
            final(self).sea_enemies == old(self).sea_enemies,
            final(self).level == old(self).level,
            final(self).score == old(self).score,
            final(self).lives == old(self).lives,
            final(self).delay == old(self).delay,
            final(self).land_enemies@ == old(self).bounced_lands(),
    {
        let ghost st0 = *self;
        let mut i: usize = 0;
        while i < self.land_enemies.len()
            invariant
                self.wf(),
                self.board == st0.board,
                self.player == st0.player,
                self.sea_enemies == st0.sea_enemies,
                self.level == st0.level,
                self.score == st0.score,
                self.lives == st0.lives,
                self.delay == st0.delay,
                i <= self.land_enemies@.len(),
                self.land_enemies@.len() == st0.land_enemies@.len(),
                forall|j: int|
                    0 <= j < i ==> #[trigger] self.land_enemies@[j] == st0.bounced_lands()[j],
                forall|j: int|
                    i <= j < self.land_enemies@.len() ==> #[trigger] self.land_enemies@[j]
                        == st0.land_enemies@[j],
            decreases self.land_enemies@.len() - i,
        {
            let e = self.land_enemies[i];
            let d = land_bounce_dir(&self.board, &e);
            self.land_enemies[i] = Enemy { position: e.position, direction: d };
            i = i + 1;
        }
        proof {
            assert(self.land_enemies@ =~= st0.bounced_lands());
        }
    }

    /// Move every sea enemy one step along its direction; the grid edge is
    /// a wall (never met in ordinary play, where sea keeps its land border).
    pub fn move_sea_enemies(&mut self)
        requires
            old(self).wf(),
        ensures
            final(self).wf(),
            final(self).board == old(self).board,
            final(self).player == old(self).player,
            final(self).land_enemies == old(self).land_enemies,
            final(self).level == old(self).level,
            final(self).score == old(self).score,
            final(self).lives == old(self).lives,
            final(self).delay == old(self).delay,
            final(self).sea_enemies@.len() == old(self).sea_enemies@.len(),
            forall|i: int|
                0 <= i < old(self).sea_enemies@.len() ==> #[trigger] final(self).sea_enemies@[i]
                    == (Enemy {
                    position: stepped(
                        old(self).board,
                        old(self).sea_enemies@[i].position,
                        old(self).sea_enemies@[i].direction,
                    ),
                    direction: old(self).sea_enemies@[i].direction,
                }),
    {
        let ghost st0 = *self;
        let mut i: usize = 0;
        while i < self.sea_enemies.len()
            invariant
                self.wf(),
                self.board == st0.board,
                self.player == st0.player,
                self.land_enemies == st0.land_enemies,
                self.level == st0.level,
                self.score == st0.score,
                self.lives == st0.lives,
                self.delay == st0.delay,
                i <= self.sea_enemies@.len(),
                self.sea_enemies@.len() == st0.sea_enemies@.len(),
                forall|j: int|
                    0 <= j < i ==> #[trigger] self.sea_enemies@[j] == (Enemy {
                        position: stepped(
                            st0.board,
                            st0.sea_enemies@[j].position,
                            st0.sea_enemies@[j].direction,
                        ),
                        direction: st0.sea_enemies@[j].direction,
                    }),
                forall|j: int|
                    i <= j < self.sea_enemies@.len() ==> #[trigger] self.sea_enemies@[j]
                        == st0.sea_enemies@[j],
            decreases self.sea_enemies@.len() - i,
        {
            let e = self.sea_enemies[i];
            let np = e.position.moved_to(&e.direction);
            if self.board.within_bounds(&np) {
                self.sea_enemies[i] = Enemy { position: np, direction: e.direction };
            }
            i = i + 1;
        }
    }

    /// Move every land enemy one step along its direction, with the same
    /// wall rule.
    pub fn move_land_enemies(&mut self)
        requires
            old(self).wf(),
        ensures
            final(self).wf(),
            final(self).board == old(self).board,
            final(self).player == old(self).player,
            final(self).sea_enemies == old(self).sea_enemies,
            final(self).level == old(self).level,
            final(self).score == old(self).score,
            final(self).lives == old(self).lives,
            final(self).delay == old(self).delay,
            final(self).land_enemies@.len() == old(self).land_enemies@.len(),
            forall|i: int|
                0 <= i < old(self).land_enemies@.len() ==> #[trigger] final(self).land_enemies@[i]
                    == (Enemy {
                    position: stepped(
                        old(self).board,
                        old(self).land_enemies@[i].position,
                        old(self).land_enemies@[i].direction,
                    ),
                    direction: old(self).land_enemies@[i].direction,
                }),
    {
        let ghost st0 = *self;
        let mut i: usize = 0;
        while i < self.land_enemies.len()
            invariant
                self.wf(),
                self.board == st0.board,
                self.player == st0.player,
                self.sea_enemies == st0.sea_enemies,
                self.level == st0.level,
                self.score == st0.score,
                self.lives == st0.lives,
                self.delay == st0.delay,
                i <= self.land_enemies@.len(),
                self.land_enemies@.len() == st0.land_enemies@.len(),
                forall|j: int|
                    0 <= j < i ==> #[trigger] self.land_enemies@[j] == (Enemy {
                        position: stepped(
                            st0.board,
                            st0.land_enemies@[j].position,
                            st0.land_enemies@[j].direction,
                        ),
                        direction: st0.land_enemies@[j].direction,
                    }),
                forall|j: int|
                    i <= j < self.land_enemies@.len() ==> #[trigger] self.land_enemies@[j]
                        == st0.land_enemies@[j],
            decreases self.land_enemies@.len() - i,
        {
            let e = self.land_enemies[i];
            let np = e.position.moved_to(&e.direction);
            if self.board.within_bounds(&np) {
                self.land_enemies[i] = Enemy { position: np, direction: e.direction };
            }
            i = i + 1;
        }
    }

    /// The one-tick-ahead collision check, run on the current (already
    /// bounce-adjusted) directions before anything moves.
    pub fn find_collision(&self) -> (r: bool)
        requires
            self.wf(),
        ensures
            r == collision_found(self.board, self.player, self.sea_enemies@, self.land_enemies@),
    {
        let pos = self.player.position.moved_to(&self.player.direction);
        if self.board.within_bounds(&pos) && self.board.get_pos(&pos) == Field::Sand {
            return true;
        }
        let mut i: usize = 0;
        while i < self.sea_enemies.len()
            invariant
                self.wf(),
                i <= self.sea_enemies@.len(),
                forall|j: int|
                    0 <= j < i ==> !enemy_threatens(
                        self.board,
                        self.player.position,
                        #[trigger] self.sea_enemies@[j],
                        true,
                    ),
            decreases self.sea_enemies@.len() - i,
        {
            let e = self.sea_enemies[i];
            if e.hit_check(&self.board, &self.player.position, true) {
                return true;
            }
            i = i + 1;
        }
        let mut i: usize = 0;
        while i < self.land_enemies.len()
            invariant
                self.wf(),
                i <= self.land_enemies@.len(),
                forall|j: int|
                    0 <= j < i ==> !enemy_threatens(
                        self.board,
                        self.player.position,
                        #[trigger] self.land_enemies@[j],
                        false,
                    ),
            decreases self.land_enemies@.len() - i,
        {
            let e = self.land_enemies[i];
            if e.hit_check(&self.board, &self.player.position, false) {
                return true;
            }
            i = i + 1;
        }
        false
    }

    /// Move the player one step.  At the wall the player stops; crossing
    /// sea leaves trail behind; stepping back onto land closes the trail
    /// and triggers the capture, whose gained cells are banked as score.
    pub fn move_player(&mut self)
        requires
            old(self).wf(),
        ensures
            final(self).wf(),
            final(self).sea_enemies == old(self).sea_enemies,
            final(self).land_enemies == old(self).land_enemies,
            final(self).level == old(self).level,
            final(self).lives == old(self).lives,
            final(self).delay == old(self).delay,
            player_step_rel(
                old(self).board,
                old(self).player,
                positions_of(old(self).sea_enemies@),
                old(self).score,
                final(self).board,
                final(self).player,
                final(self).score,
            ),
    {
        let ghost st0 = *self;
        let pos = self.player.position.moved_to(&self.player.direction);
        if !self.board.within_bounds(&pos) {
            self.player.direction = Direction::none();
        } else {
            if self.board.get_pos(&self.player.position) == Field::Sea {
                let px = self.player.position.x as usize;
                let py = self.player.position.y as usize;
                self.board.set(px, py, Field::Sand);
                proof {
                    assert(self.board.grid() == sand_marked(st0.board, st0.player.position));
                    assert(no_deep_sea(self.board.grid()));
                }
                if self.board.get_pos(&pos) == Field::Land {
                    self.player.direction = Direction::none();
                    let mut sources: Vec<Position> = Vec::new();
                    let mut i: usize = 0;
                    while i < self.sea_enemies.len()
                        invariant
                            i <= self.sea_enemies@.len(),
                            self.sea_enemies == st0.sea_enemies,
                            sources@.len() == i,
                            forall|j: int|
                                0 <= j < i ==> #[trigger] sources@[j]
                                    == st0.sea_enemies@[j].position,
                        decreases self.sea_enemies@.len() - i,
                    {
                        let e = self.sea_enemies[i];
                        sources.push(e.position);
                        i = i + 1;
                    }
                    proof {
                        assert(sources@ =~= positions_of(st0.sea_enemies@));
                    }
                    let gain = self.board.fill(&sources);
                    if gain > (u32::MAX - self.score) as usize {
                        self.score = u32::MAX;
                    } else {
                        self.score = self.score + gain as u32;
                    }
                    proof {
                        lemma_count_grid_bound(
                            self.board.grid(),
                            self.board.width as int,
                            self.board.height as int,
                            Field::Sea,
                        );
                        assert(self.board.height * self.board.width <= 900000000)
                            by (nonlinear_arith)
                            requires
                                self.board.height <= 30000,
                                self.board.width <= 30000,
                                0 <= self.board.height,
                                0 <= self.board.width,
                        ;
                        crate::board::lemma_count_grid_nonneg(self.board.grid(), Field::Sea);
                    }
                }
            }
            self.player.position = pos;
        }
    }

    /// After a death: discard the unfinished trail, put the player back at
    /// its spawn, and respawn the land enemies.  Sea enemies, score and
    /// lives are preserved.
    pub fn reset(&mut self)
        requires
            old(self).wf(),
        ensures
            final(self).wf(),
            final(self).board.width == old(self).board.width,
            final(self).board.height == old(self).board.height,
            final(self).board.remaining_sea == old(self).board.remaining_sea,
            forall|x: int, y: int|
                in_grid(old(self).board.grid(), x, y) ==> #[trigger] final(self).board.grid()[y][x]
                    == (if old(self).board.grid()[y][x] == Field::Sand {
                    Field::Sea
                } else {
                    old(self).board.grid()[y][x]
                }),
            final(self).player == spawn_player(final(self).board),
            final(self).land_enemies@.len() == 1,
            final(self).land_enemies@[0].position == land_enemy_spawn(final(self).board),
            final(self).land_enemies@[0].direction.is_diagonal(),
            final(self).sea_enemies == old(self).sea_enemies,
            final(self).level == old(self).level,
            final(self).score == old(self).score,
            final(self).lives == old(self).lives,
            final(self).delay == old(self).delay,
    {
        self.board.clean();
        let half = self.board.width / 2;
        self.player = Player {
            position: Position { x: half as i16, y: 0 },
            direction: Direction::none(),
        };
        let d = random_diagonal();
        let mut lands: Vec<Enemy> = Vec::new();
        lands.push(
            Enemy {
                position: Position { x: half as i16, y: (self.board.height - 2) as i16 },
                direction: d,
            },
        );
        self.land_enemies = lands;
    }

    /// Build a fresh level: a standard-size board, the player at its spawn
    /// at rest, one land enemy at its spawn, and one sea enemy per level
    /// placed on a random sea cell with a random diagonal heading.
    pub fn new(level: u32, score: u32, lives: u32) -> (st: PlayState)
        ensures
            st.wf(),
            st.level == level,
            st.score == score,
            st.lives == lives,
            st.delay == Delay::Idle,
            st.board.width == BOARD_WIDTH,
            st.board.height == BOARD_HEIGHT,
            st.board.remaining_sea == st.board.spec_interior_cells(),
            forall|x: int, y: int|
                in_grid(st.board.grid(), x, y) ==> #[trigger] st.board.grid()[y][x]
                    == crate::board::fresh_cell(BOARD_WIDTH as int, BOARD_HEIGHT as int, x, y),
            st.player == spawn_player(st.board),
            st.land_enemies@.len() == 1,
            st.land_enemies@[0].position == land_enemy_spawn(st.board),
            st.land_enemies@[0].direction.is_diagonal(),
            st.sea_enemies@.len() == level as int,
            forall|i: int|
                0 <= i < level as int ==> st.board.spec_cell(
                    (#[trigger] st.sea_enemies@[i]).position.x as int,
                    st.sea_enemies@[i].position.y as int,
                ) == Field::Sea && st.sea_enemies@[i].direction.is_diagonal(),
    {
        let board = Board::new(BOARD_WIDTH, BOARD_HEIGHT);
        let mut sea_enemies: Vec<Enemy> = Vec::new();
        let mut i: u32 = 0;
        while i < level
            invariant
                board.wf(),
                board.width == BOARD_WIDTH,
                board.height == BOARD_HEIGHT,
                forall|x: int, y: int|
                    in_grid(board.grid(), x, y) ==> #[trigger] board.grid()[y][x]
                        == crate::board::fresh_cell(BOARD_WIDTH as int, BOARD_HEIGHT as int, x, y),
                i <= level,
                sea_enemies@.len() == i as int,
                forall|j: int|
                    0 <= j < i as int ==> board.spec_within(
                        (#[trigger] sea_enemies@[j]).position.x as int,
                        sea_enemies@[j].position.y as int,
                    ) && board.spec_cell(
                        sea_enemies@[j].position.x as int,
                        sea_enemies@[j].position.y as int,
                    ) == Field::Sea && sea_enemies@[j].direction.is_diagonal()
                        && sea_enemies@[j].direction.valid(),
            decreases level - i,
        {
            let pos = match board.random_position_of_type(Field::Sea) {
                Ok(p) => p,
                Err(_) => {
                    // a fresh board always holds sea just inside the border
                    let fallback = Position { x: 2, y: 2 };
                    proof {
                        assert(in_grid(board.grid(), 2, 2));
                        assert(board.spec_cell(2, 2) == Field::Sea);
                    }
                    fallback
                },
            };
            sea_enemies.push(Enemy { position: pos, direction: random_diagonal() });
            i = i + 1;
        }
        let half = BOARD_WIDTH / 2;
        let mut land_enemies: Vec<Enemy> = Vec::new();
        land_enemies.push(
            Enemy {
                position: Position { x: half as i16, y: (BOARD_HEIGHT - 2) as i16 },
                direction: random_diagonal(),
            },
        );
        PlayState {
            player: Player {
                position: Position { x: half as i16, y: 0 },
                direction: Direction::none(),
            },
            sea_enemies,
            land_enemies,
            board,
            level,
            score,
            lives,
            delay: Delay::Idle,
        }
    }
}

/// Every field but `delay` is unchanged.
pub open spec fn unchanged_but_delay(pre: PlayState, post: PlayState) -> bool {
    &&& post.board == pre.board
    &&& post.player == pre.player
    &&& post.sea_enemies == pre.sea_enemies
    &&& post.land_enemies == pre.land_enemies
    &&& post.level == pre.level
    &&& post.score == pre.score
    &&& post.lives == pre.lives
}

/// The level counter of the following level, saturating at the counter's
/// ceiling.
pub open spec fn spec_next_level(l: u32) -> int {
    if l < u32::MAX {
        l + 1
    } else {
        l as int
    }
}

/// A tick that predicted a collision: every piece stays where it was and
/// the board is untouched — only directions (already bounce-adjusted),
/// `lives` and `delay` change.  Losing the last life pushes the game-over
/// overlay instead of starting a death delay, leaving this screen frozen
/// beneath it.
pub open spec fn collision_tick_rel(pre: PlayState, post: PlayState, t: Transition) -> bool {
    &&& post.board == pre.board
    &&& post.player == pre.player
    &&& post.sea_enemies@ == pre.bounced_seas()
    &&& post.land_enemies@ == pre.bounced_lands()
    &&& post.level == pre.level
    &&& post.score == pre.score
    &&& if pre.lives <= 1 {
        &&& post.lives == 0
        &&& post.delay == pre.delay
        &&& t matches Transition::Push(s) && s is GameOver
    } else {
        &&& post.lives == pre.lives - 1
        &&& post.delay == Delay::Death(DEATH_DELAY_TICKS)
        &&& t == Transition::Stay
    }
}

/// A tick with no predicted collision: directions bounce, the player moves
/// (possibly capturing), every enemy steps along its bounced direction,
/// and a board filled past the threshold starts the next-level delay.
pub open spec fn normal_tick_rel(pre: PlayState, post: PlayState, t: Transition) -> bool {
    &&& t == Transition::Stay
    &&& post.level == pre.level
    &&& post.lives == pre.lives
    &&& player_step_rel(
        pre.board,
        pre.player,
        positions_of(pre.sea_enemies@),
        pre.score,
        post.board,
        post.player,
        post.score,
    )
    &&& post.sea_enemies@.len() == pre.sea_enemies@.len()
    &&& forall|i: int|
        0 <= i < pre.sea_enemies@.len() ==> #[trigger] post.sea_enemies@[i] == (Enemy {
            position: stepped(
                pre.board,
                pre.sea_enemies@[i].position,
                sea_bounce(pre.board, pre.sea_enemies@[i].position, pre.sea_enemies@[i].direction),
            ),
            direction: sea_bounce(
                pre.board,
                pre.sea_enemies@[i].position,
                pre.sea_enemies@[i].direction,
            ),
        })
    &&& post.land_enemies@.len() == pre.land_enemies@.len()
    &&& forall|i: int|
        0 <= i < pre.land_enemies@.len() ==> #[trigger] post.land_enemies@[i] == (Enemy {
            position: stepped(
                pre.board,
                pre.land_enemies@[i].position,
                land_bounce(
                    pre.board,
                    pre.land_enemies@[i].position,
                    pre.land_enemies@[i].direction,
                ),
            ),
            direction: land_bounce(
                pre.board,
                pre.land_enemies@[i].position,
                pre.land_enemies@[i].direction,
            ),
        })
    &&& post.delay == (if 5 * post.board.remaining_sea < 4 * post.board.spec_interior_cells() {
        Delay::NextLevel(NEXT_LEVEL_DELAY_TICKS)
    } else {
        Delay::Idle
    })
}

/// The tick that ends a death delay: the trail is erased, the player is
/// back at its spawn, the land enemies are respawned; sea enemies, score
/// and lives carry over and normal play resumes.
pub open spec fn death_reset_rel(pre: PlayState, post: PlayState) -> bool {
    &&& post.board.width == pre.board.width
    &&& post.board.height == pre.board.height
    &&& post.board.remaining_sea == pre.board.remaining_sea
    &&& forall|x: int, y: int|
        in_grid(pre.board.grid(), x, y) ==> #[trigger] post.board.grid()[y][x] == (
        if pre.board.grid()[y][x] == Field::Sand {
            Field::Sea
        } else {
            pre.board.grid()[y][x]
        })
    &&& post.player == spawn_player(post.board)
    &&& post.land_enemies@.len() == 1
    &&& post.land_enemies@[0].position == land_enemy_spawn(post.board)
    &&& post.land_enemies@[0].direction.is_diagonal()
    &&& post.sea_enemies == pre.sea_enemies
    &&& post.level == pre.level
    &&& post.score == pre.score
    &&& post.lives == pre.lives
}

/// How one tick transforms a play screen, for each delay sub-state.
pub open spec fn play_update_rel(pre: PlayState, post: PlayState, t: Transition) -> bool {
    match pre.delay {
        Delay::Death(c) => if c == 0 {
            &&& death_reset_rel(pre, post)
            &&& post.delay == Delay::Idle
            &&& t == Transition::Stay
        } else {
            &&& unchanged_but_delay(pre, post)
            &&& post.delay == Delay::Death((c - 1) as u32)
            &&& t == Transition::Stay
        },
        Delay::NextLevel(c) => if c == 0 {
            &&& unchanged_but_delay(pre, post)
            &&& post.delay == pre.delay
            &&& t matches Transition::Replace(s) && s matches State::Play(p2) && p2.wf()
                && p2.level == spec_next_level(pre.level) && p2.score == pre.score && p2.lives
                == pre.lives && p2.delay == Delay::Idle
        } else {
            &&& unchanged_but_delay(pre, post)
            &&& post.delay == Delay::NextLevel((c - 1) as u32)
            &&& t == Transition::Stay
        },
        Delay::Idle => if pre.tick_collision() {
            collision_tick_rel(pre, post, t)
        } else {
            normal_tick_rel(pre, post, t)
        },
    }
}

/// How one delivered event transforms a play screen: a directional event
/// sets the player's intended direction; everything else is ignored.
pub open spec fn play_handle_event_rel(
    pre: PlayState,
    ev: Event,
    post: PlayState,
    t: Transition,
) -> bool {
    &&& t == Transition::Stay
    &&& post.board == pre.board
    &&& post.sea_enemies == pre.sea_enemies
    &&& post.land_enemies == pre.land_enemies
    &&& post.level == pre.level
    &&& post.score == pre.score
    &&& post.lives == pre.lives
    &&& post.delay == pre.delay
    &&& post.player.position == pre.player.position
    &&& post.player.direction == (match ev {
        Event::Up => Direction { dx: 0i16, dy: -1i16 },
        Event::Down => Direction { dx: 0i16, dy: 1i16 },
        Event::Left => Direction { dx: -1i16, dy: 0i16 },
        Event::Right => Direction { dx: 1i16, dy: 0i16 },
        _ => pre.player.direction,
    })
}

impl PlayState {
    /// One tick of play.  While a delay counts down nothing moves; at its
    /// end the level resets or advances.  In normal play the order is
    /// fixed: bounce, predict collisions, and only if the tick is safe
    /// move the pieces and check the capture threshold.
    pub fn update(&mut self) -> (t: Transition)
        requires
            old(self).wf(),
        ensures
            final(self).wf(),
            play_update_rel(*old(self), *final(self), t),
    {
        match self.delay {
            Delay::Death(c) => {
                if c == 0 {
                    self.delay = Delay::Idle;
                    self.reset();
                    return Transition::Stay;
                } else {
                    self.delay = Delay::Death(c - 1);
                    return Transition::Stay;
                }
            },
            Delay::NextLevel(c) => {
                if c == 0 {
                    let nl = if self.level < u32::MAX {
                        self.level + 1
                    } else {
                        self.level
                    };
                    let next = PlayState::new(nl, self.score, self.lives);
                    return Transition::Replace(State::Play(next));
                } else {
                    self.delay = Delay::NextLevel(c - 1);
                    return Transition::Stay;
                }
            },
            Delay::Idle => {},
        }
        let ghost pre = *self;
        self.bounce_sea_enemies();
        self.bounce_land_enemies();
        if self.find_collision() {
            proof {
                assert(pre.tick_collision());
            }
            if self.lives > 0 {
                self.lives = self.lives - 1;
            }
            if self.lives == 0 {
                return Transition::Push(State::GameOver(GameOverState {  }));
            }
            self.delay = Delay::Death(DEATH_DELAY_TICKS);
            return Transition::Stay;
        }
        proof {
            assert(!pre.tick_collision());
            assert(positions_of(pre.bounced_seas()) =~= positions_of(pre.sea_enemies@));
        }
        self.move_player();
        self.move_sea_enemies();
        self.move_land_enemies();
        if self.board.fill_ratio_exceeds_threshold() {
            self.delay = Delay::NextLevel(NEXT_LEVEL_DELAY_TICKS);
        }
        Transition::Stay
    }

    /// Record a directional event as the player's intended direction for
    /// the coming tick.
    pub fn handle_event(&mut self, event: Event) -> (t: Transition)
        requires
            old(self).wf(),
        ensures
            final(self).wf(),
            play_handle_event_rel(*old(self), event, *final(self), t),
    {
        match event {
            Event::Up => {
                self.player.direction = Direction { dx: 0, dy: -1 };
            },
            Event::Down => {
                self.player.direction = Direction { dx: 0, dy: 1 };
            },
            Event::Left => {
                self.player.direction = Direction { dx: -1, dy: 0 };
            },
            Event::Right => {
                self.player.direction = Direction { dx: 1, dy: 0 };
            },
            _ => {},
        }
        Transition::Stay
    }

    /// The play screen draws over whatever lies beneath it.
    pub fn render_parent(&self) -> (r: bool)
        ensures
            r == false,
    {
        false
    }

    /// Draw the board row by row, then the pieces over it, then the status
    /// line beneath the board.
    pub fn render<R: Renderer>(&self, renderer: &mut R)
        requires
            self.wf(),
    {
        let mut y: usize = 0;
        while y < self.board.height
            invariant
                self.wf(),
            decreases self.board.height - y,
        {
            let mut x: usize = 0;
            while x < self.board.width
                invariant
                    self.wf(),
                    y < self.board.height,
                decreases self.board.width - x,
            {
                let c = match self.board.get(x, y) {
                    Field::Land => '█',
                    Field::Sea => '░',
                    Field::Sand => '▒',
                    Field::DeepSea => '?',
                };
                renderer.put_cell(x as u16, y as u16, c, Color::White);
                x = x + 1;
            }
            y = y + 1;
        }
        renderer.put_cell(
            self.player.position.x as u16,
            self.player.position.y as u16,
            'x',
            Color::White,
        );
        let mut i: usize = 0;
        while i < self.sea_enemies.len()
            invariant
                self.wf(),
            decreases self.sea_enemies@.len() - i,
        {
            let e = self.sea_enemies[i];
            renderer.put_cell(e.position.x as u16, e.position.y as u16, 'S', Color::Cyan);
            i = i + 1;
        }
        let mut i: usize = 0;
        while i < self.land_enemies.len()
            invariant
                self.wf(),
            decreases self.land_enemies@.len() - i,
        {
            let e = self.land_enemies[i];
            renderer.put_cell(e.position.x as u16, e.position.y as u16, 'L', Color::Magenta);
            i = i + 1;
        }
        let mut line: Vec<u8> = Vec::new();
        push_text(&mut line, "Score: ");
        push_number(&mut line, self.score as u64);
        push_text(&mut line, " Xn: ");
        push_number(&mut line, self.lives as u64);
        push_text(&mut line, " Full: ");
        push_number(&mut line, self.board.fill_ratio_percent());
        push_text(&mut line, "%");
        draw_bytes(renderer, 0, self.board.height as u16, &line, Color::White);
    }
}

} // verus!
