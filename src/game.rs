//! The game state and its modes: waiting for the first jump, running, and
//! dead until the next jump restarts the run; plus the menu and the credits.
//! Each frame the application hands the state the number of jump presses it
//! saw, and draws what the state then describes.
use vstd::prelude::*;
use crate::obstacle::{
    all_in_range,
    any_hit,
    fresh_enemy,
    hits,
    in_range,
    lemma_sweep_order_free,
    survivors,
    swept,
    sweep_obstacles,
    Enemy,
    FIRST_KIND,
    LAST_KIND,
};
use crate::physics::{
    fall,
    fall_step,
    scroll_distance,
    scroll_step,
    GROUND_Y,
    JUMP_IMPULSE,
    MAGNITUDE_LIMIT,
};
use crate::score::{score_count, score_of};
use crate::spawner::{
    roll,
    spawn_allowed,
    spawns,
    CHANCE_RANGE,
    SPAWN_COOLDOWN,
};

verus! {

/// Scroll speed at the start of a run (25 px per tick).
pub const START_SPEED: i64 = 250_000;

/// Scroll speed gained at the start of each tick (0.02 px per tick).
pub const EARLY_SPEED_GAIN: i64 = 200;

/// Scroll speed gained after gravity in each tick (0.006 px per tick).
pub const LATE_SPEED_GAIN: i64 = 60;

/// Ticks before the first obstacle may spawn.
pub const START_COOLDOWN: u32 = 20;

/// Where the runner is drawn from (30 px); the floor tiles are placed from it.
pub const RUNNER_X: i64 = 300_000;

/// Length of one floor tile, after which the floor repeats (2400 px).
pub const FLOOR_WRAP: i64 = 24_000_000;

/// Ticks that each running frame of the runner is shown.
pub const STRIDE_TICKS: u64 = 7;

/// What the game shows and which step it runs on each frame.
#[derive(Clone, Copy, Debug, PartialEq, Eq, Structural)]
pub enum AppStatus {
    Menu,
    Credits,
    GameReadyToStart,
    PlayingGame,
    Died,
}

/// A choice made on the menu or the credits screen.
#[derive(Clone, Copy, Debug, PartialEq, Eq, Structural)]
pub enum MenuAction {
    Play,
    Credits,
    Back,
}

/// Which picture of the runner to draw.
#[derive(Clone, Copy, Debug, PartialEq, Eq, Structural)]
pub enum Pose {
    /// Standing, before the run starts.
    Rest,
    /// In the air, or dead.
    Still,
    /// Running, left foot down.
    Left,
    /// Running, right foot down.
    Right,
}

/// The whole state of the game. Heights grow downward: `dino_y` is at most
/// `GROUND_Y`, which is the floor.
pub struct DinoGame {
    /// Vertical speed of the runner; negative is upward.
    pub dino_speed_y: i64,
    /// Height of the runner's feet.
    pub dino_y: i64,
    /// Distance run so far; it sets the score and the floor's phase.
    pub dino_distance: i64,
    /// Scroll speed; it grows on every tick.
    pub dino_speed: i64,
    /// The obstacles on screen.
    pub enemys: Vec<Enemy>,
    pub state: AppStatus,
    /// Ticks run since the runner first left the floor.
    pub tick: u64,
    /// Ticks until another obstacle may spawn.
    pub cooldown: u32,
}

/// The state of a new game, whatever its mode.
pub open spec fn is_reset(g: DinoGame) -> bool {
    &&& g.dino_y == GROUND_Y
    &&& g.dino_speed_y == 0
    &&& g.dino_distance == 0
    &&& g.dino_speed == START_SPEED
    &&& g.enemys@.len() == 0
    &&& g.tick == 0
    &&& g.cooldown == START_COOLDOWN
}

/// A new game in which one jump has been taken.
pub open spec fn is_restarted(g: DinoGame) -> bool {
    &&& g.dino_y == GROUND_Y
    &&& g.dino_speed_y == -JUMP_IMPULSE
    &&& g.dino_distance == 0
    &&& g.dino_speed == START_SPEED
    &&& g.enemys@.len() == 0
    &&& g.tick == 0
    &&& g.cooldown == START_COOLDOWN
}

/// A state that a tick can take without any quantity overflowing.
pub open spec fn fits_tick(g: DinoGame) -> bool {
    &&& -MAGNITUDE_LIMIT <= g.dino_y <= MAGNITUDE_LIMIT
    &&& -MAGNITUDE_LIMIT <= g.dino_speed_y <= MAGNITUDE_LIMIT
    &&& 0 <= g.dino_distance <= MAGNITUDE_LIMIT
    &&& 0 <= g.dino_speed <= MAGNITUDE_LIMIT
    &&& g.tick < u64::MAX
    &&& g.enemys@.len() < usize::MAX
    &&& all_in_range(g.enemys@)
}

/// The run has begun: the runner has left the floor at least once.
pub open spec fn running(g: DinoGame) -> bool {
    g.tick > 0 || g.dino_y < GROUND_Y
}

/// A spawn happens in the tick from `g` with the draw `chance`.
pub open spec fn spawn_due(g: DinoGame, chance: int) -> bool {
    running(g) && g.cooldown == 0 && spawns(chance, g.enemys@.len() == 0)
}

/// The obstacles of the tick from `g`, before they scroll: a new one of kind
/// `kind` is appended when a spawn is due.
pub open spec fn listed(g: DinoGame, chance: int, kind: u32) -> Seq<Enemy> {
    if spawn_due(g, chance) {
        g.enemys@.push(fresh_enemy(kind))
    } else {
        g.enemys@
    }
}

/// The mode after a sweep that did or did not find a hit.
pub open spec fn mode_after(mode: AppStatus, hit: bool) -> AppStatus {
    if hit {
        AppStatus::Died
    } else {
        mode
    }
}

/// `n` is the state one tick after `g`, with the spawn draw `chance`, the
/// obstacle kind `kind`, and `presses` jumps pressed during the tick.
///
/// In order: the scroll speed gains `EARLY_SPEED_GAIN`; once the run has
/// begun the tick counts, the distance grows by a step at that speed, and an
/// obstacle spawns when the cooldown is over and the draw allows it (the
/// cooldown restarts); the cooldown runs down by one; gravity moves the
/// runner; the speed gains `LATE_SPEED_GAIN`; every obstacle scrolls by a step
/// at that speed, those gone are dropped, and a hit on the runner ends the
/// run; last, each press is one jump.
pub open spec fn ticked(g: DinoGame, n: DinoGame, chance: int, kind: u32, presses: u32) -> bool {
    let early = g.dino_speed + EARLY_SPEED_GAIN;
    let late = early + LATE_SPEED_GAIN;
    let cooled = if spawn_due(g, chance) {
        SPAWN_COOLDOWN as int
    } else {
        g.cooldown as int
    };
    let fell = fall_step(g.dino_y as int, g.dino_speed_y as int);
    let before = listed(g, chance, kind);
    &&& n.dino_speed == late
    &&& n.tick == if running(g) {
        g.tick + 1
    } else {
        g.tick as int
    }
    &&& n.dino_distance == if running(g) {
        g.dino_distance + scroll_step(early)
    } else {
        g.dino_distance as int
    }
    &&& n.cooldown == if cooled > 0 {
        cooled - 1
    } else {
        0
    }
    &&& n.dino_y == fell.0
    &&& n.dino_speed_y == fell.1 - presses * JUMP_IMPULSE
    &&& n.enemys@ == survivors(before, scroll_step(late))
    &&& n.state == mode_after(g.state, any_hit(fell.0, before, scroll_step(late)))
}

impl Default for DinoGame {
    /// A new game, waiting for the first jump.
    fn default() -> (r: DinoGame)
        ensures
            is_reset(r),
            r.state == AppStatus::GameReadyToStart,
    {
        DinoGame {
            dino_speed_y: 0,
            dino_y: GROUND_Y,
            dino_distance: 0,
            dino_speed: START_SPEED,
            enemys: Vec::new(),
            state: AppStatus::GameReadyToStart,
            tick: 0,
            cooldown: START_COOLDOWN,
        }
    }
}

impl DinoGame {
    /// Whether a tick can run from this state without overflow.
    pub fn fits(&self) -> (r: bool)
        ensures
            r == fits_tick(*self),
    {
        if !(-MAGNITUDE_LIMIT <= self.dino_y && self.dino_y <= MAGNITUDE_LIMIT) {
            return false;
        }
        if !(-MAGNITUDE_LIMIT <= self.dino_speed_y && self.dino_speed_y <= MAGNITUDE_LIMIT) {
            return false;
        }
        if !(0 <= self.dino_distance && self.dino_distance <= MAGNITUDE_LIMIT) {
            return false;
        }
        if !(0 <= self.dino_speed && self.dino_speed <= MAGNITUDE_LIMIT) {
            return false;
        }
        if self.tick == u64::MAX || self.enemys.len() == usize::MAX {
            return false;
        }
        let mut i: usize = 0;
        while i < self.enemys.len()
            invariant
                i <= self.enemys@.len(),
                forall|j: int| 0 <= j < i ==> #[trigger] in_range(self.enemys@[j]),
            decreases self.enemys.len() - i,
        {
            let e = self.enemys[i];
            if !(-MAGNITUDE_LIMIT <= e.start_x && e.start_x <= MAGNITUDE_LIMIT) {
                assert(!in_range(self.enemys@[i as int]));
                return false;
            }
            if !(-MAGNITUDE_LIMIT <= e.end_x && e.end_x <= MAGNITUDE_LIMIT) {
                assert(!in_range(self.enemys@[i as int]));
                return false;
            }
            i = i + 1;
        }
        true
    }

    /// One jump: the impulse is taken from the vertical speed, wherever the
    /// runner is.
    pub fn jump(&mut self)
        requires
            old(self).dino_speed_y >= i64::MIN + JUMP_IMPULSE,
        ensures
            final(self).dino_speed_y == old(self).dino_speed_y - JUMP_IMPULSE,
            final(self).dino_y == old(self).dino_y,
            final(self).dino_distance == old(self).dino_distance,
            final(self).dino_speed == old(self).dino_speed,
            final(self).enemys@ == old(self).enemys@,
            final(self).state == old(self).state,
            final(self).tick == old(self).tick,
            final(self).cooldown == old(self).cooldown,
    {
        self.dino_speed_y = self.dino_speed_y - JUMP_IMPULSE;
    }

    /// Applies `presses` jumps.
    fn jump_times(&mut self, presses: u32)
        requires
            old(self).dino_speed_y >= -2 * MAGNITUDE_LIMIT,
        ensures
            final(self).dino_speed_y == old(self).dino_speed_y - presses * JUMP_IMPULSE,
            final(self).dino_y == old(self).dino_y,
            final(self).dino_distance == old(self).dino_distance,
            final(self).dino_speed == old(self).dino_speed,
            final(self).enemys@ == old(self).enemys@,
            final(self).state == old(self).state,
            final(self).tick == old(self).tick,
            final(self).cooldown == old(self).cooldown,
    {
        let mut i: u32 = 0;
        while i < presses
            invariant
                i <= presses,
                self.dino_speed_y == old(self).dino_speed_y - i * JUMP_IMPULSE,
                old(self).dino_speed_y >= -2 * MAGNITUDE_LIMIT,
                self.dino_y == old(self).dino_y,
                self.dino_distance == old(self).dino_distance,
                self.dino_speed == old(self).dino_speed,
                self.enemys@ == old(self).enemys@,
                self.state == old(self).state,
                self.tick == old(self).tick,
                self.cooldown == old(self).cooldown,
            decreases presses - i,
        {
            self.jump();
            i = i + 1;
        }
    }

    /// One tick of the run, given the spawn draw `chance`, the kind `kind`
    /// that a new obstacle would have, and the number of jumps pressed.
    pub fn advance(&mut self, chance: u32, kind: u32, presses: u32)
        requires
            fits_tick(*old(self)),
            FIRST_KIND <= kind <= LAST_KIND,
        ensures
            ticked(*old(self), *final(self), chance as int, kind, presses),
    {
        let ghost start = *self;
        self.dino_speed = self.dino_speed + EARLY_SPEED_GAIN;
        let active = self.tick > 0 || self.dino_y < GROUND_Y;
        let mut spawned = false;
        if active {
            self.tick = self.tick + 1;
            self.dino_distance = self.dino_distance + scroll_distance(self.dino_speed);
            if self.cooldown == 0 && spawn_allowed(chance, self.enemys.len() == 0) {
                self.enemys.push(Enemy::of_kind(kind));
                self.cooldown = SPAWN_COOLDOWN;
                spawned = true;
            }
        }
        assert(spawned == spawn_due(start, chance as int));
        assert(self.enemys@ == listed(start, chance as int, kind));
        if self.cooldown != 0 {
            self.cooldown = self.cooldown - 1;
        }
        let (y, v) = fall(self.dino_y, self.dino_speed_y);
        self.dino_y = y;
        self.dino_speed_y = v;
        self.dino_speed = self.dino_speed + LATE_SPEED_GAIN;
        proof {
            let before = listed(start, chance as int, kind);
            assert forall|i: int| 0 <= i < before.len() implies #[trigger] in_range(before[i]) by {
                if i < start.enemys@.len() {
                    assert(in_range(start.enemys@[i]));
                }
            }
        }
        let step = scroll_distance(self.dino_speed);
        let (kept, hit) = sweep_obstacles(&self.enemys, step, self.dino_y);
        self.enemys = kept;
        if hit {
            self.state = AppStatus::Died;
        }
        self.jump_times(presses);
    }

    /// One tick of the run, with the spawn draw and the kind of a new
    /// obstacle taken at random: the result is a tick from the old state for
    /// some draw in `1..=CHANCE_RANGE` and some kind.
    pub fn tick_game(&mut self, presses: u32)
        requires
            fits_tick(*old(self)),
        ensures
            exists|chance: int, kind: u32|
                1 <= chance <= CHANCE_RANGE && FIRST_KIND <= kind <= LAST_KIND && #[trigger] ticked(
                    *old(self),
                    *final(self),
                    chance,
                    kind,
                    presses,
                ),
    {
        let chance = roll(1, CHANCE_RANGE);
        let kind = roll(FIRST_KIND, LAST_KIND);
        self.advance(chance, kind, presses);
    }

    /// Waiting for the first jump: any press starts the run, and each press
    /// is a jump.
    pub fn ready(&mut self, presses: u32)
        requires
            old(self).dino_speed_y >= -MAGNITUDE_LIMIT,
        ensures
            presses == 0 ==> *final(self) == *old(self),
            presses > 0 ==> final(self).state == AppStatus::PlayingGame,
            final(self).dino_speed_y == old(self).dino_speed_y - presses * JUMP_IMPULSE,
            final(self).dino_y == old(self).dino_y,
            final(self).dino_distance == old(self).dino_distance,
            final(self).dino_speed == old(self).dino_speed,
            final(self).enemys@ == old(self).enemys@,
            final(self).tick == old(self).tick,
            final(self).cooldown == old(self).cooldown,
    {
        if presses > 0 {
            self.state = AppStatus::PlayingGame;
            self.jump_times(presses);
        }
    }

    /// After a hit: a press restarts the run from a new game, with one jump
    /// already taken.
    pub fn update_death(&mut self, presses: u32)
        ensures
            presses == 0 ==> *final(self) == *old(self),
            presses > 0 ==> final(self).state == AppStatus::PlayingGame && is_restarted(
                *final(self),
            ),
    {
        if presses > 0 {
            *self = DinoGame::default();
            self.state = AppStatus::PlayingGame;
            self.jump();
        }
    }

    /// A choice on the menu or the credits screen: the menu leads to the
    /// game or to the credits, and the credits lead back to the menu. Any
    /// other choice changes nothing.
    pub fn select(&mut self, action: MenuAction)
        ensures
            final(self).state == (match (old(self).state, action) {
                (AppStatus::Menu, MenuAction::Play) => AppStatus::GameReadyToStart,
                (AppStatus::Menu, MenuAction::Credits) => AppStatus::Credits,
                (AppStatus::Credits, MenuAction::Back) => AppStatus::Menu,
                (other, _) => other,
            }),
            final(self).dino_speed_y == old(self).dino_speed_y,
            final(self).dino_y == old(self).dino_y,
            final(self).dino_distance == old(self).dino_distance,
            final(self).dino_speed == old(self).dino_speed,
            final(self).enemys@ == old(self).enemys@,
            final(self).tick == old(self).tick,
            final(self).cooldown == old(self).cooldown,
    {
        match (self.state, action) {
            (AppStatus::Menu, MenuAction::Play) => {
                self.state = AppStatus::GameReadyToStart;
            },
            (AppStatus::Menu, MenuAction::Credits) => {
                self.state = AppStatus::Credits;
            },
            (AppStatus::Credits, MenuAction::Back) => {
                self.state = AppStatus::Menu;
            },
            _ => {},
        }
    }

    /// Whether the frame driver should redraw without waiting for input: only
    /// while the run goes on, so the game pauses in every other mode.
    pub fn repaint_wanted(&self) -> (r: bool)
        ensures
            r == (self.state == AppStatus::PlayingGame),
    {
        self.state == AppStatus::PlayingGame
    }

    /// One frame: the step of the current mode, given the jumps pressed
    /// during the frame. The menu and the credits take no step.
    pub fn step_frame(&mut self, presses: u32)
        requires
            fits_tick(*old(self)),
        ensures
            old(self).state == AppStatus::GameReadyToStart ==> presses == 0 ==> *final(self) == *old(self),
            old(self).state == AppStatus::GameReadyToStart ==> presses > 0 ==> final(self).state
                == AppStatus::PlayingGame && final(self).dino_speed_y == old(self).dino_speed_y
                - presses * JUMP_IMPULSE,
            old(self).state == AppStatus::PlayingGame ==> exists|chance: int, kind: u32|
                1 <= chance <= CHANCE_RANGE && FIRST_KIND <= kind <= LAST_KIND && #[trigger] ticked(
                    *old(self),
                    *final(self),
                    chance,
                    kind,
                    presses,
                ),
            old(self).state == AppStatus::Died ==> presses == 0 ==> *final(self) == *old(self),
            old(self).state == AppStatus::Died ==> presses > 0 ==> final(self).state
                == AppStatus::PlayingGame && is_restarted(*final(self)),
            old(self).state == AppStatus::Menu || old(self).state == AppStatus::Credits ==> *final(self) == *old(self),
    {
        match self.state {
            AppStatus::GameReadyToStart => self.ready(presses),
            AppStatus::PlayingGame => self.tick_game(presses),
            AppStatus::Died => self.update_death(presses),
            _ => {},
        }
    }

    /// Points scored so far.
    pub fn score(&self) -> (r: u64)
        ensures
            r == score_of(self.dino_distance as int),
    {
        score_count(self.dino_distance)
    }

    /// Which picture of the runner to draw: standing before the run; still
    /// while in the air or dead; otherwise the two running frames in turn,
    /// each for `STRIDE_TICKS` ticks.
    pub fn dino_pose(&self) -> (r: Pose)
        ensures
            r == (if self.state != AppStatus::PlayingGame && self.state != AppStatus::Died {
                Pose::Rest
            } else if self.dino_y != GROUND_Y || self.state == AppStatus::Died {
                Pose::Still
            } else if (self.tick - self.tick % STRIDE_TICKS) % 2 == 0 {
                Pose::Right
            } else {
                Pose::Left
            }),
    {
        if self.state != AppStatus::PlayingGame && self.state != AppStatus::Died {
            Pose::Rest
        } else if self.dino_y != GROUND_Y || self.state == AppStatus::Died {
            Pose::Still
        } else if (self.tick - self.tick % STRIDE_TICKS) % 2 == 0 {
            Pose::Right
        } else {
            Pose::Left
        }
    }

    /// Where the two floor tiles start, one tile apart and shifted left by
    /// the distance run modulo a tile; no floor before the run begins.
    pub fn floor_positions(&self) -> (r: Option<(i64, i64)>)
        requires
            0 <= self.dino_distance,
        ensures
            self.tick == 0 ==> r.is_none(),
            self.tick > 0 ==> r == Some(
                (
                    (RUNNER_X + FLOOR_WRAP - self.dino_distance % FLOOR_WRAP) as i64,
                    (RUNNER_X - self.dino_distance % FLOOR_WRAP) as i64,
                ),
            ),
    {
        if self.tick == 0 {
            return None;
        }
        let phase = self.dino_distance % FLOOR_WRAP;
        Some((RUNNER_X + FLOOR_WRAP - phase, RUNNER_X - phase))
    }
}


/// When two obstacles both overlap the runner in the same tick, the tick ends
/// the run; and a run that has ended stays ended through any tick, so the mode
/// is set to `Died`, never toggled.
pub proof fn lemma_two_hits_end_run(
    g: DinoGame,
    n: DinoGame,
    chance: int,
    kind: u32,
    presses: u32,
    i: int,
    j: int,
)
    requires
        ticked(g, n, chance, kind, presses),
        0 <= i < listed(g, chance, kind).len(),
        0 <= j < listed(g, chance, kind).len(),
        i != j,
        hits(
            fall_step(g.dino_y as int, g.dino_speed_y as int).0,
            swept(
                listed(g, chance, kind)[i],
                scroll_step(g.dino_speed + EARLY_SPEED_GAIN + LATE_SPEED_GAIN),
            ),
        ),
        hits(
            fall_step(g.dino_y as int, g.dino_speed_y as int).0,
            swept(
                listed(g, chance, kind)[j],
                scroll_step(g.dino_speed + EARLY_SPEED_GAIN + LATE_SPEED_GAIN),
            ),
        ),
    ensures
        n.state == AppStatus::Died,
{
}

/// A tick from a run that has ended leaves it ended.
pub proof fn lemma_death_is_kept(g: DinoGame, n: DinoGame, chance: int, kind: u32, presses: u32)
    requires
        ticked(g, n, chance, kind, presses),
        g.state == AppStatus::Died,
    ensures
        n.state == AppStatus::Died,
{
}

/// The obstacles of a tick, before they scroll, are all in range.
proof fn lemma_listed_in_range(g: DinoGame, chance: int, kind: u32)
    requires
        fits_tick(g),
        FIRST_KIND <= kind <= LAST_KIND,
    ensures
        all_in_range(listed(g, chance, kind)),
{
    let before = listed(g, chance, kind);
    assert forall|i: int| 0 <= i < before.len() implies #[trigger] in_range(before[i]) by {
        if i < g.enemys@.len() {
            assert(in_range(g.enemys@[i]));
        }
    }
}

/// A tick does not depend on the order of the obstacles on screen: from two
/// states that differ only in that order, the same draws and presses lead to
/// states that differ at most in the order of their obstacles.
pub proof fn lemma_tick_order_free(
    g1: DinoGame,
    g2: DinoGame,
    n1: DinoGame,
    n2: DinoGame,
    chance: int,
    kind: u32,
    presses: u32,
)
    requires
        fits_tick(g1),
        fits_tick(g2),
        FIRST_KIND <= kind <= LAST_KIND,
        g1.enemys@.to_multiset() == g2.enemys@.to_multiset(),
        g1.dino_y == g2.dino_y,
        g1.dino_speed_y == g2.dino_speed_y,
        g1.dino_distance == g2.dino_distance,
        g1.dino_speed == g2.dino_speed,
        g1.state == g2.state,
        g1.tick == g2.tick,
        g1.cooldown == g2.cooldown,
        ticked(g1, n1, chance, kind, presses),
        ticked(g2, n2, chance, kind, presses),
    ensures
        n1.enemys@.to_multiset() == n2.enemys@.to_multiset(),
        n1.dino_y == n2.dino_y,
        n1.dino_speed_y == n2.dino_speed_y,
        n1.dino_distance == n2.dino_distance,
        n1.dino_speed == n2.dino_speed,
        n1.state == n2.state,
        n1.tick == n2.tick,
        n1.cooldown == n2.cooldown,
{
    broadcast use vstd::seq_lib::group_to_multiset_ensures;

    assert(g1.enemys@.len() == g2.enemys@.len()) by {
        assert(g1.enemys@.len() == g1.enemys@.to_multiset().len());
        assert(g2.enemys@.len() == g2.enemys@.to_multiset().len());
    }
    let l1 = listed(g1, chance, kind);
    let l2 = listed(g2, chance, kind);
    assert(spawn_due(g1, chance) == spawn_due(g2, chance));
    if spawn_due(g1, chance) {
        assert(l1.to_multiset() =~= g1.enemys@.to_multiset().insert(fresh_enemy(kind)));
        assert(l2.to_multiset() =~= g2.enemys@.to_multiset().insert(fresh_enemy(kind)));
    }
    lemma_listed_in_range(g1, chance, kind);
    lemma_listed_in_range(g2, chance, kind);
    let step = scroll_step(g1.dino_speed + EARLY_SPEED_GAIN + LATE_SPEED_GAIN);
    let fell = fall_step(g1.dino_y as int, g1.dino_speed_y as int);
    lemma_sweep_order_free(l1, l2, step, fell.0);
}

} // verus!
