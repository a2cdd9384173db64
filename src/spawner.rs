//! When a new obstacle appears: a uniform draw, compared against a narrow
//! window, or a wider one while no obstacle is on screen.
use vstd::prelude::*;
use rand::Rng;

verus! {

/// Draws are taken uniformly from `1..=CHANCE_RANGE`.
pub const CHANCE_RANGE: u32 = 1300;

/// A draw up to this spawns an obstacle.
pub const SPAWN_WINDOW: u32 = 31;

/// While no obstacle is on screen, a draw up to this spawns one.
pub const EMPTY_SPAWN_WINDOW: u32 = 100;

/// Ticks without a spawn that follow a spawn.
pub const SPAWN_COOLDOWN: u32 = 32;

/// Relies on `rand::rng` and `Rng::random_range` (rand 0.9): a draw from the
/// thread's generator that lies in `lo..=hi`. It panics on an empty range,
/// which `requires` rules out.
#[verifier::external_body]
pub(crate) fn roll(lo: u32, hi: u32) -> (r: u32)
    requires
        lo <= hi,
    ensures
        lo <= r <= hi,
{
    rand::rng().random_range(lo..=hi)
}

/// The draw `chance` spawns an obstacle, given whether none is on screen.
pub open spec fn spawns(chance: int, none_live: bool) -> bool {
    chance <= SPAWN_WINDOW || (none_live && chance <= EMPTY_SPAWN_WINDOW)
}

/// Whether the draw `chance` spawns an obstacle, given whether none is on
/// screen.
pub fn spawn_allowed(chance: u32, none_live: bool) -> (r: bool)
    ensures
        r == spawns(chance as int, none_live),
{
    chance <= SPAWN_WINDOW || (none_live && chance <= EMPTY_SPAWN_WINDOW)
}

/// An empty screen makes a spawn more likely: every draw that spawns with
/// obstacles on screen also spawns without, and the draws from just above the
/// narrow window up to the wide one spawn only on an empty screen.
pub proof fn lemma_empty_screen_widens_spawn(chance: int)
    ensures
        spawns(chance, false) ==> spawns(chance, true),
        SPAWN_WINDOW < chance <= EMPTY_SPAWN_WINDOW ==> spawns(chance, true) && !spawns(
            chance,
            false,
        ),
{
}

} // verus!
