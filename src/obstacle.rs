//! Obstacles: their creation at the right edge, and the sweep that scrolls
//! them left, finds a collision with the runner and drops the ones that have
//! left the screen.
use vstd::prelude::*;
use crate::physics::MAGNITUDE_LIMIT;
use crate::spawner::roll;

verus! {

/// Where a new obstacle's leading edge appears (1800 px).
pub const SPAWN_X: i64 = 18_000_000;

/// Trailing edge of a new obstacle, before the width of its kind (1730 px).
pub const TRAIL_BASE_X: i64 = 17_300_000;

/// Width added to the trailing edge per kind (10 px).
pub const KIND_WIDTH: i64 = 100_000;

/// An obstacle whose trailing edge lies left of this is gone (-20 px).
pub const DESPAWN_X: i64 = -200_000;

/// The runner is low enough to be hit from this height down (64 px).
pub const HIT_HEIGHT: i64 = 640_000;

/// The runner's band ends here: an obstacle hits when its leading edge is
/// left of it (100 px) and its trailing edge not left of zero.
pub const RUNNER_RIGHT_X: i64 = 1_000_000;

/// Smallest and largest kind of obstacle.
pub const FIRST_KIND: u32 = 1;
pub const LAST_KIND: u32 = 2;

/// An obstacle scrolling toward the runner.
#[derive(Clone, Copy, Debug, PartialEq, Eq, Structural)]
pub struct Enemy {
    /// Leading (left) edge.
    pub start_x: i64,
    /// Trailing edge.
    pub end_x: i64,
    /// Sprite of the obstacle.
    pub image: usize,
    /// Kind of the obstacle, which also sets its width.
    pub height: u32,
    pub can_duck: bool,
    /// Set once the obstacle has left the screen and is to be dropped.
    pub ignore: bool,
}

/// A new obstacle of kind `kind`, at the right edge.
pub open spec fn fresh_enemy(kind: u32) -> Enemy {
    Enemy {
        start_x: SPAWN_X,
        end_x: (TRAIL_BASE_X + KIND_WIDTH * kind) as i64,
        image: kind as usize,
        height: kind,
        can_duck: false,
        ignore: false,
    }
}

/// Coordinates small enough for a sweep.
pub open spec fn in_range(e: Enemy) -> bool {
    &&& -MAGNITUDE_LIMIT <= e.start_x <= MAGNITUDE_LIMIT
    &&& -MAGNITUDE_LIMIT <= e.end_x <= MAGNITUDE_LIMIT
}

/// All obstacles of `s` are in range.
pub open spec fn all_in_range(s: Seq<Enemy>) -> bool {
    forall|i: int| 0 <= i < s.len() ==> #[trigger] in_range(s[i])
}

/// Scrolling by `step` takes the trailing edge of `e` past the despawn line.
pub open spec fn leaves(e: Enemy, step: int) -> bool {
    e.end_x - step < DESPAWN_X
}

/// `e` scrolled left by `step`; it is marked once its trailing edge is gone,
/// and a mark it already had is kept.
pub open spec fn swept(e: Enemy, step: int) -> Enemy {
    Enemy {
        start_x: (e.start_x - step) as i64,
        end_x: (e.end_x - step) as i64,
        ignore: e.ignore || leaves(e, step),
        ..e
    }
}

/// The runner at height `y` overlaps obstacle `e`.
pub open spec fn hits(y: int, e: Enemy) -> bool {
    &&& y >= HIT_HEIGHT
    &&& e.start_x < RUNNER_RIGHT_X
    &&& e.end_x >= 0
}

/// The obstacles of `s` whose trailing edge does not cross the despawn line
/// when they scroll by `step`, scrolled, in their order.
pub open spec fn survivors(s: Seq<Enemy>, step: int) -> Seq<Enemy>
    decreases s.len(),
{
    if s.len() == 0 {
        Seq::empty()
    } else {
        let rest = survivors(s.drop_last(), step);
        if leaves(s.last(), step) {
            rest
        } else {
            rest.push(swept(s.last(), step))
        }
    }
}

/// Some obstacle of `s`, scrolled by `step`, overlaps the runner at height `y`.
pub open spec fn any_hit(y: int, s: Seq<Enemy>, step: int) -> bool {
    exists|i: int| 0 <= i < s.len() && #[trigger] hits(y, swept(s[i], step))
}

impl Enemy {
    /// A new obstacle of kind `kind`, at the right edge of the screen.
    pub fn of_kind(kind: u32) -> (r: Enemy)
        requires
            FIRST_KIND <= kind <= LAST_KIND,
        ensures
            r == fresh_enemy(kind),
    {
        Enemy {
            start_x: SPAWN_X,
            end_x: TRAIL_BASE_X + KIND_WIDTH * kind as i64,
            image: kind as usize,
            height: kind,
            can_duck: false,
            ignore: false,
        }
    }

    /// Whether the runner at height `y` overlaps this obstacle.
    pub fn hit_by(&self, y: i64) -> (r: bool)
        ensures
            r == hits(y as int, *self),
    {
        y >= HIT_HEIGHT && self.start_x < RUNNER_RIGHT_X && self.end_x >= 0
    }
}

impl Default for Enemy {
    /// A new obstacle of a kind drawn at random.
    fn default() -> (r: Enemy)
        ensures
            FIRST_KIND <= r.height <= LAST_KIND,
            r == fresh_enemy(r.height),
    {
        let kind = roll(FIRST_KIND, LAST_KIND);
        Enemy::of_kind(kind)
    }
}

/// Scrolls every obstacle left by `step`, tells whether any of them then
/// overlaps the runner at height `y`, and drops those whose trailing edge
/// crosses the despawn line in this sweep. The test for a hit stops at the
/// first obstacle that is hit.
pub fn sweep_obstacles(enemies: &Vec<Enemy>, step: i64, y: i64) -> (r: (Vec<Enemy>, bool))
    requires
        all_in_range(enemies@),
        0 <= step <= MAGNITUDE_LIMIT,
    ensures
        r.0@ == survivors(enemies@, step as int),
        r.1 == any_hit(y as int, enemies@, step as int),
{
    let mut kept: Vec<Enemy> = Vec::new();
    let mut hit = false;
    let mut i: usize = 0;
    while i < enemies.len()
        invariant
            0 <= i <= enemies@.len(),
            all_in_range(enemies@),
            0 <= step <= MAGNITUDE_LIMIT,
            kept@ == survivors(enemies@.subrange(0, i as int), step as int),
            hit == exists|j: int| 0 <= j < i && #[trigger] hits(y as int, swept(enemies@[j], step as int)),
        decreases enemies.len() - i,
    {
        let cur = enemies[i];
        assert(in_range(enemies@[i as int]));
        let start_x = cur.start_x - step;
        let end_x = cur.end_x - step;
        let gone = end_x < DESPAWN_X;
        let moved = Enemy { start_x, end_x, ignore: cur.ignore || gone, ..cur };
        assert(moved == swept(enemies@[i as int], step as int));
        if !hit && moved.hit_by(y) {
            hit = true;
        }
        proof {
            let next = enemies@.subrange(0, i + 1);
            assert(next.drop_last() =~= enemies@.subrange(0, i as int));
            assert(next.last() == enemies@[i as int]);
        }
        if !gone {
            kept.push(moved);
        }
        i = i + 1;
    }
    assert(enemies@.subrange(0, i as int) =~= enemies@);
    (kept, hit)
}

/// Every obstacle that survives a sweep is on screen.
pub proof fn lemma_survivors_live(s: Seq<Enemy>, step: int)
    requires
        all_in_range(s),
        0 <= step <= MAGNITUDE_LIMIT,
    ensures
        forall|k: int|
            0 <= k < survivors(s, step).len() ==> (#[trigger] survivors(s, step)[k]).end_x
                >= DESPAWN_X,
    decreases s.len(),
{
    if s.len() > 0 {
        let front = s.drop_last();
        assert forall|i: int| 0 <= i < front.len() implies #[trigger] in_range(front[i]) by {
            assert(front[i] == s[i]);
        }
        lemma_survivors_live(front, step);
        assert(in_range(s[s.len() - 1]));
        let rest = survivors(front, step);
        if !leaves(s.last(), step) {
            let e = swept(s.last(), step);
            assert(e.end_x >= DESPAWN_X);
            assert forall|k: int| 0 <= k < rest.push(e).len() implies (#[trigger] rest.push(
                e,
            )[k]).end_x >= DESPAWN_X by {
                if k < rest.len() {
                    assert(rest.push(e)[k] == rest[k]);
                }
            }
        }
    }
}

/// When no obstacle leaves the screen, a sweep keeps all of them, scrolled.
pub proof fn lemma_sweep_keeps_all(s: Seq<Enemy>, step: int)
    requires
        forall|i: int| 0 <= i < s.len() ==> !#[trigger] leaves(s[i], step),
    ensures
        survivors(s, step) == s.map_values(|e: Enemy| swept(e, step)),
    decreases s.len(),
{
    if s.len() > 0 {
        let front = s.drop_last();
        assert forall|i: int| 0 <= i < front.len() implies !#[trigger] leaves(front[i], step) by {
            assert(front[i] == s[i]);
        }
        lemma_sweep_keeps_all(front, step);
        assert(s.map_values(|e: Enemy| swept(e, step)) =~= front.map_values(
            |e: Enemy| swept(e, step),
        ).push(swept(s.last(), step)));
    }
}

/// A sweep over obstacles of which exactly one, at `x`, leaves the screen
/// yields all the others, scrolled and in their order, and not that one: one
/// fewer than it was given.
pub proof fn lemma_sweep_drops_expired(s: Seq<Enemy>, step: int, x: int)
    requires
        0 <= x < s.len(),
        leaves(s[x], step),
        forall|i: int| 0 <= i < s.len() && i != x ==> !#[trigger] leaves(s[i], step),
    ensures
        survivors(s, step) == s.remove(x).map_values(|e: Enemy| swept(e, step)),
        survivors(s, step).len() == s.len() - 1,
    decreases s.len(),
{
    let front = s.drop_last();
    if x == s.len() - 1 {
        assert(s.remove(x) =~= front);
        assert forall|i: int| 0 <= i < front.len() implies !#[trigger] leaves(front[i], step) by {
            assert(front[i] == s[i]);
        }
        lemma_sweep_keeps_all(front, step);
    } else {
        assert forall|i: int| 0 <= i < front.len() && i != x implies !#[trigger] leaves(
            front[i],
            step,
        ) by {
            assert(front[i] == s[i]);
        }
        assert(front[x] == s[x]);
        lemma_sweep_drops_expired(front, step, x);
        assert(s.remove(x) =~= front.remove(x).push(s.last()));
        assert(s.remove(x).map_values(|e: Enemy| swept(e, step)) =~= front.remove(x).map_values(
            |e: Enemy| swept(e, step),
        ).push(swept(s.last(), step)));
    }
}

/// Sweeping again without scrolling removes nothing more and changes no
/// mark: the removal of obstacles that left the screen is idempotent.
pub proof fn lemma_sweep_settled(s: Seq<Enemy>, step: int)
    requires
        all_in_range(s),
        0 <= step <= MAGNITUDE_LIMIT,
    ensures
        survivors(survivors(s, step), 0) == survivors(s, step),
{
    let kept = survivors(s, step);
    lemma_survivors_live(s, step);
    assert forall|i: int| 0 <= i < kept.len() implies !#[trigger] leaves(kept[i], 0) by {}
    lemma_sweep_keeps_all(kept, 0);
    assert(kept.map_values(|e: Enemy| swept(e, 0)) =~= kept);
}

/// Two obstacles that both overlap the runner in the same tick make the sweep
/// report a hit.
pub proof fn lemma_two_hits_reported(y: int, s: Seq<Enemy>, step: int, i: int, j: int)
    requires
        0 <= i < s.len(),
        0 <= j < s.len(),
        i != j,
        hits(y, swept(s[i], step)),
        hits(y, swept(s[j], step)),
    ensures
        any_hit(y, s, step),
{
}

/// Where an obstacle was before a sweep by `step` turned it into `x`.
pub open spec fn origin(x: Enemy, step: int) -> Enemy {
    Enemy { start_x: (x.start_x + step) as i64, end_x: (x.end_x + step) as i64, ..x }
}

/// `x` can come out of a sweep by `step` from an obstacle in range.
pub open spec fn comes_from_sweep(x: Enemy, step: int) -> bool {
    &&& x.end_x >= DESPAWN_X
    &&& x.start_x + step <= MAGNITUDE_LIMIT
    &&& x.end_x + step <= MAGNITUDE_LIMIT
}

/// How often `x` is among the survivors of a sweep: as often as its origin is
/// among the obstacles swept, whatever their order.
pub proof fn lemma_survivor_count(s: Seq<Enemy>, step: int, x: Enemy)
    requires
        all_in_range(s),
        0 <= step <= MAGNITUDE_LIMIT,
    ensures
        survivors(s, step).to_multiset().count(x) == if comes_from_sweep(x, step) {
            s.to_multiset().count(origin(x, step))
        } else {
            0
        },
    decreases s.len(),
{
    broadcast use vstd::seq_lib::group_to_multiset_ensures, vstd::multiset::group_multiset_axioms;

    if s.len() == 0 {
        assert(survivors(s, step) =~= Seq::<Enemy>::empty());
        assert(s =~= Seq::<Enemy>::empty());
        assert(Seq::<Enemy>::empty().to_multiset() =~= vstd::multiset::Multiset::empty()) by {
            vstd::multiset::lemma_multiset_empty_len(Seq::<Enemy>::empty().to_multiset());
        }
    } else {
        let front = s.drop_last();
        let last = s.last();
        assert(s =~= front.push(last));
        assert forall|i: int| 0 <= i < front.len() implies #[trigger] in_range(front[i]) by {
            assert(front[i] == s[i]);
        }
        assert(in_range(s[s.len() - 1]));
        lemma_survivor_count(front, step, x);
        let rest = survivors(front, step);
        assert(s.to_multiset() =~= front.to_multiset().insert(last));
        if !leaves(last, step) {
            assert(rest.push(swept(last, step)).to_multiset() =~= rest.to_multiset().insert(
                swept(last, step),
            ));
        }
        if comes_from_sweep(x, step) && last == origin(x, step) {
            assert(!leaves(last, step));
            assert(swept(last, step) == x);
        }
        if !leaves(last, step) && swept(last, step) == x {
            assert(comes_from_sweep(x, step));
            assert(last == origin(x, step));
        }
    }
}

/// The sweep does not depend on the order of the obstacles: two orderings of
/// the same obstacles keep the same obstacles, in some order, and find a hit
/// alike.
pub proof fn lemma_sweep_order_free(s1: Seq<Enemy>, s2: Seq<Enemy>, step: int, y: int)
    requires
        all_in_range(s1),
        all_in_range(s2),
        0 <= step <= MAGNITUDE_LIMIT,
        s1.to_multiset() == s2.to_multiset(),
    ensures
        survivors(s1, step).to_multiset() == survivors(s2, step).to_multiset(),
        any_hit(y, s1, step) == any_hit(y, s2, step),
{
    broadcast use vstd::seq_lib::group_to_multiset_ensures;

    assert forall|x: Enemy| #[trigger] survivors(s1, step).to_multiset().count(x)
        == survivors(s2, step).to_multiset().count(x) by {
        lemma_survivor_count(s1, step, x);
        lemma_survivor_count(s2, step, x);
    }
    assert(survivors(s1, step).to_multiset() =~= survivors(s2, step).to_multiset());
    lemma_hit_moves_with(y, s1, s2, step);
    lemma_hit_moves_with(y, s2, s1, step);
}

proof fn lemma_hit_moves_with(y: int, s1: Seq<Enemy>, s2: Seq<Enemy>, step: int)
    requires
        s1.to_multiset() == s2.to_multiset(),
    ensures
        any_hit(y, s1, step) ==> any_hit(y, s2, step),
{
    broadcast use vstd::seq_lib::group_to_multiset_ensures;

    if any_hit(y, s1, step) {
        let i = choose|i: int| 0 <= i < s1.len() && #[trigger] hits(y, swept(s1[i], step));
        assert(s1.contains(s1[i]));
        assert(s2.to_multiset().count(s1[i]) > 0);
        assert(s2.contains(s1[i]));
        let j = choose|j: int| 0 <= j < s2.len() && s2[j] == s1[i];
        assert(hits(y, swept(s2[j], step)));
    }
}

} // verus!
