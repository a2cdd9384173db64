//! Vertical motion of the runner and the horizontal scroll.
//!
//! Every length and speed is a fixed-point integer: `SUBPIXELS` units make one
//! pixel. Vertical positions grow downward, so the floor is the largest height
//! the runner can have and a jump makes the vertical speed negative.
use vstd::prelude::*;

verus! {

/// Units in one pixel.
pub const SUBPIXELS: i64 = 10_000;

/// Height of the runner's feet while standing on the floor (100 px).
pub const GROUND_Y: i64 = 1_000_000;

/// Added to the vertical speed on every tick spent in the air (1.2 px per tick).
pub const GRAVITY: i64 = 12_000;

/// Taken from the vertical speed by one jump (20 px per tick).
pub const JUMP_IMPULSE: i64 = 200_000;

/// Largest magnitude that any simulated quantity may have when a tick starts
/// (2 to the 60th); below it no step of the simulation can overflow.
pub const MAGNITUDE_LIMIT: i64 = 1_152_921_504_606_846_976;

/// One tick of gravity: an airborne runner accelerates downward; a runner on
/// the floor keeps only an upward speed. The new height never passes the floor.
pub open spec fn fall_step(y: int, v: int) -> (int, int) {
    let v2 = if y < GROUND_Y {
        v + GRAVITY
    } else if v < 0 {
        v
    } else {
        0
    };
    let base = if y < GROUND_Y {
        y
    } else {
        GROUND_Y as int
    };
    let y2 = if base + v2 < GROUND_Y {
        base + v2
    } else {
        GROUND_Y as int
    };
    (y2, v2)
}

/// The height and speed after `n` ticks without a jump.
pub open spec fn fall_for(y: int, v: int, n: nat) -> (int, int)
    decreases n,
{
    if n == 0 {
        (y, v)
    } else {
        let next = fall_step(y, v);
        fall_for(next.0, next.1, (n - 1) as nat)
    }
}

/// The highest point (smallest height) that a runner can reach from the floor
/// with a single jump, rounded outward.
pub open spec fn apex_bound() -> int {
    GROUND_Y - (12 * GRAVITY * JUMP_IMPULSE + 4 * JUMP_IMPULSE * JUMP_IMPULSE + GRAVITY
        * GRAVITY) / (8 * GRAVITY)
}

/// Height at the top of a single jump from rest on the floor (-76.8 px).
pub const JUMP_APEX_Y: i64 = -768_000;

/// Ticks from a single jump on the floor to the top of the flight.
pub const JUMP_APEX_TICKS: u64 = 17;

/// Ticks from a single jump on the floor until the runner is back on it.
pub const JUMP_LANDING_TICKS: u64 = 35;

/// Height and speed `m + 1` ticks after a single jump from rest, while the
/// runner is still in the air.
pub open spec fn flight_at(m: int) -> (int, int) {
    let g = GRAVITY as int;
    let j = JUMP_IMPULSE as int;
    (GROUND_Y - j - j * m + (g / 2) * m * (m + 1), -j + g * m)
}

/// Horizontal distance covered in one tick at scroll speed `speed`.
pub open spec fn scroll_step(speed: int) -> int {
    speed * 3 / 10
}

/// Applies one tick of gravity to the height `y` and vertical speed `v`.
pub fn fall(y: i64, v: i64) -> (r: (i64, i64))
    requires
        -MAGNITUDE_LIMIT <= y <= MAGNITUDE_LIMIT,
        -MAGNITUDE_LIMIT <= v <= MAGNITUDE_LIMIT,
    ensures
        (r.0 as int, r.1 as int) == fall_step(y as int, v as int),
{
    let mut y = y;
    let mut v = v;
    if y < GROUND_Y {
        v = v + GRAVITY;
    } else {
        y = GROUND_Y;
        if v > 0 {
            v = 0;
        }
    }
    let moved = y + v;
    let y2 = if moved < GROUND_Y {
        moved
    } else {
        GROUND_Y
    };
    (y2, v)
}

/// Horizontal distance covered in one tick at scroll speed `speed`.
pub fn scroll_distance(speed: i64) -> (r: i64)
    requires
        0 <= speed <= 2 * MAGNITUDE_LIMIT,
    ensures
        r == scroll_step(speed as int),
{
    speed * 3 / 10
}

/// Holds of every state reached from the floor with a single impulse: while
/// airborne the quantity `2g*y - v*v + g*v` never falls below its value just
/// after take-off, and that keeps the height below `apex_bound()`.
pub open spec fn flight_bounded(y: int, v: int) -> bool {
    &&& y <= GROUND_Y
    &&& y == GROUND_Y ==> v >= -JUMP_IMPULSE
    &&& y < GROUND_Y ==> 2 * GRAVITY * y - v * v + GRAVITY * v >= 2 * GRAVITY * GROUND_Y - 3
        * GRAVITY * JUMP_IMPULSE - JUMP_IMPULSE * JUMP_IMPULSE
}

proof fn lemma_flight_step(y: int, v: int)
    requires
        flight_bounded(y, v),
    ensures
        flight_bounded(fall_step(y, v).0, fall_step(y, v).1),
{
    let g = GRAVITY as int;
    let j = JUMP_IMPULSE as int;
    let floor = GROUND_Y as int;
    let next = fall_step(y, v);
    if y < floor {
        let v2 = v + g;
        if y + v2 < floor {
            assert(2 * g * (y + v2) - v2 * v2 + g * v2 == 2 * g * y - v * v + g * v + 2 * g * g)
                by (nonlinear_arith)
                requires
                    v2 == v + g,
            ;
        }
    } else {
        let v2 = next.1;
        if v2 < 0 {
            assert(2 * g * (floor + v2) - v2 * v2 + g * v2 >= 2 * g * floor - 3 * g * j - j * j)
                by (nonlinear_arith)
                requires
                    -j <= v2 < 0,
                    g == 12_000,
                    j == 200_000,
            ;
        }
    }
}

proof fn lemma_flight_floor(y: int, v: int)
    requires
        flight_bounded(y, v),
    ensures
        apex_bound() <= y <= GROUND_Y,
{
    let g = GRAVITY as int;
    let j = JUMP_IMPULSE as int;
    let floor = GROUND_Y as int;
    if y < floor {
        assert(8 * g * y >= 8 * g * floor - 12 * g * j - 4 * j * j - g * g) by (nonlinear_arith)
            requires
                2 * g * y - v * v + g * v >= 2 * g * floor - 3 * g * j - j * j,
                g == 12_000,
        {
            assert((2 * v - g) * (2 * v - g) >= 0);
        }
    }
}

proof fn lemma_flight_for(y: int, v: int, n: nat)
    requires
        flight_bounded(y, v),
    ensures
        flight_bounded(fall_for(y, v, n).0, fall_for(y, v, n).1),
    decreases n,
{
    if n > 0 {
        lemma_flight_step(y, v);
        let next = fall_step(y, v);
        lemma_flight_for(next.0, next.1, (n - 1) as nat);
    }
}

/// With no further jump, a runner that leaves the floor with at most one
/// impulse never sinks below the floor and never rises above `apex_bound()`,
/// however many ticks pass.
pub proof fn lemma_flight_stays_in_band(v: int, n: nat)
    requires
        v >= -JUMP_IMPULSE,
    ensures
        apex_bound() <= fall_for(GROUND_Y as int, v, n).0 <= GROUND_Y,
{
    lemma_flight_for(GROUND_Y as int, v, n);
    let last = fall_for(GROUND_Y as int, v, n);
    lemma_flight_floor(last.0, last.1);
}

/// A jump taken on the floor lifts the runner off it within the next tick,
/// unless the runner was still moving downward at the speed of a whole
/// impulse or faster.
pub proof fn lemma_jump_leaves_floor(v: int)
    requires
        v < JUMP_IMPULSE,
    ensures
        fall_step(GROUND_Y as int, v - JUMP_IMPULSE).0 < GROUND_Y,
{
}

proof fn lemma_fall_for_last(y: int, v: int, n: nat)
    ensures
        fall_for(y, v, n + 1) == fall_step(fall_for(y, v, n).0, fall_for(y, v, n).1),
    decreases n,
{
    let next = fall_step(y, v);
    if n > 0 {
        lemma_fall_for_last(next.0, next.1, (n - 1) as nat);
        assert(fall_for(y, v, n + 1) == fall_for(next.0, next.1, n));
        assert(fall_for(y, v, n) == fall_for(next.0, next.1, (n - 1) as nat));
    } else {
        assert(fall_for(y, v, 1) == fall_for(next.0, next.1, 0));
        assert(fall_for(y, v, 0) == (y, v));
    }
}

proof fn lemma_flight_closed_form(n: nat)
    requires
        1 <= n < JUMP_LANDING_TICKS,
    ensures
        fall_for(GROUND_Y as int, -JUMP_IMPULSE as int, n) == flight_at(n - 1),
        flight_at(n - 1).0 < GROUND_Y,
    decreases n,
{
    let m = n - 1;
    assert(flight_at(m).0 < GROUND_Y) by (nonlinear_arith)
        requires
            0 <= m <= 33,
            flight_at(m).0 == 800_000 - 200_000 * m + 6_000 * m * (m + 1),
    {
        assert(6_000 * m * (m + 1) < 200_000 * m + 200_000) by (nonlinear_arith)
            requires
                0 <= m <= 33,
        ;
    }
    if n == 1 {
        lemma_fall_for_last(GROUND_Y as int, -JUMP_IMPULSE as int, 0);
        assert(fall_for(GROUND_Y as int, -JUMP_IMPULSE as int, 0) == (
            GROUND_Y as int,
            -JUMP_IMPULSE as int,
        ));
        assert(flight_at(0).0 == 800_000) by (nonlinear_arith);
        assert(flight_at(0).1 == -200_000) by (nonlinear_arith);
    } else {
        lemma_flight_closed_form((n - 1) as nat);
        lemma_fall_for_last(GROUND_Y as int, -JUMP_IMPULSE as int, (n - 1) as nat);
        let k = m - 1;
        assert(flight_at(k).0 + flight_at(k).1 + GRAVITY == flight_at(m).0) by (nonlinear_arith)
            requires
                m == k + 1,
                flight_at(k).0 == 800_000 - 200_000 * k + 6_000 * k * (k + 1),
                flight_at(k).1 == -200_000 + 12_000 * k,
                flight_at(m).0 == 800_000 - 200_000 * m + 6_000 * m * (m + 1),
        ;
        assert(fall_step(flight_at(k).0, flight_at(k).1) == flight_at(m));
    }
}

proof fn lemma_rest_on_floor(v: int, n: nat)
    requires
        v >= 0,
    ensures
        fall_for(GROUND_Y as int, v, n).0 == GROUND_Y,
    decreases n,
{
    if n > 0 {
        lemma_rest_on_floor(0, (n - 1) as nat);
    }
}

/// A single jump from rest on the floor, with no further jump: the runner
/// never leaves the band between the floor and `JUMP_APEX_Y`, reaches that
/// apex after `JUMP_APEX_TICKS` ticks, and stands on the floor again from
/// `JUMP_LANDING_TICKS` ticks on.
pub proof fn lemma_single_jump_flight(n: nat)
    ensures
        JUMP_APEX_Y <= fall_for(GROUND_Y as int, -JUMP_IMPULSE as int, n).0 <= GROUND_Y,
        fall_for(GROUND_Y as int, -JUMP_IMPULSE as int, JUMP_APEX_TICKS as nat).0 == JUMP_APEX_Y,
        n >= JUMP_LANDING_TICKS ==> fall_for(GROUND_Y as int, -JUMP_IMPULSE as int, n).0
            == GROUND_Y,
{
    lemma_flight_closed_form(JUMP_APEX_TICKS as nat);
    if n == 0 {
    } else if n < JUMP_LANDING_TICKS {
        lemma_flight_closed_form(n);
        let m = n - 1;
        assert(flight_at(m).0 >= JUMP_APEX_Y) by (nonlinear_arith)
            requires
                0 <= m,
                flight_at(m).0 == 800_000 - 200_000 * m + 6_000 * m * (m + 1),
        {
            assert((m - 16) * (3 * m - 49) >= 0) by (nonlinear_arith)
                requires
                    0 <= m,
            {
                if m <= 16 {
                    assert((16 - m) * (49 - 3 * m) >= 0) by (nonlinear_arith)
                        requires
                            m <= 16,
                    ;
                } else {
                    assert((m - 16) * (3 * m - 49) >= 0) by (nonlinear_arith)
                        requires
                            m >= 17,
                    ;
                }
            }
        }
    } else {
        let last = (JUMP_LANDING_TICKS - 1) as nat;
        lemma_flight_closed_form(last);
        lemma_fall_for_last(GROUND_Y as int, -JUMP_IMPULSE as int, last);
        let landed = fall_for(GROUND_Y as int, -JUMP_IMPULSE as int, JUMP_LANDING_TICKS as nat);
        assert(landed.0 == GROUND_Y && landed.1 >= 0);
        lemma_fall_for_split(GROUND_Y as int, -JUMP_IMPULSE as int, JUMP_LANDING_TICKS as nat, (n
            - JUMP_LANDING_TICKS) as nat);
        lemma_rest_on_floor(landed.1, (n - JUMP_LANDING_TICKS) as nat);
    }
}

proof fn lemma_fall_for_split(y: int, v: int, a: nat, b: nat)
    ensures
        fall_for(y, v, a + b) == fall_for(fall_for(y, v, a).0, fall_for(y, v, a).1, b),
    decreases a,
{
    if a > 0 {
        let next = fall_step(y, v);
        lemma_fall_for_split(next.0, next.1, (a - 1) as nat, b);
        assert(fall_for(y, v, a + b) == fall_for(next.0, next.1, (a - 1 + b) as nat));
    }
}

} // verus!
