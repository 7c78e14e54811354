//! Pursuit steering: acceleration toward a target, capped at a top speed,
//! and braking to rest without one.
use vstd::prelude::*;
use crate::geometry::{
    ceil_root, coord_mag, coords_bounded, lemma_ceil_root_covers, lemma_rescale_bound,
    lemma_rescaled_coords, lemma_rescaled_within, norm_sq, rescale, rescale_exec, rescaled,
    square_len, Vec2, COORD_LIMIT,
};

verus! {

/// The vector `(x, y)` capped at length `m`.
pub open spec fn clamp_len(x: int, y: int, m: int) -> (int, int) {
    if norm_sq(x, y) <= m * m {
        (x, y)
    } else {
        rescaled(x, y, m)
    }
}

/// The pursuit rule. With a direction to the target, the velocity gains
/// `accel` along it and is capped at `max_speed`. Without one, a velocity
/// faster than `accel` loses `accel` along itself, and a slower one stops.
pub open spec fn steer_spec(v: Vec2, dir: Vec2, max_speed: int, accel: int) -> (int, int) {
    if dir.x != 0 || dir.y != 0 {
        let d = rescaled(dir.x as int, dir.y as int, accel);
        clamp_len(v.x + d.0, v.y + d.1, max_speed)
    } else if norm_sq(v.x as int, v.y as int) > accel * accel {
        let d = rescaled(v.x as int, v.y as int, accel);
        (v.x - d.0, v.y - d.1)
    } else {
        (0, 0)
    }
}

/// Braking by `accel` along a velocity longer than `accel` keeps each
/// coordinate's sign and shrinks its magnitude.
proof fn lemma_brake_shrinks(c: int, accel: int, len: int)
    requires
        0 <= accel < len,
        -len <= c <= len,
    ensures
        c >= 0 ==> 0 <= c - rescale(c, accel, len) <= c,
        c < 0 ==> c <= c - rescale(c, accel, len) <= 0,
{
    lemma_rescale_bound(c, accel, len);
    let a = rescale(c, accel, len);
    if c >= 0 {
        assert(c * accel <= c * len) by (nonlinear_arith)
            requires
                accel < len,
                c >= 0,
        ;
        assert(a <= c) by (nonlinear_arith)
            requires
                a * len <= c * len,
                len > 0,
        ;
        assert(a >= 0) by (nonlinear_arith)
            requires
                0 <= a * len,
                len > 0,
        ;
    } else {
        assert(-c * accel <= -c * len) by (nonlinear_arith)
            requires
                accel < len,
                c < 0,
        ;
        assert(-a <= -c) by (nonlinear_arith)
            requires
                -a * len <= -c * len,
                len > 0,
        ;
        assert(a <= 0) by (nonlinear_arith)
            requires
                0 <= -a * len,
                len > 0,
        ;
    }
}

/// With a direction to the target, the new speed never exceeds the top speed.
pub proof fn lemma_steer_within_max_speed(v: Vec2, dir: Vec2, max_speed: int, accel: int)
    requires
        dir.x != 0 || dir.y != 0,
        max_speed >= 0,
        accel >= 0,
    ensures
        norm_sq(steer_spec(v, dir, max_speed, accel).0, steer_spec(v, dir, max_speed, accel).1)
            <= max_speed * max_speed,
{
    let d = rescaled(dir.x as int, dir.y as int, accel);
    let (wx, wy) = (v.x + d.0, v.y + d.1);
    if norm_sq(wx, wy) > max_speed * max_speed {
        lemma_rescaled_within(wx, wy, max_speed);
    }
}

/// Without a direction to the target, an agent no faster than one tick's
/// acceleration comes to rest exactly.
pub proof fn lemma_steer_comes_to_rest(v: Vec2, dir: Vec2, max_speed: int, accel: int)
    requires
        dir.x == 0 && dir.y == 0,
        norm_sq(v.x as int, v.y as int) <= accel * accel,
    ensures
        steer_spec(v, dir, max_speed, accel) == (0int, 0int),
{
}

/// The new velocity of an agent moving at `velocity` with `dir` toward its
/// target.
pub fn steer(velocity: Vec2, dir: Vec2, max_speed: i64, accel: i64) -> (r: Vec2)
    requires
        coords_bounded(velocity),
        -2 * COORD_LIMIT <= dir.x <= 2 * COORD_LIMIT,
        -2 * COORD_LIMIT <= dir.y <= 2 * COORD_LIMIT,
        0 <= max_speed <= COORD_LIMIT,
        0 <= accel <= COORD_LIMIT,
    ensures
        r.x == steer_spec(velocity, dir, max_speed as int, accel as int).0,
        r.y == steer_spec(velocity, dir, max_speed as int, accel as int).1,
        coords_bounded(r),
        coord_mag(r) <= if coord_mag(velocity) > max_speed {
            coord_mag(velocity)
        } else {
            max_speed as int
        },
{
    let vx = velocity.x as i128;
    let vy = velocity.y as i128;
    assert(0 <= max_speed * max_speed <= 0x1_0000_0000_0000_0000_0000 && 0 <= accel * accel
        <= 0x1_0000_0000_0000_0000_0000) by (nonlinear_arith)
        requires
            0 <= max_speed <= 0x100_0000_0000,
            0 <= accel <= 0x100_0000_0000,
    ;
    if dir.x != 0 || dir.y != 0 {
        let d = rescale_exec(dir.x as i128, dir.y as i128, accel as i128);
        proof {
            lemma_rescaled_coords(dir.x as int, dir.y as int, accel as int);
        }
        let wx = vx + d.0;
        let wy = vy + d.1;
        let ms = max_speed as i128;
        if square_len(wx, wy) <= ms * ms {
            proof {
                assert(-max_speed <= wx <= max_speed && -max_speed <= wy <= max_speed)
                    by (nonlinear_arith)
                    requires
                        wx * wx + wy * wy <= ms * ms,
                        ms == max_speed,
                        max_speed >= 0,
                ;
            }
            Vec2 { x: wx as i64, y: wy as i64 }
        } else {
            let c = rescale_exec(wx, wy, ms);
            proof {
                lemma_rescaled_coords(wx as int, wy as int, max_speed as int);
            }
            Vec2 { x: c.0 as i64, y: c.1 as i64 }
        }
    } else if square_len(vx, vy) > (accel as i128) * (accel as i128) {
        let d = rescale_exec(vx, vy, accel as i128);
        proof {
            lemma_ceil_root_covers(vx as int, vy as int);
            let len = ceil_root(norm_sq(vx as int, vy as int));
            assert(accel < len) by (nonlinear_arith)
                requires
                    len * len >= vx * vx + vy * vy,
                    vx * vx + vy * vy > accel * accel,
                    accel >= 0,
                    len >= 0,
            ;
            lemma_brake_shrinks(vx as int, accel as int, len);
            lemma_brake_shrinks(vy as int, accel as int, len);
        }
        Vec2 { x: (vx - d.0) as i64, y: (vy - d.1) as i64 }
    } else {
        Vec2 { x: 0, y: 0 }
    }
}


} // verus!
