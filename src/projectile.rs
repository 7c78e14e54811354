//! Projectiles: firing toward a cursor and moving in flight.
use vstd::prelude::*;
use crate::enemy::{advance, advance_exec, MAX_TICK_MS};
use crate::geometry::{coords_bounded, rescale_exec, rescaled, Vec2, COORD_LIMIT, UNIT};

pub use crate::enemy::Velocity;

verus! {

/// Speed of a fired projectile, in sub-units per second.
pub const PROJECTILE_SPEED: i64 = 1000 * UNIT;

/// A projectile in flight. It belongs to no agent once fired.
#[derive(Clone, Copy, Debug, PartialEq, Eq, Structural)]
pub struct Projectile {
    pub position: Vec2,
    pub velocity: Velocity,
}

/// The projectile fired from `from` toward `cursor`, or `None` when the
/// trigger is not pulled (`fire` covers both the button and the cooldown).
/// It flies at `PROJECTILE_SPEED` toward the cursor; a cursor on the firing
/// spot gives it no velocity.
pub fn projectile_inputs(fire: bool, from: Vec2, cursor: Vec2) -> (r: Option<Projectile>)
    requires
        coords_bounded(from),
        coords_bounded(cursor),
    ensures
        fire <==> r is Some,
        fire ==> r->Some_0.position == from,
        fire ==> r->Some_0.velocity.velocity.x == rescaled(
            cursor.x - from.x,
            cursor.y - from.y,
            PROJECTILE_SPEED as int,
        ).0,
        fire ==> r->Some_0.velocity.velocity.y == rescaled(
            cursor.x - from.x,
            cursor.y - from.y,
            PROJECTILE_SPEED as int,
        ).1,
{
    if !fire {
        return None;
    }
    let dx = (cursor.x as i128) - (from.x as i128);
    let dy = (cursor.y as i128) - (from.y as i128);
    let v = rescale_exec(dx, dy, PROJECTILE_SPEED as i128);
    proof {
        crate::geometry::lemma_rescaled_coords(dx as int, dy as int, PROJECTILE_SPEED as int);
    }
    Some(Projectile { position: from, velocity: Velocity { velocity: Vec2 { x: v.0 as i64, y: v.1 as i64 } } })
}

/// Every projectile moves along its velocity for a tick of `dt_ms`
/// milliseconds.
pub fn projectile_movement(projectiles: &mut Vec<Projectile>, dt_ms: i64)
    requires
        0 <= dt_ms <= MAX_TICK_MS,
        forall|i: int|
            0 <= i < old(projectiles).len() ==> {
                &&& coords_bounded(#[trigger] old(projectiles)[i].position)
                &&& coords_bounded(old(projectiles)[i].velocity.velocity)
            },
    ensures
        final(projectiles).len() == old(projectiles).len(),
        forall|i: int|
            0 <= i < old(projectiles).len() ==> {
                &&& (#[trigger] final(projectiles)[i]).velocity == old(projectiles)[i].velocity
                &&& final(projectiles)[i].position.x == advance(
                    old(projectiles)[i].position.x as int,
                    old(projectiles)[i].velocity.velocity.x as int,
                    dt_ms as int,
                )
                &&& final(projectiles)[i].position.y == advance(
                    old(projectiles)[i].position.y as int,
                    old(projectiles)[i].velocity.velocity.y as int,
                    dt_ms as int,
                )
            },
{
    let n = projectiles.len();
    let mut i: usize = 0;
    while i < n
        invariant
            n == projectiles.len() == old(projectiles).len(),
            0 <= i <= n,
            0 <= dt_ms <= MAX_TICK_MS,
            forall|k: int|
                0 <= k < n ==> {
                    &&& coords_bounded(#[trigger] old(projectiles)[k].position)
                    &&& coords_bounded(old(projectiles)[k].velocity.velocity)
                },
            forall|k: int|
                0 <= k < i ==> {
                    &&& (#[trigger] projectiles[k]).velocity == old(projectiles)[k].velocity
                    &&& projectiles[k].position.x == advance(
                        old(projectiles)[k].position.x as int,
                        old(projectiles)[k].velocity.velocity.x as int,
                        dt_ms as int,
                    )
                    &&& projectiles[k].position.y == advance(
                        old(projectiles)[k].position.y as int,
                        old(projectiles)[k].velocity.velocity.y as int,
                        dt_ms as int,
                    )
                },
            forall|k: int| i <= k < n ==> #[trigger] projectiles[k] == old(projectiles)[k],
        decreases n - i,
    {
        let mut p = projectiles[i];
        assert(COORD_LIMIT > 0);
        p.position = Vec2 {
            x: advance_exec(p.position.x, p.velocity.velocity.x, dt_ms),
            y: advance_exec(p.position.y, p.velocity.velocity.y, dt_ms),
        };
        projectiles.set(i, p);
        i = i + 1;
    }
}

} // verus!
