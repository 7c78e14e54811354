//! One whole simulation tick, from steering to combat, with the events it
//! sends out.
use vstd::prelude::*;
use crate::enemy::{
    advance, agent_bounded, attackers, chase_step, damaged, enemy_attack, enemy_chase_velocity,
    enemy_cram_velocity, enemy_damage, enemy_velocity_apply, hits, lemma_hits_at_most, removals, same_but_velocity,
    speed_cap, tick_accel, Agent, DamagePlayerEvent, ATTACK_DAMAGE, FAST_SPEED, PROJECTILE_DAMAGE,
};
use crate::crowding::{crowd_delta, lemma_crowd_sums_bounded, MAX_AGENTS, MAX_IMPULSE};
use crate::geometry::{coord_mag, coords_bounded, div_trunc, lemma_div_trunc_bound, Vec2, COORD_LIMIT};

verus! {

/// Largest position coordinate that a whole tick accepts.
pub const TICK_POS_LIMIT: i64 = 0x80_0000_0000;
/// Largest velocity coordinate that a whole tick accepts.
pub const TICK_VEL_LIMIT: i64 = 0x40_0000_0000;
/// Longest tick, in milliseconds, that a whole tick accepts.
pub const TICK_MS_LIMIT: i64 = 1000;

/// `after` is the population `before` once steered toward `target`.
pub open spec fn chased_all(before: Seq<Agent>, after: Seq<Agent>, target: Vec2, accel: int) -> bool {
    &&& after.len() == before.len()
    &&& forall|i: int| 0 <= i < before.len() ==> chase_step(#[trigger] before[i], after[i], target, accel)
}

/// `after` is the population `before` once crowding has pushed it apart.
pub open spec fn crammed_all(before: Seq<Agent>, after: Seq<Agent>) -> bool {
    &&& after.len() == before.len()
    &&& forall|k: int|
        0 <= k < before.len() ==> {
            &&& same_but_velocity(#[trigger] before[k], after[k])
            &&& after[k].velocity.velocity.x == before[k].velocity.velocity.x + crowd_delta(before, k, true)
            &&& after[k].velocity.velocity.y == before[k].velocity.velocity.y + crowd_delta(before, k, false)
        }
}

/// `after` is the population `before` once moved for `dt_ms` milliseconds.
pub open spec fn advanced_all(before: Seq<Agent>, after: Seq<Agent>, dt_ms: int) -> bool {
    &&& after.len() == before.len()
    &&& forall|i: int|
        0 <= i < before.len() ==> (#[trigger] after[i]) == (Agent {
            position: Vec2 {
                x: advance(before[i].position.x as int, before[i].velocity.velocity.x as int, dt_ms) as i64,
                y: advance(before[i].position.y as int, before[i].velocity.velocity.y as int, dt_ms) as i64,
            },
            ..before[i]
        })
}

/// `after` is the population `before` once hit by the projectiles at `ps`.
pub open spec fn damaged_all(before: Seq<Agent>, after: Seq<Agent>, ps: Seq<Vec2>) -> bool {
    &&& after.len() == before.len()
    &&& forall|i: int| 0 <= i < before.len() ==> #[trigger] after[i] == damaged(before[i], ps)
}

/// An agent whose numbers a whole tick accepts, against `n_projectiles`
/// projectiles. Hits are counted on the positions that integration produces,
/// which a caller cannot know beforehand, so the health bound allows every
/// projectile to hit.
pub open spec fn tick_ready(a: Agent, n_projectiles: int) -> bool {
    &&& -TICK_POS_LIMIT <= a.position.x <= TICK_POS_LIMIT
    &&& -TICK_POS_LIMIT <= a.position.y <= TICK_POS_LIMIT
    &&& -TICK_VEL_LIMIT <= a.velocity.velocity.x <= TICK_VEL_LIMIT
    &&& -TICK_VEL_LIMIT <= a.velocity.velocity.y <= TICK_VEL_LIMIT
    &&& 0 <= a.enemy.enemy_speed <= FAST_SPEED
    &&& a.health.current - PROJECTILE_DAMAGE * n_projectiles >= i32::MIN
}

/// What one tick sends out: strikes against the controlled agent, and the
/// indices of the agents to remove.
pub struct TickOutcome {
    pub damage: Vec<DamagePlayerEvent>,
    pub despawn: Vec<usize>,
}

/// Moving for at most a second shifts a coordinate by at most the velocity.
proof fn lemma_advance_bounded(p: int, v: int, dt_ms: int)
    requires
        0 <= dt_ms <= 1000,
    ensures
        p - (if v < 0 { -v } else { v }) <= advance(p, v, dt_ms) <= p + (if v < 0 { -v } else { v }),
{
    let prod = v * dt_ms;
    lemma_div_trunc_bound(prod, 1000);
    let d = div_trunc(prod, 1000);
    if v >= 0 {
        assert(0 <= prod <= v * 1000) by (nonlinear_arith)
            requires
                v >= 0,
                0 <= dt_ms <= 1000,
                prod == v * dt_ms,
        ;
    } else {
        assert(v * 1000 <= prod < 0 || prod == 0) by (nonlinear_arith)
            requires
                v < 0,
                0 <= dt_ms <= 1000,
                prod == v * dt_ms,
        ;
        if prod == 0 {
            assert(d == 0);
        }
    }
}

/// Over a tick, an agent's health changes only through projectile damage:
/// steering, crowding and moving leave it as it was, and every hit takes
/// `PROJECTILE_DAMAGE` off it. Its maximum never changes, and health that
/// started at or below the maximum stays there.
pub proof fn lemma_tick_only_damages_health(
    start: Seq<Agent>,
    steered: Seq<Agent>,
    crammed: Seq<Agent>,
    moved: Seq<Agent>,
    done: Seq<Agent>,
    target: Vec2,
    projectiles: Seq<Vec2>,
    dt_ms: int,
)
    requires
        chased_all(start, steered, target, tick_accel(dt_ms)),
        crammed_all(steered, crammed),
        advanced_all(crammed, moved, dt_ms),
        damaged_all(moved, done, projectiles),
        forall|i: int|
            0 <= i < start.len() ==> (#[trigger] start[i]).health.current - PROJECTILE_DAMAGE
                * hits(moved[i], projectiles, projectiles.len() as int) >= i32::MIN,
    ensures
        done.len() == start.len(),
        forall|i: int|
            0 <= i < start.len() ==> {
                &&& (#[trigger] done[i]).health.max == start[i].health.max
                &&& done[i].health.current == start[i].health.current - PROJECTILE_DAMAGE * hits(
                    moved[i],
                    projectiles,
                    projectiles.len() as int,
                )
                &&& done[i].health.current <= start[i].health.current
                &&& start[i].health.wf() ==> done[i].health.wf()
            },
{
    assert forall|i: int| 0 <= i < start.len() implies {
        &&& (#[trigger] done[i]).health.max == start[i].health.max
        &&& done[i].health.current == start[i].health.current - PROJECTILE_DAMAGE * hits(
            moved[i],
            projectiles,
            projectiles.len() as int,
        )
        &&& done[i].health.current <= start[i].health.current
        &&& start[i].health.wf() ==> done[i].health.wf()
    } by {
        assert(chase_step(start[i], steered[i], target, tick_accel(dt_ms)));
        assert(same_but_velocity(steered[i], crammed[i]));
        assert(moved[i].health == start[i].health);
    }
}

/// One simulation tick for the controlled agent `player` standing at
/// `player_pos` and the projectiles at `projectiles`: steering, then
/// separation, then integration, then combat. Combat reads the positions that
/// integration produced: every agent within attack range strikes `player`
/// once, and the projectiles wear the agents down.
pub fn simulate_tick(
    agents: &mut Vec<Agent>,
    player: u64,
    player_pos: Vec2,
    projectiles: &Vec<Vec2>,
    dt_ms: i64,
) -> (r: TickOutcome)
    requires
        old(agents).len() <= MAX_AGENTS,
        0 <= dt_ms <= TICK_MS_LIMIT,
        coords_bounded(player_pos),
        forall|j: int| 0 <= j < projectiles.len() ==> coords_bounded(#[trigger] projectiles[j]),
        forall|i: int|
            0 <= i < old(agents).len() ==> tick_ready(#[trigger] old(agents)[i], projectiles.len() as int),
    ensures
        exists|steered: Seq<Agent>, crammed: Seq<Agent>, moved: Seq<Agent>|
            #![trigger chased_all(old(agents)@, steered, player_pos, tick_accel(dt_ms as int)), crammed_all(steered, crammed), advanced_all(crammed, moved, dt_ms as int)]
            {
                &&& chased_all(old(agents)@, steered, player_pos, tick_accel(dt_ms as int))
                &&& crammed_all(steered, crammed)
                &&& advanced_all(crammed, moved, dt_ms as int)
                &&& damaged_all(moved, final(agents)@, projectiles@)
                &&& r.damage.len() == attackers(moved, player_pos, moved.len() as int)
                &&& forall|e: int|
                    0 <= e < r.damage.len() ==> #[trigger] r.damage[e] == (DamagePlayerEvent {
                        target: player,
                        amount: ATTACK_DAMAGE,
                    })
                &&& r.despawn@ == removals(moved, projectiles@, moved.len() as int)
            },
{
    let ghost start = agents@;
    let n = agents.len();
    assert forall|i: int| 0 <= i < n implies agent_bounded(#[trigger] agents[i]) by {
        assert(tick_ready(start[i], projectiles.len() as int));
    }
    enemy_chase_velocity(agents, player_pos, dt_ms);
    let ghost steered = agents@;
    assert forall|i: int| 0 <= i < n implies coord_mag(#[trigger] steered[i].velocity.velocity)
        <= TICK_VEL_LIMIT by {
        assert(tick_ready(start[i], projectiles.len() as int));
        assert(coord_mag(steered[i].velocity.velocity) <= speed_cap(start[i]));
    }
    enemy_cram_velocity(agents);
    let ghost crammed = agents@;
    assert forall|i: int| 0 <= i < n implies {
        &&& -TICK_VEL_LIMIT - 2 * MAX_IMPULSE * MAX_AGENTS <= #[trigger] crammed[i].velocity.velocity.x
            <= TICK_VEL_LIMIT + 2 * MAX_IMPULSE * MAX_AGENTS
        &&& -TICK_VEL_LIMIT - 2 * MAX_IMPULSE * MAX_AGENTS <= crammed[i].velocity.velocity.y
            <= TICK_VEL_LIMIT + 2 * MAX_IMPULSE * MAX_AGENTS
    } by {
        assert(agent_bounded(steered[i]));
        assert(coord_mag(steered[i].velocity.velocity) <= TICK_VEL_LIMIT);
        assert forall|k: int| 0 <= k < steered.len() implies 0 <= (#[trigger] steered[k]).enemy.enemy_speed
            <= FAST_SPEED by {
            assert(agent_bounded(steered[k]));
        }
        lemma_crowd_sums_bounded(steered, i, i, true);
        lemma_crowd_sums_bounded(steered, i, n as int, true);
        lemma_crowd_sums_bounded(steered, i, i, false);
        lemma_crowd_sums_bounded(steered, i, n as int, false);
        assert(MAX_IMPULSE * i <= MAX_IMPULSE * MAX_AGENTS) by (nonlinear_arith)
            requires
                0 <= i <= MAX_AGENTS,
                MAX_IMPULSE >= 0,
        ;
        assert(MAX_IMPULSE * n <= MAX_IMPULSE * MAX_AGENTS) by (nonlinear_arith)
            requires
                0 <= n <= MAX_AGENTS,
                MAX_IMPULSE >= 0,
        ;
    }
    enemy_velocity_apply(agents, dt_ms);
    let ghost moved = agents@;
    assert forall|i: int| 0 <= i < n implies coords_bounded(#[trigger] agents[i].position) by {
        assert(tick_ready(start[i], projectiles.len() as int));
        lemma_advance_bounded(
            crammed[i].position.x as int,
            crammed[i].velocity.velocity.x as int,
            dt_ms as int,
        );
        lemma_advance_bounded(
            crammed[i].position.y as int,
            crammed[i].velocity.velocity.y as int,
            dt_ms as int,
        );
        assert(crammed[i].position == start[i].position);
    }
    assert forall|i: int| 0 <= i < n implies (#[trigger] agents[i]).health.current
        - PROJECTILE_DAMAGE * hits(agents[i], projectiles@, projectiles.len() as int) >= i32::MIN by {
        assert(tick_ready(start[i], projectiles.len() as int));
        lemma_hits_at_most(agents[i], projectiles@, projectiles.len() as int);
        assert(agents[i].health == start[i].health);
    }
    let damage = enemy_attack(agents, player, player_pos);
    let despawn = enemy_damage(agents, projectiles);
    assert(chased_all(start, steered, player_pos, tick_accel(dt_ms as int)));
    assert(crammed_all(steered, crammed));
    assert(advanced_all(crammed, moved, dt_ms as int));
    TickOutcome { damage, despawn }
}

} // verus!
