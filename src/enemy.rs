//! The swarm: agent tiers and state, steering and crowding passes over a
//! population, integration, combat and spawning.
use vstd::prelude::*;
use crate::components::Health;
use crate::crowding::{
    crowd_delta, crowd_gain, crowd_impulse, crowd_loss, lemma_crowd_sums_bounded, MAX_AGENTS,
};
use crate::geometry::{coord_mag, coords_bounded, norm_sq, square_len, Vec2, COORD_LIMIT, UNIT};
use crate::steering::{steer, steer_spec};

verus! {

/// Top speed of each tier, in sub-units per second.
pub const NORMAL_SPEED: i64 = 100 * UNIT;
pub const STRONG_SPEED: i64 = 100 * UNIT;
pub const FAST_SPEED: i64 = 600 * UNIT;

/// Health pool of each tier.
pub const NORMAL_HEALTH: i32 = 100;
pub const STRONG_HEALTH: i32 = 500;
pub const FAST_HEALTH: i32 = 50;

/// Collision radius, shared by crowding and projectile hits.
pub const RADIUS: i64 = 50 * UNIT;
/// Distance below which an agent strikes the controlled agent.
pub const ATTACK_RADIUS: i64 = 100 * UNIT;
/// Acceleration toward the target, in sub-units per second squared.
pub const ACCEL_RATE: i64 = 10000 * UNIT;
/// Longest tick the stages accept, in milliseconds.
pub const MAX_TICK_MS: i64 = 60000;
/// Damage one agent in range deals to the controlled agent each tick.
pub const ATTACK_DAMAGE: i32 = 1;
/// Damage one projectile in range deals to an agent each tick.
pub const PROJECTILE_DAMAGE: i32 = 10;
/// Size of the initial population.
pub const SPAWN_COUNT: usize = 17;

/// Agent tiers.
#[derive(Clone, Copy, Debug, PartialEq, Eq, Structural)]
pub enum EnemyType {
    Normal,
    Strong,
    Fast,
}

pub open spec fn type_speed(t: EnemyType) -> int {
    match t {
        EnemyType::Normal => NORMAL_SPEED as int,
        EnemyType::Strong => STRONG_SPEED as int,
        EnemyType::Fast => FAST_SPEED as int,
    }
}

/// The tier of an agent and the top speed it fixes.
#[derive(Clone, Copy, Debug, PartialEq, Eq, Structural)]
pub struct Enemy {
    pub enemy_type: EnemyType,
    pub enemy_speed: i64,
}

impl Enemy {
    pub fn new(enemy_type: EnemyType) -> (r: Enemy)
        ensures
            r.enemy_type == enemy_type,
            r.enemy_speed == type_speed(enemy_type),
    {
        let enemy_speed = match enemy_type {
            EnemyType::Normal => NORMAL_SPEED,
            EnemyType::Strong => STRONG_SPEED,
            EnemyType::Fast => FAST_SPEED,
        };
        Enemy { enemy_type, enemy_speed }
    }
}

/// Velocity in sub-units per second.
#[derive(Clone, Copy, Debug, PartialEq, Eq, Structural)]
pub struct Velocity {
    pub velocity: Vec2,
}

impl Velocity {
    pub fn new() -> (r: Self)
        ensures
            r.velocity == (Vec2 { x: 0, y: 0 }),
    {
        Self { velocity: Vec2 { x: 0, y: 0 } }
    }
}

/// One hostile agent of the swarm.
///
/// `facing` is the direction the agent last looked in: toward its target, as
/// a vector (a renderer turns it into an angle).
#[derive(Clone, Copy, Debug, PartialEq, Eq, Structural)]
pub struct Agent {
    pub enemy: Enemy,
    pub position: Vec2,
    pub velocity: Velocity,
    pub facing: Vec2,
    pub health: Health,
}

/// An agent whose numbers the simulation stages accept.
pub open spec fn agent_bounded(a: Agent) -> bool {
    &&& coords_bounded(a.position)
    &&& coords_bounded(a.velocity.velocity)
    &&& 0 <= a.enemy.enemy_speed <= FAST_SPEED
}

/// Speed gained per tick of `dt_ms` milliseconds.
pub open spec fn tick_accel(dt_ms: int) -> int {
    ACCEL_RATE * dt_ms / 1000
}

/// `after` is `before` once it has turned toward `target` and steered with
/// `accel`.
pub open spec fn chase_step(before: Agent, after: Agent, target: Vec2, accel: int) -> bool {
    let dir = Vec2 {
        x: (target.x - before.position.x) as i64,
        y: (target.y - before.position.y) as i64,
    };
    &&& after.enemy == before.enemy
    &&& after.position == before.position
    &&& after.health == before.health
    &&& after.facing == dir
    &&& after.velocity.velocity.x == steer_spec(
        before.velocity.velocity,
        dir,
        before.enemy.enemy_speed as int,
        accel,
    ).0
    &&& after.velocity.velocity.y == steer_spec(
        before.velocity.velocity,
        dir,
        before.enemy.enemy_speed as int,
        accel,
    ).1
}

/// The larger of an agent's top speed and its largest velocity coordinate:
/// steering never takes a velocity coordinate beyond it.
pub open spec fn speed_cap(a: Agent) -> int {
    if coord_mag(a.velocity.velocity) > a.enemy.enemy_speed {
        coord_mag(a.velocity.velocity)
    } else {
        a.enemy.enemy_speed as int
    }
}

/// Steering: every agent turns toward `target` and steers toward it for a
/// tick of `dt_ms` milliseconds.
pub fn enemy_chase_velocity(agents: &mut Vec<Agent>, target: Vec2, dt_ms: i64)
    requires
        coords_bounded(target),
        0 <= dt_ms <= MAX_TICK_MS,
        forall|i: int| 0 <= i < old(agents).len() ==> agent_bounded(#[trigger] old(agents)[i]),
    ensures
        final(agents).len() == old(agents).len(),
        forall|i: int|
            0 <= i < old(agents).len() ==> chase_step(
                #[trigger] old(agents)[i],
                final(agents)[i],
                target,
                tick_accel(dt_ms as int),
            ),
        forall|i: int| 0 <= i < final(agents).len() ==> agent_bounded(#[trigger] final(agents)[i]),
        forall|i: int|
            0 <= i < final(agents).len() ==> coord_mag((#[trigger] final(agents)[i]).velocity.velocity)
                <= speed_cap(old(agents)[i]),
{
    let accel = ACCEL_RATE * dt_ms / 1000;
    let n = agents.len();
    let mut i: usize = 0;
    while i < n
        invariant
            n == agents.len() == old(agents).len(),
            0 <= i <= n,
            coords_bounded(target),
            accel == tick_accel(dt_ms as int),
            0 <= accel <= COORD_LIMIT,
            forall|k: int| 0 <= k < n ==> agent_bounded(#[trigger] agents[k]),
            forall|k: int| 0 <= k < i ==> chase_step(#[trigger] old(agents)[k], agents[k], target, accel as int),
            forall|k: int|
                0 <= k < i ==> coord_mag((#[trigger] agents[k]).velocity.velocity) <= speed_cap(old(agents)[k]),
            forall|k: int| i <= k < n ==> #[trigger] agents[k] == old(agents)[k],
        decreases n - i,
    {
        let mut a = agents[i];
        let dir = Vec2 { x: target.x - a.position.x, y: target.y - a.position.y };
        a.velocity.velocity = steer(a.velocity.velocity, dir, a.enemy.enemy_speed, accel);
        a.facing = dir;
        agents.set(i, a);
        i = i + 1;
    }
}

/// `p` moved at `v` sub-units per second for `dt_ms` milliseconds.
pub open spec fn advance(p: int, v: int, dt_ms: int) -> int {
    p + crate::geometry::div_trunc(v * dt_ms, 1000)
}

/// Integration: every agent moves along its velocity for a tick of `dt_ms`
/// milliseconds. Nothing else changes.
pub fn enemy_velocity_apply(agents: &mut Vec<Agent>, dt_ms: i64)
    requires
        0 <= dt_ms <= MAX_TICK_MS,
        forall|i: int|
            0 <= i < old(agents).len() ==> velocity_apply_ok(#[trigger] old(agents)[i]),
    ensures
        final(agents).len() == old(agents).len(),
        forall|i: int|
            0 <= i < old(agents).len() ==> (#[trigger] final(agents)[i]) == (Agent {
                position: Vec2 {
                    x: advance(
                        old(agents)[i].position.x as int,
                        old(agents)[i].velocity.velocity.x as int,
                        dt_ms as int,
                    ) as i64,
                    y: advance(
                        old(agents)[i].position.y as int,
                        old(agents)[i].velocity.velocity.y as int,
                        dt_ms as int,
                    ) as i64,
                },
                ..old(agents)[i]
            }),
{
    let n = agents.len();
    let mut i: usize = 0;
    while i < n
        invariant
            n == agents.len() == old(agents).len(),
            0 <= i <= n,
            0 <= dt_ms <= MAX_TICK_MS,
            forall|k: int| 0 <= k < n ==> velocity_apply_ok(#[trigger] old(agents)[k]),
            forall|k: int|
                0 <= k < i ==> (#[trigger] agents[k]) == (Agent {
                    position: Vec2 {
                        x: advance(
                            old(agents)[k].position.x as int,
                            old(agents)[k].velocity.velocity.x as int,
                            dt_ms as int,
                        ) as i64,
                        y: advance(
                            old(agents)[k].position.y as int,
                            old(agents)[k].velocity.velocity.y as int,
                            dt_ms as int,
                        ) as i64,
                    },
                    ..old(agents)[k]
                }),
            forall|k: int| i <= k < n ==> #[trigger] agents[k] == old(agents)[k],
        decreases n - i,
    {
        let mut a = agents[i];
        a.position = Vec2 {
            x: advance_exec(a.position.x, a.velocity.velocity.x, dt_ms),
            y: advance_exec(a.position.y, a.velocity.velocity.y, dt_ms),
        };
        agents.set(i, a);
        i = i + 1;
    }
}

/// An agent whose position and velocity integration accepts: the position
/// within `COORD_LIMIT`, the velocity within twice that.
pub open spec fn velocity_apply_ok(a: Agent) -> bool {
    &&& coords_bounded(a.position)
    &&& -2 * COORD_LIMIT <= a.velocity.velocity.x <= 2 * COORD_LIMIT
    &&& -2 * COORD_LIMIT <= a.velocity.velocity.y <= 2 * COORD_LIMIT
}

/// One coordinate of `p` moved at `v` for `dt_ms` milliseconds.
pub fn advance_exec(p: i64, v: i64, dt_ms: i64) -> (r: i64)
    requires
        -COORD_LIMIT <= p <= COORD_LIMIT,
        -2 * COORD_LIMIT <= v <= 2 * COORD_LIMIT,
        0 <= dt_ms <= MAX_TICK_MS,
    ensures
        r == advance(p as int, v as int, dt_ms as int),
{
    assert(-0x200_0000_0000 * 60000 <= v * dt_ms <= 0x200_0000_0000 * 60000) by (nonlinear_arith)
        requires
            -0x200_0000_0000 <= v <= 0x200_0000_0000,
            0 <= dt_ms <= 60000,
    ;
    let prod = (v as i128) * (dt_ms as i128);
    let step = crate::geometry::div_toward_zero(prod, 1000);
    proof {
        crate::geometry::lemma_div_trunc_bound(prod as int, 1000);
    }
    (p as i128 + step) as i64
}

/// `after` differs from `before` in its velocity at most.
pub open spec fn same_but_velocity(before: Agent, after: Agent) -> bool {
    &&& after.enemy == before.enemy
    &&& after.position == before.position
    &&& after.facing == before.facing
    &&& after.health == before.health
}

/// Separation: every unordered pair of overlapping agents pushes apart. For
/// each pair, taken in population order, the later agent receives the
/// crowding impulse scaled by its own top speed and the earlier agent exactly
/// its negation.
pub fn enemy_cram_velocity(agents: &mut Vec<Agent>)
    requires
        old(agents).len() <= MAX_AGENTS,
        forall|i: int| 0 <= i < old(agents).len() ==> agent_bounded(#[trigger] old(agents)[i]),
    ensures
        final(agents).len() == old(agents).len(),
        forall|k: int|
            0 <= k < old(agents).len() ==> {
                &&& same_but_velocity(#[trigger] old(agents)[k], final(agents)[k])
                &&& final(agents)[k].velocity.velocity.x == old(agents)[k].velocity.velocity.x
                    + crowd_delta(old(agents)@, k, true)
                &&& final(agents)[k].velocity.velocity.y == old(agents)[k].velocity.velocity.y
                    + crowd_delta(old(agents)@, k, false)
            },
        forall|k: int| 0 <= k < final(agents).len() ==> velocity_apply_ok(#[trigger] final(agents)[k]),
{
    let ghost ag = agents@;
    let n = agents.len();
    let mut i: usize = 0;
    while i < n
        invariant
            n == agents.len() == ag.len(),
            n <= MAX_AGENTS,
            0 <= i <= n,
            forall|k: int| 0 <= k < n ==> agent_bounded(#[trigger] ag[k]),
            forall|k: int| 0 <= k < n ==> same_but_velocity(#[trigger] ag[k], agents[k]),
            forall|k: int|
                0 <= k < i ==> {
                    &&& (#[trigger] agents[k]).velocity.velocity.x == ag[k].velocity.velocity.x
                        + crowd_gain(ag, k, k, true) - crowd_loss(ag, k, i as int, true)
                    &&& agents[k].velocity.velocity.y == ag[k].velocity.velocity.y + crowd_gain(
                        ag,
                        k,
                        k,
                        false,
                    ) - crowd_loss(ag, k, i as int, false)
                },
            forall|k: int| i <= k < n ==> #[trigger] agents[k] == ag[k],
        decreases n - i,
    {
        let mut j: usize = 0;
        while j < i
            invariant
                n == agents.len() == ag.len(),
                n <= MAX_AGENTS,
                0 <= j <= i < n,
                forall|k: int| 0 <= k < n ==> agent_bounded(#[trigger] ag[k]),
                forall|k: int| 0 <= k < n ==> same_but_velocity(#[trigger] ag[k], agents[k]),
                forall|k: int|
                    0 <= k < j ==> {
                        &&& (#[trigger] agents[k]).velocity.velocity.x == ag[k].velocity.velocity.x
                            + crowd_gain(ag, k, k, true) - crowd_loss(ag, k, i + 1, true)
                        &&& agents[k].velocity.velocity.y == ag[k].velocity.velocity.y
                            + crowd_gain(ag, k, k, false) - crowd_loss(ag, k, i + 1, false)
                    },
                forall|k: int|
                    j <= k < i ==> {
                        &&& (#[trigger] agents[k]).velocity.velocity.x == ag[k].velocity.velocity.x
                            + crowd_gain(ag, k, k, true) - crowd_loss(ag, k, i as int, true)
                        &&& agents[k].velocity.velocity.y == ag[k].velocity.velocity.y
                            + crowd_gain(ag, k, k, false) - crowd_loss(ag, k, i as int, false)
                    },
                agents[i as int].velocity.velocity.x == ag[i as int].velocity.velocity.x + crowd_gain(
                    ag,
                    i as int,
                    j as int,
                    true,
                ),
                agents[i as int].velocity.velocity.y == ag[i as int].velocity.velocity.y + crowd_gain(
                    ag,
                    i as int,
                    j as int,
                    false,
                ),
                forall|k: int| i < k < n ==> #[trigger] agents[k] == ag[k],
            decreases i - j,
        {
            let mut later = agents[i];
            let mut earlier = agents[j];
            assert(agent_bounded(ag[i as int]) && agent_bounded(ag[j as int]));
            let imp = crowd_impulse(later.position, later.enemy.enemy_speed, earlier.position);
            proof {
                lemma_crowd_sums_bounded(ag, i as int, j as int + 1, true);
                lemma_crowd_sums_bounded(ag, i as int, j as int + 1, false);
                lemma_crowd_sums_bounded(ag, j as int, j as int, true);
                lemma_crowd_sums_bounded(ag, j as int, j as int, false);
                lemma_crowd_sums_bounded(ag, j as int, i as int + 1, true);
                lemma_crowd_sums_bounded(ag, j as int, i as int + 1, false);
            }
            later.velocity.velocity.x = later.velocity.velocity.x + imp.0;
            later.velocity.velocity.y = later.velocity.velocity.y + imp.1;
            agents.set(i, later);
            earlier.velocity.velocity.x = earlier.velocity.velocity.x - imp.0;
            earlier.velocity.velocity.y = earlier.velocity.velocity.y - imp.1;
            agents.set(j, earlier);
            j = j + 1;
        }
        i = i + 1;
    }
    proof {
        assert forall|k: int| 0 <= k < n implies velocity_apply_ok(#[trigger] agents[k]) by {
            lemma_crowd_sums_bounded(ag, k, k, true);
            lemma_crowd_sums_bounded(ag, k, k, false);
            lemma_crowd_sums_bounded(ag, k, n as int, true);
            lemma_crowd_sums_bounded(ag, k, n as int, false);
            assert(agent_bounded(ag[k]));
        }
    }
}

/// `a` is close enough to `p` to strike it.
pub open spec fn in_attack_range(a: Agent, p: Vec2) -> bool {
    norm_sq(a.position.x - p.x, a.position.y - p.y) < ATTACK_RADIUS * ATTACK_RADIUS
}

/// How many of the first `n` agents are in attack range of `p`.
pub open spec fn attackers(agents: Seq<Agent>, p: Vec2, n: int) -> nat
    decreases n,
{
    if n <= 0 {
        0
    } else {
        attackers(agents, p, n - 1) + if in_attack_range(agents[n - 1], p) {
            1nat
        } else {
            0nat
        }
    }
}

/// A strike against the controlled agent `target`.
#[derive(Clone, Copy, Debug, PartialEq, Eq, Structural)]
pub struct DamagePlayerEvent {
    pub target: u64,
    pub amount: i32,
}

impl DamagePlayerEvent {
    pub fn new(target: u64, amount: i32) -> (r: Self)
        ensures
            r.target == target,
            r.amount == amount,
    {
        Self { target, amount }
    }
}

/// Attacks on the controlled agent `player` at `player_pos`: one event of
/// `ATTACK_DAMAGE` for each agent in attack range.
pub fn enemy_attack(agents: &Vec<Agent>, player: u64, player_pos: Vec2) -> (events: Vec<DamagePlayerEvent>)
    requires
        coords_bounded(player_pos),
        forall|i: int| 0 <= i < agents.len() ==> coords_bounded(#[trigger] agents[i].position),
    ensures
        events.len() == attackers(agents@, player_pos, agents.len() as int),
        forall|i: int|
            0 <= i < events.len() ==> #[trigger] events[i] == (DamagePlayerEvent {
                target: player,
                amount: ATTACK_DAMAGE,
            }),
{
    let attack_radius_sq: i128 = 10_000_000_000;
    assert(ATTACK_RADIUS == 100000);
    assert(attack_radius_sq == ATTACK_RADIUS * ATTACK_RADIUS) by (nonlinear_arith)
        requires
            ATTACK_RADIUS == 100000,
            attack_radius_sq == 10_000_000_000,
    ;
    let mut events: Vec<DamagePlayerEvent> = Vec::new();
    let n = agents.len();
    let mut i: usize = 0;
    while i < n
        invariant
            n == agents.len(),
            0 <= i <= n,
            coords_bounded(player_pos),
            forall|k: int| 0 <= k < n ==> coords_bounded(#[trigger] agents[k].position),
            events.len() == attackers(agents@, player_pos, i as int),
            attack_radius_sq == ATTACK_RADIUS * ATTACK_RADIUS,
            forall|k: int|
                0 <= k < events.len() ==> #[trigger] events[k] == (DamagePlayerEvent {
                    target: player,
                    amount: ATTACK_DAMAGE,
                }),
        decreases n - i,
    {
        let a = agents[i];
        let dx = (a.position.x as i128) - (player_pos.x as i128);
        let dy = (a.position.y as i128) - (player_pos.y as i128);
        if square_len(dx, dy) < attack_radius_sq {
            events.push(DamagePlayerEvent::new(player, ATTACK_DAMAGE));
        }
        i = i + 1;
    }
    events
}

/// The projectile at `p` is close enough to `a` to hit it.
pub open spec fn hit_by(a: Agent, p: Vec2) -> bool {
    norm_sq(p.x - a.position.x, p.y - a.position.y) <= RADIUS * RADIUS
}

/// How many of the first `m` projectiles hit `a`.
pub open spec fn hits(a: Agent, ps: Seq<Vec2>, m: int) -> nat
    decreases m,
{
    if m <= 0 {
        0
    } else {
        hits(a, ps, m - 1) + if hit_by(a, ps[m - 1]) {
            1nat
        } else {
            0nat
        }
    }
}

/// No more hits than projectiles.
pub proof fn lemma_hits_at_most(a: Agent, ps: Seq<Vec2>, m: int)
    requires
        0 <= m,
    ensures
        hits(a, ps, m) <= m,
    decreases m,
{
    if m > 0 {
        lemma_hits_at_most(a, ps, m - 1);
    }
}

/// Counting over more projectiles never finds fewer hits.
pub proof fn lemma_hits_monotone(a: Agent, ps: Seq<Vec2>, j: int, m: int)
    requires
        0 <= j <= m,
    ensures
        hits(a, ps, j) <= hits(a, ps, m),
    decreases m - j,
{
    if j < m {
        lemma_hits_monotone(a, ps, j, m - 1);
    }
}

/// `a` after every projectile of `ps` that hits it dealt its damage.
pub open spec fn damaged(a: Agent, ps: Seq<Vec2>) -> Agent {
    Agent {
        health: Health {
            current: (a.health.current - PROJECTILE_DAMAGE * hits(a, ps, ps.len() as int)) as i32,
            ..a.health
        },
        ..a
    }
}

/// `a` was hit this tick and is left dead: it is to be removed.
pub open spec fn flagged(a: Agent, ps: Seq<Vec2>) -> bool {
    hits(a, ps, ps.len() as int) > 0 && damaged(a, ps).health.current <= 0
}

/// The indices among the first `n` agents that are to be removed, in order.
pub open spec fn removals(agents: Seq<Agent>, ps: Seq<Vec2>, n: int) -> Seq<usize>
    decreases n,
{
    if n <= 0 {
        seq![]
    } else if flagged(agents[n - 1], ps) {
        removals(agents, ps, n - 1).push((n - 1) as usize)
    } else {
        removals(agents, ps, n - 1)
    }
}

/// Each agent is flagged for removal at most once per pass, however many
/// projectiles hit it: the removal list is strictly increasing, and holds
/// exactly the agents that were hit and left dead.
pub proof fn lemma_flagged_once(agents: Seq<Agent>, ps: Seq<Vec2>, n: int)
    requires
        0 <= n <= agents.len(),
        n <= usize::MAX,
    ensures
        forall|a: int, b: int|
            0 <= a < b < removals(agents, ps, n).len() ==> removals(agents, ps, n)[a]
                < removals(agents, ps, n)[b],
        forall|a: int|
            0 <= a < removals(agents, ps, n).len() ==> removals(agents, ps, n)[a] < n,
        forall|k: int|
            0 <= k < n ==> (removals(agents, ps, n).contains(k as usize) <==> flagged(
                #[trigger] agents[k],
                ps,
            )),
    decreases n,
{
    if n > 0 {
        lemma_flagged_once(agents, ps, n - 1);
        let prev = removals(agents, ps, n - 1);
        let cur = removals(agents, ps, n);
        assert forall|k: int| 0 <= k < n implies (cur.contains(k as usize) <==> flagged(
            #[trigger] agents[k],
            ps,
        )) by {
            if k < n - 1 {
                if cur.contains(k as usize) {
                    let j = choose|j: int| 0 <= j < cur.len() && cur[j] == k as usize;
                    if j < prev.len() {
                        assert(prev[j] == k as usize);
                    }
                } else if prev.contains(k as usize) {
                    let j = choose|j: int| 0 <= j < prev.len() && prev[j] == k as usize;
                    assert(cur[j] == k as usize);
                }
            } else {
                if flagged(agents[k], ps) {
                    assert(cur[cur.len() - 1] == k as usize);
                } else if cur.contains(k as usize) {
                    let j = choose|j: int| 0 <= j < cur.len() && cur[j] == k as usize;
                    assert(prev[j] < n - 1);
                }
            }
        }
    }
}

/// Projectile hits: each projectile within `RADIUS` of an agent deals it
/// `PROJECTILE_DAMAGE`. Returns, in population order and once each, the
/// indices of the agents that were hit and are left dead. Projectiles are
/// not consumed.
pub fn enemy_damage(agents: &mut Vec<Agent>, projectiles: &Vec<Vec2>) -> (despawn: Vec<usize>)
    requires
        forall|j: int| 0 <= j < projectiles.len() ==> coords_bounded(#[trigger] projectiles[j]),
        forall|i: int|
            0 <= i < old(agents).len() ==> coords_bounded(#[trigger] old(agents)[i].position),
        forall|i: int|
            0 <= i < old(agents).len() ==> (#[trigger] old(agents)[i]).health.current
                - PROJECTILE_DAMAGE * hits(old(agents)[i], projectiles@, projectiles.len() as int)
                >= i32::MIN,
    ensures
        final(agents).len() == old(agents).len(),
        forall|i: int|
            0 <= i < old(agents).len() ==> #[trigger] final(agents)[i] == damaged(
                old(agents)[i],
                projectiles@,
            ),
        despawn@ == removals(old(agents)@, projectiles@, old(agents).len() as int),
{
    let radius_sq: i128 = 2_500_000_000;
    assert(RADIUS == 50000);
    assert(radius_sq == RADIUS * RADIUS) by (nonlinear_arith)
        requires
            RADIUS == 50000,
            radius_sq == 2_500_000_000,
    ;
    let mut despawn: Vec<usize> = Vec::new();
    let n = agents.len();
    let m = projectiles.len();
    let mut i: usize = 0;
    while i < n
        invariant
            n == agents.len() == old(agents).len(),
            m == projectiles.len(),
            0 <= i <= n,
            radius_sq == RADIUS * RADIUS,
            forall|j: int| 0 <= j < m ==> coords_bounded(#[trigger] projectiles[j]),
            forall|k: int| 0 <= k < n ==> coords_bounded(#[trigger] old(agents)[k].position),
            forall|k: int|
                0 <= k < n ==> (#[trigger] old(agents)[k]).health.current - PROJECTILE_DAMAGE
                    * hits(old(agents)[k], projectiles@, m as int) >= i32::MIN,
            forall|k: int| 0 <= k < i ==> #[trigger] agents[k] == damaged(old(agents)[k], projectiles@),
            forall|k: int| i <= k < n ==> #[trigger] agents[k] == old(agents)[k],
            despawn@ == removals(old(agents)@, projectiles@, i as int),
        decreases n - i,
    {
        let mut a = agents[i];
        let ghost a0 = a;
        let mut j: usize = 0;
        let mut hit = false;
        while j < m
            invariant
                m == projectiles.len(),
                0 <= j <= m,
                radius_sq == RADIUS * RADIUS,
                forall|q: int| 0 <= q < m ==> coords_bounded(#[trigger] projectiles[q]),
                coords_bounded(a0.position),
                a0.health.current - PROJECTILE_DAMAGE * hits(a0, projectiles@, m as int)
                    >= i32::MIN,
                hit == (hits(a0, projectiles@, j as int) > 0),
                a == (Agent {
                    health: Health {
                        current: (a0.health.current - PROJECTILE_DAMAGE * hits(
                            a0,
                            projectiles@,
                            j as int,
                        )) as i32,
                        ..a0.health
                    },
                    ..a0
                }),
            decreases m - j,
        {
            let p = projectiles[j];
            let dx = (p.x as i128) - (a.position.x as i128);
            let dy = (p.y as i128) - (a.position.y as i128);
            if square_len(dx, dy) <= radius_sq {
                proof {
                    lemma_hits_monotone(a0, projectiles@, j as int + 1, m as int);
                }
                a.health.damage(PROJECTILE_DAMAGE);
                hit = true;
            }
            j = j + 1;
        }
        if hit && a.health.current <= 0 {
            despawn.push(i);
        }
        agents.set(i, a);
        i = i + 1;
    }
    despawn
}

/// The win condition: every agent is dead.
pub fn all_enemies_defeated(agents: &Vec<Agent>) -> (r: bool)
    ensures
        r == forall|i: int| 0 <= i < agents.len() ==> (#[trigger] agents[i]).health.current <= 0,
{
    let n = agents.len();
    let mut i: usize = 0;
    while i < n
        invariant
            n == agents.len(),
            0 <= i <= n,
            forall|k: int| 0 <= k < i ==> (#[trigger] agents[k]).health.current <= 0,
        decreases n - i,
    {
        if !agents[i].health.is_dead() {
            return false;
        }
        i = i + 1;
    }
    true
}

/// The `i`-th agent of the initial layout: a standard-tier agent at rest, on a
/// vertical line 600 world units right of the origin, 100 units apart.
pub open spec fn spawned_agent(i: int) -> Agent {
    Agent {
        enemy: Enemy { enemy_type: EnemyType::Normal, enemy_speed: NORMAL_SPEED },
        position: Vec2 { x: (600 * UNIT) as i64, y: (i * 100 * UNIT) as i64 },
        velocity: Velocity { velocity: Vec2 { x: 0, y: 0 } },
        facing: Vec2 { x: 0, y: 0 },
        health: Health { max: NORMAL_HEALTH, current: NORMAL_HEALTH },
    }
}

/// Population lifecycle: the initial population.
pub fn setup_enemy() -> (agents: Vec<Agent>)
    ensures
        agents.len() == SPAWN_COUNT,
        forall|i: int| 0 <= i < agents.len() ==> #[trigger] agents[i] == spawned_agent(i),
{
    let mut agents: Vec<Agent> = Vec::new();
    let mut i: usize = 0;
    while i < SPAWN_COUNT
        invariant
            0 <= i <= SPAWN_COUNT,
            agents.len() == i,
            forall|k: int| 0 <= k < i ==> #[trigger] agents[k] == spawned_agent(k),
        decreases SPAWN_COUNT - i,
    {
        let y = (i as i64) * 100 * UNIT;
        agents.push(Agent {
            enemy: Enemy::new(EnemyType::Normal),
            position: Vec2 { x: 600 * UNIT, y },
            velocity: Velocity::new(),
            facing: Vec2 { x: 0, y: 0 },
            health: Health::new(NORMAL_HEALTH),
        });
        i = i + 1;
    }
    agents
}

} // verus!
