use swarm_core::components::Health;
use swarm_core::enemy::{
    enemy_chase_velocity, enemy_velocity_apply, setup_enemy, Agent, Enemy, EnemyType, Velocity,
    NORMAL_HEALTH, NORMAL_SPEED,
};
use swarm_core::steering::steer;
use swarm_core::geometry::{ceil_sqrt, Vec2, UNIT};

fn agent_at(x: i64, y: i64) -> Agent {
    Agent {
        enemy: Enemy::new(EnemyType::Normal),
        position: Vec2 { x, y },
        velocity: Velocity::new(),
        facing: Vec2 { x: 0, y: 0 },
        health: Health::new(NORMAL_HEALTH),
    }
}

#[test]
fn chase_clamps_to_max_speed() {
    // Agent at the origin, target 100 units away, a tick of 0.1 s.
    let mut agents = vec![agent_at(0, 0)];
    enemy_chase_velocity(&mut agents, Vec2 { x: 100 * UNIT, y: 0 }, 100);
    assert_eq!(agents[0].velocity.velocity, Vec2 { x: 100 * UNIT, y: 0 });
    assert_eq!(agents[0].facing, Vec2 { x: 100 * UNIT, y: 0 });
    assert_eq!(agents[0].position, Vec2 { x: 0, y: 0 });
}

#[test]
fn steer_never_exceeds_max_speed() {
    let max = NORMAL_SPEED;
    let cases = [
        (Vec2 { x: 100 * UNIT, y: 0 }, Vec2 { x: 0, y: 5 }),
        (Vec2 { x: -70 * UNIT, y: 70 * UNIT }, Vec2 { x: -3, y: 4 }),
        (Vec2 { x: 0, y: 0 }, Vec2 { x: 1, y: 1 }),
        (Vec2 { x: 5_000_000, y: -5_000_000 }, Vec2 { x: 7, y: -1 }),
    ];
    for (v, dir) in cases {
        let r = steer(v, dir, max, 1_000_000);
        let sq = (r.x as i128) * (r.x as i128) + (r.y as i128) * (r.y as i128);
        assert!(sq <= (max as i128) * (max as i128));
    }
}

#[test]
fn steer_small_accel_adds_along_direction() {
    let r = steer(Vec2 { x: 0, y: 0 }, Vec2 { x: 0, y: 300 }, NORMAL_SPEED, 16_000);
    assert_eq!(r, Vec2 { x: 0, y: 16_000 });
}

#[test]
fn steer_rests_when_slow_and_without_direction() {
    let r = steer(Vec2 { x: 500, y: -300 }, Vec2 { x: 0, y: 0 }, NORMAL_SPEED, 1000);
    assert_eq!(r, Vec2 { x: 0, y: 0 });
    let r = steer(Vec2 { x: 1000, y: 0 }, Vec2 { x: 0, y: 0 }, NORMAL_SPEED, 1000);
    assert_eq!(r, Vec2 { x: 0, y: 0 });
}

#[test]
fn steer_brakes_without_direction() {
    let r = steer(Vec2 { x: 5000, y: 0 }, Vec2 { x: 0, y: 0 }, NORMAL_SPEED, 1000);
    assert_eq!(r, Vec2 { x: 4000, y: 0 });
    let r = steer(Vec2 { x: 0, y: -3000 }, Vec2 { x: 0, y: 0 }, NORMAL_SPEED, 1000);
    assert_eq!(r, Vec2 { x: 0, y: -2000 });
}

#[test]
fn velocity_apply_moves_by_velocity_times_tick() {
    let mut agents = vec![agent_at(10, -10)];
    agents[0].velocity.velocity = Vec2 { x: 100 * UNIT, y: -50 * UNIT };
    enemy_velocity_apply(&mut agents, 16);
    assert_eq!(agents[0].position, Vec2 { x: 10 + 1600, y: -10 - 800 });
    assert_eq!(agents[0].velocity.velocity, Vec2 { x: 100 * UNIT, y: -50 * UNIT });
}

#[test]
fn velocity_apply_rounds_toward_zero() {
    let mut agents = vec![agent_at(0, 0)];
    agents[0].velocity.velocity = Vec2 { x: 1999, y: -1999 };
    enemy_velocity_apply(&mut agents, 1);
    assert_eq!(agents[0].position, Vec2 { x: 1, y: -1 });
}

#[test]
fn setup_spawns_a_vertical_line() {
    let agents = setup_enemy();
    assert_eq!(agents.len(), 17);
    for (i, a) in agents.iter().enumerate() {
        assert_eq!(a.position, Vec2 { x: 600 * UNIT, y: (i as i64) * 100 * UNIT });
        assert_eq!(a.enemy.enemy_type, EnemyType::Normal);
        assert_eq!(a.enemy.enemy_speed, NORMAL_SPEED);
        assert_eq!(a.health, Health { max: 100, current: 100 });
        assert_eq!(a.velocity.velocity, Vec2 { x: 0, y: 0 });
    }
}

#[test]
fn enemy_tiers_fix_speed() {
    assert_eq!(Enemy::new(EnemyType::Normal).enemy_speed, 100 * UNIT);
    assert_eq!(Enemy::new(EnemyType::Strong).enemy_speed, 100 * UNIT);
    assert_eq!(Enemy::new(EnemyType::Fast).enemy_speed, 600 * UNIT);
}

#[test]
fn ceil_sqrt_values() {
    assert_eq!(ceil_sqrt(0), 0);
    assert_eq!(ceil_sqrt(1), 1);
    assert_eq!(ceil_sqrt(2), 2);
    assert_eq!(ceil_sqrt(4), 2);
    assert_eq!(ceil_sqrt(5), 3);
    assert_eq!(ceil_sqrt(1_000_000), 1000);
    assert_eq!(ceil_sqrt(1_000_001), 1001);
}
