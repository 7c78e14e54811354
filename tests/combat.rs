use swarm_core::components::Health;
use swarm_core::crowding::crowd_impulse;
use swarm_core::enemy::{
    all_enemies_defeated, enemy_attack, enemy_cram_velocity, enemy_damage, Agent,
    DamagePlayerEvent, Enemy, EnemyType, Velocity, FAST_SPEED, NORMAL_SPEED,
};
use swarm_core::geometry::{Vec2, UNIT};

fn agent(x: i64, y: i64, health: i32) -> Agent {
    Agent {
        enemy: Enemy::new(EnemyType::Normal),
        position: Vec2 { x, y },
        velocity: Velocity::new(),
        facing: Vec2 { x: 0, y: 0 },
        health: Health::new(health),
    }
}

#[test]
fn overlapping_pair_pushes_apart() {
    let mut agents = vec![agent(0, 0, 100), agent(10 * UNIT, 0, 100)];
    enemy_cram_velocity(&mut agents);
    assert_eq!(agents[0].velocity.velocity, Vec2 { x: -45 * UNIT, y: 0 });
    assert_eq!(agents[1].velocity.velocity, Vec2 { x: 45 * UNIT, y: 0 });
    assert_eq!(agents[0].position, Vec2 { x: 0, y: 0 });
}

#[test]
fn crowding_conserves_momentum() {
    let mut agents = vec![
        agent(0, 0, 100),
        agent(30 * UNIT, 5 * UNIT, 100),
        agent(-20 * UNIT, 40 * UNIT, 100),
        agent(7 * UNIT, -3 * UNIT, 100),
    ];
    agents[2].enemy = Enemy::new(EnemyType::Fast);
    let before = agents.clone();
    enemy_cram_velocity(&mut agents);
    let mut sx: i64 = 0;
    let mut sy: i64 = 0;
    for (a, b) in agents.iter().zip(before.iter()) {
        sx += a.velocity.velocity.x - b.velocity.velocity.x;
        sy += a.velocity.velocity.y - b.velocity.velocity.y;
    }
    assert_eq!((sx, sy), (0, 0));
    assert_ne!(agents[0].velocity.velocity, Vec2 { x: 0, y: 0 });
}

#[test]
fn impulse_is_zero_when_apart_or_coincident() {
    let p = Vec2 { x: 0, y: 0 };
    assert_eq!(crowd_impulse(p, NORMAL_SPEED, Vec2 { x: 100 * UNIT, y: 0 }), (0, 0));
    assert_eq!(crowd_impulse(p, NORMAL_SPEED, Vec2 { x: 0, y: 0 }), (0, 0));
    assert_eq!(crowd_impulse(p, NORMAL_SPEED, Vec2 { x: 0, y: 60 * UNIT }), (0, -20 * UNIT));
}

#[test]
fn two_hits_leave_agent_alive() {
    let mut agents = vec![agent(0, 0, 100)];
    let projectiles = vec![Vec2 { x: 0, y: 0 }, Vec2 { x: 10 * UNIT, y: 0 }];
    let despawn = enemy_damage(&mut agents, &projectiles);
    assert_eq!(agents[0].health.current, 80);
    assert!(despawn.is_empty());
}

#[test]
fn lethal_hit_flags_agent() {
    let mut agents = vec![agent(0, 0, 100), agent(1000 * UNIT, 0, 5)];
    let projectiles = vec![Vec2 { x: 1000 * UNIT, y: 0 }];
    let despawn = enemy_damage(&mut agents, &projectiles);
    assert!(agents[1].health.current <= 0);
    assert_eq!(despawn, vec![1]);
    assert_eq!(agents[0].health.current, 100);
}

#[test]
fn many_hits_flag_once() {
    let mut agents = vec![agent(0, 0, 15), agent(0, 500 * UNIT, 15)];
    let projectiles = vec![
        Vec2 { x: 0, y: 0 },
        Vec2 { x: 1, y: 1 },
        Vec2 { x: -1, y: 0 },
        Vec2 { x: 0, y: 500 * UNIT },
    ];
    let despawn = enemy_damage(&mut agents, &projectiles);
    assert_eq!(agents[0].health.current, -15);
    assert_eq!(agents[1].health.current, 5);
    assert_eq!(despawn, vec![0]);
}

#[test]
fn hit_radius_is_inclusive() {
    let mut agents = vec![agent(0, 0, 100)];
    let projectiles = vec![Vec2 { x: 50 * UNIT, y: 0 }, Vec2 { x: 0, y: 50 * UNIT + 1 }];
    enemy_damage(&mut agents, &projectiles);
    assert_eq!(agents[0].health.current, 90);
}

#[test]
fn three_attackers_three_events() {
    let agents = vec![
        agent(10 * UNIT, 0, 100),
        agent(0, -50 * UNIT, 100),
        agent(-60 * UNIT, 60 * UNIT, 100),
        agent(100 * UNIT, 0, 100),
        agent(500 * UNIT, 0, 100),
    ];
    let events = enemy_attack(&agents, 7, Vec2 { x: 0, y: 0 });
    assert_eq!(events.len(), 3);
    for e in events {
        assert_eq!(e, DamagePlayerEvent { target: 7, amount: 1 });
    }
}

#[test]
fn defeat_needs_every_agent_dead() {
    let mut agents = vec![agent(0, 0, 0), agent(0, 0, 10)];
    assert!(!all_enemies_defeated(&agents));
    agents[1].health.current = -3;
    assert!(all_enemies_defeated(&agents));
    assert!(all_enemies_defeated(&Vec::new()));
}

#[test]
fn impulse_scales_with_later_agent_speed() {
    let p = Vec2 { x: 10 * UNIT, y: 0 };
    let q = Vec2 { x: 0, y: 0 };
    assert_eq!(crowd_impulse(p, NORMAL_SPEED, q), (45 * UNIT, 0));
    assert_eq!(crowd_impulse(p, FAST_SPEED, q), (270 * UNIT, 0));
}

#[test]
fn tiny_overlap_still_pushes() {
    // 99.999 world units apart: the overlap is 0.0005 world units.
    let mut agents = vec![agent(0, 0, 100), agent(99_999, 0, 100)];
    enemy_cram_velocity(&mut agents);
    assert_eq!(agents[1].velocity.velocity, Vec2 { x: 1, y: 0 });
    assert_eq!(agents[0].velocity.velocity, Vec2 { x: -1, y: 0 });
    let mut apart = vec![agent(0, 0, 100), agent(100 * UNIT, 0, 100)];
    enemy_cram_velocity(&mut apart);
    assert_eq!(apart[0].velocity.velocity, Vec2 { x: 0, y: 0 });
    assert_eq!(apart[1].velocity.velocity, Vec2 { x: 0, y: 0 });
}

#[test]
fn impulse_rounds_away_from_zero() {
    let p = Vec2 { x: 0, y: 0 };
    assert_eq!(crowd_impulse(p, NORMAL_SPEED, Vec2 { x: 33 * UNIT + 1, y: 0 }), (-33_500, 0));
}

#[test]
fn untouched_agent_near_health_floor() {
    let mut agents = vec![agent(0, 0, 100)];
    agents[0].health.current = i32::MIN + 5;
    let projectiles = vec![Vec2 { x: 500 * UNIT, y: 0 }];
    let despawn = enemy_damage(&mut agents, &projectiles);
    assert_eq!(agents[0].health.current, i32::MIN + 5);
    assert!(despawn.is_empty());
}
