use swarm_core::components::Health;
use swarm_core::enemy::{Agent, Enemy, EnemyType, Velocity};
use swarm_core::geometry::{Vec2, UNIT};
use swarm_core::simulation::simulate_tick;

fn agent(x: i64, y: i64, health: i32) -> Agent {
    Agent {
        enemy: Enemy::new(EnemyType::Normal),
        position: Vec2 { x, y },
        velocity: Velocity::new(),
        facing: Vec2 { x: 0, y: 0 },
        health: Health::new(health),
    }
}

#[test]
fn tick_runs_stages_in_order() {
    // One agent 150 units from the player, a second far away and weak.
    let mut agents = vec![agent(150 * UNIT, 0, 100), agent(0, 1000 * UNIT, 5)];
    let projectiles = vec![Vec2 { x: 0, y: 1000 * UNIT }];
    let out = simulate_tick(&mut agents, 3, Vec2 { x: 0, y: 0 }, &projectiles, 100);
    // Steering: full speed toward the player; integration: 10 units in 0.1 s.
    assert_eq!(agents[0].velocity.velocity, Vec2 { x: -100 * UNIT, y: 0 });
    assert_eq!(agents[0].position, Vec2 { x: 140 * UNIT, y: 0 });
    assert_eq!(agents[1].position, Vec2 { x: 0, y: 990 * UNIT });
    // Combat reads the moved positions: nobody is within attack range, and
    // the projectile still hits the second agent, which moved 10 units.
    assert!(out.damage.is_empty());
    assert_eq!(agents[1].health.current, -5);
    assert_eq!(out.despawn, vec![1]);
}

#[test]
fn tick_attack_after_approach() {
    let mut agents = vec![agent(105 * UNIT, 0, 100), agent(-99 * UNIT, 0, 100)];
    let out = simulate_tick(&mut agents, 9, Vec2 { x: 0, y: 0 }, &Vec::new(), 100);
    assert_eq!(out.damage.len(), 2);
    assert_eq!(out.damage[0].target, 9);
    assert_eq!(out.damage[0].amount, 1);
    assert!(out.despawn.is_empty());
}
