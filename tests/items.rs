use swarm_core::components::{Collectible, CollectibleKind, Health};
use swarm_core::geometry::{Vec2, UNIT};
use swarm_core::menu::{quit_to_menu_on_input, start_on_input, GameState};
use swarm_core::pickup_system::{
    pickup_system, AmmoPickupEvent, BatteryPickupEvent, PickupEvent, PlacedCollectible,
    ReviveKitPickupEvent,
};
use swarm_core::projectile::{projectile_inputs, projectile_movement, Projectile, Velocity};
use swarm_core::server::server_run;

#[test]
fn heal_is_capped() {
    let mut h = Health { max: 100, current: 90 };
    h.heal(50);
    assert_eq!(h, Health { max: 100, current: 100 });
    let mut h = Health { max: 100, current: 40 };
    h.heal(25);
    assert_eq!(h.current, 65);
}

#[test]
fn damage_reports_death() {
    let mut h = Health::new(20);
    assert_eq!(h.current, 20);
    assert!(!h.damage(10));
    assert!(!h.is_dead());
    assert!(h.damage(10));
    assert!(h.is_dead());
    assert_eq!(h.current, 0);
}

#[test]
fn collectible_constructors() {
    assert_eq!(Collectible::revive(), Collectible { kind: CollectibleKind::ReviveKit, amount: 1 });
    assert_eq!(Collectible::ammo(12).kind, CollectibleKind::Ammo);
    assert_eq!(Collectible::battery(3), Collectible::new(CollectibleKind::Battery, 3));
    assert_eq!(Collectible::health(-4).amount, -4);
}

#[test]
fn pickup_applies_items_in_reach() {
    let items = vec![
        PlacedCollectible { position: Vec2 { x: 0, y: 0 }, item: Collectible::health(30) },
        PlacedCollectible { position: Vec2 { x: 10 * UNIT, y: 0 }, item: Collectible::ammo(5) },
        PlacedCollectible { position: Vec2 { x: 0, y: 32 * UNIT }, item: Collectible::battery(-3) },
        PlacedCollectible { position: Vec2 { x: 200 * UNIT, y: 0 }, item: Collectible::revive() },
    ];
    let mut health = Some(Health { max: 100, current: 80 });
    let out = pickup_system(Vec2 { x: 0, y: 0 }, &mut health, &items);
    assert_eq!(health, Some(Health { max: 100, current: 100 }));
    assert_eq!(
        out.events,
        vec![
            PickupEvent::Ammo(AmmoPickupEvent { amount: 5 }),
            PickupEvent::Battery(BatteryPickupEvent { amount: 0 }),
        ]
    );
    assert_eq!(out.collected, vec![0, 1, 2]);
}

#[test]
fn revive_kit_refills_and_announces() {
    let items = vec![PlacedCollectible { position: Vec2 { x: 1, y: 1 }, item: Collectible::revive() }];
    let mut health = Some(Health { max: 100, current: -20 });
    let out = pickup_system(Vec2 { x: 0, y: 0 }, &mut health, &items);
    assert_eq!(health, Some(Health { max: 100, current: 100 }));
    assert_eq!(out.events, vec![PickupEvent::ReviveKit(ReviveKitPickupEvent {})]);
    let mut none: Option<Health> = None;
    let out = pickup_system(Vec2 { x: 0, y: 0 }, &mut none, &items);
    assert_eq!(none, None);
    assert_eq!(out.collected, vec![0]);
}

#[test]
fn firing_aims_at_cursor() {
    let from = Vec2 { x: 0, y: 0 };
    let p = projectile_inputs(true, from, Vec2 { x: 3 * UNIT, y: 4 * UNIT }).unwrap();
    assert_eq!(p.position, from);
    assert_eq!(p.velocity.velocity, Vec2 { x: 600 * UNIT, y: 800 * UNIT });
    assert!(projectile_inputs(false, from, Vec2 { x: 3, y: 4 }).is_none());
}

#[test]
fn projectiles_move() {
    let mut ps = vec![Projectile {
        position: Vec2 { x: 5, y: 5 },
        velocity: Velocity { velocity: Vec2 { x: 1000, y: -2000 } },
    }];
    projectile_movement(&mut ps, 500);
    assert_eq!(ps[0].position, Vec2 { x: 505, y: -995 });
}

#[test]
fn menu_transitions() {
    assert_eq!(GameState::default(), GameState::Menu);
    assert_eq!(start_on_input(GameState::Menu, false, true, false), Some(GameState::Playing));
    assert_eq!(start_on_input(GameState::Menu, false, false, false), None);
    assert_eq!(start_on_input(GameState::Playing, true, true, true), None);
    assert_eq!(quit_to_menu_on_input(GameState::Playing, false, true, false), Some(GameState::Menu));
    assert_eq!(quit_to_menu_on_input(GameState::Menu, true, true, true), None);
}

#[test]
fn net_input_merge() {
    assert_eq!(server_run(4, None), 4);
    assert_eq!(server_run(4, Some(vec![9, 1, 2])), 9);
    assert_eq!(server_run(4, Some(Vec::new())), 0);
}
