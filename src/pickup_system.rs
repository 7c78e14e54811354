//! Picking up collectibles near the controlled agent.
use vstd::prelude::*;
use crate::components::{Collectible, CollectibleKind, Health};
use crate::geometry::{coords_bounded, norm_sq, square_len, Vec2, UNIT};

verus! {

/// Distance within which the controlled agent picks an item up.
pub const PICKUP_RADIUS: i64 = 32 * UNIT;

/// Ammunition was picked up.
#[derive(Clone, Copy, Debug, PartialEq, Eq, Structural)]
pub struct AmmoPickupEvent {
    pub amount: i32,
}

/// A battery was picked up.
#[derive(Clone, Copy, Debug, PartialEq, Eq, Structural)]
pub struct BatteryPickupEvent {
    pub amount: i32,
}

/// A revive kit was picked up.
#[derive(Clone, Copy, Debug, PartialEq, Eq, Structural)]
pub struct ReviveKitPickupEvent {}

/// What a pickup announces to the rest of the game.
#[derive(Clone, Copy, Debug, PartialEq, Eq, Structural)]
pub enum PickupEvent {
    Ammo(AmmoPickupEvent),
    Battery(BatteryPickupEvent),
    ReviveKit(ReviveKitPickupEvent),
}

/// A collectible lying at `position`.
#[derive(Clone, Copy, Debug, PartialEq, Eq, Structural)]
pub struct PlacedCollectible {
    pub position: Vec2,
    pub item: Collectible,
}

/// The result of one pickup pass: the events raised, in order, and the
/// indices of the items picked up, which leave the arena.
pub struct PickupOutcome {
    pub events: Vec<PickupEvent>,
    pub collected: Vec<usize>,
}

/// `a`, or zero where `a` is negative.
pub open spec fn at_least_zero(a: i32) -> i32 {
    if a < 0 {
        0
    } else {
        a
    }
}

/// `h` healed by `amount`, capped at its maximum.
pub open spec fn healed(h: Health, amount: int) -> Health {
    Health {
        current: if h.current + amount > h.max {
            h.max
        } else {
            (h.current + amount) as i32
        },
        ..h
    }
}

/// The controlled agent's health after picking up `c`.
pub open spec fn health_after_pickup(h: Option<Health>, c: Collectible) -> Option<Health> {
    match h {
        None => None,
        Some(hh) => match c.kind {
            CollectibleKind::Health => Some(healed(hh, at_least_zero(c.amount) as int)),
            CollectibleKind::ReviveKit => Some(Health { current: hh.max, ..hh }),
            _ => Some(hh),
        },
    }
}

/// The event that picking up `c` raises, if any.
pub open spec fn pickup_event(c: Collectible) -> Option<PickupEvent> {
    match c.kind {
        CollectibleKind::Health => None,
        CollectibleKind::Ammo => Some(
            PickupEvent::Ammo(AmmoPickupEvent { amount: at_least_zero(c.amount) }),
        ),
        CollectibleKind::Battery => Some(
            PickupEvent::Battery(BatteryPickupEvent { amount: at_least_zero(c.amount) }),
        ),
        CollectibleKind::ReviveKit => Some(PickupEvent::ReviveKit(ReviveKitPickupEvent {})),
    }
}

/// The item lies within reach of a controlled agent at `p`.
pub open spec fn within_reach(p: Vec2, item: PlacedCollectible) -> bool {
    norm_sq(item.position.x - p.x, item.position.y - p.y) <= PICKUP_RADIUS * PICKUP_RADIUS
}

/// Health after picking up what lies within reach among the first `n` items.
pub open spec fn health_after(p: Vec2, h: Option<Health>, items: Seq<PlacedCollectible>, n: int) -> Option<Health>
    decreases n,
{
    if n <= 0 {
        h
    } else if within_reach(p, items[n - 1]) {
        health_after_pickup(health_after(p, h, items, n - 1), items[n - 1].item)
    } else {
        health_after(p, h, items, n - 1)
    }
}

/// Events raised by picking up what lies within reach among the first `n`
/// items.
pub open spec fn events_after(p: Vec2, items: Seq<PlacedCollectible>, n: int) -> Seq<PickupEvent>
    decreases n,
{
    if n <= 0 {
        seq![]
    } else if within_reach(p, items[n - 1]) && pickup_event(items[n - 1].item) is Some {
        events_after(p, items, n - 1).push(pickup_event(items[n - 1].item)->Some_0)
    } else {
        events_after(p, items, n - 1)
    }
}

/// Indices of the items within reach among the first `n`.
pub open spec fn collected_upto(p: Vec2, items: Seq<PlacedCollectible>, n: int) -> Seq<usize>
    decreases n,
{
    if n <= 0 {
        seq![]
    } else if within_reach(p, items[n - 1]) {
        collected_upto(p, items, n - 1).push((n - 1) as usize)
    } else {
        collected_upto(p, items, n - 1)
    }
}

/// Heals `h` by a non-negative `amount`, capped at its maximum.
fn heal_capped(h: &mut Health, amount: i32)
    requires
        old(h).wf(),
        amount >= 0,
    ensures
        *final(h) == healed(*old(h), amount as int),
        final(h).wf(),
{
    if (amount as i64) > (h.max as i64) - (h.current as i64) {
        h.current = h.max;
    } else {
        h.heal(amount);
    }
}

/// The controlled agent at `player_pos` picks up every item within
/// `PICKUP_RADIUS`, in order. A health item heals by its amount (negative
/// amounts count as zero), capped at the maximum; a revive kit refills health
/// and is announced; ammunition and batteries are announced with their
/// amounts. Without a health pool the health effects are skipped.
pub fn pickup_system(player_pos: Vec2, health: &mut Option<Health>, items: &Vec<PlacedCollectible>) -> (r: PickupOutcome)
    requires
        coords_bounded(player_pos),
        forall|i: int| 0 <= i < items.len() ==> coords_bounded(#[trigger] items[i].position),
        *old(health) matches Some(h) ==> h.wf(),
    ensures
        *final(health) == health_after(player_pos, *old(health), items@, items.len() as int),
        r.events@ == events_after(player_pos, items@, items.len() as int),
        r.collected@ == collected_upto(player_pos, items@, items.len() as int),
        *final(health) matches Some(h) ==> h.wf(),
{
    let reach_sq: i128 = 1_024_000_000;
    assert(PICKUP_RADIUS == 32000);
    assert(reach_sq == PICKUP_RADIUS * PICKUP_RADIUS) by (nonlinear_arith)
        requires
            PICKUP_RADIUS == 32000,
            reach_sq == 1_024_000_000,
    ;
    let mut events: Vec<PickupEvent> = Vec::new();
    let mut collected: Vec<usize> = Vec::new();
    let n = items.len();
    let mut i: usize = 0;
    while i < n
        invariant
            n == items.len(),
            0 <= i <= n,
            reach_sq == PICKUP_RADIUS * PICKUP_RADIUS,
            coords_bounded(player_pos),
            forall|k: int| 0 <= k < n ==> coords_bounded(#[trigger] items[k].position),
            *health == health_after(player_pos, *old(health), items@, i as int),
            *health matches Some(h) ==> h.wf(),
            events@ == events_after(player_pos, items@, i as int),
            collected@ == collected_upto(player_pos, items@, i as int),
        decreases n - i,
    {
        let it = items[i];
        let dx = (it.position.x as i128) - (player_pos.x as i128);
        let dy = (it.position.y as i128) - (player_pos.y as i128);
        if square_len(dx, dy) <= reach_sq {
            let amount = if it.item.amount < 0 {
                0
            } else {
                it.item.amount
            };
            match it.item.kind {
                CollectibleKind::Health => {
                    if let Some(mut h) = *health {
                        heal_capped(&mut h, amount);
                        *health = Some(h);
                    }
                },
                CollectibleKind::Ammo => {
                    events.push(PickupEvent::Ammo(AmmoPickupEvent { amount }));
                },
                CollectibleKind::Battery => {
                    events.push(PickupEvent::Battery(BatteryPickupEvent { amount }));
                },
                CollectibleKind::ReviveKit => {
                    if let Some(mut h) = *health {
                        h.current = h.max;
                        *health = Some(h);
                    }
                    events.push(PickupEvent::ReviveKit(ReviveKitPickupEvent {}));
                },
            }
            collected.push(i);
        }
        i = i + 1;
    }
    PickupOutcome { events, collected }
}

} // verus!
