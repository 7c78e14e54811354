//! Health pools and collectible items.
use vstd::prelude::*;

verus! {

/// A current/maximum health pair. The holder is dead once `current <= 0`.
#[derive(Clone, Copy, Debug, PartialEq, Eq, Structural)]
pub struct Health {
    pub max: i32,
    pub current: i32,
}

impl Health {
    /// Current health never exceeds the maximum.
    pub open spec fn wf(&self) -> bool {
        self.current <= self.max
    }

    /// Full health.
    pub fn new(max: i32) -> (r: Self)
        ensures
            r.max == max,
            r.current == max,
            r.wf(),
    {
        Self { max, current: max }
    }

    /// Takes `amount` off the current health and reports whether the holder is
    /// now dead.
    pub fn damage(&mut self, amount: i32) -> (dead: bool)
        requires
            old(self).current - amount >= i32::MIN,
            old(self).current - amount <= i32::MAX,
        ensures
            final(self).max == old(self).max,
            final(self).current == old(self).current - amount,
            dead == (final(self).current <= 0),
            amount >= 0 && old(self).wf() ==> final(self).wf(),
    {
        self.current = self.current - amount;
        self.current <= 0
    }

    /// Adds `amount` to the current health, capped at the maximum.
    pub fn heal(&mut self, amount: i32)
        requires
            old(self).current + amount >= i32::MIN,
            old(self).current + amount <= i32::MAX,
        ensures
            final(self).max == old(self).max,
            final(self).current == if old(self).current + amount > old(self).max {
                old(self).max as int
            } else {
                old(self).current + amount
            },
            final(self).wf(),
    {
        self.current = self.current + amount;
        if self.current > self.max {
            self.current = self.max;
        }
    }

    pub fn is_dead(&self) -> (r: bool)
        ensures
            r == (self.current <= 0),
    {
        self.current <= 0
    }
}

/// What a collectible does when it is picked up.
#[derive(Clone, Copy, Debug, PartialEq, Eq, Hash, Structural)]
pub enum CollectibleKind {
    ReviveKit,
    Ammo,
    Battery,
    Health,
}

/// An item lying in the arena.
#[derive(Clone, Copy, Debug, PartialEq, Eq, Structural)]
pub struct Collectible {
    pub kind: CollectibleKind,
    pub amount: i32,
}

impl Collectible {
    pub fn new(kind: CollectibleKind, amount: i32) -> (r: Self)
        ensures
            r.kind == kind,
            r.amount == amount,
    {
        Self { kind, amount }
    }

    /// A revive kit, worth one revive.
    pub fn revive() -> (r: Self)
        ensures
            r.kind == CollectibleKind::ReviveKit,
            r.amount == 1,
    {
        Self::new(CollectibleKind::ReviveKit, 1)
    }

    pub fn ammo(amount: i32) -> (r: Self)
        ensures
            r.kind == CollectibleKind::Ammo,
            r.amount == amount,
    {
        Self::new(CollectibleKind::Ammo, amount)
    }

    pub fn battery(amount: i32) -> (r: Self)
        ensures
            r.kind == CollectibleKind::Battery,
            r.amount == amount,
    {
        Self::new(CollectibleKind::Battery, amount)
    }

    pub fn health(amount: i32) -> (r: Self)
        ensures
            r.kind == CollectibleKind::Health,
            r.amount == amount,
    {
        Self::new(CollectibleKind::Health, amount)
    }
}

} // verus!
