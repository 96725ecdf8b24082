//! The world: the entity arena together with one column per component kind,
//! and the queue of deferred entity deletions.

use vstd::prelude::*;
use crate::ecs::{Column, EntityId};
use crate::components::{
    AreaOfEffect, BlocksTile, CombatStats, Confusion, Consumable, DefenseBonus, Equippable,
    Equipped, HungerClock, InBackpack, InflictsDamage, Item, MeleePowerBonus, Monster, Name,
    ParticleLifetime, Player, Position, ProvidesHealing, Ranged, Renderable, SufferDamage,
    Viewshed, WantsToDropItem, WantsToMelee, WantsToPickupItem, WantsToUseItem,
};

verus! {

/// One entity's full component record, as ghost data.  Used in contracts to
/// say "this slot's components" in a single equality.
pub struct EntityRecord {
    pub position: Option<Position>,
    pub renderable: Option<Renderable>,
    pub player: Option<Player>,
    pub monster: Option<Monster>,
    pub viewshed: Option<Viewshed>,
    pub combat_stats: Option<CombatStats>,
    pub name: Option<Name>,
    pub blocks_tile: Option<BlocksTile>,
    pub item: Option<Item>,
    pub consumable: Option<Consumable>,
    pub hunger_clock: Option<HungerClock>,
    pub equippable: Option<Equippable>,
    pub equipped: Option<Equipped>,
    pub melee_power_bonus: Option<MeleePowerBonus>,
    pub defense_bonus: Option<DefenseBonus>,
    pub ranged: Option<Ranged>,
    pub area_of_effect: Option<AreaOfEffect>,
    pub inflicts_damage: Option<InflictsDamage>,
    pub provides_healing: Option<ProvidesHealing>,
    pub confusion: Option<Confusion>,
    pub in_backpack: Option<InBackpack>,
    pub wants_to_melee: Option<WantsToMelee>,
    pub wants_to_use: Option<WantsToUseItem>,
    pub wants_to_pickup: Option<WantsToPickupItem>,
    pub wants_to_drop: Option<WantsToDropItem>,
    pub suffer_damage: Option<SufferDamage>,
    pub particle_lifetime: Option<ParticleLifetime>,
}

pub struct World {
    /// Generation of each arena slot; bumped when the slot's entity dies.
    pub gens: Vec<u64>,
    /// Whether each arena slot currently holds a live entity.
    pub alive: Vec<bool>,
    /// Entities whose deletion was requested and waits for `maintain`.
    pub pending: Vec<EntityId>,
    pub positions: Column<Position>,
    pub renderables: Column<Renderable>,
    pub players: Column<Player>,
    pub monsters: Column<Monster>,
    pub viewsheds: Column<Viewshed>,
    pub combat_stats: Column<CombatStats>,
    pub names: Column<Name>,
    pub blocks_tile: Column<BlocksTile>,
    pub items: Column<Item>,
    pub consumables: Column<Consumable>,
    pub hunger_clocks: Column<HungerClock>,
    pub equippables: Column<Equippable>,
    pub equipped: Column<Equipped>,
    pub melee_power_bonuses: Column<MeleePowerBonus>,
    pub defense_bonuses: Column<DefenseBonus>,
    pub ranged: Column<Ranged>,
    pub area_of_effects: Column<AreaOfEffect>,
    pub inflicts_damage: Column<InflictsDamage>,
    pub provides_healing: Column<ProvidesHealing>,
    pub confusions: Column<Confusion>,
    pub in_backpacks: Column<InBackpack>,
    pub wants_to_melee: Column<WantsToMelee>,
    pub wants_to_use: Column<WantsToUseItem>,
    pub wants_to_pickup: Column<WantsToPickupItem>,
    pub wants_to_drop: Column<WantsToDropItem>,
    pub suffer_damage: Column<SufferDamage>,
    pub particle_lifetimes: Column<ParticleLifetime>,
}

impl World {
    /// Number of arena slots.
    pub open spec fn cap(self) -> nat {
        self.alive@.len()
    }

    /// Every column keeps one cell per arena slot.
    pub open spec fn wf(self) -> bool {
        &&& self.gens@.len() == self.cap()
        &&& self.positions@.len() == self.cap()
        &&& self.renderables@.len() == self.cap()
        &&& self.players@.len() == self.cap()
        &&& self.monsters@.len() == self.cap()
        &&& self.viewsheds@.len() == self.cap()
        &&& self.combat_stats@.len() == self.cap()
        &&& self.names@.len() == self.cap()
        &&& self.blocks_tile@.len() == self.cap()
        &&& self.items@.len() == self.cap()
        &&& self.consumables@.len() == self.cap()
        &&& self.hunger_clocks@.len() == self.cap()
        &&& self.equippables@.len() == self.cap()
        &&& self.equipped@.len() == self.cap()
        &&& self.melee_power_bonuses@.len() == self.cap()
        &&& self.defense_bonuses@.len() == self.cap()
        &&& self.ranged@.len() == self.cap()
        &&& self.area_of_effects@.len() == self.cap()
        &&& self.inflicts_damage@.len() == self.cap()
        &&& self.provides_healing@.len() == self.cap()
        &&& self.confusions@.len() == self.cap()
        &&& self.in_backpacks@.len() == self.cap()
        &&& self.wants_to_melee@.len() == self.cap()
        &&& self.wants_to_use@.len() == self.cap()
        &&& self.wants_to_pickup@.len() == self.cap()
        &&& self.wants_to_drop@.len() == self.cap()
        &&& self.suffer_damage@.len() == self.cap()
        &&& self.particle_lifetimes@.len() == self.cap()
    }

    /// A handle is valid when its slot is live and the generations agree.
    pub open spec fn spec_valid(self, e: EntityId) -> bool {
        e.idx < self.cap() && self.alive@[e.idx as int] && self.gens@[e.idx as int] == e.gen
    }

    /// The components of arena slot `i`, gathered into one record.
    pub open spec fn record(self, i: int) -> EntityRecord {
        EntityRecord {
            position: self.positions@[i],
            renderable: self.renderables@[i],
            player: self.players@[i],
            monster: self.monsters@[i],
            viewshed: self.viewsheds@[i],
            combat_stats: self.combat_stats@[i],
            name: self.names@[i],
            blocks_tile: self.blocks_tile@[i],
            item: self.items@[i],
            consumable: self.consumables@[i],
            hunger_clock: self.hunger_clocks@[i],
            equippable: self.equippables@[i],
            equipped: self.equipped@[i],
            melee_power_bonus: self.melee_power_bonuses@[i],
            defense_bonus: self.defense_bonuses@[i],
            ranged: self.ranged@[i],
            area_of_effect: self.area_of_effects@[i],
            inflicts_damage: self.inflicts_damage@[i],
            provides_healing: self.provides_healing@[i],
            confusion: self.confusions@[i],
            in_backpack: self.in_backpacks@[i],
            wants_to_melee: self.wants_to_melee@[i],
            wants_to_use: self.wants_to_use@[i],
            wants_to_pickup: self.wants_to_pickup@[i],
            wants_to_drop: self.wants_to_drop@[i],
            suffer_damage: self.suffer_damage@[i],
            particle_lifetime: self.particle_lifetimes@[i],
        }
    }

    /// True when slot `i` carries no component at all.
    pub open spec fn record_empty(self, i: int) -> bool {
        &&& self.positions@[i] is None
        &&& self.renderables@[i] is None
        &&& self.players@[i] is None
        &&& self.monsters@[i] is None
        &&& self.viewsheds@[i] is None
        &&& self.combat_stats@[i] is None
        &&& self.names@[i] is None
        &&& self.blocks_tile@[i] is None
        &&& self.items@[i] is None
        &&& self.consumables@[i] is None
        &&& self.hunger_clocks@[i] is None
        &&& self.equippables@[i] is None
        &&& self.equipped@[i] is None
        &&& self.melee_power_bonuses@[i] is None
        &&& self.defense_bonuses@[i] is None
        &&& self.ranged@[i] is None
        &&& self.area_of_effects@[i] is None
        &&& self.inflicts_damage@[i] is None
        &&& self.provides_healing@[i] is None
        &&& self.confusions@[i] is None
        &&& self.in_backpacks@[i] is None
        &&& self.wants_to_melee@[i] is None
        &&& self.wants_to_use@[i] is None
        &&& self.wants_to_pickup@[i] is None
        &&& self.wants_to_drop@[i] is None
        &&& self.suffer_damage@[i] is None
        &&& self.particle_lifetimes@[i] is None
    }

    pub fn new() -> (w: World)
        ensures
            w.wf(),
            w.cap() == 0,
            w.pending@.len() == 0,
    {
        World {
            gens: Vec::new(),
            alive: Vec::new(),
            pending: Vec::new(),
            positions: Column::new(0),
            renderables: Column::new(0),
            players: Column::new(0),
            monsters: Column::new(0),
            viewsheds: Column::new(0),
            combat_stats: Column::new(0),
            names: Column::new(0),
            blocks_tile: Column::new(0),
            items: Column::new(0),
            consumables: Column::new(0),
            hunger_clocks: Column::new(0),
            equippables: Column::new(0),
            equipped: Column::new(0),
            melee_power_bonuses: Column::new(0),
            defense_bonuses: Column::new(0),
            ranged: Column::new(0),
            area_of_effects: Column::new(0),
            inflicts_damage: Column::new(0),
            provides_healing: Column::new(0),
            confusions: Column::new(0),
            in_backpacks: Column::new(0),
            wants_to_melee: Column::new(0),
            wants_to_use: Column::new(0),
            wants_to_pickup: Column::new(0),
            wants_to_drop: Column::new(0),
            suffer_damage: Column::new(0),
            particle_lifetimes: Column::new(0),
        }
    }

    pub fn is_valid(&self, e: EntityId) -> (r: bool)
        requires
            self.wf(),
        ensures
            r == self.spec_valid(e),
    {
        e.idx < self.alive.len() && self.alive[e.idx] && self.gens[e.idx] == e.gen
    }

    fn push_slot(&mut self)
        requires
            old(self).wf(),
            old(self).cap() < usize::MAX,
        ensures
            final(self).wf(),
            final(self).cap() == old(self).cap() + 1,
            final(self).gens@ == old(self).gens@.push(0u64),
            final(self).alive@ == old(self).alive@.push(true),
            final(self).pending@ == old(self).pending@,
            final(self).record_empty(old(self).cap() as int),
            forall|i: int| 0 <= i < old(self).cap()
                ==> final(self).record(i) == old(self).record(i),
    {
        self.gens.push(0);
        self.alive.push(true);
        self.positions.push_none();
        self.renderables.push_none();
        self.players.push_none();
        self.monsters.push_none();
        self.viewsheds.push_none();
        self.combat_stats.push_none();
        self.names.push_none();
        self.blocks_tile.push_none();
        self.items.push_none();
        self.consumables.push_none();
        self.hunger_clocks.push_none();
        self.equippables.push_none();
        self.equipped.push_none();
        self.melee_power_bonuses.push_none();
        self.defense_bonuses.push_none();
        self.ranged.push_none();
        self.area_of_effects.push_none();
        self.inflicts_damage.push_none();
        self.provides_healing.push_none();
        self.confusions.push_none();
        self.in_backpacks.push_none();
        self.wants_to_melee.push_none();
        self.wants_to_use.push_none();
        self.wants_to_pickup.push_none();
        self.wants_to_drop.push_none();
        self.suffer_damage.push_none();
        self.particle_lifetimes.push_none();
    }

    /// Creates a new entity with no components, reusing a retired arena slot
    /// when a safe one exists (its generation must still have room to grow,
    /// so that stale handles to the old occupant never validate again).
    pub fn create_entity(&mut self) -> (e: EntityId)
        requires
            old(self).wf(),
            old(self).cap() < usize::MAX,
        ensures
            final(self).wf(),
            final(self).spec_valid(e),
            e.gen < u64::MAX,
            final(self).record_empty(e.idx as int),
            final(self).pending@ == old(self).pending@,
            old(self).cap() <= final(self).cap() <= old(self).cap() + 1,
            old(self).cap() < final(self).cap() ==> e.idx == old(self).cap(),
            forall|i: int| 0 <= i < old(self).cap()
                ==> final(self).gens@[i] == old(self).gens@[i],
            forall|o: EntityId| old(self).spec_valid(o)
                ==> final(self).spec_valid(o) && o.idx != e.idx,
            forall|i: int| 0 <= i < old(self).cap() && i != e.idx
                ==> final(self).record(i) == old(self).record(i)
                    && final(self).alive@[i] == old(self).alive@[i]
                    && final(self).gens@[i] == old(self).gens@[i],
    {
        let n: usize = self.alive.len();
        let mut k: usize = 0;
        while k < n && (self.alive[k] || self.gens[k] == u64::MAX)
            invariant
                self.wf(),
                n == self.cap(),
                k <= n,
            decreases n - k,
        {
            k = k + 1;
        }
        if k < n {
            let ghost prev = *self;
            self.alive.set(k, true);
            proof {
                assert(self.alive@ == prev.alive@.update(k as int, true));
            }
            self.strip_components(k);
            EntityId { idx: k, gen: self.gens[k] }
        } else {
            let idx: usize = n;
            self.push_slot();
            EntityId { idx, gen: 0 }
        }
    }

    /// Removes every component at slot `i`.
    fn strip_components(&mut self, i: usize)
        requires
            old(self).wf(),
            i < old(self).cap(),
        ensures
            final(self).wf(),
            final(self).cap() == old(self).cap(),
            final(self).gens@ == old(self).gens@,
            final(self).alive@ == old(self).alive@,
            final(self).pending@ == old(self).pending@,
            final(self).record_empty(i as int),
            forall|j: int| 0 <= j < old(self).cap() && j != i
                ==> final(self).record(j) == old(self).record(j),
    {
        self.positions.remove(i);
        self.renderables.remove(i);
        self.players.remove(i);
        self.monsters.remove(i);
        self.viewsheds.remove(i);
        self.combat_stats.remove(i);
        self.names.remove(i);
        self.blocks_tile.remove(i);
        self.items.remove(i);
        self.consumables.remove(i);
        self.hunger_clocks.remove(i);
        self.equippables.remove(i);
        self.equipped.remove(i);
        self.melee_power_bonuses.remove(i);
        self.defense_bonuses.remove(i);
        self.ranged.remove(i);
        self.area_of_effects.remove(i);
        self.inflicts_damage.remove(i);
        self.provides_healing.remove(i);
        self.confusions.remove(i);
        self.in_backpacks.remove(i);
        self.wants_to_melee.remove(i);
        self.wants_to_use.remove(i);
        self.wants_to_pickup.remove(i);
        self.wants_to_drop.remove(i);
        self.suffer_damage.remove(i);
        self.particle_lifetimes.remove(i);
    }

    /// Queues `e` for deletion at the next `maintain` barrier.  The entity
    /// stays fully present until then, so iteration in the current system
    /// pass is never invalidated.
    pub fn delete_entity(&mut self, e: EntityId)
        requires
            old(self).wf(),
        ensures
            final(self).wf(),
            final(self).pending@ == old(self).pending@.push(e),
            final(self).gens@ == old(self).gens@,
            final(self).alive@ == old(self).alive@,
            final(self).cap() == old(self).cap(),
            final(self).positions@ == old(self).positions@,
            final(self).renderables@ == old(self).renderables@,
            final(self).players@ == old(self).players@,
            final(self).monsters@ == old(self).monsters@,
            final(self).viewsheds@ == old(self).viewsheds@,
            final(self).combat_stats@ == old(self).combat_stats@,
            final(self).names@ == old(self).names@,
            final(self).blocks_tile@ == old(self).blocks_tile@,
            final(self).items@ == old(self).items@,
            final(self).consumables@ == old(self).consumables@,
            final(self).hunger_clocks@ == old(self).hunger_clocks@,
            final(self).equippables@ == old(self).equippables@,
            final(self).equipped@ == old(self).equipped@,
            final(self).melee_power_bonuses@ == old(self).melee_power_bonuses@,
            final(self).defense_bonuses@ == old(self).defense_bonuses@,
            final(self).ranged@ == old(self).ranged@,
            final(self).area_of_effects@ == old(self).area_of_effects@,
            final(self).inflicts_damage@ == old(self).inflicts_damage@,
            final(self).provides_healing@ == old(self).provides_healing@,
            final(self).confusions@ == old(self).confusions@,
            final(self).in_backpacks@ == old(self).in_backpacks@,
            final(self).wants_to_melee@ == old(self).wants_to_melee@,
            final(self).wants_to_use@ == old(self).wants_to_use@,
            final(self).wants_to_pickup@ == old(self).wants_to_pickup@,
            final(self).wants_to_drop@ == old(self).wants_to_drop@,
            final(self).suffer_damage@ == old(self).suffer_damage@,
            final(self).particle_lifetimes@ == old(self).particle_lifetimes@,
            forall|i: int| 0 <= i < final(self).cap()
                ==> final(self).record(i) == old(self).record(i),
    {
        self.pending.push(e);
    }

    /// True when some queued deletion names slot `i` and was valid when the
    /// barrier ran.
    pub open spec fn slot_doomed(self, i: int) -> bool {
        doomed_by_prefix(self, self.pending@.len() as int, i)
    }

    /// The deferred-deletion barrier: applies every queued deletion.  Each
    /// deleted slot is retired (generation bumped, so stale handles to it no
    /// longer validate) and stripped of its components; everything else is
    /// untouched.
    pub fn maintain(&mut self)
        requires
            old(self).wf(),
        ensures
            final(self).wf(),
            final(self).cap() == old(self).cap(),
            final(self).pending@.len() == 0,
            forall|e: EntityId| #[trigger] final(self).spec_valid(e)
                <==> old(self).spec_valid(e) && !old(self).slot_doomed(e.idx as int),
            forall|i: int| 0 <= i < old(self).cap() && !old(self).slot_doomed(i)
                ==> final(self).record(i) == old(self).record(i)
                    && final(self).alive@[i] == old(self).alive@[i]
                    && final(self).gens@[i] == old(self).gens@[i],
            forall|i: int| 0 <= i < old(self).cap() && old(self).slot_doomed(i)
                ==> !final(self).alive@[i] && final(self).record_empty(i)
                    && (old(self).gens@[i] < u64::MAX
                        ==> final(self).gens@[i] == old(self).gens@[i] + 1)
                    && (old(self).gens@[i] == u64::MAX
                        ==> final(self).gens@[i] == u64::MAX),
    {
        let ghost orig = *self;
        let mut work: Vec<EntityId> = Vec::new();
        core::mem::swap(&mut work, &mut self.pending);
        let n: usize = work.len();
        let mut k: usize = 0;
        while k < n
            invariant
                self.wf(),
                self.cap() == orig.cap(),
                self.pending@.len() == 0,
                n == work@.len(),
                k <= n,
                work@ == orig.pending@,
                self.gens@.len() == orig.gens@.len(),
                // a slot is dead-and-stripped exactly when one of the first k
                // queued deletions doomed it; all other slots are untouched
                forall|i: int|
                    #![trigger doomed_by_prefix(orig, k as int, i)]
                    0 <= i < orig.cap() && !doomed_by_prefix(orig, k as int, i)
                        ==> self.record(i) == orig.record(i)
                            && self.alive@[i] == orig.alive@[i]
                            && self.gens@[i] == orig.gens@[i],
                forall|i: int|
                    #![trigger doomed_by_prefix(orig, k as int, i)]
                    0 <= i < orig.cap() && doomed_by_prefix(orig, k as int, i)
                        ==> !self.alive@[i] && self.record_empty(i)
                            && (orig.gens@[i] < u64::MAX
                                ==> self.gens@[i] == orig.gens@[i] + 1)
                            && (orig.gens@[i] == u64::MAX ==> self.gens@[i] == u64::MAX),
            decreases n - k,
        {
            let ghost pre = *self;
            let e = work[k];
            let was_valid: bool =
                e.idx < self.alive.len() && self.alive[e.idx] && self.gens[e.idx] == e.gen;
            if was_valid {
                proof {
                    // the slot cannot have been retired already, so it still
                    // agrees with `orig`, and this deletion was valid then
                    if doomed_by_prefix(orig, k as int, e.idx as int) {
                        assert(!pre.alive@[e.idx as int]);
                    }
                    assert(pre.alive@[e.idx as int] == orig.alive@[e.idx as int]);
                    assert(pre.gens@[e.idx as int] == orig.gens@[e.idx as int]);
                    assert(orig.spec_valid(e));
                    assert(doomed_by_prefix(orig, k as int + 1, e.idx as int));
                }
                self.alive.set(e.idx, false);
                if self.gens[e.idx] < u64::MAX {
                    let g: u64 = self.gens[e.idx];
                    self.gens.set(e.idx, g + 1);
                }
                self.strip_components(e.idx);
            }
            proof {
                assert forall|i: int|
                    #![trigger doomed_by_prefix(orig, k as int + 1, i)]
                    0 <= i < orig.cap() && !doomed_by_prefix(orig, k as int + 1, i)
                    implies self.record(i) == orig.record(i)
                        && self.alive@[i] == orig.alive@[i]
                        && self.gens@[i] == orig.gens@[i] by {
                    assert(!doomed_by_prefix(orig, k as int, i)) by {
                        if doomed_by_prefix(orig, k as int, i) {
                            let j = choose|j: int|
                                0 <= j < k as int && #[trigger] orig.pending@[j].idx == i
                                    && orig.spec_valid(orig.pending@[j]);
                            assert(doomed_by_prefix(orig, k as int + 1, i));
                        }
                    }
                    assert(pre.record(i) == orig.record(i));
                    assert(pre.alive@[i] == orig.alive@[i]);
                    assert(pre.gens@[i] == orig.gens@[i]);
                    if was_valid {
                        assert(i != e.idx) by {
                            if i == e.idx {
                                assert(doomed_by_prefix(orig, k as int + 1, i));
                            }
                        }
                        assert(self.record(i) == pre.record(i));
                        assert(self.alive@[i] == pre.alive@[i]);
                        assert(self.gens@[i] == pre.gens@[i]);
                    }
                }
                assert forall|i: int|
                    #![trigger doomed_by_prefix(orig, k as int + 1, i)]
                    0 <= i < orig.cap() && doomed_by_prefix(orig, k as int + 1, i)
                    implies !self.alive@[i] && self.record_empty(i)
                        && (orig.gens@[i] < u64::MAX ==> self.gens@[i] == orig.gens@[i] + 1)
                        && (orig.gens@[i] == u64::MAX ==> self.gens@[i] == u64::MAX) by {
                    if doomed_by_prefix(orig, k as int, i) {
                        // retired by an earlier queued deletion; this
                        // iteration did not touch that slot
                        assert(!pre.alive@[i] && pre.record_empty(i));
                        if was_valid {
                            assert(i != e.idx) by {
                                if i == e.idx {
                                    assert(!pre.alive@[i]);
                                }
                            }
                            assert(self.record(i) == pre.record(i));
                            assert(self.alive@[i] == pre.alive@[i]);
                            assert(self.gens@[i] == pre.gens@[i]);
                            assert(self.record_empty(i));
                        }
                    } else {
                        // doomed by this very deletion
                        let j = choose|j: int|
                            0 <= j < k as int + 1 && #[trigger] orig.pending@[j].idx == i
                                && orig.spec_valid(orig.pending@[j]);
                        assert(j == k as int);
                        assert(i == e.idx && orig.spec_valid(e));
                        assert(pre.alive@[i] == orig.alive@[i]);
                        assert(pre.gens@[i] == orig.gens@[i]);
                        assert(was_valid);
                    }
                }
            }
            k = k + 1;
        }
        proof {
            assert forall|e2: EntityId| self.spec_valid(e2)
                implies orig.spec_valid(e2) && !orig.slot_doomed(e2.idx as int) by {
                let i = e2.idx as int;
                if 0 <= i < orig.cap() && orig.slot_doomed(i) {
                    assert(doomed_by_prefix(orig, n as int, i));
                    assert(!self.alive@[i]);
                }
            }
            assert forall|e2: EntityId|
                orig.spec_valid(e2) && !orig.slot_doomed(e2.idx as int)
                implies self.spec_valid(e2) by {
                assert(!doomed_by_prefix(orig, n as int, e2.idx as int));
            }
        }
    }
}

/// True when one of the first `k` queued deletions of `w` dooms slot `i`.
pub open spec fn doomed_by_prefix(w: World, k: int, i: int) -> bool {
    exists|j: int|
        0 <= j < k && #[trigger] w.pending@[j].idx == i && w.spec_valid(w.pending@[j])
}

} // verus!
