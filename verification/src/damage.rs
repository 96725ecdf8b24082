//! Damage bookkeeping: hits accumulate on a target during the turn, and hit
//! points drop exactly once when the damage system runs; the dead are then
//! swept up.

use vstd::prelude::*;
use crate::components::{CombatStats, SufferDamage};
use crate::ecs::{Column, EntityId};
use crate::world::World;

verus! {

/// Every recorded damage amount is non-negative.
pub open spec fn suffer_nonneg(s: Seq<Option<SufferDamage>>) -> bool {
    forall|i: int| 0 <= i < s.len() && #[trigger] s[i] is Some ==> s[i]->Some_0.amount >= 0
}

/// The damage accumulated after one more hit of `amount`: amounts add,
/// saturating at the machine limit.
pub open spec fn accumulate(prev: Option<SufferDamage>, amount: int) -> int {
    let base: int = if prev is Some { prev->Some_0.amount as int } else { 0 };
    if base + amount > i32::MAX as int {
        i32::MAX as int
    } else {
        base + amount
    }
}

/// Records one hit against the entity in slot `target`.  A second hit in the
/// same turn adds to the first; it never overwrites it.
pub fn add_damage(suffer: &mut Column<SufferDamage>, target: usize, amount: i32)
    requires
        target < old(suffer)@.len(),
        0 <= amount,
        suffer_nonneg(old(suffer)@),
    ensures
        final(suffer)@ == old(suffer)@.update(target as int,
            Some(SufferDamage { amount: accumulate(old(suffer)@[target as int], amount as int) as i32 })),
        suffer_nonneg(final(suffer)@),
{
    let base: i32 = match suffer.get(target) {
        Some(s) => s.amount,
        None => 0,
    };
    let total: i32 = if base > i32::MAX - amount { i32::MAX } else { base + amount };
    suffer.insert(target, SufferDamage { amount: total });
    proof {
        assert forall|i: int| 0 <= i < suffer@.len() && #[trigger] suffer@[i] is Some
            implies suffer@[i]->Some_0.amount >= 0 by {
            if i != target as int {
                assert(old(suffer)@[i] is Some);
            }
        }
    }
}

/// Hit points after applying `total` accumulated damage: they drop by the
/// total, but never below zero.
pub open spec fn hp_after(hp: int, total: int) -> int {
    if hp - total < 0 { 0 } else { hp - total }
}

/// Two melee hits of `a` and `b` against the same fresh target in one turn
/// sum on its accumulator before hit points are reduced at all; the damage
/// system then lowers hit points exactly once, by the whole sum, and hit
/// points never go negative.
pub proof fn lemma_two_hits_sum(a: int, b: int, hp: int)
    requires
        0 <= a,
        0 <= b,
        a + b <= i32::MAX,
    ensures
        accumulate(Some(SufferDamage { amount: accumulate(Option::None, a) as i32 }), b)
            == a + b,
        hp_after(hp, a + b) == (if hp - (a + b) < 0 { 0int } else { hp - (a + b) }),
        hp_after(hp, a + b) >= 0 || hp < 0,
{
    assert(accumulate(Option::<SufferDamage>::None, a) == a);
}

/// Applying accumulated damage never leaves negative hit points.
pub proof fn lemma_hp_never_negative(hp: int, total: int)
    requires
        0 <= hp,
    ensures
        hp_after(hp, total) >= 0,
{
}

/// The damage system.
pub struct DamageSystem {}

impl DamageSystem {
    /// Applies each entity's accumulated damage to its hit points exactly
    /// once — the whole total at one stroke, clamped so hit points never go
    /// negative — and clears the accumulators.
    pub fn run(stats: &mut Column<CombatStats>, suffer: &mut Column<SufferDamage>)
        requires
            old(stats)@.len() == old(suffer)@.len(),
            suffer_nonneg(old(suffer)@),
        ensures
            final(stats)@.len() == old(stats)@.len(),
            final(suffer)@.len() == old(suffer)@.len(),
            forall|i: int| 0 <= i < final(suffer)@.len() ==> final(suffer)@[i] is None,
            forall|i: int|
                0 <= i < final(stats)@.len()
                    && !(old(stats)@[i] is Some && old(suffer)@[i] is Some)
                    ==> final(stats)@[i] == old(stats)@[i],
            forall|i: int|
                0 <= i < final(stats)@.len()
                    && #[trigger] old(stats)@[i] is Some && old(suffer)@[i] is Some
                    ==> final(stats)@[i] is Some
                        && final(stats)@[i]->Some_0.hp as int
                            == hp_after(old(stats)@[i]->Some_0.hp as int,
                                old(suffer)@[i]->Some_0.amount as int)
                        && final(stats)@[i]->Some_0.max_hp == old(stats)@[i]->Some_0.max_hp
                        && final(stats)@[i]->Some_0.defense == old(stats)@[i]->Some_0.defense
                        && final(stats)@[i]->Some_0.power == old(stats)@[i]->Some_0.power,
    {
        let n: usize = stats.len();
        let mut i: usize = 0;
        while i < n
            invariant
                n == stats@.len(),
                suffer@.len() == n,
                i <= n,
                suffer_nonneg(old(suffer)@),
                suffer@ == old(suffer)@,
                forall|j: int|
                    i <= j < n ==> stats@[j] == old(stats)@[j],
                forall|j: int|
                    0 <= j < i && !(old(stats)@[j] is Some && old(suffer)@[j] is Some)
                        ==> stats@[j] == old(stats)@[j],
                forall|j: int|
                    0 <= j < i && #[trigger] old(stats)@[j] is Some && old(suffer)@[j] is Some
                        ==> stats@[j] is Some
                            && stats@[j]->Some_0.hp as int
                                == hp_after(old(stats)@[j]->Some_0.hp as int,
                                    old(suffer)@[j]->Some_0.amount as int)
                            && stats@[j]->Some_0.max_hp == old(stats)@[j]->Some_0.max_hp
                            && stats@[j]->Some_0.defense == old(stats)@[j]->Some_0.defense
                            && stats@[j]->Some_0.power == old(stats)@[j]->Some_0.power,
            decreases n - i,
        {
            let dmg: i32 = match suffer.get(i) {
                Some(d) => d.amount,
                None => 0,
            };
            let has_damage: bool = suffer.contains(i);
            if has_damage {
                match stats.get(i) {
                    Some(s) => {
                        let cur = *s;
                        let new_hp: i32 = if dmg >= cur.hp { 0 } else { cur.hp - dmg };
                        proof {
                            assert(dmg >= 0);
                        }
                        stats.insert(i, CombatStats {
                            max_hp: cur.max_hp,
                            hp: new_hp,
                            defense: cur.defense,
                            power: cur.power,
                        });
                    }
                    None => {}
                }
            }
            i = i + 1;
        }
        suffer.clear();
    }
}

/// Sweeps up the dead: every live entity whose hit points have reached zero
/// is queued for deletion at the next barrier — except the player, whose
/// death is reported to the caller instead, so the run can end in a game
/// over rather than a vanished player.
pub fn delete_the_dead(world: &mut World, player: EntityId) -> (player_died: bool)
    requires
        old(world).wf(),
    ensures
        final(world).wf(),
        final(world).cap() == old(world).cap(),
        final(world).gens@ == old(world).gens@,
        final(world).alive@ == old(world).alive@,
        final(world).positions@ == old(world).positions@,
        final(world).viewsheds@ == old(world).viewsheds@,
        final(world).players@ == old(world).players@,
        final(world).suffer_damage@ == old(world).suffer_damage@,
        final(world).provides_healing@ == old(world).provides_healing@,
        final(world).inflicts_damage@ == old(world).inflicts_damage@,
        final(world).area_of_effects@ == old(world).area_of_effects@,
        forall|i: int| 0 <= i < final(world).cap()
            ==> final(world).record(i) == old(world).record(i),
        player_died == (player.idx < old(world).cap() && old(world).alive@[player.idx as int]
            && old(world).combat_stats@[player.idx as int] is Some
            && old(world).combat_stats@[player.idx as int]->Some_0.hp < 1),
        // exactly the dead non-player entities join the deletion queue
        forall|k: int|
            0 <= k < final(world).pending@.len()
                ==> (k < old(world).pending@.len()
                    && #[trigger] final(world).pending@[k] == old(world).pending@[k])
                || (final(world).pending@[k].idx != player.idx
                    && old(world).spec_valid(final(world).pending@[k])
                    && old(world).combat_stats@[final(world).pending@[k].idx as int] is Some
                    && old(world).combat_stats@[final(world).pending@[k].idx as int]
                        ->Some_0.hp < 1),
        forall|i: int|
            0 <= i < old(world).cap() && i != player.idx && old(world).alive@[i]
                && #[trigger] old(world).combat_stats@[i] is Some
                && old(world).combat_stats@[i]->Some_0.hp < 1
                ==> exists|k: int|
                    0 <= k < final(world).pending@.len()
                        && #[trigger] final(world).pending@[k].idx == i,
{
    let n: usize = world.alive.len();
    let mut player_died: bool = false;
    let mut i: usize = 0;
    while i < n
        invariant
            world.wf(),
            n == world.cap(),
            i <= n,
            world.cap() == old(world).cap(),
            world.gens@ == old(world).gens@,
            world.alive@ == old(world).alive@,
            world.positions@ == old(world).positions@,
            world.viewsheds@ == old(world).viewsheds@,
            world.players@ == old(world).players@,
            world.suffer_damage@ == old(world).suffer_damage@,
            world.provides_healing@ == old(world).provides_healing@,
            world.inflicts_damage@ == old(world).inflicts_damage@,
            world.area_of_effects@ == old(world).area_of_effects@,
            forall|j: int| 0 <= j < world.cap() ==> world.record(j) == old(world).record(j),
            player.idx < n ==> world.combat_stats@.len() == n,
            player_died == (player.idx < i && old(world).alive@[player.idx as int]
                && old(world).combat_stats@[player.idx as int] is Some
                && old(world).combat_stats@[player.idx as int]->Some_0.hp < 1),
            forall|k: int|
                0 <= k < world.pending@.len()
                    ==> (k < old(world).pending@.len()
                        && #[trigger] world.pending@[k] == old(world).pending@[k])
                    || (world.pending@[k].idx != player.idx
                        && old(world).spec_valid(world.pending@[k])
                        && old(world).combat_stats@[world.pending@[k].idx as int] is Some
                        && old(world).combat_stats@[world.pending@[k].idx as int]
                            ->Some_0.hp < 1),
            forall|j: int|
                0 <= j < i && j != player.idx && old(world).alive@[j]
                    && #[trigger] old(world).combat_stats@[j] is Some
                    && old(world).combat_stats@[j]->Some_0.hp < 1
                    ==> exists|k: int|
                        0 <= k < world.pending@.len()
                            && #[trigger] world.pending@[k].idx == j,
        decreases n - i,
    {
        let ghost pre = *world;
        proof {
            assert(world.record(i as int) == old(world).record(i as int));
        }
        if world.alive[i] {
            let dead: bool = match world.combat_stats.get(i) {
                Some(s) => s.hp < 1,
                None => false,
            };
            if dead {
                if i == player.idx {
                    player_died = true;
                } else {
                    let e = EntityId { idx: i, gen: world.gens[i] };
                    world.delete_entity(e);
                    proof {
                        assert(world.pending@.last() == e);
                        assert forall|j: int|
                            0 <= j < i + 1 && j != player.idx && old(world).alive@[j]
                                && old(world).combat_stats@[j] is Some
                                && old(world).combat_stats@[j]->Some_0.hp < 1
                            implies exists|k: int|
                                0 <= k < world.pending@.len()
                                    && #[trigger] world.pending@[k].idx == j by {
                            if j < i as int {
                                let k = choose|k: int|
                                    0 <= k < pre.pending@.len()
                                        && #[trigger] pre.pending@[k].idx == j;
                                assert(world.pending@[k].idx == j);
                            } else {
                                assert(world.pending@[world.pending@.len() - 1].idx == j);
                            }
                        }
                    }
                }
            }
        }
        i = i + 1;
    }
    player_died
}

} // verus!
