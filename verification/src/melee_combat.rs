//! Melee resolution: one pass per turn over every entity that wants to
//! attack, applying the damage formula with equipment bonuses and recording
//! the result as accumulated damage — hit points themselves change only in
//! the damage system.

use vstd::prelude::*;
use crate::components::{
    CombatStats, DefenseBonus, Equipped, MeleePowerBonus, Name, Position, Rgb, SufferDamage,
    WantsToMelee,
};
use crate::damage::{accumulate, add_damage, suffer_nonneg};
use crate::ecs::{Column, EntityId};
use crate::gamelog::GameLog;
use crate::messages::{format_hit, format_unable, hit_message, unable_message};
use crate::map::on_map;
use crate::particles::ParticleBuilder;
use crate::visibility::positions_on_map;

verus! {

/// The summed power bonus of the first `n` slots' items that are equipped by
/// `owner` and carry a melee power bonus.
pub open spec fn off_bonus_upto(
    eq: Seq<Option<Equipped>>, mb: Seq<Option<MeleePowerBonus>>, owner: EntityId, n: int,
) -> int
    decreases n,
{
    if n <= 0 {
        0
    } else {
        off_bonus_upto(eq, mb, owner, n - 1)
            + (if eq[n - 1] is Some && eq[n - 1]->Some_0.owner == owner && mb[n - 1] is Some {
                mb[n - 1]->Some_0.power as int
            } else {
                0
            })
    }
}

/// The attacker's offensive bonus: the sum of the power bonuses of exactly
/// the items currently equipped by `owner`.
pub open spec fn offensive_bonus_of(
    eq: Seq<Option<Equipped>>, mb: Seq<Option<MeleePowerBonus>>, owner: EntityId,
) -> int {
    off_bonus_upto(eq, mb, owner, eq.len() as int)
}

/// The summed defense bonus of the first `n` slots' items that are equipped
/// by `owner` and carry a defense bonus.
pub open spec fn def_bonus_upto(
    eq: Seq<Option<Equipped>>, db: Seq<Option<DefenseBonus>>, owner: EntityId, n: int,
) -> int
    decreases n,
{
    if n <= 0 {
        0
    } else {
        def_bonus_upto(eq, db, owner, n - 1)
            + (if eq[n - 1] is Some && eq[n - 1]->Some_0.owner == owner && db[n - 1] is Some {
                db[n - 1]->Some_0.defense as int
            } else {
                0
            })
    }
}

/// The defender's defensive bonus: the sum of the defense bonuses of exactly
/// the items currently equipped by `owner`.
pub open spec fn defensive_bonus_of(
    eq: Seq<Option<Equipped>>, db: Seq<Option<DefenseBonus>>, owner: EntityId,
) -> int {
    def_bonus_upto(eq, db, owner, eq.len() as int)
}

/// The melee damage formula: attack power plus offensive bonus, less defense
/// and defensive bonus, and never negative.
pub open spec fn melee_damage(power: int, off: int, defense: int, defb: int) -> int {
    let d = power + off - defense - defb;
    if d < 0 { 0 } else { d }
}

/// The damage actually recorded: the formula's result, capped at the machine
/// limit of the damage accumulator.
pub open spec fn applied_damage(power: int, off: int, defense: int, defb: int) -> int {
    let d = melee_damage(power, off, defense, defb);
    if d > i32::MAX as int { i32::MAX as int } else { d }
}

/// Sums the melee power bonuses of the items equipped by `owner`.
pub fn offensive_bonus(
    eq: &Column<Equipped>, mb: &Column<MeleePowerBonus>, owner: EntityId,
) -> (r: i64)
    requires
        eq@.len() == mb@.len(),
        eq@.len() <= 0x1000_0000,
    ensures
        r == offensive_bonus_of(eq@, mb@, owner),
        -0x800_0000_0000_0000 <= r <= 0x800_0000_0000_0000,
{
    let n: usize = eq.len();
    let mut acc: i64 = 0;
    let mut k: usize = 0;
    while k < n
        invariant
            n == eq@.len(),
            mb@.len() == n,
            n <= 0x1000_0000,
            k <= n,
            acc == off_bonus_upto(eq@, mb@, owner, k as int),
            -(k as i64) * 0x8000_0000 <= acc <= (k as i64) * 0x8000_0000,
        decreases n - k,
    {
        let is_owned: bool = match eq.get(k) {
            Some(e) => e.owner.idx == owner.idx && e.owner.gen == owner.gen,
            None => false,
        };
        if is_owned {
            match mb.get(k) {
                Some(b) => {
                    acc = acc + b.power as i64;
                }
                None => {}
            }
        }
        k = k + 1;
    }
    acc
}

/// Sums the defense bonuses of the items equipped by `owner`.
pub fn defensive_bonus(
    eq: &Column<Equipped>, db: &Column<DefenseBonus>, owner: EntityId,
) -> (r: i64)
    requires
        eq@.len() == db@.len(),
        eq@.len() <= 0x1000_0000,
    ensures
        r == defensive_bonus_of(eq@, db@, owner),
        -0x800_0000_0000_0000 <= r <= 0x800_0000_0000_0000,
{
    let n: usize = eq.len();
    let mut acc: i64 = 0;
    let mut k: usize = 0;
    while k < n
        invariant
            n == eq@.len(),
            db@.len() == n,
            n <= 0x1000_0000,
            k <= n,
            acc == def_bonus_upto(eq@, db@, owner, k as int),
            -(k as i64) * 0x8000_0000 <= acc <= (k as i64) * 0x8000_0000,
        decreases n - k,
    {
        let is_owned: bool = match eq.get(k) {
            Some(e) => e.owner.idx == owner.idx && e.owner.gen == owner.gen,
            None => false,
        };
        if is_owned {
            match db.get(k) {
                Some(b) => {
                    acc = acc + b.defense as i64;
                }
                None => {}
            }
        }
        k = k + 1;
    }
    acc
}

/// Slot `i` holds a live attacker able to act: it has a melee intent, a
/// name, combat stats, and is not dead.
pub open spec fn attacker_acts(
    alive: Seq<bool>, wm: Seq<Option<WantsToMelee>>, names: Seq<Option<Name>>,
    stats: Seq<Option<CombatStats>>, i: int,
) -> bool {
    &&& 0 <= i < alive.len()
    &&& alive[i]
    &&& wm[i] is Some
    &&& names[i] is Some
    &&& stats[i] is Some
    &&& stats[i]->Some_0.hp > 0
}

/// The handle `t` still refers to a live, named entity with combat stats
/// that is not already dead this turn.
pub open spec fn target_alive(
    alive: Seq<bool>, gens: Seq<u64>, names: Seq<Option<Name>>,
    stats: Seq<Option<CombatStats>>, t: EntityId,
) -> bool {
    &&& t.idx < alive.len()
    &&& alive[t.idx as int]
    &&& gens[t.idx as int] == t.gen
    &&& names[t.idx as int] is Some
    &&& stats[t.idx as int] is Some
    &&& stats[t.idx as int]->Some_0.hp > 0
}

/// The attacker in slot `i` strikes: what it adds to the damage ledger.
pub open spec fn melee_blow(
    alive: Seq<bool>, gens: Seq<u64>, wm: Seq<Option<WantsToMelee>>, names: Seq<Option<Name>>,
    stats: Seq<Option<CombatStats>>, mb: Seq<Option<MeleePowerBonus>>,
    db: Seq<Option<DefenseBonus>>, eq: Seq<Option<Equipped>>,
    s: Seq<Option<SufferDamage>>, i: int,
) -> Seq<Option<SufferDamage>> {
    let t = wm[i]->Some_0.target;
    if attacker_acts(alive, wm, names, stats, i)
        && target_alive(alive, gens, names, stats, t) {
        let dmg = applied_damage(stats[i]->Some_0.power as int,
            offensive_bonus_of(eq, mb, EntityId { idx: i as usize, gen: gens[i] }),
            stats[t.idx as int]->Some_0.defense as int,
            defensive_bonus_of(eq, db, t));
        if dmg > 0 {
            s.update(t.idx as int,
                Some(SufferDamage { amount: accumulate(s[t.idx as int], dmg) as i32 }))
        } else {
            s
        }
    } else {
        s
    }
}

/// The damage ledger after the first `n` slots have taken their swings, in
/// slot order: each damaging hit adds to the target's accumulated total.
pub open spec fn melee_ledger(
    alive: Seq<bool>, gens: Seq<u64>, wm: Seq<Option<WantsToMelee>>, names: Seq<Option<Name>>,
    stats: Seq<Option<CombatStats>>, mb: Seq<Option<MeleePowerBonus>>,
    db: Seq<Option<DefenseBonus>>, eq: Seq<Option<Equipped>>,
    suf0: Seq<Option<SufferDamage>>, n: int,
) -> Seq<Option<SufferDamage>>
    decreases n,
{
    if n <= 0 {
        suf0
    } else {
        melee_blow(alive, gens, wm, names, stats, mb, db, eq,
            melee_ledger(alive, gens, wm, names, stats, mb, db, eq, suf0, n - 1), n - 1)
    }
}

/// Melee combat resolution.
pub struct MeleeCombatSystem {}

impl MeleeCombatSystem {
    /// Resolves every melee intent: a live attacker with stats strikes its
    /// target if that handle still refers to a live entity with stats, for
    /// damage `max(0, power + offensive bonus - defense - defensive bonus)`,
    /// where the bonuses count exactly the items currently equipped by each
    /// side.  A damaging hit is recorded against the target's damage
    /// accumulator (adding to earlier hits this turn, never overwriting) and
    /// logged; a zero-damage hit is only logged.  Hit points are untouched
    /// here.  All melee intents are cleared.  When exactly one entity holds
    /// an intent, the outcome is pinned down exactly.
    pub fn run(
        alive: &Vec<bool>,
        gens: &Vec<u64>,
        wants_melee: &mut Column<WantsToMelee>,
        names: &Column<Name>,
        stats: &Column<CombatStats>,
        suffer: &mut Column<SufferDamage>,
        melee_bonuses: &Column<MeleePowerBonus>,
        defense_bonuses: &Column<DefenseBonus>,
        equipped: &Column<Equipped>,
        positions: &Column<Position>,
        particles: &mut ParticleBuilder,
        log: &mut GameLog,
    )
        requires
            alive@.len() == old(wants_melee)@.len(),
            gens@.len() == alive@.len(),
            names@.len() == alive@.len(),
            stats@.len() == alive@.len(),
            old(suffer)@.len() == alive@.len(),
            melee_bonuses@.len() == alive@.len(),
            defense_bonuses@.len() == alive@.len(),
            equipped@.len() == alive@.len(),
            positions@.len() == alive@.len(),
            alive@.len() <= 0x1000_0000,
            suffer_nonneg(old(suffer)@),
            positions_on_map(positions@),
        ensures
            final(wants_melee)@.len() == old(wants_melee)@.len(),
            final(suffer)@.len() == old(suffer)@.len(),
            suffer_nonneg(final(suffer)@),
            // the damage ledger holds exactly the fold of every swing, in
            // slot order: simultaneous hits on one target add up
            final(suffer)@ == melee_ledger(alive@, gens@, old(wants_melee)@, names@, stats@,
                melee_bonuses@, defense_bonuses@, equipped@, old(suffer)@,
                alive@.len() as int),
            old(particles)@.len() <= final(particles)@.len(),
            forall|k: int| 0 <= k < old(particles)@.len()
                ==> final(particles)@[k] == old(particles)@[k],
            forall|k: int| old(particles)@.len() <= k < final(particles)@.len()
                ==> on_map((#[trigger] final(particles)@[k]).x as int,
                    final(particles)@[k].y as int),
            // intents are one-shot: all cleared
            forall|j: int| 0 <= j < final(wants_melee)@.len()
                ==> final(wants_melee)@[j] is None,
            // no intent at all: nothing happens
            (forall|j: int| 0 <= j < alive@.len() ==> !(#[trigger] old(wants_melee)@[j] is Some))
                ==> final(suffer)@ == old(suffer)@
                    && final(log).entries@ == old(log).entries@
                    && final(particles)@ == old(particles)@,
            // exactly one intent: the outcome in full
            forall|i0: int|
                single_intent(old(wants_melee)@, i0)
                    ==> single_outcome(alive@, gens@, old(wants_melee)@, names@, stats@,
                        melee_bonuses@, defense_bonuses@, equipped@, positions@,
                        old(suffer)@, final(suffer)@,
                        old(log).entries@, final(log).entries@,
                        old(particles)@, final(particles)@, i0),
    {
        let n: usize = alive.len();
        let mut i: usize = 0;
        while i < n
            invariant
                n == alive@.len(),
                gens@.len() == n,
                wants_melee@.len() == n,
                names@.len() == n,
                stats@.len() == n,
                suffer@.len() == n,
                melee_bonuses@.len() == n,
                defense_bonuses@.len() == n,
                equipped@.len() == n,
                positions@.len() == n,
                n <= 0x1000_0000,
                i <= n,
                wants_melee@ == old(wants_melee)@,
                suffer_nonneg(suffer@),
                suffer@ == melee_ledger(alive@, gens@, old(wants_melee)@, names@, stats@,
                    melee_bonuses@, defense_bonuses@, equipped@, old(suffer)@, i as int),
                positions_on_map(positions@),
                old(particles)@.len() <= particles@.len(),
                forall|k: int| 0 <= k < old(particles)@.len()
                    ==> particles@[k] == old(particles)@[k],
                forall|k: int| old(particles)@.len() <= k < particles@.len()
                    ==> on_map((#[trigger] particles@[k]).x as int, particles@[k].y as int),
                (forall|j: int| 0 <= j < n ==> !(#[trigger] old(wants_melee)@[j] is Some))
                    ==> suffer@ == old(suffer)@
                        && log.entries@ == old(log).entries@
                        && particles@ == old(particles)@,
                forall|i0: int|
                    single_intent(old(wants_melee)@, i0) && i0 < i
                        ==> single_outcome(alive@, gens@, old(wants_melee)@, names@, stats@,
                            melee_bonuses@, defense_bonuses@, equipped@, positions@,
                            old(suffer)@, suffer@, old(log).entries@, log.entries@,
                            old(particles)@, particles@, i0),
                forall|i0: int|
                    single_intent(old(wants_melee)@, i0) && i0 >= i
                        ==> suffer@ == old(suffer)@
                            && log.entries@ == old(log).entries@
                            && particles@ == old(particles)@,
            decreases n - i,
        {
            let has_intent: bool = alive[i] && wants_melee.contains(i) && names.contains(i)
                && stats.contains(i);
            if has_intent {
                let st: CombatStats = match stats.get(i) {
                    Some(s) => *s,
                    None => CombatStats { max_hp: 0, hp: 0, defense: 0, power: 0 },
                };
                let target: EntityId = match wants_melee.get(i) {
                    Some(w) => w.target,
                    None => EntityId { idx: 0, gen: 0 },
                };
                if st.hp > 0 {
                    let attacker = EntityId { idx: i, gen: gens[i] };
                    if target.idx < n && alive[target.idx] && gens[target.idx] == target.gen
                        && stats.contains(target.idx) && names.contains(target.idx) {
                        let tst: CombatStats = match stats.get(target.idx) {
                            Some(s) => *s,
                            None => CombatStats { max_hp: 0, hp: 0, defense: 0, power: 0 },
                        };
                        if tst.hp > 0 {
                            let off: i64 = offensive_bonus(equipped, melee_bonuses, attacker);
                            let defb: i64 = defensive_bonus(equipped, defense_bonuses, target);
                            let d64: i64 = st.power as i64 + off - tst.defense as i64 - defb;
                            if d64 <= 0 {
                                let msg = match (names.get(i), names.get(target.idx)) {
                                    (Some(an), Some(tn)) => format_unable(&an.name, &tn.name),
                                    _ => crate::messages::fixed_message(""),
                                };
                                log.log(msg);
                            } else {
                                let dmg: i32 = if d64 > i32::MAX as i64 {
                                    i32::MAX
                                } else {
                                    d64 as i32
                                };
                                match positions.get(target.idx) {
                                    Some(p) => {
                                        particles.requests(p.x, p.y,
                                            Rgb { r: 255, g: 165, b: 0 },
                                            Rgb { r: 0, g: 0, b: 0 }, 19, 200);
                                    }
                                    None => {}
                                }
                                let msg = match (names.get(i), names.get(target.idx)) {
                                    (Some(an), Some(tn)) => format_hit(&an.name, &tn.name, dmg),
                                    _ => crate::messages::fixed_message(""),
                                };
                                log.log(msg);
                                add_damage(suffer, target.idx, dmg);
                            }
                        }
                    }
                }
            }
            proof {
                let ledger_next = melee_ledger(alive@, gens@, old(wants_melee)@, names@,
                    stats@, melee_bonuses@, defense_bonuses@, equipped@, old(suffer)@,
                    i as int + 1);
                assert(ledger_next == melee_blow(alive@, gens@, old(wants_melee)@, names@,
                    stats@, melee_bonuses@, defense_bonuses@, equipped@,
                    melee_ledger(alive@, gens@, old(wants_melee)@, names@, stats@,
                        melee_bonuses@, defense_bonuses@, equipped@, old(suffer)@,
                        i as int), i as int));
            }
            i = i + 1;
        }
        wants_melee.clear();
    }
}

/// Exactly the entity in slot `i0` holds a melee intent.
pub open spec fn single_intent(wm: Seq<Option<WantsToMelee>>, i0: int) -> bool {
    &&& 0 <= i0 < wm.len()
    &&& wm[i0] is Some
    &&& forall|j: int| 0 <= j < wm.len() && j != i0 ==> !(#[trigger] wm[j] is Some)
}

/// The exact outcome of resolving the single melee intent in slot `i0`.
pub open spec fn single_outcome(
    alive: Seq<bool>,
    gens: Seq<u64>,
    wm: Seq<Option<WantsToMelee>>,
    names: Seq<Option<Name>>,
    stats: Seq<Option<CombatStats>>,
    mb: Seq<Option<MeleePowerBonus>>,
    db: Seq<Option<DefenseBonus>>,
    eq: Seq<Option<Equipped>>,
    ps: Seq<Option<Position>>,
    suffer0: Seq<Option<SufferDamage>>,
    suffer1: Seq<Option<SufferDamage>>,
    log0: Seq<String>,
    log1: Seq<String>,
    parts0: Seq<crate::particles::ParticleRequest>,
    parts1: Seq<crate::particles::ParticleRequest>,
    i0: int,
) -> bool {
    let t = wm[i0]->Some_0.target;
    if attacker_acts(alive, wm, names, stats, i0)
        && target_alive(alive, gens, names, stats, t) {
        let attacker = EntityId { idx: i0 as usize, gen: gens[i0] };
        let dmg = applied_damage(stats[i0]->Some_0.power as int,
            offensive_bonus_of(eq, mb, attacker),
            stats[t.idx as int]->Some_0.defense as int,
            defensive_bonus_of(eq, db, t));
        if dmg == 0 {
            &&& suffer1 == suffer0
            &&& log1 == log0.insert(0, log1[0])
            &&& log1[0]@ == unable_message(names[i0]->Some_0.name@, names[t.idx as int]->Some_0.name@)
            &&& parts1 == parts0
        } else {
            &&& suffer1 == suffer0.update(t.idx as int,
                Some(SufferDamage { amount: accumulate(suffer0[t.idx as int], dmg) as i32 }))
            &&& log1 == log0.insert(0, log1[0])
            &&& log1[0]@ == hit_message(names[i0]->Some_0.name@,
                names[t.idx as int]->Some_0.name@, dmg)
            &&& (ps[t.idx as int] is Some ==> parts1 == parts0.push(
                crate::particles::ParticleRequest {
                    x: ps[t.idx as int]->Some_0.x,
                    y: ps[t.idx as int]->Some_0.y,
                    fg: Rgb { r: 255, g: 165, b: 0 },
                    bg: Rgb { r: 0, g: 0, b: 0 },
                    glyph: 19,
                    lifetime: 200,
                },
            ))
            &&& (ps[t.idx as int] is None ==> parts1 == parts0)
        }
    } else {
        suffer1 == suffer0 && log1 == log0 && parts1 == parts0
    }
}

} // verus!
