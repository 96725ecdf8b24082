//! The hunger clock: once per turn the acting side's clock counts down;
//! when it runs out the state worsens one step, and a starving entity takes
//! a point of damage.

use vstd::prelude::*;
use crate::components::{HungerClock, HungerState, SufferDamage};
use crate::damage::{accumulate, add_damage, suffer_nonneg};
use crate::ecs::{Column, EntityId};
use crate::gamelog::{GameLog, log_extended, lemma_log_extended_refl, lemma_log_extended_insert,
    lemma_log_extended_trans};

verus! {

/// One tick of a hunger clock.
pub open spec fn hunger_next(c: HungerClock) -> HungerClock {
    let d: int = if c.duration > i32::MIN { c.duration - 1 } else { c.duration as int };
    if d < 1 {
        match c.state {
            HungerState::WellFed => HungerClock { state: HungerState::Normal, duration: 200 },
            HungerState::Normal => HungerClock { state: HungerState::Hungry, duration: 200 },
            HungerState::Hungry => HungerClock { state: HungerState::Starving, duration: 200 },
            HungerState::Starving => HungerClock {
                state: HungerState::Starving,
                duration: d as i32,
            },
        }
    } else {
        HungerClock { state: c.state, duration: d as i32 }
    }
}

/// The clock ticked into the painful part of starvation.
pub open spec fn hunger_bites(c: HungerClock) -> bool {
    let d: int = if c.duration > i32::MIN { c.duration - 1 } else { c.duration as int };
    d < 1 && c.state is Starving
}

/// The message the player reads when the clock runs out in `state`.
pub open spec fn hunger_message(state: HungerState) -> Seq<char> {
    match state {
        HungerState::WellFed => "You are no longer well fed"@,
        HungerState::Normal => "You are hungry"@,
        HungerState::Hungry => "You are starving!"@,
        HungerState::Starving => "Your hunger pangs are getting painful"@,
    }
}

/// The player's clock ticked over this pass, so a message is due.
pub open spec fn player_rolled_over(
    alive: Seq<bool>, clocks: Seq<Option<HungerClock>>, player: EntityId, turn_player: bool,
) -> bool {
    &&& turn_player
    &&& player.idx < alive.len()
    &&& alive[player.idx as int]
    &&& clocks[player.idx as int] is Some
    &&& hunger_rolls(clocks[player.idx as int]->Some_0)
}

/// The clock runs out on this tick.
pub open spec fn hunger_rolls(c: HungerClock) -> bool {
    (if c.duration > i32::MIN { c.duration - 1 } else { c.duration as int }) < 1
}

/// Whether the entity in slot `i` acts this turn: the player on the player's
/// turn, everyone else on the monsters' turn.
pub open spec fn hunger_proceeds(
    player: EntityId, turn_player: bool, turn_monster: bool, i: int,
) -> bool {
    (turn_player && i == player.idx) || (turn_monster && i != player.idx)
}

/// The hunger system.
pub struct HungerSystem {}

impl HungerSystem {
    /// Ticks the hunger clock of every entity on the side whose turn it is:
    /// the clock counts down, the state worsens one step when it runs out,
    /// and a starving entity is charged one point of damage on its
    /// accumulator.  The player's changes of state are logged.
    pub fn run(
        alive: &Vec<bool>,
        hunger_clocks: &mut Column<HungerClock>,
        suffer: &mut Column<SufferDamage>,
        player: EntityId,
        turn_player: bool,
        turn_monster: bool,
        log: &mut GameLog,
    )
        requires
            old(hunger_clocks)@.len() == alive@.len(),
            old(suffer)@.len() == alive@.len(),
            suffer_nonneg(old(suffer)@),
        ensures
            final(hunger_clocks)@.len() == old(hunger_clocks)@.len(),
            final(suffer)@.len() == old(suffer)@.len(),
            suffer_nonneg(final(suffer)@),
            log_extended(old(log).entries@, final(log).entries@),
            // exactly the player's roll-over is reported, with the message
            // that matches the state the clock ran out in
            ({
                if player_rolled_over(alive@, old(hunger_clocks)@, player, turn_player) {
                    final(log).entries@ == old(log).entries@.insert(0,
                        final(log).entries@[0])
                        && (final(log).entries@[0])@ == hunger_message(
                            old(hunger_clocks)@[player.idx as int]->Some_0.state)
                } else {
                    final(log).entries@ == old(log).entries@
                }
            }),
            forall|i: int|
                #![trigger final(hunger_clocks)@[i]]
                0 <= i < alive@.len()
                    ==> final(hunger_clocks)@[i] == (if alive@[i]
                            && old(hunger_clocks)@[i] is Some
                            && hunger_proceeds(player, turn_player, turn_monster, i) {
                        Some(hunger_next(old(hunger_clocks)@[i]->Some_0))
                    } else {
                        old(hunger_clocks)@[i]
                    }),
            forall|i: int|
                #![trigger final(suffer)@[i]]
                0 <= i < alive@.len()
                    ==> final(suffer)@[i] == (if alive@[i] && old(hunger_clocks)@[i] is Some
                            && hunger_proceeds(player, turn_player, turn_monster, i)
                            && hunger_bites(old(hunger_clocks)@[i]->Some_0) {
                        Some(SufferDamage { amount: accumulate(old(suffer)@[i], 1) as i32 })
                    } else {
                        old(suffer)@[i]
                    }),
    {
        let n: usize = alive.len();
        let mut i: usize = 0;
        proof {
            lemma_log_extended_refl(old(log).entries@);
        }
        while i < n
            invariant
                n == alive@.len(),
                hunger_clocks@.len() == n,
                suffer@.len() == n,
                i <= n,
                suffer_nonneg(suffer@),
                log_extended(old(log).entries@, log.entries@),
                ({
                    if player_rolled_over(alive@, old(hunger_clocks)@, player, turn_player)
                        && player.idx < i {
                        log.entries@ == old(log).entries@.insert(0, log.entries@[0])
                            && (log.entries@[0])@ == hunger_message(
                                old(hunger_clocks)@[player.idx as int]->Some_0.state)
                    } else {
                        log.entries@ == old(log).entries@
                    }
                }),
                forall|j: int|
                    #![trigger hunger_clocks@[j]]
                    0 <= j < n
                        ==> hunger_clocks@[j] == (if j < i && alive@[j]
                                && old(hunger_clocks)@[j] is Some
                                && hunger_proceeds(player, turn_player, turn_monster, j) {
                            Some(hunger_next(old(hunger_clocks)@[j]->Some_0))
                        } else {
                            old(hunger_clocks)@[j]
                        }),
                forall|j: int|
                    #![trigger suffer@[j]]
                    0 <= j < n
                        ==> suffer@[j] == (if j < i && alive@[j]
                                && old(hunger_clocks)@[j] is Some
                                && hunger_proceeds(player, turn_player, turn_monster, j)
                                && hunger_bites(old(hunger_clocks)@[j]->Some_0) {
                            Some(SufferDamage { amount: accumulate(old(suffer)@[j], 1) as i32 })
                        } else {
                            old(suffer)@[j]
                        }),
            decreases n - i,
        {
            let proceed: bool = (turn_player && i == player.idx)
                || (turn_monster && i != player.idx);
            let ticked: bool = alive[i] && hunger_clocks.contains(i) && proceed;
            if ticked {
                let clock: HungerClock = match hunger_clocks.get(i) {
                    Some(c) => *c,
                    None => HungerClock { state: HungerState::Normal, duration: 0 },
                };
                let d: i32 = if clock.duration > i32::MIN { clock.duration - 1 } else {
                    clock.duration
                };
                let is_player: bool = i == player.idx;
                if d < 1 {
                    match clock.state {
                        HungerState::WellFed => {
                            hunger_clocks.insert(i, HungerClock {
                                state: HungerState::Normal,
                                duration: 200,
                            });
                            if is_player {
                                let ghost pre_log = log.entries@;
                                log.log(crate::messages::fixed_message(
                                    "You are no longer well fed"));
                                proof {
                                    lemma_log_extended_insert(pre_log, log.entries@[0]);
                                    lemma_log_extended_trans(old(log).entries@, pre_log,
                                        log.entries@);
                                }
                            }
                        }
                        HungerState::Normal => {
                            hunger_clocks.insert(i, HungerClock {
                                state: HungerState::Hungry,
                                duration: 200,
                            });
                            if is_player {
                                let ghost pre_log = log.entries@;
                                log.log(crate::messages::fixed_message("You are hungry"));
                                proof {
                                    lemma_log_extended_insert(pre_log, log.entries@[0]);
                                    lemma_log_extended_trans(old(log).entries@, pre_log,
                                        log.entries@);
                                }
                            }
                        }
                        HungerState::Hungry => {
                            hunger_clocks.insert(i, HungerClock {
                                state: HungerState::Starving,
                                duration: 200,
                            });
                            if is_player {
                                let ghost pre_log = log.entries@;
                                log.log(crate::messages::fixed_message("You are starving!"));
                                proof {
                                    lemma_log_extended_insert(pre_log, log.entries@[0]);
                                    lemma_log_extended_trans(old(log).entries@, pre_log,
                                        log.entries@);
                                }
                            }
                        }
                        HungerState::Starving => {
                            hunger_clocks.insert(i, HungerClock {
                                state: HungerState::Starving,
                                duration: d,
                            });
                            if is_player {
                                let ghost pre_log = log.entries@;
                                log.log(crate::messages::fixed_message(
                                    "Your hunger pangs are getting painful"));
                                proof {
                                    lemma_log_extended_insert(pre_log, log.entries@[0]);
                                    lemma_log_extended_trans(old(log).entries@, pre_log,
                                        log.entries@);
                                }
                            }
                            add_damage(suffer, i, 1);
                        }
                    }
                } else {
                    hunger_clocks.insert(i, HungerClock { state: clock.state, duration: d });
                }
            }
            i = i + 1;
        }
    }
}

} // verus!
