//! Melee: turning the intents to attack into damage.

use vstd::prelude::*;
use crate::components::{
    pending_damage,
    CombatStats,
    DefenseBonus,
    Equipped,
    MeleePowerBonus,
    SuffersDamage,
    WantsToMelee,
};
use crate::entity::Entity;
use crate::gamelog::LogEntry;
use crate::arith::clamp;
use crate::storage::Storage;
use crate::world::World;

verus! {

/// The attack that `owner` gains from what it wears, counted over the first
/// `n` slots.
pub open spec fn power_bonus(
    bonuses: &Storage<MeleePowerBonus>,
    equipped: &Storage<Equipped>,
    owner: Entity,
    n: int,
) -> int
    decreases n,
{
    if n <= 0 {
        0
    } else {
        power_bonus(bonuses, equipped, owner, n - 1) + (match (
            bonuses.at(n - 1),
            equipped.at(n - 1),
        ) {
            (Some(b), Some(e)) if e.owner == owner => b.power as int,
            _ => 0,
        })
    }
}

/// The defense that `owner` gains from what it wears, counted over the
/// first `n` slots.
pub open spec fn defense_bonus(
    bonuses: &Storage<DefenseBonus>,
    equipped: &Storage<Equipped>,
    owner: Entity,
    n: int,
) -> int
    decreases n,
{
    if n <= 0 {
        0
    } else {
        defense_bonus(bonuses, equipped, owner, n - 1) + (match (
            bonuses.at(n - 1),
            equipped.at(n - 1),
        ) {
            (Some(b), Some(e)) if e.owner == owner => b.defense as int,
            _ => 0,
        })
    }
}

/// The damage of one blow: attack and its bonuses less defense and its
/// bonuses, never below zero, and no more than an `i32` holds.
pub open spec fn blow_damage(attack: int, power: int, defense: int, cover: int) -> i32 {
    if (attack + power) - (defense + cover) <= 0 {
        0i32
    } else {
        clamp((attack + power) - (defense + cover)) as i32
    }
}

/// The blow that the attacker of slot `a` lands: whom it strikes and for how
/// much. There is none where the slot holds no intent or no combat
/// statistics, where the attacker is out of hit points, or where the target
/// is dead, has no combat statistics or is out of hit points.
pub open spec fn blow_of(w: &World, a: int) -> Option<(Entity, i32)> {
    match (w.wants_to_melee.at(a), w.combat_stats.at(a)) {
        (Some(intent), Some(stats)) if stats.hp > 0 => match w.combat_stats.of(
            &w.entities,
            intent.target,
        ) {
            Some(t) if t.hp > 0 => Some(
                (
                    intent.target,
                    blow_damage(
                        stats.attack as int,
                        power_bonus(
                            &w.melee_power_bonus,
                            &w.equipped,
                            w.entities.entity_at(a),
                            w.equipped.slots@.len() as int,
                        ),
                        t.defense as int,
                        defense_bonus(
                            &w.defense_bonus,
                            &w.equipped,
                            intent.target,
                            w.equipped.slots@.len() as int,
                        ),
                    ),
                ),
            ),
            _ => None,
        },
        _ => None,
    }
}

/// The damage that the attackers of the first `n` slots queue for slot `d`,
/// in the order of the attackers' slots. A blow without damage queues
/// nothing.
pub open spec fn blows_on(w: &World, d: int, n: int) -> Seq<i32>
    decreases n,
{
    if n <= 0 {
        Seq::empty()
    } else {
        blows_on(w, d, n - 1) + (match blow_of(w, n - 1) {
            Some((target, damage)) if target.id == d && damage > 0 => seq![damage],
            _ => Seq::empty(),
        })
    }
}

/// What the log gains by the attackers of the first `n` slots: one entry
/// for each blow, with or without damage.
pub open spec fn melee_log(w: &World, n: int) -> Seq<LogEntry>
    decreases n,
{
    if n <= 0 {
        Seq::empty()
    } else {
        melee_log(w, n - 1) + (match blow_of(w, n - 1) {
            Some((target, damage)) => if damage == 0 {
                seq![
                    LogEntry::CouldNotDamage {
                        attacker: w.name_of(w.entities.entity_at(n - 1)),
                        target: w.name_of(target),
                    },
                ]
            } else {
                seq![
                    LogEntry::Hit {
                        attacker: w.name_of(w.entities.entity_at(n - 1)),
                        target: w.name_of(target),
                        damage,
                    },
                ]
            },
            None => Seq::empty(),
        })
    }
}

/// The attack that `owner` gains from what it wears.
pub fn attack_bonus(world: &World, owner: Entity) -> (r: i128)
    ensures
        r == power_bonus(
            &world.melee_power_bonus,
            &world.equipped,
            owner,
            world.equipped.slots@.len() as int,
        ),
        -2147483648 * world.equipped.slots@.len() <= r <= 2147483647 * world.equipped.slots@.len(),
{
    let n: usize = world.equipped.len();
    let mut total: i128 = 0;
    let mut j: usize = 0;
    while j < n
        invariant
            n == world.equipped.slots@.len(),
            j <= n,
            total == power_bonus(&world.melee_power_bonus, &world.equipped, owner, j as int),
            -2147483648 * j <= total <= 2147483647 * j,
        decreases n - j,
    {
        let worn: bool = match world.equipped.slot(j) {
            Some(e) => e.owner == owner,
            None => false,
        };
        if worn {
            match world.melee_power_bonus.slot(j) {
                Some(b) => {
                    total = total + b.power as i128;
                },
                None => {},
            }
        }
        j += 1;
    }
    total
}

/// The defense that `owner` gains from what it wears.
pub fn cover_bonus(world: &World, owner: Entity) -> (r: i128)
    ensures
        r == defense_bonus(
            &world.defense_bonus,
            &world.equipped,
            owner,
            world.equipped.slots@.len() as int,
        ),
        -2147483648 * world.equipped.slots@.len() <= r <= 2147483647 * world.equipped.slots@.len(),
{
    let n: usize = world.equipped.len();
    let mut total: i128 = 0;
    let mut j: usize = 0;
    while j < n
        invariant
            n == world.equipped.slots@.len(),
            j <= n,
            total == defense_bonus(&world.defense_bonus, &world.equipped, owner, j as int),
            -2147483648 * j <= total <= 2147483647 * j,
        decreases n - j,
    {
        let worn: bool = match world.equipped.slot(j) {
            Some(e) => e.owner == owner,
            None => false,
        };
        if worn {
            match world.defense_bonus.slot(j) {
                Some(b) => {
                    total = total + b.defense as i128;
                },
                None => {},
            }
        }
        j += 1;
    }
    total
}

/// The melee pass.
pub struct MeleeCombatSystem {}

impl MeleeCombatSystem {
    /// The blow that the attacker of slot `a` lands, if any.
    pub fn blow(world: &World, a: usize) -> (r: Option<(Entity, i32)>)
        requires
            world.wf(),
        ensures
            r == blow_of(world, a as int),
    {
        let intent: WantsToMelee = match world.wants_to_melee.slot(a) {
            Some(m) => *m,
            None => {
                return None;
            },
        };
        let stats: CombatStats = match world.combat_stats.slot(a) {
            Some(s) => *s,
            None => {
                return None;
            },
        };
        if stats.hp <= 0 {
            return None;
        }
        let target: CombatStats = match world.combat_stats.get(&world.entities, intent.target) {
            Some(t) => *t,
            None => {
                return None;
            },
        };
        if target.hp <= 0 {
            return None;
        }
        let attacker = world.entities.entity(a);
        let power = attack_bonus(world, attacker);
        let cover = cover_bonus(world, intent.target);
        let worn: usize = world.equipped.len();
        assert(worn <= 0xffff_ffff_ffff_ffff);
        let raw: i128 = (stats.attack as i128 + power) - (target.defense as i128 + cover);
        let damage: i32 = if raw <= 0 {
            0
        } else if raw > 2147483647 {
            2147483647
        } else {
            raw as i32
        };
        Some((intent.target, damage))
    }

    /// `after` is `before` after the melee pass: no intent to attack is
    /// left; every blow with damage has joined the queue of its target, in
    /// the order of the attackers' slots; the log tells of every blow; and
    /// nothing else changed.
    pub open spec fn ran(before: &World, after: &World) -> bool {
        &&& *after == (World {
            wants_to_melee: after.wants_to_melee,
            suffers_damage: after.suffers_damage,
            gamelog: after.gamelog,
            ..*before
            })
        &&& after.wants_to_melee.is_clear()
        &&& forall|d: int|
            #![trigger after.suffers_damage.at(d)]
            #![trigger before.suffers_damage.at(d)]
            if blows_on(before, d, before.wants_to_melee.slots@.len() as int).len()
                == 0 {
                after.suffers_damage.at(d) == before.suffers_damage.at(d)
            } else {
                after.suffers_damage.has(d) && pending_damage(
                    &after.suffers_damage,
                    d,
                ) == pending_damage(&before.suffers_damage, d) + blows_on(
                    before,
                    d,
                    before.wants_to_melee.slots@.len() as int,
                )
            }
        &&& after.gamelog.entries@ == before.gamelog.entries@ + melee_log(
            before,
            before.wants_to_melee.slots@.len() as int,
            )
    }

    /// Resolves every intent to attack, lowest slot first: each blow is
    /// told in the log, each blow with damage joins the queue of its
    /// target, and no intent is left behind. Hit points are not touched.
    pub fn run(&mut self, world: &mut World)
        requires
            old(world).wf(),
        ensures
            final(world).wf(),
            Self::ran(old(world), final(world)),
    {
        let n: usize = world.wants_to_melee.len();
        let mut a: usize = 0;
        while a < n
            invariant
                old(world).wf(),
                world.wf(),
                n == old(world).wants_to_melee.slots@.len(),
                a <= n,
                *world == (World {
                    suffers_damage: world.suffers_damage,
                    gamelog: world.gamelog,
                    ..*old(world)
                }),
                forall|d: int|
                    #![trigger world.suffers_damage.at(d)]
                    #![trigger old(world).suffers_damage.at(d)]
                    if blows_on(old(world), d, a as int).len() == 0 {
                        world.suffers_damage.at(d) == old(world).suffers_damage.at(d)
                    } else {
                        world.suffers_damage.has(d) && pending_damage(&world.suffers_damage, d)
                            == pending_damage(&old(world).suffers_damage, d) + blows_on(
                            old(world),
                            d,
                            a as int,
                        )
                    },
                world.gamelog.entries@ == old(world).gamelog.entries@ + melee_log(
                    old(world),
                    a as int,
                ),
            decreases n - a,
        {
            let ghost before = *world;
            let landed = Self::blow(world, a);
            proof {
                assert(blow_of(&before, a as int) == blow_of(old(world), a as int));
            }
            match landed {
                Some((target, damage)) => {
                    let attacker = world.entities.entity(a);
                    let attacker_name = world.name(attacker);
                    let target_name = world.name(target);
                    if damage == 0 {
                        world.gamelog.push(
                            LogEntry::CouldNotDamage {
                                attacker: attacker_name,
                                target: target_name,
                            },
                        );
                    } else {
                        world.gamelog.push(
                            LogEntry::Hit { attacker: attacker_name, target: target_name, damage },
                        );
                        SuffersDamage::new_damage(
                            &mut world.suffers_damage,
                            &world.entities,
                            target,
                            damage,
                        );
                        proof {
                            let t = target.id as int;
                            let earlier = blows_on(old(world), t, a as int);
                            assert(blows_on(old(world), t, a as int + 1) == earlier.push(damage));
                            assert(pending_damage(&world.suffers_damage, t) =~= pending_damage(
                                &old(world).suffers_damage,
                                t,
                            ) + earlier.push(damage));
                        }
                    }
                },
                None => {},
            }
            proof {
                assert forall|d: int|
                    #![trigger world.suffers_damage.at(d)]
                    #![trigger old(world).suffers_damage.at(d)]
                    if blows_on(old(world), d, a as int + 1).len() == 0 {
                        world.suffers_damage.at(d) == old(world).suffers_damage.at(d)
                    } else {
                        world.suffers_damage.has(d) && pending_damage(&world.suffers_damage, d)
                            == pending_damage(&old(world).suffers_damage, d) + blows_on(
                            old(world),
                            d,
                            a as int + 1,
                        )
                    } by {
                    let struck = match landed {
                        Some((target, damage)) => target.id == d && damage > 0,
                        None => false,
                    };
                    if !struck {
                        assert(blows_on(old(world), d, a as int + 1) =~= blows_on(
                            old(world),
                            d,
                            a as int,
                        ));
                        assert(world.suffers_damage.at(d) == before.suffers_damage.at(d));
                    }
                }
                assert(world.gamelog.entries@ =~= old(world).gamelog.entries@ + melee_log(
                    old(world),
                    a as int + 1,
                ));
            }
            a += 1;
        }
        world.wants_to_melee.clear();
    }
}

/// A blow takes as many hit points as the attack with its bonuses exceeds
/// the defense with its bonuses, and none if it does not exceed them.
pub proof fn lemma_blow_damage_formula(attack: int, power: int, defense: int, cover: int)
    requires
        (attack + power) - (defense + cover) <= i32::MAX,
    ensures
        blow_damage(attack, power, defense, cover) == (if attack + power > defense + cover {
            (attack + power) - (defense + cover)
        } else {
            0
        }),
{
}

} // verus!
