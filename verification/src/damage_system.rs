//! Applying queued damage, and removing what died of it.

use vstd::prelude::*;
use crate::components::CombatStats;
use crate::entity::Entity;
use crate::gamelog::LogEntry;
use crate::arith::clamp;
use crate::state::RunState;
use crate::world::World;

verus! {

/// The sum of the amounts.
pub open spec fn total(amounts: Seq<i32>) -> int
    decreases amounts.len(),
{
    if amounts.len() == 0 {
        0
    } else {
        total(amounts.drop_last()) + amounts.last()
    }
}

/// `stats` after the queued `amounts` are taken off its hit points.
pub open spec fn wounded(stats: CombatStats, amounts: Seq<i32>) -> CombatStats {
    CombatStats { hp: clamp(stats.hp - total(amounts)) as i32, ..stats }
}

/// The sum of the amounts.
pub fn sum(amounts: &Vec<i32>) -> (r: i128)
    ensures
        r == total(amounts@),
        -2147483648 * amounts@.len() <= r <= 2147483647 * amounts@.len(),
{
    let mut acc: i128 = 0;
    let mut k: usize = 0;
    while k < amounts.len()
        invariant
            k <= amounts@.len(),
            acc == total(amounts@.subrange(0, k as int)),
            -2147483648 * k <= acc <= 2147483647 * k,
        decreases amounts@.len() - k,
    {
        proof {
            let longer = amounts@.subrange(0, k as int + 1);
            assert(longer.drop_last() == amounts@.subrange(0, k as int));
            assert(longer.last() == amounts@[k as int]);
        }
        acc = acc + amounts[k] as i128;
        k += 1;
    }
    assert(amounts@.subrange(0, amounts@.len() as int) == amounts@);
    acc
}

/// The damage pass.
pub struct DamageSystem {}

impl DamageSystem {
    /// `after` is `before` after the damage pass: whoever had damage queued
    /// and has combat statistics lost the sum of the queue in hit points;
    /// no queue is left; and nothing else changed.
    pub open spec fn ran(before: &World, after: &World) -> bool {
        &&& *after == (World {
            combat_stats: after.combat_stats,
            suffers_damage: after.suffers_damage,
            ..*before
            })
        &&& after.suffers_damage.is_clear()
        &&& forall|j: int|
            #![trigger after.combat_stats.at(j)]
            #![trigger before.combat_stats.at(j)]
            after.combat_stats.at(j) == (match (
                before.combat_stats.at(j),
                before.suffers_damage.at(j),
            ) {
                (Some(s), Some(d)) => Some(wounded(s, d.amount@)),
                _ => before.combat_stats.at(j),
            })
    }

    /// Takes the queued damage of every entity off its hit points and
    /// empties every queue. An entity without combat statistics loses its
    /// queue all the same.
    pub fn run(&mut self, world: &mut World)
        requires
            old(world).wf(),
        ensures
            final(world).wf(),
            Self::ran(old(world), final(world)),
    {
        let n: usize = world.suffers_damage.len();
        let mut j: usize = 0;
        while j < n
            invariant
                world.wf(),
                n == old(world).suffers_damage.slots@.len(),
                j <= n,
                *world == (World { combat_stats: world.combat_stats, ..*old(world) }),
                forall|q: int|
                    #![trigger world.combat_stats.at(q)]
                    #![trigger old(world).combat_stats.at(q)]
                    world.combat_stats.at(q) == (match (
                        old(world).combat_stats.at(q),
                        old(world).suffers_damage.at(q),
                    ) {
                        (Some(s), Some(d)) if q < j => Some(wounded(s, d.amount@)),
                        _ => old(world).combat_stats.at(q),
                    }),
            decreases n - j,
        {
            let taken: Option<i128> = match world.suffers_damage.slot(j) {
                Some(d) => {
                    let queued: usize = d.amount.len();
                    assert(queued <= 0xffff_ffff_ffff_ffff);
                    Some(sum(&d.amount))
                },
                None => None,
            };
            let stats: Option<CombatStats> = match world.combat_stats.slot(j) {
                Some(s) => Some(*s),
                None => None,
            };
            if let (Some(amount), Some(s)) = (taken, stats) {
                let left: i128 = s.hp as i128 - amount;
                let hp: i32 = if left < -2147483648 {
                    -2147483648
                } else if left > 2147483647 {
                    2147483647
                } else {
                    left as i32
                };
                world.combat_stats.set(j, CombatStats { hp, ..s });
            }
            j += 1;
        }
        world.suffers_damage.clear();
    }
}

/// Slot `j` holds an entity that is out of hit points.
pub open spec fn is_dead(w: &World, j: int) -> bool {
    match w.combat_stats.at(j) {
        Some(s) => s.hp <= 0,
        None => false,
    }
}

/// One of the first `n` slots holds a player that is out of hit points.
pub open spec fn player_died(w: &World, n: int) -> bool {
    exists|j: int| 0 <= j < n && #[trigger] is_dead(w, j) && w.players.has(j)
}

/// The slots of the dead that are no players.
pub open spec fn corpses(w: &World) -> Set<int> {
    Set::new(|j: int| is_dead(w, j) && !w.players.has(j))
}

/// What the log says of the dead among the first `n` slots: one entry for
/// each that is no player and has a name.
pub open spec fn obituaries(w: &World, n: int) -> Seq<LogEntry>
    decreases n,
{
    if n <= 0 {
        Seq::empty()
    } else {
        obituaries(w, n - 1) + (match w.names.at(n - 1) {
            Some(name) if is_dead(w, n - 1) && !w.players.has(n - 1) => seq![
                LogEntry::Died { name: name.name },
            ],
            _ => Seq::empty(),
        })
    }
}

/// `after` is `before` with the dead reaped: the game is over if a player
/// is out of hit points; every other entity that is out of hit points is
/// gone with all its components; the log names those that had a name.
pub open spec fn reaped(before: &World, after: &World) -> bool {
    &&& after.is_without(
        &(World { run_state: after.run_state, gamelog: after.gamelog, ..*before }),
        corpses(before),
    )
    &&& after.run_state == (if player_died(before, before.combat_stats.slots@.len() as int) {
        RunState::GameOver
    } else {
        before.run_state
    })
    &&& after.gamelog.entries@ == before.gamelog.entries@ + obituaries(
        before,
        before.combat_stats.slots@.len() as int,
    )
}

/// Reaps the dead. A player that is out of hit points stays, and the game
/// is over. Every other entity that is out of hit points is deleted with
/// all its components, and the log names it if it has a name.
pub fn delete_dead_entities(world: &mut World)
    requires
        old(world).wf(),
    ensures
        final(world).wf(),
        reaped(old(world), final(world)),
{
    let mut dead_entities: Vec<Entity> = Vec::new();
    let n: usize = world.combat_stats.len();
    let mut j: usize = 0;
    while j < n
        invariant
            old(world).wf(),
            world.wf(),
            n == old(world).combat_stats.slots@.len(),
            j <= n,
            *world == (World { run_state: world.run_state, gamelog: world.gamelog, ..*old(world) }),
            world.run_state == (if player_died(old(world), j as int) {
                RunState::GameOver
            } else {
                old(world).run_state
            }),
            world.gamelog.entries@ == old(world).gamelog.entries@
                + obituaries(old(world), j as int),
            forall|q: int|
                0 <= q < dead_entities@.len() ==> world.entities.is_alive(
                    #[trigger] dead_entities@[q],
                ) && corpses(old(world)).contains(dead_entities@[q].id as int),
            forall|c: int|
                0 <= c < j && corpses(old(world)).contains(c) ==> exists|q: int|
                    0 <= q < dead_entities@.len() && (#[trigger] dead_entities@[q]).id == c,
        decreases n - j,
    {
        let out: bool = match world.combat_stats.slot(j) {
            Some(s) => s.hp <= 0,
            None => false,
        };
        let ghost listed = dead_entities@;
        let ghost logged = world.gamelog.entries@;
        if out {
            if world.players.has_slot(j) {
                world.run_state = RunState::GameOver;
                proof {
                    assert(is_dead(old(world), j as int) && old(world).players.has(j as int));
                }
            } else {
                let entity = world.entities.entity(j);
                let named: Option<String> = match world.names.slot(j) {
                    Some(name) => Some(name.name.clone()),
                    None => None,
                };
                if let Some(name) = named {
                    world.gamelog.push(LogEntry::Died { name });
                }
                dead_entities.push(entity);
                proof {
                    assert(dead_entities@[listed.len() as int] == entity);
                    assert forall|q: int| 0 <= q < dead_entities@.len()
                        implies world.entities.is_alive(
                        #[trigger] dead_entities@[q],
                    ) && corpses(old(world)).contains(dead_entities@[q].id as int) by {
                        if q < listed.len() {
                            assert(dead_entities@[q] == listed[q]);
                        }
                    }
                }
            }
        }
        proof {
            assert(world.gamelog.entries@ =~= old(world).gamelog.entries@ + obituaries(
                old(world),
                j as int + 1,
            ));
            if player_died(old(world), j as int + 1) {
                let p = choose|p: int|
                    0 <= p < j + 1 && #[trigger] is_dead(old(world), p)
                        && old(world).players.has(p);
                if p < j {
                    assert(player_died(old(world), j as int));
                }
            }
            if player_died(old(world), j as int) {
                let p = choose|p: int|
                    0 <= p < j && #[trigger] is_dead(old(world), p) && old(world).players.has(p);
                assert(0 <= p < j + 1);
            }
            assert forall|c: int|
                0 <= c < j + 1 && corpses(old(world)).contains(c) implies exists|q: int|
                0 <= q < dead_entities@.len() && (#[trigger] dead_entities@[q]).id == c by {
                if c < j {
                    let q = choose|q: int| 0 <= q < listed.len() && (#[trigger] listed[q]).id == c;
                    assert(dead_entities@[q] == listed[q]);
                } else {
                    assert(dead_entities@[listed.len() as int].id == c);
                }
            }
        }
        j += 1;
    }
    let ghost marked = *world;
    world.delete_entities(&dead_entities);
    proof {
        assert(marked.slots_of(dead_entities@) =~= corpses(old(world))) by {
            assert forall|c: int|
                marked.slots_of(dead_entities@).contains(c) == corpses(old(world)).contains(c) by {
                if marked.slots_of(dead_entities@).contains(c) {
                    let q = choose|q: int|
                        0 <= q < dead_entities@.len() && (#[trigger] dead_entities@[q]).id == c
                            && marked.entities.is_alive(dead_entities@[q]);
                }
                if corpses(old(world)).contains(c) {
                    assert(0 <= c < n);
                    let q = choose|q: int|
                        0 <= q < dead_entities@.len() && (#[trigger] dead_entities@[q]).id == c;
                    assert(marked.entities.is_alive(dead_entities@[q]));
                }
            }
        }
    }
}

/// Damage that adds up to nothing leaves the hit points as they are.
pub proof fn lemma_no_damage_no_change(stats: CombatStats, amounts: Seq<i32>)
    requires
        total(amounts) == 0,
    ensures
        wounded(stats, amounts) == stats,
{
}

/// The damage pass leaves alone whoever has nothing queued, or a queue that
/// adds up to nothing.
pub proof fn lemma_unharmed_keeps_hit_points(before: &World, after: &World, j: int)
    requires
        DamageSystem::ran(before, after),
        match before.suffers_damage.at(j) {
            Some(d) => total(d.amount@) == 0,
            None => true,
        },
    ensures
        after.combat_stats.at(j) == before.combat_stats.at(j),
{
}

/// After the dead are reaped, an entity that was out of hit points and is
/// no player is gone.
pub proof fn lemma_dead_are_removed(before: &World, after: &World, j: int)
    requires
        reaped(before, after),
        is_dead(before, j),
        !before.players.has(j),
    ensures
        !after.entities.slot_alive(j),
        after.slot_is_bare(j),
{
    assert(corpses(before).contains(j));
}

/// After the dead are reaped, a player that was out of hit points is still
/// there, with all it had, and the game is over.
pub proof fn lemma_dead_player_ends_game(before: &World, after: &World, j: int)
    requires
        before.wf(),
        reaped(before, after),
        is_dead(before, j),
        before.players.has(j),
    ensures
        after.run_state == RunState::GameOver,
        after.entities.slot_alive(j),
        after.players.has(j),
        after.combat_stats.at(j) == before.combat_stats.at(j),
{
    assert(0 <= j < before.combat_stats.slots@.len());
    assert(player_died(before, before.combat_stats.slots@.len() as int));
    assert(!corpses(before).contains(j));
    let marked = World { run_state: after.run_state, gamelog: after.gamelog, ..*before };
    assert(after.same_slot(&marked, j));
}

/// Reaping leaves alone whoever still has hit points.
pub proof fn lemma_living_are_kept(before: &World, after: &World, j: int)
    requires
        reaped(before, after),
        !is_dead(before, j),
    ensures
        after.entities.slot_alive(j) == before.entities.slot_alive(j),
        after.same_slot(before, j),
{
    assert(!corpses(before).contains(j));
    let marked = World { run_state: after.run_state, gamelog: after.gamelog, ..*before };
    assert(after.same_slot(&marked, j));
}

/// Where nobody is out of hit points the log has nothing to tell of the
/// dead.
pub proof fn lemma_no_dead_no_obituaries(w: &World, n: int)
    requires
        forall|j: int| !is_dead(w, j),
    ensures
        obituaries(w, n) == Seq::<LogEntry>::empty(),
    decreases n,
{
    if n > 0 {
        lemma_no_dead_no_obituaries(w, n - 1);
    }
}

/// Reaping a world in which nobody is out of hit points changes nothing.
pub proof fn lemma_reaping_the_living_changes_nothing(before: &World, after: &World)
    requires
        reaped(before, after),
        forall|j: int| !is_dead(before, j),
    ensures
        after.run_state == before.run_state,
        after.gamelog.entries@ == before.gamelog.entries@,
        after.map == before.map,
        after.player_entity == before.player_entity,
        after.player_position == before.player_position,
        forall|j: int| after.entities.slot_alive(j) == before.entities.slot_alive(j),
        forall|j: int| #[trigger] after.same_slot(before, j),
{
    lemma_no_dead_no_obituaries(before, before.combat_stats.slots@.len() as int);
    let marked = World { run_state: after.run_state, gamelog: after.gamelog, ..*before };
    assert forall|j: int| #[trigger] after.same_slot(before, j) by {
        assert(!corpses(before).contains(j));
        assert(after.same_slot(&marked, j));
    }
    assert forall|j: int| after.entities.slot_alive(j) == before.entities.slot_alive(j) by {
        assert(!corpses(before).contains(j));
        assert(after.same_slot(&marked, j));
    }
}

/// After the dead are reaped, whoever is out of hit points is a player.
pub proof fn lemma_only_players_outlive_their_hit_points(before: &World, after: &World, j: int)
    requires
        reaped(before, after),
        is_dead(after, j),
    ensures
        after.players.has(j),
        before.players.has(j),
        is_dead(before, j),
{
    let marked = World { run_state: after.run_state, gamelog: after.gamelog, ..*before };
    if corpses(before).contains(j) {
        assert(!after.entities.slot_alive(j));
        assert(after.slot_is_bare(j));
    } else {
        assert(after.same_slot(&marked, j));
    }
}

} // verus!
