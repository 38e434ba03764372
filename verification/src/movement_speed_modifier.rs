//! The speed tick: wearing off what changes how far a step goes.

use vstd::prelude::*;
use crate::components::HasMovementSpeedModifier;
use crate::gamelog::LogEntry;
use crate::arith::clamp;
use crate::world::World;

verus! {

/// The modifier after one more turn; `None` once its turns are used up.
pub open spec fn ticked(m: HasMovementSpeedModifier) -> Option<HasMovementSpeedModifier> {
    if clamp(m.turns_used + 1) >= m.max_turns {
        None
    } else {
        Some(HasMovementSpeedModifier { turns_used: clamp(m.turns_used + 1) as i32, ..m })
    }
}

/// What the log gains by the first `n` slots: one entry if the player's
/// modifier wears off.
pub open spec fn expiries(w: &World, n: int) -> Seq<LogEntry>
    decreases n,
{
    if n <= 0 {
        Seq::empty()
    } else {
        expiries(w, n - 1) + (match w.has_movement_speed_modifier.at(n - 1) {
            Some(m) if ticked(m) is None && w.entities.entity_at(n - 1) == w.player_entity => seq![
                LogEntry::SpeedExpired,
            ],
            _ => Seq::empty(),
        })
    }
}

/// The speed tick.
pub struct MovementSpeedModifier {}

impl MovementSpeedModifier {
    /// `after` is `before` after the speed tick: every speed modifier has
    /// one more turn used, or is gone where its turns are used up; the log
    /// tells when the player's is gone; and nothing else changed.
    pub open spec fn ran(before: &World, after: &World) -> bool {
        &&& *after == (World {
            has_movement_speed_modifier: after.has_movement_speed_modifier,
            gamelog: after.gamelog,
            ..*before
            })
        &&& forall|j: int|
            #![trigger after.has_movement_speed_modifier.at(j)]
            #![trigger before.has_movement_speed_modifier.at(j)]
            after.has_movement_speed_modifier.at(j)
                == (match before.has_movement_speed_modifier.at(j) {
                Some(m) => ticked(m),
                None => None,
            })
        &&& after.gamelog.entries@ == before.gamelog.entries@ + expiries(
            before,
            before.has_movement_speed_modifier.slots@.len() as int,
            )
    }

    /// Counts one more turn on every speed modifier, and removes those
    /// whose turns are used up. The log tells when the player's wears off.
    pub fn run(&mut self, world: &mut World)
        requires
            old(world).wf(),
        ensures
            final(world).wf(),
            Self::ran(old(world), final(world)),
    {
        let n: usize = world.has_movement_speed_modifier.len();
        let mut j: usize = 0;
        while j < n
            invariant
                old(world).wf(),
                world.wf(),
                n == old(world).has_movement_speed_modifier.slots@.len(),
                j <= n,
                *world == (World {
                    has_movement_speed_modifier: world.has_movement_speed_modifier,
                    gamelog: world.gamelog,
                    ..*old(world)
                }),
                forall|q: int|
                    #![trigger world.has_movement_speed_modifier.at(q)]
                    #![trigger old(world).has_movement_speed_modifier.at(q)]
                    world.has_movement_speed_modifier.at(q)
                        == (match old(world).has_movement_speed_modifier.at(q) {
                        Some(m) if q < j => ticked(m),
                        other => other,
                    }),
                world.gamelog.entries@ == old(world).gamelog.entries@ + expiries(
                    old(world),
                    j as int,
                ),
            decreases n - j,
        {
            let held: Option<HasMovementSpeedModifier> = match world.has_movement_speed_modifier.slot(
                j,
            ) {
                Some(m) => Some(*m),
                None => None,
            };
            if let Some(m) = held {
                let used: i32 = if m.turns_used < 2147483647 {
                    m.turns_used + 1
                } else {
                    m.turns_used
                };
                if used >= m.max_turns {
                    world.has_movement_speed_modifier.unset(j);
                    let entity = world.entities.entity(j);
                    if entity == world.player_entity {
                        world.gamelog.push(LogEntry::SpeedExpired);
                    }
                } else {
                    world.has_movement_speed_modifier.set(
                        j,
                        HasMovementSpeedModifier { turns_used: used, ..m },
                    );
                }
            }
            proof {
                assert(world.gamelog.entries@ =~= old(world).gamelog.entries@ + expiries(
                    old(world),
                    j as int + 1,
                ));
            }
            j += 1;
        }
    }
}

} // verus!
