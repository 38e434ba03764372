//! What the player does on the map: walking, attacking by walking into
//! somebody, and picking things up.

use vstd::prelude::*;
use crate::components::{
    CombatStats,
    GridPoint,
    Position,
    WantsToMelee,
    WantsToPickUpItem,
    FOV,
};
use crate::entity::{Entities, Entity};
use crate::gamelog::LogEntry;
use crate::gui::MainMenuSelection;
use crate::map_indexing_system::stands_at;
use crate::state::RunState;
use crate::storage::Storage;
use crate::world::World;

verus! {

/// What the user asks for while the game waits for input.
#[derive(PartialEq, Eq, Structural, Clone, Copy, Debug)]
pub enum Command {
    /// Nothing the game knows of.
    Nothing,
    /// A step of `dx` to the right and `dy` up.
    Step { dx: i32, dy: i32 },
    PickUp,
    OpenInventory,
    OpenDropMenu,
    Save,
    MainMenu,
    Descend,
}

/// Slot `j` holds a player that stands somewhere and has a view.
pub open spec fn is_mover(w: &World, j: int) -> bool {
    w.players.has(j) && w.positions.has(j) && w.fovs.has(j)
}

/// By how much the entity of slot `j` multiplies its steps.
pub open spec fn speed_of(w: &World, j: int) -> int {
    match w.has_movement_speed_modifier.at(j) {
        Some(m) => m.speed_modifier as int,
        None => 1,
    }
}

/// Where a step of `(dx, dy)` takes the entity of slot `j`. Up is towards
/// the lower rows.
pub open spec fn step_target(w: &World, j: int, dx: int, dy: int) -> (int, int) {
    let p = w.positions.at(j).unwrap();
    (p.x + dx * speed_of(w, j), p.y - dy * speed_of(w, j))
}

/// The first of the first `k` occupants that has combat statistics.
pub open spec fn first_fighter(
    entities: &Entities,
    stats: &Storage<CombatStats>,
    occupants: Seq<Entity>,
    k: int,
) -> Option<Entity>
    decreases k,
{
    if k <= 0 {
        None
    } else {
        match first_fighter(entities, stats, occupants, k - 1) {
            Some(e) => Some(e),
            None => if stats.of(entities, occupants[k - 1]) is Some {
                Some(occupants[k - 1])
            } else {
                None
            },
        }
    }
}

/// Whom the entity of slot `j` walks into with a step of `(dx, dy)`: the
/// first occupant of the tile it steps to that has combat statistics.
pub open spec fn foe_of(w: &World, j: int, dx: int, dy: int) -> Option<Entity> {
    let t = step_target(w, j, dx, dy);
    if w.map.in_bounds(t.0, t.1) {
        first_fighter(
            &w.entities,
            &w.combat_stats,
            w.map.tile_content@[w.map.idx_of(t.0, t.1)]@,
            w.map.tile_content@[w.map.idx_of(t.0, t.1)]@.len() as int,
        )
    } else {
        None
    }
}

/// The entity of slot `j` can take a step of `(dx, dy)`: the tile it steps
/// to is a tile of the grid, free of foes and not blocked.
pub open spec fn can_step(w: &World, j: int, dx: int, dy: int) -> bool {
    let t = step_target(w, j, dx, dy);
    w.map.in_bounds(t.0, t.1) && foe_of(w, j, dx, dy) is None && !w.map.blocked_tiles@[w.map.idx_of(
        t.0,
        t.1,
    )]
}

/// The lowest of the first `n` slots whose player walks into a foe; `n` if
/// there is none.
pub open spec fn fight_slot(w: &World, dx: int, dy: int, n: int) -> int
    decreases n,
{
    if n <= 0 {
        0
    } else if fight_slot(w, dx, dy, n - 1) < n - 1 {
        fight_slot(w, dx, dy, n - 1)
    } else if is_mover(w, n - 1) && foe_of(w, n - 1, dx, dy) is Some {
        n - 1
    } else {
        n
    }
}

/// Where the player is known to stand after the players of the first `n`
/// slots took their steps: where the last of them that moved went.
pub open spec fn last_known(w: &World, dx: int, dy: int, n: int) -> GridPoint
    decreases n,
{
    if n <= 0 {
        w.player_position
    } else if is_mover(w, n - 1) && can_step(w, n - 1, dx, dy) {
        GridPoint {
            x: step_target(w, n - 1, dx, dy).0 as i32,
            y: step_target(w, n - 1, dx, dy).1 as i32,
        }
    } else {
        last_known(w, dx, dy, n - 1)
    }
}

/// The highest of the first `n` slots that holds an item lying where the
/// player stands.
pub open spec fn item_here(w: &World, n: int) -> Option<int>
    decreases n,
{
    if n <= 0 {
        None
    } else if w.items.has(n - 1) && stands_at(
        w,
        n - 1,
        w.player_position.x as int,
        w.player_position.y as int,
    ) {
        Some(n - 1)
    } else {
        item_here(w, n - 1)
    }
}

/// `after` is `before` with every player stepping by `(dx, dy)`, lowest
/// slot first, up to the first that walks into a foe: that one stays and
/// holds the intent to attack. A player whose step is blocked stays too. A
/// player that moves asks for a new view.
pub open spec fn stepped(before: &World, after: &World, dx: int, dy: int) -> bool {
    let n = before.positions.slots@.len() as int;
    let stop = fight_slot(before, dx, dy, n);
    &&& *after == (World {
        positions: after.positions,
        fovs: after.fovs,
        wants_to_melee: after.wants_to_melee,
        player_position: after.player_position,
        ..*before
    })
    &&& forall|j: int|
        #![trigger after.positions.at(j)]
        #![trigger before.positions.at(j)]
        after.positions.at(j) == (if j < stop && is_mover(before, j) && can_step(
            before,
            j,
            dx,
            dy,
        ) {
            Some(
                Position {
                    x: step_target(before, j, dx, dy).0 as i32,
                    y: step_target(before, j, dx, dy).1 as i32,
                },
            )
        } else {
            before.positions.at(j)
        })
    &&& forall|j: int|
        #![trigger after.fovs.at(j)]
        #![trigger before.fovs.at(j)]
        after.fovs.at(j) == (if j < stop && is_mover(before, j) && can_step(before, j, dx, dy) {
            Some(FOV { needs_update: true, ..before.fovs.at(j).unwrap() })
        } else {
            before.fovs.at(j)
        })
    &&& forall|j: int|
        #![trigger after.wants_to_melee.at(j)]
        #![trigger before.wants_to_melee.at(j)]
        after.wants_to_melee.at(j) == (if j == stop && stop < n {
            Some(WantsToMelee { target: foe_of(before, j, dx, dy).unwrap() })
        } else {
            before.wants_to_melee.at(j)
        })
    &&& after.player_position == last_known(before, dx, dy, stop)
}

/// The first of `occupants` that has combat statistics.
fn find_fighter(world: &World, occupants: &Vec<Entity>) -> (r: Option<Entity>)
    requires
        world.wf(),
    ensures
        r == first_fighter(
            &world.entities,
            &world.combat_stats,
            occupants@,
            occupants@.len() as int,
        ),
{
    let mut k: usize = 0;
    while k < occupants.len()
        invariant
            world.wf(),
            k <= occupants@.len(),
            first_fighter(&world.entities, &world.combat_stats, occupants@, k as int) is None,
        decreases occupants@.len() - k,
    {
        if world.combat_stats.contains(&world.entities, occupants[k]) {
            proof {
                lemma_first_fighter_stays(
                    &world.entities,
                    &world.combat_stats,
                    occupants@,
                    k as int + 1,
                    occupants@.len() as int,
                );
            }
            return Some(occupants[k]);
        }
        k += 1;
    }
    None
}

/// Once a fighter is found among the first `k` occupants, it is the answer
/// for every longer stretch.
proof fn lemma_first_fighter_stays(
    entities: &Entities,
    stats: &Storage<CombatStats>,
    occupants: Seq<Entity>,
    k: int,
    n: int,
)
    requires
        0 <= k <= n,
        first_fighter(entities, stats, occupants, k) is Some,
    ensures
        first_fighter(entities, stats, occupants, n) == first_fighter(
            entities,
            stats,
            occupants,
            k,
        ),
    decreases n - k,
{
    if k < n {
        lemma_first_fighter_stays(entities, stats, occupants, k, n - 1);
    }
}

/// Steps every player by `(delta_x, delta_y)`, where `delta_y` counts
/// upwards. A speed modifier multiplies the step. A player that would walk
/// into somebody with combat statistics attacks instead, and no player
/// after it moves.
pub fn try_move_player(delta_x: i32, delta_y: i32, world: &mut World)
    requires
        old(world).wf(),
    ensures
        final(world).wf(),
        stepped(old(world), final(world), delta_x as int, delta_y as int),
{
    let n: usize = world.positions.len();
    let ghost dx = delta_x as int;
    let ghost dy = delta_y as int;
    let mut j: usize = 0;
    while j < n
        invariant
            old(world).wf(),
            world.wf(),
            dx == delta_x,
            dy == delta_y,
            n == old(world).positions.slots@.len(),
            j <= n,
            fight_slot(old(world), dx, dy, j as int) == j,
            *world == (World {
                positions: world.positions,
                fovs: world.fovs,
                player_position: world.player_position,
                ..*old(world)
            }),
            forall|q: int|
                #![trigger world.positions.at(q)]
                #![trigger old(world).positions.at(q)]
                world.positions.at(q) == (if q < j && is_mover(old(world), q) && can_step(
                    old(world),
                    q,
                    dx,
                    dy,
                ) {
                    Some(
                        Position {
                            x: step_target(old(world), q, dx, dy).0 as i32,
                            y: step_target(old(world), q, dx, dy).1 as i32,
                        },
                    )
                } else {
                    old(world).positions.at(q)
                }),
            forall|q: int|
                #![trigger world.fovs.at(q)]
                #![trigger old(world).fovs.at(q)]
                world.fovs.at(q) == (if q < j && is_mover(old(world), q) && can_step(
                    old(world),
                    q,
                    dx,
                    dy,
                ) {
                    Some(FOV { needs_update: true, ..old(world).fovs.at(q).unwrap() })
                } else {
                    old(world).fovs.at(q)
                }),
            world.player_position == last_known(old(world), dx, dy, j as int),
        decreases n - j,
    {
        let place: Option<Position> = match world.positions.slot(j) {
            Some(p) => Some(*p),
            None => None,
        };
        let mover: bool = world.players.has_slot(j) && world.fovs.has_slot(j);
        if let Some(p) = place {
            if mover {
                let speed: i64 = match world.has_movement_speed_modifier.slot(j) {
                    Some(m) => m.speed_modifier as i64,
                    None => 1,
                };
                assert(-0x4000_0000_0000_0000 <= (delta_x as int) * (speed as int)
                    <= 0x4000_0000_0000_0000 && -0x4000_0000_0000_0000 <= (delta_y as int) * (
                speed as int) <= 0x4000_0000_0000_0000) by (nonlinear_arith)
                    requires
                        -0x8000_0000 <= delta_x <= 0x8000_0000,
                        -0x8000_0000 <= delta_y <= 0x8000_0000,
                        -0x8000_0000 <= speed <= 0x8000_0000,
                ;
                let tx: i64 = p.x as i64 + (delta_x as i64) * speed;
                let ty: i64 = p.y as i64 - (delta_y as i64) * speed;
                assert(step_target(old(world), j as int, dx, dy) == (tx as int, ty as int));
                if 0 <= tx && tx < world.map.width as i64 && 0 <= ty
                    && ty < world.map.height as i64 {
                    let x: i32 = tx as i32;
                    let y: i32 = ty as i32;
                    let idx = world.map.xy_idx(x, y);
                    match find_fighter(world, &world.map.tile_content[idx]) {
                        Some(foe) => {
                            world.wants_to_melee.set(j, WantsToMelee { target: foe });
                            proof {
                                assert(fight_slot(old(world), dx, dy, j as int + 1) == j);
                                lemma_fight_slot_stays(old(world), dx, dy, j as int + 1, n as int);
                            }
                            return ;
                        },
                        None => {},
                    }
                    if !world.map.blocked_tiles[idx] {
                        world.positions.set(j, Position { x, y });
                        world.player_position = GridPoint { x, y };
                        match world.fovs.unset(j) {
                            Some(f) => {
                                world.fovs.set(j, FOV { needs_update: true, ..f });
                            },
                            None => {},
                        }
                    }
                }
            }
        }
        j += 1;
    }
}

/// Once a player walks into a foe, the slot of that player is the answer
/// for every longer stretch of slots.
proof fn lemma_fight_slot_stays(w: &World, dx: int, dy: int, k: int, n: int)
    requires
        0 <= k <= n,
        fight_slot(w, dx, dy, k) < k,
    ensures
        fight_slot(w, dx, dy, n) == fight_slot(w, dx, dy, k),
    decreases n - k,
{
    if k < n {
        lemma_fight_slot_stays(w, dx, dy, k, n - 1);
    }
}

/// `after` is `before` with the player reaching for what lies at its feet:
/// the topmost item there gets the intent to be picked up by the player;
/// where nothing lies the log says so.
pub open spec fn reached(before: &World, after: &World) -> bool {
    match item_here(before, before.positions.slots@.len() as int) {
        Some(i) => {
            &&& *after == (World { wants_to_pickup_item: after.wants_to_pickup_item, ..*before })
            &&& forall|j: int|
                #![trigger after.wants_to_pickup_item.at(j)]
                #![trigger before.wants_to_pickup_item.at(j)]
                after.wants_to_pickup_item.at(j) == (if j == i {
                    Some(
                        WantsToPickUpItem {
                            collected_by: before.player_entity,
                            item: before.entities.entity_at(i),
                        },
                    )
                } else {
                    before.wants_to_pickup_item.at(j)
                })
        },
        None => {
            &&& *after == (World { gamelog: after.gamelog, ..*before })
            &&& after.gamelog.entries@ == before.gamelog.entries@.push(LogEntry::NothingToPickUp)
        },
    }
}

/// Declares the intent to pick up the item that lies where the player
/// stands; of several, the one in the highest slot.
pub fn pickup_item(world: &mut World)
    requires
        old(world).wf(),
    ensures
        final(world).wf(),
        reached(old(world), final(world)),
{
    let here = world.player_position;
    let n: usize = world.positions.len();
    let mut target_item: Option<usize> = None;
    let mut j: usize = 0;
    while j < n
        invariant
            world.wf(),
            *world == *old(world),
            here == world.player_position,
            n == world.positions.slots@.len(),
            j <= n,
            match target_item {
                Some(i) => item_here(world, j as int) == Some(i as int) && i < j && world.items.has(
                    i as int,
                ),
                None => item_here(world, j as int) is None,
            },
        decreases n - j,
    {
        let on_spot: bool = match world.positions.slot(j) {
            Some(p) => p.x == here.x && p.y == here.y,
            None => false,
        };
        if on_spot && world.items.has_slot(j) {
            target_item = Some(j);
        }
        j += 1;
    }
    match target_item {
        None => {
            world.gamelog.push(LogEntry::NothingToPickUp);
        },
        Some(i) => {
            let item = world.entities.entity(i);
            let collected_by = world.player_entity;
            world.wants_to_pickup_item.set(i, WantsToPickUpItem { collected_by, item });
        },
    }
}

/// The phase that follows `command`.
pub open spec fn phase_after(command: Command) -> RunState {
    match command {
        Command::Nothing => RunState::AwaitingInput,
        Command::Step { dx, dy } => RunState::PlayerTurn,
        Command::PickUp => RunState::PlayerTurn,
        Command::OpenInventory => RunState::InInventory,
        Command::OpenDropMenu => RunState::ShowDropItem,
        Command::Save => RunState::SaveGame,
        Command::MainMenu => RunState::MainMenu { menu_selection: MainMenuSelection::NewGame },
        Command::Descend => RunState::DescendFloor,
    }
}

/// `after` is `before` with `command` carried out: a step moves the
/// players, picking up declares the intent, and everything else leaves the
/// world as it is.
pub open spec fn commanded(before: &World, after: &World, command: Command) -> bool {
    match command {
        Command::Step { dx, dy } => stepped(before, after, dx as int, dy as int),
        Command::PickUp => reached(before, after),
        _ => *after == *before,
    }
}

/// Carries out what the user asked for, and returns the phase that follows.
/// The phase stored in the world is left to the caller.
pub fn player_input(world: &mut World, command: Command) -> (next: RunState)
    requires
        old(world).wf(),
    ensures
        final(world).wf(),
        commanded(old(world), final(world), command),
        next == phase_after(command),
{
    match command {
        Command::Nothing => RunState::AwaitingInput,
        Command::Step { dx, dy } => {
            try_move_player(dx, dy, world);
            RunState::PlayerTurn
        },
        Command::PickUp => {
            pickup_item(world);
            RunState::PlayerTurn
        },
        Command::OpenInventory => RunState::InInventory,
        Command::OpenDropMenu => RunState::ShowDropItem,
        Command::Save => RunState::SaveGame,
        Command::MainMenu => RunState::MainMenu { menu_selection: MainMenuSelection::NewGame },
        Command::Descend => RunState::DescendFloor,
    }
}

} // verus!
