//! Saved games: what of a world is written down, and how a world is
//! rebuilt from it.
//!
//! A saved game holds one record for every entity that carries the marker
//! `SerializeMe`, in the order of the entity slots, and a copy of the map.
//! The place of a record in the list is the ordinal of its entity. Inside
//! the records an entity reference names an ordinal: its `id` is the
//! ordinal and its generation is 0. A reference to an entity that is not
//! written down names nothing.

use vstd::prelude::*;
use crate::components::{GridPoint, SerializationHelper};
use crate::entity::Entity;
use crate::map::GameMap;
use crate::outfit::{dangling, image, Outfit, RefTable};
use crate::world::World;

verus! {

pub struct SavedGame {
    /// One record per saved entity; the index is the entity's ordinal.
    pub entities: Vec<Outfit>,
    /// The carrier of the map.
    pub helper: SerializationHelper,
}

/// How many of the first `j` slots are written to a saved game.
pub open spec fn rank(w: &World, j: int) -> int
    decreases j,
{
    if j <= 0 {
        0
    } else {
        rank(w, j - 1) + (if w.serialize_me.has(j - 1) {
            1int
        } else {
            0int
        })
    }
}

/// How a reference to slot `j` is written down: a reference to the live
/// entity of a marked slot becomes the ordinal of the slot.
pub open spec fn save_entry(w: &World, j: int) -> Option<(u64, Entity)> {
    if w.serialize_me.has(j) {
        Some((w.entities.generations@[j], Entity { id: rank(w, j) as usize, generation: 0 }))
    } else {
        None
    }
}

/// How references are written down, slot by slot.
pub open spec fn save_table(w: &World) -> Seq<Option<(u64, Entity)>> {
    Seq::new(w.serialize_me.slots@.len(), |j: int| save_entry(w, j))
}

/// How references are read back: the ordinal `k` becomes the entity that
/// was created for record `k`.
pub open spec fn load_table(fresh: Seq<Entity>) -> Seq<Option<(u64, Entity)>> {
    Seq::new(fresh.len(), |k: int| Some((0u64, fresh[k])))
}

/// `saved` is what is written down of `w`: the record of every marked slot
/// stands at the slot's ordinal and holds what the entity carries, with its
/// references turned into ordinals; and the helper carries the map.
pub open spec fn is_saved(w: &World, saved: &SavedGame) -> bool {
    let n = w.serialize_me.slots@.len() as int;
    &&& saved.entities@.len() == rank(w, n)
    &&& forall|j: int|
        0 <= j < n && #[trigger] w.serialize_me.has(j) ==> saved.entities@[rank(w, j)].alike(
            &w.outfit_at(j).rewired(save_table(w)),
        )
    &&& saved.helper.map.alike(&w.map)
}

/// The ordinals grow with the slots.
pub proof fn lemma_rank_grows(w: &World, a: int, b: int)
    requires
        0 <= a <= b,
    ensures
        0 <= rank(w, a) <= rank(w, b),
        rank(w, b) <= b,
        a < b && w.serialize_me.has(a) ==> rank(w, a) < rank(w, b),
    decreases b,
{
    if a < b {
        lemma_rank_grows(w, a, b - 1);
    } else if a > 0 {
        lemma_rank_grows(w, a - 1, a - 1);
        lemma_rank_grows(w, 0, a - 1);
    }
    if b > 0 {
        lemma_rank_grows(w, 0, b - 1);
    }
}

/// Writes down what is saved of the world.
pub fn save_game(world: &World) -> (saved: SavedGame)
    requires
        world.wf(),
    ensures
        is_saved(world, &saved),
        world.map.wf() ==> saved.helper.map.wf(),
{
    let n: usize = world.serialize_me.len();
    let mut table: RefTable = Vec::new();
    let mut ordinal: usize = 0;
    let mut j: usize = 0;
    while j < n
        invariant
            world.wf(),
            n == world.serialize_me.slots@.len(),
            j <= n,
            table@.len() == j,
            ordinal == rank(world, j as int),
            ordinal <= j,
            forall|q: int| 0 <= q < j ==> #[trigger] table@[q] == save_entry(world, q),
        decreases n - j,
    {
        if world.serialize_me.has_slot(j) {
            let e = world.entities.entity(j);
            table.push(Some((e.generation, Entity { id: ordinal, generation: 0 })));
            ordinal += 1;
        } else {
            table.push(None);
        }
        j += 1;
    }
    proof {
        assert(table@ =~= save_table(world));
    }
    let mut records: Vec<Outfit> = Vec::new();
    let mut j: usize = 0;
    while j < n
        invariant
            world.wf(),
            n == world.serialize_me.slots@.len(),
            j <= n,
            table@ == save_table(world),
            records@.len() == rank(world, j as int),
            forall|q: int|
                0 <= q < j && #[trigger] world.serialize_me.has(q) ==> records@[rank(
                    world,
                    q,
                )].alike(&world.outfit_at(q).rewired(save_table(world))),
        decreases n - j,
    {
        if world.serialize_me.has_slot(j) {
            let copy = world.outfit(j);
            let ghost before = records@;
            let record = copy.rewire(&table);
            proof {
                copy.lemma_rewired_alike(&world.outfit_at(j as int), table@);
            }
            records.push(record);
            proof {
                assert forall|q: int|
                    0 <= q < j + 1 && #[trigger] world.serialize_me.has(q) implies records@[rank(
                    world,
                    q,
                )].alike(&world.outfit_at(q).rewired(save_table(world))) by {
                    if q < j {
                        lemma_rank_grows(world, q, j as int);
                        assert(records@[rank(world, q)] == before[rank(world, q)]);
                    }
                }
            }
        } else {
            proof {
                assert forall|q: int|
                    0 <= q < j + 1 && #[trigger] world.serialize_me.has(q) implies records@[rank(
                    world,
                    q,
                )].alike(&world.outfit_at(q).rewired(save_table(world))) by {}
            }
        }
        j += 1;
    }
    SavedGame { entities: records, helper: SerializationHelper { map: world.map.copy() } }
}

/// The player that the first `n` records name: the entity of the last
/// record that holds a player and a position, and where it stands.
pub open spec fn chosen_player(saved: &SavedGame, fresh: Seq<Entity>, n: int) -> Option<
    (Entity, GridPoint),
>
    decreases n,
{
    if n <= 0 {
        None
    } else {
        match (saved.entities@[n - 1].player, saved.entities@[n - 1].position) {
            (Some(_), Some(p)) => Some((fresh[n - 1], GridPoint { x: p.x, y: p.y })),
            _ => chosen_player(saved, fresh, n - 1),
        }
    }
}

/// `map` is what is read back of `saved`: the saved map, but with nobody
/// noted on any tile.
pub open spec fn is_map_read(map: &GameMap, saved: &GameMap) -> bool {
    &&& map.same_shape(saved)
    &&& map.tiles@ == saved.tiles@
    &&& map.rooms@ == saved.rooms@
    &&& map.revealed_tiles@ == saved.revealed_tiles@
    &&& map.currently_visible_tiles@ == saved.currently_visible_tiles@
    &&& map.blocked_tiles@ == saved.blocked_tiles@
    &&& map.tile_content@.len() == saved.tile_content@.len()
    &&& forall|i: int| 0 <= i < map.tile_content@.len()
        ==> (#[trigger] map.tile_content@[i])@.len() == 0
}

/// `after` is the world rebuilt from `saved`, with `fresh[k]` the entity
/// created for record `k`: these are the only live entities, each in a slot
/// of its own; each carries what its record holds, with every ordinal
/// turned into the entity created for it; the map is the saved one; the
/// player and its place are those of the last record that holds a player
/// and a position; and phase, log and random source are those of `before`.
pub open spec fn is_loaded(
    before: &World,
    after: &World,
    saved: &SavedGame,
    fresh: Seq<Entity>,
) -> bool {
    let n = saved.entities@.len() as int;
    &&& fresh.len() == n
    &&& forall|k: int| 0 <= k < n ==> after.entities.is_alive(#[trigger] fresh[k])
    &&& forall|a: int, b: int|
        #![trigger fresh[a], fresh[b]]
        0 <= a < b < n ==> fresh[a].id != fresh[b].id
    &&& forall|j: int| #[trigger]
        after.entities.slot_alive(j) ==> exists|k: int| 0 <= k < n && (#[trigger] fresh[k]).id == j
    &&& forall|k: int|
        0 <= k < n ==> after.outfit_at((#[trigger] fresh[k]).id as int).alike(
            &saved.entities@[k].rewired(load_table(fresh)),
        )
    &&& is_map_read(&after.map, &saved.helper.map)
    &&& match chosen_player(saved, fresh, n) {
        Some((e, p)) => after.player_entity == e && after.player_position == p,
        None => after.player_entity == before.player_entity && after.player_position
            == before.player_position,
    }
    &&& after.run_state == before.run_state
    &&& after.gamelog == before.gamelog
    &&& after.rng == before.rng
}

/// Creates one entity for each of `count` records.
fn create_fresh(world: &mut World, count: usize) -> (fresh: Vec<Entity>)
    requires
        old(world).wf(),
        old(world).is_empty(),
    ensures
        final(world).wf(),
        final(world).same_resources(old(world)),
        fresh@.len() == count,
        forall|k: int| 0 <= k < count ==> final(world).entities.is_alive(#[trigger] fresh@[k]),
        forall|a: int, b: int|
            #![trigger fresh@[a], fresh@[b]]
            0 <= a < b < count ==> fresh@[a].id != fresh@[b].id,
        forall|j: int| #[trigger]
            final(world).entities.slot_alive(j) ==> exists|k: int|
                0 <= k < count && (#[trigger] fresh@[k]).id == j,
        forall|j: int| #[trigger] final(world).slot_is_bare(j),
{
    let mut fresh: Vec<Entity> = Vec::new();
    let mut k: usize = 0;
    while k < count
        invariant
            world.wf(),
            world.same_resources(old(world)),
            k <= count,
            fresh@.len() == k,
            forall|q: int| 0 <= q < k ==> world.entities.is_alive(#[trigger] fresh@[q]),
            forall|a: int, b: int|
                #![trigger fresh@[a], fresh@[b]]
                0 <= a < b < k ==> fresh@[a].id != fresh@[b].id,
            forall|j: int| #[trigger]
                world.entities.slot_alive(j) ==> exists|q: int|
                    0 <= q < k && (#[trigger] fresh@[q]).id == j,
            forall|j: int| #[trigger] world.slot_is_bare(j),
        decreases count - k,
    {
        let ghost before = *world;
        let ghost listed = fresh@;
        let e = world.create_entity();
        fresh.push(e);
        proof {
            assert(fresh@[k as int] == e);
            assert forall|q: int| 0 <= q < k + 1 implies world.entities.is_alive(
                #[trigger] fresh@[q],
            ) by {
                if q < k {
                    assert(fresh@[q] == listed[q]);
                    assert(before.entities.is_alive(listed[q]));
                }
            }
            assert forall|a: int, b: int|
                #![trigger fresh@[a], fresh@[b]]
                0 <= a < b < k + 1 implies fresh@[a].id != fresh@[b].id by {
                assert(fresh@[a] == listed[a]);
                if b < k {
                    assert(fresh@[b] == listed[b]);
                } else {
                    assert(before.entities.is_alive(listed[a]));
                }
            }
            assert forall|j: int| #[trigger] world.entities.slot_alive(j) implies exists|q: int|
                0 <= q < k + 1 && (#[trigger] fresh@[q]).id == j by {
                if j != e.id {
                    assert(before.entities.slot_alive(j));
                    let q = choose|q: int| 0 <= q < k && (#[trigger] listed[q]).id == j;
                    assert(fresh@[q] == listed[q]);
                }
            }
            assert forall|j: int| #[trigger] world.slot_is_bare(j) by {
                assert(before.slot_is_bare(j));
            }
        }
        k += 1;
    }
    fresh
}

/// How references are read back into `fresh`.
fn build_load_table(fresh: &Vec<Entity>) -> (table: RefTable)
    ensures
        table@ == load_table(fresh@),
{
    let mut table: RefTable = Vec::new();
    let mut k: usize = 0;
    while k < fresh.len()
        invariant
            k <= fresh@.len(),
            table@.len() == k,
            forall|q: int| 0 <= q < k ==> #[trigger] table@[q] == Some((0u64, fresh@[q])),
        decreases fresh@.len() - k,
    {
        table.push(Some((0u64, fresh[k])));
        k += 1;
    }
    assert(table@ =~= load_table(fresh@));
    table
}

/// Gives each of the `fresh` entities what its record holds.
fn dress_fresh(world: &mut World, saved: &SavedGame, fresh: &Vec<Entity>, table: &RefTable)
    requires
        old(world).wf(),
        fresh@.len() == saved.entities@.len(),
        forall|k: int| 0 <= k < fresh@.len() ==> old(world).entities.is_alive(#[trigger] fresh@[k]),
        forall|a: int, b: int|
            #![trigger fresh@[a], fresh@[b]]
            0 <= a < b < fresh@.len() ==> fresh@[a].id != fresh@[b].id,
        forall|j: int| #[trigger] old(world).slot_is_bare(j),
    ensures
        final(world).wf(),
        final(world).entities == old(world).entities,
        final(world).same_resources(old(world)),
        forall|k: int|
            0 <= k < fresh@.len()
                ==> final(world).outfit_at((#[trigger] fresh@[k]).id as int).alike(
                &saved.entities@[k].rewired(table@),
            ),
{
    let n: usize = fresh.len();
    let mut k: usize = 0;
    while k < n
        invariant
            world.wf(),
            world.entities == old(world).entities,
            world.same_resources(old(world)),
            n == fresh@.len(),
            n == saved.entities@.len(),
            k <= n,
            forall|q: int| 0 <= q < n ==> world.entities.is_alive(#[trigger] fresh@[q]),
            forall|a: int, b: int|
                #![trigger fresh@[a], fresh@[b]]
                0 <= a < b < n ==> fresh@[a].id != fresh@[b].id,
            forall|q: int| k <= q < n ==> world.slot_is_bare((#[trigger] fresh@[q]).id as int),
            forall|q: int|
                0 <= q < k ==> world.outfit_at((#[trigger] fresh@[q]).id as int).alike(
                    &saved.entities@[q].rewired(table@),
                ),
        decreases n - k,
    {
        let ghost before = *world;
        let copy = saved.entities[k].copy();
        let record = copy.rewire(table);
        let e = fresh[k];
        world.dress(e, record);
        proof {
            copy.lemma_rewired_alike(&saved.entities@[k as int], table@);
            before.lemma_bare_slot_has_bare_outfit(e.id as int);
            record.lemma_over_bare();
            assert(world.outfit_at(e.id as int) == record);
            assert forall|q: int| k + 1 <= q < n implies world.slot_is_bare(
                (#[trigger] fresh@[q]).id as int,
            ) by {
                assert(fresh@[k as int].id != fresh@[q].id);
                assert(world.same_slot(&before, fresh@[q].id as int));
            }
            assert forall|q: int| 0 <= q < k + 1 implies world.outfit_at(
                (#[trigger] fresh@[q]).id as int,
            ).alike(&saved.entities@[q].rewired(table@)) by {
                if q < k {
                    assert(fresh@[q].id != fresh@[k as int].id);
                    assert(world.same_slot(&before, fresh@[q].id as int));
                    world.lemma_same_slot_same_outfit(&before, fresh@[q].id as int);
                }
            }
        }
        k += 1;
    }
}

/// The player that the records name.
fn choose_player(saved: &SavedGame, fresh: &Vec<Entity>) -> (r: Option<(Entity, GridPoint)>)
    requires
        fresh@.len() == saved.entities@.len(),
    ensures
        r == chosen_player(saved, fresh@, fresh@.len() as int),
{
    let mut found: Option<(Entity, GridPoint)> = None;
    let mut k: usize = 0;
    while k < fresh.len()
        invariant
            fresh@.len() == saved.entities@.len(),
            k <= fresh@.len(),
            found == chosen_player(saved, fresh@, k as int),
        decreases fresh@.len() - k,
    {
        let is_player: bool = saved.entities[k].player.is_some();
        let place = saved.entities[k].position;
        if is_player {
            match place {
                Some(p) => {
                    found = Some((fresh[k], GridPoint { x: p.x, y: p.y }));
                },
                None => {},
            }
        }
        k += 1;
    }
    found
}

/// Rebuilds the world from `saved`. Every entity is deleted; for each
/// record a new entity is created and given what the record holds; the map
/// is taken from the helper, with the occupant lists emptied; and the
/// player is set from the records. A saved game whose map is not well
/// formed is refused: the result is `false` and the world is left as it
/// is.
pub fn load_game(world: &mut World, saved: &SavedGame) -> (ok: bool)
    requires
        old(world).wf(),
    ensures
        final(world).wf(),
        ok == saved.helper.map.wf(),
        !ok ==> *final(world) == *old(world),
        ok ==> exists|fresh: Seq<Entity>| #[trigger] is_loaded(old(world), final(world), saved,
            fresh),
{
    if !saved.helper.map.is_well_formed() {
        return false;
    }
    world.clear_entities();
    let fresh = create_fresh(world, saved.entities.len());
    let table = build_load_table(&fresh);
    dress_fresh(world, saved, &fresh, &table);
    let mut map = saved.helper.map.copy();
    map.clear_tile_content();
    world.map = map;
    match choose_player(saved, &fresh) {
        Some((e, p)) => {
            world.player_entity = e;
            world.player_position = p;
        },
        None => {},
    }
    proof {
        assert(is_loaded(old(world), world, saved, fresh@));
    }
    true
}

/// How references fare when a world is written down and read back: a
/// reference to the live entity of a marked slot becomes the entity that was
/// created for the record of the slot.
pub open spec fn round_trip_entry(w: &World, fresh: Seq<Entity>, j: int) -> Option<(u64, Entity)> {
    if w.serialize_me.has(j) {
        Some((w.entities.generations@[j], fresh[rank(w, j)]))
    } else {
        None
    }
}

/// How references fare when a world is written down and read back, slot by
/// slot.
pub open spec fn round_trip_table(w: &World, fresh: Seq<Entity>) -> Seq<Option<(u64, Entity)>> {
    Seq::new(w.serialize_me.slots@.len(), |j: int| round_trip_entry(w, fresh, j))
}

/// What the reference `e` of the world `w` names once `w` was written down
/// and read back with `fresh` as the new entities: the new entity of the
/// record of `e`, if `e` is alive and marked, and nothing otherwise.
pub open spec fn carried_over(w: &World, fresh: Seq<Entity>, e: Entity) -> Entity {
    if w.entities.is_alive(e) && w.serialize_me.has(e.id as int) {
        fresh[rank(w, e.id as int)]
    } else {
        dangling()
    }
}

/// A reference that is turned into an ordinal and back names what it is
/// carried over to.
pub proof fn lemma_reference_round_trip(w: &World, saved: &SavedGame, fresh: Seq<Entity>, e: Entity)
    requires
        w.wf(),
        fresh.len() == saved.entities@.len(),
        saved.entities@.len() == rank(w, w.serialize_me.slots@.len() as int),
    ensures
        image(load_table(fresh), image(save_table(w), e)) == image(round_trip_table(w, fresh), e),
        image(round_trip_table(w, fresh), e) == carried_over(w, fresh, e),
{
    let n = w.serialize_me.slots@.len() as int;
    assert(saved.entities.len() <= usize::MAX);
    assert(w.serialize_me.slots.len() <= usize::MAX);
    if e.id < n && w.serialize_me.has(e.id as int) {
        lemma_rank_grows(w, e.id as int, n);
        lemma_rank_grows(w, 0, e.id as int);
        assert(w.entities.slot_alive(e.id as int));
    }
}

/// An outfit whose references are turned into ordinals and back is the
/// outfit with every reference carried over.
pub proof fn lemma_outfit_round_trip(w: &World, saved: &SavedGame, fresh: Seq<Entity>, o: Outfit)
    requires
        w.wf(),
        fresh.len() == saved.entities@.len(),
        saved.entities@.len() == rank(w, w.serialize_me.slots@.len() as int),
    ensures
        o.rewired(save_table(w)).rewired(load_table(fresh)) == o.rewired(
            round_trip_table(w, fresh),
        ),
{
    if let Some(c) = o.wants_to_melee {
        lemma_reference_round_trip(w, saved, fresh, c.target);
    }
    if let Some(c) = o.in_backpack {
        lemma_reference_round_trip(w, saved, fresh, c.owner);
    }
    if let Some(c) = o.wants_to_pickup_item {
        lemma_reference_round_trip(w, saved, fresh, c.collected_by);
        lemma_reference_round_trip(w, saved, fresh, c.item);
    }
    if let Some(c) = o.wants_to_use_item {
        lemma_reference_round_trip(w, saved, fresh, c.item);
    }
    if let Some(c) = o.wants_to_drop_item {
        lemma_reference_round_trip(w, saved, fresh, c.item);
    }
    if let Some(c) = o.wants_to_unequip_item {
        lemma_reference_round_trip(w, saved, fresh, c.item);
    }
    if let Some(c) = o.equipped {
        lemma_reference_round_trip(w, saved, fresh, c.owner);
    }
}

/// Every record of a saved game is the record of a marked slot.
pub proof fn lemma_every_record_has_its_slot(w: &World, n: int, k: int)
    requires
        0 <= k < rank(w, n),
    ensures
        exists|j: int| 0 <= j < n && #[trigger] w.serialize_me.has(j) && rank(w, j) == k,
    decreases n,
{
    if n > 0 {
        if w.serialize_me.has(n - 1) && rank(w, n - 1) == k {
        } else {
            lemma_every_record_has_its_slot(w, n - 1, k);
        }
    }
}

/// Saving a world and loading what was saved gives the world back, up to
/// the names of its entities. The marked slots of the world before and the
/// live entities of the world after correspond one to one, the slot `j` to
/// the entity `fresh[rank(w, j)]`. That entity carries what the entity of
/// the slot carried, with every reference carried over to the new entity of
/// what it named: position, combat statistics and every other component
/// without a reference are equal, names read the same, and owners, targets
/// and items are the new entities of the old ones.
pub proof fn lemma_save_then_load(
    w: &World,
    saved: &SavedGame,
    before: &World,
    after: &World,
    fresh: Seq<Entity>,
    j: int,
)
    requires
        w.wf(),
        is_saved(w, saved),
        is_loaded(before, after, saved, fresh),
        0 <= j < w.serialize_me.slots@.len(),
        w.serialize_me.has(j),
    ensures
        0 <= rank(w, j) < fresh.len(),
        after.entities.is_alive(fresh[rank(w, j)]),
        after.outfit_at(fresh[rank(w, j)].id as int).alike(
            &w.outfit_at(j).rewired(round_trip_table(w, fresh)),
        ),
        after.positions.at(fresh[rank(w, j)].id as int) == w.positions.at(j),
        after.combat_stats.at(fresh[rank(w, j)].id as int) == w.combat_stats.at(j),
        crate::outfit::alike_name(after.names.at(fresh[rank(w, j)].id as int), w.names.at(j)),
        after.players.at(fresh[rank(w, j)].id as int) == w.players.at(j),
        after.in_backpack.at(fresh[rank(w, j)].id as int) == (match w.in_backpack.at(j) {
            Some(b) => Some(crate::components::InBackpack { owner: carried_over(w, fresh,
                b.owner) }),
            None => None,
        }),
        after.equipped.at(fresh[rank(w, j)].id as int) == (match w.equipped.at(j) {
            Some(q) => Some(
                crate::components::Equipped { owner: carried_over(w, fresh, q.owner),
                    slot: q.slot },
            ),
            None => None,
        }),
        after.wants_to_melee.at(fresh[rank(w, j)].id as int) == (match w.wants_to_melee.at(j) {
            Some(m) => Some(
                crate::components::WantsToMelee { target: carried_over(w, fresh, m.target) },
            ),
            None => None,
        }),
{
    let n = w.serialize_me.slots@.len() as int;
    let k = rank(w, j);
    lemma_rank_grows(w, j, n);
    lemma_rank_grows(w, 0, j);
    let o = w.outfit_at(j);
    let record = saved.entities@[k];
    assert(record.alike(&o.rewired(save_table(w))));
    record.lemma_rewired_alike(&o.rewired(save_table(w)), load_table(fresh));
    lemma_outfit_round_trip(w, saved, fresh, o);
    let got = after.outfit_at(fresh[k].id as int);
    assert(got.alike(&record.rewired(load_table(fresh))));
    assert(got.alike(&o.rewired(round_trip_table(w, fresh))));
    if let Some(b) = w.in_backpack.at(j) {
        lemma_reference_round_trip(w, saved, fresh, b.owner);
    }
    if let Some(q) = w.equipped.at(j) {
        lemma_reference_round_trip(w, saved, fresh, q.owner);
    }
    if let Some(m) = w.wants_to_melee.at(j) {
        lemma_reference_round_trip(w, saved, fresh, m.target);
    }
}

/// After saving and loading, whoever is alive is the new entity of a marked
/// slot of the world that was saved, and of one slot only; and the map has
/// the tiles, rooms, size and depth of the map that was saved, with what was
/// revealed, visible and blocked.
pub proof fn lemma_load_brings_back_no_more(
    w: &World,
    saved: &SavedGame,
    before: &World,
    after: &World,
    fresh: Seq<Entity>,
    i: int,
)
    requires
        w.wf(),
        is_saved(w, saved),
        is_loaded(before, after, saved, fresh),
        after.entities.slot_alive(i),
    ensures
        exists|j: int|
            0 <= j < w.serialize_me.slots@.len() && #[trigger] w.serialize_me.has(j) && fresh[rank(
                w,
                j,
            )].id == i,
        forall|a: int, b: int|
            #![trigger w.serialize_me.has(a), w.serialize_me.has(b)]
            0 <= a < b < w.serialize_me.slots@.len() && w.serialize_me.has(a)
                && w.serialize_me.has(b) ==> fresh[rank(w, a)].id != fresh[rank(w, b)].id,
        after.map.tiles@ == w.map.tiles@,
        after.map.rooms@ == w.map.rooms@,
        after.map.same_shape(&w.map),
        after.map.revealed_tiles@ == w.map.revealed_tiles@,
        after.map.currently_visible_tiles@ == w.map.currently_visible_tiles@,
        after.map.blocked_tiles@ == w.map.blocked_tiles@,
{
    let n = w.serialize_me.slots@.len() as int;
    let k = choose|k: int| 0 <= k < fresh.len() && (#[trigger] fresh[k]).id == i;
    lemma_every_record_has_its_slot(w, n, k);
    assert forall|a: int, b: int|
        #![trigger w.serialize_me.has(a), w.serialize_me.has(b)]
        0 <= a < b < n && w.serialize_me.has(a) && w.serialize_me.has(b)
            implies fresh[rank(w, a)].id
        != fresh[rank(w, b)].id by {
        lemma_rank_grows(w, a, b);
        lemma_rank_grows(w, b, n);
        lemma_rank_grows(w, 0, a);
    }
}

/// Among the first `m` records of what was saved of `w`, the player that is
/// chosen is the one of slot `j`, where `j` is the highest marked slot that
/// holds a player and a position and `m` reaches past its record.
proof fn lemma_chosen_player_is_the_last(
    w: &World,
    saved: &SavedGame,
    fresh: Seq<Entity>,
    j: int,
    m: int,
)
    requires
        w.wf(),
        is_saved(w, saved),
        fresh.len() == saved.entities@.len(),
        0 <= j < w.serialize_me.slots@.len(),
        w.serialize_me.has(j),
        w.players.has(j),
        w.positions.has(j),
        forall|q: int|
            j < q < w.serialize_me.slots@.len() && #[trigger] w.serialize_me.has(q) ==> !(
            w.players.has(q) && w.positions.has(q)),
        rank(w, j) < m <= saved.entities@.len(),
    ensures
        chosen_player(saved, fresh, m) == Some(
            (
                fresh[rank(w, j)],
                GridPoint { x: w.positions.at(j).unwrap().x, y: w.positions.at(j).unwrap().y },
            ),
        ),
    decreases m,
{
    let n = w.serialize_me.slots@.len() as int;
    lemma_rank_grows(w, 0, j);
    if m == rank(w, j) + 1 {
        assert(saved.entities@[rank(w, j)].alike(&w.outfit_at(j).rewired(save_table(w))));
    } else {
        lemma_chosen_player_is_the_last(w, saved, fresh, j, m - 1);
        lemma_every_record_has_its_slot(w, n, m - 1);
        let q = choose|q: int| 0 <= q < n && #[trigger] w.serialize_me.has(q) && rank(w, q)
            == m - 1;
        if q <= j {
            lemma_rank_grows(w, q, j);
        }
        assert(saved.entities@[rank(w, q)].alike(&w.outfit_at(q).rewired(save_table(w))));
    }
}

/// After saving and loading, the player is the new entity of the highest
/// marked slot that held a player and a position, and is known to stand
/// where that entity stood.
pub proof fn lemma_load_brings_back_the_player(
    w: &World,
    saved: &SavedGame,
    before: &World,
    after: &World,
    fresh: Seq<Entity>,
    j: int,
)
    requires
        w.wf(),
        is_saved(w, saved),
        is_loaded(before, after, saved, fresh),
        0 <= j < w.serialize_me.slots@.len(),
        w.serialize_me.has(j),
        w.players.has(j),
        w.positions.has(j),
        forall|q: int|
            j < q < w.serialize_me.slots@.len() && #[trigger] w.serialize_me.has(q) ==> !(
            w.players.has(q) && w.positions.has(q)),
    ensures
        after.player_entity == fresh[rank(w, j)],
        after.player_position == (GridPoint {
            x: w.positions.at(j).unwrap().x,
            y: w.positions.at(j).unwrap().y,
        }),
        after.players.has(after.player_entity.id as int),
{
    let n = w.serialize_me.slots@.len() as int;
    lemma_rank_grows(w, j, n);
    lemma_chosen_player_is_the_last(w, saved, fresh, j, saved.entities@.len() as int);
    lemma_save_then_load(w, saved, before, after, fresh, j);
}

} // verus!
