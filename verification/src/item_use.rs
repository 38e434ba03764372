//! Using an item: whom it reaches, what each of its effects does, and what
//! becomes of a consumable.

use vstd::prelude::*;
use crate::arith::{clamp, saturate};
use crate::components::{
    pending_damage,
    CausesConfusion,
    CombatStats,
    Consumable,
    EquipmentSlot,
    Equippable,
    Equipped,
    GivesMovementSpeed,
    GridPoint,
    HasMovementSpeedModifier,
    InBackpack,
    InflictsDamage,
    IsConfused,
    Name,
    ProvidesHealing,
    SuffersDamage,
    WantsToUseItem,
};
use crate::entity::{Entities, Entity};
use crate::gamelog::LogEntry;
use crate::map::GameMap;
use crate::storage::Storage;
use crate::world::{name_in, World};

verus! {

/// How many of the first `k` targets are the live entity of slot `j`.
pub open spec fn hits(entities: &Entities, targets: Seq<Entity>, j: int, k: int) -> nat
    decreases k,
{
    if k <= 0 {
        0
    } else {
        hits(entities, targets, j, k - 1) + if targets[k - 1].id == j && entities.is_alive(
            targets[k - 1],
        ) {
            1nat
        } else {
            0nat
        }
    }
}

/// The occupants of the first `n` tiles that are seen from `center` within
/// `radius`, tile by tile in the order of the tile indices.
pub open spec fn blast(map: &GameMap, center: GridPoint, radius: int, n: int) -> Seq<Entity>
    decreases n,
{
    if n <= 0 {
        Seq::empty()
    } else {
        blast(map, center, radius, n - 1) + (if map.sees(
            center,
            radius,
            (n - 1) % (map.width as int),
            (n - 1) / (map.width as int),
        ) {
            map.tile_content@[n - 1]@
        } else {
            Seq::empty()
        })
    }
}

/// Whom the use intent of slot `i` reaches: the user where no point is
/// aimed at; the occupants of the tile aimed at; or, for an item with an
/// area of effect, the occupants of every tile seen from that point within
/// the radius. A point off the grid reaches nobody.
pub open spec fn targets_of(w: &World, i: int) -> Seq<Entity> {
    let intent = w.wants_to_use_item.at(i).unwrap();
    match intent.target {
        None => seq![w.entities.entity_at(i)],
        Some(p) => match w.area_of_effect.of(&w.entities, intent.item) {
            None => if w.map.in_bounds(p.x as int, p.y as int) {
                w.map.tile_content@[w.map.idx_of(p.x as int, p.y as int)]@
            } else {
                Seq::empty()
            },
            Some(aoe) => blast(&w.map, p, aoe.radius as int, w.map.tile_count()),
        },
    }
}

/// One dose of healing: `amount` more hit points, but no more than the
/// maximum.
pub open spec fn heal_once(s: CombatStats, amount: int) -> CombatStats {
    CombatStats {
        hp: clamp(if s.hp + amount < s.max_hp {
            s.hp + amount
        } else {
            s.max_hp as int
        }) as i32,
        ..s
    }
}

/// `n` doses of healing, one after the other.
pub open spec fn heal_times(s: CombatStats, amount: int, n: nat) -> CombatStats
    decreases n,
{
    if n == 0 {
        s
    } else {
        heal_once(heal_times(s, amount, (n - 1) as nat), amount)
    }
}

/// `n` copies of `amount`.
pub open spec fn repeated(amount: i32, n: nat) -> Seq<i32> {
    Seq::new(n, |k: int| amount)
}

/// What the log gains when the player confuses the first `k` targets.
pub open spec fn confusion_log(
    entities: &Entities,
    names: &Storage<Name>,
    targets: Seq<Entity>,
    item: Entity,
    turns: i32,
    k: int,
) -> Seq<LogEntry>
    decreases k,
{
    if k <= 0 {
        Seq::empty()
    } else {
        confusion_log(entities, names, targets, item, turns, k - 1) + (if entities.is_alive(
            targets[k - 1],
        ) {
            seq![
                LogEntry::Confused {
                    item: name_in(entities, names, item),
                    target: name_in(entities, names, targets[k - 1]),
                    turns,
                },
            ]
        } else {
            Seq::empty()
        })
    }
}

/// What the log gains when the player speeds the first `k` targets up.
pub open spec fn haste_log(
    entities: &Entities,
    names: &Storage<Name>,
    targets: Seq<Entity>,
    item: Entity,
    speed_modifier: i32,
    turns: i32,
    k: int,
) -> Seq<LogEntry>
    decreases k,
{
    if k <= 0 {
        Seq::empty()
    } else {
        haste_log(entities, names, targets, item, speed_modifier, turns, k - 1)
            + (if entities.is_alive(
            targets[k - 1],
        ) {
            seq![LogEntry::Hastened { item: name_in(entities, names, item), speed_modifier, turns }]
        } else {
            Seq::empty()
        })
    }
}

/// What the log gains when the player heals the first `k` targets: one
/// entry for each that has hit points.
pub open spec fn healing_log(
    entities: &Entities,
    names: &Storage<Name>,
    stats: &Storage<CombatStats>,
    targets: Seq<Entity>,
    item: Entity,
    heal_amount: i32,
    k: int,
) -> Seq<LogEntry>
    decreases k,
{
    if k <= 0 {
        Seq::empty()
    } else {
        healing_log(entities, names, stats, targets, item, heal_amount, k - 1) + (if stats.of(
            entities,
            targets[k - 1],
        ) is Some {
            seq![LogEntry::Healed { item: name_in(entities, names, item), heal_amount }]
        } else {
            Seq::empty()
        })
    }
}

/// What the log gains when the player strikes the first `k` targets.
pub open spec fn strike_log(
    entities: &Entities,
    names: &Storage<Name>,
    targets: Seq<Entity>,
    item: Entity,
    damage: i32,
    k: int,
) -> Seq<LogEntry>
    decreases k,
{
    if k <= 0 {
        Seq::empty()
    } else {
        strike_log(entities, names, targets, item, damage, k - 1) + (if entities.is_alive(
            targets[k - 1],
        ) {
            seq![
                LogEntry::Struck {
                    item: name_in(entities, names, item),
                    target: name_in(entities, names, targets[k - 1]),
                    damage,
                },
            ]
        } else {
            Seq::empty()
        })
    }
}

/// The item of slot `j` is worn by `wearer` in `slot`.
pub open spec fn worn_by(
    equipped: &Storage<Equipped>,
    j: int,
    wearer: Entity,
    slot: EquipmentSlot,
) -> bool {
    equipped.at(j) == Some(Equipped { owner: wearer, slot })
}

/// What the log gains when the player takes off what it wears in `slot`
/// among the first `n` slots.
pub open spec fn unequip_log(
    entities: &Entities,
    names: &Storage<Name>,
    equipped: &Storage<Equipped>,
    wearer: Entity,
    slot: EquipmentSlot,
    n: int,
) -> Seq<LogEntry>
    decreases n,
{
    if n <= 0 {
        Seq::empty()
    } else {
        unequip_log(entities, names, equipped, wearer, slot, n - 1) + (if worn_by(
            equipped,
            n - 1,
            wearer,
            slot,
        ) {
            seq![LogEntry::Unequipped { item: name_in(entities, names, entities.entity_at(n - 1)) }]
        } else {
            Seq::empty()
        })
    }
}

/// The item has an effect that counts as a use.
pub open spec fn is_used(w: &World, item: Entity) -> bool {
    ||| w.causes_confusion.of(&w.entities, item) is Some
    ||| w.gives_movement_speed.of(&w.entities, item) is Some
    ||| w.provides_healing.of(&w.entities, item) is Some
    ||| w.inflicts_damage.of(&w.entities, item) is Some
}

/// The use of `item` takes its last charge.
pub open spec fn is_spent(w: &World, item: Entity) -> bool {
    is_used(w, item) && match w.consumables.of(&w.entities, item) {
        Some(c) => c.charges - 1 <= 0,
        None => false,
    }
}

/// Confusion has reached the targets: every slot that a live target names
/// is confused for the item's number of turns, and no other slot changed.
pub open spec fn confusion_part(
    entities: &Entities,
    tag: Option<CausesConfusion>,
    before: &Storage<IsConfused>,
    after: &Storage<IsConfused>,
    targets: Seq<Entity>,
) -> bool {
    forall|j: int|
        #![trigger after.at(j)]
        #![trigger before.at(j)]
        after.at(j) == (match tag {
            Some(c) if hits(entities, targets, j, targets.len() as int) > 0 => Some(
                IsConfused { turns: c.turns },
            ),
            _ => before.at(j),
        })
}

/// Speed has reached the targets: every slot that a live target names has
/// the item's speed with no turn used, and no other slot changed.
pub open spec fn haste_part(
    entities: &Entities,
    tag: Option<GivesMovementSpeed>,
    before: &Storage<HasMovementSpeedModifier>,
    after: &Storage<HasMovementSpeedModifier>,
    targets: Seq<Entity>,
) -> bool {
    forall|j: int|
        #![trigger after.at(j)]
        #![trigger before.at(j)]
        after.at(j) == (match tag {
            Some(g) if hits(entities, targets, j, targets.len() as int) > 0 => Some(
                HasMovementSpeedModifier {
                    speed_modifier: g.speed_modifier,
                    max_turns: g.turns,
                    turns_used: 0,
                },
            ),
            _ => before.at(j),
        })
}

/// Healing has reached the targets: the hit points of every slot got one
/// dose for each live target that names it.
pub open spec fn healing_part(
    entities: &Entities,
    tag: Option<ProvidesHealing>,
    before: &Storage<CombatStats>,
    after: &Storage<CombatStats>,
    targets: Seq<Entity>,
) -> bool {
    forall|j: int|
        #![trigger after.at(j)]
        #![trigger before.at(j)]
        after.at(j) == (match (tag, before.at(j)) {
            (Some(h), Some(s)) => Some(
                heal_times(
                    s,
                    h.heal_amount as int,
                    hits(entities, targets, j, targets.len() as int),
                ),
            ),
            _ => before.at(j),
        })
}

/// Damage has reached the targets: the queue of every slot got the item's
/// damage once for each live target that names it.
pub open spec fn damage_part(
    entities: &Entities,
    tag: Option<InflictsDamage>,
    before: &Storage<SuffersDamage>,
    after: &Storage<SuffersDamage>,
    targets: Seq<Entity>,
) -> bool {
    forall|j: int|
        #![trigger after.at(j)]
        #![trigger before.at(j)]
        match tag {
            Some(d) if hits(entities, targets, j, targets.len() as int) > 0 => after.has(j)
                && pending_damage(after, j) == pending_damage(before, j) + repeated(
                d.damage,
                hits(entities, targets, j, targets.len() as int),
            ),
            _ => after.at(j) == before.at(j),
        }
}

/// The item is worn by the first target, and what that target wore in the
/// same slot is worn no longer.
pub open spec fn wear_part(
    tag: Option<Equippable>,
    item: Entity,
    targets: Seq<Entity>,
    before: &Storage<Equipped>,
    after: &Storage<Equipped>,
) -> bool {
    forall|j: int|
        #![trigger after.at(j)]
        #![trigger before.at(j)]
        after.at(j) == (match tag {
            Some(q) if targets.len() > 0 => if j == item.id {
                Some(Equipped { owner: targets[0], slot: q.slot })
            } else if worn_by(before, j, targets[0], q.slot) {
                None
            } else {
                before.at(j)
            },
            _ => before.at(j),
        })
}

/// The item has left the backpack, and what the first target wore in the
/// same slot lies in that target's backpack.
pub open spec fn pack_part(
    tag: Option<Equippable>,
    item: Entity,
    targets: Seq<Entity>,
    worn: &Storage<Equipped>,
    before: &Storage<InBackpack>,
    after: &Storage<InBackpack>,
) -> bool {
    forall|j: int|
        #![trigger after.at(j)]
        #![trigger before.at(j)]
        after.at(j) == (match tag {
            Some(q) if targets.len() > 0 => if j == item.id {
                None
            } else if worn_by(worn, j, targets[0], q.slot) {
                Some(InBackpack { owner: targets[0] })
            } else {
                before.at(j)
            },
            _ => before.at(j),
        })
}

/// A used item has one charge less, and nothing else changed.
pub open spec fn charge_part(
    used: bool,
    charges: Option<Consumable>,
    item: Entity,
    before: &Storage<Consumable>,
    after: &Storage<Consumable>,
) -> bool {
    forall|j: int|
        #![trigger after.at(j)]
        #![trigger before.at(j)]
        after.at(j) == (match charges {
            Some(c) if used && j == item.id => Some(
                Consumable { charges: clamp(c.charges - 1) as i32 },
            ),
            _ => before.at(j),
        })
}

/// What the log gains by confusing the targets.
pub open spec fn confusion_told(
    entities: &Entities,
    names: &Storage<Name>,
    tag: Option<CausesConfusion>,
    targets: Seq<Entity>,
    item: Entity,
    told: bool,
) -> Seq<LogEntry> {
    match tag {
        Some(c) if told => confusion_log(
            entities,
            names,
            targets,
            item,
            c.turns,
            targets.len() as int,
        ),
        _ => Seq::empty(),
    }
}

/// What the log gains by speeding the targets up.
pub open spec fn haste_told(
    entities: &Entities,
    names: &Storage<Name>,
    tag: Option<GivesMovementSpeed>,
    targets: Seq<Entity>,
    item: Entity,
    told: bool,
) -> Seq<LogEntry> {
    match tag {
        Some(g) if told => haste_log(
            entities,
            names,
            targets,
            item,
            g.speed_modifier,
            g.turns,
            targets.len() as int,
        ),
        _ => Seq::empty(),
    }
}

/// What the log gains by healing the targets.
pub open spec fn healing_told(
    entities: &Entities,
    names: &Storage<Name>,
    stats: &Storage<CombatStats>,
    tag: Option<ProvidesHealing>,
    targets: Seq<Entity>,
    item: Entity,
    told: bool,
) -> Seq<LogEntry> {
    match tag {
        Some(h) if told => healing_log(
            entities,
            names,
            stats,
            targets,
            item,
            h.heal_amount,
            targets.len() as int,
        ),
        _ => Seq::empty(),
    }
}

/// What the log gains by striking the targets.
pub open spec fn strike_told(
    entities: &Entities,
    names: &Storage<Name>,
    tag: Option<InflictsDamage>,
    targets: Seq<Entity>,
    item: Entity,
    told: bool,
) -> Seq<LogEntry> {
    match tag {
        Some(d) if told => strike_log(
            entities,
            names,
            targets,
            item,
            d.damage,
            targets.len() as int,
        ),
        _ => Seq::empty(),
    }
}

/// What the log gains when the item is put on: for the player as wearer,
/// an entry for each item taken off and one for the item put on.
pub open spec fn wear_told(
    entities: &Entities,
    names: &Storage<Name>,
    equipped: &Storage<Equipped>,
    tag: Option<Equippable>,
    targets: Seq<Entity>,
    item: Entity,
    player: Entity,
) -> Seq<LogEntry> {
    match tag {
        Some(q) if targets.len() > 0 && targets[0] == player => unequip_log(
            entities,
            names,
            equipped,
            targets[0],
            q.slot,
            equipped.slots@.len() as int,
        ).push(LogEntry::Equipped { item: name_in(entities, names, item) }),
        _ => Seq::empty(),
    }
}

/// What the log gains by the use intent of slot `i`: for the player as
/// user, an entry for each target confused, sped up, healed and struck, in
/// this order; then what putting the item on tells.
pub open spec fn use_log(w: &World, i: int) -> Seq<LogEntry> {
    let item = w.wants_to_use_item.at(i).unwrap().item;
    let targets = targets_of(w, i);
    let told = w.entities.entity_at(i) == w.player_entity;
    confusion_told(
        &w.entities,
        &w.names,
        w.causes_confusion.of(&w.entities, item),
        targets,
        item,
        told,
    ) + haste_told(
        &w.entities,
        &w.names,
        w.gives_movement_speed.of(&w.entities, item),
        targets,
        item,
        told,
    ) + healing_told(
        &w.entities,
        &w.names,
        &w.combat_stats,
        w.provides_healing.of(&w.entities, item),
        targets,
        item,
        told,
    ) + strike_told(
        &w.entities,
        &w.names,
        w.inflicts_damage.of(&w.entities, item),
        targets,
        item,
        told,
    ) + wear_told(
        &w.entities,
        &w.names,
        &w.equipped,
        w.equippable.of(&w.entities, item),
        targets,
        item,
        w.player_entity,
    )
}

/// `after` is `before` with the use intent of slot `i` carried out. Each
/// effect that the item has reaches every live target: confusion and speed
/// replace what the target had, healing raises hit points up to the
/// maximum, damage joins the queue. An item that can be worn goes to the
/// first target, in place of what that target wore in the same slot, which
/// goes to its backpack. If any of the first four effects is present the
/// item loses a charge. A slot without such an intent changes nothing.
pub open spec fn uses(before: &World, after: &World, i: int) -> bool {
    match before.wants_to_use_item.at(i) {
        None => *after == *before,
        Some(intent) => {
            let item = intent.item;
            let targets = targets_of(before, i);
            &&& *after == (World {
                is_confused: after.is_confused,
                has_movement_speed_modifier: after.has_movement_speed_modifier,
                combat_stats: after.combat_stats,
                suffers_damage: after.suffers_damage,
                equipped: after.equipped,
                in_backpack: after.in_backpack,
                consumables: after.consumables,
                gamelog: after.gamelog,
                ..*before
            })
            &&& confusion_part(
                &before.entities,
                before.causes_confusion.of(&before.entities, item),
                &before.is_confused,
                &after.is_confused,
                targets,
            )
            &&& haste_part(
                &before.entities,
                before.gives_movement_speed.of(&before.entities, item),
                &before.has_movement_speed_modifier,
                &after.has_movement_speed_modifier,
                targets,
            )
            &&& healing_part(
                &before.entities,
                before.provides_healing.of(&before.entities, item),
                &before.combat_stats,
                &after.combat_stats,
                targets,
            )
            &&& damage_part(
                &before.entities,
                before.inflicts_damage.of(&before.entities, item),
                &before.suffers_damage,
                &after.suffers_damage,
                targets,
            )
            &&& wear_part(
                before.equippable.of(&before.entities, item),
                item,
                targets,
                &before.equipped,
                &after.equipped,
            )
            &&& pack_part(
                before.equippable.of(&before.entities, item),
                item,
                targets,
                &before.equipped,
                &before.in_backpack,
                &after.in_backpack,
            )
            &&& charge_part(
                is_used(before, item),
                before.consumables.of(&before.entities, item),
                item,
                &before.consumables,
                &after.consumables,
            )
            &&& after.gamelog.entries@ == before.gamelog.entries@ + use_log(before, i)
        },
    }
}

/// Joining five pieces to a sequence one by one gives what joining their
/// concatenation gives.
proof fn lemma_join_five<T>(l: Seq<T>, a: Seq<T>, b: Seq<T>, c: Seq<T>, d: Seq<T>, e: Seq<T>)
    ensures
        ((((l + a) + b) + c) + d) + e == l + ((((a + b) + c) + d) + e),
{
    assert(((((l + a) + b) + c) + d) + e =~= l + ((((a + b) + c) + d) + e));
}

/// Appends the entities of `more` to `list`.
fn extend(list: &mut Vec<Entity>, more: &Vec<Entity>)
    ensures
        final(list)@ == old(list)@ + more@,
{
    let mut k: usize = 0;
    while k < more.len()
        invariant
            k <= more@.len(),
            list@ == old(list)@ + more@.subrange(0, k as int),
        decreases more@.len() - k,
    {
        list.push(more[k]);
        assert(more@.subrange(0, k as int + 1)
            == more@.subrange(0, k as int).push(more@[k as int]));
        k += 1;
    }
    assert(more@.subrange(0, more@.len() as int) == more@);
}

/// The occupants of the first `n` tiles that are among `seen`, tile by
/// tile in the order of the tile indices.
pub open spec fn occupants_among(map: &GameMap, seen: Seq<GridPoint>, n: int) -> Seq<Entity>
    decreases n,
{
    if n <= 0 {
        Seq::empty()
    } else {
        occupants_among(map, seen, n - 1) + (if seen.contains(
            GridPoint {
                x: ((n - 1) % (map.width as int)) as i32,
                y: ((n - 1) / (map.width as int)) as i32,
            },
        ) {
            map.tile_content@[n - 1]@
        } else {
            Seq::empty()
        })
    }
}

/// The occupants of the tiles among `seen`, tile by tile in the order of
/// the tile indices.
pub fn gather_occupants(map: &GameMap, seen: &Vec<GridPoint>) -> (r: Vec<Entity>)
    requires
        map.wf(),
        forall|k: int| 0 <= k < seen@.len() ==> map.in_bounds(seen@[k].x as int, seen@[k].y as int),
    ensures
        r@ == occupants_among(map, seen@, map.tile_count()),
{
    let mut found: Vec<Entity> = Vec::new();
    let mask = map.mask_of(seen);
    let n: usize = mask.len();
    let mut t: usize = 0;
    while t < n
        invariant
            map.wf(),
            n == map.tile_count(),
            t <= n,
            mask@.len() == n,
            forall|x: int, y: int|
                #![trigger mask@[map.idx_of(x, y)]]
                map.in_bounds(x, y) ==> mask@[map.idx_of(x, y)] == seen@.contains(
                    GridPoint { x: x as i32, y: y as i32 },
                ),
            found@ == occupants_among(map, seen@, t as int),
        decreases n - t,
    {
        let q = map.idx_point(t);
        proof {
            assert(mask@[map.idx_of(q.x as int, q.y as int)] == seen@.contains(q));
        }
        if mask[t] {
            extend(&mut found, &map.tile_content[t]);
        }
        t += 1;
    }
    found
}

/// Where `seen` holds what is seen from `center` within `radius`, the
/// occupants of the tiles among `seen` are those that the blast reaches.
pub proof fn lemma_blast_is_what_is_seen(
    map: &GameMap,
    seen: Seq<GridPoint>,
    center: GridPoint,
    radius: int,
    n: int,
)
    requires
        map.wf(),
        map.is_view_from(seen, center, radius),
        0 <= n <= map.tile_count(),
    ensures
        occupants_among(map, seen, n) == blast(map, center, radius, n),
    decreases n,
{
    if n > 0 {
        lemma_blast_is_what_is_seen(map, seen, center, radius, n - 1);
        crate::map::lemma_point_of_idx(map.width as int, map.height as int, n - 1);
        let x = (n - 1) % (map.width as int);
        let y = (n - 1) / (map.width as int);
        let p = GridPoint { x: x as i32, y: y as i32 };
        assert(seen.contains(p) == map.sees(center, radius, p.x as int, p.y as int));
    }
}

/// The use pass.
pub struct ItemUseSystem {}

impl ItemUseSystem {
    /// Whom the use intent of slot `i` reaches.
    pub fn find_targets(world: &World, i: usize, intent: &WantsToUseItem) -> (r: Vec<Entity>)
        requires
            world.wf(),
            world.wants_to_use_item.at(i as int) == Some(*intent),
        ensures
            r@ == targets_of(world, i as int),
    {
        let mut targets: Vec<Entity> = Vec::new();
        match intent.target {
            None => {
                targets.push(world.entities.entity(i));
            },
            Some(p) => {
                let radius: Option<i32> = match world.area_of_effect.get(
                    &world.entities,
                    intent.item,
                ) {
                    Some(aoe) => Some(aoe.radius),
                    None => None,
                };
                match radius {
                    None => {
                        if world.map.is_idx_valid(p.x, p.y) {
                            let idx = world.map.xy_idx(p.x, p.y);
                            extend(&mut targets, &world.map.tile_content[idx]);
                        }
                    },
                    Some(r) => {
                        let seen = world.map.visible_points(p, r);
                        targets = gather_occupants(&world.map, &seen);
                        proof {
                            lemma_blast_is_what_is_seen(
                                &world.map,
                                seen@,
                                p,
                                r as int,
                                world.map.tile_count(),
                            );
                        }
                    },
                }
            },
        }
        targets
    }

    /// Confuses every live target for `turns` turns.
    fn confuse(world: &mut World, targets: &Vec<Entity>, item: Entity, turns: i32, told: bool)
        requires
            old(world).wf(),
        ensures
            final(world).wf(),
            *final(world) == (World {
                is_confused: final(world).is_confused,
                gamelog: final(world).gamelog,
                ..*old(world)
            }),
            forall|j: int|
                #![trigger final(world).is_confused.at(j)]
                #![trigger old(world).is_confused.at(j)]
                final(world).is_confused.at(j) == (if hits(
                    &old(world).entities,
                    targets@,
                    j,
                    targets@.len() as int,
                ) > 0 {
                    Some(IsConfused { turns })
                } else {
                    old(world).is_confused.at(j)
                }),
            final(world).gamelog.entries@ == old(world).gamelog.entries@ + (if told {
                confusion_log(&old(world).entities, &old(world).names, targets@, item, turns,
                    targets@.len() as int)
            } else {
                Seq::empty()
            }),
    {
        let mut k: usize = 0;
        while k < targets.len()
            invariant
                world.wf(),
                k <= targets@.len(),
                *world == (World {
                    is_confused: world.is_confused,
                    gamelog: world.gamelog,
                    ..*old(world)
                }),
                forall|j: int|
                    #![trigger world.is_confused.at(j)]
                    #![trigger old(world).is_confused.at(j)]
                    world.is_confused.at(j) == (if hits(&old(world).entities, targets@, j, k as int)
                        > 0 {
                        Some(IsConfused { turns })
                    } else {
                        old(world).is_confused.at(j)
                    }),
                world.gamelog.entries@ == old(world).gamelog.entries@ + (if told {
                    confusion_log(&old(world).entities, &old(world).names, targets@, item, turns,
                        k as int)
                } else {
                    Seq::empty()
                }),
            decreases targets@.len() - k,
        {
            let target = targets[k];
            if world.is_confused.insert(&world.entities, target, IsConfused { turns }) {
                if told {
                    let entry = LogEntry::Confused {
                        item: world.name(item),
                        target: world.name(target),
                        turns,
                    };
                    world.gamelog.push(entry);
                }
            }
            k += 1;
        }
    }

    /// Gives every live target the speed `speed_modifier` for `turns` turns.
    fn hasten(
        world: &mut World,
        targets: &Vec<Entity>,
        item: Entity,
        speed_modifier: i32,
        turns: i32,
        told: bool,
    )
        requires
            old(world).wf(),
        ensures
            final(world).wf(),
            *final(world) == (World {
                has_movement_speed_modifier: final(world).has_movement_speed_modifier,
                gamelog: final(world).gamelog,
                ..*old(world)
            }),
            forall|j: int|
                #![trigger final(world).has_movement_speed_modifier.at(j)]
                #![trigger old(world).has_movement_speed_modifier.at(j)]
                final(world).has_movement_speed_modifier.at(j) == (if hits(
                    &old(world).entities,
                    targets@,
                    j,
                    targets@.len() as int,
                ) > 0 {
                    Some(HasMovementSpeedModifier { speed_modifier, max_turns: turns,
                        turns_used: 0 })
                } else {
                    old(world).has_movement_speed_modifier.at(j)
                }),
            final(world).gamelog.entries@ == old(world).gamelog.entries@ + (if told {
                haste_log(&old(world).entities, &old(world).names, targets@, item, speed_modifier,
                    turns, targets@.len() as int)
            } else {
                Seq::empty()
            }),
    {
        let mut k: usize = 0;
        while k < targets.len()
            invariant
                world.wf(),
                k <= targets@.len(),
                *world == (World {
                    has_movement_speed_modifier: world.has_movement_speed_modifier,
                    gamelog: world.gamelog,
                    ..*old(world)
                }),
                forall|j: int|
                    #![trigger world.has_movement_speed_modifier.at(j)]
                    #![trigger old(world).has_movement_speed_modifier.at(j)]
                    world.has_movement_speed_modifier.at(j) == (if hits(
                        &old(world).entities,
                        targets@,
                        j,
                        k as int,
                    ) > 0 {
                        Some(
                            HasMovementSpeedModifier {
                                speed_modifier,
                                max_turns: turns,
                                turns_used: 0,
                            },
                        )
                    } else {
                        old(world).has_movement_speed_modifier.at(j)
                    }),
                world.gamelog.entries@ == old(world).gamelog.entries@ + (if told {
                    haste_log(&old(world).entities, &old(world).names, targets@, item,
                        speed_modifier, turns, k as int)
                } else {
                    Seq::empty()
                }),
            decreases targets@.len() - k,
        {
            let target = targets[k];
            if world.has_movement_speed_modifier.insert(
                &world.entities,
                target,
                HasMovementSpeedModifier { speed_modifier, max_turns: turns, turns_used: 0 },
            ) {
                if told {
                    let entry = LogEntry::Hastened { item: world.name(item), speed_modifier,
                        turns };
                    world.gamelog.push(entry);
                }
            }
            k += 1;
        }
    }

    /// Heals every live target that has hit points by `heal_amount`, up to
    /// its maximum.
    fn heal(world: &mut World, targets: &Vec<Entity>, item: Entity, heal_amount: i32, told: bool)
        requires
            old(world).wf(),
        ensures
            final(world).wf(),
            *final(world) == (World {
                combat_stats: final(world).combat_stats,
                gamelog: final(world).gamelog,
                ..*old(world)
            }),
            forall|j: int|
                #![trigger final(world).combat_stats.at(j)]
                #![trigger old(world).combat_stats.at(j)]
                final(world).combat_stats.at(j) == (match old(world).combat_stats.at(j) {
                    Some(s) => Some(
                        heal_times(
                            s,
                            heal_amount as int,
                            hits(&old(world).entities, targets@, j, targets@.len() as int),
                        ),
                    ),
                    None => None,
                }),
            final(world).gamelog.entries@ == old(world).gamelog.entries@ + (if told {
                healing_log(
                    &old(world).entities,
                    &old(world).names,
                    &old(world).combat_stats,
                    targets@, item, heal_amount, targets@.len() as int)
            } else {
                Seq::empty()
            }),
    {
        let mut k: usize = 0;
        while k < targets.len()
            invariant
                world.wf(),
                k <= targets@.len(),
                *world == (World {
                    combat_stats: world.combat_stats,
                    gamelog: world.gamelog,
                    ..*old(world)
                }),
                forall|j: int|
                    #![trigger world.combat_stats.at(j)]
                    #![trigger old(world).combat_stats.at(j)]
                    world.combat_stats.at(j) == (match old(world).combat_stats.at(j) {
                        Some(s) => Some(
                            heal_times(
                                s,
                                heal_amount as int,
                                hits(&old(world).entities, targets@, j, k as int),
                            ),
                        ),
                        None => None,
                    }),
                world.gamelog.entries@ == old(world).gamelog.entries@ + (if told {
                    healing_log(
                    &old(world).entities,
                    &old(world).names,
                    &old(world).combat_stats,
                    targets@, item, heal_amount, k as int)
                } else {
                    Seq::empty()
                }),
            decreases targets@.len() - k,
        {
            let target = targets[k];
            let stats: Option<CombatStats> = match world.combat_stats.get(&world.entities, target) {
                Some(s) => Some(*s),
                None => None,
            };
            proof {
                assert(world.combat_stats.at(target.id as int) is Some
                    == old(world).combat_stats.at(target.id as int) is Some);
            }
            if let Some(s) = stats {
                let raised: i64 = s.hp as i64 + heal_amount as i64;
                let hp: i32 = saturate(if raised < s.max_hp as i64 {
                    raised
                } else {
                    s.max_hp as i64
                });
                world.combat_stats.set(target.id, CombatStats { hp, ..s });
                if told {
                    let entry = LogEntry::Healed { item: world.name(item), heal_amount };
                    world.gamelog.push(entry);
                }
            }
            k += 1;
        }
    }

    /// Queues `damage` for every live target.
    fn strike(world: &mut World, targets: &Vec<Entity>, item: Entity, damage: i32, told: bool)
        requires
            old(world).wf(),
        ensures
            final(world).wf(),
            *final(world) == (World {
                suffers_damage: final(world).suffers_damage,
                gamelog: final(world).gamelog,
                ..*old(world)
            }),
            forall|j: int|
                #![trigger final(world).suffers_damage.at(j)]
                #![trigger old(world).suffers_damage.at(j)]
                hits(&old(world).entities, targets@, j, targets@.len() as int) == 0
                    ==> final(world).suffers_damage.at(j) == old(world).suffers_damage.at(j),
            forall|j: int|
                #![trigger final(world).suffers_damage.at(j)]
                #![trigger old(world).suffers_damage.at(j)]
                hits(&old(world).entities, targets@, j, targets@.len() as int) > 0
                    ==> final(world).suffers_damage.has(j)
                        && pending_damage(&final(world).suffers_damage, j)
                    == pending_damage(&old(world).suffers_damage, j) + repeated(
                    damage,
                    hits(&old(world).entities, targets@, j, targets@.len() as int),
                ),
            final(world).gamelog.entries@ == old(world).gamelog.entries@ + (if told {
                strike_log(&old(world).entities, &old(world).names, targets@, item, damage,
                    targets@.len() as int)
            } else {
                Seq::empty()
            }),
    {
        let mut k: usize = 0;
        while k < targets.len()
            invariant
                world.wf(),
                k <= targets@.len(),
                *world == (World {
                    suffers_damage: world.suffers_damage,
                    gamelog: world.gamelog,
                    ..*old(world)
                }),
                forall|j: int|
                    #![trigger world.suffers_damage.at(j)]
                    #![trigger old(world).suffers_damage.at(j)]
                    hits(&old(world).entities, targets@, j, k as int) == 0
                        ==> world.suffers_damage.at(j) == old(world).suffers_damage.at(j),
                forall|j: int|
                    #![trigger world.suffers_damage.at(j)]
                    #![trigger old(world).suffers_damage.at(j)]
                    hits(&old(world).entities, targets@, j, k as int) > 0
                        ==> world.suffers_damage.has(j) && pending_damage(&world.suffers_damage, j)
                        == pending_damage(&old(world).suffers_damage, j) + repeated(
                        damage,
                        hits(&old(world).entities, targets@, j, k as int),
                    ),
                world.gamelog.entries@ == old(world).gamelog.entries@ + (if told {
                    strike_log(&old(world).entities, &old(world).names, targets@, item, damage,
                        k as int)
                } else {
                    Seq::empty()
                }),
            decreases targets@.len() - k,
        {
            let target = targets[k];
            let ghost before = *world;
            if world.entities.is_entity_alive(target) {
                SuffersDamage::new_damage(&mut world.suffers_damage, &world.entities, target,
                    damage);
                proof {
                    let t = target.id as int;
                    let h = hits(&old(world).entities, targets@, t, k as int);
                    assert(repeated(damage, h + 1) == repeated(damage, h).push(damage));
                    if h == 0 {
                        assert(repeated(damage, 0) == Seq::<i32>::empty());
                        assert(pending_damage(&before.suffers_damage, t) == pending_damage(
                            &old(world).suffers_damage,
                            t,
                        ));
                    }
                    assert(pending_damage(&world.suffers_damage, t) == pending_damage(
                        &old(world).suffers_damage,
                        t,
                    ) + repeated(damage, h + 1));
                }
                if told {
                    let entry = LogEntry::Struck {
                        item: world.name(item),
                        target: world.name(target),
                        damage,
                    };
                    world.gamelog.push(entry);
                }
            }
            k += 1;
        }
    }

    /// Puts `item` on `wearer` in `slot`. What `wearer` wore there goes to
    /// its backpack.
    fn equip(world: &mut World, item: Entity, wearer: Entity, slot: EquipmentSlot)
        requires
            old(world).wf(),
            old(world).entities.is_alive(item),
        ensures
            final(world).wf(),
            *final(world) == (World {
                equipped: final(world).equipped,
                in_backpack: final(world).in_backpack,
                gamelog: final(world).gamelog,
                ..*old(world)
            }),
            forall|j: int|
                #![trigger final(world).equipped.at(j)]
                #![trigger old(world).equipped.at(j)]
                final(world).equipped.at(j) == (if j == item.id {
                    Some(Equipped { owner: wearer, slot })
                } else if worn_by(&old(world).equipped, j, wearer, slot) {
                    None
                } else {
                    old(world).equipped.at(j)
                }),
            forall|j: int|
                #![trigger final(world).in_backpack.at(j)]
                #![trigger old(world).in_backpack.at(j)]
                final(world).in_backpack.at(j) == (if j == item.id {
                    None
                } else if worn_by(&old(world).equipped, j, wearer, slot) {
                    Some(InBackpack { owner: wearer })
                } else {
                    old(world).in_backpack.at(j)
                }),
            final(world).gamelog.entries@ == old(world).gamelog.entries@ + (if wearer
                == old(world).player_entity {
                unequip_log(
                    &old(world).entities,
                    &old(world).names,
                    &old(world).equipped,
                    wearer,
                    slot,
                    old(world).equipped.slots@.len() as int,
                ).push(
                    LogEntry::Equipped {
                        item: name_in(&old(world).entities, &old(world).names, item),
                    },
                )
            } else {
                Seq::empty()
            }),
    {
        let told: bool = wearer == world.player_entity;
        let n: usize = world.equipped.len();
        let mut j: usize = 0;
        while j < n
            invariant
                old(world).wf(),
                world.wf(),
                old(world).entities.is_alive(item),
                told == (wearer == old(world).player_entity),
                n == old(world).equipped.slots@.len(),
                n == world.equipped.slots@.len(),
                j <= n,
                *world == (World {
                    equipped: world.equipped,
                    in_backpack: world.in_backpack,
                    gamelog: world.gamelog,
                    ..*old(world)
                }),
                forall|q: int|
                    #![trigger world.equipped.at(q)]
                    #![trigger old(world).equipped.at(q)]
                    world.equipped.at(q) == (if q < j && worn_by(
                        &old(world).equipped,
                        q,
                        wearer,
                        slot,
                    ) {
                        None
                    } else {
                        old(world).equipped.at(q)
                    }),
                forall|q: int|
                    #![trigger world.in_backpack.at(q)]
                    #![trigger old(world).in_backpack.at(q)]
                    world.in_backpack.at(q) == (if q < j && worn_by(
                        &old(world).equipped,
                        q,
                        wearer,
                        slot,
                    ) {
                        Some(InBackpack { owner: wearer })
                    } else {
                        old(world).in_backpack.at(q)
                    }),
                world.gamelog.entries@ == old(world).gamelog.entries@ + (if told {
                    unequip_log(
                        &old(world).entities,
                        &old(world).names,
                        &old(world).equipped,
                        wearer,
                        slot,
                        j as int,
                    )
                } else {
                    Seq::empty()
                }),
            decreases n - j,
        {
            let worn: bool = match world.equipped.slot(j) {
                Some(e) => e.owner == wearer && e.slot == slot,
                None => false,
            };
            proof {
                assert(world.equipped.at(j as int) == old(world).equipped.at(j as int));
            }
            if worn {
                world.equipped.unset(j);
                world.in_backpack.set(j, InBackpack { owner: wearer });
                if told {
                    let taken = world.entities.entity(j);
                    let entry = LogEntry::Unequipped { item: world.name(taken) };
                    world.gamelog.push(entry);
                }
            }
            j += 1;
        }
        world.equipped.insert(&world.entities, item, Equipped { owner: wearer, slot });
        world.in_backpack.remove(&world.entities, item);
        if told {
            let entry = LogEntry::Equipped { item: world.name(item) };
            world.gamelog.push(entry);
        }
    }

    /// Takes one charge off `item`, and says whether that was the last.
    fn consume(world: &mut World, item: Entity) -> (spent: bool)
        requires
            old(world).wf(),
        ensures
            final(world).wf(),
            *final(world) == (World { consumables: final(world).consumables, ..*old(world) }),
            forall|j: int|
                #![trigger final(world).consumables.at(j)]
                #![trigger old(world).consumables.at(j)]
                final(world).consumables.at(j) == (match old(world).consumables.of(
                    &old(world).entities,
                    item,
                ) {
                    Some(c) if j == item.id => Some(
                        Consumable { charges: clamp(c.charges - 1) as i32 },
                    ),
                    _ => old(world).consumables.at(j),
                }),
            spent == (match old(world).consumables.of(&old(world).entities, item) {
                Some(c) => c.charges - 1 <= 0,
                None => false,
            }),
    {
        let charges: i32 = match world.consumables.get(&world.entities, item) {
            Some(c) => c.charges,
            None => {
                return false;
            },
        };
        let left: i32 = saturate(charges as i64 - 1);
        world.consumables.set(item.id, Consumable { charges: left });
        left <= 0
    }

    fn stage_confusion(world: &mut World, targets: &Vec<Entity>, item: Entity, told: bool) -> (used:
        bool)
        requires
            old(world).wf(),
        ensures
            final(world).wf(),
            *final(world) == (World {
                is_confused: final(world).is_confused,
                gamelog: final(world).gamelog,
                ..*old(world)
            }),
            used == (old(world).causes_confusion.of(&old(world).entities, item) is Some),
            confusion_part(
                &old(world).entities,
                old(world).causes_confusion.of(&old(world).entities, item),
                &old(world).is_confused,
                &final(world).is_confused,
                targets@,
            ),
            final(world).gamelog.entries@ == old(world).gamelog.entries@ + confusion_told(
                &old(world).entities,
                &old(world).names,
                old(world).causes_confusion.of(&old(world).entities, item),
                targets@,
                item,
                told,
            ),
    {
        let tag: Option<i32> = match world.causes_confusion.get(&world.entities, item) {
            Some(c) => Some(c.turns),
            None => None,
        };
        match tag {
            Some(turns) => {
                Self::confuse(world, targets, item, turns, told);
                true
            },
            None => {
                assert(world.gamelog.entries@ + Seq::<LogEntry>::empty() == world.gamelog.entries@);
                false
            },
        }
    }

    fn stage_haste(world: &mut World, targets: &Vec<Entity>, item: Entity, told: bool) -> (used:
        bool)
        requires
            old(world).wf(),
        ensures
            final(world).wf(),
            *final(world) == (World {
                has_movement_speed_modifier: final(world).has_movement_speed_modifier,
                gamelog: final(world).gamelog,
                ..*old(world)
            }),
            used == (old(world).gives_movement_speed.of(&old(world).entities, item) is Some),
            haste_part(
                &old(world).entities,
                old(world).gives_movement_speed.of(&old(world).entities, item),
                &old(world).has_movement_speed_modifier,
                &final(world).has_movement_speed_modifier,
                targets@,
            ),
            final(world).gamelog.entries@ == old(world).gamelog.entries@ + haste_told(
                &old(world).entities,
                &old(world).names,
                old(world).gives_movement_speed.of(&old(world).entities, item),
                targets@,
                item,
                told,
            ),
    {
        let tag: Option<(i32, i32)> = match world.gives_movement_speed.get(&world.entities, item) {
            Some(g) => Some((g.speed_modifier, g.turns)),
            None => None,
        };
        match tag {
            Some((speed_modifier, turns)) => {
                Self::hasten(world, targets, item, speed_modifier, turns, told);
                true
            },
            None => {
                assert(world.gamelog.entries@ + Seq::<LogEntry>::empty() == world.gamelog.entries@);
                false
            },
        }
    }

    fn stage_healing(world: &mut World, targets: &Vec<Entity>, item: Entity, told: bool) -> (used:
        bool)
        requires
            old(world).wf(),
        ensures
            final(world).wf(),
            *final(world) == (World {
                combat_stats: final(world).combat_stats,
                gamelog: final(world).gamelog,
                ..*old(world)
            }),
            used == (old(world).provides_healing.of(&old(world).entities, item) is Some),
            healing_part(
                &old(world).entities,
                old(world).provides_healing.of(&old(world).entities, item),
                &old(world).combat_stats,
                &final(world).combat_stats,
                targets@,
            ),
            final(world).gamelog.entries@ == old(world).gamelog.entries@ + healing_told(
                &old(world).entities,
                &old(world).names,
                &old(world).combat_stats,
                old(world).provides_healing.of(&old(world).entities, item),
                targets@,
                item,
                told,
            ),
    {
        let tag: Option<i32> = match world.provides_healing.get(&world.entities, item) {
            Some(h) => Some(h.heal_amount),
            None => None,
        };
        match tag {
            Some(heal_amount) => {
                Self::heal(world, targets, item, heal_amount, told);
                true
            },
            None => {
                assert(world.gamelog.entries@ + Seq::<LogEntry>::empty() == world.gamelog.entries@);
                false
            },
        }
    }

    fn stage_damage(world: &mut World, targets: &Vec<Entity>, item: Entity, told: bool) -> (used:
        bool)
        requires
            old(world).wf(),
        ensures
            final(world).wf(),
            *final(world) == (World {
                suffers_damage: final(world).suffers_damage,
                gamelog: final(world).gamelog,
                ..*old(world)
            }),
            used == (old(world).inflicts_damage.of(&old(world).entities, item) is Some),
            damage_part(
                &old(world).entities,
                old(world).inflicts_damage.of(&old(world).entities, item),
                &old(world).suffers_damage,
                &final(world).suffers_damage,
                targets@,
            ),
            final(world).gamelog.entries@ == old(world).gamelog.entries@ + strike_told(
                &old(world).entities,
                &old(world).names,
                old(world).inflicts_damage.of(&old(world).entities, item),
                targets@,
                item,
                told,
            ),
    {
        let tag: Option<i32> = match world.inflicts_damage.get(&world.entities, item) {
            Some(d) => Some(d.damage),
            None => None,
        };
        match tag {
            Some(damage) => {
                Self::strike(world, targets, item, damage, told);
                true
            },
            None => {
                assert(world.gamelog.entries@ + Seq::<LogEntry>::empty() == world.gamelog.entries@);
                false
            },
        }
    }

    fn stage_wear(world: &mut World, targets: &Vec<Entity>, item: Entity)
        requires
            old(world).wf(),
        ensures
            final(world).wf(),
            *final(world) == (World {
                equipped: final(world).equipped,
                in_backpack: final(world).in_backpack,
                gamelog: final(world).gamelog,
                ..*old(world)
            }),
            wear_part(
                old(world).equippable.of(&old(world).entities, item),
                item,
                targets@,
                &old(world).equipped,
                &final(world).equipped,
            ),
            pack_part(
                old(world).equippable.of(&old(world).entities, item),
                item,
                targets@,
                &old(world).equipped,
                &old(world).in_backpack,
                &final(world).in_backpack,
            ),
            final(world).gamelog.entries@ == old(world).gamelog.entries@ + wear_told(
                &old(world).entities,
                &old(world).names,
                &old(world).equipped,
                old(world).equippable.of(&old(world).entities, item),
                targets@,
                item,
                old(world).player_entity,
            ),
    {
        let tag: Option<EquipmentSlot> = match world.equippable.get(&world.entities, item) {
            Some(q) => Some(q.slot),
            None => None,
        };
        match tag {
            Some(slot) => {
                if targets.len() > 0 {
                    Self::equip(world, item, targets[0], slot);
                } else {
                    assert(world.gamelog.entries@ + Seq::<LogEntry>::empty()
                        == world.gamelog.entries@);
                }
            },
            None => {
                assert(world.gamelog.entries@ + Seq::<LogEntry>::empty() == world.gamelog.entries@);
            },
        }
    }

    fn stage_charge(world: &mut World, item: Entity, used: bool) -> (spent: bool)
        requires
            old(world).wf(),
        ensures
            final(world).wf(),
            *final(world) == (World { consumables: final(world).consumables, ..*old(world) }),
            charge_part(
                used,
                old(world).consumables.of(&old(world).entities, item),
                item,
                &old(world).consumables,
                &final(world).consumables,
            ),
            spent == (used && match old(world).consumables.of(&old(world).entities, item) {
                Some(c) => c.charges - 1 <= 0,
                None => false,
            }),
    {
        if used {
            Self::consume(world, item)
        } else {
            false
        }
    }

    /// Carries out the use intent of slot `i`, if there is one, and returns
    /// the item if its last charge was taken.
    pub fn apply(world: &mut World, i: usize) -> (spent: Option<Entity>)
        requires
            old(world).wf(),
        ensures
            final(world).wf(),
            uses(old(world), final(world), i as int),
            spent == (match old(world).wants_to_use_item.at(i as int) {
                Some(intent) if is_spent(old(world), intent.item) => Some(intent.item),
                _ => None,
            }),
    {
        let intent: WantsToUseItem = match world.wants_to_use_item.slot(i) {
            Some(u) => *u,
            None => {
                return None;
            },
        };
        let item = intent.item;
        let user = world.entities.entity(i);
        let told: bool = user == world.player_entity;
        let targets = Self::find_targets(world, i, &intent);
        let ghost l0 = world.gamelog.entries@;
        let confused: bool = Self::stage_confusion(world, &targets, item, told);
        let ghost l1 = world.gamelog.entries@;
        let hastened: bool = Self::stage_haste(world, &targets, item, told);
        let ghost l2 = world.gamelog.entries@;
        let healed: bool = Self::stage_healing(world, &targets, item, told);
        let ghost l3 = world.gamelog.entries@;
        let struck: bool = Self::stage_damage(world, &targets, item, told);
        let ghost l4 = world.gamelog.entries@;
        Self::stage_wear(world, &targets, item);
        let used: bool = confused || hastened || healed || struck;
        let spent: bool = Self::stage_charge(world, item, used);
        proof {
            let w = old(world);
            lemma_join_five(
                l0,
                confusion_told(
                    &w.entities,
                    &w.names,
                    w.causes_confusion.of(&w.entities, item),
                    targets@,
                    item,
                    told,
                ),
                haste_told(
                    &w.entities,
                    &w.names,
                    w.gives_movement_speed.of(&w.entities, item),
                    targets@,
                    item,
                    told,
                ),
                healing_told(
                    &w.entities,
                    &w.names,
                    &w.combat_stats,
                    w.provides_healing.of(&w.entities, item),
                    targets@,
                    item,
                    told,
                ),
                strike_told(
                    &w.entities,
                    &w.names,
                    w.inflicts_damage.of(&w.entities, item),
                    targets@,
                    item,
                    told,
                ),
                wear_told(
                    &w.entities,
                    &w.names,
                    &w.equipped,
                    w.equippable.of(&w.entities, item),
                    targets@,
                    item,
                    w.player_entity,
                ),
            );
        }
        if spent {
            Some(item)
        } else {
            None
        }
    }

    /// Link `k` of `trace` is the step of slot `k`.
    pub open spec fn link(trace: Seq<World>, k: int) -> bool {
        uses(&trace[k], &trace[k + 1], k)
    }

    /// Step `k` of `trace` takes the last charge of the item in slot `j`.
    pub open spec fn spent_at(trace: Seq<World>, k: int, j: int) -> bool {
        match trace[k].wants_to_use_item.at(k) {
            Some(intent) => intent.item.id == j && is_spent(&trace[k], intent.item),
            None => false,
        }
    }

    /// The slots of the items whose last charge one of the first `n` steps
    /// of `trace` takes.
    pub open spec fn spent_slots(trace: Seq<World>, n: int) -> Set<int> {
        Set::new(|j: int| exists|k: int| 0 <= k < n && #[trigger] Self::spent_at(trace, k, j))
    }

    /// `trace` leads from `before` to `after`: one step per slot; then every
    /// use intent is dropped; then the items that lost their last charge
    /// are deleted.
    pub open spec fn is_run(before: &World, after: &World, trace: Seq<World>) -> bool {
        let n = before.wants_to_use_item.slots@.len() as int;
        &&& trace.len() == n + 2
        &&& trace[0] == *before
        &&& forall|k: int| 0 <= k < n ==> #[trigger] Self::link(trace, k)
        &&& trace[n + 1] == (World {
            wants_to_use_item: trace[n + 1].wants_to_use_item,
            ..trace[n]
        })
        &&& trace[n + 1].wants_to_use_item.is_clear()
        &&& after.is_without(&trace[n + 1], Self::spent_slots(trace, n))
    }

    /// `after` is `before` after the use pass: no use intent is left; some
    /// run leads from `before` to `after`; the log has only grown; the
    /// other intents are as they were, but for those of deleted items; and
    /// of the resources only the log can have changed.
    pub open spec fn ran(before: &World, after: &World) -> bool {
        &&& after.wants_to_use_item.is_clear()
        &&& after.same_resources(&(World { gamelog: after.gamelog, ..*before }))
        &&& before.gamelog.entries@.is_prefix_of(after.gamelog.entries@)
        &&& forall|j: int|
            #![trigger after.wants_to_melee.at(j)]
            after.wants_to_melee.at(j) is Some ==> after.wants_to_melee.at(j)
            == before.wants_to_melee.at(j)
        &&& forall|j: int|
            #![trigger after.wants_to_pickup_item.at(j)]
            after.wants_to_pickup_item.at(j) is Some ==> after.wants_to_pickup_item.at(j)
            == before.wants_to_pickup_item.at(j)
        &&& forall|j: int|
            #![trigger after.wants_to_drop_item.at(j)]
            after.wants_to_drop_item.at(j) is Some ==> after.wants_to_drop_item.at(j)
            == before.wants_to_drop_item.at(j)
        &&& forall|j: int|
            #![trigger after.wants_to_unequip_item.at(j)]
            after.wants_to_unequip_item.at(j) is Some ==> after.wants_to_unequip_item.at(j)
            == before.wants_to_unequip_item.at(j)
        &&& exists|trace: Seq<World>| #[trigger] Self::is_run(before, after, trace)
    }

    /// Carries out every use intent, lowest slot first, drops them all, and
    /// deletes the items that lost their last charge.
    pub fn run(&mut self, world: &mut World)
        requires
            old(world).wf(),
        ensures
            final(world).wf(),
            Self::ran(old(world), final(world)),
    {
        let n: usize = world.wants_to_use_item.len();
        let ghost mut trace: Seq<World> = seq![*world];
        let mut doomed: Vec<Entity> = Vec::new();
        let mut i: usize = 0;
        while i < n
            invariant
                world.wf(),
                i <= n,
                n == old(world).wants_to_use_item.slots@.len(),
                world.wants_to_use_item == old(world).wants_to_use_item,
                world.entities == old(world).entities,
                world.wants_to_melee == old(world).wants_to_melee,
                world.wants_to_pickup_item == old(world).wants_to_pickup_item,
                world.wants_to_drop_item == old(world).wants_to_drop_item,
                world.wants_to_unequip_item == old(world).wants_to_unequip_item,
                world.same_resources(&(World { gamelog: world.gamelog, ..*old(world) })),
                old(world).gamelog.entries@.is_prefix_of(world.gamelog.entries@),
                trace.len() == i + 1,
                trace[0] == *old(world),
                trace.last() == *world,
                forall|k: int| 0 <= k < i ==> #[trigger] Self::link(trace, k),
                forall|q: int|
                    0 <= q < doomed@.len() ==> world.entities.is_alive(#[trigger] doomed@[q])
                        && Self::spent_slots(trace, i as int).contains(doomed@[q].id as int),
                forall|k: int, j: int|
                    0 <= k < i && #[trigger] Self::spent_at(trace, k, j) ==> exists|q: int|
                        0 <= q < doomed@.len() && (#[trigger] doomed@[q]).id == j,
            decreases n - i,
        {
            let ghost before = *world;
            let ghost listed = doomed@;
            let ghost logged = world.gamelog.entries@;
            let spent = Self::apply(world, i);
            assert(logged.is_prefix_of(world.gamelog.entries@));
            proof {
                let longer = trace.push(*world);
                assert(longer[i as int] == before);
                assert forall|k: int| 0 <= k < i + 1 implies #[trigger] Self::link(longer, k) by {
                    if k < i {
                        assert(Self::link(trace, k));
                        assert(longer[k] == trace[k]);
                        assert(longer[k + 1] == trace[k + 1]);
                    }
                }
                assert forall|k: int, j: int| 0 <= k < i implies Self::spent_at(longer, k, j)
                    == Self::spent_at(trace, k, j) by {
                    assert(longer[k] == trace[k]);
                }
                assert forall|q: int| 0 <= q < listed.len() implies Self::spent_slots(
                    longer,
                    i as int + 1,
                ).contains((#[trigger] listed[q]).id as int) by {
                    let j = listed[q].id as int;
                    let k = choose|k: int| 0 <= k < i && #[trigger] Self::spent_at(trace, k, j);
                    assert(Self::spent_at(longer, k, j));
                }
                trace = longer;
            }
            match spent {
                Some(item) => {
                    doomed.push(item);
                    proof {
                        assert(Self::spent_at(trace, i as int, item.id as int));
                        assert forall|q: int| 0 <= q < doomed@.len()
                            implies world.entities.is_alive(
                            #[trigger] doomed@[q],
                        ) && Self::spent_slots(trace, i as int + 1).contains(
                            doomed@[q].id as int,
                        ) by {
                            if q < listed.len() {
                                assert(doomed@[q] == listed[q]);
                            }
                        }
                        assert forall|k: int, j: int|
                            0 <= k < i + 1 && #[trigger] Self::spent_at(trace, k, j) implies exists|
                            q: int,
                        | 0 <= q < doomed@.len() && (#[trigger] doomed@[q]).id == j by {
                            if k < i {
                                let q = choose|q: int|
                                    0 <= q < listed.len() && (#[trigger] listed[q]).id == j;
                                assert(doomed@[q] == listed[q]);
                            } else {
                                assert(doomed@[listed.len() as int] == item);
                            }
                        }
                    }
                },
                None => {},
            }
            i += 1;
        }
        world.wants_to_use_item.clear();
        let ghost steps = trace;
        let ghost cleared = *world;
        proof {
            trace = steps.push(cleared);
        }
        world.delete_entities(&doomed);
        proof {
            let m = n as int;
            assert(trace[m + 1] == cleared);
            assert(trace[m] == steps[m]);
            assert forall|k: int| 0 <= k < m implies #[trigger] Self::link(trace, k) by {
                assert(Self::link(steps, k));
                assert(trace[k] == steps[k] && trace[k + 1] == steps[k + 1]);
            }
            assert forall|k: int, j: int| 0 <= k < m implies Self::spent_at(trace, k, j)
                == Self::spent_at(steps, k, j) by {
                assert(trace[k] == steps[k]);
            }
            assert(cleared.slots_of(doomed@) =~= Self::spent_slots(trace, m)) by {
                assert forall|j: int|
                    cleared.slots_of(doomed@).contains(j) == Self::spent_slots(trace, m).contains(
                        j,
                    ) by {
                    if cleared.slots_of(doomed@).contains(j) {
                        let q = choose|q: int|
                            0 <= q < doomed@.len() && (#[trigger] doomed@[q]).id == j
                                && cleared.entities.is_alive(doomed@[q]);
                        assert(Self::spent_slots(steps, m).contains(doomed@[q].id as int));
                        let k = choose|k: int| 0 <= k < m && #[trigger] Self::spent_at(steps, k, j);
                        assert(Self::spent_at(trace, k, j));
                    }
                    if Self::spent_slots(trace, m).contains(j) {
                        let k = choose|k: int| 0 <= k < m && #[trigger] Self::spent_at(trace, k, j);
                        assert(Self::spent_at(steps, k, j));
                        let q = choose|q: int|
                            0 <= q < doomed@.len() && (#[trigger] doomed@[q]).id == j;
                        assert(cleared.entities.is_alive(doomed@[q]));
                    }
                }
            }
            assert(Self::is_run(old(world), world, trace));
            assert forall|j: int|
                #![trigger world.wants_to_melee.at(j)]
                world.wants_to_melee.at(j) is Some implies world.wants_to_melee.at(j)
                    == old(world).wants_to_melee.at(j) by {
                assert(world.same_slot(&cleared, j) || world.slot_is_bare(j));
            }
            assert forall|j: int|
                #![trigger world.wants_to_pickup_item.at(j)]
                world.wants_to_pickup_item.at(j) is Some implies world.wants_to_pickup_item.at(j)
                == old(world).wants_to_pickup_item.at(j) by {
                assert(world.same_slot(&cleared, j) || world.slot_is_bare(j));
            }
            assert forall|j: int|
                #![trigger world.wants_to_drop_item.at(j)]
                world.wants_to_drop_item.at(j) is Some implies world.wants_to_drop_item.at(j)
                == old(world).wants_to_drop_item.at(j) by {
                assert(world.same_slot(&cleared, j) || world.slot_is_bare(j));
            }
            assert forall|j: int|
                #![trigger world.wants_to_unequip_item.at(j)]
                world.wants_to_unequip_item.at(j) is Some implies world.wants_to_unequip_item.at(j)
                == old(world).wants_to_unequip_item.at(j) by {
                assert(world.same_slot(&cleared, j) || world.slot_is_bare(j));
            }
            assert forall|j: int| #[trigger] world.wants_to_use_item.at(j) is None by {
                assert(world.same_slot(&cleared, j) || world.slot_is_bare(j));
            }
        }
    }
}

/// An item that has none of the four effects that count as a use keeps its
/// charges.
pub proof fn lemma_unused_item_keeps_charges(before: &World, after: &World, i: int, j: int)
    requires
        uses(before, after, i),
        match before.wants_to_use_item.at(i) {
            Some(intent) => !is_used(before, intent.item),
            None => true,
        },
    ensures
        after.consumables.at(j) == before.consumables.at(j),
{
}

/// A use takes exactly one charge off a consumable that has one of the
/// four effects, whomever the effects reach.
pub proof fn lemma_used_item_loses_one_charge(before: &World, after: &World, i: int)
    requires
        uses(before, after, i),
        before.wants_to_use_item.at(i) is Some,
        is_used(before, before.wants_to_use_item.at(i).unwrap().item),
        before.consumables.of(&before.entities,
            before.wants_to_use_item.at(i).unwrap().item) is Some,
    ensures
        ({
            let item = before.wants_to_use_item.at(i).unwrap().item;
            after.consumables.at(item.id as int) == Some(
                Consumable {
                    charges: clamp(before.consumables.at(item.id as int).unwrap(
                        ).charges - 1) as i32,
                },
            )
        }),
{
}

/// After the use pass, an item whose last charge was taken by some step of
/// the pass exists no longer.
pub proof fn lemma_spent_item_is_deleted(
    before: &World,
    after: &World,
    trace: Seq<World>,
    k: int,
)
    requires
        ItemUseSystem::is_run(before, after, trace),
        0 <= k < before.wants_to_use_item.slots@.len(),
        trace[k].wants_to_use_item.at(k) is Some,
        is_spent(&trace[k], trace[k].wants_to_use_item.at(k).unwrap().item),
    ensures
        !after.entities.slot_alive(trace[k].wants_to_use_item.at(k).unwrap().item.id as int),
        after.slot_is_bare(trace[k].wants_to_use_item.at(k).unwrap().item.id as int),
{
    let n = before.wants_to_use_item.slots@.len() as int;
    let j = trace[k].wants_to_use_item.at(k).unwrap().item.id as int;
    assert(ItemUseSystem::spent_at(trace, k, j));
    assert(ItemUseSystem::spent_slots(trace, n).contains(j));
}

/// The first step of the use pass works on the world as the pass found it:
/// a consumable with one charge left that is used by the lowest slot that
/// holds a use intent exists no longer after the pass.
pub proof fn lemma_last_charge_deletes_item(before: &World, after: &World, trace: Seq<World>,
    k: int)
    requires
        ItemUseSystem::is_run(before, after, trace),
        0 <= k < before.wants_to_use_item.slots@.len(),
        forall|q: int| 0 <= q < k ==> before.wants_to_use_item.at(q) is None,
        before.wants_to_use_item.at(k) is Some,
        is_used(before, before.wants_to_use_item.at(k).unwrap().item),
        before.consumables.of(&before.entities, before.wants_to_use_item.at(k).unwrap().item)
            == Some(Consumable { charges: 1 }),
    ensures
        !after.entities.is_alive(before.wants_to_use_item.at(k).unwrap().item),
{
    lemma_idle_steps_change_nothing(before, after, trace, k);
    lemma_spent_item_is_deleted(before, after, trace, k);
}

/// As long as no slot holds a use intent, the steps of the use pass leave
/// the world as it was.
proof fn lemma_idle_steps_change_nothing(before: &World, after: &World, trace: Seq<World>, k: int)
    requires
        ItemUseSystem::is_run(before, after, trace),
        0 <= k <= before.wants_to_use_item.slots@.len(),
        forall|q: int| 0 <= q < k ==> before.wants_to_use_item.at(q) is None,
    ensures
        trace[k] == *before,
    decreases k,
{
    if k > 0 {
        lemma_idle_steps_change_nothing(before, after, trace, k - 1);
        assert(ItemUseSystem::link(trace, k - 1));
    }
}

/// An item that is put on is worn and carried no longer, and what it
/// replaced is carried and worn no longer.
pub proof fn lemma_worn_item_is_not_carried(before: &World, after: &World, i: int, j: int)
    requires
        uses(before, after, i),
        before.wants_to_use_item.at(i) is Some,
        before.equippable.of(&before.entities,
            before.wants_to_use_item.at(i).unwrap().item) is Some,
        targets_of(before, i).len() > 0,
    ensures
        ({
            let item = before.wants_to_use_item.at(i).unwrap().item;
            let slot = before.equippable.of(&before.entities, item).unwrap().slot;
            let wearer = targets_of(before, i)[0];
            &&& after.equipped.at(item.id as int) == Some(Equipped { owner: wearer, slot })
            &&& after.in_backpack.at(item.id as int) is None
            &&& j != item.id && worn_by(&before.equipped, j, wearer, slot)
                ==> after.equipped.at(j) is None
                && after.in_backpack.at(j) == Some(InBackpack { owner: wearer })
        }),
{
}

/// `w` has the entities, the use intents and the effects of items that
/// `before` has.
pub open spec fn same_footing(before: &World, w: &World) -> bool {
    &&& w.entities == before.entities
    &&& w.wants_to_use_item == before.wants_to_use_item
    &&& w.causes_confusion == before.causes_confusion
    &&& w.gives_movement_speed == before.gives_movement_speed
    &&& w.provides_healing == before.provides_healing
    &&& w.inflicts_damage == before.inflicts_damage
}

/// No step of the use pass touches the entities, the use intents or the
/// effects of items.
proof fn lemma_steps_keep_the_footing(before: &World, after: &World, trace: Seq<World>, k: int)
    requires
        ItemUseSystem::is_run(before, after, trace),
        0 <= k <= before.wants_to_use_item.slots@.len(),
    ensures
        same_footing(before, &trace[k]),
    decreases k,
{
    if k > 0 {
        lemma_steps_keep_the_footing(before, after, trace, k - 1);
        assert(ItemUseSystem::link(trace, k - 1));
    }
}

/// The charges of the item `i` after the first `k` steps of a use pass in
/// which only the user of slot `u` names `i`: one less from the step of `u`
/// on.
proof fn lemma_sole_user_through_the_run(
    before: &World,
    after: &World,
    trace: Seq<World>,
    u: int,
    i: Entity,
    c: i32,
    k: int,
)
    requires
        ItemUseSystem::is_run(before, after, trace),
        0 <= u < before.wants_to_use_item.slots@.len(),
        before.wants_to_use_item.at(u) is Some,
        before.wants_to_use_item.at(u).unwrap().item == i,
        forall|q: int|
            q != u && #[trigger] before.wants_to_use_item.at(q) is Some
                ==> before.wants_to_use_item.at(q).unwrap().item.id != i.id,
        is_used(before, i),
        before.consumables.of(&before.entities, i) == Some(Consumable { charges: c }),
        0 <= k <= before.wants_to_use_item.slots@.len(),
    ensures
        trace[k].consumables.at(i.id as int) == Some(
            Consumable {
                charges: if k > u {
                    clamp(c - 1) as i32
                } else {
                    c
                },
            },
        ),
    decreases k,
{
    if k > 0 {
        lemma_sole_user_through_the_run(before, after, trace, u, i, c, k - 1);
        lemma_steps_keep_the_footing(before, after, trace, k - 1);
        assert(ItemUseSystem::link(trace, k - 1));
    }
}

/// A use takes one charge, whoever else uses something else in the same
/// pass: where only one user names the item, the item has an effect that
/// counts as a use, and it has more than one charge, then after the pass
/// the item is alive and has one charge less, also where the effect changed
/// nothing.
pub proof fn lemma_use_pass_takes_one_charge(
    before: &World,
    after: &World,
    u: int,
    i: Entity,
    c: i32,
)
    requires
        ItemUseSystem::ran(before, after),
        0 <= u < before.wants_to_use_item.slots@.len(),
        before.wants_to_use_item.at(u) is Some,
        before.wants_to_use_item.at(u).unwrap().item == i,
        forall|q: int|
            q != u && #[trigger] before.wants_to_use_item.at(q) is Some
                ==> before.wants_to_use_item.at(q).unwrap().item.id != i.id,
        is_used(before, i),
        before.consumables.of(&before.entities, i) == Some(Consumable { charges: c }),
        c >= 2,
    ensures
        after.entities.is_alive(i),
        after.consumables.at(i.id as int) == Some(Consumable { charges: (c - 1) as i32 }),
{
    let trace = choose|trace: Seq<World>| #[trigger] ItemUseSystem::is_run(before, after, trace);
    let n = before.wants_to_use_item.slots@.len() as int;
    lemma_sole_user_through_the_run(before, after, trace, u, i, c, n);
    lemma_steps_keep_the_footing(before, after, trace, n);
    assert forall|k: int| 0 <= k < n implies !#[trigger] ItemUseSystem::spent_at(
        trace,
        k,
        i.id as int,
    ) by {
        lemma_steps_keep_the_footing(before, after, trace, k);
        lemma_sole_user_through_the_run(before, after, trace, u, i, c, k);
        if k != u {
            assert(before.wants_to_use_item.at(k) is Some ==> before.wants_to_use_item.at(
                k,
            ).unwrap().item.id != i.id);
        }
    }
    assert(!ItemUseSystem::spent_slots(trace, n).contains(i.id as int));
    assert(after.entities.slot_alive(i.id as int) == trace[n + 1].entities.slot_alive(i.id as int));
    assert(after.same_slot(&trace[n + 1], i.id as int));
}

/// The charges of an item without an effect that counts as a use are what
/// they were after any number of steps of the use pass.
proof fn lemma_unused_item_through_the_run(
    before: &World,
    after: &World,
    trace: Seq<World>,
    i: Entity,
    k: int,
)
    requires
        ItemUseSystem::is_run(before, after, trace),
        before.entities.is_alive(i),
        !is_used(before, i),
        0 <= k <= before.wants_to_use_item.slots@.len(),
    ensures
        trace[k].consumables.at(i.id as int) == before.consumables.at(i.id as int),
    decreases k,
{
    if k > 0 {
        lemma_unused_item_through_the_run(before, after, trace, i, k - 1);
        lemma_steps_keep_the_footing(before, after, trace, k - 1);
        assert(ItemUseSystem::link(trace, k - 1));
    }
}

/// An item that has none of the four effects that count as a use keeps its
/// charges and stays alive through the use pass, whoever names it and also
/// where it has one charge left.
pub proof fn lemma_use_pass_spares_the_unused(
    before: &World,
    after: &World,
    i: Entity,
)
    requires
        ItemUseSystem::ran(before, after),
        before.entities.is_alive(i),
        !is_used(before, i),
    ensures
        after.entities.is_alive(i),
        after.consumables.at(i.id as int) == before.consumables.at(i.id as int),
{
    let trace = choose|trace: Seq<World>| #[trigger] ItemUseSystem::is_run(before, after, trace);
    let n = before.wants_to_use_item.slots@.len() as int;
    lemma_unused_item_through_the_run(before, after, trace, i, n);
    lemma_steps_keep_the_footing(before, after, trace, n);
    assert forall|k: int| 0 <= k < n implies !#[trigger] ItemUseSystem::spent_at(
        trace,
        k,
        i.id as int,
    ) by {
        lemma_steps_keep_the_footing(before, after, trace, k);
    }
    assert(!ItemUseSystem::spent_slots(trace, n).contains(i.id as int));
    assert(after.entities.slot_alive(i.id as int) == trace[n + 1].entities.slot_alive(i.id as int));
    assert(after.same_slot(&trace[n + 1], i.id as int));
}

} // verus!
