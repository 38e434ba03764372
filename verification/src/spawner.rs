//! What populates the dungeon: the player, the hostile actors and the
//! items, and where in a room they are put.

use vstd::prelude::*;
use vstd::string::StringExecFns;
use rltk::RandomNumberGenerator;
use crate::components::{
    AreaOfEffect,
    BlocksTile,
    CausesConfusion,
    Color,
    CombatStats,
    Consumable,
    DefenseBonus,
    EquipmentSlot,
    Equippable,
    GivesMovementSpeed,
    InflictsDamage,
    Item,
    MeleePowerBonus,
    Monster,
    Name,
    Player,
    Position,
    ProvidesHealing,
    Ranged,
    Renderable,
    SerializeMe,
    FOV,
};
use crate::arith::{clamp, saturate};
use crate::entity::Entity;
use crate::outfit::Outfit;
use crate::random_table::{weight_sum, RandomEntry, RandomTable, SpawnKind};
use crate::rect::Rect;
use crate::rng::roll_dice;
use crate::world::World;

verus! {

pub const MAX_MONSTERS_PER_ROOM: i32 = 4;

pub const MAX_ITEMS_PER_ROOM: i32 = 2;

/// How far the player and the hostile actors see.
pub const SIGHT_RANGE: i32 = 8;

/// The code that `rltk::to_cp437` gives for `c`.
pub uninterp spec fn cp437(c: char) -> u16;

/// `rltk::to_cp437`: the code of `c` in code page 437, by a fixed table.
#[verifier::external_body]
pub(crate) fn to_cp437(c: char) -> (r: u16)
    ensures
        r == cp437(c),
{
    rltk::to_cp437(c)
}

/// The colour that `rltk` names `BLACK`.
#[verifier::external_body]
fn black() -> (c: Color)
    ensures
        c == (Color { r: 0, g: 0, b: 0 }),
{
    Color { r: rltk::BLACK.0, g: rltk::BLACK.1, b: rltk::BLACK.2 }
}

/// The colour that `rltk` names `CYAN`.
#[verifier::external_body]
fn cyan() -> (c: Color)
    ensures
        c == (Color { r: 0, g: 255, b: 255 }),
{
    Color { r: rltk::CYAN.0, g: rltk::CYAN.1, b: rltk::CYAN.2 }
}

/// The colour that `rltk` names `YELLOW`.
#[verifier::external_body]
fn yellow() -> (c: Color)
    ensures
        c == (Color { r: 255, g: 255, b: 0 }),
{
    Color { r: rltk::YELLOW.0, g: rltk::YELLOW.1, b: rltk::YELLOW.2 }
}

/// The colour that `rltk` names `ORANGE`.
#[verifier::external_body]
fn orange() -> (c: Color)
    ensures
        c == (Color { r: 255, g: 165, b: 0 }),
{
    Color { r: rltk::ORANGE.0, g: rltk::ORANGE.1, b: rltk::ORANGE.2 }
}

/// The colour that `rltk` names `RED`.
#[verifier::external_body]
fn red() -> (c: Color)
    ensures
        c == (Color { r: 255, g: 0, b: 0 }),
{
    Color { r: rltk::RED.0, g: rltk::RED.1, b: rltk::RED.2 }
}

/// The colour that `rltk` names `PINK`.
#[verifier::external_body]
fn pink() -> (c: Color)
    ensures
        c == (Color { r: 255, g: 192, b: 203 }),
{
    Color { r: rltk::PINK.0, g: rltk::PINK.1, b: rltk::PINK.2 }
}

/// The colour that `rltk` names `MAGENTA`.
#[verifier::external_body]
fn magenta() -> (c: Color)
    ensures
        c == (Color { r: 255, g: 0, b: 255 }),
{
    Color { r: rltk::MAGENTA.0, g: rltk::MAGENTA.1, b: rltk::MAGENTA.2 }
}

/// The colour that `rltk` names `PURPLE`.
#[verifier::external_body]
fn purple() -> (c: Color)
    ensures
        c == (Color { r: 160, g: 32, b: 240 }),
{
    Color { r: rltk::PURPLE.0, g: rltk::PURPLE.1, b: rltk::PURPLE.2 }
}

/// The colour that `rltk` names `BROWN1`.
#[verifier::external_body]
fn brown1() -> (c: Color)
    ensures
        c == (Color { r: 255, g: 64, b: 64 }),
{
    Color { r: rltk::BROWN1.0, g: rltk::BROWN1.1, b: rltk::BROWN1.2 }
}

/// What the player carries at the start: it stands at `(x, y)`, sees
/// `SIGHT_RANGE` tiles far, and is written to saved games.
pub open spec fn player_outfit(x: i32, y: i32, name: Name, fov: FOV) -> Outfit {
    Outfit {
        position: Some(Position { x, y }),
        renderable: Some(
            Renderable {
                symbol: cp437('o'),
                foreground: Color { r: 160, g: 32, b: 240 },
                background: Color { r: 0, g: 0, b: 0 },
                render_order: 0,
            },
        ),
        player: Some(Player {  }),
        fov: Some(fov),
        name: Some(name),
        combat_stats: Some(CombatStats { max_hp: 30, hp: 30, attack: 5, defense: 2 }),
        serialize_me: Some(SerializeMe),
        ..Outfit::bare()
    }
}

/// What a hostile actor carries: it stands at `(x, y)`, blocks its tile and
/// sees `SIGHT_RANGE` tiles far.
pub open spec fn monster_outfit(x: i32, y: i32, glyph: u16, name: Name, fov: FOV) -> Outfit {
    Outfit {
        position: Some(Position { x, y }),
        renderable: Some(
            Renderable {
                symbol: glyph,
                foreground: Color { r: 255, g: 0, b: 0 },
                background: Color { r: 0, g: 0, b: 0 },
                render_order: 1,
            },
        ),
        fov: Some(fov),
        monster: Some(Monster {  }),
        name: Some(name),
        blocks_tile: Some(BlocksTile {  }),
        combat_stats: Some(CombatStats { max_hp: 16, hp: 16, attack: 4, defense: 1 }),
        serialize_me: Some(SerializeMe),
        ..Outfit::bare()
    }
}

/// A view that holds no tile yet, reaches `SIGHT_RANGE` tiles far and asks
/// to be brought up to date.
pub open spec fn is_fresh_view(fov: FOV) -> bool {
    fov.visible_tiles@.len() == 0 && fov.range == SIGHT_RANGE && fov.needs_update
}

/// What a thing of `kind` carries when it is put at `(x, y)`. Only the
/// two hostile kinds have a view.
pub open spec fn kind_outfit(kind: SpawnKind, x: i32, y: i32, name: Name, fov: FOV) -> Outfit {
    match kind {
        SpawnKind::HealthPotion => Outfit {
            position: Some(Position { x, y }),
            renderable: Some(
                Renderable {
                    symbol: cp437('\u{a1}'),
                    foreground: Color { r: 255, g: 0, b: 255 },
                    background: Color { r: 0, g: 0, b: 0 },
                    render_order: 2,
                },
            ),
            name: Some(name),
            item: Some(Item {  }),
            provides_healing: Some(ProvidesHealing { heal_amount: 8 }),
            consumable: Some(Consumable { charges: 3 }),
            serialize_me: Some(SerializeMe),
            ..Outfit::bare()
        },
        SpawnKind::MagicMissileScroll => Outfit {
            position: Some(Position { x, y }),
            renderable: Some(
                Renderable {
                    symbol: cp437(')'),
                    foreground: Color { r: 0, g: 255, b: 255 },
                    background: Color { r: 0, g: 0, b: 0 },
                    render_order: 2,
                },
            ),
            name: Some(name),
            item: Some(Item {  }),
            consumable: Some(Consumable { charges: 1 }),
            ranged: Some(Ranged { range: 6 }),
            inflicts_damage: Some(InflictsDamage { damage: 8 }),
            serialize_me: Some(SerializeMe),
            ..Outfit::bare()
        },
        SpawnKind::FireballScroll => Outfit {
            position: Some(Position { x, y }),
            renderable: Some(
                Renderable {
                    symbol: cp437(')'),
                    foreground: Color { r: 255, g: 165, b: 0 },
                    background: Color { r: 0, g: 0, b: 0 },
                    render_order: 2,
                },
            ),
            name: Some(name),
            item: Some(Item {  }),
            consumable: Some(Consumable { charges: 1 }),
            ranged: Some(Ranged { range: 6 }),
            inflicts_damage: Some(InflictsDamage { damage: 20 }),
            area_of_effect: Some(AreaOfEffect { radius: 3 }),
            serialize_me: Some(SerializeMe),
            ..Outfit::bare()
        },
        SpawnKind::ConfusionScroll => Outfit {
            position: Some(Position { x, y }),
            renderable: Some(
                Renderable {
                    symbol: cp437(')'),
                    foreground: Color { r: 255, g: 192, b: 203 },
                    background: Color { r: 0, g: 0, b: 0 },
                    render_order: 2,
                },
            ),
            name: Some(name),
            item: Some(Item {  }),
            consumable: Some(Consumable { charges: 1 }),
            ranged: Some(Ranged { range: 6 }),
            causes_confusion: Some(CausesConfusion { turns: 3 }),
            serialize_me: Some(SerializeMe),
            ..Outfit::bare()
        },
        SpawnKind::Dagger => Outfit {
            position: Some(Position { x, y }),
            renderable: Some(
                Renderable {
                    symbol: cp437('/'),
                    foreground: Color { r: 0, g: 255, b: 255 },
                    background: Color { r: 0, g: 0, b: 0 },
                    render_order: 2,
                },
            ),
            name: Some(name),
            item: Some(Item {  }),
            equippable: Some(Equippable { slot: EquipmentSlot::Melee }),
            melee_power_bonus: Some(MeleePowerBonus { power: 2 }),
            serialize_me: Some(SerializeMe),
            ..Outfit::bare()
        },
        SpawnKind::Shield => Outfit {
            position: Some(Position { x, y }),
            renderable: Some(
                Renderable {
                    symbol: cp437('('),
                    foreground: Color { r: 0, g: 255, b: 255 },
                    background: Color { r: 0, g: 0, b: 0 },
                    render_order: 2,
                },
            ),
            name: Some(name),
            item: Some(Item {  }),
            equippable: Some(Equippable { slot: EquipmentSlot::Shield }),
            defense_bonus: Some(DefenseBonus { defense: 1 }),
            serialize_me: Some(SerializeMe),
            ..Outfit::bare()
        },
        SpawnKind::Longsword => Outfit {
            position: Some(Position { x, y }),
            renderable: Some(
                Renderable {
                    symbol: cp437('/'),
                    foreground: Color { r: 255, g: 255, b: 0 },
                    background: Color { r: 0, g: 0, b: 0 },
                    render_order: 2,
                },
            ),
            name: Some(name),
            item: Some(Item {  }),
            equippable: Some(Equippable { slot: EquipmentSlot::Melee }),
            melee_power_bonus: Some(MeleePowerBonus { power: 4 }),
            serialize_me: Some(SerializeMe),
            ..Outfit::bare()
        },
        SpawnKind::TowerShield => Outfit {
            position: Some(Position { x, y }),
            renderable: Some(
                Renderable {
                    symbol: cp437('('),
                    foreground: Color { r: 255, g: 255, b: 0 },
                    background: Color { r: 0, g: 0, b: 0 },
                    render_order: 2,
                },
            ),
            name: Some(name),
            item: Some(Item {  }),
            equippable: Some(Equippable { slot: EquipmentSlot::Shield }),
            defense_bonus: Some(DefenseBonus { defense: 3 }),
            serialize_me: Some(SerializeMe),
            ..Outfit::bare()
        },
        SpawnKind::Goblin => monster_outfit(x, y, cp437('o'), name, fov),
        SpawnKind::Orc => monster_outfit(x, y, cp437('g'), name, fov),
    }
}

/// What boots of speed carry when they lie at `(x, y)`.
pub open spec fn boots_outfit(x: i32, y: i32, name: Name) -> Outfit {
    Outfit {
        position: Some(Position { x, y }),
        renderable: Some(
            Renderable {
                symbol: cp437('b'),
                foreground: Color { r: 255, g: 64, b: 64 },
                background: Color { r: 0, g: 0, b: 0 },
                render_order: 2,
            },
        ),
        name: Some(name),
        item: Some(Item {  }),
        consumable: Some(Consumable { charges: 1 }),
        gives_movement_speed: Some(GivesMovementSpeed { speed_modifier: 2, turns: 3 }),
        serialize_me: Some(SerializeMe),
        ..Outfit::bare()
    }
}

/// The name that things of `kind` go by. The two hostile kinds go by each
/// other's name.
pub open spec fn kind_name(kind: SpawnKind) -> Seq<char> {
    match kind {
        SpawnKind::Goblin => "Orc"@,
        SpawnKind::Orc => "Goblin"@,
        SpawnKind::HealthPotion => "Health Potion"@,
        SpawnKind::MagicMissileScroll => "Magic Missile Scroll"@,
        SpawnKind::FireballScroll => "Fireball spell"@,
        SpawnKind::ConfusionScroll => "Confusion spell"@,
        SpawnKind::Dagger => "Dagger"@,
        SpawnKind::Shield => "Shield"@,
        SpawnKind::Longsword => "Longsword"@,
        SpawnKind::TowerShield => "Tower Shield"@,
    }
}

/// `after` is `before` with one more entity: a thing of `kind` at
/// `(x, y)`.
pub open spec fn spawned_as(before: &World, after: &World, kind: SpawnKind, x: i32,
    y: i32) -> bool {
    exists|e: Entity, name: Name, fov: FOV| #[trigger]
        after.is_birth_of(
            before,
            e,
            &kind_outfit(kind, x, y, name, fov),
        ) && name.name@ == kind_name(kind) && (is_hostile_kind(kind) ==> is_fresh_view(fov))
}

/// Things of `kind` are hostile actors.
pub open spec fn is_hostile_kind(kind: SpawnKind) -> bool {
    kind == SpawnKind::Goblin || kind == SpawnKind::Orc
}

/// A view that holds no tile yet.
fn fresh_view() -> (fov: FOV)
    ensures
        is_fresh_view(fov),
{
    FOV { visible_tiles: Vec::new(), range: SIGHT_RANGE, needs_update: true }
}

/// Creates the player at `(player_x, player_y)`.
pub fn player(world: &mut World, player_x: i32, player_y: i32) -> (e: Entity)
    requires
        old(world).wf(),
    ensures
        final(world).wf(),
        exists|name: Name, fov: FOV| #[trigger]
            final(world).is_birth_of(old(world), e, &player_outfit(player_x, player_y, name, fov))
                && name.name@ == "Player"@ && is_fresh_view(fov),
{
    let name = Name { name: String::from_str("Player") };
    let fov = fresh_view();
    let ghost outfit = player_outfit(player_x, player_y, name, fov);
    let e = world.spawn(
        Outfit {
            position: Some(Position { x: player_x, y: player_y }),
            renderable: Some(
                Renderable {
                    symbol: to_cp437('o'),
                    foreground: purple(),
                    background: black(),
                    render_order: 0,
                },
            ),
            player: Some(Player {  }),
            fov: Some(fov),
            name: Some(name),
            combat_stats: Some(CombatStats { max_hp: 30, hp: 30, attack: 5, defense: 2 }),
            serialize_me: Some(SerializeMe),
            ..Outfit::none()
        },
    );
    proof {
        assert(world.is_birth_of(old(world), e, &outfit));
    }
    e
}

/// Creates a hostile actor at `(x, y)` that is drawn as `glyph` and goes
/// by `name`.
pub fn monster(world: &mut World, x: i32, y: i32, glyph: u16, name: &str) -> (e: Entity)
    requires
        old(world).wf(),
    ensures
        final(world).wf(),
        exists|named: Name, fov: FOV| #[trigger]
            final(world).is_birth_of(old(world), e, &monster_outfit(x, y, glyph, named, fov))
                && named.name@ == name@ && is_fresh_view(fov),
{
    let named = Name { name: String::from_str(name) };
    let fov = fresh_view();
    let ghost outfit = monster_outfit(x, y, glyph, named, fov);
    let e = world.spawn(
        Outfit {
            position: Some(Position { x, y }),
            renderable: Some(
                Renderable {
                    symbol: glyph,
                    foreground: red(),
                    background: black(),
                    render_order: 1,
                },
            ),
            fov: Some(fov),
            monster: Some(Monster {  }),
            name: Some(named),
            blocks_tile: Some(BlocksTile {  }),
            combat_stats: Some(CombatStats { max_hp: 16, hp: 16, attack: 4, defense: 1 }),
            serialize_me: Some(SerializeMe),
            ..Outfit::none()
        },
    );
    proof {
        assert(world.is_birth_of(old(world), e, &outfit));
    }
    e
}

/// Creates at `(x, y)` the hostile actor that the spawn table lists as an
/// orc. It is drawn as `g` and goes by the name `Goblin`.
pub fn orc(world: &mut World, x: i32, y: i32)
    requires
        old(world).wf(),
    ensures
        final(world).wf(),
        spawned_as(old(world), final(world), SpawnKind::Orc, x, y),
{
    let e = monster(world, x, y, to_cp437('g'), "Goblin");
    proof {
        let (named, fov) = choose|named: Name, fov: FOV| #[trigger]
            world.is_birth_of(old(world), e, &monster_outfit(x, y, cp437('g'), named, fov))
                && named.name@ == "Goblin"@ && is_fresh_view(fov);
        assert(world.is_birth_of(old(world), e, &kind_outfit(SpawnKind::Orc, x, y, named, fov)));
    }
}

/// Creates at `(x, y)` the hostile actor that the spawn table lists as a
/// goblin. It is drawn as `o` and goes by the name `Orc`.
pub fn goblin(world: &mut World, x: i32, y: i32)
    requires
        old(world).wf(),
    ensures
        final(world).wf(),
        spawned_as(old(world), final(world), SpawnKind::Goblin, x, y),
{
    let e = monster(world, x, y, to_cp437('o'), "Orc");
    proof {
        let (named, fov) = choose|named: Name, fov: FOV| #[trigger]
            world.is_birth_of(old(world), e, &monster_outfit(x, y, cp437('o'), named, fov))
                && named.name@ == "Orc"@ && is_fresh_view(fov);
        assert(world.is_birth_of(old(world), e, &kind_outfit(SpawnKind::Goblin, x, y, named, fov)));
    }
}

/// A potion that heals eight hit points, three times.
pub fn health_potion(world: &mut World, x: i32, y: i32)
    requires
        old(world).wf(),
    ensures
        final(world).wf(),
        spawned_as(old(world), final(world), SpawnKind::HealthPotion, x, y),
{
    let name = Name { name: String::from_str("Health Potion") };
    let ghost fov: FOV = arbitrary();
    let ghost outfit = kind_outfit(SpawnKind::HealthPotion, x, y, name, fov);
    let e = world.spawn(
        Outfit {
            position: Some(Position { x, y }),
            renderable: Some(
                Renderable {
                    symbol: to_cp437('\u{a1}'),
                    foreground: magenta(),
                    background: black(),
                    render_order: 2,
                },
            ),
            name: Some(name),
            item: Some(Item {  }),
            provides_healing: Some(ProvidesHealing { heal_amount: 8 }),
            consumable: Some(Consumable { charges: 3 }),
            serialize_me: Some(SerializeMe),
            ..Outfit::none()
        },
    );
    proof {
        assert(world.is_birth_of(old(world), e, &outfit));
    }
}

/// A scroll that strikes one tile for eight hit points.
pub fn magic_missile_scroll(world: &mut World, x: i32, y: i32)
    requires
        old(world).wf(),
    ensures
        final(world).wf(),
        spawned_as(old(world), final(world), SpawnKind::MagicMissileScroll, x, y),
{
    let name = Name { name: String::from_str("Magic Missile Scroll") };
    let ghost fov: FOV = arbitrary();
    let ghost outfit = kind_outfit(SpawnKind::MagicMissileScroll, x, y, name, fov);
    let e = world.spawn(
        Outfit {
            position: Some(Position { x, y }),
            renderable: Some(
                Renderable {
                    symbol: to_cp437(')'),
                    foreground: cyan(),
                    background: black(),
                    render_order: 2,
                },
            ),
            name: Some(name),
            item: Some(Item {  }),
            consumable: Some(Consumable { charges: 1 }),
            ranged: Some(Ranged { range: 6 }),
            inflicts_damage: Some(InflictsDamage { damage: 8 }),
            serialize_me: Some(SerializeMe),
            ..Outfit::none()
        },
    );
    proof {
        assert(world.is_birth_of(old(world), e, &outfit));
    }
}

/// A scroll that strikes everybody within three tiles for twenty hit points.
pub fn fireball_spell(world: &mut World, x: i32, y: i32)
    requires
        old(world).wf(),
    ensures
        final(world).wf(),
        spawned_as(old(world), final(world), SpawnKind::FireballScroll, x, y),
{
    let name = Name { name: String::from_str("Fireball spell") };
    let ghost fov: FOV = arbitrary();
    let ghost outfit = kind_outfit(SpawnKind::FireballScroll, x, y, name, fov);
    let e = world.spawn(
        Outfit {
            position: Some(Position { x, y }),
            renderable: Some(
                Renderable {
                    symbol: to_cp437(')'),
                    foreground: orange(),
                    background: black(),
                    render_order: 2,
                },
            ),
            name: Some(name),
            item: Some(Item {  }),
            consumable: Some(Consumable { charges: 1 }),
            ranged: Some(Ranged { range: 6 }),
            inflicts_damage: Some(InflictsDamage { damage: 20 }),
            area_of_effect: Some(AreaOfEffect { radius: 3 }),
            serialize_me: Some(SerializeMe),
            ..Outfit::none()
        },
    );
    proof {
        assert(world.is_birth_of(old(world), e, &outfit));
    }
}

/// A scroll that confuses for three turns.
pub fn confusion_spell(world: &mut World, x: i32, y: i32)
    requires
        old(world).wf(),
    ensures
        final(world).wf(),
        spawned_as(old(world), final(world), SpawnKind::ConfusionScroll, x, y),
{
    let name = Name { name: String::from_str("Confusion spell") };
    let ghost fov: FOV = arbitrary();
    let ghost outfit = kind_outfit(SpawnKind::ConfusionScroll, x, y, name, fov);
    let e = world.spawn(
        Outfit {
            position: Some(Position { x, y }),
            renderable: Some(
                Renderable {
                    symbol: to_cp437(')'),
                    foreground: pink(),
                    background: black(),
                    render_order: 2,
                },
            ),
            name: Some(name),
            item: Some(Item {  }),
            consumable: Some(Consumable { charges: 1 }),
            ranged: Some(Ranged { range: 6 }),
            causes_confusion: Some(CausesConfusion { turns: 3 }),
            serialize_me: Some(SerializeMe),
            ..Outfit::none()
        },
    );
    proof {
        assert(world.is_birth_of(old(world), e, &outfit));
    }
}

/// A weapon that adds two to the attack.
pub fn dagger(world: &mut World, x: i32, y: i32)
    requires
        old(world).wf(),
    ensures
        final(world).wf(),
        spawned_as(old(world), final(world), SpawnKind::Dagger, x, y),
{
    let name = Name { name: String::from_str("Dagger") };
    let ghost fov: FOV = arbitrary();
    let ghost outfit = kind_outfit(SpawnKind::Dagger, x, y, name, fov);
    let e = world.spawn(
        Outfit {
            position: Some(Position { x, y }),
            renderable: Some(
                Renderable {
                    symbol: to_cp437('/'),
                    foreground: cyan(),
                    background: black(),
                    render_order: 2,
                },
            ),
            name: Some(name),
            item: Some(Item {  }),
            equippable: Some(Equippable { slot: EquipmentSlot::Melee }),
            melee_power_bonus: Some(MeleePowerBonus { power: 2 }),
            serialize_me: Some(SerializeMe),
            ..Outfit::none()
        },
    );
    proof {
        assert(world.is_birth_of(old(world), e, &outfit));
    }
}

/// A shield that adds one to the defense.
pub fn shield(world: &mut World, x: i32, y: i32)
    requires
        old(world).wf(),
    ensures
        final(world).wf(),
        spawned_as(old(world), final(world), SpawnKind::Shield, x, y),
{
    let name = Name { name: String::from_str("Shield") };
    let ghost fov: FOV = arbitrary();
    let ghost outfit = kind_outfit(SpawnKind::Shield, x, y, name, fov);
    let e = world.spawn(
        Outfit {
            position: Some(Position { x, y }),
            renderable: Some(
                Renderable {
                    symbol: to_cp437('('),
                    foreground: cyan(),
                    background: black(),
                    render_order: 2,
                },
            ),
            name: Some(name),
            item: Some(Item {  }),
            equippable: Some(Equippable { slot: EquipmentSlot::Shield }),
            defense_bonus: Some(DefenseBonus { defense: 1 }),
            serialize_me: Some(SerializeMe),
            ..Outfit::none()
        },
    );
    proof {
        assert(world.is_birth_of(old(world), e, &outfit));
    }
}

/// A weapon that adds four to the attack.
pub fn longsword(world: &mut World, x: i32, y: i32)
    requires
        old(world).wf(),
    ensures
        final(world).wf(),
        spawned_as(old(world), final(world), SpawnKind::Longsword, x, y),
{
    let name = Name { name: String::from_str("Longsword") };
    let ghost fov: FOV = arbitrary();
    let ghost outfit = kind_outfit(SpawnKind::Longsword, x, y, name, fov);
    let e = world.spawn(
        Outfit {
            position: Some(Position { x, y }),
            renderable: Some(
                Renderable {
                    symbol: to_cp437('/'),
                    foreground: yellow(),
                    background: black(),
                    render_order: 2,
                },
            ),
            name: Some(name),
            item: Some(Item {  }),
            equippable: Some(Equippable { slot: EquipmentSlot::Melee }),
            melee_power_bonus: Some(MeleePowerBonus { power: 4 }),
            serialize_me: Some(SerializeMe),
            ..Outfit::none()
        },
    );
    proof {
        assert(world.is_birth_of(old(world), e, &outfit));
    }
}

/// A shield that adds three to the defense.
pub fn tower_shield(world: &mut World, x: i32, y: i32)
    requires
        old(world).wf(),
    ensures
        final(world).wf(),
        spawned_as(old(world), final(world), SpawnKind::TowerShield, x, y),
{
    let name = Name { name: String::from_str("Tower Shield") };
    let ghost fov: FOV = arbitrary();
    let ghost outfit = kind_outfit(SpawnKind::TowerShield, x, y, name, fov);
    let e = world.spawn(
        Outfit {
            position: Some(Position { x, y }),
            renderable: Some(
                Renderable {
                    symbol: to_cp437('('),
                    foreground: yellow(),
                    background: black(),
                    render_order: 2,
                },
            ),
            name: Some(name),
            item: Some(Item {  }),
            equippable: Some(Equippable { slot: EquipmentSlot::Shield }),
            defense_bonus: Some(DefenseBonus { defense: 3 }),
            serialize_me: Some(SerializeMe),
            ..Outfit::none()
        },
    );
    proof {
        assert(world.is_birth_of(old(world), e, &outfit));
    }
}

/// Boots that double every step for three turns.
pub fn dash_boots(world: &mut World, x: i32, y: i32)
    requires
        old(world).wf(),
    ensures
        final(world).wf(),
        exists|e: Entity, name: Name| #[trigger]
            final(world).is_birth_of(old(world), e, &boots_outfit(x, y, name)) && name.name@
                == "Dash boots"@,
{
    let name = Name { name: String::from_str("Dash boots") };
    let ghost outfit = boots_outfit(x, y, name);
    let e = world.spawn(
        Outfit {
            position: Some(Position { x, y }),
            renderable: Some(
                Renderable {
                    symbol: to_cp437('b'),
                    foreground: brown1(),
                    background: black(),
                    render_order: 2,
                },
            ),
            name: Some(name),
            item: Some(Item {  }),
            consumable: Some(Consumable { charges: 1 }),
            gives_movement_speed: Some(GivesMovementSpeed { speed_modifier: 2, turns: 3 }),
            serialize_me: Some(SerializeMe),
            ..Outfit::none()
        },
    );
    proof {
        assert(world.is_birth_of(old(world), e, &outfit));
    }
}

/// A thing to be put into a room: what, and where.
#[derive(PartialEq, Eq, Structural, Clone, Copy, Debug)]
pub struct SpawnPoint {
    pub x: i32,
    pub y: i32,
    pub kind: Option<SpawnKind>,
}

/// `entries` with one more entry, as `RandomTable::add` adds it.
pub open spec fn added(entries: Seq<RandomEntry>, kind: SpawnKind,
    weight: int) -> Seq<RandomEntry> {
    if weight > 0 && weight_sum(entries) + weight <= i32::MAX {
        entries.push(RandomEntry { kind, weight: weight as i32 })
    } else {
        entries
    }
}

/// What can be found at depth `d`, with its weights: deeper levels hold
/// more orcs and more scrolls of fire and confusion, and below the first
/// level tower shields and longswords appear.
pub open spec fn room_entries(d: int) -> Seq<RandomEntry> {
    added(
        added(
            added(
                added(
                    added(
                        added(
                            added(
                                added(
                                    added(
                                        added(Seq::empty(), SpawnKind::Goblin, 10),
                                        SpawnKind::Orc,
                                        clamp(1 + d),
                                    ),
                                    SpawnKind::HealthPotion,
                                    7,
                                ),
                                SpawnKind::FireballScroll,
                                clamp(2 + d),
                            ),
                            SpawnKind::ConfusionScroll,
                            clamp(2 + d),
                        ),
                        SpawnKind::MagicMissileScroll,
                        4,
                    ),
                    SpawnKind::Dagger,
                    3,
                ),
                SpawnKind::Shield,
                3,
            ),
            SpawnKind::TowerShield,
            clamp(d - 1),
        ),
        SpawnKind::Longsword,
        clamp(d - 1),
    )
}

/// The table of what a room at depth `map_depth` is populated from.
pub fn room_table(map_depth: i32) -> (t: RandomTable)
    ensures
        t.wf(),
        t.entries@ == room_entries(map_depth as int),
        t.total_weight >= 10,
{
    let d: i64 = map_depth as i64;
    let t0 = RandomTable::new().add(SpawnKind::Goblin, 10);
    assert(t0.entries@ == added(Seq::empty(), SpawnKind::Goblin, 10));
    let t1 = t0.add(SpawnKind::Orc, saturate(1 + d));
    assert(t1.entries@ == added(t0.entries@, SpawnKind::Orc, clamp(1 + d)));
    let t2 = t1.add(SpawnKind::HealthPotion, 7);
    assert(t2.entries@ == added(t1.entries@, SpawnKind::HealthPotion, 7));
    let t3 = t2.add(SpawnKind::FireballScroll, saturate(2 + d));
    assert(t3.entries@ == added(t2.entries@, SpawnKind::FireballScroll, clamp(2 + d)));
    let t4 = t3.add(SpawnKind::ConfusionScroll, saturate(2 + d));
    assert(t4.entries@ == added(t3.entries@, SpawnKind::ConfusionScroll, clamp(2 + d)));
    let t5 = t4.add(SpawnKind::MagicMissileScroll, 4);
    assert(t5.entries@ == added(t4.entries@, SpawnKind::MagicMissileScroll, 4));
    let t6 = t5.add(SpawnKind::Dagger, 3);
    assert(t6.entries@ == added(t5.entries@, SpawnKind::Dagger, 3));
    let t7 = t6.add(SpawnKind::Shield, 3);
    assert(t7.entries@ == added(t6.entries@, SpawnKind::Shield, 3));
    let t8 = t7.add(SpawnKind::TowerShield, saturate(d - 1));
    assert(t8.entries@ == added(t7.entries@, SpawnKind::TowerShield, clamp(d - 1)));
    let t9 = t8.add(SpawnKind::Longsword, saturate(d - 1));
    assert(t9.entries@ == added(t8.entries@, SpawnKind::Longsword, clamp(d - 1)));
    t9
}

/// No two of the points share a place.
pub open spec fn places_differ(points: Seq<SpawnPoint>) -> bool {
    forall|a: int, b: int|
        #![trigger points[a], points[b]]
        0 <= a < b < points.len() ==> !(points[a].x == points[b].x && points[a].y == points[b].y)
}

/// Whether one of `points` lies at `(x, y)`.
pub fn is_taken(points: &Vec<SpawnPoint>, x: i32, y: i32) -> (r: bool)
    ensures
        r == exists|k: int|
            0 <= k < points@.len() && (#[trigger] points@[k]).x == x && points@[k].y == y,
{
    let mut k: usize = 0;
    while k < points.len()
        invariant
            k <= points@.len(),
            forall|q: int| 0 <= q < k ==> !((#[trigger] points@[q]).x == x && points@[q].y == y),
        decreases points@.len() - k,
    {
        if points[k].x == x && points[k].y == y {
            return true;
        }
        k += 1;
    }
    false
}

/// How many things a room at depth `d` is to get when the die shows
/// `rolled`: three less than the die and the depth together, and none where
/// that is below one.
pub open spec fn spawn_count(rolled: int, d: int) -> int {
    if rolled + (d - 1) - 3 > 0 {
        rolled + (d - 1) - 3
    } else {
        0
    }
}

/// `(x, y)` is a place that `room` offers: off the first column where the
/// room has more than one, and on its only column otherwise; and likewise
/// for the rows.
pub open spec fn is_spawn_place(room: &Rect, x: int, y: int) -> bool {
    &&& if room.x2 > room.x1 {
        room.x1 < x <= room.x2
    } else {
        x == room.x1
    }
    &&& if room.y2 > room.y1 {
        room.y1 < y <= room.y2
    } else {
        y == room.y1
    }
}

/// `points` is a plan of what `room` gets at the depth `map_depth`: no two
/// points share a place; some face of the die accounts for their number,
/// which is no more than the count that this face asks for and at least one
/// where the count is; so from the fourth level on there is a point, and on
/// the levels where no face gives a count there is none; every point lies
/// on a place that the room offers; and every point names a kind that the
/// table of the depth holds.
pub open spec fn is_spawn_plan(room: &Rect, map_depth: i32, points: Seq<SpawnPoint>) -> bool {
    &&& places_differ(points)
    &&& exists|rolled: int|
        1 <= rolled <= MAX_MONSTERS_PER_ROOM + 3 && points.len() <= #[trigger] spawn_count(
            rolled,
            map_depth as int,
        ) && (spawn_count(rolled, map_depth as int) >= 1 ==> points.len() >= 1)
    &&& map_depth >= 4 ==> points.len() >= 1
    &&& map_depth <= -3 ==> points.len() == 0
    &&& forall|k: int|
        0 <= k < points.len() ==> is_spawn_place(
            room,
            (#[trigger] points[k]).x as int,
            points[k].y as int,
        )
    &&& forall|k: int|
        0 <= k < points.len() ==> match (#[trigger] points[k]).kind {
            Some(kind) => exists|q: int|
                0 <= q < room_entries(map_depth as int).len() && (#[trigger] room_entries(
                    map_depth as int,
                )[q]).kind == kind,
            None => false,
        }
}

/// Draws what a room at depth `map_depth` is populated with, and where.
/// One die with as many faces as `MAX_MONSTERS_PER_ROOM` and three says,
/// with the depth, how many things the room is to get. For each of them a
/// place that the room offers is drawn, up to twenty times until one is
/// found that no earlier thing has; then its kind is drawn from the table
/// of the depth. A thing that finds no place is given up. The first thing
/// always finds one, so from the fourth level on no room stays empty.
pub fn plan_spawns(rng: &mut RandomNumberGenerator, room: &Rect, map_depth: i32) -> (points: Vec<
    SpawnPoint,
>)
    requires
        -32768 <= room.x1 <= room.x2 <= 32767,
        -32768 <= room.y1 <= room.y2 <= 32767,
    ensures
        is_spawn_plan(room, map_depth, points@),
{
    let spawn_table = room_table(map_depth);
    let mut points: Vec<SpawnPoint> = Vec::new();
    let rolled: i32 = roll_dice(rng, 1, MAX_MONSTERS_PER_ROOM + 3);
    let num_spawns: i64 = rolled as i64 + (map_depth as i64 - 1) - 3;
    let width: i32 = room.x2 - room.x1;
    let height: i32 = room.y2 - room.y1;
    let mut spawned: i64 = 0;
    while spawned < num_spawns
        invariant
            spawn_table.wf(),
            spawn_table.entries@ == room_entries(map_depth as int),
            spawn_table.total_weight >= 10,
            -32768 <= room.x1 <= room.x2 <= 32767,
            -32768 <= room.y1 <= room.y2 <= 32767,
            width == room.x2 - room.x1,
            height == room.y2 - room.y1,
            0 <= spawned,
            spawned <= num_spawns || spawned == 0,
            num_spawns == rolled + (map_depth - 1) - 3,
            1 <= rolled <= MAX_MONSTERS_PER_ROOM + 3,
            points@.len() <= spawned,
            spawned >= 1 ==> points@.len() >= 1,
            places_differ(points@),
            forall|k: int|
                0 <= k < points@.len() ==> is_spawn_place(
                    room,
                    (#[trigger] points@[k]).x as int,
                    points@[k].y as int,
                ),
            forall|k: int|
                0 <= k < points@.len() ==> match (#[trigger] points@[k]).kind {
                    Some(kind) => exists|q: int|
                        0 <= q < room_entries(map_depth as int).len() && (#[trigger] room_entries(
                            map_depth as int,
                        )[q]).kind == kind,
                    None => false,
                },
        decreases num_spawns - spawned,
    {
        let mut added: bool = false;
        let mut tries: i32 = 0;
        while !added && tries < 20
            invariant
                spawn_table.wf(),
                spawn_table.entries@ == room_entries(map_depth as int),
                spawn_table.total_weight >= 10,
                -32768 <= room.x1 <= room.x2 <= 32767,
                -32768 <= room.y1 <= room.y2 <= 32767,
                width == room.x2 - room.x1,
                height == room.y2 - room.y1,
                0 <= tries <= 20,
                points@.len() == 0 ==> tries == 0 && !added,
                points@.len() <= spawned + (if added {
                    1int
                } else {
                    0int
                }),
                places_differ(points@),
                forall|k: int|
                    0 <= k < points@.len() ==> is_spawn_place(
                        room,
                        (#[trigger] points@[k]).x as int,
                        points@[k].y as int,
                    ),
                forall|k: int|
                    0 <= k < points@.len() ==> match (#[trigger] points@[k]).kind {
                        Some(kind) => exists|q: int|
                            0 <= q < room_entries(map_depth as int).len() && (
                            #[trigger] room_entries(map_depth as int)[q]).kind == kind,
                        None => false,
                    },
            decreases
                    (if added {
                        0int
                    } else {
                        1int
                    }),
                    20 - tries,
        {
            let x: i32 = room.x1 + (if width >= 1 {
                roll_dice(rng, 1, width)
            } else {
                0
            });
            let y: i32 = room.y1 + (if height >= 1 {
                roll_dice(rng, 1, height)
            } else {
                0
            });
            if !is_taken(&points, x, y) {
                let kind = spawn_table.roll(rng);
                let ghost before = points@;
                points.push(SpawnPoint { x, y, kind });
                proof {
                    assert forall|a: int, b: int|
                        #![trigger points@[a], points@[b]]
                        0 <= a < b < points@.len() implies !(points@[a].x == points@[b].x
                        && points@[a].y == points@[b].y) by {
                        if b < before.len() {
                            assert(points@[a] == before[a] && points@[b] == before[b]);
                        } else {
                            assert(points@[a] == before[a]);
                        }
                    }
                }
                added = true;
            } else {
                tries += 1;
            }
        }
        spawned += 1;
    }
    proof {
        assert(points@.len() <= spawn_count(rolled as int, map_depth as int));
        assert(is_spawn_plan(room, map_depth, points@));
    }
    points
}

/// Creates a thing of `kind` at `(x, y)`.
pub fn spawn_kind(world: &mut World, kind: SpawnKind, x: i32, y: i32)
    requires
        old(world).wf(),
    ensures
        final(world).wf(),
        spawned_as(old(world), final(world), kind, x, y),
{
    match kind {
        SpawnKind::Goblin => goblin(world, x, y),
        SpawnKind::Orc => orc(world, x, y),
        SpawnKind::HealthPotion => health_potion(world, x, y),
        SpawnKind::FireballScroll => fireball_spell(world, x, y),
        SpawnKind::ConfusionScroll => confusion_spell(world, x, y),
        SpawnKind::MagicMissileScroll => magic_missile_scroll(world, x, y),
        SpawnKind::Dagger => dagger(world, x, y),
        SpawnKind::Shield => shield(world, x, y),
        SpawnKind::TowerShield => tower_shield(world, x, y),
        SpawnKind::Longsword => longsword(world, x, y),
    }
}

/// Link `k` of `trace` creates what point `k` names; a point that names
/// nothing changes nothing.
pub open spec fn spawn_link(trace: Seq<World>, points: Seq<SpawnPoint>, k: int) -> bool {
    match points[k].kind {
        Some(kind) => spawned_as(&trace[k], &trace[k + 1], kind, points[k].x, points[k].y),
        None => trace[k + 1] == trace[k],
    }
}

/// `trace` leads from `before` to `after`, one thing of `points` created
/// per step, in their order.
pub open spec fn is_population(
    before: &World,
    after: &World,
    points: Seq<SpawnPoint>,
    trace: Seq<World>,
) -> bool {
    &&& trace.len() == points.len() + 1
    &&& trace[0] == *before
    &&& trace.last() == *after
    &&& forall|k: int| 0 <= k < points.len() ==> #[trigger] spawn_link(trace, points, k)
}

/// Creates the things that `points` names, in their order.
pub fn spawn_all(world: &mut World, points: &Vec<SpawnPoint>)
    requires
        old(world).wf(),
    ensures
        final(world).wf(),
        final(world).same_resources(old(world)),
        exists|trace: Seq<World>| #[trigger] is_population(old(world), final(world), points@,
            trace),
{
    let ghost mut trace: Seq<World> = seq![*world];
    let mut k: usize = 0;
    while k < points.len()
        invariant
            world.wf(),
            world.same_resources(old(world)),
            k <= points@.len(),
            trace.len() == k + 1,
            trace[0] == *old(world),
            trace.last() == *world,
            forall|q: int| 0 <= q < k ==> #[trigger] spawn_link(trace, points@, q),
        decreases points@.len() - k,
    {
        let p = points[k];
        match p.kind {
            Some(kind) => {
                spawn_kind(world, kind, p.x, p.y);
            },
            None => {},
        }
        proof {
            let longer = trace.push(*world);
            assert forall|q: int| 0 <= q < k + 1 implies #[trigger] spawn_link(
                longer,
                points@,
                q,
            ) by {
                if q < k {
                    assert(spawn_link(trace, points@, q));
                    assert(longer[q] == trace[q] && longer[q + 1] == trace[q + 1]);
                }
            }
            trace = longer;
        }
        k += 1;
    }
    proof {
        assert(is_population(old(world), world, points@, trace));
    }
}

/// `after` is `before` with `room` populated for the depth `map_depth`:
/// the things of some plan for the room and the depth were created one
/// after the other, in the order of the plan. The plan says how many things
/// there can be and that from the fourth level on there is one, that each
/// has a place of its own among those the room offers, and that each is of
/// a kind that the table of the depth holds.
pub open spec fn populated(before: &World, after: &World, room: &Rect, map_depth: i32) -> bool {
    exists|points: Seq<SpawnPoint>, trace: Seq<World>| #[trigger]
        is_population(before, after, points, trace) && is_spawn_plan(room, map_depth, points)
}

/// Where a room is populated from the fourth level on, an entity is alive
/// afterwards that was not alive before.
pub proof fn lemma_deep_rooms_are_never_empty(
    before: &World,
    after: &World,
    room: &Rect,
    map_depth: i32,
)
    requires
        populated(before, after, room, map_depth),
        map_depth >= 4,
    ensures
        *after != *before,
{
    let (points, trace) = choose|points: Seq<SpawnPoint>, trace: Seq<World>| #[trigger]
        is_population(before, after, points, trace) && is_spawn_plan(room, map_depth, points);
    lemma_population_only_adds(before, after, points, trace, points.len() as int);
    assert(points[0].kind is Some);
    assert(spawn_link(trace, points, 0));
    let kind = points[0].kind.unwrap();
    let (e, name, fov) = choose|e: Entity, name: Name, fov: FOV| #[trigger]
        trace[1].is_birth_of(&trace[0], e, &kind_outfit(kind, points[0].x, points[0].y, name, fov))
            && name.name@ == kind_name(kind) && (is_hostile_kind(kind) ==> is_fresh_view(fov));
    lemma_population_only_adds(before, after, points, trace, 1);
    assert(trace[1].entities.slot_alive(e.id as int));
    assert(!before.entities.slot_alive(e.id as int));
}

/// Creating things takes nothing away: whoever is alive after the first
/// `k` steps of a population is alive after the last.
pub proof fn lemma_population_only_adds(
    before: &World,
    after: &World,
    points: Seq<SpawnPoint>,
    trace: Seq<World>,
    k: int,
)
    requires
        is_population(before, after, points, trace),
        0 <= k <= points.len(),
    ensures
        forall|j: int| trace[k].entities.slot_alive(j) ==> after.entities.slot_alive(j),
    decreases points.len() - k,
{
    if k < points.len() {
        lemma_population_only_adds(before, after, points, trace, k + 1);
        assert(spawn_link(trace, points, k));
        match points[k].kind {
            Some(kind) => {
                let (e, name, fov) = choose|e: Entity, name: Name, fov: FOV| #[trigger]
                    trace[k + 1].is_birth_of(
                        &trace[k],
                        e,
                        &kind_outfit(kind, points[k].x, points[k].y, name, fov),
                    ) && name.name@ == kind_name(kind) && (is_hostile_kind(kind)
                        ==> is_fresh_view(fov));
                assert forall|j: int| trace[k].entities.slot_alive(j) implies trace[k
                    + 1].entities.slot_alive(j) by {
                    if j != e.id {
                        assert(trace[k + 1].entities.slot_alive(j) == trace[k].entities.slot_alive(
                            j,
                        ));
                    }
                }
            },
            None => {},
        }
    }
}

/// Populates `room` with what the depth `map_depth` offers, drawn from the
/// world's random source.
pub fn spawn_entities_in_room(world: &mut World, room: &Rect, map_depth: i32)
    requires
        old(world).wf(),
        -32768 <= room.x1 <= room.x2 <= 32767,
        -32768 <= room.y1 <= room.y2 <= 32767,
    ensures
        final(world).wf(),
        final(world).same_resources(&(World { rng: final(world).rng, ..*old(world) })),
        populated(
            &(World { rng: final(world).rng, ..*old(world) }),
            final(world),
            room,
            map_depth,
        ),
{
    let points = plan_spawns(&mut world.rng, room, map_depth);
    let ghost drawn = *world;
    spawn_all(world, &points);
    proof {
        let trace = choose|trace: Seq<World>| #[trigger]
            is_population(&drawn, world, points@, trace);
        assert(drawn == (World { rng: world.rng, ..*old(world) }));
        assert(is_population(
            &(World { rng: world.rng, ..*old(world) }),
            world,
            points@,
            trace,
        ));
    }
}

} // verus!
