//! What the menus decide and what there is to draw. Drawing itself is left
//! to the front end, which hands over the key it read as a `MenuKey`.

use vstd::prelude::*;
use crate::components::{GridPoint, Position, Renderable};
use crate::entity::Entity;
use crate::state::RunState;
use crate::world::World;

verus! {

#[derive(PartialEq, Eq, Structural, Clone, Copy, Debug)]
pub enum MainMenuSelection {
    NewGame,
    LoadGame,
    Quit,
}

#[derive(PartialEq, Eq, Structural, Clone, Copy, Debug)]
pub enum MainMenuResult {
    NoSelection { selected: MainMenuSelection },
    Selected { selected: MainMenuSelection },
}

#[derive(PartialEq, Eq, Structural, Clone, Copy, Debug)]
pub enum ItemMenuResult {
    Exit,
    NoResponse,
    Selected,
}

/// A key as the menus see it.
#[derive(PartialEq, Eq, Structural, Clone, Copy, Debug)]
pub enum MenuKey {
    Escape,
    Up,
    Down,
    Return,
    /// The place of a letter in the alphabet, counted from 0.
    Letter(i32),
    Other,
}

impl MainMenuSelection {
    /// The entry above this one; above the first comes the last.
    pub open spec fn above(self) -> MainMenuSelection {
        match self {
            MainMenuSelection::NewGame => MainMenuSelection::Quit,
            MainMenuSelection::LoadGame => MainMenuSelection::NewGame,
            MainMenuSelection::Quit => MainMenuSelection::LoadGame,
        }
    }

    /// The entry below this one; below the last comes the first.
    pub open spec fn below(self) -> MainMenuSelection {
        match self {
            MainMenuSelection::NewGame => MainMenuSelection::LoadGame,
            MainMenuSelection::LoadGame => MainMenuSelection::Quit,
            MainMenuSelection::Quit => MainMenuSelection::NewGame,
        }
    }
}

/// What the main menu makes of `key` while `selection` is highlighted.
pub open spec fn menu_answer(selection: MainMenuSelection, key: Option<MenuKey>) -> MainMenuResult {
    match key {
        None => MainMenuResult::NoSelection { selected: selection },
        Some(MenuKey::Escape) => MainMenuResult::NoSelection { selected: MainMenuSelection::Quit },
        Some(MenuKey::Up) => MainMenuResult::NoSelection { selected: selection.above() },
        Some(MenuKey::Down) => MainMenuResult::NoSelection { selected: selection.below() },
        Some(MenuKey::Return) => MainMenuResult::Selected { selected: selection },
        Some(_) => MainMenuResult::NoSelection { selected: selection },
    }
}

/// What the main menu makes of `key`. Outside the main menu the answer is
/// to highlight `Quit`.
pub fn main_menu(world: &World, key: Option<MenuKey>) -> (r: MainMenuResult)
    ensures
        r == (match world.run_state {
            RunState::MainMenu { menu_selection } => menu_answer(menu_selection, key),
            _ => MainMenuResult::NoSelection { selected: MainMenuSelection::Quit },
        }),
{
    match world.run_state {
        RunState::MainMenu { menu_selection } => {
            let selection = menu_selection;
            match key {
                None => MainMenuResult::NoSelection { selected: selection },
                Some(MenuKey::Escape) => MainMenuResult::NoSelection {
                    selected: MainMenuSelection::Quit,
                },
                Some(MenuKey::Up) => {
                    let new_selection = match selection {
                        MainMenuSelection::NewGame => MainMenuSelection::Quit,
                        MainMenuSelection::LoadGame => MainMenuSelection::NewGame,
                        MainMenuSelection::Quit => MainMenuSelection::LoadGame,
                    };
                    MainMenuResult::NoSelection { selected: new_selection }
                },
                Some(MenuKey::Down) => {
                    let new_selection = match selection {
                        MainMenuSelection::NewGame => MainMenuSelection::LoadGame,
                        MainMenuSelection::LoadGame => MainMenuSelection::Quit,
                        MainMenuSelection::Quit => MainMenuSelection::NewGame,
                    };
                    MainMenuResult::NoSelection { selected: new_selection }
                },
                Some(MenuKey::Return) => MainMenuResult::Selected { selected: selection },
                Some(_) => MainMenuResult::NoSelection { selected: selection },
            }
        },
        _ => MainMenuResult::NoSelection { selected: MainMenuSelection::Quit },
    }
}

/// The entity of slot `j` is listed in the inventory: it has a name and
/// lies in a backpack.
pub open spec fn in_inventory(w: &World, j: int) -> bool {
    w.names.has(j) && w.in_backpack.has(j)
}

/// The entity of slot `j` is listed in the drop menu: it has a name and
/// lies in the player's backpack.
pub open spec fn in_drop_menu(w: &World, j: int) -> bool {
    w.names.has(j) && match w.in_backpack.at(j) {
        Some(b) => b.owner == w.player_entity,
        None => false,
    }
}

/// The entries of a menu among the first `n` slots, lowest slot first.
pub open spec fn menu_entries(w: &World, for_drop: bool, n: int) -> Seq<Entity>
    decreases n,
{
    if n <= 0 {
        Seq::empty()
    } else {
        menu_entries(w, for_drop, n - 1) + (if (if for_drop {
            in_drop_menu(w, n - 1)
        } else {
            in_inventory(w, n - 1)
        }) {
            seq![w.entities.entity_at(n - 1)]
        } else {
            Seq::empty()
        })
    }
}

/// What a list of items makes of `key`: the escape key leaves, a letter
/// picks the item at its place, and anything else is no answer.
pub open spec fn item_answer(entries: Seq<Entity>, key: Option<MenuKey>) -> (
    ItemMenuResult,
    Option<Entity>,
) {
    match key {
        Some(MenuKey::Escape) => (ItemMenuResult::Exit, None),
        Some(MenuKey::Letter(selection)) => if 0 <= selection < entries.len() {
            (ItemMenuResult::Selected, Some(entries[selection as int]))
        } else {
            (ItemMenuResult::NoResponse, None)
        },
        _ => (ItemMenuResult::NoResponse, None),
    }
}

/// The entries of the inventory, or of the drop menu, in the order in
/// which they are listed.
pub fn list_items(world: &World, for_drop: bool) -> (r: Vec<Entity>)
    requires
        world.wf(),
    ensures
        r@ == menu_entries(world, for_drop, world.in_backpack.slots@.len() as int),
{
    let mut items: Vec<Entity> = Vec::new();
    let n: usize = world.in_backpack.len();
    let mut j: usize = 0;
    while j < n
        invariant
            world.wf(),
            n == world.in_backpack.slots@.len(),
            j <= n,
            items@ == menu_entries(world, for_drop, j as int),
        decreases n - j,
    {
        let listed: bool = world.names.has_slot(j) && match world.in_backpack.slot(j) {
            Some(b) => !for_drop || b.owner == world.player_entity,
            None => false,
        };
        if listed {
            items.push(world.entities.entity(j));
        }
        j += 1;
    }
    items
}

/// What the list `items` makes of `key`.
fn answer(items: &Vec<Entity>, key: Option<MenuKey>) -> (r: (ItemMenuResult, Option<Entity>))
    ensures
        r == item_answer(items@, key),
{
    match key {
        Some(MenuKey::Escape) => (ItemMenuResult::Exit, None),
        Some(MenuKey::Letter(selection)) => {
            if 0 <= selection && (selection as usize) < items.len() {
                (ItemMenuResult::Selected, Some(items[selection as usize]))
            } else {
                (ItemMenuResult::NoResponse, None)
            }
        },
        _ => (ItemMenuResult::NoResponse, None),
    }
}

/// What the inventory makes of `key`.
pub fn show_inventory(world: &World, key: Option<MenuKey>) -> (r: (ItemMenuResult, Option<Entity>))
    requires
        world.wf(),
    ensures
        r == item_answer(menu_entries(world, false, world.in_backpack.slots@.len() as int), key),
{
    let items = list_items(world, false);
    answer(&items, key)
}

/// What the drop menu makes of `key`.
pub fn show_drop_item_menu(world: &World, key: Option<MenuKey>) -> (r: (
    ItemMenuResult,
    Option<Entity>,
))
    requires
        world.wf(),
    ensures
        r == item_answer(menu_entries(world, true, world.in_backpack.slots@.len() as int), key),
{
    let items = list_items(world, true);
    answer(&items, key)
}

/// The point `p` lies less than `range` tiles from `from`.
pub open spec fn in_range(from: GridPoint, p: GridPoint, range: int) -> bool {
    range > 0 && (p.x - from.x) * (p.x - from.x) + (p.y - from.y) * (p.y - from.y) < range * range
}

/// The player sees `p`, and `p` lies less than `range` tiles from where the
/// player stands.
pub open spec fn can_target(w: &World, p: GridPoint, range: int) -> bool {
    match w.fovs.of(&w.entities, w.player_entity) {
        Some(f) => f.visible_tiles@.contains(p) && in_range(w.player_position, p, range),
        None => false,
    }
}

/// Whether `p` lies less than `range` tiles from `from`.
pub fn is_in_range(from: GridPoint, p: GridPoint, range: i32) -> (r: bool)
    ensures
        r == in_range(from, p, range as int),
{
    if range <= 0 {
        return false;
    }
    let dx: i128 = p.x as i128 - from.x as i128;
    let dy: i128 = p.y as i128 - from.y as i128;
    let reach: i128 = range as i128;
    assert(0 <= dx * dx <= 0x1_0000_0000_0000_0000 && 0 <= dy * dy <= 0x1_0000_0000_0000_0000 && 0
        <= reach * reach <= 0x1_0000_0000_0000_0000) by (nonlinear_arith)
        requires
            -0x1_0000_0000 <= dx <= 0x1_0000_0000,
            -0x1_0000_0000 <= dy <= 0x1_0000_0000,
            0 <= reach <= 0x1_0000_0000,
    ;
    dx * dx + dy * dy < reach * reach
}

/// Whether the player sees `p` and `p` lies less than `range` tiles from
/// where the player stands.
pub fn can_be_aimed_at(world: &World, p: GridPoint, range: i32) -> (r: bool)
    requires
        world.wf(),
    ensures
        r == can_target(world, p, range as int),
{
    match world.fovs.get(&world.entities, world.player_entity) {
        Some(f) => crate::monster_ai_system::contains_point(&f.visible_tiles, p) && is_in_range(
            world.player_position,
            p,
            range,
        ),
        None => false,
    }
}

/// What aiming makes of the point under the mouse: a click on a tile that
/// can be aimed at selects it, a click elsewhere leaves, and without a
/// click there is no answer. A player without a view gets no answer.
pub fn show_ranged_targeting(
    world: &World,
    ranged_item_range: i32,
    mouse: GridPoint,
    clicked: bool,
) -> (r: (ItemMenuResult, Option<GridPoint>))
    requires
        world.wf(),
    ensures
        r == (if world.fovs.of(&world.entities, world.player_entity) is None || !clicked {
            (ItemMenuResult::NoResponse, None)
        } else if can_target(world, mouse, ranged_item_range as int) {
            (ItemMenuResult::Selected, Some(mouse))
        } else {
            (ItemMenuResult::Exit, None)
        }),
{
    let valid: bool = match world.fovs.get(&world.entities, world.player_entity) {
        Some(f) => crate::monster_ai_system::contains_point(&f.visible_tiles, mouse)
            && is_in_range(world.player_position, mouse, ranged_item_range),
        None => {
            return (ItemMenuResult::NoResponse, None);
        },
    };
    if !clicked {
        (ItemMenuResult::NoResponse, None)
    } else if valid {
        (ItemMenuResult::Selected, Some(mouse))
    } else {
        (ItemMenuResult::Exit, None)
    }
}

/// Something to draw: the entity of `slot`, where it stands and how it
/// looks.
#[derive(PartialEq, Eq, Structural, Clone, Copy, Debug)]
pub struct Drawn {
    pub slot: usize,
    pub position: Position,
    pub renderable: Renderable,
}

/// `a` is drawn before `b`: it has the higher render order, or the same
/// and the lower slot.
pub open spec fn drawn_before(a: Drawn, b: Drawn) -> bool {
    a.renderable.render_order > b.renderable.render_order || (a.renderable.render_order
        == b.renderable.render_order && a.slot < b.slot)
}

/// What there is to draw of slot `j`.
pub open spec fn drawn_of(w: &World, j: int) -> Option<Drawn> {
    match (w.positions.at(j), w.renderables.at(j)) {
        (Some(p), Some(r)) => Some(Drawn { slot: j as usize, position: p, renderable: r }),
        _ => None,
    }
}

/// `list` is what there is to draw of the first `n` slots, in the order of
/// drawing: every entity that stands somewhere and has a look, once, those
/// with the higher render order first and, among equals, the lower slot
/// first. What is drawn later covers what was drawn before.
pub open spec fn is_draw_list(w: &World, list: Seq<Drawn>, n: int) -> bool {
    &&& forall|a: int, b: int|
        #![trigger list[a], list[b]]
        0 <= a < b < list.len() ==> drawn_before(list[a], list[b])
    &&& forall|k: int|
        0 <= k < list.len() ==> (#[trigger] list[k]).slot < n && drawn_of(w, list[k].slot as int)
            == Some(list[k])
    &&& forall|j: int|
        0 <= j < n && #[trigger] drawn_of(w, j) is Some ==> list.contains(drawn_of(w, j).unwrap())
}

/// What there is to draw, in the order of drawing.
pub fn render_list(world: &World) -> (list: Vec<Drawn>)
    ensures
        is_draw_list(world, list@, world.positions.slots@.len() as int),
{
    let mut list: Vec<Drawn> = Vec::new();
    let n: usize = world.positions.len();
    let mut j: usize = 0;
    while j < n
        invariant
            n == world.positions.slots@.len(),
            j <= n,
            is_draw_list(world, list@, j as int),
        decreases n - j,
    {
        let place: Option<Position> = world.positions.copied(j);
        let look: Option<Renderable> = world.renderables.copied(j);
        if let (Some(position), Some(renderable)) = (place, look) {
            let item = Drawn { slot: j, position, renderable };
            // the first entry that is drawn after the new one
            let mut at: usize = 0;
            while at < list.len() && list[at].renderable.render_order >= renderable.render_order
                invariant
                    at <= list@.len(),
                    is_draw_list(world, list@, j as int),
                    item == (Drawn { slot: j, position, renderable }),
                    forall|k: int| 0 <= k < at ==> drawn_before(#[trigger] list@[k], item),
                decreases list@.len() - at,
            {
                at += 1;
            }
            let ghost before = list@;
            list.insert(at, item);
            proof {
                assert(list@ == before.insert(at as int, item));
                assert forall|a: int, b: int|
                    #![trigger list@[a], list@[b]]
                    0 <= a < b < list@.len() implies drawn_before(list@[a], list@[b]) by {
                    let pa = if a < at {
                        a
                    } else {
                        a - 1
                    };
                    let pb = if b < at {
                        b
                    } else {
                        b - 1
                    };
                    if a != at && b != at {
                        assert(list@[a] == before[pa] && list@[b] == before[pb]);
                    } else if a == at {
                        assert(list@[b] == before[pb]);
                        assert(drawn_before(before[at as int], before[pb]) || pb == at);
                    } else {
                        assert(list@[a] == before[pa]);
                    }
                }
                assert forall|k: int| 0 <= k < list@.len() implies (#[trigger] list@[k]).slot < j
                    + 1 && drawn_of(world, list@[k].slot as int) == Some(list@[k]) by {
                    if k < at {
                        assert(list@[k] == before[k]);
                    } else if k > at {
                        assert(list@[k] == before[k - 1]);
                    }
                }
                assert forall|q: int|
                    0 <= q < j + 1 && #[trigger] drawn_of(
                        world,
                        q,
                    ) is Some implies list@.contains(drawn_of(world, q).unwrap()) by {
                    if q < j {
                        let d = drawn_of(world, q).unwrap();
                        assert(before.contains(d));
                        let k = choose|k: int| 0 <= k < before.len() && before[k] == d;
                        if k < at {
                            assert(list@[k] == d);
                        } else {
                            assert(list@[k + 1] == d);
                        }
                    } else {
                        assert(list@[at as int] == item);
                    }
                }
            }
        } else {
            proof {
                assert(drawn_of(world, j as int) is None);
            }
        }
        j += 1;
    }
    list
}

} // verus!
