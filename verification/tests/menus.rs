use dungeon_core::components::{
    Color, GridPoint, InBackpack, Item, Name, Position, Renderable, FOV,
};
use dungeon_core::entity::Entity;
use dungeon_core::gui::{
    is_in_range, list_items, main_menu, render_list, show_drop_item_menu, show_inventory,
    show_ranged_targeting, Drawn, ItemMenuResult, MainMenuResult, MainMenuSelection, MenuKey,
};
use dungeon_core::map::GameMap;
use dungeon_core::state::RunState;
use dungeon_core::outfit::Outfit;
use dungeon_core::world::World;
use rltk::RandomNumberGenerator;

fn stage() -> (World, Entity) {
    let mut world = World::new(GameMap::new(20, 20, 1), RandomNumberGenerator::seeded(8));
    let player = world.spawn(Outfit {
        position: Some(Position { x: 5, y: 5 }),
        fov: Some(FOV {
            visible_tiles: vec![
                GridPoint { x: 5, y: 5 },
                GridPoint { x: 7, y: 5 },
                GridPoint { x: 8, y: 9 },
                GridPoint { x: 5, y: 11 },
            ],
            range: 8,
            needs_update: false,
        }),
        ..Outfit::none()
    });
    world.player_entity = player;
    world.player_position = GridPoint { x: 5, y: 5 };
    (world, player)
}

fn pack(world: &mut World, owner: Entity, name: Option<&str>) -> Entity {
    world.spawn(Outfit {
        item: Some(Item {}),
        name: name.map(|n| Name { name: n.to_string() }),
        in_backpack: Some(InBackpack { owner }),
        ..Outfit::none()
    })
}

#[test]
fn main_menu_moves_up_and_down_in_a_circle() {
    let (mut world, _) = stage();
    let order = [MainMenuSelection::NewGame, MainMenuSelection::LoadGame, MainMenuSelection::Quit];
    for i in 0..3 {
        world.run_state = RunState::MainMenu { menu_selection: order[i] };
        assert_eq!(
            main_menu(&world, Some(MenuKey::Down)),
            MainMenuResult::NoSelection { selected: order[(i + 1) % 3] }
        );
        assert_eq!(
            main_menu(&world, Some(MenuKey::Up)),
            MainMenuResult::NoSelection { selected: order[(i + 2) % 3] }
        );
        assert_eq!(main_menu(&world, None), MainMenuResult::NoSelection { selected: order[i] });
        assert_eq!(
            main_menu(&world, Some(MenuKey::Return)),
            MainMenuResult::Selected { selected: order[i] }
        );
        assert_eq!(
            main_menu(&world, Some(MenuKey::Escape)),
            MainMenuResult::NoSelection { selected: MainMenuSelection::Quit }
        );
        assert_eq!(
            main_menu(&world, Some(MenuKey::Letter(3))),
            MainMenuResult::NoSelection { selected: order[i] }
        );
        assert_eq!(
            main_menu(&world, Some(MenuKey::Other)),
            MainMenuResult::NoSelection { selected: order[i] }
        );
    }
}

#[test]
fn main_menu_outside_its_phase_points_at_quit() {
    let (mut world, _) = stage();
    world.run_state = RunState::AwaitingInput;
    assert_eq!(
        main_menu(&world, Some(MenuKey::Return)),
        MainMenuResult::NoSelection { selected: MainMenuSelection::Quit }
    );
}

#[test]
fn inventory_lists_named_items_in_backpacks() {
    let (mut world, player) = stage();
    let other = world.spawn(Outfit::none());
    let a = pack(&mut world, player, Some("a"));
    let _nameless = pack(&mut world, player, None);
    let b = pack(&mut world, other, Some("b"));
    let c = pack(&mut world, player, Some("c"));
    assert_eq!(list_items(&world, false), vec![a, b, c]);
    assert_eq!(list_items(&world, true), vec![a, c]);
    assert_eq!(show_inventory(&world, Some(MenuKey::Letter(1))), (ItemMenuResult::Selected, Some(b)));
    assert_eq!(
        show_drop_item_menu(&world, Some(MenuKey::Letter(1))),
        (ItemMenuResult::Selected, Some(c))
    );
}

#[test]
fn item_menus_answer_the_keys() {
    let (mut world, player) = stage();
    let a = pack(&mut world, player, Some("a"));
    assert_eq!(show_inventory(&world, None), (ItemMenuResult::NoResponse, None));
    assert_eq!(show_inventory(&world, Some(MenuKey::Escape)), (ItemMenuResult::Exit, None));
    assert_eq!(show_inventory(&world, Some(MenuKey::Letter(0))), (ItemMenuResult::Selected, Some(a)));
    assert_eq!(show_inventory(&world, Some(MenuKey::Letter(1))), (ItemMenuResult::NoResponse, None));
    assert_eq!(show_inventory(&world, Some(MenuKey::Letter(-1))), (ItemMenuResult::NoResponse, None));
    assert_eq!(show_inventory(&world, Some(MenuKey::Up)), (ItemMenuResult::NoResponse, None));
    assert_eq!(show_drop_item_menu(&world, Some(MenuKey::Escape)), (ItemMenuResult::Exit, None));
    assert_eq!(show_drop_item_menu(&world, Some(MenuKey::Other)), (ItemMenuResult::NoResponse, None));
}

#[test]
fn range_is_measured_as_the_crow_flies() {
    let from = GridPoint { x: 5, y: 5 };
    assert!(is_in_range(from, GridPoint { x: 5, y: 5 }, 1));
    assert!(is_in_range(from, GridPoint { x: 8, y: 9 }, 6));
    assert!(!is_in_range(from, GridPoint { x: 8, y: 9 }, 5));
    assert!(!is_in_range(from, GridPoint { x: 5, y: 11 }, 6));
    assert!(is_in_range(from, GridPoint { x: 5, y: 11 }, 7));
    assert!(!is_in_range(from, from, 0));
    assert!(!is_in_range(from, from, -3));
    assert!(!is_in_range(GridPoint { x: i32::MIN, y: i32::MIN }, GridPoint { x: i32::MAX, y: i32::MAX }, i32::MAX));
}

#[test]
fn targeting_selects_what_is_seen_and_near() {
    let (world, _) = stage();
    let seen_near = GridPoint { x: 7, y: 5 };
    let seen_far = GridPoint { x: 5, y: 11 };
    let unseen = GridPoint { x: 6, y: 5 };
    assert_eq!(
        show_ranged_targeting(&world, 6, seen_near, true),
        (ItemMenuResult::Selected, Some(seen_near))
    );
    assert_eq!(show_ranged_targeting(&world, 6, seen_near, false), (ItemMenuResult::NoResponse, None));
    assert_eq!(show_ranged_targeting(&world, 6, seen_far, true), (ItemMenuResult::Exit, None));
    assert_eq!(show_ranged_targeting(&world, 6, unseen, true), (ItemMenuResult::Exit, None));
    assert_eq!(show_ranged_targeting(&world, 6, unseen, false), (ItemMenuResult::NoResponse, None));
}

#[test]
fn targeting_without_a_view_gives_no_answer() {
    let (mut world, player) = stage();
    world.fovs.remove(&world.entities, player);
    assert_eq!(
        show_ranged_targeting(&world, 6, GridPoint { x: 7, y: 5 }, true),
        (ItemMenuResult::NoResponse, None)
    );
}

fn look(order: i32, symbol: u16) -> Renderable {
    Renderable {
        symbol,
        foreground: Color { r: 1, g: 2, b: 3 },
        background: Color { r: 0, g: 0, b: 0 },
        render_order: order,
    }
}

#[test]
fn draw_list_puts_the_higher_order_first_and_keeps_ties_in_slot_order() {
    let mut world = World::new(GameMap::new(20, 20, 1), RandomNumberGenerator::seeded(8));
    let specs = [(0, 10), (2, 11), (1, 12), (2, 13), (0, 14), (1, 15)];
    for (i, (order, symbol)) in specs.iter().enumerate() {
        world.spawn(Outfit {
            position: Some(Position { x: i as i32, y: 0 }),
            renderable: Some(look(*order, *symbol)),
            ..Outfit::none()
        });
    }
    world.spawn(Outfit { position: Some(Position { x: 9, y: 9 }), ..Outfit::none() });
    world.spawn(Outfit { renderable: Some(look(5, 99)), ..Outfit::none() });
    let list = render_list(&world);
    let slots: Vec<usize> = list.iter().map(|d| d.slot).collect();
    assert_eq!(slots, vec![1, 3, 2, 5, 0, 4]);
    assert_eq!(
        list[0],
        Drawn { slot: 1, position: Position { x: 1, y: 0 }, renderable: look(2, 11) }
    );
    assert!(render_list(&World::new(GameMap::new(2, 2, 1), RandomNumberGenerator::seeded(1))).is_empty());
}
