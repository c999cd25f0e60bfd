use bracket_random::prelude::RandomNumberGenerator;
use darkdelver::camera::Camera;
use darkdelver::combat::{proc_all_wounds, proc_regen};
use darkdelver::drink::drink_object;
use darkdelver::equip::{equip_object, process_effect_modifiers, unequip_object};
use darkdelver::geometry::{Coord, Rect};
use darkdelver::input::Actions;
use darkdelver::inventory::{
    drop_item, EffectType, InventoryMenu, InventorySubMenu, ItemEffect, ItemInfo, ItemStats,
    ItemUsage,
};
use darkdelver::logs::{LogBuffer, LogBufferTrait, LogMessage, LOG_WIDTH};
use darkdelver::map::{GameMap, TileClass};
use darkdelver::menus::{Menu, MenuSelection};
use darkdelver::object::{
    AIClass, ActorTag, ColorPair, Damage, EquipSlot, Health, InInventory, Object, Render, Rgb,
    Viewshed,
};
use darkdelver::player::{on_down_stairs, process_action, try_attack_player, try_go_downstairs};
use darkdelver::playermem::update_player_memory;
use darkdelver::spawn::{
    add_positional_info, get_enemy_spawn_table, get_item_spawns, get_starting_equip, give_items,
    make_corpse, spawn_player, spawn_table_id, try_find_spawnable_position, weighted_draw,
    SpawnEntry,
};
use darkdelver::state::{
    next_turn, prune_stale, systems_after_ai, systems_before_ai, MouseLocation, TurnEvent,
    TurnFlags, TurnState, World,
};

fn white() -> ColorPair {
    ColorPair::new(Rgb::new(255, 255, 255), Rgb::new(0, 0, 0))
}

fn item(name: &str, owner: usize, stats: ItemStats) -> Object {
    let mut o = Object::blank();
    o.name = Some(name.to_string());
    o.render = Some(Render { glyph: 33, color: white(), order: 2 });
    o.in_inventory = Some(InInventory { owner_id: owner });
    o.item_stats = Some(stats);
    o
}

fn entry(id: u32, weight: u32) -> SpawnEntry {
    let mut t = Object::blank();
    t.name = Some(format!("enemy {}", id));
    SpawnEntry { enemy_id: id, weight, template: t }
}

#[test]
fn weighted_draw_picks_the_interval_of_the_pivot() {
    let t = vec![entry(1, 2), entry(2, 0), entry(3, 3)];
    assert_eq!(weighted_draw(&t, 0), 0);
    assert_eq!(weighted_draw(&t, 1), 0);
    assert_eq!(weighted_draw(&t, 2), 2);
    assert_eq!(weighted_draw(&t, 4), 2);
}

#[test]
fn enemy_table_draws_the_requested_count() {
    let t = vec![entry(1, 1), entry(2, 3)];
    let mut rng = RandomNumberGenerator::seeded(11);
    assert_eq!(get_enemy_spawn_table(&t, 7, &mut rng).len(), 7);
    assert_eq!(get_enemy_spawn_table(&t, -2, &mut rng).len(), 0);
    let only = vec![entry(1, 0), entry(9, 5)];
    let drawn = get_enemy_spawn_table(&only, 5, &mut rng);
    assert!(drawn.iter().all(|o| o.name.as_deref() == Some("enemy 9")));
}

#[test]
fn spawn_table_by_depth() {
    assert_eq!(spawn_table_id(1), 1);
    assert_eq!(spawn_table_id(3), 1);
    assert_eq!(spawn_table_id(4), 2);
    assert_eq!(spawn_table_id(0), 2);
}

#[test]
fn heal_stops_at_maximum() {
    let mut h = Health::new(20);
    h.current = 15;
    assert_eq!(h.heal(3), 3);
    assert_eq!(h.current, 18);
    assert_eq!(h.heal(10), 2);
    assert_eq!(h.current, 20);
}

#[test]
fn regeneration_every_ten_turns() {
    let mut objects = vec![spawn_player(Coord { x: 1, y: 1 })];
    objects[0].health.as_mut().unwrap().current = 40;
    for _ in 0..9 {
        proc_regen(&mut objects);
    }
    assert_eq!(objects[0].health.as_ref().unwrap().current, 40);
    proc_regen(&mut objects);
    assert_eq!(objects[0].health.as_ref().unwrap().current, 41);
    assert_eq!(objects[0].health.as_ref().unwrap().regen_timer, 0);
}

#[test]
fn damage_roll_within_dice_and_modifiers() {
    let mut d = Damage::new(Damage::get_default_damage());
    assert_eq!((d.dice, d.val), (1, 4));
    d.modifiers = vec![2, -1];
    let mut rng = RandomNumberGenerator::seeded(2);
    let mut seen = std::collections::HashSet::new();
    for _ in 0..200 {
        let r = d.roll(&mut rng);
        assert!(2 <= r && r <= 5);
        seen.insert(r);
    }
    assert!(seen.len() > 1);
    let three = Damage::new((3, 1));
    assert_eq!(three.roll(&mut rng), 3);
}

#[test]
fn wounds_resolve_and_kill() {
    let mut objects = vec![spawn_player(Coord { x: 1, y: 1 })];
    let mut e = Object::blank();
    e.name = Some("Rat".to_string());
    e.pos = Some(Coord { x: 4, y: 2 });
    e.floor = 3;
    e.health = Some(Health::new(5));
    e.health.as_mut().unwrap().wounds = vec![3, 4];
    objects.push(e);
    objects[0].health.as_mut().unwrap().wounds = vec![6];
    let mut logs: LogBuffer = Vec::new();
    let mut dead = false;
    proc_all_wounds(&mut objects, &mut logs, &mut dead);
    assert!(!dead);
    assert_eq!(objects.len(), 2);
    let h = objects[0].health.as_ref().unwrap();
    assert_eq!(h.current, 42);
    assert!(h.wounds.is_empty());
    assert!(objects[1].health.is_none());
    assert_eq!(objects[1].name.as_deref(), Some("A Corpse"));
    assert_eq!(objects[1].pos, Some(Coord { x: 4, y: 2 }));
    assert_eq!(objects[1].floor, 3);
    assert!(logs.len() >= 3);
}

#[test]
fn player_death_is_reported() {
    let mut objects = vec![spawn_player(Coord { x: 1, y: 1 })];
    objects[0].health.as_mut().unwrap().wounds = vec![48];
    let mut logs: LogBuffer = Vec::new();
    let mut dead = false;
    proc_all_wounds(&mut objects, &mut logs, &mut dead);
    assert!(dead);
}

#[test]
fn turn_transitions() {
    assert_eq!(next_turn(TurnState::Player, TurnEvent::PlayerActed), TurnState::AI);
    assert_eq!(next_turn(TurnState::AI, TurnEvent::AllActed), TurnState::Player);
    assert_eq!(next_turn(TurnState::AI, TurnEvent::PlayerDied), TurnState::GameOver);
    assert_eq!(next_turn(TurnState::GameOver, TurnEvent::PlayerActed), TurnState::GameOver);
    assert_eq!(next_turn(TurnState::GameOver, TurnEvent::AllActed), TurnState::GameOver);
    assert_eq!(next_turn(TurnState::GameOver, TurnEvent::NewGame), TurnState::Player);
    assert_eq!(next_turn(TurnState::Player, TurnEvent::AllActed), TurnState::Player);
}

fn world_table() -> Vec<SpawnEntry> {
    let mut t = Object::blank();
    t.name = Some("Orc".to_string());
    t.tag = Some(ActorTag::Enemy);
    t.block_tile = true;
    t.initiative = Some(4);
    t.health = Some(Health::new(8));
    t.damage = Some(Damage::new((1, 3)));
    t.viewshed = Some(Viewshed { range: 6, visible: Vec::new(), refresh: true });
    t.ai = Some(AIClass::new());
    vec![SpawnEntry { enemy_id: 1, weight: 2, template: t }]
}

#[test]
fn new_game_and_descent() {
    let equip = vec![item("Sword", 0, ItemStats::blank_with_drop())];
    let mut w = World::new_game(RandomNumberGenerator::seeded(8), equip, &world_table());
    assert_eq!(w.depth, 1);
    assert_eq!(w.objects[0].tag, Some(ActorTag::Player));
    assert_eq!(w.objects[1].name.as_deref(), Some("Sword"));
    let p = w.objects[0].pos.unwrap();
    assert!(w.active_map.walkable(p.x, p.y));
    assert_eq!(w.camera.min_x, p.x - 40);
    assert_eq!(w.camera.max_y, p.y + 30);
    let enemies = w.objects.len() - 2;
    assert_eq!(enemies, 19);
    let first_tiles = w.active_map.tiles.clone();
    w.descend_to_next(&world_table());
    assert_eq!(w.depth, 2);
    assert_eq!(w.last_map.as_ref().unwrap().tiles, first_tiles);
    assert_eq!(w.objects[0].floor, 2);
    assert!(w.objects[0].viewshed.as_ref().unwrap().refresh);
    assert_eq!(w.objects.len(), 2 + 19 + 19);
    w.descend_to_next(&world_table());
    assert_eq!(w.depth, 3);
    assert!(w.objects.iter().all(|o| o.floor >= 2 || o.in_inventory.is_some()));
    assert_eq!(w.objects.len(), 2 + 19 + 19);
    assert_eq!(w.objects[1].in_inventory.as_ref().unwrap().owner_id, 0);
}

#[test]
fn pruning_remaps_owners() {
    let mut old_enemy = Object::blank();
    old_enemy.floor = 1;
    let mut keeper = Object::blank();
    keeper.floor = 4;
    let objects = vec![
        spawn_player(Coord { x: 1, y: 1 }),
        old_enemy,
        item("loot", 1, ItemStats::blank()),
        keeper,
        item("ring", 3, ItemStats::blank()),
    ];
    let mut objects = objects;
    objects[0].floor = 4;
    let kept = prune_stale(objects, 4);
    assert_eq!(kept.len(), 3);
    assert_eq!(kept[2].name.as_deref(), Some("ring"));
    assert_eq!(kept[2].in_inventory.as_ref().unwrap().owner_id, 1);
}

#[test]
fn phases_run_in_order() {
    let mut w = World::new_game(RandomNumberGenerator::seeded(9), Vec::new(), &world_table());
    let mut logs: LogBuffer = Vec::new();
    let mut flags = TurnFlags::new();
    flags.passed = true;
    let ai = systems_before_ai(&mut w, &mut logs, &mut flags);
    assert!(ai);
    assert_eq!(flags.turn_state, TurnState::AI);
    assert!(!w.objects[0].viewshed.as_ref().unwrap().refresh);
    systems_after_ai(&mut w, &mut logs, &mut flags, ai);
    assert_eq!(flags.turn_state, TurnState::Player);
    assert!(!flags.proc);
    assert!(!systems_before_ai(&mut w, &mut logs, &mut flags));
}

#[test]
fn game_over_after_player_death() {
    let mut w = World::new_game(RandomNumberGenerator::seeded(10), Vec::new(), &world_table());
    w.objects[0].health.as_mut().unwrap().wounds = vec![100];
    let mut logs: LogBuffer = Vec::new();
    let mut flags = TurnFlags::new();
    let ai = systems_before_ai(&mut w, &mut logs, &mut flags);
    systems_after_ai(&mut w, &mut logs, &mut flags, ai);
    assert_eq!(flags.turn_state, TurnState::GameOver);
    assert!(!flags.gameover);
}

#[test]
fn menus_cycle_and_choose() {
    let mut m = Menu::main_menu();
    assert_eq!(m.selections, vec![MenuSelection::NewGame, MenuSelection::LoadGame, MenuSelection::Quit]);
    m.cycle_selection_up();
    assert_eq!(m.current_selection, 2);
    m.cycle_selection_down();
    assert_eq!(m.current_selection, 0);
    m.cycle_selection_down();
    m.process_selection();
    assert_eq!(m.processed_selection, Some(MenuSelection::LoadGame));
    let p = Menu::pause_menu();
    assert_eq!(p.selections.len(), 4);
    assert_eq!(p.selections[0], MenuSelection::Continue);
}

#[test]
fn camera_centres_on_the_point() {
    let mut c = Camera::new(Coord { x: 10, y: 20 });
    assert_eq!((c.min_x, c.max_x, c.min_y, c.max_y), (-30, 50, -10, 50));
    c.move_camera(Coord { x: 0, y: 0 });
    assert_eq!((c.min_x, c.max_x, c.min_y, c.max_y), (-40, 40, -30, 30));
}

#[test]
fn usage_names_and_letters() {
    assert_eq!(ItemUsage::Drop.get_name(), "Drop");
    assert_eq!(ItemUsage::Activate.get_name(), "Activate");
    assert_eq!(ItemUsage::Drink.get_letter(), 'q');
    assert_eq!(ItemUsage::Throw.get_letter(), 't');
    let b = ItemStats::blank_with_drop();
    assert_eq!(b.usages, vec![ItemUsage::Drop]);
    assert_eq!(b.effects[0].etype, EffectType::NIL);
    assert!(ItemStats::blank().usages.is_empty());
    assert_eq!(ItemEffect::nil().etype, EffectType::NIL);
    let s = ItemStats::new(vec![ItemUsage::Equip], vec![]);
    assert!(!s.equipped);
}

#[test]
fn slots_from_database_names() {
    assert_eq!(EquipSlot::match_db_string("MainHand"), Some(EquipSlot::MainHand));
    assert_eq!(EquipSlot::match_db_string("2Hand"), Some(EquipSlot::TwoHand));
    assert_eq!(EquipSlot::match_db_string("Head"), None);
    assert_eq!(EquipSlot::get_all_slots().len(), 11);
}

#[test]
fn inventory_menu_lists_player_items() {
    let mut objects = vec![spawn_player(Coord { x: 2, y: 2 })];
    objects.push(item("Potion", 0, ItemStats::new(vec![ItemUsage::Drink, ItemUsage::Drop], vec![])));
    objects.push(item("Elsewhere", 5, ItemStats::blank()));
    objects.push(item("Dagger", 0, ItemStats::blank_with_drop()));
    let mut menu = InventoryMenu::new(&objects);
    assert_eq!(menu.items.len(), 2);
    assert_eq!(menu.items[0].obj_id, 1);
    assert_eq!(menu.items[1].name, "Dagger");
    menu.move_selection_up();
    assert_eq!(menu.selection, 0);
    menu.move_selection_down();
    menu.move_selection_down();
    assert_eq!(menu.selection, 1);
    menu.move_selection_up();
    menu.process_selection(&mut objects);
    let sm = menu.submenu.as_ref().unwrap();
    assert_eq!(sm.opts, vec![ItemUsage::Drink, ItemUsage::Drop]);
    assert_eq!(sm.info.obj_id, 1);
}

#[test]
fn submenu_drop_puts_item_at_owner() {
    let mut objects = vec![spawn_player(Coord { x: 2, y: 3 })];
    objects.push(item("Potion", 0, ItemStats::new(vec![ItemUsage::Drink, ItemUsage::Drop], vec![])));
    let info = ItemInfo {
        obj_id: 1,
        name: "Potion".to_string(),
        render: Render::nil_render(),
        stats: ItemStats::new(vec![ItemUsage::Drink, ItemUsage::Drop], vec![]),
    };
    let mut sm = InventorySubMenu::new(info);
    let mut logs: LogBuffer = Vec::new();
    sm.process_selection(&mut objects, &mut logs);
    assert!(objects[1].in_inventory.is_some());
    sm.move_selection_down();
    sm.move_selection_down();
    assert_eq!(sm.selection, 1);
    sm.process_selection(&mut objects, &mut logs);
    assert!(objects[1].in_inventory.is_none());
    assert_eq!(objects[1].pos, Some(Coord { x: 2, y: 3 }));
    assert_eq!(logs.len(), 1);
}

#[test]
fn drop_without_owner_position_does_nothing() {
    let mut owner = Object::blank();
    owner.pos = None;
    let mut objects = vec![owner, item("Stone", 0, ItemStats::blank())];
    drop_item(&mut objects, 1);
    assert!(objects[1].in_inventory.is_some());
    drop_item(&mut objects, 9);
}

fn sword(slot: EquipSlot) -> Object {
    let mut s = item(
        "Sword",
        0,
        ItemStats::new(
            vec![ItemUsage::Equip],
            vec![
                ItemEffect { etype: EffectType::WeaponDamage, params: Some(vec![2, 6]), on_equip: true },
                ItemEffect { etype: EffectType::HealthUp, params: Some(vec![5]), on_equip: true },
            ],
        ),
    );
    s.equip_slot = Some(slot);
    s
}

#[test]
fn equip_applies_and_unequip_takes_back() {
    let mut objects = vec![spawn_player(Coord { x: 1, y: 1 }), sword(EquipSlot::MainHand)];
    let mut logs: LogBuffer = Vec::new();
    equip_object(&mut objects, 1, &mut logs);
    assert!(objects[1].item_stats.as_ref().unwrap().equipped);
    let d = objects[0].damage.as_ref().unwrap();
    assert_eq!((d.dice, d.val), (2, 6));
    assert_eq!(objects[0].health.as_ref().unwrap().max, 53);
    assert_eq!(objects[0].health.as_ref().unwrap().current, 53);
    unequip_object(&mut objects, 1, &mut logs);
    assert!(!objects[1].item_stats.as_ref().unwrap().equipped);
    let d = objects[0].damage.as_ref().unwrap();
    assert_eq!((d.dice, d.val), (1, 4));
    assert_eq!(objects[0].health.as_ref().unwrap().max, 48);
    assert_eq!(logs.len(), 2);
}

#[test]
fn two_handed_item_blocks_a_hand() {
    let mut objects = vec![
        spawn_player(Coord { x: 1, y: 1 }),
        sword(EquipSlot::TwoHand),
        sword(EquipSlot::OffHand),
        sword(EquipSlot::Head),
    ];
    let mut logs: LogBuffer = Vec::new();
    equip_object(&mut objects, 1, &mut logs);
    equip_object(&mut objects, 2, &mut logs);
    assert!(!objects[2].item_stats.as_ref().unwrap().equipped);
    equip_object(&mut objects, 3, &mut logs);
    assert!(objects[3].item_stats.as_ref().unwrap().equipped);
    process_effect_modifiers(&mut objects, 0, false);
}

#[test]
fn drinking_heals_and_uses_up() {
    let mut objects = vec![spawn_player(Coord { x: 1, y: 1 })];
    objects[0].health.as_mut().unwrap().current = 10;
    objects.push(item(
        "Potion",
        0,
        ItemStats::new(
            vec![ItemUsage::Drink],
            vec![ItemEffect { etype: EffectType::HealSelf, params: Some(vec![2, 4]), on_equip: false }],
        ),
    ));
    objects.push(item("Rock", 0, ItemStats::blank()));
    let mut logs: LogBuffer = Vec::new();
    let mut rng = RandomNumberGenerator::seeded(3);
    drink_object(&mut objects, 1, &mut logs, &mut rng);
    assert_eq!(objects.len(), 2);
    let c = objects[0].health.as_ref().unwrap().current;
    assert!(12 <= c && c <= 18);
    assert_eq!(objects[1].name.as_deref(), Some("Rock"));
    drink_object(&mut objects, 1, &mut logs, &mut rng);
    assert_eq!(objects.len(), 2);
}

#[test]
fn player_remembers_what_it_sees() {
    let mut objects = vec![spawn_player(Coord { x: 1, y: 1 })];
    objects[0].viewshed.as_mut().unwrap().visible = vec![Coord { x: 1, y: 1 }, Coord { x: 2, y: 2 }];
    let mut a = Object::blank();
    a.pos = Some(Coord { x: 2, y: 2 });
    let mut b = Object::blank();
    b.pos = Some(Coord { x: 5, y: 5 });
    objects.push(a);
    objects.push(b);
    objects.push(Object::blank());
    update_player_memory(&mut objects);
    assert!(objects[1].player_mem.seen);
    assert_eq!(objects[1].player_mem.last_pos, Some(Coord { x: 2, y: 2 }));
    assert!(!objects[2].player_mem.seen);
    assert!(!objects[3].player_mem.seen);
}

#[test]
fn spawnable_position_avoids_blocked_tiles() {
    let room = Rect::with_size(2, 2, 2, 2);
    let mut rng = RandomNumberGenerator::seeded(6);
    let blocked = vec![Coord { x: 2, y: 2 }, Coord { x: 3, y: 2 }, Coord { x: 2, y: 3 }];
    for _ in 0..20 {
        assert_eq!(try_find_spawnable_position(&room, &blocked, false, &mut rng), Some(Coord { x: 3, y: 3 }));
    }
    let all = vec![Coord { x: 2, y: 2 }, Coord { x: 3, y: 2 }, Coord { x: 2, y: 3 }, Coord { x: 3, y: 3 }];
    assert_eq!(try_find_spawnable_position(&room, &all, false, &mut rng), None);
    let p = try_find_spawnable_position(&room, &all, true, &mut rng).unwrap();
    assert!(all.contains(&p));
}

#[test]
fn item_and_equipment_helpers() {
    let potion = item("Potion", 3, ItemStats::blank());
    let spawns = get_item_spawns(vec![potion]);
    assert_eq!(spawns.len(), 5);
    assert!(get_item_spawns(Vec::new()).is_empty());
    let equip = get_starting_equip(vec![item("Shield", 7, ItemStats::blank())]);
    assert_eq!(equip[0].in_inventory.as_ref().unwrap().owner_id, 0);
    let mut objects = vec![spawn_player(Coord { x: 1, y: 1 })];
    give_items(&mut objects, 0, vec![Object::blank(), Object::blank()]);
    assert_eq!(objects.len(), 3);
    assert_eq!(objects[2].in_inventory.as_ref().unwrap().owner_id, 0);
    let mut c = make_corpse(Coord { x: 4, y: 4 }, 2);
    assert_eq!(c.render.unwrap().glyph, 37);
    add_positional_info(&mut c, Coord { x: 9, y: 9 }, 5);
    assert_eq!((c.pos, c.floor), (Some(Coord { x: 9, y: 9 }), 5));
}

#[test]
fn log_lines_wrap_at_the_width() {
    let mut logs: LogBuffer = Vec::new();
    let long = "word ".repeat(40);
    logs.update_logs(LogMessage::new().add_part(long, white()));
    assert!(logs.len() >= 3);
    for m in logs.iter() {
        let n: usize = m.parts.iter().map(|p| p.chars().count()).sum();
        assert!(n < LOG_WIDTH);
        assert_eq!(m.parts.len(), m.colors.len());
    }
    for _ in 0..40 {
        logs.update_logs(LogMessage::new().add_part("hi".to_string(), white()));
    }
    assert!(logs.len() <= 32);
    assert_eq!(logs.last().unwrap().parts, vec!["hi".to_string()]);
}

#[test]
fn mouse_and_move_intents() {
    let mut m = MouseLocation::new();
    assert!(!m.has_changed());
    m.get_pos(Coord { x: 3, y: 4 });
    assert!(m.has_changed());
    m.get_pos(Coord { x: 3, y: 4 });
    assert!(!m.has_changed());
    assert_eq!(Actions::MoveUpLeft.move_delta(), Some((-1, -1)));
    assert_eq!(Actions::Wait.move_delta(), None);
}

#[test]
fn map_addressing_and_exits() {
    let mut m = GameMap::new(5, 4);
    assert_eq!(m.index(3, 2), 13);
    assert_eq!(m.point_from_idx(13), Coord { x: 3, y: 2 });
    assert_eq!(m.try_index(5, 0), None);
    assert_eq!(m.try_index(4, 3), Some(19));
    let i = m.index(1, 0);
    m.tiles[i] = TileClass::Wall;
    let exits = m.get_available_exits(m.index(0, 0));
    assert_eq!(exits, vec![(5, 100), (6, 145)]);
    assert!(TileClass::Glass.does_collide());
    assert!(!TileClass::Glass.does_blos());
    assert!(!TileClass::DownStair.does_collide());
    let copy = GameMap::from_copy(&m);
    assert_eq!(copy.tiles, m.tiles);
}

#[test]
fn moving_and_striking() {
    let m = GameMap::new(5, 5);
    let mut p = spawn_player(Coord { x: 1, y: 1 });
    p.viewshed.as_mut().unwrap().refresh = false;
    p.try_move(Coord { x: 2, y: 1 }, &m);
    assert_eq!(p.pos, Some(Coord { x: 2, y: 1 }));
    assert!(p.viewshed.as_ref().unwrap().refresh);
    p.try_move(Coord { x: 9, y: 1 }, &m);
    assert_eq!(p.pos, Some(Coord { x: 2, y: 1 }));
    let mut target = Object::blank();
    target.health = Some(Health::new(5));
    let mut rng = RandomNumberGenerator::seeded(1);
    p.try_attack(&mut target, &mut rng);
    let w = &target.health.as_ref().unwrap().wounds;
    assert_eq!(w.len(), 1);
    assert!(1 <= w[0] && w[0] <= 4);
    let mut rock = Object::blank();
    p.try_attack(&mut rock, &mut rng);
    assert!(rock.health.is_none());
}

#[test]
fn player_moves_strikes_and_descends() {
    let mut w = World::new_game(RandomNumberGenerator::seeded(21), Vec::new(), &world_table());
    let mut logs: LogBuffer = Vec::new();
    let mut flags = TurnFlags::new();
    flags.proc = false;
    let start = w.objects[0].pos.unwrap();
    let used = process_action(&mut w, &mut logs, &mut flags, Actions::Wait, None);
    assert!(used && flags.passed && flags.proc);
    let mut moved = false;
    for a in [Actions::MoveLeft, Actions::MoveRight, Actions::MoveUp, Actions::MoveDown] {
        let (dx, dy) = a.move_delta().unwrap();
        if w.active_map.walkable(start.x + dx, start.y + dy) {
            assert!(process_action(&mut w, &mut logs, &mut flags, a, None));
            assert_eq!(w.objects[0].pos, Some(Coord { x: start.x + dx, y: start.y + dy }));
            assert_eq!(w.camera.min_x, start.x + dx - 40);
            moved = true;
            break;
        }
    }
    assert!(moved);
    assert!(!on_down_stairs(&w));
    assert!(!try_go_downstairs(&mut w, &mut logs, &world_table()));
    assert_eq!(w.depth, 1);
    let stairs = (0..w.active_map.tiles.len()).find(|&i| w.active_map.tiles[i] == TileClass::DownStair).unwrap();
    w.objects[0].pos = Some(w.active_map.point_from_idx(stairs));
    assert!(on_down_stairs(&w));
    assert!(process_action(&mut w, &mut logs, &mut flags, Actions::TryGoDown, Some(&world_table())));
    assert_eq!(w.depth, 2);
}

#[test]
fn player_strikes_an_enemy_in_the_way() {
    let mut objects = vec![spawn_player(Coord { x: 1, y: 1 })];
    let mut e = Object::blank();
    e.tag = Some(ActorTag::Enemy);
    e.pos = Some(Coord { x: 2, y: 1 });
    e.health = Some(Health::new(6));
    objects.push(e);
    let mut rng = RandomNumberGenerator::seeded(4);
    assert!(!try_attack_player(&mut objects, Coord { x: 3, y: 1 }, &mut rng));
    assert!(try_attack_player(&mut objects, Coord { x: 2, y: 1 }, &mut rng));
    assert_eq!(objects[1].health.as_ref().unwrap().wounds.len(), 1);
}

#[test]
fn pathing_distance_between_tile_centres() {
    let m = GameMap::new(6, 6);
    assert_eq!(m.get_pathing_distance_sq(m.index(1, 1), m.index(4, 5)), 25);
    assert_eq!(m.get_pathing_distance_sq(m.index(2, 3), m.index(2, 3)), 0);
}

#[test]
fn heal_with_a_negative_amount_lowers_health() {
    let mut h = Health::new(20);
    h.current = 15;
    assert_eq!(h.heal(-4), -4);
    assert_eq!(h.current, 11);
}

#[test]
fn far_sighted_actor_is_refreshed() {
    let mut map = GameMap::new(1, 1);
    let mut p = spawn_player(Coord { x: 0, y: 0 });
    p.viewshed.as_mut().unwrap().range = 2000;
    let mut objects = vec![p];
    darkdelver::fov::process_fov(&mut objects, &mut map);
    let v = objects[0].viewshed.as_ref().unwrap();
    assert!(!v.refresh);
    assert_eq!(v.visible, vec![Coord { x: 0, y: 0 }]);
    let mut lost = spawn_player(Coord { x: 5, y: 5 });
    lost.tag = Some(ActorTag::Enemy);
    let mut objects = vec![lost];
    darkdelver::fov::process_fov(&mut objects, &mut map);
    assert!(!objects[0].viewshed.as_ref().unwrap().refresh);
    assert!(objects[0].viewshed.as_ref().unwrap().visible.is_empty());
}

#[test]
fn templates_are_copied_whole() {
    let mut t = Object::blank();
    t.name = Some("Bat".to_string());
    t.health = Some(Health::new(3));
    t.health.as_mut().unwrap().wounds = vec![1, 2];
    let c = t.duplicate();
    assert_eq!(c.name.as_deref(), Some("Bat"));
    assert_eq!(c.health.as_ref().unwrap().wounds, vec![1, 2]);
}
