use bracket_pathfinding::prelude::{Algorithm2D, BaseMap, DijkstraMap, Point, SmallVec};
use bracket_random::prelude::RandomNumberGenerator;
use darkdelver::ai::{activation_order, basic_enemy_ai, enemy_turn};
use darkdelver::blockmove::update_blocked_tiles;
use darkdelver::fov::process_fov;
use darkdelver::generator::{GenerationMode, MapGenerator};
use darkdelver::geometry::{Coord, Rect};
use darkdelver::heat::HeatMap;
use darkdelver::map::{GameMap, TileClass};
use darkdelver::object::{AIClass, AIState, ActorTag, Damage, Health, Object, Viewshed};
use darkdelver::spawn::{spawn_player, SpawnEntry};
use std::collections::{HashSet, VecDeque};

struct PathGrid<'a>(&'a GameMap);

impl<'a> BaseMap for PathGrid<'a> {
    fn is_opaque(&self, idx: usize) -> bool {
        self.0.blocks_sight_at(idx)
    }
    fn get_available_exits(&self, idx: usize) -> SmallVec<[(usize, f32); 10]> {
        self.0
            .get_available_exits(idx)
            .into_iter()
            .map(|(i, c)| (i, c as f32 / 100.0))
            .collect()
    }
}

impl<'a> Algorithm2D for PathGrid<'a> {
    fn dimensions(&self) -> Point {
        Point::new(self.0.width, self.0.height)
    }
}

fn pursuit_step(map: &GameMap, from: Coord, to: Coord) -> Option<usize> {
    let grid = PathGrid(map);
    let target = map.index(to.x, to.y);
    let dm = DijkstraMap::new(map.width, map.height, &[target], &grid, 1024.0);
    DijkstraMap::find_lowest_exit(&dm, map.index(from.x, from.y), &grid)
}

fn enemy_template() -> Object {
    let mut e = Object::blank();
    e.name = Some("Goblin".to_string());
    e.tag = Some(ActorTag::Enemy);
    e.block_tile = true;
    e.initiative = Some(8);
    e.health = Some(Health::new(10));
    e.damage = Some(Damage::new((1, 4)));
    e.viewshed = Some(Viewshed { range: 6, visible: Vec::new(), refresh: true });
    e.ai = Some(AIClass::new());
    e
}

fn table() -> Vec<SpawnEntry> {
    vec![SpawnEntry { enemy_id: 1, weight: 1, template: enemy_template() }]
}

fn open_map(w: i32, h: i32) -> GameMap {
    GameMap::new(w, h)
}

fn walled_map(w: i32, h: i32) -> GameMap {
    let mut m = GameMap::new(w, h);
    for y in 0..h {
        for x in 0..w {
            if x == 0 || y == 0 || x == w - 1 || y == h - 1 {
                let i = m.index(x, y);
                m.tiles[i] = TileClass::Wall;
            }
        }
    }
    m
}

fn intersects(a: &Rect, b: &Rect) -> bool {
    a.x1 <= b.x2 && a.x2 >= b.x1 && a.y1 <= b.y2 && a.y2 >= b.y1
}

fn center(r: &Rect) -> Coord {
    Coord { x: (r.x1 + r.x2) / 2, y: (r.y1 + r.y2) / 2 }
}

#[test]
fn generated_level_scenario() {
    let mut rng = RandomNumberGenerator::seeded(1234);
    let g = MapGenerator::generate(GenerationMode::RandomRooms, 60, 60, 1, 20, &mut rng, &table());
    assert_eq!(g.rooms.len(), 20);
    for i in 0..g.rooms.len() {
        for j in 0..g.rooms.len() {
            if i != j {
                assert!(!intersects(&g.rooms[i], &g.rooms[j]));
            }
        }
    }
    for w in g.rooms.windows(2) {
        assert!(center(&w[0]).x <= center(&w[1]).x);
    }
    let stairs: Vec<usize> =
        (0..g.map.tiles.len()).filter(|&i| g.map.tiles[i] == TileClass::DownStair).collect();
    let last = center(g.rooms.last().unwrap());
    assert_eq!(stairs, vec![g.map.index(last.x, last.y)]);
    assert_eq!(g.start_pos, center(&g.rooms[0]));
    assert_eq!(g.objects.len(), g.rooms.len() - 1);
    let mut seen = HashSet::new();
    for o in g.objects.iter() {
        let p = o.pos.unwrap();
        assert!(g.map.walkable(p.x, p.y));
        assert!(seen.insert((p.x, p.y)));
        assert_eq!(o.floor, 1);
        assert!(g.rooms[1..].iter().any(|r| r.x1 <= p.x && p.x < r.x2 && r.y1 <= p.y && p.y < r.y2));
    }
    for a in g.objects.iter() {
        for b in g.objects.iter() {
            let (p, q) = (a.pos.unwrap(), b.pos.unwrap());
            if p != q {
                assert!((p.x - q.x).abs() > 5 || (p.y - q.y).abs() > 5);
            }
        }
    }
}

#[test]
fn every_room_tile_reachable_from_start() {
    for seed in [1u64, 7, 99] {
        let mut rng = RandomNumberGenerator::seeded(seed);
        let g = MapGenerator::generate(GenerationMode::RandomRooms, 60, 60, 2, 20, &mut rng, &table());
        let mut reached = HashSet::new();
        let mut queue = VecDeque::new();
        queue.push_back(g.start_pos);
        reached.insert((g.start_pos.x, g.start_pos.y));
        while let Some(p) = queue.pop_front() {
            for (dx, dy) in [(1, 0), (-1, 0), (0, 1), (0, -1)] {
                let q = Coord { x: p.x + dx, y: p.y + dy };
                if g.map.walkable(q.x, q.y) && reached.insert((q.x, q.y)) {
                    queue.push_back(q);
                }
            }
        }
        for r in g.rooms.iter() {
            for y in r.y1..r.y2 {
                for x in r.x1..r.x2 {
                    assert!(reached.contains(&(x, y)));
                }
            }
        }
    }
}

#[test]
fn walkable_is_false_outside_the_map() {
    let m = open_map(10, 8);
    assert!(!m.walkable(-1, 0));
    assert!(!m.walkable(0, -1));
    assert!(!m.walkable(10, 0));
    assert!(!m.walkable(0, 8));
    assert!(!m.walkable(i32::MAX, i32::MIN));
    assert!(m.walkable(9, 7));
    assert!(m.walkable(0, 0));
}

#[test]
fn round_trip_of_generator_state_gives_the_same_level() {
    let mut rng = RandomNumberGenerator::seeded(42);
    let _ = MapGenerator::generate(GenerationMode::RandomRooms, 60, 60, 1, 20, &mut rng, &table());
    let bytes = serde_cbor::to_vec(&rng).unwrap();
    let mut restored: RandomNumberGenerator = serde_cbor::from_slice(&bytes).unwrap();
    let a = MapGenerator::generate(GenerationMode::RandomRooms, 60, 60, 2, 20, &mut rng, &table());
    let b = MapGenerator::generate(GenerationMode::RandomRooms, 60, 60, 2, 20, &mut restored, &table());
    assert_eq!(a.map.tiles, b.map.tiles);
    assert_eq!(a.rooms, b.rooms);
    let pa: Vec<Option<Coord>> = a.objects.iter().map(|o| o.pos).collect();
    let pb: Vec<Option<Coord>> = b.objects.iter().map(|o| o.pos).collect();
    assert_eq!(pa, pb);
}

#[test]
fn different_seeds_give_different_levels() {
    let mut r1 = RandomNumberGenerator::seeded(3);
    let mut r2 = RandomNumberGenerator::seeded(4);
    let a = MapGenerator::generate(GenerationMode::RandomRooms, 60, 60, 1, 20, &mut r1, &table());
    let b = MapGenerator::generate(GenerationMode::RandomRooms, 60, 60, 1, 20, &mut r2, &table());
    assert_ne!(a.rooms, b.rooms);
}

fn sorted_visible(o: &Object) -> Vec<(i32, i32)> {
    let mut v: Vec<(i32, i32)> =
        o.viewshed.as_ref().unwrap().visible.iter().map(|p| (p.x, p.y)).collect();
    v.sort();
    v
}

#[test]
fn visibility_refresh_twice_changes_nothing() {
    let mut map = walled_map(15, 15);
    let mut objects = vec![spawn_player(Coord { x: 7, y: 7 })];
    process_fov(&mut objects, &mut map);
    let first = sorted_visible(&objects[0]);
    let vis = map.visible.clone();
    let rev = map.revealed.clone();
    assert!(!objects[0].viewshed.as_ref().unwrap().refresh);
    process_fov(&mut objects, &mut map);
    assert_eq!(sorted_visible(&objects[0]), first);
    assert!(!objects[0].viewshed.as_ref().unwrap().refresh);
    assert_eq!(map.visible, vis);
    assert_eq!(map.revealed, rev);
}

#[test]
fn sight_in_open_room_covers_the_range() {
    let mut map = open_map(11, 11);
    let mut objects = vec![spawn_player(Coord { x: 5, y: 5 })];
    process_fov(&mut objects, &mut map);
    let seen: HashSet<(i32, i32)> = sorted_visible(&objects[0]).into_iter().collect();
    for y in 0..11 {
        for x in 0..11 {
            let d2 = (x - 5) * (x - 5) + (y - 5) * (y - 5);
            if d2 <= 25 {
                assert!(seen.contains(&(x, y)), "tile {},{}", x, y);
            }
            let i = map.index(x, y);
            assert_eq!(map.visible[i], seen.contains(&(x, y)));
            assert_eq!(map.revealed[i], seen.contains(&(x, y)));
        }
    }
    assert!(!seen.contains(&(0, 0)));
    assert!(!seen.contains(&(10, 10)));
    assert!(seen.len() >= 81 && seen.len() < 121);
}

#[test]
fn wall_hides_the_tile_behind_it() {
    let mut map = open_map(11, 11);
    for y in 0..11 {
        let i = map.index(5, y);
        map.tiles[i] = TileClass::Wall;
    }
    let mut viewer = enemy_template();
    viewer.pos = Some(Coord { x: 2, y: 5 });
    let mut objects = vec![spawn_player(Coord { x: 8, y: 5 }), viewer];
    process_fov(&mut objects, &mut map);
    let seen = sorted_visible(&objects[1]);
    assert!(!seen.contains(&(8, 5)));
    assert!(seen.contains(&(3, 5)));
    assert!(!sorted_visible(&objects[0]).contains(&(2, 5)));
}

fn chase_setup(enemy_at: Coord, player_at: Coord) -> (Vec<Object>, GameMap) {
    let mut map = walled_map(20, 20);
    let mut enemy = enemy_template();
    enemy.pos = Some(enemy_at);
    let mut objects = vec![spawn_player(player_at), enemy];
    objects[1].floor = 1;
    process_fov(&mut objects, &mut map);
    update_blocked_tiles(&objects, &mut map, 1);
    (objects, map)
}

#[test]
fn adjacent_enemy_attacks_instead_of_moving() {
    let (mut objects, map) = chase_setup(Coord { x: 5, y: 5 }, Coord { x: 6, y: 5 });
    let mut rng = RandomNumberGenerator::seeded(5);
    let step = pursuit_step(&map, Coord { x: 5, y: 5 }, Coord { x: 6, y: 5 });
    basic_enemy_ai(1, &mut objects, &map, &mut rng, Coord { x: 6, y: 5 }, step);
    assert_eq!(objects[1].pos, Some(Coord { x: 5, y: 5 }));
    let wounds = &objects[0].health.as_ref().unwrap().wounds;
    assert_eq!(wounds.len(), 1);
    assert!(1 <= wounds[0] && wounds[0] <= 4);
    let ai = objects[1].ai.as_ref().unwrap();
    assert_eq!(ai.state, AIState::Chasing);
    assert_eq!(ai.target, Some(0));
    assert_eq!(ai.tgt_memory, 24);
}

#[test]
fn distant_enemy_steps_one_tile_closer() {
    let (mut objects, mut map) = chase_setup(Coord { x: 5, y: 5 }, Coord { x: 8, y: 5 });
    let mut rng = RandomNumberGenerator::seeded(5);
    let step = pursuit_step(&map, Coord { x: 5, y: 5 }, Coord { x: 8, y: 5 });
    assert!(enemy_turn(1, &mut objects, &mut map, 1, &mut rng, step));
    assert_eq!(objects[1].pos, Some(Coord { x: 6, y: 5 }));
    assert!(objects[0].health.as_ref().unwrap().wounds.is_empty());
    assert!(objects[1].viewshed.as_ref().unwrap().refresh);
    assert!(map.objblocked[map.index(6, 5)]);
    assert!(!map.objblocked[map.index(5, 5)]);
}

#[test]
fn pursuit_step_that_is_not_adjacent_is_ignored() {
    let (mut objects, map) = chase_setup(Coord { x: 5, y: 5 }, Coord { x: 8, y: 5 });
    let mut rng = RandomNumberGenerator::seeded(5);
    let far = map.index(7, 5);
    basic_enemy_ai(1, &mut objects, &map, &mut rng, Coord { x: 8, y: 5 }, Some(far));
    assert_eq!(objects[1].pos, Some(Coord { x: 5, y: 5 }));
}

#[test]
fn lost_target_is_hunted_for_twenty_four_turns() {
    let (mut objects, mut map) = chase_setup(Coord { x: 5, y: 5 }, Coord { x: 9, y: 5 });
    let mut rng = RandomNumberGenerator::seeded(5);
    let player = Coord { x: 9, y: 5 };
    basic_enemy_ai(1, &mut objects, &map, &mut rng, player, None);
    assert_eq!(objects[1].ai.as_ref().unwrap().state, AIState::Chasing);
    let hidden = Coord { x: 18, y: 18 };
    objects[1].viewshed.as_mut().unwrap().visible = vec![Coord { x: 5, y: 5 }];
    for turn in 1..=24 {
        basic_enemy_ai(1, &mut objects, &map, &mut rng, hidden, None);
        let ai = objects[1].ai.as_ref().unwrap();
        assert_eq!(ai.state, AIState::Hunting, "turn {}", turn);
        assert_eq!(ai.tgt_memory, 24 - turn);
        assert_eq!(ai.target, Some(0));
        let p = objects[1].pos.unwrap();
        objects[1].viewshed.as_mut().unwrap().visible = vec![p];
        update_blocked_tiles(&objects, &mut map, 1);
    }
    let moved = objects[1].pos.unwrap();
    assert_ne!(moved, Coord { x: 5, y: 5 });
    basic_enemy_ai(1, &mut objects, &map, &mut rng, hidden, None);
    let ai = objects[1].ai.as_ref().unwrap();
    assert_eq!(ai.state, AIState::Idle);
    assert_eq!(ai.target, None);
    assert_eq!(objects[1].pos.unwrap(), moved);
}

#[test]
fn enemy_on_another_floor_does_nothing() {
    let (mut objects, map) = chase_setup(Coord { x: 5, y: 5 }, Coord { x: 6, y: 5 });
    objects[1].floor = 2;
    let mut rng = RandomNumberGenerator::seeded(5);
    basic_enemy_ai(1, &mut objects, &map, &mut rng, Coord { x: 6, y: 5 }, None);
    assert_eq!(objects[1].ai.as_ref().unwrap().state, AIState::Idle);
    assert!(objects[0].health.as_ref().unwrap().wounds.is_empty());
}

#[test]
fn enemy_turn_refuses_an_index_out_of_range() {
    let (mut objects, mut map) = chase_setup(Coord { x: 5, y: 5 }, Coord { x: 6, y: 5 });
    let mut rng = RandomNumberGenerator::seeded(5);
    assert!(!enemy_turn(0, &mut objects, &mut map, 1, &mut rng, None));
    assert!(!enemy_turn(7, &mut objects, &mut map, 1, &mut rng, None));
}

#[test]
fn occupancy_counts_distinct_blocking_positions() {
    let mut map = open_map(10, 10);
    let mut a = enemy_template();
    a.pos = Some(Coord { x: 1, y: 1 });
    let mut b = enemy_template();
    b.pos = Some(Coord { x: 1, y: 1 });
    let mut c = enemy_template();
    c.pos = Some(Coord { x: 3, y: 4 });
    let mut d = enemy_template();
    d.pos = Some(Coord { x: 5, y: 5 });
    d.floor = 2;
    let mut e = enemy_template();
    e.pos = Some(Coord { x: 6, y: 6 });
    e.block_tile = false;
    let mut f = enemy_template();
    f.pos = None;
    let objects = vec![spawn_player(Coord { x: 8, y: 8 }), a, b, c, d, e, f];
    map.objblocked[0] = true;
    update_blocked_tiles(&objects, &mut map, 1);
    let blocked: Vec<usize> = (0..map.objblocked.len()).filter(|&i| map.objblocked[i]).collect();
    assert_eq!(blocked.len(), 3);
    assert_eq!(blocked, vec![map.index(1, 1), map.index(3, 4), map.index(8, 8)]);
    assert!(!map.walkable(1, 1));
    assert!(map.walkable(6, 6));
}

#[test]
fn activation_order_by_initiative_then_index() {
    let mut objects = vec![spawn_player(Coord { x: 1, y: 1 })];
    for init in [3u8, 9, 3, 5] {
        let mut e = enemy_template();
        e.initiative = Some(init);
        objects.push(e);
    }
    let mut item = Object::blank();
    item.initiative = Some(20);
    objects.push(item);
    assert_eq!(activation_order(&objects), vec![2, 4, 1, 3]);
}

#[test]
fn heat_spreads_and_decays() {
    let map = open_map(12, 12);
    let mut h = HeatMap::new();
    h.reset_to_single_node(&Coord { x: 5, y: 5 }, 5);
    assert_eq!(h.nodes.len(), 1);
    h.spread(Coord { x: 0, y: 0 }, &map);
    assert_eq!(h.nodes.len(), 9);
    assert!(h.nodes.iter().all(|n| n.heat == 24));
    let step = h.get_closest_heat(&map, Coord { x: 1, y: 1 });
    assert_eq!(step, Coord { x: 2, y: 2 });
    h.clear_heat_area(&vec![Coord { x: 5, y: 5 }]);
    assert_eq!(h.nodes.len(), 8);
    assert!(h.nodes.iter().all(|n| n.pos != Coord { x: 5, y: 5 }));
}
