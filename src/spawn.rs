use vstd::prelude::*;
use crate::geometry::{Coord, Rect, rect_contains};
use crate::object::{ActorTag, ColorPair, Damage, Health, InInventory, Object, Render, Rgb, Viewshed, copied};
use crate::rng::rng_range;
use bracket_random::prelude::RandomNumberGenerator;

verus! {

/// One row of a spawn table: an enemy template and its positive draw weight.
#[derive(Clone)]
pub struct SpawnEntry {
    pub enemy_id: u32,
    pub weight: u32,
    pub template: Object,
}

/// Sum of the weights of the first `i` entries.
pub open spec fn weight_prefix(t: Seq<SpawnEntry>, i: int) -> int
    decreases i,
{
    if i <= 0 || t.len() == 0 {
        0
    } else if i > t.len() {
        weight_prefix(t, t.len() as int)
    } else {
        weight_prefix(t, i - 1) + t[i - 1].weight
    }
}

pub open spec fn total_weight(t: Seq<SpawnEntry>) -> int {
    weight_prefix(t, t.len() as int)
}

pub proof fn lemma_prefix_monotone(t: Seq<SpawnEntry>, i: int, j: int)
    requires
        0 <= i <= j <= t.len(),
    ensures
        0 <= weight_prefix(t, i) <= weight_prefix(t, j),
    decreases j - i,
{
    if i < j {
        lemma_prefix_monotone(t, i, j - 1);
    } else {
        lemma_prefix_nonneg(t, i);
    }
}

proof fn lemma_prefix_nonneg(t: Seq<SpawnEntry>, i: int)
    requires
        0 <= i <= t.len(),
    ensures
        0 <= weight_prefix(t, i),
    decreases i,
{
    if i > 0 {
        lemma_prefix_nonneg(t, i - 1);
    }
}

/// The table used at a depth: depths 1 to 3 use table 1, deeper levels table 2.
pub fn spawn_table_id(depth: i32) -> (r: u32)
    ensures
        r == if 1 <= depth <= 3 { 1u32 } else { 2u32 },
{
    if 1 <= depth && depth <= 3 {
        1
    } else {
        2
    }
}

/// Whether the table can be drawn from: some weight, and a total that fits an `i32`.
pub fn table_drawable(table: &Vec<SpawnEntry>) -> (r: bool)
    ensures
        r == (0 < total_weight(table@) <= i32::MAX),
{
    let mut total: u64 = 0;
    let mut i: usize = 0;
    while i < table.len()
        invariant
            i <= table@.len(),
            total == weight_prefix(table@, i as int),
            total <= i32::MAX,
        decreases table@.len() - i,
    {
        proof {
            lemma_prefix_monotone(table@, i + 1, table@.len() as int);
        }
        total = total + table[i].weight as u64;
        if total > i32::MAX as u64 {
            proof {
                lemma_prefix_monotone(table@, i + 1, table@.len() as int);
            }
            return false;
        }
        i = i + 1;
    }
    total > 0
}

/// Cumulative-weight selection: the entry whose weight interval holds `pivot`.
pub fn weighted_draw(table: &Vec<SpawnEntry>, pivot: u32) -> (r: usize)
    requires
        pivot < total_weight(table@),
    ensures
        r < table@.len(),
        weight_prefix(table@, r as int) <= pivot < weight_prefix(table@, r + 1),
        table@[r as int].weight > 0,
{
    let mut p: u32 = pivot;
    let mut i: usize = 0;
    while i < table.len()
        invariant
            i <= table@.len(),
            pivot < total_weight(table@),
            weight_prefix(table@, i as int) <= pivot,
            p == pivot - weight_prefix(table@, i as int),
        decreases table@.len() - i,
    {
        if p < table[i].weight {
            return i;
        }
        p = p - table[i].weight;
        i = i + 1;
    }
    proof {
        assert(false);
    }
    0
}

/// Draws `num_enemies` pivots uniformly in `[0, W)`, `W` the table's total weight.
pub fn draw_pivots(table: &Vec<SpawnEntry>, num_enemies: i32, rng: &mut RandomNumberGenerator) -> (r: Vec<u32>)
    requires
        0 < total_weight(table@) <= i32::MAX,
    ensures
        r@.len() == if num_enemies > 0 { num_enemies as int } else { 0 },
        forall|k: int| 0 <= k < r@.len() ==> (#[trigger] r@[k]) < total_weight(table@),
{
    let mut pivots: Vec<u32> = Vec::new();
    let mut total: u32 = 0;
    let mut i: usize = 0;
    while i < table.len()
        invariant
            i <= table@.len(),
            total == weight_prefix(table@, i as int),
            0 < total_weight(table@) <= i32::MAX,
        decreases table@.len() - i,
    {
        proof {
            lemma_prefix_monotone(table@, i + 1, table@.len() as int);
        }
        total = total + table[i].weight;
        i = i + 1;
    }
    let mut n: i32 = 0;
    while n < num_enemies
        invariant
            0 <= n,
            n <= num_enemies || num_enemies <= 0,
            num_enemies <= 0 ==> n == 0,
            total == total_weight(table@),
            0 < total_weight(table@) <= i32::MAX,
            pivots@.len() == n,
            forall|k: int| 0 <= k < pivots@.len() ==> (#[trigger] pivots@[k]) < total_weight(table@),
        decreases num_enemies - n,
    {
        let pivot = rng_range(rng, 0, total as i32);
        pivots.push(pivot as u32);
        n = n + 1;
    }
    pivots
}

/// `o` is the template of the entry whose weight interval holds `pivot`.
pub open spec fn instance_of(table: Seq<SpawnEntry>, pivot: u32, o: Object) -> bool {
    exists|k: int|
        0 <= k < table.len() && weight_prefix(table, k) <= pivot < weight_prefix(table, k + 1)
            && #[trigger] copied(table[k].template, o)
}

/// Instantiates, for each pivot, the template of the entry drawn by it.
pub fn instantiate_draws(table: &Vec<SpawnEntry>, pivots: &Vec<u32>) -> (r: Vec<Object>)
    requires
        forall|k: int| 0 <= k < pivots@.len() ==> (#[trigger] pivots@[k]) < total_weight(table@),
    ensures
        r@.len() == pivots@.len(),
        forall|i: int| 0 <= i < r@.len() ==> instance_of(table@, pivots@[i], #[trigger] r@[i]),
{
    let mut out: Vec<Object> = Vec::new();
    let mut i: usize = 0;
    while i < pivots.len()
        invariant
            i <= pivots@.len(),
            out@.len() == i,
            forall|k: int| 0 <= k < pivots@.len() ==> (#[trigger] pivots@[k]) < total_weight(table@),
            forall|t: int| 0 <= t < i ==> instance_of(table@, pivots@[t], #[trigger] out@[t]),
        decreases pivots@.len() - i,
    {
        let k = weighted_draw(table, pivots[i]);
        let o = table[k].template.duplicate();
        out.push(o);
        assert(copied(table@[k as int].template, out@[i as int]));
        i = i + 1;
    }
    out
}

/// Sets where an actor stands and on which floor.
pub fn add_positional_info(init_obj: &mut Object, pos: Coord, depth: i32)
    ensures
        *final(init_obj) == (Object { pos: Some(pos), floor: depth, ..*old(init_obj) }),
{
    init_obj.pos = Some(pos);
    init_obj.floor = depth;
}

/// Hit points the player starts with.
pub const PLAYER_HEALTH: i32 = 48;

/// The player's sight range.
pub const PLAYER_SIGHT: i32 = 5;

/// The player's initiative.
pub const PLAYER_INITIATIVE: u8 = 12;

/// The player at `startpos` on floor 1: an '@' drawn on top, blocking, with sight that
/// needs a first refresh, 48 hit points and the default damage.
pub fn spawn_player(startpos: Coord) -> (r: Object)
    ensures
        r.tag == Some(ActorTag::Player),
        r.pos == Some(startpos),
        r.floor == 1,
        r.block_tile,
        r.initiative == Some(PLAYER_INITIATIVE),
        r.viewshed matches Some(v) && v.range == PLAYER_SIGHT && v.refresh && v.visible@.len() == 0,
        r.health matches Some(h) && h.max == PLAYER_HEALTH && h.current == PLAYER_HEALTH && h.wounds@.len() == 0,
        r.damage matches Some(d) && d.dice == 1 && d.val == 4 && d.modifiers@.len() == 0,
        r.render == Some(Render { glyph: 64, color: ColorPair { fg: Rgb { r: 255, g: 255, b: 255 }, bg: Rgb { r: 0, g: 0, b: 0 } }, order: 255 }),
        r.ai is None,
        r.in_inventory is None,
        !r.player_mem.seen,
{
    let mut p = Object::blank();
    p.name = Some(String::from_str("Player"));
    p.tag = Some(ActorTag::Player);
    p.pos = Some(startpos);
    p.floor = 1;
    p.render = Some(Render { glyph: 64, color: ColorPair::new(Rgb::new(255, 255, 255), Rgb::new(0, 0, 0)), order: 255 });
    p.viewshed = Some(Viewshed { range: PLAYER_SIGHT, visible: Vec::new(), refresh: true });
    p.block_tile = true;
    p.initiative = Some(PLAYER_INITIATIVE);
    p.health = Some(Health::new(PLAYER_HEALTH));
    p.damage = Some(Damage::new(Damage::get_default_damage()));
    p
}

/// A corpse: a maroon '%' drawn low, at `pos` on `floor`, with no other component.
pub fn make_corpse(pos: Coord, floor: i32) -> (r: Object)
    ensures
        r.name matches Some(n) && n@ == "A Corpse"@,
        r.pos == Some(pos),
        r.floor == floor,
        !r.block_tile,
        r.tag is None,
        r.health is None,
        r.damage is None,
        r.ai is None,
        r.viewshed is None,
        r.initiative is None,
        r.in_inventory is None,
        r.render == Some(Render { glyph: 37, color: ColorPair { fg: Rgb { r: 128, g: 0, b: 0 }, bg: Rgb { r: 0, g: 0, b: 0 } }, order: 1 }),
{
    let mut c = Object::blank();
    c.name = Some(String::from_str("A Corpse"));
    c.pos = Some(pos);
    c.floor = floor;
    c.render = Some(Render { glyph: 37, color: ColorPair::new(Rgb::new(128, 0, 0), Rgb::new(0, 0, 0)), order: 1 });
    c
}

/// The tiles of a room, row by row.
fn room_points(room: &Rect) -> (r: Vec<Coord>)
    requires
        room.small(),
    ensures
        forall|j: int| 0 <= j < r@.len() ==> rect_contains(*room, #[trigger] r@[j]),
        forall|p: Coord| rect_contains(*room, p) ==> #[trigger] r@.contains(p),
        r@.len() == (room.x2 - room.x1) * (room.y2 - room.y1),
{
    let mut pts: Vec<Coord> = Vec::new();
    let mut y = room.y1;
    while y < room.y2
        invariant
            room.small(),
            room.y1 <= y <= room.y2,
            forall|j: int| 0 <= j < pts@.len() ==> rect_contains(*room, #[trigger] pts@[j]),
            forall|p: Coord| rect_contains(*room, p) && p.y < y ==> #[trigger] pts@.contains(p),
            pts@.len() == (room.x2 - room.x1) * (y - room.y1),
        decreases room.y2 - y,
    {
        let mut x = room.x1;
        let ghost row_start = pts@;
        while x < room.x2
            invariant
                room.small(),
                room.y1 <= y < room.y2,
                room.x1 <= x <= room.x2,
                forall|j: int| 0 <= j < pts@.len() ==> rect_contains(*room, #[trigger] pts@[j]),
                forall|p: Coord| rect_contains(*room, p) && p.y < y ==> #[trigger] pts@.contains(p),
                forall|p: Coord| rect_contains(*room, p) && p.y == y && p.x < x ==> #[trigger] pts@.contains(p),
                pts@.len() == (room.x2 - room.x1) * (y - room.y1) + (x - room.x1),
            decreases room.x2 - x,
        {
            let ghost before = pts@;
            pts.push(Coord { x, y });
            proof {
                assert forall|p: Coord| rect_contains(*room, p) && (p.y < y || (p.y == y && p.x < x + 1)) implies #[trigger] pts@.contains(p) by {
                    if p.y == y && p.x == x {
                        assert(pts@[pts@.len() - 1] == p);
                    } else {
                        assert(before.contains(p));
                        let j = choose|j: int| 0 <= j < before.len() && before[j] == p;
                        assert(pts@[j] == p);
                    }
                }
            }
            x = x + 1;
        }
        proof {
            assert((room.x2 - room.x1) * (y - room.y1) + (room.x2 - room.x1) == (room.x2 - room.x1) * (y + 1 - room.y1)) by (nonlinear_arith);
        }
        y = y + 1;
    }
    pts
}

/// Spawns keep at least this many tiles, in either axis, away from every spawn placed
/// before them.
pub const SPAWN_SPACING: i32 = 5;

/// Room draws after which the spawns not yet placed are given up.
pub const MAX_SPAWN_ATTEMPTS: u32 = 1000;

/// `p` lies outside the exclusion zone around `q`.
pub open spec fn spaced(p: Coord, q: Coord) -> bool {
    !(-SPAWN_SPACING <= p.x - q.x <= SPAWN_SPACING && -SPAWN_SPACING <= p.y - q.y <= SPAWN_SPACING)
}

fn near_any(placed: &Vec<Coord>, p: Coord) -> (r: bool)
    ensures
        r == exists|j: int| 0 <= j < placed@.len() && !spaced(p, #[trigger] placed@[j]),
{
    let mut i: usize = 0;
    while i < placed.len()
        invariant
            i <= placed@.len(),
            forall|j: int| 0 <= j < i ==> spaced(p, #[trigger] placed@[j]),
        decreases placed@.len() - i,
    {
        let q = placed[i];
        let dx = p.x as i64 - q.x as i64;
        let dy = p.y as i64 - q.y as i64;
        if -5 <= dx && dx <= 5 && -5 <= dy && dy <= 5 {
            assert(!spaced(p, placed@[i as int]));
            return true;
        }
        i = i + 1;
    }
    false
}

/// A tile of `room` that is neither occupied (in `blocked`) nor within the exclusion
/// zone of a placed spawn; failing that, any tile of the room for a spawn that does
/// not block movement.
fn pick_tile(room: &Rect, blocked: &Vec<Coord>, placed: &Vec<Coord>, blocks: bool, rng: &mut RandomNumberGenerator) -> (r: Option<Coord>)
    requires
        room.small(),
        (room.x2 - room.x1) * (room.y2 - room.y1) <= i32::MAX,
    ensures
        r matches Some(p) ==> rect_contains(*room, p),
        blocks && r is Some ==> !blocked@.contains(r->Some_0) && forall|j: int| 0 <= j < placed@.len() ==> spaced(r->Some_0, #[trigger] placed@[j]),
        (exists|p: Coord| #[trigger] rect_contains(*room, p) && !blocked@.contains(p) && forall|j: int| 0 <= j < placed@.len() ==> spaced(p, #[trigger] placed@[j])) ==> r is Some,
{
    let points = room_points(room);
    let mut free: Vec<Coord> = Vec::new();
    let mut i: usize = 0;
    while i < points.len()
        invariant
            i <= points@.len(),
            forall|j: int| 0 <= j < points@.len() ==> rect_contains(*room, #[trigger] points@[j]),
            forall|j: int| 0 <= j < free@.len() ==> rect_contains(*room, #[trigger] free@[j]) && !blocked@.contains(free@[j])
                && forall|t: int| 0 <= t < placed@.len() ==> spaced(free@[j], #[trigger] placed@[t]),
            free@.len() <= i,
            points@.len() == (room.x2 - room.x1) * (room.y2 - room.y1),
            forall|p: Coord| rect_contains(*room, p) ==> #[trigger] points@.contains(p),
            forall|j: int| 0 <= j < i && !blocked@.contains(#[trigger] points@[j]) && (forall|t: int| 0 <= t < placed@.len() ==> spaced(points@[j], #[trigger] placed@[t])) ==> free@.len() > 0,
        decreases points@.len() - i,
    {
        let p = points[i];
        if !crate::ai::coord_listed(blocked, p) && !near_any(placed, p) {
            free.push(p);
        }
        i = i + 1;
    }
    proof {
        if exists|p: Coord| #[trigger] rect_contains(*room, p) && !blocked@.contains(p) && forall|j: int| 0 <= j < placed@.len() ==> spaced(p, #[trigger] placed@[j]) {
            let p = choose|p: Coord| #[trigger] rect_contains(*room, p) && !blocked@.contains(p) && forall|j: int| 0 <= j < placed@.len() ==> spaced(p, #[trigger] placed@[j]);
            assert(points@.contains(p));
            let j = choose|j: int| 0 <= j < points@.len() && points@[j] == p;
            assert(free@.len() > 0);
        }
    }
    if free.len() > 0 {
        let k = rng_range(rng, 0, free.len() as i32);
        assert(rect_contains(*room, free@[k as int]));
        Some(free[k as usize])
    } else if !blocks && points.len() > 0 {
        let k = rng_range(rng, 0, points.len() as i32);
        assert(rect_contains(*room, points@[k as int]));
        Some(points[k as usize])
    } else {
        None
    }
}

/// The room holds a tile other than `start`.
pub open spec fn roomy(r: Rect, start: Coord) -> bool {
    exists|p: Coord| #[trigger] rect_contains(r, p) && p != start
}

/// The placed spawn stands on `floor` inside one of `rooms[first..]`.
pub open spec fn placed_in(o: Object, rooms: Seq<Rect>, first: int, floor: i32) -> bool {
    &&& o.floor == floor
    &&& o.pos is Some
    &&& exists|i: int| first <= i < rooms.len() && rect_contains(#[trigger] rooms[i], o.pos->Some_0)
}

/// Places spawns in the rooms from `first_room` on. Rooms are drawn at random from a
/// pool that refills once every room has been drawn; a spawn takes a free tile of the
/// drawn room away from occupied tiles (`start` and the blocking spawns placed so far)
/// and from the exclusion zone of every spawn placed so far. A spawn that finds no tile
/// tries the next draw; after `MAX_SPAWN_ATTEMPTS` draws in all, the rest are skipped.
pub fn place_spawns(
    rooms: &Vec<Rect>,
    first_room: usize,
    spawns: Vec<Object>,
    start: Coord,
    depth: i32,
    rng: &mut RandomNumberGenerator,
) -> (r: Vec<Object>)
    requires
        first_room <= rooms@.len() <= i32::MAX,
        forall|i: int| 0 <= i < rooms@.len() ==> (#[trigger] rooms@[i]).small() && (rooms@[i].x2 - rooms@[i].x1) * (
        rooms@[i].y2 - rooms@[i].y1) <= i32::MAX,
    ensures
        r@.len() <= spawns@.len(),
        forall|k: int| 0 <= k < r@.len() ==> placed_in(#[trigger] r@[k], rooms@, first_room as int, depth),
        forall|k: int| 0 <= k < r@.len() && (#[trigger] r@[k]).block_tile ==> r@[k].pos != Some(start),
        forall|k1: int, k2: int|
            0 <= k1 < r@.len() && 0 <= k2 < r@.len() && k1 != k2 && (#[trigger] r@[k1]).block_tile && (
            #[trigger] r@[k2]).block_tile ==> r@[k1].pos != r@[k2].pos,
        spawns@.len() > 0 && first_room < rooms@.len() && (forall|i: int| first_room <= i < rooms@.len() ==> roomy(#[trigger] rooms@[i], start)) ==> r@.len() >= 1,
{
    let ghost all_roomy = spawns@.len() > 0 && first_room < rooms@.len() && (forall|i: int| first_room <= i < rooms@.len() ==> roomy(#[trigger] rooms@[i], start));
    let mut spawns = spawns;
    let mut out: Vec<Object> = Vec::new();
    let mut blocked: Vec<Coord> = Vec::new();
    blocked.push(start);
    assert(blocked@[0] == start);
    let mut placed: Vec<Coord> = Vec::new();
    let mut pool: Vec<usize> = Vec::new();
    let mut attempts: u32 = 0;
    let ghost n0 = spawns@.len();
    while spawns.len() > 0 && attempts < MAX_SPAWN_ATTEMPTS
        invariant
            first_room <= rooms@.len() <= i32::MAX,
            forall|i: int| 0 <= i < rooms@.len() ==> (#[trigger] rooms@[i]).small() && (rooms@[i].x2 - rooms@[i].x1) * (
            rooms@[i].y2 - rooms@[i].y1) <= i32::MAX,
            out@.len() + spawns@.len() <= n0,
            pool@.len() <= rooms@.len(),
            forall|j: int| 0 <= j < pool@.len() ==> first_room <= #[trigger] pool@[j] < rooms@.len(),
            blocked@.contains(start),
            attempts == 0 ==> blocked@ == seq![start] && placed@.len() == 0 && spawns@.len() == n0,
            all_roomy ==> n0 > 0 && first_room < rooms@.len() && (forall|i: int| first_room <= i < rooms@.len() ==> roomy(#[trigger] rooms@[i], start)),
            all_roomy && attempts > 0 ==> out@.len() >= 1,
            forall|k: int| 0 <= k < out@.len() ==> placed_in(#[trigger] out@[k], rooms@, first_room as int, depth),
            forall|k: int| 0 <= k < out@.len() && (#[trigger] out@[k]).block_tile ==> blocked@.contains(out@[k].pos->Some_0),
            forall|k: int| 0 <= k < out@.len() && (#[trigger] out@[k]).block_tile ==> out@[k].pos != Some(start),
            forall|k1: int, k2: int|
                0 <= k1 < out@.len() && 0 <= k2 < out@.len() && k1 != k2 && (#[trigger] out@[k1]).block_tile && (
                #[trigger] out@[k2]).block_tile ==> out@[k1].pos != out@[k2].pos,
        decreases MAX_SPAWN_ATTEMPTS - attempts,
    {
        attempts = attempts + 1;
        if pool.len() == 0 {
            let mut i = first_room;
            while i < rooms.len()
                invariant
                    first_room <= i <= rooms@.len(),
                    pool@.len() == i - first_room,
                    forall|j: int| 0 <= j < pool@.len() ==> first_room <= #[trigger] pool@[j] < rooms@.len(),
                decreases rooms@.len() - i,
            {
                pool.push(i);
                i = i + 1;
            }
        }
        if pool.len() > 0 {
            let j = rng_range(rng, 0, pool.len() as i32) as usize;
            let room_idx = pool.remove(j);
            let room = rooms[room_idx];
            assert(rooms@[room_idx as int].small());
            let last = spawns.len() - 1;
            let blocks = spawns[last].block_tile;
            proof {
                if all_roomy && attempts == 1 {
                    assert(roomy(rooms@[room_idx as int], start));
                    let p = choose|p: Coord| #[trigger] rect_contains(rooms@[room_idx as int], p) && p != start;
                    assert(!blocked@.contains(p)) by {
                        if blocked@.contains(p) {
                            let t = choose|t: int| 0 <= t < blocked@.len() && blocked@[t] == p;
                        }
                    }
                }
            }
            match pick_tile(&room, &blocked, &placed, blocks, rng) {
                Some(p) => {
                    let mut s = spawns.pop().unwrap();
                    add_positional_info(&mut s, p, depth);
                    let ghost before = out@;
                    let ghost old_blocked = blocked@;
                    out.push(s);
                    placed.push(p);
                    if blocks {
                        blocked.push(p);
                    }
                    proof {
                        assert forall|c: Coord| old_blocked.contains(c) implies blocked@.contains(c) by {
                            let t = choose|t: int| 0 <= t < old_blocked.len() && old_blocked[t] == c;
                            assert(blocked@[t] == c);
                        }
                    }
                    proof {
                        assert(rect_contains(rooms@[room_idx as int], p));
                        assert(placed_in(out@[out@.len() - 1], rooms@, first_room as int, depth));
                        assert forall|k: int| 0 <= k < out@.len() && (#[trigger] out@[k]).block_tile implies blocked@.contains(out@[k].pos->Some_0) by {
                            if k < before.len() {
                                assert(out@[k] == before[k]);
                                assert(old_blocked.contains(before[k].pos->Some_0));
                            } else {
                                assert(blocked@[blocked@.len() - 1] == p);
                            }
                        }
                    }
                },
                None => {},
            }
        }
    }
    assert(all_roomy ==> attempts > 0);
    out
}

/// A random tile of `room` not in `blocked_points`. When every tile is blocked, any
/// tile of the room if the object to place does not block movement, else `None`.
pub fn try_find_spawnable_position(
    room: &Rect,
    blocked_points: &Vec<Coord>,
    non_blocking_object: bool,
    rng: &mut RandomNumberGenerator,
) -> (r: Option<Coord>)
    requires
        room.small(),
        (room.x2 - room.x1) * (room.y2 - room.y1) <= i32::MAX,
    ensures
        r matches Some(p) ==> rect_contains(*room, p),
        (exists|p: Coord| rect_contains(*room, p) && !blocked_points@.contains(p)) ==> (r matches Some(p) && !blocked_points@.contains(p)),
        (forall|p: Coord| rect_contains(*room, p) ==> blocked_points@.contains(p)) ==> (r is Some <==> (non_blocking_object && room.x1 < room.x2 && room.y1 < room.y2)),
{
    let points = room_points(room);
    let mut free: Vec<Coord> = Vec::new();
    let mut i: usize = 0;
    while i < points.len()
        invariant
            i <= points@.len(),
            forall|j: int| 0 <= j < free@.len() ==> rect_contains(*room, #[trigger] free@[j]) && !blocked_points@.contains(free@[j]),
            forall|j: int| 0 <= j < i && !blocked_points@.contains(#[trigger] points@[j]) ==> free@.contains(points@[j]),
            free@.len() <= i,
            forall|j: int| 0 <= j < points@.len() ==> rect_contains(*room, #[trigger] points@[j]),
            forall|p: Coord| rect_contains(*room, p) ==> #[trigger] points@.contains(p),
            points@.len() == (room.x2 - room.x1) * (room.y2 - room.y1),
        decreases points@.len() - i,
    {
        let p = points[i];
        assert(rect_contains(*room, points@[i as int]));
        if !crate::ai::coord_listed(blocked_points, p) {
            let ghost before = free@;
            free.push(p);
            proof {
                assert forall|j: int| 0 <= j < free@.len() implies rect_contains(*room, #[trigger] free@[j]) && !blocked_points@.contains(free@[j]) by {
                    if j < before.len() {
                        assert(free@[j] == before[j]);
                    }
                }
                assert forall|j: int| 0 <= j < i + 1 && !blocked_points@.contains(#[trigger] points@[j]) implies free@.contains(points@[j]) by {
                    if j == i {
                        assert(free@[free@.len() - 1] == p);
                    } else {
                        let k = choose|k: int| 0 <= k < before.len() && before[k] == points@[j];
                        assert(free@[k] == points@[j]);
                    }
                }
            }
        }
        i = i + 1;
    }
    if free.len() > 0 {
        let k = rng_range(rng, 0, free.len() as i32);
        assert(rect_contains(*room, free@[k as int]));
        Some(free[k as usize])
    } else {
        proof {
            assert forall|p: Coord| rect_contains(*room, p) implies blocked_points@.contains(p) by {
                assert(points@.contains(p));
                let j = choose|j: int| 0 <= j < points@.len() && points@[j] == p;
                if !blocked_points@.contains(p) {
                    assert(free@.contains(points@[j]));
                }
            }
        }
        if !non_blocking_object || points.len() == 0 {
            proof {
                if points@.len() == 0 && room.x1 < room.x2 && room.y1 < room.y2 {
                    assert(rect_contains(*room, Coord { x: room.x1, y: room.y1 }));
                    assert(points@.contains(Coord { x: room.x1, y: room.y1 }));
                }
            }
            None
        } else {
            let k = rng_range(rng, 0, points.len() as i32);
            assert(rect_contains(*room, points@[k as int]));
            proof {
                assert((room.x2 - room.x1) * (room.y2 - room.y1) > 0);
                if room.x1 >= room.x2 || room.y1 >= room.y2 {
                    assert((room.x2 - room.x1) * (room.y2 - room.y1) <= 0) by (nonlinear_arith)
                        requires room.x1 <= room.x2, room.y1 <= room.y2, room.x1 >= room.x2 || room.y1 >= room.y2;
                }
            }
            Some(points[k as usize])
        }
    }
}

/// Draws `num_enemies` enemies from the table by weight (a uniform pivot in `[0, W)`
/// per enemy) and instantiates each from the drawn entry's template.
pub fn get_enemy_spawn_table(table: &Vec<SpawnEntry>, num_enemies: i32, rng: &mut RandomNumberGenerator) -> (r: Vec<Object>)
    requires
        0 < total_weight(table@) <= i32::MAX,
    ensures
        r@.len() == if num_enemies > 0 { num_enemies as int } else { 0 },
        exists|pivots: Seq<u32>| {
            &&& #[trigger] pivots.len() == r@.len()
            &&& forall|k: int| 0 <= k < pivots.len() ==> (#[trigger] pivots[k]) < total_weight(table@)
            &&& forall|i: int| 0 <= i < r@.len() ==> instance_of(table@, pivots[i], #[trigger] r@[i])
        },
{
    let pivots = draw_pivots(table, num_enemies, rng);
    let r = instantiate_draws(table, &pivots);
    assert(pivots@.len() == r@.len());
    r
}

/// The item spawns of a level: the imported items followed by four more copies of the
/// first one.
pub fn get_item_spawns(items: Vec<Object>) -> (r: Vec<Object>)
    ensures
        items@.len() == 0 ==> r@.len() == 0,
        items@.len() > 0 ==> r@.len() == items@.len() + 4,
        forall|j: int| 0 <= j < items@.len() ==> #[trigger] r@[j] == items@[j],
{
    let mut items = items;
    if items.len() == 0 {
        return items;
    }
    let ghost start = items@;
    let mut k: usize = 0;
    while k < 4
        invariant
            k <= 4,
            start.len() > 0,
            items@.len() == start.len() + k,
            forall|j: int| 0 <= j < start.len() ==> #[trigger] items@[j] == start[j],
        decreases 4 - k,
    {
        let copy = items[0].clone();
        items.push(copy);
        k = k + 1;
    }
    items
}

/// `o` put in the inventory of actor `owner`, otherwise unchanged.
pub open spec fn given_to(o: Object, f: Object, owner: usize) -> bool {
    f == (Object { in_inventory: Some(InInventory { owner_id: owner }), ..o })
}

/// The starting equipment, put in the player's inventory.
pub fn get_starting_equip(items: Vec<Object>) -> (r: Vec<Object>)
    ensures
        r@.len() == items@.len(),
        forall|j: int| 0 <= j < items@.len() ==> given_to(#[trigger] items@[j], r@[j], 0),
{
    let mut items = items;
    let ghost start = items@;
    let mut i: usize = 0;
    while i < items.len()
        invariant
            i <= items@.len(),
            items@.len() == start.len(),
            forall|j: int| 0 <= j < i ==> given_to(#[trigger] start[j], items@[j], 0),
            forall|j: int| i <= j < start.len() ==> #[trigger] items@[j] == start[j],
        decreases items@.len() - i,
    {
        let o = &mut items[i];
        o.in_inventory = Some(InInventory { owner_id: 0 });
        i = i + 1;
    }
    items
}

/// Puts `items` in the inventory of actor `obj_id` and appends them to the actor list.
pub fn give_items(objects: &mut Vec<Object>, obj_id: usize, items: Vec<Object>)
    ensures
        final(objects)@.len() == old(objects)@.len() + items@.len(),
        forall|j: int| 0 <= j < old(objects)@.len() ==> #[trigger] final(objects)@[j] == old(objects)@[j],
        forall|j: int| 0 <= j < items@.len() ==> given_to(#[trigger] items@[j], final(objects)@[old(objects)@.len() + j], obj_id),
{
    let mut items = items;
    let ghost start = items@;
    let ghost base = objects@;
    let mut i: usize = 0;
    while i < items.len()
        invariant
            i <= items@.len(),
            items@.len() == start.len(),
            objects@ == base,
            forall|j: int| 0 <= j < i ==> given_to(#[trigger] start[j], items@[j], obj_id),
            forall|j: int| i <= j < start.len() ==> #[trigger] items@[j] == start[j],
        decreases items@.len() - i,
    {
        let o = &mut items[i];
        o.in_inventory = Some(InInventory { owner_id: obj_id });
        i = i + 1;
    }
    let ghost given = items@;
    let n = items.len();
    let mut k: usize = 0;
    while k < n
        invariant
            n == given.len(),
            k <= given.len(),
            given.len() == start.len(),
            items@ == given.subrange(k as int, given.len() as int),
            objects@ == base + given.subrange(0, k as int),
            forall|j: int| 0 <= j < start.len() ==> given_to(#[trigger] start[j], given[j], obj_id),
        decreases given.len() - k,
    {
        let o = items.remove(0);
        objects.push(o);
        k = k + 1;
        assert(items@ =~= given.subrange(k as int, given.len() as int));
        assert(objects@ =~= base + given.subrange(0, k as int));
    }
    assert(given.subrange(0, k as int) =~= given);
}

} // verus!
