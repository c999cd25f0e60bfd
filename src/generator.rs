use vstd::prelude::*;
use crate::geometry::{Coord, Rect, rect_center, rect_contains, rects_intersect};
use crate::map::{GameMap, TileClass, collides};
use crate::object::Object;
use crate::paths::{
    connected, grows, lemma_connected_grows, lemma_connected_refl, lemma_connected_trans,
    lemma_horizontal_then_vertical, lemma_vertical_then_horizontal,
};
use crate::rng::rng_range;
use crate::spawn::{SpawnEntry, get_enemy_spawn_table, place_spawns, placed_in, roomy, total_weight};
use bracket_random::prelude::RandomNumberGenerator;

verus! {

#[derive(Clone, Copy, PartialEq, Eq, Structural, Debug)]
pub enum GenerationMode {
    RandomRooms,
    Unimplemented,
}

/// Rectangles tried before room placement gives up on filling the quota.
pub const MAX_ROOM_ATTEMPTS: u32 = 100000;

/// A level under construction, and then the finished level.
pub struct MapGenerator {
    pub map: GameMap,
    pub rooms: Vec<Rect>,
    pub depth: i32,
    pub max_rooms: usize,
    pub start_pos: Coord,
    pub objects: Vec<Object>,
}

/// The room lies inside the map with a margin of one tile, and is at least 2 by 2.
pub open spec fn room_fits(r: Rect, w: int, h: int) -> bool {
    1 <= r.x1 && r.x1 + 2 <= r.x2 <= r.x1 + 10 && r.x2 <= w - 2 && 1 <= r.y1 && r.y1 + 2 <= r.y2 <= r.y1
        + 10 && r.y2 <= h - 2
}

/// No two rooms touch or overlap.
pub open spec fn rooms_disjoint(rs: Seq<Rect>) -> bool {
    forall|i: int, j: int|
        0 <= i < rs.len() && 0 <= j < rs.len() && i != j ==> !rects_intersect(
            #[trigger] rs[i],
            #[trigger] rs[j],
        )
}

/// Rooms are ordered by the column of their centre.
pub open spec fn sorted_by_center(rs: Seq<Rect>) -> bool {
    forall|i: int, j: int|
        0 <= i < j < rs.len() ==> rect_center(#[trigger] rs[i]).x <= rect_center(#[trigger] rs[j]).x
}

pub open spec fn rooms_fit(rs: Seq<Rect>, w: int, h: int) -> bool {
    forall|i: int| 0 <= i < rs.len() ==> room_fits(#[trigger] rs[i], w, h)
}

/// Every tile of every room is free of collision.
pub open spec fn rooms_carved(m: GameMap, rs: Seq<Rect>) -> bool {
    forall|i: int, p: Coord|
        0 <= i < rs.len() && #[trigger] rect_contains(rs[i], p) ==> !collides(m.tile_at(p))
}

/// No tile is occupied.
pub open spec fn clear_occupancy(m: GameMap) -> bool {
    forall|i: int| 0 <= i < m.objblocked@.len() ==> !#[trigger] m.objblocked@[i]
}

/// No tile is a down-stair.
pub open spec fn no_stairs(m: GameMap) -> bool {
    forall|i: int| 0 <= i < m.tiles@.len() ==> #[trigger] m.tiles@[i] != TileClass::DownStair
}

/// `after` differs from `before` only by tiles turned to floor.
pub open spec fn carved_from(before: GameMap, after: GameMap) -> bool {
    &&& grows(before, after)
    &&& forall|i: int|
        0 <= i < before.tiles@.len() ==> #[trigger] after.tiles@[i] == before.tiles@[i]
            || (before.tiles@[i] == TileClass::Wall && after.tiles@[i] == TileClass::Floor)
}

/// Every tile is a wall or a floor (the map while it is being carved).
pub open spec fn plain(m: GameMap) -> bool {
    forall|i: int| 0 <= i < m.tiles@.len() ==> #[trigger] m.tiles@[i] == TileClass::Wall || m.tiles@[i] == TileClass::Floor
}

/// `a` and `b` are joined by an L of floor tiles: vertically from `a` to the row of
/// `b` then horizontally, or horizontally from `a` to the column of `b` then vertically.
pub open spec fn l_joined(m: GameMap, a: Coord, b: Coord) -> bool {
    ||| (forall|y: int| (a.y <= y <= b.y || b.y <= y <= a.y) ==> #[trigger] m.tile_at(Coord { x: a.x, y: y as i32 }) == TileClass::Floor)
        && (forall|x: int| (a.x <= x <= b.x || b.x <= x <= a.x) ==> #[trigger] m.tile_at(Coord { x: x as i32, y: b.y }) == TileClass::Floor)
    ||| (forall|x: int| (a.x <= x <= b.x || b.x <= x <= a.x) ==> #[trigger] m.tile_at(Coord { x: x as i32, y: a.y }) == TileClass::Floor)
        && (forall|y: int| (a.y <= y <= b.y || b.y <= y <= a.y) ==> #[trigger] m.tile_at(Coord { x: b.x, y: y as i32 }) == TileClass::Floor)
}

proof fn lemma_l_kept(m1: GameMap, m2: GameMap, a: Coord, b: Coord)
    requires
        m1.wf(),
        carved_from(m1, m2),
        m1.spec_in_bounds(a.x as int, a.y as int),
        m1.spec_in_bounds(b.x as int, b.y as int),
        l_joined(m1, a, b),
    ensures
        l_joined(m2, a, b),
{
    assert forall|x: int, y: int| (a.x <= x <= b.x || b.x <= x <= a.x) && (a.y <= y <= b.y || b.y <= y <= a.y)
        && m1.tile_at(Coord { x: x as i32, y: y as i32 }) == TileClass::Floor
        implies #[trigger] m2.tile_at(Coord { x: x as i32, y: y as i32 }) == TileClass::Floor by {
        crate::map::lemma_index_in_range(x, y, m1.width as int, m1.height as int);
    }
    if (forall|y: int| (a.y <= y <= b.y || b.y <= y <= a.y) ==> #[trigger] m1.tile_at(Coord { x: a.x, y: y as i32 }) == TileClass::Floor)
        && (forall|x: int| (a.x <= x <= b.x || b.x <= x <= a.x) ==> #[trigger] m1.tile_at(Coord { x: x as i32, y: b.y }) == TileClass::Floor) {
        assert forall|y: int| (a.y <= y <= b.y || b.y <= y <= a.y) implies #[trigger] m2.tile_at(Coord { x: a.x, y: y as i32 }) == TileClass::Floor by {
            assert(m1.tile_at(Coord { x: a.x, y: y as i32 }) == TileClass::Floor);
            assert(m1.tile_at(Coord { x: a.x as int as i32, y: y as i32 }) == TileClass::Floor);
        }
        assert forall|x: int| (a.x <= x <= b.x || b.x <= x <= a.x) implies #[trigger] m2.tile_at(Coord { x: x as i32, y: b.y }) == TileClass::Floor by {
            assert(m1.tile_at(Coord { x: x as i32, y: b.y }) == TileClass::Floor);
            assert(m1.tile_at(Coord { x: x as i32, y: b.y as int as i32 }) == TileClass::Floor);
        }
    } else {
        assert forall|x: int| (a.x <= x <= b.x || b.x <= x <= a.x) implies #[trigger] m2.tile_at(Coord { x: x as i32, y: a.y }) == TileClass::Floor by {
            assert(m1.tile_at(Coord { x: x as i32, y: a.y }) == TileClass::Floor);
            assert(m1.tile_at(Coord { x: x as i32, y: a.y as int as i32 }) == TileClass::Floor);
        }
        assert forall|y: int| (a.y <= y <= b.y || b.y <= y <= a.y) implies #[trigger] m2.tile_at(Coord { x: b.x, y: y as i32 }) == TileClass::Floor by {
            assert(m1.tile_at(Coord { x: b.x, y: y as i32 }) == TileClass::Floor);
            assert(m1.tile_at(Coord { x: b.x as int as i32, y: y as i32 }) == TileClass::Floor);
        }
    }
}

/// The finished level: rooms that fit, never touch and are sorted by centre column;
/// every tile of every room reachable from the start; one down-stair at the centre of
/// the last room; no tile occupied.
pub open spec fn level_ok(g: MapGenerator, w: int, h: int) -> bool {
    let rs = g.rooms@;
    let m = g.map;
    &&& m.wf()
    &&& m.width == w
    &&& m.height == h
    &&& rs.len() >= 1
    &&& rs.len() <= g.max_rooms
    &&& rooms_fit(rs, w, h)
    &&& rooms_disjoint(rs)
    &&& sorted_by_center(rs)
    &&& g.start_pos == rect_center(rs[0])
    &&& clear_occupancy(m)
    &&& forall|i: int, p: Coord|
        0 <= i < rs.len() && #[trigger] rect_contains(rs[i], p) ==> m.spec_walkable(
            p.x as int,
            p.y as int,
        ) && connected(m, g.start_pos, p)
    &&& m.tile_at(rect_center(rs.last())) == TileClass::DownStair
    &&& forall|i: int|
        0 <= i < m.tiles@.len() && #[trigger] m.tiles@[i] == TileClass::DownStair ==> i
            == m.spec_index(rect_center(rs.last()).x as int, rect_center(rs.last()).y as int)
}

proof fn lemma_fits_small(r: Rect, w: int, h: int)
    requires
        room_fits(r, w, h),
        w <= 0x3fff_ffff,
        h <= 0x3fff_ffff,
    ensures
        r.small(),
        rect_contains(r, rect_center(r)),
{
}

/// Every tile of a carved room is connected to its centre.
proof fn lemma_room_connected(m: GameMap, r: Rect, p: Coord)
    requires
        forall|q: Coord| #[trigger] rect_contains(r, q) ==> m.spec_walkable(q.x as int, q.y as int),
        rect_contains(r, p),
        rect_contains(r, rect_center(r)),
    ensures
        connected(m, rect_center(r), p),
{
    let c = rect_center(r);
    assert forall|y: int| (c.y <= y <= p.y || p.y <= y <= c.y) implies m.spec_walkable(c.x as int, y) by {
        assert(rect_contains(r, Coord { x: c.x, y: y as i32 }));
    }
    assert forall|x: int| (c.x <= x <= p.x || p.x <= x <= c.x) implies m.spec_walkable(x, p.y as int) by {
        assert(rect_contains(r, Coord { x: x as i32, y: p.y }));
    }
    lemma_vertical_then_horizontal(m, c, p);
}

proof fn lemma_carved_trans(a: GameMap, b: GameMap, c: GameMap)
    requires
        carved_from(a, b),
        carved_from(b, c),
    ensures
        carved_from(a, c),
{
    assert forall|i: int| 0 <= i < a.tiles@.len() && !collides(a.tiles@[i]) implies !collides(
        #[trigger] c.tiles@[i],
    ) by {
        assert(!collides(b.tiles@[i]));
    }
    assert forall|i: int| 0 <= i < a.tiles@.len() implies #[trigger] c.tiles@[i] == a.tiles@[i]
        || (a.tiles@[i] == TileClass::Wall && c.tiles@[i] == TileClass::Floor) by {
        assert(b.tiles@[i] == a.tiles@[i] || (a.tiles@[i] == TileClass::Wall && b.tiles@[i] == TileClass::Floor));
        assert(c.tiles@[i] == b.tiles@[i] || (b.tiles@[i] == TileClass::Wall && c.tiles@[i] == TileClass::Floor));
    }
}

proof fn lemma_rooms_stay_carved(a: GameMap, b: GameMap, rs: Seq<Rect>)
    requires
        a.wf(),
        grows(a, b),
        rooms_fit(rs, a.width as int, a.height as int),
        rooms_carved(a, rs),
    ensures
        rooms_carved(b, rs),
{
    assert forall|i: int, p: Coord| 0 <= i < rs.len() && #[trigger] rect_contains(rs[i], p) implies !collides(b.tile_at(p)) by {
        assert(room_fits(rs[i], a.width as int, a.height as int));
        crate::map::lemma_index_in_range(p.x as int, p.y as int, a.width as int, a.height as int);
        assert(!collides(a.tile_at(p)));
    }
}

proof fn lemma_walkable_floor(m: GameMap, x: int, y: int)
    requires
        m.wf(),
        clear_occupancy(m),
        m.spec_in_bounds(x, y),
        !collides(m.tile_at(Coord { x: x as i32, y: y as i32 })),
    ensures
        m.spec_walkable(x, y),
{
    crate::map::lemma_index_in_range(x, y, m.width as int, m.height as int);
}

proof fn lemma_room_tiles_walkable(m: GameMap, r: Rect)
    requires
        m.wf(),
        clear_occupancy(m),
        room_fits(r, m.width as int, m.height as int),
        forall|p: Coord| #[trigger] rect_contains(r, p) ==> !collides(m.tile_at(p)),
    ensures
        forall|q: Coord| #[trigger] rect_contains(r, q) ==> m.spec_walkable(q.x as int, q.y as int),
{
    assert forall|q: Coord| #[trigger] rect_contains(r, q) implies m.spec_walkable(q.x as int, q.y as int) by {
        lemma_walkable_floor(m, q.x as int, q.y as int);
    }
}

/// The start of a finished level is a walkable, passable tile far from the bounds of an `i32`.
pub proof fn lemma_start_walkable(g: MapGenerator, w: int, h: int)
    requires
        level_ok(g, w, h),
    ensures
        g.map.passable(g.start_pos),
        g.map.spec_walkable(g.start_pos.x as int, g.start_pos.y as int),
        crate::camera::framable(g.start_pos),
{
    let rs = g.rooms@;
    assert(room_fits(rs[0], w, h));
    assert(w <= 0x3fff_ffff && h <= 0x3fff_ffff) by (nonlinear_arith)
        requires g.map.width == w, g.map.height == h, 0 <= w, 0 <= h, w * h <= i32::MAX, rs[0].x1 >= 1, rs[0].x1 + 2 <= rs[0].x2, rs[0].x2 <= w - 2, rs[0].y1 >= 1, rs[0].y1 + 2 <= rs[0].y2, rs[0].y2 <= h - 2;
    lemma_fits_small(rs[0], w, h);
    assert(rect_contains(rs[0], g.start_pos));
}

impl MapGenerator {
    fn init(w: i32, h: i32, depth: i32, max_rooms: usize) -> (r: MapGenerator)
        requires
            0 <= w,
            0 <= h,
            w * h <= i32::MAX,
        ensures
            r.map.wf(),
            r.map.width == w,
            r.map.height == h,
            clear_occupancy(r.map),
            r.rooms@.len() == 0,
            r.objects@.len() == 0,
            r.depth == depth,
            r.max_rooms == max_rooms,
    {
        MapGenerator {
            map: GameMap::new(w, h),
            rooms: Vec::new(),
            depth,
            max_rooms,
            start_pos: Coord { x: 0, y: 0 },
            objects: Vec::new(),
        }
    }

    /// Sets every tile to `tile`.
    fn fill(&mut self, tile: TileClass)
        requires
            old(self).map.wf(),
        ensures
            final(self).map.wf(),
            final(self).map.width == old(self).map.width,
            final(self).map.height == old(self).map.height,
            final(self).map.objblocked@ == old(self).map.objblocked@,
            forall|i: int| 0 <= i < final(self).map.tiles@.len() ==> #[trigger] final(self).map.tiles@[i] == tile,
            final(self).rooms@ == old(self).rooms@,
            final(self).objects@ == old(self).objects@,
            final(self).max_rooms == old(self).max_rooms,
            final(self).depth == old(self).depth,
    {
        let n = self.map.tiles.len();
        let mut i: usize = 0;
        while i < n
            invariant
                n == self.map.tiles@.len(),
                self.map.wf(),
                self.map.width == old(self).map.width,
                self.map.height == old(self).map.height,
                self.map.objblocked@ == old(self).map.objblocked@,
                self.rooms@ == old(self).rooms@,
                self.objects@ == old(self).objects@,
                self.max_rooms == old(self).max_rooms,
                self.depth == old(self).depth,
                i <= n,
                forall|j: int| 0 <= j < i ==> #[trigger] self.map.tiles@[j] == tile,
            decreases n - i,
        {
            self.map.tiles.set(i, tile);
            i = i + 1;
        }
    }

    /// Turns the tile at `(x, y)` to floor if it is inside the map.
    fn carve_tile(&mut self, x: i32, y: i32)
        requires
            plain(old(self).map),
            old(self).map.wf(),
        ensures
            plain(final(self).map),
            final(self).map.wf(),
            carved_from(old(self).map, final(self).map),
            old(self).map.spec_in_bounds(x as int, y as int) ==> final(self).map.tile_at(Coord { x, y })
                == TileClass::Floor,
            forall|p: Coord| old(self).map.spec_in_bounds(p.x as int, p.y as int) && p != (Coord { x, y })
                ==> #[trigger] final(self).map.tile_at(p) == old(self).map.tile_at(p),
            final(self).rooms@ == old(self).rooms@,
            final(self).objects@ == old(self).objects@,
            final(self).max_rooms == old(self).max_rooms,
            final(self).depth == old(self).depth,
            final(self).start_pos == old(self).start_pos,
    {
        if let Some(idx) = self.map.try_index(x, y) {
            proof {
                crate::map::lemma_index_in_range(x as int, y as int, self.map.width as int, self.map.height as int);
            }
            self.map.tiles.set(idx, TileClass::Floor);
            proof {
                assert forall|p: Coord| old(self).map.spec_in_bounds(p.x as int, p.y as int) && p != (Coord { x, y })
                    implies #[trigger] self.map.tile_at(p) == old(self).map.tile_at(p) by {
                    crate::map::lemma_index_in_range(p.x as int, p.y as int, self.map.width as int, self.map.height as int);
                    if old(self).map.spec_index(p.x as int, p.y as int) == idx {
                        crate::map::lemma_index_injective(p.x as int, p.y as int, x as int, y as int, self.map.width as int);
                    }
                }
            }
        }
    }

    /// Carves floor on row `y` from `x1` to `x2`, both included.
    fn make_h_tunnel(&mut self, x1: i32, x2: i32, y: i32)
        requires
            plain(old(self).map),
            old(self).map.wf(),
        ensures
            plain(final(self).map),
            final(self).map.wf(),
            carved_from(old(self).map, final(self).map),
            forall|x: int|
                (x1 <= x <= x2 || x2 <= x <= x1) && old(self).map.spec_in_bounds(x, y as int)
                    ==> #[trigger] final(self).map.tile_at(Coord { x: x as i32, y }) == TileClass::Floor,
            forall|p: Coord| old(self).map.spec_in_bounds(p.x as int, p.y as int) && !(p.y == y && (x1 <= p.x <= x2 || x2 <= p.x <= x1))
                ==> #[trigger] final(self).map.tile_at(p) == old(self).map.tile_at(p),
            final(self).rooms@ == old(self).rooms@,
            final(self).objects@ == old(self).objects@,
            final(self).max_rooms == old(self).max_rooms,
            final(self).depth == old(self).depth,
            final(self).start_pos == old(self).start_pos,
    {
        let lo = if x1 <= x2 { x1 } else { x2 };
        let hi = if x1 <= x2 { x2 } else { x1 };
        let mut x = lo;
        while x < hi
            invariant
                plain(self.map),
                lo <= x <= hi,
                lo == (if x1 <= x2 { x1 } else { x2 }),
                hi == (if x1 <= x2 { x2 } else { x1 }),
                self.map.wf(),
                carved_from(old(self).map, self.map),
                forall|v: int|
                    lo <= v < x && old(self).map.spec_in_bounds(v, y as int)
                        ==> #[trigger] self.map.tile_at(Coord { x: v as i32, y }) == TileClass::Floor,
                forall|p: Coord| old(self).map.spec_in_bounds(p.x as int, p.y as int) && !(p.y == y && lo <= p.x < x)
                    ==> #[trigger] self.map.tile_at(p) == old(self).map.tile_at(p),
                self.rooms@ == old(self).rooms@,
                self.objects@ == old(self).objects@,
                self.max_rooms == old(self).max_rooms,
                self.depth == old(self).depth,
                self.start_pos == old(self).start_pos,
            decreases hi - x,
        {
            let ghost before = self.map;
            self.carve_tile(x, y);
            proof {
                assert forall|v: int|
                    lo <= v < x && old(self).map.spec_in_bounds(v, y as int)
                        implies #[trigger] self.map.tile_at(Coord { x: v as i32, y }) == TileClass::Floor by {
                    crate::map::lemma_index_in_range(v, y as int, before.width as int, before.height as int);
                    assert(before.tile_at(Coord { x: v as i32, y }) == TileClass::Floor);
                }
            }
            x = x + 1;
        }
        let ghost before = self.map;
        self.carve_tile(hi, y);
        proof {
            assert forall|v: int|
                lo <= v < hi && old(self).map.spec_in_bounds(v, y as int)
                    implies #[trigger] self.map.tile_at(Coord { x: v as i32, y }) == TileClass::Floor by {
                crate::map::lemma_index_in_range(v, y as int, before.width as int, before.height as int);
                assert(before.tile_at(Coord { x: v as i32, y }) == TileClass::Floor);
            }
        }
    }

    /// Carves floor on column `x` from `y1` to `y2`, both included.
    fn make_v_tunnel(&mut self, y1: i32, y2: i32, x: i32)
        requires
            plain(old(self).map),
            old(self).map.wf(),
        ensures
            plain(final(self).map),
            final(self).map.wf(),
            carved_from(old(self).map, final(self).map),
            forall|y: int|
                (y1 <= y <= y2 || y2 <= y <= y1) && old(self).map.spec_in_bounds(x as int, y)
                    ==> #[trigger] final(self).map.tile_at(Coord { x, y: y as i32 }) == TileClass::Floor,
            forall|p: Coord| old(self).map.spec_in_bounds(p.x as int, p.y as int) && !(p.x == x && (y1 <= p.y <= y2 || y2 <= p.y <= y1))
                ==> #[trigger] final(self).map.tile_at(p) == old(self).map.tile_at(p),
            final(self).rooms@ == old(self).rooms@,
            final(self).objects@ == old(self).objects@,
            final(self).max_rooms == old(self).max_rooms,
            final(self).depth == old(self).depth,
            final(self).start_pos == old(self).start_pos,
    {
        let lo = if y1 <= y2 { y1 } else { y2 };
        let hi = if y1 <= y2 { y2 } else { y1 };
        let mut y = lo;
        while y < hi
            invariant
                plain(self.map),
                lo <= y <= hi,
                lo == (if y1 <= y2 { y1 } else { y2 }),
                hi == (if y1 <= y2 { y2 } else { y1 }),
                self.map.wf(),
                carved_from(old(self).map, self.map),
                forall|v: int|
                    lo <= v < y && old(self).map.spec_in_bounds(x as int, v)
                        ==> #[trigger] self.map.tile_at(Coord { x, y: v as i32 }) == TileClass::Floor,
                forall|p: Coord| old(self).map.spec_in_bounds(p.x as int, p.y as int) && !(p.x == x && lo <= p.y < y)
                    ==> #[trigger] self.map.tile_at(p) == old(self).map.tile_at(p),
                self.rooms@ == old(self).rooms@,
                self.objects@ == old(self).objects@,
                self.max_rooms == old(self).max_rooms,
                self.depth == old(self).depth,
                self.start_pos == old(self).start_pos,
            decreases hi - y,
        {
            let ghost before = self.map;
            self.carve_tile(x, y);
            proof {
                assert forall|v: int|
                    lo <= v < y && old(self).map.spec_in_bounds(x as int, v)
                        implies #[trigger] self.map.tile_at(Coord { x, y: v as i32 }) == TileClass::Floor by {
                    crate::map::lemma_index_in_range(x as int, v, before.width as int, before.height as int);
                    assert(before.tile_at(Coord { x, y: v as i32 }) == TileClass::Floor);
                }
            }
            y = y + 1;
        }
        let ghost before = self.map;
        self.carve_tile(x, hi);
        proof {
            assert forall|v: int|
                lo <= v < hi && old(self).map.spec_in_bounds(x as int, v)
                    implies #[trigger] self.map.tile_at(Coord { x, y: v as i32 }) == TileClass::Floor by {
                crate::map::lemma_index_in_range(x as int, v, before.width as int, before.height as int);
                assert(before.tile_at(Coord { x, y: v as i32 }) == TileClass::Floor);
            }
        }
    }

    /// Turns every tile of `room` to floor.
    fn carve_room(&mut self, room: Rect)
        requires
            plain(old(self).map),
            old(self).map.wf(),
            room_fits(room, old(self).map.width as int, old(self).map.height as int),
        ensures
            plain(final(self).map),
            final(self).map.wf(),
            carved_from(old(self).map, final(self).map),
            forall|p: Coord| #[trigger] rect_contains(room, p) ==> final(self).map.tile_at(p) == TileClass::Floor,
            forall|p: Coord| old(self).map.spec_in_bounds(p.x as int, p.y as int) && !rect_contains(room, p)
                ==> #[trigger] final(self).map.tile_at(p) == old(self).map.tile_at(p),
            final(self).rooms@ == old(self).rooms@,
            final(self).objects@ == old(self).objects@,
            final(self).max_rooms == old(self).max_rooms,
            final(self).depth == old(self).depth,
            final(self).start_pos == old(self).start_pos,
    {
        let mut y = room.y1;
        while y < room.y2
            invariant
                plain(self.map),
                room.y1 <= y <= room.y2,
                room_fits(room, old(self).map.width as int, old(self).map.height as int),
                self.map.wf(),
                carved_from(old(self).map, self.map),
                forall|p: Coord| #[trigger] rect_contains(room, p) && p.y < y ==> self.map.tile_at(p) == TileClass::Floor,
                forall|p: Coord| old(self).map.spec_in_bounds(p.x as int, p.y as int) && !(rect_contains(room, p) && p.y < y)
                    ==> #[trigger] self.map.tile_at(p) == old(self).map.tile_at(p),
                self.rooms@ == old(self).rooms@,
                self.objects@ == old(self).objects@,
                self.max_rooms == old(self).max_rooms,
                self.depth == old(self).depth,
                self.start_pos == old(self).start_pos,
            decreases room.y2 - y,
        {
            let ghost before = self.map;
            self.make_h_tunnel(room.x1, room.x2 - 1, y);
            proof {
                assert forall|p: Coord| #[trigger] rect_contains(room, p) && p.y < y + 1 implies self.map.tile_at(p) == TileClass::Floor by {
                    crate::map::lemma_index_in_range(p.x as int, p.y as int, before.width as int, before.height as int);
                    if p.y < y {
                        assert(before.tile_at(p) == TileClass::Floor);
                    } else {
                        assert(self.map.tile_at(Coord { x: p.x as int as i32, y }) == TileClass::Floor);
                    }
                }
            }
            y = y + 1;
        }
    }

    /// Inserts `room` after every room whose centre column is not greater than its own.
    fn insert_room(&mut self, room: Rect)
        requires
            sorted_by_center(old(self).rooms@),
            rooms_disjoint(old(self).rooms@),
            forall|j: int| 0 <= j < old(self).rooms@.len() ==> !rects_intersect(#[trigger] old(self).rooms@[j], room),
            room.small(),
            forall|j: int| 0 <= j < old(self).rooms@.len() ==> (#[trigger] old(self).rooms@[j]).small(),
        ensures
            sorted_by_center(final(self).rooms@),
            rooms_disjoint(final(self).rooms@),
            final(self).rooms@.len() == old(self).rooms@.len() + 1,
            forall|r: Rect| #[trigger] final(self).rooms@.contains(r) <==> (old(self).rooms@.contains(r) || r == room),
            final(self).map == old(self).map,
            final(self).objects@ == old(self).objects@,
            final(self).max_rooms == old(self).max_rooms,
            final(self).depth == old(self).depth,
            final(self).start_pos == old(self).start_pos,
    {
        let c = room.center();
        let mut p: usize = 0;
        while p < self.rooms.len() && self.rooms[p].center_x() <= c.x
            invariant
                p <= self.rooms@.len(),
                self.rooms@ == old(self).rooms@,
                forall|j: int| 0 <= j < old(self).rooms@.len() ==> (#[trigger] old(self).rooms@[j]).small(),
                forall|j: int| 0 <= j < p ==> rect_center(#[trigger] self.rooms@[j]).x <= c.x,
            decreases self.rooms@.len() - p,
        {
            p = p + 1;
        }
        let ghost rs = self.rooms@;
        self.rooms.insert(p, room);
        proof {
            let ns = self.rooms@;
            assert(ns == rs.insert(p as int, room));
            rs.insert_ensures(p as int, room);
            assert forall|i: int, j: int| 0 <= i < j < ns.len() implies rect_center(#[trigger] ns[i]).x <= rect_center(#[trigger] ns[j]).x by {
                if j < p {
                } else if j == p {
                } else if i < p {
                } else if i == p {
                    assert(ns[j] == rs[j - 1]);
                    assert(!(rect_center(rs[p as int]).x <= c.x));
                    if j - 1 > p {
                        assert(rect_center(rs[p as int]).x <= rect_center(rs[j - 1]).x);
                    }
                } else {
                    assert(ns[i] == rs[i - 1]);
                    assert(ns[j] == rs[j - 1]);
                }
            }
            assert forall|i: int, j: int| 0 <= i < ns.len() && 0 <= j < ns.len() && i != j implies !rects_intersect(#[trigger] ns[i], #[trigger] ns[j]) by {
                if i == p {
                    let jj = if j < p { j } else { j - 1 };
                    assert(ns[j] == rs[jj]);
                    assert(!rects_intersect(rs[jj], room));
                } else if j == p {
                    let ii = if i < p { i } else { i - 1 };
                    assert(ns[i] == rs[ii]);
                    assert(!rects_intersect(rs[ii], room));
                } else {
                    let ii = if i < p { i } else { i - 1 };
                    let jj = if j < p { j } else { j - 1 };
                    assert(ns[i] == rs[ii]);
                    assert(ns[j] == rs[jj]);
                }
            }
            assert forall|r: Rect| #[trigger] ns.contains(r) <==> (rs.contains(r) || r == room) by {
                if ns.contains(r) {
                    let k = choose|k: int| 0 <= k < ns.len() && ns[k] == r;
                    if k < p {
                        assert(rs[k] == r);
                    } else if k > p {
                        assert(rs[k - 1] == r);
                    }
                }
                if rs.contains(r) {
                    let k = choose|k: int| 0 <= k < rs.len() && rs[k] == r;
                    if k < p {
                        assert(ns[k] == r);
                    } else {
                        assert(ns[k + 1] == r);
                    }
                }
                if r == room {
                    assert(ns[p as int] == r);
                }
            }
        }
    }

    /// Places up to `max_rooms` random rooms that touch no other room, carving each,
    /// and keeps them sorted by centre column.
    fn make_randomly_placed_rooms(&mut self, rng: &mut RandomNumberGenerator)
        requires
            plain(old(self).map),
            old(self).map.wf(),
            12 <= old(self).map.width <= 0x3fff_ffff,
            12 <= old(self).map.height <= 0x3fff_ffff,
            old(self).rooms@.len() == 0,
            1 <= old(self).max_rooms,
        ensures
            forall|p: Coord| old(self).map.spec_in_bounds(p.x as int, p.y as int) && (forall|j: int| 0 <= j < final(self).rooms@.len() ==> !rect_contains(#[trigger] final(self).rooms@[j], p))
                ==> #[trigger] final(self).map.tile_at(p) == old(self).map.tile_at(p),
            plain(final(self).map),
            final(self).map.wf(),
            carved_from(old(self).map, final(self).map),
            1 <= final(self).rooms@.len() <= final(self).max_rooms,
            rooms_fit(final(self).rooms@, final(self).map.width as int, final(self).map.height as int),
            rooms_disjoint(final(self).rooms@),
            sorted_by_center(final(self).rooms@),
            rooms_carved(final(self).map, final(self).rooms@),
            final(self).objects@ == old(self).objects@,
            final(self).max_rooms == old(self).max_rooms,
            final(self).depth == old(self).depth,
    {
        let w = self.map.width;
        let h = self.map.height;
        let mut attempts: u32 = 0;
        while self.rooms.len() < self.max_rooms && attempts < MAX_ROOM_ATTEMPTS
            invariant
                plain(self.map),
                forall|p: Coord| old(self).map.spec_in_bounds(p.x as int, p.y as int) && (forall|j: int| 0 <= j < self.rooms@.len() ==> !rect_contains(#[trigger] self.rooms@[j], p))
                    ==> #[trigger] self.map.tile_at(p) == old(self).map.tile_at(p),
                self.map.wf(),
                self.map.width == w,
                self.map.height == h,
                w == old(self).map.width,
                h == old(self).map.height,
                12 <= w <= 0x3fff_ffff,
                12 <= h <= 0x3fff_ffff,
                carved_from(old(self).map, self.map),
                rooms_fit(self.rooms@, w as int, h as int),
                rooms_disjoint(self.rooms@),
                sorted_by_center(self.rooms@),
                rooms_carved(self.map, self.rooms@),
                self.rooms@.len() <= self.max_rooms,
                attempts > 0 ==> self.rooms@.len() > 0,
                self.objects@ == old(self).objects@,
                self.max_rooms == old(self).max_rooms,
                1 <= self.max_rooms,
                self.depth == old(self).depth,
            decreases MAX_ROOM_ATTEMPTS - attempts,
        {
            let x = rng_range(rng, 1, w - 10);
            let y = rng_range(rng, 1, h - 10);
            let rw = rng_range(rng, 2, 10);
            let rh = rng_range(rng, 2, 10);
            let room = Rect::with_size(x, y, rw, rh);
            let mut overlap = false;
            let mut i: usize = 0;
            while i < self.rooms.len()
                invariant
                    i <= self.rooms@.len(),
                    overlap ==> self.rooms@.len() > 0,
                    !overlap ==> forall|j: int| 0 <= j < i ==> !rects_intersect(#[trigger] self.rooms@[j], room),
                decreases self.rooms@.len() - i,
            {
                if self.rooms[i].intersect(&room) {
                    overlap = true;
                }
                i = i + 1;
            }
            if !overlap {
                let ghost before = self.map;
                let ghost old_rooms = self.rooms@;
                self.carve_room(room);
                proof {
                    lemma_carved_trans(old(self).map, before, self.map);
                    lemma_rooms_stay_carved(before, self.map, old_rooms);
                    assert forall|j: int| 0 <= j < old_rooms.len() implies (#[trigger] old_rooms[j]).small() by {
                        assert(room_fits(old_rooms[j], w as int, h as int));
                    }
                }
                self.insert_room(room);
                proof {
                    let ns = self.rooms@;
                    assert forall|p: Coord| old(self).map.spec_in_bounds(p.x as int, p.y as int) && (forall|j: int| 0 <= j < ns.len() ==> !rect_contains(#[trigger] ns[j], p))
                        implies #[trigger] self.map.tile_at(p) == old(self).map.tile_at(p) by {
                        assert(ns.contains(room));
                        let jr = choose|jr: int| 0 <= jr < ns.len() && ns[jr] == room;
                        assert(!rect_contains(ns[jr], p));
                        assert forall|j: int| 0 <= j < old_rooms.len() implies !rect_contains(#[trigger] old_rooms[j], p) by {
                            assert(ns.contains(old_rooms[j]));
                            let k = choose|k: int| 0 <= k < ns.len() && ns[k] == old_rooms[j];
                            assert(!rect_contains(ns[k], p));
                        }
                        assert(before.tile_at(p) == old(self).map.tile_at(p));
                    }
                    assert forall|j: int| 0 <= j < ns.len() implies room_fits(#[trigger] ns[j], w as int, h as int) by {
                        assert(ns.contains(ns[j]));
                        if ns[j] != room {
                            let k = choose|k: int| 0 <= k < old_rooms.len() && old_rooms[k] == ns[j];
                            assert(room_fits(old_rooms[k], w as int, h as int));
                        }
                    }
                    assert forall|j: int, p: Coord| 0 <= j < ns.len() && #[trigger] rect_contains(ns[j], p) implies !collides(self.map.tile_at(p)) by {
                        assert(ns.contains(ns[j]));
                        if ns[j] != room {
                            let k = choose|k: int| 0 <= k < old_rooms.len() && old_rooms[k] == ns[j];
                            assert(rect_contains(old_rooms[k], p));
                        } else {
                            assert(self.map.tile_at(p) == TileClass::Floor);
                        }
                    }
                }
            }
            attempts = attempts + 1;
        }
    }

    /// Joins each room to the previous one (in centre-column order) with an L-shaped
    /// corridor, carved vertically first or horizontally first at random.
    fn add_corridors_sorted(&mut self, rng: &mut RandomNumberGenerator)
        requires
            plain(old(self).map),
            old(self).map.wf(),
            old(self).map.width <= 0x3fff_ffff,
            old(self).map.height <= 0x3fff_ffff,
            clear_occupancy(old(self).map),
            1 <= old(self).rooms@.len(),
            rooms_fit(old(self).rooms@, old(self).map.width as int, old(self).map.height as int),
            rooms_carved(old(self).map, old(self).rooms@),
        ensures
            plain(final(self).map),
            forall|j: int| 1 <= j < final(self).rooms@.len() ==> l_joined(final(self).map, rect_center(final(self).rooms@[j - 1]), rect_center(#[trigger] final(self).rooms@[j])),
            final(self).map.wf(),
            carved_from(old(self).map, final(self).map),
            clear_occupancy(final(self).map),
            rooms_carved(final(self).map, final(self).rooms@),
            final(self).rooms@ == old(self).rooms@,
            forall|j: int| 0 <= j < final(self).rooms@.len() ==> connected(
                final(self).map,
                rect_center(final(self).rooms@[0]),
                rect_center(#[trigger] final(self).rooms@[j]),
            ),
            final(self).objects@ == old(self).objects@,
            final(self).max_rooms == old(self).max_rooms,
            final(self).depth == old(self).depth,
    {
        let ghost rs = self.rooms@;
        let ghost w = self.map.width as int;
        let ghost h = self.map.height as int;
        proof {
            assert(room_fits(rs[0], w, h));
            lemma_fits_small(rs[0], w, h);
            lemma_room_tiles_walkable(self.map, rs[0]);
            lemma_connected_refl(self.map, rect_center(rs[0]));
        }
        let mut i: usize = 1;
        while i < self.rooms.len()
            invariant
                plain(self.map),
                forall|j: int| 1 <= j < i ==> l_joined(self.map, rect_center(rs[j - 1]), rect_center(#[trigger] rs[j])),
                1 <= i <= rs.len(),
                self.rooms@ == rs,
                rs == old(self).rooms@,
                w == self.map.width,
                h == self.map.height,
                w <= 0x3fff_ffff,
                h <= 0x3fff_ffff,
                self.map.wf(),
                carved_from(old(self).map, self.map),
                clear_occupancy(self.map),
                rooms_fit(rs, w, h),
                rooms_carved(self.map, rs),
                forall|j: int| 0 <= j < i ==> connected(self.map, rect_center(rs[0]), rect_center(#[trigger] rs[j])),
                self.objects@ == old(self).objects@,
                self.max_rooms == old(self).max_rooms,
                self.depth == old(self).depth,
            decreases rs.len() - i,
        {
            proof {
                assert(room_fits(rs[i - 1], w, h));
                assert(room_fits(rs[i as int], w, h));
                lemma_fits_small(rs[i - 1], w, h);
                lemma_fits_small(rs[i as int], w, h);
            }
            let prev = self.rooms[i - 1].center();
            let this = self.rooms[i].center();
            let ghost before = self.map;
            if rng_range(rng, 0, 2) == 0 {
                self.make_v_tunnel(prev.y, this.y, prev.x);
                let ghost mid = self.map;
                self.make_h_tunnel(prev.x, this.x, this.y);
                proof {
                    lemma_carved_trans(before, mid, self.map);
                    assert forall|y: int| (prev.y <= y <= this.y || this.y <= y <= prev.y) implies self.map.spec_walkable(prev.x as int, y) by {
                        crate::map::lemma_index_in_range(prev.x as int, y, w, h);
                        assert(mid.tile_at(Coord { x: prev.x, y: y as i32 }) == TileClass::Floor);
                        lemma_walkable_floor(self.map, prev.x as int, y);
                    }
                    assert forall|x: int| (prev.x <= x <= this.x || this.x <= x <= prev.x) implies self.map.spec_walkable(x, this.y as int) by {
                        assert(self.map.tile_at(Coord { x: x as i32, y: this.y }) == TileClass::Floor);
                        lemma_walkable_floor(self.map, x, this.y as int);
                    }
                    lemma_vertical_then_horizontal(self.map, prev, this);
                    assert forall|y: int| (prev.y <= y <= this.y || this.y <= y <= prev.y) implies #[trigger] self.map.tile_at(Coord { x: prev.x, y: y as i32 }) == TileClass::Floor by {
                        crate::map::lemma_index_in_range(prev.x as int, y, w, h);
                        assert(mid.tile_at(Coord { x: prev.x, y: y as i32 }) == TileClass::Floor);
                    }
                    assert forall|x: int| (prev.x <= x <= this.x || this.x <= x <= prev.x) implies #[trigger] self.map.tile_at(Coord { x: x as i32, y: this.y }) == TileClass::Floor by {
                        assert(self.map.tile_at(Coord { x: x as i32, y: this.y }) == TileClass::Floor);
                    }
                    assert(l_joined(self.map, prev, this));
                }
            } else {
                self.make_h_tunnel(prev.x, this.x, prev.y);
                let ghost mid = self.map;
                self.make_v_tunnel(prev.y, this.y, this.x);
                proof {
                    lemma_carved_trans(before, mid, self.map);
                    assert forall|x: int| (prev.x <= x <= this.x || this.x <= x <= prev.x) implies self.map.spec_walkable(x, prev.y as int) by {
                        crate::map::lemma_index_in_range(x, prev.y as int, w, h);
                        assert(mid.tile_at(Coord { x: x as i32, y: prev.y }) == TileClass::Floor);
                        lemma_walkable_floor(self.map, x, prev.y as int);
                    }
                    assert forall|y: int| (prev.y <= y <= this.y || this.y <= y <= prev.y) implies self.map.spec_walkable(this.x as int, y) by {
                        assert(self.map.tile_at(Coord { x: this.x, y: y as i32 }) == TileClass::Floor);
                        lemma_walkable_floor(self.map, this.x as int, y);
                    }
                    lemma_horizontal_then_vertical(self.map, prev, this);
                    assert forall|x: int| (prev.x <= x <= this.x || this.x <= x <= prev.x) implies #[trigger] self.map.tile_at(Coord { x: x as i32, y: prev.y }) == TileClass::Floor by {
                        crate::map::lemma_index_in_range(x, prev.y as int, w, h);
                        assert(mid.tile_at(Coord { x: x as i32, y: prev.y }) == TileClass::Floor);
                    }
                    assert forall|y: int| (prev.y <= y <= this.y || this.y <= y <= prev.y) implies #[trigger] self.map.tile_at(Coord { x: this.x, y: y as i32 }) == TileClass::Floor by {
                        assert(self.map.tile_at(Coord { x: this.x, y: y as i32 }) == TileClass::Floor);
                    }
                    assert(l_joined(self.map, prev, this));
                }
            }
            proof {
                lemma_carved_trans(old(self).map, before, self.map);
                lemma_rooms_stay_carved(before, self.map, rs);
                assert forall|j: int| 1 <= j < i + 1 implies l_joined(self.map, rect_center(rs[j - 1]), rect_center(#[trigger] rs[j])) by {
                    if j < i {
                        assert(room_fits(rs[j - 1], w, h));
                        assert(room_fits(rs[j], w, h));
                        lemma_fits_small(rs[j - 1], w, h);
                        lemma_fits_small(rs[j], w, h);
                        lemma_l_kept(before, self.map, rect_center(rs[j - 1]), rect_center(rs[j]));
                    }
                }
                assert forall|j: int| 0 <= j < i + 1 implies connected(self.map, rect_center(rs[0]), rect_center(#[trigger] rs[j])) by {
                    if j < i {
                        lemma_connected_grows(before, self.map, rect_center(rs[0]), rect_center(rs[j]));
                    } else {
                        lemma_connected_grows(before, self.map, rect_center(rs[0]), prev);
                        lemma_connected_trans(self.map, rect_center(rs[0]), prev, this);
                    }
                }
            }
            i = i + 1;
        }
    }

    /// Draws one enemy per room but the first from `table` and places them.
    fn populate(&mut self, table: &Vec<SpawnEntry>, rng: &mut RandomNumberGenerator)
        requires
            1 <= old(self).rooms@.len() <= i32::MAX,
            rooms_fit(old(self).rooms@, old(self).map.width as int, old(self).map.height as int),
            old(self).map.width <= 0x3fff_ffff,
            old(self).map.height <= 0x3fff_ffff,
            0 < total_weight(table@) <= i32::MAX,
        ensures
            final(self).map == old(self).map,
            final(self).rooms@ == old(self).rooms@,
            final(self).start_pos == old(self).start_pos,
            final(self).depth == old(self).depth,
            final(self).max_rooms == old(self).max_rooms,
            final(self).objects@.len() <= final(self).rooms@.len() - 1,
            final(self).rooms@.len() >= 2 ==> final(self).objects@.len() >= 1,
            forall|k: int| 0 <= k < final(self).objects@.len() ==> placed_in(#[trigger] final(self).objects@[k], final(self).rooms@, 1, final(self).depth),
            forall|k: int| 0 <= k < final(self).objects@.len() && (#[trigger] final(self).objects@[k]).block_tile ==> final(self).objects@[k].pos != Some(final(self).start_pos),
            forall|k1: int, k2: int|
                0 <= k1 < final(self).objects@.len() && 0 <= k2 < final(self).objects@.len() && k1 != k2 && (#[trigger] final(self).objects@[k1]).block_tile && (
                #[trigger] final(self).objects@[k2]).block_tile ==> final(self).objects@[k1].pos != final(self).objects@[k2].pos,
    {
        let ghost rs = self.rooms@;
        let ghost w = self.map.width as int;
        let ghost h = self.map.height as int;
        let n = self.rooms.len();
        let enemies = get_enemy_spawn_table(table, (n - 1) as i32, rng);
        proof {
            assert forall|i: int| 0 <= i < rs.len() implies (#[trigger] rs[i]).small() && (rs[i].x2 - rs[i].x1) * (rs[i].y2 - rs[i].y1) <= i32::MAX by {
                assert(room_fits(rs[i], w, h));
                let a = rs[i].x2 - rs[i].x1;
                let b = rs[i].y2 - rs[i].y1;
                assert(a * b <= 100) by (nonlinear_arith)
                    requires 0 <= a <= 10, 0 <= b <= 10;
            }
        }
        proof {
            assert forall|i: int| 1 <= i < rs.len() implies roomy(#[trigger] rs[i], self.start_pos) by {
                assert(room_fits(rs[i], w, h));
                let a = Coord { x: rs[i].x1, y: rs[i].y1 };
                let b = Coord { x: (rs[i].x1 + 1) as i32, y: rs[i].y1 };
                assert(rect_contains(rs[i], a));
                assert(rect_contains(rs[i], b));
            }
        }
        self.objects = place_spawns(&self.rooms, 1, enemies, self.start_pos, self.depth, rng);
    }

    /// Builds a level of random rooms joined by corridors: the start is the centre of
    /// the first room (in centre-column order), a down-stair marks the centre of the
    /// last, and each other room gets one enemy drawn from `table` at its centre.
    pub fn random_rooms_build(
        w: i32,
        h: i32,
        depth: i32,
        max_rooms: usize,
        rng: &mut RandomNumberGenerator,
        table: &Vec<SpawnEntry>,
    ) -> (g: MapGenerator)
        requires
            12 <= w,
            12 <= h,
            w * h <= i32::MAX,
            1 <= max_rooms <= i32::MAX,
            0 < total_weight(table@) <= i32::MAX,
        ensures
            level_ok(g, w as int, h as int),
            g.depth == depth,
            g.max_rooms == max_rooms,
            g.objects@.len() <= g.rooms@.len() - 1,
            g.rooms@.len() >= 2 ==> g.objects@.len() >= 1,
            forall|k: int| 0 <= k < g.objects@.len() ==> placed_in(#[trigger] g.objects@[k], g.rooms@, 1, depth),
            forall|k: int| 0 <= k < g.objects@.len() ==> g.map.spec_walkable(
                (#[trigger] g.objects@[k]).pos->Some_0.x as int,
                g.objects@[k].pos->Some_0.y as int,
            ),
            forall|k: int| 0 <= k < g.objects@.len() && (#[trigger] g.objects@[k]).block_tile ==> g.objects@[k].pos != Some(g.start_pos),
            forall|k1: int, k2: int|
                0 <= k1 < g.objects@.len() && 0 <= k2 < g.objects@.len() && k1 != k2 && (#[trigger] g.objects@[k1]).block_tile && (
                #[trigger] g.objects@[k2]).block_tile ==> g.objects@[k1].pos != g.objects@[k2].pos,
    {
        assert(w <= 0x3fff_ffff && h <= 0x3fff_ffff) by (nonlinear_arith)
            requires 12 <= w, 12 <= h, w * h <= i32::MAX;
        let mut gen = MapGenerator::init(w, h, depth, max_rooms);
        gen.fill(TileClass::Wall);
        let ghost filled = gen.map;
        gen.make_randomly_placed_rooms(rng);
        gen.add_corridors_sorted(rng);
        let ghost rs = gen.rooms@;
        proof {
            lemma_carved_trans(filled, gen.map, gen.map);
            assert(room_fits(rs[0], w as int, h as int));
            assert(room_fits(rs.last(), w as int, h as int));
            lemma_fits_small(rs[0], w as int, h as int);
            lemma_fits_small(rs.last(), w as int, h as int);
        }
        gen.start_pos = gen.rooms[0].center();
        let n = gen.rooms.len();
        let last = gen.rooms[n - 1].center();
        let li = gen.map.index(last.x, last.y);
        let ghost before = gen.map;
        gen.map.tiles.set(li, TileClass::DownStair);
        proof {
            let m = gen.map;
            assert(grows(before, m));
            lemma_rooms_stay_carved(before, m, rs);
            assert forall|i: int| 0 <= i < m.tiles@.len() && #[trigger] m.tiles@[i] == TileClass::DownStair
                implies i == m.spec_index(rect_center(rs.last()).x as int, rect_center(rs.last()).y as int) by {
                if i != li {
                    assert(filled.tiles@[i] == TileClass::Wall);
                    assert(before.tiles@[i] == filled.tiles@[i] || before.tiles@[i] == TileClass::Floor);
                }
            }
            assert forall|i: int, p: Coord| 0 <= i < rs.len() && #[trigger] rect_contains(rs[i], p)
                implies m.spec_walkable(p.x as int, p.y as int) && connected(m, gen.start_pos, p) by {
                assert(room_fits(rs[i], w as int, h as int));
                lemma_fits_small(rs[i], w as int, h as int);
                lemma_room_tiles_walkable(m, rs[i]);
                lemma_connected_grows(before, m, rect_center(rs[0]), rect_center(rs[i]));
                lemma_room_connected(m, rs[i], p);
                lemma_connected_trans(m, rect_center(rs[0]), rect_center(rs[i]), p);
            }
        }
        gen.populate(table, rng);
        proof {
            let m = gen.map;
            assert forall|k: int| 0 <= k < gen.objects@.len() implies m.spec_walkable(
                (#[trigger] gen.objects@[k]).pos->Some_0.x as int,
                gen.objects@[k].pos->Some_0.y as int,
            ) by {
                assert(placed_in(gen.objects@[k], rs, 1, depth));
                let i = choose|i: int| 1 <= i < rs.len() && rect_contains(#[trigger] rs[i], gen.objects@[k].pos->Some_0);
            }
        }
        gen
    }

    /// Builds a level in the given mode; only random rooms are implemented.
    pub fn generate(
        mode: GenerationMode,
        w: i32,
        h: i32,
        depth: i32,
        max_rooms: usize,
        rng: &mut RandomNumberGenerator,
        table: &Vec<SpawnEntry>,
    ) -> (g: MapGenerator)
        requires
            mode == GenerationMode::RandomRooms,
            12 <= w,
            12 <= h,
            w * h <= i32::MAX,
            1 <= max_rooms <= i32::MAX,
            0 < total_weight(table@) <= i32::MAX,
        ensures
            level_ok(g, w as int, h as int),
            g.depth == depth,
            g.max_rooms == max_rooms,
            g.objects@.len() <= g.rooms@.len() - 1,
            g.rooms@.len() >= 2 ==> g.objects@.len() >= 1,
            forall|k: int| 0 <= k < g.objects@.len() ==> placed_in(#[trigger] g.objects@[k], g.rooms@, 1, depth),
            forall|k: int| 0 <= k < g.objects@.len() ==> g.map.spec_walkable(
                (#[trigger] g.objects@[k]).pos->Some_0.x as int,
                g.objects@[k].pos->Some_0.y as int,
            ),
            forall|k: int| 0 <= k < g.objects@.len() && (#[trigger] g.objects@[k]).block_tile ==> g.objects@[k].pos != Some(g.start_pos),
            forall|k1: int, k2: int|
                0 <= k1 < g.objects@.len() && 0 <= k2 < g.objects@.len() && k1 != k2 && (#[trigger] g.objects@[k1]).block_tile && (
                #[trigger] g.objects@[k2]).block_tile ==> g.objects@[k1].pos != g.objects@[k2].pos,
    {
        MapGenerator::random_rooms_build(w, h, depth, max_rooms, rng, table)
    }
}

} // verus!
