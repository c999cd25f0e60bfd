use vstd::prelude::*;
use vstd::relations::injective_on;
use vstd::set_lib::lemma_map_size;
use crate::geometry::Coord;
use crate::map::GameMap;
use crate::object::Object;

verus! {

/// The actor stands on `floor` at a defined position and blocks movement there.
pub open spec fn blocks_on(o: Object, floor: i32) -> bool {
    o.block_tile && o.floor == floor && o.pos is Some
}

/// Tile `i` is occupied by actor `o`.
pub open spec fn occupies(m: GameMap, o: Object, floor: i32, i: int) -> bool {
    &&& blocks_on(o, floor)
    &&& m.spec_in_bounds(o.pos->Some_0.x as int, o.pos->Some_0.y as int)
    &&& m.spec_index(o.pos->Some_0.x as int, o.pos->Some_0.y as int) == i
}

/// The occupancy flags are set exactly on the tiles of blocking actors on `floor`.
pub open spec fn occupancy_matches(objects: Seq<Object>, m: GameMap, floor: i32) -> bool {
    forall|i: int|
        0 <= i < m.objblocked@.len() ==> (#[trigger] m.objblocked@[i] <==> exists|k: int|
            0 <= k < objects.len() && occupies(m, #[trigger] objects[k], floor, i))
}

/// The tiles flagged as occupied.
pub open spec fn blocked_tiles(m: GameMap) -> Set<int> {
    Set::new(|i: int| 0 <= i < m.objblocked@.len() && m.objblocked@[i])
}

/// The distinct positions of the blocking actors on `floor`.
pub open spec fn blocking_positions(objects: Seq<Object>, floor: i32) -> Set<Coord> {
    Set::new(
        |p: Coord|
            exists|k: int| 0 <= k < objects.len() && blocks_on(#[trigger] objects[k], floor) && objects[k].pos == Some(p),
    )
}

/// Every blocking actor on `floor` stands inside the map.
pub open spec fn blockers_in_bounds(objects: Seq<Object>, m: GameMap, floor: i32) -> bool {
    forall|k: int|
        0 <= k < objects.len() && blocks_on(#[trigger] objects[k], floor) ==> m.spec_in_bounds(
            objects[k].pos->Some_0.x as int,
            objects[k].pos->Some_0.y as int,
        )
}

/// Clears every occupancy flag, then sets the flag of each tile on which a blocking
/// actor of `floor` stands. Actors outside the map flag nothing.
pub fn update_blocked_tiles(objects: &Vec<Object>, map: &mut GameMap, floor: i32)
    requires
        old(map).wf(),
    ensures
        final(map).wf(),
        final(map).width == old(map).width,
        final(map).height == old(map).height,
        final(map).tiles@ == old(map).tiles@,
        final(map).visible@ == old(map).visible@,
        final(map).revealed@ == old(map).revealed@,
        occupancy_matches(objects@, *final(map), floor),
{
    let n = map.objblocked.len();
    let mut i: usize = 0;
    while i < n
        invariant
            n == map.objblocked@.len(),
            map.wf(),
            map.width == old(map).width,
            map.height == old(map).height,
            map.tiles@ == old(map).tiles@,
            map.visible@ == old(map).visible@,
            map.revealed@ == old(map).revealed@,
            i <= n,
            forall|j: int| 0 <= j < i ==> !#[trigger] map.objblocked@[j],
        decreases n - i,
    {
        map.objblocked.set(i, false);
        i = i + 1;
    }
    let mut k: usize = 0;
    while k < objects.len()
        invariant
            n == map.objblocked@.len(),
            map.wf(),
            map.width == old(map).width,
            map.height == old(map).height,
            map.tiles@ == old(map).tiles@,
            map.visible@ == old(map).visible@,
            map.revealed@ == old(map).revealed@,
            k <= objects@.len(),
            forall|j: int|
                0 <= j < n ==> (#[trigger] map.objblocked@[j] <==> exists|t: int|
                    0 <= t < k && occupies(*map, #[trigger] objects@[t], floor, j)),
        decreases objects@.len() - k,
    {
        let obj = &objects[k];
        let ghost before = *map;
        if let Some(pos) = obj.pos {
            if obj.block_tile && obj.floor == floor && map.in_bounds(pos.x, pos.y) {
                let idx = map.index(pos.x, pos.y);
                map.objblocked.set(idx, true);
                proof {
                    assert forall|j: int| 0 <= j < n implies (#[trigger] map.objblocked@[j] <==> exists|t: int|
                        0 <= t < k + 1 && occupies(*map, #[trigger] objects@[t], floor, j)) by {
                        if j == idx {
                            assert(occupies(*map, objects@[k as int], floor, j));
                        } else {
                            if map.objblocked@[j] {
                                assert(before.objblocked@[j]);
                                let t = choose|t: int| 0 <= t < k && occupies(before, #[trigger] objects@[t], floor, j);
                                assert(occupies(*map, objects@[t], floor, j));
                            }
                            if exists|t: int| 0 <= t < k + 1 && occupies(*map, #[trigger] objects@[t], floor, j) {
                                let t = choose|t: int| 0 <= t < k + 1 && occupies(*map, #[trigger] objects@[t], floor, j);
                                assert(occupies(before, objects@[t], floor, j));
                            }
                        }
                    }
                }
            } else {
                proof {
                    assert forall|j: int| 0 <= j < n implies (#[trigger] map.objblocked@[j] <==> exists|t: int|
                        0 <= t < k + 1 && occupies(*map, #[trigger] objects@[t], floor, j)) by {
                        if exists|t: int| 0 <= t < k + 1 && occupies(*map, #[trigger] objects@[t], floor, j) {
                            let t = choose|t: int| 0 <= t < k + 1 && occupies(*map, #[trigger] objects@[t], floor, j);
                            assert(t != k);
                        }
                    }
                }
            }
        } else {
            proof {
                assert forall|j: int| 0 <= j < n implies (#[trigger] map.objblocked@[j] <==> exists|t: int|
                    0 <= t < k + 1 && occupies(*map, #[trigger] objects@[t], floor, j)) by {
                    if exists|t: int| 0 <= t < k + 1 && occupies(*map, #[trigger] objects@[t], floor, j) {
                        let t = choose|t: int| 0 <= t < k + 1 && occupies(*map, #[trigger] objects@[t], floor, j);
                        assert(t != k);
                    }
                }
            }
        }
        k = k + 1;
    }
}

/// After an occupancy rebuild, the number of occupied tiles equals the number of
/// distinct positions held by movement-blocking actors on the current floor.
pub proof fn lemma_blocked_count(objects: Seq<Object>, m: GameMap, floor: i32)
    requires
        m.wf(),
        occupancy_matches(objects, m, floor),
        blockers_in_bounds(objects, m, floor),
    ensures
        blocked_tiles(m).len() == blocking_positions(objects, floor).len(),
        blocked_tiles(m).finite(),
{
    let ps = blocking_positions(objects, floor);
    let all = Seq::new(objects.len(), |k: int| objects[k].pos->Some_0).to_set();
    assert(ps =~= all.filter(|p: Coord| ps.contains(p))) by {
        assert forall|p: Coord| ps.contains(p) implies all.contains(p) by {
            let k = choose|k: int| 0 <= k < objects.len() && blocks_on(#[trigger] objects[k], floor) && objects[k].pos == Some(p);
            assert(Seq::new(objects.len(), |k: int| objects[k].pos->Some_0)[k] == p);
        }
    }
    assert(all.finite());
    assert(ps.finite());
    let f = |p: Coord| m.spec_index(p.x as int, p.y as int);
    assert(injective_on(f, ps)) by {
        assert forall|a: Coord, b: Coord| ps.contains(a) && ps.contains(b) && #[trigger] f(a) == #[trigger] f(b) implies a == b by {
            let ka = choose|k: int| 0 <= k < objects.len() && blocks_on(#[trigger] objects[k], floor) && objects[k].pos == Some(a);
            let kb = choose|k: int| 0 <= k < objects.len() && blocks_on(#[trigger] objects[k], floor) && objects[k].pos == Some(b);
            crate::map::lemma_index_injective(a.x as int, a.y as int, b.x as int, b.y as int, m.width as int);
        }
    }
    assert(ps.map(f) =~= blocked_tiles(m)) by {
        assert forall|i: int| ps.map(f).contains(i) implies blocked_tiles(m).contains(i) by {
            let p = choose|p: Coord| ps.contains(p) && i == f(p);
            let k = choose|k: int| 0 <= k < objects.len() && blocks_on(#[trigger] objects[k], floor) && objects[k].pos == Some(p);
            crate::map::lemma_index_in_range(p.x as int, p.y as int, m.width as int, m.height as int);
            assert(occupies(m, objects[k], floor, i));
        }
        assert forall|i: int| blocked_tiles(m).contains(i) implies ps.map(f).contains(i) by {
            let k = choose|k: int| 0 <= k < objects.len() && occupies(m, #[trigger] objects[k], floor, i);
            let p = objects[k].pos->Some_0;
            assert(ps.contains(p));
            assert(i == f(p));
        }
    }
    lemma_map_size(ps, blocked_tiles(m), f);
}

} // verus!
