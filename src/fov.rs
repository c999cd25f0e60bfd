use vstd::prelude::*;
use crate::geometry::Coord;
use crate::map::{GameMap, MAX_SIGHT, field_of_view, opacity, point_set, sight_of};
use crate::object::{ActorTag, Object, Viewshed};

verus! {

/// The tiles an actor at `c` with sight `range` sees on `m`, clipped to the map.
pub open spec fn clipped_sight(m: GameMap, c: Coord, range: i32) -> Set<(int, int)> {
    sight_of(c.x as int, c.y as int, range as int, m.width as int, m.height as int, opacity(&m)).filter(
        |q: (int, int)| 0 <= q.0 < m.width && 0 <= q.1 < m.height,
    )
}

/// The actor has a position and a sight component whose refresh is due.
pub open spec fn refresh_due(o: Object, m: GameMap) -> bool {
    &&& o.pos is Some
    &&& o.viewshed is Some
    &&& o.viewshed->Some_0.refresh
}

/// The range the sweep uses: negative ranges see only the viewer's own tile and ranges
/// are capped at `MAX_SIGHT`.
pub open spec fn sweep_range(r: i32) -> i32 {
    if r < 0 {
        0
    } else if r > MAX_SIGHT {
        MAX_SIGHT
    } else {
        r
    }
}

/// A viewer at `p` can be swept on `m`: it stands inside the map and no side of the
/// map exceeds 2^30 tiles. A viewer off the map sees nothing.
pub open spec fn sweepable(m: GameMap, p: Coord) -> bool {
    m.spec_in_bounds(p.x as int, p.y as int) && m.width <= 0x4000_0000 && m.height <= 0x4000_0000
}

/// What a refresh makes of the sight of an actor at `p` with `range` on `m`.
pub open spec fn new_sight(m: GameMap, p: Coord, range: i32) -> Set<(int, int)> {
    if sweepable(m, p) {
        clipped_sight(m, p, sweep_range(range))
    } else {
        Set::empty()
    }
}

pub open spec fn in_map(m: GameMap, p: Coord) -> bool {
    m.spec_in_bounds(p.x as int, p.y as int)
}

/// Tile `i` is among the points of `vis`.
pub open spec fn sees_tile(m: GameMap, vis: Seq<Coord>, i: int) -> bool {
    exists|j: int| 0 <= j < vis.len() && m.spec_index(vis[j].x as int, vis[j].y as int) == i
}

/// `after` is `before` with its sight recomputed on `m` if a refresh was due, and
/// `before` itself otherwise.
pub open spec fn refreshed(before: Object, after: Object, m: GameMap) -> bool {
    if refresh_due(before, m) {
        let v = before.viewshed->Some_0;
        let nv = after.viewshed->Some_0;
        &&& after.viewshed is Some
        &&& after == (Object { viewshed: after.viewshed, ..before })
        &&& nv.range == v.range
        &&& !nv.refresh
        &&& point_set(nv.visible@) == new_sight(m, before.pos->Some_0, v.range)
        &&& forall|j: int| 0 <= j < nv.visible@.len() ==> in_map(m, #[trigger] nv.visible@[j])
    } else {
        after == before
    }
}

/// One visibility pass from `(objs0, m0)` to `(objs1, m1)`: each actor refreshed, the
/// map's tiles and occupancy untouched, revealed tiles kept, and, when only actor 0 is
/// the player, the visible overlay is the player's new sight if it was refreshed.
pub open spec fn fov_step(objs0: Seq<Object>, m0: GameMap, objs1: Seq<Object>, m1: GameMap) -> bool {
    &&& m1.wf()
    &&& m1.width == m0.width
    &&& m1.height == m0.height
    &&& m1.tiles@ == m0.tiles@
    &&& m1.objblocked@ == m0.objblocked@
    &&& objs1.len() == objs0.len()
    &&& forall|k: int| 0 <= k < objs0.len() ==> refreshed(#[trigger] objs0[k], objs1[k], m0)
    &&& (forall|k: int| 0 <= k < objs0.len() && refresh_due(#[trigger] objs0[k], m0) ==> objs0[k].tag != Some(ActorTag::Player)) ==> (m1.visible@
        == m0.visible@ && m1.revealed@ == m0.revealed@)
    &&& forall|i: int| 0 <= i < m0.revealed@.len() && #[trigger] m0.revealed@[i] ==> m1.revealed@[i]
    &&& (objs0.len() > 0 && objs0[0].tag == Some(ActorTag::Player) && refresh_due(objs0[0], m0) && (
    forall|k: int| 1 <= k < objs0.len() ==> (#[trigger] objs0[k]).tag != Some(ActorTag::Player)))
        ==> forall|i: int|
        0 <= i < m1.visible@.len() ==> (#[trigger] m1.visible@[i] == sees_tile(
            m1,
            objs1[0].viewshed->Some_0.visible@,
            i,
        ) && (m1.revealed@[i] == (m0.revealed@[i] || m1.visible@[i])))
}

/// The points of `raw` that lie inside the map, in order.
fn clip_to_map(raw: Vec<Coord>, map: &GameMap) -> (r: Vec<Coord>)
    ensures
        point_set(r@) == point_set(raw@).filter(
            |q: (int, int)| 0 <= q.0 < map.width && 0 <= q.1 < map.height,
        ),
        forall|j: int| 0 <= j < r@.len() ==> in_map(*map, #[trigger] r@[j]),
{
    let mut r: Vec<Coord> = Vec::new();
    let mut i: usize = 0;
    while i < raw.len()
        invariant
            i <= raw@.len(),
            forall|j: int| 0 <= j < r@.len() ==> in_map(*map, #[trigger] r@[j]),
            forall|j: int| 0 <= j < r@.len() ==> exists|t: int| 0 <= t < i && raw@[t] == #[trigger] r@[j],
            forall|t: int| 0 <= t < i && in_map(*map, #[trigger] raw@[t]) ==> r@.contains(raw@[t]),
        decreases raw@.len() - i,
    {
        let p = raw[i];
        let ghost old_r = r@;
        if map.in_bounds(p.x, p.y) {
            r.push(p);
            assert(r@[r@.len() - 1] == p);
            assert forall|t: int| 0 <= t < i + 1 && in_map(*map, #[trigger] raw@[t]) implies r@.contains(raw@[t]) by {
                if t < i {
                    let j = choose|j: int| 0 <= j < old_r.len() && old_r[j] == raw@[t];
                    assert(r@[j] == raw@[t]);
                }
            }
            assert forall|j: int| 0 <= j < r@.len() implies exists|t: int| 0 <= t < i + 1 && raw@[t] == #[trigger] r@[j] by {
                if j < old_r.len() {
                    assert(r@[j] == old_r[j]);
                } else {
                    assert(raw@[i as int] == r@[j]);
                }
            }
        }
        i = i + 1;
    }
    let ghost f = |q: (int, int)| 0 <= q.0 < map.width && 0 <= q.1 < map.height;
    assert forall|q: (int, int)| point_set(r@).contains(q) <==> point_set(raw@).filter(f).contains(q) by {
        if point_set(r@).contains(q) {
            let j = choose|j: int| 0 <= j < r@.len() && r@[j].x == q.0 && r@[j].y == q.1;
            let t = choose|t: int| 0 <= t < raw@.len() && raw@[t] == r@[j];
            assert(in_map(*map, r@[j]));
        }
        if point_set(raw@).filter(f).contains(q) {
            let t = choose|t: int| 0 <= t < raw@.len() && raw@[t].x == q.0 && raw@[t].y == q.1;
            assert(in_map(*map, raw@[t]));
            assert(r@.contains(raw@[t]));
            let j = choose|j: int| 0 <= j < r@.len() && r@[j] == raw@[t];
        }
    }
    assert(point_set(r@) =~= point_set(raw@).filter(f));
    r
}

/// Clears the visible overlay, then marks every tile of `vis` visible and revealed.
fn mark_player_sight(map: &mut GameMap, vis: &Vec<Coord>)
    requires
        old(map).wf(),
        forall|j: int| 0 <= j < vis@.len() ==> in_map(*old(map), #[trigger] vis@[j]),
    ensures
        final(map).wf(),
        final(map).width == old(map).width,
        final(map).height == old(map).height,
        final(map).tiles@ == old(map).tiles@,
        final(map).objblocked@ == old(map).objblocked@,
        forall|i: int|
            0 <= i < final(map).visible@.len() ==> (#[trigger] final(map).visible@[i] == sees_tile(
                *final(map),
                vis@,
                i,
            ) && final(map).revealed@[i] == (old(map).revealed@[i] || final(map).visible@[i])),
{
    let n = map.visible.len();
    let mut i: usize = 0;
    while i < n
        invariant
            n == map.visible@.len(),
            map.wf(),
            map.width == old(map).width,
            map.height == old(map).height,
            map.tiles@ == old(map).tiles@,
            map.objblocked@ == old(map).objblocked@,
            map.revealed@ == old(map).revealed@,
            i <= n,
            forall|j: int| 0 <= j < i ==> !#[trigger] map.visible@[j],
        decreases n - i,
    {
        map.visible.set(i, false);
        i = i + 1;
    }
    let mut k: usize = 0;
    while k < vis.len()
        invariant
            n == map.visible@.len(),
            map.wf(),
            map.width == old(map).width,
            map.height == old(map).height,
            map.tiles@ == old(map).tiles@,
            map.objblocked@ == old(map).objblocked@,
            k <= vis@.len(),
            forall|j: int| 0 <= j < vis@.len() ==> in_map(*old(map), #[trigger] vis@[j]),
            forall|i: int|
                0 <= i < n ==> (#[trigger] map.visible@[i] == sees_tile(*map, vis@.subrange(0, k as int), i)
                    && map.revealed@[i] == (old(map).revealed@[i] || map.visible@[i])),
        decreases vis@.len() - k,
    {
        let p = vis[k];
        assert(in_map(*old(map), vis@[k as int]));
        let idx = map.index(p.x, p.y);
        let ghost before = *map;
        map.visible.set(idx, true);
        map.revealed.set(idx, true);
        proof {
            let s0 = vis@.subrange(0, k as int);
            let s1 = vis@.subrange(0, k + 1);
            assert forall|i: int| 0 <= i < n implies (#[trigger] map.visible@[i] == sees_tile(*map, s1, i)
                && map.revealed@[i] == (old(map).revealed@[i] || map.visible@[i])) by {
                if i == idx {
                    assert(s1[k as int] == p);
                } else {
                    if sees_tile(*map, s1, i) {
                        let j = choose|j: int| 0 <= j < s1.len() && map.spec_index(s1[j].x as int, s1[j].y as int) == i;
                        assert(s0[j] == s1[j]);
                    }
                    if sees_tile(before, s0, i) {
                        let j = choose|j: int| 0 <= j < s0.len() && before.spec_index(s0[j].x as int, s0[j].y as int) == i;
                        assert(s0[j] == s1[j]);
                    }
                }
            }
        }
        k = k + 1;
    }
    assert(vis@.subrange(0, k as int) =~= vis@);
}

/// Recomputes the sight of one actor if its refresh is due; for the player, also
/// resets the visible overlay to the new sight and reveals it.
pub fn refresh_viewshed(obj: &mut Object, map: &mut GameMap)
    requires
        old(map).wf(),
    ensures
        final(map).wf(),
        final(map).width == old(map).width,
        final(map).height == old(map).height,
        final(map).tiles@ == old(map).tiles@,
        final(map).objblocked@ == old(map).objblocked@,
        refreshed(*old(obj), *final(obj), *old(map)),
        !refresh_due(*old(obj), *old(map)) || old(obj).tag != Some(ActorTag::Player) ==> final(map).visible@
            == old(map).visible@ && final(map).revealed@ == old(map).revealed@,
        refresh_due(*old(obj), *old(map)) && old(obj).tag == Some(ActorTag::Player) ==> forall|i: int|
            0 <= i < final(map).visible@.len() ==> (#[trigger] final(map).visible@[i] == sees_tile(
                *final(map),
                final(obj).viewshed->Some_0.visible@,
                i,
            ) && final(map).revealed@[i] == (old(map).revealed@[i] || final(map).visible@[i])),
{
    let is_player = match obj.tag {
        Some(ActorTag::Player) => true,
        _ => false,
    };
    if let Some(p) = obj.pos {
        if let Some(view) = &obj.viewshed {
            if view.refresh {
                let range = view.range;
                let visible = if map.in_bounds(p.x, p.y) && map.width <= 0x4000_0000 && map.height <= 0x4000_0000 {
                    let r = if range < 0 {
                        0
                    } else if range > MAX_SIGHT {
                        MAX_SIGHT
                    } else {
                        range
                    };
                    let raw = field_of_view(p, r, map);
                    clip_to_map(raw, map)
                } else {
                    let none: Vec<Coord> = Vec::new();
                    assert(point_set(none@) =~= Set::empty());
                    none
                };
                if is_player {
                    mark_player_sight(map, &visible);
                }
                obj.viewshed = Some(Viewshed { range, visible, refresh: false });
            }
        }
    }
}

/// Refreshes the sight of every actor whose refresh is due, clearing its flag.
pub fn process_fov(objects: &mut Vec<Object>, map: &mut GameMap)
    requires
        old(map).wf(),
    ensures
        fov_step(old(objects)@, *old(map), final(objects)@, *final(map)),
{
    let n = objects.len();
    let mut i: usize = 0;
    while i < n
        invariant
            n == objects@.len(),
            n == old(objects)@.len(),
            i <= n,
            old(map).wf(),
            map.wf(),
            map.width == old(map).width,
            map.height == old(map).height,
            map.tiles@ == old(map).tiles@,
            map.objblocked@ == old(map).objblocked@,
            forall|k: int| 0 <= k < i ==> refreshed(#[trigger] old(objects)@[k], objects@[k], *old(map)),
            forall|k: int| i <= k < n ==> #[trigger] objects@[k] == old(objects)@[k],
            (forall|k: int| 0 <= k < i && refresh_due(#[trigger] old(objects)@[k], *old(map)) ==> old(objects)@[k].tag != Some(ActorTag::Player)) ==> (map.visible@
                == old(map).visible@ && map.revealed@ == old(map).revealed@),
            forall|t: int| 0 <= t < old(map).revealed@.len() && #[trigger] old(map).revealed@[t] ==> map.revealed@[t],
            (n > 0 && i > 0 && old(objects)@[0].tag == Some(ActorTag::Player) && refresh_due(old(objects)@[0], *old(map)) && (
            forall|k: int| 1 <= k < n ==> (#[trigger] old(objects)@[k]).tag != Some(ActorTag::Player)))
                ==> forall|t: int|
                0 <= t < map.visible@.len() ==> (#[trigger] map.visible@[t] == sees_tile(
                    *map,
                    objects@[0].viewshed->Some_0.visible@,
                    t,
                ) && (map.revealed@[t] == (old(map).revealed@[t] || map.visible@[t]))),
        decreases n - i,
    {
        let ghost mb = *map;
        let ghost ob = objects@;
        let obj = &mut objects[i];
        refresh_viewshed(obj, map);
        proof {
            assert(map.visible@.len() == mb.visible@.len());
            assert(map.revealed@.len() == mb.revealed@.len());
            assert(mb.revealed@.len() == old(map).revealed@.len());
            assert(objects@ == ob.update(i as int, objects@[i as int]));
            assert(map.width == mb.width && map.height == mb.height && map.tiles@ == mb.tiles@);
            if i == 0 {
                assert(forall|k: int| 0 <= k < i && refresh_due(#[trigger] old(objects)@[k], *old(map)) ==> old(objects)@[k].tag != Some(ActorTag::Player));
                assert(mb.revealed@ == old(map).revealed@);
                assert(mb.visible@ == old(map).visible@);
            }
            assert forall|t: int| 0 <= t < old(map).revealed@.len() && #[trigger] old(map).revealed@[t] implies map.revealed@[t] by {
                assert(mb.revealed@[t]);
                if refresh_due(ob[i as int], *old(map)) && ob[i as int].tag == Some(ActorTag::Player) {
                    assert(t < map.visible@.len());
                    assert(map.visible@[t] == sees_tile(*map, objects@[i as int].viewshed->Some_0.visible@, t));
                    assert(map.revealed@[t] == (mb.revealed@[t] || map.visible@[t]));
                } else {
                    assert(map.revealed@ == mb.revealed@);
                }
            }
            if i > 0 && n > 0 && old(objects)@[0].tag == Some(ActorTag::Player) && refresh_due(old(objects)@[0], *old(map)) && (
                forall|k: int| 1 <= k < n ==> (#[trigger] old(objects)@[k]).tag != Some(ActorTag::Player)) {
                assert(old(objects)@[i as int].tag != Some(ActorTag::Player));
                assert(objects@[0] == ob[0]);
                assert(map.visible@ == mb.visible@);
                assert forall|t: int| 0 <= t < map.visible@.len() implies (#[trigger] map.visible@[t] == sees_tile(
                    *map,
                    objects@[0].viewshed->Some_0.visible@,
                    t,
                ) && (map.revealed@[t] == (old(map).revealed@[t] || map.visible@[t]))) by {
                    assert(mb.visible@[t] == sees_tile(mb, ob[0].viewshed->Some_0.visible@, t));
                }
            }
        }
        i = i + 1;
    }
}

/// Refreshing visibility a second time without anyone moving changes nothing:
/// every sight set and refresh flag, and the map's visible and revealed overlays,
/// stay as the first refresh left them.
pub proof fn lemma_refresh_idempotent(
    objs0: Seq<Object>,
    m0: GameMap,
    objs1: Seq<Object>,
    m1: GameMap,
    objs2: Seq<Object>,
    m2: GameMap,
)
    requires
        fov_step(objs0, m0, objs1, m1),
        fov_step(objs1, m1, objs2, m2),
    ensures
        objs2 == objs1,
        m2.visible@ == m1.visible@,
        m2.revealed@ == m1.revealed@,
        m2.tiles@ == m1.tiles@,
        m2.objblocked@ == m1.objblocked@,
{
    assert forall|k: int| 0 <= k < objs1.len() implies !refresh_due(#[trigger] objs1[k], m1) by {
        assert(refreshed(objs0[k], objs1[k], m0));
    }
    assert forall|k: int| 0 <= k < objs1.len() implies #[trigger] objs2[k] == objs1[k] by {
        assert(refreshed(objs1[k], objs2[k], m1));
    }
    assert(objs2 =~= objs1);
}

} // verus!
