use vstd::prelude::*;
use crate::geometry::{Coord, adjacent, dist_sq, distance_sq, neighbor_delta, spec_neighbor_delta};
use crate::map::GameMap;

verus! {

/// A heated tile and its strength.
#[derive(Clone, Copy, PartialEq, Eq, Structural, Debug)]
pub struct HeatNode {
    pub pos: Coord,
    pub heat: u32,
}

/// Strength of the node placed where a target was last seen; it outlasts the
/// memory of an enemy by one step.
pub const HEAT_START: u32 = 25;

/// Decaying scent of a lost target. Heat spreads from `center` no further than
/// `radius` tiles in either axis, and never onto a tile that was heated before.
#[derive(Clone)]
pub struct HeatMap {
    pub center: Coord,
    pub radius: i32,
    pub nodes: Vec<HeatNode>,
    pub old_nodes: Vec<Coord>,
}

/// Every heated tile is inside the map and not a colliding tile.
pub open spec fn confined(h: HeatMap, map: &GameMap) -> bool {
    forall|i: int| 0 <= i < h.nodes@.len() ==> #[trigger] map.passable(h.nodes@[i].pos)
}

/// Each node of `after` is one weaker than a node of `before` at or next to it.
pub open spec fn decayed_from(after: Seq<HeatNode>, before: Seq<HeatNode>) -> bool {
    forall|k: int|
        0 <= k < after.len() ==> exists|j: int|
            0 <= j < before.len() && before[j].heat == (#[trigger] after[k]).heat + 1 && (
            before[j].pos == after[k].pos || adjacent(before[j].pos, after[k].pos))
}

/// Node `i` is a strongest node.
pub open spec fn hottest(nodes: Seq<HeatNode>, i: int) -> bool {
    0 <= i < nodes.len() && forall|j: int| 0 <= j < nodes.len() ==> nodes[j].heat <= nodes[i].heat
}

/// Whether every heated tile is passable on `map`.
pub fn heat_confined(h: &HeatMap, map: &GameMap) -> (r: bool)
    requires
        map.wf(),
    ensures
        r == confined(*h, map),
{
    let mut i: usize = 0;
    while i < h.nodes.len()
        invariant
            map.wf(),
            i <= h.nodes@.len(),
            forall|j: int| 0 <= j < i ==> #[trigger] map.passable(h.nodes@[j].pos),
        decreases h.nodes@.len() - i,
    {
        let p = h.nodes[i].pos;
        if !map.in_bounds(p.x, p.y) {
            assert(!map.passable(h.nodes@[i as int].pos));
            return false;
        }
        let idx = map.index(p.x, p.y);
        if map.tiles[idx].does_collide() {
            assert(!map.passable(h.nodes@[i as int].pos));
            return false;
        }
        i = i + 1;
    }
    true
}

/// Node `i` is the first of the strongest nodes.
pub open spec fn first_hottest(nodes: Seq<HeatNode>, i: int) -> bool {
    hottest(nodes, i) && forall|j: int| 0 <= j < i ==> nodes[j].heat < nodes[i].heat
}

/// The `k`-th neighbour of `p`.
pub open spec fn neighbor(p: Coord, k: int) -> Coord {
    Coord { x: (p.x + spec_neighbor_delta(k).0) as i32, y: (p.y + spec_neighbor_delta(k).1) as i32 }
}

/// `to` is where a searcher at `from` steps to follow the heat in `nodes`: with no heat
/// it stays; otherwise, towards the first strongest node `t`, it takes the walkable
/// neighbour closest to `t` (by squared distance) if that is closer than `from`, and
/// stays if no walkable neighbour is.
pub open spec fn heat_step(nodes: Seq<HeatNode>, map: GameMap, from: Coord, to: Coord) -> bool {
    if nodes.len() == 0 {
        to == from
    } else {
        exists|i: int| #[trigger] first_hottest(nodes, i) && {
            let t = nodes[i].pos;
            &&& (to == from || (adjacent(to, from) && map.spec_walkable(to.x as int, to.y as int) && dist_sq(to, t) < dist_sq(from, t)))
            &&& forall|k: int| 0 <= k < 8 && map.spec_walkable(#[trigger] neighbor(from, k).x as int, neighbor(from, k).y as int)
                ==> dist_sq(to, t) <= dist_sq(neighbor(from, k), t)
            &&& to == from ==> forall|k: int| 0 <= k < 8 && map.spec_walkable(#[trigger] neighbor(from, k).x as int, neighbor(from, k).y as int)
                ==> dist_sq(from, t) <= dist_sq(neighbor(from, k), t)
        }
    }
}

fn has_node(nodes: &Vec<HeatNode>, p: Coord) -> (r: bool)
    ensures
        r == exists|i: int| 0 <= i < nodes@.len() && (#[trigger] nodes@[i]).pos == p,
{
    let mut i: usize = 0;
    while i < nodes.len()
        invariant
            i <= nodes@.len(),
            forall|j: int| 0 <= j < i ==> (#[trigger] nodes@[j]).pos != p,
        decreases nodes@.len() - i,
    {
        if nodes[i].pos == p {
            return true;
        }
        i = i + 1;
    }
    false
}

fn has_coord(coords: &Vec<Coord>, p: Coord) -> (r: bool)
    ensures
        r == coords@.contains(p),
{
    let mut i: usize = 0;
    while i < coords.len()
        invariant
            i <= coords@.len(),
            forall|j: int| 0 <= j < i ==> coords@[j] != p,
        decreases coords@.len() - i,
    {
        if coords[i] == p {
            assert(coords@[i as int] == p);
            return true;
        }
        i = i + 1;
    }
    false
}

impl HeatMap {
    pub fn new() -> (r: HeatMap)
        ensures
            r.nodes@.len() == 0,
            r.old_nodes@.len() == 0,
    {
        HeatMap { center: Coord { x: 0, y: 0 }, radius: 0, nodes: Vec::new(), old_nodes: Vec::new() }
    }

    /// Forgets all heat and places one node of strength `HEAT_START` at `pos`,
    /// letting it spread up to `radius` tiles away.
    pub fn reset_to_single_node(&mut self, pos: &Coord, radius: i32)
        ensures
            final(self).nodes@ == seq![HeatNode { pos: *pos, heat: HEAT_START }],
            final(self).old_nodes@.len() == 0,
            final(self).center == *pos,
            final(self).radius == radius,
    {
        let mut nodes: Vec<HeatNode> = Vec::new();
        nodes.push(HeatNode { pos: *pos, heat: HEAT_START });
        self.nodes = nodes;
        self.old_nodes = Vec::new();
        self.center = *pos;
        self.radius = radius;
        assert(self.nodes@ =~= seq![HeatNode { pos: *pos, heat: HEAT_START }]);
    }

    /// Removes the heat on every tile of `area` (tiles that are seen and hold no target).
    pub fn clear_heat_area(&mut self, area: &Vec<Coord>)
        ensures
            final(self).nodes@ == old(self).nodes@.filter(|n: HeatNode| !area@.contains(n.pos)),
            forall|i: int| 0 <= i < final(self).nodes@.len() ==> old(self).nodes@.contains(#[trigger] final(self).nodes@[i]),
            final(self).center == old(self).center,
            final(self).radius == old(self).radius,
    {
        let ghost start = self.nodes@;
        let mut kept: Vec<HeatNode> = Vec::new();
        let mut i: usize = 0;
        while i < self.nodes.len()
            invariant
                self.nodes@ == start,
                self.center == old(self).center,
                self.radius == old(self).radius,
                i <= start.len(),
                kept@ == start.subrange(0, i as int).filter(|n: HeatNode| !area@.contains(n.pos)),
                forall|j: int| 0 <= j < kept@.len() ==> start.contains(#[trigger] kept@[j]),
            decreases start.len() - i,
        {
            let n = self.nodes[i];
            proof {
                assert(start.subrange(0, i + 1).drop_last() =~= start.subrange(0, i as int));
                reveal(Seq::filter);
            }
            if has_coord(area, n.pos) {
                self.old_nodes.push(n.pos);
            } else {
                kept.push(n);
                assert(start[i as int] == n);
            }
            i = i + 1;
        }
        assert(start.subrange(0, i as int) =~= start);
        self.nodes = kept;
    }

    /// One step of diffusion and decay. Every node loses one strength and nodes that
    /// reach zero, or lie at `origin` (where the searcher stands), go cold. Each node
    /// with strength left heats its passable neighbours within the radius that were
    /// never heated, at its own new strength.
    pub fn spread(&mut self, origin: Coord, map: &GameMap)
        requires
            map.wf(),
            confined(*old(self), map),
        ensures
            confined(*final(self), map),
            decayed_from(final(self).nodes@, old(self).nodes@),
            forall|i: int| 0 <= i < final(self).nodes@.len() ==> (#[trigger] final(self).nodes@[i]).pos != origin,
            forall|i: int| 0 <= i < final(self).nodes@.len() ==> (#[trigger] final(self).nodes@[i]).heat >= 1,
            forall|j: int| 0 <= j < old(self).nodes@.len() && (#[trigger] old(self).nodes@[j]).heat > 1 && old(self).nodes@[j].pos != origin
                ==> final(self).nodes@.contains(HeatNode { pos: old(self).nodes@[j].pos, heat: (old(self).nodes@[j].heat - 1) as u32 }),
            final(self).center == old(self).center,
            final(self).radius == old(self).radius,
    {
        let ghost before = self.nodes@;
        let mut next: Vec<HeatNode> = Vec::new();
        let mut i: usize = 0;
        while i < self.nodes.len()
            invariant
                self.nodes@ == before,
                self.center == old(self).center,
                self.radius == old(self).radius,
                confined(*self, map),
                i <= before.len(),
                forall|k: int| 0 <= k < next@.len() ==> #[trigger] map.passable(next@[k].pos),
                forall|k: int| 0 <= k < next@.len() ==> (#[trigger] next@[k]).pos != origin,
                forall|k: int| 0 <= k < next@.len() ==> (#[trigger] next@[k]).heat >= 1,
                decayed_from(next@, before),
                forall|j: int| 0 <= j < i && (#[trigger] before[j]).heat > 1 && before[j].pos != origin
                    ==> next@.contains(HeatNode { pos: before[j].pos, heat: (before[j].heat - 1) as u32 }),
            decreases before.len() - i,
        {
            let n = self.nodes[i];
            assert(map.passable(before[i as int].pos));
            let ghost prev0 = next@;
            if n.pos == origin || n.heat <= 1 {
                self.old_nodes.push(n.pos);
            } else {
                let ghost prev = next@;
                next.push(HeatNode { pos: n.pos, heat: n.heat - 1 });
                assert(next@[next@.len() - 1] == HeatNode { pos: n.pos, heat: (n.heat - 1) as u32 });
                assert forall|k: int| 0 <= k < next@.len() implies exists|j: int|
                    0 <= j < before.len() && before[j].heat == (#[trigger] next@[k]).heat + 1 && (
                    before[j].pos == next@[k].pos || adjacent(before[j].pos, next@[k].pos)) by {
                    if k < prev.len() {
                        assert(next@[k] == prev[k]);
                    } else {
                        assert(before[i as int].heat == next@[k].heat + 1);
                    }
                }
            }
            proof {
                assert forall|j: int| 0 <= j < i + 1 && (#[trigger] before[j]).heat > 1 && before[j].pos != origin
                    implies next@.contains(HeatNode { pos: before[j].pos, heat: (before[j].heat - 1) as u32 }) by {
                    if j < i {
                        let t = choose|t: int| 0 <= t < prev0.len() && prev0[t] == HeatNode { pos: before[j].pos, heat: (before[j].heat - 1) as u32 };
                        assert(next@[t] == prev0[t]);
                    }
                }
            }
            i = i + 1;
        }
        let ghost firsts = next@;
        let mut i: usize = 0;
        while i < self.nodes.len()
            invariant
                self.nodes@ == before,
                self.center == old(self).center,
                self.radius == old(self).radius,
                confined(*self, map),
                map.wf(),
                i <= before.len(),
                forall|k: int| 0 <= k < next@.len() ==> #[trigger] map.passable(next@[k].pos),
                forall|k: int| 0 <= k < next@.len() ==> (#[trigger] next@[k]).pos != origin,
                forall|k: int| 0 <= k < next@.len() ==> (#[trigger] next@[k]).heat >= 1,
                decayed_from(next@, before),
                next@.len() >= firsts.len(),
                forall|t: int| 0 <= t < firsts.len() ==> #[trigger] next@[t] == firsts[t],
                forall|j: int| 0 <= j < before.len() && (#[trigger] before[j]).heat > 1 && before[j].pos != origin
                    ==> firsts.contains(HeatNode { pos: before[j].pos, heat: (before[j].heat - 1) as u32 }),
            decreases before.len() - i,
        {
            let n = self.nodes[i];
            assert(map.passable(before[i as int].pos));
            if n.pos != origin && n.heat > 1 {
                let mut k: usize = 0;
                while k < 8
                    invariant
                        self.nodes@ == before,
                        map.wf(),
                        i < before.len(),
                        n == before[i as int],
                        n.heat > 1,
                        map.passable(n.pos),
                        k <= 8,
                        forall|t: int| 0 <= t < next@.len() ==> #[trigger] map.passable(next@[t].pos),
                        forall|t: int| 0 <= t < next@.len() ==> (#[trigger] next@[t]).pos != origin,
                        forall|t: int| 0 <= t < next@.len() ==> (#[trigger] next@[t]).heat >= 1,
                        decayed_from(next@, before),
                        next@.len() >= firsts.len(),
                        forall|t: int| 0 <= t < firsts.len() ==> #[trigger] next@[t] == firsts[t],
                        forall|j: int| 0 <= j < before.len() && (#[trigger] before[j]).heat > 1 && before[j].pos != origin
                            ==> firsts.contains(HeatNode { pos: before[j].pos, heat: (before[j].heat - 1) as u32 }),
                    decreases 8 - k,
                {
                    let d = neighbor_delta(k);
                    let q = n.pos.offset(d.0, d.1);
                    let cx = self.center.x as i64;
                    let cy = self.center.y as i64;
                    let r = self.radius as i64;
                    let near = -r <= q.x as i64 - cx && q.x as i64 - cx <= r && -r <= q.y as i64 - cy
                        && q.y as i64 - cy <= r;
                    if near && q != origin && map.in_bounds(q.x, q.y) {
                        let qi = map.index(q.x, q.y);
                        if !map.tiles[qi].does_collide() && !has_node(&next, q) && !has_coord(
                            &self.old_nodes,
                            q,
                        ) {
                            let ghost prev = next@;
                            next.push(HeatNode { pos: q, heat: n.heat - 1 });
                            assert(adjacent(n.pos, q));
                            assert forall|t: int| 0 <= t < next@.len() implies exists|j: int|
                                0 <= j < before.len() && before[j].heat == (#[trigger] next@[t]).heat
                                    + 1 && (before[j].pos == next@[t].pos || adjacent(
                                    before[j].pos,
                                    next@[t].pos,
                                )) by {
                                if t < prev.len() {
                                    assert(next@[t] == prev[t]);
                                } else {
                                    assert(before[i as int].heat == next@[t].heat + 1);
                                }
                            }
                            assert(map.passable(next@[next@.len() - 1].pos));
                        }
                    }
                    k = k + 1;
                }
            }
            i = i + 1;
        }
        proof {
            assert forall|j: int| 0 <= j < before.len() && (#[trigger] before[j]).heat > 1 && before[j].pos != origin
                implies next@.contains(HeatNode { pos: before[j].pos, heat: (before[j].heat - 1) as u32 }) by {
                let t = choose|t: int| 0 <= t < firsts.len() && firsts[t] == HeatNode { pos: before[j].pos, heat: (before[j].heat - 1) as u32 };
                assert(next@[t] == firsts[t]);
            }
        }
        self.nodes = next;
    }

    /// Where an actor at `pos` steps to follow the strongest heat: the walkable
    /// neighbour that comes closest to a strongest node, if it comes closer than `pos`;
    /// otherwise `pos` itself.
    pub fn get_closest_heat(&self, map: &GameMap, pos: Coord) -> (r: Coord)
        requires
            map.wf(),
            map.spec_in_bounds(pos.x as int, pos.y as int),
        ensures
            heat_step(self.nodes@, *map, pos, r),
    {
        if self.nodes.len() == 0 {
            return pos;
        }
        let mut best: usize = 0;
        let mut i: usize = 1;
        while i < self.nodes.len()
            invariant
                1 <= i <= self.nodes@.len(),
                best < i,
                forall|j: int| 0 <= j < i ==> self.nodes@[j].heat <= self.nodes@[best as int].heat,
                forall|j: int| 0 <= j < best ==> self.nodes@[j].heat < self.nodes@[best as int].heat,
            decreases self.nodes@.len() - i,
        {
            if self.nodes[i].heat > self.nodes[best].heat {
                best = i;
            }
            i = i + 1;
        }
        let target = self.nodes[best].pos;
        let start_d = distance_sq(pos, target);
        let mut step = pos;
        let mut step_d = start_d;
        let mut k: usize = 0;
        while k < 8
            invariant
                map.wf(),
                map.spec_in_bounds(pos.x as int, pos.y as int),
                first_hottest(self.nodes@, best as int),
                target == self.nodes@[best as int].pos,
                start_d == dist_sq(pos, target),
                step_d == dist_sq(step, target),
                step_d <= start_d,
                step == pos || (adjacent(step, pos) && map.spec_walkable(step.x as int, step.y as int)
                    && step_d < start_d),
                forall|kk: int| 0 <= kk < k && map.spec_walkable(#[trigger] neighbor(pos, kk).x as int, neighbor(pos, kk).y as int)
                    ==> step_d <= dist_sq(neighbor(pos, kk), target),
                step == pos ==> forall|kk: int| 0 <= kk < k && map.spec_walkable(#[trigger] neighbor(pos, kk).x as int, neighbor(pos, kk).y as int)
                    ==> start_d <= dist_sq(neighbor(pos, kk), target),
                k <= 8,
            decreases 8 - k,
        {
            let d = neighbor_delta(k);
            let q = pos.offset(d.0, d.1);
            assert(q == neighbor(pos, k as int));
            if map.walkable(q.x, q.y) {
                let qd = distance_sq(q, target);
                if qd < step_d {
                    step = q;
                    step_d = qd;
                }
            }
            k = k + 1;
        }
        assert(first_hottest(self.nodes@, best as int));
        step
    }
}

} // verus!
