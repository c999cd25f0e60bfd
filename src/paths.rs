use vstd::prelude::*;
use crate::geometry::Coord;
use crate::map::{GameMap, collides};

verus! {

/// Two tiles that share an edge.
pub open spec fn orth_adjacent(a: Coord, b: Coord) -> bool {
    (a.x == b.x && (a.y - b.y == 1 || b.y - a.y == 1)) || (a.y == b.y && (a.x - b.x == 1 || b.x
        - a.x == 1))
}

/// A non-empty sequence of walkable tiles, each sharing an edge with the next.
pub open spec fn is_walk(m: GameMap, path: Seq<Coord>) -> bool {
    &&& path.len() >= 1
    &&& forall|i: int| 0 <= i < path.len() ==> m.spec_walkable(#[trigger] path[i].x as int, path[i].y as int)
    &&& forall|i: int| 0 <= i < path.len() - 1 ==> orth_adjacent(#[trigger] path[i], path[i + 1])
}

/// `b` can be reached from `a` by walking over walkable tiles.
pub open spec fn connected(m: GameMap, a: Coord, b: Coord) -> bool {
    exists|path: Seq<Coord>| #[trigger] is_walk(m, path) && path[0] == a && path.last() == b
}

/// `after` has the shape and occupancy of `before`, and every tile that did not collide
/// still does not.
pub open spec fn grows(before: GameMap, after: GameMap) -> bool {
    &&& before.width == after.width
    &&& before.height == after.height
    &&& before.tiles@.len() == after.tiles@.len()
    &&& after.objblocked@ == before.objblocked@
    &&& forall|i: int|
        0 <= i < before.tiles@.len() && !collides(before.tiles@[i]) ==> !collides(
            #[trigger] after.tiles@[i],
        )
}

pub proof fn lemma_connected_refl(m: GameMap, a: Coord)
    requires
        m.spec_walkable(a.x as int, a.y as int),
    ensures
        connected(m, a, a),
{
    let p = seq![a];
    assert(is_walk(m, p));
}

pub proof fn lemma_connected_trans(m: GameMap, a: Coord, b: Coord, c: Coord)
    requires
        connected(m, a, b),
        connected(m, b, c),
    ensures
        connected(m, a, c),
{
    let first = choose|p: Seq<Coord>| #[trigger] is_walk(m, p) && p[0] == a && p.last() == b;
    let second = choose|p: Seq<Coord>| #[trigger] is_walk(m, p) && p[0] == b && p.last() == c;
    let p = first + second.drop_first();
    assert forall|i: int| 0 <= i < p.len() implies m.spec_walkable(#[trigger] p[i].x as int, p[i].y as int) by {
        if i < first.len() {
            assert(p[i] == first[i]);
        } else {
            assert(p[i] == second[i - first.len() + 1]);
        }
    }
    assert forall|i: int| 0 <= i < p.len() - 1 implies orth_adjacent(#[trigger] p[i], p[i + 1]) by {
        if i < first.len() - 1 {
            assert(p[i] == first[i] && p[i + 1] == first[i + 1]);
        } else if i == first.len() - 1 {
            assert(p[i] == first.last());
            assert(p[i + 1] == second[1]);
            assert(orth_adjacent(second[0], second[1]));
        } else {
            assert(p[i] == second[i - first.len() + 1]);
            assert(p[i + 1] == second[i - first.len() + 2]);
        }
    }
    assert(is_walk(m, p));
    if second.len() == 1 {
        assert(p.last() == first.last());
    } else {
        assert(p.last() == second.last());
    }
}

pub proof fn lemma_connected_sym(m: GameMap, a: Coord, b: Coord)
    requires
        connected(m, a, b),
    ensures
        connected(m, b, a),
{
    let first = choose|p: Seq<Coord>| #[trigger] is_walk(m, p) && p[0] == a && p.last() == b;
    let n = first.len();
    let p = Seq::new(n, |i: int| first[n - 1 - i]);
    assert forall|i: int| 0 <= i < p.len() implies m.spec_walkable(#[trigger] p[i].x as int, p[i].y as int) by {
        assert(p[i] == first[n - 1 - i]);
    }
    assert forall|i: int| 0 <= i < p.len() - 1 implies orth_adjacent(#[trigger] p[i], p[i + 1]) by {
        assert(orth_adjacent(first[n - 2 - i], first[n - 1 - i]));
    }
    assert(is_walk(m, p));
}

pub proof fn lemma_connected_grows(m1: GameMap, m2: GameMap, a: Coord, b: Coord)
    requires
        m1.wf(),
        grows(m1, m2),
        connected(m1, a, b),
    ensures
        connected(m2, a, b),
{
    let p = choose|p: Seq<Coord>| #[trigger] is_walk(m1, p) && p[0] == a && p.last() == b;
    assert forall|i: int| 0 <= i < p.len() implies m2.spec_walkable(#[trigger] p[i].x as int, p[i].y as int) by {
        assert(m1.spec_walkable(p[i].x as int, p[i].y as int));
        crate::map::lemma_index_in_range(p[i].x as int, p[i].y as int, m1.width as int, m1.height as int);
    }
    assert(is_walk(m2, p));
}

/// A straight vertical run of walkable tiles connects its ends.
pub proof fn lemma_vertical(m: GameMap, x: i32, y1: i32, y2: i32)
    requires
        forall|y: int| (y1 <= y <= y2 || y2 <= y <= y1) ==> m.spec_walkable(x as int, y),
    ensures
        connected(m, Coord { x, y: y1 }, Coord { x, y: y2 }),
    decreases if y1 <= y2 { 0int } else { 1int },
{
    if y1 <= y2 {
        let p = Seq::new((y2 - y1 + 1) as nat, |i: int| Coord { x, y: (y1 + i) as i32 });
        assert forall|i: int| 0 <= i < p.len() implies m.spec_walkable(#[trigger] p[i].x as int, p[i].y as int) by {
            assert(p[i].y == y1 + i);
        }
        assert(is_walk(m, p));
        assert(p.last() == Coord { x, y: y2 });
    } else {
        lemma_vertical(m, x, y2, y1);
        lemma_connected_sym(m, Coord { x, y: y2 }, Coord { x, y: y1 });
    }
}

/// A straight horizontal run of walkable tiles connects its ends.
pub proof fn lemma_horizontal(m: GameMap, y: i32, x1: i32, x2: i32)
    requires
        forall|x: int| (x1 <= x <= x2 || x2 <= x <= x1) ==> m.spec_walkable(x, y as int),
    ensures
        connected(m, Coord { x: x1, y }, Coord { x: x2, y }),
    decreases if x1 <= x2 { 0int } else { 1int },
{
    if x1 <= x2 {
        let p = Seq::new((x2 - x1 + 1) as nat, |i: int| Coord { x: (x1 + i) as i32, y });
        assert forall|i: int| 0 <= i < p.len() implies m.spec_walkable(#[trigger] p[i].x as int, p[i].y as int) by {
            assert(p[i].x == x1 + i);
        }
        assert(is_walk(m, p));
        assert(p.last() == Coord { x: x2, y });
    } else {
        lemma_horizontal(m, y, x2, x1);
        lemma_connected_sym(m, Coord { x: x2, y }, Coord { x: x1, y });
    }
}

/// A path that goes vertically from `a` to the row of `b`, then horizontally to `b`.
pub proof fn lemma_vertical_then_horizontal(m: GameMap, a: Coord, b: Coord)
    requires
        forall|y: int| (a.y <= y <= b.y || b.y <= y <= a.y) ==> m.spec_walkable(a.x as int, y),
        forall|x: int| (a.x <= x <= b.x || b.x <= x <= a.x) ==> m.spec_walkable(x, b.y as int),
    ensures
        connected(m, a, b),
{
    lemma_vertical(m, a.x, a.y, b.y);
    lemma_horizontal(m, b.y, a.x, b.x);
    lemma_connected_trans(m, a, Coord { x: a.x, y: b.y }, b);
}

/// A path that goes horizontally from `a` to the column of `b`, then vertically to `b`.
pub proof fn lemma_horizontal_then_vertical(m: GameMap, a: Coord, b: Coord)
    requires
        forall|x: int| (a.x <= x <= b.x || b.x <= x <= a.x) ==> m.spec_walkable(x, a.y as int),
        forall|y: int| (a.y <= y <= b.y || b.y <= y <= a.y) ==> m.spec_walkable(b.x as int, y),
    ensures
        connected(m, a, b),
{
    lemma_horizontal(m, a.y, a.x, b.x);
    lemma_vertical(m, b.x, a.y, b.y);
    lemma_connected_trans(m, a, Coord { x: b.x, y: a.y }, b);
}

} // verus!
