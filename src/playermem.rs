use vstd::prelude::*;
use crate::geometry::Coord;
use crate::object::{Object, PlayerMemory};

verus! {

/// What the player remembers of `o` after a look with sight `vis`: an actor standing
/// on a seen tile is marked seen at that position; anything else is unchanged.
pub open spec fn remembered(o: Object, f: Object, vis: Seq<Coord>) -> bool {
    if o.pos is Some && vis.contains(o.pos->Some_0) {
        f == (Object { player_mem: PlayerMemory { seen: true, last_pos: o.pos }, ..o })
    } else {
        f == o
    }
}

/// The player's memory updated from what actor 0 currently sees.
pub open spec fn memory_step(o0: Seq<Object>, o1: Seq<Object>) -> bool {
    &&& o1.len() == o0.len()
    &&& o0.len() == 0 || o0[0].viewshed is None ==> o1 == o0
    &&& o0.len() > 0 && o0[0].viewshed is Some ==> forall|k: int|
        0 <= k < o0.len() ==> remembered(#[trigger] o0[k], o1[k], o0[0].viewshed->Some_0.visible@)
}

/// Records, for every actor the player (actor 0) currently sees, that it was seen and
/// where. Does nothing when there is no player with sight.
pub fn update_player_memory(objects: &mut Vec<Object>)
    ensures
        memory_step(old(objects)@, final(objects)@),
{
    if objects.len() == 0 {
        return;
    }
    let vis: Vec<Coord> = match &objects[0].viewshed {
        Some(v) => copy_coords(&v.visible),
        None => { return; },
    };
    let n = objects.len();
    let mut i: usize = 0;
    while i < n
        invariant
            n == objects@.len(),
            n == old(objects)@.len(),
            n > 0,
            old(objects)@[0].viewshed is Some,
            vis@ == old(objects)@[0].viewshed->Some_0.visible@,
            i <= n,
            forall|k: int| i <= k < n ==> #[trigger] objects@[k] == old(objects)@[k],
            forall|k: int| 0 <= k < i ==> remembered(#[trigger] old(objects)@[k], objects@[k], vis@),
        decreases n - i,
    {
        if let Some(p) = objects[i].pos {
            if seen_in(&vis, p) {
                let obj = &mut objects[i];
                obj.player_mem = PlayerMemory { seen: true, last_pos: Some(p) };
            }
        }
        i = i + 1;
    }
}

fn copy_coords(v: &Vec<Coord>) -> (r: Vec<Coord>)
    ensures
        r@ == v@,
{
    let mut r: Vec<Coord> = Vec::new();
    let mut i: usize = 0;
    while i < v.len()
        invariant
            i <= v@.len(),
            r@ == v@.subrange(0, i as int),
        decreases v@.len() - i,
    {
        r.push(v[i]);
        i = i + 1;
        assert(r@ =~= v@.subrange(0, i as int));
    }
    assert(r@ =~= v@);
    r
}

fn seen_in(v: &Vec<Coord>, p: Coord) -> (r: bool)
    ensures
        r == v@.contains(p),
{
    let mut i: usize = 0;
    while i < v.len()
        invariant
            i <= v@.len(),
            forall|j: int| 0 <= j < i ==> v@[j] != p,
        decreases v@.len() - i,
    {
        if v[i] == p {
            assert(v@[i as int] == p);
            return true;
        }
        i = i + 1;
    }
    false
}

} // verus!
