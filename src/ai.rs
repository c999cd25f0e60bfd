use vstd::prelude::*;
use crate::actions::{can_roll, moved_to, wounded};
use crate::geometry::{Coord, adjacent, dist_sq, distance_sq};
use crate::blockmove::{occupancy_matches, update_blocked_tiles};
use crate::heat::{HEAT_START, HeatNode, confined, decayed_from, heat_confined, heat_step};
use crate::map::GameMap;
use crate::object::{AIState, ActorTag, Object};
use bracket_random::prelude::RandomNumberGenerator;

verus! {

/// Turns an enemy keeps hunting after losing sight of its target.
pub const MEMORY_TURNS: u32 = 24;

/// How far the heat of a lost target may spread from where it was last seen.
pub const HEAT_RADIUS: i32 = 5;

/// The actor takes part in the non-player phase.
pub open spec fn eligible(o: Object) -> bool {
    o.tag == Some(ActorTag::Enemy) && o.initiative is Some
}

pub open spec fn init_of(o: Object) -> int {
    o.initiative->Some_0 as int
}

/// Activation `a` comes before activation `b`: higher initiative first, then lower index.
pub open spec fn acts_before(objects: Seq<Object>, a: usize, b: usize) -> bool {
    init_of(objects[a as int]) > init_of(objects[b as int]) || (init_of(objects[a as int]) == init_of(
        objects[b as int],
    ) && a < b)
}

/// The enemies with an initiative, other than actor 0, in the order in which they act:
/// by descending initiative, ties in ascending index.
pub fn activation_order(objects: &Vec<Object>) -> (r: Vec<usize>)
    ensures
        forall|j: int| 0 <= j < r@.len() ==> 1 <= #[trigger] r@[j] < objects@.len() && eligible(objects@[r@[j] as int]),
        forall|k: int| 1 <= k < objects@.len() && eligible(#[trigger] objects@[k]) ==> r@.contains(k as usize),
        forall|a: int, b: int| 0 <= a < b < r@.len() ==> acts_before(objects@, #[trigger] r@[a], #[trigger] r@[b]),
{
    let mut order: Vec<usize> = Vec::new();
    if objects.len() == 0 {
        return order;
    }
    let mut k: usize = 1;
    while k < objects.len()
        invariant
            1 <= k <= objects@.len(),
            forall|j: int| 0 <= j < order@.len() ==> 1 <= #[trigger] order@[j] < k && eligible(objects@[order@[j] as int]),
            forall|t: int| 1 <= t < k && t < objects@.len() && eligible(#[trigger] objects@[t]) ==> order@.contains(t as usize),
            forall|a: int, b: int| 0 <= a < b < order@.len() ==> acts_before(objects@, #[trigger] order@[a], #[trigger] order@[b]),
        decreases objects@.len() - k,
    {
        if let (Some(ActorTag::Enemy), Some(init)) = (objects[k].tag, objects[k].initiative) {
            let mut p: usize = 0;
            while p < order.len() && objects[order[p]].initiative.unwrap_or(0) >= init
                invariant
                    p <= order@.len(),
                    k < objects@.len(),
                    objects@[k as int].initiative == Some(init),
                    forall|j: int| 0 <= j < order@.len() ==> 1 <= #[trigger] order@[j] < k && eligible(objects@[order@[j] as int]),
                    forall|j: int| 0 <= j < p ==> init_of(objects@[#[trigger] order@[j] as int]) >= init,
                decreases order@.len() - p,
            {
                p = p + 1;
            }
            let ghost os = order@;
            order.insert(p, k);
            proof {
                os.insert_ensures(p as int, k);
                let ns = order@;
                assert forall|a: int, b: int| 0 <= a < b < ns.len() implies acts_before(objects@, #[trigger] ns[a], #[trigger] ns[b]) by {
                    if b < p {
                    } else if b == p {
                        assert(init_of(objects@[ns[a] as int]) >= init);
                    } else if a < p {
                        assert(ns[b] == os[b - 1]);
                        if a + 1 < b {
                        }
                    } else if a == p {
                        assert(ns[b] == os[b - 1]);
                        assert(p < os.len());
                        assert(!(init_of(objects@[os[p as int] as int]) >= init));
                        if b - 1 > p {
                            assert(acts_before(objects@, os[p as int], os[b - 1]));
                        }
                    } else {
                        assert(ns[a] == os[a - 1]);
                        assert(ns[b] == os[b - 1]);
                    }
                }
                assert forall|t: int| 1 <= t < k + 1 && t < objects@.len() && eligible(#[trigger] objects@[t]) implies ns.contains(t as usize) by {
                    if t < k {
                        let j = choose|j: int| 0 <= j < os.len() && os[j] == t as usize;
                        if j < p {
                            assert(ns[j] == t as usize);
                        } else {
                            assert(ns[j + 1] == t as usize);
                        }
                    } else {
                        assert(ns[p as int] == k);
                    }
                }
                assert forall|j: int| 0 <= j < ns.len() implies 1 <= #[trigger] ns[j] < k + 1 && eligible(objects@[ns[j] as int]) by {
                    if j < p {
                    } else if j > p {
                        assert(ns[j] == os[j - 1]);
                    }
                }
            }
        }
        k = k + 1;
    }
    order
}

/// The actor can take a turn: it is placed and has sight and behaviour.
pub open spec fn can_act(o: Object) -> bool {
    o.pos is Some && o.viewshed is Some && o.ai is Some
}

/// The actor's last sight includes `p`.
pub open spec fn sees(o: Object, p: Coord) -> bool {
    o.viewshed->Some_0.visible@.contains(p)
}

/// Close enough to strike, diagonals included (a Euclidean distance of at most about 1.45).
pub open spec fn in_reach(a: Coord, b: Coord) -> bool {
    dist_sq(a, b) <= 2
}

/// A one-tile move onto a walkable tile.
pub open spec fn step_ok(map: GameMap, from: Coord, to: Coord) -> bool {
    adjacent(from, to) && map.spec_walkable(to.x as int, to.y as int)
}

/// Where a pursuit step from `from` towards the tile `step` ends: that tile when it is
/// one walkable step away, else nowhere new.
pub open spec fn pursuit_dest(map: GameMap, from: Coord, step: Option<usize>) -> Coord {
    match step {
        Some(s) => if s < map.size() && step_ok(map, from, map.spec_point(s as int)) {
            map.spec_point(s as int)
        } else {
            from
        },
        None => from,
    }
}

/// The fields that a turn of behaviour leaves alone.
pub open spec fn same_identity(a: Object, b: Object) -> bool {
    &&& a.name == b.name
    &&& a.tag == b.tag
    &&& a.floor == b.floor
    &&& a.block_tile == b.block_tile
    &&& a.initiative == b.initiative
    &&& a.health == b.health
    &&& a.damage == b.damage
    &&& a.in_inventory == b.in_inventory
    &&& a.item_stats == b.item_stats
}

/// The target is in sight: chase it, remembering it for `MEMORY_TURNS` turns with fresh
/// heat where it stands; strike if in reach, else take the pursuit step.
pub open spec fn chased(e: Object, f: Object, map: GameMap, player_pos: Coord, path_step: Option<usize>, attack: bool) -> bool {
    let pos = e.pos->Some_0;
    let nai = f.ai->Some_0;
    &&& nai.state == AIState::Chasing
    &&& nai.target == Some(0usize)
    &&& nai.tgt_memory == MEMORY_TURNS
    &&& nai.tgt_heatmap.nodes@ == seq![HeatNode { pos: player_pos, heat: HEAT_START }]
    &&& attack == in_reach(pos, player_pos)
    &&& attack ==> f.pos == e.pos
    &&& !attack ==> f.pos == Some(pursuit_dest(map, pos, path_step))
}

/// The target is out of sight but remembered: hunt, spending one turn of memory. The
/// heat spreads and decays one step (to `h`), the enemy takes the heat step of `h` from
/// where it stands (staying, or one walkable step), and the heat on the tiles it sees
/// is cleared.
pub open spec fn hunted(e: Object, f: Object, map: GameMap) -> bool {
    let ai = e.ai->Some_0;
    let nai = f.ai->Some_0;
    &&& nai.state == AIState::Hunting
    &&& nai.tgt_memory == ai.tgt_memory - 1
    &&& nai.target == ai.target
    &&& (f.pos == e.pos || step_ok(map, e.pos->Some_0, f.pos->Some_0))
    &&& exists|h: Seq<HeatNode>|
        #[trigger] decayed_from(h, ai.tgt_heatmap.nodes@) && heat_step(h, map, e.pos->Some_0, f.pos->Some_0)
            && nai.tgt_heatmap.nodes@ == h.filter(|n: HeatNode| !e.viewshed->Some_0.visible@.contains(n.pos))
}

/// The target is forgotten: idle in place with no target.
pub open spec fn idled(e: Object, f: Object) -> bool {
    let nai = f.ai->Some_0;
    &&& nai.state == AIState::Idle
    &&& nai.target is None
    &&& nai.tgt_memory == 0
    &&& f.pos == e.pos
}

/// The behaviour decision of one enemy turn against a player at `player_pos`.
/// `path_step` is the first tile of a shortest path from the enemy to the player.
/// Returns whether the enemy attacks; a moving enemy never attacks. When the target is
/// not in sight, the heat on the tiles the enemy sees is cleared after it acts (while
/// chasing, the only heat is the fresh node under the target itself).
pub fn ai_decide(enemy: &mut Object, map: &GameMap, player_pos: Coord, path_step: Option<usize>) -> (attack: bool)
    requires
        map.wf(),
        can_act(*old(enemy)) ==> map.spec_in_bounds(old(enemy).pos->Some_0.x as int, old(enemy).pos->Some_0.y as int)
            && confined(old(enemy).ai->Some_0.tgt_heatmap, map),
    ensures
        !can_act(*old(enemy)) ==> *final(enemy) == *old(enemy) && !attack,
        can_act(*old(enemy)) ==> final(enemy).ai is Some && final(enemy).pos is Some && same_identity(
            *old(enemy),
            *final(enemy),
        ),
        can_act(*old(enemy)) && (!sees(*old(enemy), player_pos) || map.passable(player_pos)) ==> confined(final(enemy).ai->Some_0.tgt_heatmap, map),
        can_act(*old(enemy)) && sees(*old(enemy), player_pos) ==> chased(*old(enemy), *final(enemy), *map, player_pos, path_step, attack),
        can_act(*old(enemy)) && !sees(*old(enemy), player_pos) ==> unseen_step(*old(enemy), *final(enemy), *map) && !attack,
{
    let pos = match enemy.pos {
        Some(p) => p,
        None => { return false; },
    };
    let seen = match &enemy.viewshed {
        Some(v) => coord_listed(&v.visible, player_pos),
        None => { return false; },
    };
    if enemy.ai.is_none() {
        return false;
    }
    let ghost e0 = *enemy;
    let mut attack = false;
    let mut dest = pos;
    if seen {
        let close = distance_sq(pos, player_pos) <= 2;
        if let Some(ai) = &mut enemy.ai {
            ai.target = Some(0);
            ai.state = AIState::Chasing;
            ai.tgt_memory = MEMORY_TURNS;
            ai.tgt_heatmap.reset_to_single_node(&player_pos, HEAT_RADIUS);
        }
        if close {
            attack = true;
        } else if let Some(s) = path_step {
            if s < map.tiles.len() {
                let q = map.point_from_idx(s);
                let dx = q.x as i64 - pos.x as i64;
                let dy = q.y as i64 - pos.y as i64;
                if -1 <= dx && dx <= 1 && -1 <= dy && dy <= 1 && q != pos && map.walkable(q.x, q.y) {
                    dest = q;
                }
            }
        }
    } else {
        let mut hunting = false;
        if let Some(ai) = &mut enemy.ai {
            if ai.tgt_memory > 0 {
                ai.state = AIState::Hunting;
                ai.tgt_memory = ai.tgt_memory - 1;
                ai.tgt_heatmap.spread(pos, map);
                dest = ai.tgt_heatmap.get_closest_heat(map, pos);
                hunting = true;
            } else {
                ai.target = None;
                ai.state = AIState::Idle;
            }
        }
        let ghost before = enemy.ai->Some_0.tgt_heatmap;
        clear_ai_heatmap(enemy);
        proof {
            let after = enemy.ai->Some_0.tgt_heatmap;
            assert forall|i: int| 0 <= i < after.nodes@.len() implies #[trigger] map.passable(after.nodes@[i].pos) by {
                assert(before.nodes@.contains(after.nodes@[i]));
                let j = choose|j: int| 0 <= j < before.nodes@.len() && before.nodes@[j] == after.nodes@[i];
                assert(map.passable(before.nodes@[j].pos));
            }
        }
    }
    if dest != pos {
        enemy.try_move(dest, map);
    }
    attack
}

/// Clears the enemy's heat on every tile it currently sees; nothing else changes.
pub fn clear_ai_heatmap(enemy: &mut Object)
    ensures
        !(old(enemy).ai is Some && old(enemy).viewshed is Some) ==> *final(enemy) == *old(enemy),
        old(enemy).ai is Some && old(enemy).viewshed is Some ==> ({
            let h0 = old(enemy).ai->Some_0.tgt_heatmap;
            let ai = final(enemy).ai->Some_0;
            let vis = old(enemy).viewshed->Some_0.visible@;
            &&& final(enemy).ai is Some
            &&& *final(enemy) == (Object { ai: final(enemy).ai, ..*old(enemy) })
            &&& ai.target == old(enemy).ai->Some_0.target
            &&& ai.state == old(enemy).ai->Some_0.state
            &&& ai.tgt_memory == old(enemy).ai->Some_0.tgt_memory
            &&& ai.tgt_heatmap.nodes@ == h0.nodes@.filter(|n: HeatNode| !vis.contains(n.pos))
            &&& forall|i: int| 0 <= i < ai.tgt_heatmap.nodes@.len() ==> h0.nodes@.contains(#[trigger] ai.tgt_heatmap.nodes@[i])
        }),
{
    if let (Some(ai), Some(v)) = (&mut enemy.ai, &enemy.viewshed) {
        ai.tgt_heatmap.clear_heat_area(&v.visible);
    }
}

/// One activation without the target in sight, as `ai_decide` performs it.
pub open spec fn unseen_step(e: Object, f: Object, map: GameMap) -> bool {
    &&& e.ai->Some_0.tgt_memory > 0 ==> hunted(e, f, map)
    &&& e.ai->Some_0.tgt_memory == 0 ==> idled(e, f)
}

proof fn lemma_memory_counts_down(trace: Seq<Object>, map: GameMap, k: int)
    requires
        trace.len() == MEMORY_TURNS + 2,
        trace[0].ai is Some,
        trace[0].ai->Some_0.tgt_memory == MEMORY_TURNS,
        forall|j: int| 0 <= j < trace.len() - 1 ==> (#[trigger] trace[j]).ai is Some && unseen_step(trace[j], trace[j + 1], map),
        0 <= k <= MEMORY_TURNS,
    ensures
        trace[k].ai->Some_0.tgt_memory == MEMORY_TURNS - k,
    decreases k,
{
    if k > 0 {
        lemma_memory_counts_down(trace, map, k - 1);
        assert(trace[k - 1].ai is Some && unseen_step(trace[k - 1], trace[k], map));
    }
}

/// An enemy whose target stays out of sight after a chase hunts for `MEMORY_TURNS`
/// activations, then goes idle and forgets the target.
pub proof fn lemma_hunt_then_idle(trace: Seq<Object>, map: GameMap)
    requires
        trace.len() == MEMORY_TURNS + 2,
        trace[0].ai is Some,
        trace[0].ai->Some_0.tgt_memory == MEMORY_TURNS,
        forall|j: int| 0 <= j < trace.len() - 1 ==> (#[trigger] trace[j]).ai is Some && unseen_step(trace[j], trace[j + 1], map),
    ensures
        forall|k: int| 1 <= k <= MEMORY_TURNS ==> (#[trigger] trace[k]).ai->Some_0.state == AIState::Hunting,
        trace[MEMORY_TURNS + 1].ai->Some_0.state == AIState::Idle,
        trace[MEMORY_TURNS + 1].ai->Some_0.target is None,
{
    assert forall|k: int| 1 <= k <= MEMORY_TURNS implies (#[trigger] trace[k]).ai->Some_0.state == AIState::Hunting by {
        lemma_memory_counts_down(trace, map, k - 1);
        assert(trace[k - 1].ai is Some && unseen_step(trace[k - 1], trace[k], map));
    }
    lemma_memory_counts_down(trace, map, MEMORY_TURNS as int);
    let last = MEMORY_TURNS as int;
    assert(trace[last].ai is Some && unseen_step(trace[last], trace[last + 1], map));
}

/// The enemy strikes this turn: it acts, sees the player, and stands within reach.
pub open spec fn attacks(e: Object, player_pos: Coord) -> bool {
    can_act(e) && sees(e, player_pos) && in_reach(e.pos->Some_0, player_pos)
}

/// What one activation expects of the enemy: it stands inside the map, its heat
/// lies on passable tiles, and its damage can be rolled.
pub open spec fn ready_to_act(e: Object, map: GameMap) -> bool {
    &&& can_act(e) ==> map.spec_in_bounds(e.pos->Some_0.x as int, e.pos->Some_0.y as int)
        && confined(e.ai->Some_0.tgt_heatmap, &map)
    &&& e.damage matches Some(d) ==> d.rollable()
}

/// What one activation of enemy `id` does to the actor list: only the enemy and the
/// player change; an enemy off the player's floor does nothing; otherwise the enemy
/// chases, hunts or idles, and a strike adds a rolled wound to the player.
pub open spec fn activation(
    before: Seq<Object>,
    after: Seq<Object>,
    id: int,
    map: GameMap,
    player_pos: Coord,
    path_step: Option<usize>,
) -> bool {
    let e = before[id];
    let f = after[id];
    let p = before[0];
    let fp = after[0];
    &&& after.len() == before.len()
    &&& forall|k: int| 0 < k < before.len() && k != id ==> #[trigger] after[k] == before[k]
    &&& e.floor != p.floor ==> after == before
    &&& e.floor == p.floor ==> {
        &&& (!can_act(e) ==> f == e)
        &&& (can_act(e) ==> f.ai is Some && f.pos is Some && same_identity(e, f))
        &&& (can_act(e) && (!sees(e, player_pos) || map.passable(player_pos)) ==> confined(f.ai->Some_0.tgt_heatmap, &map))
        &&& (can_act(e) && sees(e, player_pos) ==> chased(e, f, map, player_pos, path_step, attacks(e, player_pos)))
        &&& (can_act(e) && !sees(e, player_pos) && e.ai->Some_0.tgt_memory > 0 ==> hunted(e, f, map))
        &&& (can_act(e) && !sees(e, player_pos) && e.ai->Some_0.tgt_memory == 0 ==> idled(e, f))
        &&& (attacks(e, player_pos) && e.damage is Some && p.health is Some ==> exists|r: int|
            can_roll(e.damage->Some_0, r) && wounded(p, fp, r))
        &&& (!(attacks(e, player_pos) && e.damage is Some && p.health is Some) ==> fp == p)
    }
}

/// One activation of enemy `enemy_id` against the player (actor 0) at `player_pos`.
/// Only an enemy on the player's floor acts; a strike adds a rolled wound to the player.
pub fn basic_enemy_ai(
    enemy_id: usize,
    objects: &mut Vec<Object>,
    map: &GameMap,
    rng: &mut RandomNumberGenerator,
    player_pos: Coord,
    path_step: Option<usize>,
)
    requires
        1 <= enemy_id < old(objects)@.len(),
        map.wf(),
        ready_to_act(old(objects)@[enemy_id as int], *map),
    ensures
        activation(old(objects)@, final(objects)@, enemy_id as int, *map, player_pos, path_step),
{
    if objects[enemy_id].floor != objects[0].floor {
        return;
    }
    let ghost before = objects@;
    let attack = {
        let e = &mut objects[enemy_id];
        ai_decide(e, map, player_pos, path_step)
    };
    proof {
        assert(objects@ == before.update(enemy_id as int, objects@[enemy_id as int]));
    }
    if attack {
        let roll = match &objects[enemy_id].damage {
            Some(d) => Some(d.roll(rng)),
            None => None,
        };
        if let Some(v) = roll {
            let ghost p0 = objects@[0];
            let target = &mut objects[0];
            if let Some(h) = &mut target.health {
                h.wounds.push(v);
            }
            proof {
                if p0.health is Some {
                    assert(wounded(p0, objects@[0], v as int));
                }
            }
        }
    }
}

/// One enemy's turn within the non-player phase: when the actor list, the map and the
/// enemy are in the state an activation expects, the enemy acts against the player's
/// current position and occupancy is rebuilt for `floor`, so that later enemies see
/// the move. Returns whether the enemy acted; if not, nothing changed.
pub fn enemy_turn(
    enemy_id: usize,
    objects: &mut Vec<Object>,
    map: &mut GameMap,
    floor: i32,
    rng: &mut RandomNumberGenerator,
    path_step: Option<usize>,
) -> (acted: bool)
    ensures
        acted == (1 <= enemy_id < old(objects)@.len() && old(map).wf() && old(objects)@[0].pos is Some
            && ready_to_act(old(objects)@[enemy_id as int], *old(map))),
        !acted ==> final(objects)@ == old(objects)@ && *final(map) == *old(map),
        acted ==> 1 <= enemy_id < old(objects)@.len() && old(objects)@[0].pos is Some && old(map).wf()
            && activation(old(objects)@, final(objects)@, enemy_id as int, *old(map), old(objects)@[0].pos->Some_0, path_step)
            && occupancy_matches(final(objects)@, *final(map), floor)
            && final(map).tiles@ == old(map).tiles@
            && final(map).visible@ == old(map).visible@
            && final(map).revealed@ == old(map).revealed@,
{
    if enemy_id == 0 || enemy_id >= objects.len() || !map.is_wf() {
        return false;
    }
    let player_pos = match objects[0].pos {
        Some(p) => p,
        None => { return false; },
    };
    let e = &objects[enemy_id];
    let ready = match (&e.pos, &e.viewshed, &e.ai) {
        (Some(p), Some(_), Some(ai)) => map.in_bounds(p.x, p.y) && heat_confined(&ai.tgt_heatmap, map),
        _ => true,
    };
    let rollable = match &e.damage {
        Some(d) => d.is_rollable(),
        None => true,
    };
    if !ready || !rollable {
        return false;
    }
    basic_enemy_ai(enemy_id, objects, map, rng, player_pos, path_step);
    update_blocked_tiles(objects, map, floor);
    true
}

/// Whether `p` is among the points of `v`.
pub fn coord_listed(v: &Vec<Coord>, p: Coord) -> (r: bool)
    ensures
        r == v@.contains(p),
{
    let mut i: usize = 0;
    while i < v.len()
        invariant
            i <= v@.len(),
            forall|j: int| 0 <= j < i ==> v@[j] != p,
        decreases v@.len() - i,
    {
        if v[i] == p {
            assert(v@[i as int] == p);
            return true;
        }
        i = i + 1;
    }
    false
}

} // verus!
