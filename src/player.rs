use vstd::prelude::*;
use crate::actions::{can_roll, moved_to, wounded};
use crate::camera::{centred_on, framable};
use crate::geometry::Coord;
use crate::input::{Actions, spec_move_delta};
use crate::logs::{LogBuffer, LogBufferTrait, LogMessage};
use crate::map::TileClass;
use crate::object::{ActorTag, ColorPair, Object, Rgb};
use crate::spawn::{SpawnEntry, table_drawable};
use crate::state::{TurnFlags, World};
use bracket_random::prelude::RandomNumberGenerator;

verus! {

/// Actor `k` is an enemy with health standing at `dest` on `floor`: a target for the player.
pub open spec fn enemy_at(objects: Seq<Object>, k: int, dest: Coord, floor: i32) -> bool {
    &&& 1 <= k < objects.len()
    &&& objects[k].pos == Some(dest)
    &&& objects[k].floor == floor
    &&& objects[k].tag == Some(ActorTag::Enemy)
    &&& objects[k].health is Some
}

/// What striking at `dest` does: `hit` says whether an enemy stands there on the
/// player's floor; the last such enemy takes a wound of a roll of the player's damage
/// (none without damage), and nothing else changes.
pub open spec fn strike(before: Seq<Object>, after: Seq<Object>, dest: Coord, hit: bool) -> bool {
    &&& hit == exists|k: int| enemy_at(before, k, dest, before[0].floor)
    &&& !hit ==> after == before
    &&& hit ==> exists|k: int| {
        &&& enemy_at(before, k, dest, before[0].floor)
        &&& forall|j: int| k < j < before.len() ==> !enemy_at(before, j, dest, before[0].floor)
        &&& if before[0].damage is Some {
            exists|r: int| can_roll(before[0].damage->Some_0, r) && wounded(before[k], after[k], r)
                && after == before.update(k, after[k])
        } else {
            after == before
        }
    }
}

/// Strikes the last enemy standing at `dest` on the player's floor, if any; returns
/// whether there was one.
pub fn try_attack_player(objects: &mut Vec<Object>, dest: Coord, rng: &mut RandomNumberGenerator) -> (hit: bool)
    requires
        old(objects)@.len() >= 1,
        old(objects)@[0].damage matches Some(d) ==> d.rollable(),
    ensures
        strike(old(objects)@, final(objects)@, dest, hit),
{
    let floor = objects[0].floor;
    let mut k: usize = objects.len();
    while k > 1
        invariant
            1 <= k <= objects@.len(),
            objects@ == old(objects)@,
            floor == old(objects)@[0].floor,
            old(objects)@[0].damage matches Some(d) ==> d.rollable(),
            forall|j: int| k <= j < objects@.len() ==> !enemy_at(objects@, j, dest, floor),
        decreases k,
    {
        let o = &objects[k - 1];
        let is_enemy = match o.tag {
            Some(ActorTag::Enemy) => true,
            _ => false,
        };
        if o.pos == Some(dest) && o.floor == floor && is_enemy && o.health.is_some() {
            let t = k - 1;
            let ghost before = objects@;
            let dmg = match &objects[0].damage {
                Some(d) => Some(d.roll(rng)),
                None => None,
            };
            if let Some(v) = dmg {
                let target = &mut objects[t];
                if let Some(h) = &mut target.health {
                    h.wounds.push(v);
                }
                proof {
                    assert(objects@ == before.update(t as int, objects@[t as int]));
                    assert(wounded(before[t as int], objects@[t as int], v as int));
                    assert(can_roll(old(objects)@[0].damage->Some_0, v as int));
                }
            }
            assert(enemy_at(old(objects)@, t as int, dest, floor));
            assert(forall|j: int| t < j < old(objects)@.len() ==> !enemy_at(old(objects)@, j, dest, floor));
            assert(if old(objects)@[0].damage is Some {
                exists|r: int| can_roll(old(objects)@[0].damage->Some_0, r) && wounded(old(objects)@[t as int], objects@[t as int], r)
                    && objects@ == old(objects)@.update(t as int, objects@[t as int])
            } else {
                objects@ == old(objects)@
            });
            return true;
        }
        k = k - 1;
    }
    proof {
        assert forall|j: int| !enemy_at(old(objects)@, j, dest, floor) by {
            if 1 <= j < objects@.len() {
            }
        }
    }
    false
}

/// The player stood at `p`, the tile at `p + delta` could be walked on, and the player
/// moved there with the camera re-centred on it.
pub open spec fn player_stepped(before: World, after: World, delta: (i32, i32)) -> bool {
    &&& before.objects@.len() >= 1
    &&& before.objects@[0].pos is Some
    &&& {
        let p = before.objects@[0].pos->Some_0;
        let dest = Coord { x: (p.x + delta.0) as i32, y: (p.y + delta.1) as i32 };
        &&& before.active_map.spec_walkable(p.x + delta.0, p.y + delta.1)
        &&& moved_to(before.objects@[0], after.objects@[0], dest)
        &&& after.objects@ == before.objects@.update(0, after.objects@[0])
        &&& centred_on(after.camera, dest)
    }
}

/// The player can act on a move: the world has a player with a position far enough
/// from the bounds of an `i32`, and the map is well formed.
pub open spec fn can_move(w: World) -> bool {
    &&& w.objects@.len() >= 1
    &&& w.active_map.wf()
    &&& w.objects@[0].pos is Some
    &&& i32::MIN + 41 < w.objects@[0].pos->Some_0.x < i32::MAX - 41
    &&& i32::MIN + 31 < w.objects@[0].pos->Some_0.y < i32::MAX - 31
}

/// What a move by `delta` does: onto a walkable tile the player steps there; otherwise
/// a player whose damage can be rolled strikes at the tile, and the move used the turn
/// exactly when it stepped or hit.
pub open spec fn player_move(before: World, after: World, delta: (i32, i32), used: bool) -> bool {
    let p = before.objects@[0].pos->Some_0;
    let dest = Coord { x: (p.x + delta.0) as i32, y: (p.y + delta.1) as i32 };
    &&& after.active_map == before.active_map
    &&& after.depth == before.depth
    &&& !can_move(before) ==> !used && after.objects@ == before.objects@
    &&& can_move(before) && before.active_map.spec_walkable(dest.x as int, dest.y as int) ==> used
        && player_stepped(before, after, delta)
    &&& can_move(before) && !before.active_map.spec_walkable(dest.x as int, dest.y as int) ==> {
        if before.objects@[0].damage matches Some(d) && !d.rollable() {
            !used && after.objects@ == before.objects@
        } else {
            strike(before.objects@, after.objects@, dest, used)
        }
    }
}

/// Moves the player (actor 0) by a unit offset when the destination can be walked on,
/// re-centring the camera; otherwise strikes an enemy standing there. Returns whether
/// the action used the turn. Nothing happens without a placed player, a well-formed
/// map, or room around the player's position.
pub fn try_move_player(world: &mut World, delta: (i32, i32)) -> (used: bool)
    requires
        -1 <= delta.0 <= 1,
        -1 <= delta.1 <= 1,
    ensures
        player_move(*old(world), *final(world), delta, used),
{
    if world.objects.len() == 0 || !world.active_map.is_wf() {
        return false;
    }
    let pos = match world.objects[0].pos {
        Some(p) => p,
        None => { return false; },
    };
    if pos.x <= i32::MIN + 41 || pos.x >= i32::MAX - 41 || pos.y <= i32::MIN + 31 || pos.y >= i32::MAX - 31 {
        return false;
    }
    let dest = pos.offset(delta.0, delta.1);
    if world.active_map.walkable(dest.x, dest.y) {
        let p = &mut world.objects[0];
        p.try_move(dest, &world.active_map);
        world.camera.move_camera(dest);
        true
    } else {
        let rollable = match &world.objects[0].damage {
            Some(d) => d.is_rollable(),
            None => true,
        };
        if !rollable {
            return false;
        }
        try_attack_player(&mut world.objects, dest, &mut world.rng)
    }
}

/// The player stands on a down-stair.
pub open spec fn on_stairs(world: World) -> bool {
    &&& world.objects@.len() >= 1
    &&& world.active_map.wf()
    &&& world.objects@[0].pos is Some
    &&& world.active_map.spec_in_bounds(world.objects@[0].pos->Some_0.x as int, world.objects@[0].pos->Some_0.y as int)
    &&& world.active_map.tile_at(world.objects@[0].pos->Some_0) == TileClass::DownStair
}

pub fn on_down_stairs(world: &World) -> (r: bool)
    ensures
        r == on_stairs(*world),
{
    if world.objects.len() == 0 || !world.active_map.is_wf() {
        return false;
    }
    match world.objects[0].pos {
        Some(p) => {
            if !world.active_map.in_bounds(p.x, p.y) {
                return false;
            }
            let i = world.active_map.index(p.x, p.y);
            match world.active_map.tiles[i] {
                TileClass::DownStair => true,
                _ => false,
            }
        },
        None => false,
    }
}

/// Descends when the player stands on a down-stair, drawing the new level's enemies
/// from `table`; logs the outcome. Returns whether the player descended.
pub fn try_go_downstairs(world: &mut World, logs: &mut LogBuffer, table: &Vec<SpawnEntry>) -> (went: bool)
    ensures
        went ==> on_stairs(*old(world)) && final(world).depth == old(world).depth + 1,
        !went ==> final(world).objects@ == old(world).objects@ && final(world).depth == old(world).depth,
        on_stairs(*old(world)) && old(world).depth < i32::MAX && old(world).objects@[0].in_inventory is None
            && 0 < crate::spawn::total_weight(table@) <= i32::MAX ==> went,
{
    let grey = ColorPair::new(Rgb::new(166, 166, 166), Rgb::new(25, 25, 25));
    if on_down_stairs(world) && world.depth < i32::MAX && world.objects[0].in_inventory.is_none() && table_drawable(table) {
        let mut text = String::from_str("Descending to level ");
        let d = (world.depth + 1).to_string();
        text.append(d.as_str());
        text.append("...");
        logs.update_logs(LogMessage::new().add_part(text, grey));
        world.descend_to_next(table);
        true
    } else {
        logs.update_logs(LogMessage::new().add_part(String::from_str("No stairs to descend!"), grey));
        false
    }
}

/// Carries out one player intent and marks the systems to run; an intent that used the
/// turn (a wait, a pick-up, a move or strike, a descent) passes the turn. `stairs_table`
/// is the spawn table of the next level, needed only to descend.
pub fn process_action(world: &mut World, logs: &mut LogBuffer, flags: &mut TurnFlags, action: Actions, stairs_table: Option<&Vec<SpawnEntry>>) -> (used: bool)
    ensures
        final(flags).proc,
        final(flags).passed == (old(flags).passed || used),
        final(flags).turn_state == old(flags).turn_state,
        action == Actions::Wait || action == Actions::TryPickUp ==> used && *final(world) == *old(world),
        spec_move_delta(action) is Some ==> player_move(*old(world), *final(world), spec_move_delta(action)->Some_0, used),
        action == Actions::TryGoDown && stairs_table is None ==> !used && *final(world) == *old(world),
        action == Actions::TryGoDown && stairs_table is Some ==> (used ==> on_stairs(*old(world))
            && final(world).depth == old(world).depth + 1) && (!used ==> final(world).objects@ == old(world).objects@),
{
    let used = match action {
        Actions::Wait => true,
        Actions::TryPickUp => true,
        Actions::TryGoDown => match stairs_table {
            Some(t) => try_go_downstairs(world, logs, t),
            None => false,
        },
        _ => match action.move_delta() {
            Some(d) => try_move_player(world, d),
            None => false,
        },
    };
    flags.proc = true;
    if used {
        flags.passed = true;
    }
    used
}

} // verus!
