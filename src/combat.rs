use vstd::prelude::*;
use crate::logs::{LogBuffer, LogBufferTrait, LogMessage};
use crate::object::{ActorTag, ColorPair, Health, Object, Rgb, magnitude_of, sum_of};
use crate::spawn::make_corpse;

verus! {

/// Subtracting every pending wound from the current hit points cannot overflow.
pub open spec fn wounds_fit(h: Health) -> bool {
    h.current - magnitude_of(h.wounds@) >= i32::MIN && h.current + magnitude_of(h.wounds@) <= i32::MAX
}

/// Every actor with health can have its wounds resolved.
pub open spec fn all_wounds_fit(objects: Seq<Object>) -> bool {
    forall|k: int| 0 <= k < objects.len() ==> ((#[trigger] objects[k]).health matches Some(h) ==> wounds_fit(h))
}

/// Whether `wounds_fit` holds.
pub fn health_fits(h: &Health) -> (r: bool)
    ensures
        r == wounds_fit(*h),
{
    let mut mag: i64 = 0;
    let mut i: usize = 0;
    while i < h.wounds.len()
        invariant
            i <= h.wounds@.len(),
            mag == magnitude_of(h.wounds@.subrange(0, i as int)),
            0 <= mag <= 0x1_0000_0000,
        decreases h.wounds@.len() - i,
    {
        let m = h.wounds[i];
        proof {
            assert(h.wounds@.subrange(0, i + 1).drop_last() =~= h.wounds@.subrange(0, i as int));
        }
        mag = if m < 0 { mag - m as i64 } else { mag + m as i64 };
        i = i + 1;
        if mag > 0x1_0000_0000 - 0x8000_0001 {
            proof {
                crate::object::lemma_magnitude_prefix_pub(h.wounds@, i as int);
            }
            return false;
        }
    }
    assert(h.wounds@.subrange(0, i as int) =~= h.wounds@);
    h.current as i64 - mag >= i32::MIN as i64 && h.current as i64 + mag <= i32::MAX as i64
}

/// Whether `all_wounds_fit` holds.
pub fn wounds_all_fit(objects: &Vec<Object>) -> (r: bool)
    ensures
        r == all_wounds_fit(objects@),
{
    let mut i: usize = 0;
    while i < objects.len()
        invariant
            i <= objects@.len(),
            forall|k: int| 0 <= k < i ==> ((#[trigger] objects@[k]).health matches Some(h) ==> wounds_fit(h)),
        decreases objects@.len() - i,
    {
        if let Some(h) = &objects[i].health {
            if !health_fits(h) {
                return false;
            }
        }
        i = i + 1;
    }
    true
}

/// Hit points left once the pending wounds are taken.
pub open spec fn remaining(h: Health) -> int {
    h.current - sum_of(h.wounds@)
}

/// The health after resolving: wounds subtracted and cleared; any damage restarts the
/// wait before regeneration.
pub open spec fn health_resolved(h: Health, nh: Health) -> bool {
    &&& nh.current == remaining(h)
    &&& nh.max == h.max
    &&& nh.wounds@.len() == 0
    &&& nh.regen_timer == if sum_of(h.wounds@) > 0 { 0 } else { h.regen_timer }
}

/// What resolving wounds does to one actor: an actor with health takes its wounds; one
/// left at zero or below becomes a corpse where it stood (or stays, wounded, if it had
/// no position); an actor without health is untouched.
pub open spec fn wounds_resolved(before: Object, after: Object) -> bool {
    match before.health {
        None => after == before,
        Some(h) => if remaining(h) <= 0 && before.pos is Some {
            after.pos == before.pos && after.floor == before.floor && after.health is None && after.tag is None
                && !after.block_tile && after.ai is None && after.viewshed is None && after.initiative is None
        } else {
            &&& after.health is Some
            &&& health_resolved(h, after.health->Some_0)
            &&& after == (Object { health: after.health, ..before })
        },
    }
}

/// An actor whose wounds bring it to zero or below.
pub open spec fn slain(o: Object) -> bool {
    o.health is Some && remaining(o.health->Some_0) <= 0
}

proof fn lemma_sum_prefix_bounds(s: Seq<i32>, i: int)
    requires
        0 <= i <= s.len(),
    ensures
        -magnitude_of(s) <= sum_of(s.subrange(0, i)) <= magnitude_of(s),
{
    crate::object::lemma_sum_bounded_pub(s.subrange(0, i));
    crate::object::lemma_magnitude_prefix_pub(s, i);
}

/// Resolves the pending wounds of one health component; returns the damage total.
fn take_wounds(h: &mut Health) -> (total: i64)
    requires
        wounds_fit(*old(h)),
    ensures
        health_resolved(*old(h), *final(h)),
        total == sum_of(old(h).wounds@),
{
    let mut total: i64 = 0;
    let mut i: usize = 0;
    while i < h.wounds.len()
        invariant
            i <= h.wounds@.len(),
            h.wounds@ == old(h).wounds@,
            h.current == old(h).current,
            h.max == old(h).max,
            h.regen_timer == old(h).regen_timer,
            wounds_fit(*old(h)),
            total == sum_of(h.wounds@.subrange(0, i as int)),
        decreases h.wounds@.len() - i,
    {
        proof {
            lemma_sum_prefix_bounds(h.wounds@, i as int);
            assert(h.wounds@.subrange(0, i + 1).drop_last() =~= h.wounds@.subrange(0, i as int));
        }
        total = total + h.wounds[i] as i64;
        i = i + 1;
    }
    assert(h.wounds@.subrange(0, i as int) =~= h.wounds@);
    proof {
        crate::object::lemma_sum_bounded_pub(h.wounds@);
    }
    h.current = (h.current as i64 - total) as i32;
    if total > 0 {
        h.reset_regen();
    }
    h.wounds = Vec::new();
    total
}

fn name_of(obj: &Object, id: usize) -> String {
    if id == 0 {
        String::from_str("You")
    } else {
        match &obj.name {
            Some(n) => n.clone(),
            None => String::from_str("It"),
        }
    }
}

fn name_color(obj: &Object) -> ColorPair {
    let fg = match &obj.render {
        Some(r) => r.color.fg,
        None => Rgb::new(255, 255, 255),
    };
    ColorPair::new(fg, Rgb::new(25, 25, 25))
}

/// Applies every actor's pending wounds, logging the damage taken; actors left at zero
/// hit points or below are logged as slain and replaced by corpses in place, so no
/// other actor changes index. Sets `player_death` when a slain actor is the player.
pub fn proc_all_wounds(objects: &mut Vec<Object>, logs: &mut LogBuffer, player_death: &mut bool)
    requires
        all_wounds_fit(old(objects)@),
    ensures
        final(objects)@.len() == old(objects)@.len(),
        forall|k: int| 0 <= k < old(objects)@.len() ==> wounds_resolved(#[trigger] old(objects)@[k], final(objects)@[k]),
        *final(player_death) == (*old(player_death) || exists|k: int|
            0 <= k < old(objects)@.len() && slain(#[trigger] old(objects)@[k]) && old(objects)@[k].tag == Some(ActorTag::Player)),
{
    let n = objects.len();
    let mut id: usize = 0;
    while id < n
        invariant
            n == objects@.len(),
            n == old(objects)@.len(),
            id <= n,
            all_wounds_fit(old(objects)@),
            forall|k: int| 0 <= k < id ==> wounds_resolved(#[trigger] old(objects)@[k], objects@[k]),
            forall|k: int| id <= k < n ==> #[trigger] objects@[k] == old(objects)@[k],
            *player_death == (*old(player_death) || exists|k: int|
                0 <= k < id && slain(#[trigger] old(objects)@[k]) && old(objects)@[k].tag == Some(ActorTag::Player)),
        decreases n - id,
    {
        let ghost before = objects@;
        let ghost o = old(objects)@[id as int];
        if objects[id].health.is_some() {
            let name = name_of(&objects[id], id);
            let color = name_color(&objects[id]);
            let is_player = match objects[id].tag {
                Some(ActorTag::Player) => true,
                _ => false,
            };
            let had_wounds = match &objects[id].health {
                Some(h) => h.wounds.len() > 0,
                None => false,
            };
            let mut dead = false;
            let mut total: i64 = 0;
            {
                let obj = &mut objects[id];
                if let Some(h) = &mut obj.health {
                    total = take_wounds(h);
                    dead = h.current <= 0;
                }
            }
            if had_wounds {
                let verb = if id == 0 { "take" } else { "takes" };
                logs.update_logs(LogMessage::new().add_part(name.clone(), color).add_part(
                    damage_text(verb, total),
                    ColorPair::new(Rgb::new(255, 255, 255), Rgb::new(25, 25, 25)),
                ));
            }
            if dead {
                let verb = if id == 0 { "have been slain." } else { "has been slain." };
                logs.update_logs(LogMessage::new().add_part(name, color).add_part(
                    String::from_str(verb),
                    ColorPair::new(Rgb::new(255, 255, 255), Rgb::new(25, 25, 25)),
                ));
                if is_player {
                    *player_death = true;
                }
                if let Some(p) = objects[id].pos {
                    let fl = objects[id].floor;
                    objects.set(id, make_corpse(p, fl));
                }
            }
            proof {
                assert(forall|k: int| 0 <= k < n && k != id ==> objects@[k] == before[k]);
            }
        }
        id = id + 1;
    }
}

/// "`verb` `total` damage."
fn damage_text(verb: &str, total: i64) -> String {
    let mut s = String::from_str(verb);
    s.append(" ");
    let t = total.to_string();
    s.append(t.as_str());
    s.append(" damage.");
    s
}

/// One turn of regeneration for one actor.
pub open spec fn regenerated(o: Object, f: Object) -> bool {
    match o.health {
        None => f == o,
        Some(h) => f.health is Some && f == (Object { health: f.health, ..o }) && {
            let nh = f.health->Some_0;
            &&& nh.max == h.max
            &&& nh.wounds@ == h.wounds@
            &&& h.current >= h.max ==> nh.current == h.current && nh.regen_timer == 0
            &&& h.current < h.max && h.regen_timer + 1 >= crate::object::REGEN_INTERVAL ==> nh.current == h.current + 1 && nh.regen_timer == 0
            &&& h.current < h.max && h.regen_timer + 1 < crate::object::REGEN_INTERVAL ==> nh.current == h.current && nh.regen_timer == h.regen_timer + 1
        },
    }
}

/// One turn of regeneration for every actor.
pub open spec fn regen_step(o0: Seq<Object>, o1: Seq<Object>) -> bool {
    o1.len() == o0.len() && forall|k: int| 0 <= k < o0.len() ==> regenerated(#[trigger] o0[k], o1[k])
}

/// Wound resolution from `(o0, d0)` to `(o1, d1)`, where `d` is the player-death flag;
/// when some wound could overflow nothing happens.
pub open spec fn wounds_step(o0: Seq<Object>, o1: Seq<Object>, d0: bool, d1: bool) -> bool {
    if all_wounds_fit(o0) {
        &&& o1.len() == o0.len()
        &&& forall|k: int| 0 <= k < o0.len() ==> wounds_resolved(#[trigger] o0[k], o1[k])
        &&& d1 == (d0 || exists|k: int| 0 <= k < o0.len() && slain(#[trigger] o0[k]) && o0[k].tag == Some(ActorTag::Player))
    } else {
        o1 == o0 && d1 == d0
    }
}

/// Counts one turn of regeneration for every actor with health.
pub fn proc_regen(objects: &mut Vec<Object>)
    ensures
        regen_step(old(objects)@, final(objects)@),
{
    let n = objects.len();
    let mut i: usize = 0;
    while i < n
        invariant
            n == objects@.len(),
            n == old(objects)@.len(),
            i <= n,
            forall|k: int| i <= k < n ==> #[trigger] objects@[k] == old(objects)@[k],
            forall|k: int| 0 <= k < i ==> regenerated(#[trigger] old(objects)@[k], objects@[k]),
        decreases n - i,
    {
        let obj = &mut objects[i];
        if let Some(h) = &mut obj.health {
            h.check_regen();
        }
        i = i + 1;
    }
}

} // verus!
