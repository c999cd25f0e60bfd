use vstd::prelude::*;
use crate::geometry::Coord;
use crate::map::GameMap;
use crate::object::{Damage, Object, Viewshed, sum_of};
use bracket_random::prelude::RandomNumberGenerator;

verus! {

/// `after` is `before` standing at `dest`, with its sight marked for refresh.
pub open spec fn moved_to(before: Object, after: Object, dest: Coord) -> bool {
    &&& after.pos == Some(dest)
    &&& after.viewshed == (match before.viewshed {
        Some(v) => Some(Viewshed { refresh: true, ..v }),
        None => None,
    })
    &&& after == (Object { pos: after.pos, viewshed: after.viewshed, ..before })
}

/// `r` is a total that `d` can roll.
pub open spec fn can_roll(d: Damage, r: int) -> bool {
    d.dice + sum_of(d.modifiers@) <= r <= d.dice * d.val + sum_of(d.modifiers@)
}

/// `after` is `before` with one more wound, of `amount`.
pub open spec fn wounded(before: Object, after: Object, amount: int) -> bool {
    let h0 = before.health->Some_0;
    let h1 = after.health->Some_0;
    &&& before.health is Some
    &&& after.health is Some
    &&& h1.wounds@ == h0.wounds@.push(amount as i32)
    &&& h1.max == h0.max
    &&& h1.current == h0.current
    &&& h1.regen_timer == h0.regen_timer
    &&& after == (Object { health: after.health, ..before })
}

impl Object {
    /// Moves to `dest` if the actor is placed and `dest` can be walked on; a move
    /// marks the actor's sight for refresh.
    pub fn try_move(&mut self, dest: Coord, map: &GameMap)
        requires
            map.wf(),
        ensures
            if old(self).pos is Some && map.spec_walkable(dest.x as int, dest.y as int) {
                moved_to(*old(self), *final(self), dest)
            } else {
                *final(self) == *old(self)
            },
    {
        if self.pos.is_some() && map.walkable(dest.x, dest.y) {
            self.pos = Some(dest);
            match &mut self.viewshed {
                Some(v) => {
                    v.refresh = true;
                },
                None => {},
            }
        }
    }

    /// Rolls this actor's damage and adds it as a wound to `target`, when this actor
    /// deals damage and the target has health; otherwise nothing happens.
    pub fn try_attack(&self, target: &mut Object, rng: &mut RandomNumberGenerator)
        requires
            self.damage matches Some(d) ==> d.rollable(),
        ensures
            if self.damage is Some && old(target).health is Some {
                exists|r: int| can_roll(self.damage->Some_0, r) && wounded(*old(target), *final(target), r)
            } else {
                *final(target) == *old(target)
            },
    {
        if let Some(d) = &self.damage {
            if let Some(h) = &mut target.health {
                let v = d.roll(rng);
                h.wounds.push(v);
                assert(can_roll(*d, v as int));
            }
        }
    }
}

} // verus!
