use vstd::prelude::*;
use crate::equip::{carried, owner_of};
use crate::inventory::{EffectType, ItemEffect};
use crate::logs::{LogBuffer, LogBufferTrait, LogMessage};
use crate::object::{ColorPair, Object, Rgb};
use crate::rng::rng_roll_dice;
use bracket_random::prelude::RandomNumberGenerator;

verus! {

/// A healing effect whose dice (count, sides) can be rolled.
pub open spec fn drinkable(e: ItemEffect) -> bool {
    &&& e.etype == EffectType::HealSelf
    &&& e.params is Some
    &&& e.params->Some_0@.len() >= 2
    &&& 0 <= e.params->Some_0@[0]
    &&& 1 <= e.params->Some_0@[1] < i32::MAX
    &&& e.params->Some_0@[0] * e.params->Some_0@[1] <= i32::MAX
}

/// The least total the healing effects of `es` can roll.
pub open spec fn roll_low(es: Seq<ItemEffect>) -> int
    decreases es.len(),
{
    if es.len() == 0 {
        0
    } else {
        roll_low(es.drop_last()) + if drinkable(es.last()) { es.last().params->Some_0@[0] as int } else { 0 }
    }
}

/// The greatest total the healing effects of `es` can roll.
pub open spec fn roll_high(es: Seq<ItemEffect>) -> int
    decreases es.len(),
{
    if es.len() == 0 {
        0
    } else {
        roll_high(es.drop_last()) + if drinkable(es.last()) {
            es.last().params->Some_0@[0] * es.last().params->Some_0@[1]
        } else {
            0
        }
    }
}

/// `c + t`, but no more than `max`.
pub open spec fn capped(c: int, t: int, max: int) -> int {
    if c + t > max {
        max
    } else {
        c + t
    }
}

/// `b` has `a`'s hit points raised by some total roll of the healing effects of `es`,
/// up to the maximum (when `a` started at or below it).
pub open spec fn healed_by_rolls(a: Object, b: Object, es: Seq<ItemEffect>) -> bool {
    let h = a.health->Some_0;
    a.health is Some && h.current <= h.max ==> exists|total: int|
        roll_low(es) <= total <= roll_high(es) && b.health->Some_0.current == #[trigger] capped(h.current as int, total, h.max as int)
}

/// The item is used up by drinking: its effects were already applied or one of them heals.
pub open spec fn drunk(item: Object) -> bool {
    let st = item.item_stats->Some_0;
    st.effects_applied || exists|i: int| 0 <= i < st.effects@.len() && drinkable(#[trigger] st.effects@[i])
}

/// `b` is `a` with possibly more hit points, never above the maximum (nor lowered).
pub open spec fn healed_from(a: Object, b: Object) -> bool {
    &&& b == (Object { health: b.health, ..a })
    &&& (a.health is None <==> b.health is None)
    &&& a.health matches Some(h) ==> {
        let h2 = b.health->Some_0;
        &&& h2.max == h.max
        &&& h2.wounds@ == h.wounds@
        &&& h2.regen_timer == h.regen_timer
        &&& (h.current <= h.max ==> h.current <= h2.current <= h.max)
        &&& (h.current > h.max ==> h2.current == h.current)
    }
}

/// Drinks a carried item: each healing effect rolls its dice and heals the owner by
/// the roll (up to the maximum), logging the amount; an item so used is removed from
/// the actor list. Nothing changes for an item that is not carried.
pub fn drink_object(objects: &mut Vec<Object>, source: usize, logs: &mut LogBuffer, rng: &mut RandomNumberGenerator)
    ensures
        !carried(old(objects)@, source as int) ==> final(objects)@ == old(objects)@,
        carried(old(objects)@, source as int) ==> exists|no: Object|
            healed_from(old(objects)@[owner_of(old(objects)@, source as int)], no)
            && healed_by_rolls(old(objects)@[owner_of(old(objects)@, source as int)], no, old(objects)@[source as int].item_stats->Some_0.effects@)
            && final(objects)@ == if drunk(
                old(objects)@[source as int],
            ) {
                old(objects)@.update(owner_of(old(objects)@, source as int), no).remove(source as int)
            } else {
                old(objects)@
            },
{
    if source >= objects.len() {
        return;
    }
    let owner = match &objects[source].in_inventory {
        Some(inv) => inv.owner_id,
        None => { return; },
    };
    if owner >= objects.len() || owner == source || objects[source].item_stats.is_none() {
        return;
    }
    let name = match &objects[source].name {
        Some(n) => n.clone(),
        None => String::from_str("NIL"),
    };
    let color = match &objects[source].render {
        Some(r) => r.color.fg,
        None => Rgb::new(255, 255, 255),
    };
    let ghost o0 = objects@;
    let mut stats = {
        let item = &mut objects[source];
        item.item_stats.take().unwrap()
    };
    let ghost st0 = stats;
    let ghost mut total_roll: int = 0;
    let mut i: usize = 0;
    while i < stats.effects.len()
        invariant
            owner < objects@.len(),
            source < objects@.len(),
            owner != source,
            objects@.len() == o0.len(),
            stats.effects@ == st0.effects@,
            stats == (crate::inventory::ItemStats { effects_applied: stats.effects_applied, ..st0 }),
            stats.effects_applied == (st0.effects_applied || exists|j: int| 0 <= j < i && drinkable(#[trigger] st0.effects@[j])),
            i <= stats.effects@.len(),
            healed_from(o0[owner as int], objects@[owner as int]),
            o0[owner as int].health is Some && o0[owner as int].health->Some_0.current <= o0[owner as int].health->Some_0.max
                ==> roll_low(st0.effects@.subrange(0, i as int)) <= total_roll <= roll_high(st0.effects@.subrange(0, i as int))
                && objects@[owner as int].health->Some_0.current == if o0[owner as int].health->Some_0.current + total_roll
                    > o0[owner as int].health->Some_0.max {
                    o0[owner as int].health->Some_0.max as int
                } else {
                    o0[owner as int].health->Some_0.current + total_roll
                },
            !stats.effects_applied ==> objects@[owner as int] == o0[owner as int],
            o0[source as int].item_stats == Some(st0),
            objects@[source as int] == (Object { item_stats: None, ..o0[source as int] }),
            forall|k: int| 0 <= k < o0.len() && k != owner && k != source ==> #[trigger] objects@[k] == o0[k],
        decreases stats.effects@.len() - i,
    {
        let e = &stats.effects[i];
        let mut heals = false;
        if let (EffectType::HealSelf, Some(ps)) = (e.etype, &e.params) {
            if ps.len() >= 2 {
                let n = ps[0];
                let die = ps[1];
                let nn = n as i64;
                let dd = die as i64;
                assert(-0x8000_0000_0000_0000 < nn * dd < 0x4000_0000_0000_0001) by (nonlinear_arith)
                    requires -0x8000_0000 <= nn <= 0x7fff_ffff, -0x8000_0000 <= dd <= 0x7fff_ffff;
                if 0 <= n && 1 <= die && die < i32::MAX && nn * dd <= i32::MAX as i64 {
                    heals = true;
                    let roll = rng_roll_dice(rng, n, die);
                    let ghost before = objects@;
                    let mut healed: i32 = 0;
                    let mut did = false;
                    {
                        let o = &mut objects[owner];
                        if let Some(h) = &mut o.health {
                            if h.current <= h.max {
                                healed = h.heal(roll);
                                did = true;
                            }
                        }
                    }
                    proof {
                        assert(objects@ == before.update(owner as int, objects@[owner as int]));
                        total_roll = total_roll + roll;
                    }
                    if did {
                        let amount = healed.to_string();
                        let white = ColorPair::new(Rgb::new(255, 255, 255), Rgb::new(25, 25, 25));
                        logs.update_logs(LogMessage::new()
                            .add_part(String::from_str("You drink the"), white)
                            .add_part(name.clone(), ColorPair::new(color, Rgb::new(25, 25, 25)))
                            .add_part(String::from_str("healing you for"), white)
                            .add_part(amount, ColorPair::new(Rgb::new(255, 215, 0), Rgb::new(25, 25, 25)))
                            .add_part(String::from_str("points."), white));
                    }
                }
            }
        }
        proof {
            assert(st0.effects@.subrange(0, i + 1).drop_last() =~= st0.effects@.subrange(0, i as int));
            assert(st0.effects@.subrange(0, i + 1).last() == st0.effects@[i as int]);
        }
        if heals {
            stats.effects_applied = true;
            assert(drinkable(st0.effects@[i as int]));
        } else {
            assert(!drinkable(st0.effects@[i as int]));
        }
        i = i + 1;
    }
    let used = stats.effects_applied;
    {
        let item = &mut objects[source];
        item.item_stats = Some(stats);
    }
    let ghost no = objects@[owner as int];
    if used {
        objects.remove(source);
        assert(objects@ =~= o0.update(owner as int, no).remove(source as int));
    } else {
        assert(no == o0[owner as int]);
        assert(objects@ =~= o0);
    }
    assert(st0.effects@.subrange(0, st0.effects@.len() as int) =~= st0.effects@);
    proof {
        if o0[owner as int].health is Some && o0[owner as int].health->Some_0.current <= o0[owner as int].health->Some_0.max {
            let h = o0[owner as int].health->Some_0;
            assert(no.health->Some_0.current == capped(h.current as int, total_roll, h.max as int));
        }
    }
    assert(healed_by_rolls(o0[owner as int], no, st0.effects@));
    assert(drunk(o0[source as int]) == used);
    assert(owner_of(o0, source as int) == owner);
    assert(healed_from(o0[owner_of(o0, source as int)], no)
        && healed_by_rolls(o0[owner_of(o0, source as int)], no, o0[source as int].item_stats->Some_0.effects@)
        && objects@ == if drunk(o0[source as int]) {
        o0.update(owner_of(o0, source as int), no).remove(source as int)
    } else {
        o0
    });
}

} // verus!
