use vstd::prelude::*;
use crate::inventory::{EffectType, ItemEffect, ItemStats};
use crate::logs::{LogBuffer, LogBufferTrait, LogMessage};
use crate::object::{ColorPair, Damage, EquipSlot, Health, Object, Rgb};

verus! {

/// `v` clamped to the range of an `i32`.
pub open spec fn sat(v: int) -> i32 {
    if v > i32::MAX {
        i32::MAX
    } else if v < i32::MIN {
        i32::MIN
    } else {
        v as i32
    }
}

fn sat_i64(v: i64) -> (r: i32)
    ensures
        r == sat(v as int),
{
    if v > i32::MAX as i64 {
        i32::MAX
    } else if v < i32::MIN as i64 {
        i32::MIN
    } else {
        v as i32
    }
}

/// The `i`-th parameter of an effect, negated when its bonus is being taken back.
pub open spec fn param(e: ItemEffect, i: int, clean: bool) -> int {
    let p = e.params->Some_0@[i] as int;
    if clean && e.on_equip && e.etype != EffectType::WeaponDamage {
        -p
    } else {
        p
    }
}

pub open spec fn has_params(e: ItemEffect, n: int) -> bool {
    e.params is Some && e.params->Some_0@.len() >= n
}

/// One item effect applied to its owner (or taken back when `clean`): healing and
/// maximum-health bonuses add to health, a weapon sets the damage dice (back to the
/// default when taken off). Additions saturate at the bounds of an `i32`.
pub open spec fn apply_effect(o: Object, e: ItemEffect, clean: bool) -> Object {
    match e.etype {
        EffectType::HealSelf => match o.health {
            Some(h) => if has_params(e, 1) {
                Object { health: Some(Health { current: sat(h.current + param(e, 0, clean)), ..h }), ..o }
            } else {
                o
            },
            None => o,
        },
        EffectType::WeaponDamage => match o.damage {
            Some(d) => if clean {
                Object { damage: Some(Damage { dice: 1, val: 4, ..d }), ..o }
            } else if has_params(e, 2) {
                Object { damage: Some(Damage { dice: e.params->Some_0@[0], val: e.params->Some_0@[1], ..d }), ..o }
            } else {
                o
            },
            None => o,
        },
        EffectType::HealthUp => match o.health {
            Some(h) => if has_params(e, 1) {
                Object {
                    health: Some(Health { max: sat(h.max + param(e, 0, clean)), current: sat(h.current + param(e, 0, clean)), ..h }),
                    ..o
                }
            } else {
                o
            },
            None => o,
        },
        _ => o,
    }
}

/// The effects applied in order.
pub open spec fn apply_effects(o: Object, es: Seq<ItemEffect>, clean: bool) -> Object
    decreases es.len(),
{
    if es.len() == 0 {
        o
    } else {
        apply_effect(apply_effects(o, es.drop_last(), clean), es.last(), clean)
    }
}

/// The item at `item_id` is carried by an actor in the list and has item stats.
pub open spec fn carried(objects: Seq<Object>, item_id: int) -> bool {
    &&& 0 <= item_id < objects.len()
    &&& objects[item_id].in_inventory is Some
    &&& objects[item_id].in_inventory->Some_0.owner_id < objects.len()
    &&& objects[item_id].item_stats is Some
    &&& objects[item_id].in_inventory->Some_0.owner_id != item_id
}

pub open spec fn owner_of(objects: Seq<Object>, item_id: int) -> int {
    objects[item_id].in_inventory->Some_0.owner_id as int
}

/// The actor list after the item's effects are marked applied and applied to (or,
/// when `clean`, taken back from) its owner.
pub open spec fn with_effects(o: Seq<Object>, item_id: int, clean: bool) -> Seq<Object> {
    let owner = owner_of(o, item_id);
    let stats = o[item_id].item_stats->Some_0;
    let marked = o.update(
        item_id,
        Object { item_stats: Some(ItemStats { effects_applied: true, ..stats }), ..o[item_id] },
    );
    marked.update(owner, apply_effects(marked[owner], stats.effects@, clean))
}

/// The list with the item's equipped flag set to `flag`.
pub open spec fn set_equipped(o: Seq<Object>, item_id: int, flag: bool) -> Seq<Object> {
    let stats = o[item_id].item_stats->Some_0;
    o.update(item_id, Object { item_stats: Some(ItemStats { equipped: flag, ..stats }), ..o[item_id] })
}

/// An equipped item in slot `t` keeps slot `s` from being used: a two-handed item
/// takes both hands, a one-handed item its hand and any two-handed use, anything else
/// its own slot.
pub open spec fn slot_blocks(t: EquipSlot, s: EquipSlot) -> bool {
    if t == EquipSlot::TwoHand {
        s == EquipSlot::MainHand || s == EquipSlot::OffHand || s == EquipSlot::TwoHand
    } else if t == EquipSlot::MainHand || t == EquipSlot::OffHand || t == EquipSlot::AnyHand {
        s == EquipSlot::TwoHand || s == t
    } else {
        s == t
    }
}

/// The actor is an equipped item of `owner` with a slot.
pub open spec fn equipped_by(o: Object, owner: usize) -> bool {
    &&& o.in_inventory matches Some(inv) && inv.owner_id == owner
    &&& o.item_stats matches Some(st) && st.equipped
    &&& o.equip_slot is Some
}

/// No item that `owner` has equipped keeps slot `s` from being used.
pub open spec fn slot_free(objects: Seq<Object>, owner: usize, s: EquipSlot) -> bool {
    forall|k: int| 0 <= k < objects.len() && equipped_by(#[trigger] objects[k], owner) ==> !slot_blocks(objects[k].equip_slot->Some_0, s)
}

fn blocks_exec(t: EquipSlot, s: EquipSlot) -> (r: bool)
    ensures
        r == slot_blocks(t, s),
{
    match t {
        EquipSlot::TwoHand => s == EquipSlot::MainHand || s == EquipSlot::OffHand || s == EquipSlot::TwoHand,
        EquipSlot::MainHand | EquipSlot::OffHand | EquipSlot::AnyHand => s == EquipSlot::TwoHand || s == t,
        _ => s == t,
    }
}

fn is_slot_free(objects: &Vec<Object>, owner: usize, s: EquipSlot) -> (r: bool)
    ensures
        r == slot_free(objects@, owner, s),
{
    let mut i: usize = 0;
    while i < objects.len()
        invariant
            i <= objects@.len(),
            forall|k: int| 0 <= k < i && equipped_by(#[trigger] objects@[k], owner) ==> !slot_blocks(objects@[k].equip_slot->Some_0, s),
        decreases objects@.len() - i,
    {
        let o = &objects[i];
        if let (Some(inv), Some(st), Some(t)) = (&o.in_inventory, &o.item_stats, o.equip_slot) {
            if inv.owner_id == owner && st.equipped && blocks_exec(t, s) {
                assert(equipped_by(objects@[i as int], owner));
                return false;
            }
        }
        i = i + 1;
    }
    true
}

fn item_name(o: &Object) -> String {
    match &o.name {
        Some(n) => n.clone(),
        None => String::from_str("NIL"),
    }
}

fn item_color(o: &Object) -> Rgb {
    match &o.render {
        Some(r) => r.color.fg,
        None => Rgb::new(255, 255, 255),
    }
}

fn log_item(logs: &mut LogBuffer, text: &str, name: String, color: Rgb) {
    let mut label = name;
    label.append(".");
    logs.update_logs(LogMessage::new().add_part(String::from_str(text), ColorPair::new(Rgb::new(255, 255, 255), Rgb::new(25, 25, 25))).add_part(
        label,
        ColorPair::new(color, Rgb::new(25, 25, 25)),
    ));
}

fn set_equipped_flag(objects: &mut Vec<Object>, item_id: usize, flag: bool)
    requires
        item_id < old(objects)@.len(),
        old(objects)@[item_id as int].item_stats is Some,
    ensures
        final(objects)@ == set_equipped(old(objects)@, item_id as int, flag),
{
    let item = &mut objects[item_id];
    if let Some(st) = &mut item.item_stats {
        st.equipped = flag;
    }
}

/// Equips a carried item when no item its owner has equipped keeps its slot from
/// being used, applying its effects to the owner; logs the outcome. Nothing changes
/// for an item that is not carried or has no slot.
pub fn equip_object(objects: &mut Vec<Object>, source: usize, logs: &mut LogBuffer)
    ensures
        !(carried(old(objects)@, source as int) && old(objects)@[source as int].equip_slot is Some) ==> final(objects)@ == old(objects)@,
        carried(old(objects)@, source as int) && old(objects)@[source as int].equip_slot is Some ==> {
            let o = old(objects)@;
            let owner = o[source as int].in_inventory->Some_0.owner_id;
            if slot_free(o, owner, o[source as int].equip_slot->Some_0) {
                final(objects)@ == with_effects(set_equipped(o, source as int, true), source as int, false)
            } else {
                final(objects)@ == o
            }
        },
{
    if source >= objects.len() {
        return;
    }
    let owner = match &objects[source].in_inventory {
        Some(inv) => inv.owner_id,
        None => { return; },
    };
    let slot = match objects[source].equip_slot {
        Some(s) => s,
        None => { return; },
    };
    if owner >= objects.len() || owner == source || objects[source].item_stats.is_none() {
        return;
    }
    let name = item_name(&objects[source]);
    let color = item_color(&objects[source]);
    if !is_slot_free(objects, owner, slot) {
        log_item(logs, "You cannot equip the", name, color);
    } else {
        set_equipped_flag(objects, source, true);
        process_effect_modifiers(objects, source, false);
        log_item(logs, "You equip the", name, color);
    }
}

/// Unequips a carried item and takes its effects back from the owner; logs it.
/// Nothing changes for an item that is not carried.
pub fn unequip_object(objects: &mut Vec<Object>, source: usize, logs: &mut LogBuffer)
    ensures
        !carried(old(objects)@, source as int) ==> final(objects)@ == old(objects)@,
        carried(old(objects)@, source as int) ==> final(objects)@ == with_effects(set_equipped(old(objects)@, source as int, false), source as int, true),
{
    if source >= objects.len() {
        return;
    }
    let owner = match &objects[source].in_inventory {
        Some(inv) => inv.owner_id,
        None => { return; },
    };
    if owner >= objects.len() || owner == source || objects[source].item_stats.is_none() {
        return;
    }
    let name = item_name(&objects[source]);
    let color = item_color(&objects[source]);
    set_equipped_flag(objects, source, false);
    process_effect_modifiers(objects, source, true);
    log_item(logs, "You unequip the", name, color);
}

fn apply_one(o: &mut Object, e: &ItemEffect, clean: bool)
    ensures
        *final(o) == apply_effect(*old(o), *e, clean),
{
    match e.etype {
        EffectType::HealSelf => {
            if let (Some(h), Some(ps)) = (&mut o.health, &e.params) {
                if ps.len() >= 1 {
                    let p = signed(ps[0], e, clean);
                    h.current = sat_i64(h.current as i64 + p);
                }
            }
        },
        EffectType::WeaponDamage => {
            if let Some(d) = &mut o.damage {
                if clean {
                    let (dice, val) = Damage::get_default_damage();
                    d.dice = dice;
                    d.val = val;
                } else if let Some(ps) = &e.params {
                    if ps.len() >= 2 {
                        d.dice = ps[0];
                        d.val = ps[1];
                    }
                }
            }
        },
        EffectType::HealthUp => {
            if let (Some(h), Some(ps)) = (&mut o.health, &e.params) {
                if ps.len() >= 1 {
                    let p = signed(ps[0], e, clean);
                    h.max = sat_i64(h.max as i64 + p);
                    h.current = sat_i64(h.current as i64 + p);
                }
            }
        },
        _ => {},
    }
}

fn signed(p: i32, e: &ItemEffect, clean: bool) -> (r: i64)
    requires
        has_params(*e, 1),
        p == e.params->Some_0@[0],
    ensures
        r == param(*e, 0, clean),
{
    let flip = clean && e.on_equip && match e.etype {
        EffectType::WeaponDamage => false,
        _ => true,
    };
    if flip {
        -(p as i64)
    } else {
        p as i64
    }
}

/// Marks the item's effects applied and applies them to its owner, or takes their
/// bonuses back when `clean`. Does nothing unless the item is carried and has stats.
pub fn process_effect_modifiers(objects: &mut Vec<Object>, item_id: usize, clean: bool)
    ensures
        !carried(old(objects)@, item_id as int) ==> final(objects)@ == old(objects)@,
        carried(old(objects)@, item_id as int) ==> final(objects)@ == with_effects(old(objects)@, item_id as int, clean),
{
    if item_id >= objects.len() {
        return;
    }
    let owner = match &objects[item_id].in_inventory {
        Some(inv) => inv.owner_id,
        None => { return; },
    };
    if owner >= objects.len() || owner == item_id || objects[item_id].item_stats.is_none() {
        return;
    }
    let ghost o0 = objects@;
    let mut stats = {
        let item = &mut objects[item_id];
        item.item_stats.take().unwrap()
    };
    stats.effects_applied = true;
    let ghost marked = o0.update(
        item_id as int,
        Object { item_stats: Some(stats), ..o0[item_id as int] },
    );
    let effects = &stats.effects;
    let mut i: usize = 0;
    while i < effects.len()
        invariant
            i <= effects@.len(),
            owner < objects@.len(),
            objects@.len() == marked.len(),
            owner != item_id,
            item_id < objects@.len(),
            objects@.update(item_id as int, marked[item_id as int]) == marked.update(owner as int, apply_effects(marked[owner as int], effects@.subrange(0, i as int), clean)),
            objects@[item_id as int] == (Object { item_stats: None, ..o0[item_id as int] }),
        decreases effects@.len() - i,
    {
        let ghost before = objects@;
        {
            let o = &mut objects[owner];
            apply_one(o, &effects[i], clean);
        }
        proof {
            assert(effects@.subrange(0, i + 1).drop_last() =~= effects@.subrange(0, i as int));
            assert(objects@ == before.update(owner as int, objects@[owner as int]));
            assert forall|k: int| 0 <= k < objects@.len() && k != owner && k != item_id implies objects@[k] == marked[k] by {
                assert(before.update(item_id as int, marked[item_id as int])[k] == before[k]);
            }
            assert(before.update(item_id as int, marked[item_id as int])[owner as int] == before[owner as int]);
            assert(before[owner as int] == apply_effects(marked[owner as int], effects@.subrange(0, i as int), clean));
            assert(objects@[owner as int] == apply_effect(before[owner as int], effects@[i as int], clean));
            assert(effects@.subrange(0, i + 1).last() == effects@[i as int]);
            assert(apply_effects(marked[owner as int], effects@.subrange(0, i + 1), clean) == apply_effect(
                apply_effects(marked[owner as int], effects@.subrange(0, i as int), clean), effects@[i as int], clean));
            assert(objects@.update(item_id as int, marked[item_id as int]) =~= marked.update(owner as int, apply_effects(marked[owner as int], effects@.subrange(0, i + 1), clean)));
        }
        i = i + 1;
    }
    assert(effects@.subrange(0, i as int) =~= effects@);
    let item = &mut objects[item_id];
    item.item_stats = Some(stats);
    assert(objects@ =~= marked.update(owner as int, apply_effects(marked[owner as int], effects@, clean)));
}

} // verus!
