use vstd::prelude::*;
use crate::logs::{LogBuffer, LogBufferTrait, LogMessage};
use crate::object::{ColorPair, Object, Render, Rgb, str_eq};

verus! {

/// What the player can do with an item.
#[derive(Clone, Copy, PartialEq, Eq, Structural, Debug)]
pub enum ItemUsage {
    Drop,
    Throw,
    Equip,
    Drink,
    Activate,
}

/// The kinds of effect an item can have.
#[derive(Clone, Copy, PartialEq, Eq, Structural, Debug)]
pub enum EffectType {
    NIL,
    HealSelf,
    HealTgt,
    DamageTgt,
    WeaponDamage,
    HealthUp,
    AttackUp,
}

impl EffectType {
    /// The effect kind named in the content database; `None` for an unknown name.
    pub fn match_db_string(db_string: &str) -> (r: Option<EffectType>)
        ensures
            r == (if db_string@ == "HealSelf"@ {
                Some(EffectType::HealSelf)
            } else if db_string@ == "HealTgt"@ {
                Some(EffectType::HealTgt)
            } else if db_string@ == "DamageTgt"@ {
                Some(EffectType::DamageTgt)
            } else if db_string@ == "WeaponDamage"@ {
                Some(EffectType::WeaponDamage)
            } else if db_string@ == "HealthUp"@ {
                Some(EffectType::HealthUp)
            } else if db_string@ == "AttackUp"@ {
                Some(EffectType::AttackUp)
            } else if db_string@ == "NIL"@ {
                Some(EffectType::NIL)
            } else {
                None
            }),
    {
        if str_eq(db_string, "HealSelf") {
            Some(EffectType::HealSelf)
        } else if str_eq(db_string, "HealTgt") {
            Some(EffectType::HealTgt)
        } else if str_eq(db_string, "DamageTgt") {
            Some(EffectType::DamageTgt)
        } else if str_eq(db_string, "WeaponDamage") {
            Some(EffectType::WeaponDamage)
        } else if str_eq(db_string, "HealthUp") {
            Some(EffectType::HealthUp)
        } else if str_eq(db_string, "AttackUp") {
            Some(EffectType::AttackUp)
        } else if str_eq(db_string, "NIL") {
            Some(EffectType::NIL)
        } else {
            None
        }
    }
}

/// An effect and its parameters; `on_equip` effects apply while the item is equipped.
#[derive(Clone)]
pub struct ItemEffect {
    pub etype: EffectType,
    pub params: Option<Vec<i32>>,
    pub on_equip: bool,
}

/// An exact copy of a list of integers.
pub fn copy_ints(v: &Vec<i32>) -> (r: Vec<i32>)
    ensures
        r@ == v@,
{
    let mut r: Vec<i32> = Vec::new();
    let mut i: usize = 0;
    while i < v.len()
        invariant
            i <= v@.len(),
            r@ == v@.subrange(0, i as int),
        decreases v@.len() - i,
    {
        r.push(v[i]);
        i = i + 1;
        assert(r@ =~= v@.subrange(0, i as int));
    }
    assert(r@ =~= v@);
    r
}

/// Two effects agree in kind, parameters and equip flag.
pub open spec fn same_effect(a: ItemEffect, b: ItemEffect) -> bool {
    &&& a.etype == b.etype
    &&& a.on_equip == b.on_equip
    &&& (a.params is Some <==> b.params is Some)
    &&& a.params is Some ==> a.params->Some_0@ == b.params->Some_0@
}

/// Two item stats agree in usages, effects and flags.
pub open spec fn same_stats(a: ItemStats, b: ItemStats) -> bool {
    &&& a.usages@ == b.usages@
    &&& a.effects@.len() == b.effects@.len()
    &&& forall|i: int| 0 <= i < a.effects@.len() ==> same_effect(#[trigger] a.effects@[i], b.effects@[i])
    &&& a.equipped == b.equipped
    &&& a.effects_applied == b.effects_applied
}

impl ItemEffect {
    /// An exact copy.
    pub fn duplicate(&self) -> (r: ItemEffect)
        ensures
            same_effect(r, *self),
    {
        let params = match &self.params {
            Some(p) => Some(copy_ints(p)),
            None => None,
        };
        ItemEffect { etype: self.etype, params, on_equip: self.on_equip }
    }
}

#[derive(Clone)]
pub struct ItemStats {
    pub usages: Vec<ItemUsage>,
    pub effects: Vec<ItemEffect>,
    pub equipped: bool,
    pub effects_applied: bool,
}

impl ItemStats {
    pub fn new(usages: Vec<ItemUsage>, effects: Vec<ItemEffect>) -> (r: ItemStats)
        ensures
            r.usages@ == usages@,
            r.effects@ == effects@,
            !r.equipped,
            !r.effects_applied,
    {
        ItemStats { usages, effects, equipped: false, effects_applied: false }
    }

    /// No usages and no effects.
    pub fn blank() -> (r: ItemStats)
        ensures
            r.usages@.len() == 0,
            r.effects@.len() == 0,
            !r.equipped,
            !r.effects_applied,
    {
        ItemStats { usages: Vec::new(), effects: Vec::new(), equipped: false, effects_applied: false }
    }

    /// An item that can only be dropped and does nothing.
    pub fn blank_with_drop() -> (r: ItemStats)
        ensures
            r.usages@ == seq![ItemUsage::Drop],
            r.effects@.len() == 1,
            r.effects@[0].etype == EffectType::NIL,
            r.effects@[0].params is None,
            !r.equipped,
            !r.effects_applied,
    {
        let usages = vec![ItemUsage::Drop];
        let effects = vec![ItemEffect::nil()];
        assert(usages@ =~= seq![ItemUsage::Drop]);
        ItemStats { usages, effects, equipped: false, effects_applied: false }
    }
}

/// The display name of a usage.
pub open spec fn usage_name(u: ItemUsage) -> Seq<char> {
    match u {
        ItemUsage::Drop => "Drop"@,
        ItemUsage::Throw => "Throw"@,
        ItemUsage::Equip => "Equip"@,
        ItemUsage::Drink => "Drink"@,
        ItemUsage::Activate => "Activate"@,
    }
}

impl ItemUsage {
    pub fn get_name(&self) -> (r: String)
        ensures
            r@ == usage_name(*self),
    {
        match self {
            ItemUsage::Drop => String::from_str("Drop"),
            ItemUsage::Throw => String::from_str("Throw"),
            ItemUsage::Equip => String::from_str("Equip"),
            ItemUsage::Drink => String::from_str("Drink"),
            ItemUsage::Activate => String::from_str("Activate"),
        }
    }

    /// The key that selects a usage.
    pub fn get_letter(&self) -> (r: char)
        ensures
            r == match *self {
                ItemUsage::Drop => 'd',
                ItemUsage::Throw => 't',
                ItemUsage::Equip => 'e',
                ItemUsage::Drink => 'q',
                ItemUsage::Activate => 'a',
            },
    {
        match self {
            ItemUsage::Drop => 'd',
            ItemUsage::Throw => 't',
            ItemUsage::Equip => 'e',
            ItemUsage::Drink => 'q',
            ItemUsage::Activate => 'a',
        }
    }
}

impl ItemEffect {
    /// The effect that does nothing.
    pub fn nil() -> (r: ItemEffect)
        ensures
            r.etype == EffectType::NIL,
            r.params is None,
            !r.on_equip,
    {
        ItemEffect { etype: EffectType::NIL, params: None, on_equip: false }
    }
}

/// What the inventory screen shows of one carried item.
#[derive(Clone)]
pub struct ItemInfo {
    pub obj_id: usize,
    pub name: String,
    pub render: Render,
    pub stats: ItemStats,
}

impl ItemStats {
    /// A copy with the same usages and flags, and effects of the same kinds and parameters.
    pub fn duplicate(&self) -> (r: ItemStats)
        ensures
            same_stats(r, *self),
    {
        let mut usages: Vec<ItemUsage> = Vec::new();
        let mut i: usize = 0;
        while i < self.usages.len()
            invariant
                i <= self.usages@.len(),
                usages@ == self.usages@.subrange(0, i as int),
            decreases self.usages@.len() - i,
        {
            usages.push(self.usages[i]);
            i = i + 1;
            assert(usages@ =~= self.usages@.subrange(0, i as int));
        }
        assert(usages@ =~= self.usages@);
        let mut effects: Vec<ItemEffect> = Vec::new();
        let mut j: usize = 0;
        while j < self.effects.len()
            invariant
                j <= self.effects@.len(),
                effects@.len() == j,
                forall|t: int| 0 <= t < j ==> same_effect(#[trigger] effects@[t], self.effects@[t]),
            decreases self.effects@.len() - j,
        {
            effects.push(self.effects[j].duplicate());
            j = j + 1;
        }
        ItemStats { usages, effects, equipped: self.equipped, effects_applied: self.effects_applied }
    }
}

impl ItemInfo {
    /// A copy for the usage menu.
    pub fn duplicate(&self) -> (r: ItemInfo)
        ensures
            r.obj_id == self.obj_id,
            r.name == self.name,
            r.render == self.render,
            same_stats(r.stats, self.stats),
    {
        ItemInfo { obj_id: self.obj_id, name: self.name.clone(), render: self.render, stats: self.stats.duplicate() }
    }
}

/// The inventory screen: the player's items, the highlighted one, and the menu of
/// usages of a chosen item.
pub struct InventoryMenu {
    pub submenu: Option<InventorySubMenu>,
    pub items: Vec<ItemInfo>,
    pub selection: usize,
}

/// The usages of one item, with the highlighted one.
pub struct InventorySubMenu {
    pub info: ItemInfo,
    pub opts: Vec<ItemUsage>,
    pub selection: usize,
}

/// The actor is an item the player carries and can be listed (it has a name, a look
/// and item stats).
pub open spec fn listed(o: Object) -> bool {
    &&& o.in_inventory matches Some(inv) && inv.owner_id == 0
    &&& o.name is Some
    &&& o.render is Some
    &&& o.item_stats is Some
}

/// The indices below `k` of the items the player carries, ascending.
pub open spec fn listed_ids(objects: Seq<Object>, k: int) -> Seq<usize>
    decreases k,
{
    if k <= 0 {
        Seq::empty()
    } else if listed(objects[k - 1]) {
        listed_ids(objects, k - 1).push((k - 1) as usize)
    } else {
        listed_ids(objects, k - 1)
    }
}

/// The menu entry shows actor `id`: its index, name, look and item stats.
pub open spec fn entry_of(info: ItemInfo, objects: Seq<Object>, id: usize) -> bool {
    &&& info.obj_id == id
    &&& info.name == objects[id as int].name->Some_0
    &&& info.render == objects[id as int].render->Some_0
    &&& same_stats(info.stats, objects[id as int].item_stats->Some_0)
}

impl InventoryMenu {
    /// The menu of the player's items, none chosen, the first highlighted.
    pub fn new(objects: &Vec<Object>) -> (r: InventoryMenu)
        ensures
            r.submenu is None,
            r.selection == 0,
            forall|j: int| 0 <= j < r.items@.len() ==> (#[trigger] r.items@[j]).obj_id < objects@.len() && listed(objects@[r.items@[j].obj_id as int]),
            forall|k: int| 0 <= k < objects@.len() && listed(#[trigger] objects@[k]) ==> exists|j: int|
                0 <= j < r.items@.len() && r.items@[j].obj_id == k,
    {
        let mut menu = InventoryMenu { submenu: None, items: Vec::new(), selection: 0 };
        menu.populate_items(objects);
        menu
    }

    /// Appends an entry for each item the player carries, in actor order.
    pub fn populate_items(&mut self, objects: &Vec<Object>)
        ensures
            final(self).submenu == old(self).submenu,
            final(self).selection == old(self).selection,
            final(self).items@.len() >= old(self).items@.len(),
            forall|j: int| 0 <= j < old(self).items@.len() ==> #[trigger] final(self).items@[j] == old(self).items@[j],
            forall|j: int| old(self).items@.len() <= j < final(self).items@.len() ==> (#[trigger] final(self).items@[j]).obj_id < objects@.len()
                && listed(objects@[final(self).items@[j].obj_id as int]) && final(self).items@[j].name == objects@[final(self).items@[j].obj_id as int].name->Some_0,
            forall|k: int| 0 <= k < objects@.len() && listed(#[trigger] objects@[k]) ==> exists|j: int|
                old(self).items@.len() <= j < final(self).items@.len() && final(self).items@[j].obj_id == k,
            old(self).items@.len() == 0 ==> forall|j: int| 0 <= j < final(self).items@.len() ==> (#[trigger] final(self).items@[j]).obj_id < objects@.len() && listed(objects@[final(self).items@[j].obj_id as int]),
            final(self).items@.len() == old(self).items@.len() + listed_ids(objects@, objects@.len() as int).len(),
            forall|j: int| 0 <= j < listed_ids(objects@, objects@.len() as int).len() ==> entry_of(
                #[trigger] final(self).items@[old(self).items@.len() + j], objects@, listed_ids(objects@, objects@.len() as int)[j]),
    {
        let start = self.items.len();
        let mut i: usize = 0;
        while i < objects.len()
            invariant
                i <= objects@.len(),
                start == old(self).items@.len(),
                self.submenu == old(self).submenu,
                self.selection == old(self).selection,
                self.items@.len() >= start,
                forall|j: int| 0 <= j < start ==> #[trigger] self.items@[j] == old(self).items@[j],
                forall|j: int| start <= j < self.items@.len() ==> (#[trigger] self.items@[j]).obj_id < i
                    && listed(objects@[self.items@[j].obj_id as int]) && self.items@[j].name == objects@[self.items@[j].obj_id as int].name->Some_0,
                forall|k: int| 0 <= k < i && listed(#[trigger] objects@[k]) ==> exists|j: int|
                    start <= j < self.items@.len() && self.items@[j].obj_id == k,
                self.items@.len() == start + listed_ids(objects@, i as int).len(),
                forall|j: int| 0 <= j < listed_ids(objects@, i as int).len() ==> entry_of(
                    #[trigger] self.items@[start + j], objects@, listed_ids(objects@, i as int)[j]),
            decreases objects@.len() - i,
        {
            let obj = &objects[i];
            if let (Some(inv), Some(name), Some(render), Some(stats)) = (&obj.in_inventory, &obj.name, obj.render, &obj.item_stats) {
                if inv.owner_id == 0 {
                    let ghost before = self.items@;
                    self.items.push(ItemInfo { obj_id: i, name: name.clone(), render, stats: stats.duplicate() });
                    proof {
                        let li = listed_ids(objects@, i as int);
                        assert(listed_ids(objects@, i + 1) == li.push(i));
                        assert forall|j: int| 0 <= j < li.len() + 1 implies entry_of(
                            #[trigger] self.items@[start + j], objects@, li.push(i)[j]) by {
                            if j < li.len() {
                                assert(self.items@[start + j] == before[start + j]);
                            }
                        }
                        assert(self.items@[self.items@.len() - 1].obj_id == i);
                        assert forall|k: int| 0 <= k < i + 1 && listed(#[trigger] objects@[k]) implies exists|j: int|
                            start <= j < self.items@.len() && self.items@[j].obj_id == k by {
                            if k < i {
                                let j = choose|j: int| start <= j < before.len() && before[j].obj_id == k;
                                assert(self.items@[j] == before[j]);
                            } else {
                                assert(self.items@[self.items@.len() - 1].obj_id == k);
                            }
                        }
                    }
                }
            }
            i = i + 1;
        }
    }

    /// Opens the usage menu of the highlighted item, if there is one.
    pub fn process_selection(&mut self, objects: &mut Vec<Object>)
        ensures
            final(self).items@ == old(self).items@,
            final(self).selection == old(self).selection,
            *final(objects) == *old(objects),
            old(self).selection < old(self).items@.len() ==> (final(self).submenu matches Some(sm)
                && sm.selection == 0 && sm.info.obj_id == old(self).items@[old(self).selection as int].obj_id
                && sm.opts@ == sm.info.stats.usages@),
            old(self).selection >= old(self).items@.len() ==> final(self).submenu == old(self).submenu,
    {
        if self.selection < self.items.len() {
            self.submenu = Some(InventorySubMenu::new(self.items[self.selection].duplicate()));
        }
    }

    /// Moves the highlight up, stopping at the first item.
    pub fn move_selection_up(&mut self)
        ensures
            final(self).selection == if old(self).selection == 0 { 0 } else { old(self).selection - 1 },
            final(self).items@ == old(self).items@,
            final(self).submenu == old(self).submenu,
    {
        if self.selection > 0 {
            self.selection = self.selection - 1;
        }
    }

    /// Moves the highlight down, stopping at the last item.
    pub fn move_selection_down(&mut self)
        ensures
            old(self).selection + 1 >= old(self).items@.len() ==> final(self).selection == old(self).selection,
            old(self).selection + 1 < old(self).items@.len() ==> final(self).selection == old(self).selection + 1,
            final(self).items@ == old(self).items@,
            final(self).submenu == old(self).submenu,
    {
        let n = self.items.len();
        if n > 0 && self.selection < n - 1 {
            self.selection = self.selection + 1;
        }
    }
}

/// `after` is `before` dropped where its owner stands, on its owner's floor.
pub open spec fn dropped(objects: Seq<Object>, after: Seq<Object>, item_id: int) -> bool {
    let item = objects[item_id];
    let owner = objects[item.in_inventory->Some_0.owner_id as int];
    after == objects.update(item_id, Object { in_inventory: None, pos: owner.pos, floor: owner.floor, ..item })
}

/// The item is carried by an actor in the list that stands somewhere.
pub open spec fn droppable(objects: Seq<Object>, item_id: int) -> bool {
    &&& 0 <= item_id < objects.len()
    &&& objects[item_id].in_inventory matches Some(inv) && inv.owner_id < objects.len()
        && objects[inv.owner_id as int].pos is Some
}

/// Puts a carried item down where its owner stands; nothing happens if the item is
/// not carried or the owner has no position.
pub fn drop_item(objects: &mut Vec<Object>, item_id: usize)
    ensures
        droppable(old(objects)@, item_id as int) ==> dropped(old(objects)@, final(objects)@, item_id as int),
        !droppable(old(objects)@, item_id as int) ==> final(objects)@ == old(objects)@,
{
    if item_id >= objects.len() {
        return;
    }
    let owner = match &objects[item_id].in_inventory {
        Some(inv) => inv.owner_id,
        None => { return; },
    };
    if owner >= objects.len() {
        return;
    }
    let drop_pos = objects[owner].pos;
    let floor = objects[owner].floor;
    if drop_pos.is_some() {
        let item = &mut objects[item_id];
        item.in_inventory = None;
        item.pos = drop_pos;
        item.floor = floor;
    }
}

impl InventorySubMenu {
    /// The usages of `info`, the first highlighted.
    pub fn new(info: ItemInfo) -> (r: InventorySubMenu)
        ensures
            r.opts@ == info.stats.usages@,
            r.info == info,
            r.selection == 0,
    {
        let mut opts: Vec<ItemUsage> = Vec::new();
        let mut i: usize = 0;
        while i < info.stats.usages.len()
            invariant
                i <= info.stats.usages@.len(),
                opts@ == info.stats.usages@.subrange(0, i as int),
            decreases info.stats.usages@.len() - i,
        {
            opts.push(info.stats.usages[i]);
            i = i + 1;
            assert(opts@ =~= info.stats.usages@.subrange(0, i as int));
        }
        assert(opts@ =~= info.stats.usages@);
        InventorySubMenu { info, opts, selection: 0 }
    }

    /// Moves the highlight up, stopping at the first usage.
    pub fn move_selection_up(&mut self)
        ensures
            final(self).selection == if old(self).selection == 0 { 0 } else { old(self).selection - 1 },
            final(self).opts@ == old(self).opts@,
    {
        if self.selection > 0 {
            self.selection = self.selection - 1;
        }
    }

    /// Moves the highlight down, stopping at the last usage.
    pub fn move_selection_down(&mut self)
        ensures
            old(self).selection + 1 >= old(self).opts@.len() ==> final(self).selection == old(self).selection,
            old(self).selection + 1 < old(self).opts@.len() ==> final(self).selection == old(self).selection + 1,
            final(self).opts@ == old(self).opts@,
    {
        let n = self.opts.len();
        if n > 0 && self.selection < n - 1 {
            self.selection = self.selection + 1;
        }
    }

    /// Carries out the highlighted usage. Dropping puts the item down where its owner
    /// stands and logs it; the other usages do nothing here.
    pub fn process_selection(&mut self, objects: &mut Vec<Object>, logs: &mut LogBuffer)
        ensures
            old(self).selection < old(self).opts@.len() && old(self).opts@[old(self).selection as int] == ItemUsage::Drop
                && droppable(old(objects)@, old(self).info.obj_id as int) ==> dropped(old(objects)@, final(objects)@, old(self).info.obj_id as int),
            !(old(self).selection < old(self).opts@.len() && old(self).opts@[old(self).selection as int] == ItemUsage::Drop
                && droppable(old(objects)@, old(self).info.obj_id as int)) ==> final(objects)@ == old(objects)@,
    {
        if self.selection >= self.opts.len() {
            return;
        }
        match self.opts[self.selection] {
            ItemUsage::Drop => {
                drop_item(objects, self.info.obj_id);
                logs.update_logs(LogMessage::new().add_part(
                    String::from_str("You have dropped"),
                    ColorPair::new(Rgb::new(255, 255, 255), Rgb::new(25, 25, 25)),
                ).add_part(self.info.name.clone(), ColorPair::new(self.info.render.color.fg, Rgb::new(25, 25, 25))));
            },
            _ => {},
        }
    }
}

} // verus!
