use vstd::prelude::*;
use crate::geometry::Coord;
use crate::heat::HeatMap;
use crate::inventory::{ItemStats, copy_ints, same_stats};
use crate::heat::HeatNode;
use crate::rng::rng_roll_dice;
use bracket_random::prelude::RandomNumberGenerator;

verus! {

/// An actor: the player, an enemy, an item or a corpse.
/// Its identity is its index in the world's actor list; index 0 is the player.
#[derive(Clone)]
pub struct Object {
    pub name: Option<String>,
    pub tag: Option<ActorTag>,
    pub pos: Option<Coord>,
    pub floor: i32,
    pub render: Option<Render>,
    pub player_mem: PlayerMemory,
    pub viewshed: Option<Viewshed>,
    pub block_tile: bool,
    pub initiative: Option<u8>,
    pub in_inventory: Option<InInventory>,
    pub equip_slot: Option<EquipSlot>,
    pub health: Option<Health>,
    pub damage: Option<Damage>,
    pub ai: Option<AIClass>,
    pub item_stats: Option<ItemStats>,
}

impl Object {
    /// An actor on floor 1 with no components.
    pub fn blank() -> (r: Object)
        ensures
            r.floor == 1,
            !r.block_tile,
            r.name is None,
            r.tag is None,
            r.pos is None,
            r.render is None,
            !r.player_mem.seen,
            r.player_mem.last_pos is None,
            r.viewshed is None,
            r.initiative is None,
            r.in_inventory is None,
            r.equip_slot is None,
            r.health is None,
            r.damage is None,
            r.ai is None,
            r.item_stats is None,
    {
        Object {
            name: None,
            tag: None,
            pos: None,
            floor: 1,
            render: None,
            player_mem: PlayerMemory { seen: false, last_pos: None },
            viewshed: None,
            block_tile: false,
            initiative: None,
            in_inventory: None,
            equip_slot: None,
            health: None,
            damage: None,
            ai: None,
            item_stats: None,
        }
    }
}

/// `b` is a copy of `a`: every field agrees, lists by their contents.
pub open spec fn copied(a: Object, b: Object) -> bool {
    &&& b.name == a.name
    &&& b.tag == a.tag
    &&& b.pos == a.pos
    &&& b.floor == a.floor
    &&& b.render == a.render
    &&& b.player_mem == a.player_mem
    &&& (b.viewshed is Some <==> a.viewshed is Some)
    &&& a.viewshed matches Some(v) ==> b.viewshed->Some_0.range == v.range && b.viewshed->Some_0.visible@ == v.visible@
        && b.viewshed->Some_0.refresh == v.refresh
    &&& b.block_tile == a.block_tile
    &&& b.initiative == a.initiative
    &&& b.in_inventory == a.in_inventory
    &&& b.equip_slot == a.equip_slot
    &&& (b.health is Some <==> a.health is Some)
    &&& a.health matches Some(h) ==> b.health->Some_0.max == h.max && b.health->Some_0.current == h.current
        && b.health->Some_0.wounds@ == h.wounds@ && b.health->Some_0.regen_timer == h.regen_timer
    &&& (b.damage is Some <==> a.damage is Some)
    &&& a.damage matches Some(d) ==> b.damage->Some_0.dice == d.dice && b.damage->Some_0.val == d.val
        && b.damage->Some_0.modifiers@ == d.modifiers@
    &&& (b.ai is Some <==> a.ai is Some)
    &&& a.ai matches Some(ai) ==> {
        let bi = b.ai->Some_0;
        &&& bi.target == ai.target
        &&& bi.state == ai.state
        &&& bi.tgt_memory == ai.tgt_memory
        &&& bi.tgt_heatmap.center == ai.tgt_heatmap.center
        &&& bi.tgt_heatmap.radius == ai.tgt_heatmap.radius
        &&& bi.tgt_heatmap.nodes@ == ai.tgt_heatmap.nodes@
        &&& bi.tgt_heatmap.old_nodes@ == ai.tgt_heatmap.old_nodes@
    }
    &&& (b.item_stats is Some <==> a.item_stats is Some)
    &&& a.item_stats matches Some(s) ==> same_stats(b.item_stats->Some_0, s)
}

fn copy_coord_list(v: &Vec<Coord>) -> (r: Vec<Coord>)
    ensures
        r@ == v@,
{
    let mut r: Vec<Coord> = Vec::new();
    let mut i: usize = 0;
    while i < v.len()
        invariant
            i <= v@.len(),
            r@ == v@.subrange(0, i as int),
        decreases v@.len() - i,
    {
        r.push(v[i]);
        i = i + 1;
        assert(r@ =~= v@.subrange(0, i as int));
    }
    assert(r@ =~= v@);
    r
}

fn copy_heat_nodes(v: &Vec<HeatNode>) -> (r: Vec<HeatNode>)
    ensures
        r@ == v@,
{
    let mut r: Vec<HeatNode> = Vec::new();
    let mut i: usize = 0;
    while i < v.len()
        invariant
            i <= v@.len(),
            r@ == v@.subrange(0, i as int),
        decreases v@.len() - i,
    {
        r.push(v[i]);
        i = i + 1;
        assert(r@ =~= v@.subrange(0, i as int));
    }
    assert(r@ =~= v@);
    r
}

impl Object {
    /// A copy of the actor (a spawn template instantiated).
    pub fn duplicate(&self) -> (r: Object)
        ensures
            copied(*self, r),
    {
        let name = match &self.name {
            Some(n) => Some(n.clone()),
            None => None,
        };
        let viewshed = match &self.viewshed {
            Some(v) => Some(Viewshed { range: v.range, visible: copy_coord_list(&v.visible), refresh: v.refresh }),
            None => None,
        };
        let health = match &self.health {
            Some(h) => Some(Health { max: h.max, current: h.current, wounds: copy_ints(&h.wounds), regen_timer: h.regen_timer }),
            None => None,
        };
        let damage = match &self.damage {
            Some(d) => Some(Damage { dice: d.dice, val: d.val, modifiers: copy_ints(&d.modifiers) }),
            None => None,
        };
        let ai = match &self.ai {
            Some(a) => Some(AIClass {
                target: a.target,
                state: a.state,
                tgt_memory: a.tgt_memory,
                tgt_heatmap: crate::heat::HeatMap {
                    center: a.tgt_heatmap.center,
                    radius: a.tgt_heatmap.radius,
                    nodes: copy_heat_nodes(&a.tgt_heatmap.nodes),
                    old_nodes: copy_coord_list(&a.tgt_heatmap.old_nodes),
                },
            }),
            None => None,
        };
        let item_stats = match &self.item_stats {
            Some(s) => Some(s.duplicate()),
            None => None,
        };
        let in_inventory = match &self.in_inventory {
            Some(i) => Some(InInventory { owner_id: i.owner_id }),
            None => None,
        };
        Object {
            name,
            tag: self.tag,
            pos: self.pos,
            floor: self.floor,
            render: self.render,
            player_mem: PlayerMemory { seen: self.player_mem.seen, last_pos: self.player_mem.last_pos },
            viewshed,
            block_tile: self.block_tile,
            initiative: self.initiative,
            in_inventory,
            equip_slot: self.equip_slot,
            health,
            damage,
            ai,
            item_stats,
        }
    }
}

#[derive(Clone, Copy, PartialEq, Eq, Structural, Debug)]
pub enum ActorTag {
    Untagged,
    Static,
    Player,
    Enemy,
}

/// A colour as red, green and blue components.
#[derive(Clone, Copy, PartialEq, Eq, Structural, Debug)]
pub struct Rgb {
    pub r: u8,
    pub g: u8,
    pub b: u8,
}

impl Rgb {
    pub fn new(r: u8, g: u8, b: u8) -> (c: Rgb)
        ensures
            c == (Rgb { r, g, b }),
    {
        Rgb { r, g, b }
    }
}

/// Foreground and background colours of a glyph.
#[derive(Clone, Copy, PartialEq, Eq, Structural, Debug)]
pub struct ColorPair {
    pub fg: Rgb,
    pub bg: Rgb,
}

impl ColorPair {
    pub fn new(fg: Rgb, bg: Rgb) -> (c: ColorPair)
        ensures
            c == (ColorPair { fg, bg }),
    {
        ColorPair { fg, bg }
    }
}

/// What the renderer draws for an actor: a glyph, its colours and its draw order.
#[derive(Clone, Copy, PartialEq, Eq, Structural, Debug)]
pub struct Render {
    pub glyph: u16,
    pub color: ColorPair,
    pub order: u8,
}

impl Render {
    /// Glyph 0, white on black, drawn first.
    pub fn nil_render() -> (r: Render)
        ensures
            r.glyph == 0,
            r.order == 0,
            r.color == (ColorPair { fg: Rgb { r: 255, g: 255, b: 255 }, bg: Rgb { r: 0, g: 0, b: 0 } }),
    {
        Render { glyph: 0, color: ColorPair::new(Rgb::new(255, 255, 255), Rgb::new(0, 0, 0)), order: 0 }
    }
}

/// Sight range, the tiles seen at the last refresh, and whether a refresh is due.
#[derive(Clone)]
pub struct Viewshed {
    pub range: i32,
    pub visible: Vec<Coord>,
    pub refresh: bool,
}

/// Hit points, with the wounds taken since wounds were last resolved.
#[derive(Clone)]
pub struct Health {
    pub max: i32,
    pub current: i32,
    pub wounds: Vec<i32>,
    pub regen_timer: u32,
}

/// Turns without damage after which one hit point comes back.
pub const REGEN_INTERVAL: u32 = 10;

impl Health {
    pub fn new(max: i32) -> (r: Health)
        ensures
            r.max == max,
            r.current == max,
            r.wounds@.len() == 0,
            r.regen_timer == 0,
    {
        Health { max, current: max, wounds: Vec::new(), regen_timer: 0 }
    }

    /// Heals up to `amt`, never above the maximum; returns the amount healed.
    pub fn heal(&mut self, amt: i32) -> (healed: i32)
        requires
            old(self).current <= old(self).max,
            i32::MIN <= old(self).current + amt,
        ensures
            final(self).current == if old(self).current + amt > old(self).max {
                old(self).max as int
            } else {
                old(self).current + amt
            },
            healed == final(self).current - old(self).current,
            final(self).max == old(self).max,
            final(self).wounds@ == old(self).wounds@,
            final(self).regen_timer == old(self).regen_timer,
    {
        let healed: i32;
        if amt as i64 > self.max as i64 - self.current as i64 {
            healed = (self.max as i64 - self.current as i64) as i32;
            self.current = self.max;
        } else {
            healed = amt;
            self.current = self.current + amt;
        }
        healed
    }

    /// Restarts the wait before regeneration (after taking damage).
    pub fn reset_regen(&mut self)
        ensures
            final(self).regen_timer == 0,
            final(self).max == old(self).max,
            final(self).current == old(self).current,
            final(self).wounds@ == old(self).wounds@,
    {
        self.regen_timer = 0;
    }

    /// Counts one turn towards regeneration; every `REGEN_INTERVAL` turns below the maximum
    /// one hit point comes back.
    pub fn check_regen(&mut self)
        ensures
            final(self).max == old(self).max,
            final(self).wounds@ == old(self).wounds@,
            old(self).current >= old(self).max ==> final(self).current == old(self).current
                && final(self).regen_timer == 0,
            old(self).current < old(self).max && old(self).regen_timer + 1 >= REGEN_INTERVAL
                ==> final(self).current == old(self).current + 1 && final(self).regen_timer == 0,
            old(self).current < old(self).max && old(self).regen_timer + 1 < REGEN_INTERVAL
                ==> final(self).current == old(self).current && final(self).regen_timer
                == old(self).regen_timer + 1,
    {
        if self.current >= self.max {
            self.regen_timer = 0;
        } else if self.regen_timer >= REGEN_INTERVAL - 1 {
            self.current = self.current + 1;
            self.regen_timer = 0;
        } else {
            self.regen_timer = self.regen_timer + 1;
        }
    }
}

/// Damage as `dice` dice of `val` sides plus flat modifiers.
#[derive(Clone)]
pub struct Damage {
    pub dice: i32,
    pub val: i32,
    pub modifiers: Vec<i32>,
}

/// Sum of a list of modifiers.
pub open spec fn sum_of(s: Seq<i32>) -> int
    decreases s.len(),
{
    if s.len() == 0 {
        0
    } else {
        sum_of(s.drop_last()) + s.last()
    }
}

/// Sum of the magnitudes of a list of modifiers.
pub open spec fn magnitude_of(s: Seq<i32>) -> int
    decreases s.len(),
{
    if s.len() == 0 {
        0
    } else {
        magnitude_of(s.drop_last()) + if s.last() < 0 { -s.last() } else { s.last() as int }
    }
}

proof fn lemma_sum_bounded(s: Seq<i32>)
    ensures
        -magnitude_of(s) <= sum_of(s) <= magnitude_of(s),
        0 <= magnitude_of(s),
    decreases s.len(),
{
    if s.len() > 0 {
        lemma_sum_bounded(s.drop_last());
    }
}

proof fn lemma_magnitude_prefix(s: Seq<i32>, i: int)
    requires
        0 <= i <= s.len(),
    ensures
        magnitude_of(s.subrange(0, i)) <= magnitude_of(s),
    decreases s.len() - i,
{
    if i < s.len() {
        lemma_magnitude_prefix(s, i + 1);
        assert(s.subrange(0, i + 1).drop_last() =~= s.subrange(0, i));
    } else {
        assert(s.subrange(0, i) =~= s);
    }
}

/// A sum lies between minus and plus the sum of magnitudes.
pub proof fn lemma_sum_bounded_pub(s: Seq<i32>)
    ensures
        -magnitude_of(s) <= sum_of(s) <= magnitude_of(s),
        0 <= magnitude_of(s),
{
    lemma_sum_bounded(s);
}

/// The magnitudes of a prefix sum to no more than those of the whole list.
pub proof fn lemma_magnitude_prefix_pub(s: Seq<i32>, i: int)
    requires
        0 <= i <= s.len(),
    ensures
        magnitude_of(s.subrange(0, i)) <= magnitude_of(s),
{
    lemma_magnitude_prefix(s, i);
}

impl Damage {
    pub fn new(vals: (i32, i32)) -> (r: Damage)
        ensures
            r.dice == vals.0,
            r.val == vals.1,
            r.modifiers@.len() == 0,
    {
        Damage { dice: vals.0, val: vals.1, modifiers: Vec::new() }
    }

    /// The dice can be rolled and any total with the modifiers fits in an `i32`.
    pub open spec fn rollable(&self) -> bool {
        &&& 0 <= self.dice
        &&& 1 <= self.val < i32::MAX
        &&& self.dice * self.val + magnitude_of(self.modifiers@) <= i32::MAX
        &&& self.dice - magnitude_of(self.modifiers@) >= i32::MIN
    }

    /// Whether `rollable` holds.
    pub fn is_rollable(&self) -> (r: bool)
        ensures
            r == self.rollable(),
    {
        if self.dice < 0 || self.val < 1 || self.val == i32::MAX {
            return false;
        }
        let d: i64 = self.dice as i64;
        let v: i64 = self.val as i64;
        assert(0 <= d * v <= 0x4000_0000_0000_0000) by (nonlinear_arith)
            requires 0 <= d <= 0x8000_0000, 0 <= v <= 0x8000_0000;
        let dv: i64 = d * v;
        if dv > i32::MAX as i64 {
            proof {
                lemma_sum_bounded(self.modifiers@);
            }
            return false;
        }
        let mut mag: i64 = 0;
        let mut i: usize = 0;
        while i < self.modifiers.len()
            invariant
                i <= self.modifiers@.len(),
                mag == magnitude_of(self.modifiers@.subrange(0, i as int)),
                0 <= mag <= 0x1_0000_0000,
                0 <= dv <= i32::MAX,
                dv == self.dice * self.val,
                0 <= self.dice,
            decreases self.modifiers@.len() - i,
        {
            let m = self.modifiers[i];
            let ghost next = self.modifiers@.subrange(0, i + 1);
            proof {
                assert(next.drop_last() =~= self.modifiers@.subrange(0, i as int));
            }
            mag = if m < 0 { mag - m as i64 } else { mag + m as i64 };
            i = i + 1;
            if mag > 0x1_0000_0000 - 0x8000_0001 {
                proof {
                    lemma_magnitude_prefix(self.modifiers@, i as int);
                }
                return false;
            }
        }
        assert(self.modifiers@.subrange(0, i as int) =~= self.modifiers@);
        dv + mag <= i32::MAX as i64 && self.dice as i64 - mag >= i32::MIN as i64
    }

    /// Rolls the dice and adds every modifier.
    pub fn roll(&self, rng: &mut RandomNumberGenerator) -> (r: i32)
        requires
            self.rollable(),
        ensures
            self.dice + sum_of(self.modifiers@) <= r <= self.dice * self.val + sum_of(
                self.modifiers@,
            ),
    {
        proof {
            lemma_sum_bounded(self.modifiers@);
            assert(0 <= self.dice * self.val) by (nonlinear_arith)
                requires 0 <= self.dice, 1 <= self.val;
        }
        let base = rng_roll_dice(rng, self.dice, self.val);
        let mut dmg: i32 = base;
        let mut i: usize = 0;
        while i < self.modifiers.len()
            invariant
                self.rollable(),
                i <= self.modifiers@.len(),
                self.dice <= base <= self.dice * self.val,
                dmg == base + sum_of(self.modifiers@.subrange(0, i as int)),
            decreases self.modifiers@.len() - i,
        {
            let ghost pre = self.modifiers@.subrange(0, i as int);
            let ghost next = self.modifiers@.subrange(0, i + 1);
            proof {
                assert(next.drop_last() =~= pre);
                lemma_sum_bounded(next);
                lemma_magnitude_prefix(self.modifiers@, i + 1);
            }
            dmg = dmg + self.modifiers[i];
            i = i + 1;
        }
        assert(self.modifiers@.subrange(0, i as int) =~= self.modifiers@);
        dmg
    }

    /// One four-sided die.
    pub fn get_default_damage() -> (r: (i32, i32))
        ensures
            r == (1i32, 4i32),
    {
        (1, 4)
    }
}

/// Whether the player has ever seen the actor, and where it was last seen.
#[derive(Clone)]
pub struct PlayerMemory {
    pub seen: bool,
    pub last_pos: Option<Coord>,
}

/// The actor that carries an item.
#[derive(Clone)]
pub struct InInventory {
    pub owner_id: usize,
}

#[derive(Clone, Copy, PartialEq, Eq, Structural, Debug, Hash)]
pub enum EquipSlot {
    Head,
    Body,
    Arms,
    Legs,
    Feet,
    MainHand,
    OffHand,
    TwoHand,
    AnyHand,
    Ring1,
    Ring2,
}

impl EquipSlot {
    /// Every slot, each once.
    pub fn get_all_slots() -> (r: Vec<EquipSlot>)
        ensures
            r@.len() == 11,
            r@.no_duplicates(),
            forall|s: EquipSlot| r@.contains(s),
    {
        let r = vec![
            EquipSlot::Arms,
            EquipSlot::Body,
            EquipSlot::Feet,
            EquipSlot::Head,
            EquipSlot::Legs,
            EquipSlot::OffHand,
            EquipSlot::MainHand,
            EquipSlot::TwoHand,
            EquipSlot::AnyHand,
            EquipSlot::Ring1,
            EquipSlot::Ring2,
        ];
        assert forall|s: EquipSlot| r@.contains(s) by {
            match s {
                EquipSlot::Arms => assert(r@[0] == s),
                EquipSlot::Body => assert(r@[1] == s),
                EquipSlot::Feet => assert(r@[2] == s),
                EquipSlot::Head => assert(r@[3] == s),
                EquipSlot::Legs => assert(r@[4] == s),
                EquipSlot::OffHand => assert(r@[5] == s),
                EquipSlot::MainHand => assert(r@[6] == s),
                EquipSlot::TwoHand => assert(r@[7] == s),
                EquipSlot::AnyHand => assert(r@[8] == s),
                EquipSlot::Ring1 => assert(r@[9] == s),
                EquipSlot::Ring2 => assert(r@[10] == s),
            }
        }
        r
    }

    /// The slot named in the content database, for the names it uses.
    pub fn match_db_string(db_string: &str) -> (r: Option<EquipSlot>)
        ensures
            r == (if db_string@ == "MainHand"@ {
                Some(EquipSlot::MainHand)
            } else if db_string@ == "OffHand"@ {
                Some(EquipSlot::OffHand)
            } else if db_string@ == "AnyHand"@ {
                Some(EquipSlot::AnyHand)
            } else if db_string@ == "2Hand"@ {
                Some(EquipSlot::TwoHand)
            } else {
                None
            }),
    {
        if str_eq(db_string, "MainHand") {
            Some(EquipSlot::MainHand)
        } else if str_eq(db_string, "OffHand") {
            Some(EquipSlot::OffHand)
        } else if str_eq(db_string, "AnyHand") {
            Some(EquipSlot::AnyHand)
        } else if str_eq(db_string, "2Hand") {
            Some(EquipSlot::TwoHand)
        } else {
            None
        }
    }
}

/// Character-by-character equality of two strings.
pub fn str_eq(a: &str, b: &str) -> (r: bool)
    ensures
        r == (a@ == b@),
{
    let n = a.unicode_len();
    if n != b.unicode_len() {
        return false;
    }
    let mut i: usize = 0;
    while i < n
        invariant
            n == a@.len(),
            n == b@.len(),
            i <= n,
            forall|j: int| 0 <= j < i ==> a@[j] == b@[j],
        decreases n - i,
    {
        if a.get_char(i) != b.get_char(i) {
            return false;
        }
        i = i + 1;
    }
    assert(a@ =~= b@);
    true
}

/// What an enemy is doing about its target.
#[derive(Clone, Copy, PartialEq, Eq, Structural, Debug)]
pub enum AIState {
    Idle,
    Hunting,
    Chasing,
}

/// Behaviour component of a non-player actor.
#[derive(Clone)]
pub struct AIClass {
    pub target: Option<usize>,
    pub state: AIState,
    pub tgt_memory: u32,
    pub tgt_heatmap: HeatMap,
}

impl AIClass {
    /// An idle behaviour with no target and no heat.
    pub fn new() -> (r: AIClass)
        ensures
            r.target is None,
            r.state == AIState::Idle,
            r.tgt_memory == 0,
            r.tgt_heatmap.nodes@.len() == 0,
            r.tgt_heatmap.old_nodes@.len() == 0,
    {
        AIClass { target: None, state: AIState::Idle, tgt_memory: 0, tgt_heatmap: HeatMap::new() }
    }
}

} // verus!
