use vstd::prelude::*;
use crate::camera::{Camera, centred_on, framable};
use crate::generator::{MapGenerator, level_ok};
use crate::geometry::{Coord, rect_center};
use crate::blockmove::update_blocked_tiles;
use crate::combat::{proc_all_wounds, proc_regen, regen_step, wounds_all_fit, wounds_step};
use crate::fov::fov_step;
use crate::blockmove::occupancy_matches;
use crate::fov::process_fov;
use crate::logs::{LogBuffer, LogBufferTrait, LogMessage};
use crate::map::GameMap;
use crate::object::{ColorPair, Rgb};
use crate::playermem::{memory_step, update_player_memory};
use crate::object::{ActorTag, InInventory, Object};
use crate::spawn::{SpawnEntry, spawn_player, total_weight};
use bracket_random::prelude::RandomNumberGenerator;

verus! {

/// Whose decisions come next.
#[derive(Clone, Copy, PartialEq, Eq, Structural, Debug)]
pub enum TurnState {
    Player,
    AI,
    GameOver,
}

/// What the screen is showing.
#[derive(Clone, Copy, PartialEq, Eq, Structural, Debug)]
pub enum ContextStatus {
    InGame,
    InventoryOpen,
    MainMenu,
    PauseMenu,
}

/// The events that move the turn scheduler.
#[derive(Clone, Copy, PartialEq, Eq, Structural, Debug)]
pub enum TurnEvent {
    /// The player's chosen action used up the turn.
    PlayerActed,
    /// Every eligible non-player actor has acted.
    AllActed,
    /// The player's health reached zero.
    PlayerDied,
    /// A fresh game was started from the menu.
    NewGame,
}

/// The scheduler's transition: a consumed player action hands the turn to the other
/// actors, their pass hands it back, the player's death ends the game from any state,
/// and only a fresh game leaves the end.
pub open spec fn spec_next_turn(s: TurnState, e: TurnEvent) -> TurnState {
    match e {
        TurnEvent::PlayerDied => TurnState::GameOver,
        TurnEvent::NewGame => TurnState::Player,
        TurnEvent::PlayerActed => if s == TurnState::Player { TurnState::AI } else { s },
        TurnEvent::AllActed => if s == TurnState::AI { TurnState::Player } else { s },
    }
}

pub fn next_turn(s: TurnState, e: TurnEvent) -> (r: TurnState)
    ensures
        r == spec_next_turn(s, e),
{
    match e {
        TurnEvent::PlayerDied => TurnState::GameOver,
        TurnEvent::NewGame => TurnState::Player,
        TurnEvent::PlayerActed => if s == TurnState::Player { TurnState::AI } else { s },
        TurnEvent::AllActed => if s == TurnState::AI { TurnState::Player } else { s },
    }
}

/// The end of the game is left only by starting a fresh game.
pub proof fn lemma_game_over_terminal(e: TurnEvent)
    ensures
        e != TurnEvent::NewGame ==> spec_next_turn(TurnState::GameOver, e) == TurnState::GameOver,
{
}

/// Where the mouse is now and where it was at the previous frame.
pub struct MouseLocation {
    pub current: Coord,
    pub prev: Coord,
}

impl MouseLocation {
    pub fn new() -> (r: MouseLocation)
        ensures
            r.current == (Coord { x: 0, y: 0 }),
            r.prev == (Coord { x: 0, y: 0 }),
    {
        MouseLocation { current: Coord { x: 0, y: 0 }, prev: Coord { x: 0, y: 0 } }
    }

    pub fn has_changed(&self) -> (r: bool)
        ensures
            r == (self.current != self.prev),
    {
        self.current != self.prev
    }

    /// Records the mouse point of a new frame.
    pub fn get_pos(&mut self, point: Coord)
        ensures
            final(self).prev == old(self).current,
            final(self).current == point,
    {
        self.prev = self.current;
        self.current = point;
    }
}

/// Size of every generated level.
pub const LEVEL_W: i32 = 60;

pub const LEVEL_H: i32 = 60;

/// Room quota of every generated level.
pub const LEVEL_ROOMS: usize = 20;

/// The whole simulation state: the generator, the actors (index 0 is the player), the
/// current and previous level, the depth and the camera.
pub struct World {
    pub rng: RandomNumberGenerator,
    pub objects: Vec<Object>,
    pub active_map: GameMap,
    pub last_map: Option<GameMap>,
    pub depth: i32,
    pub camera: Camera,
}

/// The actor is left behind: more than one floor up and carried by no one.
pub open spec fn stale(o: Object, depth: i32) -> bool {
    o.floor < depth - 1 && o.in_inventory is None
}

/// The actor is removed when leaving floors behind: it is stale, or carried by a stale actor.
pub open spec fn pruned(objects: Seq<Object>, k: int, depth: i32) -> bool {
    stale(objects[k], depth) || (objects[k].in_inventory matches Some(inv) && inv.owner_id < objects.len()
        && stale(objects[inv.owner_id as int], depth))
}

/// The player after going down to `depth`: standing at `start` on the new floor with
/// its sight due for a refresh.
pub open spec fn descended_player(p: Object, start: Coord, depth: i32) -> Object {
    Object {
        floor: depth,
        pos: Some(start),
        viewshed: match p.viewshed {
            Some(v) => Some(crate::object::Viewshed { refresh: true, ..v }),
            None => None,
        },
        ..p
    }
}

impl World {
    /// A world with no actors and an empty map, at depth 0.
    pub fn empty(rng: RandomNumberGenerator) -> (r: World)
        ensures
            r.objects@.len() == 0,
            r.active_map.wf(),
            r.active_map.width == 0,
            r.active_map.height == 0,
            r.last_map is None,
            r.depth == 0,
            centred_on(r.camera, Coord { x: 0, y: 0 }),
    {
        World {
            rng,
            objects: Vec::new(),
            active_map: GameMap::new(0, 0),
            last_map: None,
            depth: 0,
            camera: Camera::new(Coord { x: 0, y: 0 }),
        }
    }

    /// A fresh game on a new level at depth 1: the player at the start, then the
    /// starting equipment, then one enemy in every room but the first.
    pub fn new_game(rng: RandomNumberGenerator, start_equip: Vec<Object>, table: &Vec<SpawnEntry>) -> (r: World)
        requires
            0 < total_weight(table@) <= i32::MAX,
        ensures
            r.depth == 1,
            r.last_map is None,
            r.active_map.wf(),
            r.active_map.width == LEVEL_W,
            r.active_map.height == LEVEL_H,
            r.objects@.len() >= 1 + start_equip@.len(),
            r.objects@[0].tag == Some(ActorTag::Player),
            r.objects@[0].pos matches Some(p) && r.active_map.passable(p) && centred_on(r.camera, p),
            forall|j: int| 0 <= j < start_equip@.len() ==> #[trigger] r.objects@[1 + j] == start_equip@[j],
    {
        let mut rng = rng;
        let gen = MapGenerator::random_rooms_build(LEVEL_W, LEVEL_H, 1, LEVEL_ROOMS, &mut rng, table);
        let start = gen.start_pos;
        proof {
            let rs = gen.rooms@;
            assert(rect_center(rs[0]) == start);
            crate::generator::lemma_start_walkable(gen, LEVEL_W as int, LEVEL_H as int);
        }
        let mut objects: Vec<Object> = Vec::new();
        objects.push(spawn_player(start));
        let mut equip = start_equip;
        let ghost eq0 = equip@;
        objects.append(&mut equip);
        let mut enemies = gen.objects;
        objects.append(&mut enemies);
        World { rng, objects, active_map: gen.map, last_map: None, depth: 1, camera: Camera::new(start) }
    }

    /// Goes down one floor: keeps the current level as the previous one, builds a new
    /// level (drawing from `table`), puts the player at its start with sight to refresh,
    /// adds its enemies, and removes what was left more than one floor behind.
    pub fn descend_to_next(&mut self, table: &Vec<SpawnEntry>)
        requires
            0 < total_weight(table@) <= i32::MAX,
            old(self).depth < i32::MAX,
            old(self).objects@.len() >= 1,
            old(self).objects@[0].in_inventory is None,
        ensures
            final(self).depth == old(self).depth + 1,
            final(self).last_map matches Some(m) && m.tiles@ == old(self).active_map.tiles@
                && m.width == old(self).active_map.width && m.height == old(self).active_map.height
                && m.visible@ == old(self).active_map.visible@ && m.revealed@ == old(self).active_map.revealed@
                && m.objblocked@ == old(self).active_map.objblocked@,
            exists|g: MapGenerator| {
                &&& #[trigger] level_ok(g, LEVEL_W as int, LEVEL_H as int)
                &&& final(self).active_map == g.map
                &&& forall|k: int| 0 <= k < g.objects@.len() ==> crate::spawn::placed_in(#[trigger] g.objects@[k], g.rooms@, 1, final(self).depth)
                &&& pruned_exact(old(self).objects@.update(0, descended_player(old(self).objects@[0], g.start_pos, final(self).depth)) + g.objects@,
                    final(self).objects@, final(self).depth)
                &&& final(self).objects@[0] == descended_player(old(self).objects@[0], g.start_pos, final(self).depth)
            },
            final(self).active_map.wf(),
            final(self).objects@.len() >= 1,
            final(self).objects@[0].floor == final(self).depth,
            final(self).objects@[0].pos matches Some(p) && final(self).active_map.passable(p),
            final(self).objects@[0].viewshed matches Some(v) ==> v.refresh,
            forall|j: int| 0 <= j < final(self).objects@.len() ==> !stale(#[trigger] final(self).objects@[j], final(self).depth),
    {
        self.last_map = Some(GameMap::from_copy(&self.active_map));
        self.depth = self.depth + 1;
        let depth = self.depth;
        let gen = MapGenerator::random_rooms_build(LEVEL_W, LEVEL_H, depth, LEVEL_ROOMS, &mut self.rng, table);
        let start = gen.start_pos;
        proof {
            crate::generator::lemma_start_walkable(gen, LEVEL_W as int, LEVEL_H as int);
        }
        {
            let p = &mut self.objects[0];
            p.floor = depth;
            p.pos = Some(start);
            if let Some(v) = &mut p.viewshed {
                v.refresh = true;
            }
        }
        self.camera = Camera::new(start);
        self.active_map = gen.map;
        let ghost g = gen;
        let mut enemies = gen.objects;
        let ghost en = enemies@;
        let ghost before = self.objects@;
        self.objects.append(&mut enemies);
        proof {
            assert(self.objects@[0] == before[0]);
            assert(self.objects@ =~= old(self).objects@.update(0, descended_player(old(self).objects@[0], g.start_pos, depth)) + g.objects@);
        }
        let ghost src = self.objects@;
        let mut objs: Vec<Object> = Vec::new();
        std::mem::swap(&mut objs, &mut self.objects);
        self.objects = prune_stale(objs, depth);
        assert(level_ok(g, LEVEL_W as int, LEVEL_H as int) && self.active_map == g.map && pruned_exact(src, self.objects@, depth));
    }
}

/// The scheduler's flags: whose turn it is, whether the systems must run this frame
/// (set by any action, separate from redrawing), whether the player's action used the
/// turn, and whether the player has died.
pub struct TurnFlags {
    pub turn_state: TurnState,
    pub proc: bool,
    pub passed: bool,
    pub gameover: bool,
}

impl TurnFlags {
    pub fn new() -> (r: TurnFlags)
        ensures
            r.turn_state == TurnState::Player,
            r.proc,
            !r.passed,
            !r.gameover,
    {
        TurnFlags { turn_state: TurnState::Player, proc: true, passed: false, gameover: false }
    }
}

/// A visibility pass when the map is well formed; nothing otherwise.
pub open spec fn fov_if_wf(o0: Seq<Object>, m0: GameMap, o1: Seq<Object>, m1: GameMap) -> bool {
    if m0.wf() {
        fov_step(o0, m0, o1, m1)
    } else {
        o1 == o0 && m1 == m0
    }
}

/// An occupancy rebuild for `depth` when the map is well formed; nothing otherwise.
pub open spec fn occupancy_if_wf(o: Seq<Object>, m0: GameMap, m1: GameMap, depth: i32) -> bool {
    if m0.wf() {
        &&& m1.wf()
        &&& m1.width == m0.width
        &&& m1.height == m0.height
        &&& m1.tiles@ == m0.tiles@
        &&& m1.visible@ == m0.visible@
        &&& m1.revealed@ == m0.revealed@
        &&& occupancy_matches(o, m1, depth)
    } else {
        m1 == m0
    }
}

/// Visibility, occupancy and then wounds, from `(o0, m0, d0)` to `(o3, m2, d1)`.
pub open spec fn settled(o0: Seq<Object>, m0: GameMap, depth: i32, d0: bool, o3: Seq<Object>, m2: GameMap, d1: bool) -> bool {
    exists|o1: Seq<Object>, m1: GameMap|
        #[trigger] fov_if_wf(o0, m0, o1, m1) && occupancy_if_wf(o1, m1, m2, depth) && wounds_step(o1, o3, d0, d1)
}

fn fov_checked(world: &mut World)
    ensures
        fov_if_wf(old(world).objects@, old(world).active_map, final(world).objects@, final(world).active_map),
        final(world).depth == old(world).depth,
{
    if world.active_map.is_wf() {
        process_fov(&mut world.objects, &mut world.active_map);
    }
}

fn occupancy_checked(world: &mut World)
    ensures
        occupancy_if_wf(old(world).objects@, old(world).active_map, final(world).active_map, old(world).depth),
        final(world).objects@ == old(world).objects@,
        final(world).depth == old(world).depth,
{
    if world.active_map.is_wf() {
        update_blocked_tiles(&world.objects, &mut world.active_map, world.depth);
    }
}

fn wounds_checked(world: &mut World, logs: &mut LogBuffer, died: &mut bool)
    ensures
        wounds_step(old(world).objects@, final(world).objects@, *old(died), *final(died)),
        *old(died) ==> *final(died),
        final(world).active_map == old(world).active_map,
        final(world).depth == old(world).depth,
{
    if wounds_all_fit(&world.objects) {
        proc_all_wounds(&mut world.objects, logs, died);
    }
}

/// Visibility, occupancy and wounds, when the actor list and map allow them.
fn settle(world: &mut World, logs: &mut LogBuffer, flags: &mut TurnFlags)
    ensures
        settled(old(world).objects@, old(world).active_map, old(world).depth, old(flags).gameover,
            final(world).objects@, final(world).active_map, final(flags).gameover),
        final(world).depth == old(world).depth,
        final(flags).turn_state == old(flags).turn_state,
        final(flags).proc == old(flags).proc,
        final(flags).passed == old(flags).passed,
        old(flags).gameover ==> final(flags).gameover,
{
    fov_checked(world);
    let ghost o1 = world.objects@;
    let ghost m1 = world.active_map;
    occupancy_checked(world);
    wounds_checked(world, logs, &mut flags.gameover);
    assert(fov_if_wf(old(world).objects@, old(world).active_map, o1, m1));
}

/// The systems of a phase change up to the non-player actors' pass: visibility,
/// occupancy and wounds; if the player's action used the turn, the turn passes to the
/// other actors, visibility is refreshed and regeneration counts a turn. Returns
/// whether the non-player actors are to act now. Nothing runs unless `proc` is set.
pub fn systems_before_ai(world: &mut World, logs: &mut LogBuffer, flags: &mut TurnFlags) -> (ai_phase: bool)
    ensures
        !old(flags).proc ==> !ai_phase && *final(flags) == *old(flags) && final(world).objects@ == old(world).objects@
            && final(world).active_map == old(world).active_map,
        old(flags).proc ==> final(flags).turn_state == if old(flags).passed {
            spec_next_turn(old(flags).turn_state, TurnEvent::PlayerActed)
        } else {
            old(flags).turn_state
        } && !final(flags).passed && final(flags).proc && ai_phase == (final(flags).turn_state == TurnState::AI),
        old(flags).proc && !old(flags).passed ==> settled(old(world).objects@, old(world).active_map, old(world).depth,
            old(flags).gameover, final(world).objects@, final(world).active_map, final(flags).gameover),
        old(flags).proc && old(flags).passed ==> exists|o: Seq<Object>, m: GameMap, o2: Seq<Object>|
            #[trigger] settled(old(world).objects@, old(world).active_map, old(world).depth, old(flags).gameover, o, m, final(flags).gameover)
            && #[trigger] fov_if_wf(o, m, o2, final(world).active_map) && regen_step(o2, final(world).objects@),
        final(world).depth == old(world).depth,
        old(flags).gameover ==> final(flags).gameover,
{
    if !flags.proc {
        return false;
    }
    settle(world, logs, flags);
    if flags.passed {
        let ghost o = world.objects@;
        let ghost m = world.active_map;
        flags.turn_state = next_turn(flags.turn_state, TurnEvent::PlayerActed);
        flags.passed = false;
        fov_checked(world);
        let ghost o2 = world.objects@;
        proc_regen(&mut world.objects);
        assert(settled(old(world).objects@, old(world).active_map, old(world).depth, old(flags).gameover, o, m, flags.gameover));
        assert(fov_if_wf(o, m, o2, world.active_map));
    }
    flags.turn_state == TurnState::AI
}

/// The non-player pass's aftermath, from `(o0, m0, d0)` to `(o1, m1, d1)`: when the
/// pass ran, a visibility pass and then wounds; otherwise nothing.
pub open spec fn after_pass(o0: Seq<Object>, m0: GameMap, d0: bool, ai_ran: bool, o1: Seq<Object>, m1: GameMap, d1: bool) -> bool {
    if ai_ran {
        exists|oa: Seq<Object>| #[trigger] fov_if_wf(o0, m0, oa, m1) && wounds_step(oa, o1, d0, d1)
    } else {
        o1 == o0 && m1 == m0 && d1 == d0
    }
}

/// The systems after the non-player actors' pass (run by the caller when
/// `systems_before_ai` asked for it): visibility and wounds again and the turn back to
/// the player; then the player's memory of what it sees. The game is over exactly when
/// the player has died (now or before). Clears `proc`.
pub fn systems_after_ai(world: &mut World, logs: &mut LogBuffer, flags: &mut TurnFlags, ai_ran: bool)
    ensures
        !final(flags).proc,
        !final(flags).gameover,
        final(flags).passed == old(flags).passed,
        final(world).depth == old(world).depth,
        exists|o: Seq<Object>, died: bool| {
            &&& #[trigger] after_pass(old(world).objects@, old(world).active_map, old(flags).gameover, ai_ran, o, final(world).active_map, died)
            &&& memory_step(o, final(world).objects@)
            &&& final(flags).turn_state == if died {
                TurnState::GameOver
            } else if ai_ran {
                spec_next_turn(old(flags).turn_state, TurnEvent::AllActed)
            } else {
                old(flags).turn_state
            }
        },
{
    let ghost d0 = flags.gameover;
    if ai_ran {
        fov_checked(world);
        let ghost oa = world.objects@;
        wounds_checked(world, logs, &mut flags.gameover);
        flags.turn_state = next_turn(flags.turn_state, TurnEvent::AllActed);
        assert(fov_if_wf(old(world).objects@, old(world).active_map, oa, world.active_map));
    }
    let ghost o = world.objects@;
    let ghost died = flags.gameover;
    assert(after_pass(old(world).objects@, old(world).active_map, d0, ai_ran, o, world.active_map, died));
    update_player_memory(&mut world.objects);
    if flags.gameover {
        let white = ColorPair::new(Rgb::new(255, 255, 255), Rgb::new(25, 25, 25));
        let green = ColorPair::new(Rgb::new(50, 205, 50), Rgb::new(25, 25, 25));
        logs.update_logs(LogMessage::new()
            .add_part(String::from_str("Press"), white)
            .add_part(String::from_str("Enter"), green)
            .add_part(String::from_str("or"), white)
            .add_part(String::from_str("R"), green)
            .add_part(String::from_str("to return to the main menu."), white));
        let mut text = String::from_str("You have perished on level ");
        let d = world.depth.to_string();
        text.append(d.as_str());
        text.append(".");
        logs.update_logs(LogMessage::new().add_part(text, ColorPair::new(Rgb::new(0, 0, 0), Rgb::new(255, 0, 0))));
        flags.turn_state = next_turn(flags.turn_state, TurnEvent::PlayerDied);
        flags.gameover = false;
    }
    flags.proc = false;
    assert(after_pass(old(world).objects@, old(world).active_map, old(flags).gameover, ai_ran, o, world.active_map, died)
        && memory_step(o, world.objects@)
        && flags.turn_state == if died {
            TurnState::GameOver
        } else if ai_ran {
            spec_next_turn(old(flags).turn_state, TurnEvent::AllActed)
        } else {
            old(flags).turn_state
        });
}

/// The number of actors before index `k` that are not pruned.
pub open spec fn kept_before(objects: Seq<Object>, k: int, depth: i32) -> int
    decreases k,
{
    if k <= 0 {
        0
    } else {
        kept_before(objects, k - 1, depth) + if pruned(objects, k - 1, depth) { 0int } else { 1int }
    }
}

/// `o` with the index of its carrier moved to where the carrier stands after pruning.
pub open spec fn reindexed(objects: Seq<Object>, o: Object, depth: i32) -> Object {
    match o.in_inventory {
        Some(inv) => if inv.owner_id < objects.len() {
            Object { in_inventory: Some(InInventory { owner_id: kept_before(objects, inv.owner_id as int, depth) as usize }), ..o }
        } else {
            o
        },
        None => o,
    }
}

/// `r` holds exactly the actors of `objects` that are not pruned, in order, re-indexed.
pub open spec fn pruned_exact(objects: Seq<Object>, r: Seq<Object>, depth: i32) -> bool {
    &&& r.len() == kept_before(objects, objects.len() as int, depth)
    &&& forall|k: int| 0 <= k < objects.len() && !pruned(objects, k, depth) ==> r[kept_before(objects, k, depth)]
        == reindexed(objects, #[trigger] objects[k], depth)
}

proof fn lemma_kept_before_monotone(objects: Seq<Object>, i: int, j: int, depth: i32)
    requires
        0 <= i <= j,
    ensures
        0 <= kept_before(objects, i, depth) <= kept_before(objects, j, depth) <= kept_before(objects, i, depth) + (j - i),
    decreases j - i,
{
    if i < j {
        lemma_kept_before_monotone(objects, i, j - 1, depth);
    } else {
        lemma_kept_before_nonneg(objects, i, depth);
    }
}

proof fn lemma_kept_before_nonneg(objects: Seq<Object>, i: int, depth: i32)
    ensures
        0 <= kept_before(objects, i, depth),
    decreases i,
{
    if i > 0 {
        lemma_kept_before_nonneg(objects, i - 1, depth);
    }
}

/// The actors that are not pruned, in order, with each carried item's owner index
/// moved to where its owner now stands.
#[verifier::rlimit(80)]
pub fn prune_stale(objects: Vec<Object>, depth: i32) -> (r: Vec<Object>)
    requires
        depth > i32::MIN,
    ensures
        pruned_exact(objects@, r@, depth),
        forall|j: int| 0 <= j < r@.len() ==> !stale(#[trigger] r@[j], depth),
        r@.len() <= objects@.len(),
        objects@.len() >= 1 && !stale(objects@[0], depth) && objects@[0].in_inventory is None ==> r@.len() >= 1 && r@[0] == objects@[0],
{
    let n = objects.len();
    let mut gone: Vec<bool> = Vec::new();
    let mut i: usize = 0;
    while i < n
        invariant
            n == objects@.len(),
            i <= n,
            gone@.len() == i,
            depth > i32::MIN,
            forall|k: int| 0 <= k < i ==> #[trigger] gone@[k] == stale(objects@[k], depth),
        decreases n - i,
    {
        gone.push(objects[i].floor < depth - 1 && objects[i].in_inventory.is_none());
        i = i + 1;
    }
    let mut drop: Vec<bool> = Vec::new();
    let mut newidx: Vec<usize> = Vec::new();
    let mut kept: usize = 0;
    let mut i: usize = 0;
    while i < n
        invariant
            n == objects@.len(),
            gone@.len() == n,
            i <= n,
            drop@.len() == i,
            newidx@.len() == i,
            kept <= i,
            forall|k: int| 0 <= k < n ==> #[trigger] gone@[k] == stale(objects@[k], depth),
            forall|k: int| 0 <= k < i ==> (#[trigger] drop@[k] <==> pruned(objects@, k, depth)),
            forall|k: int| 0 <= k < i ==> #[trigger] newidx@[k] <= kept,
            i > 0 && !drop@[0] ==> newidx@[0] == 0,
            kept == kept_before(objects@, i as int, depth),
            forall|k: int| 0 <= k < i ==> #[trigger] newidx@[k] == kept_before(objects@, k, depth),
        decreases n - i,
    {
        let d = match &objects[i].in_inventory {
            Some(inv) => gone[i] || (inv.owner_id < n && gone[inv.owner_id]),
            None => gone[i],
        };
        drop.push(d);
        newidx.push(kept);
        if !d {
            kept = kept + 1;
        }
        proof {
            lemma_kept_before_monotone(objects@, i as int, i + 1, depth);
        }
        i = i + 1;
    }
    let mut rev: Vec<Object> = Vec::new();
    let mut src = objects;
    while src.len() > 0
        invariant
            rev@.len() + src@.len() == n,
            forall|k: int| 0 <= k < src@.len() ==> #[trigger] src@[k] == objects@[k],
            forall|k: int| 0 <= k < rev@.len() ==> #[trigger] rev@[k] == objects@[n - 1 - k],
        decreases src@.len(),
    {
        let o = src.pop().unwrap();
        rev.push(o);
    }
    let mut out: Vec<Object> = Vec::new();
    let mut k: usize = 0;
    while k < n
        invariant
            n == objects@.len(),
            gone@.len() == n,
            drop@.len() == n,
            newidx@.len() == n,
            k <= n,
            rev@.len() == n - k,
            forall|t: int| 0 <= t < rev@.len() ==> #[trigger] rev@[t] == objects@[n - 1 - t],
            forall|t: int| 0 <= t < n ==> #[trigger] gone@[t] == stale(objects@[t], depth),
            forall|t: int| 0 <= t < n ==> (#[trigger] drop@[t] <==> pruned(objects@, t, depth)),
            forall|j: int| 0 <= j < out@.len() ==> !stale(#[trigger] out@[j], depth),
            out@.len() <= k,
            k > 0 && !drop@[0] && objects@[0].in_inventory is None ==> out@.len() >= 1 && out@[0] == objects@[0],
            out@.len() == kept_before(objects@, k as int, depth),
            forall|t: int| 0 <= t < n ==> #[trigger] newidx@[t] == kept_before(objects@, t, depth),
            forall|t: int| 0 <= t < k && !pruned(objects@, t, depth) ==> out@[kept_before(objects@, t, depth)]
                == reindexed(objects@, #[trigger] objects@[t], depth),
        decreases n - k,
    {
        let mut o = rev.pop().unwrap();
        assert(o == objects@[k as int]);
        if !drop[k] {
            let remap = match &o.in_inventory {
                Some(inv) => if inv.owner_id < n { Some(newidx[inv.owner_id]) } else { None },
                None => None,
            };
            if let Some(ni) = remap {
                o.in_inventory = Some(InInventory { owner_id: ni });
            }
            let ghost before = out@;
            out.push(o);
            proof {
                assert(out@ == before.push(o));
                assert(out@[out@.len() - 1] == o);
                assert(o == reindexed(objects@, objects@[k as int], depth));
                assert forall|t: int| 0 <= t < k && !pruned(objects@, t, depth) implies out@[kept_before(objects@, t, depth)]
                    == reindexed(objects@, #[trigger] objects@[t], depth) by {
                    lemma_kept_before_monotone(objects@, t + 1, k as int, depth);
                    lemma_kept_before_nonneg(objects@, t, depth);
                    assert(kept_before(objects@, t + 1, depth) == kept_before(objects@, t, depth) + 1);
                    assert(kept_before(objects@, t, depth) < before.len());
                    assert(before.push(o)[kept_before(objects@, t, depth)] == before[kept_before(objects@, t, depth)]);
                }
                if k == 0 && objects@[0].in_inventory is None {
                    assert(out@[0] == objects@[0]);
                }
                if k > 0 && before.len() >= 1 {
                    assert(out@[0] == before[0]);
                }
            }
        }
        proof {
            lemma_kept_before_monotone(objects@, k as int, k + 1, depth);
        }
        k = k + 1;
    }
    out
}

} // verus!
