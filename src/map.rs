use vstd::prelude::*;
use crate::geometry::Coord;

verus! {

/// The class of a tile, ordered so that collision and sight-blocking are thresholds.
#[derive(Clone, Copy, PartialEq, Eq, Structural, Debug)]
pub enum TileClass {
    Wall,
    Glass,
    Floor,
    DownStair,
}

/// Movement through the tile is impossible.
pub open spec fn collides(t: TileClass) -> bool {
    t == TileClass::Wall || t == TileClass::Glass
}

/// Line of sight through the tile is impossible.
pub open spec fn blocks_sight(t: TileClass) -> bool {
    t == TileClass::Wall
}

impl TileClass {
    pub fn does_collide(&self) -> (r: bool)
        ensures
            r == collides(*self),
    {
        match self {
            TileClass::Wall | TileClass::Glass => true,
            _ => false,
        }
    }

    pub fn does_blos(&self) -> (r: bool)
        ensures
            r == blocks_sight(*self),
    {
        match self {
            TileClass::Wall => true,
            _ => false,
        }
    }
}

/// Movement cost of an orthogonal step, in hundredths of a tile.
pub const ORTHOGONAL_COST: u32 = 100;

/// Movement cost of a diagonal step, in hundredths of a tile.
pub const DIAGONAL_COST: u32 = 145;

/// A fixed-size tile grid; every per-tile array is addressed by `y * width + x`.
pub struct GameMap {
    pub width: i32,
    pub height: i32,
    pub tiles: Vec<TileClass>,
    pub visible: Vec<bool>,
    pub revealed: Vec<bool>,
    pub objblocked: Vec<bool>,
}

/// `y * w + x` addresses a tile inside a `w` by `h` grid.
pub proof fn lemma_index_in_range(x: int, y: int, w: int, h: int)
    requires
        0 <= x < w,
        0 <= y < h,
    ensures
        0 <= y * w + x < w * h,
{
    assert(0 <= y * w) by (nonlinear_arith)
        requires 0 <= y, 0 <= w;
    assert(y * w + x < w * h) by (nonlinear_arith)
        requires 0 <= x < w, 0 <= y < h;
}

/// Distinct tiles have distinct indices.
pub proof fn lemma_index_injective(x1: int, y1: int, x2: int, y2: int, w: int)
    requires
        0 <= x1 < w,
        0 <= x2 < w,
        0 <= y1,
        0 <= y2,
        y1 * w + x1 == y2 * w + x2,
    ensures
        x1 == x2,
        y1 == y2,
{
    if y1 < y2 {
        assert(y1 * w + x1 < y2 * w + x2) by (nonlinear_arith)
            requires 0 <= x1 < w, 0 <= x2, y1 < y2;
    } else if y2 < y1 {
        assert(y2 * w + x2 < y1 * w + x1) by (nonlinear_arith)
            requires 0 <= x2 < w, 0 <= x1, y2 < y1;
    }
}

impl GameMap {
    pub open spec fn size(&self) -> int {
        self.width * self.height
    }

    /// Dimensions are non-negative and every array holds one entry per tile.
    pub open spec fn wf(&self) -> bool {
        &&& 0 <= self.width
        &&& 0 <= self.height
        &&& self.width * self.height <= i32::MAX
        &&& self.tiles@.len() == self.size()
        &&& self.visible@.len() == self.size()
        &&& self.revealed@.len() == self.size()
        &&& self.objblocked@.len() == self.size()
    }

    pub open spec fn spec_in_bounds(&self, x: int, y: int) -> bool {
        0 <= x < self.width && 0 <= y < self.height
    }

    pub open spec fn spec_index(&self, x: int, y: int) -> int {
        y * self.width + x
    }

    pub open spec fn tile_at(&self, p: Coord) -> TileClass {
        self.tiles@[self.spec_index(p.x as int, p.y as int)]
    }

    /// The tile is inside the map and not a colliding tile class.
    pub open spec fn passable(&self, p: Coord) -> bool {
        self.spec_in_bounds(p.x as int, p.y as int) && !collides(self.tile_at(p))
    }

    pub open spec fn spec_walkable(&self, x: int, y: int) -> bool {
        &&& self.spec_in_bounds(x, y)
        &&& !collides(self.tiles@[self.spec_index(x, y)])
        &&& !self.objblocked@[self.spec_index(x, y)]
    }

    /// The point whose index is `idx`.
    pub open spec fn spec_point(&self, idx: int) -> Coord {
        Coord { x: (idx % self.width as int) as i32, y: (idx / self.width as int) as i32 }
    }

    /// The exit towards `(x + dx, y + dy)` with the given cost, if that tile can be walked on.
    pub open spec fn exit_if(&self, x: int, y: int, dx: int, dy: int, cost: u32) -> Seq<
        (usize, u32),
    > {
        if self.spec_walkable(x + dx, y + dy) {
            seq![(self.spec_index(x + dx, y + dy) as usize, cost)]
        } else {
            seq![]
        }
    }

    /// Exits from a tile in the order left, right, up, down, then the four diagonals.
    pub open spec fn spec_exits(&self, x: int, y: int) -> Seq<(usize, u32)> {
        self.exit_if(x, y, -1, 0, ORTHOGONAL_COST) + self.exit_if(x, y, 1, 0, ORTHOGONAL_COST)
            + self.exit_if(x, y, 0, -1, ORTHOGONAL_COST) + self.exit_if(x, y, 0, 1, ORTHOGONAL_COST)
            + self.exit_if(x, y, -1, -1, DIAGONAL_COST) + self.exit_if(x, y, -1, 1, DIAGONAL_COST)
            + self.exit_if(x, y, 1, -1, DIAGONAL_COST) + self.exit_if(x, y, 1, 1, DIAGONAL_COST)
    }

    /// Whether `wf` holds.
    pub fn is_wf(&self) -> (r: bool)
        ensures
            r == self.wf(),
    {
        if self.width < 0 || self.height < 0 {
            return false;
        }
        let w: i64 = self.width as i64;
        let h: i64 = self.height as i64;
        assert(0 <= w * h <= 0x4000_0000_0000_0000) by (nonlinear_arith)
            requires 0 <= w <= 0x8000_0000, 0 <= h <= 0x8000_0000;
        let n: i64 = w * h;
        if n > i32::MAX as i64 {
            return false;
        }
        let n = n as usize;
        self.tiles.len() == n && self.visible.len() == n && self.revealed.len() == n
            && self.objblocked.len() == n
    }

    /// Whether `passable` holds at `p`.
    pub fn is_passable(&self, p: Coord) -> (r: bool)
        requires
            self.wf(),
        ensures
            r == self.passable(p),
    {
        if !self.in_bounds(p.x, p.y) {
            return false;
        }
        let idx = self.index(p.x, p.y);
        !self.tiles[idx].does_collide()
    }

    /// A map of floor tiles with every flag cleared.
    pub fn new(w: i32, h: i32) -> (r: GameMap)
        requires
            0 <= w,
            0 <= h,
            w * h <= i32::MAX,
        ensures
            r.wf(),
            r.width == w,
            r.height == h,
            forall|i: int| 0 <= i < r.size() ==> r.tiles@[i] == TileClass::Floor,
            forall|i: int| 0 <= i < r.size() ==> !r.visible@[i],
            forall|i: int| 0 <= i < r.size() ==> !r.revealed@[i],
            forall|i: int| 0 <= i < r.size() ==> !r.objblocked@[i],
    {
        let n: usize = (w * h) as usize;
        let mut tiles: Vec<TileClass> = Vec::new();
        let mut visible: Vec<bool> = Vec::new();
        let mut revealed: Vec<bool> = Vec::new();
        let mut objblocked: Vec<bool> = Vec::new();
        let mut i: usize = 0;
        while i < n
            invariant
                i <= n,
                tiles@.len() == i,
                visible@.len() == i,
                revealed@.len() == i,
                objblocked@.len() == i,
                forall|j: int| 0 <= j < i ==> tiles@[j] == TileClass::Floor,
                forall|j: int| 0 <= j < i ==> !visible@[j] && !revealed@[j] && !objblocked@[j],
            decreases n - i,
        {
            tiles.push(TileClass::Floor);
            visible.push(false);
            revealed.push(false);
            objblocked.push(false);
            i = i + 1;
        }
        GameMap { width: w, height: h, tiles, visible, revealed, objblocked }
    }

    /// An independent copy of a map.
    pub fn from_copy(old_map: &GameMap) -> (r: GameMap)
        ensures
            r.width == old_map.width,
            r.height == old_map.height,
            r.tiles@ == old_map.tiles@,
            r.visible@ == old_map.visible@,
            r.revealed@ == old_map.revealed@,
            r.objblocked@ == old_map.objblocked@,
    {
        let mut tiles: Vec<TileClass> = Vec::new();
        let mut i: usize = 0;
        while i < old_map.tiles.len()
            invariant
                i <= old_map.tiles@.len(),
                tiles@ == old_map.tiles@.subrange(0, i as int),
            decreases old_map.tiles@.len() - i,
        {
            tiles.push(old_map.tiles[i]);
            i = i + 1;
            assert(tiles@ =~= old_map.tiles@.subrange(0, i as int));
        }
        assert(tiles@ =~= old_map.tiles@);
        let visible = copy_flags(&old_map.visible);
        let revealed = copy_flags(&old_map.revealed);
        let objblocked = copy_flags(&old_map.objblocked);
        GameMap { width: old_map.width, height: old_map.height, tiles, visible, revealed, objblocked }
    }

    /// The array index of an in-bounds tile.
    pub fn index(&self, x: i32, y: i32) -> (r: usize)
        requires
            self.wf(),
            self.spec_in_bounds(x as int, y as int),
        ensures
            r as int == self.spec_index(x as int, y as int),
            r < self.size(),
    {
        proof {
            lemma_index_in_range(x as int, y as int, self.width as int, self.height as int);
        }
        ((y * self.width) + x) as usize
    }

    /// The point of an array index; the inverse of `index`.
    pub fn point_from_idx(&self, idx: usize) -> (r: Coord)
        requires
            self.wf(),
            idx < self.size(),
        ensures
            r == self.spec_point(idx as int),
            self.spec_in_bounds(r.x as int, r.y as int),
            self.spec_index(r.x as int, r.y as int) == idx,
    {
        let w = self.width;
        assert(w > 0) by (nonlinear_arith)
            requires idx < w * self.height, 0 <= self.height, 0 <= idx;
        let ii = idx as i32;
        let x = ii % w;
        let y = ii / w;
        assert(y < self.height) by (nonlinear_arith)
            requires ii < w * self.height, w > 0, y == ii / w, 0 <= ii;
        assert(ii == y * w + x) by (nonlinear_arith)
            requires w > 0, y == ii / w, x == ii % w;
        Coord { x, y }
    }

    /// The index of a tile, or `None` outside the map.
    pub fn try_index(&self, x: i32, y: i32) -> (r: Option<usize>)
        requires
            self.wf(),
        ensures
            r == (if self.spec_in_bounds(x as int, y as int) {
                Some(self.spec_index(x as int, y as int) as usize)
            } else {
                None
            }),
            r matches Some(i) ==> i < self.size(),
    {
        if !self.in_bounds(x, y) {
            None
        } else {
            Some(self.index(x, y))
        }
    }

    pub fn in_bounds(&self, x: i32, y: i32) -> (r: bool)
        ensures
            r == self.spec_in_bounds(x as int, y as int),
    {
        x >= 0 && x < self.width && y >= 0 && y < self.height
    }

    /// In bounds, not a colliding tile, and not blocked by an occupant.
    pub fn walkable(&self, x: i32, y: i32) -> (r: bool)
        requires
            self.wf(),
        ensures
            r == self.spec_walkable(x as int, y as int),
            !self.spec_in_bounds(x as int, y as int) ==> !r,
    {
        if !self.in_bounds(x, y) {
            return false;
        }
        let idx = self.index(x, y);
        !self.tiles[idx].does_collide() && !self.objblocked[idx]
    }

    /// Sight through the tile at `idx` is blocked; out-of-range indices block sight.
    pub fn blocks_sight_at(&self, idx: usize) -> (r: bool)
        ensures
            r == (idx >= self.tiles@.len() || blocks_sight(self.tiles@[idx as int])),
    {
        if idx < self.tiles.len() {
            self.tiles[idx].does_blos()
        } else {
            true
        }
    }

    fn valid_exit(&self, pos: Coord, dx: i32, dy: i32) -> (r: Option<usize>)
        requires
            self.wf(),
            self.spec_in_bounds(pos.x as int, pos.y as int),
            -1 <= dx <= 1,
            -1 <= dy <= 1,
        ensures
            r == (if self.spec_walkable(pos.x + dx, pos.y + dy) {
                Some(self.spec_index(pos.x + dx, pos.y + dy) as usize)
            } else {
                None
            }),
    {
        let dest = pos.offset(dx, dy);
        if self.walkable(dest.x, dest.y) {
            Some(self.index(dest.x, dest.y))
        } else {
            None
        }
    }

    fn push_exit(&self, exits: &mut Vec<(usize, u32)>, pos: Coord, dx: i32, dy: i32, cost: u32)
        requires
            self.wf(),
            self.spec_in_bounds(pos.x as int, pos.y as int),
            -1 <= dx <= 1,
            -1 <= dy <= 1,
        ensures
            final(exits)@ == old(exits)@ + self.exit_if(pos.x as int, pos.y as int, dx as int, dy as int, cost),
    {
        match self.valid_exit(pos, dx, dy) {
            Some(i) => {
                exits.push((i, cost));
                assert(final(exits)@ =~= old(exits)@ + self.exit_if(pos.x as int, pos.y as int, dx as int, dy as int, cost));
            },
            None => {
                assert(old(exits)@ =~= old(exits)@ + self.exit_if(pos.x as int, pos.y as int, dx as int, dy as int, cost));
            },
        }
    }

    /// The walkable neighbours of a tile with their movement costs in hundredths
    /// (100 orthogonal, 145 diagonal).
    pub fn get_available_exits(&self, idx: usize) -> (r: Vec<(usize, u32)>)
        requires
            self.wf(),
            idx < self.size(),
        ensures
            r@ == self.spec_exits(self.spec_point(idx as int).x as int, self.spec_point(idx as int).y as int),
            r@.len() <= 8,
    {
        let mut exits: Vec<(usize, u32)> = Vec::new();
        let p = self.point_from_idx(idx);
        self.push_exit(&mut exits, p, -1, 0, ORTHOGONAL_COST);
        self.push_exit(&mut exits, p, 1, 0, ORTHOGONAL_COST);
        self.push_exit(&mut exits, p, 0, -1, ORTHOGONAL_COST);
        self.push_exit(&mut exits, p, 0, 1, ORTHOGONAL_COST);
        self.push_exit(&mut exits, p, -1, -1, DIAGONAL_COST);
        self.push_exit(&mut exits, p, -1, 1, DIAGONAL_COST);
        self.push_exit(&mut exits, p, 1, -1, DIAGONAL_COST);
        self.push_exit(&mut exits, p, 1, 1, DIAGONAL_COST);
        assert(exits@ =~= self.spec_exits(p.x as int, p.y as int));
        exits
    }

    /// Squared Euclidean distance between the centres of two tiles.
    pub fn get_pathing_distance_sq(&self, idx1: usize, idx2: usize) -> (r: i128)
        requires
            self.wf(),
            idx1 < self.size(),
            idx2 < self.size(),
        ensures
            r == crate::geometry::dist_sq(self.spec_point(idx1 as int), self.spec_point(idx2 as int)),
    {
        let a = self.point_from_idx(idx1);
        let b = self.point_from_idx(idx2);
        crate::geometry::distance_sq(a, b)
    }

    /// The width and height as a point.
    pub fn dimensions(&self) -> (r: Coord)
        ensures
            r.x == self.width,
            r.y == self.height,
    {
        Coord { x: self.width, y: self.height }
    }
}

fn copy_flags(v: &Vec<bool>) -> (r: Vec<bool>)
    ensures
        r@ == v@,
{
    let r = v.clone();
    assert(r@ =~= v@);
    r
}

impl bracket_pathfinding::prelude::BaseMap for GameMap {
    fn is_opaque(&self, idx: usize) -> bool {
        self.blocks_sight_at(idx)
    }
}

impl bracket_pathfinding::prelude::Algorithm2D for GameMap {
    /// Relies on bracket-geometry's `Point::constant`, which builds a point from two `i32`s.
    #[verifier::external_body]
    fn dimensions(&self) -> bracket_geometry::prelude::Point {
        bracket_geometry::prelude::Point::constant(self.width, self.height)
    }
}

/// The set of coordinates of a list of points.
pub open spec fn point_set(s: Seq<Coord>) -> Set<(int, int)> {
    Set::new(|c: (int, int)| exists|i: int| 0 <= i < s.len() && s[i].x == c.0 && s[i].y == c.1)
}

/// What bracket-pathfinding's shadowcasting field of view returns, as a set of coordinates:
/// a function of the viewer, the range, the dimensions and the opacity of each tile.
pub uninterp spec fn sight_of(cx: int, cy: int, range: int, w: int, h: int, opaque: Seq<bool>) -> Set<(int, int)>;

/// Opacity of each tile, as the field of view reads it.
pub open spec fn opacity(m: &GameMap) -> Seq<bool> {
    m.tiles@.map_values(|t: TileClass| blocks_sight(t))
}

/// The longest sight range the field of view is computed for.
pub const MAX_SIGHT: i32 = 20000;

/// Relies on `field_of_view`: the points seen from `center` within `range` on `map`
/// (it collects a `HashSet`, so the order of the points is not fixed). Its arithmetic
/// on coordinates and on the squared range stays within `i32` for these inputs.
#[verifier::external_body]
pub(crate) fn field_of_view(center: Coord, range: i32, map: &GameMap) -> (r: Vec<Coord>)
    requires
        map.wf(),
        map.width <= 0x4000_0000,
        map.height <= 0x4000_0000,
        map.spec_in_bounds(center.x as int, center.y as int),
        0 <= range <= MAX_SIGHT,
    ensures
        point_set(r@) == sight_of(center.x as int, center.y as int, range as int, map.width as int, map.height as int, opacity(map)),
{
    bracket_pathfinding::prelude::field_of_view(
        bracket_geometry::prelude::Point::constant(center.x, center.y),
        range,
        map,
    ).into_iter().map(|p| Coord { x: p.x, y: p.y }).collect()
}

} // verus!
