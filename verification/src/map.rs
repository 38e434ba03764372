//! The dungeon: a grid of tiles with its rooms and its per-tile bookkeeping.

use vstd::prelude::*;
use crate::components::GridPoint;
use crate::entity::Entity;
use crate::rect::Rect;

verus! {

/// Width of a generated dungeon level.
pub const MAP_WIDTH: i32 = 80;

/// Height of a generated dungeon level.
pub const MAP_HEIGHT: i32 = 43;

/// The longest side a map may have; a tile index then fits in an `i32`.
pub const MAX_MAP_SIDE: i32 = 32767;

/// Cost of a step along a row or a column, in hundredths.
pub const CARDINAL_COST: u32 = 100;

/// Cost of a diagonal step, in hundredths.
pub const DIAGONAL_COST: u32 = 145;

#[derive(PartialEq, Eq, Structural, Clone, Copy, Debug)]
pub enum TileType {
    Wall,
    Floor,
}

/// A tile that can be entered from a given tile, and what the step costs.
#[derive(PartialEq, Eq, Structural, Clone, Copy, Debug)]
pub struct Exit {
    pub idx: usize,
    pub cost: u32,
}

pub struct GameMap {
    pub tiles: Vec<TileType>,
    pub rooms: Vec<Rect>,
    pub width: i32,
    pub height: i32,
    pub revealed_tiles: Vec<bool>,
    pub currently_visible_tiles: Vec<bool>,
    pub blocked_tiles: Vec<bool>,
    pub tile_content: Vec<Vec<Entity>>,
    pub depth: i32,
}

/// A point inside a `w` by `h` grid has an index inside the grid.
pub proof fn lemma_idx_in_range(w: int, h: int, x: int, y: int)
    requires
        0 <= x < w,
        0 <= y < h,
    ensures
        0 <= y * w + x < w * h,
{
    assert(y * w + x < w * h) by (nonlinear_arith)
        requires
            0 <= x < w,
            0 <= y < h,
    ;
    assert(0 <= y * w) by (nonlinear_arith)
        requires
            0 <= y,
            0 < w,
    ;
}

/// Two points of one row-major grid with the same index are the same point.
pub proof fn lemma_idx_injective(w: int, x1: int, y1: int, x2: int, y2: int)
    requires
        0 <= x1 < w,
        0 <= x2 < w,
        y1 * w + x1 == y2 * w + x2,
    ensures
        x1 == x2,
        y1 == y2,
{
    if y1 < y2 {
        assert(y2 * w >= y1 * w + w) by (nonlinear_arith)
            requires
                y1 < y2,
                0 < w,
        ;
    } else if y2 < y1 {
        assert(y1 * w >= y2 * w + w) by (nonlinear_arith)
            requires
                y2 < y1,
                0 < w,
        ;
    }
}

/// Every index of a `w` by `h` grid is the index of the point
/// `(idx % w, idx / w)`, which lies inside the grid.
pub proof fn lemma_point_of_idx(w: int, h: int, idx: int)
    requires
        0 < w,
        0 < h,
        0 <= idx < w * h,
    ensures
        0 <= idx % w < w,
        0 <= idx / w < h,
        (idx / w) * w + idx % w == idx,
{
    vstd::arithmetic::div_mod::lemma_fundamental_div_mod(idx, w);
    vstd::arithmetic::div_mod::lemma_mod_bound(idx, w);
    let q = idx / w;
    assert(q * w == w * q) by (nonlinear_arith);
    assert(0 <= q) by (nonlinear_arith)
        requires
            0 <= idx,
            0 < w,
            q == idx / w,
    ;
    if q >= h {
        assert(q * w >= h * w) by (nonlinear_arith)
            requires
                q >= h,
                0 < w,
        ;
        assert(h * w == w * h) by (nonlinear_arith);
    }
}

impl GameMap {
    pub open spec fn tile_count(&self) -> int {
        self.width * self.height
    }

    /// The sides are within limits and every per-tile vector has one entry
    /// per tile.
    pub open spec fn wf(&self) -> bool {
        &&& 1 <= self.width <= MAX_MAP_SIDE
        &&& 1 <= self.height <= MAX_MAP_SIDE
        &&& self.tiles@.len() == self.tile_count()
        &&& self.revealed_tiles@.len() == self.tile_count()
        &&& self.currently_visible_tiles@.len() == self.tile_count()
        &&& self.blocked_tiles@.len() == self.tile_count()
        &&& self.tile_content@.len() == self.tile_count()
    }

    pub open spec fn in_bounds(&self, x: int, y: int) -> bool {
        0 <= x < self.width && 0 <= y < self.height
    }

    /// Row-major index of the point `(x, y)`.
    pub open spec fn idx_of(&self, x: int, y: int) -> int {
        y * self.width + x
    }

    pub open spec fn tile_at(&self, x: int, y: int) -> TileType {
        self.tiles@[self.idx_of(x, y)]
    }

    /// The point `(x, y)` can be stepped onto: it lies off the first row and
    /// the first column, inside the grid, and nothing blocks it.
    pub open spec fn position_valid(&self, x: int, y: int) -> bool {
        1 <= x <= self.width - 1 && 1 <= y <= self.height - 1 && !self.blocked_tiles@[self.idx_of(
            x,
            y,
        )]
    }

    /// Size and depth agree; the tiles and the bookkeeping may differ.
    pub open spec fn same_shape(&self, other: &GameMap) -> bool {
        self.width == other.width && self.height == other.height && self.depth == other.depth
    }

    /// The two maps agree in size, depth, tiles, rooms, and every flag and
    /// occupant of every tile.
    pub open spec fn alike(&self, other: &GameMap) -> bool {
        &&& self.same_shape(other)
        &&& self.tiles@ == other.tiles@
        &&& self.rooms@ == other.rooms@
        &&& self.revealed_tiles@ == other.revealed_tiles@
        &&& self.currently_visible_tiles@ == other.currently_visible_tiles@
        &&& self.blocked_tiles@ == other.blocked_tiles@
        &&& self.tile_content@.len() == other.tile_content@.len()
        &&& forall|i: int|
            0 <= i < self.tile_content@.len() ==> (#[trigger] self.tile_content@[i])@
                == other.tile_content@[i]@
    }

    /// A copy of the map.
    pub fn copy(&self) -> (r: GameMap)
        ensures
            r.alike(self),
            self.wf() ==> r.wf(),
    {
        let mut content: Vec<Vec<Entity>> = Vec::new();
        let mut i: usize = 0;
        while i < self.tile_content.len()
            invariant
                i <= self.tile_content@.len(),
                content@.len() == i,
                forall|j: int| 0 <= j < i ==> (#[trigger] content@[j])@ == self.tile_content@[j]@,
            decreases self.tile_content@.len() - i,
        {
            content.push(crate::components::copy_vec(&self.tile_content[i]));
            i += 1;
        }
        GameMap {
            tiles: crate::components::copy_vec(&self.tiles),
            rooms: crate::components::copy_vec(&self.rooms),
            width: self.width,
            height: self.height,
            revealed_tiles: crate::components::copy_vec(&self.revealed_tiles),
            currently_visible_tiles: crate::components::copy_vec(&self.currently_visible_tiles),
            blocked_tiles: crate::components::copy_vec(&self.blocked_tiles),
            tile_content: content,
            depth: self.depth,
        }
    }

    /// Whether the map is well formed.
    pub fn is_well_formed(&self) -> (r: bool)
        ensures
            r == self.wf(),
    {
        if self.width < 1 || self.width > MAX_MAP_SIDE || self.height < 1 || self.height
            > MAX_MAP_SIDE {
            return false;
        }
        proof {
            let w = self.width as int;
            let h = self.height as int;
            assert(1 <= w * h <= 1073676289) by (nonlinear_arith)
                requires
                    1 <= w <= 32767,
                    1 <= h <= 32767,
            ;
        }
        let count: usize = (self.width as usize) * (self.height as usize);
        self.tiles.len() == count && self.revealed_tiles.len() == count
            && self.currently_visible_tiles.len() == count && self.blocked_tiles.len() == count
            && self.tile_content.len() == count
    }

    /// The tile count fits every integer type used for indices.
    pub proof fn lemma_tile_count_bound(&self)
        requires
            self.wf(),
        ensures
            1 <= self.tile_count() <= 1073676289,
    {
        let w = self.width as int;
        let h = self.height as int;
        assert(1 <= w * h <= 1073676289) by (nonlinear_arith)
            requires
                1 <= w <= 32767,
                1 <= h <= 32767,
        ;
    }

    /// A map of walls only: nothing revealed, visible or blocked, no room and
    /// no occupant.
    pub fn new(width: i32, height: i32, depth: i32) -> (m: GameMap)
        requires
            1 <= width <= MAX_MAP_SIDE,
            1 <= height <= MAX_MAP_SIDE,
        ensures
            m.wf(),
            m.width == width,
            m.height == height,
            m.depth == depth,
            m.rooms@.len() == 0,
            forall|i: int| 0 <= i < m.tile_count() ==> m.tiles@[i] == TileType::Wall,
            forall|i: int| 0 <= i < m.tile_count() ==> !m.revealed_tiles@[i],
            forall|i: int| 0 <= i < m.tile_count() ==> !m.currently_visible_tiles@[i],
            forall|i: int| 0 <= i < m.tile_count() ==> !m.blocked_tiles@[i],
            forall|i: int| 0 <= i < m.tile_count() ==> m.tile_content@[i]@.len() == 0,
    {
        let mut m = GameMap {
            tiles: Vec::new(),
            rooms: Vec::new(),
            width,
            height,
            revealed_tiles: Vec::new(),
            currently_visible_tiles: Vec::new(),
            blocked_tiles: Vec::new(),
            tile_content: Vec::new(),
            depth,
        };
        proof {
            let w = width as int;
            let h = height as int;
            assert(1 <= w * h <= 1073676289) by (nonlinear_arith)
                requires
                    1 <= w <= 32767,
                    1 <= h <= 32767,
            ;
        }
        let count: usize = (width as usize) * (height as usize);
        let mut i: usize = 0;
        while i < count
            invariant
                count == width * height,
                i <= count,
                m.width == width,
                m.height == height,
                m.depth == depth,
                m.rooms@.len() == 0,
                m.tiles@.len() == i,
                m.revealed_tiles@.len() == i,
                m.currently_visible_tiles@.len() == i,
                m.blocked_tiles@.len() == i,
                m.tile_content@.len() == i,
                forall|j: int| 0 <= j < i ==> m.tiles@[j] == TileType::Wall,
                forall|j: int| 0 <= j < i ==> !m.revealed_tiles@[j],
                forall|j: int| 0 <= j < i ==> !m.currently_visible_tiles@[j],
                forall|j: int| 0 <= j < i ==> !m.blocked_tiles@[j],
                forall|j: int| 0 <= j < i ==> m.tile_content@[j]@.len() == 0,
            decreases count - i,
        {
            m.tiles.push(TileType::Wall);
            m.revealed_tiles.push(false);
            m.currently_visible_tiles.push(false);
            m.blocked_tiles.push(false);
            m.tile_content.push(Vec::new());
            i += 1;
        }
        m
    }

    /// Whether `(x, y)` is a point of the grid.
    pub fn is_idx_valid(&self, x: i32, y: i32) -> (r: bool)
        ensures
            r == self.in_bounds(x as int, y as int),
    {
        0 <= x && x < self.width && 0 <= y && y < self.height
    }

    /// Row-major index of the grid point `(x, y)`.
    pub fn xy_idx(&self, x: i32, y: i32) -> (idx: usize)
        requires
            self.wf(),
            self.in_bounds(x as int, y as int),
        ensures
            idx == self.idx_of(x as int, y as int),
            idx < self.tile_count(),
    {
        proof {
            self.lemma_tile_count_bound();
            lemma_idx_in_range(self.width as int, self.height as int, x as int, y as int);
            assert(0 <= (y as int) * (self.width as int)) by (nonlinear_arith)
                requires
                    0 <= y,
                    0 < self.width,
            ;
        }
        (y as usize) * (self.width as usize) + (x as usize)
    }

    /// The grid point with index `idx`.
    pub fn idx_point(&self, idx: usize) -> (p: GridPoint)
        requires
            self.wf(),
            idx < self.tile_count(),
        ensures
            self.in_bounds(p.x as int, p.y as int),
            self.idx_of(p.x as int, p.y as int) == idx,
            p.x == idx as int % self.width as int,
            p.y == idx as int / self.width as int,
    {
        proof {
            self.lemma_tile_count_bound();
            lemma_point_of_idx(self.width as int, self.height as int, idx as int);
        }
        let w: usize = self.width as usize;
        GridPoint { x: (idx % w) as i32, y: (idx / w) as i32 }
    }

    /// Replaces the tile at `(x, y)`.
    pub fn set_tile(&mut self, x: i32, y: i32, tile: TileType)
        requires
            old(self).wf(),
            old(self).in_bounds(x as int, y as int),
        ensures
            final(self).wf(),
            *final(self) == (GameMap { tiles: final(self).tiles, ..*old(self) }),
            final(self).tile_at(x as int, y as int) == tile,
            forall|px: int, py: int|
                #![trigger final(self).tile_at(px, py)]
                #![trigger old(self).tile_at(px, py)]
                old(self).in_bounds(px, py) && !(px == x && py == y) ==> final(self).tile_at(
                    px,
                    py,
                ) == old(self).tile_at(px, py),
    {
        let idx = self.xy_idx(x, y);
        self.tiles[idx] = tile;
        proof {
            assert forall|px: int, py: int|
                #![trigger self.tile_at(px, py)]
                #![trigger old(self).tile_at(px, py)]
                self.in_bounds(px, py) && !(px == x && py == y) implies self.tile_at(px, py)
                == old(self).tile_at(px, py) by {
                if self.idx_of(px, py) == idx {
                    lemma_idx_injective(self.width as int, px, py, x as int, y as int);
                }
                lemma_idx_in_range(self.width as int, self.height as int, px, py);
            }
        }
    }

    /// Whether the tile at `(x, y)` can be stepped onto.
    pub fn is_position_valid(&self, x: i32, y: i32) -> (r: bool)
        requires
            self.wf(),
        ensures
            r == self.position_valid(x as int, y as int),
            r ==> self.in_bounds(x as int, y as int),
    {
        if x < 1 || x > self.width - 1 || y < 1 || y > self.height - 1 {
            return false;
        }
        !self.blocked_tiles[self.xy_idx(x, y)]
    }

    /// Marks every wall tile as blocked and every other tile as free.
    pub fn populate_blocked_tiles(&mut self)
        requires
            old(self).wf(),
        ensures
            final(self).wf(),
            *final(self) == (GameMap { blocked_tiles: final(self).blocked_tiles, ..*old(self) }),
            forall|i: int|
                0 <= i < old(self).tile_count() ==> final(self).blocked_tiles@[i]
                    == (old(self).tiles@[i] == TileType::Wall),
    {
        let n: usize = self.tiles.len();
        let mut i: usize = 0;
        while i < n
            invariant
                self.wf(),
                n == self.tile_count(),
                i <= n,
                *self == (GameMap { blocked_tiles: self.blocked_tiles, ..*old(self) }),
                forall|j: int|
                    0 <= j < i ==> self.blocked_tiles@[j] == (self.tiles@[j] == TileType::Wall),
            decreases n - i,
        {
            let wall: bool = self.tiles[i] == TileType::Wall;
            self.blocked_tiles[i] = wall;
            i += 1;
        }
    }

    /// Empties the occupant list of every tile.
    pub fn clear_tile_content(&mut self)
        requires
            old(self).wf(),
        ensures
            final(self).wf(),
            *final(self) == (GameMap { tile_content: final(self).tile_content, ..*old(self) }),
            forall|i: int|
                0 <= i < old(self).tile_count() ==> final(self).tile_content@[i]@.len() == 0,
    {
        let n: usize = self.tile_content.len();
        let mut i: usize = 0;
        while i < n
            invariant
                self.wf(),
                n == self.tile_count(),
                i <= n,
                *self == (GameMap { tile_content: self.tile_content, ..*old(self) }),
                forall|j: int| 0 <= j < i ==> self.tile_content@[j]@.len() == 0,
            decreases n - i,
        {
            self.tile_content[i] = Vec::new();
            i += 1;
        }
    }

    /// Turns every tile of `room` into floor.
    pub fn apply_room_to_map(&mut self, room: &Rect)
        requires
            old(self).wf(),
            0 <= room.x1,
            0 <= room.y1,
            room.x2 < old(self).width,
            room.y2 < old(self).height,
        ensures
            final(self).wf(),
            *final(self) == (GameMap { tiles: final(self).tiles, ..*old(self) }),
            forall|px: int, py: int|
                #![trigger final(self).tile_at(px, py)]
                #![trigger old(self).tile_at(px, py)]
                old(self).in_bounds(px, py) ==> final(self).tile_at(px, py) == (if room.covers(
                    px,
                    py,
                ) {
                    TileType::Floor
                } else {
                    old(self).tile_at(px, py)
                }),
    {
        let mut y: i32 = room.y1;
        while y <= room.y2
            invariant
                self.wf(),
                *self == (GameMap { tiles: self.tiles, ..*old(self) }),
                0 <= room.x1,
                0 <= room.y1 <= y,
                room.x2 < self.width,
                room.y2 < self.height,
                forall|px: int, py: int|
                    #![trigger self.tile_at(px, py)]
                    #![trigger old(self).tile_at(px, py)]
                    self.in_bounds(px, py) ==> self.tile_at(px, py) == (if room.covers(px, py)
                        && py < y {
                        TileType::Floor
                    } else {
                        old(self).tile_at(px, py)
                    }),
            decreases room.y2 - y + 1,
        {
            let mut x: i32 = room.x1;
            while x <= room.x2
                invariant
                    self.wf(),
                    *self == (GameMap { tiles: self.tiles, ..*old(self) }),
                    0 <= room.x1 <= x,
                    room.y1 <= y <= room.y2,
                    0 <= room.y1,
                    room.x2 < self.width,
                    room.y2 < self.height,
                    forall|px: int, py: int|
                        #![trigger self.tile_at(px, py)]
                        #![trigger old(self).tile_at(px, py)]
                        self.in_bounds(px, py) ==> self.tile_at(px, py) == (if room.covers(px, py)
                            && (py < y || (py == y && px < x)) {
                            TileType::Floor
                        } else {
                            old(self).tile_at(px, py)
                        }),
                decreases room.x2 - x + 1,
            {
                self.set_tile(x, y, TileType::Floor);
                x += 1;
            }
            y += 1;
        }
    }

    /// Turns into floor the tiles of row `y` between the columns `x1` and
    /// `x2`, both included, in either order. Points outside the grid are
    /// passed over.
    pub fn apply_horizontal_tunnel(&mut self, x1: i32, x2: i32, y: i32)
        requires
            old(self).wf(),
        ensures
            final(self).wf(),
            *final(self) == (GameMap { tiles: final(self).tiles, ..*old(self) }),
            forall|px: int, py: int|
                #![trigger final(self).tile_at(px, py)]
                #![trigger old(self).tile_at(px, py)]
                old(self).in_bounds(px, py) ==> final(self).tile_at(px, py) == (if py == y
                    && between(px, x1 as int, x2 as int) {
                    TileType::Floor
                } else {
                    old(self).tile_at(px, py)
                }),
    {
        if y < 0 || y >= self.height {
            return ;
        }
        let lo: i32 = if x1 < x2 { x1 } else { x2 };
        let hi: i32 = if x1 < x2 { x2 } else { x1 };
        let mut x: i32 = if lo < 0 { 0 } else { lo };
        let last: i32 = if hi > self.width - 1 { self.width - 1 } else { hi };
        while x <= last
            invariant
                self.wf(),
                *self == (GameMap { tiles: self.tiles, ..*old(self) }),
                0 <= y < self.height,
                0 <= x,
                lo <= x,
                last <= self.width - 1,
                last <= hi,
                lo == (if x1 < x2 { x1 } else { x2 }),
                hi == (if x1 < x2 { x2 } else { x1 }),
                last == (if hi > self.width - 1 { self.width - 1 } else { hi as int }),
                forall|px: int, py: int|
                    #![trigger self.tile_at(px, py)]
                    #![trigger old(self).tile_at(px, py)]
                    self.in_bounds(px, py) ==> self.tile_at(px, py) == (if py == y && between(
                        px,
                        x1 as int,
                        x2 as int,
                    ) && px < x {
                        TileType::Floor
                    } else {
                        old(self).tile_at(px, py)
                    }),
            decreases last - x + 1,
        {
            self.set_tile(x, y, TileType::Floor);
            x += 1;
        }
    }

    /// Turns into floor the tiles of column `x` between the rows `y1` and
    /// `y2`, both included, in either order. Points outside the grid are
    /// passed over.
    pub fn apply_vertical_tunnel(&mut self, y1: i32, y2: i32, x: i32)
        requires
            old(self).wf(),
        ensures
            final(self).wf(),
            *final(self) == (GameMap { tiles: final(self).tiles, ..*old(self) }),
            forall|px: int, py: int|
                #![trigger final(self).tile_at(px, py)]
                #![trigger old(self).tile_at(px, py)]
                old(self).in_bounds(px, py) ==> final(self).tile_at(px, py) == (if px == x
                    && between(py, y1 as int, y2 as int) {
                    TileType::Floor
                } else {
                    old(self).tile_at(px, py)
                }),
    {
        if x < 0 || x >= self.width {
            return ;
        }
        let lo: i32 = if y1 < y2 { y1 } else { y2 };
        let hi: i32 = if y1 < y2 { y2 } else { y1 };
        let mut y: i32 = if lo < 0 { 0 } else { lo };
        let last: i32 = if hi > self.height - 1 { self.height - 1 } else { hi };
        while y <= last
            invariant
                self.wf(),
                *self == (GameMap { tiles: self.tiles, ..*old(self) }),
                0 <= x < self.width,
                0 <= y,
                lo <= y,
                last <= self.height - 1,
                last <= hi,
                lo == (if y1 < y2 { y1 } else { y2 }),
                hi == (if y1 < y2 { y2 } else { y1 }),
                last == (if hi > self.height - 1 { self.height - 1 } else { hi as int }),
                forall|px: int, py: int|
                    #![trigger self.tile_at(px, py)]
                    #![trigger old(self).tile_at(px, py)]
                    self.in_bounds(px, py) ==> self.tile_at(px, py) == (if px == x && between(
                        py,
                        y1 as int,
                        y2 as int,
                    ) && py < y {
                        TileType::Floor
                    } else {
                        old(self).tile_at(px, py)
                    }),
            decreases last - y + 1,
        {
            self.set_tile(x, y, TileType::Floor);
            y += 1;
        }
    }
}

/// The `k`-th of the eight directions of a step, as the change of column
/// and row and the cost of the step: first left, right, up and down, then
/// the four diagonals.
pub open spec fn direction(k: int) -> (int, int, u32) {
    if k == 0 {
        (-1, 0, CARDINAL_COST)
    } else if k == 1 {
        (1, 0, CARDINAL_COST)
    } else if k == 2 {
        (0, -1, CARDINAL_COST)
    } else if k == 3 {
        (0, 1, CARDINAL_COST)
    } else if k == 4 {
        (-1, -1, DIAGONAL_COST)
    } else if k == 5 {
        (-1, 1, DIAGONAL_COST)
    } else if k == 6 {
        (1, 1, DIAGONAL_COST)
    } else {
        (1, -1, DIAGONAL_COST)
    }
}

/// The `k`-th of the eight directions of a step.
fn step_direction(k: usize) -> (d: (i32, i32, u32))
    requires
        k < 8,
    ensures
        d.0 == direction(k as int).0,
        d.1 == direction(k as int).1,
        d.2 == direction(k as int).2,
{
    if k == 0 {
        (-1, 0, CARDINAL_COST)
    } else if k == 1 {
        (1, 0, CARDINAL_COST)
    } else if k == 2 {
        (0, -1, CARDINAL_COST)
    } else if k == 3 {
        (0, 1, CARDINAL_COST)
    } else if k == 4 {
        (-1, -1, DIAGONAL_COST)
    } else if k == 5 {
        (-1, 1, DIAGONAL_COST)
    } else if k == 6 {
        (1, 1, DIAGONAL_COST)
    } else {
        (1, -1, DIAGONAL_COST)
    }
}

impl GameMap {
    /// The exits from the tile `idx` in the first `k` directions: for each
    /// direction whose neighbour can be stepped onto, the index of that
    /// neighbour and the cost of the step.
    pub open spec fn exits_upto(&self, idx: int, k: int) -> Seq<Exit>
        decreases k,
    {
        if k <= 0 {
            Seq::empty()
        } else {
            let d = direction(k - 1);
            let x = idx % (self.width as int) + d.0;
            let y = idx / (self.width as int) + d.1;
            self.exits_upto(idx, k - 1) + (if self.position_valid(x, y) {
                seq![Exit { idx: self.idx_of(x, y) as usize, cost: d.2 }]
            } else {
                Seq::empty()
            })
        }
    }

    /// The tiles that can be stepped onto from the tile `idx`, with the
    /// cost of each step.
    pub fn get_available_exits(&self, idx: usize) -> (exits: Vec<Exit>)
        requires
            self.wf(),
            idx < self.tile_count(),
        ensures
            exits@ == self.exits_upto(idx as int, 8),
    {
        let mut exits: Vec<Exit> = Vec::new();
        let here = self.idx_point(idx);
        let mut k: usize = 0;
        while k < 8
            invariant
                self.wf(),
                idx < self.tile_count(),
                k <= 8,
                self.in_bounds(here.x as int, here.y as int),
                here.x == idx as int % self.width as int,
                here.y == idx as int / self.width as int,
                exits@ == self.exits_upto(idx as int, k as int),
            decreases 8 - k,
        {
            let d = step_direction(k);
            let x: i32 = here.x + d.0;
            let y: i32 = here.y + d.1;
            if self.is_position_valid(x, y) {
                exits.push(Exit { idx: self.xy_idx(x, y), cost: d.2 });
            }
            k += 1;
        }
        exits
    }
}

/// `v` lies between `a` and `b`, whichever of the two is smaller.
pub open spec fn between(v: int, a: int, b: int) -> bool {
    (a <= v <= b) || (b <= v <= a)
}

} // verus!
