//! Visibility: what each actor sees, and what the player has seen so far.

use vstd::prelude::*;
use rltk::{Algorithm2D, BaseMap};
use crate::components::{GridPoint, FOV};
use crate::map::{lemma_idx_in_range, lemma_idx_injective, GameMap, TileType};
use crate::world::World;

verus! {

#[verifier::external_type_specification]
#[verifier::external_body]
pub struct ExPoint(rltk::Point);

/// The point that `rltk::Point::new` makes of the coordinates `x` and `y`.
pub uninterp spec fn point_of(x: int, y: int) -> rltk::Point;

/// `rltk::Point::new` on two `i32`: the point with these coordinates. The
/// point is a value of `rltk`, so all that is said of it is that it is the
/// one made of `x` and `y`.
#[verifier::external_body]
fn outside_point(x: i32, y: i32) -> (p: rltk::Point)
    ensures
        p == point_of(x as int, y as int),
{
    rltk::Point::new(x, y)
}

/// The widest sight the sweep is asked for; a wider range is taken as
/// this one. The sweep of `rltk` reserves room for four times the square of
/// the range before it starts, which for this range comes to some four
/// million points.
pub const MAX_SIGHT: i32 = 1024;

/// The range that the sweep is asked for where `range` is wanted: `range`
/// itself, but no further than `MAX_SIGHT` either way.
pub open spec fn sight_range(range: int) -> int {
    if range > MAX_SIGHT {
        MAX_SIGHT as int
    } else if range < -MAX_SIGHT {
        -MAX_SIGHT as int
    } else {
        range
    }
}

// What the sweep of `rltk` asks of a map: which tiles stop sight, and how
// large the grid is. A tile stops sight if it is a wall; an index beyond
// the last tile counts as one that does.
impl BaseMap for GameMap {
    fn is_opaque(&self, idx: usize) -> (r: bool)
        ensures
            r == (idx >= self.tiles@.len() || opaque_tiles(self.tiles@)[idx as int]),
    {
        idx >= self.tiles.len() || self.tiles[idx] == TileType::Wall
    }
}

// The size of the grid, as the point made of its width and its height.
impl Algorithm2D for GameMap {
    fn dimensions(&self) -> (corner: rltk::Point)
        ensures
            corner == point_of(self.width as int, self.height as int),
    {
        outside_point(self.width, self.height)
    }
}

/// The points that `rltk::field_of_view` reports as seen from `(x, y)`
/// within `range`, on a grid of `width` by `height` tiles of which `walls`
/// says, by row-major index, which stop sight.
pub uninterp spec fn sight(
    x: int,
    y: int,
    range: int,
    width: int,
    height: int,
    walls: Seq<bool>,
) -> Set<(int, int)>;

/// `rltk::field_of_view`, the recursive shadow-casting sweep, with the map
/// answering for its size and for the opacity of each tile. The sweep
/// collects its points in a hash set, so they come in no particular order
/// and none comes twice. With the centre off the grid the sweep may ask the
/// map for a tile that does not exist and panic, and with a range of tens of
/// thousands its arithmetic overflows and its table does not fit into
/// memory; `requires` leaves both out.
#[verifier::external_body]
pub(crate) fn field_of_view(center: GridPoint, range: i32, map: &GameMap) -> (r: Vec<GridPoint>)
    requires
        map.wf(),
        map.in_bounds(center.x as int, center.y as int),
        -MAX_SIGHT <= range <= MAX_SIGHT,
    ensures
        r@.no_duplicates(),
        forall|p: GridPoint|
            r@.contains(p) <==> sight(
                center.x as int,
                center.y as int,
                range as int,
                map.width as int,
                map.height as int,
                opaque_tiles(map.tiles@),
            ).contains((p.x as int, p.y as int)),
{
    rltk::field_of_view(rltk::Point::new(center.x, center.y), range, map).iter().map(
        |p| GridPoint { x: p.x, y: p.y },
    ).collect()
}

/// Row-major index of `p` on a grid `w` wide.
pub open spec fn point_index(w: int, p: GridPoint) -> int {
    p.y * w + p.x
}

/// Which tiles stop sight, by row-major index: the walls.
pub open spec fn opaque_tiles(tiles: Seq<TileType>) -> Seq<bool> {
    Seq::new(tiles.len(), |i: int| tiles[i] == TileType::Wall)
}

impl GameMap {
    pub open spec fn revealed_at(&self, x: int, y: int) -> bool {
        self.revealed_tiles@[self.idx_of(x, y)]
    }

    pub open spec fn visible_at(&self, x: int, y: int) -> bool {
        self.currently_visible_tiles@[self.idx_of(x, y)]
    }

    /// The grid point `(x, y)` is seen from `center` within `range`, which
    /// reaches no further than `MAX_SIGHT`. Nothing is seen from a point off
    /// the grid.
    pub open spec fn sees(&self, center: GridPoint, range: int, x: int, y: int) -> bool {
        &&& self.in_bounds(center.x as int, center.y as int)
        &&& self.in_bounds(x, y)
        &&& sight(
            center.x as int,
            center.y as int,
            sight_range(range),
            self.width as int,
            self.height as int,
            opaque_tiles(self.tiles@),
        ).contains((x, y))
    }

    /// The list holds no point twice, and holds exactly the points seen
    /// from `center` within `range`.
    pub open spec fn is_view_from(
        &self,
        tiles: Seq<GridPoint>,
        center: GridPoint,
        range: int,
    ) -> bool {
        &&& tiles.no_duplicates()
        &&& forall|p: GridPoint| #[trigger]
            tiles.contains(p) <==> self.sees(center, range, p.x as int, p.y as int)
    }

    /// The first `n` of `found` that are points of the grid, in their order.
    pub open spec fn on_grid(&self, found: Seq<GridPoint>, n: int) -> Seq<GridPoint>
        decreases n,
    {
        if n <= 0 {
            Seq::empty()
        } else {
            self.on_grid(found, n - 1) + (if self.in_bounds(
                found[n - 1].x as int,
                found[n - 1].y as int,
            ) {
                seq![found[n - 1]]
            } else {
                Seq::empty()
            })
        }
    }

    /// The points of `found` that are points of the grid, in their order.
    pub fn keep_on_grid(&self, found: &Vec<GridPoint>) -> (kept: Vec<GridPoint>)
        ensures
            kept@ == self.on_grid(found@, found@.len() as int),
            forall|k: int|
                0 <= k < kept@.len() ==> self.in_bounds(kept@[k].x as int, kept@[k].y as int),
            forall|p: GridPoint| #[trigger]
                kept@.contains(p) <==> (self.in_bounds(p.x as int, p.y as int)
                    && found@.contains(p)),
            found@.no_duplicates() ==> kept@.no_duplicates(),
    {
        let mut kept: Vec<GridPoint> = Vec::new();
        let mut k: usize = 0;
        while k < found.len()
            invariant
                k <= found@.len(),
                found@.no_duplicates() ==> kept@.no_duplicates(),
                kept@ == self.on_grid(found@, k as int),
                forall|j: int|
                    0 <= j < kept@.len() ==> self.in_bounds(kept@[j].x as int, kept@[j].y as int),
                forall|p: GridPoint| #[trigger]
                    kept@.contains(p) <==> (self.in_bounds(p.x as int, p.y as int) && exists|j: int|
                        0 <= j < k && found@[j] == p),
            decreases found@.len() - k,
        {
            let p = found[k];
            if self.is_idx_valid(p.x, p.y) {
                proof {
                    if kept@.contains(p) && found@.no_duplicates() {
                        let j = choose|j: int| 0 <= j < k && found@[j] == p;
                        assert(found@[j] == found@[k as int]);
                    }
                    let grown = kept@.push(p);
                    assert forall|q: GridPoint| #[trigger]
                        grown.contains(q) <==> (self.in_bounds(q.x as int, q.y as int) && exists|
                            j: int,
                        |
                            0 <= j < k + 1 && found@[j] == q) by {
                        if grown.contains(q) {
                            let i = choose|i: int| 0 <= i < grown.len() && grown[i] == q;
                            if i < kept@.len() {
                                assert(kept@[i] == q);
                                assert(kept@.contains(q));
                            } else {
                                assert(found@[k as int] == q);
                            }
                        }
                        if self.in_bounds(q.x as int, q.y as int) && exists|j: int|
                            0 <= j < k + 1 && found@[j] == q {
                            let j = choose|j: int| 0 <= j < k + 1 && found@[j] == q;
                            if j < k {
                                assert(kept@.contains(q));
                                let i = choose|i: int| 0 <= i < kept@.len() && kept@[i] == q;
                                assert(grown[i] == q);
                            } else {
                                assert(grown[kept@.len() as int] == q);
                            }
                        }
                    }
                    if found@.no_duplicates() {
                        assert forall|a: int, b: int|
                            0 <= a < grown.len() && 0 <= b < grown.len() && a != b implies grown[a]
                            != grown[b] by {
                            if a == kept@.len() && b < kept@.len() {
                                assert(kept@[b] == grown[b]);
                                assert(kept@.contains(grown[b]));
                            }
                            if b == kept@.len() && a < kept@.len() {
                                assert(kept@[a] == grown[a]);
                                assert(kept@.contains(grown[a]));
                            }
                        }
                    }
                }
                kept.push(p);
            } else {
                assert forall|q: GridPoint| #[trigger]
                    kept@.contains(q) <==> (self.in_bounds(q.x as int, q.y as int) && exists|j: int|
                        0 <= j < k + 1 && found@[j] == q) by {
                    if self.in_bounds(q.x as int, q.y as int) && exists|j: int|
                        0 <= j < k + 1 && found@[j] == q {
                        let j = choose|j: int| 0 <= j < k + 1 && found@[j] == q;
                        assert(j < k);
                    }
                }
            }
            k += 1;
        }
        proof {
            assert forall|p: GridPoint| #[trigger]
                kept@.contains(p) <==> (self.in_bounds(p.x as int, p.y as int) && found@.contains(
                    p,
                )) by {
                if kept@.contains(p) {
                    let j = choose|j: int| 0 <= j < k && found@[j] == p;
                    assert(found@.contains(p));
                }
                if self.in_bounds(p.x as int, p.y as int) && found@.contains(p) {
                    let j = choose|j: int| 0 <= j < found@.len() && found@[j] == p;
                    assert(0 <= j < k && found@[j] == p);
                }
            }
        }
        kept
    }

    /// The grid points seen from `center` within `range`, each once, in no
    /// particular order. A range beyond `MAX_SIGHT` is taken as `MAX_SIGHT`.
    pub fn visible_points(&self, center: GridPoint, range: i32) -> (r: Vec<GridPoint>)
        requires
            self.wf(),
        ensures
            self.is_view_from(r@, center, range as int),
            forall|k: int| 0 <= k < r@.len() ==> self.in_bounds(r@[k].x as int, r@[k].y as int),
    {
        if !self.is_idx_valid(center.x, center.y) {
            return Vec::new();
        }
        let reach: i32 = if range > MAX_SIGHT {
            MAX_SIGHT
        } else if range < -MAX_SIGHT {
            -MAX_SIGHT
        } else {
            range
        };
        let found = field_of_view(center, reach, self);
        self.keep_on_grid(&found)
    }

    /// One flag per tile, set where the tile is among `points`.
    pub fn mask_of(&self, points: &Vec<GridPoint>) -> (mask: Vec<bool>)
        requires
            self.wf(),
            forall|k: int|
                0 <= k < points@.len() ==> self.in_bounds(points@[k].x as int, points@[k].y as int),
        ensures
            mask@.len() == self.tile_count(),
            forall|x: int, y: int|
                #![trigger mask@[self.idx_of(x, y)]]
                self.in_bounds(x, y) ==> mask@[self.idx_of(x, y)] == points@.contains(
                    GridPoint { x: x as i32, y: y as i32 },
                ),
    {
        let n: usize = self.tiles.len();
        let mut mask: Vec<bool> = Vec::new();
        let mut i: usize = 0;
        while i < n
            invariant
                n == self.tile_count(),
                i <= n,
                mask@.len() == i,
                forall|j: int| 0 <= j < i ==> !mask@[j],
            decreases n - i,
        {
            mask.push(false);
            i += 1;
        }
        let ghost w = self.width as int;
        let mut k: usize = 0;
        while k < points.len()
            invariant
                self.wf(),
                w == self.width,
                k <= points@.len(),
                mask@.len() == self.tile_count(),
                forall|j: int|
                    0 <= j < points@.len() ==> self.in_bounds(
                        points@[j].x as int,
                        points@[j].y as int,
                    ),
                forall|j: int|
                    0 <= j < self.tile_count() ==> mask@[j] == (exists|q: int|
                        0 <= q < k && #[trigger] point_index(w, points@[q]) == j),
            decreases points@.len() - k,
        {
            let p = points[k];
            let idx = self.xy_idx(p.x, p.y);
            let ghost before = mask@;
            mask[idx] = true;
            proof {
                assert(point_index(w, points@[k as int]) == idx);
                assert forall|j: int| 0 <= j < self.tile_count() implies mask@[j] == (exists|q: int|
                    0 <= q < k + 1 && #[trigger] point_index(w, points@[q]) == j) by {
                    if j != idx {
                        assert(mask@[j] == before[j]);
                        if before[j] {
                            let q = choose|q: int|
                                0 <= q < k && #[trigger] point_index(w, points@[q]) == j;
                            assert(0 <= q < k + 1 && point_index(w, points@[q]) == j);
                        }
                        if exists|q: int| 0 <= q < k + 1
                            && #[trigger] point_index(w, points@[q]) == j {
                            let q = choose|q: int|
                                0 <= q < k + 1 && #[trigger] point_index(w, points@[q]) == j;
                            assert(q < k);
                        }
                    }
                }
            }
            k += 1;
        }
        proof {
            assert forall|x: int, y: int|
                #![trigger mask@[self.idx_of(x, y)]]
                self.in_bounds(x, y) implies mask@[self.idx_of(x, y)] == points@.contains(
                GridPoint { x: x as i32, y: y as i32 },
            ) by {
                let j = self.idx_of(x, y);
                let p = GridPoint { x: x as i32, y: y as i32 };
                lemma_idx_in_range(self.width as int, self.height as int, x, y);
                if mask@[j] {
                    let q = choose|q: int| 0 <= q < k && #[trigger] point_index(w, points@[q]) == j;
                    lemma_idx_injective(
                        self.width as int,
                        points@[q].x as int,
                        points@[q].y as int,
                        x,
                        y,
                    );
                    assert(points@[q] == p);
                }
                if points@.contains(p) {
                    let q = choose|q: int| 0 <= q < points@.len() && points@[q] == p;
                    assert(point_index(w, points@[q]) == j);
                }
            }
        }
        mask
    }

    /// Makes `points` the tiles that are seen right now, and adds them to
    /// the tiles that were ever seen.
    pub fn show_only(&mut self, points: &Vec<GridPoint>)
        requires
            old(self).wf(),
            forall|k: int|
                0 <= k < points@.len() ==> old(self).in_bounds(
                    points@[k].x as int,
                    points@[k].y as int,
                ),
        ensures
            final(self).wf(),
            *final(self) == (GameMap {
                revealed_tiles: final(self).revealed_tiles,
                currently_visible_tiles: final(self).currently_visible_tiles,
                ..*old(self)
            }),
            forall|x: int, y: int|
                #![trigger final(self).visible_at(x, y)]
                old(self).in_bounds(x, y) ==> final(self).visible_at(x, y) == points@.contains(
                    GridPoint { x: x as i32, y: y as i32 },
                ),
            forall|x: int, y: int|
                #![trigger final(self).revealed_at(x, y)]
                old(self).in_bounds(x, y) ==> final(self).revealed_at(x, y)
                    == (old(self).revealed_at(x, y)
                        || points@.contains(GridPoint { x: x as i32, y: y as i32 })),
            forall|i: int|
                0 <= i < old(self).tile_count() && old(self).revealed_tiles@[i]
                    ==> final(self).revealed_tiles@[i],
    {
        let n: usize = self.currently_visible_tiles.len();
        let mut i: usize = 0;
        while i < n
            invariant
                self.wf(),
                n == self.tile_count(),
                i <= n,
                *self == (GameMap {
                    currently_visible_tiles: self.currently_visible_tiles,
                    ..*old(self)
                }),
                forall|j: int| 0 <= j < i ==> !self.currently_visible_tiles@[j],
            decreases n - i,
        {
            self.currently_visible_tiles[i] = false;
            i += 1;
        }
        let ghost w = self.width as int;
        let mut k: usize = 0;
        while k < points.len()
            invariant
                self.wf(),
                old(self).wf(),
                w == self.width,
                k <= points@.len(),
                *self == (GameMap {
                    revealed_tiles: self.revealed_tiles,
                    currently_visible_tiles: self.currently_visible_tiles,
                    ..*old(self)
                }),
                forall|j: int|
                    0 <= j < points@.len() ==> self.in_bounds(
                        points@[j].x as int,
                        points@[j].y as int,
                    ),
                forall|j: int|
                    0 <= j < self.tile_count() ==> self.currently_visible_tiles@[j] == (exists|
                        q: int,
                    |
                        0 <= q < k && #[trigger] point_index(w, points@[q]) == j),
                forall|j: int|
                    0 <= j < self.tile_count() ==> self.revealed_tiles@[j]
                        == (old(self).revealed_tiles@[j] || self.currently_visible_tiles@[j]),
            decreases points@.len() - k,
        {
            let p = points[k];
            let idx = self.xy_idx(p.x, p.y);
            let ghost before = self.currently_visible_tiles@;
            self.revealed_tiles[idx] = true;
            self.currently_visible_tiles[idx] = true;
            proof {
                assert(point_index(w, points@[k as int]) == idx);
                assert forall|j: int| 0 <= j < self.tile_count()
                    implies self.currently_visible_tiles@[j]
                    == (exists|q: int| 0 <= q < k + 1 && #[trigger] point_index(w, points@[q])
                        == j) by {
                    if j != idx {
                        assert(self.currently_visible_tiles@[j] == before[j]);
                        if before[j] {
                            let q = choose|q: int|
                                0 <= q < k && #[trigger] point_index(w, points@[q]) == j;
                            assert(0 <= q < k + 1 && point_index(w, points@[q]) == j);
                        }
                        if exists|q: int| 0 <= q < k + 1
                            && #[trigger] point_index(w, points@[q]) == j {
                            let q = choose|q: int|
                                0 <= q < k + 1 && #[trigger] point_index(w, points@[q]) == j;
                            assert(q < k);
                        }
                    }
                }
            }
            k += 1;
        }
        proof {
            assert forall|x: int, y: int|
                #![trigger self.visible_at(x, y)]
                self.in_bounds(x, y) implies self.visible_at(x, y) == points@.contains(
                GridPoint { x: x as i32, y: y as i32 },
            ) by {
                let j = self.idx_of(x, y);
                let p = GridPoint { x: x as i32, y: y as i32 };
                lemma_idx_in_range(self.width as int, self.height as int, x, y);
                if self.visible_at(x, y) {
                    let q = choose|q: int| 0 <= q < k && #[trigger] point_index(w, points@[q]) == j;
                    lemma_idx_injective(
                        self.width as int,
                        points@[q].x as int,
                        points@[q].y as int,
                        x,
                        y,
                    );
                    assert(points@[q] == p);
                }
                if points@.contains(p) {
                    let q = choose|q: int| 0 <= q < points@.len() && points@[q] == p;
                    assert(point_index(w, points@[q]) == j);
                }
            }
            assert forall|x: int, y: int|
                #![trigger self.revealed_at(x, y)]
                self.in_bounds(x, y) implies self.revealed_at(x, y) == (old(self).revealed_at(x, y)
                || points@.contains(GridPoint { x: x as i32, y: y as i32 })) by {
                lemma_idx_in_range(self.width as int, self.height as int, x, y);
                assert(self.visible_at(x, y) == points@.contains(
                    GridPoint { x: x as i32, y: y as i32 },
                ));
            }
        }
    }
}

/// The visibility pass.
pub struct FovSystem {}

impl FovSystem {
    /// Slot `i` has a position and a view that asks to be brought up to
    /// date.
    pub open spec fn needs_view(w: &World, i: int) -> bool {
        w.fovs.at(i) is Some && w.positions.at(i) is Some && w.fovs.at(i).unwrap().needs_update
    }

    /// Where the entity of slot `i` stands.
    pub open spec fn center_of(w: &World, i: int) -> GridPoint {
        GridPoint { x: w.positions.at(i).unwrap().x, y: w.positions.at(i).unwrap().y }
    }

    pub open spec fn range_of(w: &World, i: int) -> int {
        w.fovs.at(i).unwrap().range as int
    }

    /// Slot `i` is a player whose view is brought up to date.
    pub open spec fn player_viewer(w: &World, i: int) -> bool {
        Self::needs_view(w, i) && w.players.has(i)
    }

    /// The highest slot below `n` that is a player whose view is brought up
    /// to date; `-1` if there is none.
    pub open spec fn last_player_viewer(w: &World, n: int) -> int
        decreases n,
    {
        if n <= 0 {
            -1
        } else if Self::player_viewer(w, n - 1) {
            n - 1
        } else {
            Self::last_player_viewer(w, n - 1)
        }
    }

    /// In `after`, the view of slot `i` is what the entity sees in `before`:
    /// the range is kept, the request is cleared, and the tiles are those
    /// seen from where it stands.
    pub open spec fn view_updated(before: &World, after: &World, i: int) -> bool {
        match after.fovs.at(i) {
            Some(f) => f.range == Self::range_of(before, i) && !f.needs_update
                && before.map.is_view_from(
                f.visible_tiles@,
                Self::center_of(before, i),
                Self::range_of(before, i),
            ),
            None => false,
        }
    }

    /// Some player whose view is brought up to date sees `(x, y)`.
    pub open spec fn seen_by_player(w: &World, n: int, x: int, y: int) -> bool {
        exists|j: int|
            0 <= j < n && #[trigger] Self::player_viewer(w, j) && w.map.sees(
                Self::center_of(w, j),
                Self::range_of(w, j),
                x,
                y,
            )
    }

    /// `after` is `before` with `visible` taken as what the entity of slot
    /// `i` sees: its view holds these tiles and asks for nothing; and if it
    /// is a player, these are the tiles that the map shows as visible, and
    /// they are added to the revealed ones. A slot without a view changes
    /// nothing.
    pub open spec fn looked(before: &World, after: &World, i: int,
        visible: Vec<GridPoint>) -> bool {
        match before.fovs.at(i) {
            None => *after == *before,
            Some(f) => {
                &&& *after == (World { fovs: after.fovs, map: after.map, ..*before })
                &&& after.map == (GameMap {
                    revealed_tiles: after.map.revealed_tiles,
                    currently_visible_tiles: after.map.currently_visible_tiles,
                    ..before.map
                })
                &&& forall|j: int|
                    #![trigger after.fovs.at(j)]
                    #![trigger before.fovs.at(j)]
                    after.fovs.at(j) == (if j == i {
                        Some(FOV { visible_tiles: visible, range: f.range, needs_update: false })
                    } else {
                        before.fovs.at(j)
                    })
                &&& if before.players.has(i) {
                    &&& forall|x: int, y: int|
                        #![trigger after.map.visible_at(x, y)]
                        before.map.in_bounds(x, y) ==> after.map.visible_at(x, y)
                            == visible@.contains(GridPoint { x: x as i32, y: y as i32 })
                    &&& forall|x: int, y: int|
                        #![trigger after.map.revealed_at(x, y)]
                        before.map.in_bounds(x, y) ==> after.map.revealed_at(x, y) == (
                        before.map.revealed_at(x, y) || visible@.contains(
                            GridPoint { x: x as i32, y: y as i32 },
                        ))
                    &&& forall|t: int|
                        0 <= t < before.map.tile_count() && before.map.revealed_tiles@[t]
                            ==> after.map.revealed_tiles@[t]
                } else {
                    after.map == before.map
                }
            },
        }
    }

    /// Takes `visible` as what the entity of slot `i` sees.
    pub fn look(world: &mut World, i: usize, visible: Vec<GridPoint>)
        requires
            old(world).wf(),
            forall|k: int|
                0 <= k < visible@.len() ==> old(world).map.in_bounds(
                    visible@[k].x as int,
                    visible@[k].y as int,
                ),
        ensures
            final(world).wf(),
            Self::looked(old(world), final(world), i as int, visible),
    {
        let range: i32 = match world.fovs.slot(i) {
            Some(f) => f.range,
            None => {
                return ;
            },
        };
        if world.players.has_slot(i) {
            world.map.show_only(&visible);
        }
        world.fovs.set(i, FOV { visible_tiles: visible, range, needs_update: false });
    }

    /// `after` is `before` after the visibility pass: every view that asked
    /// for it is up to date; the map has revealed what the players among
    /// them see, and shows as visible what the last of these players sees;
    /// nothing that was revealed is taken back; and nothing else changed.
    pub open spec fn ran(before: &World, after: &World) -> bool {
        &&& *after == (World { fovs: after.fovs, map: after.map, ..*before })
        &&& after.map == (GameMap {
            revealed_tiles: after.map.revealed_tiles,
            currently_visible_tiles: after.map.currently_visible_tiles,
            ..before.map
            })
        &&& forall|i: int|
            #![trigger after.fovs.at(i)]
            #![trigger before.fovs.at(i)]
            if Self::needs_view(before, i) {
                Self::view_updated(before, after, i)
            } else {
                after.fovs.at(i) == before.fovs.at(i)
            }
        &&& forall|x: int, y: int|
            #![trigger after.map.revealed_at(x, y)]
            before.map.in_bounds(x, y) ==> after.map.revealed_at(x, y)
                == (before.map.revealed_at(x, y) || Self::seen_by_player(
                before,
                before.fovs.slots@.len() as int,
                x,
                y,
            ))
        &&& forall|i: int|
            0 <= i < before.map.tile_count() && before.map.revealed_tiles@[i]
                ==> after.map.revealed_tiles@[i]
        &&& Self::last_player_viewer(before, before.fovs.slots@.len() as int) < 0
            ==> after.map.currently_visible_tiles@ == before.map.currently_visible_tiles@
        &&& Self::last_player_viewer(before, before.fovs.slots@.len() as int) >= 0
            ==> forall|x: int, y: int|
            #![trigger after.map.visible_at(x, y)]
            before.map.in_bounds(x, y) ==> after.map.visible_at(x, y) == before.map.sees(
                Self::center_of(
                    before,
                    Self::last_player_viewer(before, before.fovs.slots@.len() as int),
                ),
                Self::range_of(
                    before,
                    Self::last_player_viewer(before, before.fovs.slots@.len() as int),
                ),
                x,
                y,
            )
    }

    /// Brings every view that asks for it up to date. For a player the map
    /// takes note too: the tiles seen become the visible ones, and are added
    /// to the revealed ones, which are never taken back.
    pub fn run(&mut self, world: &mut World)
        requires
            old(world).wf(),
        ensures
            final(world).wf(),
            Self::ran(old(world), final(world)),
    {
        let n: usize = world.fovs.len();
        let mut i: usize = 0;
        while i < n
            invariant
                old(world).wf(),
                world.wf(),
                n == old(world).fovs.slots@.len(),
                i <= n,
                *world == (World { fovs: world.fovs, map: world.map, ..*old(world) }),
                world.map == (GameMap {
                    revealed_tiles: world.map.revealed_tiles,
                    currently_visible_tiles: world.map.currently_visible_tiles,
                    ..old(world).map
                }),
                forall|j: int|
                    #![trigger world.fovs.at(j)]
                    #![trigger old(world).fovs.at(j)]
                    if j < i && Self::needs_view(old(world), j) {
                        Self::view_updated(old(world), world, j)
                    } else {
                        world.fovs.at(j) == old(world).fovs.at(j)
                    },
                forall|x: int, y: int|
                    #![trigger world.map.revealed_at(x, y)]
                    world.map.in_bounds(x, y) ==> world.map.revealed_at(x, y)
                        == (old(world).map.revealed_at(x, y)
                            || Self::seen_by_player(old(world), i as int, x, y)),
                forall|j: int|
                    0 <= j < world.map.tile_count() && old(world).map.revealed_tiles@[j]
                        ==> world.map.revealed_tiles@[j],
                Self::last_player_viewer(old(world), i as int) < 0
                    ==> world.map.currently_visible_tiles@
                        == old(world).map.currently_visible_tiles@,
                Self::last_player_viewer(old(world), i as int) >= 0 ==> forall|x: int, y: int|
                    #![trigger world.map.visible_at(x, y)]
                    world.map.in_bounds(x, y) ==> world.map.visible_at(x, y) == old(world).map.sees(
                        Self::center_of(old(world), Self::last_player_viewer(old(world), i as int)),
                        Self::range_of(old(world), Self::last_player_viewer(old(world), i as int)),
                        x,
                        y,
                    ),
            decreases n - i,
        {
            let wanted: Option<i32> = match world.fovs.slot(i) {
                Some(f) => if f.needs_update {
                    Some(f.range)
                } else {
                    None
                },
                None => None,
            };
            let center: Option<GridPoint> = match world.positions.slot(i) {
                Some(p) => Some(GridPoint { x: p.x, y: p.y }),
                None => None,
            };
            let ghost before = *world;
            if let (Some(range), Some(c)) = (wanted, center) {
                assert(Self::needs_view(old(world), i as int));
                let visible = world.map.visible_points(c, range);
                let ghost seen = visible;
                let ghost is_player = world.players.has(i as int);
                Self::look(world, i, visible);
                let ghost visible = seen;
                proof {
                    assert(old(world).map.is_view_from(visible@, c, range as int)) by {
                        assert forall|p: GridPoint| #[trigger]
                            visible@.contains(p) <==> old(world).map.sees(
                                c,
                                range as int,
                                p.x as int,
                                p.y as int,
                            ) by {
                            assert(before.map.sees(c, range as int, p.x as int, p.y as int)
                                == old(world).map.sees(c, range as int, p.x as int, p.y as int));
                        }
                    }
                    assert forall|x: int, y: int|
                        #![trigger world.map.revealed_at(x, y)]
                        world.map.in_bounds(x, y) implies world.map.revealed_at(x, y)
                            == (old(world).map.revealed_at(x, y) || Self::seen_by_player(
                        old(world),
                        i as int + 1,
                        x,
                        y,
                    )) by {
                        let p = GridPoint { x: x as i32, y: y as i32 };
                        assert(before.map.revealed_at(x, y) == (old(world).map.revealed_at(x, y)
                            || Self::seen_by_player(old(world), i as int, x, y)));
                        if is_player {
                            assert(visible@.contains(p) == old(world).map.sees(
                                c,
                                range as int,
                                x,
                                y,
                            ));
                            if visible@.contains(p) {
                                assert(Self::player_viewer(old(world), i as int));
                            }
                        }
                        if Self::seen_by_player(old(world), i as int + 1, x, y) {
                            let j = choose|j: int|
                                0 <= j < i + 1 && #[trigger] Self::player_viewer(old(world), j)
                                    && old(world).map.sees(
                                    Self::center_of(old(world), j),
                                    Self::range_of(old(world), j),
                                    x,
                                    y,
                                );
                            if j < i {
                                assert(Self::seen_by_player(old(world), i as int, x, y));
                            }
                        }
                        if Self::seen_by_player(old(world), i as int, x, y) {
                            let j = choose|j: int|
                                0 <= j < i && #[trigger] Self::player_viewer(old(world), j)
                                    && old(world).map.sees(
                                    Self::center_of(old(world), j),
                                    Self::range_of(old(world), j),
                                    x,
                                    y,
                                );
                            assert(0 <= j < i + 1);
                        }
                    }
                    if is_player {
                        assert(Self::last_player_viewer(old(world), i as int + 1) == i);
                        assert forall|x: int, y: int|
                            #![trigger world.map.visible_at(x, y)]
                            world.map.in_bounds(x, y) implies world.map.visible_at(x, y)
                                == old(world).map.sees(c, range as int, x, y) by {
                            let p = GridPoint { x: x as i32, y: y as i32 };
                            assert(visible@.contains(p) == old(world).map.sees(
                                c,
                                range as int,
                                x,
                                y,
                            ));
                        }
                    } else {
                        assert(Self::last_player_viewer(old(world), i as int + 1)
                            == Self::last_player_viewer(old(world), i as int));
                    }
                }
            } else {
                proof {
                    assert(!Self::needs_view(old(world), i as int));
                    assert(Self::last_player_viewer(old(world), i as int + 1)
                        == Self::last_player_viewer(old(world), i as int));
                    assert forall|x: int, y: int|
                        #![trigger world.map.revealed_at(x, y)]
                        world.map.in_bounds(x, y) implies world.map.revealed_at(x, y)
                            == (old(world).map.revealed_at(x, y) || Self::seen_by_player(
                        old(world),
                        i as int + 1,
                        x,
                        y,
                    )) by {
                        if Self::seen_by_player(old(world), i as int + 1, x, y) {
                            let j = choose|j: int|
                                0 <= j < i + 1 && #[trigger] Self::player_viewer(old(world), j)
                                    && old(world).map.sees(
                                    Self::center_of(old(world), j),
                                    Self::range_of(old(world), j),
                                    x,
                                    y,
                                );
                            assert(j < i);
                            assert(Self::seen_by_player(old(world), i as int, x, y));
                        }
                        if Self::seen_by_player(old(world), i as int, x, y) {
                            let j = choose|j: int|
                                0 <= j < i && #[trigger] Self::player_viewer(old(world), j)
                                    && old(world).map.sees(
                                    Self::center_of(old(world), j),
                                    Self::range_of(old(world), j),
                                    x,
                                    y,
                                );
                            assert(0 <= j < i + 1);
                        }
                    }
                }
            }
            i += 1;
        }
    }
}

/// After the visibility pass, a view that was brought up to date holds
/// tiles of the grid only.
pub proof fn lemma_view_stays_on_grid(before: &World, after: &World, i: int, k: int)
    requires
        FovSystem::ran(before, after),
        FovSystem::needs_view(before, i),
        0 <= k < after.fovs.at(i).unwrap().visible_tiles@.len(),
    ensures
        before.map.in_bounds(
            after.fovs.at(i).unwrap().visible_tiles@[k].x as int,
            after.fovs.at(i).unwrap().visible_tiles@[k].y as int,
        ),
{
    let f = after.fovs.at(i).unwrap();
    assert(FovSystem::view_updated(before, after, i));
    assert(f.visible_tiles@.contains(f.visible_tiles@[k]));
}

/// A tile that was revealed stays revealed through any number of runs of
/// the visibility pass.
pub proof fn lemma_revealed_never_shrinks(trace: Seq<World>, t: int)
    requires
        trace.len() >= 1,
        forall|k: int| 0 <= k < trace.len() - 1 ==> #[trigger] visibility_link(trace, k),
        0 <= t < trace[0].map.tile_count(),
        trace[0].map.revealed_tiles@[t],
    ensures
        trace.last().map.tile_count() == trace[0].map.tile_count(),
        trace.last().map.revealed_tiles@[t],
    decreases trace.len(),
{
    if trace.len() > 1 {
        let shorter = trace.drop_last();
        assert forall|k: int| 0 <= k < shorter.len() - 1 implies #[trigger] visibility_link(
            shorter,
            k,
        ) by {
            assert(visibility_link(trace, k));
        }
        lemma_revealed_never_shrinks(shorter, t);
        assert(visibility_link(trace, trace.len() - 2));
        assert(shorter.last() == trace[trace.len() - 2]);
    }
}

/// Step `k` of `trace` is one run of the visibility pass.
pub open spec fn visibility_link(trace: Seq<World>, k: int) -> bool {
    FovSystem::ran(&trace[k], &trace[k + 1])
}

} // verus!
