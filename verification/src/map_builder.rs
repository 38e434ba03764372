//! Dungeon generation: rooms that do not overlap, each joined to the room
//! placed before it by an L-shaped corridor.

use vstd::prelude::*;
use rltk::RandomNumberGenerator;
use crate::map::{between, GameMap, TileType, MAP_HEIGHT, MAP_WIDTH};
use crate::rect::{lemma_center_is_covered, Rect};
use crate::rng::{new_rng, range};

verus! {

/// Room placements tried for one level.
pub const MAX_ROOMS: i32 = 30;

/// Smallest extent of a room.
pub const MIN_SIZE: i32 = 6;

/// Upper limit, not reached, of a room's extent.
pub const MAX_SIZE: i32 = 10;

/// Two grid points that share a side.
pub open spec fn adjacent(a: (int, int), b: (int, int)) -> bool {
    (a.0 == b.0 && (a.1 == b.1 + 1 || b.1 == a.1 + 1)) || (a.1 == b.1 && (a.0 == b.0 + 1 || b.0
        == a.0 + 1))
}

/// The point `(px, py)` lies on the L-shaped corridor from `(ax, ay)` to
/// `(bx, by)`. With `horizontal_first` the corridor leaves `(ax, ay)` along
/// its row and reaches `(bx, by)` along its column; otherwise it leaves along
/// the column and arrives along the row.
pub open spec fn corridor_covers(
    ax: int,
    ay: int,
    bx: int,
    by: int,
    horizontal_first: bool,
    px: int,
    py: int,
) -> bool {
    if horizontal_first {
        (py == ay && between(px, ax, bx)) || (px == bx && between(py, ay, by))
    } else {
        (px == ax && between(py, ay, by)) || (py == by && between(px, ax, bx))
    }
}

impl GameMap {
    /// Nobody has been on the map yet: no tile is revealed, visible or
    /// blocked, and no tile has an occupant.
    pub open spec fn is_untrodden(&self) -> bool {
        &&& forall|i: int| 0 <= i < self.tile_count() ==> !self.revealed_tiles@[i]
        &&& forall|i: int| 0 <= i < self.tile_count() ==> !self.currently_visible_tiles@[i]
        &&& forall|i: int| 0 <= i < self.tile_count() ==> !self.blocked_tiles@[i]
        &&& forall|i: int| 0 <= i < self.tile_count() ==> self.tile_content@[i]@.len() == 0
    }

    /// `(x, y)` is a floor tile of the grid.
    pub open spec fn floor_at(&self, x: int, y: int) -> bool {
        self.in_bounds(x, y) && self.tile_at(x, y) == TileType::Floor
    }

    /// A walk over floor tiles in which each step goes to a tile that shares
    /// a side with the one before.
    pub open spec fn is_floor_path(&self, path: Seq<(int, int)>) -> bool {
        &&& path.len() > 0
        &&& forall|i: int| 0 <= i < path.len() ==> self.floor_at((#[trigger] path[i]).0, path[i].1)
        &&& forall|i: int| 0 <= i < path.len() - 1 ==> adjacent(#[trigger] path[i], path[i + 1])
    }

    /// Some walk over floor tiles leads from `(ax, ay)` to `(bx, by)`.
    pub open spec fn connected(&self, ax: int, ay: int, bx: int, by: int) -> bool {
        exists|path: Seq<(int, int)>|
            #[trigger] self.is_floor_path(path) && path[0] == (ax, ay) && path.last() == (bx, by)
    }

    /// `room` keeps one tile of wall between itself and the edge of the grid.
    pub open spec fn room_fits(&self, room: Rect) -> bool {
        1 <= room.x1 <= room.x2 <= self.width - 2 && 1 <= room.y1 <= room.y2 <= self.height - 2
    }

    /// No listed room meets `room`.
    pub open spec fn room_is_free(&self, room: Rect) -> bool {
        forall|i: int| 0 <= i < self.rooms@.len() ==> !(#[trigger] self.rooms@[i]).overlaps(&room)
    }

    /// Every room fits the grid, no two rooms meet, and each room is floor
    /// throughout.
    pub open spec fn rooms_wf(&self) -> bool {
        &&& forall|i: int| 0 <= i < self.rooms@.len() ==> self.room_fits(#[trigger] self.rooms@[i])
        &&& forall|i: int, j: int|
            #![trigger self.rooms@[i], self.rooms@[j]]
            0 <= i < j < self.rooms@.len() ==> !self.rooms@[i].overlaps(&self.rooms@[j])
        &&& forall|i: int, x: int, y: int|
            0 <= i < self.rooms@.len() && (#[trigger] self.rooms@[i]).covers(x, y)
                ==> #[trigger] self.floor_at(x, y)
    }

    /// The centre of every room can be walked to from the centre of the
    /// first room.
    pub open spec fn rooms_linked(&self) -> bool {
        forall|i: int|
            0 <= i < self.rooms@.len() ==> self.connected(
                self.rooms@[0].center_x(),
                self.rooms@[0].center_y(),
                (#[trigger] self.rooms@[i]).center_x(),
                self.rooms@[i].center_y(),
            )
    }

    /// What placing `room` turns into floor: the room, and the corridor from
    /// its centre to the centre of the room listed last, if there is one.
    pub open spec fn carved_by(&self, room: Rect, horizontal_first: bool, px: int,
        py: int) -> bool {
        room.covers(px, py) || (self.rooms@.len() > 0 && corridor_covers(
            room.center_x(),
            room.center_y(),
            self.rooms@.last().center_x(),
            self.rooms@.last().center_y(),
            horizontal_first,
            px,
            py,
        ))
    }

    /// Every floor tile of `self` is a floor tile of `later`.
    pub open spec fn floor_kept_by(&self, later: &GameMap) -> bool {
        &&& self.width == later.width
        &&& self.height == later.height
        &&& forall|x: int, y: int| #[trigger] self.floor_at(x, y) ==> later.floor_at(x, y)
    }

    /// A floor tile is connected to itself.
    pub proof fn lemma_connected_reflexive(&self, x: int, y: int)
        requires
            self.floor_at(x, y),
        ensures
            self.connected(x, y, x, y),
    {
        let path = seq![(x, y)];
        assert(self.is_floor_path(path));
        assert(path[0] == (x, y) && path.last() == (x, y));
    }

    /// Walks can be joined end to start.
    pub proof fn lemma_connected_transitive(
        &self,
        ax: int,
        ay: int,
        bx: int,
        by: int,
        cx: int,
        cy: int,
    )
        requires
            self.connected(ax, ay, bx, by),
            self.connected(bx, by, cx, cy),
        ensures
            self.connected(ax, ay, cx, cy),
    {
        let p = choose|path: Seq<(int, int)>|
            #[trigger] self.is_floor_path(path) && path[0] == (ax, ay) && path.last() == (bx, by);
        let q = choose|path: Seq<(int, int)>|
            #[trigger] self.is_floor_path(path) && path[0] == (bx, by) && path.last() == (cx, cy);
        let r = p + q.subrange(1, q.len() as int);
        assert forall|i: int| 0 <= i < r.len()
            implies self.floor_at((#[trigger] r[i]).0, r[i].1) by {
            if i < p.len() {
                assert(r[i] == p[i]);
            } else {
                assert(r[i] == q[i - p.len() + 1]);
            }
        }
        assert forall|i: int| 0 <= i < r.len() - 1 implies adjacent(#[trigger] r[i], r[i + 1]) by {
            if i < p.len() - 1 {
                assert(r[i] == p[i]);
                assert(r[i + 1] == p[i + 1]);
            } else if i == p.len() - 1 {
                assert(r[i] == p[i]);
                assert(r[i] == q[0]);
                assert(r[i + 1] == q[1]);
            } else {
                assert(r[i] == q[i - p.len() + 1]);
                assert(r[i + 1] == q[i - p.len() + 2]);
            }
        }
        assert(self.is_floor_path(r));
        assert(r[0] == p[0]);
        if q.len() == 1 {
            assert(r.last() == p.last());
        } else {
            assert(r.last() == q.last());
        }
    }

    /// A walk stays a walk when floor is only added.
    pub proof fn lemma_connected_monotone(
        &self,
        later: &GameMap,
        ax: int,
        ay: int,
        bx: int,
        by: int,
    )
        requires
            self.floor_kept_by(later),
            self.connected(ax, ay, bx, by),
        ensures
            later.connected(ax, ay, bx, by),
    {
        let p = choose|path: Seq<(int, int)>|
            #[trigger] self.is_floor_path(path) && path[0] == (ax, ay) && path.last() == (bx, by);
        assert forall|i: int| 0 <= i < p.len()
            implies later.floor_at((#[trigger] p[i]).0, p[i].1) by {
            assert(self.floor_at(p[i].0, p[i].1));
        }
        assert(later.is_floor_path(p));
    }

    /// The ends of a stretch of floor along one row are connected.
    pub proof fn lemma_row_connected(&self, y: int, from: int, to: int)
        requires
            forall|x: int| between(x, from, to) ==> #[trigger] self.floor_at(x, y),
        ensures
            self.connected(from, y, to, y),
        decreases
                if from <= to {
                    to - from
                } else {
                    from - to
                },
    {
        assert(between(from, from, to));
        if from == to {
            self.lemma_connected_reflexive(from, y);
        } else {
            let next = if from < to {
                from + 1
            } else {
                from - 1
            };
            assert forall|x: int| between(x, next, to) implies #[trigger] self.floor_at(x, y) by {
                assert(between(x, from, to));
            }
            self.lemma_row_connected(y, next, to);
            let step = seq![(from, y), (next, y)];
            assert(between(next, from, to));
            assert(self.floor_at(from, y) && self.floor_at(next, y));
            assert(self.is_floor_path(step));
            assert(step[0] == (from, y) && step.last() == (next, y));
            self.lemma_connected_transitive(from, y, next, y, to, y);
        }
    }

    /// The ends of a stretch of floor along one column are connected.
    pub proof fn lemma_column_connected(&self, x: int, from: int, to: int)
        requires
            forall|y: int| between(y, from, to) ==> #[trigger] self.floor_at(x, y),
        ensures
            self.connected(x, from, x, to),
        decreases
                if from <= to {
                    to - from
                } else {
                    from - to
                },
    {
        assert(between(from, from, to));
        if from == to {
            self.lemma_connected_reflexive(x, from);
        } else {
            let next = if from < to {
                from + 1
            } else {
                from - 1
            };
            assert forall|y: int| between(y, next, to) implies #[trigger] self.floor_at(x, y) by {
                assert(between(y, from, to));
            }
            self.lemma_column_connected(x, next, to);
            let step = seq![(x, from), (x, next)];
            assert(between(next, from, to));
            assert(self.floor_at(x, from) && self.floor_at(x, next));
            assert(self.is_floor_path(step));
            assert(step[0] == (x, from) && step.last() == (x, next));
            self.lemma_connected_transitive(x, from, x, next, x, to);
        }
    }

    /// Whether `room` meets none of the rooms listed so far.
    pub fn is_room_free(&self, room: &Rect) -> (r: bool)
        ensures
            r == self.room_is_free(*room),
    {
        let mut i: usize = 0;
        while i < self.rooms.len()
            invariant
                i <= self.rooms@.len(),
                forall|j: int| 0 <= j < i ==> !(#[trigger] self.rooms@[j]).overlaps(room),
            decreases self.rooms@.len() - i,
        {
            if self.rooms[i].intersect(room) {
                return false;
            }
            i += 1;
        }
        true
    }

    /// Room `i` accounts for the floor at `(x, y)`: the room covers it, or
    /// one of the two L-shaped corridors from its centre to the centre of
    /// room `i - 1` does.
    pub open spec fn explained_by(&self, i: int, x: int, y: int) -> bool {
        self.rooms@[i].covers(x, y) || (i >= 1 && (corridor_covers(
            self.rooms@[i].center_x(),
            self.rooms@[i].center_y(),
            self.rooms@[i - 1].center_x(),
            self.rooms@[i - 1].center_y(),
            true,
            x,
            y,
        ) || corridor_covers(
            self.rooms@[i].center_x(),
            self.rooms@[i].center_y(),
            self.rooms@[i - 1].center_x(),
            self.rooms@[i - 1].center_y(),
            false,
            x,
            y,
        )))
    }

    /// Every floor tile belongs to a room or to a corridor between two rooms
    /// placed one after the other.
    pub open spec fn floor_accounted(&self) -> bool {
        forall|x: int, y: int| #[trigger]
            self.floor_at(x, y) ==> exists|i: int|
                0 <= i < self.rooms@.len() && #[trigger] self.explained_by(i, x, y)
    }

    /// The L-shaped corridor from the centre of room `i` to the centre of
    /// room `i - 1` is floor throughout.
    pub open spec fn joined(&self, i: int, horizontal_first: bool) -> bool {
        forall|x: int, y: int|
            corridor_covers(
                self.rooms@[i].center_x(),
                self.rooms@[i].center_y(),
                self.rooms@[i - 1].center_x(),
                self.rooms@[i - 1].center_y(),
                horizontal_first,
                x,
                y,
            ) ==> #[trigger] self.floor_at(x, y)
    }

    /// Every room but the first is joined to the room placed before it by
    /// one of the two L-shaped corridors between their centres.
    pub open spec fn rooms_joined(&self) -> bool {
        forall|i: int|
            1 <= i < self.rooms@.len() ==> #[trigger] self.joined(i, true) || self.joined(i, false)
    }

    /// The properties of a generated level: rooms that fit, do not meet and
    /// are floor throughout; a corridor from each room to the one placed
    /// before it; a walk from the first room's centre to every other
    /// centre; and no floor but rooms and corridors.
    pub open spec fn dungeon_wf(&self) -> bool {
        self.rooms_wf() && self.rooms_joined() && self.rooms_linked() && self.floor_accounted()
    }

    /// `self` is `before` with `room` placed: the room is listed last, and
    /// exactly the tiles that the placement carves have become floor.
    pub open spec fn is_placement(
        &self,
        before: &GameMap,
        room: Rect,
        horizontal_first: bool,
    ) -> bool {
        &&& self.width == before.width
        &&& self.height == before.height
        &&& self.rooms@ == before.rooms@.push(room)
        &&& forall|px: int, py: int|
            #![trigger self.tile_at(px, py)]
            #![trigger before.tile_at(px, py)]
            before.in_bounds(px, py) ==> self.tile_at(px, py) == (if before.carved_by(
                room,
                horizontal_first,
                px,
                py,
            ) {
                TileType::Floor
            } else {
                before.tile_at(px, py)
            })
    }

    proof fn lemma_placement_keeps_floor(
        &self,
        before: &GameMap,
        room: Rect,
        horizontal_first: bool,
    )
        requires
            self.is_placement(before, room, horizontal_first),
        ensures
            before.floor_kept_by(self),
            forall|x: int, y: int|
                self.in_bounds(x, y) && before.carved_by(room, horizontal_first, x, y)
                    ==> #[trigger] self.floor_at(x, y),
            forall|x: int, y: int| #[trigger]
                self.floor_at(x, y) ==> before.floor_at(x, y) || before.carved_by(
                    room,
                    horizontal_first,
                    x,
                    y,
                ),
    {
        assert forall|x: int, y: int| #[trigger] before.floor_at(x, y) implies self.floor_at(
            x,
            y,
        ) by {
            assert(self.tile_at(x, y) == TileType::Floor);
        }
        assert forall|x: int, y: int|
            self.in_bounds(x, y) && before.carved_by(
                room,
                horizontal_first,
                x,
                y,
            ) implies #[trigger] self.floor_at(x, y) by {
            assert(self.tile_at(x, y) == TileType::Floor);
        }
        assert forall|x: int, y: int| #[trigger] self.floor_at(x, y) implies before.floor_at(x, y)
            || before.carved_by(room, horizontal_first, x, y) by {
            assert(self.tile_at(x, y) == TileType::Floor);
        }
    }

    proof fn lemma_placement_keeps_rooms(
        &self,
        before: &GameMap,
        room: Rect,
        horizontal_first: bool,
    )
        requires
            before.rooms_wf(),
            before.room_fits(room),
            before.room_is_free(room),
            self.is_placement(before, room, horizontal_first),
        ensures
            self.rooms_wf(),
    {
        let n = before.rooms@.len() as int;
        self.lemma_placement_keeps_floor(before, room, horizontal_first);
        assert forall|i: int| 0 <= i < self.rooms@.len() implies self.room_fits(
            #[trigger] self.rooms@[i],
        ) by {
            if i < n {
                assert(before.room_fits(before.rooms@[i]));
            }
        }
        assert forall|i: int, j: int|
            #![trigger self.rooms@[i], self.rooms@[j]]
            0 <= i < j < self.rooms@.len() implies !self.rooms@[i].overlaps(&self.rooms@[j]) by {
            if j < n {
                assert(!before.rooms@[i].overlaps(&before.rooms@[j]));
            } else {
                assert(!before.rooms@[i].overlaps(&room));
            }
        }
        assert forall|i: int, x: int, y: int|
            0 <= i < self.rooms@.len() && (#[trigger] self.rooms@[i]).covers(
                x,
                y,
            ) implies #[trigger] self.floor_at(x, y) by {
            if i < n {
                assert(before.rooms@[i].covers(x, y));
                assert(before.floor_at(x, y));
            } else {
                assert(before.carved_by(room, horizontal_first, x, y));
            }
        }
    }

    proof fn lemma_placement_keeps_account(
        &self,
        before: &GameMap,
        room: Rect,
        horizontal_first: bool,
    )
        requires
            before.floor_accounted(),
            self.is_placement(before, room, horizontal_first),
        ensures
            self.floor_accounted(),
    {
        let n = before.rooms@.len() as int;
        self.lemma_placement_keeps_floor(before, room, horizontal_first);
        assert forall|x: int, y: int| #[trigger] self.floor_at(x, y) implies exists|i: int|
            0 <= i < self.rooms@.len() && #[trigger] self.explained_by(i, x, y) by {
            if before.carved_by(room, horizontal_first, x, y) {
                assert(self.rooms@[n] == room);
                if n > 0 {
                    assert(self.rooms@[n - 1] == before.rooms@.last());
                }
                assert(self.explained_by(n, x, y));
            } else {
                assert(before.floor_at(x, y));
                let i = choose|i: int| 0 <= i < n && #[trigger] before.explained_by(i, x, y);
                assert(self.rooms@[i] == before.rooms@[i]);
                if i >= 1 {
                    assert(self.rooms@[i - 1] == before.rooms@[i - 1]);
                }
                assert(self.explained_by(i, x, y));
            }
        }
    }

    proof fn lemma_placement_keeps_joins(
        &self,
        before: &GameMap,
        room: Rect,
        horizontal_first: bool,
    )
        requires
            before.rooms_wf(),
            before.rooms_joined(),
            before.room_fits(room),
            self.is_placement(before, room, horizontal_first),
        ensures
            self.rooms_joined(),
    {
        let n = before.rooms@.len() as int;
        self.lemma_placement_keeps_floor(before, room, horizontal_first);
        assert forall|i: int| 1 <= i < self.rooms@.len() implies #[trigger] self.joined(i, true)
            || self.joined(i, false) by {
            assert(self.rooms@[i - 1] == before.rooms@[i - 1]);
            if i < n {
                assert(self.rooms@[i] == before.rooms@[i]);
                assert(before.joined(i, true) || before.joined(i, false));
                if before.joined(i, true) {
                    assert forall|x: int, y: int|
                        corridor_covers(
                            self.rooms@[i].center_x(),
                            self.rooms@[i].center_y(),
                            self.rooms@[i - 1].center_x(),
                            self.rooms@[i - 1].center_y(),
                            true,
                            x,
                            y,
                        ) implies #[trigger] self.floor_at(x, y) by {
                        assert(before.floor_at(x, y));
                    }
                } else {
                    assert forall|x: int, y: int|
                        corridor_covers(
                            self.rooms@[i].center_x(),
                            self.rooms@[i].center_y(),
                            self.rooms@[i - 1].center_x(),
                            self.rooms@[i - 1].center_y(),
                            false,
                            x,
                            y,
                        ) implies #[trigger] self.floor_at(x, y) by {
                        assert(before.floor_at(x, y));
                    }
                }
            } else {
                let last = before.rooms@.last();
                assert(self.rooms@[i] == room);
                assert(before.room_fits(last));
                lemma_center_is_covered(room);
                lemma_center_is_covered(last);
                assert forall|x: int, y: int|
                    corridor_covers(
                        room.center_x(),
                        room.center_y(),
                        last.center_x(),
                        last.center_y(),
                        horizontal_first,
                        x,
                        y,
                    ) implies #[trigger] self.floor_at(x, y) by {
                    assert(before.carved_by(room, horizontal_first, x, y));
                    assert(self.in_bounds(x, y));
                }
                assert(self.joined(i, horizontal_first));
            }
        }
    }

    /// After a placement the new centre can be walked to from the centre of
    /// the room placed before it.
    proof fn lemma_placement_links_last(
        &self,
        before: &GameMap,
        room: Rect,
        horizontal_first: bool,
    )
        requires
            before.rooms_wf(),
            before.rooms@.len() > 0,
            before.room_fits(room),
            self.is_placement(before, room, horizontal_first),
        ensures
            self.connected(
                before.rooms@.last().center_x(),
                before.rooms@.last().center_y(),
                room.center_x(),
                room.center_y(),
            ),
    {
        let last = before.rooms@.last();
        let qx = last.center_x();
        let qy = last.center_y();
        let cx = room.center_x();
        let cy = room.center_y();
        self.lemma_placement_keeps_floor(before, room, horizontal_first);
        lemma_center_is_covered(room);
        lemma_center_is_covered(last);
        assert(before.room_fits(last));
        if horizontal_first {
            assert forall|y: int| between(y, qy, cy) implies #[trigger] self.floor_at(qx, y) by {
                assert(before.carved_by(room, horizontal_first, qx, y));
            }
            self.lemma_column_connected(qx, qy, cy);
            assert forall|x: int| between(x, qx, cx) implies #[trigger] self.floor_at(x, cy) by {
                assert(before.carved_by(room, horizontal_first, x, cy));
            }
            self.lemma_row_connected(cy, qx, cx);
            self.lemma_connected_transitive(qx, qy, qx, cy, cx, cy);
        } else {
            assert forall|x: int| between(x, qx, cx) implies #[trigger] self.floor_at(x, qy) by {
                assert(before.carved_by(room, horizontal_first, x, qy));
            }
            self.lemma_row_connected(qy, qx, cx);
            assert forall|y: int| between(y, qy, cy) implies #[trigger] self.floor_at(cx, y) by {
                assert(before.carved_by(room, horizontal_first, cx, y));
            }
            self.lemma_column_connected(cx, qy, cy);
            self.lemma_connected_transitive(qx, qy, cx, qy, cx, cy);
        }
    }

    proof fn lemma_placement_keeps_links(
        &self,
        before: &GameMap,
        room: Rect,
        horizontal_first: bool,
    )
        requires
            before.rooms_wf(),
            before.rooms_linked(),
            before.room_fits(room),
            self.is_placement(before, room, horizontal_first),
        ensures
            self.rooms_linked(),
    {
        let n = before.rooms@.len() as int;
        let cx = room.center_x();
        let cy = room.center_y();
        let ax = self.rooms@[0].center_x();
        let ay = self.rooms@[0].center_y();
        self.lemma_placement_keeps_floor(before, room, horizontal_first);
        lemma_center_is_covered(room);
        assert(self.rooms@[n] == room);
        if n == 0 {
            assert(before.carved_by(room, horizontal_first, cx, cy));
            self.lemma_connected_reflexive(cx, cy);
        } else {
            let last = before.rooms@.last();
            assert(self.rooms@[0] == before.rooms@[0]);
            assert(last == before.rooms@[n - 1]);
            before.lemma_connected_monotone(self, ax, ay, last.center_x(), last.center_y());
            self.lemma_placement_links_last(before, room, horizontal_first);
            self.lemma_connected_transitive(ax, ay, last.center_x(), last.center_y(), cx, cy);
        }
        assert forall|i: int| 0 <= i < self.rooms@.len() implies self.connected(
            ax,
            ay,
            (#[trigger] self.rooms@[i]).center_x(),
            self.rooms@[i].center_y(),
        ) by {
            if i < n {
                assert(self.rooms@[0] == before.rooms@[0]);
                assert(self.rooms@[i] == before.rooms@[i]);
                before.lemma_connected_monotone(
                    self,
                    ax,
                    ay,
                    before.rooms@[i].center_x(),
                    before.rooms@[i].center_y(),
                );
            }
        }
    }

    /// Places `room` if it fits the grid and meets no room placed before:
    /// carves it, joins its centre to the centre of the room placed last by
    /// an L-shaped corridor, and lists it. Otherwise the map is unchanged.
    pub fn place_room(&mut self, room: Rect, horizontal_first: bool) -> (placed: bool)
        requires
            old(self).wf(),
            old(self).dungeon_wf(),
        ensures
            final(self).wf(),
            final(self).dungeon_wf(),
            *final(self) == (GameMap {
                tiles: final(self).tiles,
                rooms: final(self).rooms,
                ..*old(self)
            }),
            placed == (old(self).room_fits(room) && old(self).room_is_free(room)),
            !placed ==> final(self).tiles@ == old(self).tiles@ && final(self).rooms@
                == old(self).rooms@,
            placed ==> final(self).is_placement(old(self), room, horizontal_first),
    {
        let fits: bool = 1 <= room.x1 && room.x1 <= room.x2 && room.x2 <= self.width - 2 && 1
            <= room.y1 && room.y1 <= room.y2 && room.y2 <= self.height - 2;
        if !fits || !self.is_room_free(&room) {
            return false;
        }
        let c = room.center();
        self.apply_room_to_map(&room);
        if self.rooms.len() > 0 {
            let q = self.rooms[self.rooms.len() - 1].center();
            if horizontal_first {
                self.apply_horizontal_tunnel(c.0, q.0, c.1);
                self.apply_vertical_tunnel(c.1, q.1, q.0);
            } else {
                self.apply_vertical_tunnel(c.1, q.1, c.0);
                self.apply_horizontal_tunnel(c.0, q.0, q.1);
            }
        }
        self.rooms.push(room);
        proof {
            assert(self.is_placement(old(self), room, horizontal_first));
            self.lemma_placement_keeps_rooms(old(self), room, horizontal_first);
            self.lemma_placement_keeps_joins(old(self), room, horizontal_first);
            self.lemma_placement_keeps_account(old(self), room, horizontal_first);
            self.lemma_placement_keeps_links(old(self), room, horizontal_first);
        }
        true
    }

    /// Generates a level of `MAP_WIDTH` by `MAP_HEIGHT` tiles. `max_rooms`
    /// placements are tried; each draws a room whose extents lie from
    /// `min_size` up to but not including `max_size`, and a placement that
    /// meets an earlier room is given up.
    pub fn generate(
        depth: i32,
        max_rooms: i32,
        min_size: i32,
        max_size: i32,
        rng: &mut RandomNumberGenerator,
    ) -> (m: GameMap)
        requires
            0 <= min_size < max_size <= MAP_HEIGHT - 2,
        ensures
            m.wf(),
            m.width == MAP_WIDTH,
            m.height == MAP_HEIGHT,
            m.depth == depth,
            m.dungeon_wf(),
            m.rooms@.len() <= max_rooms || m.rooms@.len() == 0,
            max_rooms >= 1 ==> m.rooms@.len() >= 1,
            forall|i: int|
                0 <= i < m.rooms@.len() ==> min_size <= (#[trigger] m.rooms@[i]).x2 - m.rooms@[i].x1
                    < max_size && min_size <= m.rooms@[i].y2 - m.rooms@[i].y1 < max_size,
            m.is_untrodden(),
    {
        let mut map = GameMap::new(MAP_WIDTH, MAP_HEIGHT, depth);
        proof {
            assert forall|x: int, y: int| !#[trigger] map.floor_at(x, y) by {
                if map.in_bounds(x, y) {
                    crate::map::lemma_idx_in_range(map.width as int, map.height as int, x, y);
                }
            }
        }
        let mut tried: i32 = 0;
        while tried < max_rooms
            invariant
                0 <= min_size < max_size <= MAP_HEIGHT - 2,
                map.wf(),
                map.width == MAP_WIDTH,
                map.height == MAP_HEIGHT,
                map.depth == depth,
                map.dungeon_wf(),
                0 <= tried,
                tried == 0 || tried <= max_rooms,
                map.rooms@.len() <= tried,
                tried >= 1 ==> map.rooms@.len() >= 1,
                forall|i: int|
                    0 <= i < map.rooms@.len() ==> min_size <= (#[trigger] map.rooms@[i]).x2
                        - map.rooms@[i].x1 < max_size && min_size <= map.rooms@[i].y2
                        - map.rooms@[i].y1 < max_size,
                forall|i: int| 0 <= i < map.tile_count() ==> !map.revealed_tiles@[i],
                forall|i: int| 0 <= i < map.tile_count() ==> !map.currently_visible_tiles@[i],
                forall|i: int| 0 <= i < map.tile_count() ==> !map.blocked_tiles@[i],
                forall|i: int| 0 <= i < map.tile_count() ==> map.tile_content@[i]@.len() == 0,
            decreases max_rooms - tried,
        {
            let room_width: i32 = range(rng, min_size, max_size);
            let room_height: i32 = range(rng, min_size, max_size);
            // the outermost tiles stay wall
            let room_x: i32 = range(rng, 1, map.width - room_width - 1);
            let room_y: i32 = range(rng, 1, map.height - room_height - 1);
            let new_room = Rect::new(room_x, room_y, room_width, room_height);
            if map.is_room_free(&new_room) {
                let horizontal_first: bool = if map.rooms.len() > 0 {
                    range(rng, 0, 2) == 0
                } else {
                    true
                };
                let placed = map.place_room(new_room, horizontal_first);
                assert(placed);
            }
            tried += 1;
        }
        map
    }

    /// Generates a level with the usual number and size of rooms from a
    /// generator of its own. Nothing of the level is revealed, visible or
    /// blocked yet, and nobody stands on it.
    pub fn map_with_rooms_and_corridors(depth: i32) -> (m: GameMap)
        ensures
            m.wf(),
            m.width == MAP_WIDTH,
            m.height == MAP_HEIGHT,
            m.depth == depth,
            m.dungeon_wf(),
            1 <= m.rooms@.len() <= MAX_ROOMS,
            forall|i: int|
                0 <= i < m.rooms@.len() ==> MIN_SIZE <= (#[trigger] m.rooms@[i]).x2 - m.rooms@[i].x1
                    < MAX_SIZE && MIN_SIZE <= m.rooms@[i].y2 - m.rooms@[i].y1 < MAX_SIZE,
            m.is_untrodden(),
    {
        let mut rng = new_rng();
        GameMap::generate(depth, MAX_ROOMS, MIN_SIZE, MAX_SIZE, &mut rng)
    }
}

/// No two rooms of a generated level overlap or touch.
pub proof fn lemma_rooms_do_not_overlap(map: &GameMap, i: int, j: int)
    requires
        map.dungeon_wf(),
        0 <= i < map.rooms@.len(),
        0 <= j < map.rooms@.len(),
        i != j,
    ensures
        !map.rooms@[i].overlaps(&map.rooms@[j]),
{
    if i < j {
        assert(!map.rooms@[i].overlaps(&map.rooms@[j]));
    } else {
        assert(!map.rooms@[j].overlaps(&map.rooms@[i]));
    }
}

/// The centre of the first room, where the player starts, is floor.
pub proof fn lemma_start_is_floor(map: &GameMap)
    requires
        map.dungeon_wf(),
        map.rooms@.len() > 0,
    ensures
        map.floor_at(map.rooms@[0].center_x(), map.rooms@[0].center_y()),
{
    assert(map.room_fits(map.rooms@[0]));
    lemma_center_is_covered(map.rooms@[0]);
    assert(map.rooms@[0].covers(map.rooms@[0].center_x(), map.rooms@[0].center_y()));
}

/// Every tile of every room can be walked to over floor from the centre of
/// the first room.
pub proof fn lemma_every_room_is_reachable(map: &GameMap, i: int, x: int, y: int)
    requires
        map.dungeon_wf(),
        0 <= i < map.rooms@.len(),
        map.rooms@[i].covers(x, y),
    ensures
        map.connected(map.rooms@[0].center_x(), map.rooms@[0].center_y(), x, y),
{
    let room = map.rooms@[i];
    let cx = room.center_x();
    let cy = room.center_y();
    assert(map.room_fits(room));
    lemma_center_is_covered(room);
    assert forall|px: int| between(px, cx, x) implies #[trigger] map.floor_at(px, cy) by {
        assert(room.covers(px, cy));
    }
    map.lemma_row_connected(cy, cx, x);
    assert forall|py: int| between(py, cy, y) implies #[trigger] map.floor_at(x, py) by {
        assert(room.covers(x, py));
    }
    map.lemma_column_connected(x, cy, y);
    map.lemma_connected_transitive(cx, cy, x, cy, x, y);
    map.lemma_connected_transitive(
        map.rooms@[0].center_x(),
        map.rooms@[0].center_y(),
        cx,
        cy,
        x,
        y,
    );
}

/// A level with a single room has no corridor: its floor is the room.
pub proof fn lemma_single_room_has_no_corridor(map: &GameMap, x: int, y: int)
    requires
        map.dungeon_wf(),
        map.rooms@.len() == 1,
    ensures
        map.floor_at(x, y) <==> (map.in_bounds(x, y) && map.rooms@[0].covers(x, y)),
{
    if map.floor_at(x, y) {
        let i = choose|i: int| 0 <= i < map.rooms@.len() && #[trigger] map.explained_by(i, x, y);
        assert(i == 0);
    }
    if map.in_bounds(x, y) && map.rooms@[0].covers(x, y) {
        assert(map.floor_at(x, y));
    }
}

} // verus!
