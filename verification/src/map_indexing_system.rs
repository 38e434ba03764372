//! The spatial index: which tiles are blocked, and who stands on each.

use vstd::prelude::*;
use crate::components::Position;
use crate::entity::Entity;
use crate::map::{lemma_idx_in_range, lemma_idx_injective, GameMap, TileType};
use crate::world::World;

verus! {

/// The entity of slot `j` stands at `(x, y)`.
pub open spec fn stands_at(w: &World, j: int, x: int, y: int) -> bool {
    match w.positions.at(j) {
        Some(p) => p.x == x && p.y == y,
        None => false,
    }
}

/// One of the first `n` slots holds an entity that stands at `(x, y)` and
/// blocks its tile.
pub open spec fn blocker_at(w: &World, n: int, x: int, y: int) -> bool {
    exists|j: int| 0 <= j < n && #[trigger] stands_at(w, j, x, y) && w.blocks_tile.has(j)
}

/// The entities of the first `n` slots that stand at `(x, y)`, lowest slot
/// first.
pub open spec fn occupants_of(w: &World, x: int, y: int, n: int) -> Seq<Entity>
    decreases n,
{
    if n <= 0 {
        Seq::empty()
    } else {
        occupants_of(w, x, y, n - 1) + (if stands_at(w, n - 1, x, y) {
            seq![w.entities.entity_at(n - 1)]
        } else {
            Seq::empty()
        })
    }
}

impl GameMap {
    pub open spec fn blocked_at(&self, x: int, y: int) -> bool {
        self.blocked_tiles@[self.idx_of(x, y)]
    }

    /// Who the index says stands at `(x, y)`.
    pub open spec fn content_at(&self, x: int, y: int) -> Seq<Entity> {
        self.tile_content@[self.idx_of(x, y)]@
    }

    /// Notes that `entity` stands at `(x, y)`, and that the tile is blocked
    /// if `blocks` is set.
    pub fn note_occupant(&mut self, x: i32, y: i32, entity: Entity, blocks: bool)
        requires
            old(self).wf(),
            old(self).in_bounds(x as int, y as int),
        ensures
            final(self).wf(),
            *final(self) == (GameMap {
                blocked_tiles: final(self).blocked_tiles,
                tile_content: final(self).tile_content,
                ..*old(self)
            }),
            forall|px: int, py: int|
                #![trigger final(self).blocked_at(px, py)]
                old(self).in_bounds(px, py) ==> final(self).blocked_at(px, py)
                    == (old(self).blocked_at(px, py) || (blocks && px == x && py == y)),
            forall|px: int, py: int|
                #![trigger final(self).content_at(px, py)]
                old(self).in_bounds(px, py) ==> final(self).content_at(px, py) == (if px == x && py
                    == y {
                    old(self).content_at(px, py).push(entity)
                } else {
                    old(self).content_at(px, py)
                }),
    {
        let idx = self.xy_idx(x, y);
        if blocks {
            self.blocked_tiles[idx] = true;
        }
        let mut here: Vec<Entity> = Vec::new();
        core::mem::swap(&mut self.tile_content[idx], &mut here);
        here.push(entity);
        self.tile_content[idx] = here;
        proof {
            assert forall|px: int, py: int|
                self.in_bounds(px, py) && !(px == x && py == y) implies self.idx_of(px, py)
                != idx && 0 <= self.idx_of(px, py) < self.tile_count() by {
                if self.idx_of(px, py) == idx {
                    lemma_idx_injective(self.width as int, px, py, x as int, y as int);
                }
                lemma_idx_in_range(self.width as int, self.height as int, px, py);
            }
        }
    }
}

/// The indexing pass.
pub struct MapIndexingSystem {}

impl MapIndexingSystem {
    /// `after` is `before` with the index rebuilt: a tile is blocked exactly
    /// if it is a wall or somebody who blocks stands on it, and the
    /// occupants of a tile are exactly those who stand on it, lowest slot
    /// first. Nothing else changed.
    pub open spec fn ran(before: &World, after: &World) -> bool {
        &&& *after == (World { map: after.map, ..*before })
        &&& after.map == (GameMap {
            blocked_tiles: after.map.blocked_tiles,
            tile_content: after.map.tile_content,
            ..before.map
            })
        &&& forall|x: int, y: int|
            #![trigger after.map.blocked_at(x, y)]
            before.map.in_bounds(x, y) ==> after.map.blocked_at(x, y)
                == (before.map.tile_at(x, y) == TileType::Wall || blocker_at(
                before,
                before.positions.slots@.len() as int,
                x,
                y,
            ))
        &&& forall|x: int, y: int|
            #![trigger after.map.content_at(x, y)]
            before.map.in_bounds(x, y) ==> after.map.content_at(x, y)
                == occupants_of(before, x, y, before.positions.slots@.len() as int)
    }

    /// Rebuilds the index from where the entities stand. A tile is blocked
    /// if it is a wall or an entity that blocks its tile stands on it. The
    /// occupants of a tile are all entities that stand on it, lowest slot
    /// first. An entity that stands off the grid is on no tile.
    pub fn run(&mut self, world: &mut World)
        requires
            old(world).wf(),
        ensures
            final(world).wf(),
            Self::ran(old(world), final(world)),
    {
        world.map.populate_blocked_tiles();
        world.map.clear_tile_content();
        proof {
            assert forall|x: int, y: int| world.map.in_bounds(x, y) implies world.map.blocked_at(
                x,
                y,
            ) == (old(world).map.tile_at(x, y) == TileType::Wall) && world.map.content_at(x, y)
                =~= Seq::<Entity>::empty() by {
                lemma_idx_in_range(world.map.width as int, world.map.height as int, x, y);
            }
        }
        let n: usize = world.positions.len();
        let mut j: usize = 0;
        while j < n
            invariant
                old(world).wf(),
                world.wf(),
                n == old(world).positions.slots@.len(),
                j <= n,
                *world == (World { map: world.map, ..*old(world) }),
                world.map == (GameMap {
                    blocked_tiles: world.map.blocked_tiles,
                    tile_content: world.map.tile_content,
                    ..old(world).map
                }),
                forall|x: int, y: int|
                    #![trigger world.map.blocked_at(x, y)]
                    world.map.in_bounds(x, y) ==> world.map.blocked_at(x, y)
                        == (old(world).map.tile_at(x, y) == TileType::Wall
                            || blocker_at(old(world), j as int, x, y)),
                forall|x: int, y: int|
                    #![trigger world.map.content_at(x, y)]
                    world.map.in_bounds(x, y) ==> world.map.content_at(x, y) == occupants_of(
                        old(world),
                        x,
                        y,
                        j as int,
                    ),
            decreases n - j,
        {
            let place: Option<Position> = match world.positions.slot(j) {
                Some(p) => Some(*p),
                None => None,
            };
            let ghost before = world.map;
            let mut noted: bool = false;
            if let Some(p) = place {
                if world.map.is_idx_valid(p.x, p.y) {
                    let blocks: bool = world.blocks_tile.has_slot(j);
                    let entity = world.entities.entity(j);
                    world.map.note_occupant(p.x, p.y, entity, blocks);
                    noted = true;
                }
            }
            proof {
                assert forall|x: int, y: int|
                    #![trigger world.map.blocked_at(x, y)]
                    world.map.in_bounds(x, y) implies world.map.blocked_at(x, y)
                        == (old(world).map.tile_at(x, y) == TileType::Wall || blocker_at(
                    old(world),
                    j as int + 1,
                    x,
                    y,
                )) by {
                    assert(before.blocked_at(x, y) == (old(world).map.tile_at(x, y)
                        == TileType::Wall || blocker_at(old(world), j as int, x, y)));
                    if blocker_at(old(world), j as int, x, y) {
                        let q = choose|q: int|
                            0 <= q < j && #[trigger] stands_at(old(world), q, x, y)
                                && old(world).blocks_tile.has(q);
                        assert(0 <= q < j + 1);
                    }
                    if blocker_at(old(world), j as int + 1, x, y) {
                        let q = choose|q: int|
                            0 <= q < j + 1 && #[trigger] stands_at(old(world), q, x, y)
                                && old(world).blocks_tile.has(q);
                        if q < j {
                            assert(blocker_at(old(world), j as int, x, y));
                        }
                    }
                    if stands_at(old(world), j as int, x, y) && old(world).blocks_tile.has(
                        j as int,
                    ) {
                        assert(blocker_at(old(world), j as int + 1, x, y));
                    }
                }
                assert forall|x: int, y: int|
                    #![trigger world.map.content_at(x, y)]
                    world.map.in_bounds(x, y) implies world.map.content_at(x, y) == occupants_of(
                    old(world),
                    x,
                    y,
                    j as int + 1,
                ) by {
                    assert(before.content_at(x, y) == occupants_of(old(world), x, y, j as int));
                    assert(world.map.content_at(x, y) =~= occupants_of(
                        old(world),
                        x,
                        y,
                        j as int + 1,
                    ));
                }
            }
            j += 1;
        }
    }
}

} // verus!
