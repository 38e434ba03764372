//! Hostile behaviour: attack the player when next to it, walk towards it
//! when it is in sight.
//!
//! The search for a way is not part of this crate. The pass takes it as a
//! function and is stated for whatever that function answers.

use vstd::prelude::*;
use crate::components::{GridPoint, IsConfused, Position, WantsToMelee, FOV};
use crate::arith::clamp;
use crate::map::GameMap;
use crate::state::RunState;
use crate::world::World;

verus! {

/// The answer of a path search: whether the goal was reached, and the tiles
/// of the way by index, the start first.
pub struct NavigationPath {
    pub destination: usize,
    pub success: bool,
    pub steps: Vec<usize>,
}

/// What a hostile actor sets out to do.
#[derive(PartialEq, Eq, Structural, Clone, Copy, Debug)]
pub enum Plan {
    /// Nothing.
    Idle,
    /// Attack the player.
    Attack,
    /// Walk from the tile `from` towards the tile `to`.
    Seek { from: usize, to: usize },
}

/// The two points are less than one and a half tiles apart: four times the
/// squared distance stays below nine.
pub open spec fn within_reach(ax: int, ay: int, bx: int, by: int) -> bool {
    4 * ((ax - bx) * (ax - bx) + (ay - by) * (ay - by)) < 9
}

/// Two points are within reach of each other exactly if they differ by at
/// most one in each coordinate.
pub proof fn lemma_reach_is_neighbourhood(ax: int, ay: int, bx: int, by: int)
    ensures
        within_reach(ax, ay, bx, by) <==> (-1 <= ax - bx <= 1 && -1 <= ay - by <= 1),
{
    let dx = ax - bx;
    let dy = ay - by;
    assert(dx * dx >= 0 && dy * dy >= 0) by (nonlinear_arith);
    if dx >= 2 || dx <= -2 {
        assert(dx * dx >= 4) by (nonlinear_arith)
            requires
                dx >= 2 || dx <= -2,
        ;
    }
    if dy >= 2 || dy <= -2 {
        assert(dy * dy >= 4) by (nonlinear_arith)
            requires
                dy >= 2 || dy <= -2,
        ;
    }
    if -1 <= dx <= 1 {
        assert(dx * dx <= 1) by (nonlinear_arith)
            requires
                -1 <= dx <= 1,
        ;
    }
    if -1 <= dy <= 1 {
        assert(dy * dy <= 1) by (nonlinear_arith)
            requires
                -1 <= dy <= 1,
        ;
    }
}

/// Confusion after one more turn; `None` once it has worn off.
pub open spec fn sobered(c: IsConfused) -> Option<IsConfused> {
    if clamp(c.turns - 1) <= 0 {
        None
    } else {
        Some(IsConfused { turns: clamp(c.turns - 1) as i32 })
    }
}

/// Slot `j` holds a hostile actor that stands somewhere and has a view.
pub open spec fn is_hostile(w: &World, j: int) -> bool {
    w.monsters.has(j) && w.fovs.has(j) && w.positions.has(j)
}

/// The actor of slot `j` is not held back by confusion this turn: it was
/// not confused when the turn began. The turn on which confusion wears off
/// is still a turn lost.
pub open spec fn can_act(w: &World, j: int) -> bool {
    w.is_confused.at(j) is None
}

/// What the actor of slot `j` sets out to do: nothing if it is confused;
/// attack when the player is within reach; seek the player when it stands
/// on a tile the actor sees; nothing otherwise.
pub open spec fn plan_of(w: &World, j: int) -> Plan {
    if !is_hostile(w, j) || !can_act(w, j) {
        Plan::Idle
    } else {
        let p = w.positions.at(j).unwrap();
        let goal = w.player_position;
        if within_reach(p.x as int, p.y as int, goal.x as int, goal.y as int) {
            Plan::Attack
        } else if w.fovs.at(j).unwrap().visible_tiles@.contains(goal) && w.map.in_bounds(
            p.x as int,
            p.y as int,
        ) && w.map.in_bounds(goal.x as int, goal.y as int) {
            Plan::Seek {
                from: w.map.idx_of(p.x as int, p.y as int) as usize,
                to: w.map.idx_of(goal.x as int, goal.y as int) as usize,
            }
        } else {
            Plan::Idle
        }
    }
}

/// `after` is `before` with the actor of slot `j` made up its mind: its
/// confusion is one turn shorter or gone, and if it attacks it holds the
/// intent to strike the player.
pub open spec fn decided(before: &World, after: &World, j: int) -> bool {
    &&& *after == (World {
        is_confused: after.is_confused,
        wants_to_melee: after.wants_to_melee,
        ..*before
    })
    &&& forall|q: int|
        #![trigger after.is_confused.at(q)]
        #![trigger before.is_confused.at(q)]
        after.is_confused.at(q) == (match before.is_confused.at(q) {
            Some(c) if q == j && is_hostile(before, j) => sobered(c),
            other => other,
        })
    &&& forall|q: int|
        #![trigger after.wants_to_melee.at(q)]
        #![trigger before.wants_to_melee.at(q)]
        after.wants_to_melee.at(q) == (if q == j && plan_of(before, j) == Plan::Attack {
            Some(WantsToMelee { target: before.player_entity })
        } else {
            before.wants_to_melee.at(q)
        })
}

/// The actor of slot `j` takes the step that `path` offers: it stands on
/// the grid, the search succeeded, and the second tile of the way is a tile
/// of the grid.
pub open spec fn takes_step(w: &World, j: int, path: &NavigationPath) -> bool {
    &&& is_hostile(w, j)
    &&& w.map.in_bounds(w.positions.at(j).unwrap().x as int, w.positions.at(j).unwrap().y as int)
    &&& path.success
    &&& path.steps@.len() > 1
    &&& path.steps@[1] < w.map.tile_count()
}

/// `after` is `before` with the actor of slot `j` moved along `path`: it
/// stands on the second tile of the way, the tile it left is free and the
/// tile it reached is blocked, and its view asks to be brought up to date.
/// Where it takes no step nothing changes.
pub open spec fn followed(before: &World, after: &World, j: int, path: &NavigationPath) -> bool {
    if takes_step(before, j, path) {
        let p = before.positions.at(j).unwrap();
        let next = path.steps@[1] as int;
        &&& *after == (World {
            positions: after.positions,
            fovs: after.fovs,
            map: after.map,
            ..*before
        })
        &&& after.map == (GameMap { blocked_tiles: after.map.blocked_tiles, ..before.map })
        &&& after.map.blocked_tiles@ == before.map.blocked_tiles@.update(
            before.map.idx_of(p.x as int, p.y as int),
            false,
        ).update(next, true)
        &&& forall|q: int|
            #![trigger after.positions.at(q)]
            #![trigger before.positions.at(q)]
            after.positions.at(q) == (if q == j {
                Some(
                    Position {
                        x: (next % before.map.width as int) as i32,
                        y: (next / before.map.width as int) as i32,
                    },
                )
            } else {
                before.positions.at(q)
            })
        &&& forall|q: int|
            #![trigger after.fovs.at(q)]
            #![trigger before.fovs.at(q)]
            after.fovs.at(q) == (if q == j {
                Some(FOV { needs_update: true, ..before.fovs.at(j).unwrap() })
            } else {
                before.fovs.at(q)
            })
    } else {
        *after == *before
    }
}

/// Whether `p` is among `points`.
pub fn contains_point(points: &Vec<GridPoint>, p: GridPoint) -> (r: bool)
    ensures
        r == points@.contains(p),
{
    let mut k: usize = 0;
    while k < points.len()
        invariant
            k <= points@.len(),
            forall|q: int| 0 <= q < k ==> points@[q] != p,
        decreases points@.len() - k,
    {
        if points[k] == p {
            return true;
        }
        k += 1;
    }
    false
}

/// The hostile pass.
pub struct MonsterAI {}

impl MonsterAI {
    /// Lets the actor of slot `j` make up its mind, and says what it sets
    /// out to do.
    pub fn decide(world: &mut World, j: usize) -> (plan: Plan)
        requires
            old(world).wf(),
        ensures
            final(world).wf(),
            decided(old(world), final(world), j as int),
            plan == plan_of(old(world), j as int),
    {
        let place: Position = match world.positions.slot(j) {
            Some(p) => *p,
            None => {
                return Plan::Idle;
            },
        };
        if !world.monsters.has_slot(j) || !world.fovs.has_slot(j) {
            return Plan::Idle;
        }
        let confusion: Option<IsConfused> = match world.is_confused.slot(j) {
            Some(c) => Some(*c),
            None => None,
        };
        if let Some(c) = confusion {
            let left: i32 = if c.turns > -2147483648 {
                c.turns - 1
            } else {
                c.turns
            };
            if left <= 0 {
                world.is_confused.unset(j);
            } else {
                world.is_confused.set(j, IsConfused { turns: left });
            }
            return Plan::Idle;
        }
        let goal = world.player_position;
        proof {
            lemma_reach_is_neighbourhood(
                place.x as int,
                place.y as int,
                goal.x as int,
                goal.y as int,
            );
        }
        let dx: i64 = place.x as i64 - goal.x as i64;
        let dy: i64 = place.y as i64 - goal.y as i64;
        if -1 <= dx && dx <= 1 && -1 <= dy && dy <= 1 {
            let target = world.player_entity;
            world.wants_to_melee.set(j, WantsToMelee { target });
            return Plan::Attack;
        }
        let sees: bool = match world.fovs.slot(j) {
            Some(f) => contains_point(&f.visible_tiles, goal),
            None => false,
        };
        if sees && world.map.is_idx_valid(place.x, place.y) && world.map.is_idx_valid(
            goal.x,
            goal.y,
        ) {
            Plan::Seek {
                from: world.map.xy_idx(place.x, place.y),
                to: world.map.xy_idx(goal.x, goal.y),
            }
        } else {
            Plan::Idle
        }
    }

    /// Moves the actor of slot `j` one step along `path`, if `path` offers
    /// one.
    pub fn follow(world: &mut World, j: usize, path: &NavigationPath)
        requires
            old(world).wf(),
        ensures
            final(world).wf(),
            followed(old(world), final(world), j as int, path),
    {
        let place: Position = match world.positions.slot(j) {
            Some(p) => *p,
            None => {
                return ;
            },
        };
        if !world.monsters.has_slot(j) || !world.fovs.has_slot(j) {
            return ;
        }
        if !world.map.is_idx_valid(place.x, place.y) || !path.success || path.steps.len() <= 1 {
            return ;
        }
        let next: usize = path.steps[1];
        if next >= world.map.tiles.len() {
            return ;
        }
        let here = world.map.xy_idx(place.x, place.y);
        world.map.blocked_tiles[here] = false;
        let there = world.map.idx_point(next);
        world.positions.set(j, Position { x: there.x, y: there.y });
        world.map.blocked_tiles[next] = true;
        match world.fovs.unset(j) {
            Some(f) => {
                world.fovs.set(j, FOV { needs_update: true, ..f });
            },
            None => {},
        }
    }

    /// Link `k` of the run: the actor of slot `k` makes up its mind, and if
    /// it seeks the player it follows what the search answered.
    pub open spec fn link<F: Fn(&GameMap, usize, usize) -> NavigationPath>(
        find_path: &F,
        trace: Seq<World>,
        paths: Seq<NavigationPath>,
        k: int,
    ) -> bool {
        &&& decided(&trace[2 * k], &trace[2 * k + 1], k)
        &&& match plan_of(&trace[2 * k], k) {
            Plan::Seek { from, to } => call_ensures(
                find_path,
                (&trace[2 * k + 1].map, from, to),
                paths[k],
            ) && followed(&trace[2 * k + 1], &trace[2 * k + 2], k, &paths[k]),
            _ => trace[2 * k + 2] == trace[2 * k + 1],
        }
    }

    /// `trace` leads from `before` to `after`, two worlds per slot: the
    /// world after the actor made up its mind, and the world after it moved.
    /// `paths` holds what the search answered for each slot that asked.
    pub open spec fn is_run<F: Fn(&GameMap, usize, usize) -> NavigationPath>(
        find_path: &F,
        before: &World,
        after: &World,
        trace: Seq<World>,
        paths: Seq<NavigationPath>,
    ) -> bool {
        let n = before.positions.slots@.len() as int;
        &&& trace.len() == 2 * n + 1
        &&& paths.len() == n
        &&& trace[0] == *before
        &&& trace.last() == *after
        &&& forall|k: int| 0 <= k < n ==> #[trigger] Self::link(find_path, trace, paths, k)
    }

    /// `after` is `before` after the hostile pass with `find_path` as the
    /// search for a way: outside the phase `MonsterTurn` nothing changed; in
    /// it a run leads from `before` to `after`. Only positions, views,
    /// confusion, melee intents and the blocked tiles can have changed.
    pub open spec fn ran<F: Fn(&GameMap, usize, usize) -> NavigationPath>(find_path: &F,
        before: &World, after: &World) -> bool {
        &&& *after == (World {
            positions: after.positions,
            fovs: after.fovs,
            is_confused: after.is_confused,
            wants_to_melee: after.wants_to_melee,
            map: after.map,
            ..*before
            })
        &&& after.map == (GameMap {
            blocked_tiles: after.map.blocked_tiles,
            ..before.map
            })
        &&& before.run_state != RunState::MonsterTurn ==> *after == *before
        &&& before.run_state == RunState::MonsterTurn ==> exists|
            trace: Seq<World>,
            paths: Seq<NavigationPath>,
            | #[trigger] Self::is_run(find_path, before, after, trace, paths)
    }

    /// Lets every hostile actor act, lowest slot first. Outside the phase
    /// `MonsterTurn` nothing happens.
    pub fn run<F: Fn(&GameMap, usize, usize) -> NavigationPath>(
        &mut self,
        world: &mut World,
        find_path: &F,
    )
        requires
            old(world).wf(),
            forall|m: &GameMap, a: usize, b: usize|
                m.wf() && a < m.tile_count() && b < m.tile_count() ==> call_requires(
                    find_path,
                    (m, a, b),
                ),
        ensures
            final(world).wf(),
            Self::ran(find_path, old(world), final(world)),
    {
        if world.run_state != RunState::MonsterTurn {
            return ;
        }
        let n: usize = world.positions.len();
        let ghost mut trace: Seq<World> = seq![*world];
        let ghost mut paths: Seq<NavigationPath> = Seq::empty();
        let mut j: usize = 0;
        while j < n
            invariant
                world.wf(),
                n == old(world).positions.slots@.len(),
                j <= n,
                forall|m: &GameMap, a: usize, b: usize|
                    m.wf() && a < m.tile_count() && b < m.tile_count() ==> call_requires(
                        find_path,
                        (m, a, b),
                    ),
                *world == (World {
                    positions: world.positions,
                    fovs: world.fovs,
                    is_confused: world.is_confused,
                    wants_to_melee: world.wants_to_melee,
                    map: world.map,
                    ..*old(world)
                }),
                world.map == (GameMap { blocked_tiles: world.map.blocked_tiles, ..old(world).map }),
                trace.len() == 2 * j + 1,
                paths.len() == j,
                trace[0] == *old(world),
                trace.last() == *world,
                forall|k: int| 0 <= k < j ==> #[trigger] Self::link(find_path, trace, paths, k),
            decreases n - j,
        {
            let ghost start = *world;
            let plan = Self::decide(world, j);
            let ghost minded = *world;
            let ghost mut answer: NavigationPath = arbitrary();
            match plan {
                Plan::Seek { from, to } => {
                    proof {
                        let p = start.positions.at(j as int).unwrap();
                        let g = start.player_position;
                        crate::map::lemma_idx_in_range(
                            start.map.width as int,
                            start.map.height as int,
                            p.x as int,
                            p.y as int,
                        );
                        crate::map::lemma_idx_in_range(
                            start.map.width as int,
                            start.map.height as int,
                            g.x as int,
                            g.y as int,
                        );
                    }
                    let path = find_path(&world.map, from, to);
                    Self::follow(world, j, &path);
                    proof {
                        answer = path;
                    }
                },
                _ => {},
            }
            proof {
                let longer = trace.push(minded).push(*world);
                let more = paths.push(answer);
                assert(longer[2 * j as int] == start);
                assert forall|k: int| 0 <= k < j + 1 implies #[trigger] Self::link(
                    find_path,
                    longer,
                    more,
                    k,
                ) by {
                    if k < j {
                        assert(Self::link(find_path, trace, paths, k));
                        assert(longer[2 * k] == trace[2 * k]);
                        assert(longer[2 * k + 1] == trace[2 * k + 1]);
                        assert(longer[2 * k + 2] == trace[2 * k + 2]);
                        assert(more[k] == paths[k]);
                    }
                }
                trace = longer;
                paths = more;
            }
            j += 1;
        }
        proof {
            assert(Self::is_run(find_path, old(world), world, trace, paths));
        }
    }
}

/// On its last turn confusion wears off: a hostile actor that was confused
/// for one more turn is confused no longer once it has made up its mind.
pub proof fn lemma_confusion_wears_off(before: &World, after: &World, j: int)
    requires
        decided(before, after, j),
        is_hostile(before, j),
        before.is_confused.at(j) == Some(IsConfused { turns: 1 }),
    ensures
        after.is_confused.at(j) is None,
{
}

/// A confused actor does nothing: a hostile actor that is confused when it
/// makes up its mind, be it for its last turn, sets out to do nothing and
/// declares no attack; it stands where it stood, and its confusion is one
/// turn shorter, or gone after the last.
pub proof fn lemma_confused_actor_does_nothing(before: &World, after: &World, j: int, turns: i32)
    requires
        decided(before, after, j),
        is_hostile(before, j),
        before.is_confused.at(j) == Some(IsConfused { turns }),
        turns >= 1,
    ensures
        plan_of(before, j) == Plan::Idle,
        after.wants_to_melee.at(j) == before.wants_to_melee.at(j),
        after.positions == before.positions,
        after.fovs == before.fovs,
        after.map == before.map,
        after.is_confused.at(j) == (if turns == 1 {
            None
        } else {
            Some(IsConfused { turns: (turns - 1) as i32 })
        }),
{
}

/// The entity of slot `m` is in `w` as it is in `before`, but for its
/// confusion: it stands where it stood, holds the melee intent it held, and
/// has the view it had.
pub open spec fn untouched_at(before: &World, w: &World, m: int) -> bool {
    &&& w.positions.at(m) == before.positions.at(m)
    &&& w.wants_to_melee.at(m) == before.wants_to_melee.at(m)
    &&& w.fovs.at(m) == before.fovs.at(m)
    &&& w.monsters == before.monsters
    &&& w.player_position == before.player_position
}

/// Through the first `k` links of a run of the hostile pass, an actor that
/// was confused when the pass began is left where it was; its confusion
/// is as it was up to its own link and one turn shorter from then on.
proof fn lemma_confused_actor_through_the_run<F: Fn(&GameMap, usize, usize) -> NavigationPath>(
    find_path: &F,
    before: &World,
    after: &World,
    trace: Seq<World>,
    paths: Seq<NavigationPath>,
    m: int,
    c: IsConfused,
    k: int,
)
    requires
        MonsterAI::is_run(find_path, before, after, trace, paths),
        is_hostile(before, m),
        before.is_confused.at(m) == Some(c),
        0 <= k <= before.positions.slots@.len(),
    ensures
        untouched_at(before, &trace[2 * k], m),
        trace[2 * k].is_confused.at(m) == (if k > m {
            sobered(c)
        } else {
            Some(c)
        }),
    decreases k,
{
    if k > 0 {
        lemma_confused_actor_through_the_run(find_path, before, after, trace, paths, m, c, k - 1);
        assert(MonsterAI::link(find_path, trace, paths, k - 1));
        let start = trace[2 * (k - 1)];
        let minded = trace[2 * (k - 1) + 1];
        let moved = trace[2 * (k - 1) + 2];
        assert(decided(&start, &minded, k - 1));
        if k - 1 == m {
            assert(is_hostile(&start, m));
            assert(plan_of(&start, m) == Plan::Idle);
            assert(moved == minded);
        } else {
            match plan_of(&start, k - 1) {
                Plan::Seek { from, to } => {
                    assert(followed(&minded, &moved, k - 1, &paths[k - 1]));
                },
                _ => {
                    assert(moved == minded);
                },
            }
        }
    }
}

/// A hostile actor that is confused when the hostile pass begins neither
/// moves nor attacks in that pass, be it on the last turn of its confusion
/// and with the player next to it: after the pass it stands where it stood,
/// holds no melee intent that it did not hold, has the view it had, and is
/// confused for one turn less, or no longer after the last.
pub proof fn lemma_confused_actor_loses_its_turn<F: Fn(&GameMap, usize, usize) -> NavigationPath>(
    find_path: &F,
    before: &World,
    after: &World,
    m: int,
    c: IsConfused,
)
    requires
        before.wf(),
        MonsterAI::ran(find_path, before, after),
        before.run_state == RunState::MonsterTurn,
        is_hostile(before, m),
        before.is_confused.at(m) == Some(c),
    ensures
        after.positions.at(m) == before.positions.at(m),
        after.wants_to_melee.at(m) == before.wants_to_melee.at(m),
        after.fovs.at(m) == before.fovs.at(m),
        after.is_confused.at(m) == sobered(c),
{
    let (trace, paths) = choose|trace: Seq<World>, paths: Seq<NavigationPath>| #[trigger]
        MonsterAI::is_run(find_path, before, after, trace, paths);
    let n = before.positions.slots@.len() as int;
    assert(0 <= m < n);
    lemma_confused_actor_through_the_run(find_path, before, after, trace, paths, m, c, n);
}

/// Outside the phase in which the hostile actors act, the hostile pass
/// changes nothing.
pub proof fn lemma_hostile_pass_waits_for_its_phase<F: Fn(&GameMap, usize,
    usize) -> NavigationPath>(
    find_path: &F,
    before: &World,
    after: &World,
)
    requires
        MonsterAI::ran(find_path, before, after),
        before.run_state != RunState::MonsterTurn,
    ensures
        *after == *before,
{
}

} // verus!
