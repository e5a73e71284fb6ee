use vstd::prelude::*;
use bracket_random::prelude::RandomNumberGenerator;
use crate::builder_map::{spawns_ok, start_index, BuilderMap, SpawnEntry};
use crate::grid::{flat_idx, lemma_idx_in_range};
use crate::path::{flood_fill, get_mark, marks_ok, reachable, walk_at};
use crate::random_table::{default_spawn_table, get_spawn_table_for_depth};
use crate::rng::rng_roll_dice;
use crate::spawner::try_spawn_at;

verus! {

pub const MAX_AREA_SPAWNS: i32 = 7;

/// The flat index names a walkable tile the start can reach.
pub open spec fn spawn_candidate_ok(idx: int, g: crate::grid::Grid, sx: int, sy: int) -> bool {
    exists|x: int, y: int|
        #[trigger] flat_idx(g.width as int, x, y) == idx && walk_at(g, x, y) && reachable(
            g,
            sx,
            sy,
            x,
            y,
        )
}

/// The spawn entry sits on a walkable tile that the start can reach.
pub open spec fn spawn_reaches_start(e: SpawnEntry, g: crate::grid::Grid, sx: int, sy: int) -> bool {
    exists|x: int, y: int|
        #[trigger] flat_idx(g.width as int, x, y) == e.idx && walk_at(g, x, y) && reachable(
            g,
            sx,
            sy,
            x,
            y,
        )
}

/// Pipeline stage for maps without a room list: flood-fills the floor
/// reachable from the start and scatters spawn entries uniformly over
/// it, keeping the start tile free and every spawn tile distinct.
pub struct AreaBasedSpawner {}

impl AreaBasedSpawner {
    pub fn new() -> (r: Box<AreaBasedSpawner>) {
        Box::new(AreaBasedSpawner {})
    }

    pub fn build_map(&mut self, rng: &mut RandomNumberGenerator, build_data: &mut BuilderMap)
        requires
            old(build_data).inv(),
            old(build_data).starting_position is Some,
            walk_at(
                old(build_data).map,
                old(build_data).starting_position->Some_0.x as int,
                old(build_data).starting_position->Some_0.y as int,
            ),
            0 <= old(build_data).map.depth <= 1000,
            spawns_ok(
                old(build_data).spawn_list@,
                start_index(*old(build_data)),
                old(build_data).map.tiles@.len() as int,
            ),
        ensures
            final(build_data).inv(),
            final(build_data).map == old(build_data).map,
            final(build_data).rooms == old(build_data).rooms,
            final(build_data).corridors == old(build_data).corridors,
            final(build_data).starting_position == old(build_data).starting_position,
            final(build_data).history == old(build_data).history,
            final(build_data).snapshot_enabled == old(build_data).snapshot_enabled,
            spawns_ok(
                final(build_data).spawn_list@,
                start_index(*old(build_data)),
                old(build_data).map.tiles@.len() as int,
            ),
            forall|t: int|
                old(build_data).spawn_list@.len() <= t < final(build_data).spawn_list@.len()
                    ==> spawn_reaches_start(
                    #[trigger] final(build_data).spawn_list@[t],
                    old(build_data).map,
                    old(build_data).starting_position->Some_0.x as int,
                    old(build_data).starting_position->Some_0.y as int,
                ),
    {
        let start = match &build_data.starting_position {
            Some(p) => *p,
            None => {
                proof {
                    assert(false);
                }
                crate::geometry::Position { x: 0, y: 0 }
            },
        };
        let start_idx = build_data.map.xy_idx(start.x, start.y);
        let marked = flood_fill(&build_data.map, start.x, start.y);
        let n = build_data.map.tiles.len();
        proof {
            lemma_idx_in_range(
                build_data.map.width as int,
                build_data.map.height as int,
                build_data.map.width as int - 1,
                build_data.map.height as int - 1,
            );
        }
        let mut candidates: Vec<usize> = Vec::new();
        let mut cy: i32 = 0;
        while cy < build_data.map.height
            invariant
                build_data.inv(),
                build_data.map == old(build_data).map,
                n == build_data.map.tiles@.len(),
                n <= 16777216,
                marked@.len() == n,
                marks_ok(
                    build_data.map,
                    start.x as int,
                    start.y as int,
                    marked@,
                ),
                0 <= cy <= build_data.map.height,
                candidates@.len() <= n,
                forall|k: int| 0 <= k < candidates@.len() ==> #[trigger] candidates@[k] < n,
                forall|k: int|
                    0 <= k < candidates@.len() ==> spawn_candidate_ok(
                        (#[trigger] candidates@[k]) as int,
                        build_data.map,
                        start.x as int,
                        start.y as int,
                    ),
            decreases build_data.map.height - cy,
        {
            let mut cx: i32 = 0;
            while cx < build_data.map.width
                invariant
                    build_data.inv(),
                    build_data.map == old(build_data).map,
                    n == build_data.map.tiles@.len(),
                    n <= 16777216,
                    marked@.len() == n,
                    marks_ok(
                        build_data.map,
                        start.x as int,
                        start.y as int,
                        marked@,
                    ),
                    0 <= cy < build_data.map.height,
                    0 <= cx <= build_data.map.width,
                    candidates@.len() <= n,
                    forall|k: int| 0 <= k < candidates@.len() ==> #[trigger] candidates@[k] < n,
                    forall|k: int|
                        0 <= k < candidates@.len() ==> spawn_candidate_ok(
                            (#[trigger] candidates@[k]) as int,
                            build_data.map,
                            start.x as int,
                            start.y as int,
                        ),
                decreases build_data.map.width - cx,
            {
                if get_mark(&build_data.map, &marked, cx, cy) {
                    let idx = build_data.map.xy_idx(cx, cy);
                    if candidates.len() < n {
                        proof {
                            assert(flat_idx(build_data.map.width as int, cx as int, cy as int)
                                == idx as int);
                            assert(spawn_candidate_ok(
                                idx as int,
                                build_data.map,
                                start.x as int,
                                start.y as int,
                            ));
                        }
                        candidates.push(idx);
                    }
                }
                cx = cx + 1;
            }
            cy = cy + 1;
        }
        let palette = default_spawn_table();
        let table = get_spawn_table_for_depth(&palette, build_data.map.depth);
        let mut num_spawns = rng_roll_dice(rng, 1, MAX_AREA_SPAWNS) + build_data.map.depth - 4;
        if num_spawns > 40 {
            num_spawns = 40;
        }
        let mut c: i32 = 0;
        while c < num_spawns
            invariant
                build_data.inv(),
                build_data.map == old(build_data).map,
                build_data.rooms == old(build_data).rooms,
                build_data.corridors == old(build_data).corridors,
                build_data.starting_position == old(build_data).starting_position,
                build_data.history == old(build_data).history,
                build_data.snapshot_enabled == old(build_data).snapshot_enabled,
                n == build_data.map.tiles@.len(),
                n <= 16777216,
                start_idx == start_index(*old(build_data)),
                forall|k: int| 0 <= k < candidates@.len() ==> #[trigger] candidates@[k] < n,
                forall|k: int|
                    0 <= k < candidates@.len() ==> spawn_candidate_ok(
                        (#[trigger] candidates@[k]) as int,
                        build_data.map,
                        start.x as int,
                        start.y as int,
                    ),
                start == old(build_data).starting_position->Some_0,
                candidates@.len() <= n,
                table.inv(),
                table.total_weight < i32::MAX,
                spawns_ok(build_data.spawn_list@, start_idx as int, n as int),
                build_data.spawn_list@.len() >= old(build_data).spawn_list@.len(),
                forall|t: int|
                    old(build_data).spawn_list@.len() <= t < build_data.spawn_list@.len()
                        ==> spawn_reaches_start(
                        #[trigger] build_data.spawn_list@[t],
                        build_data.map,
                        start.x as int,
                        start.y as int,
                    ),
                num_spawns <= 40,
            decreases num_spawns - c,
        {
            if candidates.len() > 0 {
                let pick = rng_roll_dice(rng, 1, candidates.len() as i32) - 1;
                let idx = candidates[pick as usize];
                match table.roll(rng) {
                    Some(key) => {
                        let ghost pre_list = build_data.spawn_list@;
                        let added = try_spawn_at(
                            &mut build_data.spawn_list,
                            idx,
                            key,
                            start_idx,
                            n,
                        );
                        proof {
                            if added {
                                assert(spawn_candidate_ok(
                                    idx as int,
                                    build_data.map,
                                    start.x as int,
                                    start.y as int,
                                ));
                                assert(spawn_reaches_start(
                                    build_data.spawn_list@.last(),
                                    build_data.map,
                                    start.x as int,
                                    start.y as int,
                                ));
                            }
                        }
                    },
                    None => {},
                }
            }
            c = c + 1;
        }
    }
}

} // verus!
