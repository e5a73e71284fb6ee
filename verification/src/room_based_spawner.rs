use vstd::prelude::*;
use bracket_random::prelude::RandomNumberGenerator;
use crate::builder_map::{rooms_wf, spawns_ok, start_index, BuilderMap};
use crate::random_table::{default_spawn_table, get_spawn_table_for_depth};
use crate::spawner::{spawn_in_room, spawn_in_some_room, spawn_room};

verus! {

/// Pipeline stage that stocks every room but the first with monsters and
/// items.  The first room is reserved for the player start.
pub struct RoomBasedSpawner {}

impl RoomBasedSpawner {
    pub fn new() -> (r: Box<RoomBasedSpawner>) {
        Box::new(RoomBasedSpawner {})
    }

    /// Requires a room list: room-based spawning after a generator that
    /// recorded no rooms is a pipeline assembly bug, not a runtime
    /// condition.
    pub fn build_map(&mut self, rng: &mut RandomNumberGenerator, build_data: &mut BuilderMap)
        requires
            old(build_data).inv(),
            old(build_data).rooms is Some,
            rooms_wf(
                old(build_data).rooms->Some_0@,
                old(build_data).map.width as int,
                old(build_data).map.height as int,
            ),
            old(build_data).starting_position is Some,
            0 <= old(build_data).starting_position->Some_0.x < old(build_data).map.width,
            0 <= old(build_data).starting_position->Some_0.y < old(build_data).map.height,
            0 <= old(build_data).map.depth <= 1000,
            spawns_ok(
                old(build_data).spawn_list@,
                start_index(*old(build_data)),
                old(build_data).map.tiles@.len() as int,
            ),
        ensures
            final(build_data).inv(),
            final(build_data).map == old(build_data).map,
            final(build_data).rooms == old(build_data).rooms,
            final(build_data).corridors == old(build_data).corridors,
            final(build_data).starting_position == old(build_data).starting_position,
            final(build_data).history == old(build_data).history,
            final(build_data).snapshot_enabled == old(build_data).snapshot_enabled,
            spawns_ok(
                final(build_data).spawn_list@,
                start_index(*old(build_data)),
                old(build_data).map.tiles@.len() as int,
            ),
            forall|t: int|
                old(build_data).spawn_list@.len() <= t < final(build_data).spawn_list@.len()
                    ==> spawn_in_some_room(
                    #[trigger] final(build_data).spawn_list@[t],
                    old(build_data).rooms->Some_0@,
                    old(build_data).map.width as int,
                ),
    {
        let palette = default_spawn_table();
        let table = get_spawn_table_for_depth(&palette, build_data.map.depth);
        let start = match &build_data.starting_position {
            Some(p) => *p,
            None => {
                proof {
                    assert(false);
                }
                crate::geometry::Position { x: 0, y: 0 }
            },
        };
        let start_idx = build_data.map.xy_idx(start.x, start.y);
        match &build_data.rooms {
            Some(rooms) => {
                let mut i: usize = 1;
                while i < rooms.len()
                    invariant
                        build_data.inv(),
                        build_data.map == old(build_data).map,
                        build_data.rooms == old(build_data).rooms,
                        build_data.corridors == old(build_data).corridors,
                        build_data.starting_position == old(build_data).starting_position,
                        build_data.history == old(build_data).history,
                        build_data.snapshot_enabled == old(build_data).snapshot_enabled,
                        build_data.map.inv(),
                        rooms_wf(
                            rooms@,
                            build_data.map.width as int,
                            build_data.map.height as int,
                        ),
                        table.inv(),
                        table.total_weight < i32::MAX,
                        start_idx == start_index(*old(build_data)),
                        start_idx < build_data.map.tiles@.len(),
                        spawns_ok(
                            build_data.spawn_list@,
                            start_idx as int,
                            build_data.map.tiles@.len() as int,
                        ),
                        1 <= i,
                        build_data.spawn_list@.len() >= old(build_data).spawn_list@.len(),
                        forall|t: int|
                            old(build_data).spawn_list@.len() <= t < build_data.spawn_list@.len()
                                ==> spawn_in_some_room(
                                #[trigger] build_data.spawn_list@[t],
                                rooms@,
                                build_data.map.width as int,
                            ),
                    decreases rooms@.len() - i,
                {
                    let ghost pre_list = build_data.spawn_list@;
                    spawn_room(
                        &build_data.map,
                        rng,
                        &rooms[i],
                        &table,
                        start_idx,
                        &mut build_data.spawn_list,
                    );
                    proof {
                        assert forall|t: int|
                            old(build_data).spawn_list@.len() <= t
                                < build_data.spawn_list@.len() implies spawn_in_some_room(
                            #[trigger] build_data.spawn_list@[t],
                            rooms@,
                            build_data.map.width as int,
                        ) by {
                            if t < pre_list.len() {
                                assert(build_data.spawn_list@[t] == pre_list[t]);
                                assert(spawn_in_some_room(
                                    pre_list[t],
                                    rooms@,
                                    build_data.map.width as int,
                                ));
                            } else {
                                assert(spawn_in_room(
                                    build_data.spawn_list@[t],
                                    rooms@[i as int],
                                    build_data.map.width as int,
                                ));
                            }
                        }
                    }
                    i = i + 1;
                }
            },
            None => {
                proof {
                    assert(false);
                }
            },
        }
    }
}

} // verus!
