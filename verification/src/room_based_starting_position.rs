use vstd::prelude::*;
use bracket_random::prelude::RandomNumberGenerator;
use crate::builder_map::{rooms_wf, BuilderMap};

verus! {

/// Pipeline stage that puts the player start at the center of the first
/// recorded room.
pub struct RoomBasedStartingPosition {}

impl RoomBasedStartingPosition {
    pub fn new() -> (r: Box<RoomBasedStartingPosition>) {
        Box::new(RoomBasedStartingPosition {})
    }

    pub fn build_map(&mut self, _rng: &mut RandomNumberGenerator, build_data: &mut BuilderMap)
        requires
            old(build_data).inv(),
            old(build_data).rooms is Some,
            old(build_data).rooms->Some_0@.len() >= 1,
            rooms_wf(
                old(build_data).rooms->Some_0@,
                old(build_data).map.width as int,
                old(build_data).map.height as int,
            ),
        ensures
            final(build_data).inv(),
            final(build_data).map == old(build_data).map,
            final(build_data).rooms == old(build_data).rooms,
            final(build_data).corridors == old(build_data).corridors,
            final(build_data).spawn_list == old(build_data).spawn_list,
            final(build_data).history == old(build_data).history,
            final(build_data).snapshot_enabled == old(build_data).snapshot_enabled,
            final(build_data).starting_position is Some,
            ({
                let p = final(build_data).starting_position->Some_0;
                (p.x as int, p.y as int) == old(build_data).rooms->Some_0@[0].spec_center()
            }),
    {
        let start;
        match &build_data.rooms {
            Some(rooms) => {
                start = rooms[0].center();
            },
            None => {
                proof {
                    assert(false);
                }
                start = crate::geometry::Position { x: 0, y: 0 };
            },
        }
        build_data.starting_position = Some(start);
    }
}

} // verus!
