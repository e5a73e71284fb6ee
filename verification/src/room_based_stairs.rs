use vstd::prelude::*;
use bracket_random::prelude::RandomNumberGenerator;
use crate::builder_map::{
    history_extends, lemma_history_extends_trans, rooms_connected, rooms_wf, BuilderMap,
};
use crate::geometry::lemma_center_in_interior;
use crate::path::{lemma_reach_widen, walk_at};
use crate::tile::TileType;

verus! {

/// Pipeline stage that places the down staircase at the center of the
/// last recorded room.
pub struct RoomBasedStairs {}

impl RoomBasedStairs {
    pub fn new() -> (r: Box<RoomBasedStairs>) {
        Box::new(RoomBasedStairs {})
    }

    pub fn build_map(&mut self, _rng: &mut RandomNumberGenerator, build_data: &mut BuilderMap)
        requires
            old(build_data).inv(),
            old(build_data).map.no_stairs(),
            old(build_data).rooms is Some,
            old(build_data).rooms->Some_0@.len() >= 1,
            rooms_wf(
                old(build_data).rooms->Some_0@,
                old(build_data).map.width as int,
                old(build_data).map.height as int,
            ),
            rooms_connected(old(build_data).map, old(build_data).rooms->Some_0@),
        ensures
            final(build_data).inv(),
            final(build_data).map.same_dims(old(build_data).map),
            final(build_data).rooms == old(build_data).rooms,
            final(build_data).corridors == old(build_data).corridors,
            final(build_data).spawn_list == old(build_data).spawn_list,
            final(build_data).starting_position == old(build_data).starting_position,
            final(build_data).snapshot_enabled == old(build_data).snapshot_enabled,
            history_extends(old(build_data).history@, final(build_data).history@),
            rooms_connected(final(build_data).map, final(build_data).rooms->Some_0@),
            ({
                let cl = old(build_data).rooms->Some_0@[old(build_data).rooms->Some_0@.len()
                    - 1].spec_center();
                final(build_data).map.one_stairs(cl.0, cl.1)
            }),
            forall|x: int, y: int|
                #[trigger] walk_at(old(build_data).map, x, y) ==> walk_at(
                    final(build_data).map,
                    x,
                    y,
                ),
    {
        let stairs;
        match &build_data.rooms {
            Some(rooms) => {
                let last = rooms.len() - 1;
                stairs = rooms[last].center();
                proof {
                    lemma_center_in_interior(rooms@[last as int]);
                }
            },
            None => {
                proof {
                    assert(false);
                }
                stairs = crate::geometry::Position { x: 0, y: 0 };
            },
        }
        let ghost g0 = build_data.map;
        build_data.map.set_tile(stairs.x, stairs.y, TileType::DownStairs);
        proof {
            let rs = build_data.rooms->Some_0@;
            let c0 = rs[0].spec_center();
            let cl = rs[rs.len() - 1].spec_center();
            assert forall|x: int, y: int| #[trigger] walk_at(g0, x, y) implies walk_at(
                build_data.map,
                x,
                y,
            ) by {
                if x == stairs.x as int && y == stairs.y as int {
                    assert(build_data.map.tile_at(x, y) == TileType::DownStairs);
                } else {
                    assert(build_data.map.tile_at(x, y) == g0.tile_at(x, y));
                }
            }
            lemma_reach_widen(g0, build_data.map, c0.0, c0.1, cl.0, cl.1);
        }
        let ghost h0 = build_data.history@;
        build_data.take_snapshot();
        proof {
            assert(h0.subrange(0, h0.len() as int) =~= h0);
            assert(build_data.history@.subrange(0, h0.len() as int) =~= h0);
            lemma_history_extends_trans(old(build_data).history@, h0, build_data.history@);
        }
    }
}

} // verus!
