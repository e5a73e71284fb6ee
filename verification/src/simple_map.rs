use vstd::prelude::*;
use bracket_random::prelude::RandomNumberGenerator;
use crate::builder_map::{
    history_extends, lemma_history_extends_trans, rooms_connected, rooms_disjoint, rooms_wf,
    BuilderMap,
};
use crate::common::{apply_l_tunnel, apply_room_to_map};
use crate::geometry::{lemma_center_in_interior, Rect};
use crate::path::{
    lemma_floor_added_trans, lemma_floor_added_widen, lemma_reach_self, lemma_reach_trans,
    lemma_reach_widen, only_floor_added,
};
use crate::rng::{rng_range, rng_roll_dice};

verus! {

const MAX_ROOMS: i32 = 30;

const MIN_SIZE: i32 = 6;

const MAX_SIZE: i32 = 10;

/// The rooms-and-corridors generator: drops non-overlapping rectangular
/// rooms at random and joins each new room to the previous one with an
/// L-shaped corridor.
pub struct SimpleMapBuilder {
    pub depth: i32,
}

impl SimpleMapBuilder {
    pub fn new(new_depth: i32) -> (r: Box<SimpleMapBuilder>)
        ensures
            r.depth == new_depth,
    {
        Box::new(SimpleMapBuilder { depth: new_depth })
    }

    /// Carves rooms and corridors into the build state's grid.  On
    /// success at least two rooms are recorded; they are pairwise
    /// disjoint, keep their wall margin, and the center of the first
    /// room reaches the center of the last.
    pub fn build_map(&self, rng: &mut RandomNumberGenerator, build_data: &mut BuilderMap) -> (ok:
        bool)
        requires
            old(build_data).inv(),
            old(build_data).map.no_stairs(),
        ensures
            final(build_data).inv(),
            final(build_data).map.same_dims(old(build_data).map),
            final(build_data).map.no_stairs(),
            final(build_data).starting_position == old(build_data).starting_position,
            final(build_data).spawn_list == old(build_data).spawn_list,
            final(build_data).snapshot_enabled == old(build_data).snapshot_enabled,
            history_extends(old(build_data).history@, final(build_data).history@),
            only_floor_added(old(build_data).map, final(build_data).map),
            ok ==> {
                &&& final(build_data).rooms matches Some(rs)
                &&& 2 <= final(build_data).rooms->Some_0@.len() <= 30
                &&& rooms_wf(
                    final(build_data).rooms->Some_0@,
                    final(build_data).map.width as int,
                    final(build_data).map.height as int,
                )
                &&& rooms_disjoint(final(build_data).rooms->Some_0@)
                &&& rooms_connected(final(build_data).map, final(build_data).rooms->Some_0@)
            },
            ok ==> final(build_data).corridors is Some,
            !ok ==> final(build_data).rooms == old(build_data).rooms,
            !ok ==> final(build_data).corridors == old(build_data).corridors,
    {
        let w = build_data.map.width;
        let h = build_data.map.height;
        let mut rooms: Vec<Rect> = Vec::new();
        let mut corridors: Vec<Vec<usize>> = Vec::new();
        proof {
            assert(build_data.history@.subrange(0, build_data.history@.len() as int)
                =~= build_data.history@);
        }
        let mut i: i32 = 0;
        while i < MAX_ROOMS
            invariant
                build_data.inv(),
                build_data.map.same_dims(old(build_data).map),
                build_data.map.no_stairs(),
                build_data.starting_position == old(build_data).starting_position,
                build_data.spawn_list == old(build_data).spawn_list,
                build_data.rooms == old(build_data).rooms,
                build_data.corridors == old(build_data).corridors,
                build_data.snapshot_enabled == old(build_data).snapshot_enabled,
                history_extends(old(build_data).history@, build_data.history@),
                w == build_data.map.width,
                h == build_data.map.height,
                only_floor_added(old(build_data).map, build_data.map),
                rooms_wf(rooms@, w as int, h as int),
                rooms_disjoint(rooms@),
                rooms_connected(build_data.map, rooms@),
                rooms@.len() <= i,
                0 <= i <= MAX_ROOMS,
            decreases MAX_ROOMS - i,
        {
            let room_w = rng_range(rng, MIN_SIZE, MAX_SIZE);
            let room_h = rng_range(rng, MIN_SIZE, MAX_SIZE);
            let x = rng_roll_dice(rng, 1, w - room_w - 1) - 1;
            let y = rng_roll_dice(rng, 1, h - room_h - 1) - 1;
            let new_room = Rect::with_size(x, y, room_w, room_h);
            let mut ok_place = true;
            let mut j: usize = 0;
            while j < rooms.len()
                invariant
                    j <= rooms@.len(),
                    ok_place ==> forall|k: int|
                        0 <= k < j ==> !new_room.spec_intersect(#[trigger] rooms@[k]),
                decreases rooms@.len() - j,
            {
                if new_room.intersect(&rooms[j]) {
                    ok_place = false;
                }
                j = j + 1;
            }
            if ok_place {
                let ghost g0 = build_data.map;
                apply_room_to_map(&mut build_data.map, &new_room);
                proof {
                    lemma_floor_added_widen(g0, build_data.map);
                    lemma_floor_added_trans(old(build_data).map, g0, build_data.map);
                    lemma_center_in_interior(new_room);
                    if rooms@.len() >= 1 {
                        let c0 = rooms@[0].spec_center();
                        let cl = rooms@[rooms@.len() - 1].spec_center();
                        lemma_reach_widen(g0, build_data.map, c0.0, c0.1, cl.0, cl.1);
                    }
                }
                let ghost h0 = build_data.history@;
                build_data.take_snapshot();
                proof {
                    assert(build_data.history@.subrange(0, h0.len() as int) =~= h0);
                    lemma_history_extends_trans(
                        old(build_data).history@,
                        h0,
                        build_data.history@,
                    );
                }
                if rooms.len() > 0 {
                    let last = rooms.len() - 1;
                    let prev_c = rooms[last].center();
                    let new_c = new_room.center();
                    let coin = rng_range(rng, 0, 2);
                    let ghost g1 = build_data.map;
                    let corridor = apply_l_tunnel(
                        &mut build_data.map,
                        prev_c.x,
                        prev_c.y,
                        new_c.x,
                        new_c.y,
                        coin == 1,
                    );
                    corridors.push(corridor);
                    proof {
                        lemma_floor_added_widen(g1, build_data.map);
                        lemma_floor_added_trans(old(build_data).map, g1, build_data.map);
                        let c0 = rooms@[0].spec_center();
                        let cl = rooms@[rooms@.len() - 1].spec_center();
                        lemma_reach_widen(g1, build_data.map, c0.0, c0.1, cl.0, cl.1);
                        lemma_reach_trans(
                            build_data.map,
                            c0.0,
                            c0.1,
                            cl.0,
                            cl.1,
                            new_c.x as int,
                            new_c.y as int,
                        );
                    }
                }
                proof {
                    if rooms@.len() == 0 {
                        let c = new_room.spec_center();
                        lemma_reach_self(build_data.map, c.0, c.1);
                    }
                }
                rooms.push(new_room);
                proof {
                    assert(rooms@[0] == if rooms@.len() == 1 {
                        new_room
                    } else {
                        rooms@[0]
                    });
                    assert(rooms@.last() == new_room);
                }
                let ghost h1 = build_data.history@;
                build_data.take_snapshot();
                proof {
                    assert(build_data.history@.subrange(0, h1.len() as int) =~= h1);
                    lemma_history_extends_trans(
                        old(build_data).history@,
                        h1,
                        build_data.history@,
                    );
                }
            }
            i = i + 1;
        }
        if rooms.len() >= 2 {
            build_data.rooms = Some(rooms);
            build_data.corridors = Some(corridors);
            true
        } else {
            false
        }
    }
}

} // verus!
