use vstd::prelude::*;
use bracket_random::prelude::RandomNumberGenerator;
use crate::bsp_dungeon::{is_possible, rect_ok};
use crate::builder_map::{
    centers_walk, history_extends, lemma_history_extends_trans, rooms_connected, rooms_disjoint,
    rooms_wf, BuilderMap,
};
use crate::common::{apply_room_to_map, connect_rooms_sequentially};
use crate::geometry::{lemma_center_in_interior, Rect};
use crate::path::{lemma_floor_added_trans, lemma_floor_added_widen, only_floor_added, walk_at};
use crate::rng::rng_roll_dice;

verus! {

/// The BSP interior generator: the same recursive partition, but each
/// final region is carved out almost wall to wall, giving
/// building-interior floor plans instead of scattered rooms.
pub struct BspInteriorBuilder {
    pub depth: i32,
}

impl BspInteriorBuilder {
    pub fn new(new_depth: i32) -> (r: Box<BspInteriorBuilder>)
        ensures
            r.depth == new_depth,
    {
        Box::new(BspInteriorBuilder { depth: new_depth })
    }

    pub fn build_map(&self, rng: &mut RandomNumberGenerator, build_data: &mut BuilderMap) -> (ok:
        bool)
        requires
            old(build_data).inv(),
            old(build_data).map.no_stairs(),
        ensures
            final(build_data).inv(),
            final(build_data).map.same_dims(old(build_data).map),
            final(build_data).map.no_stairs(),
            final(build_data).starting_position == old(build_data).starting_position,
            final(build_data).spawn_list == old(build_data).spawn_list,
            final(build_data).corridors == old(build_data).corridors,
            final(build_data).snapshot_enabled == old(build_data).snapshot_enabled,
            history_extends(old(build_data).history@, final(build_data).history@),
            only_floor_added(old(build_data).map, final(build_data).map),
            ok ==> {
                &&& final(build_data).rooms matches Some(rs)
                &&& final(build_data).rooms->Some_0@.len() >= 2
                &&& rooms_wf(
                    final(build_data).rooms->Some_0@,
                    final(build_data).map.width as int,
                    final(build_data).map.height as int,
                )
                &&& rooms_disjoint(final(build_data).rooms->Some_0@)
                &&& rooms_connected(final(build_data).map, final(build_data).rooms->Some_0@)
            },
            !ok ==> final(build_data).rooms == old(build_data).rooms,
    {
        let w = build_data.map.width;
        let h = build_data.map.height;
        proof {
            assert(build_data.history@.subrange(0, build_data.history@.len() as int)
                =~= build_data.history@);
        }
        let mut pending: Vec<Rect> = Vec::new();
        pending.push(Rect { x1: 1, y1: 1, x2: w - 2, y2: h - 2 });
        let mut rooms: Vec<Rect> = Vec::new();
        let mut rounds: i32 = 0;
        while pending.len() > 0 && rounds < 2000
            invariant
                build_data.inv(),
                build_data.map.same_dims(old(build_data).map),
                build_data.map.no_stairs(),
                build_data.starting_position == old(build_data).starting_position,
                build_data.spawn_list == old(build_data).spawn_list,
                build_data.rooms == old(build_data).rooms,
                build_data.corridors == old(build_data).corridors,
                build_data.snapshot_enabled == old(build_data).snapshot_enabled,
                history_extends(old(build_data).history@, build_data.history@),
                w == build_data.map.width,
                h == build_data.map.height,
                only_floor_added(old(build_data).map, build_data.map),
                rooms_wf(rooms@, w as int, h as int),
                rooms_disjoint(rooms@),
                centers_walk(build_data.map, rooms@),
                forall|k: int| 0 <= k < pending@.len() ==> rect_ok(#[trigger] pending@[k]),
                0 <= rounds <= 2000,
            decreases 2000 - rounds,
        {
            let r = match pending.pop() {
                Some(r) => r,
                None => {
                    proof {
                        assert(false);
                    }
                    Rect { x1: 1, y1: 1, x2: 3, y2: 3 }
                },
            };
            let span_w = r.x2 - r.x1;
            let span_h = r.y2 - r.y1;
            if span_w > 10 && span_w >= span_h {
                let xm = r.x1 + 4 + rng_roll_dice(rng, 1, span_w - 10);
                pending.push(Rect { x1: r.x1, y1: r.y1, x2: xm, y2: r.y2 });
                pending.push(Rect { x1: xm + 1, y1: r.y1, x2: r.x2, y2: r.y2 });
            } else if span_h > 10 {
                let ym = r.y1 + 4 + rng_roll_dice(rng, 1, span_h - 10);
                pending.push(Rect { x1: r.x1, y1: r.y1, x2: r.x2, y2: ym });
                pending.push(Rect { x1: r.x1, y1: ym + 1, x2: r.x2, y2: r.y2 });
            } else {
                let candidate = Rect { x1: r.x1, y1: r.y1, x2: r.x2 - 1, y2: r.y2 - 1 };
                if is_possible(&candidate, w, h, &rooms) {
                    let ghost g0 = build_data.map;
                    apply_room_to_map(&mut build_data.map, &candidate);
                    proof {
                        lemma_floor_added_widen(g0, build_data.map);
                        lemma_center_in_interior(candidate);
                        assert forall|j: int|
                            0 <= j < rooms@.len() implies walk_at(
                            build_data.map,
                            (#[trigger] rooms@[j]).spec_center().0,
                            rooms@[j].spec_center().1,
                        ) by {
                            assert(walk_at(
                                g0,
                                rooms@[j].spec_center().0,
                                rooms@[j].spec_center().1,
                            ));
                        }
                    }
                    rooms.push(candidate);
                    let ghost h0 = build_data.history@;
                    build_data.take_snapshot();
                    proof {
                        assert(build_data.history@.subrange(0, h0.len() as int) =~= h0);
                        lemma_history_extends_trans(
                            old(build_data).history@,
                            h0,
                            build_data.history@,
                        );
                    }
                }
            }
            rounds = rounds + 1;
        }
        if rooms.len() >= 2 {
            let ghost g1 = build_data.map;
            connect_rooms_sequentially(&mut build_data.map, rng, &rooms);
            proof {
                lemma_floor_added_widen(g1, build_data.map);
                lemma_floor_added_trans(old(build_data).map, g1, build_data.map);
            }
            let ghost h1 = build_data.history@;
            build_data.take_snapshot();
            proof {
                assert(build_data.history@.subrange(0, h1.len() as int) =~= h1);
                lemma_history_extends_trans(old(build_data).history@, h1, build_data.history@);
            }
            build_data.rooms = Some(rooms);
            true
        } else {
            false
        }
    }
}

} // verus!
