use vstd::prelude::*;
use bracket_random::prelude::RandomNumberGenerator;
use crate::builder_map::{
    centers_walk, history_extends, lemma_history_extends_trans, rooms_connected, rooms_disjoint,
    rooms_wf, BuilderMap,
};
use crate::common::{apply_room_to_map, connect_rooms_sequentially};
use crate::geometry::{lemma_center_in_interior, Rect};
use crate::path::{lemma_floor_added_trans, lemma_floor_added_widen, only_floor_added, walk_at};
use crate::rng::rng_roll_dice;

verus! {

/// A rectangle whose corners are ordered and stay inside the supported
/// coordinate range: safe to do candidate arithmetic on.
pub open spec fn rect_ok(r: Rect) -> bool {
    0 <= r.x1 <= r.x2 <= 4096 && 0 <= r.y1 <= r.y2 <= 4096
}

/// Splits a partition rectangle into its four quadrants and records
/// them, so later rooms can be tried inside smaller regions.
pub(crate) fn add_subrects(rects: &mut Vec<Rect>, rect: Rect)
    requires
        rect_ok(rect),
        forall|k: int| 0 <= k < old(rects)@.len() ==> rect_ok(#[trigger] old(rects)@[k]),
    ensures
        final(rects)@.len() >= old(rects)@.len(),
        final(rects)@.len() <= old(rects)@.len() + 4,
        forall|k: int| 0 <= k < final(rects)@.len() ==> rect_ok(#[trigger] final(rects)@[k]),
{
    let half_w = (rect.x2 - rect.x1) / 2;
    let half_h = (rect.y2 - rect.y1) / 2;
    if half_w < 1 || half_h < 1 {
        return ;
    }
    rects.push(
        Rect { x1: rect.x1, y1: rect.y1, x2: rect.x1 + half_w, y2: rect.y1 + half_h },
    );
    rects.push(Rect { x1: rect.x1 + half_w, y1: rect.y1, x2: rect.x2, y2: rect.y1 + half_h });
    rects.push(Rect { x1: rect.x1, y1: rect.y1 + half_h, x2: rect.x1 + half_w, y2: rect.y2 });
    rects.push(
        Rect { x1: rect.x1 + half_w, y1: rect.y1 + half_h, x2: rect.x2, y2: rect.y2 },
    );
}

/// Whether a candidate room keeps its wall margin inside the grid and
/// stays clear (with a two-tile gutter) of every placed room.
pub(crate) fn is_possible(candidate: &Rect, w: i32, h: i32, rooms: &Vec<Rect>) -> (r: bool)
    requires
        -16 <= candidate.x1 <= 8192,
        -16 <= candidate.y1 <= 8192,
        -16 <= candidate.x2 <= 8192,
        -16 <= candidate.y2 <= 8192,
        16 <= w <= 4096,
        16 <= h <= 4096,
    ensures
        r ==> {
            &&& 0 <= candidate.x1
            &&& candidate.x1 + 2 <= candidate.x2
            &&& candidate.x2 < w
            &&& 0 <= candidate.y1
            &&& candidate.y1 + 2 <= candidate.y2
            &&& candidate.y2 < h
            &&& forall|k: int|
                0 <= k < rooms@.len() ==> !candidate.spec_intersect(#[trigger] rooms@[k])
        },
{
    let mut ok = candidate.x1 > 0 && candidate.y1 > 0 && candidate.x2 < w - 1 && candidate.y2 < h
        - 1 && candidate.x2 - candidate.x1 >= 2 && candidate.y2 - candidate.y1 >= 2;
    if !ok {
        return false;
    }
    let expanded = Rect {
        x1: candidate.x1 - 2,
        y1: candidate.y1 - 2,
        x2: candidate.x2 + 2,
        y2: candidate.y2 + 2,
    };
    let mut j: usize = 0;
    while j < rooms.len()
        invariant
            j <= rooms@.len(),
            expanded.x1 == candidate.x1 - 2,
            expanded.y1 == candidate.y1 - 2,
            expanded.x2 == candidate.x2 + 2,
            expanded.y2 == candidate.y2 + 2,
            ok ==> forall|k: int|
                0 <= k < j ==> !expanded.spec_intersect(#[trigger] rooms@[k]),
        decreases rooms@.len() - j,
    {
        if expanded.intersect(&rooms[j]) {
            ok = false;
        }
        j = j + 1;
    }
    ok
}

/// The BSP dungeon generator: recursively partitions the grid into
/// quadrants, drops candidate rooms into randomly chosen regions, and
/// joins the rooms that survived into one corridor chain.
pub struct BspDungeonBuilder {
    pub depth: i32,
}

impl BspDungeonBuilder {
    pub fn new(new_depth: i32) -> (r: Box<BspDungeonBuilder>)
        ensures
            r.depth == new_depth,
    {
        Box::new(BspDungeonBuilder { depth: new_depth })
    }

    pub fn build_map(&self, rng: &mut RandomNumberGenerator, build_data: &mut BuilderMap) -> (ok:
        bool)
        requires
            old(build_data).inv(),
            old(build_data).map.no_stairs(),
        ensures
            final(build_data).inv(),
            final(build_data).map.same_dims(old(build_data).map),
            final(build_data).map.no_stairs(),
            final(build_data).starting_position == old(build_data).starting_position,
            final(build_data).spawn_list == old(build_data).spawn_list,
            final(build_data).corridors == old(build_data).corridors,
            final(build_data).snapshot_enabled == old(build_data).snapshot_enabled,
            history_extends(old(build_data).history@, final(build_data).history@),
            only_floor_added(old(build_data).map, final(build_data).map),
            ok ==> {
                &&& final(build_data).rooms matches Some(rs)
                &&& final(build_data).rooms->Some_0@.len() >= 2
                &&& rooms_wf(
                    final(build_data).rooms->Some_0@,
                    final(build_data).map.width as int,
                    final(build_data).map.height as int,
                )
                &&& rooms_disjoint(final(build_data).rooms->Some_0@)
                &&& rooms_connected(final(build_data).map, final(build_data).rooms->Some_0@)
            },
            !ok ==> final(build_data).rooms == old(build_data).rooms,
    {
        let w = build_data.map.width;
        let h = build_data.map.height;
        proof {
            assert(build_data.history@.subrange(0, build_data.history@.len() as int)
                =~= build_data.history@);
        }
        let mut rects: Vec<Rect> = Vec::new();
        let first = Rect { x1: 2, y1: 2, x2: w - 4, y2: h - 4 };
        rects.push(first);
        add_subrects(&mut rects, first);
        let mut rooms: Vec<Rect> = Vec::new();
        let mut n_rooms: i32 = 0;
        while n_rooms < 240
            invariant
                build_data.inv(),
                build_data.map.same_dims(old(build_data).map),
                build_data.map.no_stairs(),
                build_data.starting_position == old(build_data).starting_position,
                build_data.spawn_list == old(build_data).spawn_list,
                build_data.rooms == old(build_data).rooms,
                build_data.corridors == old(build_data).corridors,
                build_data.snapshot_enabled == old(build_data).snapshot_enabled,
                history_extends(old(build_data).history@, build_data.history@),
                w == build_data.map.width,
                h == build_data.map.height,
                only_floor_added(old(build_data).map, build_data.map),
                rooms_wf(rooms@, w as int, h as int),
                rooms_disjoint(rooms@),
                centers_walk(build_data.map, rooms@),
                1 <= rects@.len() <= 100000,
                forall|k: int| 0 <= k < rects@.len() ==> rect_ok(#[trigger] rects@[k]),
                0 <= n_rooms <= 240,
            decreases 240 - n_rooms,
        {
            let ri = (rng_roll_dice(rng, 1, rects.len() as i32) - 1) as usize;
            let rect = rects[ri];
            let cx1 = rect.x1 + rng_roll_dice(rng, 1, 6) - 1;
            let cy1 = rect.y1 + rng_roll_dice(rng, 1, 6) - 1;
            let cw = 3 + rng_roll_dice(rng, 1, 7);
            let ch = 3 + rng_roll_dice(rng, 1, 7);
            let candidate = Rect { x1: cx1, y1: cy1, x2: cx1 + cw, y2: cy1 + ch };
            if is_possible(&candidate, w, h, &rooms) {
                let ghost g0 = build_data.map;
                apply_room_to_map(&mut build_data.map, &candidate);
                proof {
                    lemma_floor_added_widen(g0, build_data.map);
                    lemma_floor_added_trans(old(build_data).map, g0, build_data.map);
                    lemma_center_in_interior(candidate);
                    assert forall|j: int|
                        0 <= j < rooms@.len() implies walk_at(
                        build_data.map,
                        (#[trigger] rooms@[j]).spec_center().0,
                        rooms@[j].spec_center().1,
                    ) by {
                        assert(walk_at(
                            g0,
                            rooms@[j].spec_center().0,
                            rooms@[j].spec_center().1,
                        ));
                    }
                }
                rooms.push(candidate);
                let ghost h0 = build_data.history@;
                build_data.take_snapshot();
                proof {
                    assert(build_data.history@.subrange(0, h0.len() as int) =~= h0);
                    lemma_history_extends_trans(
                        old(build_data).history@,
                        h0,
                        build_data.history@,
                    );
                }
                if rects.len() < 99000 {
                    add_subrects(&mut rects, rect);
                }
            }
            n_rooms = n_rooms + 1;
        }
        if rooms.len() >= 2 {
            let ghost g1 = build_data.map;
            connect_rooms_sequentially(&mut build_data.map, rng, &rooms);
            proof {
                lemma_floor_added_widen(g1, build_data.map);
                lemma_floor_added_trans(old(build_data).map, g1, build_data.map);
            }
            let ghost h1 = build_data.history@;
            build_data.take_snapshot();
            proof {
                assert(build_data.history@.subrange(0, h1.len() as int) =~= h1);
                lemma_history_extends_trans(old(build_data).history@, h1, build_data.history@);
            }
            build_data.rooms = Some(rooms);
            true
        } else {
            false
        }
    }
}

} // verus!
