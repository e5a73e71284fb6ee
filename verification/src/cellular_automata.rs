use vstd::prelude::*;
use bracket_random::prelude::RandomNumberGenerator;
use crate::builder_map::{history_extends, lemma_history_extends_trans, BuilderMap};
use crate::rng::rng_roll_dice;
use crate::tile::{tile_walkable, TileType};

verus! {

/// The one-tile border of the grid is untouched: the automaton writes
/// interior tiles only.
pub open spec fn border_preserved(g0: crate::grid::Grid, g1: crate::grid::Grid) -> bool {
    forall|x: int, y: int|
        0 <= x < g1.width && 0 <= y < g1.height && !(1 <= x && x < g1.width - 1 && 1 <= y && y
            < g1.height - 1) ==> #[trigger] g1.tile_at(x, y) == g0.tile_at(x, y)
}

/// The cellular-automata generator: random wall/floor noise smoothed by
/// repeated majority votes over each tile's eight neighbours, giving
/// organic cave shapes.
pub struct CellularAutomataBuilder {
    pub depth: i32,
}

impl CellularAutomataBuilder {
    pub fn new(new_depth: i32) -> (r: Box<CellularAutomataBuilder>)
        ensures
            r.depth == new_depth,
    {
        Box::new(CellularAutomataBuilder { depth: new_depth })
    }

    pub fn build_map(&self, rng: &mut RandomNumberGenerator, build_data: &mut BuilderMap)
        requires
            old(build_data).inv(),
            old(build_data).map.no_stairs(),
        ensures
            final(build_data).inv(),
            final(build_data).map.same_dims(old(build_data).map),
            final(build_data).map.no_stairs(),
            final(build_data).starting_position == old(build_data).starting_position,
            final(build_data).spawn_list == old(build_data).spawn_list,
            final(build_data).rooms == old(build_data).rooms,
            final(build_data).corridors == old(build_data).corridors,
            final(build_data).snapshot_enabled == old(build_data).snapshot_enabled,
            history_extends(old(build_data).history@, final(build_data).history@),
            border_preserved(old(build_data).map, final(build_data).map),
    {
        let w = build_data.map.width;
        let h = build_data.map.height;
        proof {
            assert(build_data.history@.subrange(0, build_data.history@.len() as int)
                =~= build_data.history@);
        }
        let mut y: i32 = 1;
        while y < h - 1
            invariant
                build_data.inv(),
                build_data.map.same_dims(old(build_data).map),
                border_preserved(old(build_data).map, build_data.map),
                build_data.map.no_stairs(),
                build_data.starting_position == old(build_data).starting_position,
                build_data.spawn_list == old(build_data).spawn_list,
                build_data.rooms == old(build_data).rooms,
                build_data.corridors == old(build_data).corridors,
                build_data.snapshot_enabled == old(build_data).snapshot_enabled,
                history_extends(old(build_data).history@, build_data.history@),
                w == build_data.map.width,
                h == build_data.map.height,
                1 <= y <= h - 1,
            decreases h - y,
        {
            let mut x: i32 = 1;
            while x < w - 1
                invariant
                    build_data.inv(),
                    build_data.map.same_dims(old(build_data).map),
                    border_preserved(old(build_data).map, build_data.map),
                    build_data.map.no_stairs(),
                    build_data.starting_position == old(build_data).starting_position,
                    build_data.spawn_list == old(build_data).spawn_list,
                    build_data.rooms == old(build_data).rooms,
                    build_data.corridors == old(build_data).corridors,
                    build_data.snapshot_enabled == old(build_data).snapshot_enabled,
                    history_extends(old(build_data).history@, build_data.history@),
                    w == build_data.map.width,
                    h == build_data.map.height,
                    1 <= y < h - 1,
                    1 <= x <= w - 1,
                decreases w - x,
            {
                let roll = rng_roll_dice(rng, 1, 100);
                if roll > 55 {
                    build_data.map.set_tile(x, y, TileType::Floor);
                } else {
                    build_data.map.set_tile(x, y, TileType::Wall);
                }
                x = x + 1;
            }
            y = y + 1;
        }
        let ghost h0 = build_data.history@;
        build_data.take_snapshot();
        proof {
            assert(build_data.history@.subrange(0, h0.len() as int) =~= h0);
            lemma_history_extends_trans(old(build_data).history@, h0, build_data.history@);
        }
        let mut iteration: i32 = 0;
        while iteration < 10
            invariant
                build_data.inv(),
                build_data.map.same_dims(old(build_data).map),
                border_preserved(old(build_data).map, build_data.map),
                build_data.map.no_stairs(),
                build_data.starting_position == old(build_data).starting_position,
                build_data.spawn_list == old(build_data).spawn_list,
                build_data.rooms == old(build_data).rooms,
                build_data.corridors == old(build_data).corridors,
                build_data.snapshot_enabled == old(build_data).snapshot_enabled,
                history_extends(old(build_data).history@, build_data.history@),
                w == build_data.map.width,
                h == build_data.map.height,
                0 <= iteration <= 10,
            decreases 10 - iteration,
        {
            let src = build_data.map.clone_grid();
            let mut y2: i32 = 1;
            while y2 < h - 1
                invariant
                    build_data.inv(),
                    build_data.map.same_dims(old(build_data).map),
                    border_preserved(old(build_data).map, build_data.map),
                    build_data.map.no_stairs(),
                    build_data.starting_position == old(build_data).starting_position,
                    build_data.spawn_list == old(build_data).spawn_list,
                    build_data.rooms == old(build_data).rooms,
                    build_data.corridors == old(build_data).corridors,
                    build_data.snapshot_enabled == old(build_data).snapshot_enabled,
                    history_extends(old(build_data).history@, build_data.history@),
                    w == build_data.map.width,
                    h == build_data.map.height,
                    src.inv(),
                    src.width == w,
                    src.height == h,
                    1 <= y2 <= h - 1,
                decreases h - y2,
            {
                let mut x2: i32 = 1;
                while x2 < w - 1
                    invariant
                        build_data.inv(),
                        build_data.map.same_dims(old(build_data).map),
                        border_preserved(old(build_data).map, build_data.map),
                        build_data.map.no_stairs(),
                        build_data.starting_position == old(build_data).starting_position,
                        build_data.spawn_list == old(build_data).spawn_list,
                        build_data.rooms == old(build_data).rooms,
                        build_data.corridors == old(build_data).corridors,
                        build_data.snapshot_enabled == old(build_data).snapshot_enabled,
                        history_extends(old(build_data).history@, build_data.history@),
                        w == build_data.map.width,
                        h == build_data.map.height,
                        src.inv(),
                        src.width == w,
                        src.height == h,
                        1 <= y2 < h - 1,
                        1 <= x2 <= w - 1,
                    decreases w - x2,
                {
                    let mut neighbours: i32 = 0;
                    if !tile_walkable(src.get_tile(x2 - 1, y2)) {
                        neighbours = neighbours + 1;
                    }
                    if !tile_walkable(src.get_tile(x2 + 1, y2)) {
                        neighbours = neighbours + 1;
                    }
                    if !tile_walkable(src.get_tile(x2, y2 - 1)) {
                        neighbours = neighbours + 1;
                    }
                    if !tile_walkable(src.get_tile(x2, y2 + 1)) {
                        neighbours = neighbours + 1;
                    }
                    if !tile_walkable(src.get_tile(x2 - 1, y2 - 1)) {
                        neighbours = neighbours + 1;
                    }
                    if !tile_walkable(src.get_tile(x2 + 1, y2 - 1)) {
                        neighbours = neighbours + 1;
                    }
                    if !tile_walkable(src.get_tile(x2 - 1, y2 + 1)) {
                        neighbours = neighbours + 1;
                    }
                    if !tile_walkable(src.get_tile(x2 + 1, y2 + 1)) {
                        neighbours = neighbours + 1;
                    }
                    if neighbours > 4 || neighbours == 0 {
                        build_data.map.set_tile(x2, y2, TileType::Wall);
                    } else {
                        build_data.map.set_tile(x2, y2, TileType::Floor);
                    }
                    x2 = x2 + 1;
                }
                y2 = y2 + 1;
            }
            let ghost h1 = build_data.history@;
            build_data.take_snapshot();
            proof {
                assert(build_data.history@.subrange(0, h1.len() as int) =~= h1);
                lemma_history_extends_trans(old(build_data).history@, h1, build_data.history@);
            }
            iteration = iteration + 1;
        }
    }
}

} // verus!
