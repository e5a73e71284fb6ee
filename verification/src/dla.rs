use vstd::prelude::*;
use bracket_random::prelude::RandomNumberGenerator;
use crate::builder_map::{history_extends, lemma_history_extends_trans, BuilderMap};
use crate::common::{paint_symmetric, Symmetry};
use crate::grid::lemma_idx_in_range;
use crate::path::{
    lemma_floor_added_trans, lemma_floor_added_widen, lemma_floor_stays, only_floor_added,
};
use crate::rng::rng_roll_dice;
use crate::tile::tile_walkable;

verus! {

/// The five-tile cross of floor that seeds the aggregation.
pub open spec fn seed_cross_floor(g: crate::grid::Grid, cx: int, cy: int) -> bool {
    &&& g.tile_at(cx, cy) == crate::tile::TileType::Floor
    &&& g.tile_at(cx - 1, cy) == crate::tile::TileType::Floor
    &&& g.tile_at(cx + 1, cy) == crate::tile::TileType::Floor
    &&& g.tile_at(cx, cy - 1) == crate::tile::TileType::Floor
    &&& g.tile_at(cx, cy + 1) == crate::tile::TileType::Floor
}

/// How a released particle moves before it sticks.
#[derive(Clone, Copy, PartialEq, Eq, Structural, Debug)]
pub enum DLAAlgorithm {
    WalkInwards,
    WalkOutwards,
    CentralAttractor,
}

/// The diffusion-limited-aggregation generator: particles wander until
/// they touch the growing floor mass and carve where they stuck.
pub struct DLABuilder {
    pub depth: i32,
    pub algorithm: DLAAlgorithm,
    pub brush_size: i32,
    pub symmetry: Symmetry,
    pub floor_percent: i32,
}

impl DLABuilder {
    pub open spec fn inv(self) -> bool {
        1 <= self.brush_size <= 3 && 1 <= self.floor_percent <= 100
    }

    pub fn walk_inwards(new_depth: i32) -> (r: Box<DLABuilder>)
        ensures
            r.inv(),
            r.depth == new_depth,
    {
        Box::new(
            DLABuilder {
                depth: new_depth,
                algorithm: DLAAlgorithm::WalkInwards,
                brush_size: 1,
                symmetry: Symmetry::Off,
                floor_percent: 25,
            },
        )
    }

    pub fn walk_outwards(new_depth: i32) -> (r: Box<DLABuilder>)
        ensures
            r.inv(),
            r.depth == new_depth,
    {
        Box::new(
            DLABuilder {
                depth: new_depth,
                algorithm: DLAAlgorithm::WalkOutwards,
                brush_size: 2,
                symmetry: Symmetry::Off,
                floor_percent: 25,
            },
        )
    }

    pub fn central_attractor(new_depth: i32) -> (r: Box<DLABuilder>)
        ensures
            r.inv(),
            r.depth == new_depth,
    {
        Box::new(
            DLABuilder {
                depth: new_depth,
                algorithm: DLAAlgorithm::CentralAttractor,
                brush_size: 2,
                symmetry: Symmetry::Off,
                floor_percent: 25,
            },
        )
    }

    pub fn insectoid(new_depth: i32) -> (r: Box<DLABuilder>)
        ensures
            r.inv(),
            r.depth == new_depth,
    {
        Box::new(
            DLABuilder {
                depth: new_depth,
                algorithm: DLAAlgorithm::CentralAttractor,
                brush_size: 2,
                symmetry: Symmetry::Horizontal,
                floor_percent: 25,
            },
        )
    }

    pub fn build_map(&self, rng: &mut RandomNumberGenerator, build_data: &mut BuilderMap)
        requires
            self.inv(),
            old(build_data).inv(),
            old(build_data).map.no_stairs(),
        ensures
            final(build_data).inv(),
            final(build_data).map.same_dims(old(build_data).map),
            final(build_data).map.no_stairs(),
            final(build_data).starting_position == old(build_data).starting_position,
            final(build_data).spawn_list == old(build_data).spawn_list,
            final(build_data).rooms == old(build_data).rooms,
            final(build_data).corridors == old(build_data).corridors,
            final(build_data).snapshot_enabled == old(build_data).snapshot_enabled,
            history_extends(old(build_data).history@, final(build_data).history@),
            only_floor_added(old(build_data).map, final(build_data).map),
            seed_cross_floor(
                final(build_data).map,
                old(build_data).map.width as int / 2,
                old(build_data).map.height as int / 2,
            ),
    {
        let w = build_data.map.width;
        let h = build_data.map.height;
        let cx = w / 2;
        let cy = h / 2;
        proof {
            lemma_idx_in_range(w as int, h as int, w as int - 1, h as int - 1);
            assert(build_data.history@.subrange(0, build_data.history@.len() as int)
                =~= build_data.history@);
        }
        let n: usize = build_data.map.tiles.len();
        let fp: usize = self.floor_percent as usize;
        proof {
            assert(n * fp <= 1677721600) by (nonlinear_arith)
                requires
                    n <= 16777216,
                    fp <= 100,
            ;
        }
        let target: usize = n * fp / 100;
        // the initial seed: a small cross of floor at the center
        let ghost gseed = build_data.map;
        build_data.map.set_tile(cx, cy, crate::tile::TileType::Floor);
        build_data.map.set_tile(cx - 1, cy, crate::tile::TileType::Floor);
        build_data.map.set_tile(cx + 1, cy, crate::tile::TileType::Floor);
        build_data.map.set_tile(cx, cy - 1, crate::tile::TileType::Floor);
        build_data.map.set_tile(cx, cy + 1, crate::tile::TileType::Floor);
        let mut floor_count: usize = 5;
        let ghost h0 = build_data.history@;
        build_data.take_snapshot();
        proof {
            assert forall|x: int, y: int|
                0 <= x < build_data.map.width && 0 <= y < build_data.map.height
                    implies #[trigger] build_data.map.tile_at(x, y)
                != crate::tile::TileType::DownStairs by {
                if gseed.tile_at(x, y) == build_data.map.tile_at(x, y) {
                } else {
                    assert(build_data.map.tile_at(x, y) == crate::tile::TileType::Floor);
                }
            }
            assert(only_floor_added(gseed, build_data.map));
            assert(seed_cross_floor(build_data.map, cx as int, cy as int));
            assert(build_data.history@.subrange(0, h0.len() as int) =~= h0);
            lemma_history_extends_trans(old(build_data).history@, h0, build_data.history@);
        }
        let mut particles: i32 = 0;
        while floor_count < target && particles < 3000
            invariant
                self.inv(),
                build_data.inv(),
                build_data.map.same_dims(old(build_data).map),
                build_data.map.no_stairs(),
                build_data.starting_position == old(build_data).starting_position,
                build_data.spawn_list == old(build_data).spawn_list,
                build_data.rooms == old(build_data).rooms,
                build_data.corridors == old(build_data).corridors,
                build_data.snapshot_enabled == old(build_data).snapshot_enabled,
                history_extends(old(build_data).history@, build_data.history@),
                only_floor_added(old(build_data).map, build_data.map),
                seed_cross_floor(build_data.map, cx as int, cy as int),
                w == build_data.map.width,
                h == build_data.map.height,
                2 <= cx < w - 1,
                2 <= cy < h - 1,
                0 <= particles <= 3000,
            decreases 3000 - particles,
        {
            let mut x: i32;
            let mut y: i32;
            match self.algorithm {
                DLAAlgorithm::WalkOutwards => {
                    x = cx;
                    y = cy;
                },
                _ => {
                    x = rng_roll_dice(rng, 1, w - 3) + 1;
                    y = rng_roll_dice(rng, 1, h - 3) + 1;
                },
            }
            let mut steps: i32 = 0;
            let mut stuck = false;
            while !stuck && steps < 600
                invariant
                    self.inv(),
                    build_data.inv(),
                    build_data.map.same_dims(old(build_data).map),
                    build_data.map.no_stairs(),
                    build_data.starting_position == old(build_data).starting_position,
                    build_data.spawn_list == old(build_data).spawn_list,
                    build_data.rooms == old(build_data).rooms,
                    build_data.corridors == old(build_data).corridors,
                    build_data.snapshot_enabled == old(build_data).snapshot_enabled,
                    history_extends(old(build_data).history@, build_data.history@),
                    only_floor_added(old(build_data).map, build_data.map),
                    seed_cross_floor(build_data.map, cx as int, cy as int),
                    w == build_data.map.width,
                    h == build_data.map.height,
                    2 <= cx < w - 1,
                    2 <= cy < h - 1,
                    1 <= x < w - 1,
                    1 <= y < h - 1,
                    0 <= steps,
                decreases 600 - steps,
            {
                let sticks = match self.algorithm {
                    DLAAlgorithm::WalkOutwards => {
                        // carve as soon as the walker leaves the floor mass
                        !tile_walkable(build_data.map.get_tile(x, y))
                    },
                    _ => {
                        // stick when a cardinal neighbour is already floor
                        tile_walkable(build_data.map.get_tile(x - 1, y)) || tile_walkable(
                            build_data.map.get_tile(x + 1, y),
                        ) || tile_walkable(build_data.map.get_tile(x, y - 1)) || tile_walkable(
                            build_data.map.get_tile(x, y + 1),
                        )
                    },
                };
                if sticks {
                    let ghost g0 = build_data.map;
                    let added = paint_symmetric(
                        &mut build_data.map,
                        self.brush_size,
                        self.symmetry,
                        x,
                        y,
                    );
                    proof {
                        lemma_floor_added_widen(g0, build_data.map);
                        lemma_floor_added_trans(old(build_data).map, g0, build_data.map);
                        lemma_floor_stays(g0, build_data.map, cx as int, cy as int);
                        lemma_floor_stays(g0, build_data.map, cx as int - 1, cy as int);
                        lemma_floor_stays(g0, build_data.map, cx as int + 1, cy as int);
                        lemma_floor_stays(g0, build_data.map, cx as int, cy as int - 1);
                        lemma_floor_stays(g0, build_data.map, cx as int, cy as int + 1);
                    }
                    if added > 0 && floor_count < 16777216 {
                        floor_count = floor_count + (added as usize);
                    }
                    stuck = true;
                } else {
                    match self.algorithm {
                        DLAAlgorithm::CentralAttractor => {
                            if x < cx {
                                x = x + 1;
                            } else if x > cx {
                                x = x - 1;
                            } else if y < cy {
                                y = y + 1;
                            } else if y > cy {
                                y = y - 1;
                            } else {
                                stuck = true;
                            }
                        },
                        _ => {
                            let stagger = rng_roll_dice(rng, 1, 4);
                            if stagger == 1 && x > 1 {
                                x = x - 1;
                            } else if stagger == 2 && x < w - 2 {
                                x = x + 1;
                            } else if stagger == 3 && y > 1 {
                                y = y - 1;
                            } else if stagger == 4 && y < h - 2 {
                                y = y + 1;
                            }
                        },
                    }
                }
                steps = steps + 1;
            }
            if particles % 50 == 0 {
                let ghost h1 = build_data.history@;
                build_data.take_snapshot();
                proof {
                    assert(build_data.history@.subrange(0, h1.len() as int) =~= h1);
                    lemma_history_extends_trans(
                        old(build_data).history@,
                        h1,
                        build_data.history@,
                    );
                }
            }
            particles = particles + 1;
        }
        let ghost h2 = build_data.history@;
        build_data.take_snapshot();
        proof {
            assert(build_data.history@.subrange(0, h2.len() as int) =~= h2);
            lemma_history_extends_trans(old(build_data).history@, h2, build_data.history@);
        }
    }
}

} // verus!
