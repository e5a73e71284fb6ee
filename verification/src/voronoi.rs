use vstd::prelude::*;
use bracket_random::prelude::RandomNumberGenerator;
use crate::builder_map::{history_extends, lemma_history_extends_trans, BuilderMap};
use crate::path::{lemma_floor_added_trans, only_floor_added};
use crate::rng::rng_roll_dice;
use crate::tile::TileType;

verus! {

/// The distance rule a Voronoi builder assigns tiles with.
#[derive(Clone, Copy, PartialEq, Eq, Structural, Debug)]
pub enum DistanceAlgorithm {
    Pythagoras,
    Manhattan,
}

/// The Voronoi-cell generator: scatters seed points, assigns every tile
/// to its nearest seed, and opens the tiles lying close to a boundary
/// between two cells, forming corridor-like walks between cell
/// interiors.
pub struct VoronoiCellBuilder {
    pub depth: i32,
    pub n_seeds: i32,
    pub distance_algorithm: DistanceAlgorithm,
}

impl VoronoiCellBuilder {
    pub open spec fn inv(self) -> bool {
        2 <= self.n_seeds <= 128
    }

    pub fn pythagoras(new_depth: i32) -> (r: Box<VoronoiCellBuilder>)
        ensures
            r.inv(),
            r.depth == new_depth,
    {
        Box::new(
            VoronoiCellBuilder {
                depth: new_depth,
                n_seeds: 64,
                distance_algorithm: DistanceAlgorithm::Pythagoras,
            },
        )
    }

    pub fn manhattan(new_depth: i32) -> (r: Box<VoronoiCellBuilder>)
        ensures
            r.inv(),
            r.depth == new_depth,
    {
        Box::new(
            VoronoiCellBuilder {
                depth: new_depth,
                n_seeds: 64,
                distance_algorithm: DistanceAlgorithm::Manhattan,
            },
        )
    }

    pub fn build_map(&self, rng: &mut RandomNumberGenerator, build_data: &mut BuilderMap)
        requires
            self.inv(),
            old(build_data).inv(),
            old(build_data).map.no_stairs(),
        ensures
            final(build_data).inv(),
            final(build_data).map.same_dims(old(build_data).map),
            final(build_data).map.no_stairs(),
            final(build_data).starting_position == old(build_data).starting_position,
            final(build_data).spawn_list == old(build_data).spawn_list,
            final(build_data).rooms == old(build_data).rooms,
            final(build_data).corridors == old(build_data).corridors,
            final(build_data).snapshot_enabled == old(build_data).snapshot_enabled,
            history_extends(old(build_data).history@, final(build_data).history@),
            only_floor_added(old(build_data).map, final(build_data).map),
    {
        let w = build_data.map.width;
        let h = build_data.map.height;
        proof {
            assert(build_data.history@.subrange(0, build_data.history@.len() as int)
                =~= build_data.history@);
        }
        // scatter the seed points over the interior
        let mut seeds: Vec<(i32, i32)> = Vec::new();
        let mut s: i32 = 0;
        while s < self.n_seeds
            invariant
                self.inv(),
                build_data.inv(),
                w == build_data.map.width,
                h == build_data.map.height,
                0 <= s <= self.n_seeds,
                seeds@.len() == s,
                forall|k: int|
                    0 <= k < seeds@.len() ==> {
                        let p = #[trigger] seeds@[k];
                        1 <= p.0 < w - 1 && 1 <= p.1 < h - 1
                    },
            decreases self.n_seeds - s,
        {
            let sx = rng_roll_dice(rng, 1, w - 3) + 1;
            let sy = rng_roll_dice(rng, 1, h - 3) + 1;
            seeds.push((sx, sy));
            s = s + 1;
        }
        // open every tile whose two nearest seeds are nearly equidistant
        let threshold: i32 = match self.distance_algorithm {
            DistanceAlgorithm::Pythagoras => 64,
            DistanceAlgorithm::Manhattan => 2,
        };
        let mut y: i32 = 1;
        while y < h - 1
            invariant
                self.inv(),
                build_data.inv(),
                build_data.map.same_dims(old(build_data).map),
                only_floor_added(old(build_data).map, build_data.map),
                build_data.map.no_stairs(),
                build_data.starting_position == old(build_data).starting_position,
                build_data.spawn_list == old(build_data).spawn_list,
                build_data.rooms == old(build_data).rooms,
                build_data.corridors == old(build_data).corridors,
                build_data.snapshot_enabled == old(build_data).snapshot_enabled,
                history_extends(old(build_data).history@, build_data.history@),
                w == build_data.map.width,
                h == build_data.map.height,
                seeds@.len() == self.n_seeds,
                forall|k: int|
                    0 <= k < seeds@.len() ==> {
                        let p = #[trigger] seeds@[k];
                        1 <= p.0 < w - 1 && 1 <= p.1 < h - 1
                    },
                1 <= y <= h - 1,
            decreases h - y,
        {
            let mut x: i32 = 1;
            while x < w - 1
                invariant
                    self.inv(),
                    build_data.inv(),
                    build_data.map.same_dims(old(build_data).map),
                    only_floor_added(old(build_data).map, build_data.map),
                    build_data.map.no_stairs(),
                    build_data.starting_position == old(build_data).starting_position,
                    build_data.spawn_list == old(build_data).spawn_list,
                    build_data.rooms == old(build_data).rooms,
                    build_data.corridors == old(build_data).corridors,
                    build_data.snapshot_enabled == old(build_data).snapshot_enabled,
                    history_extends(old(build_data).history@, build_data.history@),
                    w == build_data.map.width,
                    h == build_data.map.height,
                    seeds@.len() == self.n_seeds,
                    forall|k: int|
                        0 <= k < seeds@.len() ==> {
                            let p = #[trigger] seeds@[k];
                            1 <= p.0 < w - 1 && 1 <= p.1 < h - 1
                        },
                    1 <= y < h - 1,
                    1 <= x <= w - 1,
                decreases w - x,
            {
                // the two smallest seed distances for this tile
                let mut d1: i32 = i32::MAX;
                let mut d2: i32 = i32::MAX;
                let mut k: usize = 0;
                while k < seeds.len()
                    invariant
                        seeds@.len() <= 128,
                        k <= seeds@.len(),
                        forall|j: int|
                            0 <= j < seeds@.len() ==> {
                                let p = #[trigger] seeds@[j];
                                1 <= p.0 < w - 1 && 1 <= p.1 < h - 1
                            },
                        1 <= x < w,
                        1 <= y < h,
                        w <= 4096,
                        h <= 4096,
                        0 <= d1,
                        d1 <= d2,
                    decreases seeds@.len() - k,
                {
                    let (px, py) = seeds[k];
                    let dx = if px < x {
                        x - px
                    } else {
                        px - x
                    };
                    let dy = if py < y {
                        y - py
                    } else {
                        py - y
                    };
                    proof {
                        assert(dx * dx + dy * dy < 2 * 4096 * 4096) by (nonlinear_arith)
                            requires
                                0 <= dx < 4096,
                                0 <= dy < 4096,
                        ;
                    }
                    let d = match self.distance_algorithm {
                        DistanceAlgorithm::Pythagoras => dx * dx + dy * dy,
                        DistanceAlgorithm::Manhattan => dx + dy,
                    };
                    if d < d1 {
                        d2 = d1;
                        d1 = d;
                    } else if d < d2 {
                        d2 = d;
                    }
                    k = k + 1;
                }
                let boundary = if d2 == i32::MAX {
                    false
                } else {
                    d2 - d1 <= threshold
                };
                if boundary {
                    let ghost gv0 = build_data.map;
                    build_data.map.set_tile(x, y, TileType::Floor);
                    proof {
                        lemma_floor_added_trans(old(build_data).map, gv0, build_data.map);
                    }
                }
                x = x + 1;
            }
            y = y + 1;
        }
        let ghost h1 = build_data.history@;
        build_data.take_snapshot();
        proof {
            assert(build_data.history@.subrange(0, h1.len() as int) =~= h1);
            lemma_history_extends_trans(old(build_data).history@, h1, build_data.history@);
        }
    }
}

} // verus!
