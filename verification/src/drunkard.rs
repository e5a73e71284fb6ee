use vstd::prelude::*;
use bracket_random::prelude::RandomNumberGenerator;
use crate::builder_map::{history_extends, lemma_history_extends_trans, BuilderMap};
use crate::common::{paint_symmetric, Symmetry};
use crate::grid::lemma_idx_in_range;
use crate::path::{
    lemma_floor_added_trans, lemma_floor_added_widen, lemma_floor_stays, only_floor_added,
    walk_at,
};
use crate::rng::rng_roll_dice;

verus! {

/// Where a new digger is dropped.
#[derive(Clone, Copy, PartialEq, Eq, Structural, Debug)]
pub enum DrunkSpawnMode {
    StartingPoint,
    Random,
}

/// Tuning knobs that tell the drunkard's-walk variants apart.
pub struct DrunkardSettings {
    pub spawn_mode: DrunkSpawnMode,
    pub drunken_lifetime: i32,
    pub floor_percent: i32,
    pub brush_size: i32,
    pub symmetry: Symmetry,
}

pub open spec fn settings_wf(s: DrunkardSettings) -> bool {
    &&& 1 <= s.drunken_lifetime <= 1000
    &&& 1 <= s.floor_percent <= 100
    &&& 1 <= s.brush_size <= 3
}

/// The drunkard's-walk generator: diggers stumble across the grid
/// carving floor until a target floor coverage is reached.
pub struct DrunkardsWalkBuilder {
    pub depth: i32,
    pub settings: DrunkardSettings,
}

impl DrunkardsWalkBuilder {
    pub open spec fn inv(self) -> bool {
        settings_wf(self.settings)
    }

    pub fn open_area(new_depth: i32) -> (r: Box<DrunkardsWalkBuilder>)
        ensures
            r.inv(),
            r.depth == new_depth,
    {
        Box::new(
            DrunkardsWalkBuilder {
                depth: new_depth,
                settings: DrunkardSettings {
                    spawn_mode: DrunkSpawnMode::StartingPoint,
                    drunken_lifetime: 400,
                    floor_percent: 50,
                    brush_size: 1,
                    symmetry: Symmetry::Off,
                },
            },
        )
    }

    pub fn open_halls(new_depth: i32) -> (r: Box<DrunkardsWalkBuilder>)
        ensures
            r.inv(),
            r.depth == new_depth,
    {
        Box::new(
            DrunkardsWalkBuilder {
                depth: new_depth,
                settings: DrunkardSettings {
                    spawn_mode: DrunkSpawnMode::Random,
                    drunken_lifetime: 400,
                    floor_percent: 50,
                    brush_size: 1,
                    symmetry: Symmetry::Off,
                },
            },
        )
    }

    pub fn winding_passages(new_depth: i32) -> (r: Box<DrunkardsWalkBuilder>)
        ensures
            r.inv(),
            r.depth == new_depth,
    {
        Box::new(
            DrunkardsWalkBuilder {
                depth: new_depth,
                settings: DrunkardSettings {
                    spawn_mode: DrunkSpawnMode::Random,
                    drunken_lifetime: 100,
                    floor_percent: 90,
                    brush_size: 1,
                    symmetry: Symmetry::Off,
                },
            },
        )
    }

    pub fn fat_passages(new_depth: i32) -> (r: Box<DrunkardsWalkBuilder>)
        ensures
            r.inv(),
            r.depth == new_depth,
    {
        Box::new(
            DrunkardsWalkBuilder {
                depth: new_depth,
                settings: DrunkardSettings {
                    spawn_mode: DrunkSpawnMode::Random,
                    drunken_lifetime: 100,
                    floor_percent: 60,
                    brush_size: 2,
                    symmetry: Symmetry::Off,
                },
            },
        )
    }

    pub fn fearful_symmetry(new_depth: i32) -> (r: Box<DrunkardsWalkBuilder>)
        ensures
            r.inv(),
            r.depth == new_depth,
    {
        Box::new(
            DrunkardsWalkBuilder {
                depth: new_depth,
                settings: DrunkardSettings {
                    spawn_mode: DrunkSpawnMode::Random,
                    drunken_lifetime: 100,
                    floor_percent: 60,
                    brush_size: 1,
                    symmetry: Symmetry::Both,
                },
            },
        )
    }

    pub fn build_map(&self, rng: &mut RandomNumberGenerator, build_data: &mut BuilderMap)
        requires
            self.inv(),
            old(build_data).inv(),
            old(build_data).map.no_stairs(),
        ensures
            final(build_data).inv(),
            final(build_data).map.same_dims(old(build_data).map),
            final(build_data).map.no_stairs(),
            final(build_data).starting_position == old(build_data).starting_position,
            final(build_data).spawn_list == old(build_data).spawn_list,
            final(build_data).rooms == old(build_data).rooms,
            final(build_data).corridors == old(build_data).corridors,
            final(build_data).snapshot_enabled == old(build_data).snapshot_enabled,
            history_extends(old(build_data).history@, final(build_data).history@),
            only_floor_added(old(build_data).map, final(build_data).map),
            walk_at(
                final(build_data).map,
                old(build_data).map.width as int / 2,
                old(build_data).map.height as int / 2,
            ),
    {
        let w = build_data.map.width;
        let h = build_data.map.height;
        let start_x = w / 2;
        let start_y = h / 2;
        proof {
            lemma_idx_in_range(w as int, h as int, w as int - 1, h as int - 1);
            assert(build_data.history@.subrange(0, build_data.history@.len() as int)
                =~= build_data.history@);
        }
        let n: usize = build_data.map.tiles.len();
        let fp: usize = self.settings.floor_percent as usize;
        proof {
            assert(n * fp <= 1677721600) by (nonlinear_arith)
                requires
                    n <= 16777216,
                    fp <= 100,
            ;
        }
        proof {
            assert(w as int * h as int >= 256) by (nonlinear_arith)
                requires
                    w >= 16,
                    h >= 16,
            ;
            assert(n * fp >= 256) by (nonlinear_arith)
                requires
                    n >= 256,
                    fp >= 1,
            ;
        }
        let target: usize = n * fp / 100;
        let mut floor_count: usize = 0;
        let mut diggers: i32 = 0;
        while floor_count < target && diggers < 300
            invariant
                self.inv(),
                build_data.inv(),
                build_data.map.same_dims(old(build_data).map),
                build_data.map.no_stairs(),
                build_data.starting_position == old(build_data).starting_position,
                build_data.spawn_list == old(build_data).spawn_list,
                build_data.rooms == old(build_data).rooms,
                build_data.corridors == old(build_data).corridors,
                build_data.snapshot_enabled == old(build_data).snapshot_enabled,
                history_extends(old(build_data).history@, build_data.history@),
                only_floor_added(old(build_data).map, build_data.map),
                w == build_data.map.width,
                h == build_data.map.height,
                1 <= start_x < w - 1,
                1 <= start_y < h - 1,
                start_x == w / 2,
                start_y == h / 2,
                target >= 2,
                diggers == 0 ==> floor_count == 0,
                diggers >= 1 ==> build_data.map.tile_at(start_x as int, start_y as int)
                    == crate::tile::TileType::Floor,
                0 <= diggers <= 300,
            decreases 300 - diggers,
        {
            let mut x: i32;
            let mut y: i32;
            let use_start = match self.settings.spawn_mode {
                DrunkSpawnMode::StartingPoint => true,
                DrunkSpawnMode::Random => diggers == 0,
            };
            if use_start {
                x = start_x;
                y = start_y;
            } else {
                x = rng_roll_dice(rng, 1, w - 3) + 1;
                y = rng_roll_dice(rng, 1, h - 3) + 1;
            }
            let mut life = self.settings.drunken_lifetime;
            while life > 0
                invariant
                    self.inv(),
                    build_data.inv(),
                    build_data.map.same_dims(old(build_data).map),
                    build_data.map.no_stairs(),
                    build_data.starting_position == old(build_data).starting_position,
                    build_data.spawn_list == old(build_data).spawn_list,
                    build_data.rooms == old(build_data).rooms,
                    build_data.corridors == old(build_data).corridors,
                    build_data.snapshot_enabled == old(build_data).snapshot_enabled,
                    history_extends(old(build_data).history@, build_data.history@),
                    only_floor_added(old(build_data).map, build_data.map),
                    w == build_data.map.width,
                    h == build_data.map.height,
                    1 <= start_x < w - 1,
                    1 <= start_y < h - 1,
                    0 <= x < w,
                    0 <= y < h,
                    0 <= life <= self.settings.drunken_lifetime,
                    diggers == 0 ==> use_start,
                    use_start && life == self.settings.drunken_lifetime ==> x == start_x && y
                        == start_y,
                    (diggers >= 1 || (use_start && life < self.settings.drunken_lifetime))
                        ==> build_data.map.tile_at(start_x as int, start_y as int)
                        == crate::tile::TileType::Floor,
                decreases life,
            {
                let ghost g0 = build_data.map;
                let added = paint_symmetric(
                    &mut build_data.map,
                    self.settings.brush_size,
                    self.settings.symmetry,
                    x,
                    y,
                );
                proof {
                    lemma_floor_added_widen(g0, build_data.map);
                    lemma_floor_added_trans(old(build_data).map, g0, build_data.map);
                    if diggers >= 1 || (use_start && life < self.settings.drunken_lifetime) {
                        lemma_floor_stays(
                            g0,
                            build_data.map,
                            start_x as int,
                            start_y as int,
                        );
                    }
                }
                if added > 0 && floor_count < 16777216 {
                    floor_count = floor_count + (added as usize);
                }
                let stagger = rng_roll_dice(rng, 1, 4);
                if stagger == 1 && x > 2 {
                    x = x - 1;
                } else if stagger == 2 && x < w - 2 {
                    x = x + 1;
                } else if stagger == 3 && y > 2 {
                    y = y - 1;
                } else if stagger == 4 && y < h - 2 {
                    y = y + 1;
                }
                life = life - 1;
            }
            let ghost h1 = build_data.history@;
            build_data.take_snapshot();
            proof {
                assert(build_data.history@.subrange(0, h1.len() as int) =~= h1);
                lemma_history_extends_trans(old(build_data).history@, h1, build_data.history@);
            }
            diggers = diggers + 1;
        }
    }
}

} // verus!
