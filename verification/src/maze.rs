use vstd::prelude::*;
use bracket_random::prelude::RandomNumberGenerator;
use crate::builder_map::{history_extends, lemma_history_extends_trans, BuilderMap};
use crate::grid::lemma_idx_in_range;
use crate::path::{lemma_floor_added_trans, lemma_floor_stays, only_floor_added};
use crate::rng::rng_roll_dice;
use crate::tile::TileType;

verus! {

/// The maze generator: randomized depth-first growth with backtracking
/// over a cell lattice at half the tile resolution, stamped onto the
/// grid as it grows.
pub struct MazeBuilder {
    pub depth: i32,
}

impl MazeBuilder {
    pub fn new(new_depth: i32) -> (r: Box<MazeBuilder>)
        ensures
            r.depth == new_depth,
    {
        Box::new(MazeBuilder { depth: new_depth })
    }

    pub fn build_map(&self, rng: &mut RandomNumberGenerator, build_data: &mut BuilderMap)
        requires
            old(build_data).inv(),
            old(build_data).map.no_stairs(),
        ensures
            final(build_data).inv(),
            final(build_data).map.same_dims(old(build_data).map),
            final(build_data).map.no_stairs(),
            final(build_data).starting_position == old(build_data).starting_position,
            final(build_data).spawn_list == old(build_data).spawn_list,
            final(build_data).rooms == old(build_data).rooms,
            final(build_data).corridors == old(build_data).corridors,
            final(build_data).snapshot_enabled == old(build_data).snapshot_enabled,
            history_extends(old(build_data).history@, final(build_data).history@),
            only_floor_added(old(build_data).map, final(build_data).map),
            final(build_data).map.tile_at(1, 1) == TileType::Floor,
    {
        let w = build_data.map.width;
        let h = build_data.map.height;
        // the cell lattice: cell (cx, cy) sits on tile (2cx + 1, 2cy + 1)
        let cw = (w - 1) / 2;
        let ch = (h - 1) / 2;
        proof {
            assert(2 * ((w - 1) / 2) <= w - 1) by (nonlinear_arith)
                requires
                    16 <= w,
            ;
            assert(2 * ((h - 1) / 2) <= h - 1) by (nonlinear_arith)
                requires
                    16 <= h,
            ;
            assert((w - 1) / 2 >= 7) by (nonlinear_arith)
                requires
                    16 <= w,
            ;
            assert((h - 1) / 2 >= 7) by (nonlinear_arith)
                requires
                    16 <= h,
            ;
            lemma_idx_in_range(cw as int, ch as int, cw as int - 1, ch as int - 1);
            assert(build_data.history@.subrange(0, build_data.history@.len() as int)
                =~= build_data.history@);
        }
        let cells: usize = (cw as usize) * (ch as usize);
        let mut visited: Vec<bool> = Vec::new();
        let mut i: usize = 0;
        while i < cells
            invariant
                i <= cells,
                visited@.len() == i,
            decreases cells - i,
        {
            visited.push(false);
            i = i + 1;
        }
        let mut stack: Vec<(i32, i32)> = Vec::new();
        stack.push((0, 0));
        visited.set(0, true);
        build_data.map.set_tile(1, 1, TileType::Floor);
        proof {
            assert(only_floor_added(old(build_data).map, build_data.map));
        }
        let mut steps: i32 = 0;
        let step_cap: i32 = 20000000;
        while stack.len() > 0 && steps < step_cap
            invariant
                build_data.inv(),
                build_data.map.same_dims(old(build_data).map),
                build_data.map.no_stairs(),
                build_data.starting_position == old(build_data).starting_position,
                build_data.spawn_list == old(build_data).spawn_list,
                build_data.rooms == old(build_data).rooms,
                build_data.corridors == old(build_data).corridors,
                build_data.snapshot_enabled == old(build_data).snapshot_enabled,
                history_extends(old(build_data).history@, build_data.history@),
                only_floor_added(old(build_data).map, build_data.map),
                build_data.map.tile_at(1, 1) == TileType::Floor,
                w == build_data.map.width,
                h == build_data.map.height,
                7 <= cw,
                7 <= ch,
                2 * cw <= w - 1,
                2 * ch <= h - 1,
                visited@.len() == cells,
                cells == cw * ch,
                forall|k: int|
                    0 <= k < stack@.len() ==> {
                        let c = #[trigger] stack@[k];
                        0 <= c.0 < cw && 0 <= c.1 < ch
                    },
                0 <= steps,
            decreases step_cap - steps,
        {
            let top = stack.len() - 1;
            let (cx, cy) = stack[top];
            // gather the unvisited cell neighbours
            let mut neighbours: Vec<(i32, i32)> = Vec::new();
            proof {
                lemma_idx_in_range(cw as int, ch as int, cx as int, cy as int);
            }
            if cx > 0 {
                proof {
                    lemma_idx_in_range(cw as int, ch as int, cx as int - 1, cy as int);
                }
                let ni = (cy as usize) * (cw as usize) + (cx as usize) - 1;
                if !visited[ni] {
                    neighbours.push((cx - 1, cy));
                }
            }
            if cx + 1 < cw {
                proof {
                    lemma_idx_in_range(cw as int, ch as int, cx as int + 1, cy as int);
                }
                let ni = (cy as usize) * (cw as usize) + (cx as usize) + 1;
                if !visited[ni] {
                    neighbours.push((cx + 1, cy));
                }
            }
            if cy > 0 {
                proof {
                    lemma_idx_in_range(cw as int, ch as int, cx as int, cy as int - 1);
                }
                let ni = ((cy as usize) - 1) * (cw as usize) + (cx as usize);
                if !visited[ni] {
                    neighbours.push((cx, cy - 1));
                }
            }
            if cy + 1 < ch {
                proof {
                    lemma_idx_in_range(cw as int, ch as int, cx as int, cy as int + 1);
                }
                let ni = ((cy as usize) + 1) * (cw as usize) + (cx as usize);
                if !visited[ni] {
                    neighbours.push((cx, cy + 1));
                }
            }
            if neighbours.len() > 0 {
                let pick = rng_roll_dice(rng, 1, neighbours.len() as i32) - 1;
                let (nx, ny) = neighbours[pick as usize];
                proof {
                    assert(0 <= nx < cw && 0 <= ny < ch);
                    lemma_idx_in_range(cw as int, ch as int, nx as int, ny as int);
                }
                let ni = (ny as usize) * (cw as usize) + (nx as usize);
                visited.set(ni, true);
                // carve the wall between the two cells and the new cell
                let wall_x = cx + nx + 1;
                let wall_y = cy + ny + 1;
                let ghost gm0 = build_data.map;
                build_data.map.set_tile(wall_x, wall_y, TileType::Floor);
                proof {
                    lemma_floor_added_trans(old(build_data).map, gm0, build_data.map);
                    lemma_floor_stays(gm0, build_data.map, 1, 1);
                }
                let ghost gm1 = build_data.map;
                build_data.map.set_tile(2 * nx + 1, 2 * ny + 1, TileType::Floor);
                proof {
                    lemma_floor_added_trans(old(build_data).map, gm1, build_data.map);
                    lemma_floor_stays(gm1, build_data.map, 1, 1);
                }
                stack.push((nx, ny));
            } else {
                let _ = stack.pop();
            }
            steps = steps + 1;
        }
        let ghost h1 = build_data.history@;
        build_data.take_snapshot();
        proof {
            assert(build_data.history@.subrange(0, h1.len() as int) =~= h1);
            lemma_history_extends_trans(old(build_data).history@, h1, build_data.history@);
        }
    }
}

} // verus!
