use vstd::prelude::*;
use crate::common::apply_l_tunnel;
use crate::geometry::Position;
use crate::grid::{lemma_idx_in_range, Grid};
use crate::path::{
    cull_unreachable, flood_fill, lemma_floor_added_trans, lemma_floor_added_widen,
    lemma_reach_widen, mark_at, only_floor_added, reachable, walk_at,
};
use crate::tile::{tile_walkable, TileType};

verus! {

/// The Manhattan distance between two in-bounds coordinates.
fn manhattan(ax: i32, ay: i32, bx: i32, by: i32) -> (d: i32)
    requires
        0 <= ax <= 4096,
        0 <= ay <= 4096,
        0 <= bx <= 4096,
        0 <= by <= 4096,
    ensures
        0 <= d <= 16384,
{
    let dx = if ax < bx {
        bx - ax
    } else {
        ax - bx
    };
    let dy = if ay < by {
        by - ay
    } else {
        ay - by
    };
    dx + dy
}

/// Scans for the walkable tile nearest the grid's center; the chosen
/// seed tile for flood fill and the player start on organic maps.
pub fn find_start(g: &Grid) -> (r: Option<Position>)
    requires
        g.inv(),
    ensures
        r matches Some(p) ==> walk_at(*g, p.x as int, p.y as int),
        r is None ==> forall|x: int, y: int|
            0 <= x < g.width && 0 <= y < g.height ==> !crate::tile::spec_walkable(
                #[trigger] g.tile_at(x, y),
            ),
{
    let cx = g.width / 2;
    let cy = g.height / 2;
    let mut best: Option<Position> = None;
    let mut best_dist: i32 = i32::MAX;
    let mut y: i32 = 0;
    while y < g.height
        invariant
            g.inv(),
            0 <= y <= g.height,
            0 <= cx <= 4096,
            0 <= cy <= 4096,
            best matches Some(p) ==> walk_at(*g, p.x as int, p.y as int),
            best is None ==> forall|a: int, b: int|
                0 <= a < g.width && 0 <= b < g.height && b < y ==> !crate::tile::spec_walkable(
                    #[trigger] g.tile_at(a, b),
                ),
        decreases g.height - y,
    {
        let mut x: i32 = 0;
        while x < g.width
            invariant
                g.inv(),
                0 <= y < g.height,
                0 <= x <= g.width,
                0 <= cx <= 4096,
                0 <= cy <= 4096,
                best matches Some(p) ==> walk_at(*g, p.x as int, p.y as int),
                best is None ==> forall|a: int, b: int|
                    0 <= a < g.width && 0 <= b < g.height && (b < y || (b == y && a < x))
                        ==> !crate::tile::spec_walkable(#[trigger] g.tile_at(a, b)),
            decreases g.width - x,
        {
            if tile_walkable(g.get_tile(x, y)) {
                let d = manhattan(x, y, cx, cy);
                if best.is_none() || d < best_dist {
                    best = Some(Position { x, y });
                    best_dist = d;
                }
            }
            x = x + 1;
        }
        y = y + 1;
    }
    best
}

/// Scans for the marked tile farthest from the start, other than the
/// start itself: where the down staircase goes on organic maps.
fn find_exit(g: &Grid, marked: &Vec<bool>, sx: i32, sy: i32) -> (r: Option<Position>)
    requires
        g.inv(),
        marked@.len() == g.tiles@.len(),
        0 <= sx < g.width,
        0 <= sy < g.height,
    ensures
        r matches Some(p) ==> {
            &&& 0 <= p.x < g.width
            &&& 0 <= p.y < g.height
            &&& mark_at(marked@, g.width as int, p.x as int, p.y as int)
            &&& (p.x != sx || p.y != sy)
        },
        r is None ==> forall|x: int, y: int|
            0 <= x < g.width && 0 <= y < g.height && #[trigger] mark_at(
                marked@,
                g.width as int,
                x,
                y,
            ) ==> x == sx && y == sy,
{
    let mut best: Option<Position> = None;
    let mut best_dist: i32 = -1;
    let mut y: i32 = 0;
    while y < g.height
        invariant
            g.inv(),
            marked@.len() == g.tiles@.len(),
            0 <= sx < g.width,
            0 <= sy < g.height,
            0 <= y <= g.height,
            best matches Some(p) ==> {
                &&& 0 <= p.x < g.width
                &&& 0 <= p.y < g.height
                &&& mark_at(marked@, g.width as int, p.x as int, p.y as int)
                &&& (p.x != sx || p.y != sy)
            },
            best is None ==> forall|a: int, b: int|
                0 <= a < g.width && 0 <= b < g.height && b < y && #[trigger] mark_at(
                    marked@,
                    g.width as int,
                    a,
                    b,
                ) ==> a == sx && b == sy,
        decreases g.height - y,
    {
        let mut x: i32 = 0;
        while x < g.width
            invariant
                g.inv(),
                marked@.len() == g.tiles@.len(),
                0 <= sx < g.width,
                0 <= sy < g.height,
                0 <= y < g.height,
                0 <= x <= g.width,
                best matches Some(p) ==> {
                    &&& 0 <= p.x < g.width
                    &&& 0 <= p.y < g.height
                    &&& mark_at(marked@, g.width as int, p.x as int, p.y as int)
                    &&& (p.x != sx || p.y != sy)
                },
                best is None ==> forall|a: int, b: int|
                    0 <= a < g.width && 0 <= b < g.height && (b < y || (b == y && a < x))
                        && #[trigger] mark_at(marked@, g.width as int, a, b) ==> a == sx && b
                        == sy,
            decreases g.width - x,
        {
            if (x != sx || y != sy) {
                let idx = g.xy_idx(x, y);
                if marked[idx] {
                    let d = manhattan(x, y, sx, sy);
                    if best.is_none() || d > best_dist {
                        best = Some(Position { x, y });
                        best_dist = d;
                    }
                }
            }
            x = x + 1;
        }
        y = y + 1;
    }
    best
}

/// Scans for the marked tile nearest to a target coordinate: the anchor
/// that a detached floor region is tunnelled to.
fn find_closest_marked(g: &Grid, marked: &Vec<bool>, tx: i32, ty: i32) -> (r: Option<Position>)
    requires
        g.inv(),
        marked@.len() == g.tiles@.len(),
        0 <= tx < g.width,
        0 <= ty < g.height,
    ensures
        r matches Some(p) ==> 0 <= p.x < g.width && 0 <= p.y < g.height,
{
    let mut best: Option<Position> = None;
    let mut best_dist: i32 = i32::MAX;
    let mut y: i32 = 0;
    while y < g.height
        invariant
            g.inv(),
            marked@.len() == g.tiles@.len(),
            0 <= tx < g.width,
            0 <= ty < g.height,
            0 <= y <= g.height,
            best matches Some(p) ==> 0 <= p.x < g.width && 0 <= p.y < g.height,
        decreases g.height - y,
    {
        let mut x: i32 = 0;
        while x < g.width
            invariant
                g.inv(),
                marked@.len() == g.tiles@.len(),
                0 <= tx < g.width,
                0 <= ty < g.height,
                0 <= y < g.height,
                0 <= x <= g.width,
                best matches Some(p) ==> 0 <= p.x < g.width && 0 <= p.y < g.height,
            decreases g.width - x,
        {
            let idx = g.xy_idx(x, y);
            if marked[idx] {
                let d = manhattan(x, y, tx, ty);
                if best.is_none() || d < best_dist {
                    best = Some(Position { x, y });
                    best_dist = d;
                }
            }
            x = x + 1;
        }
        y = y + 1;
    }
    best
}

/// Scans for a walkable tile the flood fill did not mark: evidence of a
/// floor region detached from the start.
fn find_unmarked_floor(g: &Grid, marked: &Vec<bool>) -> (r: Option<Position>)
    requires
        g.inv(),
        marked@.len() == g.tiles@.len(),
    ensures
        r matches Some(p) ==> 0 <= p.x < g.width && 0 <= p.y < g.height,
{
    let mut y: i32 = 0;
    while y < g.height
        invariant
            g.inv(),
            marked@.len() == g.tiles@.len(),
            0 <= y <= g.height,
        decreases g.height - y,
    {
        let mut x: i32 = 0;
        while x < g.width
            invariant
                g.inv(),
                marked@.len() == g.tiles@.len(),
                0 <= y < g.height,
                0 <= x <= g.width,
            decreases g.width - x,
        {
            let idx = g.xy_idx(x, y);
            if tile_walkable(g.get_tile(x, y)) && !marked[idx] {
                return Some(Position { x, y });
            }
            x = x + 1;
        }
        y = y + 1;
    }
    None
}

/// Connectivity repair: while some floor region is detached from the
/// start, carve an L-shaped tunnel from it to the nearest reachable
/// tile.  Bounded; carving only ever adds floor.
pub fn connect_regions(g: &mut Grid, sx: i32, sy: i32)
    requires
        old(g).inv(),
        walk_at(*old(g), sx as int, sy as int),
    ensures
        final(g).inv(),
        final(g).same_dims(*old(g)),
        final(g).revealed_tiles@ == old(g).revealed_tiles@,
        only_floor_added(*old(g), *final(g)),
        walk_at(*final(g), sx as int, sy as int),
{
    let mut round: i32 = 0;
    let mut done = false;
    proof {
        assert(only_floor_added(*old(g), *g));
    }
    while !done && round < 64
        invariant
            g.inv(),
            g.same_dims(*old(g)),
            g.revealed_tiles@ == old(g).revealed_tiles@,
            only_floor_added(*old(g), *g),
            walk_at(*g, sx as int, sy as int),
            0 <= round <= 64,
        decreases 64 - round,
    {
        let marked = flood_fill(g, sx, sy);
        match find_unmarked_floor(g, &marked) {
            None => {
                done = true;
            },
            Some(u) => {
                match find_closest_marked(g, &marked, u.x, u.y) {
                    None => {
                        done = true;
                    },
                    Some(m) => {
                        let ghost g0 = *g;
                        let _corridor = apply_l_tunnel(g, u.x, u.y, m.x, m.y, true);
                        proof {
                            lemma_floor_added_trans(*old(g), g0, *g);
                            lemma_floor_added_widen(g0, *g);
                        }
                    },
                }
            },
        }
        round = round + 1;
    }
}

/// Finishes an organically carved map: picks a start tile near the
/// center, repairs connectivity, culls floor the start cannot reach, and
/// places the down staircase on the reachable tile farthest from the
/// start.  Returns the start and stairs positions, or nothing when the
/// map is too degenerate to finish (the caller then retries or falls
/// back).
pub fn finalize_open_map(g: &mut Grid) -> (r: Option<(Position, Position)>)
    requires
        old(g).inv(),
        old(g).no_stairs(),
    ensures
        final(g).inv(),
        final(g).same_dims(*old(g)),
        r matches Some(pair) ==> {
            &&& walk_at(*final(g), pair.0.x as int, pair.0.y as int)
            &&& final(g).one_stairs(pair.1.x as int, pair.1.y as int)
            &&& reachable(
                *final(g),
                pair.0.x as int,
                pair.0.y as int,
                pair.1.x as int,
                pair.1.y as int,
            )
            &&& (pair.0.x != pair.1.x || pair.0.y != pair.1.y)
        },
        r is None ==> {
            ||| forall|x: int, y: int|
                0 <= x < old(g).width && 0 <= y < old(g).height ==> !crate::tile::spec_walkable(
                    #[trigger] old(g).tile_at(x, y),
                )
            ||| exists|sx: int, sy: int|
                #[trigger] walk_at(*final(g), sx, sy) && (forall|x: int, y: int|
                    #[trigger] reachable(*final(g), sx, sy, x, y) ==> x == sx && y == sy)
        },
{
    let start = match find_start(g) {
        Some(p) => p,
        None => {
            return None;
        },
    };
    connect_regions(g, start.x, start.y);
    proof {
        lemma_floor_added_widen(*old(g), *g);
    }
    let marked = flood_fill(g, start.x, start.y);
    let ghost g_pre_cull = *g;
    cull_unreachable(g, &marked);
    proof {
        let w = g.width as int;
        let h = g.height as int;
        lemma_idx_in_range(w, h, start.x as int, start.y as int);
        assert(g.tiles@[(start.y as int) * w + (start.x as int)] == g_pre_cull.tiles@[(
        start.y as int) * w + (start.x as int)]);
        assert(walk_at(*g, start.x as int, start.y as int));
        assert forall|x: int, y: int|
            0 <= x < g.width && 0 <= y < g.height implies #[trigger] g.tile_at(x, y)
            != TileType::DownStairs by {
            lemma_idx_in_range(w, h, x, y);
            if marked@[y * w + x] {
                assert(g.tiles@[y * w + x] == g_pre_cull.tiles@[y * w + x]);
                assert(g_pre_cull.tile_at(x, y) != TileType::DownStairs);
            } else {
                assert(g.tiles@[y * w + x] == TileType::Wall);
            }
        }
    }
    let marked2 = flood_fill(g, start.x, start.y);
    let exit = match find_exit(g, &marked2, start.x, start.y) {
        Some(p) => p,
        None => {
            proof {
                // every tile the start can still reach was marked by the
                // second flood fill, and no marked tile besides the start
                // exists: its repaired region holds no second tile
                assert forall|x: int, y: int|
                    #[trigger] reachable(*g, start.x as int, start.y as int, x, y) implies x
                    == start.x as int && y == start.y as int by {
                    assert(mark_at(marked2@, g.width as int, x, y));
                }
                assert(walk_at(*g, start.x as int, start.y as int) && (forall|x: int, y: int|
                    #[trigger] reachable(*g, start.x as int, start.y as int, x, y) ==> x
                        == start.x as int && y == start.y as int));
            }
            return None;
        },
    };
    let ghost g_culled = *g;
    g.set_tile(exit.x, exit.y, TileType::DownStairs);
    proof {
        assert forall|x: int, y: int| #[trigger] walk_at(g_culled, x, y) implies walk_at(
            *g,
            x,
            y,
        ) by {
            if x == exit.x as int && y == exit.y as int {
                assert(g.tile_at(x, y) == TileType::DownStairs);
            } else {
                assert(g.tile_at(x, y) == g_culled.tile_at(x, y));
            }
        }
        lemma_reach_widen(
            g_culled,
            *g,
            start.x as int,
            start.y as int,
            exit.x as int,
            exit.y as int,
        );
    }
    Some((start, exit))
}

} // verus!
