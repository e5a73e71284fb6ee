use vstd::prelude::*;
use bracket_random::prelude::RandomNumberGenerator;
use crate::builder_map::{centers_walk, rooms_connected, rooms_wf};
use crate::geometry::{lemma_center_in_interior, Rect};
use crate::grid::Grid;
use crate::rng::rng_range;
use crate::path::{
    lemma_floor_added_trans, lemma_horiz_reach, lemma_reach_trans, lemma_vert_reach,
    only_floor_added, reachable, walk_at,
};
use crate::tile::TileType;

verus! {

/// Carves the interior of a room as floor, keeping the one-tile wall
/// margin on the rectangle's low edges.  Tiles outside the interior are
/// untouched, so carving never removes floor that is already there.
pub fn apply_room_to_map(g: &mut Grid, room: &Rect)
    requires
        old(g).inv(),
        0 <= room.x1,
        room.x1 + 2 <= room.x2,
        room.x2 < old(g).width,
        0 <= room.y1,
        room.y1 + 2 <= room.y2,
        room.y2 < old(g).height,
    ensures
        final(g).inv(),
        final(g).same_dims(*old(g)),
        final(g).revealed_tiles@ == old(g).revealed_tiles@,
        forall|x: int, y: int|
            room.x1 < x <= room.x2 && room.y1 < y <= room.y2 ==> #[trigger] final(g).tile_at(x, y)
                == TileType::Floor,
        forall|x: int, y: int|
            0 <= x < final(g).width && 0 <= y < final(g).height && !(room.x1 < x <= room.x2
                && room.y1 < y <= room.y2) ==> #[trigger] final(g).tile_at(x, y) == old(
                g,
            ).tile_at(x, y),
        only_floor_added(*old(g), *final(g)),
{
    let mut y = room.y1 + 1;
    while y <= room.y2
        invariant
            g.inv(),
            g.same_dims(*old(g)),
            g.revealed_tiles@ == old(g).revealed_tiles@,
            room.y1 < y <= room.y2 + 1,
            0 <= room.x1,
            room.x1 + 2 <= room.x2,
            room.x2 < g.width,
            0 <= room.y1,
            room.y1 + 2 <= room.y2,
            room.y2 < g.height,
            forall|a: int, b: int|
                room.x1 < a <= room.x2 && room.y1 < b < y ==> #[trigger] g.tile_at(a, b)
                    == TileType::Floor,
            forall|a: int, b: int|
                0 <= a < g.width && 0 <= b < g.height && !(room.x1 < a <= room.x2 && room.y1 < b
                    < y) ==> #[trigger] g.tile_at(a, b) == old(g).tile_at(a, b),
        decreases room.y2 + 1 - y,
    {
        let mut x = room.x1 + 1;
        while x <= room.x2
            invariant
                g.inv(),
                g.same_dims(*old(g)),
                g.revealed_tiles@ == old(g).revealed_tiles@,
                room.y1 < y <= room.y2,
                room.x1 < x <= room.x2 + 1,
                0 <= room.x1,
                room.x1 + 2 <= room.x2,
                room.x2 < g.width,
                0 <= room.y1,
                room.y1 + 2 <= room.y2,
                room.y2 < g.height,
                forall|a: int, b: int|
                    room.x1 < a <= room.x2 && room.y1 < b < y ==> #[trigger] g.tile_at(a, b)
                        == TileType::Floor,
                forall|a: int|
                    room.x1 < a < x ==> #[trigger] g.tile_at(a, y as int) == TileType::Floor,
                forall|a: int, b: int|
                    0 <= a < g.width && 0 <= b < g.height && !(room.x1 < a <= room.x2 && room.y1
                        < b < y) && !(room.x1 < a < x && b == y) ==> #[trigger] g.tile_at(a, b)
                        == old(g).tile_at(a, b),
            decreases room.x2 + 1 - x,
        {
            g.set_tile(x, y, TileType::Floor);
            x = x + 1;
        }
        y = y + 1;
    }
    proof {
        assert forall|a: int, b: int|
            0 <= a < g.width && 0 <= b < g.height && #[trigger] g.tile_at(a, b) != old(g).tile_at(
                a,
                b,
            ) implies g.tile_at(a, b) == TileType::Floor by {
            if !(room.x1 < a <= room.x2 && room.y1 < b <= room.y2) {
                assert(g.tile_at(a, b) == old(g).tile_at(a, b));
            }
        }
    }
}

/// Carves a straight horizontal tunnel of floor covering every column
/// between x1 and x2 (both inclusive, in either order) on row y.
pub fn apply_horizontal_tunnel(g: &mut Grid, x1: i32, x2: i32, y: i32) -> (corridor: Vec<usize>)
    requires
        old(g).inv(),
        0 <= x1 < old(g).width,
        0 <= x2 < old(g).width,
        0 <= y < old(g).height,
    ensures
        final(g).inv(),
        final(g).same_dims(*old(g)),
        final(g).revealed_tiles@ == old(g).revealed_tiles@,
        forall|x: int|
            min_i(x1 as int, x2 as int) <= x <= max_i(x1 as int, x2 as int)
                ==> #[trigger] final(g).tile_at(x, y as int) == TileType::Floor,
        forall|x: int, yy: int|
            0 <= x < final(g).width && 0 <= yy < final(g).height && !(min_i(x1 as int, x2 as int)
                <= x <= max_i(x1 as int, x2 as int) && yy == y) ==> #[trigger] final(g).tile_at(
                x,
                yy,
            ) == old(g).tile_at(x, yy),
        only_floor_added(*old(g), *final(g)),
{
    let lo = if x1 < x2 {
        x1
    } else {
        x2
    };
    let hi = if x1 < x2 {
        x2
    } else {
        x1
    };
    let mut corridor: Vec<usize> = Vec::new();
    let mut x = lo;
    while x <= hi
        invariant
            g.inv(),
            g.same_dims(*old(g)),
            g.revealed_tiles@ == old(g).revealed_tiles@,
            lo <= x <= hi + 1,
            0 <= lo,
            hi < g.width,
            0 <= y < g.height,
            lo == min_i(x1 as int, x2 as int),
            hi == max_i(x1 as int, x2 as int),
            forall|a: int|
                lo <= a < x ==> #[trigger] g.tile_at(a, y as int) == TileType::Floor,
            forall|a: int, b: int|
                0 <= a < g.width && 0 <= b < g.height && !(lo <= a < x && b == y)
                    ==> #[trigger] g.tile_at(a, b) == old(g).tile_at(a, b),
        decreases hi + 1 - x,
    {
        let idx = g.xy_idx(x, y);
        corridor.push(idx);
        g.set_tile(x, y, TileType::Floor);
        x = x + 1;
    }
    proof {
        assert forall|a: int, b: int|
            0 <= a < g.width && 0 <= b < g.height && #[trigger] g.tile_at(a, b) != old(g).tile_at(
                a,
                b,
            ) implies g.tile_at(a, b) == TileType::Floor by {
            if !(min_i(x1 as int, x2 as int) <= a <= max_i(x1 as int, x2 as int) && b == y) {
                assert(g.tile_at(a, b) == old(g).tile_at(a, b));
            }
        }
    }
    corridor
}

/// Carves a straight vertical tunnel of floor covering every row between
/// y1 and y2 (both inclusive, in either order) on column x.
pub fn apply_vertical_tunnel(g: &mut Grid, y1: i32, y2: i32, x: i32) -> (corridor: Vec<usize>)
    requires
        old(g).inv(),
        0 <= y1 < old(g).height,
        0 <= y2 < old(g).height,
        0 <= x < old(g).width,
    ensures
        final(g).inv(),
        final(g).same_dims(*old(g)),
        final(g).revealed_tiles@ == old(g).revealed_tiles@,
        forall|y: int|
            min_i(y1 as int, y2 as int) <= y <= max_i(y1 as int, y2 as int)
                ==> #[trigger] final(g).tile_at(x as int, y) == TileType::Floor,
        forall|xx: int, y: int|
            0 <= xx < final(g).width && 0 <= y < final(g).height && !(min_i(y1 as int, y2 as int)
                <= y <= max_i(y1 as int, y2 as int) && xx == x) ==> #[trigger] final(g).tile_at(
                xx,
                y,
            ) == old(g).tile_at(xx, y),
        only_floor_added(*old(g), *final(g)),
{
    let lo = if y1 < y2 {
        y1
    } else {
        y2
    };
    let hi = if y1 < y2 {
        y2
    } else {
        y1
    };
    let mut corridor: Vec<usize> = Vec::new();
    let mut y = lo;
    while y <= hi
        invariant
            g.inv(),
            g.same_dims(*old(g)),
            g.revealed_tiles@ == old(g).revealed_tiles@,
            lo <= y <= hi + 1,
            0 <= lo,
            hi < g.height,
            0 <= x < g.width,
            lo == min_i(y1 as int, y2 as int),
            hi == max_i(y1 as int, y2 as int),
            forall|b: int|
                lo <= b < y ==> #[trigger] g.tile_at(x as int, b) == TileType::Floor,
            forall|a: int, b: int|
                0 <= a < g.width && 0 <= b < g.height && !(lo <= b < y && a == x)
                    ==> #[trigger] g.tile_at(a, b) == old(g).tile_at(a, b),
        decreases hi + 1 - y,
    {
        let idx = g.xy_idx(x, y);
        corridor.push(idx);
        g.set_tile(x, y, TileType::Floor);
        y = y + 1;
    }
    proof {
        assert forall|a: int, b: int|
            0 <= a < g.width && 0 <= b < g.height && #[trigger] g.tile_at(a, b) != old(g).tile_at(
                a,
                b,
            ) implies g.tile_at(a, b) == TileType::Floor by {
            if !(min_i(y1 as int, y2 as int) <= b <= max_i(y1 as int, y2 as int) && a == x) {
                assert(g.tile_at(a, b) == old(g).tile_at(a, b));
            }
        }
    }
    corridor
}

/// Mirror modes that bias carving toward bilateral shapes.
#[derive(Clone, Copy, PartialEq, Eq, Structural, Debug)]
pub enum Symmetry {
    Off,
    Horizontal,
    Vertical,
    Both,
}

/// Carves a square brush of floor whose top-left corner is (x, y),
/// clipped to the grid's interior.  Returns how many tiles it turned
/// into floor.
pub fn paint(g: &mut Grid, brush_size: i32, x: i32, y: i32) -> (added: i32)
    requires
        old(g).inv(),
        0 <= x < old(g).width,
        0 <= y < old(g).height,
        1 <= brush_size <= 3,
    ensures
        final(g).inv(),
        final(g).same_dims(*old(g)),
        final(g).revealed_tiles@ == old(g).revealed_tiles@,
        only_floor_added(*old(g), *final(g)),
        (1 <= x && x < old(g).width - 1 && 1 <= y && y < old(g).height - 1) ==> final(g).tile_at(
            x as int,
            y as int,
        ) == TileType::Floor,
        0 <= added <= 9,
{
    let mut added: i32 = 0;
    let mut dy: i32 = 0;
    proof {
        assert(only_floor_added(*old(g), *g));
    }
    while dy < brush_size
        invariant
            g.inv(),
            g.same_dims(*old(g)),
            g.revealed_tiles@ == old(g).revealed_tiles@,
            only_floor_added(*old(g), *g),
            0 <= x < g.width,
            0 <= y < g.height,
            1 <= brush_size <= 3,
            0 <= dy <= brush_size,
            (dy >= 1 && 1 <= x && x < g.width - 1 && 1 <= y && y < g.height - 1) ==> g.tile_at(
                x as int,
                y as int,
            ) == TileType::Floor,
            0 <= added <= dy * 3,
        decreases brush_size - dy,
    {
        let mut dx: i32 = 0;
        while dx < brush_size
            invariant
                g.inv(),
                g.same_dims(*old(g)),
                g.revealed_tiles@ == old(g).revealed_tiles@,
                only_floor_added(*old(g), *g),
                0 <= x < g.width,
                0 <= y < g.height,
                1 <= brush_size <= 3,
                0 <= dy < brush_size,
                0 <= dx <= brush_size,
                ((dy >= 1 || dx >= 1) && 1 <= x && x < g.width - 1 && 1 <= y && y < g.height
                    - 1) ==> g.tile_at(x as int, y as int) == TileType::Floor,
                0 <= added <= dy * 3 + dx,
            decreases brush_size - dx,
        {
            let tx = x + dx;
            let ty = y + dy;
            if 1 <= tx && tx < g.width - 1 && 1 <= ty && ty < g.height - 1 {
                let ghost g0 = *g;
                if !crate::tile::tile_walkable(g.get_tile(tx, ty)) {
                    added = added + 1;
                }
                g.set_tile(tx, ty, TileType::Floor);
                proof {
                    lemma_floor_added_trans(*old(g), g0, *g);
                }
            }
            dx = dx + 1;
        }
        dy = dy + 1;
    }
    added
}

/// Paints with the chosen symmetry: each stroke is mirrored across the
/// grid's vertical axis, horizontal axis, or both.
pub fn paint_symmetric(g: &mut Grid, brush_size: i32, sym: Symmetry, x: i32, y: i32) -> (added:
    i32)
    requires
        old(g).inv(),
        0 <= x < old(g).width,
        0 <= y < old(g).height,
        1 <= brush_size <= 3,
    ensures
        final(g).inv(),
        final(g).same_dims(*old(g)),
        final(g).revealed_tiles@ == old(g).revealed_tiles@,
        only_floor_added(*old(g), *final(g)),
        (1 <= x && x < old(g).width - 1 && 1 <= y && y < old(g).height - 1) ==> final(g).tile_at(
            x as int,
            y as int,
        ) == TileType::Floor,
        0 <= added <= 36,
{
    let mx = g.width - 1 - x;
    let my = g.height - 1 - y;
    let mut added: i32;
    match sym {
        Symmetry::Off => {
            added = paint(g, brush_size, x, y);
        },
        Symmetry::Horizontal => {
            added = paint(g, brush_size, x, y);
            let ghost g1 = *g;
            added = added + paint(g, brush_size, mx, y);
            proof {
                lemma_floor_added_trans(*old(g), g1, *g);
                if 1 <= x && x < g.width - 1 && 1 <= y && y < g.height - 1 {
                    crate::path::lemma_floor_stays(g1, *g, x as int, y as int);
                }
            }
        },
        Symmetry::Vertical => {
            added = paint(g, brush_size, x, y);
            let ghost g1 = *g;
            added = added + paint(g, brush_size, x, my);
            proof {
                lemma_floor_added_trans(*old(g), g1, *g);
                if 1 <= x && x < g.width - 1 && 1 <= y && y < g.height - 1 {
                    crate::path::lemma_floor_stays(g1, *g, x as int, y as int);
                }
            }
        },
        Symmetry::Both => {
            added = paint(g, brush_size, x, y);
            let ghost g1 = *g;
            added = added + paint(g, brush_size, mx, y);
            proof {
                lemma_floor_added_trans(*old(g), g1, *g);
                if 1 <= x && x < g.width - 1 && 1 <= y && y < g.height - 1 {
                    crate::path::lemma_floor_stays(g1, *g, x as int, y as int);
                }
            }
            let ghost g2 = *g;
            added = added + paint(g, brush_size, x, my);
            proof {
                lemma_floor_added_trans(*old(g), g2, *g);
                if 1 <= x && x < g.width - 1 && 1 <= y && y < g.height - 1 {
                    crate::path::lemma_floor_stays(g2, *g, x as int, y as int);
                }
            }
            let ghost g3 = *g;
            added = added + paint(g, brush_size, mx, my);
            proof {
                lemma_floor_added_trans(*old(g), g3, *g);
                if 1 <= x && x < g.width - 1 && 1 <= y && y < g.height - 1 {
                    crate::path::lemma_floor_stays(g3, *g, x as int, y as int);
                }
            }
        },
    }
    added
}

/// Joins the recorded rooms into one chain: an L-shaped corridor from
/// each room's center to the next room's center, so that the first
/// room's center reaches the last room's center.
pub fn connect_rooms_sequentially(g: &mut Grid, rng: &mut RandomNumberGenerator, rooms: &Vec<
    Rect,
>)
    requires
        old(g).inv(),
        rooms_wf(rooms@, old(g).width as int, old(g).height as int),
        centers_walk(*old(g), rooms@),
    ensures
        final(g).inv(),
        final(g).same_dims(*old(g)),
        final(g).revealed_tiles@ == old(g).revealed_tiles@,
        only_floor_added(*old(g), *final(g)),
        centers_walk(*final(g), rooms@),
        rooms_connected(*final(g), rooms@),
{
    proof {
        assert(only_floor_added(*old(g), *g));
        if rooms@.len() >= 1 {
            let c0 = rooms@[0].spec_center();
            lemma_center_in_interior(rooms@[0]);
            crate::path::lemma_reach_self(*g, c0.0, c0.1);
        }
    }
    let mut i: usize = 1;
    while i < rooms.len()
        invariant
            g.inv(),
            g.same_dims(*old(g)),
            g.revealed_tiles@ == old(g).revealed_tiles@,
            only_floor_added(*old(g), *g),
            rooms_wf(rooms@, g.width as int, g.height as int),
            centers_walk(*g, rooms@),
            1 <= i,
            i <= rooms@.len() || rooms@.len() < 1,
            rooms@.len() >= 1 ==> reachable(
                *g,
                rooms@[0].spec_center().0,
                rooms@[0].spec_center().1,
                rooms@[min_i(i as int, rooms@.len() as int) - 1].spec_center().0,
                rooms@[min_i(i as int, rooms@.len() as int) - 1].spec_center().1,
            ),
        decreases rooms@.len() - i,
    {
        let last = i - 1;
        let pc = rooms[last].center();
        let nc = rooms[i].center();
        let coin = rng_range(rng, 0, 2);
        let ghost g0 = *g;
        let _corridor = apply_l_tunnel(g, pc.x, pc.y, nc.x, nc.y, coin == 1);
        proof {
            lemma_floor_added_trans(*old(g), g0, *g);
            crate::path::lemma_floor_added_widen(g0, *g);
            assert forall|j: int|
                0 <= j < rooms@.len() implies crate::path::walk_at(
                *g,
                (#[trigger] rooms@[j]).spec_center().0,
                rooms@[j].spec_center().1,
            ) by {
                assert(crate::path::walk_at(
                    g0,
                    rooms@[j].spec_center().0,
                    rooms@[j].spec_center().1,
                ));
            }
            let c0 = rooms@[0].spec_center();
            let cp = rooms@[i as int - 1].spec_center();
            let cn = rooms@[i as int].spec_center();
            crate::path::lemma_reach_widen(g0, *g, c0.0, c0.1, cp.0, cp.1);
            lemma_reach_trans(*g, c0.0, c0.1, cp.0, cp.1, cn.0, cn.1);
        }
        i = i + 1;
    }
}

pub open spec fn min_i(a: int, b: int) -> int {
    if a < b {
        a
    } else {
        b
    }
}

pub open spec fn max_i(a: int, b: int) -> int {
    if a < b {
        b
    } else {
        a
    }
}

/// Carves an L-shaped corridor between two points: one horizontal leg
/// and one vertical leg, in the order the coin flip chose.  Afterwards
/// the two points are walkable and reach each other, every tile that was
/// walkable before is walkable still, and no tile gained a staircase.
pub fn apply_l_tunnel(g: &mut Grid, px: i32, py: i32, nx: i32, ny: i32, horizontal_first: bool) -> (
    corridor: Vec<usize>)
    requires
        old(g).inv(),
        0 <= px < old(g).width,
        0 <= nx < old(g).width,
        0 <= py < old(g).height,
        0 <= ny < old(g).height,
    ensures
        final(g).inv(),
        final(g).same_dims(*old(g)),
        final(g).revealed_tiles@ == old(g).revealed_tiles@,
        only_floor_added(*old(g), *final(g)),
        walk_at(*final(g), px as int, py as int),
        walk_at(*final(g), nx as int, ny as int),
        reachable(*final(g), px as int, py as int, nx as int, ny as int),
        reachable(*final(g), nx as int, ny as int, px as int, py as int),
{
    let mut corridor: Vec<usize>;
    if horizontal_first {
        corridor = apply_horizontal_tunnel(g, px, nx, py);
        let ghost mid = *g;
        let mut second = apply_vertical_tunnel(g, py, ny, nx);
        corridor.append(&mut second);
        proof {
            lemma_floor_added_trans(*old(g), mid, *g);
            assert forall|x: int|
                min_i(px as int, nx as int) <= x <= max_i(px as int, nx as int) implies walk_at(
                *g,
                x,
                py as int,
            ) by {
                if x == nx {
                    assert(g.tile_at(x, py as int) == TileType::Floor);
                } else {
                    assert(g.tile_at(x, py as int) == mid.tile_at(x, py as int));
                }
            }
            assert forall|y: int|
                min_i(py as int, ny as int) <= y <= max_i(py as int, ny as int) implies walk_at(
                *g,
                nx as int,
                y,
            ) by {
                assert(g.tile_at(nx as int, y) == TileType::Floor);
            }
            lemma_horiz_reach(*g, py as int, min_i(px as int, nx as int), max_i(px as int, nx as int));
            lemma_vert_reach(*g, nx as int, min_i(py as int, ny as int), max_i(py as int, ny as int));
            lemma_reach_trans(
                *g,
                px as int,
                py as int,
                nx as int,
                py as int,
                nx as int,
                ny as int,
            );
            lemma_reach_trans(
                *g,
                nx as int,
                ny as int,
                nx as int,
                py as int,
                px as int,
                py as int,
            );
        }
    } else {
        corridor = apply_vertical_tunnel(g, py, ny, px);
        let ghost mid = *g;
        let mut second = apply_horizontal_tunnel(g, px, nx, ny);
        corridor.append(&mut second);
        proof {
            lemma_floor_added_trans(*old(g), mid, *g);
            assert forall|y: int|
                min_i(py as int, ny as int) <= y <= max_i(py as int, ny as int) implies walk_at(
                *g,
                px as int,
                y,
            ) by {
                if y == ny {
                    assert(g.tile_at(px as int, y) == TileType::Floor);
                } else {
                    assert(g.tile_at(px as int, y) == mid.tile_at(px as int, y));
                }
            }
            assert forall|x: int|
                min_i(px as int, nx as int) <= x <= max_i(px as int, nx as int) implies walk_at(
                *g,
                x,
                ny as int,
            ) by {
                assert(g.tile_at(x, ny as int) == TileType::Floor);
            }
            lemma_vert_reach(*g, px as int, min_i(py as int, ny as int), max_i(py as int, ny as int));
            lemma_horiz_reach(*g, ny as int, min_i(px as int, nx as int), max_i(px as int, nx as int));
            lemma_reach_trans(
                *g,
                px as int,
                py as int,
                px as int,
                ny as int,
                nx as int,
                ny as int,
            );
            lemma_reach_trans(
                *g,
                nx as int,
                ny as int,
                px as int,
                ny as int,
                px as int,
                py as int,
            );
        }
    }
    corridor
}

} // verus!
