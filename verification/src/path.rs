use vstd::prelude::*;
use crate::tile::{spec_walkable, tile_walkable, TileType};
use crate::grid::{lemma_idx_in_range, lemma_idx_inj, Grid};

verus! {

/// The coordinate (x, y) is inside the grid and its tile can be walked on.
pub open spec fn walk_at(g: Grid, x: int, y: int) -> bool {
    0 <= x < g.width && 0 <= y < g.height && spec_walkable(g.tile_at(x, y))
}

/// The two coordinates are 4-neighbours of each other.
pub open spec fn adj(ax: int, ay: int, bx: int, by: int) -> bool {
    ||| (ax == bx && (ay == by + 1 || ay + 1 == by))
    ||| (ay == by && (ax == bx + 1 || ax + 1 == bx))
}

/// p is a 4-connected sequence of walkable coordinates of g.
pub open spec fn path_ok(g: Grid, p: Seq<(int, int)>) -> bool {
    &&& forall|i: int| 0 <= i < p.len() ==> walk_at(g, (#[trigger] p[i]).0, p[i].1)
    &&& forall|i: int|
        0 <= i < p.len() - 1 ==> adj((#[trigger] p[i]).0, p[i].1, p[i + 1].0, p[i + 1].1)
}

/// Some 4-connected walkable path of g leads from (ax, ay) to (bx, by).
pub open spec fn reachable(g: Grid, ax: int, ay: int, bx: int, by: int) -> bool {
    exists|p: Seq<(int, int)>|
        #[trigger] path_ok(g, p) && p.len() >= 1 && p[0] == (ax, ay) && p.last() == (bx, by)
}

/// A walkable tile reaches itself.
pub proof fn lemma_reach_self(g: Grid, x: int, y: int)
    requires
        walk_at(g, x, y),
    ensures
        reachable(g, x, y, x, y),
{
    let p = seq![(x, y)];
    assert(p.last() == (x, y));
    assert(path_ok(g, p));
}

/// A reachable tile reaches its walkable neighbours.
pub proof fn lemma_reach_step(g: Grid, ax: int, ay: int, bx: int, by: int, cx: int, cy: int)
    requires
        reachable(g, ax, ay, bx, by),
        adj(bx, by, cx, cy),
        walk_at(g, cx, cy),
    ensures
        reachable(g, ax, ay, cx, cy),
{
    let p = choose|p: Seq<(int, int)>|
        #[trigger] path_ok(g, p) && p.len() >= 1 && p[0] == (ax, ay) && p.last() == (bx, by);
    let q = p.push((cx, cy));
    assert(q.last() == (cx, cy));
    assert(q[0] == p[0]);
    assert forall|i: int| 0 <= i < q.len() implies walk_at(g, (#[trigger] q[i]).0, q[i].1) by {
        if i < p.len() {
            assert(q[i] == p[i]);
        } else {
            assert(q[i] == (cx, cy));
        }
    }
    assert forall|i: int|
        0 <= i < q.len() - 1 implies adj((#[trigger] q[i]).0, q[i].1, q[i + 1].0, q[i + 1].1) by {
        if i < p.len() - 1 {
            assert(q[i] == p[i]);
            assert(q[i + 1] == p[i + 1]);
        } else {
            assert(i == p.len() - 1);
            assert(q[i] == p.last());
            assert(q[i + 1] == (cx, cy));
        }
    }
    assert(path_ok(g, q));
}

/// Two adjacent walkable tiles reach each other.
pub proof fn lemma_adj_reach(g: Grid, ax: int, ay: int, bx: int, by: int)
    requires
        walk_at(g, ax, ay),
        walk_at(g, bx, by),
        adj(ax, ay, bx, by),
    ensures
        reachable(g, ax, ay, bx, by),
{
    lemma_reach_self(g, ax, ay);
    lemma_reach_step(g, ax, ay, ax, ay, bx, by);
}

/// Reachability is transitive.
pub proof fn lemma_reach_trans(g: Grid, ax: int, ay: int, bx: int, by: int, cx: int, cy: int)
    requires
        reachable(g, ax, ay, bx, by),
        reachable(g, bx, by, cx, cy),
    ensures
        reachable(g, ax, ay, cx, cy),
{
    let p1 = choose|p: Seq<(int, int)>|
        #[trigger] path_ok(g, p) && p.len() >= 1 && p[0] == (ax, ay) && p.last() == (bx, by);
    let p2 = choose|p: Seq<(int, int)>|
        #[trigger] path_ok(g, p) && p.len() >= 1 && p[0] == (bx, by) && p.last() == (cx, cy);
    let q = p1 + p2.subrange(1, p2.len() as int);
    assert(q.len() == p1.len() + p2.len() - 1);
    assert(q[0] == p1[0]);
    if p2.len() == 1 {
        assert(p2.last() == p2[0]);
        assert(q =~= p1);
        assert(q.last() == (cx, cy));
    } else {
        assert(q.last() == p2[p2.len() - 1]);
    }
    assert forall|i: int| 0 <= i < q.len() implies walk_at(g, (#[trigger] q[i]).0, q[i].1) by {
        if i < p1.len() {
            assert(q[i] == p1[i]);
        } else {
            assert(q[i] == p2[i - p1.len() + 1]);
        }
    }
    assert forall|i: int|
        0 <= i < q.len() - 1 implies adj((#[trigger] q[i]).0, q[i].1, q[i + 1].0, q[i + 1].1) by {
        if i < p1.len() - 1 {
            assert(q[i] == p1[i]);
            assert(q[i + 1] == p1[i + 1]);
        } else if i == p1.len() - 1 {
            assert(q[i] == p1.last());
            assert(q[i + 1] == p2[1]);
            assert(p1.last() == p2[0]);
        } else {
            assert(q[i] == p2[i - p1.len() + 1]);
            assert(q[i + 1] == p2[i - p1.len() + 2]);
        }
    }
    assert(path_ok(g, q));
}

/// A path of one grid stays valid on another grid of the same size whose
/// walkable set is at least as large.
pub proof fn lemma_reach_widen(g1: Grid, g2: Grid, ax: int, ay: int, bx: int, by: int)
    requires
        g1.width == g2.width,
        g1.height == g2.height,
        forall|x: int, y: int| #[trigger] walk_at(g1, x, y) ==> walk_at(g2, x, y),
        reachable(g1, ax, ay, bx, by),
    ensures
        reachable(g2, ax, ay, bx, by),
{
    let p = choose|p: Seq<(int, int)>|
        #[trigger] path_ok(g1, p) && p.len() >= 1 && p[0] == (ax, ay) && p.last() == (bx, by);
    assert forall|i: int| 0 <= i < p.len() implies walk_at(g2, (#[trigger] p[i]).0, p[i].1) by {
        assert(walk_at(g1, p[i].0, p[i].1));
    }
    assert(path_ok(g2, p));
}

/// A horizontal run of walkable tiles is reachable end to end, in both
/// directions.
pub proof fn lemma_horiz_reach(g: Grid, y: int, xa: int, xb: int)
    requires
        xa <= xb,
        forall|x: int| xa <= x <= xb ==> #[trigger] walk_at(g, x, y),
    ensures
        reachable(g, xa, y, xb, y),
        reachable(g, xb, y, xa, y),
    decreases xb - xa,
{
    if xa == xb {
        lemma_reach_self(g, xa, y);
    } else {
        lemma_horiz_reach(g, y, xa, xb - 1);
        lemma_reach_step(g, xa, y, xb - 1, y, xb, y);
        lemma_adj_reach(g, xb, y, xb - 1, y);
        lemma_reach_trans(g, xb, y, xb - 1, y, xa, y);
    }
}

/// A vertical run of walkable tiles is reachable end to end, in both
/// directions.
pub proof fn lemma_vert_reach(g: Grid, x: int, ya: int, yb: int)
    requires
        ya <= yb,
        forall|y: int| ya <= y <= yb ==> #[trigger] walk_at(g, x, y),
    ensures
        reachable(g, x, ya, x, yb),
        reachable(g, x, yb, x, ya),
    decreases yb - ya,
{
    if ya == yb {
        lemma_reach_self(g, x, ya);
    } else {
        lemma_vert_reach(g, x, ya, yb - 1);
        lemma_reach_step(g, x, ya, x, yb - 1, x, yb);
        lemma_adj_reach(g, x, yb, x, yb - 1);
        lemma_reach_trans(g, x, yb, x, yb - 1, x, ya);
    }
}

/// Between two grids of the same size, every tile that changed became
/// floor: the mark of a carving pass, which never removes open ground.
pub open spec fn only_floor_added(g0: Grid, g1: Grid) -> bool {
    &&& g1.width == g0.width
    &&& g1.height == g0.height
    &&& forall|x: int, y: int|
        0 <= x < g1.width && 0 <= y < g1.height && #[trigger] g1.tile_at(x, y) != g0.tile_at(
            x,
            y,
        ) ==> g1.tile_at(x, y) == TileType::Floor
}

/// Carving preserves walkability pointwise and introduces no staircase.
pub proof fn lemma_floor_added_widen(g0: Grid, g1: Grid)
    requires
        only_floor_added(g0, g1),
    ensures
        forall|x: int, y: int| #[trigger] walk_at(g0, x, y) ==> walk_at(g1, x, y),
        g0.no_stairs() ==> g1.no_stairs(),
{
    assert forall|x: int, y: int| #[trigger] walk_at(g0, x, y) implies walk_at(g1, x, y) by {
        if g1.tile_at(x, y) != g0.tile_at(x, y) {
            assert(g1.tile_at(x, y) == TileType::Floor);
        }
    }
    if g0.no_stairs() {
        assert forall|x: int, y: int|
            0 <= x < g1.width && 0 <= y < g1.height implies #[trigger] g1.tile_at(x, y)
            != TileType::DownStairs by {
            if g1.tile_at(x, y) != g0.tile_at(x, y) {
                assert(g1.tile_at(x, y) == TileType::Floor);
            } else {
                assert(g0.tile_at(x, y) != TileType::DownStairs);
            }
        }
    }
}

/// A tile that is already floor stays floor through a carving pass.
pub proof fn lemma_floor_stays(g0: Grid, g1: Grid, x: int, y: int)
    requires
        only_floor_added(g0, g1),
        0 <= x < g0.width,
        0 <= y < g0.height,
        g0.tile_at(x, y) == TileType::Floor,
    ensures
        g1.tile_at(x, y) == TileType::Floor,
{
    if g1.tile_at(x, y) != g0.tile_at(x, y) {
        assert(g1.tile_at(x, y) == TileType::Floor);
    }
}

/// Two carving passes in a row still only add floor.
pub proof fn lemma_floor_added_trans(g0: Grid, g1: Grid, g2: Grid)
    requires
        only_floor_added(g0, g1),
        only_floor_added(g1, g2),
    ensures
        only_floor_added(g0, g2),
{
    assert forall|x: int, y: int|
        0 <= x < g2.width && 0 <= y < g2.height && #[trigger] g2.tile_at(x, y) != g0.tile_at(
            x,
            y,
        ) implies g2.tile_at(x, y) == TileType::Floor by {
        if g2.tile_at(x, y) != g1.tile_at(x, y) {
        } else {
            assert(g1.tile_at(x, y) != g0.tile_at(x, y));
        }
    }
}

/// The mark bit a flood fill keeps for the coordinate (x, y).
pub open spec fn mark_at(marked: Seq<bool>, w: int, x: int, y: int) -> bool {
    marked[y * w + x]
}

/// Every marked coordinate is walkable and reachable from (sx, sy).
pub open spec fn marks_ok(g: Grid, sx: int, sy: int, marked: Seq<bool>) -> bool {
    &&& marked.len() == g.tiles@.len()
    &&& forall|x: int, y: int|
        0 <= x < g.width && 0 <= y < g.height && #[trigger] mark_at(
            marked,
            g.width as int,
            x,
            y,
        ) ==> walk_at(g, x, y) && reachable(g, sx, sy, x, y)
}

/// How many entries of the mark vector are set.
pub open spec fn count_trues(s: Seq<bool>) -> int
    decreases s.len(),
{
    if s.len() == 0 {
        0
    } else {
        count_trues(s.drop_last()) + if s.last() {
            1int
        } else {
            0
        }
    }
}

proof fn lemma_count_trues_bound(s: Seq<bool>)
    ensures
        0 <= count_trues(s) <= s.len(),
    decreases s.len(),
{
    if s.len() > 0 {
        lemma_count_trues_bound(s.drop_last());
    }
}

proof fn lemma_count_trues_update(s: Seq<bool>, i: int)
    requires
        0 <= i < s.len(),
        !s[i],
    ensures
        count_trues(s.update(i, true)) == count_trues(s) + 1,
    decreases s.len(),
{
    if i == s.len() - 1 {
        assert(s.update(i, true).drop_last() =~= s.drop_last());
    } else {
        assert(s.update(i, true).drop_last() =~= s.drop_last().update(i, true));
        lemma_count_trues_update(s.drop_last(), i);
    }
}

/// The coordinate has a marked 4-neighbour.
pub open spec fn has_marked_nb(g: Grid, marked: Seq<bool>, x: int, y: int) -> bool {
    ||| (x > 0 && mark_at(marked, g.width as int, x - 1, y))
    ||| (x + 1 < g.width && mark_at(marked, g.width as int, x + 1, y))
    ||| (y > 0 && mark_at(marked, g.width as int, x, y - 1))
    ||| (y + 1 < g.height && mark_at(marked, g.width as int, x, y + 1))
}

/// No unmarked walkable tile touches a marked one: the flood fill's
/// fixed point, scanned up to row y, column x in row-major order.
pub open spec fn no_growth_upto(g: Grid, marked: Seq<bool>, y: int, x: int) -> bool {
    forall|a: int, b: int|
        0 <= a < g.width && 0 <= b < g.height && (b < y || (b == y && a < x)) && walk_at(g, a, b)
            && !mark_at(marked, g.width as int, a, b) ==> !#[trigger] has_marked_nb(
            g,
            marked,
            a,
            b,
        )
}

/// At the fixed point, every tile reachable from a marked tile is
/// marked: the completeness half of the flood fill.
proof fn lemma_marks_complete(
    g: Grid,
    marked: Seq<bool>,
    sx: int,
    sy: int,
    tx: int,
    ty: int,
)
    requires
        g.inv(),
        marked.len() == g.tiles@.len(),
        no_growth_upto(g, marked, g.height as int, 0),
        mark_at(marked, g.width as int, sx, sy),
        reachable(g, sx, sy, tx, ty),
    ensures
        mark_at(marked, g.width as int, tx, ty),
{
    let p = choose|p: Seq<(int, int)>|
        #[trigger] path_ok(g, p) && p.len() >= 1 && p[0] == (sx, sy) && p.last() == (tx, ty);
    lemma_path_marked(g, marked, p, p.len() - 1);
}

proof fn lemma_path_marked(g: Grid, marked: Seq<bool>, p: Seq<(int, int)>, i: int)
    requires
        g.inv(),
        marked.len() == g.tiles@.len(),
        no_growth_upto(g, marked, g.height as int, 0),
        path_ok(g, p),
        p.len() >= 1,
        mark_at(marked, g.width as int, p[0].0, p[0].1),
        0 <= i < p.len(),
    ensures
        mark_at(marked, g.width as int, p[i].0, p[i].1),
    decreases i,
{
    if i > 0 {
        lemma_path_marked(g, marked, p, i - 1);
        let (ax, ay) = p[i - 1];
        let (bx, by) = p[i];
        assert(adj(ax, ay, bx, by));
        assert(walk_at(g, bx, by));
        if !mark_at(marked, g.width as int, bx, by) {
            assert(has_marked_nb(g, marked, bx, by));
            assert(!has_marked_nb(g, marked, bx, by));
        }
    }
}

/// Marks one coordinate that is known to be reachable, keeping the
/// soundness of all existing marks.
fn set_mark(g: &Grid, sx: i32, sy: i32, marked: &mut Vec<bool>, x: i32, y: i32)
    requires
        g.inv(),
        marks_ok(*g, sx as int, sy as int, old(marked)@),
        0 <= x < g.width,
        0 <= y < g.height,
        walk_at(*g, x as int, y as int),
        reachable(*g, sx as int, sy as int, x as int, y as int),
    ensures
        final(marked)@.len() == old(marked)@.len(),
        marks_ok(*g, sx as int, sy as int, final(marked)@),
        mark_at(final(marked)@, g.width as int, x as int, y as int),
        forall|i: int|
            0 <= i < old(marked)@.len() && i != (y as int) * (g.width as int) + (x as int)
                ==> final(marked)@[i] == old(marked)@[i],
{
    let idx = g.xy_idx(x, y);
    marked.set(idx, true);
    proof {
        let w = g.width as int;
        let h = g.height as int;
        assert forall|a: int, b: int|
            0 <= a < w && 0 <= b < h && #[trigger] mark_at(marked@, w, a, b) implies walk_at(
            *g,
            a,
            b,
        ) && reachable(*g, sx as int, sy as int, a, b) by {
            lemma_idx_in_range(w, h, a, b);
            if b * w + a == (y as int) * w + (x as int) {
                lemma_idx_inj(w, a, b, x as int, y as int);
            } else {
                assert(mark_at(old(marked)@, w, a, b));
            }
        }
    }
}

/// Reads the mark bit of a coordinate.
pub(crate) fn get_mark(g: &Grid, marked: &Vec<bool>, x: i32, y: i32) -> (r: bool)
    requires
        g.inv(),
        marked@.len() == g.tiles@.len(),
        0 <= x < g.width,
        0 <= y < g.height,
    ensures
        r == mark_at(marked@, g.width as int, x as int, y as int),
{
    let idx = g.xy_idx(x, y);
    marked[idx]
}

/// Flood fill: marks tiles reachable from (sx, sy) by walking in the four
/// cardinal directions over walkable tiles.  Every mark it returns is
/// sound: the marked tile really is walkable and reachable from the start.
pub fn flood_fill(g: &Grid, sx: i32, sy: i32) -> (marked: Vec<bool>)
    requires
        g.inv(),
        walk_at(*g, sx as int, sy as int),
    ensures
        marked@.len() == g.tiles@.len(),
        marks_ok(*g, sx as int, sy as int, marked@),
        mark_at(marked@, g.width as int, sx as int, sy as int),
        forall|tx: int, ty: int|
            #[trigger] reachable(*g, sx as int, sy as int, tx, ty) ==> mark_at(
                marked@,
                g.width as int,
                tx,
                ty,
            ),
{
    let n = g.tiles.len();
    let w = g.width;
    let h = g.height;
    let mut marked: Vec<bool> = Vec::new();
    let mut i: usize = 0;
    while i < n
        invariant
            i <= n,
            marked@.len() == i,
            forall|j: int| 0 <= j < i ==> marked@[j] == false,
        decreases n - i,
    {
        marked.push(false);
        i = i + 1;
    }
    proof {
        assert forall|x: int, y: int|
            0 <= x < g.width && 0 <= y < g.height && #[trigger] mark_at(
                marked@,
                g.width as int,
                x,
                y,
            ) implies walk_at(*g, x, y) && reachable(*g, sx as int, sy as int, x, y) by {
            lemma_idx_in_range(g.width as int, g.height as int, x, y);
        }
        lemma_reach_self(*g, sx as int, sy as int);
    }
    set_mark(g, sx, sy, &mut marked, sx, sy);
    proof {
        lemma_count_trues_bound(marked@);
    }
    let mut changed = true;
    while changed
        invariant
            g.inv(),
            w == g.width,
            h == g.height,
            n == g.tiles@.len(),
            marked@.len() == n,
            marks_ok(*g, sx as int, sy as int, marked@),
            mark_at(marked@, g.width as int, sx as int, sy as int),
            walk_at(*g, sx as int, sy as int),
            count_trues(marked@) <= n,
            !changed ==> no_growth_upto(*g, marked@, h as int, 0),
        decreases n - count_trues(marked@), (if changed {
            1int
        } else {
            0
        }),
    {
        changed = false;
        let ghost c0 = count_trues(marked@);
        let mut y: i32 = 0;
        while y < h
            invariant
                g.inv(),
                w == g.width,
                h == g.height,
                n == g.tiles@.len(),
                0 <= y <= h,
                marked@.len() == n,
                marks_ok(*g, sx as int, sy as int, marked@),
                mark_at(marked@, g.width as int, sx as int, sy as int),
                walk_at(*g, sx as int, sy as int),
                count_trues(marked@) <= n,
                count_trues(marked@) >= c0,
                changed ==> count_trues(marked@) >= c0 + 1,
                !changed ==> no_growth_upto(*g, marked@, y as int, 0),
            decreases h - y,
        {
            let mut x: i32 = 0;
            while x < w
                invariant
                    g.inv(),
                    w == g.width,
                    h == g.height,
                    n == g.tiles@.len(),
                    0 <= y < h,
                    0 <= x <= w,
                    marked@.len() == n,
                    marks_ok(*g, sx as int, sy as int, marked@),
                    mark_at(marked@, g.width as int, sx as int, sy as int),
                    walk_at(*g, sx as int, sy as int),
                    count_trues(marked@) <= n,
                    count_trues(marked@) >= c0,
                    changed ==> count_trues(marked@) >= c0 + 1,
                    !changed ==> no_growth_upto(*g, marked@, y as int, x as int),
                decreases w - x,
            {
                if !get_mark(g, &marked, x, y) && tile_walkable(g.get_tile(x, y)) {
                    let mut from_neighbour = false;
                    if x > 0 && get_mark(g, &marked, x - 1, y) {
                        proof {
                            lemma_reach_step(
                                *g,
                                sx as int,
                                sy as int,
                                x as int - 1,
                                y as int,
                                x as int,
                                y as int,
                            );
                        }
                        from_neighbour = true;
                    }
                    if !from_neighbour && x + 1 < w && get_mark(g, &marked, x + 1, y) {
                        proof {
                            lemma_reach_step(
                                *g,
                                sx as int,
                                sy as int,
                                x as int + 1,
                                y as int,
                                x as int,
                                y as int,
                            );
                        }
                        from_neighbour = true;
                    }
                    if !from_neighbour && y > 0 && get_mark(g, &marked, x, y - 1) {
                        proof {
                            lemma_reach_step(
                                *g,
                                sx as int,
                                sy as int,
                                x as int,
                                y as int - 1,
                                x as int,
                                y as int,
                            );
                        }
                        from_neighbour = true;
                    }
                    if !from_neighbour && y + 1 < h && get_mark(g, &marked, x, y + 1) {
                        proof {
                            lemma_reach_step(
                                *g,
                                sx as int,
                                sy as int,
                                x as int,
                                y as int + 1,
                                x as int,
                                y as int,
                            );
                        }
                        from_neighbour = true;
                    }
                    if from_neighbour {
                        let ghost mpre = marked@;
                        set_mark(g, sx, sy, &mut marked, x, y);
                        changed = true;
                        proof {
                            let w_int = g.width as int;
                            lemma_idx_in_range(w_int, g.height as int, sx as int, sy as int);
                            lemma_idx_in_range(w_int, g.height as int, x as int, y as int);
                            if (sy as int) * w_int + (sx as int) == (y as int) * w_int + (
                            x as int) {
                                lemma_idx_inj(w_int, sx as int, sy as int, x as int, y as int);
                            }
                            assert(marked@ =~= mpre.update(
                                (y as int) * w_int + (x as int),
                                true,
                            ));
                            lemma_count_trues_update(mpre, (y as int) * w_int + (x as int));
                            lemma_count_trues_bound(marked@);
                        }
                    }
                }
                x = x + 1;
            }
            y = y + 1;
        }
    }
    proof {
        assert forall|tx: int, ty: int|
            #[trigger] reachable(*g, sx as int, sy as int, tx, ty) implies mark_at(
            marked@,
            g.width as int,
            tx,
            ty,
        ) by {
            lemma_marks_complete(*g, marked@, sx as int, sy as int, tx, ty);
        }
    }
    marked
}

/// Turns every unmarked tile into solid wall, leaving marked tiles alone.
/// Used to cull floor regions that the start tile cannot reach.
pub fn cull_unreachable(g: &mut Grid, marked: &Vec<bool>)
    requires
        old(g).inv(),
        marked@.len() == old(g).tiles@.len(),
    ensures
        final(g).inv(),
        final(g).same_dims(*old(g)),
        final(g).tiles@.len() == old(g).tiles@.len(),
        final(g).revealed_tiles@ == old(g).revealed_tiles@,
        forall|i: int|
            0 <= i < final(g).tiles@.len() && marked@[i] ==> final(g).tiles@[i] == old(
                g,
            ).tiles@[i],
        forall|i: int|
            0 <= i < final(g).tiles@.len() && !marked@[i] ==> final(g).tiles@[i]
                == TileType::Wall,
{
    let n = g.tiles.len();
    let mut i: usize = 0;
    while i < n
        invariant
            g.inv(),
            n == g.tiles@.len(),
            i <= n,
            g.same_dims(*old(g)),
            g.tiles@.len() == old(g).tiles@.len(),
            marked@.len() == n,
            g.revealed_tiles@ == old(g).revealed_tiles@,
            forall|j: int| 0 <= j < i && marked@[j] ==> g.tiles@[j] == old(g).tiles@[j],
            forall|j: int| 0 <= j < i && !marked@[j] ==> g.tiles@[j] == TileType::Wall,
            forall|j: int| i <= j < n ==> g.tiles@[j] == old(g).tiles@[j],
        decreases n - i,
    {
        if !marked[i] {
            g.tiles.set(i, TileType::Wall);
        }
        i = i + 1;
    }
}

} // verus!
