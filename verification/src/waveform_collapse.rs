use vstd::prelude::*;
use bracket_random::prelude::RandomNumberGenerator;
use crate::builder_map::{history_extends, lemma_history_extends_trans, BuilderMap};
use crate::grid::{lemma_idx_in_range, lemma_idx_inj, Grid};
use crate::rng::rng_roll_dice;
use crate::tile::TileType;

verus! {

/// One 2x2 tile pattern cut from the source grid.
#[derive(Clone, Copy, PartialEq, Eq, Structural, Debug)]
pub struct Chunk {
    pub nw: TileType,
    pub ne: TileType,
    pub sw: TileType,
    pub se: TileType,
}

pub open spec fn chunk_no_stairs(c: Chunk) -> bool {
    c.nw != TileType::DownStairs && c.ne != TileType::DownStairs && c.sw != TileType::DownStairs
        && c.se != TileType::DownStairs
}

/// The 2x2 window of g whose top-left corner is (x, y).
pub open spec fn spec_chunk_at(g: Grid, x: int, y: int) -> Chunk {
    Chunk {
        nw: g.tile_at(x, y),
        ne: g.tile_at(x + 1, y),
        sw: g.tile_at(x, y + 1),
        se: g.tile_at(x + 1, y + 1),
    }
}

pub open spec fn window_bounds(g: Grid, x: int, y: int) -> bool {
    0 <= x < g.width - 1 && 0 <= y < g.height - 1
}

/// The chunk occurs somewhere in the source grid.
#[verifier::opaque]
pub open spec fn chunk_from(src: Grid, c: Chunk) -> bool {
    exists|x: int, y: int| #[trigger] spec_chunk_at(src, x, y) == c && window_bounds(src, x, y)
}

/// The two chunks were observed horizontally adjacent, two columns
/// apart, somewhere in the source grid.
#[verifier::opaque]
pub open spec fn observed_h(src: Grid, c1: Chunk, c2: Chunk) -> bool {
    exists|x: int, y: int|
        #[trigger] spec_chunk_at(src, x, y) == c1 && spec_chunk_at(src, x + 2, y) == c2
            && window_bounds(src, x, y) && window_bounds(src, x + 2, y)
}

/// The two chunks were observed vertically adjacent, two rows apart,
/// somewhere in the source grid.
#[verifier::opaque]
pub open spec fn observed_v(src: Grid, c1: Chunk, c2: Chunk) -> bool {
    exists|x: int, y: int|
        #[trigger] spec_chunk_at(src, x, y) == c1 && spec_chunk_at(src, x, y + 2) == c2
            && window_bounds(src, x, y) && window_bounds(src, x, y + 2)
}

/// The aligned 2x2 block of the output grid at cell (cx, cy).
pub open spec fn block_at(g: Grid, cx: int, cy: int) -> Chunk {
    spec_chunk_at(g, 2 * cx, 2 * cy)
}

/// The blocks at cells (cx, cy) and (cx+1, cy) of the output were
/// observed horizontally adjacent in the source.
pub open spec fn adj_h_ok(src: Grid, out: Grid, cx: int, cy: int) -> bool {
    observed_h(src, block_at(out, cx, cy), block_at(out, cx + 1, cy))
}

/// The blocks at cells (cx, cy) and (cx, cy+1) of the output were
/// observed vertically adjacent in the source.
pub open spec fn adj_v_ok(src: Grid, out: Grid, cx: int, cy: int) -> bool {
    observed_v(src, block_at(out, cx, cy), block_at(out, cx, cy + 1))
}

/// What the re-tiling pass owes on success: a grid of the source's
/// dimensions whose aligned 2x2 blocks all occur in the source, with
/// every horizontally and vertically adjacent pair of blocks observed
/// adjacent in the source.
pub open spec fn retiled_from(src: Grid, out: Grid) -> bool {
    &&& out.width == src.width
    &&& out.height == src.height
    &&& forall|cx: int, cy: int|
        0 <= cx < out.width / 2 && 0 <= cy < out.height / 2 ==> chunk_from(
            src,
            #[trigger] block_at(out, cx, cy),
        )
    &&& forall|cx: int, cy: int|
        0 <= cx && cx + 1 < out.width / 2 && 0 <= cy < out.height / 2 ==> #[trigger] adj_h_ok(
            src,
            out,
            cx,
            cy,
        )
    &&& forall|cx: int, cy: int|
        0 <= cx < out.width / 2 && 0 <= cy && cy + 1 < out.height / 2 ==> #[trigger] adj_v_ok(
            src,
            out,
            cx,
            cy,
        )
}

pub open spec fn spec_tile_code(t: TileType) -> int {
    match t {
        TileType::Wall => 0,
        TileType::Floor => 1,
        TileType::DownStairs => 2,
    }
}

/// The chunk's base-3 code: injective, below 81.
pub open spec fn spec_encode(c: Chunk) -> int {
    spec_tile_code(c.nw) * 27 + spec_tile_code(c.ne) * 9 + spec_tile_code(c.sw) * 3
        + spec_tile_code(c.se)
}

proof fn lemma_encode_inj(c1: Chunk, c2: Chunk)
    requires
        spec_encode(c1) == spec_encode(c2),
    ensures
        c1 == c2,
{
    assert(spec_tile_code(c1.nw) == spec_tile_code(c2.nw) && spec_tile_code(c1.ne)
        == spec_tile_code(c2.ne) && spec_tile_code(c1.sw) == spec_tile_code(c2.sw)
        && spec_tile_code(c1.se) == spec_tile_code(c2.se));
}

fn tile_code(t: TileType) -> (r: usize)
    ensures
        r == spec_tile_code(t),
{
    match t {
        TileType::Wall => 0,
        TileType::Floor => 1,
        TileType::DownStairs => 2,
    }
}

fn encode_chunk(c: &Chunk) -> (r: usize)
    ensures
        r == spec_encode(*c),
        r < 81,
{
    tile_code(c.nw) * 27 + tile_code(c.ne) * 9 + tile_code(c.sw) * 3 + tile_code(c.se)
}

/// How many slots of the code table are occupied (not the sentinel 81).
pub open spec fn count_occupied(s: Seq<usize>) -> int
    decreases s.len(),
{
    if s.len() == 0 {
        0
    } else {
        count_occupied(s.drop_last()) + if s.last() != 81 {
            1int
        } else {
            0
        }
    }
}

proof fn lemma_count_occupied_bound(s: Seq<usize>)
    ensures
        0 <= count_occupied(s) <= s.len(),
    decreases s.len(),
{
    if s.len() > 0 {
        lemma_count_occupied_bound(s.drop_last());
    }
}

proof fn lemma_count_occupied_update(s: Seq<usize>, i: int, v: usize)
    requires
        0 <= i < s.len(),
        s[i] == 81,
        v != 81,
    ensures
        count_occupied(s.update(i, v)) == count_occupied(s) + 1,
    decreases s.len(),
{
    if i == s.len() - 1 {
        assert(s.update(i, v).drop_last() =~= s.drop_last());
    } else {
        assert(s.update(i, v).drop_last() =~= s.drop_last().update(i, v));
        lemma_count_occupied_update(s.drop_last(), i, v);
    }
}

proof fn lemma_count_occupied_all(s: Seq<usize>)
    requires
        forall|k: int| 0 <= k < s.len() ==> #[trigger] s[k] == 81,
    ensures
        count_occupied(s) == 0,
    decreases s.len(),
{
    if s.len() > 0 {
        assert(forall|k: int|
            0 <= k < s.drop_last().len() ==> #[trigger] s.drop_last()[k] == 81);
        lemma_count_occupied_all(s.drop_last());
    }
}

proof fn lemma_count_occupied_missing(s: Seq<usize>, i: int)
    requires
        0 <= i < s.len(),
        s[i] == 81,
    ensures
        count_occupied(s) <= s.len() - 1,
    decreases s.len(),
{
    lemma_count_occupied_bound(s.drop_last());
    if i == s.len() - 1 {
    } else {
        lemma_count_occupied_missing(s.drop_last(), i);
    }
}

/// Reads the 2x2 chunk whose top-left corner is (x, y).
fn chunk_at(g: &Grid, x: i32, y: i32) -> (c: Chunk)
    requires
        g.inv(),
        0 <= x < g.width - 1,
        0 <= y < g.height - 1,
    ensures
        c == spec_chunk_at(*g, x as int, y as int),
        g.no_stairs() ==> chunk_no_stairs(c),
{
    Chunk {
        nw: g.get_tile(x, y),
        ne: g.get_tile(x + 1, y),
        sw: g.get_tile(x, y + 1),
        se: g.get_tile(x + 1, y + 1),
    }
}

/// The bit of a flat np x np adjacency matrix.
pub open spec fn mat_at(m: Seq<bool>, np: int, i: int, j: int) -> bool {
    m[i * np + j]
}

/// Records one observed adjacency, keeping the matrix's meaning: every
/// set bit names a pair of catalog chunks seen adjacent in the source.
fn record_adjacency(
    m: &mut Vec<bool>,
    np: usize,
    here: usize,
    there: usize,
    Ghost(src): Ghost<Grid>,
    Ghost(patterns): Ghost<Seq<Chunk>>,
    Ghost(horizontal): Ghost<bool>,
)
    requires
        old(m)@.len() == np * np,
        here < np,
        there < np,
        np <= 256,
        patterns.len() == np,
        horizontal ==> observed_h(src, patterns[here as int], patterns[there as int]),
        !horizontal ==> observed_v(src, patterns[here as int], patterns[there as int]),
        horizontal ==> forall|a: int, b: int|
            0 <= a < np && 0 <= b < np && #[trigger] mat_at(old(m)@, np as int, a, b)
                ==> observed_h(src, patterns[a], patterns[b]),
        !horizontal ==> forall|a: int, b: int|
            0 <= a < np && 0 <= b < np && #[trigger] mat_at(old(m)@, np as int, a, b)
                ==> observed_v(src, patterns[a], patterns[b]),
    ensures
        final(m)@.len() == np * np,
        horizontal ==> forall|a: int, b: int|
            0 <= a < np && 0 <= b < np && #[trigger] mat_at(final(m)@, np as int, a, b)
                ==> observed_h(src, patterns[a], patterns[b]),
        !horizontal ==> forall|a: int, b: int|
            0 <= a < np && 0 <= b < np && #[trigger] mat_at(final(m)@, np as int, a, b)
                ==> observed_v(src, patterns[a], patterns[b]),
{
    mat_set(m, np, here, there);
    proof {
        assert forall|a: int, b: int|
            0 <= a < np && 0 <= b < np && #[trigger] mat_at(m@, np as int, a, b) && (a
                != here || b != there) implies mat_at(old(m)@, np as int, a, b) by {}
    }
}

/// Sets one adjacency bit, leaving the rest of the matrix alone.
fn mat_set(m: &mut Vec<bool>, np: usize, i: usize, j: usize)
    requires
        old(m)@.len() == np * np,
        i < np,
        j < np,
        np <= 256,
    ensures
        final(m)@.len() == np * np,
        mat_at(final(m)@, np as int, i as int, j as int),
        forall|a: int, b: int|
            0 <= a < np && 0 <= b < np && (a != i || b != j) ==> #[trigger] mat_at(
                final(m)@,
                np as int,
                a,
                b,
            ) == mat_at(old(m)@, np as int, a, b),
{
    proof {
        lemma_idx_in_range(np as int, np as int, j as int, i as int);
    }
    m.set(i * np + j, true);
    proof {
        assert forall|a: int, b: int|
            0 <= a < np && 0 <= b < np && (a != i || b != j) implies #[trigger] mat_at(
            m@,
            np as int,
            a,
            b,
        ) == mat_at(old(m)@, np as int, a, b) by {
            lemma_idx_in_range(np as int, np as int, b, a);
            if a * np + b == (i as int) * np + (j as int) {
                lemma_idx_inj(np as int, b, a, j as int, i as int);
            }
        }
    }
}

/// The pattern index recorded for the window at (x, y).
pub open spec fn win_idx_at(v: Seq<usize>, w1: int, x: int, y: int) -> usize {
    v[y * w1 + x]
}

/// The constraint re-tiling pass: slices the finished grid into a
/// catalog of 2x2 chunks with their observed adjacencies, then
/// synthesizes a replacement grid of the same dimensions by placing
/// compatible chunks one gap at a time, weighted by frequency.  When no
/// compatible chunk fits after bounded retries, the source grid is
/// returned untouched.
pub struct WaveformCollapseBuilder {
    pub depth: i32,
}

impl WaveformCollapseBuilder {
    pub fn new(new_depth: i32) -> (r: Box<WaveformCollapseBuilder>)
        ensures
            r.depth == new_depth,
    {
        Box::new(WaveformCollapseBuilder { depth: new_depth })
    }

    /// Re-tiles the grid in place.  Returns whether a synthesized grid
    /// replaced the source; if not, the source tiles are unchanged.  The
    /// only failure that does not depend on the random draws is a grid
    /// whose sides are not both even; otherwise failure means the
    /// synthesis ran out of compatible chunks within its retry budget.
    #[verifier::rlimit(100)]
    #[verifier::spinoff_prover]
    pub fn build_map(&self, rng: &mut RandomNumberGenerator, build_data: &mut BuilderMap) -> (
        applied: bool)
        requires
            old(build_data).inv(),
            old(build_data).map.no_stairs(),
        ensures
            final(build_data).inv(),
            final(build_data).map.same_dims(old(build_data).map),
            final(build_data).map.no_stairs(),
            final(build_data).starting_position == old(build_data).starting_position,
            final(build_data).spawn_list == old(build_data).spawn_list,
            final(build_data).rooms is None,
            final(build_data).corridors == old(build_data).corridors,
            final(build_data).snapshot_enabled == old(build_data).snapshot_enabled,
            history_extends(old(build_data).history@, final(build_data).history@),
            !applied ==> final(build_data).map.tiles@ == old(build_data).map.tiles@,
            (old(build_data).map.width % 2 != 0 || old(build_data).map.height % 2 != 0)
                ==> !applied,
            applied ==> retiled_from(old(build_data).map, final(build_data).map),
    {
        let w = build_data.map.width;
        let h = build_data.map.height;
        proof {
            assert(build_data.history@.subrange(0, build_data.history@.len() as int)
                =~= build_data.history@);
        }
        build_data.rooms = None;
        if w % 2 != 0 || h % 2 != 0 {
            return false;
        }
        let src = build_data.map.clone_grid();
        proof {
            assert forall|a: int, b: int|
                0 <= a < src.width && 0 <= b < src.height implies #[trigger] src.tile_at(a, b)
                != TileType::DownStairs by {
                assert(src.tile_at(a, b) == build_data.map.tile_at(a, b));
            }
        }
        // catalog: every overlapping 2x2 window, deduplicated through an
        // injective chunk code, counted, and indexed per position
        let mut patterns: Vec<Chunk> = Vec::new();
        let mut counts: Vec<i32> = Vec::new();
        let mut idx_grid: Vec<usize> = Vec::new();
        let mut code_idx: Vec<usize> = Vec::new();
        let mut ci: usize = 0;
        while ci < 81
            invariant
                code_idx@.len() == ci,
                ci <= 81,
                forall|k: int| 0 <= k < ci ==> #[trigger] code_idx@[k] == 81,
            decreases 81 - ci,
        {
            code_idx.push(81);
            ci = ci + 1;
        }
        proof {
            lemma_count_occupied_all(code_idx@);
        }
        let mut y: i32 = 0;
        while y < h - 1
            invariant
                src.inv(),
                src.width == w,
                src.height == h,
                src.no_stairs(),
                0 <= y <= h - 1,
                patterns@.len() == counts@.len(),
                forall|k: int| 0 <= k < counts@.len() ==> 1 <= #[trigger] counts@[k] <= 1000000,
                forall|k: int|
                    0 <= k < patterns@.len() ==> chunk_no_stairs(#[trigger] patterns@[k]),
                forall|k: int|
                    0 <= k < patterns@.len() ==> chunk_from(src, #[trigger] patterns@[k]),
                code_idx@.len() == 81,
                forall|cd: int|
                    0 <= cd < 81 ==> (#[trigger] code_idx@[cd] == 81 || (code_idx@[cd]
                        < patterns@.len() && spec_encode(
                        patterns@[code_idx@[cd] as int],
                    ) == cd)),
                patterns@.len() == count_occupied(code_idx@),
                patterns@.len() <= 81,
                idx_grid@.len() == y * (w - 1),
                forall|a: int, b: int|
                    0 <= a < w - 1 && 0 <= b < h - 1 && (b < y) ==> (#[trigger] win_idx_at(
                        idx_grid@,
                        w as int - 1,
                        a,
                        b,
                    )) < patterns@.len() && patterns@[win_idx_at(idx_grid@, w as int - 1, a, b) as int]
                        == spec_chunk_at(src, a, b),
            decreases h - 1 - y,
        {
            let mut x: i32 = 0;
            while x < w - 1
                invariant
                    src.inv(),
                    src.width == w,
                    src.height == h,
                    src.no_stairs(),
                    0 <= y < h - 1,
                    0 <= x <= w - 1,
                    patterns@.len() == counts@.len(),
                    forall|k: int|
                        0 <= k < counts@.len() ==> 1 <= #[trigger] counts@[k] <= 1000000,
                    forall|k: int|
                        0 <= k < patterns@.len() ==> chunk_no_stairs(#[trigger] patterns@[k]),
                    forall|k: int|
                        0 <= k < patterns@.len() ==> chunk_from(src, #[trigger] patterns@[k]),
                    code_idx@.len() == 81,
                    forall|cd: int|
                        0 <= cd < 81 ==> (#[trigger] code_idx@[cd] == 81 || (code_idx@[cd]
                            < patterns@.len() && spec_encode(
                            patterns@[code_idx@[cd] as int],
                        ) == cd)),
                    patterns@.len() == count_occupied(code_idx@),
                    patterns@.len() <= 81,
                    idx_grid@.len() == y * (w - 1) + x,
                    forall|a: int, b: int|
                        0 <= a < w - 1 && 0 <= b < h - 1 && (b < y || (b == y && a < x)) ==> (
                        #[trigger] win_idx_at(idx_grid@, w as int - 1, a, b))
                            < patterns@.len() && patterns@[win_idx_at(
                            idx_grid@,
                            w as int - 1,
                            a,
                            b,
                        ) as int] == spec_chunk_at(src, a, b),
                decreases w - 1 - x,
            {
                let c = chunk_at(&src, x, y);
                let code = encode_chunk(&c);
                let slot = code_idx[code];
                let ghost ig_pre = idx_grid@;
                let ghost pat_pre = patterns@;
                proof {
                    lemma_idx_in_range(w as int - 1, h as int - 1, x as int, y as int);
                }
                if slot < patterns.len() {
                    proof {
                        lemma_encode_inj(patterns@[slot as int], c);
                    }
                    if counts[slot] < 1000000 {
                        let v = counts[slot] + 1;
                        counts.set(slot, v);
                    }
                    idx_grid.push(slot);
                } else {
                    let ghost code_pre = code_idx@;
                    proof {
                        lemma_count_occupied_missing(code_pre, code as int);
                        reveal(chunk_from);
                        assert(spec_chunk_at(src, x as int, y as int) == c && window_bounds(
                            src,
                            x as int,
                            y as int,
                        ));
                        assert(chunk_from(src, c));
                    }
                    code_idx.set(code, patterns.len());
                    patterns.push(c);
                    counts.push(1);
                    idx_grid.push(patterns.len() - 1);
                    proof {
                        assert(code_idx@ =~= code_pre.update(code as int, (patterns@.len()
                            - 1) as usize));
                        lemma_count_occupied_update(
                            code_pre,
                            code as int,
                            (patterns@.len() - 1) as usize,
                        );
                    }
                }
                proof {
                    assert forall|a: int, b: int|
                        0 <= a < w - 1 && 0 <= b < h - 1 && (b < y || (b == y && a < x + 1))
                            implies (#[trigger] win_idx_at(idx_grid@, w as int - 1, a, b))
                        < patterns@.len() && patterns@[win_idx_at(
                        idx_grid@,
                        w as int - 1,
                        a,
                        b,
                    ) as int] == spec_chunk_at(src, a, b) by {
                        lemma_idx_in_range(w as int - 1, h as int - 1, a, b);
                        if b * (w as int - 1) + a == (y as int) * (w as int - 1) + (x as int) {
                            lemma_idx_inj(w as int - 1, a, b, x as int, y as int);
                            assert(win_idx_at(idx_grid@, w as int - 1, a, b)
                                == idx_grid@.last());
                        } else {
                            assert(b * (w as int - 1) + a < (y as int) * (w as int - 1) + (
                            x as int)) by (nonlinear_arith)
                                requires
                                    0 <= a < w as int - 1,
                                    0 <= b,
                                    0 <= x as int,
                                    0 <= y as int,
                                    b < y as int || (b == y as int && a < x as int),
                            ;
                            assert(win_idx_at(idx_grid@, w as int - 1, a, b) == win_idx_at(
                                ig_pre,
                                w as int - 1,
                                a,
                                b,
                            ));
                            assert(patterns@[win_idx_at(ig_pre, w as int - 1, a, b) as int]
                                == pat_pre[win_idx_at(ig_pre, w as int - 1, a, b) as int]);
                        }
                    }
                }
                x = x + 1;
            }
            proof {
                assert((y + 1) * (w - 1) == y * (w - 1) + (w - 1)) by (nonlinear_arith);
            }
            y = y + 1;
        }
        let np = patterns.len();
        proof {
            lemma_count_occupied_bound(code_idx@);
            assert((h as int - 1) * (w as int - 1) >= 1) by (nonlinear_arith)
                requires
                    16 <= w,
                    16 <= h,
            ;
            assert(win_idx_at(idx_grid@, w as int - 1, 0, 0) < patterns@.len());
            assert(np * np <= 6561) by (nonlinear_arith)
                requires
                    np <= 81,
            ;
        }
        // observed adjacencies at chunk-size offset, horizontally and
        // vertically, as flat np x np matrices
        let mut h_ok: Vec<bool> = Vec::new();
        let mut v_ok: Vec<bool> = Vec::new();
        let npsq: usize = np * np;
        let mut i: usize = 0;
        while i < npsq
            invariant
                h_ok@.len() == i,
                v_ok@.len() == i,
                i <= npsq,
                npsq == np * np,
                np <= 81,
                forall|k: int| 0 <= k < i ==> #[trigger] h_ok@[k] == false,
                forall|k: int| 0 <= k < i ==> #[trigger] v_ok@[k] == false,
            decreases npsq - i,
        {
            h_ok.push(false);
            v_ok.push(false);
            i = i + 1;
        }
        proof {
            assert forall|a: int, b: int|
                0 <= a < np && 0 <= b < np implies !#[trigger] mat_at(h_ok@, np as int, a, b) by {
                lemma_idx_in_range(np as int, np as int, b, a);
            }
            assert forall|a: int, b: int|
                0 <= a < np && 0 <= b < np implies !#[trigger] mat_at(v_ok@, np as int, a, b) by {
                lemma_idx_in_range(np as int, np as int, b, a);
            }
        }
        let ghost catalog = patterns@;
        let mut y2: i32 = 0;
        while y2 < h - 1
            invariant
                src.inv(),
                src.width == w,
                src.height == h,
                0 <= y2 <= h - 1,
                16 <= w <= 4096,
                16 <= h <= 4096,
                1 <= np <= 81,
                patterns@ == catalog,
                patterns@.len() == np,
                h_ok@.len() == np * np,
                v_ok@.len() == np * np,
                idx_grid@.len() == (h - 1) * (w - 1),
                forall|a: int, b: int|
                    0 <= a < w - 1 && 0 <= b < h - 1 ==> (#[trigger] win_idx_at(
                        idx_grid@,
                        w as int - 1,
                        a,
                        b,
                    )) < np && patterns@[win_idx_at(idx_grid@, w as int - 1, a, b) as int]
                        == spec_chunk_at(src, a, b),
                forall|a: int, b: int|
                    0 <= a < np && 0 <= b < np && #[trigger] mat_at(h_ok@, np as int, a, b)
                        ==> observed_h(src, patterns@[a], patterns@[b]),
                forall|a: int, b: int|
                    0 <= a < np && 0 <= b < np && #[trigger] mat_at(v_ok@, np as int, a, b)
                        ==> observed_v(src, patterns@[a], patterns@[b]),
            decreases h - 1 - y2,
        {
            let mut x2: i32 = 0;
            while x2 < w - 1
                invariant
                    src.inv(),
                    src.width == w,
                    src.height == h,
                    0 <= y2 < h - 1,
                    0 <= x2 <= w - 1,
                    16 <= w <= 4096,
                    16 <= h <= 4096,
                    1 <= np <= 81,
                    patterns@ == catalog,
                    patterns@.len() == np,
                    h_ok@.len() == np * np,
                    v_ok@.len() == np * np,
                    idx_grid@.len() == (h - 1) * (w - 1),
                    forall|a: int, b: int|
                        0 <= a < w - 1 && 0 <= b < h - 1 ==> (#[trigger] win_idx_at(
                            idx_grid@,
                            w as int - 1,
                            a,
                            b,
                        )) < np && patterns@[win_idx_at(idx_grid@, w as int - 1, a, b) as int]
                            == spec_chunk_at(src, a, b),
                    forall|a: int, b: int|
                        0 <= a < np && 0 <= b < np && #[trigger] mat_at(h_ok@, np as int, a, b)
                            ==> observed_h(src, patterns@[a], patterns@[b]),
                    forall|a: int, b: int|
                        0 <= a < np && 0 <= b < np && #[trigger] mat_at(v_ok@, np as int, a, b)
                            ==> observed_v(src, patterns@[a], patterns@[b]),
                decreases w - 1 - x2,
            {
                proof {
                    lemma_idx_in_range(w as int - 1, h as int - 1, x2 as int, y2 as int);
                    assert((h as int - 1) * (w as int - 1) == (w as int - 1) * (h as int - 1))
                        by (nonlinear_arith);
                }
                let here = idx_grid[(y2 as usize) * ((w as usize) - 1) + (x2 as usize)];
                proof {
                    assert(here == win_idx_at(
                        idx_grid@,
                        w as int - 1,
                        x2 as int,
                        y2 as int,
                    ));
                }
                if x2 + 2 < w - 1 {
                    proof {
                        lemma_idx_in_range(w as int - 1, h as int - 1, x2 as int + 2, y2 as int);
                    }
                    let right = idx_grid[(y2 as usize) * ((w as usize) - 1) + (x2 as usize) + 2];
                    proof {
                        assert(right == win_idx_at(
                            idx_grid@,
                            w as int - 1,
                            x2 as int + 2,
                            y2 as int,
                        ));
                    }
                    proof {
                        reveal(observed_h);
                        assert(spec_chunk_at(src, x2 as int, y2 as int) == patterns@[here as int]
                            && spec_chunk_at(src, x2 as int + 2, y2 as int)
                            == patterns@[right as int]);
                        assert(observed_h(src, patterns@[here as int], patterns@[right as int]));
                    }
                    record_adjacency(
                        &mut h_ok,
                        np,
                        here,
                        right,
                        Ghost(src),
                        Ghost(patterns@),
                        Ghost(true),
                    );
                }
                if y2 + 2 < h - 1 {
                    proof {
                        lemma_idx_in_range(w as int - 1, h as int - 1, x2 as int, y2 as int + 2);
                    }
                    let down = idx_grid[((y2 as usize) + 2) * ((w as usize) - 1) + (x2 as usize)];
                    proof {
                        assert(down == win_idx_at(
                            idx_grid@,
                            w as int - 1,
                            x2 as int,
                            y2 as int + 2,
                        ));
                    }
                    proof {
                        reveal(observed_v);
                        assert(spec_chunk_at(src, x2 as int, y2 as int) == patterns@[here as int]
                            && spec_chunk_at(src, x2 as int, y2 as int + 2)
                            == patterns@[down as int]);
                        assert(observed_v(src, patterns@[here as int], patterns@[down as int]));
                    }
                    record_adjacency(
                        &mut v_ok,
                        np,
                        here,
                        down,
                        Ghost(src),
                        Ghost(patterns@),
                        Ghost(false),
                    );
                }
                x2 = x2 + 1;
            }
            y2 = y2 + 1;
        }
        // synthesis: place one chunk per 2x2 cell, row-major, each
        // compatible with its placed left and upper neighbours
        let cw = w / 2;
        let ch = h / 2;
        proof {
            assert(w == 2 * (w / 2) && h == 2 * (h / 2)) by (nonlinear_arith)
                requires
                    w % 2 == 0,
                    h % 2 == 0,
                    0 < w,
                    0 < h,
            ;
            assert(8 <= w / 2 && 8 <= h / 2) by (nonlinear_arith)
                requires
                    16 <= w,
                    16 <= h,
            ;
        }
        let mut attempt: i32 = 0;
        let mut cells_done: Option<Vec<usize>> = None;
        while cells_done.is_none() && attempt < 10
            invariant
                1 <= np <= 81,
                8 <= cw,
                8 <= ch,
                cw <= 2048,
                ch <= 2048,
                h_ok@.len() == np * np,
                v_ok@.len() == np * np,
                patterns@.len() == np,
                counts@.len() == np,
                forall|k: int| 0 <= k < counts@.len() ==> 1 <= #[trigger] counts@[k] <= 1000000,
                0 <= attempt <= 10,
                cells_done matches Some(cs) ==> cs@.len() == cw * ch && (forall|k: int|
                    0 <= k < cs@.len() ==> #[trigger] cs@[k] < np) && cells_compat(
                    cs@,
                    h_ok@,
                    v_ok@,
                    np as int,
                    cw as int,
                    ch as int,
                ),
            decreases 10 - attempt,
        {
            let mut cells: Vec<usize> = Vec::new();
            let mut failed = false;
            let mut cy: i32 = 0;
            while !failed && cy < ch
                invariant
                    1 <= np <= 81,
                    8 <= cw,
                    8 <= ch,
                    cw <= 2048,
                    ch <= 2048,
                    h_ok@.len() == np * np,
                    v_ok@.len() == np * np,
                    patterns@.len() == np,
                    counts@.len() == np,
                    forall|k: int|
                        0 <= k < counts@.len() ==> 1 <= #[trigger] counts@[k] <= 1000000,
                    0 <= cy <= ch,
                    !failed ==> cells@.len() == cy * cw,
                    forall|k: int| 0 <= k < cells@.len() ==> #[trigger] cells@[k] < np,
                    cells_compat_upto(
                        cells@,
                        h_ok@,
                        v_ok@,
                        np as int,
                        cw as int,
                        cells@.len() as int,
                    ),
                decreases ch - cy,
            {
                let mut cx: i32 = 0;
                while !failed && cx < cw
                    invariant
                        1 <= np <= 81,
                        8 <= cw,
                        8 <= ch,
                        cw <= 2048,
                        ch <= 2048,
                        h_ok@.len() == np * np,
                        v_ok@.len() == np * np,
                        patterns@.len() == np,
                        counts@.len() == np,
                        forall|k: int|
                            0 <= k < counts@.len() ==> 1 <= #[trigger] counts@[k] <= 1000000,
                        0 <= cy < ch,
                        0 <= cx <= cw,
                        !failed ==> cells@.len() == cy * cw + cx,
                        forall|k: int| 0 <= k < cells@.len() ==> #[trigger] cells@[k] < np,
                        cells_compat_upto(
                            cells@,
                            h_ok@,
                            v_ok@,
                            np as int,
                            cw as int,
                            cells@.len() as int,
                        ),
                    decreases cw - cx,
                {
                    let mut left_cell: usize = 0;
                    let mut up_cell: usize = 0;
                    if cx > 0 {
                        proof {
                            assert(cells@.len() >= 1) by (nonlinear_arith)
                                requires
                                    cells@.len() == cy * cw + cx,
                                    0 <= cy,
                                    1 <= cx,
                                    0 < cw,
                            ;
                        }
                        left_cell = cells[cells.len() - 1];
                    }
                    if cy > 0 {
                        proof {
                            assert(cells@.len() - cw >= 0 && (cy - 1) * cw + cx == cy * cw + cx
                                - cw) by (nonlinear_arith)
                                requires
                                    cells@.len() == cy * cw + cx,
                                    1 <= cy,
                                    0 <= cx,
                                    0 < cw,
                            ;
                        }
                        up_cell = cells[cells.len() - cw as usize];
                    }
                    let mut candidates: Vec<usize> = Vec::new();
                    let mut total: i32 = 0;
                    let mut p: usize = 0;
                    while p < np
                        invariant
                            1 <= np <= 81,
                            h_ok@.len() == np * np,
                            v_ok@.len() == np * np,
                            counts@.len() == np,
                            forall|k: int|
                                0 <= k < counts@.len() ==> 1 <= #[trigger] counts@[k]
                                    <= 1000000,
                            p <= np,
                            candidates@.len() <= p,
                            forall|k: int|
                                0 <= k < candidates@.len() ==> #[trigger] candidates@[k] < np,
                            forall|k: int|
                                0 <= k < candidates@.len() ==> {
                                    &&& (cx > 0 ==> mat_at(
                                        h_ok@,
                                        np as int,
                                        left_cell as int,
                                        (#[trigger] candidates@[k]) as int,
                                    ))
                                    &&& (cy > 0 ==> mat_at(
                                        v_ok@,
                                        np as int,
                                        up_cell as int,
                                        candidates@[k] as int,
                                    ))
                                },
                            0 <= total <= 1000000 * p as int,
                            candidates@.len() >= 1 ==> total >= 1,
                            cells@.len() == cy * cw + cx,
                            0 <= cy < ch,
                            0 <= cx < cw,
                            cw <= 2048,
                            ch <= 2048,
                            left_cell < np,
                            up_cell < np,
                        decreases np - p,
                    {
                        let mut fits = true;
                        if cx > 0 {
                            proof {
                                lemma_idx_in_range(np as int, np as int, p as int, left_cell as int);
                            }
                            if !h_ok[left_cell * np + p] {
                                fits = false;
                            }
                        }
                        if fits && cy > 0 {
                            proof {
                                lemma_idx_in_range(np as int, np as int, p as int, up_cell as int);
                            }
                            if !v_ok[up_cell * np + p] {
                                fits = false;
                            }
                        }
                        if fits {
                            candidates.push(p);
                            total = total + counts[p];
                        }
                        p = p + 1;
                    }
                    if candidates.len() == 0 {
                        failed = true;
                    } else {
                        // weighted draw among the compatible chunks
                        let mut rem = rng_roll_dice(rng, 1, total) - 1;
                        let mut chosen = candidates[0];
                        let mut ci2: usize = 0;
                        let mut picked = false;
                        while ci2 < candidates.len()
                            invariant
                                0 <= rem,
                                candidates@.len() >= 1,
                                counts@.len() == np,
                                forall|k: int|
                                    0 <= k < counts@.len() ==> 1 <= #[trigger] counts@[k]
                                        <= 1000000,
                                forall|k: int|
                                    0 <= k < candidates@.len() ==> #[trigger] candidates@[k]
                                        < np,
                                forall|k: int|
                                    0 <= k < candidates@.len() ==> {
                                        &&& (cx > 0 ==> mat_at(
                                            h_ok@,
                                            np as int,
                                            left_cell as int,
                                            (#[trigger] candidates@[k]) as int,
                                        ))
                                        &&& (cy > 0 ==> mat_at(
                                            v_ok@,
                                            np as int,
                                            up_cell as int,
                                            candidates@[k] as int,
                                        ))
                                    },
                                ci2 <= candidates@.len(),
                                chosen < np,
                                cx > 0 ==> mat_at(
                                    h_ok@,
                                    np as int,
                                    left_cell as int,
                                    chosen as int,
                                ),
                                cy > 0 ==> mat_at(
                                    v_ok@,
                                    np as int,
                                    up_cell as int,
                                    chosen as int,
                                ),
                            decreases candidates@.len() - ci2,
                        {
                            let cand = candidates[ci2];
                            let cnt = counts[cand];
                            if !picked && rem < cnt {
                                chosen = cand;
                                picked = true;
                            }
                            rem = if rem >= cnt {
                                rem - cnt
                            } else {
                                rem
                            };
                            ci2 = ci2 + 1;
                        }
                        let ghost cpre = cells@;
                        cells.push(chosen);
                        proof {
                            assert(cells@.drop_last() =~= cpre);
                            if cy > 0 {
                                assert((cy - 1) * cw + cx == cy * cw + cx - cw)
                                    by (nonlinear_arith);
                            }
                            lemma_cells_compat_push(
                                cells@,
                                h_ok@,
                                v_ok@,
                                np as int,
                                cw as int,
                                cy as int,
                                cx as int,
                            );
                        }
                    }
                    proof {
                        assert((cy * cw + cx) + 1 == cy * cw + (cx + 1));
                    }
                    cx = cx + 1;
                }
                proof {
                    assert((cy + 1) * cw == cy * cw + cw) by (nonlinear_arith);
                }
                cy = cy + 1;
            }
            if !failed {
                proof {
                    assert(ch * cw == cw * ch) by (nonlinear_arith);
                }
                cells_done = Some(cells);
            }
            attempt = attempt + 1;
        }
        match cells_done {
            None => false,
            Some(cells) => {
                self.stamp_cells(build_data, &patterns, &cells, cw, ch);
                proof {
                    lemma_retiled(
                        src,
                        build_data.map,
                        patterns@,
                        cells@,
                        h_ok@,
                        v_ok@,
                        np as int,
                        cw as int,
                        ch as int,
                    );
                    assert forall|a: int, b: int|
                        0 <= a < old(build_data).map.width && 0 <= b < old(
                            build_data,
                        ).map.height implies #[trigger] old(build_data).map.tile_at(a, b)
                        == src.tile_at(a, b) by {}
                    lemma_retiled_src_eq(src, old(build_data).map, build_data.map);
                }
                let ghost h1 = build_data.history@;
                build_data.take_snapshot();
                proof {
                    assert(build_data.history@.subrange(0, h1.len() as int) =~= h1);
                    lemma_history_extends_trans(
                        old(build_data).history@,
                        h1,
                        build_data.history@,
                    );
                }
                true
            },
        }
    }

    /// Writes the chosen chunk of every cell onto the grid.
    fn stamp_cells(
        &self,
        build_data: &mut BuilderMap,
        patterns: &Vec<Chunk>,
        cells: &Vec<usize>,
        cw: i32,
        ch: i32,
    )
        requires
            old(build_data).inv(),
            8 <= cw <= 2048,
            8 <= ch <= 2048,
            old(build_data).map.width == 2 * cw,
            old(build_data).map.height == 2 * ch,
            cells@.len() == cw * ch,
            forall|k: int| 0 <= k < cells@.len() ==> #[trigger] cells@[k] < patterns@.len(),
            forall|k: int| 0 <= k < patterns@.len() ==> chunk_no_stairs(#[trigger] patterns@[k]),
        ensures
            final(build_data).inv(),
            final(build_data).map.same_dims(old(build_data).map),
            final(build_data).map.no_stairs(),
            final(build_data).starting_position == old(build_data).starting_position,
            final(build_data).spawn_list == old(build_data).spawn_list,
            final(build_data).rooms == old(build_data).rooms,
            final(build_data).corridors == old(build_data).corridors,
            final(build_data).snapshot_enabled == old(build_data).snapshot_enabled,
            final(build_data).history == old(build_data).history,
            forall|a: int, b: int|
                0 <= a < cw && 0 <= b < ch ==> #[trigger] block_at(final(build_data).map, a, b)
                    == patterns@[cells@[b * cw + a] as int],
    {
        let mut cy: i32 = 0;
        while cy < ch
            invariant
                build_data.inv(),
                build_data.map.same_dims(old(build_data).map),
                build_data.starting_position == old(build_data).starting_position,
                build_data.spawn_list == old(build_data).spawn_list,
                build_data.rooms == old(build_data).rooms,
                build_data.corridors == old(build_data).corridors,
                build_data.snapshot_enabled == old(build_data).snapshot_enabled,
                build_data.history == old(build_data).history,
                8 <= cw <= 2048,
                8 <= ch <= 2048,
                build_data.map.width == 2 * cw,
                build_data.map.height == 2 * ch,
                cells@.len() == cw * ch,
                forall|k: int| 0 <= k < cells@.len() ==> #[trigger] cells@[k] < patterns@.len(),
                forall|k: int|
                    0 <= k < patterns@.len() ==> chunk_no_stairs(#[trigger] patterns@[k]),
                0 <= cy <= ch,
                forall|a: int, b: int|
                    0 <= a < cw && 0 <= b < cy ==> #[trigger] block_at(build_data.map, a, b)
                        == patterns@[cells@[b * cw + a] as int],
            decreases ch - cy,
        {
            let mut cx: i32 = 0;
            while cx < cw
                invariant
                    build_data.inv(),
                    build_data.map.same_dims(old(build_data).map),
                    build_data.starting_position == old(build_data).starting_position,
                    build_data.spawn_list == old(build_data).spawn_list,
                    build_data.rooms == old(build_data).rooms,
                    build_data.corridors == old(build_data).corridors,
                    build_data.snapshot_enabled == old(build_data).snapshot_enabled,
                    build_data.history == old(build_data).history,
                    8 <= cw <= 2048,
                    8 <= ch <= 2048,
                    build_data.map.width == 2 * cw,
                    build_data.map.height == 2 * ch,
                    cells@.len() == cw * ch,
                    forall|k: int|
                        0 <= k < cells@.len() ==> #[trigger] cells@[k] < patterns@.len(),
                    forall|k: int|
                        0 <= k < patterns@.len() ==> chunk_no_stairs(#[trigger] patterns@[k]),
                    0 <= cy < ch,
                    0 <= cx <= cw,
                    forall|a: int, b: int|
                        0 <= a < cw && 0 <= b < cy ==> #[trigger] block_at(build_data.map, a, b)
                            == patterns@[cells@[b * cw + a] as int],
                    forall|a: int|
                        0 <= a < cx ==> #[trigger] block_at(build_data.map, a, cy as int)
                            == patterns@[cells@[(cy as int) * cw + a] as int],
                decreases cw - cx,
            {
                proof {
                    lemma_idx_in_range(cw as int, ch as int, cx as int, cy as int);
                    assert(2 * cx + 1 < 2 * cw && 2 * cy + 1 < 2 * ch) by (nonlinear_arith)
                        requires
                            0 <= cx < cw,
                            0 <= cy < ch,
                    ;
                }
                let cell = cells[(cy as usize) * (cw as usize) + (cx as usize)];
                let pat = patterns[cell];
                let ghost gpre = build_data.map;
                build_data.map.set_tile(2 * cx, 2 * cy, pat.nw);
                build_data.map.set_tile(2 * cx + 1, 2 * cy, pat.ne);
                build_data.map.set_tile(2 * cx, 2 * cy + 1, pat.sw);
                build_data.map.set_tile(2 * cx + 1, 2 * cy + 1, pat.se);
                proof {
                    assert(block_at(build_data.map, cx as int, cy as int) == pat);
                    assert forall|a: int, b: int|
                        0 <= a < cw && (b < cy || (b == cy && a < cx)) && 0 <= b
                            implies #[trigger] block_at(build_data.map, a, b) == block_at(
                        gpre,
                        a,
                        b,
                    ) by {
                        assert(2 * a + 1 < 2 * cx || 2 * cx + 1 < 2 * a || 2 * b + 1 < 2 * cy
                            || 2 * cy + 1 < 2 * b) by (nonlinear_arith)
                            requires
                                0 <= a,
                                0 <= b,
                                (a != cx || b != cy),
                                b <= cy,
                        ;
                    }
                }
                cx = cx + 1;
            }
            proof {
                assert forall|a: int, b: int|
                    0 <= a < cw && 0 <= b < cy + 1 implies #[trigger] block_at(
                    build_data.map,
                    a,
                    b,
                ) == patterns@[cells@[b * cw + a] as int] by {}
            }
            cy = cy + 1;
        }
        proof {
            let w = build_data.map.width as int;
            let h = build_data.map.height as int;
            assert forall|x: int, y: int|
                0 <= x < w && 0 <= y < h implies #[trigger] build_data.map.tile_at(x, y)
                != TileType::DownStairs by {
                let a = x / 2;
                let b = y / 2;
                assert(0 <= a < cw && 0 <= b < ch && (x == 2 * a || x == 2 * a + 1) && (y == 2
                    * b || y == 2 * b + 1)) by (nonlinear_arith)
                    requires
                        0 <= x < w,
                        0 <= y < h,
                        w == 2 * (cw as int),
                        h == 2 * (ch as int),
                        a == x / 2,
                        b == y / 2,
                ;
                lemma_idx_in_range(cw as int, ch as int, a, b);
                assert(block_at(build_data.map, a, b) == patterns@[cells@[b * (cw as int)
                    + a] as int]);
                assert(chunk_no_stairs(patterns@[cells@[b * (cw as int) + a] as int]));
            }
        }
    }
}

/// The cell index stored for cell column a, row b.
pub open spec fn cell_at(cs: Seq<usize>, cw: int, a: int, b: int) -> usize {
    cs[b * cw + a]
}

/// Every placed cell is compatible with its left and upper neighbours,
/// for the first `upto` cells of a row-major cell sequence.
pub open spec fn cells_compat_upto(
    cs: Seq<usize>,
    h_ok: Seq<bool>,
    v_ok: Seq<bool>,
    np: int,
    cw: int,
    upto: int,
) -> bool {
    forall|a: int, b: int|
        0 <= a < cw && 0 <= b && b * cw + a < upto && b * cw + a < cs.len() ==> {
            &&& (a >= 1 ==> mat_at(
                h_ok,
                np,
                cell_at(cs, cw, a - 1, b) as int,
                (#[trigger] cell_at(cs, cw, a, b)) as int,
            ))
            &&& (b >= 1 ==> mat_at(
                v_ok,
                np,
                cell_at(cs, cw, a, b - 1) as int,
                cell_at(cs, cw, a, b) as int,
            ))
        }
}

pub open spec fn cells_compat(
    cs: Seq<usize>,
    h_ok: Seq<bool>,
    v_ok: Seq<bool>,
    np: int,
    cw: int,
    ch: int,
) -> bool {
    cells_compat_upto(cs, h_ok, v_ok, np, cw, cs.len() as int)
}

/// Pushing a compatible cell keeps the whole prefix compatible.
proof fn lemma_cells_compat_push(
    cs: Seq<usize>,
    h_ok: Seq<bool>,
    v_ok: Seq<bool>,
    np: int,
    cw: int,
    cy: int,
    cx: int,
)
    requires
        0 < cw,
        0 <= cy,
        0 <= cx < cw,
        cs.len() == cy * cw + cx + 1,
        cells_compat_upto(cs.drop_last(), h_ok, v_ok, np, cw, cs.len() - 1),
        cx >= 1 ==> mat_at(h_ok, np, cs[cs.len() - 2] as int, cs.last() as int),
        cy >= 1 ==> mat_at(v_ok, np, cs[cs.len() - 1 - cw] as int, cs.last() as int),
    ensures
        cells_compat_upto(cs, h_ok, v_ok, np, cw, cs.len() as int),
{
    assert forall|a: int, b: int|
        0 <= a < cw && 0 <= b && b * cw + a < cs.len() implies {
        &&& (a >= 1 ==> mat_at(
            h_ok,
            np,
            cell_at(cs, cw, a - 1, b) as int,
            (#[trigger] cell_at(cs, cw, a, b)) as int,
        ))
        &&& (b >= 1 ==> mat_at(
            v_ok,
            np,
            cell_at(cs, cw, a, b - 1) as int,
            cell_at(cs, cw, a, b) as int,
        ))
    } by {
        if b * cw + a < cs.len() - 1 {
            assert(cell_at(cs.drop_last(), cw, a, b) == cell_at(cs, cw, a, b));
            if a >= 1 {
                assert(cell_at(cs.drop_last(), cw, a - 1, b) == cell_at(cs, cw, a - 1, b));
            }
            if b >= 1 {
                assert((b - 1) * cw + a == b * cw + a - cw) by (nonlinear_arith);
                assert(cell_at(cs.drop_last(), cw, a, b - 1) == cell_at(cs, cw, a, b - 1));
            }
        } else {
            assert(b * cw + a == cy * cw + cx);
            crate::grid::lemma_idx_inj(cw, a, b, cx, cy);
            assert(cell_at(cs, cw, a, b) == cs.last());
            if a >= 1 {
                assert(cell_at(cs, cw, a - 1, b) == cs[cs.len() - 2]);
            }
            if b >= 1 {
                assert((b - 1) * cw + a == b * cw + a - cw) by (nonlinear_arith);
                assert(cell_at(cs, cw, a, b - 1) == cs[cs.len() - 1 - cw]);
            }
        }
    }
}

/// The stamped grid is a re-tiling of the source: blocks come from the
/// catalog (hence from the source) and neighbouring blocks passed the
/// observed-adjacency matrices.
#[verifier::rlimit(100)]
#[verifier::spinoff_prover]
proof fn lemma_retiled(
    src: Grid,
    out: Grid,
    patterns: Seq<Chunk>,
    cells: Seq<usize>,
    h_ok: Seq<bool>,
    v_ok: Seq<bool>,
    np: int,
    cw: int,
    ch: int,
)
    requires
        out.width == src.width,
        out.height == src.height,
        out.width == 2 * cw,
        out.height == 2 * ch,
        0 < cw <= 4096,
        0 < ch <= 4096,
        patterns.len() == np,
        cells.len() == cw * ch,
        forall|k: int| 0 <= k < cells.len() ==> (#[trigger] cells[k]) < np,
        forall|k: int| 0 <= k < patterns.len() ==> chunk_from(src, #[trigger] patterns[k]),
        forall|a: int, b: int|
            0 <= a < np && 0 <= b < np && #[trigger] mat_at(h_ok, np, a, b) ==> observed_h(
                src,
                patterns[a],
                patterns[b],
            ),
        forall|a: int, b: int|
            0 <= a < np && 0 <= b < np && #[trigger] mat_at(v_ok, np, a, b) ==> observed_v(
                src,
                patterns[a],
                patterns[b],
            ),
        cells_compat(cells, h_ok, v_ok, np, cw, ch),
        forall|a: int, b: int|
            0 <= a < cw && 0 <= b < ch ==> #[trigger] block_at(out, a, b) == patterns[cells[b * cw
                + a] as int],
    ensures
        retiled_from(src, out),
{
    assert(out.width / 2 == cw && out.height / 2 == ch) by (nonlinear_arith)
        requires
            out.width == 2 * cw,
            out.height == 2 * ch,
            0 < cw,
            0 < ch,
    ;
    assert forall|cx: int, cy: int|
        0 <= cx < out.width / 2 && 0 <= cy < out.height / 2 implies chunk_from(
        src,
        #[trigger] block_at(out, cx, cy),
    ) by {
        lemma_idx_in_range(cw, ch, cx, cy);
    }
    assert forall|cx: int, cy: int|
        0 <= cx && cx + 1 < out.width / 2 && 0 <= cy < out.height / 2 implies #[trigger] adj_h_ok(
        src,
        out,
        cx,
        cy,
    ) by {
        lemma_idx_in_range(cw, ch, cx, cy);
        lemma_idx_in_range(cw, ch, cx + 1, cy);
        assert(cell_at(cells, cw, cx, cy) == cells[cy * cw + cx]);
        assert(cell_at(cells, cw, cx + 1, cy) == cells[cy * cw + cx + 1]);
        assert(mat_at(
            h_ok,
            np,
            cell_at(cells, cw, cx, cy) as int,
            cell_at(cells, cw, cx + 1, cy) as int,
        ));
    }
    assert forall|cx: int, cy: int|
        0 <= cx < out.width / 2 && 0 <= cy && cy + 1 < out.height / 2 implies #[trigger] adj_v_ok(
        src,
        out,
        cx,
        cy,
    ) by {
        lemma_idx_in_range(cw, ch, cx, cy);
        lemma_idx_in_range(cw, ch, cx, cy + 1);
        assert((cy + 1) * cw + cx == cy * cw + cx + cw) by (nonlinear_arith);
        assert(cell_at(cells, cw, cx, cy) == cells[cy * cw + cx]);
        assert(cell_at(cells, cw, cx, cy + 1) == cells[(cy + 1) * cw + cx]);
        assert(mat_at(
            v_ok,
            np,
            cell_at(cells, cw, cx, cy) as int,
            cell_at(cells, cw, cx, cy + 1) as int,
        ));
    }
}

/// A chunk of a copy of a grid is a chunk of the grid itself.
#[verifier::rlimit(100)]
#[verifier::spinoff_prover]
proof fn lemma_chunk_from_eq(src: Grid, orig: Grid, c: Chunk)
    requires
        src.width == orig.width,
        src.height == orig.height,
        forall|a: int, b: int|
            0 <= a < orig.width && 0 <= b < orig.height ==> #[trigger] orig.tile_at(a, b)
                == src.tile_at(a, b),
        chunk_from(src, c),
    ensures
        chunk_from(orig, c),
{
    reveal(chunk_from);
    let (x, y) = choose|x: int, y: int|
        #[trigger] spec_chunk_at(src, x, y) == c && window_bounds(src, x, y);
    assert(spec_chunk_at(orig, x, y) == c && window_bounds(orig, x, y));
}

#[verifier::rlimit(100)]
#[verifier::spinoff_prover]
proof fn lemma_observed_h_eq(src: Grid, orig: Grid, c1: Chunk, c2: Chunk)
    requires
        src.width == orig.width,
        src.height == orig.height,
        forall|a: int, b: int|
            0 <= a < orig.width && 0 <= b < orig.height ==> #[trigger] orig.tile_at(a, b)
                == src.tile_at(a, b),
        observed_h(src, c1, c2),
    ensures
        observed_h(orig, c1, c2),
{
    reveal(observed_h);
    let (x, y) = choose|x: int, y: int|
        #[trigger] spec_chunk_at(src, x, y) == c1 && spec_chunk_at(src, x + 2, y) == c2
            && window_bounds(src, x, y) && window_bounds(src, x + 2, y);
    assert(spec_chunk_at(orig, x, y) == c1 && spec_chunk_at(orig, x + 2, y) == c2);
}

#[verifier::rlimit(100)]
#[verifier::spinoff_prover]
proof fn lemma_observed_v_eq(src: Grid, orig: Grid, c1: Chunk, c2: Chunk)
    requires
        src.width == orig.width,
        src.height == orig.height,
        forall|a: int, b: int|
            0 <= a < orig.width && 0 <= b < orig.height ==> #[trigger] orig.tile_at(a, b)
                == src.tile_at(a, b),
        observed_v(src, c1, c2),
    ensures
        observed_v(orig, c1, c2),
{
    reveal(observed_v);
    let (x, y) = choose|x: int, y: int|
        #[trigger] spec_chunk_at(src, x, y) == c1 && spec_chunk_at(src, x, y + 2) == c2
            && window_bounds(src, x, y) && window_bounds(src, x, y + 2);
    assert(spec_chunk_at(orig, x, y) == c1 && spec_chunk_at(orig, x, y + 2) == c2);
}

/// A re-tiling of a copy of a grid is a re-tiling of the grid itself.
proof fn lemma_retiled_src_eq(src: Grid, orig: Grid, out: Grid)
    requires
        src.width == orig.width,
        src.height == orig.height,
        forall|a: int, b: int|
            0 <= a < orig.width && 0 <= b < orig.height ==> #[trigger] orig.tile_at(a, b)
                == src.tile_at(a, b),
        retiled_from(src, out),
    ensures
        retiled_from(orig, out),
{
    assert forall|cx: int, cy: int|
        0 <= cx < out.width / 2 && 0 <= cy < out.height / 2 implies chunk_from(
        orig,
        #[trigger] block_at(out, cx, cy),
    ) by {
        lemma_chunk_from_eq(src, orig, block_at(out, cx, cy));
    }
    assert forall|cx: int, cy: int|
        0 <= cx && cx + 1 < out.width / 2 && 0 <= cy < out.height / 2 implies #[trigger] adj_h_ok(
        orig,
        out,
        cx,
        cy,
    ) by {
        assert(adj_h_ok(src, out, cx, cy));
        lemma_observed_h_eq(src, orig, block_at(out, cx, cy), block_at(out, cx + 1, cy));
    }
    assert forall|cx: int, cy: int|
        0 <= cx < out.width / 2 && 0 <= cy && cy + 1 < out.height / 2 implies #[trigger] adj_v_ok(
        orig,
        out,
        cx,
        cy,
    ) by {
        assert(adj_v_ok(src, out, cx, cy));
        lemma_observed_v_eq(src, orig, block_at(out, cx, cy), block_at(out, cx, cy + 1));
    }
}

} // verus!
