use vstd::prelude::*;
use crate::geometry::{Position, Rect};
use crate::grid::Grid;

verus! {

/// One entry of the spawn list: the flat tile index an entity should
/// appear on, and the template key naming what to spawn there.
pub struct SpawnEntry {
    pub idx: usize,
    pub key: String,
}

/// The spawn list invariant: all tile indices are distinct, none sits on
/// the starting tile, and all lie inside the grid.
pub open spec fn spawns_ok(list: Seq<SpawnEntry>, start_idx: int, n: int) -> bool {
    &&& forall|i: int, j: int|
        0 <= i < j < list.len() ==> (#[trigger] list[i]).idx != (#[trigger] list[j]).idx
    &&& forall|i: int| 0 <= i < list.len() ==> (#[trigger] list[i]).idx != start_idx
    &&& forall|i: int| 0 <= i < list.len() ==> (#[trigger] list[i]).idx < n
}

/// Every room rectangle keeps a one-tile wall margin inside the grid, so
/// its interior (x1, x2] x (y1, y2] is carved floor.
pub open spec fn rooms_wf(rooms: Seq<Rect>, w: int, h: int) -> bool {
    forall|i: int|
        0 <= i < rooms.len() ==> {
            let r = #[trigger] rooms[i];
            0 <= r.x1 && r.x1 + 2 <= r.x2 && r.x2 < w && 0 <= r.y1 && r.y1 + 2 <= r.y2 && r.y2
                < h
        }
}

/// No two recorded rooms intersect.
pub open spec fn rooms_disjoint(rooms: Seq<Rect>) -> bool {
    forall|i: int, j: int|
        0 <= i < j < rooms.len() ==> !(#[trigger] rooms[i]).spec_intersect(#[trigger] rooms[j])
}

/// The flat tile index of the chosen starting position.
pub open spec fn start_index(bm: BuilderMap) -> int {
    let p = bm.starting_position->Some_0;
    (p.y as int) * (bm.map.width as int) + (p.x as int)
}

/// The centers of the first and last recorded room are walkable and the
/// first reaches the last: what the room-chain carving establishes and
/// the stairs placement relies on.
pub open spec fn rooms_connected(g: crate::grid::Grid, rooms: Seq<Rect>) -> bool {
    rooms.len() >= 1 ==> {
        let c0 = rooms[0].spec_center();
        let cl = rooms[rooms.len() - 1].spec_center();
        &&& crate::path::walk_at(g, c0.0, c0.1)
        &&& crate::path::walk_at(g, cl.0, cl.1)
        &&& crate::path::reachable(g, c0.0, c0.1, cl.0, cl.1)
    }
}

/// Every recorded room's center is walkable.
pub open spec fn centers_walk(g: crate::grid::Grid, rooms: Seq<Rect>) -> bool {
    forall|j: int|
        0 <= j < rooms.len() ==> crate::path::walk_at(
            g,
            (#[trigger] rooms[j]).spec_center().0,
            rooms[j].spec_center().1,
        )
}

/// The snapshot history is append-only: the newer list begins with the
/// older one.
pub open spec fn history_extends(older: Seq<Grid>, newer: Seq<Grid>) -> bool {
    older.len() <= newer.len() && newer.subrange(0, older.len() as int) == older
}

pub proof fn lemma_history_extends_trans(a: Seq<Grid>, b: Seq<Grid>, c: Seq<Grid>)
    requires
        history_extends(a, b),
        history_extends(b, c),
    ensures
        history_extends(a, c),
{
    assert forall|i: int| 0 <= i < a.len() implies c.subrange(0, a.len() as int)[i] == a[i] by {
        assert(b.subrange(0, a.len() as int)[i] == a[i]);
        assert(c.subrange(0, b.len() as int)[i] == b[i]);
    }
    assert(c.subrange(0, a.len() as int) =~= a);
}

/// The shared build state that one generation run threads through each
/// of its pipeline stages.
pub struct BuilderMap {
    pub map: Grid,
    pub starting_position: Option<Position>,
    pub rooms: Option<Vec<Rect>>,
    pub corridors: Option<Vec<Vec<usize>>>,
    pub spawn_list: Vec<SpawnEntry>,
    pub history: Vec<Grid>,
    pub snapshot_enabled: bool,
}

impl BuilderMap {
    pub open spec fn inv(self) -> bool {
        &&& self.map.inv()
        &&& forall|i: int| 0 <= i < self.history@.len() ==> (#[trigger] self.history@[i]).inv()
        &&& forall|i: int|
            0 <= i < self.history@.len() ==> crate::grid::grid_all_revealed(
                #[trigger] self.history@[i],
            )
        &&& !self.snapshot_enabled ==> self.history@.len() == 0
    }

    /// Fresh build state: an all-wall grid and nothing else decided yet.
    pub fn new(new_depth: i32, width: i32, height: i32, snapshot_enabled: bool) -> (r: BuilderMap)
        requires
            crate::grid::MIN_DIM <= width <= crate::grid::MAX_DIM,
            crate::grid::MIN_DIM <= height <= crate::grid::MAX_DIM,
        ensures
            r.inv(),
            r.map.width == width,
            r.map.height == height,
            r.map.depth == new_depth,
            r.map.no_stairs(),
            r.starting_position is None,
            r.rooms is None,
            r.corridors is None,
            r.spawn_list@.len() == 0,
            r.history@.len() == 0,
            r.snapshot_enabled == snapshot_enabled,
    {
        let g = Grid::new(new_depth, width, height);
        proof {
            assert forall|x: int, y: int|
                0 <= x < g.width && 0 <= y < g.height implies #[trigger] g.tile_at(x, y)
                != crate::tile::TileType::DownStairs by {
                crate::grid::lemma_idx_in_range(g.width as int, g.height as int, x, y);
            }
        }
        BuilderMap {
            map: g,
            starting_position: None,
            rooms: None,
            corridors: None,
            spawn_list: Vec::new(),
            history: Vec::new(),
            snapshot_enabled,
        }
    }

    /// Records a copy of the current grid, fully revealed, at the end of
    /// the snapshot history.  Does nothing when snapshots are disabled.
    pub fn take_snapshot(&mut self)
        requires
            old(self).inv(),
        ensures
            final(self).inv(),
            final(self).map == old(self).map,
            final(self).starting_position == old(self).starting_position,
            final(self).rooms == old(self).rooms,
            final(self).corridors == old(self).corridors,
            final(self).spawn_list == old(self).spawn_list,
            final(self).snapshot_enabled == old(self).snapshot_enabled,
            old(self).snapshot_enabled ==> {
                &&& final(self).history@.len() == old(self).history@.len() + 1
                &&& final(self).history@.subrange(0, old(self).history@.len() as int) == old(
                    self,
                ).history@
                &&& final(self).history@.last().tiles@ == old(self).map.tiles@
                &&& final(self).history@.last().same_dims(old(self).map)
                &&& crate::grid::grid_all_revealed(final(self).history@.last())
            },
            !old(self).snapshot_enabled ==> final(self).history == old(self).history,
    {
        if self.snapshot_enabled {
            let snap = self.map.snapshot();
            self.history.push(snap);
            proof {
                assert(self.history@.subrange(0, old(self).history@.len() as int) =~= old(
                    self,
                ).history@);
            }
        }
    }
}

} // verus!
