use vstd::prelude::*;
use bracket_random::prelude::RandomNumberGenerator;
use crate::area_based_spawner::AreaBasedSpawner;
use crate::bsp_dungeon::BspDungeonBuilder;
use crate::bsp_interior::BspInteriorBuilder;
use crate::builder_map::{
    rooms_connected, rooms_disjoint, rooms_wf, spawns_ok, start_index, BuilderMap,
};
use crate::common::{apply_l_tunnel, apply_room_to_map};
use crate::finalize::finalize_open_map;
use crate::geometry::{lemma_centers_distinct, Position, Rect};
use crate::grid::{Grid, MAX_DIM, MIN_DIM};
use crate::path::{lemma_floor_added_widen, reachable, walk_at};
use crate::rng::{rng_roll_dice, rng_seeded};
use crate::spawner::spawn_in_some_room;
use crate::area_based_spawner::spawn_reaches_start;
use crate::room_based_spawner::RoomBasedSpawner;
use crate::room_based_stairs::RoomBasedStairs;
use crate::room_based_starting_position::RoomBasedStartingPosition;
use crate::cellular_automata::CellularAutomataBuilder;
use crate::dla::DLABuilder;
use crate::drunkard::DrunkardsWalkBuilder;
use crate::maze::MazeBuilder;
use crate::simple_map::SimpleMapBuilder;
use crate::voronoi::VoronoiCellBuilder;
use crate::waveform_collapse::WaveformCollapseBuilder;

verus! {

/// The primitive generator a pipeline run starts with.
#[derive(Clone, Copy, PartialEq, Eq, Structural, Debug)]
pub enum PrimaryBuilder {
    SimpleMap,
    BspDungeon,
    BspInterior,
    CellularAutomata,
    DrunkardOpenArea,
    DrunkardOpenHalls,
    DrunkardWindingPassages,
    DrunkardFatPassages,
    DrunkardFearfulSymmetry,
    Maze,
    DlaWalkInwards,
    DlaWalkOutwards,
    DlaCentralAttractor,
    DlaInsectoid,
    VoronoiPythagoras,
    VoronoiManhattan,
}

/// The generators that record a room list and place the stairs and
/// start at room centers.
pub open spec fn room_pipeline(primary: PrimaryBuilder) -> bool {
    ||| primary == PrimaryBuilder::SimpleMap
    ||| primary == PrimaryBuilder::BspDungeon
    ||| primary == PrimaryBuilder::BspInterior
}

/// What a run of the room pipeline additionally promises: at least two
/// recorded rooms with their margins, pairwise disjoint, the stairs at
/// the last room's center and the start at the first room's center.
pub open spec fn room_pipeline_result(bm: BuilderMap, stairs: Position) -> bool {
    &&& bm.rooms is Some
    &&& bm.rooms->Some_0@.len() >= 2
    &&& rooms_wf(bm.rooms->Some_0@, bm.map.width as int, bm.map.height as int)
    &&& rooms_disjoint(bm.rooms->Some_0@)
    &&& (stairs.x as int, stairs.y as int) == bm.rooms->Some_0@[bm.rooms->Some_0@.len()
        - 1].spec_center()
    &&& bm.starting_position is Some
    &&& (bm.starting_position->Some_0.x as int, bm.starting_position->Some_0.y as int)
        == bm.rooms->Some_0@[0].spec_center()
}

/// Everything a finished level promises its consumers: a well-formed
/// grid holding exactly one staircase, a walkable start that reaches it,
/// a collision-free spawn list, non-overlapping rooms when rooms were
/// recorded, and a snapshot history ending in the final grid.
pub open spec fn level_ok(bm: BuilderMap, stairs: Position) -> bool {
    &&& bm.inv()
    &&& bm.starting_position is Some
    &&& walk_at(
        bm.map,
        bm.starting_position->Some_0.x as int,
        bm.starting_position->Some_0.y as int,
    )
    &&& bm.map.one_stairs(stairs.x as int, stairs.y as int)
    &&& reachable(
        bm.map,
        bm.starting_position->Some_0.x as int,
        bm.starting_position->Some_0.y as int,
        stairs.x as int,
        stairs.y as int,
    )
    &&& (bm.starting_position->Some_0.x != stairs.x || bm.starting_position->Some_0.y
        != stairs.y)
    &&& spawns_ok(bm.spawn_list@, start_index(bm), bm.map.tiles@.len() as int)
    &&& (bm.rooms matches Some(rs) ==> rooms_disjoint(rs@))
    &&& (bm.rooms matches Some(rs) ==> forall|t: int|
        0 <= t < bm.spawn_list@.len() ==> spawn_in_some_room(
            #[trigger] bm.spawn_list@[t],
            rs@,
            bm.map.width as int,
        ))
    &&& (bm.rooms is None ==> forall|t: int|
        0 <= t < bm.spawn_list@.len() ==> spawn_reaches_start(
            #[trigger] bm.spawn_list@[t],
            bm.map,
            bm.starting_position->Some_0.x as int,
            bm.starting_position->Some_0.y as int,
        ))
    &&& (bm.snapshot_enabled ==> bm.history@.len() >= 1 && bm.history@.last().tiles@
        == bm.map.tiles@ && crate::grid::grid_all_revealed(bm.history@.last()))
    &&& (!bm.snapshot_enabled ==> bm.history@.len() == 0)
}

/// The entity-spawning collaborator: it receives each (tile index,
/// template key) spawn entry and materializes a live game entity.  The
/// generation core never constructs entities itself.
pub trait EntityFactory {
    fn spawn_entity(&mut self, idx: usize, key: &str);
}

/// A finished generation run: the final build state plus where the
/// staircase ended up.
pub struct BuilderChain {
    pub build_data: BuilderMap,
    pub stairs: Position,
}

impl BuilderChain {
    /// A copy of the finished grid.
    pub fn get_map(&self) -> (r: Grid)
        requires
            self.build_data.inv(),
        ensures
            r.inv(),
            r.same_dims(self.build_data.map),
            r.tiles@ == self.build_data.map.tiles@,
    {
        self.build_data.map.clone_grid()
    }

    /// The chosen player start.
    pub fn get_starting_position(&self) -> (r: Position)
        requires
            self.build_data.starting_position is Some,
        ensures
            r == self.build_data.starting_position->Some_0,
    {
        match &self.build_data.starting_position {
            Some(p) => *p,
            None => {
                proof {
                    assert(false);
                }
                Position { x: 0, y: 0 }
            },
        }
    }

    /// The spawn intent list: what should appear on which tile.  The
    /// caller's entity factory materializes it.
    pub fn get_spawn_list(&self) -> (r: &Vec<crate::builder_map::SpawnEntry>)
        ensures
            r@ == self.build_data.spawn_list@,
    {
        &self.build_data.spawn_list
    }

    /// Hands every spawn entry, in order, to the caller's entity
    /// factory.
    pub fn spawn_entities<F: EntityFactory>(&self, factory: &mut F) {
        let mut i: usize = 0;
        while i < self.build_data.spawn_list.len()
            decreases self.build_data.spawn_list@.len() - i,
        {
            let entry = &self.build_data.spawn_list[i];
            factory.spawn_entity(entry.idx, entry.key.as_str());
            i = i + 1;
        }
    }

    /// The ordered snapshot history (empty unless snapshots were on).
    pub fn get_snapshot_history(&self) -> (r: Vec<Grid>)
        requires
            self.build_data.inv(),
        ensures
            r@.len() == self.build_data.history@.len(),
            forall|i: int|
                0 <= i < r@.len() ==> (#[trigger] r@[i]).tiles@
                    == self.build_data.history@[i].tiles@,
            forall|i: int|
                0 <= i < r@.len() ==> (#[trigger] r@[i]).revealed_tiles@
                    == self.build_data.history@[i].revealed_tiles@,
    {
        let mut out: Vec<Grid> = Vec::new();
        let mut i: usize = 0;
        while i < self.build_data.history.len()
            invariant
                self.build_data.inv(),
                i <= self.build_data.history@.len(),
                out@.len() == i,
                forall|j: int|
                    0 <= j < i ==> (#[trigger] out@[j]).tiles@
                        == self.build_data.history@[j].tiles@,
                forall|j: int|
                    0 <= j < i ==> (#[trigger] out@[j]).revealed_tiles@
                        == self.build_data.history@[j].revealed_tiles@,
            decreases self.build_data.history@.len() - i,
        {
            out.push(self.build_data.history[i].clone_grid());
            i = i + 1;
        }
        out
    }
}

/// Runs the stages that turn a finished room chain into a playable
/// level: stairs in the last room, start in the first, spawns in the
/// rest, and a closing snapshot.
fn finish_room_flow(rng: &mut RandomNumberGenerator, bm: &mut BuilderMap) -> (stairs: Position)
    requires
        old(bm).inv(),
        old(bm).map.no_stairs(),
        0 <= old(bm).map.depth <= 1000,
        old(bm).spawn_list@.len() == 0,
        old(bm).rooms is Some,
        old(bm).rooms->Some_0@.len() >= 2,
        rooms_wf(
            old(bm).rooms->Some_0@,
            old(bm).map.width as int,
            old(bm).map.height as int,
        ),
        rooms_disjoint(old(bm).rooms->Some_0@),
        rooms_connected(old(bm).map, old(bm).rooms->Some_0@),
    ensures
        final(bm).map.same_dims(old(bm).map),
        final(bm).snapshot_enabled == old(bm).snapshot_enabled,
        level_ok(*final(bm), stairs),
        final(bm).rooms == old(bm).rooms,
        room_pipeline_result(*final(bm), stairs),
{
    let mut stairs_stage = RoomBasedStairs {};
    stairs_stage.build_map(rng, bm);
    let mut start_stage = RoomBasedStartingPosition {};
    start_stage.build_map(rng, bm);
    let mut spawn_stage = RoomBasedSpawner {};
    spawn_stage.build_map(rng, bm);
    bm.take_snapshot();
    let stairs;
    match &bm.rooms {
        Some(rooms) => {
            let last = rooms.len() - 1;
            stairs = rooms[last].center();
        },
        None => {
            proof {
                assert(false);
            }
            stairs = Position { x: 0, y: 0 };
        },
    }
    proof {
        let rs = old(bm).rooms->Some_0@;
        lemma_centers_distinct(rs[0], rs[rs.len() - 1]);
    }
    stairs
}

/// Runs the stages that finish an organically carved map: connectivity
/// repair, culling, stairs, start, area spawning, closing snapshot.
fn finish_open_flow(rng: &mut RandomNumberGenerator, bm: &mut BuilderMap) -> (r: Option<Position>)
    requires
        old(bm).inv(),
        old(bm).map.no_stairs(),
        0 <= old(bm).map.depth <= 1000,
        old(bm).spawn_list@.len() == 0,
    ensures
        final(bm).map.same_dims(old(bm).map),
        final(bm).snapshot_enabled == old(bm).snapshot_enabled,
        r matches Some(st) ==> level_ok(*final(bm), st),
{
    bm.rooms = None;
    match finalize_open_map(&mut bm.map) {
        None => None,
        Some(pair) => {
            let (start, stairs) = pair;
            bm.starting_position = Some(start);
            let mut spawn_stage = AreaBasedSpawner {};
            spawn_stage.build_map(rng, bm);
            bm.take_snapshot();
            Some(stairs)
        },
    }
}

/// One attempt at running the selected pipeline on fresh build state.
fn try_build(
    primary: PrimaryBuilder,
    use_retiling: bool,
    rng: &mut RandomNumberGenerator,
    bm: &mut BuilderMap,
) -> (r: Option<Position>)
    requires
        old(bm).inv(),
        old(bm).map.no_stairs(),
        0 <= old(bm).map.depth <= 1000,
        old(bm).spawn_list@.len() == 0,
    ensures
        final(bm).map.same_dims(old(bm).map),
        final(bm).snapshot_enabled == old(bm).snapshot_enabled,
        r matches Some(st) ==> level_ok(*final(bm), st),
        (room_pipeline(primary) && !use_retiling) ==> (r matches Some(st)
            ==> room_pipeline_result(*final(bm), st)),
{
    let carved_rooms: bool;
    match primary {
        PrimaryBuilder::SimpleMap => {
            let gen = SimpleMapBuilder::new(bm.map.depth);
            let ok = gen.build_map(rng, bm);
            if !ok {
                return None;
            }
            carved_rooms = true;
        },
        PrimaryBuilder::BspDungeon => {
            let gen = BspDungeonBuilder::new(bm.map.depth);
            let ok = gen.build_map(rng, bm);
            if !ok {
                return None;
            }
            carved_rooms = true;
        },
        PrimaryBuilder::BspInterior => {
            let gen = BspInteriorBuilder::new(bm.map.depth);
            let ok = gen.build_map(rng, bm);
            if !ok {
                return None;
            }
            carved_rooms = true;
        },
        PrimaryBuilder::CellularAutomata => {
            let gen = CellularAutomataBuilder::new(bm.map.depth);
            gen.build_map(rng, bm);
            carved_rooms = false;
        },
        PrimaryBuilder::DrunkardOpenArea => {
            let gen = DrunkardsWalkBuilder::open_area(bm.map.depth);
            gen.build_map(rng, bm);
            carved_rooms = false;
        },
        PrimaryBuilder::DrunkardOpenHalls => {
            let gen = DrunkardsWalkBuilder::open_halls(bm.map.depth);
            gen.build_map(rng, bm);
            carved_rooms = false;
        },
        PrimaryBuilder::DrunkardWindingPassages => {
            let gen = DrunkardsWalkBuilder::winding_passages(bm.map.depth);
            gen.build_map(rng, bm);
            carved_rooms = false;
        },
        PrimaryBuilder::DrunkardFatPassages => {
            let gen = DrunkardsWalkBuilder::fat_passages(bm.map.depth);
            gen.build_map(rng, bm);
            carved_rooms = false;
        },
        PrimaryBuilder::DrunkardFearfulSymmetry => {
            let gen = DrunkardsWalkBuilder::fearful_symmetry(bm.map.depth);
            gen.build_map(rng, bm);
            carved_rooms = false;
        },
        PrimaryBuilder::Maze => {
            let gen = MazeBuilder::new(bm.map.depth);
            gen.build_map(rng, bm);
            carved_rooms = false;
        },
        PrimaryBuilder::DlaWalkInwards => {
            let gen = DLABuilder::walk_inwards(bm.map.depth);
            gen.build_map(rng, bm);
            carved_rooms = false;
        },
        PrimaryBuilder::DlaWalkOutwards => {
            let gen = DLABuilder::walk_outwards(bm.map.depth);
            gen.build_map(rng, bm);
            carved_rooms = false;
        },
        PrimaryBuilder::DlaCentralAttractor => {
            let gen = DLABuilder::central_attractor(bm.map.depth);
            gen.build_map(rng, bm);
            carved_rooms = false;
        },
        PrimaryBuilder::DlaInsectoid => {
            let gen = DLABuilder::insectoid(bm.map.depth);
            gen.build_map(rng, bm);
            carved_rooms = false;
        },
        PrimaryBuilder::VoronoiPythagoras => {
            let gen = VoronoiCellBuilder::pythagoras(bm.map.depth);
            gen.build_map(rng, bm);
            carved_rooms = false;
        },
        PrimaryBuilder::VoronoiManhattan => {
            let gen = VoronoiCellBuilder::manhattan(bm.map.depth);
            gen.build_map(rng, bm);
            carved_rooms = false;
        },
    }
    if use_retiling {
        let retiler = WaveformCollapseBuilder::new(bm.map.depth);
        let _applied = retiler.build_map(rng, bm);
        return finish_open_flow(rng, bm);
    }
    if carved_rooms {
        Some(finish_room_flow(rng, bm))
    } else {
        finish_open_flow(rng, bm)
    }
}

/// The guaranteed generator: two fixed rooms joined by a corridor.  It
/// cannot fail, so the orchestrator can always fall back on it.
fn build_fallback(rng: &mut RandomNumberGenerator, bm: &mut BuilderMap) -> (stairs: Position)
    requires
        old(bm).inv(),
        old(bm).map.no_stairs(),
        0 <= old(bm).map.depth <= 1000,
        old(bm).spawn_list@.len() == 0,
    ensures
        final(bm).map.same_dims(old(bm).map),
        final(bm).snapshot_enabled == old(bm).snapshot_enabled,
        level_ok(*final(bm), stairs),
        room_pipeline_result(*final(bm), stairs),
{
    let w = bm.map.width;
    let h = bm.map.height;
    let room_a = Rect { x1: 1, y1: 1, x2: 7, y2: 7 };
    let room_b = Rect { x1: w - 8, y1: h - 8, x2: w - 2, y2: h - 2 };
    let ghost g0 = bm.map;
    apply_room_to_map(&mut bm.map, &room_a);
    proof {
        lemma_floor_added_widen(g0, bm.map);
    }
    let ghost g1 = bm.map;
    apply_room_to_map(&mut bm.map, &room_b);
    proof {
        lemma_floor_added_widen(g1, bm.map);
    }
    let ca = room_a.center();
    let cb = room_b.center();
    let ghost g2 = bm.map;
    let _corridor = apply_l_tunnel(&mut bm.map, ca.x, ca.y, cb.x, cb.y, true);
    proof {
        lemma_floor_added_widen(g2, bm.map);
    }
    let mut rooms_vec: Vec<Rect> = Vec::new();
    rooms_vec.push(room_a);
    rooms_vec.push(room_b);
    proof {
        assert(rooms_vec@[0] == room_a);
        assert(rooms_vec@[1] == room_b);
        assert forall|i: int| 0 <= i < rooms_vec@.len() implies {
            let r = #[trigger] rooms_vec@[i];
            0 <= r.x1 && r.x1 + 2 <= r.x2 && r.x2 < w && 0 <= r.y1 && r.y1 + 2 <= r.y2 && r.y2
                < h
        } by {
            if i == 0 {
            } else {
                assert(rooms_vec@[i] == room_b);
            }
        }
    }
    bm.rooms = Some(rooms_vec);
    finish_room_flow(rng, bm)
}

/// Builds a level with an explicitly selected pipeline on a fresh seeded
/// random stream: the entry point that pins down which generator runs.
pub fn build_with(
    primary: PrimaryBuilder,
    use_retiling: bool,
    new_depth: i32,
    width: i32,
    height: i32,
    seed: u64,
    record_snapshots: bool,
) -> (r: BuilderChain)
    requires
        MIN_DIM <= width <= MAX_DIM,
        MIN_DIM <= height <= MAX_DIM,
        0 <= new_depth <= 1000,
    ensures
        r.build_data.map.width == width,
        r.build_data.map.height == height,
        r.build_data.map.depth == new_depth,
        r.build_data.snapshot_enabled == record_snapshots,
        level_ok(r.build_data, r.stairs),
        (room_pipeline(primary) && !use_retiling) ==> room_pipeline_result(
            r.build_data,
            r.stairs,
        ),
{
    let mut rng = rng_seeded(seed);
    run_pipeline(primary, use_retiling, &mut rng, new_depth, width, height, record_snapshots)
}

/// Picks a generator by weighted random draw and builds a level with it.
/// Whatever the dice say, the level that comes back is valid: a failed
/// generator is retried and then replaced by the fallback.
pub fn random_builder(new_depth: i32, width: i32, height: i32, seed: u64, record_snapshots: bool)
    -> (r: BuilderChain)
    requires
        MIN_DIM <= width <= MAX_DIM,
        MIN_DIM <= height <= MAX_DIM,
        0 <= new_depth <= 1000,
    ensures
        r.build_data.map.width == width,
        r.build_data.map.height == height,
        r.build_data.map.depth == new_depth,
        r.build_data.snapshot_enabled == record_snapshots,
        level_ok(r.build_data, r.stairs),
{
    let mut rng = rng_seeded(seed);
    let roll = rng_roll_dice(&mut rng, 1, 16);
    let primary = match roll {
        14 => PrimaryBuilder::BspDungeon,
        15 => PrimaryBuilder::BspInterior,
        1 => PrimaryBuilder::CellularAutomata,
        2 => PrimaryBuilder::DrunkardOpenArea,
        3 => PrimaryBuilder::DrunkardOpenHalls,
        4 => PrimaryBuilder::DrunkardWindingPassages,
        5 => PrimaryBuilder::DrunkardFatPassages,
        6 => PrimaryBuilder::DrunkardFearfulSymmetry,
        7 => PrimaryBuilder::Maze,
        8 => PrimaryBuilder::DlaWalkInwards,
        9 => PrimaryBuilder::DlaWalkOutwards,
        10 => PrimaryBuilder::DlaCentralAttractor,
        11 => PrimaryBuilder::DlaInsectoid,
        12 => PrimaryBuilder::VoronoiPythagoras,
        13 => PrimaryBuilder::VoronoiManhattan,
        _ => PrimaryBuilder::SimpleMap,
    };
    let use_retiling = rng_roll_dice(&mut rng, 1, 3) == 1;
    run_pipeline(primary, use_retiling, &mut rng, new_depth, width, height, record_snapshots)
}

/// Retries the selected pipeline on fresh build state a bounded number
/// of times, then substitutes the guaranteed fallback.
fn run_pipeline(
    primary: PrimaryBuilder,
    use_retiling: bool,
    rng: &mut RandomNumberGenerator,
    new_depth: i32,
    width: i32,
    height: i32,
    record_snapshots: bool,
) -> (r: BuilderChain)
    requires
        MIN_DIM <= width <= MAX_DIM,
        MIN_DIM <= height <= MAX_DIM,
        0 <= new_depth <= 1000,
    ensures
        r.build_data.map.width == width,
        r.build_data.map.height == height,
        r.build_data.map.depth == new_depth,
        r.build_data.snapshot_enabled == record_snapshots,
        level_ok(r.build_data, r.stairs),
        (room_pipeline(primary) && !use_retiling) ==> room_pipeline_result(
            r.build_data,
            r.stairs,
        ),
{
    let mut attempt: i32 = 0;
    let mut result: Option<BuilderChain> = None;
    while result.is_none() && attempt < 3
        invariant
            MIN_DIM <= width <= MAX_DIM,
            MIN_DIM <= height <= MAX_DIM,
            0 <= new_depth <= 1000,
            0 <= attempt <= 3,
            result matches Some(ch) ==> {
                &&& ch.build_data.map.width == width
                &&& ch.build_data.map.height == height
                &&& ch.build_data.map.depth == new_depth
                &&& ch.build_data.snapshot_enabled == record_snapshots
                &&& level_ok(ch.build_data, ch.stairs)
                &&& ((room_pipeline(primary) && !use_retiling) ==> room_pipeline_result(
                    ch.build_data,
                    ch.stairs,
                ))
            },
        decreases 3 - attempt,
    {
        let mut bm = BuilderMap::new(new_depth, width, height, record_snapshots);
        match try_build(primary, use_retiling, rng, &mut bm) {
            Some(stairs) => {
                result = Some(BuilderChain { build_data: bm, stairs });
            },
            None => {},
        }
        attempt = attempt + 1;
    }
    match result {
        Some(ch) => ch,
        None => {
            let mut bm = BuilderMap::new(new_depth, width, height, record_snapshots);
            let stairs = build_fallback(rng, &mut bm);
            BuilderChain { build_data: bm, stairs }
        },
    }
}

} // verus!
