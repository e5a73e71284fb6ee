use broguelike::builder_map::BuilderMap;
use broguelike::cellular_automata::CellularAutomataBuilder;
use broguelike::grid::Grid;
use broguelike::map_builders::{build_with, random_builder, BuilderChain, EntityFactory, PrimaryBuilder};
use broguelike::path::flood_fill;
use broguelike::tile::{tile_walkable, TileType};
use broguelike::waveform_collapse::WaveformCollapseBuilder;

fn assert_level_valid(chain: &BuilderChain) {
    let map = chain.get_map();
    let start = chain.get_starting_position();
    let stairs = chain.stairs;
    // exactly one staircase, at the reported position
    let mut stairs_count = 0;
    for t in map.tiles.iter() {
        if *t == TileType::DownStairs {
            stairs_count += 1;
        }
    }
    assert_eq!(stairs_count, 1);
    let stairs_idx = map.xy_idx(stairs.x, stairs.y);
    assert_eq!(map.tiles[stairs_idx], TileType::DownStairs);
    // the start is walkable and not the stairs tile
    let start_idx = map.xy_idx(start.x, start.y);
    assert!(tile_walkable(map.tiles[start_idx]));
    assert_ne!(start_idx, stairs_idx);
    // the stairs are reachable from the start by 4-way flood fill
    let marked = flood_fill(&map, start.x, start.y);
    assert!(marked[stairs_idx]);
    // no spawn collides with another spawn or the start
    let spawns = chain.get_spawn_list();
    for (i, a) in spawns.iter().enumerate() {
        assert_ne!(a.idx, start_idx);
        for b in spawns.iter().skip(i + 1) {
            assert_ne!(a.idx, b.idx);
        }
    }
    // recorded rooms never overlap
    if let Some(rooms) = &chain.build_data.rooms {
        for (i, a) in rooms.iter().enumerate() {
            for b in rooms.iter().skip(i + 1) {
                assert!(!a.intersect(b));
            }
        }
    }
}

#[test]
fn simple_map_scenario_80x50() {
    let chain = build_with(PrimaryBuilder::SimpleMap, false, 1, 80, 50, 42, true);
    assert_level_valid(&chain);
    let map = chain.get_map();
    assert_eq!(map.width, 80);
    assert_eq!(map.height, 50);
    let rooms = chain.build_data.rooms.as_ref().expect("room generator records rooms");
    assert!(rooms.len() >= 2);
    // the stairs sit at the center of the last room, inside its interior
    let last = rooms[rooms.len() - 1];
    let stairs = chain.stairs;
    assert!(last.x1 < stairs.x && stairs.x <= last.x2);
    assert!(last.y1 < stairs.y && stairs.y <= last.y2);
    // the start sits at the center of the first room, inside its interior
    let first = rooms[0];
    let start = chain.get_starting_position();
    assert!(first.x1 < start.x && start.x <= first.x2);
    assert!(first.y1 < start.y && start.y <= first.y2);
}

#[test]
fn determinism_same_seed_same_level() {
    for seed in [1u64, 7, 99, 1234] {
        let a = build_with(PrimaryBuilder::SimpleMap, false, 1, 80, 50, seed, false);
        let b = build_with(PrimaryBuilder::SimpleMap, false, 1, 80, 50, seed, false);
        assert_eq!(a.get_map().tiles, b.get_map().tiles);
        assert_eq!(a.get_starting_position(), b.get_starting_position());
        let sa = a.get_spawn_list();
        let sb = b.get_spawn_list();
        assert_eq!(sa.len(), sb.len());
        for (x, y) in sa.iter().zip(sb.iter()) {
            assert_eq!(x.idx, y.idx);
            assert_eq!(x.key, y.key);
        }
    }
}

#[test]
fn determinism_random_builder() {
    let a = random_builder(1, 80, 50, 7777, false);
    let b = random_builder(1, 80, 50, 7777, false);
    assert_eq!(a.get_map().tiles, b.get_map().tiles);
    assert_eq!(a.get_starting_position(), b.get_starting_position());
}

#[test]
fn snapshot_history_ends_with_final_map() {
    let chain = build_with(PrimaryBuilder::SimpleMap, false, 1, 80, 50, 5, true);
    let history = chain.get_snapshot_history();
    assert!(!history.is_empty());
    let last = &history[history.len() - 1];
    assert_eq!(last.tiles, chain.get_map().tiles);
    for v in last.revealed_tiles.iter() {
        assert!(*v);
    }
}

#[test]
fn snapshots_disabled_leave_history_empty() {
    let chain = build_with(PrimaryBuilder::SimpleMap, false, 1, 80, 50, 5, false);
    assert_eq!(chain.get_snapshot_history().len(), 0);
}

#[test]
fn snapshots_do_not_change_generation() {
    let a = build_with(PrimaryBuilder::SimpleMap, false, 1, 80, 50, 31, true);
    let b = build_with(PrimaryBuilder::SimpleMap, false, 1, 80, 50, 31, false);
    assert_eq!(a.get_map().tiles, b.get_map().tiles);
}

#[test]
fn bsp_dungeon_level_valid() {
    let chain = build_with(PrimaryBuilder::BspDungeon, false, 1, 80, 50, 17, true);
    assert_level_valid(&chain);
    let rooms = chain.build_data.rooms.as_ref().expect("bsp dungeon records rooms");
    assert!(rooms.len() >= 2);
}

#[test]
fn bsp_interior_level_valid() {
    let chain = build_with(PrimaryBuilder::BspInterior, false, 1, 80, 50, 18, true);
    assert_level_valid(&chain);
    let rooms = chain.build_data.rooms.as_ref().expect("bsp interior records rooms");
    assert!(rooms.len() >= 2);
}

#[test]
fn cellular_automata_level_valid() {
    let chain = build_with(PrimaryBuilder::CellularAutomata, false, 1, 80, 50, 3, false);
    assert_level_valid(&chain);
}

#[test]
fn drunkard_variants_level_valid() {
    for (i, p) in [
        PrimaryBuilder::DrunkardOpenArea,
        PrimaryBuilder::DrunkardOpenHalls,
        PrimaryBuilder::DrunkardWindingPassages,
        PrimaryBuilder::DrunkardFatPassages,
        PrimaryBuilder::DrunkardFearfulSymmetry,
    ]
    .into_iter()
    .enumerate()
    {
        let chain = build_with(p, false, 1, 80, 50, 100 + i as u64, false);
        assert_level_valid(&chain);
    }
}

#[test]
fn dla_variants_level_valid() {
    for (i, p) in [
        PrimaryBuilder::DlaWalkInwards,
        PrimaryBuilder::DlaWalkOutwards,
        PrimaryBuilder::DlaCentralAttractor,
        PrimaryBuilder::DlaInsectoid,
    ]
    .into_iter()
    .enumerate()
    {
        let chain = build_with(p, false, 1, 80, 50, 200 + i as u64, false);
        assert_level_valid(&chain);
    }
}

#[test]
fn maze_level_valid() {
    let chain = build_with(PrimaryBuilder::Maze, false, 1, 80, 50, 8, false);
    assert_level_valid(&chain);
}

#[test]
fn voronoi_levels_valid() {
    let a = build_with(PrimaryBuilder::VoronoiPythagoras, false, 1, 80, 50, 9, false);
    assert_level_valid(&a);
    let b = build_with(PrimaryBuilder::VoronoiManhattan, false, 1, 80, 50, 10, false);
    assert_level_valid(&b);
}

#[test]
fn retiled_levels_valid() {
    for seed in [11u64, 12, 13] {
        let chain = build_with(PrimaryBuilder::CellularAutomata, true, 1, 80, 50, seed, false);
        assert_level_valid(&chain);
        let map = chain.get_map();
        assert_eq!(map.width, 80);
        assert_eq!(map.height, 50);
    }
}

#[test]
fn retiling_preserves_dimensions() {
    let mut rng = bracket_random::prelude::RandomNumberGenerator::seeded(21);
    let mut bm = BuilderMap::new(1, 80, 50, false);
    let gen = CellularAutomataBuilder::new(1);
    gen.build_map(&mut rng, &mut bm);
    let before = bm.map.tiles.clone();
    let retiler = WaveformCollapseBuilder::new(1);
    let applied = retiler.build_map(&mut rng, &mut bm);
    assert_eq!(bm.map.width, 80);
    assert_eq!(bm.map.height, 50);
    assert_eq!(bm.map.tiles.len(), 80 * 50);
    if !applied {
        assert_eq!(bm.map.tiles, before);
    }
}

#[test]
fn retiling_on_odd_grid_returns_source_unchanged() {
    let mut rng = bracket_random::prelude::RandomNumberGenerator::seeded(22);
    let mut bm = BuilderMap::new(1, 81, 51, false);
    let gen = CellularAutomataBuilder::new(1);
    gen.build_map(&mut rng, &mut bm);
    let before = bm.map.tiles.clone();
    let retiler = WaveformCollapseBuilder::new(1);
    let applied = retiler.build_map(&mut rng, &mut bm);
    assert!(!applied);
    assert_eq!(bm.map.tiles, before);
    assert_eq!(bm.map.width, 81);
    assert_eq!(bm.map.height, 51);
}

#[test]
fn random_builder_always_valid() {
    for seed in 0..20u64 {
        let chain = random_builder(1, 80, 50, seed, false);
        assert_level_valid(&chain);
    }
}

#[test]
fn minimum_size_levels_valid() {
    for seed in 0..3u64 {
        let chain = random_builder(1, 16, 16, seed, false);
        assert_level_valid(&chain);
        assert_eq!(chain.get_map().width, 16);
        assert_eq!(chain.get_map().height, 16);
    }
}

#[test]
fn deeper_levels_valid() {
    let chain = random_builder(5, 80, 50, 404, false);
    assert_eq!(chain.get_map().depth, 5);
    assert_level_valid(&chain);
}

struct RecordingFactory {
    spawned: Vec<(usize, String)>,
}

impl EntityFactory for RecordingFactory {
    fn spawn_entity(&mut self, idx: usize, key: &str) {
        self.spawned.push((idx, key.to_string()));
    }
}

#[test]
fn spawn_entities_hands_over_every_entry() {
    let chain = build_with(PrimaryBuilder::SimpleMap, false, 1, 80, 50, 42, false);
    let mut factory = RecordingFactory { spawned: Vec::new() };
    chain.spawn_entities(&mut factory);
    let list = chain.get_spawn_list();
    assert_eq!(factory.spawned.len(), list.len());
    for (got, want) in factory.spawned.iter().zip(list.iter()) {
        assert_eq!(got.0, want.idx);
        assert_eq!(got.1, want.key);
    }
    // the palette keys are the only things ever spawned
    for (_, key) in factory.spawned.iter() {
        assert!(key == "Goblin" || key == "Orc" || key == "Health Potion");
    }
}

#[test]
fn grid_new_is_all_wall() {
    let g = Grid::new(3, 80, 50);
    assert_eq!(g.tiles.len(), 4000);
    assert_eq!(g.depth, 3);
    for t in g.tiles.iter() {
        assert_eq!(*t, TileType::Wall);
    }
    for r in g.revealed_tiles.iter() {
        assert!(!*r);
    }
}

#[test]
fn grid_xy_idx_row_major() {
    let g = Grid::new(1, 80, 50);
    assert_eq!(g.xy_idx(0, 0), 0);
    assert_eq!(g.xy_idx(79, 0), 79);
    assert_eq!(g.xy_idx(0, 1), 80);
    assert_eq!(g.xy_idx(3, 2), 163);
}
