use bracket_random::prelude::RandomNumberGenerator;
use broguelike::builder_map::SpawnEntry;
use broguelike::geometry::{Position, Rect};
use broguelike::random_table::{
    default_spawn_table, get_spawn_table_for_depth, RandomTable, SpawnTableEntry,
};
use broguelike::spawner::{spawn_list_contains, try_spawn_at};

#[test]
fn table_roll_returns_member() {
    let mut rng = RandomNumberGenerator::seeded(1);
    let table = RandomTable::new()
        .add("Goblin".to_string(), 10)
        .add("Orc".to_string(), 2);
    for _ in 0..50 {
        let key = table.roll(&mut rng).expect("weighted table rolls a key");
        assert!(key == "Goblin" || key == "Orc");
    }
}

#[test]
fn empty_table_rolls_nothing() {
    let mut rng = RandomNumberGenerator::seeded(2);
    let table = RandomTable::new();
    assert!(table.roll(&mut rng).is_none());
    let zeroed = RandomTable::new().add("Ghost".to_string(), 0);
    assert!(zeroed.roll(&mut rng).is_none());
}

#[test]
fn spawn_table_filters_by_depth() {
    let mut entries: Vec<SpawnTableEntry> = Vec::new();
    entries.push(SpawnTableEntry {
        name: "Rat".to_string(),
        weight: 5,
        min_depth: 0,
        max_depth: 2,
        add_map_depth_to_weight: false,
    });
    entries.push(SpawnTableEntry {
        name: "Dragon".to_string(),
        weight: 1,
        min_depth: 5,
        max_depth: 9,
        add_map_depth_to_weight: true,
    });
    let shallow = get_spawn_table_for_depth(&entries, 1);
    assert_eq!(shallow.entries.len(), 1);
    assert_eq!(shallow.entries[0].name, "Rat");
    assert_eq!(shallow.entries[0].weight, 5);
    assert_eq!(shallow.total_weight, 5);
    let deep = get_spawn_table_for_depth(&entries, 6);
    assert_eq!(deep.entries.len(), 1);
    assert_eq!(deep.entries[0].name, "Dragon");
    // depth is added to the weight when the palette row asks for it
    assert_eq!(deep.entries[0].weight, 7);
    let nothing = get_spawn_table_for_depth(&entries, 3);
    assert_eq!(nothing.entries.len(), 0);
    assert_eq!(nothing.total_weight, 0);
}

#[test]
fn default_palette_names() {
    let palette = default_spawn_table();
    assert_eq!(palette.len(), 3);
    assert_eq!(palette[0].name, "Goblin");
    assert_eq!(palette[1].name, "Orc");
    assert_eq!(palette[2].name, "Health Potion");
}

#[test]
fn try_spawn_rejects_collisions() {
    let mut list: Vec<SpawnEntry> = Vec::new();
    let n = 100;
    assert!(try_spawn_at(&mut list, 17, "Orc".to_string(), 5, n));
    // same tile again: refused
    assert!(!try_spawn_at(&mut list, 17, "Goblin".to_string(), 5, n));
    // the start tile: refused
    assert!(!try_spawn_at(&mut list, 5, "Goblin".to_string(), 5, n));
    // another free tile: accepted
    assert!(try_spawn_at(&mut list, 18, "Goblin".to_string(), 5, n));
    assert_eq!(list.len(), 2);
    assert!(spawn_list_contains(&list, 17));
    assert!(spawn_list_contains(&list, 18));
    assert!(!spawn_list_contains(&list, 5));
}

#[test]
fn rect_intersection_and_center() {
    let a = Rect { x1: 0, y1: 0, x2: 10, y2: 10 };
    let b = Rect { x1: 5, y1: 5, x2: 15, y2: 15 };
    let c = Rect { x1: 11, y1: 0, x2: 20, y2: 10 };
    assert!(a.intersect(&b));
    assert!(b.intersect(&a));
    assert!(!a.intersect(&c));
    assert_eq!(a.center(), Position { x: 5, y: 5 });
    assert_eq!(c.center(), Position { x: 15, y: 5 });
}

#[test]
fn rect_with_size_corners() {
    let r = Rect::with_size(3, 4, 6, 7);
    assert_eq!(r.x1, 3);
    assert_eq!(r.y1, 4);
    assert_eq!(r.x2, 9);
    assert_eq!(r.y2, 11);
}
