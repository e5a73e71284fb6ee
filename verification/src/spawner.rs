use vstd::prelude::*;
use bracket_random::prelude::RandomNumberGenerator;
use crate::builder_map::{spawns_ok, SpawnEntry};
use crate::geometry::Rect;
use crate::grid::{flat_idx, Grid};
use crate::random_table::RandomTable;
use crate::rng::rng_roll_dice;

verus! {

/// The spawn entry sits on a tile inside the carved interior of the
/// room.
pub open spec fn spawn_in_room(e: SpawnEntry, r: Rect, w: int) -> bool {
    exists|x: int, y: int|
        #[trigger] flat_idx(w, x, y) == e.idx && r.x1 < x <= r.x2 && r.y1 < y <= r.y2
}

/// The spawn entry sits inside one of the rooms beyond the first.
pub open spec fn spawn_in_some_room(e: SpawnEntry, rooms: Seq<Rect>, w: int) -> bool {
    exists|j: int| 1 <= j < rooms.len() && #[trigger] spawn_in_room(e, rooms[j], w)
}

pub const MAX_MONSTERS: i32 = 4;

pub const MAX_ITEMS: i32 = 2;

/// True when some entry of the spawn list already occupies the tile.
pub fn spawn_list_contains(list: &Vec<SpawnEntry>, idx: usize) -> (r: bool)
    ensures
        r == exists|i: int| 0 <= i < list@.len() && (#[trigger] list@[i]).idx == idx,
{
    let mut i: usize = 0;
    let mut found = false;
    while i < list.len()
        invariant
            i <= list@.len(),
            found == exists|k: int| 0 <= k < i && (#[trigger] list@[k]).idx == idx,
        decreases list@.len() - i,
    {
        if list[i].idx == idx {
            found = true;
        }
        i = i + 1;
    }
    found
}

/// Adds a spawn entry at the tile unless that would break the spawn
/// invariant: the tile is the start, or it is already taken.
pub fn try_spawn_at(
    spawn_list: &mut Vec<SpawnEntry>,
    idx: usize,
    key: String,
    start_idx: usize,
    n: usize,
) -> (added: bool)
    requires
        spawns_ok(old(spawn_list)@, start_idx as int, n as int),
        idx < n,
    ensures
        spawns_ok(final(spawn_list)@, start_idx as int, n as int),
        final(spawn_list)@.len() >= old(spawn_list)@.len(),
        forall|i: int|
            0 <= i < old(spawn_list)@.len() ==> #[trigger] final(spawn_list)@[i] == old(
                spawn_list,
            )@[i],
        added ==> final(spawn_list)@.len() == old(spawn_list)@.len() + 1
            && final(spawn_list)@.last().idx == idx,
        !added ==> final(spawn_list)@ == old(spawn_list)@,
{
    if idx != start_idx && !spawn_list_contains(spawn_list, idx) {
        spawn_list.push(SpawnEntry { idx, key });
        true
    } else {
        false
    }
}

/// Scatters up to `count` spawn entries over random tiles inside the
/// room's carved interior, drawing each template key from the table.
fn spawn_count_in_room(
    g: &Grid,
    rng: &mut RandomNumberGenerator,
    room: &Rect,
    table: &RandomTable,
    start_idx: usize,
    spawn_list: &mut Vec<SpawnEntry>,
    count: i32,
)
    requires
        g.inv(),
        0 <= room.x1,
        room.x1 + 2 <= room.x2,
        room.x2 < g.width,
        0 <= room.y1,
        room.y1 + 2 <= room.y2,
        room.y2 < g.height,
        table.inv(),
        table.total_weight < i32::MAX,
        spawns_ok(old(spawn_list)@, start_idx as int, g.tiles@.len() as int),
    ensures
        spawns_ok(final(spawn_list)@, start_idx as int, g.tiles@.len() as int),
        final(spawn_list)@.len() >= old(spawn_list)@.len(),
        forall|i: int|
            0 <= i < old(spawn_list)@.len() ==> #[trigger] final(spawn_list)@[i] == old(
                spawn_list,
            )@[i],
        forall|i: int|
            old(spawn_list)@.len() <= i < final(spawn_list)@.len() ==> spawn_in_room(
                #[trigger] final(spawn_list)@[i],
                *room,
                g.width as int,
            ),
        final(spawn_list)@.len() <= old(spawn_list)@.len() + (if count >= 0 {
            count as int
        } else {
            0
        }),
{
    let mut c: i32 = 0;
    while c < count
        invariant
            g.inv(),
            0 <= room.x1,
            room.x1 + 2 <= room.x2,
            room.x2 < g.width,
            0 <= room.y1,
            room.y1 + 2 <= room.y2,
            room.y2 < g.height,
            table.inv(),
            table.total_weight < i32::MAX,
            spawns_ok(spawn_list@, start_idx as int, g.tiles@.len() as int),
            spawn_list@.len() >= old(spawn_list)@.len(),
            forall|i: int|
                0 <= i < old(spawn_list)@.len() ==> #[trigger] spawn_list@[i] == old(
                    spawn_list,
                )@[i],
            forall|i: int|
                old(spawn_list)@.len() <= i < spawn_list@.len() ==> spawn_in_room(
                    #[trigger] spawn_list@[i],
                    *room,
                    g.width as int,
                ),
            0 <= c,
            c <= (if count >= 0 {
                count as int
            } else {
                0
            }),
            spawn_list@.len() <= old(spawn_list)@.len() + c,
        decreases count - c,
    {
        let ghost base = spawn_list@.len();
        let mut attempts: i32 = 0;
        let mut placed = false;
        while !placed && attempts < 20
            invariant
                g.inv(),
                0 <= room.x1,
                room.x1 + 2 <= room.x2,
                room.x2 < g.width,
                0 <= room.y1,
                room.y1 + 2 <= room.y2,
                room.y2 < g.height,
                table.inv(),
                table.total_weight < i32::MAX,
                spawns_ok(spawn_list@, start_idx as int, g.tiles@.len() as int),
                spawn_list@.len() >= old(spawn_list)@.len(),
                forall|i: int|
                    0 <= i < old(spawn_list)@.len() ==> #[trigger] spawn_list@[i] == old(
                        spawn_list,
                    )@[i],
                forall|i: int|
                    old(spawn_list)@.len() <= i < spawn_list@.len() ==> spawn_in_room(
                        #[trigger] spawn_list@[i],
                        *room,
                        g.width as int,
                    ),
                spawn_list@.len() == base + (if placed {
                    1int
                } else {
                    0
                }),
                0 <= attempts <= 20,
            decreases 20 - attempts,
        {
            let x = room.x1 + rng_roll_dice(rng, 1, room.x2 - room.x1);
            let y = room.y1 + rng_roll_dice(rng, 1, room.y2 - room.y1);
            let idx = g.xy_idx(x, y);
            match table.roll(rng) {
                Some(key) => {
                    if try_spawn_at(spawn_list, idx, key, start_idx, g.tiles.len()) {
                        proof {
                            assert(flat_idx(g.width as int, x as int, y as int) == idx as int);
                            assert(spawn_in_room(
                                spawn_list@.last(),
                                *room,
                                g.width as int,
                            ));
                        }
                        placed = true;
                    }
                },
                None => {},
            }
            attempts = attempts + 1;
        }
        c = c + 1;
    }
}

/// Fills one room with a rolled number of monsters and items, placed at
/// non-colliding random tiles inside it and never on the start tile.
pub fn spawn_room(
    g: &Grid,
    rng: &mut RandomNumberGenerator,
    room: &Rect,
    table: &RandomTable,
    start_idx: usize,
    spawn_list: &mut Vec<SpawnEntry>,
)
    requires
        g.inv(),
        0 <= room.x1,
        room.x1 + 2 <= room.x2,
        room.x2 < g.width,
        0 <= room.y1,
        room.y1 + 2 <= room.y2,
        room.y2 < g.height,
        table.inv(),
        table.total_weight < i32::MAX,
        spawns_ok(old(spawn_list)@, start_idx as int, g.tiles@.len() as int),
    ensures
        spawns_ok(final(spawn_list)@, start_idx as int, g.tiles@.len() as int),
        final(spawn_list)@.len() >= old(spawn_list)@.len(),
        forall|i: int|
            0 <= i < old(spawn_list)@.len() ==> #[trigger] final(spawn_list)@[i] == old(
                spawn_list,
            )@[i],
        forall|i: int|
            old(spawn_list)@.len() <= i < final(spawn_list)@.len() ==> spawn_in_room(
                #[trigger] final(spawn_list)@[i],
                *room,
                g.width as int,
            ),
        final(spawn_list)@.len() <= old(spawn_list)@.len() + 4,
{
    let num_monsters = rng_roll_dice(rng, 1, MAX_MONSTERS + 2) - 3;
    let num_items = rng_roll_dice(rng, 1, MAX_ITEMS + 2) - 3;
    spawn_count_in_room(g, rng, room, table, start_idx, spawn_list, num_monsters);
    spawn_count_in_room(g, rng, room, table, start_idx, spawn_list, num_items);
}

} // verus!
