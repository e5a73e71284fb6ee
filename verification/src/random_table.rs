use vstd::prelude::*;
use bracket_random::prelude::RandomNumberGenerator;
use vstd::string::StringExecFns;
use crate::rng::rng_roll_dice;

verus! {

/// One weighted option of a spawn table.
pub struct RandomTableEntry {
    pub name: String,
    pub weight: i32,
}

/// A table for weighted random choice among entity template keys.
pub struct RandomTable {
    pub entries: Vec<RandomTableEntry>,
    pub total_weight: i32,
}

/// The sum of the weights of the entries from index i on.
pub open spec fn sum_from(s: Seq<RandomTableEntry>, i: int) -> int
    decreases s.len() - i,
{
    if i < 0 || i >= s.len() {
        0
    } else {
        s[i].weight + sum_from(s, i + 1)
    }
}

/// Appending an entry adds its weight to every suffix sum.
proof fn lemma_sum_push(s: Seq<RandomTableEntry>, e: RandomTableEntry, i: int)
    requires
        0 <= i <= s.len(),
    ensures
        sum_from(s.push(e), i) == sum_from(s, i) + e.weight,
    decreases s.len() - i,
{
    if i == s.len() {
        assert(s.push(e)[i] == e);
        assert(sum_from(s.push(e), i + 1) == 0);
    } else {
        assert(s.push(e)[i] == s[i]);
        lemma_sum_push(s, e, i + 1);
    }
}

/// With non-negative weights every suffix sum is non-negative.
proof fn lemma_sum_nonneg(s: Seq<RandomTableEntry>, i: int)
    requires
        forall|k: int| 0 <= k < s.len() ==> (#[trigger] s[k]).weight >= 0,
        0 <= i,
    ensures
        sum_from(s, i) >= 0,
    decreases s.len() - i,
{
    if i < s.len() {
        lemma_sum_nonneg(s, i + 1);
    }
}

impl RandomTable {
    pub open spec fn inv(self) -> bool {
        &&& self.total_weight == sum_from(self.entries@, 0)
        &&& forall|i: int| 0 <= i < self.entries@.len() ==> (#[trigger] self.entries@[i]).weight
            >= 0
    }

    pub fn new() -> (r: RandomTable)
        ensures
            r.inv(),
            r.entries@.len() == 0,
            r.total_weight == 0,
    {
        RandomTable { entries: Vec::new(), total_weight: 0 }
    }

    /// Adds one weighted option.
    pub fn add(self, name: String, weight: i32) -> (r: RandomTable)
        requires
            self.inv(),
            0 <= weight,
            self.total_weight + weight <= i32::MAX,
        ensures
            r.inv(),
            r.entries@.len() == self.entries@.len() + 1,
            r.entries@.last().name@ == name@,
            r.entries@.last().weight == weight,
            forall|i: int|
                0 <= i < self.entries@.len() ==> #[trigger] r.entries@[i] == self.entries@[i],
            r.total_weight == self.total_weight + weight,
    {
        let RandomTable { mut entries, total_weight } = self;
        proof {
            lemma_sum_push(entries@, RandomTableEntry { name: name, weight: weight }, 0);
        }
        let entry = RandomTableEntry { name, weight };
        entries.push(entry);
        RandomTable { entries, total_weight: total_weight + weight }
    }

    /// Draws one key.  Exactly when the table carries any weight the
    /// draw succeeds, and the key returned is the name of an entry of
    /// positive weight.
    pub fn roll(&self, rng: &mut RandomNumberGenerator) -> (r: Option<String>)
        requires
            self.inv(),
            self.total_weight < i32::MAX,
        ensures
            (r is Some) == (self.total_weight > 0),
            r matches Some(k) ==> exists|i: int|
                0 <= i < self.entries@.len() && (#[trigger] self.entries@[i]).name@ == k@
                    && self.entries@[i].weight > 0,
    {
        if self.total_weight < 1 {
            return None;
        }
        let mut roll = rng_roll_dice(rng, 1, self.total_weight) - 1;
        let mut index: usize = 0;
        while index < self.entries.len()
            invariant
                self.inv(),
                self.total_weight > 0,
                index <= self.entries@.len(),
                0 <= roll,
                roll < sum_from(self.entries@, index as int),
            decreases self.entries@.len() - index,
        {
            let w = self.entries[index].weight;
            if roll < w {
                return Some(self.entries[index].name.clone());
            }
            proof {
                lemma_sum_nonneg(self.entries@, index as int + 1);
            }
            roll = roll - w;
            index = index + 1;
        }
        proof {
            assert(sum_from(self.entries@, self.entries@.len() as int) == 0);
            assert(false);
        }
        None
    }
}

/// One row of the configured spawn palette: a template key, its base
/// weight, and the depth band it may appear in.
pub struct SpawnTableEntry {
    pub name: String,
    pub weight: i32,
    pub min_depth: i32,
    pub max_depth: i32,
    pub add_map_depth_to_weight: bool,
}

/// Whether a palette row applies at the given depth.
pub open spec fn spec_included(e: SpawnTableEntry, depth: int) -> bool {
    e.min_depth <= depth && depth <= e.max_depth
}

/// The weight a palette row carries at the given depth.
pub open spec fn spec_depth_weight(e: SpawnTableEntry, depth: int) -> int {
    e.weight + if e.add_map_depth_to_weight {
        depth
    } else {
        0
    }
}

/// The (key, weight) rows that the table built for a depth must hold, in
/// palette order.
pub open spec fn table_view(s: Seq<SpawnTableEntry>, depth: int) -> Seq<(Seq<char>, int)>
    decreases s.len(),
{
    if s.len() == 0 {
        Seq::empty()
    } else {
        table_view(s.drop_last(), depth) + if spec_included(s.last(), depth) {
            seq![(s.last().name@, spec_depth_weight(s.last(), depth))]
        } else {
            Seq::empty()
        }
    }
}

/// The (key, weight) rows a random table holds.
pub open spec fn entries_view(s: Seq<RandomTableEntry>) -> Seq<(Seq<char>, int)> {
    s.map_values(|e: RandomTableEntry| (e.name@, e.weight as int))
}

/// Builds the weighted table of everything allowed to spawn at the given
/// depth: the palette rows whose depth band contains it, each at its
/// depth-adjusted weight.
pub fn get_spawn_table_for_depth(entries: &Vec<SpawnTableEntry>, depth: i32) -> (r: RandomTable)
    requires
        entries@.len() <= 1000,
        forall|i: int| 0 <= i < entries@.len() ==> 0 <= (#[trigger] entries@[i]).weight <= 1000,
        0 <= depth <= 1000,
    ensures
        r.inv(),
        r.total_weight <= 2000000,
        entries_view(r.entries@) == table_view(entries@, depth as int),
{
    let mut rt = RandomTable::new();
    let mut i: usize = 0;
    proof {
        assert(entries@.take(0) =~= Seq::<SpawnTableEntry>::empty());
        assert(entries_view(rt.entries@) =~= table_view(entries@.take(0), depth as int));
    }
    while i < entries.len()
        invariant
            rt.inv(),
            i <= entries@.len(),
            entries@.len() <= 1000,
            forall|k: int| 0 <= k < entries@.len() ==> 0 <= (#[trigger] entries@[k]).weight
                <= 1000,
            0 <= depth <= 1000,
            rt.entries@.len() <= i,
            rt.total_weight <= 2000 * i,
            entries_view(rt.entries@) == table_view(entries@.take(i as int), depth as int),
        decreases entries@.len() - i,
    {
        let e = &entries[i];
        let ghost pre = rt;
        if e.min_depth <= depth && depth <= e.max_depth {
            let mut weight = e.weight;
            if e.add_map_depth_to_weight {
                weight = weight + depth;
            }
            rt = rt.add(e.name.clone(), weight);
        }
        proof {
            let d = depth as int;
            let t1 = entries@.take(i as int + 1);
            assert(t1.drop_last() =~= entries@.take(i as int));
            assert(t1.last() == entries@[i as int]);
            if spec_included(entries@[i as int], d) {
                assert(entries_view(rt.entries@) =~= table_view(t1, d));
            } else {
                assert(entries_view(rt.entries@) =~= table_view(t1, d));
            }
        }
        i = i + 1;
    }
    proof {
        assert(entries@.take(entries@.len() as int) =~= entries@);
    }
    rt
}

/// The built-in spawn palette: the two monsters and the potion the
/// levels are stocked with.
pub fn default_spawn_table() -> (r: Vec<SpawnTableEntry>)
    ensures
        r@.len() == 3,
        forall|i: int| 0 <= i < r@.len() ==> 0 <= (#[trigger] r@[i]).weight <= 1000,
        r@[0].name@ == "Goblin"@,
        r@[1].name@ == "Orc"@,
        r@[2].name@ == "Health Potion"@,
{
    let mut v: Vec<SpawnTableEntry> = Vec::new();
    v.push(
        SpawnTableEntry {
            name: String::from_str("Goblin"),
            weight: 10,
            min_depth: 0,
            max_depth: 100,
            add_map_depth_to_weight: false,
        },
    );
    v.push(
        SpawnTableEntry {
            name: String::from_str("Orc"),
            weight: 1,
            min_depth: 0,
            max_depth: 100,
            add_map_depth_to_weight: true,
        },
    );
    v.push(
        SpawnTableEntry {
            name: String::from_str("Health Potion"),
            weight: 7,
            min_depth: 0,
            max_depth: 100,
            add_map_depth_to_weight: false,
        },
    );
    v
}

} // verus!
