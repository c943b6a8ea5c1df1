use vstd::prelude::*;

use crate::text::str_eq;

verus! {

/// The stored setting of one device: whether drag-to-scroll is on for it, and the name
/// shown for it (kept for display only, never used to decide anything).
#[derive(Clone)]
pub struct DeviceConfig {
    pub enabled: bool,
    pub name: String,
}

impl View for DeviceConfig {
    type V = (bool, Seq<char>);

    open spec fn view(&self) -> (bool, Seq<char>) {
        (self.enabled, self.name@)
    }
}

impl DeviceConfig {
    /// A copy of the setting.
    pub fn duplicate(&self) -> (r: DeviceConfig)
        ensures
            r@ == self@,
    {
        DeviceConfig { enabled: self.enabled, name: self.name.clone() }
    }
}

/// Per-device settings keyed by device interface path; no path occurs twice.
pub struct DeviceTable {
    entries: Vec<(String, DeviceConfig)>,
}

/// The position of the entry whose path is `k`.
pub open spec fn key_index(entries: Seq<(String, DeviceConfig)>, k: Seq<char>) -> int {
    choose|i: int| 0 <= i < entries.len() && entries[i].0@ == k
}

/// Whether some entry has the path `k`.
pub open spec fn has_key(entries: Seq<(String, DeviceConfig)>, k: Seq<char>) -> bool {
    exists|i: int| 0 <= i < entries.len() && entries[i].0@ == k
}

/// No two entries share a path.
pub open spec fn keys_unique(entries: Seq<(String, DeviceConfig)>) -> bool {
    forall|i: int, j: int|
        0 <= i < entries.len() && 0 <= j < entries.len() && i != j ==> entries[i].0@
            != entries[j].0@
}

/// The map from path to setting that a list of entries with unique paths stands for.
pub open spec fn entries_map(entries: Seq<(String, DeviceConfig)>) -> Map<Seq<char>, (bool, Seq<char>)> {
    Map::new(|k: Seq<char>| has_key(entries, k), |k: Seq<char>| entries[key_index(entries, k)].1@)
}

impl View for DeviceTable {
    type V = Map<Seq<char>, (bool, Seq<char>)>;

    closed spec fn view(&self) -> Map<Seq<char>, (bool, Seq<char>)> {
        entries_map(self.entries@)
    }
}

/// Where the entry at `i` has the path `k`, it is the one the map gives for `k`.
proof fn lemma_entry_at(entries: Seq<(String, DeviceConfig)>, i: int)
    requires
        keys_unique(entries),
        0 <= i < entries.len(),
    ensures
        entries_map(entries).contains_key(entries[i].0@),
        entries_map(entries)[entries[i].0@] == entries[i].1@,
        key_index(entries, entries[i].0@) == i,
{
    let k = entries[i].0@;
    assert(has_key(entries, k));
    let j = key_index(entries, k);
    assert(entries[j].0@ == k);
}

impl DeviceTable {
    #[verifier::type_invariant]
    spec fn unique(&self) -> bool {
        keys_unique(self.entries@)
    }

    /// A table with no device.
    pub fn new() -> (r: DeviceTable)
        ensures
            r@ == Map::<Seq<char>, (bool, Seq<char>)>::empty(),
    {
        let r = DeviceTable { entries: Vec::new() };
        assert(r@ =~= Map::<Seq<char>, (bool, Seq<char>)>::empty());
        r
    }

    /// Position of the entry for `path`, or the number of entries when there is none.
    fn find(&self, path: &str) -> (r: usize)
        ensures
            r <= self.entries@.len(),
            r < self.entries@.len() ==> self.entries@[r as int].0@ == path@,
            r == self.entries@.len() ==> !has_key(self.entries@, path@),
    {
        let n = self.entries.len();
        let mut i: usize = 0;
        while i < n
            invariant
                n == self.entries@.len(),
                i <= n,
                forall|k: int| 0 <= k < i ==> self.entries@[k].0@ != path@,
            decreases n - i,
        {
            if str_eq(self.entries[i].0.as_str(), path) {
                return i;
            }
            i += 1;
        }
        i
    }

    /// Whether a setting is stored for `path`.
    pub fn contains_key(&self, path: &str) -> (r: bool)
        ensures
            r == self@.contains_key(path@),
    {
        self.find(path) < self.entries.len()
    }

    /// The setting stored for `path`.
    pub fn get(&self, path: &str) -> (r: Option<&DeviceConfig>)
        ensures
            r matches Some(c) ==> self@.contains_key(path@) && self@[path@] == c@,
            r is None ==> !self@.contains_key(path@),
    {
        proof {
            use_type_invariant(self);
        }
        let i = self.find(path);
        if i < self.entries.len() {
            proof {
                lemma_entry_at(self.entries@, i as int);
            }
            Some(&self.entries[i].1)
        } else {
            None
        }
    }

    /// Stores `setting` for `path`, replacing what was stored for it.
    pub fn insert(&mut self, path: String, setting: DeviceConfig)
        ensures
            final(self)@ == old(self)@.insert(path@, setting@),
    {
        proof {
            use_type_invariant(&*self);
        }
        let i = self.find(path.as_str());
        let mut entries: Vec<(String, DeviceConfig)> = Vec::new();
        std::mem::swap(&mut entries, &mut self.entries);
        let ghost old_entries = entries@;
        let ghost k = path@;
        let ghost v = setting@;
        if i < entries.len() {
            entries.set(i, (path, setting));
        } else {
            entries.push((path, setting));
        }
        assert(keys_unique(entries@));
        assert forall|key: Seq<char>|
            #![trigger entries_map(entries@).contains_key(key)]
            entries_map(entries@).contains_key(key) == entries_map(old_entries).insert(
                k,
                v,
            ).contains_key(key) && (entries_map(entries@).contains_key(key)
                ==> entries_map(entries@)[key] == entries_map(old_entries).insert(k, v)[key]) by {
            if key == k {
                let idx = if i < old_entries.len() {
                    i as int
                } else {
                    old_entries.len() as int
                };
                lemma_entry_at(entries@, idx);
            } else if has_key(old_entries, key) {
                let j = key_index(old_entries, key);
                lemma_entry_at(old_entries, j);
                assert(entries@[j] == old_entries[j]);
                lemma_entry_at(entries@, j);
            } else {
                if has_key(entries@, key) {
                    let j = key_index(entries@, key);
                    assert(entries@[j] == old_entries[j]);
                }
            }
        }
        assert(entries_map(entries@) =~= entries_map(old_entries).insert(k, v));
        self.entries = entries;
    }

    /// Flips the `enabled` flag stored for `path`; true when a setting was stored for it,
    /// false (and nothing changed) otherwise.
    pub fn toggle(&mut self, path: &str) -> (r: bool)
        ensures
            r == old(self)@.contains_key(path@),
            r ==> final(self)@ == old(self)@.insert(
                path@,
                (!old(self)@[path@].0, old(self)@[path@].1),
            ),
            !r ==> final(self)@ == old(self)@,
    {
        proof {
            use_type_invariant(&*self);
        }
        let i = self.find(path);
        if i == self.entries.len() {
            return false;
        }
        proof {
            lemma_entry_at(self.entries@, i as int);
        }
        let key = self.entries[i].0.clone();
        let mut setting = self.entries[i].1.duplicate();
        setting.enabled = !setting.enabled;
        self.insert(key, setting);
        true
    }

    /// The stored entries, each path with its setting, in no particular order.
    pub fn entries(&self) -> (r: &Vec<(String, DeviceConfig)>)
        ensures
            forall|i: int|
                0 <= i < r@.len() ==> #[trigger] self@.contains_key(r@[i].0@) && self@[r@[i].0@]
                    == r@[i].1@,
            forall|k: Seq<char>|
                self@.contains_key(k) ==> exists|i: int| 0 <= i < r@.len() && #[trigger] r@[i].0@ == k,
            keys_unique(r@),
    {
        proof {
            use_type_invariant(self);
            assert forall|i: int| 0 <= i < self.entries@.len() implies #[trigger] self@.contains_key(
                self.entries@[i].0@,
            ) && self@[self.entries@[i].0@] == self.entries@[i].1@ by {
                lemma_entry_at(self.entries@, i);
            }
        }
        &self.entries
    }
}

/// The IEEE-754 bits of the default scroll speed, 4.0 wheel delta per count.
pub const DEFAULT_SCROLL_SPEED_BITS: u64 = 0x4010_0000_0000_0000;

/// The default drag threshold, in pointer counts.
pub const DEFAULT_DRAG_THRESHOLD: u32 = 3;

/// The tool's settings.
pub struct Config {
    /// The IEEE-754 bits of the wheel delta per count of movement (120 is one notch).
    pub scroll_speed_bits: u64,
    /// Whether horizontal movement scrolls horizontally.
    pub horizontal_scroll: bool,
    /// Whether the vertical scroll direction is inverted.
    pub invert_vertical: bool,
    /// A press that moves this many counts or more is a drag, not a click.
    pub drag_threshold: u32,
    /// Settings of the devices seen so far, by device interface path.
    pub devices: DeviceTable,
}

impl Default for Config {
    fn default() -> (c: Config)
        ensures
            c.scroll_speed_bits == DEFAULT_SCROLL_SPEED_BITS,
            c.horizontal_scroll,
            !c.invert_vertical,
            c.drag_threshold == DEFAULT_DRAG_THRESHOLD,
            c.devices@ == Map::<Seq<char>, (bool, Seq<char>)>::empty(),
    {
        Config {
            scroll_speed_bits: DEFAULT_SCROLL_SPEED_BITS,
            horizontal_scroll: true,
            invert_vertical: false,
            drag_threshold: DEFAULT_DRAG_THRESHOLD,
            devices: DeviceTable::new(),
        }
    }
}

} // verus!
