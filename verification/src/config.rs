//! The configuration snapshot as a value: a list of keyed layers in which
//! each key stands once.

use crate::layer::{LayerConfig, LayerView};
use crate::snapshot::{
    default_snapshot, keyed_once, snapshot_of, with_opacity, Record, Snapshot,
};
use vstd::prelude::*;
use vstd::string::StringExecFns;

verus! {

/// One keyed entry of a snapshot.
struct Entry {
    key: String,
    layer: LayerConfig,
}

/// Whether no key stands at two places of `entries`.
spec fn distinct_keys(entries: Seq<Entry>) -> bool {
    forall|i: int, j: int|
        0 <= i < entries.len() && 0 <= j < entries.len() && #[trigger] entries[i].key@
            == #[trigger] entries[j].key@ ==> i == j
}

/// Whether `key` is the key of some entry.
spec fn has_key(entries: Seq<Entry>, key: Seq<char>) -> bool {
    exists|i: int| 0 <= i < entries.len() && #[trigger] entries[i].key@ == key
}

/// A place at which `key` stands, where there is one.
spec fn place_of(entries: Seq<Entry>, key: Seq<char>) -> int {
    choose|i: int| 0 <= i < entries.len() && #[trigger] entries[i].key@ == key
}

/// The mapping that a sequence of entries stands for.
spec fn mapping_of(entries: Seq<Entry>) -> Snapshot {
    Map::new(
        |key: Seq<char>| has_key(entries, key),
        |key: Seq<char>| entries[place_of(entries, key)].layer@,
    )
}

/// The entries as plain records.
spec fn entry_records(entries: Seq<Entry>) -> Seq<Record> {
    Seq::new(entries.len(), |i: int| (entries[i].key@, entries[i].layer@))
}

/// What a list of keyed layers holds, as plain values.
pub open spec fn records_view(records: Seq<(String, LayerConfig)>) -> Seq<Record> {
    Seq::new(records.len(), |i: int| (records[i].0@, records[i].1@))
}

/// In a sequence of distinct keys, the entry at a place is what the mapping
/// holds under that place's key.
proof fn lemma_mapping_at(entries: Seq<Entry>, i: int)
    requires
        distinct_keys(entries),
        0 <= i < entries.len(),
    ensures
        mapping_of(entries).dom().contains(entries[i].key@),
        mapping_of(entries)[entries[i].key@] == entries[i].layer@,
{
    let key = entries[i].key@;
    assert(has_key(entries, key));
    let p = place_of(entries, key);
    assert(entries[p].key@ == entries[i].key@);
}

/// Appending an entry under a new key inserts it into the mapping.
proof fn lemma_mapping_push(entries: Seq<Entry>, entry: Entry)
    requires
        distinct_keys(entries),
        !has_key(entries, entry.key@),
    ensures
        distinct_keys(entries.push(entry)),
        mapping_of(entries.push(entry)) == mapping_of(entries).insert(entry.key@, entry.layer@),
{
    let grown = entries.push(entry);
    assert forall|i: int, j: int|
        0 <= i < grown.len() && 0 <= j < grown.len() && #[trigger] grown[i].key@
            == #[trigger] grown[j].key@ implies i == j by {
        if i < entries.len() && j < entries.len() {
            assert(entries[i].key@ == entries[j].key@);
        } else if i < entries.len() {
            assert(entries[i].key@ == entry.key@);
        } else if j < entries.len() {
            assert(entries[j].key@ == entry.key@);
        }
    }
    let target = mapping_of(entries).insert(entry.key@, entry.layer@);
    assert forall|key: Seq<char>| #[trigger]
        mapping_of(grown).dom().contains(key) <==> target.dom().contains(key) by {
        if has_key(grown, key) {
            let p = place_of(grown, key);
            if p < entries.len() {
                assert(entries[p].key@ == key);
            }
        }
        if has_key(entries, key) {
            let p = place_of(entries, key);
            assert(grown[p].key@ == key);
        }
        if key == entry.key@ {
            assert(grown[entries.len() as int].key@ == key);
        }
    }
    assert forall|key: Seq<char>| #[trigger] mapping_of(grown).dom().contains(key) implies mapping_of(
        grown,
    )[key] == target[key] by {
        let p = place_of(grown, key);
        lemma_mapping_at(grown, p);
        if p < entries.len() {
            lemma_mapping_at(entries, p);
        }
    }
    assert(mapping_of(grown) =~= target);
}

/// Replacing the layer at a place, under the same key, replaces what the
/// mapping holds under that key.
proof fn lemma_mapping_update(entries: Seq<Entry>, i: int, entry: Entry)
    requires
        distinct_keys(entries),
        0 <= i < entries.len(),
        entry.key@ == entries[i].key@,
    ensures
        distinct_keys(entries.update(i, entry)),
        mapping_of(entries.update(i, entry)) == mapping_of(entries).insert(
            entry.key@,
            entry.layer@,
        ),
{
    let changed = entries.update(i, entry);
    assert forall|a: int, b: int|
        0 <= a < changed.len() && 0 <= b < changed.len() && #[trigger] changed[a].key@
            == #[trigger] changed[b].key@ implies a == b by {
        assert(changed[a].key@ == entries[a].key@);
        assert(changed[b].key@ == entries[b].key@);
    }
    let target = mapping_of(entries).insert(entry.key@, entry.layer@);
    assert forall|key: Seq<char>| #[trigger]
        mapping_of(changed).dom().contains(key) <==> target.dom().contains(key) by {
        if has_key(changed, key) {
            let p = place_of(changed, key);
            assert(entries[p].key@ == key);
        }
        if has_key(entries, key) {
            let p = place_of(entries, key);
            assert(changed[p].key@ == key);
        }
        if key == entry.key@ {
            assert(changed[i].key@ == key);
        }
    }
    assert forall|key: Seq<char>| #[trigger] mapping_of(changed).dom().contains(key) implies mapping_of(
        changed,
    )[key] == target[key] by {
        let p = place_of(changed, key);
        lemma_mapping_at(changed, p);
        assert(entries[p].key@ == key);
        lemma_mapping_at(entries, p);
    }
    assert(mapping_of(changed) =~= target);
}

/// Without its last entry, a sequence of distinct keys still has distinct
/// keys, and the key of the last entry is not among them.
proof fn lemma_front_is_distinct(entries: Seq<Entry>)
    requires
        distinct_keys(entries),
        entries.len() > 0,
    ensures
        distinct_keys(entries.drop_last()),
        !has_key(entries.drop_last(), entries.last().key@),
{
    let front = entries.drop_last();
    let last = entries.last();
    assert forall|i: int, j: int|
        0 <= i < front.len() && 0 <= j < front.len() && #[trigger] front[i].key@
            == #[trigger] front[j].key@ implies i == j by {
        assert(entries[i].key@ == entries[j].key@);
    }
    if has_key(front, last.key@) {
        let p = place_of(front, last.key@);
        assert(entries[p].key@ == entries[entries.len() - 1].key@);
    }
}

/// Distinct keys make the mapping as large as the sequence.
proof fn lemma_mapping_len(entries: Seq<Entry>)
    requires
        distinct_keys(entries),
    ensures
        mapping_of(entries).dom().finite(),
        mapping_of(entries).dom().len() == entries.len(),
    decreases entries.len(),
{
    if entries.len() == 0 {
        assert(mapping_of(entries).dom() =~= Set::<Seq<char>>::empty());
    } else {
        let front = entries.drop_last();
        let last = entries.last();
        lemma_front_is_distinct(entries);
        lemma_mapping_len(front);
        lemma_mapping_push(front, last);
        assert(front.push(last) =~= entries);
    }
}

/// Entries with distinct keys stand for the snapshot of their records.
proof fn lemma_mapping_is_snapshot(entries: Seq<Entry>)
    requires
        distinct_keys(entries),
    ensures
        snapshot_of(entry_records(entries)) == mapping_of(entries),
        keyed_once(entry_records(entries)),
    decreases entries.len(),
{
    let records = entry_records(entries);
    assert forall|i: int, j: int|
        0 <= i < records.len() && 0 <= j < records.len() && (#[trigger] records[i]).0
            == (#[trigger] records[j]).0 implies i == j by {
        assert(entries[i].key@ == entries[j].key@);
    }
    if entries.len() == 0 {
        assert(mapping_of(entries) =~= Map::<Seq<char>, LayerView>::empty());
    } else {
        let front = entries.drop_last();
        let last = entries.last();
        lemma_front_is_distinct(entries);
        lemma_mapping_is_snapshot(front);
        lemma_mapping_push(front, last);
        assert(front.push(last) =~= entries);
        assert(records.drop_last() =~= entry_records(front));
    }
}

/// A configuration snapshot: layer parameters by layer key, each key once.
pub struct Config {
    entries: Vec<Entry>,
}

impl View for Config {
    type V = Snapshot;

    closed spec fn view(&self) -> Snapshot {
        mapping_of(self.entries@)
    }
}

impl Config {
    #[verifier::type_invariant]
    spec fn keys_are_distinct(&self) -> bool {
        distinct_keys(self.entries@)
    }

    /// The place of `key` among the entries, if it has one.
    fn find(&self, key: &String) -> (place: Option<usize>)
        ensures
            match place {
                Some(i) => i < self.entries@.len() && self.entries@[i as int].key@ == key@,
                None => !has_key(self.entries@, key@),
            },
    {
        let mut i: usize = 0;
        while i < self.entries.len()
            invariant
                i <= self.entries@.len(),
                forall|j: int| 0 <= j < i ==> (#[trigger] self.entries@[j]).key@ != key@,
            decreases self.entries@.len() - i,
        {
            if self.entries[i].key == *key {
                return Some(i);
            }
            i += 1;
        }
        None
    }

    /// A snapshot without layers.
    pub fn new() -> (config: Self)
        ensures
            config@ == Map::<Seq<char>, LayerView>::empty(),
    {
        let config = Config { entries: Vec::new() };
        assert(config@ =~= Map::<Seq<char>, LayerView>::empty());
        config
    }

    /// Whether the snapshot has a layer under `key`.
    pub fn contains_key(&self, key: &String) -> (found: bool)
        ensures
            found == self@.dom().contains(key@),
    {
        self.find(key).is_some()
    }

    /// The layer under `key`, if the snapshot has one.
    pub fn get(&self, key: &String) -> (layer: Option<&LayerConfig>)
        ensures
            match layer {
                Some(found) => self@.dom().contains(key@) && found@ == self@[key@],
                None => !self@.dom().contains(key@),
            },
    {
        proof {
            use_type_invariant(self);
        }
        match self.find(key) {
            Some(i) => {
                proof {
                    lemma_mapping_at(self.entries@, i as int);
                }
                Some(&self.entries[i].layer)
            },
            None => None,
        }
    }

    /// Puts `layer` under `key`, in place of the layer that was there, if any.
    pub fn insert(&mut self, key: String, layer: LayerConfig)
        ensures
            final(self)@ == old(self)@.insert(key@, layer@),
    {
        proof {
            use_type_invariant(&*self);
        }
        let entry = Entry { key, layer };
        let place = self.find(&entry.key);
        let mut entries: Vec<Entry> = Vec::new();
        std::mem::swap(&mut self.entries, &mut entries);
        match place {
            Some(i) => {
                proof {
                    lemma_mapping_update(entries@, i as int, entry);
                }
                entries.set(i, entry);
            },
            None => {
                proof {
                    lemma_mapping_push(entries@, entry);
                }
                entries.push(entry);
            },
        }
        std::mem::swap(&mut self.entries, &mut entries);
    }

    /// Sets the opacity of the layer under `key`. A known layer keeps its
    /// other fields; an unknown key gets a default layer with that opacity.
    pub fn set_layer_opacity(&mut self, key: String, opacity_bits: u32)
        ensures
            final(self)@ == with_opacity(old(self)@, key@, opacity_bits),
    {
        proof {
            use_type_invariant(&*self);
        }
        let place = self.find(&key);
        let mut entries: Vec<Entry> = Vec::new();
        std::mem::swap(&mut self.entries, &mut entries);
        match place {
            Some(i) => {
                let ghost before = entries@;
                proof {
                    lemma_mapping_at(before, i as int);
                }
                entries[i].layer.opacity_bits = opacity_bits;
                proof {
                    assert(entries@ =~= before.update(i as int, entries@[i as int]));
                    lemma_mapping_update(before, i as int, entries@[i as int]);
                }
            },
            None => {
                let entry = Entry { key, layer: LayerConfig::with_opacity(opacity_bits) };
                proof {
                    lemma_mapping_push(entries@, entry);
                }
                entries.push(entry);
            },
        }
        std::mem::swap(&mut self.entries, &mut entries);
    }

    /// The number of layers.
    pub fn len(&self) -> (count: usize)
        ensures
            self@.dom().finite(),
            count == self@.dom().len(),
    {
        proof {
            use_type_invariant(self);
            lemma_mapping_len(self.entries@);
        }
        self.entries.len()
    }

    /// The layer keys, each once, in no particular order.
    pub fn keys(&self) -> (keys: Vec<String>)
        ensures
            keys@.len() == self@.dom().len(),
            forall|i: int| 0 <= i < keys@.len() ==> self@.dom().contains(#[trigger] keys@[i]@),
            forall|key: Seq<char>|
                self@.dom().contains(key) ==> exists|i: int|
                    0 <= i < keys@.len() && #[trigger] keys@[i]@ == key,
            forall|i: int, j: int|
                0 <= i < keys@.len() && 0 <= j < keys@.len() && #[trigger] keys@[i]@
                    == #[trigger] keys@[j]@ ==> i == j,
    {
        proof {
            use_type_invariant(self);
            lemma_mapping_len(self.entries@);
        }
        let mut keys: Vec<String> = Vec::new();
        let mut i: usize = 0;
        while i < self.entries.len()
            invariant
                i <= self.entries@.len(),
                keys@.len() == i,
                forall|j: int| 0 <= j < i ==> (#[trigger] keys@[j])@ == self.entries@[j].key@,
            decreases self.entries@.len() - i,
        {
            keys.push(self.entries[i].key.clone());
            i += 1;
        }
        proof {
            assert forall|j: int| 0 <= j < keys@.len() implies self@.dom().contains(
                #[trigger] keys@[j]@,
            ) by {
                lemma_mapping_at(self.entries@, j);
            }
            assert forall|key: Seq<char>| self@.dom().contains(key) implies exists|j: int|
                0 <= j < keys@.len() && #[trigger] keys@[j]@ == key by {
                let p = place_of(self.entries@, key);
                assert(keys@[p]@ == key);
            }
            assert forall|a: int, b: int|
                0 <= a < keys@.len() && 0 <= b < keys@.len() && #[trigger] keys@[a]@
                    == #[trigger] keys@[b]@ implies a == b by {
                assert(self.entries@[a].key@ == self.entries@[b].key@);
            }
        }
        keys
    }

    /// The layers with their keys, each key once, in no particular order.
    pub fn layers(&self) -> (records: Vec<(String, LayerConfig)>)
        ensures
            keyed_once(records_view(records@)),
            snapshot_of(records_view(records@)) == self@,
            records@.len() == self@.dom().len(),
    {
        proof {
            use_type_invariant(self);
            lemma_mapping_len(self.entries@);
            lemma_mapping_is_snapshot(self.entries@);
        }
        let mut records: Vec<(String, LayerConfig)> = Vec::new();
        let mut i: usize = 0;
        while i < self.entries.len()
            invariant
                i <= self.entries@.len(),
                records@.len() == i,
                records_view(records@) == entry_records(self.entries@.take(i as int)),
            decreases self.entries@.len() - i,
        {
            let ghost before = records@;
            records.push((self.entries[i].key.clone(), self.entries[i].layer.clone()));
            i += 1;
            proof {
                let now = records_view(records@);
                let target = entry_records(self.entries@.take(i as int));
                assert forall|j: int| 0 <= j < now.len() implies now[j] == target[j] by {
                    if j < i - 1 {
                        assert(records@[j] == before[j]);
                        assert(records_view(before)[j] == entry_records(
                            self.entries@.take(i - 1),
                        )[j]);
                    }
                }
                assert(now =~= target);
            }
        }
        assert(self.entries@.take(i as int) =~= self.entries@);
        assert(records_view(records@).len() == records@.len());
        records
    }

    /// The snapshot that a list of keyed layers stands for: each layer under
    /// its key, a later one in place of an earlier one under the same key.
    pub fn from_layers(records: Vec<(String, LayerConfig)>) -> (config: Self)
        ensures
            config@ == snapshot_of(records_view(records@)),
    {
        let ghost given = records_view(records@);
        let mut config = Config::new();
        for record in iter: records.into_iter()
            invariant
                iter.seq() == records@,
                given == records_view(records@),
                config@ == snapshot_of(given.take(iter.index() as int)),
        {
            proof {
                let done = iter.index() as int;
                assert(given.take(done + 1).drop_last() =~= given.take(done));
                assert(given.take(done + 1).last() == (record.0@, record.1@));
            }
            config.insert(record.0, record.1);
        }
        assert(given.take(records@.len() as int) =~= given);
        config
    }

    /// The snapshot that a store starts from: what was stored, where
    /// something could be read back, and the default snapshot otherwise.
    pub fn load(stored: Option<Config>) -> (config: Self)
        ensures
            config@ == match stored {
                Some(previous) => previous@,
                None => default_snapshot(),
            },
    {
        match stored {
            Some(previous) => previous,
            None => Config::default(),
        }
    }
}

impl Default for Config {
    fn default() -> (config: Self)
        ensures
            config@ == default_snapshot(),
    {
        let mut config = Config::new();
        config.insert(String::from_str("A"), LayerConfig::on_channel(14));
        config.insert(String::from_str("B"), LayerConfig::on_channel(15));
        config.insert(String::from_str("C"), LayerConfig::on_channel(16));
        proof {
            reveal_strlit("A");
            reveal_strlit("B");
            reveal_strlit("C");
            assert("A"@ =~= seq!['A']);
            assert("B"@ =~= seq!['B']);
            assert("C"@ =~= seq!['C']);
        }
        config
    }
}

impl Clone for Config {
    fn clone(&self) -> (copy: Self)
        ensures
            copy@ == self@,
    {
        proof {
            use_type_invariant(self);
        }
        let mut entries: Vec<Entry> = Vec::new();
        let mut i: usize = 0;
        while i < self.entries.len()
            invariant
                i <= self.entries@.len(),
                entries@ == self.entries@.take(i as int),
            decreases self.entries@.len() - i,
        {
            let entry = Entry {
                key: self.entries[i].key.clone(),
                layer: self.entries[i].layer.clone(),
            };
            entries.push(entry);
            proof {
                assert(entries@ =~= self.entries@.take(i + 1));
            }
            i += 1;
        }
        proof {
            assert(entries@ =~= self.entries@);
        }
        Config { entries }
    }
}

} // verus!
