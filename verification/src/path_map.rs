//! Maps from paths to values.

use crate::path::{Component, Part, SyncPath};
use vstd::prelude::*;

verus! {

/// Number of lists over which the paths of a map are spread.
const BUCKETS: usize = 4093;

/// A map keyed by paths. Two paths with the same components are one key.
pub struct PathMap<V> {
    buckets: Vec<Vec<(SyncPath, V)>>,
}

/// The value of a running hash after one more byte.
spec fn mixed(hash: u64, byte: u8) -> u64 {
    ((hash * 31 + byte + 1) % 4294967291) as u64
}

spec fn mixed_bytes(hash: u64, bytes: Seq<u8>) -> u64
    decreases bytes.len(),
{
    if bytes.len() == 0 {
        hash
    } else {
        mixed(mixed_bytes(hash, bytes.drop_last()), bytes.last())
    }
}

spec fn mixed_part(hash: u64, part: Part) -> u64 {
    match part {
        Part::Prefix(_) => mixed(hash, 0),
        Part::Root => mixed(hash, 1),
        Part::Cur => mixed(hash, 2),
        Part::Parent => mixed(hash, 3),
        Part::Normal(name) => mixed_bytes(mixed(hash, 4), name),
    }
}

spec fn mixed_parts(parts: Seq<Part>) -> u64
    decreases parts.len(),
{
    if parts.len() == 0 {
        0
    } else {
        mixed_part(mixed_parts(parts.drop_last()), parts.last())
    }
}

/// The list that holds a path.
spec fn slot(path: Seq<Part>) -> int {
    (mixed_parts(path) % BUCKETS as u64) as int
}

fn mix(hash: u64, byte: u8) -> (next: u64)
    requires
        hash < 4294967291,
    ensures
        next == mixed(hash, byte),
        next < 4294967291,
{
    (hash * 31 + byte as u64 + 1) % 4294967291
}

fn mix_bytes(start: u64, bytes: &[u8]) -> (next: u64)
    requires
        start < 4294967291,
    ensures
        next == mixed_bytes(start, bytes@),
        next < 4294967291,
{
    let mut hash: u64 = start;
    let mut i: usize = 0;
    assert(bytes@.take(0) =~= Seq::empty());
    while i < bytes.len()
        invariant
            i <= bytes@.len(),
            hash < 4294967291,
            hash == mixed_bytes(start, bytes@.take(i as int)),
        decreases bytes@.len() - i,
    {
        assert(bytes@.take(i + 1).drop_last() =~= bytes@.take(i as int));
        hash = mix(hash, bytes[i]);
        i += 1;
    }
    assert(bytes@.take(i as int) =~= bytes@);
    hash
}

fn find_slot(path: &SyncPath) -> (at: usize)
    ensures
        at == slot(path@),
        at < BUCKETS,
{
    let mut hash: u64 = 0;
    let mut i: usize = 0;
    assert(path@.take(0) =~= Seq::empty());
    while i < path.parts.len()
        invariant
            i <= path.parts@.len(),
            path@.len() == path.parts@.len(),
            hash < 4294967291,
            hash == mixed_parts(path@.take(i as int)),
        decreases path.parts@.len() - i,
    {
        assert(path@.take(i + 1).drop_last() =~= path@.take(i as int));
        assert(path@.take(i + 1).last() == path.parts@[i as int]@);
        hash = match &path.parts[i] {
            Component::Prefix(_) => mix(hash, 0),
            Component::RootDir => mix(hash, 1),
            Component::CurDir => mix(hash, 2),
            Component::ParentDir => mix(hash, 3),
            Component::Normal(name) => mix_bytes(mix(hash, 4), name.as_slice()),
        };
        i += 1;
    }
    assert(path@.take(i as int) =~= path@);
    (hash % BUCKETS as u64) as usize
}

spec fn has_key<V>(entries: Seq<(SyncPath, V)>, key: Seq<Part>) -> bool {
    exists|i: int| 0 <= i < entries.len() && (#[trigger] entries[i]).0@ == key
}

spec fn value_at<V>(entries: Seq<(SyncPath, V)>, key: Seq<Part>) -> V {
    let i = choose|i: int| 0 <= i < entries.len() && (#[trigger] entries[i]).0@ == key;
    entries[i].1
}

spec fn as_map<V>(entries: Seq<(SyncPath, V)>) -> Map<Seq<Part>, V> {
    Map::new(|key: Seq<Part>| has_key(entries, key), |key: Seq<Part>| value_at(entries, key))
}

spec fn keys_differ<V>(entries: Seq<(SyncPath, V)>) -> bool {
    forall|i: int, j: int|
        0 <= i < j < entries.len() ==> (#[trigger] entries[i]).0@ != (#[trigger] entries[j]).0@
}

/// The part of a map whose keys do not lie at or under `base`.
pub open spec fn outside<V>(map: Map<Seq<Part>, V>, base: Seq<Part>) -> Map<Seq<Part>, V> {
    Map::new(
        |key: Seq<Part>| map.contains_key(key) && !base.is_prefix_of(key),
        |key: Seq<Part>| map[key],
    )
}

proof fn lemma_value<V>(entries: Seq<(SyncPath, V)>, i: int)
    requires
        keys_differ(entries),
        0 <= i < entries.len(),
    ensures
        as_map(entries).contains_key(entries[i].0@),
        as_map(entries)[entries[i].0@] == entries[i].1,
{
    let key = entries[i].0@;
    assert(has_key(entries, key));
    let j = choose|j: int| 0 <= j < entries.len() && (#[trigger] entries[j]).0@ == key;
    assert(i == j);
}

proof fn lemma_push<V>(entries: Seq<(SyncPath, V)>, path: SyncPath, value: V)
    requires
        keys_differ(entries),
        !has_key(entries, path@),
    ensures
        keys_differ(entries.push((path, value))),
        as_map(entries.push((path, value))) == as_map(entries).insert(path@, value),
{
    let after = entries.push((path, value));
    assert(keys_differ(after));
    assert forall|key: Seq<Part>| #[trigger] has_key(after, key) <==> (has_key(entries, key)
        || key == path@) by {
        if has_key(entries, key) {
            let i = choose|i: int|
                0 <= i < entries.len() && (#[trigger] entries[i]).0@ == key;
            assert(after[i].0@ == key);
        }
        if key == path@ {
            assert(after[entries.len() as int].0@ == key);
        }
        if has_key(after, key) && key != path@ {
            let i = choose|i: int| 0 <= i < after.len() && (#[trigger] after[i]).0@ == key;
            assert(entries[i].0@ == key);
        }
    }
    assert forall|key: Seq<Part>| has_key(after, key) implies #[trigger] value_at(after, key)
        == as_map(entries).insert(path@, value)[key] by {
        let i = choose|i: int| 0 <= i < after.len() && (#[trigger] after[i]).0@ == key;
        lemma_value(after, i);
        if i < entries.len() {
            assert(entries[i].0@ == key);
            lemma_value(entries, i);
        }
    }
    assert(as_map(after) =~= as_map(entries).insert(path@, value));
}

proof fn lemma_remove<V>(entries: Seq<(SyncPath, V)>, i: int)
    requires
        keys_differ(entries),
        0 <= i < entries.len(),
    ensures
        keys_differ(entries.remove(i)),
        as_map(entries.remove(i)) == as_map(entries).remove(entries[i].0@),
{
    let after = entries.remove(i);
    let gone = entries[i].0@;
    assert forall|j: int, k: int| 0 <= j < k < after.len() implies (#[trigger] after[j]).0@ != (
    #[trigger] after[k]).0@ by {
        let j0 = if j < i { j } else { j + 1 };
        let k0 = if k < i { k } else { k + 1 };
        assert(after[j] == entries[j0] && after[k] == entries[k0]);
    }
    assert forall|key: Seq<Part>| #[trigger] has_key(after, key) <==> (has_key(entries, key)
        && key != gone) by {
        if has_key(after, key) {
            let j = choose|j: int| 0 <= j < after.len() && (#[trigger] after[j]).0@ == key;
            let j0 = if j < i { j } else { j + 1 };
            assert(entries[j0].0@ == key);
        }
        if has_key(entries, key) && key != gone {
            let j = choose|j: int|
                0 <= j < entries.len() && (#[trigger] entries[j]).0@ == key;
            let j1 = if j < i { j } else { j - 1 };
            assert(after[j1].0@ == key);
        }
    }
    assert forall|key: Seq<Part>| has_key(after, key) implies #[trigger] value_at(after, key)
        == as_map(entries)[key] by {
        let j = choose|j: int| 0 <= j < after.len() && (#[trigger] after[j]).0@ == key;
        let j0 = if j < i { j } else { j + 1 };
        assert(entries[j0] == after[j]);
        lemma_value(after, j);
        lemma_value(entries, j0);
    }
    assert(as_map(after) =~= as_map(entries).remove(gone));
}

/// The map that lists of entries hold: each path is looked up in its list.
spec fn spread_map<V>(buckets: Seq<Vec<(SyncPath, V)>>) -> Map<Seq<Part>, V> {
    Map::new(
        |key: Seq<Part>| slot(key) < buckets.len() && has_key(buckets[slot(key)]@, key),
        |key: Seq<Part>| value_at(buckets[slot(key)]@, key),
    )
}

/// A list holds only paths that belong there, and none twice.
spec fn bucket_ok<V>(entries: Seq<(SyncPath, V)>, at: int) -> bool {
    &&& keys_differ(entries)
    &&& forall|i: int| 0 <= i < entries.len() ==> slot((#[trigger] entries[i]).0@) == at
}

fn find_in<V>(entries: &Vec<(SyncPath, V)>, path: &SyncPath) -> (found: Option<usize>)
    ensures
        found matches Some(i) ==> i < entries@.len() && entries@[i as int].0@ == path@,
        found is None <==> !has_key(entries@, path@),
{
    let mut i: usize = 0;
    while i < entries.len()
        invariant
            i <= entries@.len(),
            forall|k: int| 0 <= k < i ==> (#[trigger] entries@[k]).0@ != path@,
        decreases entries@.len() - i,
    {
        if entries[i].0.same(path) {
            return Some(i);
        }
        i += 1;
    }
    None
}

fn remove_from<V>(entries: &mut Vec<(SyncPath, V)>, path: &SyncPath)
    requires
        bucket_ok(old(entries)@, slot(path@)),
    ensures
        bucket_ok(final(entries)@, slot(path@)),
        as_map(final(entries)@) == as_map(old(entries)@).remove(path@),
{
    match find_in(entries, path) {
        Some(i) => {
            proof {
                lemma_remove(entries@, i as int);
                lemma_removed_in_place(entries@, i as int, slot(path@));
            }
            let _gone = entries.remove(i);
        },
        None => {
            assert(as_map(entries@).remove(path@) =~= as_map(entries@));
        },
    }
}

proof fn lemma_removed_in_place<V>(entries: Seq<(SyncPath, V)>, i: int, at: int)
    requires
        bucket_ok(entries, at),
        0 <= i < entries.len(),
    ensures
        bucket_ok(entries.remove(i), at),
{
    lemma_remove(entries, i);
    let after = entries.remove(i);
    assert forall|j: int| 0 <= j < after.len() implies slot((#[trigger] after[j]).0@) == at by {
        let j0 = if j < i { j } else { j + 1 };
        assert(after[j] == entries[j0]);
    }
}

fn remove_under_from<V>(entries: &mut Vec<(SyncPath, V)>, base: &SyncPath, Ghost(at): Ghost<int>)
    requires
        bucket_ok(old(entries)@, at),
    ensures
        bucket_ok(final(entries)@, at),
        as_map(final(entries)@) == outside(as_map(old(entries)@), base@),
{
    let ghost start = as_map(entries@);
    let mut i: usize = 0;
    while i < entries.len()
        invariant
            i <= entries@.len(),
            bucket_ok(entries@, at),
            forall|k: int| 0 <= k < i ==> !base@.is_prefix_of((#[trigger] entries@[k]).0@),
            outside(as_map(entries@), base@) == outside(start, base@),
        decreases entries@.len() - i,
    {
        let ghost before = entries@;
        if entries[i].0.starts_with(base) {
            proof {
                lemma_remove(before, i as int);
                lemma_removed_in_place(before, i as int, at);
            }
            let _gone = entries.remove(i);
            assert(forall|k: int| 0 <= k < i ==> entries@[k] == before[k]);
            assert(outside(as_map(entries@), base@) =~= outside(as_map(before), base@));
        } else {
            i += 1;
        }
    }
    assert forall|key: Seq<Part>| #[trigger] as_map(entries@).contains_key(key) implies
        !base@.is_prefix_of(key) by {
        let k = choose|k: int|
            0 <= k < entries@.len() && (#[trigger] entries@[k]).0@ == key;
        assert(!base@.is_prefix_of(entries@[k].0@));
    }
    assert(outside(as_map(entries@), base@) =~= as_map(entries@));
}

impl<V> PathMap<V> {
    pub closed spec fn view(&self) -> Map<Seq<Part>, V> {
        spread_map(self.buckets@)
    }

    /// Every path stands in its list, and none twice.
    pub closed spec fn wf(&self) -> bool {
        &&& self.buckets@.len() == BUCKETS
        &&& forall|b: int| 0 <= b < BUCKETS ==> bucket_ok((#[trigger] self.buckets@[b])@, b)
    }

    /// An empty map.
    pub fn new() -> (map: PathMap<V>)
        ensures
            map.wf(),
            map@ == Map::<Seq<Part>, V>::empty(),
    {
        let mut buckets: Vec<Vec<(SyncPath, V)>> = Vec::new();
        let mut i: usize = 0;
        while i < BUCKETS
            invariant
                i <= BUCKETS,
                buckets@.len() == i,
                forall|b: int| 0 <= b < i ==> (#[trigger] buckets@[b])@.len() == 0,
            decreases BUCKETS - i,
        {
            buckets.push(Vec::new());
            i += 1;
        }
        let map = PathMap { buckets };
        assert(map@ =~= Map::<Seq<Part>, V>::empty());
        map
    }

    /// The value of a path.
    pub fn get(&self, path: &SyncPath) -> (value: Option<&V>)
        requires
            self.wf(),
        ensures
            value is Some <==> self@.contains_key(path@),
            value matches Some(v) ==> *v == self@[path@],
    {
        let at: usize = find_slot(path);
        assert(bucket_ok(self.buckets@[at as int]@, at as int));
        match find_in(&self.buckets[at], path) {
            Some(i) => {
                proof {
                    lemma_value(self.buckets@[at as int]@, i as int);
                }
                Some(&self.buckets[at][i].1)
            },
            None => None,
        }
    }

    /// Whether a path has a value.
    pub fn contains(&self, path: &SyncPath) -> (contains: bool)
        ensures
            contains == self@.contains_key(path@),
    {
        let at: usize = find_slot(path);
        if at >= self.buckets.len() {
            return false;
        }
        find_in(&self.buckets[at], path).is_some()
    }

    /// Drops the value of a path.
    pub fn remove(&mut self, path: &SyncPath)
        requires
            old(self).wf(),
        ensures
            final(self).wf(),
            final(self)@ == old(self)@.remove(path@),
    {
        let at: usize = find_slot(path);
        let ghost before = self.buckets@;
        assert(bucket_ok(before[at as int]@, at as int));
        remove_from(&mut self.buckets[at], path);
        proof {
            lemma_one_changed(before, self.buckets@, at as int);
            assert(self@ =~= old(self)@.remove(path@));
        }
    }

    /// Gives a path a value.
    pub fn insert(&mut self, path: SyncPath, value: V)
        requires
            old(self).wf(),
        ensures
            final(self).wf(),
            final(self)@ == old(self)@.insert(path@, value),
    {
        self.remove(&path);
        let at: usize = find_slot(&path);
        let ghost before = self.buckets@;
        let ghost removed = self@;
        assert(bucket_ok(before[at as int]@, at as int));
        assert(!removed.contains_key(path@));
        proof {
            lemma_push(before[at as int]@, path, value);
        }
        self.buckets[at].push((path, value));
        proof {
            let after = self.buckets@[at as int]@;
            assert(after =~= before[at as int]@.push((path, value)));
            assert(bucket_ok(after, at as int));
            lemma_one_changed(before, self.buckets@, at as int);
            assert(self@ =~= removed.insert(path@, value));
            assert(removed.insert(path@, value) =~= old(self)@.insert(path@, value));
        }
    }

    /// Drops the values of `base` and of all paths under it.
    pub fn remove_under(&mut self, base: &SyncPath)
        requires
            old(self).wf(),
        ensures
            final(self).wf(),
            final(self)@ == outside(old(self)@, base@),
    {
        let ghost start = self.buckets@;
        let mut b: usize = 0;
        while b < self.buckets.len()
            invariant
                b <= BUCKETS,
                self.wf(),
                start.len() == BUCKETS,
                forall|k: int|
                    0 <= k < b ==> as_map((#[trigger] self.buckets@[k])@) == outside(
                        as_map(start[k]@),
                        base@,
                    ),
                forall|k: int| b <= k < BUCKETS ==> #[trigger] self.buckets@[k] == start[k],
            decreases BUCKETS - b,
        {
            let ghost before = self.buckets@;
            assert(bucket_ok(before[b as int]@, b as int));
            remove_under_from(&mut self.buckets[b], base, Ghost(b as int));
            assert(forall|k: int|
                0 <= k < BUCKETS && k != b ==> #[trigger] self.buckets@[k] == before[k]);
            b += 1;
        }
        assert forall|key: Seq<Part>|
            #![trigger self@.contains_key(key)]
            self@.contains_key(key) == outside(old(self)@, base@).contains_key(key) && (
            self@.contains_key(key) ==> self@[key] == outside(old(self)@, base@)[key]) by {
            let k = slot(key);
            assert(as_map(self.buckets@[k]@) == outside(as_map(start[k]@), base@));
            assert(as_map(self.buckets@[k]@).contains_key(key) == has_key(
                self.buckets@[k]@,
                key,
            ));
            assert(as_map(start[k]@).contains_key(key) == has_key(start[k]@, key));
            assert(old(self)@.contains_key(key) == has_key(start[k]@, key));
            if self@.contains_key(key) {
                assert(self@[key] == as_map(self.buckets@[k]@)[key]);
                assert(old(self)@[key] == as_map(start[k]@)[key]);
            }
        }
        assert(self@ =~= outside(old(self)@, base@));
    }

    /// Number of paths that have a value.
    pub fn len(&self) -> (len: u128)
        requires
            self.wf(),
        ensures
            len == self@.dom().len(),
    {
        let mut total: u128 = 0;
        let mut b: usize = 0;
        assert(filled(self.buckets@, 0) =~= Set::empty());
        while b < self.buckets.len()
            invariant
                b <= BUCKETS,
                self.wf(),
                total <= b * 0xFFFF_FFFF_FFFF_FFFF,
                filled(self.buckets@, b as int).finite(),
                total == filled(self.buckets@, b as int).len(),
            decreases BUCKETS - b,
        {
            proof {
                lemma_filled(self.buckets@, b as int);
            }
            total = total + self.buckets[b].len() as u128;
            b += 1;
        }
        assert(filled(self.buckets@, b as int) =~= self@.dom());
        total
    }
}

/// The paths in the first lists.
spec fn filled<V>(buckets: Seq<Vec<(SyncPath, V)>>, count: int) -> Set<Seq<Part>> {
    Set::new(|key: Seq<Part>| slot(key) < count && has_key(buckets[slot(key)]@, key))
}

proof fn lemma_filled<V>(buckets: Seq<Vec<(SyncPath, V)>>, b: int)
    requires
        0 <= b < buckets.len(),
        bucket_ok(buckets[b]@, b),
        filled(buckets, b).finite(),
    ensures
        filled(buckets, b + 1).finite(),
        filled(buckets, b + 1).len() == filled(buckets, b).len() + buckets[b]@.len(),
{
    let keys = as_map(buckets[b]@).dom();
    lemma_len(buckets[b]@);
    assert forall|key: Seq<Part>| #[trigger] keys.contains(key) implies slot(key) == b by {
        let i = choose|i: int|
            0 <= i < buckets[b]@.len() && (#[trigger] buckets[b]@[i]).0@ == key;
        assert(slot(buckets[b]@[i].0@) == b);
    }
    assert(filled(buckets, b + 1) =~= filled(buckets, b).union(keys));
    assert(filled(buckets, b).disjoint(keys));
    vstd::set_lib::lemma_set_disjoint_lens(filled(buckets, b), keys);
}

/// The map after one list was changed: it differs at the paths of that list only.
proof fn lemma_one_changed<V>(
    before: Seq<Vec<(SyncPath, V)>>,
    after: Seq<Vec<(SyncPath, V)>>,
    at: int,
)
    requires
        before.len() == after.len() == BUCKETS,
        0 <= at < BUCKETS,
        forall|b: int| 0 <= b < BUCKETS && b != at ==> #[trigger] after[b] == before[b],
    ensures
        forall|key: Seq<Part>|
            #![trigger spread_map(after).contains_key(key)]
            slot(key) != at ==> spread_map(after).contains_key(key) == spread_map(
                before,
            ).contains_key(key),
        forall|key: Seq<Part>|
            #![trigger spread_map(after).contains_key(key)]
            slot(key) != at && spread_map(after).contains_key(key) ==> spread_map(after)[key]
                == spread_map(before)[key],
        forall|key: Seq<Part>|
            #![trigger spread_map(after).contains_key(key)]
            slot(key) == at ==> spread_map(after).contains_key(key) == as_map(
                after[at]@,
            ).contains_key(key) && spread_map(before).contains_key(key) == as_map(
                before[at]@,
            ).contains_key(key),
        forall|key: Seq<Part>|
            #![trigger spread_map(after).contains_key(key)]
            slot(key) == at && as_map(after[at]@).contains_key(key) ==> spread_map(after)[key]
                == as_map(after[at]@)[key],
        forall|key: Seq<Part>|
            #![trigger spread_map(after).contains_key(key)]
            slot(key) == at && as_map(before[at]@).contains_key(key) ==> spread_map(before)[key]
                == as_map(before[at]@)[key],
{
    assert forall|key: Seq<Part>| 0 <= #[trigger] slot(key) < BUCKETS by {}
}

proof fn lemma_len<V>(entries: Seq<(SyncPath, V)>)
    requires
        keys_differ(entries),
    ensures
        as_map(entries).dom().finite(),
        as_map(entries).dom().len() == entries.len(),
    decreases entries.len(),
{
    if entries.len() == 0 {
        assert(as_map(entries) =~= Map::<Seq<Part>, V>::empty());
    } else {
        let last = entries.len() - 1;
        let rest = entries.remove(last);
        lemma_remove(entries, last);
        lemma_len(rest);
        lemma_value(entries, last);
        assert(as_map(rest).dom() =~= as_map(entries).dom().remove(entries[last].0@));
        assert(as_map(entries).dom() =~= as_map(rest).dom().insert(entries[last].0@));
    }
}

} // verus!
