//! Collections keyed by field path: an ordered set of paths and a map from
//! paths to text.

use crate::field_path::FieldPath;
use vstd::prelude::*;

verus! {

/// The paths of a list, each by its segments.
pub open spec fn paths_view(paths: Seq<FieldPath>) -> Seq<Seq<Seq<char>>> {
    paths.map_values(|p: FieldPath| p@)
}

/// The keys of a list of entries, each by its segments.
pub open spec fn entry_keys(entries: Seq<(FieldPath, String)>) -> Seq<Seq<Seq<char>>> {
    entries.map_values(|e: (FieldPath, String)| e.0@)
}

/// `paths` with `path` added at the end unless it is there already.
pub open spec fn with_path(
    paths: Seq<Seq<Seq<char>>>,
    path: Seq<Seq<char>>,
) -> Seq<Seq<Seq<char>>> {
    if paths.contains(path) {
        paths
    } else {
        paths.push(path)
    }
}

/// `paths` with the first `n` of `more` added one after the other, each
/// unless it is there already.
pub open spec fn with_paths(
    paths: Seq<Seq<Seq<char>>>,
    more: Seq<Seq<Seq<char>>>,
    n: nat,
) -> Seq<Seq<Seq<char>>>
    decreases n,
{
    if n == 0 || n > more.len() {
        paths
    } else {
        with_path(with_paths(paths, more, (n - 1) as nat), more[n - 1])
    }
}

/// Each of `paths` with `field` put in front.
pub open spec fn under(field: Seq<char>, paths: Seq<Seq<Seq<char>>>) -> Seq<Seq<Seq<char>>> {
    paths.map_values(|p: Seq<Seq<char>>| seq![field] + p)
}

/// A set of field paths that remembers the order in which its members were
/// first inserted. No path occurs twice.
#[derive(Debug)]
pub struct PathSet {
    paths: Vec<FieldPath>,
}

impl View for PathSet {
    type V = Seq<Seq<Seq<char>>>;

    closed spec fn view(&self) -> Seq<Seq<Seq<char>>> {
        paths_view(self.paths@)
    }
}

impl PathSet {
    #[verifier::type_invariant]
    spec fn distinct(&self) -> bool {
        paths_view(self.paths@).no_duplicates()
    }

    /// Creates an empty set.
    pub fn new() -> (set: Self)
        ensures
            set@ == Seq::<Seq<Seq<char>>>::empty(),
    {
        let set = PathSet { paths: Vec::new() };
        assert(set@ =~= Seq::<Seq<Seq<char>>>::empty());
        set
    }

    /// Returns the number of members, which are pairwise different.
    pub fn len(&self) -> (n: usize)
        ensures
            n == self@.len(),
            self@.no_duplicates(),
    {
        proof {
            use_type_invariant(self);
        }
        self.paths.len()
    }

    /// Returns the member at position `index` in insertion order.
    pub fn get(&self, index: usize) -> (path: Option<&FieldPath>)
        ensures
            index < self@.len() ==> path.is_some() && path.unwrap()@ == self@[index as int],
            index >= self@.len() ==> path.is_none(),
    {
        if index < self.paths.len() {
            Some(&self.paths[index])
        } else {
            None
        }
    }

    /// Checks whether `path` is a member.
    pub fn contains(&self, path: &FieldPath) -> (r: bool)
        ensures
            r == self@.contains(path@),
    {
        let mut i: usize = 0;
        while i < self.paths.len()
            invariant
                i <= self.paths.len(),
                forall|j: int| 0 <= j < i ==> self@[j] != path@,
            decreases self.paths.len() - i,
        {
            if self.paths[i].equals(path) {
                assert(self@[i as int] == path@);
                return true;
            }
            i = i + 1;
        }
        false
    }

    /// Adds `path` unless it is a member already; says whether it was added.
    pub fn insert(&mut self, path: FieldPath) -> (added: bool)
        ensures
            final(self)@ == with_path(old(self)@, path@),
            added == !old(self)@.contains(path@),
            final(self)@.no_duplicates(),
    {
        proof {
            use_type_invariant(&*self);
        }
        if self.contains(&path) {
            false
        } else {
            let mut taken = PathSet::new();
            core::mem::swap(self, &mut taken);
            let mut paths = taken.paths;
            let ghost before = paths@;
            paths.push(path);
            proof {
                assert(paths_view(paths@) =~= paths_view(before).push(path@));
            }
            *self = PathSet { paths };
            true
        }
    }
}

/// A map from field paths to text. Each path has at most one entry.
#[derive(Debug)]
pub struct PathMap {
    entries: Vec<(FieldPath, String)>,
}

impl View for PathMap {
    type V = Map<Seq<Seq<char>>, Seq<char>>;

    closed spec fn view(&self) -> Map<Seq<Seq<char>>, Seq<char>> {
        entries_map(self.entries@)
    }
}

impl PathMap {
    #[verifier::type_invariant]
    spec fn distinct(&self) -> bool {
        entry_keys(self.entries@).no_duplicates()
    }

    /// The paths that have an entry, in the order in which they were first
    /// inserted.
    pub closed spec fn keys(&self) -> Seq<Seq<Seq<char>>> {
        entry_keys(self.entries@)
    }

    /// Creates an empty map.
    pub fn new() -> (map: Self)
        ensures
            map@ == Map::<Seq<Seq<char>>, Seq<char>>::empty(),
            map.keys() == Seq::<Seq<Seq<char>>>::empty(),
    {
        let map = PathMap { entries: Vec::new() };
        assert(map@ =~= Map::<Seq<Seq<char>>, Seq<char>>::empty());
        assert(map.keys() =~= Seq::<Seq<Seq<char>>>::empty());
        map
    }

    /// Position of the entry for `key`, if there is one.
    fn find(&self, key: &FieldPath) -> (at: Option<usize>)
        ensures
            match at {
                Some(i) => i < self.entries.len() && entry_keys(self.entries@)[i as int] == key@,
                None => !entry_keys(self.entries@).contains(key@),
            },
    {
        let mut i: usize = 0;
        while i < self.entries.len()
            invariant
                i <= self.entries.len(),
                forall|j: int| 0 <= j < i ==> entry_keys(self.entries@)[j] != key@,
            decreases self.entries.len() - i,
        {
            if self.entries[i].0.equals(key) {
                return Some(i);
            }
            i = i + 1;
        }
        None
    }

    /// Returns the text stored for `key`, if any.
    pub fn get(&self, key: &FieldPath) -> (value: Option<&String>)
        ensures
            self@.contains_key(key@) ==> value.is_some() && value.unwrap()@ == self@[key@],
            !self@.contains_key(key@) ==> value.is_none(),
    {
        proof {
            use_type_invariant(self);
        }
        match self.find(key) {
            Some(i) => {
                assert(entry_keys(self.entries@).contains(key@));
                assert(entry_keys(self.entries@).index_of(key@) == i);
                Some(&self.entries[i].1)
            },
            None => None,
        }
    }

    /// Returns the entry at position `index`, in the order in which the
    /// paths were first inserted.
    pub fn entry(&self, index: usize) -> (entry: Option<(&FieldPath, &String)>)
        ensures
            index < self.keys().len() ==> entry.is_some()
                && entry.unwrap().0@ == self.keys()[index as int]
                && self@.contains_key(entry.unwrap().0@)
                && entry.unwrap().1@ == self@[entry.unwrap().0@],
            index >= self.keys().len() ==> entry.is_none(),
    {
        proof {
            use_type_invariant(self);
            lemma_len(self.entries@);
        }
        if index < self.entries.len() {
            proof {
                lemma_lookup(self.entries@, index as int);
            }
            Some((&self.entries[index].0, &self.entries[index].1))
        } else {
            None
        }
    }

    /// Checks whether `key` has an entry.
    pub fn contains_key(&self, key: &FieldPath) -> (r: bool)
        ensures
            r == self@.contains_key(key@),
    {
        self.find(key).is_some()
    }

    /// Returns the number of entries. The paths with an entry are pairwise
    /// different and are exactly the domain of the map.
    pub fn len(&self) -> (n: usize)
        ensures
            n == self@.len(),
            n == self.keys().len(),
            self.keys().no_duplicates(),
            self@.dom() == self.keys().to_set(),
    {
        proof {
            use_type_invariant(self);
            lemma_len(self.entries@);
            assert(self@.dom() =~= self.keys().to_set());
        }
        self.entries.len()
    }

    /// Stores `value` for `key`, replacing what was stored for it before. A
    /// path that had no entry is added behind the others.
    pub fn insert(&mut self, key: FieldPath, value: String)
        ensures
            final(self)@ == old(self)@.insert(key@, value@),
            final(self).keys() == with_path(old(self).keys(), key@),
    {
        proof {
            use_type_invariant(&*self);
        }
        let found = self.find(&key);
        let mut taken = PathMap::new();
        core::mem::swap(self, &mut taken);
        let mut entries = taken.entries;
        let ghost before = entries@;
        match found {
            Some(i) => {
                entries.set(i, (key, value));
                proof {
                    lemma_entries_updated(before, entries@, i as int);
                    assert(entry_keys(before).contains(key@)) by {
                        assert(entry_keys(before)[i as int] == key@);
                    }
                }
            },
            None => {
                entries.push((key, value));
                proof {
                    lemma_entries_pushed(before, entries@);
                    assert(entry_keys(entries@) =~= entry_keys(before).push(key@));
                }
            },
        }
        *self = PathMap { entries };
    }

    /// Copies every entry of `other` into this map. Where both have an entry
    /// for a path, the one of `other` stays.
    pub fn extend(&mut self, other: &PathMap)
        ensures
            final(self)@ == old(self)@.union_prefer_right(other@),
            final(self).keys() == with_paths(old(self).keys(), other.keys(), other.keys().len()),
    {
        proof {
            use_type_invariant(other);
        }
        let mut i: usize = 0;
        assert(other.entries@.take(0) =~= Seq::<(FieldPath, String)>::empty());
        assert(entries_map(other.entries@.take(0)) =~= Map::<Seq<Seq<char>>, Seq<char>>::empty());
        assert(self@ =~= old(self)@.union_prefer_right(entries_map(other.entries@.take(0))));
        while i < other.entries.len()
            invariant
                i <= other.entries.len(),
                entry_keys(other.entries@).no_duplicates(),
                self@ == old(self)@.union_prefer_right(entries_map(other.entries@.take(i as int))),
                self.keys() == with_paths(old(self).keys(), other.keys(), i as nat),
            decreases other.entries.len() - i,
        {
            let key = other.entries[i].0.duplicate();
            let value = other.entries[i].1.clone();
            proof {
                lemma_prefix_pushed(other.entries@, i as int);
                let before = entries_map(other.entries@.take(i as int));
                assert(old(self)@.union_prefer_right(before).insert(key@, value@) =~= old(
                    self,
                )@.union_prefer_right(before.insert(key@, value@)));
            }
            self.insert(key, value);
            i = i + 1;
        }
        assert(other.entries@.take(other.entries.len() as int) =~= other.entries@);
    }

    /// Copies the entries of `nested` into this map, each under its path
    /// with `field` put in front. An entry that this map already has stays.
    pub fn adopt(&mut self, field: &str, nested: &PathMap)
        ensures
            final(self)@ == nested_under(field@, nested@).union_prefer_right(old(self)@),
            final(self).keys() == with_paths(
                old(self).keys(),
                under(field@, nested.keys()),
                nested.keys().len(),
            ),
    {
        proof {
            use_type_invariant(nested);
        }
        let mut i: usize = 0;
        assert(nested.entries@.take(0) =~= Seq::<(FieldPath, String)>::empty());
        assert(entries_map(nested.entries@.take(0)) =~= Map::<Seq<Seq<char>>, Seq<char>>::empty());
        assert(self@ =~= nested_under(
            field@,
            entries_map(nested.entries@.take(0)),
        ).union_prefer_right(old(self)@));
        while i < nested.entries.len()
            invariant
                i <= nested.entries.len(),
                entry_keys(nested.entries@).no_duplicates(),
                self@ == nested_under(
                    field@,
                    entries_map(nested.entries@.take(i as int)),
                ).union_prefer_right(old(self)@),
                self.keys() == with_paths(
                    old(self).keys(),
                    under(field@, nested.keys()),
                    i as nat,
                ),
            decreases nested.entries.len() - i,
        {
            let mut full = FieldPath::new();
            full.push(String::from_str(field));
            let inner = &nested.entries[i].0;
            let segments: usize = inner.len();
            let mut k: usize = 0;
            assert(full@ =~= seq![field@] + inner@.take(0));
            while k < segments
                invariant
                    k <= segments,
                    segments == inner@.len(),
                    full@ == seq![field@] + inner@.take(k as int),
                decreases segments - k,
            {
                match inner.get(k) {
                    Some(segment) => {
                        full.push(segment.clone());
                        assert(full@ =~= seq![field@] + inner@.take(k + 1));
                    },
                    None => {},
                }
                k = k + 1;
            }
            proof {
                assert(inner@.take(inner@.len() as int) =~= inner@);
                lemma_prefix_pushed(nested.entries@, i as int);
                lemma_nested_under_insert(
                    field@,
                    entries_map(nested.entries@.take(i as int)),
                    inner@,
                    nested.entries@[i as int].1@,
                );
            }
            proof {
                assert(under(field@, nested.keys())[i as int] == full@);
                assert(self@.contains_key(full@) == self.keys().contains(full@));
            }
            if !self.contains_key(&full) {
                let value = nested.entries[i].1.clone();
                let ghost before = nested_under(
                    field@,
                    entries_map(nested.entries@.take(i as int)),
                );
                let ghost kept = old(self)@;
                assert(before.union_prefer_right(kept).insert(full@, value@)
                    =~= before.insert(full@, value@).union_prefer_right(kept));
                self.insert(full, value);
            } else {
                let ghost before = nested_under(
                    field@,
                    entries_map(nested.entries@.take(i as int)),
                );
                let ghost value = nested.entries@[i as int].1@;
                assert(before.union_prefer_right(old(self)@) =~= before.insert(
                    full@,
                    value,
                ).union_prefer_right(old(self)@)) by {
                    if !old(self)@.contains_key(full@) {
                        assert(before.contains_key(full@));
                        assert(full@.skip(1) =~= inner@);
                        lemma_prefix_lookup(nested.entries@, i as int, inner@);
                    }
                }
            }
            i = i + 1;
        }
        assert(nested.entries@.take(nested.entries.len() as int) =~= nested.entries@);
    }
}

/// The entries of `nested`, each under its path with `field` put in front.
pub open spec fn nested_under(
    field: Seq<char>,
    nested: Map<Seq<Seq<char>>, Seq<char>>,
) -> Map<Seq<Seq<char>>, Seq<char>> {
    Map::new(
        |p: Seq<Seq<char>>| p.len() > 0 && p[0] == field && nested.contains_key(p.skip(1)),
        |p: Seq<Seq<char>>| nested[p.skip(1)],
    )
}

proof fn lemma_nested_under_insert(
    field: Seq<char>,
    nested: Map<Seq<Seq<char>>, Seq<char>>,
    path: Seq<Seq<char>>,
    value: Seq<char>,
)
    ensures
        nested_under(field, nested.insert(path, value)) == nested_under(field, nested).insert(
            seq![field] + path,
            value,
        ),
{
    let full = seq![field] + path;
    assert(full.skip(1) =~= path);
    let left = nested_under(field, nested.insert(path, value));
    let right = nested_under(field, nested).insert(full, value);
    assert(full[0] == field);
    assert forall|p: Seq<Seq<char>>| #[trigger]
        left.dom().contains(p) == right.dom().contains(p) by {
        if p.len() > 0 && p[0] == field && p.skip(1) == path {
            assert(p =~= full);
        }
    }
    assert forall|p: Seq<Seq<char>>| left.dom().contains(p) implies #[trigger] left[p]
        == right[p] by {
        if p.skip(1) == path {
            assert(p =~= full);
        }
    }
    assert(left =~= right);
}

proof fn lemma_prefix_pushed(entries: Seq<(FieldPath, String)>, i: int)
    requires
        entry_keys(entries).no_duplicates(),
        0 <= i < entries.len(),
    ensures
        entry_keys(entries.take(i)).no_duplicates(),
        !entry_keys(entries.take(i)).contains(entries[i].0@),
        entries_map(entries.take(i + 1)) == entries_map(entries.take(i)).insert(
            entries[i].0@,
            entries[i].1@,
        ),
{
    let before = entries.take(i);
    let after = entries.take(i + 1);
    assert forall|a: int, b: int|
        0 <= a < before.len() && 0 <= b < before.len() && a != b implies entry_keys(before)[a]
        != entry_keys(before)[b] by {
        assert(entry_keys(entries)[a] != entry_keys(entries)[b]);
    }
    assert forall|a: int| 0 <= a < before.len() implies entry_keys(before)[a] != entries[i].0@ by {
        assert(entry_keys(entries)[a] != entry_keys(entries)[i]);
    }
    lemma_entries_pushed(before, after);
}

proof fn lemma_prefix_lookup(entries: Seq<(FieldPath, String)>, i: int, path: Seq<Seq<char>>)
    requires
        entry_keys(entries).no_duplicates(),
        0 <= i < entries.len(),
        entries_map(entries.take(i)).contains_key(path),
    ensures
        path != entries[i].0@,
{
    let before = entries.take(i);
    let a = entry_keys(before).index_of(path);
    assert(0 <= a < i && entry_keys(before)[a] == path);
    assert(entry_keys(entries)[a] != entry_keys(entries)[i]);
}

/// What a list of entries with distinct keys maps each key to.
pub open spec fn entries_map(entries: Seq<(FieldPath, String)>) -> Map<Seq<Seq<char>>, Seq<char>> {
    Map::new(
        |k: Seq<Seq<char>>| entry_keys(entries).contains(k),
        |k: Seq<Seq<char>>| entries[entry_keys(entries).index_of(k)].1@,
    )
}

proof fn lemma_lookup(entries: Seq<(FieldPath, String)>, i: int)
    requires
        entry_keys(entries).no_duplicates(),
        0 <= i < entries.len(),
    ensures
        entries_map(entries).contains_key(entries[i].0@),
        entries_map(entries)[entries[i].0@] == entries[i].1@,
{
    let keys = entry_keys(entries);
    assert(keys[i] == entries[i].0@);
    assert(keys.contains(entries[i].0@));
    let j = keys.index_of(entries[i].0@);
    assert(0 <= j < keys.len() && keys[j] == keys[i]);
}

proof fn lemma_entries_updated(
    before: Seq<(FieldPath, String)>,
    after: Seq<(FieldPath, String)>,
    i: int,
)
    requires
        entry_keys(before).no_duplicates(),
        0 <= i < before.len(),
        after.len() == before.len(),
        after[i].0@ == before[i].0@,
        forall|j: int| 0 <= j < before.len() && j != i ==> after[j] == before[j],
    ensures
        entry_keys(after) == entry_keys(before),
        entries_map(after) == entries_map(before).insert(after[i].0@, after[i].1@),
{
    assert(entry_keys(after) =~= entry_keys(before));
    let target = entries_map(before).insert(after[i].0@, after[i].1@);
    assert forall|k: Seq<Seq<char>>| entries_map(after).contains_key(k) implies #[trigger]
        target.contains_key(k) && entries_map(after)[k] == target[k] by {
        let j = entry_keys(after).index_of(k);
        assert(0 <= j < after.len() && entry_keys(after)[j] == k);
        lemma_lookup(after, j);
        assert(after[j].0@ == k);
        if j != i {
            assert(entry_keys(after)[j] != entry_keys(after)[i]);
            assert(entry_keys(after)[i] == after[i].0@);
            assert(after[j] == before[j]);
            lemma_lookup(before, j);
        }
    }
    assert forall|k: Seq<Seq<char>>| target.contains_key(k) implies #[trigger] entries_map(
        after,
    ).contains_key(k) by {
        if k == after[i].0@ {
            lemma_lookup(after, i);
        }
    }
    assert(entries_map(after) =~= target);
}

proof fn lemma_entries_pushed(before: Seq<(FieldPath, String)>, after: Seq<(FieldPath, String)>)
    requires
        entry_keys(before).no_duplicates(),
        after.len() == before.len() + 1,
        forall|j: int| 0 <= j < before.len() ==> after[j] == before[j],
        !entry_keys(before).contains(after.last().0@),
    ensures
        entry_keys(after).no_duplicates(),
        entries_map(after) == entries_map(before).insert(after.last().0@, after.last().1@),
{
    let n = before.len() as int;
    assert(entry_keys(after) =~= entry_keys(before).push(after[n].0@));
    assert forall|a: int, b: int|
        0 <= a < after.len() && 0 <= b < after.len() && a != b implies entry_keys(after)[a]
        != entry_keys(after)[b] by {
        if a < n && b < n {
            assert(entry_keys(before)[a] != entry_keys(before)[b]);
        } else if a < n {
            assert(entry_keys(before)[a] == entry_keys(after)[a]);
        } else {
            assert(entry_keys(before)[b] == entry_keys(after)[b]);
        }
    }
    let target = entries_map(before).insert(after[n].0@, after[n].1@);
    assert forall|k: Seq<Seq<char>>| entries_map(after).contains_key(k) implies #[trigger]
        target.contains_key(k) && entries_map(after)[k] == target[k] by {
        let j = entry_keys(after).index_of(k);
        assert(0 <= j < after.len() && entry_keys(after)[j] == k);
        lemma_lookup(after, j);
        assert(after[j].0@ == k);
        if j != n {
            assert(entry_keys(after)[j] != entry_keys(after)[n]);
            assert(entry_keys(after)[n] == after[n].0@);
            assert(after[j] == before[j]);
            assert(entry_keys(before)[j] == k);
            lemma_lookup(before, j);
        }
    }
    assert forall|k: Seq<Seq<char>>| target.contains_key(k) implies #[trigger] entries_map(
        after,
    ).contains_key(k) by {
        if k == after[n].0@ {
            lemma_lookup(after, n);
        } else {
            let j = entry_keys(before).index_of(k);
            assert(0 <= j < n && entry_keys(before)[j] == k);
            assert(entry_keys(after)[j] == k);
        }
    }
    assert(entries_map(after) =~= target);
}

proof fn lemma_len(entries: Seq<(FieldPath, String)>)
    requires
        entry_keys(entries).no_duplicates(),
    ensures
        entries_map(entries).dom().finite(),
        entries_map(entries).len() == entries.len(),
    decreases entries.len(),
{
    if entries.len() == 0 {
        assert(entries_map(entries) =~= Map::<Seq<Seq<char>>, Seq<char>>::empty());
    } else {
        let before = entries.drop_last();
        assert(entry_keys(before) =~= entry_keys(entries).drop_last());
        assert forall|j: int| 0 <= j < before.len() implies entry_keys(before)[j]
            != entries.last().0@ by {
            assert(entry_keys(entries)[j] != entry_keys(entries)[entries.len() - 1]);
        }
        lemma_len(before);
        lemma_entries_pushed(before, entries);
    }
}

} // verus!
