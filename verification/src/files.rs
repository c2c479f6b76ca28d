//! An insertion-ordered table from target identifiers to file paths.

use vstd::prelude::*;

verus! {

/// The name of a loadout.
pub type LoadoutName = String;

/// The identifier of a target slot.
pub type FileTarget = String;

/// A path on the filesystem.
pub type FilePath = String;

/// What a table holds: identifier and path, in the order of insertion.
pub type Entries = Seq<(Seq<char>, Seq<char>)>;

/// The identifiers of a sequence of entries, in the same order.
pub open spec fn keys(entries: Entries) -> Seq<Seq<char>> {
    entries.map_values(|e: (Seq<char>, Seq<char>)| e.0)
}

/// The mapping that a sequence of entries stands for. Where an identifier
/// stands in several entries, the first of them counts.
pub open spec fn as_map(entries: Entries) -> Map<Seq<char>, Seq<char>> {
    Map::new(
        |k: Seq<char>| keys(entries).contains(k),
        |k: Seq<char>| entries[keys(entries).index_of_first(k).unwrap()].1,
    )
}

/// The entries after `key` was set to `value`: an entry that holds `key`
/// keeps its place and takes the new path, otherwise a new entry goes to
/// the end.
pub open spec fn put(entries: Entries, key: Seq<char>, value: Seq<char>) -> Entries {
    match keys(entries).index_of_first(key) {
        Some(i) => entries.update(i, (key, value)),
        None => entries.push((key, value)),
    }
}

/// `i` is the first index of `s` that holds `needle`.
pub open spec fn is_first_index<A>(s: Seq<A>, needle: A, i: int) -> bool {
    &&& 0 <= i < s.len()
    &&& s[i] == needle
    &&& forall|j: int| 0 <= j < i ==> s[j] != needle
}

/// `index_of_first` finds exactly the first index that holds the needle.
pub proof fn lemma_first_index<A>(s: Seq<A>, needle: A, i: int)
    requires
        is_first_index(s, needle, i),
    ensures
        s.index_of_first(needle) == Some(i),
{
    s.index_of_first_ensures(needle);
    assert(s.contains(needle));
}

/// `index_of_first` finds nothing exactly where the needle does not occur.
pub proof fn lemma_no_index<A>(s: Seq<A>, needle: A)
    requires
        forall|j: int| 0 <= j < s.len() ==> s[j] != needle,
    ensures
        s.index_of_first(needle) is None,
{
    s.index_of_first_ensures(needle);
}

/// With distinct identifiers, each entry is what the mapping says of its
/// identifier, and the mapping says nothing of other identifiers.
pub proof fn lemma_as_map_entries(entries: Entries)
    requires
        keys(entries).no_duplicates(),
    ensures
        forall|i: int|
            0 <= i < entries.len() ==> as_map(entries).contains_key((#[trigger] entries[i]).0)
                && as_map(entries)[entries[i].0] == entries[i].1,
        forall|k: Seq<char>| #[trigger]
            as_map(entries).contains_key(k) ==> exists|i: int|
                0 <= i < entries.len() && (#[trigger] entries[i]).0 == k,
{
    let ks = keys(entries);
    assert forall|i: int| 0 <= i < entries.len() implies as_map(entries).contains_key(
        (#[trigger] entries[i]).0,
    ) && as_map(entries)[entries[i].0] == entries[i].1 by {
        assert(ks[i] == entries[i].0);
        lemma_first_index(ks, entries[i].0, i);
    }
    assert forall|k: Seq<char>| #[trigger] as_map(entries).contains_key(k) implies exists|i: int|
        0 <= i < entries.len() && (#[trigger] entries[i]).0 == k by {
        let i = choose|i: int| 0 <= i < ks.len() && ks[i] == k;
        assert(entries[i].0 == k);
    }
}

/// Setting an identifier keeps the identifiers distinct and changes the
/// mapping at that identifier alone.
pub proof fn lemma_put(entries: Entries, key: Seq<char>, value: Seq<char>)
    requires
        keys(entries).no_duplicates(),
    ensures
        keys(put(entries, key, value)).no_duplicates(),
        as_map(put(entries, key, value)) == as_map(entries).insert(key, value),
{
    let ks = keys(entries);
    let after = put(entries, key, value);
    let ks2 = keys(after);
    ks.index_of_first_ensures(key);
    match ks.index_of_first(key) {
        Some(i) => {
            assert(ks2 =~= ks);
        },
        None => {
            assert(ks2 =~= ks.push(key));
        },
    }
    lemma_as_map_entries(entries);
    lemma_as_map_entries(after);
    assert forall|k: Seq<char>| as_map(after).contains_key(k) <==> as_map(entries).insert(
        key,
        value,
    ).contains_key(k) by {
        if as_map(after).contains_key(k) && k != key {
            let i = choose|i: int| 0 <= i < after.len() && (#[trigger] after[i]).0 == k;
            assert(entries[i].0 == k);
        }
        if as_map(entries).contains_key(k) {
            let i = choose|i: int| 0 <= i < entries.len() && (#[trigger] entries[i]).0 == k;
            assert(after[i].0 == k);
        }
        if k == key {
            match ks.index_of_first(key) {
                Some(i) => {
                    assert(after[i].0 == key);
                },
                None => {
                    assert(after[entries.len() as int].0 == key);
                },
            }
        }
    }
    assert forall|k: Seq<char>| as_map(after).contains_key(k) implies as_map(after)[k]
        == as_map(entries).insert(key, value)[k] by {
        let i = choose|i: int| 0 <= i < after.len() && (#[trigger] after[i]).0 == k;
        if k != key {
            assert(entries[i].0 == k);
        }
    }
    assert(as_map(after) =~= as_map(entries).insert(key, value));
}

/// A table from target identifiers to file paths. It keeps its entries in
/// the order in which their identifiers first came, and no identifier twice.
#[derive(Debug)]
pub struct FileMap {
    items: Vec<(String, String)>,
}

/// The flattened mapping of one loadout: for each target that the loadout or
/// one of its ancestors names, the path that is to be linked there.
pub type ResolvedMapping = FileMap;

impl View for FileMap {
    type V = Map<Seq<char>, Seq<char>>;

    open spec fn view(&self) -> Map<Seq<char>, Seq<char>> {
        as_map(self.entries())
    }
}

impl FileMap {
    #[verifier::type_invariant]
    spec fn distinct(self) -> bool {
        keys(self.entries()).no_duplicates()
    }

    /// The entries of the table, in their order.
    pub closed spec fn entries(&self) -> Entries {
        self.items@.map_values(|e: (String, String)| (e.0@, e.1@))
    }

    /// A table holds no more entries than a machine word counts.
    pub proof fn lemma_len_bounded(&self)
        ensures
            self.entries().len() <= usize::MAX,
    {
        assert(self.items.len() == self.items@.len());
    }

    /// An empty table.
    pub fn new() -> (table: Self)
        ensures
            table.entries() == Entries::empty(),
            table@ == Map::<Seq<char>, Seq<char>>::empty(),
    {
        let table = FileMap { items: Vec::new() };
        assert(table.entries() =~= Entries::empty());
        assert(table@ =~= Map::<Seq<char>, Seq<char>>::empty());
        table
    }

    /// The number of entries. No two of them hold the same identifier.
    pub fn len(&self) -> (n: usize)
        ensures
            n == self.entries().len(),
            keys(self.entries()).no_duplicates(),
    {
        proof {
            use_type_invariant(self);
        }
        self.items.len()
    }

    /// The place of the entry that holds `key`.
    fn find(&self, key: &String) -> (found: Option<usize>)
        ensures
            match found {
                Some(i) => keys(self.entries()).index_of_first(key@) == Some(i as int),
                None => keys(self.entries()).index_of_first(key@) is None,
            },
    {
        let ghost ks = keys(self.entries());
        let mut i: usize = 0;
        while i < self.items.len()
            invariant
                i <= self.items.len(),
                ks == keys(self.entries()),
                forall|j: int| 0 <= j < i ==> ks[j] != key@,
            decreases self.items.len() - i,
        {
            if self.items[i].0 == *key {
                proof {
                    assert(ks[i as int] == key@);
                    lemma_first_index(ks, key@, i as int);
                }
                return Some(i);
            }
            i += 1;
        }
        proof {
            lemma_no_index(ks, key@);
        }
        None
    }

    /// The path that the table holds for `key`.
    pub fn get(&self, key: &str) -> (path: Option<&String>)
        ensures
            match path {
                Some(p) => self@.contains_key(key@) && p@ == self@[key@],
                None => !self@.contains_key(key@),
            },
    {
        let owned = key.to_owned();
        proof {
            keys(self.entries()).index_of_first_ensures(key@);
        }
        match self.find(&owned) {
            Some(i) => Some(&self.items[i].1),
            None => None,
        }
    }

    /// The entry at place `index`, identifier first.
    pub fn entry(&self, index: usize) -> (entry: Option<(&String, &String)>)
        ensures
            match entry {
                Some((k, v)) => index < self.entries().len() && (k@, v@)
                    == self.entries()[index as int],
                None => index >= self.entries().len(),
            },
    {
        if index < self.items.len() {
            Some((&self.items[index].0, &self.items[index].1))
        } else {
            None
        }
    }

    /// Sets the path of `key` to `value` and hands back the path it had
    /// before.
    pub fn insert(&mut self, key: String, value: String) -> (before: Option<String>)
        ensures
            final(self).entries() == put(old(self).entries(), key@, value@),
            final(self)@ == old(self)@.insert(key@, value@),
            keys(final(self).entries()).no_duplicates(),
            match before {
                Some(p) => old(self)@.contains_key(key@) && p@ == old(self)@[key@],
                None => !old(self)@.contains_key(key@),
            },
    {
        proof {
            use_type_invariant(&*self);
            lemma_put(self.entries(), key@, value@);
            keys(self.entries()).index_of_first_ensures(key@);
        }
        let found = self.find(&key);
        let mut items: Vec<(String, String)> = Vec::new();
        std::mem::swap(&mut items, &mut self.items);
        let before = match found {
            Some(i) => {
                let mut fresh = (key, value);
                std::mem::swap(&mut items[i], &mut fresh);
                Some(fresh.1)
            },
            None => {
                items.push((key, value));
                None
            },
        };
        assert(items@.map_values(|e: (String, String)| (e.0@, e.1@)) =~= put(
            old(self).entries(),
            key@,
            value@,
        ));
        self.items = items;
        before
    }
}

impl Clone for FileMap {
    fn clone(&self) -> (copy: Self)
        ensures
            copy.entries() == self.entries(),
            copy@ == self@,
    {
        proof {
            use_type_invariant(self);
        }
        let mut items: Vec<(String, String)> = Vec::new();
        let mut i: usize = 0;
        while i < self.items.len()
            invariant
                i <= self.items.len(),
                items@.len() == i,
                forall|j: int|
                    0 <= j < i ==> (#[trigger] items@[j]).0@ == self.items@[j].0@ && items@[j].1@
                        == self.items@[j].1@,
            decreases self.items.len() - i,
        {
            items.push((self.items[i].0.clone(), self.items[i].1.clone()));
            i += 1;
        }
        assert(items@.map_values(|e: (String, String)| (e.0@, e.1@)) =~= self.entries());
        FileMap { items }
    }
}

} // verus!
