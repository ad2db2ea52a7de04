//! A map from strings, small enough to be searched entry by entry.
use vstd::prelude::*;
use vstd::string::StringExecFns;

verus! {

/// A map from strings to values.
#[derive(Debug)]
pub struct StringMap<T> {
    entries: Vec<(String, T)>,
}

/// The position of a key among entries.
spec fn is_entry<T>(entries: Seq<(String, T)>, key: Seq<char>, i: int) -> bool {
    0 <= i < entries.len() && entries[i].0@ == key
}

/// What entries map keys to.
spec fn entries_map<T>(entries: Seq<(String, T)>) -> Map<Seq<char>, T> {
    Map::new(
        |key: Seq<char>| exists|i: int| is_entry(entries, key, i),
        |key: Seq<char>| entries[choose|i: int| is_entry(entries, key, i)].1,
    )
}

/// Whether no two entries have one key.
spec fn distinct_keys<T>(entries: Seq<(String, T)>) -> bool {
    forall|i: int, j: int|
        0 <= i < j < entries.len() ==> #[trigger] entries[i].0@ != #[trigger] entries[j].0@
}

/// An entry is what its key is mapped to.
proof fn lemma_entry<T>(entries: Seq<(String, T)>, key: Seq<char>, i: int)
    requires
        distinct_keys(entries),
        is_entry(entries, key, i),
    ensures
        entries_map(entries).contains_key(key),
        entries_map(entries)[key] == entries[i].1,
{
    let j = choose|j: int| is_entry(entries, key, j);
    assert(is_entry(entries, key, j));
    assert(i == j);
}

/// There are as many keys as entries.
proof fn lemma_entries_count<T>(entries: Seq<(String, T)>)
    requires
        distinct_keys(entries),
    ensures
        entries_map(entries).dom().finite(),
        entries_map(entries).dom().len() == entries.len(),
{
    let keys = Seq::new(entries.len(), |i: int| entries[i].0@);
    let dom = entries_map(entries).dom();
    assert(keys.no_duplicates());
    assert forall|key: Seq<char>| keys.to_set().contains(key) <==> dom.contains(key) by {
        if dom.contains(key) {
            let i = choose|i: int| is_entry(entries, key, i);
            assert(keys[i] == key);
        }
        if keys.to_set().contains(key) {
            let i = choose|i: int| 0 <= i < keys.len() && keys[i] == key;
            assert(is_entry(entries, key, i));
        }
    }
    assert(keys.to_set() =~= dom);
    keys.unique_seq_to_set();
}

/// A map under longer keys: each key of `map` with `prefix` put before it.
pub open spec fn prefixed<T>(map: Map<Seq<char>, T>, prefix: Seq<char>) -> Map<Seq<char>, T> {
    Map::new(
        |key: Seq<char>|
            prefix.is_prefix_of(key) && map.contains_key(key.skip(prefix.len() as int)),
        |key: Seq<char>| map[key.skip(prefix.len() as int)],
    )
}

impl<T> View for StringMap<T> {
    type V = Map<Seq<char>, T>;

    closed spec fn view(&self) -> Map<Seq<char>, T> {
        entries_map(self.entries@)
    }
}

impl<T> StringMap<T> {
    #[verifier::type_invariant]
    spec fn well_formed(self) -> bool {
        distinct_keys(self.entries@)
    }

    /// Creates an empty map.
    pub fn new() -> (map: Self)
        ensures
            map@ == Map::<Seq<char>, T>::empty(),
    {
        let entries: Vec<(String, T)> = Vec::new();
        assert(entries_map(entries@) =~= Map::<Seq<char>, T>::empty());
        StringMap { entries }
    }

    /// Returns the number of keys.
    pub fn len(&self) -> (len: usize)
        ensures
            self@.dom().finite(),
            len == self@.dom().len(),
    {
        proof {
            use_type_invariant(self);
            lemma_entries_count(self.entries@);
        }
        self.entries.len()
    }

    /// Returns the position of the entry of a key.
    fn position(&self, key: &str) -> (index: Option<usize>)
        ensures
            match index {
                Some(i) => is_entry(self.entries@, key@, i as int),
                None => !self@.contains_key(key@),
            },
    {
        let wanted = key.to_owned();
        let mut i: usize = 0;
        while i < self.entries.len()
            invariant
                wanted@ == key@,
                i <= self.entries@.len(),
                forall|j: int| 0 <= j < i ==> (#[trigger] self.entries@[j]).0@ != key@,
            decreases self.entries@.len() - i,
        {
            if self.entries[i].0 == wanted {
                return Some(i);
            }
            i += 1;
        }
        None
    }

    /// Returns what a key is mapped to.
    pub fn get(&self, key: &str) -> (value: Option<&T>)
        ensures
            match value {
                Some(v) => self@.contains_key(key@) && *v == self@[key@],
                None => !self@.contains_key(key@),
            },
    {
        proof {
            use_type_invariant(self);
        }
        match self.position(key) {
            Some(i) => {
                proof {
                    lemma_entry(self.entries@, key@, i as int);
                }
                Some(&self.entries[i].1)
            },
            None => None,
        }
    }

    /// Returns whether a key is mapped to anything.
    pub fn contains_key(&self, key: &str) -> (contained: bool)
        ensures
            contained == self@.contains_key(key@),
    {
        self.get(key).is_some()
    }

    /// Maps `key` to `value`, whatever it was mapped to before.
    pub fn insert(self, key: String, value: T) -> (map: Self)
        ensures
            map@ == self@.insert(key@, value),
    {
        proof {
            use_type_invariant(&self);
        }
        let position = self.position(key.as_str());
        let StringMap { mut entries } = self;
        let ghost before = entries@;
        match position {
            Some(i) => {
                entries.set(i, (key, value));
                proof {
                    assert forall|k: Seq<char>, j: int| is_entry(entries@, k, j) <==> is_entry(
                        before,
                        k,
                        j,
                    ) by {}
                    assert forall|k: Seq<char>| #[trigger]
                        entries_map(entries@).contains_key(k) <==> before_or_new(
                            before,
                            k,
                            key@,
                        ) by {
                        if entries_map(entries@).contains_key(k) {
                            let j = choose|j: int| is_entry(entries@, k, j);
                            assert(is_entry(before, k, j));
                        }
                        if entries_map(before).contains_key(k) {
                            let j = choose|j: int| is_entry(before, k, j);
                            assert(is_entry(entries@, k, j));
                        }
                        assert(is_entry(entries@, key@, i as int));
                    }
                    assert forall|k: Seq<char>| #[trigger]
                        entries_map(entries@).contains_key(k) implies entries_map(entries@)[k]
                        == entries_map(before).insert(key@, value)[k] by {
                        let j = choose|j: int| is_entry(entries@, k, j);
                        lemma_entry(entries@, k, j);
                        if k != key@ {
                            lemma_entry(before, k, j);
                        }
                    }
                }
            },
            None => {
                entries.push((key, value));
                proof {
                    let last = before.len() as int;
                    assert forall|i: int, j: int| 0 <= i < j < entries@.len() implies #[trigger]
                        entries@[i].0@ != #[trigger] entries@[j].0@ by {
                        if j == last {
                            assert(entries@[i] == before[i]);
                            if before[i].0@ == key@ {
                                assert(is_entry(before, key@, i));
                            }
                        }
                    }
                    assert(is_entry(entries@, key@, last));
                    assert forall|k: Seq<char>| #[trigger]
                        entries_map(entries@).contains_key(k) <==> before_or_new(
                            before,
                            k,
                            key@,
                        ) by {
                        if entries_map(entries@).contains_key(k) {
                            let j = choose|j: int| is_entry(entries@, k, j);
                            if j < last {
                                assert(is_entry(before, k, j));
                            }
                        }
                        if entries_map(before).contains_key(k) {
                            let j = choose|j: int| is_entry(before, k, j);
                            assert(is_entry(entries@, k, j));
                        }
                    }
                    assert forall|k: Seq<char>| #[trigger]
                        entries_map(entries@).contains_key(k) implies entries_map(entries@)[k]
                        == entries_map(before).insert(key@, value)[k] by {
                        let j = choose|j: int| is_entry(entries@, k, j);
                        lemma_entry(entries@, k, j);
                        if j < last {
                            assert(is_entry(before, k, j));
                            lemma_entry(before, k, j);
                        }
                    }
                }
            },
        }
        assert(entries_map(entries@) =~= entries_map(before).insert(key@, value));
        StringMap { entries }
    }

    /// Puts `prefix` before every key.
    pub fn with_prefix(self, prefix: &str) -> (map: Self)
        ensures
            map@ == prefixed(self@, prefix@),
            forall|key: Seq<char>| #[trigger]
                self@.contains_key(key) ==> map@.contains_key(prefix@ + key) && map@[prefix@ + key]
                    == self@[key],
            forall|key: Seq<char>| #[trigger]
                map@.contains_key(key) ==> {
                    let rest = key.skip(prefix@.len() as int);
                    key == prefix@ + rest && self@.contains_key(rest)
                },
    {
        proof {
            use_type_invariant(&self);
        }
        let StringMap { entries: old_entries } = self;
        let ghost before = old_entries@;
        let mut entries: Vec<(String, T)> = Vec::new();
        for entry in old: old_entries.into_iter()
            invariant
                old.seq() == before,
                entries@.len() == old.index(),
                forall|i: int|
                    0 <= i < entries@.len() ==> (#[trigger] entries@[i]).0@ == prefix@
                        + before[i].0@ && entries@[i].1 == before[i].1,
        {
            let (key, value) = entry;
            entries.push((prefix.to_owned().concat(key.as_str()), value));
        }
        proof {
            let n = prefix@.len() as int;
            assert forall|i: int| 0 <= i < entries@.len() implies (
            #[trigger] entries@[i].0@).skip(n) == before[i].0@ by {
                assert((prefix@ + before[i].0@).skip(n) =~= before[i].0@);
            }
            assert(distinct_keys(entries@));
            assert forall|k: Seq<char>| #[trigger]
                entries_map(entries@).contains_key(k) <==> prefixed(
                    entries_map(before),
                    prefix@,
                ).contains_key(k) by {
                if entries_map(entries@).contains_key(k) {
                    let i = choose|i: int| is_entry(entries@, k, i);
                    assert(is_entry(before, k.skip(n), i));
                    assert(prefix@.is_prefix_of(k));
                }
                if prefixed(entries_map(before), prefix@).contains_key(k) {
                    let i = choose|i: int| is_entry(before, k.skip(n), i);
                    assert(k =~= prefix@ + k.skip(n));
                    assert(is_entry(entries@, k, i));
                }
            }
            assert forall|k: Seq<char>| #[trigger]
                entries_map(entries@).contains_key(k) implies entries_map(entries@)[k] == prefixed(
                entries_map(before),
                prefix@,
            )[k] by {
                let i = choose|i: int| is_entry(entries@, k, i);
                lemma_entry(entries@, k, i);
                assert(is_entry(before, k.skip(n), i));
                lemma_entry(before, k.skip(n), i);
            }
            assert(entries_map(entries@) =~= prefixed(entries_map(before), prefix@));
        }
        proof {
            assert forall|key: Seq<char>| #[trigger]
                entries_map(before).contains_key(key) implies entries_map(entries@).contains_key(
                prefix@ + key,
            ) && entries_map(entries@)[prefix@ + key] == entries_map(before)[key] by {
                law_prefixed_lookup(entries_map(before), prefix@, key);
            }
            assert forall|key: Seq<char>| #[trigger]
                entries_map(entries@).contains_key(key) implies {
                let rest = key.skip(prefix@.len() as int);
                key == prefix@ + rest && entries_map(before).contains_key(rest)
            } by {
                assert(key =~= prefix@ + key.skip(prefix@.len() as int));
            }
        }
        StringMap { entries }
    }

    /// Returns the keys with what they are mapped to.
    pub fn into_entries(self) -> (entries: Vec<(String, T)>)
        ensures
            forall|i: int, j: int|
                0 <= i < j < entries@.len() ==> #[trigger] entries@[i].0@
                    != #[trigger] entries@[j].0@,
            forall|i: int|
                0 <= i < entries@.len() ==> self@.contains_key(
                    (#[trigger] entries@[i]).0@,
                ) && self@[entries@[i].0@] == entries@[i].1,
            entries@.len() == self@.dom().len(),
    {
        proof {
            use_type_invariant(&self);
            lemma_entries_count(self.entries@);
            assert forall|i: int| 0 <= i < self.entries@.len() implies self@.contains_key(
                (#[trigger] self.entries@[i]).0@,
            ) && self@[self.entries@[i].0@] == self.entries@[i].1 by {
                assert(is_entry(self.entries@, self.entries@[i].0@, i));
                lemma_entry(self.entries@, self.entries@[i].0@, i);
            }
        }
        let StringMap { entries } = self;
        entries
    }
}

/// Whether a key is among entries or is a new key.
spec fn before_or_new<T>(before: Seq<(String, T)>, key: Seq<char>, new_key: Seq<char>) -> bool {
    entries_map(before).contains_key(key) || key == new_key
}

impl<T> Default for StringMap<T> {
    /// Creates an empty map.
    fn default() -> (map: Self)
        ensures
            map@ == Map::<Seq<char>, T>::empty(),
    {
        StringMap::new()
    }
}

/// Under longer keys, a key is found exactly if it is a key with the prefix
/// before it, and it is mapped to the same value.
pub proof fn law_prefixed_lookup<T>(map: Map<Seq<char>, T>, prefix: Seq<char>, key: Seq<char>)
    ensures
        prefixed(map, prefix).contains_key(prefix + key) <==> map.contains_key(key),
        map.contains_key(key) ==> prefixed(map, prefix)[prefix + key] == map[key],
{
    assert((prefix + key).skip(prefix.len() as int) =~= key);
    assert(prefix.is_prefix_of(prefix + key));
}

/// A longer key is the prefix followed by a key.
pub proof fn law_longer_keys_have_the_prefix<T>(
    map: Map<Seq<char>, T>,
    prefix: Seq<char>,
    longer: Seq<char>,
)
    ensures
        prefixed(map, prefix).contains_key(longer) <==> {
            &&& longer.len() >= prefix.len()
            &&& longer.take(prefix.len() as int) == prefix
            &&& map.contains_key(longer.skip(prefix.len() as int))
        },
        prefixed(map, prefix).contains_key(longer) ==> prefixed(map, prefix)[longer]
            == map[longer.skip(prefix.len() as int)],
{
    if longer.len() >= prefix.len() {
        assert(prefix.is_prefix_of(longer) <==> longer.take(prefix.len() as int) == prefix) by {
            assert(longer.take(prefix.len() as int) =~= longer.subrange(0, prefix.len() as int));
        }
    }
}

/// Two prefixes one after the other are one prefix: that put before last comes
/// first.
pub proof fn law_prefixed_twice<T>(map: Map<Seq<char>, T>, inner: Seq<char>, outer: Seq<char>)
    ensures
        prefixed(prefixed(map, inner), outer) == prefixed(map, outer + inner),
{
    let both = outer + inner;
    assert forall|key: Seq<char>| #[trigger]
        prefixed(prefixed(map, inner), outer).contains_key(key) <==> prefixed(
            map,
            both,
        ).contains_key(key) by {
        let rest = key.skip(outer.len() as int);
        if outer.is_prefix_of(key) {
            assert(key =~= outer + rest);
            if inner.is_prefix_of(rest) {
                assert(key.skip(both.len() as int) =~= rest.skip(inner.len() as int));
                assert(rest =~= inner + rest.skip(inner.len() as int));
                assert(key =~= both + rest.skip(inner.len() as int));
                assert(both.is_prefix_of(key));
            }
        }
        if both.is_prefix_of(key) {
            assert(key =~= both + key.skip(both.len() as int));
            assert(outer.is_prefix_of(key));
            assert(rest =~= inner + key.skip(both.len() as int));
            assert(inner.is_prefix_of(rest));
            assert(key.skip(both.len() as int) =~= rest.skip(inner.len() as int));
        }
    }
    assert(prefixed(prefixed(map, inner), outer) =~= prefixed(map, both)) by {
        assert forall|key: Seq<char>| #[trigger]
            prefixed(map, both).contains_key(key) implies prefixed(prefixed(map, inner), outer)[key]
            == prefixed(map, both)[key] by {
            assert(both.is_prefix_of(key));
            assert(prefixed(prefixed(map, inner), outer).contains_key(key));
            assert(key.skip(both.len() as int) =~= key.skip(outer.len() as int).skip(
                inner.len() as int,
            ));
        }
    }
}

/// Longer keys are as many as the keys they come from.
pub proof fn law_prefixed_keeps_count<T>(map: Map<Seq<char>, T>, prefix: Seq<char>)
    requires
        map.dom().finite(),
    ensures
        prefixed(map, prefix).dom().finite(),
        prefixed(map, prefix).dom().len() == map.dom().len(),
    decreases map.dom().len(),
{
    if map.dom().len() == 0 {
        assert(map.dom() =~= Set::<Seq<char>>::empty());
        assert(prefixed(map, prefix).dom() =~= Set::<Seq<char>>::empty());
    } else {
        let key = map.dom().choose();
        let rest = map.remove(key);
        law_prefixed_keeps_count(rest, prefix);
        lemma_prefixed_insert(rest, prefix, key, map[key]);
        assert(rest.insert(key, map[key]) =~= map);
        law_prefixed_lookup(rest, prefix, key);
        assert(prefixed(map, prefix).dom() =~= prefixed(rest, prefix).dom().insert(prefix + key));
    }
}

/// A further key is put under its longer key.
pub proof fn lemma_prefixed_insert<T>(
    map: Map<Seq<char>, T>,
    prefix: Seq<char>,
    key: Seq<char>,
    value: T,
)
    ensures
        prefixed(map.insert(key, value), prefix) == prefixed(map, prefix).insert(
            prefix + key,
            value,
        ),
{
    let left = prefixed(map.insert(key, value), prefix);
    let right = prefixed(map, prefix).insert(prefix + key, value);
    assert((prefix + key).skip(prefix.len() as int) =~= key);
    assert(prefix.is_prefix_of(prefix + key));
    assert forall|k: Seq<char>| #[trigger] left.contains_key(k) <==> right.contains_key(k) by {
        if prefix.is_prefix_of(k) && k.skip(prefix.len() as int) == key {
            assert(k =~= prefix + key);
        }
    }
    assert(left =~= right) by {
        assert forall|k: Seq<char>| #[trigger] left.contains_key(k) implies left[k] == right[k] by {
            if k.skip(prefix.len() as int) == key {
                assert(k =~= prefix + key);
            }
        }
    }
}

} // verus!
