//! The tag set of one measurement: for each tag key its distinct values,
//! in the order in which the source gave them.

use crate::columnar::texts;
use vstd::prelude::*;

verus! {

/// A tag set as the contracts see it: keys with their values.
pub type Tags = Seq<(Seq<char>, Seq<Seq<char>>)>;

/// `values` without repetitions: of equal values the first stays.
pub open spec fn distinct(values: Seq<Seq<char>>) -> Seq<Seq<char>>
    decreases values.len(),
{
    if values.len() == 0 {
        Seq::empty()
    } else {
        let before = distinct(values.drop_last());
        if before.contains(values.last()) {
            before
        } else {
            before.push(values.last())
        }
    }
}

/// No key occurs twice, and under no key a value occurs twice.
pub open spec fn well_formed(tags: Tags) -> bool {
    &&& forall|i: int, j: int| 0 <= i < j < tags.len() ==> (#[trigger] tags[i]).0 != (#[trigger] tags[j]).0
    &&& forall|i: int| 0 <= i < tags.len() ==> (#[trigger] tags[i]).1.no_duplicates()
}

/// Whether `key` has an entry.
pub open spec fn has_key(tags: Tags, key: Seq<char>) -> bool {
    exists|i: int| 0 <= i < tags.len() && (#[trigger] tags[i]).0 == key
}

/// Where the entry of `key` stands, if it has one.
pub open spec fn key_index(tags: Tags, key: Seq<char>) -> int {
    choose|i: int| 0 <= i < tags.len() && (#[trigger] tags[i]).0 == key
}

/// The values of `key`, if it has an entry.
pub open spec fn lookup(tags: Tags, key: Seq<char>) -> Option<Seq<Seq<char>>> {
    if has_key(tags, key) {
        Some(tags[key_index(tags, key)].1)
    } else {
        None
    }
}

/// `tags` after `values` were recorded for `key`: they take the place of
/// the key's earlier values, or the key enters as the last one.
pub open spec fn with_entry(tags: Tags, key: Seq<char>, values: Seq<Seq<char>>) -> Tags {
    if has_key(tags, key) {
        tags.update(key_index(tags, key), (key, distinct(values)))
    } else {
        tags.push((key, distinct(values)))
    }
}

/// The number of (key, value) pairs.
pub open spec fn pair_count(tags: Tags) -> nat
    decreases tags.len(),
{
    if tags.len() == 0 {
        0
    } else {
        pair_count(tags.drop_last()) + tags.last().1.len()
    }
}

/// What `distinct` keeps: every value of the list, each once.
pub proof fn lemma_distinct(values: Seq<Seq<char>>)
    ensures
        distinct(values).no_duplicates(),
        distinct(values).len() <= values.len(),
        forall|v: Seq<char>| #[trigger] distinct(values).contains(v) <==> values.contains(v),
    decreases values.len(),
{
    if values.len() > 0 {
        let init = values.drop_last();
        let last = values.last();
        lemma_distinct(init);
        let before = distinct(init);
        assert forall|v: Seq<char>| #[trigger] distinct(values).contains(v) <==> values.contains(
            v,
        ) by {
            if values.contains(v) {
                let i = choose|i: int| 0 <= i < values.len() && values[i] == v;
                if i < init.len() {
                    assert(init[i] == v);
                    assert(before.contains(v));
                    if !before.contains(last) {
                        let k = choose|k: int| 0 <= k < before.len() && before[k] == v;
                        assert(before.push(last)[k] == v);
                    }
                } else {
                    assert(v == last);
                    if !before.contains(last) {
                        assert(before.push(last)[before.len() as int] == last);
                    }
                }
            }
            if distinct(values).contains(v) {
                let k = choose|k: int| 0 <= k < distinct(values).len() && distinct(values)[k] == v;
                if before.contains(last) || k < before.len() {
                    assert(before[k] == v);
                    assert(before.contains(v));
                    assert(init.contains(v));
                    let i = choose|i: int| 0 <= i < init.len() && init[i] == v;
                    assert(values[i] == v);
                } else {
                    assert(v == last);
                    assert(values[values.len() - 1] == v);
                }
            }
        }
    }
}

/// A list without repetitions is kept as it is.
pub proof fn lemma_distinct_keeps_distinct(values: Seq<Seq<char>>)
    requires
        values.no_duplicates(),
    ensures
        distinct(values) == values,
    decreases values.len(),
{
    if values.len() > 0 {
        let init = values.drop_last();
        lemma_distinct_keeps_distinct(init);
        if init.contains(values.last()) {
            let i = choose|i: int| 0 <= i < init.len() && init[i] == values.last();
            assert(values[i] == values[values.len() - 1]);
        }
        assert(init.push(values.last()) =~= values);
    }
}

/// Recording values keeps a tag set well formed.
pub proof fn lemma_with_entry_well_formed(tags: Tags, key: Seq<char>, values: Seq<Seq<char>>)
    requires
        well_formed(tags),
    ensures
        well_formed(with_entry(tags, key, values)),
{
    lemma_distinct(values);
    let after = with_entry(tags, key, values);
    if has_key(tags, key) {
        let at = key_index(tags, key);
        assert forall|i: int, j: int| 0 <= i < j < after.len() implies (#[trigger] after[i]).0 != (
        #[trigger] after[j]).0 by {
            assert(after[i].0 == tags[i].0);
            assert(after[j].0 == tags[j].0);
        }
    } else {
        assert forall|i: int, j: int| 0 <= i < j < after.len() implies (#[trigger] after[i]).0 != (
        #[trigger] after[j]).0 by {
            if j < tags.len() {
                assert(after[i] == tags[i] && after[j] == tags[j]);
            } else {
                assert(after[i] == tags[i]);
            }
        }
    }
}

/// What was recorded for a key is what is found under it, without
/// repetitions, and the other keys keep what they had.
pub proof fn lemma_lookup_with_entry(
    tags: Tags,
    key: Seq<char>,
    values: Seq<Seq<char>>,
    other: Seq<char>,
)
    requires
        well_formed(tags),
    ensures
        lookup(with_entry(tags, key, values), key) == Some(distinct(values)),
        other != key ==> lookup(with_entry(tags, key, values), other) == lookup(tags, other),
{
    let after = with_entry(tags, key, values);
    lemma_with_entry_well_formed(tags, key, values);
    let at = if has_key(tags, key) {
        key_index(tags, key)
    } else {
        tags.len() as int
    };
    assert(after[at] == (key, distinct(values)));
    assert(has_key(after, key));
    let found = key_index(after, key);
    assert(found == at) by {
        if found < at {
            assert(after[found].0 != after[at].0);
        } else if at < found {
            assert(after[at].0 != after[found].0);
        }
    }
    if other != key {
        if has_key(tags, other) {
            let o = key_index(tags, other);
            assert(after[o] == tags[o]);
            assert(has_key(after, other));
            let p = key_index(after, other);
            assert(p == o) by {
                if p < o {
                    assert(after[p].0 != after[o].0);
                } else if o < p {
                    assert(after[o].0 != after[p].0);
                }
            }
        } else {
            if has_key(after, other) {
                let p = key_index(after, other);
                if p < tags.len() {
                    assert(after[p].0 == tags[p].0);
                }
                assert(false);
            }
        }
    }
}

/// Whether `list` holds a string equal to `item`.
pub fn holds(list: &Vec<String>, item: &String) -> (found: bool)
    ensures
        found == texts(list@).contains(item@),
{
    let mut i: usize = 0;
    while i < list.len()
        invariant
            i <= list.len(),
            forall|k: int| 0 <= k < i ==> texts(list@)[k] != item@,
        decreases list.len() - i,
    {
        if list[i] == *item {
            assert(texts(list@)[i as int] == item@);
            return true;
        }
        i += 1;
    }
    false
}

/// A copy of `values` without repetitions: of equal values the first stays.
pub fn distinct_values(values: &Vec<String>) -> (kept: Vec<String>)
    ensures
        texts(kept@) == distinct(texts(values@)),
{
    let mut kept: Vec<String> = Vec::new();
    let mut i: usize = 0;
    assert(texts(values@).take(0) =~= Seq::empty());
    assert(texts(kept@) =~= Seq::empty());
    while i < values.len()
        invariant
            i <= values.len(),
            texts(kept@) == distinct(texts(values@).take(i as int)),
        decreases values.len() - i,
    {
        proof {
            let upto = texts(values@).take(i + 1);
            assert(upto.drop_last() =~= texts(values@).take(i as int));
            assert(upto.last() == values@[i as int]@);
        }
        if !holds(&kept, &values[i]) {
            let ghost before = kept@;
            kept.push(values[i].clone());
            assert(texts(kept@) =~= texts(before).push(values@[i as int]@));
        }
        i += 1;
    }
    assert(texts(values@).take(values.len() as int) =~= texts(values@));
    kept
}

/// One tag key with its values.
pub struct TagEntry {
    key: String,
    values: Vec<String>,
}

impl TagEntry {
    /// The key and its values.
    pub closed spec fn view(&self) -> (Seq<char>, Seq<Seq<char>>) {
        (self.key@, texts(self.values@))
    }

    /// The tag key.
    pub fn key(&self) -> (key: &String)
        ensures
            key@ == self@.0,
    {
        &self.key
    }

    /// The values of the key.
    pub fn values(&self) -> (values: &Vec<String>)
        ensures
            texts(values@) == self@.1,
    {
        &self.values
    }
}

/// The tag set of one measurement. No key occurs twice in it, and under
/// no key a value occurs twice.
pub struct TagSet {
    entries: Vec<TagEntry>,
}

impl TagSet {
    /// The keys with their values, in the order in which the keys came.
    pub closed spec fn view(&self) -> Tags {
        self.entries@.map_values(|entry: TagEntry| entry@)
    }

    #[verifier::type_invariant]
    closed spec fn valid(&self) -> bool {
        well_formed(self@)
    }

    /// A tag set without keys.
    pub fn new() -> (tags: TagSet)
        ensures
            tags@ == Seq::<(Seq<char>, Seq<Seq<char>>)>::empty(),
    {
        let tags = TagSet { entries: Vec::new() };
        assert(tags@ =~= Seq::empty());
        tags
    }

    /// The number of keys.
    pub fn len(&self) -> (n: usize)
        ensures
            n == self@.len(),
    {
        self.entries.len()
    }

    /// The keys with their values, in the order in which the keys came.
    pub fn entries(&self) -> (entries: &Vec<TagEntry>)
        ensures
            entries@.map_values(|entry: TagEntry| entry@) == self@,
            well_formed(self@),
    {
        proof {
            use_type_invariant(self);
        }
        &self.entries
    }

    /// Where the entry of `key` stands.
    fn position(&self, key: &String) -> (at: Option<usize>)
        ensures
            at is Some <==> has_key(self@, key@),
            at is Some ==> at->Some_0 == key_index(self@, key@) && at->Some_0 < self.entries.len(),
    {
        proof {
            use_type_invariant(self);
        }
        let mut i: usize = 0;
        while i < self.entries.len()
            invariant
                i <= self.entries.len(),
                well_formed(self@),
                forall|k: int| 0 <= k < i ==> (#[trigger] self@[k]).0 != key@,
            decreases self.entries.len() - i,
        {
            if self.entries[i].key == *key {
                proof {
                    assert(self@[i as int].0 == key@);
                    let found = key_index(self@, key@);
                    if found < i {
                        assert(self@[found].0 != key@);
                    } else if i < found {
                        assert(self@[i as int].0 != self@[found].0);
                    }
                }
                return Some(i);
            }
            i += 1;
        }
        None
    }

    /// The values of `key`, if it has an entry.
    pub fn get(&self, key: &String) -> (values: Option<&Vec<String>>)
        ensures
            values is Some <==> has_key(self@, key@),
            values is Some ==> Some(texts(values->Some_0@)) == lookup(self@, key@),
    {
        match self.position(key) {
            Some(at) => Some(&self.entries[at].values),
            None => None,
        }
    }

    /// Records `values` for `key`, without their repetitions: they take
    /// the place of the key's earlier values, or the key enters as the
    /// last one.
    pub fn insert(self, key: String, values: Vec<String>) -> (tags: TagSet)
        ensures
            tags@ == with_entry(self@, key@, texts(values@)),
            well_formed(tags@),
    {
        proof {
            use_type_invariant(&self);
            lemma_with_entry_well_formed(self@, key@, texts(values@));
        }
        let kept = distinct_values(&values);
        let at = self.position(&key);
        let ghost before = self@;
        let mut entries = self.entries;
        let entry = TagEntry { key, values: kept };
        match at {
            Some(at) => {
                entries.set(at, entry);
            },
            None => {
                entries.push(entry);
            },
        }
        assert(entries@.map_values(|entry: TagEntry| entry@) =~= with_entry(
            before,
            key@,
            texts(values@),
        ));
        TagSet { entries }
    }
}

} // verus!
