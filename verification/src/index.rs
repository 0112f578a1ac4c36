//! Records filed under a text key: the shape of both indexes.

use vstd::hash_map::StringHashMap;
use vstd::prelude::*;
use vstd::string::*;

use crate::entities::{Translation, TranslationView};

verus! {

/// A way to read a record's key off the record.
pub type KeyOf = spec_fn(TranslationView) -> Seq<char>;

/// The test "this record's key is `key`".
pub open spec fn keyed(key_of: KeyOf, key: Seq<char>) -> spec_fn(TranslationView) -> bool {
    |t: TranslationView| key_of(t) == key
}

/// The records filed by key: every key that some record has, with the
/// records that have it, in the order in which `records` holds them.
pub open spec fn grouped_by(records: Seq<TranslationView>, key_of: KeyOf) -> Map<
    Seq<char>,
    Seq<TranslationView>,
> {
    Map::new(
        |key: Seq<char>| exists|i: int| 0 <= i < records.len() && key_of(records[i]) == key,
        |key: Seq<char>| records.filter(keyed(key_of, key)),
    )
}

/// The keys of `records`, each once, in the order in which they first occur.
pub open spec fn first_keys(records: Seq<TranslationView>, key_of: KeyOf) -> Seq<Seq<char>>
    decreases records.len(),
{
    if records.len() == 0 {
        Seq::empty()
    } else {
        let earlier = first_keys(records.drop_last(), key_of);
        let key = key_of(records.last());
        if earlier.contains(key) {
            earlier
        } else {
            earlier.push(key)
        }
    }
}

/// Records filed under text keys. The records themselves stay where they
/// are: the index borrows them.
pub struct TranslationIndex<'a> {
    /// The keys, each once, in the order in which they first occurred.
    keys: Vec<String>,
    /// `groups[i]` holds the records filed under `keys[i]`.
    groups: Vec<Vec<&'a Translation>>,
    /// Where in `keys` and `groups` each key stands.
    slots: StringHashMap<usize>,
}

impl<'a> View for TranslationIndex<'a> {
    type V = Map<Seq<char>, Seq<TranslationView>>;

    closed spec fn view(&self) -> Map<Seq<char>, Seq<TranslationView>> {
        Map::new(
            |key: Seq<char>| self.slots@.contains_key(key),
            |key: Seq<char>| self.groups[self.slots@[key] as int].deep_view(),
        )
    }
}

/// `slots` sends each key to its place in `keys`, and knows no other key.
spec fn slots_match(slots: Map<Seq<char>, usize>, keys: Seq<Seq<char>>) -> bool {
    &&& forall|i: int| 0 <= i < keys.len() ==> slots.contains_key(#[trigger] keys[i]) && slots[keys[i]] == i
    &&& forall|key: Seq<char>| #[trigger] slots.contains_key(key) ==> slots[key] < keys.len() && keys[slots[key] as int] == key
}

impl<'a> TranslationIndex<'a> {
    #[verifier::type_invariant]
    spec fn well_formed(&self) -> bool {
        &&& self.keys.len() == self.groups.len()
        &&& slots_match(self.slots@, self.keys.deep_view())
    }

    /// The keys of the index, each once, in the order in which they first
    /// occurred among the records.
    pub closed spec fn spec_keys(&self) -> Seq<Seq<char>> {
        self.keys.deep_view()
    }

    /// The records filed under `key`, in the order in which the indexed
    /// records hold them; `None` where no record has that key.
    pub fn get(&self, key: &str) -> (group: Option<&Vec<&'a Translation>>)
        ensures
            match group {
                Some(records) => self@.contains_key(key@) && records.deep_view() == self@[key@],
                None => !self@.contains_key(key@),
            },
    {
        proof {
            use_type_invariant(self);
        }
        match self.slots.get(key) {
            Some(slot) => Some(&self.groups[*slot]),
            None => None,
        }
    }

    /// The keys, each once, in the order in which they first occurred.
    pub fn keys(&self) -> (keys: &Vec<String>)
        ensures
            keys.deep_view() == self.spec_keys(),
    {
        &self.keys
    }

    /// The number of distinct keys.
    pub fn len(&self) -> (count: usize)
        ensures
            count == self.spec_keys().len(),
    {
        self.keys.len()
    }

    /// Files `records` under the keys that `keys` gives for them, one key per
    /// record.
    pub(crate) fn group_by_keys(
        records: &'a [Translation],
        keys: Vec<String>,
        Ghost(key_of): Ghost<KeyOf>,
    ) -> (index: Self)
        requires
            keys.len() == records.len(),
            forall|i: int| 0 <= i < records.len() ==> (#[trigger] keys[i])@ == key_of(records[i]@),
        ensures
            index@ == grouped_by(records.deep_view(), key_of),
            index.spec_keys() == first_keys(records.deep_view(), key_of),
    {
        let ghost all = records.deep_view();
        let mut distinct: Vec<String> = Vec::new();
        let mut groups: Vec<Vec<&'a Translation>> = Vec::new();
        let mut slots: StringHashMap<usize> = StringHashMap::new();
        let mut i: usize = 0;
        while i < records.len()
            invariant
                i <= records.len(),
                keys.len() == records.len(),
                all == records.deep_view(),
                forall|j: int| 0 <= j < records.len() ==> (#[trigger] keys[j])@ == key_of(records[j]@),
                distinct.len() == groups.len(),
                slots_match(slots@, distinct.deep_view()),
                distinct.deep_view() == first_keys(all.take(i as int), key_of),
                forall|s: int| 0 <= s < groups.len() ==> (#[trigger] groups[s]).deep_view() == all.take(i as int).filter(
                    keyed(key_of, distinct[s]@),
                ),
                forall|key: Seq<char>| slots@.contains_key(key) <==> exists|j: int| 0 <= j < i && key_of(all[j]) == key,
            decreases records.len() - i,
        {
            let key = &keys[i];
            let record = &records[i];
            let ghost before = all.take(i as int);
            let ghost after = all.take(i + 1);
            proof {
                assert(after.drop_last() == before);
                assert(after == before.push(all[i as int]));
                assert(all[i as int] == record@);
                assert(key@ == key_of(record@));
                assert forall|other: Seq<char>| after.filter(keyed(key_of, other)) == (if key_of(record@) == other {
                    before.filter(keyed(key_of, other)).push(record@)
                } else {
                    before.filter(keyed(key_of, other))
                }) by {
                    before.lemma_filter_push(record@, keyed(key_of, other));
                }
                lemma_first_keys_contains(before, key_of, key@);
            }
            match slots.get(key.as_str()) {
                Some(slot) => {
                    let slot: usize = *slot;
                    let ghost old_groups = groups.deep_view();
                    proof {
                        assert(distinct.deep_view()[slot as int] == key@);
                        assert forall|s: int| 0 <= s < distinct.len() && s != slot implies (#[trigger] distinct[s])@ != key@ by {
                            assert(slots@[distinct.deep_view()[s]] == s);
                        }
                        assert forall|s: int| 0 <= s < groups.len() implies #[trigger] old_groups[s] == before.filter(
                            keyed(key_of, distinct[s]@),
                        ) by {
                            assert(groups[s].deep_view() == old_groups[s]);
                        }
                    }
                    let mut group: Vec<&'a Translation> = Vec::new();
                    std::mem::swap(&mut group, &mut groups[slot]);
                    group.push(record);
                    std::mem::swap(&mut group, &mut groups[slot]);
                    proof {
                        assert(groups[slot as int].deep_view() =~= old_groups[slot as int].push(record@));
                        assert forall|s: int| 0 <= s < groups.len() implies (#[trigger] groups[s]).deep_view()
                            == after.filter(keyed(key_of, distinct[s]@)) by {
                            if s != slot {
                                assert(groups[s].deep_view() == old_groups[s]);
                            }
                        }
                    }
                },
                None => {
                    assert(forall|j: int| 0 <= j < before.len() ==> key_of(#[trigger] before[j]) != key@);
                    let ghost old_distinct = distinct.deep_view();
                    let ghost old_groups = groups.deep_view();
                    proof {
                        assert forall|s: int| 0 <= s < distinct.len() implies (#[trigger] distinct[s])@ != key@ by {
                            assert(slots@.contains_key(old_distinct[s]));
                        }
                        assert forall|s: int| 0 <= s < groups.len() implies #[trigger] old_groups[s] == before.filter(
                            keyed(key_of, distinct[s]@),
                        ) by {
                            assert(groups[s].deep_view() == old_groups[s]);
                        }
                    }
                    slots.insert(key.clone(), distinct.len());
                    distinct.push(key.clone());
                    let mut group: Vec<&'a Translation> = Vec::new();
                    group.push(record);
                    groups.push(group);
                    proof {
                        assert(distinct.deep_view() =~= old_distinct.push(key@));
                        lemma_no_record_no_group(before, key_of, key@);
                        assert(groups[groups.len() - 1].deep_view() =~= Seq::<TranslationView>::empty().push(record@));
                        assert forall|s: int| 0 <= s < groups.len() implies (#[trigger] groups[s]).deep_view()
                            == after.filter(keyed(key_of, distinct[s]@)) by {
                            if s < groups.len() - 1 {
                                assert(groups[s].deep_view() == old_groups[s]);
                                assert(distinct[s]@ == old_distinct[s]);
                            }
                        }
                    }
                },
            }
            proof {
                assert forall|k: Seq<char>| slots@.contains_key(k) <==> exists|j: int| 0 <= j < i + 1 && key_of(all[j]) == k by {
                    if exists|j: int| 0 <= j < i + 1 && key_of(all[j]) == k {
                        let j = choose|j: int| 0 <= j < i + 1 && key_of(all[j]) == k;
                        if j < i {
                        }
                    }
                    if slots@.contains_key(k) && k != key@ {
                    }
                }
            }
            i += 1;
        }
        proof {
            assert(all.take(i as int) == all);
        }
        let index = TranslationIndex { keys: distinct, groups, slots };
        proof {
            assert(index@ =~= grouped_by(all, key_of));
        }
        index
    }
}

/// Where no record has the key, nothing is filed under it.
proof fn lemma_no_record_no_group(records: Seq<TranslationView>, key_of: KeyOf, key: Seq<char>)
    requires
        forall|i: int| 0 <= i < records.len() ==> key_of(#[trigger] records[i]) != key,
    ensures
        records.filter(keyed(key_of, key)) == Seq::<TranslationView>::empty(),
    decreases records.len(),
{
    reveal(Seq::filter);
    if records.len() > 0 {
        let earlier = records.drop_last();
        assert forall|i: int| 0 <= i < earlier.len() implies key_of(#[trigger] earlier[i]) != key by {
            assert(earlier[i] == records[i]);
        }
        lemma_no_record_no_group(earlier, key_of, key);
    }
}

/// A key stands among the first keys of `records` exactly when some record
/// has it.
pub proof fn lemma_first_keys_contains(records: Seq<TranslationView>, key_of: KeyOf, key: Seq<char>)
    ensures
        first_keys(records, key_of).contains(key) <==> exists|i: int| 0 <= i < records.len() && key_of(records[i]) == key,
    decreases records.len(),
{
    if records.len() > 0 {
        let earlier = records.drop_last();
        lemma_first_keys_contains(earlier, key_of, key);
        let last_key = key_of(records.last());
        let keys = first_keys(records, key_of);
        if first_keys(earlier, key_of).contains(last_key) {
        } else {
            assert(keys.last() == last_key);
            assert(keys.drop_last() == first_keys(earlier, key_of));
        }
        if exists|i: int| 0 <= i < records.len() && key_of(records[i]) == key {
            let i = choose|i: int| 0 <= i < records.len() && key_of(records[i]) == key;
            if i < records.len() - 1 {
                assert(key_of(earlier[i]) == key);
                let at = choose|at: int| 0 <= at < first_keys(earlier, key_of).len() && first_keys(earlier, key_of)[at] == key;
                assert(keys[at] == key);
            } else {
                if first_keys(earlier, key_of).contains(last_key) {
                } else {
                    assert(keys[keys.len() - 1] == key);
                }
            }
        }
        if keys.contains(key) {
            let at = choose|at: int| 0 <= at < keys.len() && keys[at] == key;
            if at < first_keys(earlier, key_of).len() {
                assert(first_keys(earlier, key_of)[at] == key);
                let i = choose|i: int| 0 <= i < earlier.len() && key_of(earlier[i]) == key;
                assert(key_of(records[i]) == key);
            } else {
                assert(key_of(records[records.len() - 1]) == key);
            }
        }
    }
}

/// Every record is filed, and under its own key: the index knows the key of
/// each record and holds the record in the group of that key.
pub proof fn lemma_record_is_filed_under_its_key(records: Seq<TranslationView>, key_of: KeyOf, i: int)
    requires
        0 <= i < records.len(),
    ensures
        grouped_by(records, key_of).contains_key(key_of(records[i])),
        grouped_by(records, key_of)[key_of(records[i])].contains(records[i]),
        grouped_by(records, key_of)[key_of(records[i])].len() >= 1,
{
    let key = key_of(records[i]);
    assert(keyed(key_of, key)(records[i]));
    records.lemma_filter_contains(keyed(key_of, key), i);
}

/// A group holds nothing but records of the corpus that have the group's
/// key.
pub proof fn lemma_group_member_has_the_key(records: Seq<TranslationView>, key_of: KeyOf, key: Seq<char>, j: int)
    requires
        0 <= j < grouped_by(records, key_of)[key].len(),
        grouped_by(records, key_of).contains_key(key),
    ensures
        key_of(grouped_by(records, key_of)[key][j]) == key,
        records.contains(grouped_by(records, key_of)[key][j]),
{
    let group = records.filter(keyed(key_of, key));
    records.lemma_filter_pred(keyed(key_of, key), j);
    assert(group.contains(group[j]));
    records.lemma_filter_contains_rev(keyed(key_of, key), group[j]);
}

} // verus!
