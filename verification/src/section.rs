//! One category of the protocol: its records in order and by key.

use crate::entry::{record_json, ProtocolEntry};
use crate::json::{items_model, members_model, Json, JsonModel};
use crate::keyed::{index_by_key, keyed, keys, lemma_keyed_entries, map_model};
use crate::loader::records_model;
use vstd::hash_map::StringHashMap;
use vstd::prelude::*;

verus! {

/// The records of one category, in the order of their table, together with
/// the map from keys to records that is built from them.
#[verifier::reject_recursive_types(T)]
pub struct Section<T: ProtocolEntry> {
    list: Vec<T>,
    map: StringHashMap<T>,
}

impl<T: ProtocolEntry> View for Section<T> {
    type V = Seq<T::V>;

    /// A section is its records in order; its map is `keyed` of them.
    closed spec fn view(&self) -> Seq<T::V> {
        records_model(self.list@)
    }
}

/// The different keys of a list of records, each where it first occurs.
pub open spec fn distinct_keys<T: ProtocolEntry>(records: Seq<T::V>) -> Seq<Seq<char>>
    decreases records.len(),
{
    if records.len() == 0 {
        Seq::empty()
    } else {
        let front = distinct_keys::<T>(records.drop_last());
        let key = T::key_of(records.last());
        if front.contains(key) {
            front
        } else {
            front.push(key)
        }
    }
}

/// The records of a section as a JSON array, in their order.
pub open spec fn list_json<T: ProtocolEntry>(records: Seq<T::V>) -> JsonModel {
    JsonModel::Array(Seq::new(records.len(), |i: int| record_json::<T>(records[i])))
}

/// The map of a section as a JSON object: one member for each key, in the
/// order in which the keys first occur, holding the record that the map has
/// under it.
pub open spec fn map_json<T: ProtocolEntry>(records: Seq<T::V>) -> JsonModel {
    let names = distinct_keys::<T>(records);
    JsonModel::Object(
        Seq::new(names.len(), |i: int| (names[i], record_json::<T>(keyed::<T>(records)[names[i]]))),
    )
}

/// The distinct keys are the keys, each once.
pub proof fn lemma_distinct_keys<T: ProtocolEntry>(records: Seq<T::V>)
    ensures
        distinct_keys::<T>(records).to_set() == keys::<T>(records).to_set(),
        distinct_keys::<T>(records).no_duplicates(),
        distinct_keys::<T>(records).len() == keyed::<T>(records).len(),
    decreases records.len(),
{
    broadcast use vstd::seq_lib::seq_to_set_is_finite;

    let names = distinct_keys::<T>(records);
    let all = keys::<T>(records);
    if records.len() == 0 {
        assert(names.to_set() =~= all.to_set());
    } else {
        let front = records.drop_last();
        let key = T::key_of(records.last());
        lemma_distinct_keys::<T>(front);
        assert(all =~= keys::<T>(front).push(key));
        keys::<T>(front).lemma_push_to_set_commute(key);
        let before = distinct_keys::<T>(front);
        if before.contains(key) {
            assert(before.to_set().contains(key));
            assert(names.to_set() =~= all.to_set());
        } else {
            before.lemma_push_to_set_commute(key);
            assert(names.to_set() =~= all.to_set());
        }
    }
    names.unique_seq_to_set();
    lemma_keyed_entries::<T>(records);
}

impl<T: ProtocolEntry> Section<T> {
    #[verifier::type_invariant]
    spec fn valid(&self) -> bool {
        map_model(self.map@) == keyed::<T>(records_model(self.list@))
    }

    /// The section of the given records: the list as it is, and the map
    /// built from it.
    pub fn new(records: Vec<T>) -> (section: Section<T>)
        ensures
            section@ == records_model(records@),
    {
        let map = index_by_key(&records);
        Section { list: records, map }
    }

    /// The records in the order of their table.
    pub fn list(&self) -> (list: &Vec<T>)
        ensures
            records_model(list@) == self@,
    {
        &self.list
    }

    /// The records by their keys: one entry for each different key, so
    /// never more entries than records.
    pub fn map(&self) -> (map: &StringHashMap<T>)
        ensures
            map_model(map@) == keyed::<T>(self@),
            map@.dom() == keys::<T>(self@).to_set(),
            map@.len() == keys::<T>(self@).to_set().len(),
            map@.len() <= self@.len(),
    {
        proof {
            use_type_invariant(self);
            lemma_keyed_entries::<T>(self@);
            assert(map_model(self.map@).dom() =~= self.map@.dom());
        }
        &self.map
    }

    /// The number of records.
    pub fn len(&self) -> (n: usize)
        ensures
            n == self@.len(),
    {
        self.list.len()
    }

    /// The record that the map holds under `key`: the last one of the list
    /// that has this key.
    pub fn get(&self, key: &str) -> (record: Option<&T>)
        ensures
            match record {
                Some(found) => keyed::<T>(self@).contains_key(key@) && keyed::<T>(self@)[key@]
                    == found@,
                None => !keyed::<T>(self@).contains_key(key@),
            },
    {
        proof {
            use_type_invariant(self);
        }
        let found = self.map.get(key);
        proof {
            assert(map_model(self.map@).contains_key(key@) <==> self.map@.contains_key(key@));
        }
        found
    }

    /// The records as a JSON array.
    pub fn list_to_json(&self) -> (json: Json)
        ensures
            json@ == list_json::<T>(self@),
    {
        let mut items: Vec<Json> = Vec::new();
        let mut i: usize = 0;
        while i < self.list.len()
            invariant
                0 <= i <= self.list.len(),
                items@.len() == i,
                forall|j: int| 0 <= j < i ==> (#[trigger] items@[j])@ == record_json::<T>(self.list@[j]@),
            decreases self.list.len() - i,
        {
            items.push(self.list[i].to_json());
            i = i + 1;
        }
        proof {
            assert(items_model(items@) =~= list_json::<T>(self@)->Array_0);
        }
        Json::array(items)
    }

    /// The map as a JSON object.
    pub fn map_to_json(&self) -> (json: Json)
        ensures
            json@ == map_json::<T>(self@),
    {
        proof {
            use_type_invariant(self);
        }
        let ghost records = records_model(self.list@);
        let mut members: Vec<(String, Json)> = Vec::new();
        let mut seen: StringHashMap<bool> = StringHashMap::new();
        let mut i: usize = 0;
        proof {
            assert(records.take(0) =~= Seq::<T::V>::empty());
            assert(seen@.dom() =~= distinct_keys::<T>(records.take(0)).to_set());
        }
        while i < self.list.len()
            invariant
                0 <= i <= self.list.len(),
                records == records_model(self.list@),
                map_model(self.map@) == keyed::<T>(records),
                seen@.dom() == distinct_keys::<T>(records.take(i as int)).to_set(),
                members@.len() == distinct_keys::<T>(records.take(i as int)).len(),
                forall|j: int|
                    0 <= j < members@.len() ==> {
                        &&& (#[trigger] members@[j]).0@ == distinct_keys::<T>(
                            records.take(i as int),
                        )[j]
                        &&& members@[j].1@ == record_json::<T>(keyed::<T>(records)[members@[j].0@])
                    },
            decreases self.list.len() - i,
        {
            let ghost before = distinct_keys::<T>(records.take(i as int));
            let ghost next = records.take(i + 1);
            proof {
                assert(next.drop_last() =~= records.take(i as int));
                assert(next.last() == self.list@[i as int]@);
            }
            let key = self.list[i].key();
            if !seen.contains_key(key.as_str()) {
                proof {
                    assert(!before.to_set().contains(key@));
                    assert(!before.contains(key@));
                    before.lemma_push_to_set_commute(key@);
                }
                match self.map.get(key.as_str()) {
                    Some(record) => {
                        let member = record.to_json();
                        proof {
                            assert(map_model(self.map@)[key@] == record@);
                        }
                        seen.insert(key.clone(), true);
                        members.push((key, member));
                    },
                    None => {
                        proof {
                            lemma_keyed_entries::<T>(records);
                            assert(keys::<T>(records)[i as int] == key@);
                            assert(keys::<T>(records).to_set().contains(key@));
                            assert(map_model(self.map@).contains_key(key@));
                            assert(false);
                        }
                    },
                }
            } else {
                proof {
                    assert(before.to_set().contains(key@));
                    assert(before.contains(key@));
                }
            }
            i = i + 1;
        }
        proof {
            assert(records.take(i as int) =~= records);
            assert(members_model(members@) =~= map_json::<T>(self@)->Object_0);
        }
        Json::object(members)
    }
}

} // verus!
