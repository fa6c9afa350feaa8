//! The records of a category by their keys.

use crate::entry::ProtocolEntry;
use crate::loader::records_model;
use vstd::hash_map::StringHashMap;
use vstd::prelude::*;

verus! {

/// The keys of a list of records, in the order of the records.
pub open spec fn keys<T: ProtocolEntry>(records: Seq<T::V>) -> Seq<Seq<char>> {
    Seq::new(records.len(), |i: int| T::key_of(records[i]))
}

/// The records by their keys: each record is entered under its key in the
/// order of the list, so that of two records with one key the later stays.
pub open spec fn keyed<T: ProtocolEntry>(records: Seq<T::V>) -> Map<Seq<char>, T::V>
    decreases records.len(),
{
    if records.len() == 0 {
        Map::empty()
    } else {
        keyed::<T>(records.drop_last()).insert(T::key_of(records.last()), records.last())
    }
}

/// A map of records as plain values.
pub open spec fn map_model<T: ProtocolEntry>(map: Map<Seq<char>, T>) -> Map<Seq<char>, T::V> {
    map.map_values(|record: T| record@)
}

/// The map holds exactly the keys of the list: as many entries as there are
/// different keys, and so never more than there are records.
pub proof fn lemma_keyed_entries<T: ProtocolEntry>(records: Seq<T::V>)
    ensures
        keyed::<T>(records).dom() == keys::<T>(records).to_set(),
        keyed::<T>(records).dom().finite(),
        keyed::<T>(records).len() == keys::<T>(records).to_set().len(),
        keyed::<T>(records).len() <= records.len(),
    decreases records.len(),
{
    broadcast use vstd::seq_lib::seq_to_set_is_finite;

    let all = keys::<T>(records);
    if records.len() == 0 {
        assert(keyed::<T>(records).dom() =~= all.to_set());
    } else {
        let front = records.drop_last();
        lemma_keyed_entries::<T>(front);
        let key = T::key_of(records.last());
        assert(all =~= keys::<T>(front).push(key));
        keys::<T>(front).lemma_push_to_set_commute(key);
        assert(keyed::<T>(records).dom() =~= all.to_set());
    }
    all.lemma_cardinality_of_set();
}

/// Under each key stands the last record of the list that has it.
pub proof fn lemma_keyed_last_wins<T: ProtocolEntry>(records: Seq<T::V>, i: int)
    requires
        0 <= i < records.len(),
        forall|j: int| i < j < records.len() ==> T::key_of(records[j]) != T::key_of(records[i]),
    ensures
        keyed::<T>(records).contains_key(T::key_of(records[i])),
        keyed::<T>(records)[T::key_of(records[i])] == records[i],
    decreases records.len(),
{
    if i < records.len() - 1 {
        let front = records.drop_last();
        lemma_keyed_last_wins::<T>(front, i);
    }
}

/// Builds the map from keys to records: the records are entered in their
/// order, a later one replacing an earlier one with the same key. The list
/// itself is left as it is.
pub fn index_by_key<T: ProtocolEntry>(records: &Vec<T>) -> (map: StringHashMap<T>)
    ensures
        map_model(map@) == keyed::<T>(records_model(records@)),
{
    let ghost models = records_model(records@);
    let mut map: StringHashMap<T> = StringHashMap::new();
    let mut i: usize = 0;
    proof {
        assert(models.take(0) =~= Seq::<T::V>::empty());
        assert(map_model(map@) =~= keyed::<T>(models.take(0)));
    }
    while i < records.len()
        invariant
            0 <= i <= records.len(),
            models == records_model(records@),
            map_model(map@) == keyed::<T>(models.take(i as int)),
        decreases records.len() - i,
    {
        let ghost before = map@;
        let record = &records[i];
        let copy = record.duplicate();
        let key = record.key();
        map.insert(key, copy);
        proof {
            let next = models.take(i + 1);
            assert(next.drop_last() =~= models.take(i as int));
            assert(next.last() == record@);
            assert(map_model(map@) =~= map_model(before).insert(T::key_of(record@), record@));
        }
        i = i + 1;
    }
    proof {
        assert(models.take(i as int) =~= models);
    }
    map
}

} // verus!
