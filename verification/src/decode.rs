//! Reading a schema back: what a decoder finds in the JSON value of a
//! protocol, and that it finds the protocol.

use crate::entry::{
    record_json, Command, CommandModel, ErrorResponse, ErrorResponseModel, ProtocolEntry,
    Response, ResponseModel,
};
use crate::json::{lemma_lookup_finds, lookup, JsonModel};
use crate::keyed::{keyed, lemma_keyed_entries};
use crate::protocol::{member_names, schema_json, ProtocolModel};
use crate::section::{distinct_keys, lemma_distinct_keys, list_json, map_json};
use vstd::prelude::*;

verus! {

/// The schema as a decoder holds it: for each category the map from keys to
/// records and the list of records.
pub ghost struct SchemaModel {
    pub commands: Map<Seq<char>, CommandModel>,
    pub commands_list: Seq<CommandModel>,
    pub errors: Map<Seq<char>, ErrorResponseModel>,
    pub errors_list: Seq<ErrorResponseModel>,
    pub responses: Map<Seq<char>, ResponseModel>,
    pub responses_list: Seq<ResponseModel>,
}

/// The schema of a protocol: each list as it is, each map `keyed` of its
/// list.
pub open spec fn schema_of(protocol: ProtocolModel) -> SchemaModel {
    SchemaModel {
        commands: keyed::<Command>(protocol.commands),
        commands_list: protocol.commands,
        errors: keyed::<ErrorResponse>(protocol.errors),
        errors_list: protocol.errors,
        responses: keyed::<Response>(protocol.responses),
        responses_list: protocol.responses,
    }
}

/// The records that a JSON array holds, in its order, where every item
/// holds one.
pub open spec fn decode_list<T: ProtocolEntry>(json: Option<JsonModel>) -> Option<Seq<T::V>> {
    match json {
        Some(JsonModel::Array(items)) => if forall|i: int|
            0 <= i < items.len() ==> (#[trigger] T::decode(items[i])) is Some {
            Some(Seq::new(items.len(), |i: int| T::decode(items[i])->Some_0))
        } else {
            None
        },
        _ => None,
    }
}

/// The records that the members of a JSON object hold, each under the name
/// of its member, where every member holds one. Of two members with one
/// name the later counts.
pub open spec fn decode_members<T: ProtocolEntry>(members: Seq<(Seq<char>, JsonModel)>) -> Option<
    Map<Seq<char>, T::V>,
>
    decreases members.len(),
{
    if members.len() == 0 {
        Some(Map::empty())
    } else {
        match (decode_members::<T>(members.drop_last()), T::decode(members.last().1)) {
            (Some(map), Some(record)) => Some(map.insert(members.last().0, record)),
            _ => None,
        }
    }
}

/// The map from keys to records that a JSON object holds.
pub open spec fn decode_map<T: ProtocolEntry>(json: Option<JsonModel>) -> Option<
    Map<Seq<char>, T::V>,
> {
    match json {
        Some(JsonModel::Object(members)) => decode_members::<T>(members),
        _ => None,
    }
}

/// The schema that a JSON value holds: an object with the six members of a
/// schema, found by their names, each holding what its category asks for.
pub open spec fn decode_schema(json: JsonModel) -> Option<SchemaModel> {
    match json {
        JsonModel::Object(members) => match (
            decode_map::<Command>(lookup(members, member_names()[0])),
            decode_list::<Command>(lookup(members, member_names()[1])),
            decode_map::<ErrorResponse>(lookup(members, member_names()[2])),
            decode_list::<ErrorResponse>(lookup(members, member_names()[3])),
            decode_map::<Response>(lookup(members, member_names()[4])),
            decode_list::<Response>(lookup(members, member_names()[5])),
        ) {
            (
                Some(commands),
                Some(commands_list),
                Some(errors),
                Some(errors_list),
                Some(responses),
                Some(responses_list),
            ) => Some(
                SchemaModel {
                    commands,
                    commands_list,
                    errors,
                    errors_list,
                    responses,
                    responses_list,
                },
            ),
            _ => None,
        },
        _ => None,
    }
}

/// The list of a section reads back as the records, in their order.
pub proof fn lemma_list_reads_back<T: ProtocolEntry>(records: Seq<T::V>)
    ensures
        decode_list::<T>(Some(list_json::<T>(records))) == Some(records),
{
    let items = list_json::<T>(records)->Array_0;
    assert forall|i: int| 0 <= i < items.len() implies #[trigger] T::decode(items[i]) == Some(
        records[i],
    ) by {
        T::lemma_decode_json(records[i]);
    }
    assert(Seq::new(items.len(), |i: int| T::decode(items[i])->Some_0) =~= records);
}

/// The first `n` members of the map of a section read back as the map,
/// kept to the keys of these members.
proof fn lemma_members_read_back<T: ProtocolEntry>(records: Seq<T::V>, n: int)
    requires
        0 <= n <= distinct_keys::<T>(records).len(),
    ensures
        decode_members::<T>(map_json::<T>(records)->Object_0.take(n)) == Some(
            keyed::<T>(records).restrict(distinct_keys::<T>(records).take(n).to_set()),
        ),
    decreases n,
{
    let names = distinct_keys::<T>(records);
    let members = map_json::<T>(records)->Object_0;
    let all = keyed::<T>(records);
    if n == 0 {
        assert(members.take(0) =~= Seq::empty());
        assert(all.restrict(names.take(0).to_set()) =~= Map::empty());
    } else {
        lemma_members_read_back::<T>(records, n - 1);
        lemma_distinct_keys::<T>(records);
        lemma_keyed_entries::<T>(records);
        let name = names[n - 1];
        assert(names.to_set().contains(name));
        assert(all.contains_key(name));
        T::lemma_decode_json(all[name]);
        assert(members.take(n).drop_last() =~= members.take(n - 1));
        assert(members.take(n).last() == (name, record_json::<T>(all[name])));
        assert(names.take(n) =~= names.take(n - 1).push(name));
        names.take(n - 1).lemma_push_to_set_commute(name);
        assert(all.restrict(names.take(n - 1).to_set()).insert(name, all[name]) =~= all.restrict(
            names.take(n).to_set(),
        ));
    }
}

/// The map of a section reads back as the map from keys to records.
pub proof fn lemma_map_reads_back<T: ProtocolEntry>(records: Seq<T::V>)
    ensures
        decode_map::<T>(Some(map_json::<T>(records))) == Some(keyed::<T>(records)),
{
    let names = distinct_keys::<T>(records);
    let members = map_json::<T>(records)->Object_0;
    lemma_members_read_back::<T>(records, names.len() as int);
    lemma_distinct_keys::<T>(records);
    lemma_keyed_entries::<T>(records);
    assert(members.take(names.len() as int) =~= members);
    assert(names.take(names.len() as int) =~= names);
    assert(keyed::<T>(records).restrict(names.to_set()) =~= keyed::<T>(records));
}

/// The six members of a schema have six different names.
pub proof fn lemma_member_names_differ()
    ensures
        member_names().no_duplicates(),
{
    reveal_strlit("commands");
    reveal_strlit("commands_list");
    reveal_strlit("errors");
    reveal_strlit("errors_list");
    reveal_strlit("responses");
    reveal_strlit("responses_list");
    assert("commands"@.len() == 8);
    assert("commands_list"@.len() == 13);
    assert("errors"@.len() == 6);
    assert("errors_list"@.len() == 11);
    assert("responses"@.len() == 9);
    assert("responses_list"@.len() == 14);
}

/// Reading the schema of a protocol back gives the protocol: the same six
/// members, in each list the same records in the same order, and in each
/// map, under every key, the record that the protocol has there.
pub proof fn lemma_schema_reads_back(protocol: ProtocolModel)
    ensures
        decode_schema(schema_json(protocol)) == Some(schema_of(protocol)),
{
    let members = schema_json(protocol)->Object_0;
    lemma_member_names_differ();
    assert forall|i: int| 0 <= i < 6 implies lookup(members, member_names()[i]) == Some(
        (#[trigger] members[i]).1,
    ) by {
        assert(members[i].0 == member_names()[i]);
        assert forall|j: int| 0 <= j < i implies (#[trigger] members[j]).0 != members[i].0 by {
            assert(members[j].0 == member_names()[j]);
        }
        lemma_lookup_finds(members, i);
    }
    assert(lookup(members, member_names()[0]) == Some(members[0].1));
    assert(lookup(members, member_names()[1]) == Some(members[1].1));
    assert(lookup(members, member_names()[2]) == Some(members[2].1));
    assert(lookup(members, member_names()[3]) == Some(members[3].1));
    assert(lookup(members, member_names()[4]) == Some(members[4].1));
    assert(lookup(members, member_names()[5]) == Some(members[5].1));
    lemma_map_reads_back::<Command>(protocol.commands);
    lemma_list_reads_back::<Command>(protocol.commands);
    lemma_map_reads_back::<ErrorResponse>(protocol.errors);
    lemma_list_reads_back::<ErrorResponse>(protocol.errors);
    lemma_map_reads_back::<Response>(protocol.responses);
    lemma_list_reads_back::<Response>(protocol.responses);
}

} // verus!
