//! The records of the three categories and what they share.

use crate::error::Fault;
use crate::fields::{
    code_field, flag_field, read_code_field, read_flag_field, read_text_field,
    read_tristate_field, text_field, tristate_field,
};
use crate::json::{
    code_of, flag_of, lemma_lookup_finds, lookup, members_model, text_of, tristate_json,
    tristate_of, Json, JsonModel,
};
use crate::schema::{lemma_field_names_differ, Category, Field};
use crate::table::{cell, row_text};
use vstd::prelude::*;

verus! {

/// What every protocol entry has, whatever its category.
#[derive(Debug, PartialEq, Eq)]
pub struct Entry {
    /// The short identifier, meant to be unique within the category.
    pub key: String,
    /// The readable identifier.
    pub name: String,
    /// The number that identifies the entry on the wire.
    pub code: u8,
    /// Free text.
    pub description: String,
    /// Whether the entry is implemented; `None` where that is unknown.
    pub implemented: Option<bool>,
}

/// An entry as plain values.
pub ghost struct EntryModel {
    pub key: Seq<char>,
    pub name: Seq<char>,
    pub code: u8,
    pub description: Seq<char>,
    pub implemented: Option<bool>,
}

impl View for Entry {
    type V = EntryModel;

    open spec fn view(&self) -> EntryModel {
        EntryModel {
            key: self.key@,
            name: self.name@,
            code: self.code,
            description: self.description@,
            implemented: self.implemented,
        }
    }
}

impl Clone for Entry {
    fn clone(&self) -> (copy: Entry)
        ensures
            copy == *self,
    {
        self.duplicate()
    }
}

/// The fields that every record must have a column for.
pub open spec fn entry_required() -> Seq<Field> {
    seq![Field::Key, Field::Name, Field::Code, Field::Description]
}

/// The fields that every record has, in the order of declaration.
pub open spec fn entry_fields() -> Seq<Field> {
    seq![Field::Key, Field::Name, Field::Code, Field::Description, Field::Implemented]
}

/// The members of a record in the schema: one for each of `fields`, in
/// their order, called by the field's name and holding what `value` gives.
pub open spec fn field_members(fields: Seq<Field>, value: spec_fn(Field) -> JsonModel) -> Seq<
    (Seq<char>, JsonModel),
> {
    Seq::new(fields.len(), |i: int| (fields[i].name_spec(), value(fields[i])))
}

/// Each field of a record is found in the schema under its name, with its
/// value.
pub proof fn lemma_field_member(fields: Seq<Field>, value: spec_fn(Field) -> JsonModel, i: int)
    requires
        fields.no_duplicates(),
        0 <= i < fields.len(),
    ensures
        lookup(field_members(fields, value), fields[i].name_spec()) == Some(value(fields[i])),
{
    let members = field_members(fields, value);
    assert forall|j: int| 0 <= j < i implies (#[trigger] members[j]).0 != members[i].0 by {
        lemma_field_names_differ(fields[j], fields[i]);
    }
    lemma_lookup_finds(members, i);
}

impl Entry {
    /// The entry that a row holds under a header, or the fault of the first
    /// field, in the order of declaration, that cannot be read.
    pub open spec fn parse(header: Seq<Seq<char>>, row: Seq<Seq<char>>) -> Result<
        EntryModel,
        Fault,
    > {
        match text_field(header, row, Field::Key) {
            Err(fault) => Err(fault),
            Ok(key) => match text_field(header, row, Field::Name) {
                Err(fault) => Err(fault),
                Ok(name) => match code_field(header, row, Field::Code) {
                    Err(fault) => Err(fault),
                    Ok(code) => match text_field(header, row, Field::Description) {
                        Err(fault) => Err(fault),
                        Ok(description) => match tristate_field(header, row, Field::Implemented) {
                            Err(fault) => Err(fault),
                            Ok(implemented) => Ok(
                                EntryModel { key, name, code, description, implemented },
                            ),
                        },
                    },
                },
            },
        }
    }

    /// What a shared field holds in the schema. A tri-state that is unknown
    /// is `null`.
    pub open spec fn value(entry: EntryModel, field: Field) -> JsonModel {
        match field {
            Field::Key => JsonModel::Text(entry.key),
            Field::Name => JsonModel::Text(entry.name),
            Field::Code => JsonModel::Number(entry.code),
            Field::Description => JsonModel::Text(entry.description),
            Field::Implemented => tristate_json(entry.implemented),
            _ => JsonModel::Null,
        }
    }

    /// The entry that the members of a record hold under the names of the
    /// shared fields.
    pub open spec fn decode(members: Seq<(Seq<char>, JsonModel)>) -> Option<EntryModel> {
        match (
            text_of(lookup(members, Field::Key.name_spec())),
            text_of(lookup(members, Field::Name.name_spec())),
            code_of(lookup(members, Field::Code.name_spec())),
            text_of(lookup(members, Field::Description.name_spec())),
            tristate_of(lookup(members, Field::Implemented.name_spec())),
        ) {
            (Some(key), Some(name), Some(code), Some(description), Some(implemented)) => Some(
                EntryModel { key, name, code, description, implemented },
            ),
            _ => None,
        }
    }

    /// Reads the shared fields of a record from a row.
    pub fn from_row(header: &Vec<String>, row: &Vec<String>) -> (r: Result<Entry, Fault>)
        ensures
            match r {
                Ok(entry) => Self::parse(row_text(header@), row_text(row@)) == Ok::<
                    EntryModel,
                    Fault,
                >(entry@),
                Err(fault) => Self::parse(row_text(header@), row_text(row@)) == Err::<
                    EntryModel,
                    Fault,
                >(fault),
            },
    {
        let key = read_text_field(header, row, Field::Key)?;
        let name = read_text_field(header, row, Field::Name)?;
        let code: u8 = read_code_field(header, row, Field::Code)?;
        let description = read_text_field(header, row, Field::Description)?;
        let implemented = read_tristate_field(header, row, Field::Implemented)?;
        Ok(Entry { key, name, code, description, implemented })
    }

    /// A copy of the entry.
    pub fn duplicate(&self) -> (copy: Entry)
        ensures
            copy == *self,
    {
        Entry {
            key: self.key.clone(),
            name: self.name.clone(),
            code: self.code,
            description: self.description.clone(),
            implemented: self.implemented,
        }
    }

    /// The members that the entry contributes to its record in the schema:
    /// the shared fields in the order of declaration.
    pub fn to_members(&self) -> (members: Vec<(String, Json)>)
        ensures
            members_model(members@) == field_members(
                entry_fields(),
                |field: Field| Self::value(self@, field),
            ),
    {
        let mut members: Vec<(String, Json)> = Vec::new();
        members.push((Field::Key.name().to_owned(), Json::text(self.key.as_str())));
        members.push((Field::Name.name().to_owned(), Json::text(self.name.as_str())));
        members.push((Field::Code.name().to_owned(), Json::Number(self.code)));
        members.push((Field::Description.name().to_owned(), Json::text(self.description.as_str())));
        members.push((Field::Implemented.name().to_owned(), Json::tristate(self.implemented)));
        proof {
            assert(members_model(members@) =~= field_members(
                entry_fields(),
                |field: Field| Self::value(self@, field),
            ));
        }
        members
    }
}

/// A record of one category: it is read from a row of its table, has a key,
/// and stands in the schema as a JSON object.
pub trait ProtocolEntry: View + Sized {
    /// The category the record belongs to.
    spec fn category_spec() -> Category;

    /// The fields that the table must have a column for.
    spec fn required_fields() -> Seq<Field>;

    /// The record that a row holds under a header, or the fault of the first
    /// field, in the order of declaration, that cannot be read.
    spec fn parse(header: Seq<Seq<char>>, row: Seq<Seq<char>>) -> Result<Self::V, Fault>;

    /// What is read from a row depends only on what the row holds for the
    /// fields: two rows that hold the same for every field, each under its
    /// own header, are read alike.
    proof fn lemma_parse_reads_cells(
        header: Seq<Seq<char>>,
        row: Seq<Seq<char>>,
        other_header: Seq<Seq<char>>,
        other_row: Seq<Seq<char>>,
    )
        requires
            forall|field: Field| #[trigger]
                cell(header, row, field) == cell(other_header, other_row, field),
        ensures
            Self::parse(header, row) == Self::parse(other_header, other_row),
    ;

    /// The key of a record.
    spec fn key_of(record: Self::V) -> Seq<char>;

    /// The fields of the record, in the order of declaration.
    spec fn fields() -> Seq<Field>;

    /// What a field of the record holds in the schema.
    spec fn value_of(record: Self::V, field: Field) -> JsonModel;

    /// The record that a JSON value holds, where it holds one: an object
    /// with a member of the right type under the name of each field.
    spec fn decode(json: JsonModel) -> Option<Self::V>;

    /// Reading a record back from its JSON value gives the record.
    proof fn lemma_decode_json(record: Self::V)
        ensures
            Self::decode(
                JsonModel::Object(
                    field_members(Self::fields(), |field: Field| Self::value_of(record, field)),
                ),
            ) == Some(record),
    ;

    /// The category the record belongs to.
    fn category() -> (c: Category)
        ensures
            c == Self::category_spec(),
    ;

    /// The fields that the table must have a column for.
    fn required() -> (fields: Vec<Field>)
        ensures
            fields@ == Self::required_fields(),
    ;

    /// Reads a record from a row.
    fn from_row(header: &Vec<String>, row: &Vec<String>) -> (r: Result<Self, Fault>)
        ensures
            match r {
                Ok(record) => Self::parse(row_text(header@), row_text(row@)) == Ok::<
                    Self::V,
                    Fault,
                >(record@),
                Err(fault) => Self::parse(row_text(header@), row_text(row@)) == Err::<
                    Self::V,
                    Fault,
                >(fault),
            },
    ;

    /// The record's key.
    fn key(&self) -> (key: String)
        ensures
            key@ == Self::key_of(self@),
    ;

    /// A copy of the record.
    fn duplicate(&self) -> (copy: Self)
        ensures
            copy == *self,
    ;

    /// The record as it stands in the schema.
    fn to_json(&self) -> (json: Json)
        ensures
            json@ == JsonModel::Object(
                field_members(Self::fields(), |field: Field| Self::value_of(self@, field)),
            ),
    ;
}

/// The record in the schema: an object whose members are the fields of the
/// record in the order of declaration.
pub open spec fn record_json<T: ProtocolEntry>(record: T::V) -> JsonModel {
    JsonModel::Object(field_members(T::fields(), |field: Field| T::value_of(record, field)))
}

/// A command that a client may issue.
#[derive(Debug, PartialEq, Eq)]
pub struct Command {
    pub entry: Entry,
    /// Whether the user has to confirm the command; `None` where unspecified.
    pub user_confirm: Option<bool>,
    /// Whether the command sends input; `None` where unspecified.
    pub send_input: Option<bool>,
    /// Whether the command is enabled; `None` where unspecified.
    pub enabled: Option<bool>,
    /// Whether the command is temporary. Every row must say so.
    pub temporary: bool,
}

/// A command as plain values.
pub ghost struct CommandModel {
    pub entry: EntryModel,
    pub user_confirm: Option<bool>,
    pub send_input: Option<bool>,
    pub enabled: Option<bool>,
    pub temporary: bool,
}

impl View for Command {
    type V = CommandModel;

    open spec fn view(&self) -> CommandModel {
        CommandModel {
            entry: self.entry@,
            user_confirm: self.user_confirm,
            send_input: self.send_input,
            enabled: self.enabled,
            temporary: self.temporary,
        }
    }
}

impl Clone for Command {
    fn clone(&self) -> (copy: Command)
        ensures
            copy == *self,
    {
        self.duplicate()
    }
}

impl ProtocolEntry for Command {
    open spec fn category_spec() -> Category {
        Category::Commands
    }

    open spec fn required_fields() -> Seq<Field> {
        entry_required().push(Field::Temporary)
    }

    open spec fn parse(header: Seq<Seq<char>>, row: Seq<Seq<char>>) -> Result<CommandModel, Fault> {
        match Entry::parse(header, row) {
            Err(fault) => Err(fault),
            Ok(entry) => match tristate_field(header, row, Field::UserConfirm) {
                Err(fault) => Err(fault),
                Ok(user_confirm) => match tristate_field(header, row, Field::SendInput) {
                    Err(fault) => Err(fault),
                    Ok(send_input) => match tristate_field(header, row, Field::Enabled) {
                        Err(fault) => Err(fault),
                        Ok(enabled) => match flag_field(header, row, Field::Temporary) {
                            Err(fault) => Err(fault),
                            Ok(temporary) => Ok(
                                CommandModel { entry, user_confirm, send_input, enabled, temporary },
                            ),
                        },
                    },
                },
            },
        }
    }

    proof fn lemma_parse_reads_cells(
        header: Seq<Seq<char>>,
        row: Seq<Seq<char>>,
        other_header: Seq<Seq<char>>,
        other_row: Seq<Seq<char>>,
    ) {
    }

    open spec fn key_of(record: CommandModel) -> Seq<char> {
        record.entry.key
    }

    open spec fn fields() -> Seq<Field> {
        entry_fields() + seq![
            Field::UserConfirm,
            Field::SendInput,
            Field::Enabled,
            Field::Temporary,
        ]
    }

    open spec fn value_of(record: CommandModel, field: Field) -> JsonModel {
        match field {
            Field::UserConfirm => tristate_json(record.user_confirm),
            Field::SendInput => tristate_json(record.send_input),
            Field::Enabled => tristate_json(record.enabled),
            Field::Temporary => JsonModel::Bool(record.temporary),
            _ => Entry::value(record.entry, field),
        }
    }

    open spec fn decode(json: JsonModel) -> Option<CommandModel> {
        match json {
            JsonModel::Object(members) => match (
                Entry::decode(members),
                tristate_of(lookup(members, Field::UserConfirm.name_spec())),
                tristate_of(lookup(members, Field::SendInput.name_spec())),
                tristate_of(lookup(members, Field::Enabled.name_spec())),
                flag_of(lookup(members, Field::Temporary.name_spec())),
            ) {
                (Some(entry), Some(user_confirm), Some(send_input), Some(enabled), Some(temporary)) => Some(
                    CommandModel { entry, user_confirm, send_input, enabled, temporary },
                ),
                _ => None,
            },
            _ => None,
        }
    }

    proof fn lemma_decode_json(record: CommandModel) {
        let fields = Self::fields();
        let value = |field: Field| Self::value_of(record, field);
        assert(fields.len() == 9);
        assert(fields.no_duplicates());
        lemma_field_member(fields, value, 0);
        lemma_field_member(fields, value, 1);
        lemma_field_member(fields, value, 2);
        lemma_field_member(fields, value, 3);
        lemma_field_member(fields, value, 4);
        lemma_field_member(fields, value, 5);
        lemma_field_member(fields, value, 6);
        lemma_field_member(fields, value, 7);
        lemma_field_member(fields, value, 8);
    }

    fn category() -> (c: Category) {
        Category::Commands
    }

    fn required() -> (fields: Vec<Field>) {
        let mut fields: Vec<Field> = Vec::new();
        fields.push(Field::Key);
        fields.push(Field::Name);
        fields.push(Field::Code);
        fields.push(Field::Description);
        fields.push(Field::Temporary);
        proof {
            assert(fields@ =~= Self::required_fields());
        }
        fields
    }

    fn from_row(header: &Vec<String>, row: &Vec<String>) -> (r: Result<Command, Fault>) {
        let entry = Entry::from_row(header, row)?;
        let user_confirm = read_tristate_field(header, row, Field::UserConfirm)?;
        let send_input = read_tristate_field(header, row, Field::SendInput)?;
        let enabled = read_tristate_field(header, row, Field::Enabled)?;
        let temporary = read_flag_field(header, row, Field::Temporary)?;
        Ok(Command { entry, user_confirm, send_input, enabled, temporary })
    }

    fn key(&self) -> (key: String) {
        self.entry.key.clone()
    }

    fn duplicate(&self) -> (copy: Command) {
        Command {
            entry: self.entry.duplicate(),
            user_confirm: self.user_confirm,
            send_input: self.send_input,
            enabled: self.enabled,
            temporary: self.temporary,
        }
    }

    fn to_json(&self) -> (json: Json) {
        let mut members = self.entry.to_members();
        let ghost shared = members@;
        proof {
            assert(members_model(shared).len() == entry_fields().len());
            assert(shared.len() == 5);
        }
        members.push((Field::UserConfirm.name().to_owned(), Json::tristate(self.user_confirm)));
        members.push((Field::SendInput.name().to_owned(), Json::tristate(self.send_input)));
        members.push((Field::Enabled.name().to_owned(), Json::tristate(self.enabled)));
        members.push((Field::Temporary.name().to_owned(), Json::Bool(self.temporary)));
        proof {
            let target = field_members(
                Self::fields(),
                |field: Field| Self::value_of(self@, field),
            );
            let first = field_members(
                entry_fields(),
                |field: Field| Entry::value(self.entry@, field),
            );
            assert forall|j: int| 0 <= j < members@.len() implies members_model(members@)[j]
                == target[j] by {
                if j < 5 {
                    assert(members@[j] == shared[j]);
                    assert(members_model(shared)[j] == first[j]);
                    assert(Self::fields()[j] == entry_fields()[j]);
                }
            }
            assert(members_model(members@) =~= target);
        }
        Json::object(members)
    }
}

/// An error that a peer may return.
#[derive(Debug, PartialEq, Eq)]
pub struct ErrorResponse {
    pub entry: Entry,
}

/// An error response as plain values.
pub ghost struct ErrorResponseModel {
    pub entry: EntryModel,
}

impl View for ErrorResponse {
    type V = ErrorResponseModel;

    open spec fn view(&self) -> ErrorResponseModel {
        ErrorResponseModel { entry: self.entry@ }
    }
}

impl Clone for ErrorResponse {
    fn clone(&self) -> (copy: ErrorResponse)
        ensures
            copy == *self,
    {
        self.duplicate()
    }
}

impl ProtocolEntry for ErrorResponse {
    open spec fn category_spec() -> Category {
        Category::Errors
    }

    open spec fn required_fields() -> Seq<Field> {
        entry_required()
    }

    open spec fn parse(header: Seq<Seq<char>>, row: Seq<Seq<char>>) -> Result<
        ErrorResponseModel,
        Fault,
    > {
        match Entry::parse(header, row) {
            Err(fault) => Err(fault),
            Ok(entry) => Ok(ErrorResponseModel { entry }),
        }
    }

    proof fn lemma_parse_reads_cells(
        header: Seq<Seq<char>>,
        row: Seq<Seq<char>>,
        other_header: Seq<Seq<char>>,
        other_row: Seq<Seq<char>>,
    ) {
    }

    open spec fn key_of(record: ErrorResponseModel) -> Seq<char> {
        record.entry.key
    }

    open spec fn fields() -> Seq<Field> {
        entry_fields()
    }

    open spec fn value_of(record: ErrorResponseModel, field: Field) -> JsonModel {
        Entry::value(record.entry, field)
    }

    open spec fn decode(json: JsonModel) -> Option<ErrorResponseModel> {
        match json {
            JsonModel::Object(members) => match Entry::decode(members) {
                Some(entry) => Some(ErrorResponseModel { entry }),
                None => None,
            },
            _ => None,
        }
    }

    proof fn lemma_decode_json(record: ErrorResponseModel) {
        let fields = Self::fields();
        let value = |field: Field| Self::value_of(record, field);
        assert(fields.len() == 5);
        assert(fields.no_duplicates());
        lemma_field_member(fields, value, 0);
        lemma_field_member(fields, value, 1);
        lemma_field_member(fields, value, 2);
        lemma_field_member(fields, value, 3);
        lemma_field_member(fields, value, 4);
    }

    fn category() -> (c: Category) {
        Category::Errors
    }

    fn required() -> (fields: Vec<Field>) {
        let mut fields: Vec<Field> = Vec::new();
        fields.push(Field::Key);
        fields.push(Field::Name);
        fields.push(Field::Code);
        fields.push(Field::Description);
        proof {
            assert(fields@ =~= Self::required_fields());
        }
        fields
    }

    fn from_row(header: &Vec<String>, row: &Vec<String>) -> (r: Result<ErrorResponse, Fault>) {
        let entry = Entry::from_row(header, row)?;
        Ok(ErrorResponse { entry })
    }

    fn key(&self) -> (key: String) {
        self.entry.key.clone()
    }

    fn duplicate(&self) -> (copy: ErrorResponse) {
        ErrorResponse { entry: self.entry.duplicate() }
    }

    fn to_json(&self) -> (json: Json) {
        let members = self.entry.to_members();
        proof {
            assert(members_model(members@) =~= field_members(
                Self::fields(),
                |field: Field| Self::value_of(self@, field),
            ));
        }
        Json::object(members)
    }
}

/// A normal response that a peer may return.
#[derive(Debug, PartialEq, Eq)]
pub struct Response {
    pub entry: Entry,
    /// Whether this is an initial response; `None` where unspecified.
    pub initial_response: Option<bool>,
}

/// A response as plain values.
pub ghost struct ResponseModel {
    pub entry: EntryModel,
    pub initial_response: Option<bool>,
}

impl View for Response {
    type V = ResponseModel;

    open spec fn view(&self) -> ResponseModel {
        ResponseModel { entry: self.entry@, initial_response: self.initial_response }
    }
}

impl Clone for Response {
    fn clone(&self) -> (copy: Response)
        ensures
            copy == *self,
    {
        self.duplicate()
    }
}

impl ProtocolEntry for Response {
    open spec fn category_spec() -> Category {
        Category::Responses
    }

    open spec fn required_fields() -> Seq<Field> {
        entry_required()
    }

    open spec fn parse(header: Seq<Seq<char>>, row: Seq<Seq<char>>) -> Result<ResponseModel, Fault> {
        match Entry::parse(header, row) {
            Err(fault) => Err(fault),
            Ok(entry) => match tristate_field(header, row, Field::InitialResponse) {
                Err(fault) => Err(fault),
                Ok(initial_response) => Ok(ResponseModel { entry, initial_response }),
            },
        }
    }

    proof fn lemma_parse_reads_cells(
        header: Seq<Seq<char>>,
        row: Seq<Seq<char>>,
        other_header: Seq<Seq<char>>,
        other_row: Seq<Seq<char>>,
    ) {
    }

    open spec fn key_of(record: ResponseModel) -> Seq<char> {
        record.entry.key
    }

    open spec fn fields() -> Seq<Field> {
        entry_fields().push(Field::InitialResponse)
    }

    open spec fn value_of(record: ResponseModel, field: Field) -> JsonModel {
        match field {
            Field::InitialResponse => tristate_json(record.initial_response),
            _ => Entry::value(record.entry, field),
        }
    }

    open spec fn decode(json: JsonModel) -> Option<ResponseModel> {
        match json {
            JsonModel::Object(members) => match (
                Entry::decode(members),
                tristate_of(lookup(members, Field::InitialResponse.name_spec())),
            ) {
                (Some(entry), Some(initial_response)) => Some(
                    ResponseModel { entry, initial_response },
                ),
                _ => None,
            },
            _ => None,
        }
    }

    proof fn lemma_decode_json(record: ResponseModel) {
        let fields = Self::fields();
        let value = |field: Field| Self::value_of(record, field);
        assert(fields.len() == 6);
        assert(fields.no_duplicates());
        lemma_field_member(fields, value, 0);
        lemma_field_member(fields, value, 1);
        lemma_field_member(fields, value, 2);
        lemma_field_member(fields, value, 3);
        lemma_field_member(fields, value, 4);
        lemma_field_member(fields, value, 5);
    }

    fn category() -> (c: Category) {
        Category::Responses
    }

    fn required() -> (fields: Vec<Field>) {
        let mut fields: Vec<Field> = Vec::new();
        fields.push(Field::Key);
        fields.push(Field::Name);
        fields.push(Field::Code);
        fields.push(Field::Description);
        proof {
            assert(fields@ =~= Self::required_fields());
        }
        fields
    }

    fn from_row(header: &Vec<String>, row: &Vec<String>) -> (r: Result<Response, Fault>) {
        let entry = Entry::from_row(header, row)?;
        let initial_response = read_tristate_field(header, row, Field::InitialResponse)?;
        Ok(Response { entry, initial_response })
    }

    fn key(&self) -> (key: String) {
        self.entry.key.clone()
    }

    fn duplicate(&self) -> (copy: Response) {
        Response { entry: self.entry.duplicate(), initial_response: self.initial_response }
    }

    fn to_json(&self) -> (json: Json) {
        let mut members = self.entry.to_members();
        let ghost shared = members@;
        proof {
            assert(members_model(shared).len() == entry_fields().len());
            assert(shared.len() == 5);
        }
        members.push(
            (Field::InitialResponse.name().to_owned(), Json::tristate(self.initial_response)),
        );
        proof {
            let target = field_members(
                Self::fields(),
                |field: Field| Self::value_of(self@, field),
            );
            let first = field_members(
                entry_fields(),
                |field: Field| Entry::value(self.entry@, field),
            );
            assert forall|j: int| 0 <= j < members@.len() implies members_model(members@)[j]
                == target[j] by {
                if j < 5 {
                    assert(members@[j] == shared[j]);
                    assert(members_model(shared)[j] == first[j]);
                    assert(Self::fields()[j] == entry_fields()[j]);
                }
            }
            assert(members_model(members@) =~= target);
        }
        Json::object(members)
    }
}

} // verus!
