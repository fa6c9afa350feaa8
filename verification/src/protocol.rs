//! The whole protocol: its three categories in one document.

use crate::entry::{
    Command, CommandModel, ErrorResponse, ErrorResponseModel, Response, ResponseModel,
};
use crate::error::{LoadError, SerializationError};
use crate::json::{members_model, pretty_text, Json, JsonModel};
use crate::loader::{from_csv, from_table, load, load_source, records_model};
use crate::section::{list_json, map_json, Section};
use crate::table::{csv_table, Table};
use vstd::prelude::*;

verus! {

/// The protocol document: the commands, the error responses and the
/// responses, each as a section of its own.
pub struct RyderProtocol {
    pub commands: Section<Command>,
    pub errors: Section<ErrorResponse>,
    pub responses: Section<Response>,
}

/// The protocol as plain values: the records of each category in order.
/// The maps are not stored: each is `keyed` of its list.
pub ghost struct ProtocolModel {
    pub commands: Seq<CommandModel>,
    pub errors: Seq<ErrorResponseModel>,
    pub responses: Seq<ResponseModel>,
}

impl View for RyderProtocol {
    type V = ProtocolModel;

    open spec fn view(&self) -> ProtocolModel {
        ProtocolModel {
            commands: self.commands@,
            errors: self.errors@,
            responses: self.responses@,
        }
    }
}

/// The document that three loads give: the first load to fail, in the order
/// commands, error responses, responses, fails the assembly with its error;
/// no category looks at another.
pub open spec fn assemble(
    commands: Result<Seq<CommandModel>, LoadError>,
    errors: Result<Seq<ErrorResponseModel>, LoadError>,
    responses: Result<Seq<ResponseModel>, LoadError>,
) -> Result<ProtocolModel, LoadError> {
    match commands {
        Err(e) => Err(e),
        Ok(commands) => match errors {
            Err(e) => Err(e),
            Ok(errors) => match responses {
                Err(e) => Err(e),
                Ok(responses) => Ok(ProtocolModel { commands, errors, responses }),
            },
        },
    }
}

/// The names of the six members of the schema, in their order: for each
/// category its map and then its list.
pub open spec fn member_names() -> Seq<Seq<char>> {
    seq![
        "commands"@,
        "commands_list"@,
        "errors"@,
        "errors_list"@,
        "responses"@,
        "responses_list"@,
    ]
}

/// The schema of a protocol: one object that holds, for each category, the
/// map from keys to records and the list of records.
pub open spec fn schema_json(protocol: ProtocolModel) -> JsonModel {
    JsonModel::Object(
        seq![
            (member_names()[0], map_json::<Command>(protocol.commands)),
            (member_names()[1], list_json::<Command>(protocol.commands)),
            (member_names()[2], map_json::<ErrorResponse>(protocol.errors)),
            (member_names()[3], list_json::<ErrorResponse>(protocol.errors)),
            (member_names()[4], map_json::<Response>(protocol.responses)),
            (member_names()[5], list_json::<Response>(protocol.responses)),
        ],
    )
}

/// The outcome of an assembly as plain values.
pub open spec fn outcome_model(outcome: Result<RyderProtocol, LoadError>) -> Result<
    ProtocolModel,
    LoadError,
> {
    match outcome {
        Ok(protocol) => Ok(protocol@),
        Err(e) => Err(e),
    }
}

impl RyderProtocol {
    /// The document of the given records.
    pub fn new(commands: Vec<Command>, errors: Vec<ErrorResponse>, responses: Vec<Response>) -> (protocol:
        RyderProtocol)
        ensures
            protocol@ == (ProtocolModel {
                commands: records_model(commands@),
                errors: records_model(errors@),
                responses: records_model(responses@),
            }),
    {
        RyderProtocol {
            commands: Section::new(commands),
            errors: Section::new(errors),
            responses: Section::new(responses),
        }
    }

    /// Loads the three tables and assembles the document. The tables are
    /// loaded in the order commands, error responses, responses, and the
    /// first that fails gives the error.
    pub fn from_tables(commands: &Table, errors: &Table, responses: &Table) -> (r: Result<
        RyderProtocol,
        LoadError,
    >)
        ensures
            outcome_model(r) == assemble(
                load::<Command>(commands@),
                load::<ErrorResponse>(errors@),
                load::<Response>(responses@),
            ),
    {
        let commands = match from_table::<Command>(commands) {
            Ok(records) => records,
            Err(e) => {
                return Err(e);
            },
        };
        let errors = match from_table::<ErrorResponse>(errors) {
            Ok(records) => records,
            Err(e) => {
                return Err(e);
            },
        };
        let responses = match from_table::<Response>(responses) {
            Ok(records) => records,
            Err(e) => {
                return Err(e);
            },
        };
        Ok(RyderProtocol::new(commands, errors, responses))
    }

    /// Loads the three tables from their texts and assembles the document.
    pub fn from_sources(commands: &[u8], errors: &[u8], responses: &[u8]) -> (r: Result<
        RyderProtocol,
        LoadError,
    >)
        ensures
            outcome_model(r) == assemble(
                load_source::<Command>(csv_table(commands@)),
                load_source::<ErrorResponse>(csv_table(errors@)),
                load_source::<Response>(csv_table(responses@)),
            ),
    {
        let commands = match from_csv::<Command>(commands) {
            Ok(records) => records,
            Err(e) => {
                return Err(e);
            },
        };
        let errors = match from_csv::<ErrorResponse>(errors) {
            Ok(records) => records,
            Err(e) => {
                return Err(e);
            },
        };
        let responses = match from_csv::<Response>(responses) {
            Ok(records) => records,
            Err(e) => {
                return Err(e);
            },
        };
        Ok(RyderProtocol::new(commands, errors, responses))
    }

    /// The schema as a JSON value.
    pub fn to_json(&self) -> (json: Json)
        ensures
            json@ == schema_json(self@),
    {
        let mut members: Vec<(String, Json)> = Vec::new();
        members.push(("commands".to_owned(), self.commands.map_to_json()));
        members.push(("commands_list".to_owned(), self.commands.list_to_json()));
        members.push(("errors".to_owned(), self.errors.map_to_json()));
        members.push(("errors_list".to_owned(), self.errors.list_to_json()));
        members.push(("responses".to_owned(), self.responses.map_to_json()));
        members.push(("responses_list".to_owned(), self.responses.list_to_json()));
        proof {
            assert(members_model(members@) =~= schema_json(self@)->Object_0);
        }
        Json::object(members)
    }

    /// The schema as indented JSON text.
    pub fn to_json_text(&self) -> (r: Result<String, SerializationError>)
        ensures
            match r {
                Ok(text) => pretty_text(schema_json(self@)) == Some(text@),
                Err(_) => pretty_text(schema_json(self@)) is None,
            },
    {
        self.to_json().to_pretty_text()
    }
}

/// Assembling twice from the same loads gives the same document, or the
/// same error, both times, and so the same schema: the outcome of an
/// assembly is a function of what was loaded, and what is loaded is a
/// function of the source.
pub proof fn lemma_assembly_repeats(
    first: Result<RyderProtocol, LoadError>,
    second: Result<RyderProtocol, LoadError>,
    commands: Result<Seq<CommandModel>, LoadError>,
    errors: Result<Seq<ErrorResponseModel>, LoadError>,
    responses: Result<Seq<ResponseModel>, LoadError>,
)
    requires
        outcome_model(first) == assemble(commands, errors, responses),
        outcome_model(second) == assemble(commands, errors, responses),
    ensures
        outcome_model(first) == outcome_model(second),
        first matches Ok(one) ==> second matches Ok(other) && one@ == other@ && schema_json(one@)
            == schema_json(other@),
{
}

} // verus!
