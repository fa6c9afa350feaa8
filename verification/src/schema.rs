//! The categories of the protocol and the fields of their records.

use vstd::prelude::*;

verus! {

/// One of the three kinds of protocol entry, each with a table of its own.
#[derive(Clone, Copy, Debug, PartialEq, Eq, Structural)]
pub enum Category {
    Commands,
    Errors,
    Responses,
}

impl Category {
    /// The name of the table that holds this category.
    pub open spec fn table_name_spec(self) -> Seq<char> {
        match self {
            Category::Commands => "commands"@,
            Category::Errors => "error_responses"@,
            Category::Responses => "responses"@,
        }
    }

    /// The name of the table that holds this category.
    pub fn table_name(&self) -> (name: &'static str)
        ensures
            name@ == self.table_name_spec(),
    {
        match self {
            Category::Commands => "commands",
            Category::Errors => "error_responses",
            Category::Responses => "responses",
        }
    }
}

/// A field of a record. Its name is the name of the column that holds it.
#[derive(Clone, Copy, Debug, PartialEq, Eq, Structural)]
pub enum Field {
    Key,
    Name,
    Code,
    Description,
    Implemented,
    UserConfirm,
    SendInput,
    Enabled,
    Temporary,
    InitialResponse,
}

impl Field {
    /// The field's name, as a column heading and as a member of the schema.
    pub open spec fn name_spec(self) -> Seq<char> {
        match self {
            Field::Key => "key"@,
            Field::Name => "name"@,
            Field::Code => "code"@,
            Field::Description => "description"@,
            Field::Implemented => "implemented"@,
            Field::UserConfirm => "user_confirm"@,
            Field::SendInput => "send_input"@,
            Field::Enabled => "enabled"@,
            Field::Temporary => "temporary"@,
            Field::InitialResponse => "initial_response"@,
        }
    }

    /// The field's name, as a column heading and as a member of the schema.
    pub fn name(&self) -> (name: &'static str)
        ensures
            name@ == self.name_spec(),
    {
        match self {
            Field::Key => "key",
            Field::Name => "name",
            Field::Code => "code",
            Field::Description => "description",
            Field::Implemented => "implemented",
            Field::UserConfirm => "user_confirm",
            Field::SendInput => "send_input",
            Field::Enabled => "enabled",
            Field::Temporary => "temporary",
            Field::InitialResponse => "initial_response",
        }
    }
}

/// Different fields have different names.
pub proof fn lemma_field_names_differ(a: Field, b: Field)
    requires
        a != b,
    ensures
        a.name_spec() != b.name_spec(),
{
    reveal_strlit("key");
    reveal_strlit("name");
    reveal_strlit("code");
    reveal_strlit("description");
    reveal_strlit("implemented");
    reveal_strlit("user_confirm");
    reveal_strlit("send_input");
    reveal_strlit("enabled");
    reveal_strlit("temporary");
    reveal_strlit("initial_response");
    assert("key"@.len() == 3);
    assert("name"@.len() == 4 && "name"@[0] == 'n');
    assert("code"@.len() == 4 && "code"@[0] == 'c');
    assert("description"@.len() == 11 && "description"@[0] == 'd');
    assert("implemented"@.len() == 11 && "implemented"@[0] == 'i');
    assert("user_confirm"@.len() == 12);
    assert("send_input"@.len() == 10);
    assert("enabled"@.len() == 7);
    assert("temporary"@.len() == 9);
    assert("initial_response"@.len() == 16);
}

} // verus!
