//! Compiles the tables that describe a wire protocol (its commands, its
//! error responses and its responses) into one schema document.
//!
//! A table is split into cells ([`table`]), its rows are read as records of
//! one category ([`loader`], [`entry`]), the records of each category are
//! kept in order and by key ([`keyed`], [`section`]), and the three
//! categories together make the document ([`protocol`]), which is written
//! out as JSON ([`json`]) and can be read back ([`decode`]).

pub mod decode;
pub mod entry;
pub mod error;
pub mod fields;
pub mod json;
pub mod keyed;
pub mod loader;
pub mod protocol;
pub mod schema;
pub mod section;
pub mod table;
pub mod text;

pub use entry::{Command, Entry, ErrorResponse, ProtocolEntry, Response};
pub use error::{Fault, LoadError, SerializationError};
pub use json::Json;
pub use keyed::index_by_key;
pub use loader::{from_csv, from_table};
pub use protocol::RyderProtocol;
pub use schema::{Category, Field};
pub use section::Section;
pub use table::Table;
