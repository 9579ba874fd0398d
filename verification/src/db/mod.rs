//! Records stored in the activity database, the database's error type and
//! the list of schema migrations.  Reading and writing the SQLite file is
//! the caller's; these are the values that go in and come out.

pub mod models;
pub mod migrations;

use vstd::prelude::*;

verus! {

/// Errors of the database layer, each with the text of its cause.
#[derive(Debug)]
pub enum DbError {
    Sqlite(String),
    Pool(String),
    Migration(String),
    NotFound(String),
    Serde(String),
}

/// The message of a database error.
pub open spec fn db_error_text(e: DbError) -> Seq<char> {
    match e {
        DbError::Sqlite(m) => "SQLite error: "@ + m@,
        DbError::Pool(m) => "Connection pool error: "@ + m@,
        DbError::Migration(m) => "Migration error: "@ + m@,
        DbError::NotFound(m) => "Not found: "@ + m@,
        DbError::Serde(m) => "Serialization error: "@ + m@,
    }
}

impl DbError {
    /// The error's message.
    pub fn message(&self) -> (s: String)
        ensures
            s@ == db_error_text(*self),
    {
        match self {
            DbError::Sqlite(m) => String::from_str("SQLite error: ").concat(m.as_str()),
            DbError::Pool(m) => String::from_str("Connection pool error: ").concat(m.as_str()),
            DbError::Migration(m) => String::from_str("Migration error: ").concat(m.as_str()),
            DbError::NotFound(m) => String::from_str("Not found: ").concat(m.as_str()),
            DbError::Serde(m) => String::from_str("Serialization error: ").concat(m.as_str()),
        }
    }
}

} // verus!
