use vstd::prelude::*;

verus! {

/// The closed set of errors this library reports.
///
/// `QueryError`: the server rejected a query or the connection dropped mid-query.
/// `ClientEmpty`: an operation that needs a live connection was invoked while
/// the handle was absent.
/// `JSONOpenFileError`: the record-store document was missing or not valid
/// structured data.
/// `DuplicateConnection`: a profile with the requested name already exists.
/// `MatchNotFound`: no stored profile carries the requested name.
#[derive(Debug, Clone, Copy, PartialEq, Eq, Structural)]
pub enum PGError {
    QueryError,
    ClientEmpty,
    JSONOpenFileError,
    DuplicateConnection,
    MatchNotFound,
}

impl PGError {
    /// A human-readable description, for callers that print errors.
    pub fn message(&self) -> (r: String)
        ensures
            r@ == match *self {
                PGError::QueryError => "Issue conversing with the database"@,
                PGError::ClientEmpty => "Client has not been initialized"@,
                PGError::JSONOpenFileError => "Could not open JSON file."@,
                PGError::DuplicateConnection => "Duplicate connection name."@,
                PGError::MatchNotFound => "Match not found"@,
            },
    {
        match *self {
            PGError::QueryError => "Issue conversing with the database".to_owned(),
            PGError::ClientEmpty => "Client has not been initialized".to_owned(),
            PGError::JSONOpenFileError => "Could not open JSON file.".to_owned(),
            PGError::DuplicateConnection => "Duplicate connection name.".to_owned(),
            PGError::MatchNotFound => "Match not found".to_owned(),
        }
    }
}

} // verus!
