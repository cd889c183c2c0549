use std::io::Write;
use vstd::prelude::*;

verus! {

#[verifier::external_type_specification]
#[verifier::external_body]
pub struct ExPgClient(postgres::Client);

#[verifier::external_type_specification]
#[verifier::external_body]
pub struct ExPgRow(postgres::row::Row);

#[verifier::external_type_specification]
#[verifier::external_body]
pub struct ExPgError(postgres::error::Error);

/// Relies on postgres::Client::connect without TLS: `Some` holds a live
/// client for the server that `params` describes, `None` records a
/// failed attempt, whose cause is written to standard error as the
/// interactive tool always reported it.
#[verifier::external_body]
pub(crate) fn pg_connect(params: &str) -> (r: Option<postgres::Client>) {
    match postgres::Client::connect(params, postgres::NoTls) {
        Ok(c) => Some(c),
        Err(e) => {
            let _ = writeln!(std::io::stderr(), "Connection Error: {}", e);
            None
        },
    }
}

/// Relies on postgres::Client::query with no statement parameters: every
/// row the statement produced, or the error the server or the transport
/// reported.
#[verifier::external_body]
pub(crate) fn pg_query(client: &mut Option<postgres::Client>, statement: &str) -> (r: Result<
    Vec<postgres::row::Row>,
    postgres::error::Error,
>)
    requires
        (*old(client)) is Some,
    ensures
        (*final(client)) is Some,
{
    client.as_mut().unwrap().query(statement, &[])
}

/// Relies on postgres::Client::query_one with no statement parameters:
/// the single row the statement produced, or an error when it failed or
/// produced any other number of rows.
#[verifier::external_body]
pub(crate) fn pg_query_one(client: &mut Option<postgres::Client>, statement: &str) -> (r: Result<
    postgres::row::Row,
    postgres::error::Error,
>)
    requires
        (*old(client)) is Some,
    ensures
        (*final(client)) is Some,
{
    client.as_mut().unwrap().query_one(statement, &[])
}

/// Relies on postgres::Client::is_valid: true exactly when a no-op
/// query made it to the server and back within the given number of
/// seconds.
#[verifier::external_body]
pub(crate) fn pg_is_valid(client: &mut Option<postgres::Client>, timeout_secs: u64) -> (r: bool)
    requires
        (*old(client)) is Some,
    ensures
        (*final(client)) is Some,
{
    client.as_mut().unwrap().is_valid(std::time::Duration::new(timeout_secs, 0)).is_ok()
}

} // verus!
