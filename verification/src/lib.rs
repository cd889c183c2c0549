//! An interactive Postgres client's core: one session around an
//! optional live connection with a fixed set of diagnostic queries, and
//! a record store of named, password-free connection profiles kept in a
//! single JSON document. Session state handling, the store's
//! uniqueness and lookup rules, and the document's exact serialized
//! form are verified; the database driver and the JSON reader are
//! called through a narrow trusted boundary.

pub mod codec;
pub mod errors;
pub mod pg;
pub mod portnum;
pub mod session;
pub mod store;

pub use errors::PGError;
pub use session::Connection;
pub use store::{Profile, Store};
