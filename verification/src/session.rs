use std::io::Write;
use vstd::prelude::*;
use vstd::string::StringExecFns;

verus! {

use crate::codec::{parse_store, spec_parse_store, store_json, store_to_json};
use crate::errors::PGError;
use crate::pg::{pg_connect, pg_is_valid, pg_query, pg_query_one};
use crate::portnum::{decimal_string, parse_port, spec_decimal, spec_effective_port};
use crate::store::{contains_name, lookup, Profile, ProfileView};

/// Mathematical image of a session: whether a live handle is present,
/// and the five connection parameters.
pub ghost struct ConnectionView {
    pub connected: bool,
    pub host: Seq<char>,
    pub dbname: Seq<char>,
    pub user: Seq<char>,
    pub port: Seq<char>,
    pub password: Seq<char>,
}

/// One session with a database server: the parameters used to reach it
/// and, when the last attempt succeeded, the live client handle. The
/// handle may always be absent; every operation that needs it says so
/// explicitly when it is.
pub struct Connection {
    pub(crate) client: Option<postgres::Client>,
    pub host: String,
    pub dbname: String,
    pub user: String,
    pub port: String,
    pub password: String,
}

impl View for Connection {
    type V = ConnectionView;

    closed spec fn view(&self) -> ConnectionView {
        ConnectionView {
            connected: self.client is Some,
            host: self.host@,
            dbname: self.dbname@,
            user: self.user@,
            port: self.port@,
            password: self.password@,
        }
    }
}

impl Default for Connection {
    /// A session with empty parameters and no handle.
    fn default() -> (r: Connection)
        ensures
            !r@.connected,
            r@.host == Seq::<char>::empty(),
            r@.dbname == Seq::<char>::empty(),
            r@.user == Seq::<char>::empty(),
            r@.port == Seq::<char>::empty(),
            r@.password == Seq::<char>::empty(),
    {
        Connection {
            client: None,
            host: String::new(),
            dbname: String::new(),
            user: String::new(),
            port: String::new(),
            password: String::new(),
        }
    }
}

/// The target description a fresh session connects with: the stored
/// parameters, with the port already read and defaulted.
pub open spec fn new_conn_string(
    host: Seq<char>,
    dbname: Seq<char>,
    port_num: u16,
    user: Seq<char>,
    password: Seq<char>,
) -> Seq<char> {
    "host="@ + host + " dbname="@ + dbname + " port="@ + spec_decimal(port_num as int) + " user="@
        + user + " password="@ + password
}

/// The target description a reconnect uses: the parameters as they
/// stand, with the port read and defaulted anew.
pub open spec fn reconnect_string(v: ConnectionView) -> Seq<char> {
    "user="@ + v.user + " host="@ + v.host + " dbname="@ + v.dbname + " password="@ + v.password
        + " port="@ + spec_decimal(spec_effective_port(v.port) as int)
}

/// Relies on std's standard error stream: prints the warning the tool
/// shows when a port string cannot be read and the default is used.
#[verifier::external_body]
fn warn_port_default(port: &str) {
    let _ = writeln!(std::io::stderr(), "Could not parse port '{}'. Using default 5432", port);
}

/// The port a connection attempt uses, with the warning printed when a
/// non-empty string denotes no port and the default is taken.
fn port_with_warning(port: &str) -> (r: u16)
    ensures
        r == spec_effective_port(port@),
{
    match parse_port(port) {
        Some(n) => n,
        None => {
            if !port.is_empty() {
                warn_port_default(port);
            }
            5432
        },
    }
}

fn build_new_conn_string(
    host: &String,
    dbname: &String,
    port_num: u16,
    user: &String,
    password: &String,
) -> (r: String)
    ensures
        r@ == new_conn_string(host@, dbname@, port_num, user@, password@),
{
    let mut s = String::from_str("host=");
    s.append(host.as_str());
    s.append(" dbname=");
    s.append(dbname.as_str());
    s.append(" port=");
    let port_text = decimal_string(port_num);
    s.append(port_text.as_str());
    s.append(" user=");
    s.append(user.as_str());
    s.append(" password=");
    s.append(password.as_str());
    proof {
        assert(s@ =~= new_conn_string(host@, dbname@, port_num, user@, password@));
    }
    s
}

fn build_reconnect_string(c: &Connection) -> (r: String)
    ensures
        r@ == reconnect_string(c@),
{
    let mut s = String::from_str("user=");
    s.append(c.user.as_str());
    s.append(" host=");
    s.append(c.host.as_str());
    s.append(" dbname=");
    s.append(c.dbname.as_str());
    s.append(" password=");
    s.append(c.password.as_str());
    s.append(" port=");
    let port_num: u16 = port_with_warning(c.port.as_str());
    let port_text = decimal_string(port_num);
    s.append(port_text.as_str());
    proof {
        assert(s@ =~= reconnect_string(c@));
    }
    s
}

impl Connection {
    /// Builds a session from startup parameters and attempts to connect
    /// once, with the port defaulted when the string denotes none. A
    /// failed attempt leaves the handle absent; it is never a fault.
    pub fn new(host: String, dbname: String, uname: String, port: String, pword: String) -> (r:
        Connection)
        ensures
            r@.host == host@,
            r@.dbname == dbname@,
            r@.user == uname@,
            r@.port == port@,
            r@.password == pword@,
    {
        let port_num: u16 = port_with_warning(port.as_str());
        let conn_str = build_new_conn_string(&host, &dbname, port_num, &uname, &pword);
        let client = pg_connect(conn_str.as_str());
        Connection { client, host, dbname, user: uname, port, password: pword }
    }

    /// Records the outcome of a connection attempt: the handle is
    /// present afterwards exactly when the attempt handed one back, and
    /// the parameters are untouched.
    pub fn install_handle(&mut self, handle: Option<postgres::Client>)
        ensures
            final(self)@.connected == (handle is Some),
            final(self)@.host == old(self)@.host,
            final(self)@.dbname == old(self)@.dbname,
            final(self)@.user == old(self)@.user,
            final(self)@.port == old(self)@.port,
            final(self)@.password == old(self)@.password,
    {
        self.client = handle;
    }

    /// Attempts to establish a connection from the parameters as they
    /// stand. The parameters are untouched; afterwards the handle is
    /// present exactly when the attempt succeeded.
    pub fn connect(&mut self)
        ensures
            final(self)@.host == old(self)@.host,
            final(self)@.dbname == old(self)@.dbname,
            final(self)@.user == old(self)@.user,
            final(self)@.port == old(self)@.port,
            final(self)@.password == old(self)@.password,
    {
        let conn_str = build_reconnect_string(self);
        let handle = pg_connect(conn_str.as_str());
        self.install_handle(handle);
    }

    /// Whether the session currently holds a handle.
    pub fn is_connected(&self) -> (r: bool)
        ensures
            r == self@.connected,
    {
        self.client.is_some()
    }

    /// Advisory ping: true only when a live handle answered a no-op
    /// query within the timeout. Never touches the server when the
    /// handle is absent, and never changes the session.
    pub fn check_status(&mut self, timeout_secs: u64) -> (r: bool)
        ensures
            final(self)@ == old(self)@,
            !old(self)@.connected ==> !r,
    {
        if self.client.is_some() {
            pg_is_valid(&mut self.client, timeout_secs)
        } else {
            false
        }
    }

    /// The server's version row. Without a handle this fails at once
    /// with `ClientEmpty`; with one, it hands back the row or
    /// `QueryError` when the server did not answer it.
    pub fn version(&mut self) -> (r: Result<postgres::row::Row, PGError>)
        ensures
            final(self)@ == old(self)@,
            r is Err && r->Err_0 == PGError::ClientEmpty <==> !old(self)@.connected,
            old(self)@.connected ==> r is Ok || r == Err::<postgres::row::Row, PGError>(
                PGError::QueryError,
            ),
    {
        if self.client.is_some() {
            match pg_query_one(&mut self.client, "SELECT version()") {
                Ok(row) => Ok(row),
                Err(_) => Err(PGError::QueryError),
            }
        } else {
            Err(PGError::ClientEmpty)
        }
    }

    /// The row computing the elapsed time since server start, truncated
    /// to whole seconds. Failure policy as for `version`.
    pub fn get_uptime(&mut self) -> (r: Result<Vec<postgres::row::Row>, PGError>)
        ensures
            final(self)@ == old(self)@,
            r is Err && r->Err_0 == PGError::ClientEmpty <==> !old(self)@.connected,
            old(self)@.connected ==> r is Ok || r == Err::<Vec<postgres::row::Row>, PGError>(
                PGError::QueryError,
            ),
    {
        if self.client.is_some() {
            match pg_query(
                &mut self.client,
                "SELECT date_trunc('second', current_timestamp - pg_postmaster_start_time()) as uptime;",
            ) {
                Ok(rows) => Ok(rows),
                Err(_) => Err(PGError::QueryError),
            }
        } else {
            Err(PGError::ClientEmpty)
        }
    }

    /// The installed extensions whose installed version differs from
    /// their default version. Failure policy as for `version`.
    pub fn get_extensions(&mut self) -> (r: Result<Vec<postgres::row::Row>, PGError>)
        ensures
            final(self)@ == old(self)@,
            r is Err && r->Err_0 == PGError::ClientEmpty <==> !old(self)@.connected,
            old(self)@.connected ==> r is Ok || r == Err::<Vec<postgres::row::Row>, PGError>(
                PGError::QueryError,
            ),
    {
        if self.client.is_some() {
            match pg_query(
                &mut self.client,
                "SELECT current_database() AS db, name, installed_version, default_version FROM pg_available_extensions WHERE installed_version IS NOT NULL AND default_version IS NOT NULL AND installed_version != default_version",
            ) {
                Ok(rows) => Ok(rows),
                Err(_) => Err(PGError::QueryError),
            }
        } else {
            Err(PGError::ClientEmpty)
        }
    }

    /// The names of the tables in the public schema. Failure policy as
    /// for `version`.
    pub fn get_all_public_tables(&mut self) -> (r: Result<Vec<postgres::row::Row>, PGError>)
        ensures
            final(self)@ == old(self)@,
            r is Err && r->Err_0 == PGError::ClientEmpty <==> !old(self)@.connected,
            old(self)@.connected ==> r is Ok || r == Err::<Vec<postgres::row::Row>, PGError>(
                PGError::QueryError,
            ),
    {
        if self.client.is_some() {
            match pg_query(
                &mut self.client,
                "select table_name from information_schema.tables where table_schema='public';",
            ) {
                Ok(rows) => Ok(rows),
                Err(_) => Err(PGError::QueryError),
            }
        } else {
            Err(PGError::ClientEmpty)
        }
    }

    /// Runs a caller-supplied statement. The resulting rows may hold
    /// values of any shape; the caller must cope with them. Failure
    /// policy as for `version`.
    pub fn custom_query(&mut self, query: String) -> (r: Result<Vec<postgres::row::Row>, PGError>)
        ensures
            final(self)@ == old(self)@,
            r is Err && r->Err_0 == PGError::ClientEmpty <==> !old(self)@.connected,
            old(self)@.connected ==> r is Ok || r == Err::<Vec<postgres::row::Row>, PGError>(
                PGError::QueryError,
            ),
    {
        if self.client.is_some() {
            match pg_query(&mut self.client, query.as_str()) {
                Ok(rows) => Ok(rows),
                Err(_) => Err(PGError::QueryError),
            }
        } else {
            Err(PGError::ClientEmpty)
        }
    }

    /// Serializes this session's parameters, without the password, as a
    /// profile named `connection_name` appended to the record document
    /// `stored`. The duplicate check runs before anything is built: a
    /// name already present is rejected, and a document that cannot be
    /// read leaves nothing to append to. On success the whole
    /// replacement document is handed back, so the caller persists
    /// either the old document or the new one, never a mix.
    pub fn write_to_json(&self, connection_name: String, stored: &str) -> (r: Result<
        String,
        PGError,
    >)
        ensures
            r is Ok <==> (spec_parse_store(stored@) matches Some(doc) && !contains_name(
                doc,
                connection_name@,
            )),
            r matches Ok(text) ==> (spec_parse_store(stored@) matches Some(doc) && text@
                == store_json(
                doc.push(
                    ProfileView {
                        name: connection_name@,
                        host: self@.host,
                        port: self@.port,
                        user: self@.user,
                        dbname: self@.dbname,
                    },
                ),
            )),
            r matches Err(e) ==> ((e == PGError::JSONOpenFileError <==> spec_parse_store(stored@)
                is None) && (e == PGError::DuplicateConnection <==> (spec_parse_store(stored@)
                matches Some(doc) && contains_name(doc, connection_name@)))),
    {
        let mut store = match parse_store(stored) {
            Ok(s) => s,
            Err(_) => {
                return Err(PGError::JSONOpenFileError);
            },
        };
        let profile = Profile::new(
            connection_name,
            self.host.clone(),
            self.port.clone(),
            self.user.clone(),
            self.dbname.clone(),
        );
        match store.save_profile(profile) {
            Ok(_) => {},
            Err(_) => {
                return Err(PGError::DuplicateConnection);
            },
        }
        Ok(store_to_json(&store))
    }

    /// Reads the record document `stored`, scans it for the profile
    /// named `connection_name`, and loads that profile's parameters
    /// into this session together with the password the caller supplied
    /// — the store never holds one. The returned session carries the
    /// same parameters and no handle; connecting is a separate step. On
    /// any failure this session is untouched.
    pub fn read_from_json(&mut self, connection_name: String, password: String, stored: &str) -> (r:
        Result<Connection, PGError>)
        ensures
            r is Ok <==> (spec_parse_store(stored@) matches Some(doc) && contains_name(
                doc,
                connection_name@,
            )),
            r matches Ok(c) ==> (spec_parse_store(stored@) matches Some(doc) && lookup(
                doc,
                connection_name@,
            ) matches Some(p) && !c@.connected && c@.host == p.host && c@.port == p.port && c@.user
                == p.user && c@.dbname == p.dbname && c@.password == password@ && final(self)@
                == (ConnectionView {
                connected: old(self)@.connected,
                host: p.host,
                dbname: p.dbname,
                user: p.user,
                port: p.port,
                password: password@,
            })),
            r matches Err(e) ==> final(self)@ == old(self)@ && (e == PGError::JSONOpenFileError
                <==> spec_parse_store(stored@) is None) && (e == PGError::MatchNotFound <==> (
            spec_parse_store(stored@) matches Some(doc) && !contains_name(doc, connection_name@))),
    {
        let store = match parse_store(stored) {
            Ok(s) => s,
            Err(_) => {
                return Err(PGError::JSONOpenFileError);
            },
        };
        let found = match store.find(&connection_name) {
            Ok(p) => p,
            Err(_) => {
                return Err(PGError::MatchNotFound);
            },
        };
        self.host = found.host.clone();
        self.dbname = found.dbname.clone();
        self.user = found.user.clone();
        self.port = found.port.clone();
        self.password = password.clone();
        Ok(
            Connection {
                client: None,
                host: found.host,
                dbname: found.dbname,
                user: found.user,
                port: found.port,
                password,
            },
        )
    }
}

} // verus!
