use psql_stats::portnum::{decimal_string, effective_port};
use psql_stats::{Connection, PGError};

const EXAMPLE_DOC: &str = "{\"connections\":[{\"connection_name\":\"prod\",\"host\":\"db1\",\"port\":\"5432\",\"user\":\"alice\",\"dbname\":\"app\"}]}";

#[test]
fn operations_without_handle_fail_with_client_empty() {
    let mut c = Connection::default();
    assert!(!c.is_connected());
    assert!(matches!(c.version(), Err(PGError::ClientEmpty)));
    assert!(matches!(c.get_uptime(), Err(PGError::ClientEmpty)));
    assert!(matches!(c.get_extensions(), Err(PGError::ClientEmpty)));
    assert!(matches!(
        c.get_all_public_tables(),
        Err(PGError::ClientEmpty)
    ));
    assert!(matches!(
        c.custom_query("SELECT 1".to_string()),
        Err(PGError::ClientEmpty)
    ));
}

#[test]
fn status_check_without_handle_is_not_connected() {
    let mut c = Connection::default();
    assert!(!c.check_status(1));
}

#[test]
fn install_absent_handle_leaves_session_disconnected() {
    let mut c = Connection::default();
    c.install_handle(None);
    assert!(!c.is_connected());
}

#[test]
fn unreachable_host_leaves_handle_absent() {
    let c = Connection::new(
        "127.0.0.1".to_string(),
        "db".to_string(),
        "u".to_string(),
        "1".to_string(),
        "pw".to_string(),
    );
    assert!(!c.is_connected());
    assert_eq!(c.host, "127.0.0.1");
    assert_eq!(c.port, "1");
}

#[test]
fn reconnect_failure_keeps_parameters() {
    let mut c = Connection::default();
    c.host = "127.0.0.1".to_string();
    c.dbname = "db".to_string();
    c.user = "u".to_string();
    c.port = "1".to_string();
    c.password = "pw".to_string();
    c.connect();
    assert!(!c.is_connected());
    assert_eq!(c.host, "127.0.0.1");
    assert_eq!(c.dbname, "db");
    assert_eq!(c.user, "u");
    assert_eq!(c.port, "1");
    assert_eq!(c.password, "pw");
}

#[test]
fn write_to_json_appends_profile() {
    let mut c = Connection::default();
    c.host = "db2".to_string();
    c.port = "5433".to_string();
    c.user = "bob".to_string();
    c.dbname = "billing".to_string();
    c.password = "never stored".to_string();
    let text = c.write_to_json("staging".to_string(), EXAMPLE_DOC).unwrap();
    assert!(!text.contains("never stored"));
    let store = psql_stats::codec::parse_store(&text).unwrap();
    assert_eq!(store.len(), 2);
    let staged = store.find(&"staging".to_string()).unwrap();
    assert_eq!(staged.host, "db2");
    assert_eq!(staged.port, "5433");
    assert_eq!(staged.user, "bob");
    assert_eq!(staged.dbname, "billing");
}

#[test]
fn write_to_json_rejects_duplicate_name() {
    let mut c = Connection::default();
    c.host = "db2".to_string();
    let r = c.write_to_json("prod".to_string(), EXAMPLE_DOC);
    assert!(matches!(r, Err(PGError::DuplicateConnection)));
}

#[test]
fn write_to_json_needs_readable_store() {
    let c = Connection::default();
    let r = c.write_to_json("prod".to_string(), "no store here");
    assert!(matches!(r, Err(PGError::JSONOpenFileError)));
}

#[test]
fn read_from_json_loads_profile_and_merges_password() {
    let mut c = Connection::default();
    let loaded = c
        .read_from_json("prod".to_string(), "secret".to_string(), EXAMPLE_DOC)
        .unwrap();
    assert_eq!(loaded.host, "db1");
    assert_eq!(loaded.port, "5432");
    assert_eq!(loaded.user, "alice");
    assert_eq!(loaded.dbname, "app");
    assert_eq!(loaded.password, "secret");
    assert!(!loaded.is_connected());
    assert_eq!(c.host, "db1");
    assert_eq!(c.password, "secret");
}

#[test]
fn read_from_json_absent_name_leaves_session_unchanged() {
    let mut c = Connection::default();
    c.host = "kept".to_string();
    c.user = "kept_user".to_string();
    let r = c.read_from_json("staging".to_string(), "pw".to_string(), EXAMPLE_DOC);
    assert!(matches!(r, Err(PGError::MatchNotFound)));
    assert_eq!(c.host, "kept");
    assert_eq!(c.user, "kept_user");
    assert_eq!(c.password, "");
}

#[test]
fn read_from_json_unreadable_store() {
    let mut c = Connection::default();
    let r = c.read_from_json("prod".to_string(), "pw".to_string(), "{broken");
    assert!(matches!(r, Err(PGError::JSONOpenFileError)));
}

#[test]
fn effective_port_parses_and_defaults() {
    assert_eq!(effective_port(""), 5432);
    assert_eq!(effective_port("5433"), 5433);
    assert_eq!(effective_port("abc"), 5432);
    assert_eq!(effective_port("70000"), 5432);
    assert_eq!(effective_port("999999999999999999"), 5432);
    assert_eq!(effective_port("+123"), 123);
    assert_eq!(effective_port("+"), 5432);
    assert_eq!(effective_port("65535"), 65535);
    assert_eq!(effective_port("0"), 0);
    assert_eq!(effective_port("12a"), 5432);
}

#[test]
fn decimal_string_writes_numbers() {
    assert_eq!(decimal_string(0), "0");
    assert_eq!(decimal_string(7), "7");
    assert_eq!(decimal_string(5432), "5432");
    assert_eq!(decimal_string(65535), "65535");
}
