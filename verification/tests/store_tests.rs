use psql_stats::codec::{parse_store, store_to_json};
use psql_stats::{PGError, Profile, Store};

fn prod_profile() -> Profile {
    Profile::new(
        "prod".to_string(),
        "db1".to_string(),
        "5432".to_string(),
        "alice".to_string(),
        "app".to_string(),
    )
}

const EXAMPLE_DOC: &str = "{\"connections\":[{\"connection_name\":\"prod\",\"host\":\"db1\",\"port\":\"5432\",\"user\":\"alice\",\"dbname\":\"app\"}]}";

#[test]
fn save_then_load_round_trip() {
    let mut store = Store::empty();
    assert!(store.save_profile(prod_profile()).is_ok());
    let loaded = store.find(&"prod".to_string()).unwrap();
    assert_eq!(loaded.name, "prod");
    assert_eq!(loaded.host, "db1");
    assert_eq!(loaded.port, "5432");
    assert_eq!(loaded.user, "alice");
    assert_eq!(loaded.dbname, "app");
}

#[test]
fn duplicate_save_rejected_and_store_unchanged() {
    let mut store = Store::empty();
    assert!(store.save_profile(prod_profile()).is_ok());
    assert_eq!(store.len(), 1);
    let second = Profile::new(
        "prod".to_string(),
        "other".to_string(),
        "1".to_string(),
        "bob".to_string(),
        "x".to_string(),
    );
    assert_eq!(store.save_profile(second), Err(PGError::DuplicateConnection));
    assert_eq!(store.len(), 1);
    assert_eq!(store.get(0).host, "db1");
}

#[test]
fn find_absent_name_not_found() {
    let mut store = Store::empty();
    assert!(store.save_profile(prod_profile()).is_ok());
    let missing = store.find(&"staging".to_string());
    assert!(matches!(missing, Err(PGError::MatchNotFound)));
}

#[test]
fn find_returns_first_match_in_order() {
    let mut store = Store::empty();
    assert!(store.save_profile(prod_profile()).is_ok());
    let other = Profile::new(
        "spare".to_string(),
        "db9".to_string(),
        "5000".to_string(),
        "carol".to_string(),
        "warehouse".to_string(),
    );
    assert!(store.save_profile(other).is_ok());
    assert_eq!(store.len(), 2);
    let found = store.find(&"spare".to_string()).unwrap();
    assert_eq!(found.host, "db9");
}

#[test]
fn parse_example_store_and_look_up() {
    let store = parse_store(EXAMPLE_DOC).unwrap();
    assert_eq!(store.len(), 1);
    let prod = store.find(&"prod".to_string()).unwrap();
    assert_eq!(prod.host, "db1");
    assert_eq!(prod.port, "5432");
    assert_eq!(prod.user, "alice");
    assert_eq!(prod.dbname, "app");
    assert!(matches!(
        store.find(&"staging".to_string()),
        Err(PGError::MatchNotFound)
    ));
}

#[test]
fn serialize_store_exact_document() {
    let mut store = Store::empty();
    assert!(store.save_profile(prod_profile()).is_ok());
    assert_eq!(store_to_json(&store), EXAMPLE_DOC);
}

#[test]
fn serialize_empty_store() {
    let store = Store::empty();
    assert_eq!(store_to_json(&store), "{\"connections\":[]}");
}

#[test]
fn serialize_escapes_and_round_trips() {
    let mut store = Store::empty();
    let tricky = Profile::new(
        "a\"b".to_string(),
        "h\\h".to_string(),
        "5432".to_string(),
        "line\nbreak".to_string(),
        "ctl\u{1}end".to_string(),
    );
    assert!(store.save_profile(tricky).is_ok());
    let text = store_to_json(&store);
    assert!(text.contains("a\\\"b"));
    assert!(text.contains("line\\nbreak"));
    assert!(text.contains("ctl\\u0001end"));
    let back = parse_store(&text).unwrap();
    let found = back.find(&"a\"b".to_string()).unwrap();
    assert_eq!(found.host, "h\\h");
    assert_eq!(found.user, "line\nbreak");
    assert_eq!(found.dbname, "ctl\u{1}end");
}

#[test]
fn parse_rejects_unreadable_documents() {
    assert!(matches!(
        parse_store("not json at all"),
        Err(PGError::JSONOpenFileError)
    ));
    assert!(matches!(
        parse_store("[1,2,3]"),
        Err(PGError::JSONOpenFileError)
    ));
    assert!(matches!(
        parse_store("{\"connections\":7}"),
        Err(PGError::JSONOpenFileError)
    ));
    assert!(matches!(
        parse_store("{\"connections\":[{\"connection_name\":\"p\"}]}"),
        Err(PGError::JSONOpenFileError)
    ));
}

#[test]
fn parse_empty_connections_array() {
    let store = parse_store("{\"connections\":[]}").unwrap();
    assert_eq!(store.len(), 0);
}

#[test]
fn parse_accepts_whitespace_between_tokens() {
    let store = parse_store(" { \"connections\" : [ ] } \n").unwrap();
    assert_eq!(store.len(), 0);
    let spaced = "{\n  \"connections\": [\n    {\"connection_name\": \"prod\", \"host\": \"db1\", \"port\": \"5432\", \"user\": \"alice\", \"dbname\": \"app\"}\n  ]\n}\n";
    let store = parse_store(spaced).unwrap();
    assert_eq!(store.len(), 1);
    let prod = store.find(&"prod".to_string()).unwrap();
    assert_eq!(prod.host, "db1");
    assert_eq!(prod.dbname, "app");
}

#[test]
fn parse_accepts_members_in_any_order() {
    // Alphabetical key order, as a serializer with sorted maps writes it.
    let sorted = "{\"connections\":[{\"connection_name\":\"prod\",\"dbname\":\"app\",\"host\":\"db1\",\"port\":\"5432\",\"user\":\"alice\"}]}";
    let store = parse_store(sorted).unwrap();
    let prod = store.find(&"prod".to_string()).unwrap();
    assert_eq!(prod.host, "db1");
    assert_eq!(prod.port, "5432");
    assert_eq!(prod.user, "alice");
    assert_eq!(prod.dbname, "app");
}

#[test]
fn parse_requires_the_five_members_once_each() {
    // An object without the `connections` member is no store document;
    // a profile must carry each of its five members exactly once.
    assert!(matches!(parse_store("{}"), Err(PGError::JSONOpenFileError)));
    assert!(matches!(
        parse_store(
            "{\"connections\":[{\"connection_name\":\"p\",\"host\":\"h\",\"host\":\"h2\",\"port\":\"1\",\"user\":\"u\",\"dbname\":\"d\"}]}"
        ),
        Err(PGError::JSONOpenFileError)
    ));
}

#[test]
fn error_messages() {
    assert_eq!(
        PGError::QueryError.message(),
        "Issue conversing with the database"
    );
    assert_eq!(
        PGError::ClientEmpty.message(),
        "Client has not been initialized"
    );
    assert_eq!(PGError::JSONOpenFileError.message(), "Could not open JSON file.");
    assert_eq!(
        PGError::DuplicateConnection.message(),
        "Duplicate connection name."
    );
    assert_eq!(PGError::MatchNotFound.message(), "Match not found");
}
