use protohackers::kv::{
    handle_message, Db, InsertMessage, Message, RetrieveMessage, VERSION_SPECIAL_KEY,
};

#[test]
fn parses_insert_with_one_equal() {
    let m = Message::new("foo=bar".to_string());
    assert_eq!(
        Message::Insert(InsertMessage {
            key: "foo".to_string(),
            value: "bar".to_string()
        }),
        m
    );
}

#[test]
fn parses_insert_with_two_equals() {
    let m = Message::new("foo=bar=baz".to_string());
    assert_eq!(
        Message::Insert(InsertMessage {
            key: "foo".to_string(),
            value: "bar=baz".to_string()
        }),
        m
    );
}

#[test]
fn parses_insert_with_empty_value() {
    let m = Message::new("foo=".to_string());
    assert_eq!(
        Message::Insert(InsertMessage {
            key: "foo".to_string(),
            value: "".to_string()
        }),
        m
    );
}

#[test]
fn parses_insert_when_key_is_formed_of_equal_sings() {
    let m = Message::new("foo===".to_string());
    assert_eq!(
        Message::Insert(InsertMessage {
            key: "foo".to_string(),
            value: "==".to_string()
        }),
        m
    );
}

#[test]
fn parses_insert_with_empty_key() {
    let m = Message::new("=foo".to_string());
    assert_eq!(
        Message::Insert(InsertMessage {
            key: "".to_string(),
            value: "foo".to_string()
        }),
        m
    );
}

#[test]
fn parses_version() {
    let m = Message::new("version".to_string());
    assert_eq!(Message::Version, m);
}

#[test]
fn parses_retrieve() {
    let m = Message::new("foo".to_string());
    assert_eq!(
        Message::Retrieve(RetrieveMessage {
            key: "foo".to_string()
        }),
        m
    );
}

#[test]
fn parses_version_with_surrounding_whitespace() {
    let m = Message::new("  version\n".to_string());
    assert_eq!(Message::Version, m);
}

#[test]
fn parses_version_with_unicode_whitespace() {
    let m = Message::new("\u{a0}version\u{3000}".to_string());
    assert_eq!(Message::Version, m);
}

#[test]
fn retrieve_keeps_its_key_untrimmed() {
    let m = Message::new(" foo ".to_string());
    assert_eq!(
        Message::Retrieve(RetrieveMessage {
            key: " foo ".to_string()
        }),
        m
    );
}

#[test]
fn stores_and_retrieves_a_value() {
    let mut db = Db::new();
    let insert = Message::new("foo=bar".to_string());
    assert_eq!(handle_message(insert, &mut db), None);
    let retrieve = Message::new("foo".to_string());
    assert_eq!(handle_message(retrieve, &mut db), Some("foo=bar".to_string()));
}

#[test]
fn retrieve_of_an_unbound_key_answers_empty() {
    let mut db = Db::new();
    let retrieve = Message::new("ghost".to_string());
    assert_eq!(handle_message(retrieve, &mut db), Some("ghost=".to_string()));
}

#[test]
fn later_insert_replaces_earlier_value() {
    let mut db = Db::new();
    db.set_value("k".to_string(), "one".to_string());
    db.set_value("k".to_string(), "two".to_string());
    assert_eq!(db.get_value("k"), Some("two".to_string()));
}

#[test]
fn version_query_answers_the_version() {
    let mut db = Db::new();
    assert_eq!(
        handle_message(Message::Version, &mut db),
        Some("version=1.0".to_string())
    );
}

#[test]
fn insert_under_the_version_key_is_ignored() {
    let mut db = Db::default();
    let insert = Message::new(format!("{}=2.0", VERSION_SPECIAL_KEY));
    assert_eq!(handle_message(insert, &mut db), None);
    assert_eq!(db.get_value(VERSION_SPECIAL_KEY), None);
}
