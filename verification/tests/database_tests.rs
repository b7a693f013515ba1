use serde_json::Value;
use weld::configuration::{self, Configuration};
use weld::database::errors::Errors;
use weld::database::messages::{int_digits, json_debug_text, keys_debug, nat_digits, to_json_text};
use weld::database::Database;
use weld::json::Json;
use weld::service::query_api::query::Query;
use weld::service::query_api::Queries;

fn json_of(v: &Value) -> Json {
    match v {
        Value::Null => Json::Null,
        Value::Bool(b) => Json::Bool(*b),
        Value::Number(n) => Json::Number(n.as_i64().expect("integer")),
        Value::String(s) => Json::Str(s.clone()),
        Value::Array(a) => Json::Array(a.iter().map(json_of).collect()),
        Value::Object(m) => Json::Object(m.iter().map(|(k, x)| (k.clone(), json_of(x))).collect()),
    }
}

fn doc(text: &str) -> Json {
    let v: Value = serde_json::from_str(text).unwrap();
    json_of(&v)
}

fn sample() -> Json {
    doc(r#"{
        "owner": {"name": "seray", "surname": "uzgur"},
        "posts": [
            {"id": 1, "title": "Rust Rocks!", "author": {"name": "seray"},
             "tags": [{"id": 1, "name": "tech"}, {"id": 2, "name": "web"}]},
            {"id": 2, "title": "TypeScript is Awesome", "author": {"name": "kamil"}}
        ],
        "version": "10.1.1"
    }"#)
}

fn open_db() -> Database {
    let conf = Configuration::new();
    let mut db = Database::new(&conf.database);
    db.load(sample());
    db
}

fn path(parts: &[&str]) -> Vec<String> {
    parts.iter().map(|p| p.to_string()).collect()
}

fn read(db: &mut Database, parts: &[&str]) -> Result<Json, Errors> {
    let mut keys = path(parts);
    db.read(&mut keys, None)
}

fn message(e: Result<Json, Errors>) -> String {
    match e {
        Err(Errors::NotFound(m)) => format!("NotFound: {}", m),
        Err(Errors::Conflict(m)) => format!("Conflict: {}", m),
        Ok(v) => panic!("expected an error, got {:?}", v),
    }
}

#[test]
fn read_record_by_id() {
    let mut db = open_db();
    let r = read(&mut db, &["posts", "2"]).unwrap();
    assert_eq!(
        r,
        doc(r#"{"id": 2, "title": "TypeScript is Awesome", "author": {"name": "kamil"}}"#)
    );
}

#[test]
fn read_nested_values() {
    let mut db = open_db();
    assert_eq!(read(&mut db, &["posts", "1", "author", "name"]).unwrap(), Json::Str("seray".to_string()));
    assert_eq!(
        read(&mut db, &["posts", "1", "tags", "2"]).unwrap(),
        doc(r#"{"id": 2, "name": "web"}"#)
    );
    assert_eq!(read(&mut db, &["version"]).unwrap(), Json::Str("10.1.1".to_string()));
}

#[test]
fn read_missing_key_names_it() {
    let mut db = open_db();
    assert_eq!(message(read(&mut db, &["posts", "9"])), "NotFound: Table not found 9");
    assert_eq!(message(read(&mut db, &["comments"])), "NotFound: Table not found comments");
    assert_eq!(message(read(&mut db, &["posts", "abc"])), "NotFound: Table not found abc");
}

#[test]
fn read_leaves_database_unchanged() {
    let mut db = open_db();
    let _ = read(&mut db, &["posts", "1"]);
    assert_eq!(db.data().deep_clone(), sample());
}

#[test]
fn read_with_filter_and_q() {
    let mut db = open_db();
    let mut queries = Queries::new();
    queries.filter.push(Query::new("id", ">", "1"));
    let mut keys = path(&["posts"]);
    let r = db.read(&mut keys, Some(queries)).unwrap();
    assert_eq!(
        r,
        doc(r#"[{"id": 2, "title": "TypeScript is Awesome", "author": {"name": "kamil"}}]"#)
    );
    let mut queries = Queries::new();
    queries.q = Some("Rust".to_string());
    let r = db.read(&mut keys, Some(queries)).unwrap();
    match r {
        Json::Array(items) => {
            assert_eq!(items.len(), 1);
            assert_eq!(items[0].get(&"id".to_string()).unwrap().as_i64(), Some(1));
        },
        other => panic!("expected an array, got {:?}", other),
    }
}

#[test]
fn tables_lists_top_level_keys() {
    let db = open_db();
    assert_eq!(db.tables(), path(&["owner", "posts", "version"]));
}

#[test]
fn insert_then_read_gives_record_back() {
    let mut db = open_db();
    let mut keys = path(&["posts"]);
    let record = doc(r#"{"id": 3, "title": "KendoUI Rocks!"}"#);
    let r = db.insert(&mut keys, record.deep_clone()).unwrap();
    assert_eq!(r, record);
    assert_eq!(keys, path(&["posts"]));
    assert_eq!(read(&mut db, &["posts", "3"]).unwrap(), record);
}

#[test]
fn insert_twice_is_a_conflict() {
    let mut db = open_db();
    let mut keys = path(&["posts"]);
    let record = doc(r#"{"id": 3, "title": "x"}"#);
    db.insert(&mut keys, record.deep_clone()).unwrap();
    let before = db.data().deep_clone();
    let e = db.insert(&mut keys, record.deep_clone());
    assert_eq!(
        message(e),
        "Conflict: Insert - Error  Object {\"id\": Number(3), \"title\": String(\"x\")}. \"id\" duplicates record at index: 2"
    );
    assert_eq!(db.data().deep_clone(), before);
}

#[test]
fn insert_without_id_draws_one() {
    let mut db = open_db();
    let mut keys = path(&["posts"]);
    let r = db.insert(&mut keys, doc(r#"{"title": "no id"}"#)).unwrap();
    let id = r.get(&"id".to_string()).and_then(|x| x.as_i64()).expect("an integer id");
    let got = read(&mut db, &["posts", &id.to_string()]).unwrap();
    assert_eq!(got, r);
    assert_eq!(got.get(&"title".to_string()), Some(&Json::Str("no id".to_string())));
}

#[test]
fn insert_with_fallback_id() {
    let mut db = open_db();
    let mut keys = path(&["posts", "1", "tags"]);
    let r = db.insert_with_id(&mut keys, doc(r#"{"name": "rust"}"#), 77).unwrap();
    assert_eq!(r, doc(r#"{"id": 77, "name": "rust"}"#));
    assert_eq!(read(&mut db, &["posts", "1", "tags", "77"]).unwrap(), r);
}

#[test]
fn insert_errors() {
    let mut db = open_db();
    let mut keys = path(&["comments"]);
    assert_eq!(
        message(db.insert(&mut keys, doc(r#"{"id": 1}"#))),
        "NotFound: Insert - Error  [\"comments\"]. No record with the given path:"
    );
    let mut keys = path(&["owner"]);
    assert_eq!(
        message(db.insert(&mut keys, doc(r#"{"id": 1}"#))),
        "Conflict: Insert - Error already has an object with the given key: [\"owner\"]"
    );
    assert_eq!(db.data().deep_clone(), sample());
}

#[test]
fn insert_then_delete_restores() {
    let mut db = open_db();
    let mut keys = path(&["posts"]);
    let record = doc(r#"{"id": 5, "title": "tmp"}"#);
    db.insert(&mut keys, record.deep_clone()).unwrap();
    let mut del = path(&["posts", "5"]);
    assert_eq!(db.delete(&mut del).unwrap(), record);
    assert_eq!(del, path(&["posts"]));
    assert_eq!(db.data().deep_clone(), sample());
}

#[test]
fn update_record_keeps_its_id() {
    let mut db = open_db();
    let mut keys = path(&["posts", "1"]);
    let r = db.update(&mut keys, doc(r#"{"id": 99, "title": "Angular Rocks!"}"#)).unwrap();
    assert_eq!(r.get(&"id".to_string()), Some(&Json::Number(1)));
    assert_eq!(r.get(&"title".to_string()), Some(&Json::Str("Angular Rocks!".to_string())));
    assert_eq!(read(&mut db, &["posts", "1"]).unwrap(), r);
}

#[test]
fn update_adds_new_members_in_name_order() {
    let mut db = open_db();
    let mut keys = path(&["owner"]);
    let r = db.update(&mut keys, doc(r#"{"age": 31, "title": "dev"}"#)).unwrap();
    assert_eq!(r, Json::Object(vec![
        ("age".to_string(), Json::Number(31)),
        ("name".to_string(), Json::Str("seray".to_string())),
        ("surname".to_string(), Json::Str("uzgur".to_string())),
        ("title".to_string(), Json::Str("dev".to_string())),
    ]));
}

#[test]
fn update_scalars_by_type() {
    let mut db = open_db();
    let mut keys = path(&["owner", "name"]);
    assert_eq!(db.update(&mut keys, Json::Str("kamil".to_string())).unwrap(), Json::Str("kamil".to_string()));
    assert_eq!(db.update(&mut keys, Json::Number(4)).unwrap(), Json::Str("kamil".to_string()));
    assert_eq!(read(&mut db, &["owner", "name"]).unwrap(), Json::Str("kamil".to_string()));
}

#[test]
fn update_errors() {
    let mut db = open_db();
    let mut keys = path(&["posts"]);
    assert_eq!(
        message(db.update(&mut keys, doc(r#"{"id": 1}"#))),
        "Conflict: Update - Error already has an object with the given key: [\"posts\"]"
    );
    let mut keys = path(&["posts", "7"]);
    assert_eq!(
        message(db.update(&mut keys, doc(r#"{"id": 1}"#))),
        "NotFound: Update - Error  [\"posts\", \"7\"]. No record with the given path:"
    );
}

#[test]
fn delete_record_then_read_finds_nothing() {
    let mut db = open_db();
    let mut keys = path(&["posts", "2"]);
    let r = db.delete(&mut keys).unwrap();
    assert_eq!(r.get(&"id".to_string()), Some(&Json::Number(2)));
    assert_eq!(message(read(&mut db, &["posts", "2"])), "NotFound: Table not found 2");
}

#[test]
fn delete_member_of_object() {
    let mut db = open_db();
    let mut keys = path(&["owner", "name"]);
    assert_eq!(db.delete(&mut keys).unwrap(), Json::Str("seray".to_string()));
    assert_eq!(read(&mut db, &["owner"]).unwrap(), doc(r#"{"surname": "uzgur"}"#));
}

#[test]
fn delete_errors() {
    let mut db = open_db();
    let mut keys = path(&["posts", "9"]);
    assert_eq!(message(db.delete(&mut keys)), "NotFound: Delete - Error  id: 9");
    let mut keys = path(&["posts", "x"]);
    assert_eq!(message(db.delete(&mut keys)), "NotFound: Delete - Error  id: -1");
    let mut keys = path(&["version", "x"]);
    assert_eq!(message(db.delete(&mut keys)), "NotFound: Delete - Error  path: \"x\"");
    let mut keys = path(&["nothing", "x"]);
    assert_eq!(message(db.delete(&mut keys)), "NotFound: Delete - Error  path: \"x\"");
    let mut keys = path(&["owner", "age"]);
    assert_eq!(message(db.delete(&mut keys)), "NotFound: Table not found age");
    assert_eq!(db.data().deep_clone(), sample());
}

#[test]
fn checks_tell_complete_requests() {
    let mut db = open_db();
    assert!(db.can_follow(&path(&["posts", "1"])));
    assert!(db.can_insert(&path(&["posts"]), &doc(r#"{"title": "t"}"#)));
    assert!(db.can_delete(&path(&["posts", "1"])));
    assert!(!db.can_delete(&path(&[])));
    db.load(doc(r#"{"posts": [{"title": "no id"}, {"id": 2}]}"#));
    assert!(!db.can_follow(&path(&["posts", "2"])));
    assert!(!db.can_insert(&path(&["posts"]), &doc(r#"{"title": "t"}"#)));
    assert!(!db.can_delete(&path(&["posts", "2"])));
    assert!(db.can_follow(&path(&["posts"])));
}

#[test]
fn configuration_defaults() {
    let conf = Configuration::new();
    assert_eq!(conf.server.host, "127.0.0.1");
    assert_eq!(conf.server.port, 8080);
    assert_eq!(conf.database.path, "db.json");
    assert_eq!(conf.database.default_pk, "id");
}

#[test]
fn database_configuration_round_trip() {
    let c = configuration::Database { path: "other.json".to_string(), default_pk: "key".to_string() };
    let mut db = open_db();
    db.set_configuration(&c);
    assert_eq!(db.configuration().path, "other.json");
    assert_eq!(db.configuration().default_pk, "key");
    assert_eq!(db.data().deep_clone(), Json::Null);
}

#[test]
fn error_copy_keeps_message() {
    let e = Errors::Conflict("boom".to_string());
    match e.copy() {
        Errors::Conflict(m) => assert_eq!(m, "boom"),
        other => panic!("unexpected {:?}", other),
    }
}

#[test]
fn digits_in_decimal() {
    assert_eq!(nat_digits(0), "0");
    assert_eq!(nat_digits(1234), "1234");
    assert_eq!(nat_digits(u64::MAX), u64::MAX.to_string());
    assert_eq!(int_digits(-5), "-5");
    assert_eq!(int_digits(i64::MIN), i64::MIN.to_string());
}

#[test]
fn keys_debug_matches_std() {
    let keys = path(&["posts", "a\"b", ""]);
    assert_eq!(keys_debug(&keys), format!("{:?}", keys));
    assert_eq!(keys_debug(&path(&[])), "[]");
}

#[test]
fn json_debug_matches_serde() {
    let text = r#"{"a": [1, -2, true, null, "x\"y"], "b": {"c": "d"}, "e": false}"#;
    let v: Value = serde_json::from_str(text).unwrap();
    assert_eq!(json_debug_text(&json_of(&v)), format!("{:?}", v));
}

#[test]
fn update_of_record_id_moves_the_record() {
    let mut db = open_db();
    let mut keys = path(&["posts", "1", "id"]);
    assert_eq!(db.update(&mut keys, Json::Number(7)).unwrap(), Json::Number(7));
    assert_eq!(message(read(&mut db, &["posts", "1", "id"])), "NotFound: Table not found 1");
    assert_eq!(read(&mut db, &["posts", "7", "id"]).unwrap(), Json::Number(7));
}

#[test]
fn delete_of_duplicated_id_leaves_the_other() {
    let mut db = open_db();
    db.load(doc(r#"{"posts": [{"id": 1, "title": "a"}, {"id": 1, "title": "b"}]}"#));
    let mut keys = path(&["posts", "1"]);
    assert_eq!(db.delete(&mut keys).unwrap(), doc(r#"{"id": 1, "title": "a"}"#));
    assert_eq!(read(&mut db, &["posts", "1"]).unwrap(), doc(r#"{"id": 1, "title": "b"}"#));
}

#[test]
fn insert_places_id_in_name_order() {
    let mut db = open_db();
    let mut keys = path(&["posts"]);
    let r = db.insert_with_id(&mut keys, doc(r#"{"author": "a", "title": "t"}"#), 9).unwrap();
    assert_eq!(r, Json::Object(vec![
        ("author".to_string(), Json::Str("a".to_string())),
        ("id".to_string(), Json::Number(9)),
        ("title".to_string(), Json::Str("t".to_string())),
    ]));
}

#[test]
fn json_text_reads_back() {
    let text = r#"{"a": [1, -2, true, null, "x\"y\\z\u0001\n"], "b": {"c": "d"}, "e": false}"#;
    let v: Value = serde_json::from_str(text).unwrap();
    let printed = to_json_text(&json_of(&v));
    let back: Value = serde_json::from_str(&printed).unwrap();
    assert_eq!(back, v);
    assert_eq!(to_json_text(&doc(r#"{"id": 3, "t": "a\"b"}"#)), r#"{"id":3,"t":"a\"b"}"#);
}
