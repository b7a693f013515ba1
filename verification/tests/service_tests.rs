use weld::configuration::Configuration;
use weld::database::Database;
use weld::json::Json;
use weld::service::echo_rev_service::EchoRev;
use weld::service::{Method, Reply, RestService};

fn record(id: i64, title: &str) -> Json {
    Json::Object(vec![
        ("id".to_string(), Json::Number(id)),
        ("title".to_string(), Json::Str(title.to_string())),
    ])
}

fn service_db() -> Database {
    let conf = Configuration::new();
    let mut db = Database::new(&conf.database);
    db.load(Json::Object(vec![
        ("posts".to_string(), Json::Array(vec![record(1, "one"), record(2, "two")])),
        ("version".to_string(), Json::Str("1".to_string())),
    ]));
    db
}

fn call(db: &mut Database, method: Method, path: &str, query: Option<&str>, body: Json) -> (Reply, bool) {
    let path = path.to_string();
    let query = query.map(|q| q.to_string());
    assert!(RestService::completes(db, method, &path, &query, &body));
    RestService::respond(db, method, path, query, body)
}

#[test]
fn root_lists_tables() {
    let mut db = service_db();
    match call(&mut db, Method::Get, "/", None, Json::Null) {
        (Reply::Json(200, body), false) => assert_eq!(
            body,
            Json::Array(vec![Json::Str("posts".to_string()), Json::Str("version".to_string())])
        ),
        other => panic!("unexpected {:?}", other),
    }
}

#[test]
fn get_post_put_delete() {
    let mut db = service_db();
    match call(&mut db, Method::Get, "/posts/2", None, Json::Null) {
        (Reply::Json(200, body), false) => assert_eq!(body, record(2, "two")),
        other => panic!("unexpected {:?}", other),
    }
    match call(&mut db, Method::Post, "/posts", None, record(3, "three")) {
        (Reply::Json(201, body), true) => assert_eq!(body, record(3, "three")),
        other => panic!("unexpected {:?}", other),
    }
    match call(&mut db, Method::Post, "/posts", None, record(3, "again")) {
        (Reply::Text(409, _), false) => {},
        other => panic!("unexpected {:?}", other),
    }
    match call(&mut db, Method::Put, "/posts/3", None, record(3, "changed")) {
        (Reply::Json(200, body), true) => assert_eq!(body, record(3, "changed")),
        other => panic!("unexpected {:?}", other),
    }
    match call(&mut db, Method::Delete, "/posts/3", None, Json::Null) {
        (Reply::Json(200, body), true) => assert_eq!(body, record(3, "changed")),
        other => panic!("unexpected {:?}", other),
    }
    match call(&mut db, Method::Get, "/posts/3", None, Json::Null) {
        (Reply::Text(404, m), false) => assert_eq!(m, "Table not found 3"),
        other => panic!("unexpected {:?}", other),
    }
}

#[test]
fn get_with_query_filters() {
    let mut db = service_db();
    match call(&mut db, Method::Get, "/posts", Some("_filter=title=two&color=red"), Json::Null) {
        (Reply::Json(200, body), false) => assert_eq!(body, Json::Array(vec![record(2, "two")])),
        other => panic!("unexpected {:?}", other),
    }
}

#[test]
fn other_methods_are_refused() {
    let mut db = service_db();
    match call(&mut db, Method::Other, "/posts", None, Json::Null) {
        (Reply::Text(405, m), false) => assert_eq!(m, "Method Not Allowed"),
        other => panic!("unexpected {:?}", other),
    }
}

#[test]
fn post_to_missing_table_is_not_found() {
    let mut db = service_db();
    match call(&mut db, Method::Post, "/comments", None, record(1, "c")) {
        (Reply::Text(404, m), false) => {
            assert_eq!(m, "Insert - Error  [\"comments\"]. No record with the given path:")
        },
        other => panic!("unexpected {:?}", other),
    }
}

#[test]
fn echo_rev_reverses() {
    let s = EchoRev;
    assert_eq!(s.call("abc".to_string()), "cba");
    assert_eq!(s.call("".to_string()), "");
    assert_eq!(s.call("çağ".to_string()), "ğaç");
    assert_eq!(s.call(s.call("weld".to_string())), "weld");
}

#[test]
fn refused_request_keeps_database() {
    let mut db = service_db();
    let before = db.data().deep_clone();
    match call(&mut db, Method::Post, "/posts", None, record(1, "dup")) {
        (Reply::Text(409, m), false) => assert_eq!(
            m,
            "Insert - Error  Object {\"id\": Number(1), \"title\": String(\"dup\")}. \"id\" duplicates record at index: 0"
        ),
        other => panic!("unexpected {:?}", other),
    }
    match call(&mut db, Method::Put, "/posts", None, record(1, "x")) {
        (Reply::Text(500, m), false) => assert_eq!(m, "Server Error"),
        other => panic!("unexpected {:?}", other),
    }
    match call(&mut db, Method::Delete, "/posts/9", None, Json::Null) {
        (Reply::Text(404, m), false) => assert_eq!(m, "Delete - Error  id: 9"),
        other => panic!("unexpected {:?}", other),
    }
    assert_eq!(db.data().deep_clone(), before);
}
