use serde_json::Value;
use weld::database::query_api::{fields, filter, paginate, q, sort};
use weld::json::Json;
use weld::service::query_api::page::Page;
use weld::service::query_api::query::Query;
use weld::service::query_api::sort::Sort;
use weld::service::query_api::Queries;

fn from_value(v: &Value) -> Json {
    match v {
        Value::Null => Json::Null,
        Value::Bool(b) => Json::Bool(*b),
        Value::Number(n) => Json::Number(n.as_i64().expect("integer")),
        Value::String(s) => Json::Str(s.clone()),
        Value::Array(a) => Json::Array(a.iter().map(from_value).collect()),
        Value::Object(m) => Json::Object(m.iter().map(|(k, x)| (k.clone(), from_value(x))).collect()),
    }
}

fn parse_json(text: &str) -> Json {
    let v: Value = serde_json::from_str(text).unwrap();
    from_value(&v)
}

fn people() -> Json {
    parse_json(
        r#"[
            {"name":"seray","age":31,"active":true,"password":"123"},
            {"name":"kamil","age":900,"active":false,"password":"333"},
            {"name":"hasan","age":25,"active":true,"password":"321"}
        ]"#,
    )
}

fn people_q() -> Json {
    parse_json(
        r#"[
            {"name":"seray","age":31,"active":true,"password":"123"},
            {"name":"kamil","age":900,"active":false,"password":"333"},
            {"name":"hasan","age":25,"active":true,"password":"3212"}
        ]"#,
    )
}

fn people_sort() -> Json {
    parse_json(
        r#"[
            {"name":"seray","age":31,"active":true,"password":"123"},
            {"name":"kamil","age":900,"active":false,"password":"333"},
            {"name":"recep","age":25,"active":true,"password":"3212"},
            {"name":"hasan","age":25,"active":true,"password":"3212"}
        ]"#,
    )
}

#[test]
fn apply_test() {
    let mut queries = Queries::new();
    {
        let fields = &mut queries.fields;
        fields.push("name".to_string());
        fields.push("active".to_string());
    }
    let expected = parse_json(
        r#"[
            {"name":"seray","active":true},
            {"name":"kamil","active":false},
            {"name":"hasan","active":true}
        ]"#,
    );
    let json = &mut people();
    fields::apply(json, &queries);
    assert_eq!(json.deep_clone(), expected);
}

#[test]
fn diff_left_test() {
    let a = vec![
        ("a".to_string(), Json::Null),
        ("b".to_string(), Json::Null),
        ("c".to_string(), Json::Null),
    ];
    let b = vec!["b".to_string(), "c".to_string()];
    let r = fields::diff_left(&a, &b);
    assert_eq!(r, vec!["a".to_string()]);
}

#[test]
fn apply_eq_test() {
    let mut queries = Queries::new();
    {
        let filter = &mut queries.filter;
        filter.push(Query::new("name", "=", "seray"));
        filter.push(Query::new("active", "=", "true"));
    }
    let expected = parse_json(r#"[{"name":"seray","age":31,"active":true,"password":"123"}]"#);
    let json = &mut people();
    filter::apply(json, &queries);
    assert_eq!(json.deep_clone(), expected);
}

#[test]
fn apply_ne_test() {
    let mut queries = Queries::new();
    {
        let filter = &mut queries.filter;
        filter.push(Query::new("name", "!=", "seray"));
        filter.push(Query::new("active", "!=", "true"));
    }
    let expected = parse_json(r#"[{"name":"kamil","age":900,"active":false,"password":"333"}]"#);
    let json = &mut people();
    filter::apply(json, &queries);
    assert_eq!(json.deep_clone(), expected);
}

#[test]
fn apply_gt_lt_test() {
    let mut queries = Queries::new();
    {
        let filter = &mut queries.filter;
        filter.push(Query::new("age", "<", "500"));
        filter.push(Query::new("age", ">", "26"));
    }
    let expected = parse_json(r#"[{"name":"seray","age":31,"active":true,"password":"123"}]"#);
    let json = &mut people();
    filter::apply(json, &queries);
    assert_eq!(json.deep_clone(), expected);
}

#[test]
fn apply_gte_lte_test() {
    let mut queries = Queries::new();
    {
        let filter = &mut queries.filter;
        filter.push(Query::new("age", "<=", "31"));
        filter.push(Query::new("age", ">=", "31"));
    }
    let expected = parse_json(r#"[{"name":"seray","age":31,"active":true,"password":"123"}]"#);
    let json = &mut people();
    filter::apply(json, &queries);
    assert_eq!(json.deep_clone(), expected);
}

#[test]
fn apply_like_test() {
    let mut queries = Queries::new();
    {
        let filter = &mut queries.filter;
        filter.push(Query::new("password", "~=", "3"));
    }
    let expected = parse_json(
        r#"[
            {"name":"kamil","age":900,"active":false,"password":"333"},
            {"name":"hasan","age":25,"active":true,"password":"321"}
        ]"#,
    );
    let json = &mut people();
    filter::apply(json, &queries);
    assert_eq!(json.deep_clone(), expected);
}

#[test]
fn apply_in_test() {
    let mut queries = Queries::new();
    {
        let filter = &mut queries.filter;
        filter.push(Query::new("name", "|=", "kamil|hasan"));
    }
    let expected = parse_json(
        r#"[
            {"name":"kamil","age":900,"active":false,"password":"333"},
            {"name":"hasan","age":25,"active":true,"password":"321"}
        ]"#,
    );
    let json = &mut people();
    filter::apply(json, &queries);
    assert_eq!(json.deep_clone(), expected);
}

#[test]
fn apply_test_middle() {
    let mut queries = Queries::new();
    {
        let paginate = &mut queries.paginate;
        paginate.0 = Page::OFFSET(1);
        paginate.1 = Page::LIMIT(1);
    }
    let expected = parse_json(r#"[{"name":"kamil","age":900,"active":false,"password":"333"}]"#);
    let json = &mut people();
    paginate::apply(json, &queries);
    assert_eq!(json.deep_clone(), expected);
}

#[test]
fn apply_test_start() {
    let mut queries = Queries::new();
    {
        let paginate = &mut queries.paginate;
        paginate.0 = Page::OFFSET(0);
        paginate.1 = Page::LIMIT(1);
    }
    let expected = parse_json(r#"[{"name":"seray","age":31,"active":true,"password":"123"}]"#);
    let json = &mut people();
    paginate::apply(json, &queries);
    assert_eq!(json.deep_clone(), expected);
}

#[test]
fn apply_test_end() {
    let mut queries = Queries::new();
    {
        let paginate = &mut queries.paginate;
        paginate.0 = Page::OFFSET(2);
        paginate.1 = Page::LIMIT(1);
    }
    let expected = parse_json(r#"[{"name":"hasan","age":25,"active":true,"password":"321"}]"#);
    let json = &mut people();
    paginate::apply(json, &queries);
    assert_eq!(json.deep_clone(), expected);
}

#[test]
fn apply_q_test() {
    let mut queries = Queries::new();
    {
        queries.q = Some("12".to_string());
    }
    let expected = parse_json(
        r#"[
            {"name":"seray","age":31,"active":true,"password":"123"},
            {"name":"hasan","age":25,"active":true,"password":"3212"}
        ]"#,
    );
    let json = &mut people_q();
    q::apply(json, &queries);
    assert_eq!(json.deep_clone(), expected);
}

#[test]
fn apply_sort_test() {
    let mut queries = Queries::new();
    {
        queries.sort.push(Sort::ASC("age".to_string()));
        queries.sort.push(Sort::ASC("name".to_string()));
    }
    let expected = parse_json(
        r#"[
            {"name":"hasan","age":25,"active":true,"password":"3212"},
            {"name":"recep","age":25,"active":true,"password":"3212"},
            {"name":"seray","age":31,"active":true,"password":"123"},
            {"name":"kamil","age":900,"active":false,"password":"333"}
        ]"#,
    );
    let json = &mut people_sort();
    sort::apply(json, &queries);
    assert_eq!(json.deep_clone(), expected);
}

#[test]
fn apply_sort_descending_test() {
    let mut queries = Queries::new();
    queries.sort.push(Sort::DSC("age".to_string()));
    let expected = parse_json(
        r#"[
            {"name":"kamil","age":900,"active":false,"password":"333"},
            {"name":"seray","age":31,"active":true,"password":"123"},
            {"name":"recep","age":25,"active":true,"password":"3212"},
            {"name":"hasan","age":25,"active":true,"password":"3212"}
        ]"#,
    );
    let json = &mut people_sort();
    sort::apply(json, &queries);
    assert_eq!(json.deep_clone(), expected);
}

#[test]
fn apply_sort_keeps_order_of_equal_records() {
    let mut queries = Queries::new();
    queries.sort.push(Sort::ASC("password".to_string()));
    let expected = parse_json(
        r#"[
            {"name":"seray","age":31,"active":true,"password":"123"},
            {"name":"recep","age":25,"active":true,"password":"3212"},
            {"name":"hasan","age":25,"active":true,"password":"3212"},
            {"name":"kamil","age":900,"active":false,"password":"333"}
        ]"#,
    );
    let json = &mut people_sort();
    sort::apply(json, &queries);
    assert_eq!(json.deep_clone(), expected);
}

#[test]
fn apply_paginate_past_end_gives_empty() {
    let mut queries = Queries::new();
    queries.paginate.0 = Page::OFFSET(5);
    queries.paginate.1 = Page::LIMIT(2);
    let json = &mut people();
    paginate::apply(json, &queries);
    assert_eq!(json.deep_clone(), Json::Array(vec![]));
}

#[test]
fn apply_filter_on_object_leaves_it() {
    let mut queries = Queries::new();
    queries.filter.push(Query::new("name", "=", "nobody"));
    let record = parse_json(r#"{"name":"seray"}"#);
    let json = &mut record.deep_clone();
    filter::apply(json, &queries);
    assert_eq!(json.deep_clone(), record);
}

#[test]
fn apply_fields_without_fields_changes_nothing() {
    let queries = Queries::new();
    let json = &mut people();
    fields::apply(json, &queries);
    assert_eq!(json.deep_clone(), people());
}

#[test]
fn apply_q_without_match_gives_empty() {
    let mut queries = Queries::new();
    queries.q = Some("zzz".to_string());
    let json = &mut people_q();
    q::apply(json, &queries);
    assert_eq!(json.deep_clone(), Json::Array(vec![]));
}

#[test]
fn apply_fields_strips_every_record() {
    let mut queries = Queries::new();
    queries.fields.push("a".to_string());
    let json = &mut parse_json(r#"[{"a":1},{"a":1,"b":2},{"c":3}]"#);
    fields::apply(json, &queries);
    assert_eq!(json.deep_clone(), parse_json(r#"[{"a":1},{"a":1},{}]"#));
}

#[test]
fn apply_q_on_strings_keeps_equal_ones() {
    let mut queries = Queries::new();
    queries.q = Some("b".to_string());
    let json = &mut parse_json(r#"["a","b","c","b"]"#);
    q::apply(json, &queries);
    assert_eq!(json.deep_clone(), parse_json(r#"["b","b"]"#));
}
