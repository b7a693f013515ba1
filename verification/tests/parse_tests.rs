use weld::service::query::{parse_query, Query as ParamQuery};
use weld::service::query_api::page::{self, Page};
use weld::service::query_api::query::{self, Query};
use weld::service::query_api::sort::{self, Sort};
use weld::service::query_api::{parse, Queries};
use weld::service::utils::split_path;

fn param(key: &str, op: &str, value: &str) -> ParamQuery {
    ParamQuery::new(key.to_string(), op.to_string(), value.to_string())
}

#[test]
fn parse_query_test() {
    assert_eq!(parse_query(None), Vec::<ParamQuery>::new());
    assert_eq!(parse_query(Some("")), Vec::<ParamQuery>::new());
    assert_eq!(parse_query(Some("&&")), Vec::<ParamQuery>::new());
    assert_eq!(
        parse_query(Some("a=1&b=2&c=3")),
        vec![param("a", "=", "1"), param("b", "=", "2"), param("c", "=", "3")]
    );
    assert_eq!(
        parse_query(Some("_start=20&_end=30")),
        vec![param("_start", "=", "20"), param("_end", "=", "30")]
    );
    assert_eq!(
        parse_query(Some("views_gte=10&views_lte=20")),
        vec![param("views", "gte", "10"), param("views", "lte", "20")]
    );
    assert_eq!(parse_query(Some("id_ne=1")), vec![param("id", "ne", "1")]);
    assert_eq!(
        parse_query(Some("title_like=server")),
        vec![param("title", "like", "server")]
    );
    assert_eq!(parse_query(Some("q=internet")), vec![param("q", "=", "internet")]);
}

#[test]
fn parse_none_test() {
    assert_eq!(parse(None), None);
}

#[test]
fn parse_fields_test() {
    let mut queries = Queries::new();
    {
        let fields = &mut queries.fields;
        fields.push("a".to_string());
        fields.push("b".to_string());
    }
    assert_eq!(parse(Some("_fields=a,b")), Some(queries));
}

#[test]
fn parse_paginate_test() {
    let mut queries = Queries::new();
    {
        let paginate = &mut queries.paginate;
        paginate.0 = Page::OFFSET(10);
        paginate.1 = Page::LIMIT(5);
    }
    assert_eq!(parse(Some("_offset=10&_limit=5")), Some(queries));
}

#[test]
fn parse_sort_test() {
    let mut queries = Queries::new();
    {
        let sort = &mut queries.sort;
        sort.push(Sort::ASC("a".to_string()));
        sort.push(Sort::DSC("b".to_string()));
        sort.push(Sort::ASC("c".to_string()));
    }
    assert_eq!(parse(Some("_sort=a+,b-,c")), Some(queries));
}

#[test]
fn parse_filter_test() {
    let mut queries = Queries::new();
    {
        let filter = &mut queries.filter;
        filter.push(Query::new("name", "=", "seray"));
        filter.push(Query::new("active", "=", "true"));
    }
    assert_eq!(parse(Some("_filter=name=seray,active=true")), Some(queries));
}

#[test]
fn parse_q_test() {
    let mut queries = Queries::new();
    {
        queries.q = Some("seray".to_string());
    }
    assert_eq!(parse(Some("_q=seray")), Some(queries));
}

#[test]
fn page_parse_test() {
    assert_eq!(page::parse(Query::new("", "", "")), None);
    assert_eq!(page::parse(Query::new("", "_", "")), None);
    assert_eq!(page::parse(Query::new("", "=", "")), None);
    assert_eq!(page::parse(Query::new("", "=", "Abc")), None);
    assert_eq!(page::parse(Query::new("", "=", "123")), None);
    assert_eq!(page::parse(Query::new("Abc", "=", "123")), None);
    assert_eq!(page::parse(Query::new("_offset", "=", "")), None);
    assert_eq!(page::parse(Query::new("_limit", "=", "")), None);
    assert_eq!(page::parse(Query::new("_offset", "=", "123")), Some(Page::OFFSET(123)));
    assert_eq!(page::parse(Query::new("_limit", "=", "123")), Some(Page::LIMIT(123)));
}

#[test]
fn query_parse_test() {
    assert_eq!(query::parse(""), None);
    assert_eq!(query::parse("a|b"), None);
    assert_eq!(query::parse("aaa|*bbb"), None);
    assert_eq!(query::parse("aaa|09*bbb"), None);

    assert_eq!(query::parse("a=b"), Some(Query::new("a", "=", "b")));
    assert_eq!(query::parse("aaa=bbb"), Some(Query::new("aaa", "=", "bbb")));

    assert_eq!(query::parse("a!=b"), Some(Query::new("a", "!=", "b")));
    assert_eq!(query::parse("aaa!=bbb"), Some(Query::new("aaa", "!=", "bbb")));

    assert_eq!(query::parse("a<b"), Some(Query::new("a", "<", "b")));
    assert_eq!(query::parse("aaa<bbb"), Some(Query::new("aaa", "<", "bbb")));
    assert_eq!(query::parse("a<=b"), Some(Query::new("a", "<=", "b")));
    assert_eq!(query::parse("aaa<=bbb"), Some(Query::new("aaa", "<=", "bbb")));

    assert_eq!(query::parse("a>b"), Some(Query::new("a", ">", "b")));
    assert_eq!(query::parse("aaa>bbb"), Some(Query::new("aaa", ">", "bbb")));
    assert_eq!(query::parse("a>=b"), Some(Query::new("a", ">=", "b")));
    assert_eq!(query::parse("aaa>=bbb"), Some(Query::new("aaa", ">=", "bbb")));

    assert_eq!(query::parse("a~=b"), Some(Query::new("a", "~=", "b")));
    assert_eq!(query::parse("aaa~=bbb"), Some(Query::new("aaa", "~=", "bbb")));

    assert_eq!(query::parse("a|=b"), Some(Query::new("a", "|=", "b")));
    assert_eq!(query::parse("aaa|=bbb"), Some(Query::new("aaa", "|=", "bbb")));
}

#[test]
fn sort_parse_test() {
    assert_eq!(sort::parse(""), None);
    assert_eq!(sort::parse("name"), None);
    assert_eq!(sort::parse("name+"), Some(Sort::ASC("name".to_string())));
    assert_eq!(sort::parse("name-"), Some(Sort::DSC("name".to_string())));
}

#[test]
fn split_path_test() {
    assert_eq!(
        split_path("".to_string()),
        Vec::<String>::new(),
        "Empty string must return empty vector."
    );
    assert_eq!(
        split_path("/".to_string()),
        Vec::<String>::new(),
        "Empty string must return empty vector."
    );
    assert_eq!(
        split_path("//".to_string()),
        Vec::<String>::new(),
        "Empty string must return empty vector."
    );
    assert_eq!(split_path("/posts".to_string()), vec!["posts"]);
    assert_eq!(split_path("/posts/".to_string()), vec!["posts"]);
    assert_eq!(split_path("/posts/1".to_string()), vec!["posts", "1"]);
}

#[test]
fn query_from_splits_at_first_operator() {
    assert_eq!(Query::from("age>=30"), Query::new("age", ">=", "30"));
    assert_eq!(Query::from("name~=er"), Query::new("name", "~=", "er"));
    assert_eq!(Query::from("plain"), Query::new("", "", ""));
}

#[test]
fn sort_reads_leading_sign() {
    assert_eq!(Sort::from("-manufactorer"), Sort::DSC("manufactorer".to_string()));
    assert_eq!(Sort::from("+model"), Sort::ASC("model".to_string()));
    assert_eq!(sort::parse("-name"), Some(Sort::DSC("name".to_string())));
    assert_eq!(sort::parse("-name+"), Some(Sort::ASC("-name".to_string())));
    let mut queries = Queries::new();
    queries.sort.push(Sort::DSC("manufactorer".to_string()));
    queries.sort.push(Sort::ASC("model".to_string()));
    assert_eq!(parse(Some("_sort=-manufactorer,+model")), Some(queries));
}

#[test]
fn duplicate_parameters_keep_the_last() {
    assert_eq!(parse(Some("_fields=a&_fields=b")).unwrap().fields, vec!["b".to_string()]);
    assert_eq!(parse(Some("_sort=a+&_sort=b-")).unwrap().sort, vec![Sort::DSC("b".to_string())]);
    assert_eq!(parse(Some("_q=x&_q=y")).unwrap().q, Some("y".to_string()));
    assert_eq!(parse(Some("_limit=5&_limit=7")).unwrap().paginate.1, Page::LIMIT(7));
    assert_eq!(
        parse(Some("_filter=a=1&_filter=b=2")).unwrap().filter,
        vec![Query::new("b", "=", "2")]
    );
}

#[test]
fn sort_from_defaults_to_ascending() {
    assert_eq!(Sort::from("name"), Sort::ASC("name".to_string()));
    assert_eq!(Sort::from("name-"), Sort::DSC("name".to_string()));
}

#[test]
fn parse_mixed_query_test() {
    let mut queries = Queries::new();
    queries.fields.push("name".to_string());
    queries.q = Some("b".to_string());
    queries.paginate.1 = Page::LIMIT(2);
    queries.sort.push(Sort::DSC("age".to_string()));
    assert_eq!(parse(Some("_fields=name&_q=a&_q=b&_limit=2&_sort=age-")), Some(queries));
}

#[test]
fn parse_unknown_parameter_is_ignored() {
    assert_eq!(parse(Some("color=red")), Some(Queries::new()));
}
