//! The REST service: what each request does to the database and what it answers.
pub mod echo_rev_service;
pub mod query;
pub mod query_api;
pub mod utils;

use vstd::prelude::*;
use crate::database::errors::ErrorView;
use crate::database::laws::{law_delete_after_insert, law_read_after_insert};
use crate::database::messages::int_text;
use crate::database::{
    delete_completes, delete_spec, insert_completes, insert_safe, insert_spec, keys_of, new_id,
    path_completes, read_spec, resolve, result_view, update_spec, Database, Resolved,
};
use crate::json::{Json, JsonV};
use crate::text::{drop_empty, split_spec, views};
use self::query_api::{opt_view, parses, query_parses, queries_from, QueriesView};
use self::utils::split_path;

verus! {

/// The methods of a request that the service tells apart.
#[derive(Debug, Clone, Copy, PartialEq, Eq, Structural)]
pub enum Method {
    Get,
    Post,
    Put,
    Delete,
    Other,
}

/// The answer to a request: a status code with a JSON body or with a text.
#[derive(Debug)]
pub enum Reply {
    Json(u16, Json),
    Text(u16, String),
}

/// The status code and the body of a [`Reply`].
pub enum ReplyView {
    Json(u16, JsonV),
    Text(u16, Seq<char>),
}

pub open spec fn reply_view(r: Reply) -> ReplyView {
    match r {
        Reply::Json(c, b) => ReplyView::Json(c, b@),
        Reply::Text(c, m) => ReplyView::Text(c, m@),
    }
}

/// The names of the tables as a JSON array of strings.
pub open spec fn tables_json(data: JsonV) -> JsonV {
    JsonV::Array(
        Seq::new(keys_of(data->Object_0).len(), |i: int| JsonV::Str(keys_of(data->Object_0)[i])),
    )
}

/// The query parameters of a request.
pub open spec fn request_queries(query: Option<Seq<char>>) -> Option<QueriesView> {
    match query {
        Some(q) => Some(queries_from(split_spec(q, '&'))),
        None => None,
    }
}

/// What a request does and answers, where `fallback` is the id that a new
/// record without its own gets: the tables for the root path; otherwise the
/// method reads, inserts, updates or deletes at the path. A change asks for the
/// database to be written back.
pub open spec fn respond_spec(
    data: JsonV,
    method: Method,
    path: Seq<char>,
    query: Option<Seq<char>>,
    body: JsonV,
    fallback: i64,
) -> (JsonV, ReplyView, bool) {
    let parts = drop_empty(split_spec(path, '/'));
    if parts.len() == 0 {
        (data, ReplyView::Json(200, tables_json(data)), false)
    } else {
        match method {
            Method::Get => match read_spec(data, parts, request_queries(query)) {
                Ok(v) => (data, ReplyView::Json(200, v), false),
                Err(ErrorView::NotFound(m)) => (data, ReplyView::Text(404, m), false),
                Err(_) => (data, ReplyView::Text(500, "Server Error"@), false),
            },
            Method::Post => {
                let (d, r) = insert_spec(data, parts, body, fallback);
                match r {
                    Ok(v) => (d, ReplyView::Json(201, v), true),
                    Err(ErrorView::NotFound(m)) => (d, ReplyView::Text(404, m), false),
                    Err(ErrorView::Conflict(m)) => (d, ReplyView::Text(409, m), false),
                }
            },
            Method::Put => {
                let (d, r) = update_spec(data, parts, body);
                match r {
                    Ok(v) => (d, ReplyView::Json(200, v), true),
                    Err(ErrorView::NotFound(m)) => (d, ReplyView::Text(404, m), false),
                    Err(_) => (d, ReplyView::Text(500, "Server Error"@), false),
                }
            },
            Method::Delete => {
                let (d, r) = delete_spec(data, parts);
                match r {
                    Ok(v) => (d, ReplyView::Json(200, v), true),
                    Err(ErrorView::NotFound(m)) => (d, ReplyView::Text(404, m), false),
                    Err(_) => (d, ReplyView::Text(404, "Server Error"@), false),
                }
            },
            Method::Other => (data, ReplyView::Text(405, "Method Not Allowed"@), false),
        }
    }
}

/// The requests that the service completes: the root path lists the tables of
/// an object; the other paths must complete the operation of their method.
pub open spec fn respond_completes(
    data: JsonV,
    method: Method,
    path: Seq<char>,
    query: Option<Seq<char>>,
    body: JsonV,
) -> bool {
    let parts = drop_empty(split_spec(path, '/'));
    if parts.len() == 0 {
        data is Object
    } else {
        match method {
            Method::Get => path_completes(data, parts) && (query matches Some(q) ==> query_parses(q)),
            Method::Post => insert_safe(data, parts, body),
            Method::Put => !(resolve(data, parts) is Broken),
            Method::Delete => delete_completes(data, parts),
            Method::Other => true,
        }
    }
}

/// The service that answers the REST requests.
pub struct RestService;

impl RestService {
    /// Whether the service completes the request, as `respond_completes` states.
    pub fn completes(db: &Database, method: Method, path: &String, query: &Option<String>, body: &Json) -> (r: bool)
        ensures
            r == respond_completes(db@.data, method, path@, opt_view(*query), body@),
    {
        let parts = split_path(path.clone());
        if parts.len() == 0 {
            return match db.data() {
                Json::Object(_) => true,
                _ => false,
            };
        }
        match method {
            Method::Get => {
                db.can_follow(&parts) && match query {
                    Some(q) => parses(q.as_str()),
                    None => true,
                }
            },
            Method::Post => db.can_insert(&parts, body),
            Method::Put => db.can_follow(&parts),
            Method::Delete => db.can_delete(&parts),
            Method::Other => true,
        }
    }

    /// Answers a request: `body` is the record that a `POST` or a `PUT` carries.
    pub fn respond(db: &mut Database, method: Method, path: String, query: Option<String>, body: Json) -> (r: (
        Reply,
        bool,
    ))
        requires
            respond_completes(old(db)@.data, method, path@, opt_view(query), body@),
        ensures
            final(db)@.path == old(db)@.path,
            final(db)@.default_pk == old(db)@.default_pk,
            exists|f: i64|
                #[trigger] respond_spec(old(db)@.data, method, path@, opt_view(query), body@, f) == (
                    final(db)@.data,
                    reply_view(r.0),
                    r.1,
                ),
            !(method == Method::Post && !crate::database::has_own_id(body@)) ==> respond_spec(
                old(db)@.data,
                method,
                path@,
                opt_view(query),
                body@,
                0,
            ) == (final(db)@.data, reply_view(r.0), r.1),
    {
        let ghost d = db@.data;
        let ghost q = opt_view(query);
        let ghost bv = body@;
        let mut path_parts = split_path(path);
        let ghost parts = views(path_parts@);
        if path_parts.len() == 0 {
            let names = db.tables();
            let mut items: Vec<Json> = Vec::new();
            let mut i: usize = 0;
            while i < names.len()
                invariant
                    i <= names@.len(),
                    items@.len() == i,
                    forall|j: int| 0 <= j < i ==> (#[trigger] items@[j])@ == JsonV::Str(names@[j]@),
                decreases names@.len() - i,
            {
                items.push(Json::Str(names[i].clone()));
                i = i + 1;
            }
            let listing = Json::Array(items);
            proof {
                crate::json::lemma_items_view(items@);
                assert(views(names@).len() == names@.len());
                assert forall|j: int| 0 <= j < names@.len() implies views(names@)[j] == names@[j]@ by {}
                assert(crate::json::items_view(items@) =~= tables_json(d)->Array_0);
                assert(respond_spec(d, method, path@, q, bv, 0) == (d, ReplyView::Json(200, listing@), false));
            }
            return (Reply::Json(200, listing), false);
        }
        let r: (Reply, bool) = match method {
            Method::Get => {
                let queries = match &query {
                    Some(qs) => query_api::parse(Some(qs.as_str())),
                    None => None,
                };
                proof {
                    assert(crate::database::queries_view(queries) == request_queries(q));
                }
                match db.read(&mut path_parts, queries) {
                    Ok(record) => (Reply::Json(200, record), false),
                    Err(crate::database::errors::Errors::NotFound(msg)) => (Reply::Text(404, msg), false),
                    Err(_) => (Reply::Text(500, "Server Error".to_string()), false),
                }
            },
            Method::Post => {
                let r = db.insert(&mut path_parts, body);
                let ghost rv = result_view(r);
                let out = match r {
                    Ok(record) => (Reply::Json(201, record), true),
                    Err(crate::database::errors::Errors::NotFound(msg)) => (Reply::Text(404, msg), false),
                    Err(crate::database::errors::Errors::Conflict(msg)) => (Reply::Text(409, msg), false),
                };
                proof {
                    let f = choose|f: i64| #[trigger] insert_spec(d, parts, bv, f) == (db@.data, rv);
                    assert(respond_spec(d, method, path@, q, bv, f) == (db@.data, reply_view(out.0), out.1));
                }
                out
            },
            Method::Put => {
                match db.update(&mut path_parts, body) {
                    Ok(record) => (Reply::Json(200, record), true),
                    Err(crate::database::errors::Errors::NotFound(msg)) => (Reply::Text(404, msg), false),
                    Err(_) => (Reply::Text(500, "Server Error".to_string()), false),
                }
            },
            Method::Delete => {
                match db.delete(&mut path_parts) {
                    Ok(record) => (Reply::Json(200, record), true),
                    Err(crate::database::errors::Errors::NotFound(msg)) => (Reply::Text(404, msg), false),
                    Err(_) => (Reply::Text(404, "Server Error".to_string()), false),
                }
            },
            Method::Other => (Reply::Text(405, "Method Not Allowed".to_string()), false),
        };
        proof {
            if method != Method::Post {
                assert(respond_spec(d, method, path@, q, bv, 0) == (db@.data, reply_view(r.0), r.1));
            }
        }
        r
    }
}

/// A request that the service refuses, answered with a text, leaves the
/// database as it was and asks for no write; a request asks for a write
/// exactly where it changes records and succeeds.
pub proof fn law_refusal_keeps_data(
    data: JsonV,
    method: Method,
    path: Seq<char>,
    query: Option<Seq<char>>,
    body: JsonV,
    fallback: i64,
)
    ensures
        respond_spec(data, method, path, query, body, fallback).1 is Text ==> respond_spec(
            data,
            method,
            path,
            query,
            body,
            fallback,
        ).0 == data && !respond_spec(data, method, path, query, body, fallback).2,
        respond_spec(data, method, path, query, body, fallback).2 <==> (
        respond_spec(data, method, path, query, body, fallback).1 is Json && drop_empty(
            split_spec(path, '/'),
        ).len() > 0 && (method == Method::Post || method == Method::Put || method
            == Method::Delete)),
        method == Method::Get || method == Method::Other ==> respond_spec(
            data,
            method,
            path,
            query,
            body,
            fallback,
        ).0 == data,
{
}

/// A record that a `POST` adds to a table is what a `GET` of the table's path
/// and the record's id answers, without queries.
pub proof fn law_get_after_post(
    data: JsonV,
    path: Seq<char>,
    query: Option<Seq<char>>,
    body: JsonV,
    fallback: i64,
    get_path: Seq<char>,
    get_body: JsonV,
    get_fallback: i64,
)
    requires
        drop_empty(split_spec(path, '/')).len() > 0,
        insert_completes(data, drop_empty(split_spec(path, '/')), body, fallback),
        body is Object,
        respond_spec(data, Method::Post, path, query, body, fallback).1 is Json,
        drop_empty(split_spec(get_path, '/')) == drop_empty(split_spec(path, '/')).push(
            int_text(new_id(body, fallback) as int),
        ),
    ensures
        ({
            let (d2, posted, _) = respond_spec(data, Method::Post, path, query, body, fallback);
            posted matches ReplyView::Json(201, rec) && respond_spec(
                d2,
                Method::Get,
                get_path,
                None,
                get_body,
                get_fallback,
            ) == (d2, ReplyView::Json(200, rec), false)
        }),
{
    let parts = drop_empty(split_spec(path, '/'));
    law_read_after_insert(data, parts, body, fallback);
}

/// A `DELETE` of the record that a `POST` added, by its id, answers the record
/// and leaves the database as it was before the `POST`.
pub proof fn law_delete_after_post(
    data: JsonV,
    path: Seq<char>,
    query: Option<Seq<char>>,
    body: JsonV,
    fallback: i64,
    del_path: Seq<char>,
    del_query: Option<Seq<char>>,
    del_body: JsonV,
    del_fallback: i64,
)
    requires
        drop_empty(split_spec(path, '/')).len() > 0,
        insert_completes(data, drop_empty(split_spec(path, '/')), body, fallback),
        body is Object,
        respond_spec(data, Method::Post, path, query, body, fallback).1 is Json,
        drop_empty(split_spec(del_path, '/')) == drop_empty(split_spec(path, '/')).push(
            int_text(new_id(body, fallback) as int),
        ),
    ensures
        ({
            let (d2, posted, _) = respond_spec(data, Method::Post, path, query, body, fallback);
            let (d3, deleted, write) = respond_spec(
                d2,
                Method::Delete,
                del_path,
                del_query,
                del_body,
                del_fallback,
            );
            &&& d3 == data
            &&& write
            &&& posted matches ReplyView::Json(201, rec) && deleted == ReplyView::Json(200, rec)
        }),
{
    let parts = drop_empty(split_spec(path, '/'));
    law_delete_after_insert(data, parts, body, fallback);
}

} // verus!
