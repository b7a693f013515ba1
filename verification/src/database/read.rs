use vstd::prelude::*;
use crate::database::errors::{ErrorView, Errors};
use crate::database::query_api::{filter, q};
use crate::database::{node_at, node_ref, path_completes, resolve, Database, Resolved};
use crate::json::{Json, JsonV};
use crate::service::query_api::{Queries, QueriesView};
use crate::text::views;

verus! {

/// The parameters of an optional [`Queries`].
pub open spec fn queries_view(q: Option<Queries>) -> Option<QueriesView> {
    match q {
        Some(x) => Some(x@),
        None => None,
    }
}

/// What a read gives of the value that its path leads to: the filters and then
/// the full-text search of the queries, where there are queries.
pub open spec fn read_value(node: JsonV, queries: Option<QueriesView>) -> JsonV {
    match queries {
        Some(qs) => q::q_spec(filter::filter_spec(node, qs.filter), qs.q),
        None => node,
    }
}

/// The message of a path whose key `key` finds nothing.
pub open spec fn path_not_found(key: Seq<char>) -> Seq<char> {
    "Table not found "@ + key
}

/// What reading `keys` from `data` gives.
pub open spec fn read_spec(data: JsonV, keys: Seq<Seq<char>>, queries: Option<QueriesView>) -> Result<
    JsonV,
    ErrorView,
> {
    match resolve(data, keys) {
        Resolved::Found(p) => Ok(read_value(node_at(data, p), queries)),
        Resolved::Missing(j) => Err(ErrorView::NotFound(path_not_found(keys[j]))),
        Resolved::Broken => Err(ErrorView::NotFound(Seq::empty())),
    }
}

/// The view of a result of a database operation.
pub open spec fn result_view(r: Result<Json, Errors>) -> Result<JsonV, ErrorView> {
    match r {
        Ok(v) => Ok(v@),
        Err(e) => Err(e@),
    }
}

impl Database {
    /// Reads the desired result with the given path.
    pub fn read(&mut self, keys: &mut Vec<String>, queries: Option<Queries>) -> (r: Result<
        Json,
        Errors,
    >)
        requires
            path_completes(old(self)@.data, views(old(keys)@)),
        ensures
            final(self)@ == old(self)@,
            *final(keys) == *old(keys),
            result_view(r) == read_spec(old(self)@.data, views(old(keys)@), queries_view(queries)),
    {
        let data = &self.data;
        match Self::get_object(keys, data) {
            Ok(path) => {
                proof {
                    crate::database::lemma_resolve_valid(data@, views(keys@));
                }
                let obj = node_ref(data, &path);
                if let Some(q) = queries {
                    let mut clone = obj.deep_clone();
                    filter::apply(&mut clone, &q);
                    q::apply(&mut clone, &q);
                    return Ok(clone);
                }
                Ok(obj.deep_clone())
            },
            Err(j) => {
                proof {
                    crate::database::lemma_resolve_valid(data@, views(keys@));
                    assert(views(keys@)[j as int] == keys@[j as int]@);
                }
                let mut msg = "Table not found ".to_string();
                msg.append(keys[j].as_str());
                Err(Errors::NotFound(msg))
            },
        }
    }
}

} // verus!
