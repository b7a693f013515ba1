//! Parses the parameters of a query string into key, operation and value.
use vstd::prelude::*;
use crate::text::{drop_empty, keep_nonempty, split_by, split_spec, views};

verus! {

/// A simple struct to hold necessary information about a query parameter.
#[derive(Debug, PartialEq, Eq)]
pub struct Query {
    /// key of the parameter. It holds pure key without any `_eq` etc.
    pub key: String,
    /// value of the parameter.
    pub value: String,
    /// operation of the parameter. =, eq,neq,gtw,let,like
    pub op: String,
}

/// The texts of a [`Query`].
pub struct QueryView {
    pub key: Seq<char>,
    pub value: Seq<char>,
    pub op: Seq<char>,
}

impl View for Query {
    type V = QueryView;

    open spec fn view(&self) -> QueryView {
        QueryView { key: self.key@, value: self.value@, op: self.op@ }
    }
}

/// The texts of each query of a sequence.
pub open spec fn query_views(s: Seq<Query>) -> Seq<QueryView> {
    s.map_values(|q: Query| q@)
}

impl Query {
    /// Creates a query from its parts.
    pub fn new(key: String, op: String, value: String) -> (r: Query)
        ensures
            r.key == key,
            r.op == op,
            r.value == value,
    {
        Query { key: key, op: op, value: value }
    }
}

/// The query that one `key=value` parameter gives: the key's pieces between
/// underscores name the key and the operation where there are two or more of
/// them; otherwise the whole key stands with the operation `=`. A parameter
/// without `=` gives none.
pub open spec fn param_query(param: Seq<char>) -> Option<QueryView> {
    let parts = split_spec(param, '=');
    if param.len() == 0 || parts.len() < 2 {
        None
    } else {
        let key_op = drop_empty(split_spec(parts[0], '_'));
        if key_op.len() >= 2 {
            Some(QueryView { key: key_op[0], op: key_op[1], value: parts[1] })
        } else {
            Some(QueryView { key: parts[0], op: seq!['='], value: parts[1] })
        }
    }
}

/// The queries of a sequence of parameters, in order.
pub open spec fn queries_of(params: Seq<Seq<char>>) -> Seq<QueryView>
    decreases params.len(),
{
    if params.len() == 0 {
        Seq::empty()
    } else {
        let r = queries_of(params.drop_last());
        match param_query(params.last()) {
            Some(q) => r.push(q),
            None => r,
        }
    }
}

/// The query of one parameter, as `param_query` states it.
fn parse_param(param: &str) -> (r: Option<Query>)
    ensures
        match r {
            Some(q) => param_query(param@) == Some(q@),
            None => param_query(param@) is None,
        },
{
    if param.is_empty() {
        return None;
    }
    let parts = split_by(param, '=');
    if parts.len() < 2 {
        return None;
    }
    proof {
        assert(views(parts@)[0] == parts@[0]@);
        assert(views(parts@)[1] == parts@[1]@);
    }
    let key = parts[0].clone();
    let value = parts[1].clone();
    let key_op_vec = keep_nonempty(split_by(key.as_str(), '_'));
    if key_op_vec.len() >= 2 {
        proof {
            assert(views(key_op_vec@)[0] == key_op_vec@[0]@);
            assert(views(key_op_vec@)[1] == key_op_vec@[1]@);
        }
        Some(Query { key: key_op_vec[0].clone(), value: value, op: key_op_vec[1].clone() })
    } else {
        let op = "=".to_string();
        proof {
            reveal_strlit("=");
            assert(op@ =~= seq!['=']);
        }
        Some(Query { key: key, value: value, op: op })
    }
}

/// Parses the `&` separated parameters of a query string into queries, in
/// order; empty parameters and parameters without `=` are skipped.
pub fn parse_query(query: Option<&str>) -> (r: Vec<Query>)
    ensures
        match query {
            Some(q) => query_views(r@) == queries_of(split_spec(q@, '&')),
            None => r@.len() == 0,
        },
{
    match query {
        Some(params) => {
            let pieces = split_by(params, '&');
            let ghost ps = views(pieces@);
            let mut queries: Vec<Query> = Vec::new();
            let mut i: usize = 0;
            while i < pieces.len()
                invariant
                    i <= pieces@.len(),
                    ps == views(pieces@),
                    ps == split_spec(params@, '&'),
                    query_views(queries@) == queries_of(ps.take(i as int)),
                decreases pieces@.len() - i,
            {
                proof {
                    assert(ps.take(i + 1).drop_last() =~= ps.take(i as int));
                    assert(ps.take(i + 1).last() == pieces@[i as int]@);
                }
                match parse_param(pieces[i].as_str()) {
                    Some(q) => {
                        proof {
                            assert(query_views(queries@.push(q)) =~= query_views(queries@).push(q@));
                        }
                        queries.push(q);
                    },
                    None => {},
                }
                i = i + 1;
            }
            proof {
                assert(ps.take(pieces@.len() as int) =~= ps);
            }
            queries
        },
        None => Vec::new(),
    }
}

} // verus!
