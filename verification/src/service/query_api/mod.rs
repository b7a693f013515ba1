//! # query
//! This module includes necessary structs and functions to parse query patameters in a spesific way.
pub mod page;
pub mod query;
pub mod sort;

use vstd::prelude::*;
use crate::service::query::QueryView;
use crate::text::{chars_of, find_char, first_pos, lemma_first_pos, lemma_first_pos_is, piece, split_by, split_spec, text_eq, views};
use self::page::{page_of, Page};
use self::query::{fits, param_fits, query_from, Query};
use self::sort::{sort_from, Sort, SortView};

verus! {

/// A simple struct to hold query parameters well structured.
#[derive(Debug, PartialEq)]
pub struct Queries {
    /// field names to return
    pub fields: Vec<String>,
    /// filter and operation parameters
    pub filter: Vec<Query>,
    /// Full text search
    pub q: Option<String>,
    /// Pagination parameters
    pub paginate: (Page, Page),
    /// Slice parameters
    pub slice: Vec<Query>,
    /// Sorting parameters
    pub sort: Vec<Sort>,
}

/// The parameters of a [`Queries`] as texts.
pub struct QueriesView {
    pub fields: Seq<Seq<char>>,
    pub filter: Seq<QueryView>,
    pub q: Option<Seq<char>>,
    pub paginate: (Page, Page),
    pub slice: Seq<QueryView>,
    pub sort: Seq<SortView>,
}

/// The texts of each filter query of a sequence.
pub open spec fn filter_views(s: Seq<Query>) -> Seq<QueryView> {
    s.map_values(|q: Query| q@)
}

/// The view of each sort of a sequence.
pub open spec fn sort_views(s: Seq<Sort>) -> Seq<SortView> {
    s.map_values(|x: Sort| x@)
}

/// The text of an optional string.
pub open spec fn opt_view(o: Option<String>) -> Option<Seq<char>> {
    match o {
        Some(s) => Some(s@),
        None => None,
    }
}

impl View for Queries {
    type V = QueriesView;

    open spec fn view(&self) -> QueriesView {
        QueriesView {
            fields: views(self.fields@),
            filter: filter_views(self.filter@),
            q: opt_view(self.q),
            paginate: self.paginate,
            slice: filter_views(self.slice@),
            sort: sort_views(self.sort@),
        }
    }
}

/// The queries that filter expressions write, in order.
pub open spec fn filters_from(ps: Seq<Seq<char>>) -> Seq<QueryView>
    decreases ps.len(),
{
    if ps.len() == 0 {
        Seq::empty()
    } else {
        filters_from(ps.drop_last()).push(query_from(ps.last()))
    }
}

/// The sorts that sort parameters name, in order.
pub open spec fn sorts_from(ps: Seq<Seq<char>>) -> Seq<SortView>
    decreases ps.len(),
{
    if ps.len() == 0 {
        Seq::empty()
    } else {
        sorts_from(ps.drop_last()).push(sort_from(ps.last()))
    }
}

/// The parameters before any is given: the first ten records.
pub open spec fn fresh_queries() -> QueriesView {
    QueriesView {
        fields: Seq::empty(),
        filter: Seq::empty(),
        q: None,
        paginate: (Page::OFFSET(0), Page::LIMIT(10)),
        slice: Seq::empty(),
        sort: Seq::empty(),
    }
}

/// Where a parameter whose key starts with `_` goes: `_fields`, `_sort` and
/// `_filter` set their lists to their comma separated items, `_offset` and
/// `_limit` set the page where their value is a number that fits a `u8`, `_q`
/// sets the search. A later parameter of the same key replaces an earlier one.
pub open spec fn place(qs: QueriesView, key: Seq<char>, value: Seq<char>) -> QueriesView {
    if key == "_fields"@ {
        QueriesView { fields: split_spec(value, ','), ..qs }
    } else if key == "_offset"@ || key == "_limit"@ {
        match page_of(key, value) {
            Some(Page::OFFSET(n)) => QueriesView {
                paginate: (Page::OFFSET(n), qs.paginate.1),
                ..qs
            },
            Some(Page::LIMIT(n)) => QueriesView { paginate: (qs.paginate.0, Page::LIMIT(n)), ..qs },
            None => qs,
        }
    } else if key == "_sort"@ {
        QueriesView {
            sort: sorts_from(split_spec(value, ',')),
            ..qs
        }
    } else if key == "_filter"@ {
        QueriesView {
            filter: filters_from(split_spec(value, ',')),
            ..qs
        }
    } else if key == "_q"@ {
        QueriesView { q: Some(value), ..qs }
    } else {
        qs
    }
}

/// What one `key=value` parameter does to the parameters parsed so far: only a
/// key that starts with `_` counts, and the value is all that follows the
/// first `=`.
pub open spec fn apply_param(qs: QueriesView, param: Seq<char>) -> QueriesView {
    if param.len() == 0 {
        qs
    } else {
        match first_pos(param, '=') {
            Some(i) => {
                let key = param.take(i);
                if key.len() > 0 && key[0] == '_' {
                    place(qs, key, param.skip(i + 1))
                } else {
                    qs
                }
            },
            None => qs,
        }
    }
}

/// The parameters that a sequence of `key=value` texts gives, later ones
/// replacing what earlier ones set.
pub open spec fn queries_from(params: Seq<Seq<char>>) -> QueriesView
    decreases params.len(),
{
    if params.len() == 0 {
        fresh_queries()
    } else {
        apply_param(queries_from(params.drop_last()), params.last())
    }
}

/// The parameters on which parsing completes: each filter expression must fit
/// the operator scan (see `param_fits`).
pub open spec fn param_parses(param: Seq<char>) -> bool {
    match first_pos(param, '=') {
        Some(i) => param.take(i) == "_filter"@ ==> forall|j: int|
            0 <= j < split_spec(param.skip(i + 1), ',').len() ==> param_fits(
                #[trigger] split_spec(param.skip(i + 1), ',')[j],
            ),
        None => true,
    }
}

/// The query strings on which `parse` completes.
pub open spec fn query_parses(query: Seq<char>) -> bool {
    forall|j: int|
        0 <= j < split_spec(query, '&').len() ==> param_parses(#[trigger] split_spec(query, '&')[j])
}

impl Queries {
    /// Creates a new instance with the empty values.
    pub fn new() -> (r: Queries)
        ensures
            r@ == fresh_queries(),
    {
        let r = Queries {
            fields: Vec::<String>::new(),
            filter: Vec::<Query>::new(),
            q: None,
            paginate: (Page::OFFSET(0), Page::LIMIT(10)),
            slice: Vec::<Query>::new(),
            sort: Vec::<Sort>::new(),
        };
        proof {
            assert(r@.fields =~= Seq::<Seq<char>>::empty());
            assert(r@.filter =~= Seq::<QueryView>::empty());
            assert(r@.slice =~= Seq::<QueryView>::empty());
            assert(r@.sort =~= Seq::<SortView>::empty());
        }
        r
    }
}

/// Parses query params. For duplicate parameters only last one will be used,
/// as documented here: a later `_fields`, `_sort` or `_filter` replaces the
/// earlier one, as a later `_q`, `_offset` or `_limit` does.
pub fn parse(query: Option<&str>) -> (r: Option<Queries>)
    requires
        query matches Some(q) ==> query_parses(q@),
    ensures
        match query {
            Some(q) => r matches Some(x) && x@ == queries_from(split_spec(q@, '&')),
            None => r is None,
        },
{
    match query {
        Some(params) => {
            let mut queries = Queries::new();
            let pieces = split_by(params, '&');
            let ghost ps = views(pieces@);
            let mut i: usize = 0;
            while i < pieces.len()
                invariant
                    i <= pieces@.len(),
                    ps == views(pieces@),
                    ps == split_spec(params@, '&'),
                    query_parses(params@),
                    queries@ == queries_from(ps.take(i as int)),
                decreases pieces@.len() - i,
            {
                proof {
                    assert(ps.take(i + 1).drop_last() =~= ps.take(i as int));
                    assert(ps.take(i + 1).last() == pieces@[i as int]@);
                    assert(param_parses(ps[i as int]));
                }
                let param = pieces[i].as_str();
                if !param.is_empty() {
                    let cs = chars_of(param);
                    proof {
                        lemma_first_pos(param@, '=');
                    }
                    if let Some(eq) = find_char(&cs, '=') {
                        let key = piece(param, 0, eq);
                        let value = piece(param, eq + 1, cs.len());
                        proof {
                            assert(key@ =~= param@.take(eq as int));
                            assert(value@ =~= param@.skip(eq + 1));
                        }
                        if starts_with_underscore(key.as_str()) {
                            set_where_it_belongs(
                                &mut queries,
                                Query { key: key, value: value, op: "=".to_string() },
                            );
                        }
                    }
                }
                i = i + 1;
            }
            proof {
                assert(ps.take(pieces@.len() as int) =~= ps);
            }
            Some(queries)
        },
        None => None,
    }
}

fn starts_with_underscore(s: &str) -> (r: bool)
    ensures
        r == (s@.len() > 0 && s@[0] == '_'),
{
    let cs = chars_of(s);
    cs.len() > 0 && cs[0] == '_'
}

/// The queries that the comma separated items of `value` write.
fn filters_of(value: &str) -> (r: Vec<Query>)
    requires
        forall|j: int|
            0 <= j < split_spec(value@, ',').len() ==> param_fits(#[trigger] split_spec(value@, ',')[j]),
    ensures
        filter_views(r@) == filters_from(split_spec(value@, ',')),
{
    let pieces = split_by(value, ',');
    let ghost ps = views(pieces@);
    let mut r: Vec<Query> = Vec::new();
    let mut i: usize = 0;
    while i < pieces.len()
        invariant
            i <= pieces@.len(),
            ps == views(pieces@),
            ps == split_spec(value@, ','),
            forall|j: int| 0 <= j < ps.len() ==> param_fits(#[trigger] ps[j]),
            filter_views(r@) == filters_from(ps.take(i as int)),
        decreases pieces@.len() - i,
    {
        proof {
            assert(ps[i as int] == pieces@[i as int]@);
            assert(ps.take(i + 1).drop_last() =~= ps.take(i as int));
        }
        let x = Query::from(pieces[i].as_str());
        proof {
            assert(filter_views(r@.push(x)) =~= filters_from(ps.take(i + 1)));
        }
        r.push(x);
        i = i + 1;
    }
    proof {
        assert(ps.take(pieces@.len() as int) =~= ps);
    }
    r
}

/// The sorts that the comma separated items of `value` name.
fn sorts_of(value: &str) -> (r: Vec<Sort>)
    ensures
        sort_views(r@) == sorts_from(split_spec(value@, ',')),
{
    let pieces = split_by(value, ',');
    let ghost ps = views(pieces@);
    let mut r: Vec<Sort> = Vec::new();
    let mut i: usize = 0;
    while i < pieces.len()
        invariant
            i <= pieces@.len(),
            ps == views(pieces@),
            ps == split_spec(value@, ','),
            sort_views(r@) == sorts_from(ps.take(i as int)),
        decreases pieces@.len() - i,
    {
        proof {
            assert(ps[i as int] == pieces@[i as int]@);
            assert(ps.take(i + 1).drop_last() =~= ps.take(i as int));
        }
        let x = Sort::from(pieces[i].as_str());
        proof {
            assert(sort_views(r@.push(x)) =~= sorts_from(ps.take(i + 1)));
        }
        r.push(x);
        i = i + 1;
    }
    proof {
        assert(ps.take(pieces@.len() as int) =~= ps);
    }
    r
}

/// Puts one `_key=value` parameter where it belongs, replacing what an earlier
/// parameter of the same key set.
fn set_where_it_belongs(queries: &mut Queries, q: Query)
    requires
        q.key@ == "_filter"@ ==> forall|j: int|
            0 <= j < split_spec(q.value@, ',').len() ==> param_fits(
                #[trigger] split_spec(q.value@, ',')[j],
            ),
    ensures
        final(queries)@ == place(old(queries)@, q.key@, q.value@),
{
    let key = q.key.as_str();
    if text_eq(key, "_fields") {
        queries.fields = split_by(q.value.as_str(), ',');
    } else if text_eq(key, "_offset") || text_eq(key, "_limit") {
        if let Some(p) = page::parse(Query { key: q.key.clone(), value: q.value.clone(), op: q.op.clone() }) {
            match p {
                Page::OFFSET(_) => queries.paginate.0 = p,
                Page::LIMIT(_) => queries.paginate.1 = p,
            }
        }
    } else if text_eq(key, "_sort") {
        queries.sort = sorts_of(q.value.as_str());
    } else if text_eq(key, "_filter") {
        queries.filter = filters_of(q.value.as_str());
    } else if text_eq(key, "_q") {
        queries.q = Some(q.value);
    }
}

/// Whether the filter expressions among `value`'s comma separated items all fit.
fn all_fit(value: &str) -> (r: bool)
    ensures
        r == forall|j: int|
            0 <= j < split_spec(value@, ',').len() ==> param_fits(#[trigger] split_spec(value@, ',')[j]),
{
    let pieces = split_by(value, ',');
    let ghost ps = views(pieces@);
    let mut i: usize = 0;
    while i < pieces.len()
        invariant
            i <= pieces@.len(),
            ps == views(pieces@),
            ps == split_spec(value@, ','),
            forall|j: int| 0 <= j < i ==> param_fits(#[trigger] ps[j]),
        decreases pieces@.len() - i,
    {
        proof {
            assert(ps[i as int] == pieces@[i as int]@);
        }
        if !fits(pieces[i].as_str()) {
            return false;
        }
        i = i + 1;
    }
    true
}

/// Whether `parse` completes on the query string `query`, as `query_parses` states.
pub fn parses(query: &str) -> (r: bool)
    ensures
        r == query_parses(query@),
{
    let pieces = split_by(query, '&');
    let ghost ps = views(pieces@);
    let mut i: usize = 0;
    while i < pieces.len()
        invariant
            i <= pieces@.len(),
            ps == views(pieces@),
            ps == split_spec(query@, '&'),
            forall|j: int| 0 <= j < i ==> param_parses(#[trigger] ps[j]),
        decreases pieces@.len() - i,
    {
        let param = pieces[i].as_str();
        proof {
            assert(ps[i as int] == param@);
            lemma_first_pos(param@, '=');
        }
        let cs = chars_of(param);
        if let Some(eq) = find_char(&cs, '=') {
            proof {
                lemma_first_pos(cs@, '=');
            }
            let key = piece(param, 0, eq);
            let value = piece(param, eq + 1, cs.len());
            proof {
                assert(key@ =~= param@.take(eq as int));
                assert(value@ =~= param@.skip(eq + 1));
            }
            if text_eq(key.as_str(), "_filter") && !all_fit(value.as_str()) {
                proof {
                    assert(!param_parses(ps[i as int]));
                }
                return false;
            }
        }
        i = i + 1;
    }
    true
}

/// A parameter `key=value` whose key holds no `=` is read as that key and value.
pub proof fn lemma_param_parts(key: Seq<char>, value: Seq<char>)
    requires
        key.len() > 0,
        key[0] == '_',
        forall|j: int| 0 <= j < key.len() ==> key[j] != '=',
    ensures
        apply_param(fresh_queries(), key + "="@ + value) == place(fresh_queries(), key, value),
        forall|qs: QueriesView| #[trigger] apply_param(qs, key + "="@ + value) == place(qs, key, value),
{
    reveal_strlit("=");
    let param = key + "="@ + value;
    assert(param[key.len() as int] == '=');
    assert forall|j: int| 0 <= j < key.len() implies param[j] != '=' by {
        assert(param[j] == key[j]);
    }
    lemma_first_pos_is(param, '=', key.len() as int);
    assert(param.take(key.len() as int) =~= key);
    assert(param.skip(key.len() as int + 1) =~= value);
}

/// For duplicate `_fields`, `_sort`, `_filter` or `_q` parameters only the
/// last one is used: whatever the parameters before it, a last `key=v` sets
/// that part of the queries from `v` alone, and leaves the others as they were.
pub proof fn law_last_param_wins(params: Seq<Seq<char>>, key: Seq<char>, v: Seq<char>)
    requires
        key == "_fields"@ || key == "_sort"@ || key == "_filter"@ || key == "_q"@,
    ensures
        queries_from(params.push(key + "="@ + v)) == place(queries_from(params), key, v),
        key == "_fields"@ ==> queries_from(params.push(key + "="@ + v)) == (QueriesView {
            fields: split_spec(v, ','),
            ..queries_from(params)
        }),
        key == "_sort"@ ==> queries_from(params.push(key + "="@ + v)) == (QueriesView {
            sort: sorts_from(split_spec(v, ',')),
            ..queries_from(params)
        }),
        key == "_filter"@ ==> queries_from(params.push(key + "="@ + v)) == (QueriesView {
            filter: filters_from(split_spec(v, ',')),
            ..queries_from(params)
        }),
        key == "_q"@ ==> queries_from(params.push(key + "="@ + v)) == (QueriesView {
            q: Some(v),
            ..queries_from(params)
        }),
{
    reveal_strlit("_fields");
    reveal_strlit("_offset");
    reveal_strlit("_limit");
    reveal_strlit("_sort");
    reveal_strlit("_filter");
    reveal_strlit("_q");
    lemma_param_parts(key, v);
    let ps = params.push(key + "="@ + v);
    assert(ps.drop_last() =~= params);
    let qs = queries_from(params);
    assert(apply_param(qs, key + "="@ + v) == place(qs, key, v));
    assert(queries_from(ps) == place(qs, key, v));
    assert("_fields"@[1] != "_offset"@[1]);
    assert("_fields"@[3] != "_filter"@[3]);
    assert("_filter"@[1] != "_offset"@[1]);
    if key == "_fields"@ {
        assert(key != "_offset"@ && key != "_limit"@);
    } else if key == "_sort"@ {
        assert(key != "_fields"@ && key != "_offset"@ && key != "_limit"@);
    } else if key == "_filter"@ {
        assert(key != "_fields"@ && key != "_offset"@ && key != "_limit"@ && key != "_sort"@);
    } else {
        assert(key.len() == 2);
        assert(key != "_fields"@ && key != "_offset"@ && key != "_limit"@ && key != "_sort"@
            && key != "_filter"@);
    }
}

/// For duplicate `_offset` or `_limit` parameters only the last one that gives
/// a page is used: whatever the parameters before it, it sets its side of the
/// page and keeps the other.
pub proof fn law_last_page_wins(params: Seq<Seq<char>>, key: Seq<char>, v: Seq<char>)
    requires
        key == "_offset"@ || key == "_limit"@,
        page_of(key, v) is Some,
    ensures
        key == "_offset"@ ==> queries_from(params.push(key + "="@ + v)).paginate == (
            page_of(key, v)->Some_0,
            queries_from(params).paginate.1,
        ),
        key == "_limit"@ ==> queries_from(params.push(key + "="@ + v)).paginate == (
            queries_from(params).paginate.0,
            page_of(key, v)->Some_0,
        ),
{
    reveal_strlit("_offset");
    reveal_strlit("_limit");
    reveal_strlit("_fields");
    lemma_param_parts(key, v);
    let ps = params.push(key + "="@ + v);
    assert(ps.drop_last() =~= params);
    let qs = queries_from(params);
    assert(apply_param(qs, key + "="@ + v) == place(qs, key, v));
    assert(queries_from(ps) == place(qs, key, v));
    if key == "_offset"@ {
        assert(key[1] != "_fields"@[1]);
        assert(key != "_fields"@);
        assert(page_of(key, v)->Some_0 is OFFSET);
    } else {
        assert(key.len() != "_fields"@.len());
        assert(key != "_offset"@);
        assert(page_of(key, v)->Some_0 is LIMIT);
    }
}

} // verus!
