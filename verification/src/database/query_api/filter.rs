//! # filter
//! Keeps the records of an array that pass the filters of the query api.
use vstd::prelude::*;
use crate::json::{get_field, items_view, lemma_items_view, Json, JsonV};
use crate::service::query::QueryView;
use crate::service::query_api::query::Query;
use crate::service::query_api::{filter_views, Queries};
use crate::text::{
    i64_from_decimal, parse_i64, split_by, split_spec, starts_with, starts_with_spec, text_eq,
    views,
};

verus! {

/// The query value read as the type of the field: a boolean is `true` only for
/// the text `true`, a number is the integer the text writes (null where it
/// writes none), a string is the text. Other fields take no filter.
pub open spec fn convert_spec(field: JsonV, qv: Seq<char>) -> Option<JsonV> {
    match field {
        JsonV::Bool(_) => Some(JsonV::Bool(qv == "true"@)),
        JsonV::Number(_) => Some(
            match i64_from_decimal(qv) {
                Some(n) => JsonV::Number(n),
                None => JsonV::Null,
            },
        ),
        JsonV::Str(_) => Some(JsonV::Str(qv)),
        _ => None,
    }
}

/// Compares two numbers where both are numbers; passes otherwise.
pub open spec fn num_check(field: JsonV, qval: JsonV, op: Seq<char>) -> bool {
    match (field, qval) {
        (JsonV::Number(a), JsonV::Number(b)) => if op == ">"@ {
            a > b
        } else if op == ">="@ {
            a >= b
        } else if op == "<"@ {
            a < b
        } else {
            a <= b
        },
        _ => true,
    }
}

/// Whether the field passes the filter `op` with the query value `qv`. The
/// operators are `=`, `!=`, `>`, `>=`, `<`, `<=` (on integers), `~=` (the
/// field starts with the value) and `|=` (the field equals one of the values
/// separated by `|`); any other operator, and a field that takes no filter,
/// passes.
pub open spec fn is_valid_spec(op: Seq<char>, field: JsonV, qv: Seq<char>) -> bool {
    match convert_spec(field, qv) {
        None => true,
        Some(qval) => if op == "="@ {
            field == qval
        } else if op == "!="@ {
            field != qval
        } else if op == ">"@ || op == ">="@ || op == "<"@ || op == "<="@ {
            num_check(field, qval, op)
        } else if op == "~="@ {
            match (field, qval) {
                (JsonV::Str(a), JsonV::Str(b)) => starts_with_spec(a, b),
                _ => true,
            }
        } else if op == "|="@ {
            exists|i: int|
                0 <= i < split_spec(qv, '|').len() && convert_spec(
                    field,
                    #[trigger] split_spec(qv, '|')[i],
                ) == Some(field)
        } else {
            true
        },
    }
}

/// On a boolean, number or string field, "not equal" passes exactly where
/// "equal" does not.
pub proof fn law_not_equal_negates(field: JsonV, qv: Seq<char>)
    requires
        field is Bool || field is Number || field is Str,
    ensures
        is_valid_spec("!="@, field, qv) == !is_valid_spec("="@, field, qv),
{
    reveal_strlit("=");
    reveal_strlit("!=");
    assert("!="@ != "="@) by {
        assert("!="@.len() != "="@.len());
    }
}

/// Whether a record passes one filter: a record without the filter's field does.
pub open spec fn filter_ok(item: JsonV, f: QueryView) -> bool {
    match get_field(item, f.key) {
        Some(x) => is_valid_spec(f.op, x, f.value),
        None => true,
    }
}

/// Whether a record passes every filter.
pub open spec fn passes(item: JsonV, filters: Seq<QueryView>) -> bool {
    forall|i: int| 0 <= i < filters.len() ==> #[trigger] filter_ok(item, filters[i])
}

/// The records that pass every filter, in order.
pub open spec fn keep_passing(items: Seq<JsonV>, filters: Seq<QueryView>) -> Seq<JsonV>
    decreases items.len(),
{
    if items.len() == 0 {
        items
    } else {
        let r = keep_passing(items.drop_last(), filters);
        if passes(items.last(), filters) {
            r.push(items.last())
        } else {
            r
        }
    }
}

/// An array keeps the records that pass the filters; other values stay as they are.
pub open spec fn filter_spec(v: JsonV, filters: Seq<QueryView>) -> JsonV {
    match v {
        JsonV::Array(items) => JsonV::Array(keep_passing(items, filters)),
        _ => v,
    }
}

/// Whether two scalar values are equal.
fn scalar_eq(a: &Json, b: &Json) -> (r: bool)
    requires
        !(a@ is Array) && !(a@ is Object),
        !(b@ is Array) && !(b@ is Object),
    ensures
        r == (a@ == b@),
{
    match (a, b) {
        (Json::Null, Json::Null) => true,
        (Json::Bool(x), Json::Bool(y)) => *x == *y,
        (Json::Number(x), Json::Number(y)) => *x == *y,
        (Json::Str(x), Json::Str(y)) => *x == *y,
        _ => false,
    }
}

fn convert_2_same_type(field_value: &Json, query_value: &str) -> (r: Option<Json>)
    ensures
        match r {
            Some(x) => convert_spec(field_value@, query_value@) == Some(x@),
            None => convert_spec(field_value@, query_value@) is None,
        },
{
    match field_value {
        Json::Bool(_) => Some(Json::Bool(text_eq(query_value, "true"))),
        Json::Number(_) => match parse_i64(query_value) {
            Some(n) => Some(Json::Number(n)),
            None => Some(Json::Null),
        },
        Json::Str(_) => Some(Json::Str(query_value.to_string())),
        _ => None,
    }
}

fn is_valid(op: &str, field_value: &Json, query_value: &str) -> (r: bool)
    ensures
        r == is_valid_spec(op@, field_value@, query_value@),
{
    let mut valid = true;
    let parsed_q = convert_2_same_type(field_value, query_value);
    if let Some(qval) = parsed_q {
        if text_eq(op, "=") {
            valid = scalar_eq(field_value, &qval);
        } else if text_eq(op, "!=") {
            valid = !scalar_eq(field_value, &qval);
        } else if text_eq(op, ">") || text_eq(op, ">=") || text_eq(op, "<") || text_eq(op, "<=") {
            if let Some(num_f) = field_value.as_i64() {
                if let Some(num_q) = qval.as_i64() {
                    if text_eq(op, ">") {
                        valid = num_f > num_q;
                    } else if text_eq(op, ">=") {
                        valid = num_f >= num_q;
                    } else if text_eq(op, "<") {
                        valid = num_f < num_q;
                    } else {
                        valid = num_f <= num_q;
                    }
                }
            }
        } else if text_eq(op, "~=") {
            match (field_value, &qval) {
                (Json::Str(str_f), Json::Str(str_q)) => {
                    valid = starts_with(str_f.as_str(), str_q.as_str());
                },
                _ => {},
            }
        } else if text_eq(op, "|=") {
            let parts = split_by(query_value, '|');
            let ghost ps = views(parts@);
            valid = false;
            let mut i: usize = 0;
            while i < parts.len() && !valid
                invariant
                    i <= parts@.len(),
                    ps == views(parts@),
                    ps == split_spec(query_value@, '|'),
                    valid ==> exists|j: int|
                        0 <= j < ps.len() && convert_spec(field_value@, #[trigger] ps[j]) == Some(
                            field_value@,
                        ),
                    !valid ==> forall|j: int|
                        0 <= j < i ==> convert_spec(field_value@, #[trigger] ps[j]) != Some(
                            field_value@,
                        ),
                decreases parts@.len() - i,
            {
                proof {
                    assert(ps[i as int] == parts@[i as int]@);
                }
                if let Some(qv) = convert_2_same_type(field_value, parts[i].as_str()) {
                    if scalar_eq(field_value, &qv) {
                        valid = true;
                    }
                }
                i = i + 1;
            }
        }
    }
    valid
}

/// Whether the record passes every filter.
fn item_passes(item: &Json, filters: &Vec<Query>) -> (r: bool)
    ensures
        r == passes(item@, filter_views(filters@)),
{
    let ghost fs = filter_views(filters@);
    let mut i: usize = 0;
    while i < filters.len()
        invariant
            i <= filters@.len(),
            fs == filter_views(filters@),
            forall|j: int| 0 <= j < i ==> #[trigger] filter_ok(item@, fs[j]),
        decreases filters@.len() - i,
    {
        let q = &filters[i];
        proof {
            assert(fs[i as int] == q@);
        }
        if let Some(field) = item.get(&q.key) {
            if !is_valid(q.op.as_str(), field, q.value.as_str()) {
                proof {
                    assert(!filter_ok(item@, fs[i as int]));
                }
                return false;
            }
        }
        i = i + 1;
    }
    true
}

/// filter array according to the query api
pub fn apply(obj: &mut Json, queries: &Queries)
    ensures
        final(obj)@ == filter_spec(old(obj)@, queries@.filter),
{
    let filters = &queries.filter;
    let mut taken = Json::Null;
    std::mem::swap(obj, &mut taken);
    match taken {
        Json::Array(arr) => {
            let ghost all = arr@;
            let ghost ov = items_view(all);
            proof {
                lemma_items_view(all);
            }
            let mut rest = arr;
            let mut kept: Vec<Json> = Vec::new();
            let n = rest.len();
            let mut c: usize = 0;
            while c < n
                invariant
                    n == all.len(),
                    c <= n,
                    rest@ == all.skip(c as int),
                    ov == items_view(all),
                    ov.len() == all.len(),
                    forall|j: int| 0 <= j < all.len() ==> #[trigger] ov[j] == all[j]@,
                    items_view(kept@) == keep_passing(ov.take(c as int), filter_views(filters@)),
                decreases n - c,
            {
                proof {
                    assert(ov.take(c + 1).drop_last() =~= ov.take(c as int));
                    assert(ov.take(c + 1).last() == all[c as int]@);
                    assert(rest@[0] == all[c as int]);
                }
                let x = rest.remove(0);
                proof {
                    assert(rest@ =~= all.skip(c + 1));
                }
                if item_passes(&x, filters) {
                    let ghost before = kept@;
                    kept.push(x);
                    proof {
                        assert(kept@.drop_last() =~= before);
                    }
                }
                c = c + 1;
            }
            proof {
                assert(ov.take(n as int) =~= ov);
            }
            *obj = Json::Array(kept);
        },
        other => {
            *obj = other;
        },
    }
}

} // verus!
