//! # sort
//! All necessery functions for appliying sorting to json results.
use vstd::prelude::*;
use crate::json::{get_field, items_view, lemma_items_view, Json, JsonV};
use crate::service::query_api::sort::{Sort, SortView};
use crate::service::query_api::{sort_views, Queries};
use crate::text::{compare_texts, lemma_text_order_flip, lemma_text_order_trans, text_order, Order};

verus! {

/// Compares two integers.
pub open spec fn int_order(a: int, b: int) -> Order {
    if a < b {
        Order::Less
    } else if a == b {
        Order::Equal
    } else {
        Order::Greater
    }
}

/// Compares two present field values: arrays and objects by their length,
/// numbers, strings and booleans by value; a value of another type than the
/// first comes after it, except that `null` comes before any value but `null`.
pub open spec fn value_order(a: JsonV, b: JsonV) -> Order {
    match a {
        JsonV::Array(x) => match b {
            JsonV::Array(y) => int_order(x.len() as int, y.len() as int),
            _ => Order::Greater,
        },
        JsonV::Object(x) => match b {
            JsonV::Object(y) => int_order(x.len() as int, y.len() as int),
            _ => Order::Greater,
        },
        JsonV::Number(x) => match b {
            JsonV::Number(y) => int_order(x as int, y as int),
            _ => Order::Greater,
        },
        JsonV::Str(x) => match b {
            JsonV::Str(y) => text_order(x, y),
            _ => Order::Greater,
        },
        JsonV::Bool(x) => match b {
            JsonV::Bool(y) => int_order(if x { 1 } else { 0 }, if y { 1 } else { 0 }),
            _ => Order::Greater,
        },
        JsonV::Null => match b {
            JsonV::Null => Order::Equal,
            _ => Order::Less,
        },
    }
}

/// Compares two records on one field; a record without the field comes first.
pub open spec fn compare_spec(a: JsonV, b: JsonV, key: Seq<char>) -> Order {
    match get_field(a, key) {
        Some(x) => match get_field(b, key) {
            Some(y) => value_order(x, y),
            None => Order::Greater,
        },
        None => match get_field(b, key) {
            Some(_) => Order::Less,
            None => Order::Equal,
        },
    }
}

/// Compares two objects on the sort fields in turn: the first field on which
/// they differ decides.
pub open spec fn sorts_order(a: JsonV, b: JsonV, sorts: Seq<SortView>) -> Order
    decreases sorts.len(),
{
    if sorts.len() == 0 {
        Order::Equal
    } else {
        let r = match sorts[0] {
            SortView::ASC(k) => compare_spec(a, b, k),
            SortView::DSC(k) => compare_spec(b, a, k),
        };
        if r != Order::Equal {
            r
        } else {
            sorts_order(a, b, sorts.drop_first())
        }
    }
}

/// How the sort compares two records: objects by the sort fields; an object
/// comes after a value that is not one; a value that is not an object comes
/// before anything.
pub open spec fn item_order(a: JsonV, b: JsonV, sorts: Seq<SortView>) -> Order {
    match a {
        JsonV::Object(_) => match b {
            JsonV::Object(_) => sorts_order(a, b, sorts),
            _ => Order::Greater,
        },
        _ => Order::Less,
    }
}

/// `a` may come before `b`.
pub open spec fn le(a: JsonV, b: JsonV, sorts: Seq<SortView>) -> bool {
    item_order(a, b, sorts) != Order::Greater
}

/// The comparison is a total preorder on the records: swapping the two sides
/// swaps `Less` and `Greater`, and "may come before" is transitive.
pub open spec fn consistent(items: Seq<JsonV>, sorts: Seq<SortView>) -> bool {
    &&& forall|i: int, j: int|
        0 <= i < items.len() && 0 <= j < items.len() ==> (item_order(items[i], items[j], sorts)
            == Order::Less <==> item_order(items[j], items[i], sorts) == Order::Greater)
    &&& forall|i: int, j: int, k: int|
        0 <= i < items.len() && 0 <= j < items.len() && 0 <= k < items.len() && le(
            items[i],
            items[j],
            sorts,
        ) && le(items[j], items[k], sorts) ==> le(items[i], items[k], sorts)
}

/// `p` is a permutation of `0..n`: `n` distinct positions below `n`.
pub open spec fn is_permutation(p: Seq<int>, n: int) -> bool {
    &&& p.len() == n
    &&& forall|k: int| 0 <= k < p.len() ==> 0 <= #[trigger] p[k] < n
    &&& forall|k: int, l: int| 0 <= k < l < p.len() ==> p[k] != p[l]
}

/// `out` holds the records of `items` rearranged by `p`.
pub open spec fn arranged(out: Seq<JsonV>, items: Seq<JsonV>, p: Seq<int>) -> bool {
    &&& out.len() == p.len()
    &&& forall|k: int| 0 <= k < out.len() ==> #[trigger] out[k] == items[p[k]]
}

/// `out` is in order, and records that compare equal keep their order in
/// `items` (where `p` says where each came from).
pub open spec fn sorted_stable(out: Seq<JsonV>, p: Seq<int>, sorts: Seq<SortView>) -> bool {
    &&& forall|k: int, l: int| 0 <= k < l < out.len() ==> le(out[k], out[l], sorts)
    &&& forall|k: int, l: int|
        0 <= k < l < out.len() && item_order(out[k], out[l], sorts) == Order::Equal ==> p[k] < p[l]
}

/// What sorting an array gives: a rearrangement of its records, in order and
/// stable where the comparison is a total preorder on them.
pub open spec fn sorted_from(out: Seq<JsonV>, items: Seq<JsonV>, sorts: Seq<SortView>) -> bool {
    exists|p: Seq<int>|
        is_permutation(p, items.len() as int) && arranged(out, items, p) && (consistent(items, sorts)
            ==> sorted_stable(out, p, sorts))
}

fn compare_lengths(a: usize, b: usize) -> (r: Order)
    ensures
        r == int_order(a as int, b as int),
{
    if a < b {
        Order::Less
    } else if a == b {
        Order::Equal
    } else {
        Order::Greater
    }
}

fn compare_values(a_val: &Json, b_val: &Json) -> (r: Order)
    ensures
        r == value_order(a_val@, b_val@),
{
    proof {
        crate::json::lemma_items_view(Seq::empty());
    }
    match a_val {
        Json::Array(a_arr) => {
            if let Json::Array(b_arr) = b_val {
                proof {
                    lemma_items_view(a_arr@);
                    lemma_items_view(b_arr@);
                }
                compare_lengths(a_arr.len(), b_arr.len())
            } else {
                Order::Greater
            }
        },
        Json::Object(a_obj) => {
            if let Json::Object(b_obj) = b_val {
                proof {
                    crate::json::lemma_members_view(a_obj@);
                    crate::json::lemma_members_view(b_obj@);
                }
                compare_lengths(a_obj.len(), b_obj.len())
            } else {
                Order::Greater
            }
        },
        Json::Number(a_num) => {
            if let Json::Number(b_num) = b_val {
                if *a_num < *b_num {
                    Order::Less
                } else if *a_num == *b_num {
                    Order::Equal
                } else {
                    Order::Greater
                }
            } else {
                Order::Greater
            }
        },
        Json::Str(a_str) => {
            if let Json::Str(b_str) = b_val {
                compare_texts(a_str, b_str)
            } else {
                Order::Greater
            }
        },
        Json::Bool(a_bool) => {
            if let Json::Bool(b_bool) = b_val {
                if !*a_bool && *b_bool {
                    Order::Less
                } else if *a_bool == *b_bool {
                    Order::Equal
                } else {
                    Order::Greater
                }
            } else {
                Order::Greater
            }
        },
        Json::Null => {
            if let Json::Null = b_val {
                Order::Equal
            } else {
                Order::Less
            }
        },
    }
}

fn compare(a: &Json, b: &Json, sort_key: &String) -> (r: Order)
    ensures
        r == compare_spec(a@, b@, sort_key@),
{
    if let Some(a_val) = a.get(sort_key) {
        if let Some(b_val) = b.get(sort_key) {
            compare_values(a_val, b_val)
        } else {
            Order::Greater
        }
    } else {
        if let Some(_) = b.get(sort_key) {
            Order::Less
        } else {
            Order::Equal
        }
    }
}

/// How the sort compares two records.
fn compare_items(a: &Json, b: &Json, sorts: &Vec<Sort>) -> (r: Order)
    ensures
        r == item_order(a@, b@, sort_views(sorts@)),
{
    match a {
        Json::Object(_) => {
            if let Json::Object(_) = b {
                let ghost ss = sort_views(sorts@);
                let mut result = Order::Equal;
                let mut i: usize = 0;
                proof {
                    assert(ss.skip(0) =~= ss);
                }
                while i < sorts.len()
                    invariant
                        i <= sorts@.len(),
                        ss == sort_views(sorts@),
                        ss.len() == sorts@.len(),
                        item_order(a@, b@, ss) == sorts_order(a@, b@, ss),
                        sorts_order(a@, b@, ss) == sorts_order(a@, b@, ss.skip(i as int)),
                    decreases sorts@.len() - i,
                {
                    proof {
                        assert(ss.skip(i as int)[0] == sorts@[i as int]@);
                        assert(ss.skip(i as int).drop_first() =~= ss.skip(i + 1));
                    }
                    result = match &sorts[i] {
                        Sort::ASC(sort_key) => compare(a, b, sort_key),
                        Sort::DSC(sort_key) => compare(b, a, sort_key),
                    };
                    if result != Order::Equal {
                        return result;
                    }
                    i = i + 1;
                }
                proof {
                    assert(ss.skip(i as int).len() == 0);
                }
                Order::Equal
            } else {
                Order::Greater
            }
        },
        _ => Order::Less,
    }
}

/// Where the comparison is a total preorder, `a < b <= c` gives `a < c`.
proof fn lemma_less_le(items: Seq<JsonV>, sorts: Seq<SortView>, i: int, j: int, k: int)
    requires
        consistent(items, sorts),
        0 <= i < items.len(),
        0 <= j < items.len(),
        0 <= k < items.len(),
        item_order(items[i], items[j], sorts) == Order::Less,
        le(items[j], items[k], sorts),
    ensures
        item_order(items[i], items[k], sorts) == Order::Less,
{
    if le(items[k], items[i], sorts) {
        assert(le(items[j], items[i], sorts));
        assert(item_order(items[j], items[i], sorts) == Order::Greater);
    }
}

/// Placing record `c` of `ov` after the records of a stable sorted list that
/// may come before it, and before the first that comes after it, keeps the
/// list sorted and stable.
proof fn lemma_insert_sorted(
    ov: Seq<JsonV>,
    ss: Seq<SortView>,
    o: Seq<JsonV>,
    old_p: Seq<int>,
    pos: int,
    c: int,
)
    requires
        consistent(ov, ss),
        0 <= c < ov.len(),
        sorted_stable(o, old_p, ss),
        o.len() == old_p.len(),
        forall|k: int| 0 <= k < o.len() ==> 0 <= #[trigger] old_p[k] < c,
        forall|k: int| 0 <= k < o.len() ==> #[trigger] o[k] == ov[old_p[k]],
        0 <= pos <= o.len(),
        forall|j: int| 0 <= j < pos ==> le(#[trigger] o[j], ov[c], ss),
        pos < o.len() ==> item_order(o[pos], ov[c], ss) == Order::Greater,
    ensures
        sorted_stable(o.insert(pos, ov[c]), old_p.insert(pos, c), ss),
{
    let o2 = o.insert(pos, ov[c]);
    let p = old_p.insert(pos, c);
    assert forall|k: int, l: int| 0 <= k < l < o2.len() implies le(o2[k], o2[l], ss) by {
        if k < pos && l < pos {
            assert(o2[k] == o[k] && o2[l] == o[l]);
        } else if k < pos && l == pos {
            assert(o2[k] == o[k]);
        } else if k < pos && l > pos {
            assert(o2[k] == o[k] && o2[l] == o[l - 1]);
        } else if k == pos {
            assert(o2[l] == o[l - 1]);
            assert(item_order(ov[c], ov[old_p[pos]], ss) == Order::Less);
            if l - 1 > pos {
                assert(le(o[pos], o[l - 1], ss));
            }
            lemma_less_le(ov, ss, c, old_p[pos], old_p[l - 1]);
        } else {
            assert(o2[k] == o[k - 1] && o2[l] == o[l - 1]);
        }
    }
    assert forall|k: int, l: int|
        0 <= k < l < o2.len() && item_order(o2[k], o2[l], ss) == Order::Equal implies p[k] < p[l] by {
        if k < pos && l < pos {
            assert(o2[k] == o[k] && o2[l] == o[l]);
            assert(p[k] == old_p[k] && p[l] == old_p[l]);
        } else if k < pos && l == pos {
            assert(p[k] == old_p[k]);
        } else if k < pos && l > pos {
            assert(o2[k] == o[k] && o2[l] == o[l - 1]);
            assert(p[k] == old_p[k] && p[l] == old_p[l - 1]);
        } else if k == pos {
            assert(o2[l] == o[l - 1]);
            assert(item_order(ov[c], ov[old_p[pos]], ss) == Order::Less);
            if l - 1 > pos {
                assert(le(o[pos], o[l - 1], ss));
            }
            lemma_less_le(ov, ss, c, old_p[pos], old_p[l - 1]);
        } else {
            assert(o2[k] == o[k - 1] && o2[l] == o[l - 1]);
            assert(p[k] == old_p[k - 1] && p[l] == old_p[l - 1]);
        }
    }
}

/// Sorts the records by the comparison, keeping records that compare equal in
/// their order: each record goes before the first one placed so far that
/// comes after it.
fn sort_records(arr: Vec<Json>, sorts: &Vec<Sort>) -> (r: Vec<Json>)
    ensures
        sorted_from(items_view(r@), items_view(arr@), sort_views(sorts@)),
{
    let ghost all = arr@;
    let ghost ov = items_view(all);
    let ghost ss = sort_views(sorts@);
    proof {
        lemma_items_view(all);
    }
    let mut rest = arr;
    let mut out: Vec<Json> = Vec::new();
    let ghost mut p: Seq<int> = Seq::empty();
    let n = rest.len();
    let mut c: usize = 0;
    while c < n
        invariant
            n == all.len(),
            c <= n,
            rest@ == all.skip(c as int),
            ov == items_view(all),
            ss == sort_views(sorts@),
            ov.len() == all.len(),
            forall|j: int| 0 <= j < all.len() ==> #[trigger] ov[j] == all[j]@,
            out@.len() == c,
            p.len() == c,
            forall|k: int| 0 <= k < p.len() ==> 0 <= #[trigger] p[k] < c,
            forall|k: int, l: int| 0 <= k < l < p.len() ==> p[k] != p[l],
            forall|k: int| 0 <= k < out@.len() ==> (#[trigger] out@[k])@ == ov[p[k]],
            consistent(ov, ss) ==> sorted_stable(items_view(out@), p, ss),
        decreases n - c,
    {
        proof {
            assert(rest@[0] == all[c as int]);
            lemma_items_view(out@);
        }
        let x = rest.remove(0);
        proof {
            assert(rest@ =~= all.skip(c + 1));
        }
        let mut pos: usize = 0;
        while pos < out.len() && compare_items(&out[pos], &x, sorts) != Order::Greater
            invariant
                pos <= out@.len(),
                forall|j: int| 0 <= j < pos ==> le(#[trigger] out@[j]@, x@, ss),
                ss == sort_views(sorts@),
            decreases out@.len() - pos,
        {
            pos = pos + 1;
        }
        let ghost o = items_view(out@);
        let ghost old_out = out@;
        let ghost old_p = p;
        out.insert(pos, x);
        proof {
            p = p.insert(pos as int, c as int);
            lemma_items_view(out@);
            assert forall|k: int| 0 <= k < out@.len() implies (#[trigger] out@[k])@ == ov[p[k]] by {
                if k < pos {
                    assert(out@[k] == old_out[k]);
                } else if k == pos {
                } else {
                    assert(out@[k] == old_out[k - 1]);
                }
            }
            assert forall|k: int| 0 <= k < p.len() implies 0 <= #[trigger] p[k] < c + 1 by {
                if k < pos {
                    assert(p[k] == old_p[k]);
                } else if k > pos {
                    assert(p[k] == old_p[k - 1]);
                }
            }
            assert forall|k: int, l: int| 0 <= k < l < p.len() implies p[k] != p[l] by {
                if k < pos && l < pos {
                    assert(p[k] == old_p[k] && p[l] == old_p[l]);
                } else if k < pos && l == pos {
                    assert(p[k] == old_p[k]);
                } else if k < pos && l > pos {
                    assert(p[k] == old_p[k] && p[l] == old_p[l - 1]);
                } else if k == pos {
                    assert(p[l] == old_p[l - 1]);
                } else {
                    assert(p[k] == old_p[k - 1] && p[l] == old_p[l - 1]);
                }
            }
            if consistent(ov, ss) {
                let o2 = items_view(out@);
                assert(o2 =~= o.insert(pos as int, ov[c as int]));
                lemma_insert_sorted(ov, ss, o, old_p, pos as int, c as int);
            }
        }
        c = c + 1;
    }
    proof {
        lemma_items_view(out@);
        assert(is_permutation(p, ov.len() as int));
        assert(arranged(items_view(out@), ov, p));
    }
    out
}

/// Sorts an array on the sort fields of the query api.
pub fn apply(obj: &mut Json, queries: &Queries)
    ensures
        queries@.sort.len() == 0 ==> final(obj)@ == old(obj)@,
        queries@.sort.len() > 0 ==> match old(obj)@ {
            JsonV::Array(items) => final(obj)@ matches JsonV::Array(out) && sorted_from(
                out,
                items,
                queries@.sort,
            ),
            _ => final(obj)@ == old(obj)@,
        },
{
    if queries.sort.len() == 0 {
        return;
    }
    let mut taken = Json::Null;
    std::mem::swap(obj, &mut taken);
    match taken {
        Json::Array(arr) => {
            let sorted = sort_records(arr, &queries.sort);
            *obj = Json::Array(sorted);
        },
        other => {
            *obj = other;
        },
    }
}

/// The outcome of a comparison seen from the other side.
pub open spec fn flip(o: Order) -> Order {
    match o {
        Order::Less => Order::Greater,
        Order::Greater => Order::Less,
        Order::Equal => Order::Equal,
    }
}

/// The kind of a JSON value.
pub open spec fn kind_of(v: JsonV) -> int {
    match v {
        JsonV::Null => 0,
        JsonV::Bool(_) => 1,
        JsonV::Number(_) => 2,
        JsonV::Str(_) => 3,
        JsonV::Array(_) => 4,
        JsonV::Object(_) => 5,
    }
}

/// The values of the key `k` in two records, where both have one and neither
/// is `null`, are of one kind.
pub open spec fn same_kind_at(a: JsonV, b: JsonV, k: Seq<char>) -> bool {
    match (get_field(a, k), get_field(b, k)) {
        (Some(x), Some(y)) => x is Null || y is Null || kind_of(x) == kind_of(y),
        _ => true,
    }
}

/// In the records, the values of the key `k` that are there and not `null`
/// are all of one kind.
pub open spec fn one_kind(items: Seq<JsonV>, k: Seq<char>) -> bool {
    forall|i: int, j: int|
        0 <= i < items.len() && 0 <= j < items.len() ==> #[trigger] same_kind_at(items[i], items[j], k)
}

/// Comparing values of one kind, in either order and across three values.
proof fn lemma_value_tri(x: JsonV, y: JsonV, z: JsonV)
    requires
        kind_of(x) == kind_of(y),
        kind_of(y) == kind_of(z),
    ensures
        value_order(y, x) == flip(value_order(x, y)),
        value_order(x, y) == Order::Less && value_order(y, z) != Order::Greater ==> value_order(x, z)
            == Order::Less,
        value_order(x, y) != Order::Greater && value_order(y, z) == Order::Less ==> value_order(x, z)
            == Order::Less,
        value_order(x, y) == Order::Equal && value_order(y, z) == Order::Equal ==> value_order(x, z)
            == Order::Equal,
{
    if let (JsonV::Str(a), JsonV::Str(b), JsonV::Str(c)) = (x, y, z) {
        lemma_text_order_flip(a, b);
        lemma_text_order_flip(b, a);
        lemma_text_order_flip(b, c);
        lemma_text_order_flip(a, c);
        if text_order(a, b) == Order::Less && text_order(b, c) == Order::Less {
            lemma_text_order_trans(a, b, c);
        }
    }
}

/// Comparing records on one key, in either order and across three records,
/// where the key's values are of one kind: a record without the key comes
/// first, then a `null`, then the values in their order.
pub proof fn lemma_compare_tri(a: JsonV, b: JsonV, c: JsonV, k: Seq<char>)
    requires
        same_kind_at(a, b, k),
        same_kind_at(b, c, k),
        same_kind_at(a, c, k),
    ensures
        compare_spec(b, a, k) == flip(compare_spec(a, b, k)),
        compare_spec(a, b, k) == Order::Less && compare_spec(b, c, k) != Order::Greater ==> compare_spec(
            a,
            c,
            k,
        ) == Order::Less,
        compare_spec(a, b, k) != Order::Greater && compare_spec(b, c, k) == Order::Less ==> compare_spec(
            a,
            c,
            k,
        ) == Order::Less,
        compare_spec(a, b, k) == Order::Equal && compare_spec(b, c, k) == Order::Equal ==> compare_spec(
            a,
            c,
            k,
        ) == Order::Equal,
{
    if let (Some(x), Some(y)) = (get_field(a, k), get_field(b, k)) {
        if !(x is Null) && !(y is Null) {
            lemma_value_tri(x, y, y);
        }
    }
    if let (Some(x), Some(y), Some(z)) = (get_field(a, k), get_field(b, k), get_field(c, k)) {
        if !(x is Null) && !(y is Null) && !(z is Null) {
            lemma_value_tri(x, y, z);
        }
    }
}

/// The comparison of one sort on two records.
pub open spec fn key_order(a: JsonV, b: JsonV, s: SortView) -> Order {
    match s {
        SortView::ASC(k) => compare_spec(a, b, k),
        SortView::DSC(k) => compare_spec(b, a, k),
    }
}

/// The field that a sort names.
pub open spec fn sort_key(s: SortView) -> Seq<char> {
    match s {
        SortView::ASC(k) => k,
        SortView::DSC(k) => k,
    }
}

/// Three records whose values are of one kind on every sort key.
pub open spec fn kinds_agree(a: JsonV, b: JsonV, c: JsonV, sorts: Seq<SortView>) -> bool {
    forall|i: int|
        0 <= i < sorts.len() ==> {
            let k = #[trigger] sort_key(sorts[i]);
            &&& same_kind_at(a, b, k) && same_kind_at(b, a, k)
            &&& same_kind_at(b, c, k) && same_kind_at(c, b, k)
            &&& same_kind_at(a, c, k) && same_kind_at(c, a, k)
        }
}

proof fn lemma_sorts_tri(a: JsonV, b: JsonV, c: JsonV, sorts: Seq<SortView>)
    requires
        kinds_agree(a, b, c, sorts),
    ensures
        sorts_order(b, a, sorts) == flip(sorts_order(a, b, sorts)),
        sorts_order(a, b, sorts) == Order::Less && sorts_order(b, c, sorts) != Order::Greater
            ==> sorts_order(a, c, sorts) == Order::Less,
        sorts_order(a, b, sorts) != Order::Greater && sorts_order(b, c, sorts) == Order::Less
            ==> sorts_order(a, c, sorts) == Order::Less,
        sorts_order(a, b, sorts) == Order::Equal && sorts_order(b, c, sorts) == Order::Equal
            ==> sorts_order(a, c, sorts) == Order::Equal,
    decreases sorts.len(),
{
    if sorts.len() > 0 {
        let k = sort_key(sorts[0]);
        assert(kinds_agree(a, b, c, sorts.drop_first())) by {
            assert forall|i: int| 0 <= i < sorts.drop_first().len() implies {
                let k = #[trigger] sort_key(sorts.drop_first()[i]);
                &&& same_kind_at(a, b, k) && same_kind_at(b, a, k)
                &&& same_kind_at(b, c, k) && same_kind_at(c, b, k)
                &&& same_kind_at(a, c, k) && same_kind_at(c, a, k)
            } by {
                assert(sorts.drop_first()[i] == sorts[i + 1]);
                assert(sort_key(sorts[i + 1]) == sort_key(sorts.drop_first()[i]));
            }
        }
        assert(sort_key(sorts[0]) == k);
        lemma_sorts_tri(a, b, c, sorts.drop_first());
        match sorts[0] {
            SortView::ASC(_) => {
                lemma_compare_tri(a, b, c, k);
            },
            SortView::DSC(_) => {
                lemma_compare_tri(c, b, a, k);
                lemma_compare_tri(b, a, c, k);
            },
        }
        assert(key_order(a, b, sorts[0]) == match sorts[0] {
            SortView::ASC(k) => compare_spec(a, b, k),
            SortView::DSC(k) => compare_spec(b, a, k),
        });
    }
}

/// Records, all objects, whose values on each sort key are of one kind where
/// they are there and not `null` (a record without the key comes first, then
/// `null`): the comparison of the sort is a total preorder on them, so the sort
/// gives them in order and keeps equal records in their order.
pub proof fn law_one_kind_consistent(items: Seq<JsonV>, sorts: Seq<SortView>)
    requires
        forall|i: int| 0 <= i < items.len() ==> #[trigger] items[i] is Object,
        forall|i: int| 0 <= i < sorts.len() ==> one_kind(items, #[trigger] sort_key(sorts[i])),
    ensures
        consistent(items, sorts),
{
    assert forall|i: int, j: int, l: int|
        0 <= i < items.len() && 0 <= j < items.len() && 0 <= l < items.len() implies kinds_agree(
        items[i],
        items[j],
        items[l],
        sorts,
    ) by {
        assert forall|m: int| 0 <= m < sorts.len() implies {
            let k = #[trigger] sort_key(sorts[m]);
            &&& same_kind_at(items[i], items[j], k) && same_kind_at(items[j], items[i], k)
            &&& same_kind_at(items[j], items[l], k) && same_kind_at(items[l], items[j], k)
            &&& same_kind_at(items[i], items[l], k) && same_kind_at(items[l], items[i], k)
        } by {
            let k = sort_key(sorts[m]);
            assert(one_kind(items, k));
            assert(same_kind_at(items[i], items[j], k));
            assert(same_kind_at(items[j], items[i], k));
            assert(same_kind_at(items[j], items[l], k));
            assert(same_kind_at(items[l], items[j], k));
            assert(same_kind_at(items[i], items[l], k));
            assert(same_kind_at(items[l], items[i], k));
        }
    }
    assert forall|i: int, j: int|
        0 <= i < items.len() && 0 <= j < items.len() implies (item_order(items[i], items[j], sorts)
        == Order::Less <==> item_order(items[j], items[i], sorts) == Order::Greater) by {
        lemma_sorts_tri(items[i], items[j], items[j], sorts);
    }
    assert forall|i: int, j: int, l: int|
        0 <= i < items.len() && 0 <= j < items.len() && 0 <= l < items.len() && le(
            items[i],
            items[j],
            sorts,
        ) && le(items[j], items[l], sorts) implies le(items[i], items[l], sorts) by {
        lemma_sorts_tri(items[i], items[j], items[l], sorts);
        lemma_sorts_tri(items[i], items[l], items[l], sorts);
        lemma_sorts_tri(items[j], items[l], items[l], sorts);
        lemma_sorts_tri(items[i], items[j], items[j], sorts);
    }
}

/// Booleans compare `false` before `true`, as `bool::cmp` orders them, and
/// numbers by their value.
pub proof fn law_scalar_order(a: bool, b: bool, x: i64, y: i64)
    ensures
        value_order(JsonV::Bool(a), JsonV::Bool(b)) == (if a == b {
            Order::Equal
        } else if !a {
            Order::Less
        } else {
            Order::Greater
        }),
        value_order(JsonV::Number(x), JsonV::Number(y)) == (if x < y {
            Order::Less
        } else if x == y {
            Order::Equal
        } else {
            Order::Greater
        }),
{
}

/// A sort on a boolean key puts a record whose key is `false` before one whose
/// key is `true` when ascending, and after it when descending.
pub proof fn law_bool_key_order(r1: JsonV, r2: JsonV, k: Seq<char>)
    requires
        r1 is Object,
        r2 is Object,
        get_field(r1, k) == Some(JsonV::Bool(false)),
        get_field(r2, k) == Some(JsonV::Bool(true)),
    ensures
        item_order(r1, r2, seq![SortView::ASC(k)]) == Order::Less,
        item_order(r1, r2, seq![SortView::DSC(k)]) == Order::Greater,
        item_order(r2, r1, seq![SortView::ASC(k)]) == Order::Greater,
{
    reveal_with_fuel(sorts_order, 2);
    assert(value_order(JsonV::Bool(false), JsonV::Bool(true)) == Order::Less);
    assert(value_order(JsonV::Bool(true), JsonV::Bool(false)) == Order::Greater);
}

/// Strings sort as `str::cmp` orders them: at the first position where they
/// differ, the one with the smaller character comes first; a string that is a
/// proper beginning of another comes before it.
pub proof fn law_string_order(a: Seq<char>, b: Seq<char>, i: int)
    requires
        0 <= i <= a.len(),
        i <= b.len(),
        a.take(i) == b.take(i),
        (i < a.len() && i < b.len() && (a[i] as u32) < (b[i] as u32)) || (i == a.len() && i
            < b.len()),
    ensures
        value_order(JsonV::Str(a), JsonV::Str(b)) == Order::Less,
        value_order(JsonV::Str(b), JsonV::Str(a)) == Order::Greater,
    decreases i,
{
    if i > 0 {
        assert(a[0] == a.take(i)[0] && b[0] == b.take(i)[0]);
        assert(a.drop_first().take(i - 1) =~= a.take(i).drop_first());
        assert(b.drop_first().take(i - 1) =~= b.take(i).drop_first());
        if i < a.len() {
            assert(a.drop_first()[i - 1] == a[i]);
        }
        if i < b.len() {
            assert(b.drop_first()[i - 1] == b[i]);
        }
        law_string_order(a.drop_first(), b.drop_first(), i - 1);
    }
    lemma_text_order_flip(a, b);
}

} // verus!
