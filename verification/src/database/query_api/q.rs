//! # q
//! All necessery functions for appliying full-text search to json results.
use vstd::prelude::*;
use crate::json::{
    get_field, items_view, lemma_items_view, lemma_member_is, lemma_members_view, members_view, Json,
    JsonV,
};
use crate::service::query_api::{opt_view, Queries};
use crate::text::{contains, contains_spec};

verus! {

/// Whether the member `key` of the record is a string that contains `q`.
pub open spec fn text_field_contains(item: JsonV, key: Seq<char>, q: Seq<char>) -> bool {
    match get_field(item, key) {
        Some(JsonV::Str(s)) => contains_spec(s, q),
        _ => false,
    }
}

/// Whether some string member of a record contains `q`.
pub open spec fn has_text(item: JsonV, q: Seq<char>) -> bool {
    match item {
        JsonV::Object(ms) => exists|i: int|
            0 <= i < ms.len() && #[trigger] text_field_contains(item, ms[i].0, q),
        _ => false,
    }
}

/// The records that the search keeps, first to last: an object stays where
/// one of its string members contains `q`; a string stays where it is `q`;
/// other values go.
pub open spec fn q_filter(items: Seq<JsonV>, q: Seq<char>) -> Seq<JsonV>
    decreases items.len(),
{
    if items.len() == 0 {
        items
    } else {
        let x = items[0];
        let rest = items.drop_first();
        match x {
            JsonV::Object(_) => if has_text(x, q) {
                seq![x] + q_filter(rest, q)
            } else {
                q_filter(rest, q)
            },
            JsonV::Str(s) => if s == q {
                seq![x] + q_filter(rest, q)
            } else {
                q_filter(rest, q)
            },
            _ => q_filter(rest, q),
        }
    }
}

/// The full-text search on an array; other values, and no search, leave the
/// value as it is.
pub open spec fn q_spec(v: JsonV, q: Option<Seq<char>>) -> JsonV {
    match q {
        Some(t) => match v {
            JsonV::Array(items) => JsonV::Array(q_filter(items, t)),
            _ => v,
        },
        None => v,
    }
}

fn has_text_exec(item: &Json, q: &String) -> (r: bool)
    ensures
        r == has_text(item@, q@),
{
    match item {
        Json::Object(m) => {
            proof {
                lemma_members_view(m@);
            }
            let ghost ms = members_view(m@);
            let mut i: usize = 0;
            while i < m.len()
                invariant
                    *item == Json::Object(*m),
                    i <= m@.len(),
                    ms == members_view(m@),
                    ms.len() == m@.len(),
                    forall|j: int| 0 <= j < m@.len() ==> #[trigger] ms[j] == (m@[j].0@, m@[j].1@),
                    forall|j: int| 0 <= j < i ==> !text_field_contains(item@, #[trigger] ms[j].0, q@),
                decreases m@.len() - i,
            {
                let key = &m[i].0;
                if let Some(field) = item.get(key) {
                    if let Json::Str(f_str) = field {
                        if contains(f_str.as_str(), q.as_str()) {
                            proof {
                                assert(text_field_contains(item@, ms[i as int].0, q@));
                            }
                            return true;
                        }
                    }
                }
                proof {
                    assert(!text_field_contains(item@, ms[i as int].0, q@));
                }
                i = i + 1;
            }
            false
        },
        _ => false,
    }
}

/// Full-text search on all string fields, as the query api documents: an
/// array keeps the records with a string field that holds the search text, and
/// the strings equal to it, wherever they stand in the array; every other
/// value goes.
pub fn apply(obj: &mut Json, queries: &Queries)
    ensures
        final(obj)@ == q_spec(old(obj)@, queries@.q),
{
    if let Some(q) = &queries.q {
        let mut taken = Json::Null;
        std::mem::swap(obj, &mut taken);
        match taken {
            Json::Array(arr) => {
                let ghost all = arr@;
                let ghost ov = items_view(all);
                proof {
                    lemma_items_view(all);
                    assert(ov.skip(0) =~= ov);
                    assert(items_view(Seq::<Json>::empty()) + ov =~= ov);
                }
                let mut rest = arr;
                let mut kept: Vec<Json> = Vec::new();
                let n = rest.len();
                let mut c: usize = 0;
                while c < n
                    invariant
                        n == all.len(),
                        c <= n,
                        rest@ == all.skip(c as int),
                        ov == items_view(all),
                        old(obj)@ == JsonV::Array(ov),
                        queries@.q == Some(q@),
                        ov.len() == all.len(),
                        forall|j: int| 0 <= j < all.len() ==> #[trigger] ov[j] == all[j]@,
                        q_filter(ov, q@) == items_view(kept@) + q_filter(ov.skip(c as int), q@),
                    decreases n - c,
                {
                    proof {
                        assert(ov.skip(c as int)[0] == all[c as int]@);
                        assert(ov.skip(c as int).drop_first() =~= ov.skip(c + 1));
                        assert(rest@[0] == all[c as int]);
                        lemma_items_view(kept@);
                    }
                    let x = rest.remove(0);
                    proof {
                        assert(rest@ =~= all.skip(c + 1));
                    }
                    let keep = match &x {
                        Json::Object(_) => has_text_exec(&x, q),
                        Json::Str(f_val) => *f_val == *q,
                        _ => false,
                    };
                    if keep {
                        let ghost before = kept@;
                        kept.push(x);
                        proof {
                            lemma_items_view(kept@);
                            assert(items_view(kept@) =~= items_view(before).push(x@));
                            assert(items_view(kept@) + q_filter(ov.skip(c + 1), q@) =~= items_view(before)
                                + (seq![x@] + q_filter(ov.skip(c + 1), q@)));
                        }
                    }
                    c = c + 1;
                }
                proof {
                    assert(ov.skip(n as int) =~= Seq::<JsonV>::empty());
                    assert(items_view(kept@) + Seq::<JsonV>::empty() =~= items_view(kept@));
                }
                *obj = Json::Array(kept);
            },
            other => {
                *obj = other;
            },
        }
    }
}

/// Whatever its place among the members, a string member of an object (whose
/// names are all different) that contains the search text makes the object a
/// match.
pub proof fn law_any_member_matches(ms: Seq<(Seq<char>, JsonV)>, q: Seq<char>, i: int, s: Seq<char>)
    requires
        0 <= i < ms.len(),
        forall|a: int, b: int| 0 <= a < b < ms.len() ==> ms[a].0 != ms[b].0,
        ms[i].1 == JsonV::Str(s),
        contains_spec(s, q),
    ensures
        has_text(JsonV::Object(ms), q),
{
    assert forall|j: int| 0 <= j < i implies (#[trigger] ms[j]).0 != ms[i].0 by {}
    lemma_member_is(ms, ms[i].0, i);
    assert(text_field_contains(JsonV::Object(ms), ms[i].0, q));
}

/// A match is an object with a string member that contains the search text,
/// or a string equal to it.
pub open spec fn is_match(x: JsonV, q: Seq<char>) -> bool {
    (x is Object && has_text(x, q)) || x == JsonV::Str(q)
}

/// The search keeps every match of the array and nothing else: each value it
/// gives is a match taken from the array, and each match of the array is
/// among the values it gives.
pub proof fn law_search_keeps_matches(items: Seq<JsonV>, q: Seq<char>)
    ensures
        forall|j: int|
            0 <= j < q_filter(items, q).len() ==> items.contains(#[trigger] q_filter(items, q)[j])
                && is_match(q_filter(items, q)[j], q),
        forall|i: int| 0 <= i < items.len() && is_match(#[trigger] items[i], q) ==> q_filter(items, q).contains(items[i]),
    decreases items.len(),
{
    if items.len() > 0 {
        let x = items[0];
        let rest = items.drop_first();
        law_search_keeps_matches(rest, q);
        let r0 = q_filter(rest, q);
        let r = q_filter(items, q);
        let kept = is_match(x, q);
        assert(kept ==> r == seq![x] + r0);
        assert(!kept ==> r == r0);
        assert forall|j: int| 0 <= j < r.len() implies items.contains(#[trigger] r[j]) && is_match(r[j], q) by {
            if kept && j == 0 {
                assert(items[0] == x);
            } else {
                let jj = if kept { j - 1 } else { j };
                assert(r[j] == r0[jj]);
                let k = choose|k: int| 0 <= k < rest.len() && rest[k] == r0[jj];
                assert(items[k + 1] == rest[k]);
            }
        }
        assert forall|i: int| 0 <= i < items.len() && is_match(#[trigger] items[i], q) implies r.contains(items[i]) by {
            if i == 0 {
                assert(r[0] == x);
            } else {
                assert(rest[i - 1] == items[i]);
                let k = choose|k: int| 0 <= k < r0.len() && r0[k] == rest[i - 1];
                if kept {
                    assert(r[k + 1] == r0[k]);
                } else {
                    assert(r[k] == r0[k]);
                }
            }
        }
    }
}

} // verus!
