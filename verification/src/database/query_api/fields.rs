//! # fields
//! All necessery functions for appliying fields to json results.
use vstd::prelude::*;
use crate::json::{
    items_view, lemma_items_view, lemma_members_view, members_view, remove_member, take_member,
    Json, JsonV,
};
use crate::database::keys_of;
use crate::service::query_api::Queries;
use crate::text::views;

verus! {

/// The names among `keys` that are not in `fields`, in order.
pub open spec fn diff_left_spec(keys: Seq<Seq<char>>, fields: Seq<Seq<char>>) -> Seq<Seq<char>>
    decreases keys.len(),
{
    if keys.len() == 0 {
        keys
    } else {
        let r = diff_left_spec(keys.drop_last(), fields);
        if fields.contains(keys.last()) {
            r
        } else {
            r.push(keys.last())
        }
    }
}

/// `ms` without the members named in `keys`.
pub open spec fn remove_all(ms: Seq<(Seq<char>, JsonV)>, keys: Seq<Seq<char>>) -> Seq<(Seq<char>, JsonV)>
    decreases keys.len(),
{
    if keys.len() == 0 {
        ms
    } else {
        remove_member(remove_all(ms, keys.drop_last()), keys.last())
    }
}

/// An object keeps only its selected members; other values stay.
pub open spec fn select(v: JsonV, fields: Seq<Seq<char>>) -> JsonV {
    match v {
        JsonV::Object(ms) => JsonV::Object(remove_all(ms, diff_left_spec(keys_of(ms), fields))),
        _ => v,
    }
}

/// The field selection: with no field named, nothing changes; an object, and
/// each record of an array, keeps only the selected members.
pub open spec fn fields_spec(v: JsonV, fields: Seq<Seq<char>>) -> JsonV {
    if fields.len() == 0 {
        v
    } else {
        match v {
            JsonV::Array(items) => JsonV::Array(
                Seq::new(items.len(), |i: int| select(items[i], fields)),
            ),
            _ => select(v, fields),
        }
    }
}

/// Keeps only the named fields, as the query api documents: in an object, and
/// in each record of an array, whatever members the other records hold.
pub fn apply(obj: &mut Json, queries: &Queries)
    ensures
        final(obj)@ == fields_spec(old(obj)@, queries@.fields),
{
    let fields = &queries.fields;
    if fields.len() == 0 {
        return;
    }
    let mut taken = Json::Null;
    std::mem::swap(obj, &mut taken);
    match taken {
        Json::Array(arr) => {
            let ghost all = arr@;
            let ghost ov = items_view(all);
            proof {
                lemma_items_view(all);
            }
            let mut rest = arr;
            let mut done: Vec<Json> = Vec::new();
            let n = rest.len();
            let mut c: usize = 0;
            while c < n
                invariant
                    n == all.len(),
                    c <= n,
                    rest@ == all.skip(c as int),
                    ov == items_view(all),
                    ov.len() == all.len(),
                    forall|j: int| 0 <= j < all.len() ==> #[trigger] ov[j] == all[j]@,
                    done@.len() == c,
                    forall|j: int|
                        0 <= j < c ==> (#[trigger] done@[j])@ == select(ov[j], views(fields@)),
                decreases n - c,
            {
                proof {
                    assert(rest@[0] == all[c as int]);
                }
                let x = rest.remove(0);
                proof {
                    assert(rest@ =~= all.skip(c + 1));
                }
                let y = match x {
                    Json::Object(m) => {
                        proof {
                            lemma_members_view(m@);
                        }
                        let remove_keys = diff_left(&m, fields);
                        Json::Object(remove_keys_from(m, &remove_keys))
                    },
                    other => other,
                };
                done.push(y);
                c = c + 1;
            }
            proof {
                lemma_items_view(done@);
                assert(items_view(done@) =~= Seq::new(
                    ov.len(),
                    |i: int| select(ov[i], views(fields@)),
                ));
            }
            *obj = Json::Array(done);
        },
        Json::Object(map) => {
            proof {
                lemma_members_view(map@);
            }
            let remove_keys = diff_left(&map, fields);
            *obj = Json::Object(remove_keys_from(map, &remove_keys));
        },
        other => {
            *obj = other;
        },
    }
}

/// `m` without the members named in `keys`.
fn remove_keys_from(m: Vec<(String, Json)>, keys: &Vec<String>) -> (r: Vec<(String, Json)>)
    ensures
        members_view(r@) == remove_all(members_view(m@), views(keys@)),
{
    let mut cur = m;
    let mut i: usize = 0;
    let ghost ks = views(keys@);
    proof {
        assert(ks.take(0) =~= Seq::<Seq<char>>::empty());
    }
    while i < keys.len()
        invariant
            i <= keys@.len(),
            ks == views(keys@),
            members_view(cur@) == remove_all(members_view(m@), ks.take(i as int)),
        decreases keys@.len() - i,
    {
        proof {
            assert(ks.take(i + 1).drop_last() =~= ks.take(i as int));
            assert(ks.take(i + 1).last() == keys@[i as int]@);
        }
        let (next, _removed) = take_member(cur, &keys[i]);
        cur = next;
        i = i + 1;
    }
    proof {
        assert(ks.take(keys@.len() as int) =~= ks);
    }
    cur
}

/// The names of the members of `map` that are not in `b`, in order.
pub fn diff_left(map: &Vec<(String, Json)>, b: &Vec<String>) -> (r: Vec<String>)
    ensures
        views(r@) == diff_left_spec(keys_of(members_view(map@)), views(b@)),
{
    proof {
        lemma_members_view(map@);
    }
    let ghost ks = keys_of(members_view(map@));
    let mut diff = Vec::<String>::new();
    let mut i: usize = 0;
    while i < map.len()
        invariant
            i <= map@.len(),
            ks == keys_of(members_view(map@)),
            ks.len() == map@.len(),
            members_view(map@).len() == map@.len(),
            forall|j: int|
                0 <= j < map@.len() ==> #[trigger] members_view(map@)[j] == (map@[j].0@, map@[j].1@),
            views(diff@) == diff_left_spec(ks.take(i as int), views(b@)),
        decreases map@.len() - i,
    {
        let a_item = &map[i].0;
        proof {
            assert(ks.take(i + 1).drop_last() =~= ks.take(i as int));
            assert(ks.take(i + 1).last() == a_item@);
        }
        let mut found = false;
        let mut j: usize = 0;
        while j < b.len() && !found
            invariant
                j <= b@.len(),
                found ==> views(b@).contains(a_item@),
                !found ==> forall|k: int| 0 <= k < j ==> b@[k]@ != a_item@,
            decreases b@.len() - j,
        {
            if *a_item == b[j] {
                proof {
                    assert(views(b@)[j as int] == a_item@);
                }
                found = true;
            }
            j = j + 1;
        }
        proof {
            if !found {
                assert forall|k: int| 0 <= k < views(b@).len() implies views(b@)[k] != a_item@ by {
                    assert(b@[k]@ != a_item@);
                }
            }
        }
        if !found {
            let x = a_item.clone();
            proof {
                assert(views(diff@.push(x)) =~= views(diff@).push(x@));
            }
            diff.push(x);
        }
        i = i + 1;
    }
    proof {
        assert(ks.take(map@.len() as int) =~= ks);
    }
    diff
}

/// The members of `ms` whose names are among `fields`, in order.
pub open spec fn select_members(ms: Seq<(Seq<char>, JsonV)>, fields: Seq<Seq<char>>) -> Seq<
    (Seq<char>, JsonV),
>
    decreases ms.len(),
{
    if ms.len() == 0 {
        ms
    } else {
        let r = select_members(ms.drop_last(), fields);
        if fields.contains(ms.last().0) {
            r.push(ms.last())
        } else {
            r
        }
    }
}

/// The members of `ms` whose names are not among `names`, in order.
pub open spec fn without(ms: Seq<(Seq<char>, JsonV)>, names: Seq<Seq<char>>) -> Seq<
    (Seq<char>, JsonV),
>
    decreases ms.len(),
{
    if ms.len() == 0 {
        ms
    } else {
        let r = without(ms.drop_last(), names);
        if names.contains(ms.last().0) {
            r
        } else {
            r.push(ms.last())
        }
    }
}

proof fn lemma_remove_without(ms: Seq<(Seq<char>, JsonV)>, names: Seq<Seq<char>>, k: Seq<char>)
    ensures
        remove_member(without(ms, names), k) == without(ms, names.push(k)),
    decreases ms.len(),
{
    if ms.len() > 0 {
        lemma_remove_without(ms.drop_last(), names, k);
        let l = ms.last();
        assert(names.push(k).contains(l.0) == (names.contains(l.0) || l.0 == k)) by {
            if names.contains(l.0) {
                let j = choose|j: int| 0 <= j < names.len() && names[j] == l.0;
                assert(names.push(k)[j] == l.0);
            }
            if l.0 == k {
                assert(names.push(k)[names.len() as int] == k);
            }
            if names.push(k).contains(l.0) {
                let j = choose|j: int| 0 <= j < names.push(k).len() && names.push(k)[j] == l.0;
                if j < names.len() {
                    assert(names[j] == l.0);
                }
            }
        }
        let r = without(ms.drop_last(), names);
        if !names.contains(l.0) {
            assert(r.push(l).drop_last() =~= r);
        }
    }
}

proof fn lemma_remove_all_without(ms: Seq<(Seq<char>, JsonV)>, names: Seq<Seq<char>>)
    ensures
        remove_all(ms, names) == without(ms, names),
    decreases names.len(),
{
    if names.len() == 0 {
        lemma_without_none(ms, names);
    } else {
        lemma_remove_all_without(ms, names.drop_last());
        lemma_remove_without(ms, names.drop_last(), names.last());
        assert(names.drop_last().push(names.last()) =~= names);
    }
}

proof fn lemma_without_none(ms: Seq<(Seq<char>, JsonV)>, names: Seq<Seq<char>>)
    requires
        names.len() == 0,
    ensures
        without(ms, names) == ms,
    decreases ms.len(),
{
    if ms.len() > 0 {
        lemma_without_none(ms.drop_last(), names);
        assert(ms.drop_last().push(ms.last()) =~= ms);
    }
}

proof fn lemma_diff_left_contains(keys: Seq<Seq<char>>, fields: Seq<Seq<char>>, x: Seq<char>)
    ensures
        diff_left_spec(keys, fields).contains(x) == (keys.contains(x) && !fields.contains(x)),
    decreases keys.len(),
{
    if keys.len() > 0 {
        lemma_diff_left_contains(keys.drop_last(), fields, x);
        let r = diff_left_spec(keys.drop_last(), fields);
        if keys.drop_last().contains(x) {
            let j = choose|j: int| 0 <= j < keys.drop_last().len() && keys.drop_last()[j] == x;
            assert(keys[j] == x);
        }
        if keys.contains(x) {
            let j = choose|j: int| 0 <= j < keys.len() && keys[j] == x;
            if j < keys.len() - 1 {
                assert(keys.drop_last()[j] == x);
            }
        }
        if !fields.contains(keys.last()) {
            if r.push(keys.last()).contains(x) {
                let j = choose|j: int| 0 <= j < r.push(keys.last()).len() && r.push(keys.last())[j] == x;
                if j < r.len() {
                    assert(r[j] == x);
                }
            }
            if r.contains(x) {
                let j = choose|j: int| 0 <= j < r.len() && r[j] == x;
                assert(r.push(keys.last())[j] == x);
            }
            if x == keys.last() {
                assert(r.push(keys.last())[r.len() as int] == x);
            }
        }
    }
}

proof fn lemma_without_select(ms: Seq<(Seq<char>, JsonV)>, names: Seq<Seq<char>>, fields: Seq<Seq<char>>)
    requires
        forall|i: int| 0 <= i < ms.len() ==> (names.contains(#[trigger] ms[i].0) <==> !fields.contains(ms[i].0)),
    ensures
        without(ms, names) == select_members(ms, fields),
    decreases ms.len(),
{
    if ms.len() > 0 {
        assert forall|i: int| 0 <= i < ms.drop_last().len() implies (names.contains(#[trigger] ms.drop_last()[i].0) <==> !fields.contains(ms.drop_last()[i].0)) by {
            assert(ms.drop_last()[i] == ms[i]);
        }
        lemma_without_select(ms.drop_last(), names, fields);
        assert(names.contains(ms[ms.len() - 1].0) <==> !fields.contains(ms[ms.len() - 1].0));
    }
}

/// The field selection keeps, of an object, exactly the members whose names
/// are selected, with their values, in order; every other member goes.
pub proof fn law_select_keeps_named(ms: Seq<(Seq<char>, JsonV)>, fields: Seq<Seq<char>>)
    ensures
        select(JsonV::Object(ms), fields) == JsonV::Object(select_members(ms, fields)),
{
    let d = diff_left_spec(keys_of(ms), fields);
    lemma_remove_all_without(ms, d);
    assert forall|i: int| 0 <= i < ms.len() implies (d.contains(#[trigger] ms[i].0) <==> !fields.contains(ms[i].0)) by {
        lemma_diff_left_contains(keys_of(ms), fields, ms[i].0);
        assert(keys_of(ms)[i] == ms[i].0);
    }
    lemma_without_select(ms, d, fields);
}

proof fn lemma_select_members_kept(ms: Seq<(Seq<char>, JsonV)>, fields: Seq<Seq<char>>)
    ensures
        forall|j: int|
            0 <= j < select_members(ms, fields).len() ==> fields.contains(
                (#[trigger] select_members(ms, fields)[j]).0,
            ) && ms.contains(select_members(ms, fields)[j]),
        forall|i: int|
            0 <= i < ms.len() && fields.contains((#[trigger] ms[i]).0) ==> select_members(
                ms,
                fields,
            ).contains(ms[i]),
    decreases ms.len(),
{
    if ms.len() > 0 {
        let front = ms.drop_last();
        lemma_select_members_kept(front, fields);
        let r0 = select_members(front, fields);
        let r = select_members(ms, fields);
        assert forall|j: int| 0 <= j < r.len() implies fields.contains((#[trigger] r[j]).0) && ms.contains(r[j]) by {
            if j < r0.len() {
                assert(r[j] == r0[j]);
                let k = choose|k: int| 0 <= k < front.len() && front[k] == r0[j];
                assert(ms[k] == front[k]);
            } else {
                assert(r[j] == ms[ms.len() - 1]);
            }
        }
        assert forall|i: int| 0 <= i < ms.len() && fields.contains((#[trigger] ms[i]).0) implies r.contains(ms[i]) by {
            if i < front.len() {
                assert(front[i] == ms[i]);
                let k = choose|k: int| 0 <= k < r0.len() && r0[k] == front[i];
                assert(r[k] == r0[k]);
            } else {
                assert(r[r.len() - 1] == ms[i]);
            }
        }
    }
}

/// With at least one field named, the field selection keeps of an object, and
/// of each object of an array, exactly its members whose names are named, with
/// their values: every member it keeps is a named member of the object, and
/// every named member of the object is kept.
pub proof fn law_fields_keep_named(v: JsonV, fields: Seq<Seq<char>>)
    requires
        fields.len() > 0,
    ensures
        v matches JsonV::Object(ms) ==> fields_spec(v, fields) == JsonV::Object(
            select_members(ms, fields),
        ),
        v matches JsonV::Array(items) ==> fields_spec(v, fields) matches JsonV::Array(out)
            && out.len() == items.len() && forall|i: int|
            0 <= i < items.len() ==> (items[i] matches JsonV::Object(ms) ==> #[trigger] out[i]
                == JsonV::Object(select_members(ms, fields))),
        forall|ms: Seq<(Seq<char>, JsonV)>, j: int|
            0 <= j < select_members(ms, fields).len() ==> fields.contains(
                (#[trigger] select_members(ms, fields)[j]).0,
            ) && ms.contains(select_members(ms, fields)[j]),
        forall|ms: Seq<(Seq<char>, JsonV)>, i: int|
            0 <= i < ms.len() && fields.contains((#[trigger] ms[i]).0) ==> select_members(
                ms,
                fields,
            ).contains(ms[i]),
{
    assert forall|ms: Seq<(Seq<char>, JsonV)>, j: int|
        0 <= j < select_members(ms, fields).len() implies fields.contains(
        (#[trigger] select_members(ms, fields)[j]).0,
    ) && ms.contains(select_members(ms, fields)[j]) by {
        lemma_select_members_kept(ms, fields);
    }
    assert forall|ms: Seq<(Seq<char>, JsonV)>, i: int|
        0 <= i < ms.len() && fields.contains((#[trigger] ms[i]).0) implies select_members(
        ms,
        fields,
    ).contains(ms[i]) by {
        lemma_select_members_kept(ms, fields);
    }
    if let JsonV::Object(ms) = v {
        law_select_keeps_named(ms, fields);
    }
    if let JsonV::Array(items) = v {
        assert forall|i: int| 0 <= i < items.len() implies (items[i] matches JsonV::Object(ms) ==> #[trigger] fields_spec(v, fields)->Array_0[i]
            == JsonV::Object(select_members(ms, fields))) by {
            if let JsonV::Object(ms) = items[i] {
                law_select_keeps_named(ms, fields);
            }
        }
    }
}

} // verus!
