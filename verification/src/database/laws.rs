//! What the operations of the database promise together: a record that an
//! insert adds is what a read of its id gives back, a delete of it undoes the
//! insert, a second insert of its id is refused, a read after an update gives
//! the updated value, a read after a delete finds nothing, and every change
//! keeps each object's names in order and unique.
use vstd::prelude::*;
use crate::database::{
    child, decide_id_spec, find_id, has_child, id_of, lemma_find_id, lemma_node_at_push,
    lemma_replace_at, lemma_resolve_valid, node_at, other_id, passed, replace_at, resolve, step,
    valid_path, Lookup, Resolved,
};
use crate::database::{
    delete_completes, delete_spec, insert_completes, insert_spec, merge_members, new_id, read_spec, update_node,
    update_spec, with_id,
};
use crate::database::errors::ErrorView;
use crate::database::messages::{int_text, lemma_int_text_round_trip};
use crate::json::{
    get_field, insert_pos, lemma_insert_pos, lemma_member, lemma_member_is, lemma_member_none,
    lemma_set_member_sorted, member, remove_member, set_member, sorted_names, well_formed, JsonV,
};
use crate::text::{text_order, Order};

verus! {

/// Two lists of members with the same names in the same order find a name at
/// the same position.
pub proof fn lemma_member_names(a: Seq<(Seq<char>, JsonV)>, b: Seq<(Seq<char>, JsonV)>, key: Seq<char>)
    requires
        a.len() == b.len(),
        forall|j: int| 0 <= j < a.len() ==> (#[trigger] a[j]).0 == b[j].0,
    ensures
        member(a, key) == member(b, key),
{
    lemma_member(a, key);
    match member(a, key) {
        Some(i) => {
            assert forall|j: int| 0 <= j < i implies (#[trigger] b[j]).0 != key by {
                assert(a[j].0 != key);
            }
            lemma_member_is(b, key, i);
        },
        None => {
            assert forall|j: int| 0 <= j < b.len() implies (#[trigger] b[j]).0 != key by {
                assert(a[j].0 != key);
            }
            lemma_member_none(b, key);
        },
    }
}

/// A search by id stops at the first record that has the id, once every record
/// before it has another integer id.
pub proof fn lemma_find_id_at(items: Seq<JsonV>, target: i64, i: int)
    requires
        0 <= i < items.len(),
        passed(items, target, i),
        id_of(items[i]) == Some(target),
    ensures
        find_id(items, target) == Lookup::At(i),
    decreases i,
{
    if i > 0 {
        assert(other_id(items[0], target));
        let rest = items.drop_first();
        assert forall|j: int| 0 <= j < i - 1 implies #[trigger] other_id(rest[j], target) by {
            assert(rest[j] == items[j + 1]);
            assert(other_id(items[j + 1], target));
        }
        assert(rest[i - 1] == items[i]);
        lemma_find_id_at(rest, target, i - 1);
    }
}

/// Replacing the record that a search by id finds with one of the same id
/// leaves the search where it was.
pub proof fn lemma_find_id_update(items: Seq<JsonV>, target: i64, i: int, x: JsonV)
    requires
        find_id(items, target) == Lookup::At(i),
        id_of(x) == id_of(items[i]),
    ensures
        find_id(items.update(i, x), target) == Lookup::At(i),
{
    lemma_find_id(items, target);
    let u = items.update(i, x);
    assert forall|j: int| 0 <= j < i implies #[trigger] other_id(u[j], target) by {
        assert(u[j] == items[j]);
        assert(other_id(items[j], target));
    }
    lemma_find_id_at(u, target, i);
}

/// A record added at the end of a table where its id is missing is what a
/// search by that id finds.
pub proof fn lemma_find_id_push(items: Seq<JsonV>, target: i64, x: JsonV)
    requires
        find_id(items, target) is Missing,
        id_of(x) == Some(target),
    ensures
        find_id(items.push(x), target) == Lookup::At(items.len() as int),
{
    lemma_find_id(items, target);
    let u = items.push(x);
    assert forall|j: int| 0 <= j < items.len() implies #[trigger] other_id(u[j], target) by {
        assert(u[j] == items[j]);
        assert(other_id(items[j], target));
    }
    lemma_find_id_at(u, target, items.len() as int);
}

/// Following one key more goes one step further from where the other keys lead.
pub proof fn lemma_resolve_push(v: JsonV, keys: Seq<Seq<char>>, k: Seq<char>)
    ensures
        resolve(v, keys.push(k)) == match resolve(v, keys) {
            Resolved::Found(p) => match step(node_at(v, p), k) {
                Lookup::At(i) => Resolved::Found(p.push(i)),
                Lookup::Missing => Resolved::Missing(keys.len() as int),
                Lookup::Broken => Resolved::Broken,
            },
            other => other,
        },
    decreases keys.len(),
{
    let ks = keys.push(k);
    if keys.len() == 0 {
        assert(ks.drop_first() =~= Seq::<Seq<char>>::empty());
        assert(ks[0] == k);
        assert(resolve(v, keys) == Resolved::Found(Seq::<int>::empty()));
        assert(node_at(v, Seq::<int>::empty()) == v);
        if let Lookup::At(i) = step(v, k) {
            assert(resolve(child(v, i), ks.drop_first()) == Resolved::Found(Seq::<int>::empty()));
            assert(seq![i] + Seq::<int>::empty() =~= Seq::<int>::empty().push(i));
        }
    } else {
        assert(ks[0] == keys[0]);
        assert(ks.drop_first() =~= keys.drop_first().push(k));
        if let Lookup::At(i) = step(v, keys[0]) {
            let c = child(v, i);
            lemma_resolve_push(c, keys.drop_first(), k);
            if let Resolved::Found(q) = resolve(c, keys.drop_first()) {
                let p = seq![i] + q;
                assert(p[0] == i);
                assert(p.drop_first() =~= q);
                assert(node_at(v, p) == node_at(c, q));
                if let Lookup::At(j) = step(node_at(c, q), k) {
                    assert(seq![i] + q.push(j) =~= p.push(j));
                }
            }
        }
    }
}

/// Putting back the value that a path leads to changes nothing.
pub proof fn lemma_replace_same(v: JsonV, p: Seq<int>)
    requires
        valid_path(v, p),
    ensures
        replace_at(v, p, node_at(v, p)) == v,
    decreases p.len(),
{
    if p.len() > 0 {
        let i = p[0];
        lemma_replace_same(child(v, i), p.drop_first());
        match v {
            JsonV::Array(items) => {
                assert(items.update(i, items[i]) =~= items);
            },
            JsonV::Object(ms) => {
                assert(ms.update(i, (ms[i].0, ms[i].1)) =~= ms);
            },
            _ => {},
        }
    }
}

/// Along `p`, each record of an array that the path passes keeps its id once
/// `sub` stands at the end of the path.
pub open spec fn keeps_ids(v: JsonV, p: Seq<int>, sub: JsonV) -> bool
    decreases p.len(),
{
    p.len() == 0 || ({
        let c = child(v, p[0]);
        &&& (v is Array ==> id_of(replace_at(c, p.drop_first(), sub)) == id_of(c))
        &&& keeps_ids(c, p.drop_first(), sub)
    })
}

/// Where the records along a path keep their ids, the keys lead to the same
/// place once a value is replaced at its end.
pub proof fn lemma_resolve_replace(v: JsonV, keys: Seq<Seq<char>>, p: Seq<int>, sub: JsonV)
    requires
        resolve(v, keys) == Resolved::Found(p),
        keeps_ids(v, p, sub),
    ensures
        resolve(replace_at(v, p, sub), keys) == Resolved::Found(p),
    decreases keys.len(),
{
    if keys.len() > 0 {
        if let Lookup::At(i) = step(v, keys[0]) {
            let c = child(v, i);
            let rest = keys.drop_first();
            if let Resolved::Found(q) = resolve(c, rest) {
                assert(p == seq![i] + q);
                assert(p[0] == i);
                assert(p.drop_first() =~= q);
                lemma_resolve_replace(c, rest, q, sub);
                match v {
                    JsonV::Object(ms) => {
                        lemma_member(ms, keys[0]);
                        let ms2 = ms.update(i, (ms[i].0, replace_at(ms[i].1, q, sub)));
                        lemma_member_names(ms, ms2, keys[0]);
                    },
                    JsonV::Array(items) => {
                        lemma_find_id(items, decide_id_spec(keys[0]));
                        lemma_find_id_update(
                            items,
                            decide_id_spec(keys[0]),
                            i,
                            replace_at(items[i], q, sub),
                        );
                    },
                    _ => {},
                }
            }
        }
    }
}

/// A record with its `id` set carries that id.
pub proof fn lemma_with_id(value: JsonV, id: i64)
    requires
        value is Object,
    ensures
        with_id(value, id) is Object,
        id_of(with_id(value, id)) == Some(id),
{
    let ms = value->Object_0;
    lemma_member(ms, "id"@);
    let n = JsonV::Number(id);
    match member(ms, "id"@) {
        Some(i) => {
            let ms2 = ms.update(i, ("id"@, n));
            lemma_member_names(ms, ms2, "id"@);
        },
        None => {
            let p = insert_pos(ms, "id"@);
            lemma_insert_pos(ms, "id"@);
            let ms2 = ms.insert(p, ("id"@, n));
            assert forall|j: int| 0 <= j < p implies (#[trigger] ms2[j]).0 != "id"@ by {
                assert(ms2[j] == ms[j]);
            }
            lemma_member_is(ms2, "id"@, p);
        },
    }
}

/// Replacing an array or an object that the keys lead to keeps the id of every
/// record the path passes, where the new value has the id of the old one in
/// case the old one is a record of an array.
pub proof fn lemma_keeps_ids_container(v: JsonV, keys: Seq<Seq<char>>, p: Seq<int>, sub: JsonV)
    requires
        resolve(v, keys) == Resolved::Found(p),
        node_at(v, p) is Array || node_at(v, p) is Object,
        p.len() > 0 && node_at(v, p.drop_last()) is Array ==> id_of(sub) == id_of(node_at(v, p)),
    ensures
        keeps_ids(v, p, sub),
    decreases keys.len(),
{
    lemma_resolve_valid(v, keys);
    if keys.len() > 0 {
        if let Lookup::At(i) = step(v, keys[0]) {
            let c = child(v, i);
            let rest = keys.drop_first();
            if let Resolved::Found(q) = resolve(c, rest) {
                assert(p[0] == i);
                assert(p.drop_first() =~= q);
                assert(node_at(v, p) == node_at(c, q));
                if q.len() > 0 {
                    assert(p.drop_last()[0] == i);
                    assert(p.drop_last().drop_first() =~= q.drop_last());
                    assert(node_at(v, p.drop_last()) == node_at(c, q.drop_last()));
                }
                lemma_keeps_ids_container(c, rest, q, sub);
                if let JsonV::Array(items) = v {
                    lemma_find_id(items, decide_id_spec(keys[0]));
                    let ms = c->Object_0;
                    lemma_member(ms, "id"@);
                    let m = member(ms, "id"@)->Some_0;
                    lemma_resolve_valid(c, rest);
                    if q.len() == 0 {
                        assert(node_at(c, q) == c);
                        assert(p.drop_last() =~= Seq::<int>::empty());
                    } else {
                        let j = q[0];
                        if j == m {
                            assert(valid_path(ms[j].1, q.drop_first()));
                            if q.drop_first().len() > 0 {
                                assert(!has_child(ms[j].1, q.drop_first()[0]));
                            }
                            assert(node_at(c, q) == node_at(ms[j].1, q.drop_first()));
                        } else {
                            let ms2 = ms.update(j, (ms[j].0, replace_at(ms[j].1, q.drop_first(), sub)));
                            lemma_member_names(ms, ms2, "id"@);
                        }
                    }
                }
            }
        }
    }
}

/// The place and the record of an insert that succeeds.
pub proof fn lemma_insert_ok(data: JsonV, keys: Seq<Seq<char>>, value: JsonV, fallback: i64) -> (r: (Seq<int>, Seq<JsonV>))
    requires
        insert_completes(data, keys, value, fallback),
        value is Object,
        insert_spec(data, keys, value, fallback).1 is Ok,
    ensures
        resolve(data, keys) == Resolved::Found(r.0),
        node_at(data, r.0) == JsonV::Array(r.1),
        find_id(r.1, new_id(value, fallback)) is Missing,
        id_of(with_id(value, new_id(value, fallback))) == Some(new_id(value, fallback)),
        insert_spec(data, keys, value, fallback) == (
            replace_at(data, r.0, JsonV::Array(r.1.push(with_id(value, new_id(value, fallback))))),
            Ok::<JsonV, ErrorView>(with_id(value, new_id(value, fallback))),
        ),
        resolve(insert_spec(data, keys, value, fallback).0, keys) == Resolved::Found(r.0),
        node_at(insert_spec(data, keys, value, fallback).0, r.0) == JsonV::Array(
            r.1.push(with_id(value, new_id(value, fallback))),
        ),
{
    let p = resolve(data, keys)->Found_0;
    let items = node_at(data, p)->Array_0;
    let id = new_id(value, fallback);
    let rec = with_id(value, id);
    let sub = JsonV::Array(items.push(rec));
    lemma_with_id(value, id);
    lemma_resolve_valid(data, keys);
    lemma_replace_at(data, p, sub, sub);
    lemma_keeps_ids_container(data, keys, p, sub);
    lemma_resolve_replace(data, keys, p, sub);
    (p, items)
}

/// A record that an insert adds to a table is what a read of its id gives back.
pub proof fn law_read_after_insert(data: JsonV, keys: Seq<Seq<char>>, value: JsonV, fallback: i64)
    requires
        insert_completes(data, keys, value, fallback),
        value is Object,
        insert_spec(data, keys, value, fallback).1 is Ok,
    ensures
        read_spec(
            insert_spec(data, keys, value, fallback).0,
            keys.push(int_text(new_id(value, fallback) as int)),
            None,
        ) == insert_spec(data, keys, value, fallback).1,
{
    let (p, items) = lemma_insert_ok(data, keys, value, fallback);
    let id = new_id(value, fallback);
    let rec = with_id(value, id);
    let d2 = insert_spec(data, keys, value, fallback).0;
    let k = int_text(id as int);
    lemma_int_text_round_trip(id);
    assert(decide_id_spec(k) == id);
    lemma_find_id_push(items, id, rec);
    lemma_resolve_push(d2, keys, k);
    lemma_node_at_push(d2, p, items.len() as int);
    assert(items.push(rec)[items.len() as int] == rec);
}

/// Deleting the record that an insert added, by its id, gives the record back
/// and leaves the document as it was before the insert.
pub proof fn law_delete_after_insert(data: JsonV, keys: Seq<Seq<char>>, value: JsonV, fallback: i64)
    requires
        insert_completes(data, keys, value, fallback),
        value is Object,
        insert_spec(data, keys, value, fallback).1 is Ok,
    ensures
        delete_spec(
            insert_spec(data, keys, value, fallback).0,
            keys.push(int_text(new_id(value, fallback) as int)),
        ) == (data, insert_spec(data, keys, value, fallback).1),
{
    let (p, items) = lemma_insert_ok(data, keys, value, fallback);
    let id = new_id(value, fallback);
    let rec = with_id(value, id);
    let d2 = insert_spec(data, keys, value, fallback).0;
    let k = int_text(id as int);
    let ks = keys.push(k);
    assert(ks.drop_last() =~= keys);
    assert(ks.last() == k);
    lemma_int_text_round_trip(id);
    lemma_find_id_push(items, id, rec);
    assert(items.push(rec).remove(items.len() as int) =~= items);
    lemma_resolve_valid(data, keys);
    lemma_replace_at(data, p, JsonV::Array(items.push(rec)), JsonV::Array(items));
    lemma_replace_same(data, p);
}

/// A second insert of a record with the id of one that an insert added is
/// refused as a conflict, and changes nothing.
pub proof fn law_insert_twice_conflicts(data: JsonV, keys: Seq<Seq<char>>, value: JsonV, fallback: i64)
    requires
        insert_completes(data, keys, value, fallback),
        value is Object,
        insert_spec(data, keys, value, fallback).1 is Ok,
    ensures
        insert_spec(insert_spec(data, keys, value, fallback).0, keys, value, fallback).0
            == insert_spec(data, keys, value, fallback).0,
        insert_spec(insert_spec(data, keys, value, fallback).0, keys, value, fallback).1 matches Err(
            ErrorView::Conflict(_),
        ),
{
    let (p, items) = lemma_insert_ok(data, keys, value, fallback);
    let id = new_id(value, fallback);
    let rec = with_id(value, id);
    lemma_find_id_push(items, id, rec);
}

/// Setting a member leaves every member of another name as it was.
pub proof fn lemma_set_member_other(ms: Seq<(Seq<char>, JsonV)>, k: Seq<char>, x: JsonV, key: Seq<char>)
    requires
        k != key,
    ensures
        get_field(JsonV::Object(set_member(ms, k, x)), key) == get_field(JsonV::Object(ms), key),
{
    lemma_member(ms, k);
    lemma_member(ms, key);
    match member(ms, k) {
        Some(i) => {
            let ms2 = ms.update(i, (k, x));
            lemma_member_names(ms, ms2, key);
        },
        None => {
            let p = insert_pos(ms, k);
            lemma_insert_pos(ms, k);
            let ms2 = ms.insert(p, (k, x));
            match member(ms, key) {
                Some(m) => {
                    let m2 = if m < p { m } else { m + 1 };
                    assert forall|j: int| 0 <= j < m2 implies (#[trigger] ms2[j]).0 != key by {
                        if j < p {
                            assert(ms2[j] == ms[j]);
                        } else if j > p {
                            assert(ms2[j] == ms[j - 1]);
                        }
                    }
                    assert(ms2[m2] == ms[m]);
                    lemma_member_is(ms2, key, m2);
                },
                None => {
                    assert forall|j: int| 0 <= j < ms2.len() implies (#[trigger] ms2[j]).0 != key by {
                        if j < p {
                            assert(ms2[j] == ms[j]);
                        } else if j > p {
                            assert(ms2[j] == ms[j - 1]);
                        }
                    }
                    lemma_member_none(ms2, key);
                },
            }
        },
    }
}

/// Merging the members of an update into a record keeps its `id`.
pub proof fn lemma_merge_keeps_id(ms: Seq<(Seq<char>, JsonV)>, vms: Seq<(Seq<char>, JsonV)>, n: int)
    ensures
        get_field(JsonV::Object(merge_members(ms, vms, n)), "id"@) == get_field(JsonV::Object(ms), "id"@),
    decreases n,
{
    if n > 0 {
        lemma_merge_keeps_id(ms, vms, n - 1);
        let k = vms[n - 1].0;
        if k != "id"@ {
            lemma_set_member_other(
                merge_members(ms, vms, n - 1),
                k,
                crate::database::first_value(vms, k),
                "id"@,
            );
        }
    }
}

/// Whether an update at `keys` with `value` gives the record that the path
/// passes last another id: the path ends at the `id` of a record of an array,
/// and `value` is a number other than that id.
pub open spec fn rewrites_record_id(data: JsonV, keys: Seq<Seq<char>>, value: JsonV) -> bool {
    match resolve(data, keys) {
        Resolved::Found(p) => {
            &&& p.len() >= 2
            &&& keys.last() == "id"@
            &&& node_at(data, p.take(p.len() - 2)) is Array
            &&& value is Number
            &&& value != node_at(data, p)
        },
        _ => false,
    }
}

/// An update that does not give a record another id keeps the id of every
/// record that its path passes.
pub proof fn lemma_keeps_ids_update(v: JsonV, keys: Seq<Seq<char>>, p: Seq<int>, value: JsonV)
    requires
        resolve(v, keys) == Resolved::Found(p),
        update_node(node_at(v, p), value) is Some,
        !rewrites_record_id(v, keys, value),
    ensures
        keeps_ids(v, p, update_node(node_at(v, p), value)->Some_0),
    decreases keys.len(),
{
    lemma_resolve_valid(v, keys);
    let n = update_node(node_at(v, p), value)->Some_0;
    if keys.len() > 0 {
        if let Lookup::At(i) = step(v, keys[0]) {
            let c = child(v, i);
            let rest = keys.drop_first();
            if let Resolved::Found(q) = resolve(c, rest) {
                assert(p[0] == i);
                assert(p.drop_first() =~= q);
                assert(node_at(v, p) == node_at(c, q));
                lemma_resolve_valid(c, rest);
                if rewrites_record_id(c, rest, value) {
                    assert(keys.last() == rest.last());
                    assert(p.take(p.len() - 2)[0] == i);
                    assert(p.take(p.len() - 2).drop_first() =~= q.take(q.len() - 2));
                    assert(node_at(v, p.take(p.len() - 2)) == node_at(c, q.take(q.len() - 2)));
                    assert(rewrites_record_id(v, keys, value));
                }
                lemma_keeps_ids_update(c, rest, q, value);
                if let JsonV::Array(items) = v {
                    lemma_find_id(items, decide_id_spec(keys[0]));
                    let ms = c->Object_0;
                    lemma_member(ms, "id"@);
                    let m = member(ms, "id"@)->Some_0;
                    if q.len() == 0 {
                        assert(node_at(c, q) == c);
                        if let JsonV::Object(vms) = value {
                            lemma_merge_keeps_id(ms, vms, vms.len() as int);
                        }
                    } else {
                        let j = q[0];
                        let ms2 = ms.update(j, (ms[j].0, replace_at(ms[j].1, q.drop_first(), n)));
                        if j == m {
                            assert(valid_path(ms[j].1, q.drop_first()));
                            if q.drop_first().len() > 0 {
                                assert(!has_child(ms[j].1, q.drop_first()[0]));
                            }
                            assert(q.len() == 1);
                            assert(child(c, j) == ms[j].1);
                            assert(node_at(ms[j].1, q.drop_first()) == ms[j].1);
                            assert(node_at(c, q) == ms[j].1);
                            lemma_member(ms, rest[0]);
                            assert(keys.last() == "id"@);
                            assert(p.take(p.len() - 2) =~= Seq::<int>::empty());
                            assert(n == ms[j].1);
                            assert(ms2 =~= ms);
                        } else {
                            lemma_member_names(ms, ms2, "id"@);
                        }
                    }
                }
            }
        }
    }
}

/// A read after an update that succeeds gives the updated value, unless the
/// update gave the record at the end of the path another id.
pub proof fn law_read_after_update(data: JsonV, keys: Seq<Seq<char>>, value: JsonV)
    requires
        update_spec(data, keys, value).1 is Ok,
        !rewrites_record_id(data, keys, value),
    ensures
        read_spec(update_spec(data, keys, value).0, keys, None) == update_spec(data, keys, value).1,
{
    let p = resolve(data, keys)->Found_0;
    let n = update_node(node_at(data, p), value)->Some_0;
    lemma_resolve_valid(data, keys);
    lemma_keeps_ids_update(data, keys, p, value);
    lemma_resolve_replace(data, keys, p, n);
    lemma_replace_at(data, p, n, n);
}

/// A name found in a list of members stays found where a member is added.
pub proof fn lemma_member_push(ms: Seq<(Seq<char>, JsonV)>, e: (Seq<char>, JsonV), key: Seq<char>)
    ensures
        member(ms.push(e), key) == match member(ms, key) {
            Some(x) => Some(x),
            None => if e.0 == key {
                Some(ms.len() as int)
            } else {
                None
            },
        },
{
    lemma_member(ms, key);
    let ms2 = ms.push(e);
    match member(ms, key) {
        Some(x) => {
            assert forall|j: int| 0 <= j < x implies (#[trigger] ms2[j]).0 != key by {
                assert(ms2[j] == ms[j]);
            }
            assert(ms2[x] == ms[x]);
            lemma_member_is(ms2, key, x);
        },
        None => {
            if e.0 == key {
                assert forall|j: int| 0 <= j < ms.len() implies (#[trigger] ms2[j]).0 != key by {
                    assert(ms2[j] == ms[j]);
                }
                lemma_member_is(ms2, key, ms.len() as int);
            } else {
                assert forall|j: int| 0 <= j < ms2.len() implies (#[trigger] ms2[j]).0 != key by {
                    if j < ms.len() {
                        assert(ms2[j] == ms[j]);
                    }
                }
                lemma_member_none(ms2, key);
            }
        },
    }
}

/// Removing the members named `key` leaves none of that name, and leaves the
/// members of every other name as they were.
pub proof fn lemma_remove_member(ms: Seq<(Seq<char>, JsonV)>, key: Seq<char>, other: Seq<char>)
    ensures
        member(remove_member(ms, key), key) is None,
        other != key ==> get_field(JsonV::Object(remove_member(ms, key)), other) == get_field(
            JsonV::Object(ms),
            other,
        ),
    decreases ms.len(),
{
    if ms.len() == 0 {
        lemma_member_none(ms, key);
        lemma_member_none(ms, other);
    } else {
        let front = ms.drop_last();
        let l = ms.last();
        assert(ms =~= front.push(l));
        lemma_remove_member(front, key, other);
        let r = remove_member(front, key);
        lemma_member_push(front, l, other);
        lemma_member_push(r, l, key);
        lemma_member_push(r, l, other);
        lemma_member(front, other);
        lemma_member(r, other);
        if let Some(x) = member(front, other) {
            assert(ms[x] == front[x]);
        }
        if let Some(y) = member(r, other) {
            assert(r.push(l)[y] == r[y]);
        }
    }
}

/// Replacing a value one step below the end of a path is replacing, at the
/// end of the path, the value there with that step replaced.
pub proof fn lemma_replace_push(v: JsonV, p: Seq<int>, i: int, s: JsonV)
    requires
        valid_path(v, p),
    ensures
        replace_at(v, p.push(i), s) == replace_at(v, p, replace_at(node_at(v, p), seq![i], s)),
    decreases p.len(),
{
    let pp = p.push(i);
    if p.len() == 0 {
        assert(pp =~= seq![i]);
    } else {
        assert(pp[0] == p[0]);
        assert(pp.drop_first() =~= p.drop_first().push(i));
        lemma_replace_push(child(v, p[0]), p.drop_first(), i, s);
    }
}

/// A search by id that reaches a record without an integer id stops short.
pub proof fn lemma_find_id_broken(items: Seq<JsonV>, target: i64, i: int)
    requires
        0 <= i < items.len(),
        passed(items, target, i),
        id_of(items[i]) is None,
    ensures
        find_id(items, target) is Broken,
    decreases i,
{
    if i > 0 {
        assert(other_id(items[0], target));
        let rest = items.drop_first();
        assert forall|j: int| 0 <= j < i - 1 implies #[trigger] other_id(rest[j], target) by {
            assert(rest[j] == items[j + 1]);
            assert(other_id(items[j + 1], target));
        }
        assert(rest[i - 1] == items[i]);
        lemma_find_id_broken(rest, target, i - 1);
    }
}

/// At most one record of the table has the id `target`.
pub open spec fn id_once(items: Seq<JsonV>, target: i64) -> bool {
    forall|j: int, k: int|
        0 <= j < items.len() && 0 <= k < items.len() && #[trigger] id_of(items[j]) == Some(target)
            && #[trigger] id_of(items[k]) == Some(target) ==> j == k
}

/// After a delete that succeeds, a read of the same path finds nothing, unless
/// the table held another record with the id that was deleted.
pub proof fn law_read_after_delete(data: JsonV, keys: Seq<Seq<char>>)
    requires
        delete_completes(data, keys),
        delete_spec(data, keys).1 is Ok,
        match resolve(data, keys.drop_last()) {
            Resolved::Found(p) => node_at(data, p) matches JsonV::Array(items) ==> id_once(
                items,
                decide_id_spec(keys.last()),
            ),
            _ => true,
        },
    ensures
        read_spec(delete_spec(data, keys).0, keys, None) matches Err(ErrorView::NotFound(_)),
{
    let pre = keys.drop_last();
    let key = keys.last();
    assert(keys =~= pre.push(key));
    let p = resolve(data, pre)->Found_0;
    let d2 = delete_spec(data, keys).0;
    lemma_resolve_valid(data, pre);
    match node_at(data, p) {
        JsonV::Array(items) => {
            let t = decide_id_spec(key);
            let idx = find_id(items, t)->At_0;
            lemma_find_id(items, t);
            let rem = items.remove(idx);
            let sub = JsonV::Array(rem);
            lemma_keeps_ids_container(data, pre, p, sub);
            lemma_resolve_replace(data, pre, p, sub);
            lemma_replace_at(data, p, sub, sub);
            lemma_resolve_push(d2, pre, key);
            lemma_find_id(rem, t);
            if let Lookup::At(k) = find_id(rem, t) {
                if k < idx {
                    assert(rem[k] == items[k]);
                    assert(other_id(items[k], t));
                } else {
                    assert(rem[k] == items[k + 1]);
                    assert(id_of(items[k + 1]) == Some(t));
                    assert(id_of(items[idx]) == Some(t));
                }
            }
        },
        JsonV::Object(ms) => {
            let sub = JsonV::Object(remove_member(ms, key));
            lemma_remove_member(ms, key, "id"@);
            if p.len() > 0 && node_at(data, p.drop_last()) is Array && key == "id"@ {
                let pp = p.drop_last();
                let i0 = p.last();
                let pre2 = pre.drop_last();
                assert(pre =~= pre2.push(pre.last()));
                lemma_resolve_push(data, pre2, pre.last());
                let q = resolve(data, pre2)->Found_0;
                let i = step(node_at(data, q), pre.last())->At_0;
                assert(p == q.push(i));
                assert(pp =~= q);
                assert(i0 == i);
                lemma_resolve_valid(data, pre2);
                let aitems = node_at(data, pp)->Array_0;
                let t = decide_id_spec(pre.last());
                lemma_node_at_push(data, pp, i0);
                lemma_find_id(aitems, t);
                let a2 = JsonV::Array(aitems.update(i0, sub));
                lemma_replace_push(data, pp, i0, sub);
                assert(replace_at(node_at(data, pp), seq![i0], sub) == a2) by {
                    assert(seq![i0][0] == i0);
                    assert(seq![i0].drop_first() =~= Seq::<int>::empty());
                    assert(replace_at(aitems[i0], seq![i0].drop_first(), sub) == sub);
                    assert(aitems.update(i0, replace_at(aitems[i0], seq![i0].drop_first(), sub)) =~= aitems.update(i0, sub));
                }
                lemma_keeps_ids_container(data, pre2, pp, a2);
                lemma_resolve_replace(data, pre2, pp, a2);
                lemma_replace_at(data, pp, a2, a2);
                let u = aitems.update(i0, sub);
                assert forall|j: int| 0 <= j < i0 implies #[trigger] other_id(u[j], t) by {
                    assert(u[j] == aitems[j]);
                    assert(other_id(aitems[j], t));
                }
                lemma_find_id_broken(u, t, i0);
                lemma_resolve_push(d2, pre2, pre.last());
                lemma_resolve_push(d2, pre, key);
            } else {
                lemma_keeps_ids_container(data, pre, p, sub);
                lemma_resolve_replace(data, pre, p, sub);
                lemma_replace_at(data, p, sub, sub);
                lemma_resolve_push(d2, pre, key);
            }
        },
        _ => {},
    }
}

/// The value that a path leads to in a well-formed document is well formed.
pub proof fn lemma_wf_node_at(v: JsonV, p: Seq<int>)
    requires
        well_formed(v),
        valid_path(v, p),
    ensures
        well_formed(node_at(v, p)),
    decreases p.len(),
{
    if p.len() > 0 {
        lemma_wf_node_at(child(v, p[0]), p.drop_first());
    }
}

/// Replacing the value that a path leads to with a well-formed value keeps a
/// document well formed.
pub proof fn lemma_wf_replace(v: JsonV, p: Seq<int>, sub: JsonV)
    requires
        well_formed(v),
        valid_path(v, p),
        well_formed(sub),
    ensures
        well_formed(replace_at(v, p, sub)),
    decreases p.len(),
{
    if p.len() > 0 {
        let i = p[0];
        lemma_wf_replace(child(v, i), p.drop_first(), sub);
        match v {
            JsonV::Array(items) => {
                let u = items.update(i, replace_at(items[i], p.drop_first(), sub));
                assert forall|j: int| 0 <= j < u.len() implies well_formed(#[trigger] u[j]) by {
                    if j != i {
                        assert(u[j] == items[j]);
                    }
                }
            },
            JsonV::Object(ms) => {
                let u = ms.update(i, (ms[i].0, replace_at(ms[i].1, p.drop_first(), sub)));
                assert forall|a: int, b: int| 0 <= a < b < u.len() implies text_order(
                    #[trigger] u[a].0,
                    #[trigger] u[b].0,
                ) == Order::Less by {
                    assert(u[a].0 == ms[a].0 && u[b].0 == ms[b].0);
                }
                assert forall|j: int| 0 <= j < u.len() implies well_formed(#[trigger] u[j].1) by {
                    if j != i {
                        assert(u[j] == ms[j]);
                    }
                }
            },
            _ => {},
        }
    }
}

/// Setting a member to a well-formed value keeps an object well formed.
pub proof fn lemma_wf_set_member(ms: Seq<(Seq<char>, JsonV)>, key: Seq<char>, x: JsonV)
    requires
        well_formed(JsonV::Object(ms)),
        well_formed(x),
    ensures
        well_formed(JsonV::Object(set_member(ms, key, x))),
{
    lemma_set_member_sorted(ms, key, x);
    let r = set_member(ms, key, x);
    assert forall|j: int| 0 <= j < r.len() implies well_formed(#[trigger] r[j].1) by {
        if r[j] != (key, x) {
            let k = choose|k: int| 0 <= k < ms.len() && r[j] == ms[k];
            assert(well_formed(ms[k].1));
        }
    }
}

/// Merging the members of a well-formed update keeps an object well formed.
pub proof fn lemma_wf_merge(ms: Seq<(Seq<char>, JsonV)>, vms: Seq<(Seq<char>, JsonV)>, n: int)
    requires
        well_formed(JsonV::Object(ms)),
        well_formed(JsonV::Object(vms)),
        n <= vms.len(),
    ensures
        well_formed(JsonV::Object(merge_members(ms, vms, n))),
    decreases n,
{
    if n > 0 {
        lemma_wf_merge(ms, vms, n - 1);
        let k = vms[n - 1].0;
        if k != "id"@ {
            let x = crate::database::first_value(vms, k);
            lemma_member(vms, k);
            if let Some(i) = member(vms, k) {
                assert(well_formed(vms[i].1));
            }
            lemma_wf_set_member(merge_members(ms, vms, n - 1), k, x);
        }
    }
}

/// Removing the members of a name keeps the others, in order.
pub proof fn lemma_remove_member_kept(ms: Seq<(Seq<char>, JsonV)>, key: Seq<char>)
    ensures
        forall|j: int| 0 <= j < remove_member(ms, key).len() ==> exists|k: int|
            0 <= k < ms.len() && #[trigger] remove_member(ms, key)[j] == ms[k],
        sorted_names(ms) ==> sorted_names(remove_member(ms, key)),
    decreases ms.len(),
{
    if ms.len() > 0 {
        let front = ms.drop_last();
        let l = ms.last();
        lemma_remove_member_kept(front, key);
        let r0 = remove_member(front, key);
        let r = remove_member(ms, key);
        assert forall|j: int| 0 <= j < r.len() implies exists|k: int| 0 <= k < ms.len() && #[trigger] r[j] == ms[k] by {
            if j < r0.len() {
                assert(r[j] == r0[j]);
                let k = choose|k: int| 0 <= k < front.len() && r0[j] == front[k];
                assert(ms[k] == front[k]);
            } else {
                assert(r[j] == ms[ms.len() - 1]);
            }
        }
        if sorted_names(ms) {
            assert(sorted_names(front)) by {
                assert forall|a: int, b: int| 0 <= a < b < front.len() implies text_order(
                    #[trigger] front[a].0,
                    #[trigger] front[b].0,
                ) == Order::Less by {
                    assert(front[a] == ms[a] && front[b] == ms[b]);
                }
            }
            assert forall|a: int, b: int| 0 <= a < b < r.len() implies text_order(
                #[trigger] r[a].0,
                #[trigger] r[b].0,
            ) == Order::Less by {
                assert(r[a] == r0[a]);
                let ka = choose|k: int| 0 <= k < front.len() && r0[a] == front[k];
                assert(r0[a] == ms[ka]);
                if b < r0.len() {
                    assert(r[b] == r0[b]);
                } else {
                    assert(r[b] == ms[ms.len() - 1]);
                    assert(text_order(ms[ka].0, ms[ms.len() - 1].0) == Order::Less);
                }
            }
        }
    }
}

/// An insert into a well-formed document of a well-formed value keeps it well
/// formed: every object holds its names in order, each once.
pub proof fn law_insert_keeps_well_formed(data: JsonV, keys: Seq<Seq<char>>, value: JsonV, fallback: i64)
    requires
        well_formed(data),
        well_formed(value),
    ensures
        well_formed(insert_spec(data, keys, value, fallback).0),
{
    lemma_resolve_valid(data, keys);
    if let Resolved::Found(p) = resolve(data, keys) {
        if let JsonV::Array(items) = node_at(data, p) {
            let id = new_id(value, fallback);
            let rec = with_id(value, id);
            lemma_wf_node_at(data, p);
            if let JsonV::Object(ms) = value {
                lemma_wf_set_member(ms, "id"@, JsonV::Number(id));
            }
            let u = items.push(rec);
            assert forall|j: int| 0 <= j < u.len() implies well_formed(#[trigger] u[j]) by {
                if j < items.len() {
                    assert(u[j] == items[j]);
                }
            }
            lemma_wf_replace(data, p, JsonV::Array(u));
        }
    }
}

/// An update of a well-formed document with a well-formed value keeps it well
/// formed.
pub proof fn law_update_keeps_well_formed(data: JsonV, keys: Seq<Seq<char>>, value: JsonV)
    requires
        well_formed(data),
        well_formed(value),
    ensures
        well_formed(update_spec(data, keys, value).0),
{
    lemma_resolve_valid(data, keys);
    if let Resolved::Found(p) = resolve(data, keys) {
        let node = node_at(data, p);
        lemma_wf_node_at(data, p);
        if let Some(n) = update_node(node, value) {
            if let JsonV::Object(ms) = node {
                if let JsonV::Object(vms) = value {
                    lemma_wf_merge(ms, vms, vms.len() as int);
                }
            }
            lemma_wf_replace(data, p, n);
        }
    }
}

/// A delete keeps a well-formed document well formed.
pub proof fn law_delete_keeps_well_formed(data: JsonV, keys: Seq<Seq<char>>)
    requires
        well_formed(data),
        keys.len() > 0,
    ensures
        well_formed(delete_spec(data, keys).0),
{
    let pre = keys.drop_last();
    let key = keys.last();
    lemma_resolve_valid(data, pre);
    if let Resolved::Found(p) = resolve(data, pre) {
        lemma_wf_node_at(data, p);
        match node_at(data, p) {
            JsonV::Object(ms) => {
                if let Some(i) = member(ms, key) {
                    lemma_remove_member_kept(ms, key);
                    let r = remove_member(ms, key);
                    assert forall|j: int| 0 <= j < r.len() implies well_formed(#[trigger] r[j].1) by {
                        let k = choose|k: int| 0 <= k < ms.len() && r[j] == ms[k];
                        assert(well_formed(ms[k].1));
                    }
                    lemma_wf_replace(data, p, JsonV::Object(r));
                }
            },
            JsonV::Array(items) => {
                if let Lookup::At(idx) = find_id(items, decide_id_spec(key)) {
                    lemma_find_id(items, decide_id_spec(key));
                    let u = items.remove(idx);
                    assert forall|j: int| 0 <= j < u.len() implies well_formed(#[trigger] u[j]) by {
                        if j < idx {
                            assert(u[j] == items[j]);
                        } else {
                            assert(u[j] == items[j + 1]);
                        }
                    }
                    lemma_wf_replace(data, p, JsonV::Array(u));
                }
            },
            _ => {},
        }
    }
}

} // verus!
