//! The JSON values that the database holds and that the query operations read.
use vstd::prelude::*;
use crate::text::{compare_texts, lemma_text_order_flip, lemma_text_order_trans, text_order, Order};

verus! {

/// A JSON value as the database and the query operations hold it. Numbers are
/// the integers that fit an `i64`. An object is a list of members; a
/// well-formed one (see [`well_formed`]) holds each name once, in the order of
/// the names, as a map does.
#[derive(Debug, PartialEq)]
pub enum Json {
    Null,
    Bool(bool),
    Number(i64),
    Str(String),
    Array(Vec<Json>),
    Object(Vec<(String, Json)>),
}

/// The mathematical value of a [`Json`].
pub enum JsonV {
    Null,
    Bool(bool),
    Number(i64),
    Str(Seq<char>),
    Array(Seq<JsonV>),
    Object(Seq<(Seq<char>, JsonV)>),
}

impl View for Json {
    type V = JsonV;

    open spec fn view(&self) -> JsonV {
        json_view(*self)
    }
}

/// The value of a [`Json`], member by member.
pub open spec fn json_view(j: Json) -> JsonV
    decreases j, 1int,
{
    match j {
        Json::Null => JsonV::Null,
        Json::Bool(b) => JsonV::Bool(b),
        Json::Number(n) => JsonV::Number(n),
        Json::Str(s) => JsonV::Str(s@),
        Json::Array(v) => JsonV::Array(items_view(v@)),
        Json::Object(m) => JsonV::Object(members_view(m@)),
    }
}

/// The values of a sequence of [`Json`].
pub open spec fn items_view(v: Seq<Json>) -> Seq<JsonV>
    decreases v, 0int,
{
    if v.len() == 0 {
        Seq::empty()
    } else {
        items_view(v.drop_last()).push(json_view(v.last()))
    }
}

/// The members of an object as texts and values.
pub open spec fn members_view(m: Seq<(String, Json)>) -> Seq<(Seq<char>, JsonV)>
    decreases m, 0int,
{
    if m.len() == 0 {
        Seq::empty()
    } else {
        members_view(m.drop_last()).push((m.last().0@, json_view(m.last().1)))
    }
}

pub proof fn lemma_items_view(v: Seq<Json>)
    ensures
        items_view(v).len() == v.len(),
        forall|i: int| 0 <= i < v.len() ==> #[trigger] items_view(v)[i] == v[i]@,
    decreases v.len(),
{
    if v.len() > 0 {
        lemma_items_view(v.drop_last());
    }
}

pub proof fn lemma_members_view(m: Seq<(String, Json)>)
    ensures
        members_view(m).len() == m.len(),
        forall|i: int|
            0 <= i < m.len() ==> #[trigger] members_view(m)[i] == (m[i].0@, m[i].1@),
    decreases m.len(),
{
    if m.len() > 0 {
        lemma_members_view(m.drop_last());
    }
}

/// The position of the first member of `ms` named `key`.
pub open spec fn member(ms: Seq<(Seq<char>, JsonV)>, key: Seq<char>) -> Option<int>
    decreases ms.len(),
{
    if ms.len() == 0 {
        None
    } else if ms[0].0 == key {
        Some(0)
    } else {
        match member(ms.drop_first(), key) {
            Some(i) => Some(i + 1),
            None => None,
        }
    }
}

pub proof fn lemma_member(ms: Seq<(Seq<char>, JsonV)>, key: Seq<char>)
    ensures
        match member(ms, key) {
            Some(i) => 0 <= i < ms.len() && ms[i].0 == key && forall|j: int|
                0 <= j < i ==> (#[trigger] ms[j]).0 != key,
            None => forall|j: int| 0 <= j < ms.len() ==> (#[trigger] ms[j]).0 != key,
        },
    decreases ms.len(),
{
    if ms.len() > 0 {
        lemma_member(ms.drop_first(), key);
        assert forall|j: int| 0 < j < ms.len() implies ms[j] == ms.drop_first()[j - 1] by {}
    }
}

pub proof fn lemma_member_is(ms: Seq<(Seq<char>, JsonV)>, key: Seq<char>, i: int)
    requires
        0 <= i < ms.len(),
        ms[i].0 == key,
        forall|j: int| 0 <= j < i ==> (#[trigger] ms[j]).0 != key,
    ensures
        member(ms, key) == Some(i),
{
    lemma_member(ms, key);
    match member(ms, key) {
        Some(k) => {
            if k < i {
                assert(ms[k].0 != key);
            } else if k > i {
                assert(ms[i].0 != key);
            }
        },
        None => {
            assert(ms[i].0 != key);
        },
    }
}

pub proof fn lemma_member_none(ms: Seq<(Seq<char>, JsonV)>, key: Seq<char>)
    requires
        forall|j: int| 0 <= j < ms.len() ==> (#[trigger] ms[j]).0 != key,
    ensures
        member(ms, key) is None,
{
    lemma_member(ms, key);
    if let Some(k) = member(ms, key) {
        assert(ms[k].0 != key);
    }
}

/// The value of the member `key` of an object; nothing for other values.
pub open spec fn get_field(v: JsonV, key: Seq<char>) -> Option<JsonV> {
    match v {
        JsonV::Object(ms) => match member(ms, key) {
            Some(i) => Some(ms[i].1),
            None => None,
        },
        _ => None,
    }
}

/// Where a new member named `key` goes among `ms`: after the members before it
/// whose names come before `key`.
pub open spec fn insert_pos(ms: Seq<(Seq<char>, JsonV)>, key: Seq<char>) -> int
    decreases ms.len(),
{
    if ms.len() == 0 {
        0
    } else if text_order(ms[0].0, key) == Order::Less {
        1 + insert_pos(ms.drop_first(), key)
    } else {
        0
    }
}

pub proof fn lemma_insert_pos(ms: Seq<(Seq<char>, JsonV)>, key: Seq<char>)
    ensures
        0 <= insert_pos(ms, key) <= ms.len(),
        forall|j: int| 0 <= j < insert_pos(ms, key) ==> text_order(#[trigger] ms[j].0, key) == Order::Less,
        insert_pos(ms, key) < ms.len() ==> text_order(ms[insert_pos(ms, key)].0, key) != Order::Less,
    decreases ms.len(),
{
    if ms.len() > 0 && text_order(ms[0].0, key) == Order::Less {
        let rest = ms.drop_first();
        lemma_insert_pos(rest, key);
        assert forall|j: int| 0 < j < ms.len() implies ms[j] == rest[j - 1] by {}
    }
}

/// The place after the leading members whose names come before `key` is the
/// place where a new member named `key` goes.
pub proof fn lemma_insert_pos_is(ms: Seq<(Seq<char>, JsonV)>, key: Seq<char>, i: int)
    requires
        0 <= i <= ms.len(),
        forall|j: int| 0 <= j < i ==> text_order(#[trigger] ms[j].0, key) == Order::Less,
        i < ms.len() ==> text_order(ms[i].0, key) != Order::Less,
    ensures
        insert_pos(ms, key) == i,
    decreases i,
{
    if i > 0 {
        let rest = ms.drop_first();
        assert forall|j: int| 0 <= j < i - 1 implies text_order(#[trigger] rest[j].0, key) == Order::Less by {
            assert(rest[j] == ms[j + 1]);
        }
        if i < ms.len() {
            assert(rest[i - 1] == ms[i]);
        }
        assert(text_order(ms[0].0, key) == Order::Less);
        lemma_insert_pos_is(rest, key, i - 1);
    }
}

/// `ms` with the member `key` set to `value`: the first member of that name
/// takes the value, or a new member goes where its name belongs in order.
pub open spec fn set_member(ms: Seq<(Seq<char>, JsonV)>, key: Seq<char>, value: JsonV) -> Seq<
    (Seq<char>, JsonV),
> {
    match member(ms, key) {
        Some(i) => ms.update(i, (key, value)),
        None => ms.insert(insert_pos(ms, key), (key, value)),
    }
}

/// The names of the members come in order, each once.
pub open spec fn sorted_names(ms: Seq<(Seq<char>, JsonV)>) -> bool {
    forall|i: int, j: int|
        0 <= i < j < ms.len() ==> text_order(#[trigger] ms[i].0, #[trigger] ms[j].0) == Order::Less
}

/// Every object in `v` holds its names in order, each once, as a map from
/// names to values does.
pub open spec fn well_formed(v: JsonV) -> bool
    decreases v,
{
    match v {
        JsonV::Array(items) => forall|i: int| 0 <= i < items.len() ==> well_formed(#[trigger] items[i]),
        JsonV::Object(ms) => sorted_names(ms) && forall|i: int|
            0 <= i < ms.len() ==> well_formed(#[trigger] ms[i].1),
        _ => true,
    }
}

/// Setting a member keeps the names of a list in order.
pub proof fn lemma_set_member_sorted(ms: Seq<(Seq<char>, JsonV)>, key: Seq<char>, value: JsonV)
    requires
        sorted_names(ms),
    ensures
        sorted_names(set_member(ms, key, value)),
        set_member(ms, key, value).len() >= ms.len(),
        forall|j: int| 0 <= j < set_member(ms, key, value).len() ==> (#[trigger] set_member(ms, key, value)[j]
            == (key, value) || exists|k: int| 0 <= k < ms.len() && set_member(ms, key, value)[j] == ms[k]),
{
    lemma_member(ms, key);
    let r = set_member(ms, key, value);
    match member(ms, key) {
        Some(i) => {
            assert forall|a: int, b: int| 0 <= a < b < r.len() implies text_order(#[trigger] r[a].0, #[trigger] r[b].0) == Order::Less by {
                assert(r[a].0 == ms[a].0);
                assert(r[b].0 == ms[b].0);
            }
            assert forall|j: int| 0 <= j < r.len() implies (#[trigger] r[j] == (key, value) || exists|k: int| 0 <= k < ms.len() && r[j] == ms[k]) by {
                if j != i {
                    assert(r[j] == ms[j]);
                }
            }
        },
        None => {
            let p = insert_pos(ms, key);
            lemma_insert_pos(ms, key);
            if p < ms.len() {
                lemma_text_order_flip(ms[p].0, key);
                lemma_text_order_flip(key, ms[p].0);
            }
            assert forall|a: int, b: int| 0 <= a < b < r.len() implies text_order(#[trigger] r[a].0, #[trigger] r[b].0) == Order::Less by {
                if b < p {
                    assert(r[a] == ms[a] && r[b] == ms[b]);
                } else if b == p {
                    assert(r[a] == ms[a]);
                } else if a < p {
                    assert(r[a] == ms[a] && r[b] == ms[b - 1]);
                    assert(text_order(ms[a].0, key) == Order::Less);
                    assert(text_order(key, ms[p].0) == Order::Less);
                    if b - 1 > p {
                        lemma_text_order_trans(key, ms[p].0, ms[b - 1].0);
                    }
                    lemma_text_order_trans(ms[a].0, key, ms[b - 1].0);
                } else if a == p {
                    assert(r[b] == ms[b - 1]);
                    if b - 1 > p {
                        lemma_text_order_trans(key, ms[p].0, ms[b - 1].0);
                    }
                } else {
                    assert(r[a] == ms[a - 1] && r[b] == ms[b - 1]);
                }
            }
            assert forall|j: int| 0 <= j < r.len() implies (#[trigger] r[j] == (key, value) || exists|k: int| 0 <= k < ms.len() && r[j] == ms[k]) by {
                if j < p {
                    assert(r[j] == ms[j]);
                } else if j > p {
                    assert(r[j] == ms[j - 1]);
                }
            }
        },
    }
}

/// `ms` without its members named `key`.
pub open spec fn remove_member(ms: Seq<(Seq<char>, JsonV)>, key: Seq<char>) -> Seq<(Seq<char>, JsonV)>
    decreases ms.len(),
{
    if ms.len() == 0 {
        ms
    } else {
        let r = remove_member(ms.drop_last(), key);
        if ms.last().0 == key {
            r
        } else {
            r.push(ms.last())
        }
    }
}

impl Json {
    /// A copy of this value.
    pub fn deep_clone(&self) -> (r: Json)
        ensures
            r@ == self@,
        decreases self,
    {
        match self {
            Json::Null => Json::Null,
            Json::Bool(b) => Json::Bool(*b),
            Json::Number(n) => Json::Number(*n),
            Json::Str(s) => Json::Str(s.clone()),
            Json::Array(v) => {
                let mut r: Vec<Json> = Vec::new();
                let mut i: usize = 0;
                while i < v.len()
                    invariant
                        *self == Json::Array(*v),
                        i <= v@.len(),
                        r@.len() == i,
                        forall|j: int| 0 <= j < i ==> (#[trigger] r@[j])@ == v@[j]@,
                    decreases v@.len() - i,
                {
                    proof {
                                                assert(decreases_to!(*self => (*self)->Array_0));
                        assert(decreases_to!(*v => v@));
                        assert(decreases_to!(v@ => v@[i as int]));
                    }
                    let x = v[i].deep_clone();
                    r.push(x);
                    i = i + 1;
                }
                proof {
                    lemma_items_view(r@);
                    lemma_items_view(v@);
                    assert(items_view(r@) =~= items_view(v@));
                }
                Json::Array(r)
            },
            Json::Object(m) => {
                let mut r: Vec<(String, Json)> = Vec::new();
                let mut i: usize = 0;
                while i < m.len()
                    invariant
                        *self == Json::Object(*m),
                        i <= m@.len(),
                        r@.len() == i,
                        forall|j: int|
                            0 <= j < i ==> (#[trigger] r@[j]).0@ == m@[j].0@ && r@[j].1@ == m@[j].1@,
                    decreases m@.len() - i,
                {
                    proof {
                                                assert(decreases_to!(*self => (*self)->Object_0));
                        assert(decreases_to!(*m => m@));
                        assert(decreases_to!(m@ => m@[i as int]));
                        assert(decreases_to!(m@[i as int] => m@[i as int].1));
                    }
                    let k = m[i].0.clone();
                    let x = m[i].1.deep_clone();
                    r.push((k, x));
                    i = i + 1;
                }
                proof {
                    lemma_members_view(r@);
                    lemma_members_view(m@);
                    assert(members_view(r@) =~= members_view(m@));
                }
                Json::Object(r)
            },
        }
    }
}

/// The position of the first member of `m` named `key`.
pub fn member_pos(m: &Vec<(String, Json)>, key: &String) -> (r: Option<usize>)
    ensures
        match r {
            Some(i) => member(members_view(m@), key@) == Some(i as int),
            None => member(members_view(m@), key@) is None,
        },
{
    proof {
        lemma_members_view(m@);
    }
    let ghost ms = members_view(m@);
    let mut i: usize = 0;
    while i < m.len()
        invariant
            i <= m@.len(),
            ms == members_view(m@),
            ms.len() == m@.len(),
            forall|j: int| 0 <= j < m@.len() ==> #[trigger] ms[j] == (m@[j].0@, m@[j].1@),
            forall|j: int| 0 <= j < i ==> (#[trigger] ms[j]).0 != key@,
        decreases m@.len() - i,
    {
        if m[i].0 == *key {
            proof {
                lemma_member_is(ms, key@, i as int);
            }
            return Some(i);
        }
        i = i + 1;
    }
    proof {
        lemma_member_none(ms, key@);
    }
    None
}

/// Sets the member `key` of `m` to `value`, as `set_member` states.
pub fn put_member(m: &mut Vec<(String, Json)>, key: String, value: Json)
    ensures
        members_view(final(m)@) == set_member(members_view(old(m)@), key@, value@),
{
    proof {
        lemma_members_view(m@);
    }
    match member_pos(m, &key) {
        Some(i) => {
            let ghost before = m@;
            proof {
                lemma_member(members_view(m@), key@);
                lemma_members_view(before);
            }
            m.set(i, (key, value));
            proof {
                lemma_members_view(m@);
                assert(members_view(m@) =~= members_view(before).update(i as int, (key@, value@)));
            }
        },
        None => {
            let ghost before = m@;
            let ghost ms = members_view(before);
            let mut at: usize = 0;
            while at < m.len() && compare_texts(&m[at].0, &key) == Order::Less
                invariant
                    at <= m@.len(),
                    m@ == before,
                    ms == members_view(before),
                    ms.len() == before.len(),
                    forall|j: int| 0 <= j < before.len() ==> #[trigger] ms[j] == (before[j].0@, before[j].1@),
                    forall|j: int| 0 <= j < at ==> text_order(#[trigger] ms[j].0, key@) == Order::Less,
                decreases m@.len() - at,
            {
                at = at + 1;
            }
            proof {
                lemma_insert_pos_is(ms, key@, at as int);
            }
            m.insert(at, (key, value));
            proof {
                lemma_members_view(m@);
                assert(members_view(m@) =~= ms.insert(at as int, (key@, value@)));
            }
        },
    }
}

/// Removes the members of `m` named `key`; gives back the value of the first.
pub fn take_member(m: Vec<(String, Json)>, key: &String) -> (r: (Vec<(String, Json)>, Option<Json>))
    ensures
        members_view(r.0@) == remove_member(members_view(m@), key@),
        match member(members_view(m@), key@) {
            Some(i) => r.1 matches Some(x) && x@ == members_view(m@)[i].1,
            None => r.1 is None,
        },
{
    proof {
        lemma_members_view(m@);
        lemma_member(members_view(m@), key@);
    }
    let ghost all = m@;
    let ghost ms = members_view(all);
    let mut kept: Vec<(String, Json)> = Vec::new();
    let mut found: Option<Json> = None;
    let mut rest = m;
    let n = rest.len();
    let mut c: usize = 0;
    while c < n
        invariant
            n == all.len(),
            c <= n,
            rest@ == all.skip(c as int),
            ms == members_view(all),
            ms.len() == all.len(),
            forall|j: int| 0 <= j < all.len() ==> #[trigger] ms[j] == (all[j].0@, all[j].1@),
            members_view(kept@) == remove_member(ms.take(c as int), key@),
            match member(ms.take(c as int), key@) {
                Some(i) => found matches Some(x) && x@ == ms[i].1,
                None => found is None,
            },
        decreases n - c,
    {
        let ghost pre = ms.take(c as int);
        proof {
            assert(ms.take(c + 1).drop_last() =~= pre);
            assert(ms.take(c + 1).last() == ms[c as int]);
            assert(rest@[0] == all[c as int]);
            lemma_member(pre, key@);
            lemma_member(ms.take(c + 1), key@);
        }
        let (k, v) = rest.remove(0);
        proof {
            assert(rest@ =~= all.skip(c + 1));
        }
        if k == *key {
            if found.is_none() {
                proof {
                    lemma_member_is(ms.take(c + 1), key@, c as int);
                }
                found = Some(v);
            } else {
                proof {
                    let i = member(pre, key@)->0;
                    lemma_member_is(ms.take(c + 1), key@, i);
                }
            }
        } else {
            proof {
                match member(pre, key@) {
                    Some(i) => {
                        lemma_member_is(ms.take(c + 1), key@, i);
                    },
                    None => {
                        lemma_member_none(ms.take(c + 1), key@);
                    },
                }
            }
            let ghost before = kept@;
            kept.push((k, v));
            proof {
                assert(kept@.drop_last() =~= before);
            }
        }
        c = c + 1;
    }
    proof {
        assert(ms.take(n as int) =~= ms);
    }
    (kept, found)
}

impl Json {
    /// The member `key` of an object; nothing for other values.
    pub fn get(&self, key: &String) -> (r: Option<&Json>)
        ensures
            match r {
                Some(x) => get_field(self@, key@) == Some(x@),
                None => get_field(self@, key@) is None,
            },
    {
        match self {
            Json::Object(m) => {
                proof {
                    lemma_members_view(m@);
                }
                match member_pos(m, key) {
                    Some(i) => {
                        proof {
                            lemma_member(members_view(m@), key@);
                        }
                        Some(&m[i].1)
                    },
                    None => None,
                }
            },
            _ => None,
        }
    }

    /// The number of a numeric value.
    pub fn as_i64(&self) -> (r: Option<i64>)
        ensures
            r == (match self@ {
                JsonV::Number(n) => Some(n),
                _ => None,
            }),
    {
        match self {
            Json::Number(n) => Some(*n),
            _ => None,
        }
    }
}

} // verus!
