//! A very simple database that holds a JSON document: tables are the arrays of
//! the top-level object, records are the objects in them, found by their `id`.
mod checks;
pub mod laws;
pub mod errors;
pub mod messages;
pub mod query_api;
mod insert;
mod delete;
mod read;
pub use self::delete::{delete_completes, delete_id_msg, delete_path_msg, delete_spec};
mod update;
pub use self::update::{first_value, merge_members, update_node, update_spec};
pub use self::insert::{all_ids, has_own_id, insert_completes, insert_safe, insert_spec, new_id, with_id};
pub use self::read::{path_not_found, queries_view, read_spec, read_value, result_view};

use vstd::prelude::*;
use crate::configuration;
use crate::json::{
    get_field, items_view, lemma_items_view, lemma_member, lemma_members_view, member,
    member_pos, members_view, Json, JsonV,
};
use crate::text::{i64_from_decimal, parse_i64, views};

verus! {

/// What a search by id finds in a table: the position of the first record with
/// that id, nothing, or a record without an integer id before it (on which the
/// search stops short).
pub enum Lookup {
    At(int),
    Missing,
    Broken,
}

/// The integer `id` of a record: the member `id` of an object, where it is a number.
pub open spec fn id_of(v: JsonV) -> Option<i64> {
    match get_field(v, "id"@) {
        Some(JsonV::Number(n)) => Some(n),
        _ => None,
    }
}

/// Searches the records of a table, first to last, for the id `target`.
pub open spec fn find_id(items: Seq<JsonV>, target: i64) -> Lookup
    decreases items.len(),
{
    if items.len() == 0 {
        Lookup::Missing
    } else {
        match id_of(items[0]) {
            None => Lookup::Broken,
            Some(id) => if id == target {
                Lookup::At(0)
            } else {
                match find_id(items.drop_first(), target) {
                    Lookup::At(i) => Lookup::At(i + 1),
                    other => other,
                }
            },
        }
    }
}

/// The record has an integer id other than `target`.
pub open spec fn other_id(v: JsonV, target: i64) -> bool {
    match id_of(v) {
        Some(id) => id != target,
        None => false,
    }
}

/// The records before position `i` all have integer ids other than `target`.
pub open spec fn passed(items: Seq<JsonV>, target: i64, i: int) -> bool {
    forall|j: int| 0 <= j < i ==> #[trigger] other_id(items[j], target)
}

pub proof fn lemma_find_id(items: Seq<JsonV>, target: i64)
    ensures
        match find_id(items, target) {
            Lookup::At(i) => 0 <= i < items.len() && id_of(items[i]) == Some(target) && passed(
                items,
                target,
                i,
            ),
            Lookup::Broken => exists|i: int|
                0 <= i < items.len() && id_of(items[i]) is None && passed(items, target, i),
            Lookup::Missing => passed(items, target, items.len() as int),
        },
    decreases items.len(),
{
    if items.len() > 0 {
        let rest = items.drop_first();
        lemma_find_id(rest, target);
        assert forall|j: int| 0 < j < items.len() implies items[j] == rest[j - 1] by {}
        if let Some(id) = id_of(items[0]) {
            if id != target {
                match find_id(rest, target) {
                    Lookup::At(i) => {
                        assert(passed(items, target, i + 1)) by {
                            assert forall|j: int| 0 <= j < i + 1 implies #[trigger] other_id(items[j], target) by {
                                if j > 0 {
                                    assert(other_id(rest[j - 1], target));
                                }
                            }
                        }
                    },
                    Lookup::Broken => {
                        let i = choose|i: int|
                            0 <= i < rest.len() && id_of(rest[i]) is None && passed(rest, target, i);
                        assert(passed(items, target, i + 1)) by {
                            assert forall|j: int| 0 <= j < i + 1 implies #[trigger] other_id(items[j], target) by {
                                if j > 0 {
                                    assert(other_id(rest[j - 1], target));
                                }
                            }
                        }
                        assert(id_of(items[i + 1]) is None);
                    },
                    Lookup::Missing => {
                        assert forall|j: int| 0 <= j < items.len() implies #[trigger] other_id(items[j], target) by {
                            if j > 0 {
                                assert(other_id(rest[j - 1], target));
                            }
                        }
                    },
                }
            }
        } else {
            assert(passed(items, target, 0));
        }
    }
}

/// The id that a path segment names: the number it writes, or -1.
pub open spec fn decide_id_spec(part: Seq<char>) -> i64 {
    match i64_from_decimal(part) {
        Some(n) => n,
        None => -1i64,
    }
}

/// The child at position `i` of an array or an object.
pub open spec fn child(v: JsonV, i: int) -> JsonV {
    match v {
        JsonV::Array(items) => items[i],
        JsonV::Object(ms) => ms[i].1,
        _ => JsonV::Null,
    }
}

/// Whether `i` is the position of a child of `v`.
pub open spec fn has_child(v: JsonV, i: int) -> bool {
    match v {
        JsonV::Array(items) => 0 <= i < items.len(),
        JsonV::Object(ms) => 0 <= i < ms.len(),
        _ => false,
    }
}

/// Whether each position of `path` names a child, from `v` down.
pub open spec fn valid_path(v: JsonV, path: Seq<int>) -> bool
    decreases path.len(),
{
    path.len() == 0 || (has_child(v, path[0]) && valid_path(child(v, path[0]), path.drop_first()))
}

/// The value that `path` leads to from `v`.
pub open spec fn node_at(v: JsonV, path: Seq<int>) -> JsonV
    decreases path.len(),
{
    if path.len() == 0 {
        v
    } else {
        node_at(child(v, path[0]), path.drop_first())
    }
}

/// `v` with the value that `path` leads to replaced by `sub`.
pub open spec fn replace_at(v: JsonV, path: Seq<int>, sub: JsonV) -> JsonV
    decreases path.len(),
{
    if path.len() == 0 {
        sub
    } else {
        let p = path[0];
        match v {
            JsonV::Array(items) => JsonV::Array(
                items.update(p, replace_at(items[p], path.drop_first(), sub)),
            ),
            JsonV::Object(ms) => JsonV::Object(
                ms.update(p, (ms[p].0, replace_at(ms[p].1, path.drop_first(), sub))),
            ),
            _ => v,
        }
    }
}

/// Where a path of keys leads in a document: the positions it passes, the key
/// that finds nothing, or a search that stops short on a record without an
/// integer id.
pub enum Resolved {
    Found(Seq<int>),
    Missing(int),
    Broken,
}

/// One step of a path: a member of an object by name, a record of an array by
/// the id that the key names.
pub open spec fn step(v: JsonV, key: Seq<char>) -> Lookup {
    match v {
        JsonV::Object(ms) => match member(ms, key) {
            Some(i) => Lookup::At(i),
            None => Lookup::Missing,
        },
        JsonV::Array(items) => find_id(items, decide_id_spec(key)),
        _ => Lookup::Missing,
    }
}

/// Follows `keys` from `v`.
pub open spec fn resolve(v: JsonV, keys: Seq<Seq<char>>) -> Resolved
    decreases keys.len(),
{
    if keys.len() == 0 {
        Resolved::Found(Seq::empty())
    } else {
        match step(v, keys[0]) {
            Lookup::At(i) => match resolve(child(v, i), keys.drop_first()) {
                Resolved::Found(p) => Resolved::Found(seq![i] + p),
                Resolved::Missing(j) => Resolved::Missing(j + 1),
                Resolved::Broken => Resolved::Broken,
            },
            Lookup::Missing => Resolved::Missing(0),
            Lookup::Broken => Resolved::Broken,
        }
    }
}

/// `r` seen from `k` keys and the positions `path` higher up.
pub open spec fn extend(path: Seq<int>, r: Resolved, k: int) -> Resolved {
    match r {
        Resolved::Found(p) => Resolved::Found(path + p),
        Resolved::Missing(j) => Resolved::Missing(j + k),
        Resolved::Broken => Resolved::Broken,
    }
}

pub proof fn lemma_node_at_push(v: JsonV, path: Seq<int>, i: int)
    ensures
        node_at(v, path.push(i)) == child(node_at(v, path), i),
        valid_path(v, path) && has_child(node_at(v, path), i) ==> valid_path(v, path.push(i)),
    decreases path.len(),
{
    reveal_with_fuel(node_at, 2);
    reveal_with_fuel(valid_path, 2);
    if path.len() > 0 {
        assert(path.push(i)[0] == path[0]);
        assert(path.push(i).drop_first() =~= path.drop_first().push(i));
        lemma_node_at_push(child(v, path[0]), path.drop_first(), i);
    } else {
        assert(path.push(i).drop_first() =~= Seq::<int>::empty());
    }
}

pub proof fn lemma_resolve_valid(v: JsonV, keys: Seq<Seq<char>>)
    ensures
        resolve(v, keys) matches Resolved::Found(p) ==> valid_path(v, p) && p.len() == keys.len(),
        resolve(v, keys) matches Resolved::Missing(j) ==> 0 <= j < keys.len(),
    decreases keys.len(),
{
    if keys.len() > 0 {
        let c = step(v, keys[0]);
        if let Lookup::At(i) = c {
            lemma_resolve_valid(child(v, i), keys.drop_first());
            match v {
                JsonV::Object(ms) => {
                    lemma_member(ms, keys[0]);
                },
                JsonV::Array(items) => {
                    lemma_find_id(items, decide_id_spec(keys[0]));
                },
                _ => {},
            }
            if let Resolved::Found(p) = resolve(child(v, i), keys.drop_first()) {
                assert((seq![i] + p).drop_first() =~= p);
            }
        }
    }
}

/// A copy of each key of a path.
pub open spec fn keys_view(keys: Seq<String>) -> Seq<Seq<char>> {
    views(keys)
}

/// The inputs on which following `keys` completes: the searches by id along the
/// path find an integer id in each record they pass.
pub open spec fn path_completes(data: JsonV, keys: Seq<Seq<char>>) -> bool {
    !(resolve(data, keys) is Broken)
}

/// The positions of a path as integers.
pub open spec fn positions(p: Seq<usize>) -> Seq<int> {
    p.map_values(|x: usize| x as int)
}

/// The names of the members of an object, in order.
pub open spec fn keys_of(ms: Seq<(Seq<char>, JsonV)>) -> Seq<Seq<char>> {
    Seq::new(ms.len(), |i: int| ms[i].0)
}

/// Puts `sub` where `path` leads from `depth` on in `node`; gives back the new
/// node and the value that stood there.
fn swap_at(node: Json, path: &Vec<usize>, depth: usize, sub: Json) -> (r: (Json, Json))
    requires
        depth <= path@.len(),
        valid_path(node@, positions(path@).skip(depth as int)),
    ensures
        r.0@ == replace_at(node@, positions(path@).skip(depth as int), sub@),
        r.1@ == node_at(node@, positions(path@).skip(depth as int)),
    decreases path@.len() - depth,
{
    let ghost ps = positions(path@).skip(depth as int);
    if depth >= path.len() {
        proof {
            assert(ps.len() == 0);
        }
        return (sub, node);
    }
    let p = path[depth];
    proof {
        assert(ps[0] == p as int);
        assert(ps.drop_first() =~= positions(path@).skip(depth + 1));
    }
    match node {
        Json::Array(mut v) => {
            let ghost before = v@;
            proof {
                lemma_items_view(before);
            }
            let c = v.remove(p);
            let (nc, old) = swap_at(c, path, depth + 1, sub);
            v.insert(p, nc);
            proof {
                assert(v@ =~= before.update(p as int, nc));
                lemma_items_view(v@);
                assert(items_view(v@) =~= items_view(before).update(p as int, nc@));
            }
            (Json::Array(v), old)
        },
        Json::Object(mut m) => {
            let ghost before = m@;
            proof {
                lemma_members_view(before);
            }
            let (k, c) = m.remove(p);
            let (nc, old) = swap_at(c, path, depth + 1, sub);
            m.insert(p, (k, nc));
            proof {
                assert(m@ =~= before.update(p as int, (k, nc)));
                lemma_members_view(m@);
                assert(members_view(m@) =~= members_view(before).update(
                    p as int,
                    (members_view(before)[p as int].0, nc@),
                ));
            }
            (Json::Object(m), old)
        },
        other => (other, Json::Null),
    }
}

pub proof fn lemma_replace_at(v: JsonV, path: Seq<int>, s1: JsonV, s2: JsonV)
    requires
        valid_path(v, path),
    ensures
        valid_path(replace_at(v, path, s1), path),
        node_at(replace_at(v, path, s1), path) == s1,
        replace_at(replace_at(v, path, s1), path, s2) == replace_at(v, path, s2),
    decreases path.len(),
{
    if path.len() > 0 {
        let p = path[0];
        lemma_replace_at(child(v, p), path.drop_first(), s1, s2);
        match v {
            JsonV::Array(items) => {
                assert(items.update(p, replace_at(items[p], path.drop_first(), s1)).update(
                    p,
                    replace_at(replace_at(items[p], path.drop_first(), s1), path.drop_first(), s2),
                ) =~= items.update(p, replace_at(items[p], path.drop_first(), s2)));
            },
            JsonV::Object(ms) => {
                assert(ms.update(p, (ms[p].0, replace_at(ms[p].1, path.drop_first(), s1))).update(
                    p,
                    (
                        ms[p].0,
                        replace_at(replace_at(ms[p].1, path.drop_first(), s1), path.drop_first(), s2),
                    ),
                ) =~= ms.update(p, (ms[p].0, replace_at(ms[p].1, path.drop_first(), s2))));
            },
            _ => {},
        }
    }
}

/// The value that `path` leads to in `data`.
fn node_ref<'a>(data: &'a Json, path: &Vec<usize>) -> (r: &'a Json)
    requires
        valid_path(data@, positions(path@)),
    ensures
        r@ == node_at(data@, positions(path@)),
{
    let mut cur: &Json = data;
    let mut i: usize = 0;
    let ghost ps = positions(path@);
    proof {
        assert(ps.skip(0) =~= ps);
    }
    while i < path.len()
        invariant
            i <= path@.len(),
            ps == positions(path@),
            ps.len() == path@.len(),
            valid_path(cur@, ps.skip(i as int)),
            node_at(data@, ps) == node_at(cur@, ps.skip(i as int)),
        decreases path@.len() - i,
    {
        let p = path[i];
        proof {
            assert(ps.skip(i as int)[0] == p as int);
            assert(ps.skip(i as int).drop_first() =~= ps.skip(i + 1));
        }
        let next: &Json = match cur {
            Json::Object(m) => {
                proof {
                    lemma_members_view(m@);
                }
                &m[p].1
            },
            Json::Array(v) => {
                proof {
                    lemma_items_view(v@);
                }
                &v[p]
            },
            _ => cur,
        };
        cur = next;
        i = i + 1;
    }
    proof {
        assert(ps.skip(i as int).len() == 0);
    }
    cur
}

/// What a search by id found, in executable form.
pub enum Probe {
    At(usize),
    Missing,
    Broken,
}

/// The [`Lookup`] that a [`Probe`] stands for.
pub open spec fn probe_view(p: Probe) -> Lookup {
    match p {
        Probe::At(i) => Lookup::At(i as int),
        Probe::Missing => Lookup::Missing,
        Probe::Broken => Lookup::Broken,
    }
}

/// Searches the records first to last for the id `target`, as `find_id` states.
pub fn probe_index(vec: &Vec<Json>, target: &i64) -> (r: Probe)
    ensures
        probe_view(r) == find_id(items_view(vec@), *target),
{
    let ghost items = items_view(vec@);
    let id_key = "id".to_string();
    proof {
        lemma_items_view(vec@);
        lemma_find_id(items, *target);
    }
    let mut index: usize = 0;
    while index < vec.len()
        invariant
            index <= vec@.len(),
            items == items_view(vec@),
            items.len() == vec@.len(),
            forall|j: int| 0 <= j < vec@.len() ==> #[trigger] items[j] == vec@[j]@,
            id_key@ == "id"@,
            passed(items, *target, index as int),
            match find_id(items, *target) {
                Lookup::At(i) => 0 <= i < items.len() && id_of(items[i]) == Some(*target) && passed(
                    items,
                    *target,
                    i,
                ),
                Lookup::Broken => exists|i: int|
                    0 <= i < items.len() && id_of(items[i]) is None && passed(items, *target, i),
                Lookup::Missing => passed(items, *target, items.len() as int),
            },
        decreases vec@.len() - index,
    {
        let value = &vec[index];
        let id_val = value.get(&id_key);
        let id = match id_val {
            Some(x) => x.as_i64(),
            None => None,
        };
        match id {
            Some(id) => {
                if id == *target {
                    proof {
                        match find_id(items, *target) {
                            Lookup::At(i) => {
                                if i < index {
                                    assert(other_id(items[i], *target));
                                } else if i > index {
                                    assert(other_id(items[index as int], *target));
                                }
                            },
                            Lookup::Missing => {
                                assert(other_id(items[index as int], *target));
                            },
                            Lookup::Broken => {
                                let i = choose|i: int|
                                    0 <= i < items.len() && id_of(items[i]) is None && passed(
                                        items,
                                        *target,
                                        i,
                                    );
                                if i < index {
                                    assert(other_id(items[i], *target));
                                } else if i > index {
                                    assert(other_id(items[index as int], *target));
                                }
                            },
                        }
                    }
                    return Probe::At(index);
                }
            },
            None => {
                proof {
                    assert(id_of(items[index as int]) is None);
                    match find_id(items, *target) {
                        Lookup::At(i) => {
                            if i < index {
                                assert(other_id(items[i], *target));
                            } else if i > index {
                                assert(other_id(items[index as int], *target));
                            }
                        },
                        Lookup::Missing => {
                            assert(other_id(items[index as int], *target));
                        },
                        Lookup::Broken => {},
                    }
                }
                return Probe::Broken;
            },
        }
        index = index + 1;
    }
    proof {
        match find_id(items, *target) {
            Lookup::At(i) => {
                assert(other_id(items[i], *target));
            },
            Lookup::Broken => {
                let i = choose|i: int|
                    0 <= i < items.len() && id_of(items[i]) is None && passed(items, *target, i);
                assert(other_id(items[i], *target));
            },
            Lookup::Missing => {},
        }
    }
    Probe::Missing
}

/// Where a path of keys leads, in executable form.
pub enum Follow {
    Found(Vec<usize>),
    Missing(usize),
    Broken,
}

/// The [`Resolved`] that a [`Follow`] stands for.
pub open spec fn follow_view(f: Follow) -> Resolved {
    match f {
        Follow::Found(p) => Resolved::Found(positions(p@)),
        Follow::Missing(j) => Resolved::Missing(j as int),
        Follow::Broken => Resolved::Broken,
    }
}

/// This is a very  simple database struct for a json db.
/// It works really simple. Loads all data to memory.
/// Does all the operations in the memory and writes the final object to the file at the end.
#[derive(Debug)]
pub struct Database {
    configuration: configuration::Database,
    data: Json,
}

/// The state of a [`Database`]: where its file is, its default key and the
/// document it holds.
pub struct DatabaseView {
    pub path: Seq<char>,
    pub default_pk: Seq<char>,
    pub data: JsonV,
}

impl View for Database {
    type V = DatabaseView;

    closed spec fn view(&self) -> DatabaseView {
        DatabaseView {
            path: self.configuration.path@,
            default_pk: self.configuration.default_pk@,
            data: self.data@,
        }
    }
}

impl Database {
    /// Creates an instance of the Database.
    pub fn new(configuration: &configuration::Database) -> (r: Database)
        ensures
            r@ == (DatabaseView {
                path: configuration.path@,
                default_pk: configuration.default_pk@,
                data: JsonV::Null,
            }),
    {
        Database { configuration: configuration.copy(), data: Json::Null }
    }

    /// Takes a new configuration and forgets the document.
    pub fn set_configuration(&mut self, configuration: &configuration::Database)
        ensures
            final(self)@ == (DatabaseView {
                path: configuration.path@,
                default_pk: configuration.default_pk@,
                data: JsonV::Null,
            }),
    {
        self.configuration = configuration.copy();
        self.data = Json::Null;
    }

    /// Holds `data` as the document, as opening the database file does once its
    /// contents are parsed.
    pub fn load(&mut self, data: Json)
        ensures
            final(self)@ == (DatabaseView { data: data@, ..old(self)@ }),
    {
        self.data = data;
    }

    /// The document the database holds.
    pub fn data(&self) -> (r: &Json)
        ensures
            r@ == self@.data,
    {
        &self.data
    }

    /// The configuration of the database.
    pub fn configuration(&self) -> (r: &configuration::Database)
        ensures
            r.path@ == self@.path,
            r.default_pk@ == self@.default_pk,
    {
        &self.configuration
    }

    /// Returns the list of the tables (outmost keys) from the database.
    pub fn tables(&self) -> (r: Vec<String>)
        requires
            self@.data is Object,
        ensures
            views(r@) == keys_of(self@.data->Object_0),
    {
        match &self.data {
            Json::Object(m) => {
                proof {
                    lemma_members_view(m@);
                }
                let mut keys: Vec<String> = Vec::new();
                let mut i: usize = 0;
                while i < m.len()
                    invariant
                        i <= m@.len(),
                        views(keys@) == keys_of(members_view(m@)).take(i as int),
                        members_view(m@).len() == m@.len(),
                        forall|j: int|
                            0 <= j < m@.len() ==> #[trigger] members_view(m@)[j] == (m@[j].0@, m@[j].1@),
                    decreases m@.len() - i,
                {
                    let k = m[i].0.clone();
                    proof {
                        assert(views(keys@.push(k)) =~= views(keys@).push(k@));
                        assert(keys_of(members_view(m@)).take(i + 1) =~= keys_of(members_view(m@)).take(i as int).push(m@[i as int].0@));
                    }
                    keys.push(k);
                    i = i + 1;
                }
                proof {
                    assert(keys_of(members_view(m@)).take(m@.len() as int) =~= keys_of(members_view(m@)));
                }
                keys
            },
            _ => Vec::new(),
        }
    }

    /// Find the index of the element with the given target id.
    fn find_index(vec: &Vec<Json>, target: &i64) -> (r: Option<usize>)
        requires
            !(find_id(items_view(vec@), *target) is Broken),
        ensures
            match r {
                Some(i) => find_id(items_view(vec@), *target) == Lookup::At(i as int),
                None => find_id(items_view(vec@), *target) == Lookup::Missing,
            },
    {
        match probe_index(vec, target) {
            Probe::At(i) => Some(i),
            _ => None,
        }
    }

    /// Follows `keys` from `data`, as `resolve` states.
    pub fn follow(keys: &Vec<String>, data: &Json) -> (r: Follow)
        ensures
            follow_view(r) == resolve(data@, views(keys@)),
    {
        let ghost ks = views(keys@);
        let mut cur: &Json = data;
        let mut path: Vec<usize> = Vec::new();
        let mut idx: usize = 0;
        proof {
            assert(ks.skip(0) =~= ks);
            assert(positions(path@) =~= Seq::<int>::empty());
            assert(extend(Seq::<int>::empty(), resolve(data@, ks), 0) == resolve(data@, ks)) by {
                match resolve(data@, ks) {
                    Resolved::Found(p) => {
                        assert(Seq::<int>::empty() + p =~= p);
                    },
                    _ => {},
                }
            }
        }
        while idx < keys.len()
            invariant
                idx <= keys@.len(),
                ks == views(keys@),
                ks.len() == keys@.len(),
                cur@ == node_at(data@, positions(path@)),
                valid_path(data@, positions(path@)),
                resolve(data@, ks) == extend(positions(path@), resolve(cur@, ks.skip(idx as int)), idx as int),
            decreases keys@.len() - idx,
        {
            let key = &keys[idx];
            let ghost rest = ks.skip(idx as int);
            proof {
                assert(rest[0] == key@);
                assert(rest.drop_first() =~= ks.skip(idx + 1));
            }
            let mut broken = false;
            let found: Option<usize> = match cur {
                Json::Object(m) => {
                    proof {
                        lemma_members_view(m@);
                        lemma_member(members_view(m@), key@);
                    }
                    member_pos(m, key)
                },
                Json::Array(v) => {
                    let id = Self::decide_id(key);
                    proof {
                        lemma_items_view(v@);
                        lemma_find_id(items_view(v@), id);
                    }
                    match probe_index(v, &id) {
                        Probe::At(i) => Some(i),
                        Probe::Missing => None,
                        Probe::Broken => {
                            broken = true;
                            None
                        },
                    }
                },
                _ => None,
            };
            match found {
                Some(i) => {
                    let next: &Json = match cur {
                        Json::Object(m) => &m[i].1,
                        Json::Array(v) => &v[i],
                        _ => cur,
                    };
                    proof {
                        lemma_node_at_push(data@, positions(path@), i as int);
                        assert(next@ == child(cur@, i as int));
                        assert(has_child(cur@, i as int));
                        assert(positions(path@.push(i)) =~= positions(path@).push(i as int));
                        match resolve(child(cur@, i as int), ks.skip(idx + 1)) {
                            Resolved::Found(q) => {
                                assert(positions(path@) + (seq![i as int] + q) =~= positions(path@).push(i as int) + q);
                            },
                            _ => {},
                        }
                    }
                    path.push(i);
                    cur = next;
                },
                None => {
                    if broken {
                        return Follow::Broken;
                    }
                    return Follow::Missing(idx);
                },
            }
            idx = idx + 1;
        }
        proof {
            assert(ks.skip(idx as int) =~= Seq::<Seq<char>>::empty());
            assert(positions(path@) + Seq::<int>::empty() =~= positions(path@));
        }
        Follow::Found(path)
    }

    /// Follows `keys` from `data`: the positions of the value they lead to, or
    /// the position of the key that finds nothing.
    fn get_object(keys: &Vec<String>, data: &Json) -> (r: Result<Vec<usize>, usize>)
        requires
            path_completes(data@, views(keys@)),
        ensures
            match r {
                Ok(p) => resolve(data@, views(keys@)) == Resolved::Found(positions(p@)),
                Err(j) => resolve(data@, views(keys@)) == Resolved::Missing(j as int),
            },
    {
        match Self::follow(keys, data) {
            Follow::Found(p) => Ok(p),
            Follow::Missing(j) => Err(j),
            Follow::Broken => Err(0),
        }
    }

    /// The id that a path segment names: the number it writes, or -1.
    fn decide_id(part: &String) -> (r: i64)
        ensures
            r == decide_id_spec(part@),
    {
        match parse_i64(part.as_str()) {
            Some(parsed) => parsed,
            None => -1,
        }
    }
}

} // verus!
