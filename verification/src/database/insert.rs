use vstd::prelude::*;
use crate::database::errors::{ErrorView, Errors};
use crate::database::messages::{record_debug, json_debug_text, keys_debug, nat_digits, nat_text, strings_debug};
use crate::database::{
    find_id, id_of, lemma_find_id, passed, lemma_replace_at, lemma_resolve_valid, node_at, node_ref, replace_at, resolve,
    result_view, swap_at, Database, Lookup, Resolved,
};
use crate::json::{get_field, items_view, lemma_items_view, put_member, set_member, Json, JsonV};
use crate::text::views;

verus! {

/// `rand::random::<i64>()`: an id drawn at random. Nothing is promised of it.
#[verifier::external_body]
fn random_id() -> i64 {
    rand::random::<i64>()
}

/// The id of a new record: its own integer `id` where it has one, else `fallback`.
pub open spec fn new_id(value: JsonV, fallback: i64) -> i64 {
    match get_field(value, "id"@) {
        Some(JsonV::Number(n)) => n,
        _ => fallback,
    }
}

/// Whether the record names its own integer `id`.
pub open spec fn has_own_id(value: JsonV) -> bool {
    get_field(value, "id"@) matches Some(JsonV::Number(_))
}

/// The record with its member `id` set to `id`; a value that is not an object
/// stays as it is.
pub open spec fn with_id(value: JsonV, id: i64) -> JsonV {
    match value {
        JsonV::Object(ms) => JsonV::Object(set_member(ms, "id"@, JsonV::Number(id))),
        _ => value,
    }
}

pub open spec fn insert_missing_msg(keys: Seq<Seq<char>>) -> Seq<char> {
    "Insert - Error  "@ + strings_debug(keys) + ". No record with the given path:"@
}

pub open spec fn insert_exists_msg(keys: Seq<Seq<char>>) -> Seq<char> {
    "Insert - Error already has an object with the given key: "@ + strings_debug(keys)
}

pub open spec fn insert_conflict_msg(record: JsonV, idx: nat) -> Seq<char> {
    "Insert - Error  "@ + record_debug(record) + ". \"id\" duplicates record at index: "@ + nat_text(
        idx,
    )
}

/// What inserting `value` at `keys` does to `data`, and what it gives, where
/// `fallback` is the id that a record without its own integer id gets: the
/// path must lead to an array, and the record goes at its end unless a record
/// with its id is there already.
pub open spec fn insert_spec(data: JsonV, keys: Seq<Seq<char>>, value: JsonV, fallback: i64) -> (
    JsonV,
    Result<JsonV, ErrorView>,
) {
    match resolve(data, keys) {
        Resolved::Found(p) => match node_at(data, p) {
            JsonV::Array(items) => {
                let id = new_id(value, fallback);
                let rec = with_id(value, id);
                match find_id(items, id) {
                    Lookup::At(idx) => (
                        data,
                        Err(ErrorView::Conflict(insert_conflict_msg(rec, idx as nat))),
                    ),
                    _ => (replace_at(data, p, JsonV::Array(items.push(rec))), Ok(rec)),
                }
            },
            _ => (data, Err(ErrorView::Conflict(insert_exists_msg(keys)))),
        },
        _ => (data, Err(ErrorView::NotFound(insert_missing_msg(keys)))),
    }
}

/// The inputs on which an insert with the id `fallback` completes: the searches
/// by id along the path and in the table pass only records with integer ids.
pub open spec fn insert_completes(data: JsonV, keys: Seq<Seq<char>>, value: JsonV, fallback: i64) -> bool {
    &&& !(resolve(data, keys) is Broken)
    &&& resolve(data, keys) matches Resolved::Found(p) ==> (node_at(data, p) matches JsonV::Array(
        items,
    ) ==> !(find_id(items, new_id(value, fallback)) is Broken))
}

/// Whether every record of the table has an integer id.
pub open spec fn all_ids(items: Seq<JsonV>) -> bool {
    forall|j: int| 0 <= j < items.len() ==> (#[trigger] id_of(items[j])) is Some
}

/// The inputs on which an insert completes whatever id it draws: the searches
/// by id along the path pass only records with integer ids, and so does the
/// search in the table; where the record brings no integer id of its own, the
/// id drawn may be any, so every record of the table must have one.
pub open spec fn insert_safe(data: JsonV, keys: Seq<Seq<char>>, value: JsonV) -> bool {
    &&& !(resolve(data, keys) is Broken)
    &&& resolve(data, keys) matches Resolved::Found(p) ==> (node_at(data, p) matches JsonV::Array(
        items,
    ) ==> if has_own_id(value) {
        !(find_id(items, new_id(value, 0)) is Broken)
    } else {
        all_ids(items)
    })
}

pub proof fn lemma_insert_safe(data: JsonV, keys: Seq<Seq<char>>, value: JsonV, f: i64)
    requires
        insert_safe(data, keys, value),
    ensures
        insert_completes(data, keys, value, f),
{
    if let Resolved::Found(p) = resolve(data, keys) {
        if let JsonV::Array(items) = node_at(data, p) {
            lemma_find_id(items, new_id(value, f));
            if !has_own_id(value) {
                if find_id(items, new_id(value, f)) is Broken {
                    let i = choose|i: int|
                        0 <= i < items.len() && id_of(items[i]) is None && passed(items, new_id(value, f), i);
                    assert(id_of(items[i]) is Some);
                }
            }
        }
    }
}

impl Database {
    /// Inserts the record to the given path. A record without its own integer
    /// id gets one drawn at random.
    pub fn insert(&mut self, keys: &mut Vec<String>, value: Json) -> (r: Result<Json, Errors>)
        requires
            insert_safe(old(self)@.data, views(old(keys)@), value@),
        ensures
            *final(keys) == *old(keys),
            final(self)@.path == old(self)@.path,
            final(self)@.default_pk == old(self)@.default_pk,
            exists|f: i64|
                #[trigger] insert_spec(old(self)@.data, views(old(keys)@), value@, f) == (
                    final(self)@.data,
                    result_view(r),
                ),
            has_own_id(value@) ==> insert_spec(old(self)@.data, views(old(keys)@), value@, 0) == (
                final(self)@.data,
                result_view(r),
            ),
    {
        let fallback = random_id();
        proof {
            lemma_insert_safe(old(self)@.data, views(old(keys)@), value@, fallback);
        }
        let r = self.insert_with_id(keys, value, fallback);
        proof {
            assert(insert_spec(old(self)@.data, views(old(keys)@), value@, fallback) == (
                self@.data,
                result_view(r),
            ));
        }
        r
    }

    /// Inserts the record to the given path; a record without its own integer
    /// id gets `fallback`.
    pub fn insert_with_id(&mut self, keys: &mut Vec<String>, value: Json, fallback: i64) -> (r: Result<
        Json,
        Errors,
    >)
        requires
            insert_completes(old(self)@.data, views(old(keys)@), value@, fallback),
        ensures
            *final(keys) == *old(keys),
            final(self)@.path == old(self)@.path,
            final(self)@.default_pk == old(self)@.default_pk,
            insert_spec(old(self)@.data, views(old(keys)@), value@, fallback) == (
                final(self)@.data,
                result_view(r),
            ),
    {
        let mut data = Json::Null;
        std::mem::swap(&mut data, &mut self.data);
        let ghost d = data@;
        match Self::get_object(keys, &data) {
            Ok(path) => {
                proof {
                    lemma_resolve_valid(d, views(keys@));
                }
                let node = node_ref(&data, &path);
                match node {
                    Json::Array(items) => {
                        proof {
                            lemma_items_view(items@);
                        }
                        let id_key = "id".to_string();
                        let mut id = fallback;
                        if let Some(id_value) = value.get(&id_key) {
                            if let Some(parsed) = id_value.as_i64() {
                                id = parsed;
                            }
                        }
                        let value_with_id = match value {
                            Json::Object(mut obj_id) => {
                                put_member(&mut obj_id, "id".to_string(), Json::Number(id));
                                Json::Object(obj_id)
                            },
                            other => other,
                        };
                        if let Some(idx) = Self::find_index(items, &id) {
                            let mut msg = "Insert - Error  ".to_string();
                            let vd = json_debug_text(&value_with_id);
                            msg.append(vd.as_str());
                            msg.append(". \"id\" duplicates record at index: ");
                            let nd = nat_digits(idx as u64);
                            msg.append(nd.as_str());
                            self.data = data;
                            Err(Errors::Conflict(msg))
                        } else {
                            proof {
                                assert(crate::database::positions(path@).skip(0) =~= crate::database::positions(path@));
                                lemma_replace_at(d, crate::database::positions(path@), JsonV::Null, JsonV::Null);
                            }
                            let (emptied, old_node) = swap_at(data, &path, 0, Json::Null);
                            match old_node {
                                Json::Array(mut table) => {
                                    let ghost before = table@;
                                    table.push(value_with_id.deep_clone());
                                    proof {
                                        lemma_items_view(before);
                                        lemma_items_view(table@);
                                        assert(items_view(table@) =~= items_view(before).push(value_with_id@));
                                        lemma_replace_at(d, crate::database::positions(path@), JsonV::Null, Json::Array(table)@);
                                    }
                                    let (filled, _) = swap_at(emptied, &path, 0, Json::Array(table));
                                    self.data = filled;
                                    Ok(value_with_id)
                                },
                                other => {
                                    self.data = emptied;
                                    Ok(value_with_id)
                                },
                            }
                        }
                    },
                    _ => {
                        let mut msg = "Insert - Error already has an object with the given key: ".to_string();
                        let kd = keys_debug(keys);
                        msg.append(kd.as_str());
                        self.data = data;
                        Err(Errors::Conflict(msg))
                    },
                }
            },
            Err(_) => {
                let mut msg = "Insert - Error  ".to_string();
                let kd = keys_debug(keys);
                msg.append(kd.as_str());
                msg.append(". No record with the given path:");
                self.data = data;
                Err(Errors::NotFound(msg))
            },
        }
    }
}

} // verus!
