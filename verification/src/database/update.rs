use vstd::prelude::*;
use crate::database::errors::{ErrorView, Errors};
use crate::database::messages::{keys_debug, strings_debug};
use crate::database::{
    lemma_replace_at, lemma_resolve_valid, node_at, node_ref, positions, replace_at, resolve,
    result_view, swap_at, Database, Resolved,
};
use crate::json::{
    lemma_member, lemma_members_view, member, member_pos, members_view, put_member, set_member,
    Json, JsonV,
};
use crate::text::{text_eq, views};

verus! {

/// The value of the first member of `vms` named `k`.
pub open spec fn first_value(vms: Seq<(Seq<char>, JsonV)>, k: Seq<char>) -> JsonV {
    match member(vms, k) {
        Some(i) => vms[i].1,
        None => JsonV::Null,
    }
}

/// `ms` with the first `n` members of `vms` merged in, in order, except `id`:
/// each sets the member of its name to the value that `vms` holds under it.
pub open spec fn merge_members(ms: Seq<(Seq<char>, JsonV)>, vms: Seq<(Seq<char>, JsonV)>, n: int) -> Seq<
    (Seq<char>, JsonV),
>
    decreases n,
{
    if n <= 0 {
        ms
    } else {
        let prev = merge_members(ms, vms, n - 1);
        let k = vms[n - 1].0;
        if k == "id"@ {
            prev
        } else {
            set_member(prev, k, first_value(vms, k))
        }
    }
}

/// What an update makes of the value that its path leads to: an object takes
/// the members of an object value but its `id`; a string, a number or a
/// boolean takes a value of its own type; other values of the update leave the
/// node as it is. `null` and arrays take no update.
pub open spec fn update_node(node: JsonV, value: JsonV) -> Option<JsonV> {
    match node {
        JsonV::Object(ms) => Some(
            match value {
                JsonV::Object(vms) => JsonV::Object(merge_members(ms, vms, vms.len() as int)),
                _ => node,
            },
        ),
        JsonV::Str(_) => Some(
            match value {
                JsonV::Str(s) => JsonV::Str(s),
                _ => node,
            },
        ),
        JsonV::Number(_) => Some(
            match value {
                JsonV::Number(n) => JsonV::Number(n),
                _ => node,
            },
        ),
        JsonV::Bool(_) => Some(
            match value {
                JsonV::Bool(b) => JsonV::Bool(b),
                _ => node,
            },
        ),
        _ => None,
    }
}

pub open spec fn update_missing_msg(keys: Seq<Seq<char>>) -> Seq<char> {
    "Update - Error  "@ + strings_debug(keys) + ". No record with the given path:"@
}

pub open spec fn update_exists_msg(keys: Seq<Seq<char>>) -> Seq<char> {
    "Update - Error already has an object with the given key: "@ + strings_debug(keys)
}

/// What updating the value at `keys` with `value` does to `data`, and what it gives.
pub open spec fn update_spec(data: JsonV, keys: Seq<Seq<char>>, value: JsonV) -> (
    JsonV,
    Result<JsonV, ErrorView>,
) {
    match resolve(data, keys) {
        Resolved::Found(p) => match update_node(node_at(data, p), value) {
            Some(n) => (replace_at(data, p, n), Ok(n)),
            None => (data, Err(ErrorView::Conflict(update_exists_msg(keys)))),
        },
        _ => (data, Err(ErrorView::NotFound(update_missing_msg(keys)))),
    }
}

/// Merges the members of `value_map` but `id` into `map`.
fn merge_into(map: &mut Vec<(String, Json)>, value_map: &Vec<(String, Json)>)
    ensures
        members_view(final(map)@) == merge_members(
            members_view(old(map)@),
            members_view(value_map@),
            value_map@.len() as int,
        ),
{
    proof {
        lemma_members_view(value_map@);
    }
    let ghost vms = members_view(value_map@);
    let ghost start = members_view(map@);
    let mut i: usize = 0;
    while i < value_map.len()
        invariant
            i <= value_map@.len(),
            vms == members_view(value_map@),
            vms.len() == value_map@.len(),
            forall|j: int|
                0 <= j < value_map@.len() ==> #[trigger] vms[j] == (value_map@[j].0@, value_map@[j].1@),
            members_view(map@) == merge_members(start, vms, i as int),
        decreases value_map@.len() - i,
    {
        let key = &value_map[i].0;
        if !text_eq(key.as_str(), "id") {
            proof {
                lemma_member(vms, key@);
            }
            let pos = member_pos(value_map, key);
            match pos {
                Some(at) => {
                    let v = value_map[at].1.deep_clone();
                    put_member(map, key.clone(), v);
                },
                None => {
                    proof {
                        assert(vms[i as int].0 != key@);
                    }
                },
            }
        }
        i = i + 1;
    }
}

impl Database {
    /// Updates the record with the given path.
    pub fn update(&mut self, keys: &mut Vec<String>, value: Json) -> (r: Result<Json, Errors>)
        requires
            !(resolve(old(self)@.data, views(old(keys)@)) is Broken),
        ensures
            *final(keys) == *old(keys),
            final(self)@.path == old(self)@.path,
            final(self)@.default_pk == old(self)@.default_pk,
            update_spec(old(self)@.data, views(old(keys)@), value@) == (
                final(self)@.data,
                result_view(r),
            ),
    {
        let mut data = Json::Null;
        std::mem::swap(&mut data, &mut self.data);
        let ghost d = data@;
        match Self::get_object(keys, &data) {
            Ok(path) => {
                proof {
                    lemma_resolve_valid(d, views(keys@));
                    assert(positions(path@).skip(0) =~= positions(path@));
                }
                let takes = match node_ref(&data, &path) {
                    Json::Null | Json::Array(_) => false,
                    _ => true,
                };
                if !takes {
                    let mut msg = "Update - Error already has an object with the given key: ".to_string();
                    let kd = keys_debug(keys);
                    msg.append(kd.as_str());
                    self.data = data;
                    return Err(Errors::Conflict(msg));
                }
                proof {
                    lemma_replace_at(d, positions(path@), JsonV::Null, JsonV::Null);
                }
                let (emptied, old_node) = swap_at(data, &path, 0, Json::Null);
                let new_node = match old_node {
                    Json::Object(mut map) => {
                        if let Json::Object(value_map) = &value {
                            proof {
                                lemma_members_view(value_map@);
                            }
                            merge_into(&mut map, value_map);
                        }
                        Json::Object(map)
                    },
                    Json::Str(s) => {
                        if let Json::Str(value_s) = value {
                            Json::Str(value_s)
                        } else {
                            Json::Str(s)
                        }
                    },
                    Json::Number(n) => {
                        if let Json::Number(value_n) = value {
                            Json::Number(value_n)
                        } else {
                            Json::Number(n)
                        }
                    },
                    Json::Bool(b) => {
                        if let Json::Bool(value_b) = value {
                            Json::Bool(value_b)
                        } else {
                            Json::Bool(b)
                        }
                    },
                    other => other,
                };
                let result = new_node.deep_clone();
                proof {
                    lemma_replace_at(d, positions(path@), JsonV::Null, new_node@);
                }
                let (filled, _) = swap_at(emptied, &path, 0, new_node);
                self.data = filled;
                Ok(result)
            },
            Err(_) => {
                let mut msg = "Update - Error  ".to_string();
                let kd = keys_debug(keys);
                msg.append(kd.as_str());
                msg.append(". No record with the given path:");
                self.data = data;
                Err(Errors::NotFound(msg))
            },
        }
    }
}

/// An update of a boolean with a boolean, a number with a number or a string
/// with a string stores the value sent: the update answers it, and a read of
/// the same path then gives it (unless the number was the id of the record at
/// the end of the path, which moves the record).
pub proof fn law_update_scalar_stores(data: JsonV, keys: Seq<Seq<char>>, value: JsonV)
    requires
        resolve(data, keys) is Found,
        (node_at(data, resolve(data, keys)->Found_0) is Bool && value is Bool) || (node_at(
            data,
            resolve(data, keys)->Found_0,
        ) is Number && value is Number) || (node_at(data, resolve(data, keys)->Found_0) is Str
            && value is Str),
        !crate::database::laws::rewrites_record_id(data, keys, value),
    ensures
        update_spec(data, keys, value).1 == Ok::<JsonV, ErrorView>(value),
        crate::database::read_spec(update_spec(data, keys, value).0, keys, None) == Ok::<
            JsonV,
            ErrorView,
        >(value),
{
    crate::database::laws::law_read_after_update(data, keys, value);
}

} // verus!
