use vstd::prelude::*;
use crate::database::errors::{ErrorView, Errors};
use crate::database::messages::{debug_str, debug_text, int_digits, int_text};
use crate::database::{
    decide_id_spec, find_id, lemma_find_id, lemma_replace_at, lemma_resolve_valid, node_at,
    node_ref, positions, replace_at, resolve, result_view, swap_at, Database, Lookup, Resolved,
};
use crate::json::{
    items_view, lemma_items_view, lemma_member, lemma_members_view, member, member_pos,
    members_view, remove_member, take_member, Json, JsonV,
};
use crate::text::views;

verus! {

pub open spec fn delete_path_msg(key: Seq<char>) -> Seq<char> {
    "Delete - Error  path: "@ + debug_text(key)
}

pub open spec fn delete_id_msg(id: i64) -> Seq<char> {
    "Delete - Error  id: "@ + int_text(id as int)
}

/// What deleting at `keys` does to `data`, and what it gives: the last key
/// names a member of the object that the other keys lead to, or the id of a
/// record of the array they lead to; that member or record goes.
pub open spec fn delete_spec(data: JsonV, keys: Seq<Seq<char>>) -> (JsonV, Result<JsonV, ErrorView>) {
    let key = keys.last();
    match resolve(data, keys.drop_last()) {
        Resolved::Found(p) => match node_at(data, p) {
            JsonV::Object(ms) => match member(ms, key) {
                Some(i) => (replace_at(data, p, JsonV::Object(remove_member(ms, key))), Ok(ms[i].1)),
                None => (data, Err(ErrorView::NotFound("Table not found "@ + key))),
            },
            JsonV::Array(items) => match find_id(items, decide_id_spec(key)) {
                Lookup::At(idx) => (replace_at(data, p, JsonV::Array(items.remove(idx))), Ok(items[idx])),
                _ => (data, Err(ErrorView::NotFound(delete_id_msg(decide_id_spec(key))))),
            },
            _ => (data, Err(ErrorView::NotFound(delete_path_msg(key)))),
        },
        _ => (data, Err(ErrorView::NotFound(delete_path_msg(key)))),
    }
}

/// The inputs on which a delete completes: the searches by id along the path
/// and in the table pass only records with integer ids.
pub open spec fn delete_completes(data: JsonV, keys: Seq<Seq<char>>) -> bool {
    &&& keys.len() > 0
    &&& !(resolve(data, keys.drop_last()) is Broken)
    &&& resolve(data, keys.drop_last()) matches Resolved::Found(p) ==> (node_at(data, p) matches JsonV::Array(
        items,
    ) ==> !(find_id(items, decide_id_spec(keys.last())) is Broken))
}

impl Database {
    /// Deletes the record with the given id.
    pub fn delete(&mut self, keys: &mut Vec<String>) -> (r: Result<Json, Errors>)
        requires
            delete_completes(old(self)@.data, views(old(keys)@)),
        ensures
            final(keys)@ == old(keys)@.drop_last(),
            final(self)@.path == old(self)@.path,
            final(self)@.default_pk == old(self)@.default_pk,
            delete_spec(old(self)@.data, views(old(keys)@)) == (final(self)@.data, result_view(r)),
    {
        let ghost ks = views(keys@);
        let last_item = keys.pop().unwrap();
        proof {
            assert(views(keys@) =~= ks.drop_last());
            assert(last_item@ == ks.last());
        }
        let key = last_item.as_str();
        let mut data = Json::Null;
        std::mem::swap(&mut data, &mut self.data);
        let ghost d = data@;
        match Self::get_object(keys, &data) {
            Ok(path) => {
                proof {
                    lemma_resolve_valid(d, views(keys@));
                    assert(positions(path@).skip(0) =~= positions(path@));
                }
                let mut found: Option<usize> = None;
                let mut is_container = true;
                match node_ref(&data, &path) {
                    Json::Object(map) => {
                        proof {
                            lemma_members_view(map@);
                        }
                        found = member_pos(map, &last_item);
                    },
                    Json::Array(array) => {
                        let id = Self::decide_id(&last_item);
                        proof {
                            lemma_items_view(array@);
                        }
                        found = Self::find_index(array, &id);
                    },
                    _ => {
                        is_container = false;
                    },
                }
                if !is_container {
                    let mut msg = "Delete - Error  path: ".to_string();
                    let kd = debug_str(key);
                    msg.append(kd.as_str());
                    self.data = data;
                    return Err(Errors::NotFound(msg));
                }
                match found {
                    Some(idx) => {
                        proof {
                            lemma_replace_at(d, positions(path@), JsonV::Null, JsonV::Null);
                        }
                        let (emptied, old_node) = swap_at(data, &path, 0, Json::Null);
                        let (new_node, deleted) = match old_node {
                            Json::Object(map) => {
                                proof {
                                    lemma_members_view(map@);
                                    lemma_member(members_view(map@), last_item@);
                                }
                                let (kept, removed) = take_member(map, &last_item);
                                (Json::Object(kept), removed.unwrap())
                            },
                            Json::Array(mut array) => {
                                let ghost before = array@;
                                proof {
                                    lemma_items_view(before);
                                    lemma_find_id(items_view(before), decide_id_spec(last_item@));
                                }
                                let value = array.remove(idx);
                                proof {
                                    lemma_items_view(array@);
                                    assert(items_view(array@) =~= items_view(before).remove(idx as int));
                                }
                                (Json::Array(array), value)
                            },
                            other => (other, Json::Null),
                        };
                        proof {
                            lemma_replace_at(d, positions(path@), JsonV::Null, new_node@);
                        }
                        let (filled, _) = swap_at(emptied, &path, 0, new_node);
                        self.data = filled;
                        Ok(deleted)
                    },
                    None => {
                        self.data = data;
                        match node_ref(&self.data, &path) {
                            Json::Object(_) => {
                                let mut msg = "Table not found ".to_string();
                                msg.append(key);
                                Err(Errors::NotFound(msg))
                            },
                            _ => {
                                let id = Self::decide_id(&last_item);
                                let mut msg = "Delete - Error  id: ".to_string();
                                let nd = int_digits(id);
                                msg.append(nd.as_str());
                                Err(Errors::NotFound(msg))
                            },
                        }
                    },
                }
            },
            Err(_) => {
                let mut msg = "Delete - Error  path: ".to_string();
                let kd = debug_str(key);
                msg.append(kd.as_str());
                self.data = data;
                Err(Errors::NotFound(msg))
            },
        }
    }
}

} // verus!
