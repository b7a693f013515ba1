//! Tests for the inputs on which the database operations complete: a search by
//! id stops short on a record without an integer id.
use vstd::prelude::*;
use crate::database::{
    all_ids, decide_id_spec, delete_completes, find_id, has_own_id, id_of, insert_safe, new_id,
    node_at, node_ref, path_completes, positions, probe_index, probe_view, resolve, Database,
    Follow, Lookup, Probe, Resolved, lemma_resolve_valid,
};
use crate::json::{items_view, lemma_items_view, Json, JsonV};
use crate::text::views;

verus! {

/// Whether every record of the table has an integer id.
fn all_have_ids(items: &Vec<Json>) -> (r: bool)
    ensures
        r == all_ids(items_view(items@)),
{
    let ghost iv = items_view(items@);
    proof {
        lemma_items_view(items@);
    }
    let id_key = "id".to_string();
    let mut i: usize = 0;
    while i < items.len()
        invariant
            i <= items@.len(),
            iv == items_view(items@),
            iv.len() == items@.len(),
            forall|j: int| 0 <= j < items@.len() ==> #[trigger] iv[j] == items@[j]@,
            id_key@ == "id"@,
            forall|j: int| 0 <= j < i ==> (#[trigger] id_of(iv[j])) is Some,
        decreases items@.len() - i,
    {
        let id = match items[i].get(&id_key) {
            Some(x) => x.as_i64(),
            None => None,
        };
        if id.is_none() {
            proof {
                assert(id_of(iv[i as int]) is None);
            }
            return false;
        }
        i = i + 1;
    }
    true
}

impl Database {
    /// Whether reading or updating at `keys` completes.
    pub fn can_follow(&self, keys: &Vec<String>) -> (r: bool)
        ensures
            r == path_completes(self@.data, views(keys@)),
    {
        match Self::follow(keys, &self.data) {
            Follow::Broken => false,
            _ => true,
        }
    }

    /// Whether inserting `value` at `keys` completes, whatever id it draws.
    pub fn can_insert(&self, keys: &Vec<String>, value: &Json) -> (r: bool)
        ensures
            r == insert_safe(self@.data, views(keys@), value@),
    {
        match Self::follow(keys, &self.data) {
            Follow::Broken => false,
            Follow::Missing(_) => true,
            Follow::Found(path) => {
                proof {
                    lemma_resolve_valid(self.data@, views(keys@));
                }
                match node_ref(&self.data, &path) {
                    Json::Array(items) => {
                        let id_key = "id".to_string();
                        let own = match value.get(&id_key) {
                            Some(x) => x.as_i64(),
                            None => None,
                        };
                        match own {
                            Some(id) => {
                                proof {
                                    assert(new_id(value@, 0) == id);
                                }
                                match probe_index(items, &id) {
                                    Probe::Broken => false,
                                    _ => true,
                                }
                            },
                            None => all_have_ids(items),
                        }
                    },
                    _ => true,
                }
            },
        }
    }

    /// Whether deleting at `keys` completes.
    pub fn can_delete(&self, keys: &Vec<String>) -> (r: bool)
        ensures
            r == delete_completes(self@.data, views(keys@)),
    {
        if keys.len() == 0 {
            return false;
        }
        let mut rest: Vec<String> = Vec::new();
        let n = keys.len() - 1;
        let mut i: usize = 0;
        while i < n
            invariant
                n == keys@.len() - 1,
                i <= n,
                views(rest@) == views(keys@).take(i as int),
            decreases n - i,
        {
            let k = keys[i].clone();
            proof {
                assert(views(keys@)[i as int] == k@);
                assert(views(rest@.push(k)) =~= views(rest@).push(k@));
                assert(views(keys@).take(i + 1) =~= views(keys@).take(i as int).push(k@));
            }
            rest.push(k);
            i = i + 1;
        }
        let last = &keys[n];
        proof {
            assert(views(rest@) =~= views(keys@).drop_last());
            assert(views(keys@).last() == last@);
        }
        match Self::follow(&rest, &self.data) {
            Follow::Broken => false,
            Follow::Missing(_) => true,
            Follow::Found(path) => {
                proof {
                    lemma_resolve_valid(self.data@, views(rest@));
                }
                match node_ref(&self.data, &path) {
                    Json::Array(items) => {
                        let id = Self::decide_id(last);
                        match probe_index(items, &id) {
                            Probe::Broken => false,
                            _ => true,
                        }
                    },
                    _ => true,
                }
            },
        }
    }
}

} // verus!
