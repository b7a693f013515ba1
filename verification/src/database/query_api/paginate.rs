//! # paginate
//! Cuts the page that the query api asks for out of an array.
use vstd::prelude::*;
use crate::json::{items_view, lemma_items_view, Json, JsonV};
use crate::service::query_api::page::Page;
use crate::service::query_api::Queries;

verus! {

/// Where the page starts: the offset where one is given, else 0.
pub open spec fn offset_of(p: Page) -> int {
    match p {
        Page::OFFSET(i) => i as int,
        _ => 0,
    }
}

/// How many records the page holds: the limit where one is given, else the
/// length of the array cut to a `u8`.
pub open spec fn limit_of(p: Page, len: nat) -> int {
    match p {
        Page::LIMIT(i) => i as int,
        _ => (len % 256) as int,
    }
}

/// The records at positions `offset <= i < offset + limit`, in order.
pub open spec fn slice_spec(items: Seq<JsonV>, offset: int, limit: int) -> Seq<JsonV> {
    let lo = if offset < items.len() { offset } else { items.len() as int };
    let hi = if offset + limit < items.len() { offset + limit } else { items.len() as int };
    items.subrange(lo, hi)
}

/// An array is cut to the page; other values stay as they are.
pub open spec fn paginate_spec(v: JsonV, paginate: (Page, Page)) -> JsonV {
    match v {
        JsonV::Array(items) => JsonV::Array(
            slice_spec(items, offset_of(paginate.0), limit_of(paginate.1, items.len())),
        ),
        _ => v,
    }
}

/// Cuts an array to the page that the query api asks for.
pub fn apply(obj: &mut Json, queries: &Queries)
    ensures
        final(obj)@ == paginate_spec(old(obj)@, queries@.paginate),
{
    let _offset = queries.paginate.0;
    let _limit = queries.paginate.1;
    let mut taken = Json::Null;
    std::mem::swap(obj, &mut taken);
    match taken {
        Json::Array(mut arr) => {
            proof {
                lemma_items_view(arr@);
            }
            let offset: u8 = match _offset {
                Page::OFFSET(index) => index,
                _ => 0u8,
            };
            let limit: u8 = match _limit {
                Page::LIMIT(index) => index,
                _ => (arr.len() % 256) as u8,
            };
            let o: usize = offset as usize;
            let l: usize = limit as usize;
            let temp = clone_slice(&mut arr, o, l);
            *obj = Json::Array(temp);
        },
        other => {
            *obj = other;
        },
    }
}

/// copies array within the given indexes.
fn clone_slice(arr: &mut Vec<Json>, offset: usize, limit: usize) -> (r: Vec<Json>)
    requires
        offset < 256,
        limit < 256,
    ensures
        final(arr)@ == old(arr)@,
        items_view(r@) == slice_spec(items_view(old(arr)@), offset as int, limit as int),
{
    let ghost ov = items_view(arr@);
    proof {
        lemma_items_view(arr@);
    }
    let mut temp = Vec::<Json>::new();
    let mut i: usize = 0;
    let upperlimit = offset + limit;
    let n = arr.len();
    while i < n
        invariant
            n == arr@.len(),
            i <= n,
            upperlimit == offset + limit,
            ov == items_view(arr@),
            ov.len() == arr@.len(),
            forall|j: int| 0 <= j < arr@.len() ==> #[trigger] ov[j] == arr@[j]@,
            temp@.len() == (if i < offset {
                0
            } else if i < upperlimit {
                i - offset
            } else if offset < upperlimit {
                limit as int
            } else {
                0
            }),
            forall|j: int| 0 <= j < temp@.len() ==> (#[trigger] temp@[j])@ == ov[offset + j],
        decreases n - i,
    {
        if i >= offset && i < upperlimit {
            let x = arr[i].deep_clone();
            temp.push(x);
        }
        i = i + 1;
    }
    proof {
        lemma_items_view(temp@);
        assert(items_view(temp@) =~= slice_spec(ov, offset as int, limit as int));
    }
    temp
}

/// A page of an array holds exactly its records at the positions from the
/// offset up to, not including, the offset plus the limit that exist: as many
/// as the limit allows and the array has past the offset, in order, so a limit
/// that runs past the end still gives the records from the offset to the end.
pub proof fn law_page_holds_range(items: Seq<JsonV>, offset: u8, limit: u8)
    ensures
        ({
            let n = items.len() as int;
            let count = if offset >= n {
                0
            } else if n - offset < limit {
                n - offset
            } else {
                limit as int
            };
            paginate_spec(JsonV::Array(items), (Page::OFFSET(offset), Page::LIMIT(limit))) matches JsonV::Array(out)
                && out.len() == count && forall|i: int| 0 <= i < out.len() ==> #[trigger] out[i] == items[offset + i]
        }),
{
}

} // verus!
