//! # Page
//! All paging related codes contained under this module.
use vstd::prelude::*;
use crate::service::query_api::query::Query;
use crate::text::{parse_u8, text_eq, u8_from_decimal};

verus! {

/// One side of the page that a query asks for.
#[derive(Debug, Clone, Copy, PartialEq, Eq, Structural)]
pub enum Page {
    /// The position of the first record returned.
    OFFSET(u8),
    /// How many records are returned.
    LIMIT(u8),
}

/// The page that a parameter names: `_offset` or `_limit` with a value that
/// `u8::from_str_radix(_, 10)` reads.
pub open spec fn page_of(key: Seq<char>, value: Seq<char>) -> Option<Page> {
    match u8_from_decimal(value) {
        Some(size) => if key == "_offset"@ {
            Some(Page::OFFSET(size))
        } else if key == "_limit"@ {
            Some(Page::LIMIT(size))
        } else {
            None
        },
        None => None,
    }
}

/// Parses an `_offset` or `_limit` parameter to a page.
pub fn parse(param: Query) -> (r: Option<Page>)
    ensures
        r == page_of(param.key@, param.value@),
{
    if let Some(size) = parse_u8(param.value.as_str()) {
        if text_eq(param.key.as_str(), "_offset") {
            Some(Page::OFFSET(size))
        } else if text_eq(param.key.as_str(), "_limit") {
            Some(Page::LIMIT(size))
        } else {
            None
        }
    } else {
        None
    }
}

} // verus!
