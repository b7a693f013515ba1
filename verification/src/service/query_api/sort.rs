//! # sort
//! All sorting related codes contained under this module.
use vstd::prelude::*;
use crate::text::piece;
use vstd::string::*;

verus! {

/// An enum to hold sort parameters with the direction.
#[derive(Debug, PartialEq, Eq)]
pub enum Sort {
    /// Ascending sorting.
    ASC(String),
    /// Descending sorting.
    DSC(String),
}

/// The field name and direction of a [`Sort`].
pub enum SortView {
    ASC(Seq<char>),
    DSC(Seq<char>),
}

impl View for Sort {
    type V = SortView;

    open spec fn view(&self) -> SortView {
        match self {
            Sort::ASC(s) => SortView::ASC(s@),
            Sort::DSC(s) => SortView::DSC(s@),
        }
    }
}

/// The sort that a parameter names: `+` asks for ascending order and `-` for
/// descending order, written after the field's name (`name-`) or before it
/// (`-name`), as the README's example writes it; a sign at the end is read
/// first, as the tests write it.
pub open spec fn sort_param(s: Seq<char>) -> Option<SortView> {
    if s.len() == 0 {
        None
    } else if s.last() == '+' {
        Some(SortView::ASC(s.drop_last()))
    } else if s.last() == '-' {
        Some(SortView::DSC(s.drop_last()))
    } else if s[0] == '+' {
        Some(SortView::ASC(s.drop_first()))
    } else if s[0] == '-' {
        Some(SortView::DSC(s.drop_first()))
    } else {
        None
    }
}

/// The sort of a parameter; a parameter without a direction sorts ascending on
/// its whole text.
pub open spec fn sort_from(s: Seq<char>) -> SortView {
    match sort_param(s) {
        Some(x) => x,
        None => SortView::ASC(s),
    }
}

impl Sort {
    /// The sort that `s` names, ascending on `s` itself where it names none.
    pub fn from(s: &str) -> (r: Sort)
        ensures
            r@ == sort_from(s@),
    {
        if let Some(sort) = parse(s) {
            sort
        } else {
            Sort::ASC(s.to_string())
        }
    }
}

/// Parses a sort parameter to a Sort. The sign may stand after the field's
/// name, as the tests write it (`name-`), or before it, as the README's
/// example writes it (`-manufactorer`).
pub fn parse(param: &str) -> (r: Option<Sort>)
    ensures
        match r {
            Some(x) => sort_param(param@) == Some(x@),
            None => sort_param(param@) is None,
        },
{
    let n = param.unicode_len();
    if n == 0 {
        return None;
    }
    let t = param.get_char(n - 1);
    let rest = piece(param, 0, n - 1);
    proof {
        assert(rest@ =~= param@.drop_last());
    }
    if t == '+' {
        return Some(Sort::ASC(rest));
    } else if t == '-' {
        return Some(Sort::DSC(rest));
    }
    let h = param.get_char(0);
    let tail = piece(param, 1, n);
    proof {
        assert(tail@ =~= param@.drop_first());
    }
    if h == '+' {
        Some(Sort::ASC(tail))
    } else if h == '-' {
        Some(Sort::DSC(tail))
    } else {
        None
    }
}

} // verus!
