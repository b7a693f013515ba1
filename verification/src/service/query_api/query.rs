//! # query_param
//! This module includes necessary structs and functions to parse query patameters in a spesific way.
use vstd::prelude::*;
use vstd::string::*;
use vstd::utf8::{decode_utf8, encode_utf8, is_char_boundary, valid_utf8};
use crate::service::query::QueryView;
use crate::text::chars_of;

verus! {

broadcast use {vstd::utf8::encode_utf8_decode_utf8, vstd::utf8::encode_utf8_valid_utf8};

/// A simple struct to hold necessary information about a query parameter.
#[derive(Debug, PartialEq, Eq)]
pub struct Query {
    /// key of the parameter. It holds pure key without any `_eq` etc.
    pub key: String,
    /// value of the parameter.
    pub value: String,
    /// operation of the parameter. =, eq,neq,gtw,let,like
    pub op: String,
}

impl View for Query {
    type V = QueryView;

    open spec fn view(&self) -> QueryView {
        QueryView { key: self.key@, value: self.value@, op: self.op@ }
    }
}

/// A character that starts an operator: `=`, `!`, `<`, `>`, `~` or `|`.
pub open spec fn is_op_char(c: char) -> bool {
    c == '=' || c == '!' || c == '<' || c == '>' || c == '~' || c == '|'
}

/// The position of the first operator character of `s`, if any.
pub open spec fn first_op(s: Seq<char>) -> Option<int>
    decreases s.len(),
{
    if s.len() == 0 {
        None
    } else if is_op_char(s[0]) {
        Some(0)
    } else {
        match first_op(s.drop_first()) {
            Some(i) => Some(i + 1),
            None => None,
        }
    }
}

pub proof fn lemma_first_op(s: Seq<char>)
    ensures
        match first_op(s) {
            Some(i) => 0 <= i < s.len() && is_op_char(s[i]) && forall|j: int|
                0 <= j < i ==> !is_op_char(#[trigger] s[j]),
            None => forall|j: int| 0 <= j < s.len() ==> !is_op_char(#[trigger] s[j]),
        },
    decreases s.len(),
{
    if s.len() > 0 {
        lemma_first_op(s.drop_first());
        if !is_op_char(s[0]) {
            assert forall|j: int| 0 < j < s.len() implies s[j] == s.drop_first()[j - 1] by {}
        }
    }
}

/// Where the key of a filter expression ends and how long its operator is:
/// the operator starts at the first operator character and is two characters
/// long where `=` follows it; `=`, `<` and `>` also stand alone. `-1` marks what
/// was not found.
pub open spec fn op_scan(s: Seq<char>) -> (int, int) {
    match first_op(s) {
        None => (-1, -1),
        Some(k) => if k + 1 >= s.len() {
            (k, -1)
        } else if s[k + 1] == '=' {
            (k, 2)
        } else if s[k] == '=' || s[k] == '<' || s[k] == '>' {
            (k, 1)
        } else {
            (-1, -1)
        },
    }
}

/// How many characters the operator scan reads before it knows its answer.
pub open spec fn op_scan_len(s: Seq<char>) -> int {
    match first_op(s) {
        Some(k) => if k + 1 < s.len() {
            k + 2
        } else {
            s.len() as int
        },
        None => s.len() as int,
    }
}

/// The inputs on which parsing a filter expression completes: the scan counts
/// the characters it reads in an `i8`, and the key and the operator are cut at
/// byte positions, which must fall between characters.
pub open spec fn param_fits(s: Seq<char>) -> bool {
    let (k, l) = op_scan(s);
    let b = encode_utf8(s);
    &&& op_scan_len(s) <= 128
    &&& (k != -1 && l != -1) ==> {
        &&& is_char_boundary(b, k)
        &&& is_char_boundary(b.subrange(k, b.len() as int), l)
    }
}

/// The query that a filter expression such as `age>=31` writes. The key and
/// the operator are cut at the byte positions that the scan counted in
/// characters; the two agree where the key is ASCII.
pub open spec fn query_of(s: Seq<char>) -> Option<QueryView> {
    let (k, l) = op_scan(s);
    let b = encode_utf8(s);
    if k != -1 && l != -1 {
        Some(
            QueryView {
                key: decode_utf8(b.take(k)),
                op: decode_utf8(b.subrange(k, k + l)),
                value: decode_utf8(b.subrange(k + l, b.len() as int)),
            },
        )
    } else {
        None
    }
}

/// The query of an expression, or the empty query where it writes none.
pub open spec fn query_from(s: Seq<char>) -> QueryView {
    match query_of(s) {
        Some(q) => q,
        None => QueryView { key: Seq::empty(), op: Seq::empty(), value: Seq::empty() },
    }
}

impl Query {
    /// Creates new instance for the query
    pub fn new(key: &str, op: &str, value: &str) -> (r: Query)
        ensures
            r@ == (QueryView { key: key@, op: op@, value: value@ }),
    {
        Query { key: key.to_string(), op: op.to_string(), value: value.to_string() }
    }

    /// The query that `s` writes, or the empty query where it writes none.
    pub fn from(s: &str) -> (r: Query)
        requires
            param_fits(s@),
        ensures
            r@ == query_from(s@),
    {
        if let Some(query) = parse(s) {
            query
        } else {
            let r = Query::new("", "", "");
            proof {
                reveal_strlit("");
                assert(r.key@ =~= Seq::<char>::empty());
            }
            r
        }
    }
}

/// Parses a filter expression such as `age>=30` to a query: the key, the
/// operator and the value.
pub fn parse(param: &str) -> (r: Option<Query>)
    requires
        param_fits(param@),
    ensures
        match r {
            Some(q) => query_of(param@) == Some(q@),
            None => query_of(param@) is None,
        },
{
    let indexes = find_indexes(param);
    proof {
        lemma_first_op(param@);
    }
    if indexes.0 != -1i8 && indexes.1 != -1i8 {
        let k = indexes.0 as usize;
        let l = indexes.1 as usize;
        let (key, rest) = param.split_at(k);
        proof {
            let b = encode_utf8(param@);
            assert(rest.spec_bytes() =~= b.subrange(k as int, b.len() as int));
            assert(valid_utf8(rest.spec_bytes()));
            assert(k <= b.len());
            assert(l <= rest.spec_bytes().len());
        }
        let (op, val) = rest.split_at(l);
        proof {
            let b = encode_utf8(param@);
            assert(b.subrange(k as int, b.len() as int).subrange(0, l as int) =~= b.subrange(k as int, k + l));
            assert(b.subrange(k as int, b.len() as int).subrange(l as int, b.len() - k) =~= b.subrange(k + l, b.len() as int));
            assert(b.subrange(0, k as int) =~= b.take(k as int));
        }
        Some(Query { key: key.to_string(), op: op.to_string(), value: val.to_string() })
    } else {
        None
    }
}

fn find_indexes(param: &str) -> (r: (i8, i8))
    requires
        op_scan_len(param@) <= 128,
    ensures
        r.0 as int == op_scan(param@).0,
        r.1 as int == op_scan(param@).1,
{
    let cs = chars_of(param);
    let ghost s = param@;
    proof {
        lemma_first_op(s);
    }
    let n = cs.len();
    let mut key_end = -1i8;
    let mut idx = -1i8;
    let mut pre_c = ' ';
    let mut i: usize = 0;
    while i < n
        invariant
            n == cs@.len(),
            cs@ == s,
            s == param@,
            i <= n,
            idx as int == i - 1,
            op_scan_len(s) <= 128,
            match first_op(s) {
                Some(k) => 0 <= k < s.len() && is_op_char(s[k]) && forall|j: int|
                    0 <= j < k ==> !is_op_char(#[trigger] s[j]),
                None => forall|j: int| 0 <= j < s.len() ==> !is_op_char(#[trigger] s[j]),
            },
            key_end == -1 ==> forall|j: int| 0 <= j < i ==> !is_op_char(#[trigger] s[j]),
            key_end != -1 ==> first_op(s) == Some(key_end as int) && key_end as int == i - 1
                && pre_c == s[key_end as int],
        decreases n - i,
    {
        let c = cs[i];
        proof {
            if key_end == -1 {
                match first_op(s) {
                    Some(k) => {
                        assert(k >= i);
                    },
                    None => {},
                }
            }
        }
        idx = idx + 1;
        if key_end == -1i8 {
            if c == '=' || c == '!' || c == '<' || c == '>' || c == '~' || c == '|' {
                key_end = idx;
                pre_c = c;
                proof {
                    match first_op(s) {
                        Some(k) => {
                            assert(k == i);
                        },
                        None => {
                            assert(!is_op_char(s[i as int]));
                        },
                    }
                }
            }
        } else {
            proof {
                assert(first_op(s) == Some(i - 1));
                assert(i < s.len());
            }
            if c == '=' {
                proof {
                    assert(s[i as int] == '=');
                    assert(op_scan(s) == (i - 1, 2int));
                    assert(key_end as int == i - 1);
                }
                return (key_end, 2);
            } else {
                if pre_c == '=' || pre_c == '<' || pre_c == '>' {
                    return (key_end, 1);
                } else {
                    return (-1, -1);
                }
            }
        }
        i = i + 1;
    }
    proof {
        if key_end == -1 {
            match first_op(s) {
                Some(k) => {
                    assert(!is_op_char(s[k]));
                },
                None => {},
            }
        }
    }
    (key_end, -1)
}

/// The position of the first operator character, as `first_op` states.
fn first_op_exec(cs: &Vec<char>) -> (r: Option<usize>)
    ensures
        match r {
            Some(k) => first_op(cs@) == Some(k as int),
            None => first_op(cs@) is None,
        },
{
    proof {
        lemma_first_op(cs@);
    }
    let mut i: usize = 0;
    while i < cs.len()
        invariant
            i <= cs@.len(),
            forall|j: int| 0 <= j < i ==> !is_op_char(#[trigger] cs@[j]),
            match first_op(cs@) {
                Some(k) => 0 <= k < cs@.len() && is_op_char(cs@[k]) && forall|j: int|
                    0 <= j < k ==> !is_op_char(#[trigger] cs@[j]),
                None => forall|j: int| 0 <= j < cs@.len() ==> !is_op_char(#[trigger] cs@[j]),
            },
        decreases cs@.len() - i,
    {
        let c = cs[i];
        if c == '=' || c == '!' || c == '<' || c == '>' || c == '~' || c == '|' {
            proof {
                match first_op(cs@) {
                    Some(k) => {
                        if k < i {
                            assert(!is_op_char(cs@[k]));
                        } else if k > i {
                            assert(!is_op_char(cs@[i as int]));
                        }
                    },
                    None => {
                        assert(!is_op_char(cs@[i as int]));
                    },
                }
            }
            return Some(i);
        }
        i = i + 1;
    }
    proof {
        if let Some(k) = first_op(cs@) {
            assert(!is_op_char(cs@[k]));
        }
    }
    None
}

/// Whether parsing the filter expression `s` completes, as `param_fits` states.
pub fn fits(s: &str) -> (r: bool)
    ensures
        r == param_fits(s@),
{
    let cs = chars_of(s);
    let n = cs.len();
    proof {
        lemma_first_op(cs@);
    }
    let (k, l, scanned): (usize, usize, usize) = match first_op_exec(&cs) {
        None => (0, 0, n),
        Some(k) => {
            if k >= n - 1 {
                (0, 0, n)
            } else if cs[k + 1] == '=' {
                (k, 2, k + 2)
            } else if cs[k] == '=' || cs[k] == '<' || cs[k] == '>' {
                (k, 1, k + 2)
            } else {
                (0, 0, k + 2)
            }
        },
    };
    proof {
        lemma_first_op(cs@);
    }
    if scanned > 128 {
        return false;
    }
    if l == 0 {
        return true;
    }
    if !s.is_char_boundary(k) {
        return false;
    }
    let (_, rest) = s.split_at(k);
    proof {
        let b = encode_utf8(s@);
        assert(rest.spec_bytes() =~= b.subrange(k as int, b.len() as int));
    }
    rest.is_char_boundary(l)
}

} // verus!
