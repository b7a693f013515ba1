//! The texts of the error messages that the database operations give.
use vstd::prelude::*;
use crate::json::{lemma_items_view, lemma_members_view, Json, JsonV};
use crate::text::{
    all_digits, chars_of, decimal_value, digit_value, digits_value, i64_from_decimal, is_digit, piece,
    unsigned_body, views,
};
use vstd::string::*;

verus! {

broadcast use vstd::string::group_string_axioms;

/// What `format!("{:?}", s)` writes for a string `s`: its quoted, escaped form.
pub uninterp spec fn debug_text(s: Seq<char>) -> Seq<char>;

/// `format!("{:?}", s)`: std's `Debug` form of a string.
#[verifier::external_body]
pub(crate) fn debug_str(s: &str) -> (r: String)
    ensures
        r@ == debug_text(s@),
{
    format!("{:?}", s)
}

/// The decimal digit `d`.
pub open spec fn digit_char(d: int) -> char {
    "0123456789"@[d]
}

/// The decimal digits of `n`, as `Display` writes them.
pub open spec fn nat_text(n: nat) -> Seq<char>
    decreases n,
{
    if n < 10 {
        seq![digit_char(n as int)]
    } else {
        nat_text(n / 10).push(digit_char((n % 10) as int))
    }
}

/// An integer in decimal, with a `-` where it is negative.
pub open spec fn int_text(n: int) -> Seq<char> {
    if n < 0 {
        seq!['-'] + nat_text((-n) as nat)
    } else {
        nat_text(n as nat)
    }
}

/// The `Debug` form of a list of strings: `["a", "b"]`.
pub open spec fn strings_debug(s: Seq<Seq<char>>) -> Seq<char> {
    "["@ + joined_texts(s) + "]"@
}

/// The `Debug` forms of the strings, separated by `, `.
pub open spec fn joined_texts(s: Seq<Seq<char>>) -> Seq<char>
    decreases s.len(),
{
    if s.len() == 0 {
        Seq::empty()
    } else if s.len() == 1 {
        debug_text(s[0])
    } else {
        joined_texts(s.drop_last()) + ", "@ + debug_text(s.last())
    }
}

/// The hexadecimal digit `d`.
pub open spec fn hex_digit(d: int) -> char {
    "0123456789abcdef"@[d]
}

/// How a character stands in a JSON string: a quote and a backslash behind a
/// backslash, a control character as `\u00XX`, any other as itself.
pub open spec fn escaped(c: char) -> Seq<char> {
    if c == '"' {
        seq!['\\', '"']
    } else if c == '\\' {
        seq!['\\', '\\']
    } else if (c as u32) < 0x20 {
        seq!['\\', 'u', '0', '0', hex_digit(((c as u32) / 16) as int), hex_digit(((c as u32) % 16) as int)]
    } else {
        seq![c]
    }
}

/// The characters of a text, each as it stands in a JSON string.
pub open spec fn escape_all(s: Seq<char>) -> Seq<char>
    decreases s.len(),
{
    if s.len() == 0 {
        Seq::empty()
    } else {
        escape_all(s.drop_last()) + escaped(s.last())
    }
}

/// A text as a JSON string.
pub open spec fn quoted(s: Seq<char>) -> Seq<char> {
    seq!['"'] + escape_all(s) + seq!['"']
}

/// A value as JSON text, such as `{"id":1,"tags":["a"]}`.
pub open spec fn json_text(v: JsonV) -> Seq<char>
    decreases v, 1int,
{
    match v {
        JsonV::Null => "null"@,
        JsonV::Bool(b) => if b {
            "true"@
        } else {
            "false"@
        },
        JsonV::Number(n) => int_text(n as int),
        JsonV::Str(s) => quoted(s),
        JsonV::Array(items) => seq!['['] + items_text(items) + seq![']'],
        JsonV::Object(ms) => seq!['{'] + members_text(ms) + seq!['}'],
    }
}

/// The JSON texts of the values, separated by `,`.
pub open spec fn items_text(items: Seq<JsonV>) -> Seq<char>
    decreases items, 0int,
{
    if items.len() == 0 {
        Seq::empty()
    } else if items.len() == 1 {
        json_text(items[0])
    } else {
        items_text(items.drop_last()) + seq![','] + json_text(items.last())
    }
}

/// The members as JSON text, `"key":value`, separated by `,`.
pub open spec fn members_text(ms: Seq<(Seq<char>, JsonV)>) -> Seq<char>
    decreases ms, 0int,
{
    if ms.len() == 0 {
        Seq::empty()
    } else if ms.len() == 1 {
        quoted(ms[0].0) + seq![':'] + json_text(ms[0].1)
    } else {
        members_text(ms.drop_last()) + seq![','] + quoted(ms.last().0) + seq![':'] + json_text(
            ms.last().1,
        )
    }
}

/// What `serde_json` makes of a JSON text: the `Debug` form of the value that
/// `serde_json::from_str` reads from it, or nothing where it reads none.
pub uninterp spec fn value_debug(text: Seq<char>) -> Option<Seq<char>>;

/// `serde_json::from_str::<Value>(text)` and then `format!("{:?}", value)`;
/// nothing where the text does not parse.
#[verifier::external_body]
fn debug_of_json_text(text: &str) -> (r: Option<String>)
    ensures
        match r {
            Some(d) => value_debug(text@) == Some(d@),
            None => value_debug(text@) is None,
        },
{
    match serde_json::from_str::<serde_json::Value>(text) {
        Ok(v) => Some(format!("{:?}", v)),
        Err(_) => None,
    }
}

/// The `Debug` form that `serde_json` gives a value, such as
/// `Object {"id": Number(1)}`: that of the value read back from its JSON text
/// (the JSON text itself, should `serde_json` read none from it).
pub open spec fn record_debug(v: JsonV) -> Seq<char> {
    match value_debug(json_text(v)) {
        Some(d) => d,
        None => json_text(v),
    }
}

/// The decimal digits of `n`.
pub fn nat_digits(n: u64) -> (r: String)
    ensures
        r@ == nat_text(n as nat),
    decreases n,
{
    let digits = "0123456789";
    proof {
        reveal_strlit("0123456789");
    }
    if n < 10 {
        let d = n as usize;
        piece(digits, d, d + 1)
    } else {
        let mut s = nat_digits(n / 10);
        let d = (n % 10) as usize;
        let one = piece(digits, d, d + 1);
        s.append(one.as_str());
        s
    }
}

/// An integer in decimal.
pub fn int_digits(n: i64) -> (r: String)
    ensures
        r@ == int_text(n as int),
{
    if n < 0 {
        let m: u64 = (0i128 - n as i128) as u64;
        let mut s = "-".to_string();
        proof {
            reveal_strlit("-");
        }
        let d = nat_digits(m);
        s.append(d.as_str());
        s
    } else {
        nat_digits(n as u64)
    }
}

/// `format!("{:?}", keys)` for a list of strings.
pub fn keys_debug(keys: &Vec<String>) -> (r: String)
    ensures
        r@ == strings_debug(views(keys@)),
{
    let ghost ks = views(keys@);
    let mut s = String::new();
    let mut i: usize = 0;
    while i < keys.len()
        invariant
            i <= keys@.len(),
            ks == views(keys@),
            s@ == joined_texts(ks.take(i as int)),
        decreases keys@.len() - i,
    {
        proof {
            assert(ks.take(i + 1).drop_last() =~= ks.take(i as int));
            assert(ks.take(i + 1).last() == keys@[i as int]@);
        }
        if i > 0 {
            s.append(", ");
        }
        let d = debug_str(keys[i].as_str());
        s.append(d.as_str());
        proof {
            if i == 0 {
                assert(ks.take(1)[0] == keys@[0]@);
            }
        }
        i = i + 1;
    }
    proof {
        assert(ks.take(keys@.len() as int) =~= ks);
    }
    let mut r = "[".to_string();
    r.append(s.as_str());
    r.append("]");
    r
}

/// A value as JSON text, as `json_text` states.
pub fn to_json_text(v: &Json) -> (r: String)
    ensures
        r@ == json_text(v@),
    decreases v,
{
    proof {
        reveal_strlit("[");
        reveal_strlit("]");
        reveal_strlit("{");
        reveal_strlit("}");
        reveal_strlit(",");
        reveal_strlit(":");
    }
    match v {
        Json::Null => "null".to_string(),
        Json::Bool(b) => {
            if *b {
                "true".to_string()
            } else {
                "false".to_string()
            }
        },
        Json::Number(n) => int_digits(*n),
        Json::Str(t) => quote(t.as_str()),
        Json::Array(items) => {
            proof {
                lemma_items_view(items@);
            }
            let ghost iv = crate::json::items_view(items@);
            let mut s = String::new();
            let mut i: usize = 0;
            while i < items.len()
                invariant
                    *v == Json::Array(*items),
                    i <= items@.len(),
                    iv == crate::json::items_view(items@),
                    iv.len() == items@.len(),
                    forall|j: int| 0 <= j < items@.len() ==> #[trigger] iv[j] == items@[j]@,
                    s@ == items_text(iv.take(i as int)),
                decreases items@.len() - i,
            {
                proof {
                    assert(iv.take(i + 1).drop_last() =~= iv.take(i as int));
                    assert(iv.take(i + 1).last() == items@[i as int]@);
                    assert(decreases_to!(*v => (*v)->Array_0));
                    assert(decreases_to!(*items => items@));
                    assert(decreases_to!(items@ => items@[i as int]));
                }
                proof {
                    reveal_strlit(",");
                    reveal_strlit(":");
                }
                if i > 0 {
                    s.append(",");
                }
                let d = to_json_text(&items[i]);
                s.append(d.as_str());
                proof {
                    if i == 0 {
                        assert(iv.take(1)[0] == items@[0]@);
                    }
                }
                i = i + 1;
            }
            proof {
                assert(iv.take(items@.len() as int) =~= iv);
            }
            let mut r = "[".to_string();
            r.append(s.as_str());
            r.append("]");
            r
        },
        Json::Object(ms) => {
            proof {
                lemma_members_view(ms@);
            }
            let ghost mv = crate::json::members_view(ms@);
            let mut s = String::new();
            let mut i: usize = 0;
            while i < ms.len()
                invariant
                    *v == Json::Object(*ms),
                    i <= ms@.len(),
                    mv == crate::json::members_view(ms@),
                    mv.len() == ms@.len(),
                    forall|j: int| 0 <= j < ms@.len() ==> #[trigger] mv[j] == (ms@[j].0@, ms@[j].1@),
                    s@ == members_text(mv.take(i as int)),
                decreases ms@.len() - i,
            {
                proof {
                    assert(mv.take(i + 1).drop_last() =~= mv.take(i as int));
                    assert(mv.take(i + 1).last() == mv[i as int]);
                    assert(decreases_to!(*v => (*v)->Object_0));
                    assert(decreases_to!(*ms => ms@));
                    assert(decreases_to!(ms@ => ms@[i as int]));
                    assert(decreases_to!(ms@[i as int] => ms@[i as int].1));
                }
                proof {
                    reveal_strlit(",");
                    reveal_strlit(":");
                }
                if i > 0 {
                    s.append(",");
                }
                let k = quote(ms[i].0.as_str());
                s.append(k.as_str());
                s.append(":");
                let d = to_json_text(&ms[i].1);
                s.append(d.as_str());
                proof {
                    if i == 0 {
                        assert(mv.take(1)[0] == mv[0]);
                    }
                }
                i = i + 1;
            }
            proof {
                assert(mv.take(ms@.len() as int) =~= mv);
            }
            let mut r = "{".to_string();
            r.append(s.as_str());
            r.append("}");
            r
        },
    }
}

/// `format!("{:?}", value)` as `serde_json` writes it for the value.
pub fn json_debug_text(v: &Json) -> (r: String)
    ensures
        r@ == record_debug(v@),
{
    let t = to_json_text(v);
    match debug_of_json_text(t.as_str()) {
        Some(d) => d,
        None => t,
    }
}

/// How a character that a JSON string writes otherwise than as itself stands
/// there, as `escaped` states; nothing for any other character.
fn escape_char(c: char) -> (r: Option<String>)
    ensures
        match r {
            Some(x) => x@ == escaped(c),
            None => escaped(c) == seq![c],
        },
{
    let hex = "0123456789abcdef";
    proof {
        reveal_strlit("0123456789abcdef");
    }
    if c == '"' {
        let r = "\\\"".to_string();
        proof {
            reveal_strlit("\\\"");
            assert(r@ =~= seq!['\\', '"']);
        }
        Some(r)
    } else if c == '\\' {
        let r = "\\\\".to_string();
        proof {
            reveal_strlit("\\\\");
            assert(r@ =~= seq!['\\', '\\']);
        }
        Some(r)
    } else if (c as u32) < 0x20 {
        let mut r = "\\u00".to_string();
        proof {
            reveal_strlit("\\u00");
        }
        let hi = ((c as u32) / 16) as usize;
        let lo = ((c as u32) % 16) as usize;
        let h = piece(hex, hi, hi + 1);
        let l = piece(hex, lo, lo + 1);
        r.append(h.as_str());
        r.append(l.as_str());
        proof {
            assert(r@ =~= seq!['\\', 'u', '0', '0', hex_digit(((c as u32) / 16) as int), hex_digit(((c as u32) % 16) as int)]);
        }
        Some(r)
    } else {
        None
    }
}

/// A text as a JSON string, as `quoted` states.
fn quote(s: &str) -> (r: String)
    ensures
        r@ == quoted(s@),
{
    let cs = chars_of(s);
    let mut body = String::new();
    let mut i: usize = 0;
    proof {
        assert(cs@.take(0) =~= Seq::<char>::empty());
    }
    while i < cs.len()
        invariant
            i <= cs@.len(),
            cs@ == s@,
            body@ == escape_all(cs@.take(i as int)),
        decreases cs@.len() - i,
    {
        proof {
            assert(cs@.take(i + 1).drop_last() =~= cs@.take(i as int));
            assert(cs@.take(i + 1).last() == cs@[i as int]);
        }
        match escape_char(cs[i]) {
            Some(e) => body.append(e.as_str()),
            None => {
                let one = piece(s, i, i + 1);
                proof {
                    assert(one@ =~= seq![cs@[i as int]]);
                }
                body.append(one.as_str());
            },
        }
        i = i + 1;
    }
    proof {
        assert(cs@.take(cs@.len() as int) =~= cs@);
    }
    let mut r = "\"".to_string();
    proof {
        reveal_strlit("\"");
    }
    r.append(body.as_str());
    r.append("\"");
    proof {
        assert(r@ =~= quoted(s@));
    }
    r
}

pub proof fn lemma_digit_char(d: int)
    requires
        0 <= d < 10,
    ensures
        is_digit(digit_char(d)),
        digit_value(digit_char(d)) == d,
{
    reveal_strlit("0123456789");
    if d == 0 {
    } else if d == 1 {
    } else if d == 2 {
    } else if d == 3 {
    } else if d == 4 {
    } else if d == 5 {
    } else if d == 6 {
    } else if d == 7 {
    } else if d == 8 {
    } else {
    }
}

/// The decimal digits of `n` read back give `n`.
pub proof fn lemma_nat_text(n: nat)
    ensures
        nat_text(n).len() > 0,
        all_digits(nat_text(n)),
        digits_value(nat_text(n)) == n,
    decreases n,
{
    if n < 10 {
        lemma_digit_char(n as int);
        assert(nat_text(n).drop_last() =~= Seq::<char>::empty());
        assert(digits_value(Seq::<char>::empty()) == 0);
    } else {
        lemma_nat_text(n / 10);
        lemma_digit_char((n % 10) as int);
        let s = nat_text(n);
        assert(s.drop_last() =~= nat_text(n / 10));
        assert((n / 10) * 10 + n % 10 == n) by (nonlinear_arith);
        assert forall|i: int| 0 <= i < s.len() implies is_digit(#[trigger] s[i]) by {
            if i < s.len() - 1 {
                assert(s[i] == nat_text(n / 10)[i]);
            }
        }
    }
}

/// Reading back the decimal text of an integer gives the integer:
/// `i64::from_str_radix(&n.to_string(), 10) == Ok(n)`.
pub proof fn lemma_int_text_round_trip(n: i64)
    ensures
        i64_from_decimal(int_text(n as int)) == Some(n),
{
    if n < 0 {
        let m = (-n) as nat;
        lemma_nat_text(m);
        let s = int_text(n as int);
        assert(s.drop_first() =~= nat_text(m));
        assert(unsigned_body(s, true) == nat_text(m));
    } else {
        lemma_nat_text(n as nat);
        let s = int_text(n as int);
        lemma_digit_char(0);
        assert(is_digit(s[0]));
        assert(s[0] != '+' && s[0] != '-');
        assert(unsigned_body(s, true) == s);
    }
}

} // verus!
