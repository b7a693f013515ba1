use vstd::prelude::*;
use vstd::string::*;

verus! {

broadcast use vstd::string::group_string_axioms;

/// The text of each string of a sequence.
pub open spec fn views(v: Seq<String>) -> Seq<Seq<char>> {
    v.map_values(|x: String| x@)
}

/// The pieces of `s` between the occurrences of `d`, as `str::split` gives them:
/// a text without `d` is one piece, and each `d` starts a new piece.
pub open spec fn split_spec(s: Seq<char>, d: char) -> Seq<Seq<char>>
    decreases s.len(),
{
    if s.len() == 0 {
        seq![Seq::<char>::empty()]
    } else {
        let prev = split_spec(s.drop_last(), d);
        if s.last() == d {
            prev.push(Seq::<char>::empty())
        } else {
            prev.update(prev.len() - 1, prev.last().push(s.last()))
        }
    }
}

/// The texts of `s` that are not empty, in order.
pub open spec fn drop_empty(s: Seq<Seq<char>>) -> Seq<Seq<char>>
    decreases s.len(),
{
    if s.len() == 0 {
        s
    } else {
        let r = drop_empty(s.drop_last());
        if s.last().len() > 0 {
            r.push(s.last())
        } else {
            r
        }
    }
}

/// The position of the first `c` in `s`, if any.
pub open spec fn first_pos(s: Seq<char>, c: char) -> Option<int>
    decreases s.len(),
{
    if s.len() == 0 {
        None
    } else if s[0] == c {
        Some(0)
    } else {
        match first_pos(s.drop_first(), c) {
            Some(i) => Some(i + 1),
            None => None,
        }
    }
}

pub proof fn lemma_first_pos(s: Seq<char>, c: char)
    ensures
        match first_pos(s, c) {
            Some(i) => 0 <= i < s.len() && s[i] == c && forall|j: int| 0 <= j < i ==> s[j] != c,
            None => forall|j: int| 0 <= j < s.len() ==> s[j] != c,
        },
    decreases s.len(),
{
    if s.len() > 0 {
        lemma_first_pos(s.drop_first(), c);
        if s[0] != c {
            match first_pos(s.drop_first(), c) {
                Some(i) => {
                    assert forall|j: int| 0 <= j < i + 1 implies s[j] != c by {
                        if j > 0 {
                            assert(s[j] == s.drop_first()[j - 1]);
                        }
                    }
                },
                None => {
                    assert forall|j: int| 0 <= j < s.len() implies s[j] != c by {
                        if j > 0 {
                            assert(s[j] == s.drop_first()[j - 1]);
                        }
                    }
                },
            }
        }
    }
}

/// The first position holding `c`: the exact characterisation of `first_pos`.
pub proof fn lemma_first_pos_is(s: Seq<char>, c: char, i: int)
    requires
        0 <= i < s.len(),
        s[i] == c,
        forall|j: int| 0 <= j < i ==> s[j] != c,
    ensures
        first_pos(s, c) == Some(i),
{
    lemma_first_pos(s, c);
    match first_pos(s, c) {
        Some(k) => {
            if k < i {
                assert(s[k] != c);
            } else if k > i {
                assert(s[i] != c);
            }
        },
        None => {
            assert(s[i] != c);
        },
    }
}

pub proof fn lemma_first_pos_none(s: Seq<char>, c: char)
    requires
        forall|j: int| 0 <= j < s.len() ==> s[j] != c,
    ensures
        first_pos(s, c) is None,
{
    lemma_first_pos(s, c);
    if let Some(k) = first_pos(s, c) {
        assert(s[k] != c);
    }
}

/// The position of the first `c` among `s`.
pub fn find_char(s: &Vec<char>, c: char) -> (r: Option<usize>)
    ensures
        r matches Some(i) ==> first_pos(s@, c) == Some(i as int) && i < s@.len(),
        r is None ==> first_pos(s@, c) is None,
{
    let mut i: usize = 0;
    while i < s.len()
        invariant
            i <= s@.len(),
            forall|j: int| 0 <= j < i ==> s@[j] != c,
        decreases s@.len() - i,
    {
        if s[i] == c {
            proof {
                lemma_first_pos_is(s@, c, i as int);
            }
            return Some(i);
        }
        i = i + 1;
    }
    proof {
        lemma_first_pos_none(s@, c);
    }
    None
}

/// Keeps the strings that are not empty.
pub fn keep_nonempty(v: Vec<String>) -> (r: Vec<String>)
    ensures
        views(r@) == drop_empty(views(v@)),
{
    let mut r: Vec<String> = Vec::new();
    let n = v.len();
    let mut i: usize = 0;
    while i < n
        invariant
            n == v@.len(),
            i <= n,
            views(r@) == drop_empty(views(v@.take(i as int))),
        decreases n - i,
    {
        proof {
            assert(views(v@.take(i + 1)).drop_last() =~= views(v@.take(i as int)));
            assert(views(v@.take(i + 1)).last() == v@[i as int]@);
        }
        if !v[i].as_str().is_empty() {
            let x = v[i].clone();
            proof {
                assert(views(r@.push(x)) =~= views(r@).push(x@));
            }
            r.push(x);
        }
        i = i + 1;
    }
    proof {
        assert(v@.take(n as int) =~= v@);
    }
    r
}

pub proof fn lemma_split_len(s: Seq<char>, d: char)
    ensures
        split_spec(s, d).len() >= 1,
    decreases s.len(),
{
    if s.len() > 0 {
        lemma_split_len(s.drop_last(), d);
    }
}

/// The characters of a string, one by one.
pub fn chars_of(s: &str) -> (v: Vec<char>)
    ensures
        v@ == s@,
{
    let mut v: Vec<char> = Vec::new();
    for c in it: s.chars()
        invariant
            v@ == it.seq().take(it.index() as int),
            it.seq() == s@,
    {
        v.push(c);
    }
    v
}

/// An owned copy of the characters `from..to` of `s`.
pub fn piece(s: &str, from: usize, to: usize) -> (r: String)
    requires
        from <= to <= s@.len(),
    ensures
        r@ == s@.subrange(from as int, to as int),
{
    let sub = s.substring_char(from, to);
    sub.to_string()
}

/// Splits `s` at each occurrence of `d`.
pub fn split_by(s: &str, d: char) -> (r: Vec<String>)
    ensures
        views(r@) == split_spec(s@, d),
{
    let cs = chars_of(s);
    let n = cs.len();
    let mut r: Vec<String> = Vec::new();
    let mut start: usize = 0;
    let mut i: usize = 0;
    proof {
        assert(s@.take(0) =~= Seq::<char>::empty());
        assert(views(r@).push(s@.subrange(0, 0)) =~= seq![Seq::<char>::empty()]);
    }
    while i < n
        invariant
            n == cs@.len(),
            cs@ == s@,
            start <= i <= n,
            views(r@).push(s@.subrange(start as int, i as int)) == split_spec(s@.take(i as int), d),
        decreases n - i,
    {
        proof {
            assert(s@.take(i + 1).drop_last() =~= s@.take(i as int));
            lemma_split_len(s@.take(i as int), d);
        }
        if cs[i] == d {
            let p = piece(s, start, i);
            proof {
                assert(views(r@.push(p)) =~= views(r@).push(p@));
            }
            r.push(p);
            start = i + 1;
            proof {
                assert(s@.subrange(start as int, start as int) =~= Seq::<char>::empty());
                assert(views(r@).push(s@.subrange(start as int, i + 1)) =~= split_spec(s@.take(i + 1), d));
            }
        } else {
            proof {
                assert(s@.subrange(start as int, i + 1) =~= s@.subrange(start as int, i as int).push(s@[i as int]));
                assert(views(r@).push(s@.subrange(start as int, i + 1)) =~= split_spec(s@.take(i + 1), d));
            }
        }
        i = i + 1;
    }
    let p = piece(s, start, n);
    proof {
        assert(s@.take(n as int) =~= s@);
        assert(views(r@.push(p)) =~= views(r@).push(p@));
    }
    r.push(p);
    r
}

pub open spec fn is_digit(c: char) -> bool {
    '0' <= c <= '9'
}

pub open spec fn digit_value(c: char) -> int {
    c as int - '0' as int
}

pub open spec fn all_digits(s: Seq<char>) -> bool {
    forall|i: int| 0 <= i < s.len() ==> is_digit(#[trigger] s[i])
}

/// The number that a text of decimal digits writes.
pub open spec fn digits_value(s: Seq<char>) -> int
    decreases s.len(),
{
    if s.len() == 0 {
        0
    } else {
        digits_value(s.drop_last()) * 10 + digit_value(s.last())
    }
}

/// The digits that `from_str_radix(s, 10)` reads, once a leading sign is set aside.
/// A sign is set aside only where something follows it, and a `-` only where
/// `signed` holds.
pub open spec fn unsigned_body(s: Seq<char>, signed: bool) -> Seq<char> {
    if s.len() > 1 && (s[0] == '+' || (signed && s[0] == '-')) {
        s.drop_first()
    } else {
        s
    }
}

/// The value that `from_str_radix(s, 10)` reads from `s` before checking the
/// range of the target type; `None` where `s` is empty or holds a character that
/// is not a digit.
pub open spec fn decimal_value(s: Seq<char>, signed: bool) -> Option<int> {
    let body = unsigned_body(s, signed);
    if s.len() > 0 && body.len() > 0 && all_digits(body) {
        if signed && s.len() > 1 && s[0] == '-' {
            Some(-digits_value(body))
        } else {
            Some(digits_value(body))
        }
    } else {
        None
    }
}

/// What `u8::from_str_radix(s, 10)` returns, as an option.
pub open spec fn u8_from_decimal(s: Seq<char>) -> Option<u8> {
    match decimal_value(s, false) {
        Some(v) => if 0 <= v <= 255 { Some(v as u8) } else { None },
        None => None,
    }
}

/// What `i64::from_str_radix(s, 10)` returns, as an option.
pub open spec fn i64_from_decimal(s: Seq<char>) -> Option<i64> {
    match decimal_value(s, true) {
        Some(v) => if i64::MIN <= v <= i64::MAX { Some(v as i64) } else { None },
        None => None,
    }
}

pub proof fn lemma_digits_value_nonneg(s: Seq<char>)
    requires
        all_digits(s),
    ensures
        digits_value(s) >= 0,
    decreases s.len(),
{
    if s.len() > 0 {
        lemma_digits_value_nonneg(s.drop_last());
    }
}

/// Reading more digits never lowers the value.
pub proof fn lemma_digits_value_prefix(s: Seq<char>, k: int)
    requires
        all_digits(s),
        0 <= k <= s.len(),
    ensures
        digits_value(s.take(k)) <= digits_value(s),
    decreases s.len() - k,
{
    if k < s.len() {
        lemma_digits_value_prefix(s, k + 1);
        assert(s.take(k + 1).drop_last() =~= s.take(k));
        assert(is_digit(s[k]));
        lemma_digits_value_nonneg(s.take(k));
    } else {
        assert(s.take(k) =~= s);
    }
}

/// Reads the decimal digits `cs[from..]` while the value stays at most `bound`.
/// Returns `None` where one is not a digit or the value passes `bound`.
fn read_digits(cs: &Vec<char>, from: usize, bound: u128) -> (r: Option<u128>)
    requires
        from < cs@.len(),
        bound < u128::MAX / 16,
    ensures
        match r {
            Some(v) => all_digits(cs@.skip(from as int)) && v == digits_value(cs@.skip(from as int))
                && v <= bound,
            None => !all_digits(cs@.skip(from as int)) || digits_value(cs@.skip(from as int)) > bound,
        },
{
    let ghost body = cs@.skip(from as int);
    let n = cs.len();
    let mut acc: u128 = 0;
    let mut i: usize = from;
    while i < n
        invariant
            n == cs@.len(),
            from <= i <= n,
            body == cs@.skip(from as int),
            all_digits(body.take(i - from)),
            acc == digits_value(body.take(i - from)),
            acc <= bound,
            bound < u128::MAX / 16,
        decreases n - i,
    {
        let c = cs[i];
        proof {
            assert(body.take(i - from + 1).drop_last() =~= body.take(i - from));
            assert(body.take(i - from + 1).last() == c);
        }
        if !('0' <= c && c <= '9') {
            proof {
                assert(!is_digit(body[i - from]));
            }
            return None;
        }
        let d = (c as u32 - '0' as u32) as u128;
        acc = acc * 10 + d;
        proof {
            assert(all_digits(body.take(i - from + 1)));
        }
        if acc > bound {
            proof {
                if all_digits(body) {
                    lemma_digits_value_prefix(body, i - from + 1);
                }
            }
            return None;
        }
        i = i + 1;
    }
    proof {
        assert(body.take(n - from) =~= body);
    }
    Some(acc)
}

/// `u8::from_str_radix(s, 10)`, read as an option.
pub fn parse_u8(s: &str) -> (r: Option<u8>)
    ensures
        r == u8_from_decimal(s@),
{
    let cs = chars_of(s);
    if cs.len() == 0 {
        return None;
    }
    let from: usize = if cs.len() > 1 && cs[0] == '+' { 1 } else { 0 };
    proof {
        assert(cs@.skip(from as int) =~= unsigned_body(s@, false));
    }
    match read_digits(&cs, from, 255) {
        Some(v) => Some(v as u8),
        None => None,
    }
}

/// `i64::from_str_radix(s, 10)`, read as an option.
pub fn parse_i64(s: &str) -> (r: Option<i64>)
    ensures
        r == i64_from_decimal(s@),
{
    let cs = chars_of(s);
    if cs.len() == 0 {
        return None;
    }
    let negative = cs.len() > 1 && cs[0] == '-';
    let from: usize = if cs.len() > 1 && (cs[0] == '+' || cs[0] == '-') { 1 } else { 0 };
    proof {
        assert(cs@.skip(from as int) =~= unsigned_body(s@, true));
    }
    let bound: u128 = if negative { 9223372036854775808 } else { 9223372036854775807 };
    match read_digits(&cs, from, bound) {
        Some(v) => {
            if negative {
                if v == 9223372036854775808 {
                    Some(i64::MIN)
                } else {
                    Some(-(v as i64))
                }
            } else {
                Some(v as i64)
            }
        },
        None => None,
    }
}

/// Whether two texts are the same.
pub fn text_eq(a: &str, b: &str) -> (r: bool)
    ensures
        r == (a@ == b@),
{
    let x = chars_of(a);
    let y = chars_of(b);
    if x.len() != y.len() {
        return false;
    }
    let mut i: usize = 0;
    while i < x.len()
        invariant
            x@ == a@,
            y@ == b@,
            x@.len() == y@.len(),
            i <= x@.len(),
            forall|j: int| 0 <= j < i ==> x@[j] == y@[j],
        decreases x@.len() - i,
    {
        if x[i] != y[i] {
            return false;
        }
        i = i + 1;
    }
    proof {
        assert(x@ =~= y@);
    }
    true
}

/// Whether `t` is a prefix of `s`.
pub open spec fn starts_with_spec(s: Seq<char>, t: Seq<char>) -> bool {
    t.len() <= s.len() && s.take(t.len() as int) == t
}

/// Whether `t` occurs in `s` as a run of consecutive characters.
pub open spec fn contains_spec(s: Seq<char>, t: Seq<char>) -> bool {
    exists|i: int| 0 <= i && i + t.len() <= s.len() && #[trigger] s.subrange(i, i + t.len()) == t
}

/// Whether `t` occurs in `s` at position `at`.
fn occurs_at(s: &Vec<char>, t: &Vec<char>, at: usize) -> (r: bool)
    requires
        at + t@.len() <= s@.len(),
    ensures
        r == (s@.subrange(at as int, at + t@.len()) == t@),
{
    let n = s.len();
    let mut j: usize = 0;
    while j < t.len()
        invariant
            n == s@.len(),
            j <= t@.len(),
            at + t@.len() <= s@.len(),
            forall|k: int| 0 <= k < j ==> s@[at + k] == t@[k],
        decreases t@.len() - j,
    {
        if s[at + j] != t[j] {
            proof {
                assert(s@.subrange(at as int, at + t@.len())[j as int] != t@[j as int]);
            }
            return false;
        }
        j = j + 1;
    }
    proof {
        assert(s@.subrange(at as int, at + t@.len()) =~= t@);
    }
    true
}

/// `str::starts_with`.
pub fn starts_with(s: &str, t: &str) -> (r: bool)
    ensures
        r == starts_with_spec(s@, t@),
{
    let x = chars_of(s);
    let y = chars_of(t);
    if y.len() > x.len() {
        return false;
    }
    let r = occurs_at(&x, &y, 0);
    proof {
        assert(x@.subrange(0, y@.len() as int) =~= x@.take(y@.len() as int));
    }
    r
}

/// `str::contains` for a text pattern.
pub fn contains(s: &str, t: &str) -> (r: bool)
    ensures
        r == contains_spec(s@, t@),
{
    let x = chars_of(s);
    let y = chars_of(t);
    if y.len() > x.len() {
        proof {
            assert forall|i: int| 0 <= i && i + y@.len() <= x@.len() implies #[trigger] x@.subrange(i, i + y@.len()) != y@ by {}
        }
        return false;
    }
    let last = x.len() - y.len();
    let mut at: usize = 0;
    loop
        invariant
            x@ == s@,
            y@ == t@,
            last == x@.len() - y@.len(),
            y@.len() <= x@.len(),
            at <= last,
            forall|i: int| 0 <= i < at ==> #[trigger] x@.subrange(i, i + y@.len()) != y@,
        decreases last - at,
    {
        if occurs_at(&x, &y, at) {
            return true;
        }
        if at == last {
            return false;
        }
        at = at + 1;
    }
}

/// The outcome of comparing two values.
#[derive(Debug, Clone, Copy, PartialEq, Eq, Structural)]
pub enum Order {
    Less,
    Equal,
    Greater,
}

/// Compares two texts character by character, as `str::cmp` does.
pub open spec fn text_order(a: Seq<char>, b: Seq<char>) -> Order
    decreases a.len(),
{
    if a.len() == 0 {
        if b.len() == 0 {
            Order::Equal
        } else {
            Order::Less
        }
    } else if b.len() == 0 {
        Order::Greater
    } else if (a[0] as u32) < (b[0] as u32) {
        Order::Less
    } else if (a[0] as u32) > (b[0] as u32) {
        Order::Greater
    } else {
        text_order(a.drop_first(), b.drop_first())
    }
}

/// Compares two texts, as `text_order` states.
pub fn compare_texts(a: &String, b: &String) -> (r: Order)
    ensures
        r == text_order(a@, b@),
{
    let x = chars_of(a.as_str());
    let y = chars_of(b.as_str());
    let mut i: usize = 0;
    proof {
        assert(x@.skip(0) =~= x@);
        assert(y@.skip(0) =~= y@);
    }
    while i < x.len() && i < y.len()
        invariant
            x@ == a@,
            y@ == b@,
            i <= x@.len(),
            i <= y@.len(),
            text_order(a@, b@) == text_order(x@.skip(i as int), y@.skip(i as int)),
        decreases x@.len() - i,
    {
        proof {
            assert(x@.skip(i as int)[0] == x@[i as int]);
            assert(y@.skip(i as int)[0] == y@[i as int]);
            assert(x@.skip(i as int).drop_first() =~= x@.skip(i + 1));
            assert(y@.skip(i as int).drop_first() =~= y@.skip(i + 1));
        }
        let c = x[i];
        let d = y[i];
        if (c as u32) < (d as u32) {
            return Order::Less;
        } else if (c as u32) > (d as u32) {
            return Order::Greater;
        }
        i = i + 1;
    }
    if i < x.len() {
        Order::Greater
    } else if i < y.len() {
        Order::Less
    } else {
        Order::Equal
    }
}

/// Comparing two texts the other way round swaps `Less` and `Greater`, and
/// two texts compare `Equal` exactly where they are the same.
pub proof fn lemma_text_order_flip(a: Seq<char>, b: Seq<char>)
    ensures
        text_order(a, b) == Order::Less <==> text_order(b, a) == Order::Greater,
        text_order(a, b) == Order::Equal <==> a == b,
    decreases a.len(),
{
    if a.len() == 0 || b.len() == 0 {
        if a.len() == 0 && b.len() == 0 {
            assert(a =~= b);
        }
    } else {
        let (x, y) = (a[0], b[0]);
        vstd::utf8::char_u32_cast(x, x as u32);
        vstd::utf8::char_u32_cast(y, y as u32);
        if x as u32 == y as u32 {
            assert(x == y);
            lemma_text_order_flip(a.drop_first(), b.drop_first());
            if a.drop_first() == b.drop_first() {
                assert(a =~= seq![x] + a.drop_first());
                assert(b =~= seq![y] + b.drop_first());
            }
        }
    }
}

/// "Comes before" on texts is transitive.
pub proof fn lemma_text_order_trans(a: Seq<char>, b: Seq<char>, c: Seq<char>)
    requires
        text_order(a, b) == Order::Less,
        text_order(b, c) == Order::Less,
    ensures
        text_order(a, c) == Order::Less,
    decreases a.len(),
{
    if a.len() > 0 && b.len() > 0 && c.len() > 0 && a[0] as u32 == b[0] as u32 && b[0] as u32
        == c[0] as u32 {
        lemma_text_order_trans(a.drop_first(), b.drop_first(), c.drop_first());
    }
}

/// The texts of `parts` joined with `d` between them.
pub open spec fn join_with(parts: Seq<Seq<char>>, d: char) -> Seq<char>
    decreases parts.len(),
{
    if parts.len() == 0 {
        Seq::empty()
    } else if parts.len() == 1 {
        parts[0]
    } else {
        join_with(parts.drop_last(), d) + seq![d] + parts.last()
    }
}

/// No piece of a split holds the separator.
pub proof fn lemma_split_pieces_free(s: Seq<char>, d: char)
    ensures
        forall|i: int| 0 <= i < split_spec(s, d).len() ==> !(#[trigger] split_spec(s, d)[i]).contains(d),
    decreases s.len(),
{
    if s.len() > 0 {
        let prev = split_spec(s.drop_last(), d);
        lemma_split_pieces_free(s.drop_last(), d);
        lemma_split_len(s.drop_last(), d);
        let r = split_spec(s, d);
        assert forall|i: int| 0 <= i < r.len() implies !(#[trigger] r[i]).contains(d) by {
            if i < prev.len() - 1 || (s.last() == d && i < prev.len()) {
                assert(r[i] == prev[i]);
            } else if s.last() == d {
                assert(r[i] =~= Seq::<char>::empty());
            } else {
                let w = prev.last().push(s.last());
                assert(r[i] == w);
                assert(!prev[prev.len() - 1].contains(d));
                assert forall|j: int| 0 <= j < w.len() implies w[j] != d by {
                    if j < w.len() - 1 {
                        assert(w[j] == prev.last()[j]);
                    }
                }
            }
        }
    }
}

/// The texts that `drop_empty` keeps are texts of the list, none of them empty.
pub proof fn lemma_drop_empty_kept(s: Seq<Seq<char>>)
    ensures
        forall|i: int| 0 <= i < drop_empty(s).len() ==> (#[trigger] drop_empty(s)[i]).len() > 0
            && exists|j: int| 0 <= j < s.len() && drop_empty(s)[i] == s[j],
    decreases s.len(),
{
    if s.len() > 0 {
        lemma_drop_empty_kept(s.drop_last());
        let r0 = drop_empty(s.drop_last());
        let r = drop_empty(s);
        assert forall|i: int| 0 <= i < r.len() implies (#[trigger] r[i]).len() > 0 && exists|j: int|
            0 <= j < s.len() && r[i] == s[j] by {
            if i < r0.len() {
                assert(r[i] == r0[i]);
                let j = choose|j: int| 0 <= j < s.drop_last().len() && r0[i] == s.drop_last()[j];
                assert(s[j] == s.drop_last()[j]);
            } else {
                assert(r[i] == s[s.len() - 1]);
            }
        }
    }
}

/// A list of texts none of which is empty is what `drop_empty` keeps of it.
pub proof fn lemma_drop_empty_same(s: Seq<Seq<char>>)
    requires
        forall|i: int| 0 <= i < s.len() ==> (#[trigger] s[i]).len() > 0,
    ensures
        drop_empty(s) == s,
    decreases s.len(),
{
    if s.len() > 0 {
        lemma_drop_empty_same(s.drop_last());
        assert(s.drop_last().push(s.last()) =~= s);
    }
}

/// A text without `d` splits into itself.
pub proof fn lemma_split_free(w: Seq<char>, d: char)
    requires
        !w.contains(d),
    ensures
        split_spec(w, d) == seq![w],
    decreases w.len(),
{
    if w.len() > 0 {
        assert(!w.drop_last().contains(d)) by {
            assert forall|j: int| 0 <= j < w.drop_last().len() implies w.drop_last()[j] != d by {
                assert(w.drop_last()[j] == w[j]);
            }
        }
        lemma_split_free(w.drop_last(), d);
        assert(w[w.len() - 1] != d);
        assert(w.drop_last().push(w.last()) =~= w);
        let prev = seq![w.drop_last()];
        assert(prev.update(0, prev.last().push(w.last())) =~= seq![w]);
    } else {
        assert(w =~= Seq::<char>::empty());
    }
}

/// Splitting at a separator splits the two sides apart.
pub proof fn lemma_split_concat(t: Seq<char>, u: Seq<char>, d: char)
    ensures
        split_spec(t + seq![d] + u, d) == split_spec(t, d) + split_spec(u, d),
    decreases u.len(),
{
    let whole = t + seq![d] + u;
    if u.len() == 0 {
        assert(whole =~= t.push(d));
        assert(whole.drop_last() =~= t);
        assert(split_spec(u, d) =~= seq![Seq::<char>::empty()]);
        assert(split_spec(t, d).push(Seq::<char>::empty()) =~= split_spec(t, d) + split_spec(u, d));
    } else {
        let u0 = u.drop_last();
        lemma_split_concat(t, u0, d);
        lemma_split_len(u0, d);
        assert(whole.drop_last() =~= t + seq![d] + u0);
        assert(whole.last() == u.last());
        let a = split_spec(t, d);
        let b = split_spec(u0, d);
        if u.last() == d {
            assert((a + b).push(Seq::<char>::empty()) =~= a + b.push(Seq::<char>::empty()));
        } else {
            assert((a + b).update((a + b).len() - 1, (a + b).last().push(u.last())) =~= a + b.update(
                b.len() - 1,
                b.last().push(u.last()),
            ));
        }
    }
}

/// Joining texts that are not empty and hold no `d` with `d`, and splitting
/// the result at `d`, gives the texts back.
pub proof fn lemma_split_join(parts: Seq<Seq<char>>, d: char)
    requires
        parts.len() > 0,
        forall|i: int| 0 <= i < parts.len() ==> !(#[trigger] parts[i]).contains(d),
    ensures
        split_spec(join_with(parts, d), d) == parts,
    decreases parts.len(),
{
    if parts.len() == 1 {
        lemma_split_free(parts[0], d);
        assert(seq![parts[0]] =~= parts);
    } else {
        let q = parts.drop_last();
        assert forall|i: int| 0 <= i < q.len() implies !(#[trigger] q[i]).contains(d) by {
            assert(q[i] == parts[i]);
        }
        lemma_split_join(q, d);
        lemma_split_concat(join_with(q, d), parts.last(), d);
        lemma_split_free(parts.last(), d);
        assert(q + seq![parts.last()] =~= parts);
    }
}

} // verus!
