//! A JSON grammar over bytes: which byte strings are JSON documents, where
//! each value in them starts and ends, and which members an object has.
//!
//! Positions are byte offsets. A value is recognised starting at its first
//! byte; whitespace around values belongs to the enclosing structure.

use vstd::prelude::*;

verus! {

pub open spec fn is_ws(b: u8) -> bool {
    b == 32 || b == 9 || b == 10 || b == 13
}

pub open spec fn is_digit(b: u8) -> bool {
    48 <= b <= 57
}

pub open spec fn is_hex(b: u8) -> bool {
    is_digit(b) || (65 <= b <= 70) || (97 <= b <= 102)
}

/// The bytes that may follow a backslash on their own: `" \ / b f n r t`.
pub open spec fn is_simple_escape(b: u8) -> bool {
    b == 34 || b == 92 || b == 47 || b == 98 || b == 102 || b == 110 || b == 114 || b == 116
}

/// The first position at or after `i` that holds no whitespace.
pub open spec fn skip_ws(s: Seq<u8>, i: int) -> int
    decreases s.len() - i,
{
    if 0 <= i < s.len() && is_ws(s[i]) {
        skip_ws(s, i + 1)
    } else {
        i
    }
}

/// The first position at or after `i` that holds no decimal digit.
pub open spec fn digits_end(s: Seq<u8>, i: int) -> int
    decreases s.len() - i,
{
    if 0 <= i < s.len() && is_digit(s[i]) {
        digits_end(s, i + 1)
    } else {
        i
    }
}

/// The end of a string whose body starts at `j` (just past the opening
/// quote): the position past the closing quote.
pub open spec fn string_end(s: Seq<u8>, j: int) -> Option<int>
    decreases s.len() - j,
{
    if j < 0 || j >= s.len() {
        None
    } else if s[j] == 34 {
        Some(j + 1)
    } else if s[j] == 92 {
        if j + 1 < s.len() && is_simple_escape(s[j + 1]) {
            string_end(s, j + 2)
        } else if j + 5 < s.len() && s[j + 1] == 117 && is_hex(s[j + 2]) && is_hex(s[j + 3])
            && is_hex(s[j + 4]) && is_hex(s[j + 5]) {
            string_end(s, j + 6)
        } else {
            None
        }
    } else if s[j] < 32 {
        None
    } else {
        string_end(s, j + 1)
    }
}

/// The end of the optional fraction and exponent of a number whose integer
/// part ends at `b`.
pub open spec fn number_tail(s: Seq<u8>, b: int) -> Option<int> {
    let c = if b < s.len() && s[b] == 46 {
        if b + 1 < s.len() && is_digit(s[b + 1]) {
            Some(digits_end(s, b + 1))
        } else {
            None
        }
    } else {
        Some(b)
    };
    match c {
        None => None,
        Some(c) => if c < s.len() && (s[c] == 101 || s[c] == 69) {
            let d = if c + 1 < s.len() && (s[c + 1] == 43 || s[c + 1] == 45) {
                c + 2
            } else {
                c + 1
            };
            if d < s.len() && is_digit(s[d]) {
                Some(digits_end(s, d))
            } else {
                None
            }
        } else {
            Some(c)
        },
    }
}

/// The end of a number that starts at `i`: an optional minus, an integer
/// part without leading zeros, an optional fraction, an optional exponent.
pub open spec fn number_end(s: Seq<u8>, i: int) -> Option<int> {
    let a = if 0 <= i < s.len() && s[i] == 45 {
        i + 1
    } else {
        i
    };
    if !(0 <= a < s.len() && is_digit(s[a])) {
        None
    } else {
        let b = if s[a] == 48 {
            a + 1
        } else {
            digits_end(s, a)
        };
        number_tail(s, b)
    }
}

/// Whether the bytes of `lit` stand at `i`.
pub open spec fn literal_at(s: Seq<u8>, i: int, lit: Seq<u8>) -> bool {
    0 <= i && i + lit.len() <= s.len() && s.subrange(i, i + lit.len()) == lit
}

pub open spec fn true_bytes() -> Seq<u8> {
    seq![116u8, 114u8, 117u8, 101u8]
}

pub open spec fn false_bytes() -> Seq<u8> {
    seq![102u8, 97u8, 108u8, 115u8, 101u8]
}

pub open spec fn null_bytes() -> Seq<u8> {
    seq![110u8, 117u8, 108u8, 108u8]
}

pub proof fn lemma_skip_ws_ge(s: Seq<u8>, i: int)
    ensures
        skip_ws(s, i) >= i,
        skip_ws(s, i) >= s.len() || i < 0 || !is_ws(s[skip_ws(s, i)]),
        skip_ws(s, i) == i || skip_ws(s, i) <= s.len(),
    decreases s.len() - i,
{
    if 0 <= i < s.len() && is_ws(s[i]) {
        lemma_skip_ws_ge(s, i + 1);
    }
}

pub proof fn lemma_digits_end(s: Seq<u8>, i: int)
    ensures
        digits_end(s, i) >= i,
        forall|x: int| i <= x < digits_end(s, i) ==> is_digit(#[trigger] s[x]),
        digits_end(s, i) == i || digits_end(s, i) <= s.len(),
    decreases s.len() - i,
{
    if 0 <= i < s.len() && is_digit(s[i]) {
        lemma_digits_end(s, i + 1);
    }
}

pub proof fn lemma_string_end_gt(s: Seq<u8>, j: int)
    ensures
        string_end(s, j) matches Some(e) ==> j < e <= s.len(),
    decreases s.len() - j,
{
    if 0 <= j < s.len() {
        if s[j] == 92 {
            if j + 1 < s.len() && is_simple_escape(s[j + 1]) {
                lemma_string_end_gt(s, j + 2);
            } else if j + 5 < s.len() {
                lemma_string_end_gt(s, j + 6);
            }
        } else if s[j] != 34 {
            lemma_string_end_gt(s, j + 1);
        }
    }
}

/// A member of an object: where its key's text lies (between the quotes) and
/// where its value lies.
pub struct Member {
    pub key_start: int,
    pub key_end: int,
    pub value_start: int,
    pub value_end: int,
}

/// The end of the value that starts at `i`.
pub open spec fn value_end(s: Seq<u8>, i: int) -> Option<int>
    decreases s.len() - i, 0int,
{
    if i < 0 || i >= s.len() {
        None
    } else if s[i] == 123 {
        match object_members(s, i + 1, true) {
            Some((_, e)) => Some(e),
            None => None,
        }
    } else if s[i] == 91 {
        array_end(s, i + 1, true)
    } else if s[i] == 34 {
        string_end(s, i + 1)
    } else if s[i] == 116 {
        if literal_at(s, i, true_bytes()) { Some(i + 4) } else { None }
    } else if s[i] == 102 {
        if literal_at(s, i, false_bytes()) { Some(i + 5) } else { None }
    } else if s[i] == 110 {
        if literal_at(s, i, null_bytes()) { Some(i + 4) } else { None }
    } else if s[i] == 45 || is_digit(s[i]) {
        number_end(s, i)
    } else {
        None
    }
}

/// The members of an object from position `p` on (just past the opening
/// brace when `first`, just past a comma otherwise), and the position past
/// the closing brace.
pub open spec fn object_members(s: Seq<u8>, p: int, first: bool) -> Option<(Seq<Member>, int)>
    decreases s.len() - p, 1int,
{
    let k = skip_ws(s, p);
    if first && 0 <= k < s.len() && s[k] == 125 {
        Some((Seq::empty(), k + 1))
    } else if !(0 <= k < s.len() && s[k] == 34) {
        None
    } else {
        match string_end(s, k + 1) {
            None => None,
            Some(ke) => {
                let c = skip_ws(s, ke);
                if !(0 <= c < s.len() && s[c] == 58) {
                    None
                } else {
                    let vs = skip_ws(s, c + 1);
                    proof {
                        lemma_skip_ws_ge(s, p);
                        lemma_string_end_gt(s, k + 1);
                        lemma_skip_ws_ge(s, ke);
                        lemma_skip_ws_ge(s, c + 1);
                    }
                    match value_end(s, vs) {
                        None => None,
                        Some(ve) => if ve <= vs {
                            None
                        } else {
                            let m = Member { key_start: k + 1, key_end: ke - 1, value_start: vs, value_end: ve };
                            let t = skip_ws(s, ve);
                            proof {
                                lemma_skip_ws_ge(s, ve);
                            }
                            if 0 <= t < s.len() && s[t] == 44 {
                                match object_members(s, t + 1, false) {
                                    Some((rest, e)) => Some((seq![m] + rest, e)),
                                    None => None,
                                }
                            } else if 0 <= t < s.len() && s[t] == 125 {
                                Some((seq![m], t + 1))
                            } else {
                                None
                            }
                        },
                    }
                }
            },
        }
    }
}

/// The position past the closing bracket of an array whose elements start
/// at `p` (just past the opening bracket when `first`, just past a comma
/// otherwise).
pub open spec fn array_end(s: Seq<u8>, p: int, first: bool) -> Option<int>
    decreases s.len() - p, 1int,
{
    let k = skip_ws(s, p);
    proof {
        lemma_skip_ws_ge(s, p);
    }
    if first && 0 <= k < s.len() && s[k] == 93 {
        Some(k + 1)
    } else {
        match value_end(s, k) {
            None => None,
            Some(ve) => if ve <= k {
                None
            } else {
                let t = skip_ws(s, ve);
                proof {
                    lemma_skip_ws_ge(s, ve);
                }
                if 0 <= t < s.len() && s[t] == 44 {
                    array_end(s, t + 1, false)
                } else if 0 <= t < s.len() && s[t] == 93 {
                    Some(t + 1)
                } else {
                    None
                }
            },
        }
    }
}

/// Where the single value of a JSON document starts, when `s` is one: a
/// value with nothing but whitespace around it.
pub open spec fn document_start(s: Seq<u8>) -> Option<int> {
    let i = skip_ws(s, 0);
    match value_end(s, i) {
        Some(e) => if skip_ws(s, e) == s.len() { Some(i) } else { None },
        None => None,
    }
}


/// Where a member lies, as byte offsets.
pub struct MemberSpan {
    pub key_start: usize,
    pub key_end: usize,
    pub value_start: usize,
    pub value_end: usize,
}

impl View for MemberSpan {
    type V = Member;

    open spec fn view(&self) -> Member {
        Member {
            key_start: self.key_start as int,
            key_end: self.key_end as int,
            value_start: self.value_start as int,
            value_end: self.value_end as int,
        }
    }
}

/// The key of a member lies before its value, and both lie within the text.
pub open spec fn span_in_bounds(m: MemberSpan, len: nat) -> bool {
    m.key_start <= m.key_end <= m.value_start < m.value_end <= len
}

pub open spec fn spans_in_bounds(v: Seq<MemberSpan>, len: nat) -> bool {
    forall|x: int| 0 <= x < v.len() ==> span_in_bounds(#[trigger] v[x], len)
}

pub open spec fn member_views(v: Seq<MemberSpan>) -> Seq<Member> {
    v.map_values(|m: MemberSpan| m@)
}

pub open spec fn option_pos(r: Option<usize>) -> Option<int> {
    match r {
        Some(e) => Some(e as int),
        None => None,
    }
}

fn ws_byte(b: u8) -> (r: bool)
    ensures
        r == is_ws(b),
{
    b == 32 || b == 9 || b == 10 || b == 13
}

fn digit_byte(b: u8) -> (r: bool)
    ensures
        r == is_digit(b),
{
    48 <= b && b <= 57
}

fn hex_byte(b: u8) -> (r: bool)
    ensures
        r == is_hex(b),
{
    (48 <= b && b <= 57) || (65 <= b && b <= 70) || (97 <= b && b <= 102)
}

fn simple_escape_byte(b: u8) -> (r: bool)
    ensures
        r == is_simple_escape(b),
{
    b == 34 || b == 92 || b == 47 || b == 98 || b == 102 || b == 110 || b == 114 || b == 116
}

/// The first position at or after `i` that holds no whitespace.
pub fn scan_ws(s: &[u8], i: usize) -> (r: usize)
    requires
        i <= s@.len(),
    ensures
        r as int == skip_ws(s@, i as int),
        i <= r <= s@.len(),
{
    let mut j = i;
    while j < s.len() && ws_byte(s[j])
        invariant
            i <= j <= s@.len(),
            skip_ws(s@, j as int) == skip_ws(s@, i as int),
        decreases s@.len() - j,
    {
        j = j + 1;
    }
    j
}

/// The first position at or after `i` that holds no decimal digit.
pub fn scan_digits(s: &[u8], i: usize) -> (r: usize)
    requires
        i <= s@.len(),
    ensures
        r as int == digits_end(s@, i as int),
        i <= r <= s@.len(),
{
    let mut j = i;
    while j < s.len() && digit_byte(s[j])
        invariant
            i <= j <= s@.len(),
            digits_end(s@, j as int) == digits_end(s@, i as int),
        decreases s@.len() - j,
    {
        j = j + 1;
    }
    j
}

/// The end of a string whose body starts at `j`.
pub fn scan_string(s: &[u8], j: usize) -> (r: Option<usize>)
    requires
        j <= s@.len(),
    ensures
        option_pos(r) == string_end(s@, j as int),
        r matches Some(e) ==> e <= s@.len(),
{
    let mut k = j;
    while k < s.len()
        invariant
            j <= k <= s@.len(),
            string_end(s@, k as int) == string_end(s@, j as int),
        decreases s@.len() - k,
    {
        let b = s[k];
        if b == 34 {
            return Some(k + 1);
        } else if b == 92 {
            if k + 1 < s.len() && simple_escape_byte(s[k + 1]) {
                k = k + 2;
            } else if s.len() - k > 5 && s[k + 1] == 117 && hex_byte(s[k + 2]) && hex_byte(s[k + 3])
                && hex_byte(s[k + 4]) && hex_byte(s[k + 5]) {
                k = k + 6;
            } else {
                return None;
            }
        } else if b < 32 {
            return None;
        } else {
            k = k + 1;
        }
    }
    None
}

/// The end of a number that starts at `i`.
pub fn scan_number(s: &[u8], i: usize) -> (r: Option<usize>)
    requires
        i <= s@.len(),
    ensures
        option_pos(r) == number_end(s@, i as int),
        r matches Some(e) ==> e <= s@.len(),
{
    let a = if i < s.len() && s[i] == 45 { i + 1 } else { i };
    if !(a < s.len() && digit_byte(s[a])) {
        return None;
    }
    let b = if s[a] == 48 { a + 1 } else { scan_digits(s, a) };
    let c = if b < s.len() && s[b] == 46 {
        if b + 1 < s.len() && digit_byte(s[b + 1]) {
            scan_digits(s, b + 1)
        } else {
            return None;
        }
    } else {
        b
    };
    if c < s.len() && (s[c] == 101 || s[c] == 69) {
        let d = if c + 1 < s.len() && (s[c + 1] == 43 || s[c + 1] == 45) { c + 2 } else { c + 1 };
        if d < s.len() && digit_byte(s[d]) {
            Some(scan_digits(s, d))
        } else {
            None
        }
    } else {
        Some(c)
    }
}

/// Whether the bytes of `lit` stand at `i`.
fn scan_literal(s: &[u8], i: usize, lit: &[u8]) -> (r: bool)
    requires
        i <= s@.len(),
    ensures
        r == literal_at(s@, i as int, lit@),
{
    if lit.len() > s.len() - i {
        return false;
    }
    let mut k: usize = 0;
    while k < lit.len()
        invariant
            i + lit@.len() <= s@.len(),
            s@.len() == s.len(),
            0 <= k <= lit@.len(),
            forall|m: int| 0 <= m < k ==> s@[i + m] == lit@[m],
        decreases lit@.len() - k,
    {
        let pos = i + k;
        if s[pos] != lit[k] {
            assert(s@.subrange(i as int, i + lit@.len())[k as int] != lit@[k as int]);
            return false;
        }
        k = k + 1;
    }
    assert(s@.subrange(i as int, i + lit@.len()) =~= lit@);
    true
}

/// The end of the value that starts at `i`.
pub fn scan_value(s: &[u8], i: usize) -> (r: Option<usize>)
    requires
        i <= s@.len(),
    ensures
        option_pos(r) == value_end(s@, i as int),
        r matches Some(e) ==> e <= s@.len(),
    decreases s@.len() - i, 0int,
{
    if i >= s.len() {
        return None;
    }
    let b = s[i];
    if b == 123 {
        match scan_members(s, i + 1, true) {
            Some((_, e)) => Some(e),
            None => None,
        }
    } else if b == 91 {
        scan_array(s, i + 1, true)
    } else if b == 34 {
        scan_string(s, i + 1)
    } else if b == 116 {
        let lit: [u8; 4] = [116u8, 114u8, 117u8, 101u8];
        assert(lit@ =~= true_bytes());
        if scan_literal(s, i, &lit) { Some(i + 4) } else { None }
    } else if b == 102 {
        let lit: [u8; 5] = [102u8, 97u8, 108u8, 115u8, 101u8];
        assert(lit@ =~= false_bytes());
        if scan_literal(s, i, &lit) { Some(i + 5) } else { None }
    } else if b == 110 {
        let lit: [u8; 4] = [110u8, 117u8, 108u8, 108u8];
        assert(lit@ =~= null_bytes());
        if scan_literal(s, i, &lit) { Some(i + 4) } else { None }
    } else if b == 45 || digit_byte(b) {
        scan_number(s, i)
    } else {
        None
    }
}

/// The members of an object from position `p` on, and the position past
/// the closing brace.
pub fn scan_members(s: &[u8], p: usize, first: bool) -> (r: Option<(Vec<MemberSpan>, usize)>)
    requires
        p <= s@.len(),
    ensures
        match r {
            Some((ms, e)) => object_members(s@, p as int, first) == Some((member_views(ms@), e as int))
                && e <= s@.len() && spans_in_bounds(ms@, s@.len()),
            None => object_members(s@, p as int, first) is None,
        },
    decreases s@.len() - p, 1int,
{
    let k = scan_ws(s, p);
    proof {
        lemma_skip_ws_ge(s@, p as int);
    }
    if first && k < s.len() && s[k] == 125 {
        let v: Vec<MemberSpan> = Vec::new();
        assert(member_views(v@) =~= Seq::<Member>::empty());
        return Some((v, k + 1));
    }
    if !(k < s.len() && s[k] == 34) {
        return None;
    }
    let ke = match scan_string(s, k + 1) {
        Some(e) => e,
        None => return None,
    };
    proof {
        lemma_string_end_gt(s@, k + 1);
    }
    let c = scan_ws(s, ke);
    if !(c < s.len() && s[c] == 58) {
        return None;
    }
    let vs = scan_ws(s, c + 1);
    let ve = match scan_value(s, vs) {
        Some(e) => e,
        None => return None,
    };
    if ve <= vs {
        return None;
    }
    let m = MemberSpan { key_start: k + 1, key_end: ke - 1, value_start: vs, value_end: ve };
    let t = scan_ws(s, ve);
    if t < s.len() && s[t] == 44 {
        match scan_members(s, t + 1, false) {
            Some((rest, e)) => {
                let ghost rv = rest@;
                let mut all = rest;
                all.insert(0, m);
                assert(member_views(all@) =~= seq![m@] + member_views(rv));
                assert forall|x: int| 0 <= x < all@.len() implies span_in_bounds(#[trigger] all@[x], s@.len()) by {
                    if x > 0 {
                        assert(all@[x] == rv[x - 1]);
                    }
                }
                Some((all, e))
            },
            None => None,
        }
    } else if t < s.len() && s[t] == 125 {
        let mut v: Vec<MemberSpan> = Vec::new();
        v.push(m);
        assert(member_views(v@) =~= seq![m@]);
        Some((v, t + 1))
    } else {
        None
    }
}

/// The position past the closing bracket of an array whose elements start
/// at `p`.
pub fn scan_array(s: &[u8], p: usize, first: bool) -> (r: Option<usize>)
    requires
        p <= s@.len(),
    ensures
        option_pos(r) == array_end(s@, p as int, first),
        r matches Some(e) ==> e <= s@.len(),
    decreases s@.len() - p, 1int,
{
    let k = scan_ws(s, p);
    if first && k < s.len() && s[k] == 93 {
        return Some(k + 1);
    }
    let ve = match scan_value(s, k) {
        Some(e) => e,
        None => return None,
    };
    if ve <= k {
        return None;
    }
    let t = scan_ws(s, ve);
    if t < s.len() && s[t] == 44 {
        scan_array(s, t + 1, false)
    } else if t < s.len() && s[t] == 93 {
        Some(t + 1)
    } else {
        None
    }
}

/// Where the single value of the JSON document `s` starts, when `s` is one.
pub fn scan_document(s: &[u8]) -> (r: Option<usize>)
    ensures
        option_pos(r) == document_start(s@),
        r matches Some(i) ==> i < s@.len(),
{
    let i = scan_ws(s, 0);
    match scan_value(s, i) {
        Some(e) => if scan_ws(s, e) == s.len() { Some(i) } else { None },
        None => None,
    }
}

/// JSON numbers may be negative: a minus sign in front of a number gives a
/// value, and a number, that ends where the number without the sign ends.
pub proof fn law_negative_numbers(s: Seq<u8>, i: int)
    requires
        0 <= i,
        i + 1 < s.len(),
        s[i] == 45,
        is_digit(s[i + 1]),
    ensures
        value_end(s, i) == value_end(s, i + 1),
        number_end(s, i) == number_end(s, i + 1),
{
}

/// A minus sign followed by an integer without leading zero, with neither a
/// fraction nor an exponent after it, is a value that ends after its last
/// digit.
pub proof fn law_negative_integer_is_value(s: Seq<u8>, i: int)
    requires
        0 <= i,
        i + 1 < s.len(),
        s[i] == 45,
        49 <= s[i + 1] <= 57,
        digits_end(s, i + 1) < s.len() ==> ({
            let b = s[digits_end(s, i + 1)];
            b != 46 && b != 101 && b != 69
        }),
    ensures
        value_end(s, i) == Some(digits_end(s, i + 1)),
{
}

/// An integer without leading zero followed by an exponent (`e` or `E`, an
/// optional `+` or `-`, then digits) is a value that ends after the
/// exponent's last digit.
pub proof fn law_exponent_numbers(s: Seq<u8>, i: int, d: int)
    requires
        0 <= i < s.len(),
        49 <= s[i] <= 57,
        digits_end(s, i) + 1 < s.len(),
        s[digits_end(s, i)] == 101 || s[digits_end(s, i)] == 69,
        d == (if s[digits_end(s, i) + 1] == 43 || s[digits_end(s, i) + 1] == 45 {
            digits_end(s, i) + 2
        } else {
            digits_end(s, i) + 1
        }),
        d < s.len(),
        is_digit(s[d]),
    ensures
        value_end(s, i) == Some(digits_end(s, d)),
{
}
} // verus!
