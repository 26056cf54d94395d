//! Reading a price out of the JSON answer of a price service, in hundredths
//! of the quoted unit.
//!
//! The answer is a JSON object. The price is the number under the key `USD`
//! when the object has that key; otherwise it is the number under the key
//! `price` of the object under the key `data`. Keys are compared by their
//! text between the quotes, and the first member with a key counts. The
//! price is the whole part times one hundred plus the first two digits of
//! the fraction; further digits are dropped.

use vstd::prelude::*;
use vstd::string::StringSliceAdditionalSpecFns;
use crate::json::{
    Member, MemberSpan, member_views, spans_in_bounds, span_in_bounds, document_start, object_members,
    digits_end, lemma_digits_end, is_digit, scan_document, scan_members, scan_digits,
};

verus! {

/// The bytes of `USD`.
pub open spec fn usd_key() -> Seq<u8> {
    seq![85u8, 83u8, 68u8]
}

/// The bytes of `data`.
pub open spec fn data_key() -> Seq<u8> {
    seq![100u8, 97u8, 116u8, 97u8]
}

/// The bytes of `price`.
pub open spec fn price_key() -> Seq<u8> {
    seq![112u8, 114u8, 105u8, 99u8, 101u8]
}

/// The first of the members `ms` whose key's text is `key`.
pub open spec fn first_named(s: Seq<u8>, ms: Seq<Member>, key: Seq<u8>) -> Option<Member>
    decreases ms.len(),
{
    if ms.len() == 0 {
        None
    } else if s.subrange(ms[0].key_start, ms[0].key_end) == key {
        Some(ms[0])
    } else {
        first_named(s, ms.drop_first(), key)
    }
}

/// The number that a sequence of decimal digits spells.
pub open spec fn digits_value(d: Seq<u8>) -> nat
    decreases d.len(),
{
    if d.len() == 0 {
        0
    } else {
        digits_value(d.drop_last()) * 10 + (d.last() - 48) as nat
    }
}

/// The hundredths that the digits `f` of a fraction give: the first two of
/// them, a missing second one counting as zero.
pub open spec fn fraction_hundredths(f: Seq<u8>) -> nat {
    if f.len() == 0 {
        0
    } else if f.len() == 1 {
        ((f[0] - 48) * 10) as nat
    } else {
        ((f[0] - 48) * 10 + (f[1] - 48)) as nat
    }
}

/// The hundredths that the number in `s` from `a` to `b` stands for, when it
/// is not negative and has no exponent.
pub open spec fn number_hundredths(s: Seq<u8>, a: int, b: int) -> Option<nat> {
    if !(0 <= a < b && is_digit(s[a])) {
        None
    } else {
        let e1 = digits_end(s, a);
        let whole = digits_value(s.subrange(a, e1));
        if e1 == b {
            Some(whole * 100)
        } else if e1 < b && s[e1] == 46 {
            let e2 = digits_end(s, e1 + 1);
            if e2 == b {
                Some(whole * 100 + fraction_hundredths(s.subrange(e1 + 1, e2)))
            } else {
                None
            }
        } else {
            None
        }
    }
}

/// The members of the object that starts at `i`, if one does.
pub open spec fn object_at(s: Seq<u8>, i: int) -> Option<Seq<Member>> {
    if 0 <= i < s.len() && s[i] == 123 {
        match object_members(s, i + 1, true) {
            Some((ms, _)) => Some(ms),
            None => None,
        }
    } else {
        None
    }
}

/// The price, in hundredths, that the JSON document `s` quotes.
pub open spec fn quoted_hundredths(s: Seq<u8>) -> Option<nat> {
    match document_start(s) {
        None => None,
        Some(top) => match object_at(s, top) {
            None => None,
            Some(ms) => match first_named(s, ms, usd_key()) {
                Some(m) => number_hundredths(s, m.value_start, m.value_end),
                None => match first_named(s, ms, data_key()) {
                    None => None,
                    Some(d) => match object_at(s, d.value_start) {
                        None => None,
                        Some(inner) => match first_named(s, inner, price_key()) {
                            Some(m) => number_hundredths(s, m.value_start, m.value_end),
                            None => None,
                        },
                    },
                },
            },
        },
    }
}

/// The quoted price as a `u32`, when there is one and it fits.
pub open spec fn json_price(s: Seq<u8>) -> Option<u32> {
    match quoted_hundredths(s) {
        Some(c) => if c <= u32::MAX {
            Some(c as u32)
        } else {
            None
        },
        None => None,
    }
}

pub proof fn lemma_digits_value_prefix(d: Seq<u8>, k: int)
    requires
        0 <= k <= d.len(),
    ensures
        digits_value(d.take(k)) <= digits_value(d),
    decreases d.len(),
{
    if k < d.len() {
        lemma_digits_value_prefix(d.drop_last(), k);
        assert(d.drop_last().take(k) =~= d.take(k));
    } else {
        assert(d.take(k) =~= d);
    }
}

/// Only the first two digits of a fraction count: a number with a whole part
/// and at least two fraction digits stands for its whole part in hundreds
/// plus the two-digit number that its first two fraction digits spell,
/// whatever digits follow them.
pub proof fn law_fraction_cut_to_two_digits(s: Seq<u8>, a: int, b: int)
    requires
        0 <= a < s.len(),
        is_digit(s[a]),
        digits_end(s, a) < s.len(),
        s[digits_end(s, a)] == 46,
        b == digits_end(s, digits_end(s, a) + 1),
        b >= digits_end(s, a) + 3,
    ensures
        number_hundredths(s, a, b) == Some(
            digits_value(s.subrange(a, digits_end(s, a))) * 100
                + digits_value(s.subrange(digits_end(s, a) + 1, digits_end(s, a) + 3)),
        ),
{
    let e1 = digits_end(s, a);
    lemma_digits_end(s, a);
    lemma_digits_end(s, e1 + 1);
    let f = s.subrange(e1 + 1, b);
    let two = s.subrange(e1 + 1, e1 + 3);
    assert(is_digit(s[e1 + 1]) && is_digit(s[e1 + 2]));
    assert(two.drop_last() =~= seq![s[e1 + 1]]);
    assert(seq![s[e1 + 1]].drop_last() =~= Seq::<u8>::empty());
    reveal_with_fuel(digits_value, 3);
    assert(digits_value(two) == (s[e1 + 1] - 48) * 10 + (s[e1 + 2] - 48));
    assert(fraction_hundredths(f) == (s[e1 + 1] - 48) * 10 + (s[e1 + 2] - 48));
}

/// Whether the text of the key of `m` is `key`.
fn key_is(s: &[u8], m: &MemberSpan, key: &[u8]) -> (r: bool)
    requires
        span_in_bounds(*m, s@.len()),
    ensures
        r == (s@.subrange(m.key_start as int, m.key_end as int) == key@),
{
    if m.key_end - m.key_start != key.len() {
        return false;
    }
    let mut k: usize = 0;
    while k < key.len()
        invariant
            span_in_bounds(*m, s@.len()),
            m.key_end - m.key_start == key@.len(),
            0 <= k <= key@.len(),
            forall|x: int| 0 <= x < k ==> s@[m.key_start + x] == key@[x],
        decreases key@.len() - k,
    {
        if s[m.key_start + k] != key[k] {
            assert(s@.subrange(m.key_start as int, m.key_end as int)[k as int] != key@[k as int]);
            return false;
        }
        k = k + 1;
    }
    assert(s@.subrange(m.key_start as int, m.key_end as int) =~= key@);
    true
}

/// The index of the first of the members `ms` whose key's text is `key`.
fn find_member(s: &[u8], ms: &Vec<MemberSpan>, key: &[u8]) -> (r: Option<usize>)
    requires
        spans_in_bounds(ms@, s@.len()),
    ensures
        match first_named(s@, member_views(ms@), key@) {
            Some(m) => r is Some && r->0 < ms@.len() && ms@[r->0 as int]@ == m,
            None => r is None,
        },
{
    let ghost mv = member_views(ms@);
    let mut j: usize = 0;
    assert(mv.subrange(0, mv.len() as int) =~= mv);
    while j < ms.len()
        invariant
            spans_in_bounds(ms@, s@.len()),
            mv == member_views(ms@),
            0 <= j <= ms@.len(),
            first_named(s@, mv, key@) == first_named(s@, mv.subrange(j as int, mv.len() as int), key@),
        decreases ms@.len() - j,
    {
        let ghost rest = mv.subrange(j as int, mv.len() as int);
        assert(rest[0] == ms@[j as int]@);
        if key_is(s, &ms[j], key) {
            return Some(j);
        }
        assert(rest.drop_first() =~= mv.subrange(j + 1, mv.len() as int));
        j = j + 1;
    }
    None
}

/// The members of the object that starts at `i`, if one does.
fn members_at(s: &[u8], i: usize) -> (r: Option<Vec<MemberSpan>>)
    requires
        i <= s@.len(),
    ensures
        match object_at(s@, i as int) {
            Some(ms) => r is Some && member_views(r->0@) == ms && spans_in_bounds(r->0@, s@.len()),
            None => r is None,
        },
{
    if i < s.len() && s[i] == 123 {
        match scan_members(s, i + 1, true) {
            Some((ms, _)) => Some(ms),
            None => None,
        }
    } else {
        None
    }
}

/// The price, in hundredths, that the number from `a` to `b` stands for,
/// when there is one and it fits a `u32`.
fn number_price(s: &[u8], a: usize, b: usize) -> (r: Option<u32>)
    requires
        a < b <= s@.len(),
    ensures
        r == (match number_hundredths(s@, a as int, b as int) {
            Some(c) => if c <= u32::MAX { Some(c as u32) } else { None },
            None => None,
        }),
{
    if !digit_at(s, a) {
        return None;
    }
    let e1 = scan_digits(s, a);
    proof {
        lemma_digits_end(s@, a as int);
    }
    let ghost d = s@.subrange(a as int, e1 as int);
    let mut whole: u64 = 0;
    let mut k = a;
    while k < e1
        invariant
            a <= k <= e1 <= s@.len(),
            e1 == digits_end(s@, a as int),
            d == s@.subrange(a as int, e1 as int),
            forall|x: int| a <= x < e1 ==> is_digit(#[trigger] s@[x]),
            whole == digits_value(s@.subrange(a as int, k as int)),
            whole <= u32::MAX,
        decreases e1 - k,
    {
        assert(s@.subrange(a as int, k + 1).drop_last() =~= s@.subrange(a as int, k as int));
        whole = whole * 10 + (s[k] - 48) as u64;
        k = k + 1;
        if whole > 4294967295 {
            proof {
                assert(d.take(k - a) =~= s@.subrange(a as int, k as int));
                lemma_digits_value_prefix(d, k - a);
            }
            return None;
        }
    }
    let cents: u64 = if e1 == b {
        whole * 100
    } else if e1 < b && s[e1] == 46 {
        let e2 = scan_digits(s, e1 + 1);
        proof {
            lemma_digits_end(s@, e1 + 1);
        }
        if e2 != b {
            return None;
        }
        let ghost f = s@.subrange(e1 + 1, e2 as int);
        let frac: u64 = if e2 == e1 + 1 {
            0
        } else if e2 == e1 + 2 {
            ((s[e1 + 1] - 48) as u64) * 10
        } else {
            ((s[e1 + 1] - 48) as u64) * 10 + ((s[e1 + 2] - 48) as u64)
        };
        assert(frac == fraction_hundredths(f));
        whole * 100 + frac
    } else {
        return None;
    };
    if cents > 4294967295 {
        None
    } else {
        Some(cents as u32)
    }
}

fn digit_at(s: &[u8], a: usize) -> (r: bool)
    requires
        a < s@.len(),
    ensures
        r == is_digit(s@[a as int]),
{
    48 <= s[a] && s[a] <= 57
}

/// The price that the JSON answer `price_str` quotes, in hundredths: the
/// number under `USD`, or else the number under `price` in the object under
/// `data`. `None` when the text is no JSON object, when neither key leads to
/// a number, when the number is negative or has an exponent, or when the
/// price does not fit a `u32`.
pub fn parse_price(price_str: &str) -> (r: Option<u32>)
    ensures
        r == json_price(price_str.spec_bytes()),
{
    let s = price_str.as_bytes();
    let top = match scan_document(s) {
        Some(t) => t,
        None => return None,
    };
    let ms = match members_at(s, top) {
        Some(ms) => ms,
        None => return None,
    };
    let usd: [u8; 3] = [85u8, 83u8, 68u8];
    assert(usd@ =~= usd_key());
    if let Some(j) = find_member(s, &ms, &usd) {
        return number_price(s, ms[j].value_start, ms[j].value_end);
    }
    let data: [u8; 4] = [100u8, 97u8, 116u8, 97u8];
    assert(data@ =~= data_key());
    let d = match find_member(s, &ms, &data) {
        Some(d) => d,
        None => return None,
    };
    let inner = match members_at(s, ms[d].value_start) {
        Some(inner) => inner,
        None => return None,
    };
    let price: [u8; 5] = [112u8, 114u8, 105u8, 99u8, 101u8];
    assert(price@ =~= price_key());
    match find_member(s, &inner, &price) {
        Some(j) => number_price(s, inner[j].value_start, inner[j].value_end),
        None => None,
    }
}

} // verus!
