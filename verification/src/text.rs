//! Decimal digit strings and the ASCII byte/char correspondence used by the
//! wire codec and the command parser.

use vstd::prelude::*;
use vstd::string::StrSliceExecFns;
use vstd::string::StringExecFns;
use vstd::utf8::is_ascii_chars;

verus! {

pub open spec fn is_digit_byte(b: u8) -> bool {
    48 <= b <= 57
}

pub open spec fn all_digit_bytes(s: Seq<u8>) -> bool {
    forall|i: int| 0 <= i < s.len() ==> is_digit_byte(#[trigger] s[i])
}

/// The canonical decimal digit string of `n`, most significant digit first,
/// without leading zeros (`0` is written as the single digit `0`).
pub open spec fn dec_digits(n: nat) -> Seq<u8>
    decreases n,
{
    if n < 10 {
        seq![(48 + n) as u8]
    } else {
        dec_digits(n / 10).push((48 + n % 10) as u8)
    }
}

/// The numeric value of a digit string (most significant digit first).
pub open spec fn dec_val(s: Seq<u8>) -> nat
    decreases s.len(),
{
    if s.len() == 0 {
        0
    } else {
        (dec_val(s.drop_last()) * 10 + (s.last() - 48)) as nat
    }
}

/// The value of a token that must consist of one or more decimal digits.
pub open spec fn dec_value(s: Seq<u8>) -> Option<nat> {
    if s.len() > 0 && all_digit_bytes(s) {
        Some(dec_val(s))
    } else {
        None
    }
}

pub proof fn lemma_dec_digits_wf(n: nat)
    ensures
        dec_digits(n).len() >= 1,
        all_digit_bytes(dec_digits(n)),
    decreases n,
{
    if n >= 10 {
        lemma_dec_digits_wf(n / 10);
        assert forall|i: int| 0 <= i < dec_digits(n).len() implies is_digit_byte(
            #[trigger] dec_digits(n)[i],
        ) by {
            if i < dec_digits(n / 10).len() {
                assert(dec_digits(n)[i] == dec_digits(n / 10)[i]);
            }
        }
    }
}

/// Writing a number as digits and reading the digits back yields the number.
pub proof fn lemma_dec_roundtrip(n: nat)
    ensures
        dec_value(dec_digits(n)) == Some(n),
    decreases n,
{
    lemma_dec_digits_wf(n);
    if n < 10 {
        let d = dec_digits(n);
        assert(d.last() == (48 + n) as u8);
        assert(d.drop_last() =~= Seq::<u8>::empty());
        assert(dec_val(d.drop_last()) == 0);
        assert(dec_val(d) == n);
    } else {
        lemma_dec_roundtrip(n / 10);
        let d = dec_digits(n);
        assert(d.drop_last() =~= dec_digits(n / 10));
        assert(dec_val(d) == dec_val(dec_digits(n / 10)) * 10 + (n % 10));
        assert(n / 10 * 10 + n % 10 == n) by (nonlinear_arith);
    }
}

pub open spec fn chars_of_bytes(s: Seq<u8>) -> Seq<char> {
    s.map_values(|b: u8| b as char)
}

pub open spec fn bytes_of_chars(s: Seq<char>) -> Seq<u8> {
    s.map_values(|c: char| c as u8)
}

pub open spec fn ascii_bytes(s: Seq<u8>) -> bool {
    forall|i: int| 0 <= i < s.len() ==> #[trigger] s[i] < 128
}

pub proof fn lemma_chars_bytes_inverse(s: Seq<char>)
    requires
        is_ascii_chars(s),
    ensures
        chars_of_bytes(bytes_of_chars(s)) == s,
        ascii_bytes(bytes_of_chars(s)),
{
    assert(chars_of_bytes(bytes_of_chars(s)) =~= s);
}

/// Relies on `core::str::from_utf8`: ASCII bytes are valid UTF-8, and their
/// UTF-8 decoding holds one char per byte, each char the byte's code point.
#[verifier::external_body]
pub fn ascii_str(v: &[u8]) -> (r: &str)
    requires
        ascii_bytes(v@),
    ensures
        r@ == chars_of_bytes(v@),
{
    core::str::from_utf8(v).unwrap()
}

pub proof fn lemma_digits_are_ascii(s: Seq<u8>)
    requires
        all_digit_bytes(s),
    ensures
        ascii_bytes(s),
{
}

pub fn u128_to_dec(n: u128) -> (r: Vec<u8>)
    ensures
        r@ == dec_digits(n as nat),
    decreases n,
{
    if n < 10 {
        let mut v: Vec<u8> = Vec::new();
        v.push(48 + n as u8);
        proof {
            assert(v@ =~= dec_digits(n as nat));
        }
        v
    } else {
        let mut v = u128_to_dec(n / 10);
        v.push(48 + (n % 10) as u8);
        proof {
            assert(v@ =~= dec_digits(n as nat));
        }
        v
    }
}

pub fn u128_to_string(n: u128) -> (r: String)
    ensures
        r@ == chars_of_bytes(dec_digits(n as nat)),
{
    let v = u128_to_dec(n);
    proof {
        lemma_dec_digits_wf(n as nat);
        lemma_digits_are_ascii(v@);
    }
    let s = ascii_str(v.as_slice());
    String::from_str(s)
}

/// Reads the decimal token `v[start..end]`; `None` when the token is empty,
/// holds a non-digit, or its value does not fit in `u128`.
pub fn dec_value_of(v: &[u8], start: usize, end: usize) -> (r: Option<u128>)
    requires
        start <= end <= v@.len(),
    ensures
        match r {
            Some(x) => dec_value(v@.subrange(start as int, end as int)) == Some(x as nat),
            None => match dec_value(v@.subrange(start as int, end as int)) {
                Some(x) => x > u128::MAX,
                None => true,
            },
        },
{
    let ghost sub = v@.subrange(start as int, end as int);
    if start == end {
        return None;
    }
    let mut acc: u128 = 0;
    let mut i = start;
    while i < end
        invariant
            start <= i <= end <= v@.len(),
            sub == v@.subrange(start as int, end as int),
            all_digit_bytes(sub.take(i - start)),
            acc as nat == dec_val(sub.take(i - start)),
        decreases end - i,
    {
        let b = v[i];
        assert(b == sub[i - start]);
        if b < 48 || b > 57 {
            assert(!is_digit_byte(sub[i - start]));
            return None;
        }
        let ghost pre = sub.take(i - start);
        let ghost pre1 = sub.take(i + 1 - start);
        assert(pre1.drop_last() =~= pre);
        assert(pre1.last() == b);
        let next = match acc.checked_mul(10) {
            Some(a) => a.checked_add((b - 48) as u128),
            None => None,
        };
        match next {
            Some(a) => {
                acc = a;
            },
            None => {
                proof {
                    assert(dec_val(pre1) > u128::MAX);
                    if dec_value(sub) is Some {
                        lemma_dec_val_prefix_le(sub, i + 1 - start);
                        assert(dec_val(sub) >= dec_val(pre1));
                    }
                }
                return None;
            },
        }
        i += 1;
    }
    assert(sub.take(end - start) =~= sub);
    Some(acc)
}

/// Appending further digits to a token never lowers its value.
pub proof fn lemma_dec_val_prefix_le(s: Seq<u8>, k: int)
    requires
        0 <= k <= s.len(),
        all_digit_bytes(s),
    ensures
        dec_val(s) >= dec_val(s.take(k)),
    decreases s.len() - k,
{
    if k < s.len() {
        lemma_dec_val_prefix_le(s, k + 1);
        let t = s.take(k + 1);
        assert(t.drop_last() =~= s.take(k));
        assert(dec_val(t) == dec_val(s.take(k)) * 10 + (t.last() - 48));
        assert(dec_val(s.take(k)) * 10 >= dec_val(s.take(k))) by (nonlinear_arith);
    } else {
        assert(s.take(k) =~= s);
    }
}

pub open spec fn is_digit_char(c: char) -> bool {
    '0' <= c <= '9'
}

pub open spec fn all_digit_chars(s: Seq<char>) -> bool {
    forall|i: int| 0 <= i < s.len() ==> is_digit_char(#[trigger] s[i])
}

pub open spec fn dec_val_chars(s: Seq<char>) -> nat
    decreases s.len(),
{
    if s.len() == 0 {
        0
    } else {
        (dec_val_chars(s.drop_last()) * 10 + (s.last() as u32 - 48)) as nat
    }
}

/// The value of a textual token of one or more decimal digits.
pub open spec fn dec_value_chars(s: Seq<char>) -> Option<nat> {
    if s.len() > 0 && all_digit_chars(s) {
        Some(dec_val_chars(s))
    } else {
        None
    }
}

pub proof fn lemma_dec_chars_bytes(s: Seq<char>)
    requires
        is_ascii_chars(s),
    ensures
        dec_value_chars(s) == dec_value(bytes_of_chars(s)),
    decreases s.len(),
{
    let b = bytes_of_chars(s);
    assert(b.len() == s.len());
    assert forall|i: int| 0 <= i < s.len() implies is_digit_char(s[i]) == is_digit_byte(
        #[trigger] b[i],
    ) by {
        assert(b[i] == s[i] as u8);
    }
    if s.len() > 0 && all_digit_chars(s) {
        assert(all_digit_bytes(b));
        lemma_dec_val_chars_bytes(s);
    } else if s.len() > 0 {
        let i = choose|i: int| 0 <= i < s.len() && !is_digit_char(s[i]);
        assert(!is_digit_byte(b[i]));
        assert(!all_digit_bytes(b));
    }
}

proof fn lemma_dec_val_chars_bytes(s: Seq<char>)
    requires
        is_ascii_chars(s),
        all_digit_chars(s),
    ensures
        dec_val_chars(s) == dec_val(bytes_of_chars(s)),
    decreases s.len(),
{
    let b = bytes_of_chars(s);
    if s.len() > 0 {
        let t = s.drop_last();
        assert(is_ascii_chars(t) && all_digit_chars(t)) by {
            assert(forall|i: int| 0 <= i < t.len() ==> t[i] == s[i]);
        }
        lemma_dec_val_chars_bytes(t);
        assert(bytes_of_chars(t) =~= b.drop_last());
        assert(b.last() == s.last() as u8);
    }
}

/// The canonical decimal text of `n`.
pub open spec fn dec_chars(n: nat) -> Seq<char> {
    chars_of_bytes(dec_digits(n))
}

/// The canonical decimal text of a signed number.
pub open spec fn int_dec_chars(n: int) -> Seq<char> {
    if n < 0 {
        seq!['-'] + dec_chars((-n) as nat)
    } else {
        dec_chars(n as nat)
    }
}

/// Reads a token of one or more decimal digits; `None` when the token is
/// malformed or its value does not fit in `u128`.
pub fn parse_u128(s: &str) -> (r: Option<u128>)
    ensures
        match r {
            Some(x) => dec_value_chars(s@) == Some(x as nat),
            None => match dec_value_chars(s@) {
                Some(x) => x > u128::MAX,
                None => true,
            },
        },
{
    if !s.is_ascii() {
        proof {
            let i = choose|i: int|
                0 <= i < s@.len() && !('\0' <= #[trigger] s@[i] <= '\u{7f}');
            assert(!is_digit_char(s@[i]));
        }
        return None;
    }
    let v = s.as_bytes_vec();
    proof {
        vstd::string::is_ascii_spec_bytes(s);
        assert(v@ =~= bytes_of_chars(s@));
        lemma_dec_chars_bytes(s@);
    }
    let r = dec_value_of(v.as_slice(), 0, v.len());
    proof {
        assert(v@.subrange(0, v@.len() as int) =~= v@);
    }
    r
}

/// The value of a decimal token with an optional leading minus sign.
pub open spec fn int_value_chars(s: Seq<char>) -> Option<int> {
    if s.len() >= 1 && s[0] == '-' {
        match dec_value_chars(s.skip(1)) {
            Some(n) => Some(-(n as int)),
            None => None,
        }
    } else {
        match dec_value_chars(s) {
            Some(n) => Some(n as int),
            None => None,
        }
    }
}

/// Reads an optionally negated decimal token; `None` when the token is
/// malformed or its value does not fit in `i64`.
pub fn parse_i64(s: &str) -> (r: Option<i64>)
    ensures
        match r {
            Some(x) => int_value_chars(s@) == Some(x as int),
            None => match int_value_chars(s@) {
                Some(x) => x < i64::MIN || x > i64::MAX,
                None => true,
            },
        },
{
    let n = s.unicode_len();
    if n >= 1 && s.get_char(0) == '-' {
        if !s.is_ascii() {
            proof {
                let i = choose|i: int|
                    0 <= i < s@.len() && !('\0' <= #[trigger] s@[i] <= '\u{7f}');
                assert(i >= 1);
                assert(s@.skip(1)[i - 1] == s@[i]);
                assert(!is_digit_char(s@.skip(1)[i - 1]));
            }
            return None;
        }
        let mag_s = s.substring_ascii(1, n);
        proof {
            assert(mag_s@ =~= s@.skip(1));
        }
        match parse_u128(mag_s) {
            Some(m) => {
                if m > 9223372036854775808u128 {
                    None
                } else if m == 9223372036854775808u128 {
                    Some(i64::MIN)
                } else {
                    Some(-(m as i64))
                }
            },
            None => None,
        }
    } else {
        match parse_u128(s) {
            Some(m) => {
                if m > i64::MAX as u128 {
                    None
                } else {
                    Some(m as i64)
                }
            },
            None => None,
        }
    }
}

/// The index of the first occurrence of `c` in `s`.
pub open spec fn find_ch(s: Seq<char>, c: char) -> Option<nat>
    decreases s.len(),
{
    if s.len() == 0 {
        None
    } else if s[0] == c {
        Some(0 as nat)
    } else {
        match find_ch(s.drop_first(), c) {
            Some(i) => Some((i + 1) as nat),
            None => None,
        }
    }
}

pub proof fn lemma_find_ch(s: Seq<char>, c: char)
    ensures
        match find_ch(s, c) {
            Some(i) => i < s.len() && s[i as int] == c && (forall|j: int|
                0 <= j < i ==> s[j] != c),
            None => forall|j: int| 0 <= j < s.len() ==> s[j] != c,
        },
    decreases s.len(),
{
    if s.len() > 0 && s[0] != c {
        let d = s.drop_first();
        lemma_find_ch(d, c);
        match find_ch(d, c) {
            Some(i) => {
                assert(s[i as int + 1] == d[i as int]);
                assert forall|j: int| 0 <= j < i + 1 implies s[j] != c by {
                    if j > 0 {
                        assert(s[j] == d[j - 1]);
                    }
                }
            },
            None => {
                assert forall|j: int| 0 <= j < s.len() implies s[j] != c by {
                    if j > 0 {
                        assert(s[j] == d[j - 1]);
                    }
                }
            },
        }
    }
}

pub proof fn lemma_find_ch_at(s: Seq<char>, c: char, i: int)
    requires
        0 <= i < s.len(),
        s[i] == c,
        forall|j: int| 0 <= j < i ==> s[j] != c,
    ensures
        find_ch(s, c) == Some(i as nat),
    decreases i,
{
    if i > 0 {
        let d = s.drop_first();
        assert(d[i - 1] == s[i]);
        assert forall|j: int| 0 <= j < i - 1 implies d[j] != c by {
            assert(d[j] == s[j + 1]);
        }
        lemma_find_ch_at(d, c, i - 1);
    }
}

/// The index of the first occurrence of `c` in `s`.
pub fn find_char(s: &str, c: char) -> (r: Option<usize>)
    ensures
        match r {
            Some(i) => find_ch(s@, c) == Some(i as nat),
            None => find_ch(s@, c) is None,
        },
{
    let n = s.unicode_len();
    let mut k: usize = 0;
    while k < n
        invariant
            0 <= k <= n == s@.len(),
            forall|j: int| 0 <= j < k ==> s@[j] != c,
        decreases n - k,
    {
        if s.get_char(k) == c {
            proof {
                lemma_find_ch_at(s@, c, k as int);
            }
            return Some(k);
        }
        k += 1;
    }
    proof {
        lemma_find_ch(s@, c);
        if find_ch(s@, c) is Some {
            let i = find_ch(s@, c)->0;
            assert(s@[i as int] == c);
        }
    }
    None
}

/// Whether two strings hold the same characters.
pub fn str_eq(a: &str, b: &str) -> (r: bool)
    ensures
        r == (a@ == b@),
{
    let sa = String::from_str(a);
    let sb = String::from_str(b);
    sa == sb
}

pub fn u64_to_string(n: u64) -> (r: String)
    ensures
        r@ == dec_chars(n as nat),
{
    u128_to_string(n as u128)
}

pub fn i64_to_string(n: i64) -> (r: String)
    ensures
        r@ == int_dec_chars(n as int),
{
    if n >= 0 {
        u128_to_string(n as u128)
    } else {
        let mag: u128 = (-(n as i128)) as u128;
        let d = u128_to_string(mag);
        let mut r = String::from_str("-");
        proof {
            reveal_strlit("-");
        }
        r.append(d.as_str());
        proof {
            assert(r@ =~= int_dec_chars(n as int));
        }
        r
    }
}

} // verus!
