//! The request body of the create operation: a JSON object holding exactly
//! one field, `"price"`, with an integer value.
//!
//! The accepted grammar is deliberately strict: whitespace may stand around
//! each token, but the object must hold the one member `"price"` and nothing
//! else — a body with additional members is rejected with a validation
//! error, as is any value that is not a plain JSON integer within `i64`.

use vstd::prelude::*;
use vstd::string::StrSliceExecFns;
use crate::ids::hex_val;
use crate::price::PriceError;

verus! {

pub open spec fn is_ws(c: char) -> bool {
    c == ' ' || c == '\t' || c == '\n' || c == '\r'
}

pub open spec fn is_dec_digit(c: char) -> bool {
    '0' <= c <= '9'
}

/// The first index at or after `i` that holds no whitespace.
pub open spec fn skip_ws(s: Seq<char>, i: int) -> int
    decreases s.len() - i when 0 <= i <= s.len()
{
    if i < s.len() && is_ws(s[i]) {
        skip_ws(s, i + 1)
    } else {
        i
    }
}

/// The first index at or after `i` that holds no decimal digit.
pub open spec fn digits_end(s: Seq<char>, i: int) -> int
    decreases s.len() - i when 0 <= i <= s.len()
{
    if i < s.len() && is_dec_digit(s[i]) {
        digits_end(s, i + 1)
    } else {
        i
    }
}

/// The value of a sequence of decimal digit characters, most significant
/// first.
pub open spec fn dec_num(s: Seq<char>) -> int
    decreases s.len(),
{
    if s.len() == 0 {
        0
    } else {
        dec_num(s.drop_last()) * 10 + hex_val(s.last())
    }
}

/// Ten to the power `k`.
pub open spec fn pow10(k: nat) -> int
    decreases k,
{
    if k == 0 {
        1
    } else {
        10 * pow10((k - 1) as nat)
    }
}

/// The price a request body denotes, if any: optional whitespace around each
/// token of `{ "price" : <integer> }`, the integer a JSON integer (an
/// optional minus sign, then digits without a superfluous leading zero).
pub open spec fn spec_parse_body(s: Seq<char>) -> Option<int> {
    let i0: int = skip_ws(s, 0);
    if !(i0 < s.len() && s[i0] == '{') {
        None
    } else {
        let i1: int = skip_ws(s, i0 + 1);
        if !(i1 + 7 <= s.len() && s.subrange(i1, i1 + 7) == ("\"price\"")@) {
            None
        } else {
            let i2: int = skip_ws(s, i1 + 7);
            if !(i2 < s.len() && s[i2] == ':') {
                None
            } else {
                let i3: int = skip_ws(s, i2 + 1);
                let neg: bool = i3 < s.len() && s[i3] == '-';
                let i4: int = if neg {
                    i3 + 1
                } else {
                    i3
                };
                let i5: int = digits_end(s, i4);
                if !(i4 < s.len() && i5 > i4 && (s[i4] != '0' || i5 == i4 + 1)) {
                    None
                } else {
                    let mag: int = dec_num(s.subrange(i4, i5));
                    let i6: int = skip_ws(s, i5);
                    if !(i6 < s.len() && s[i6] == '}' && skip_ws(s, i6 + 1) == s.len()) {
                        None
                    } else {
                        Some(
                            if neg {
                                -mag
                            } else {
                                mag
                            },
                        )
                    }
                }
            }
        }
    }
}

proof fn lemma_skip_ws_props(s: Seq<char>, i: int)
    requires
        0 <= i <= s.len(),
    ensures
        i <= skip_ws(s, i) <= s.len(),
    decreases s.len() - i,
{
    if i < s.len() && is_ws(s[i]) {
        lemma_skip_ws_props(s, i + 1);
    }
}

proof fn lemma_digits_end_props(s: Seq<char>, i: int)
    requires
        0 <= i <= s.len(),
    ensures
        i <= digits_end(s, i) <= s.len(),
        forall|m: int| i <= m < digits_end(s, i) ==> is_dec_digit(#[trigger] s[m]),
    decreases s.len() - i,
{
    if i < s.len() && is_dec_digit(s[i]) {
        lemma_digits_end_props(s, i + 1);
    }
}

proof fn lemma_pow10_pos(k: nat)
    ensures
        pow10(k) >= 1,
    decreases k,
{
    if k > 0 {
        lemma_pow10_pos((k - 1) as nat);
    }
}

proof fn lemma_pow10_le(k1: nat, k2: nat)
    requires
        k1 <= k2,
    ensures
        pow10(k1) <= pow10(k2),
    decreases k2,
{
    if k1 < k2 {
        lemma_pow10_le(k1, (k2 - 1) as nat);
        lemma_pow10_pos((k2 - 1) as nat);
    }
}

/// A digit sequence with a nonzero leading digit denotes at least
/// `10^(len-1)`.
proof fn lemma_dec_num_lower(s: Seq<char>)
    requires
        s.len() >= 1,
        forall|j: int| 0 <= j < s.len() ==> is_dec_digit(#[trigger] s[j]),
        s[0] != '0',
    ensures
        dec_num(s) >= pow10((s.len() - 1) as nat),
    decreases s.len(),
{
    if s.len() == 1 {
        assert(hex_val(s[0]) >= 1);
        assert(dec_num(s) == dec_num(s.drop_last()) * 10 + hex_val(s.last()));
        assert(s.drop_last().len() == 0);
    } else {
        let t = s.drop_last();
        assert(forall|j: int| 0 <= j < t.len() ==> is_dec_digit(#[trigger] t[j]));
        assert(t[0] == s[0]);
        lemma_dec_num_lower(t);
        let p = pow10((s.len() - 2) as nat);
        assert(dec_num(t) * 10 >= p * 10) by (nonlinear_arith)
            requires
                dec_num(t) >= p,
        ;
        assert(0 <= hex_val(s.last()));
        assert(pow10((s.len() - 1) as nat) == 10 * p);
    }
}

/// Whether a character is whitespace.
fn is_ws_char(c: char) -> (r: bool)
    ensures
        r == is_ws(c),
{
    c == ' ' || c == '\t' || c == '\n' || c == '\r'
}

/// The value of a decimal digit character.
fn dec_digit_val(c: char) -> (r: Option<u64>)
    ensures
        match r {
            Some(d) => is_dec_digit(c) && d == hex_val(c) && d <= 9,
            None => !is_dec_digit(c),
        },
{
    match c {
        '0' => Some(0),
        '1' => Some(1),
        '2' => Some(2),
        '3' => Some(3),
        '4' => Some(4),
        '5' => Some(5),
        '6' => Some(6),
        '7' => Some(7),
        '8' => Some(8),
        '9' => Some(9),
        _ => None,
    }
}

/// The first index at or after `i` that holds no whitespace.
fn skip_ws_exec(s: &str, i: usize, n: usize) -> (r: usize)
    requires
        n == s@.len(),
        i <= n,
    ensures
        r == skip_ws(s@, i as int),
        i <= r <= n,
{
    let mut j: usize = i;
    while j < n && is_ws_char(s.get_char(j))
        invariant
            n == s@.len(),
            i <= j <= n,
            skip_ws(s@, i as int) == skip_ws(s@, j as int),
        decreases n - j,
    {
        j += 1;
    }
    proof {
        assert(skip_ws(s@, j as int) == j);
    }
    j
}

/// The first index at or after `i` that holds no decimal digit.
fn digits_end_exec(s: &str, i: usize, n: usize) -> (r: usize)
    requires
        n == s@.len(),
        i <= n,
    ensures
        r == digits_end(s@, i as int),
        i <= r <= n,
{
    let mut j: usize = i;
    while j < n && dec_digit_val(s.get_char(j)).is_some()
        invariant
            n == s@.len(),
            i <= j <= n,
            digits_end(s@, i as int) == digits_end(s@, j as int),
        decreases n - j,
    {
        j += 1;
    }
    proof {
        assert(digits_end(s@, j as int) == j);
    }
    j
}

/// Read the price out of a request body. Yields `Validation` exactly when the
/// body does not have the accepted shape or its value does not fit an `i64`.
pub fn parse_price_body(s: &str) -> (r: Result<i64, PriceError>)
    ensures
        match r {
            Ok(p) => spec_parse_body(s@) == Some(p as int),
            Err(e) => e == PriceError::Validation && match spec_parse_body(s@) {
                Some(v) => !(i64::MIN <= v <= i64::MAX),
                None => true,
            },
        },
{
    let n = s.unicode_len();
    let i0 = skip_ws_exec(s, 0, n);
    if i0 == n || s.get_char(i0) != '{' {
        return Err(PriceError::Validation);
    }
    let i1 = skip_ws_exec(s, i0 + 1, n);
    if n - i1 < 7 {
        return Err(PriceError::Validation);
    }
    proof {
        reveal_strlit("\"price\"");
    }
    if s.get_char(i1) != '"' || s.get_char(i1 + 1) != 'p' || s.get_char(i1 + 2) != 'r'
        || s.get_char(i1 + 3) != 'i' || s.get_char(i1 + 4) != 'c' || s.get_char(i1 + 5) != 'e'
        || s.get_char(i1 + 6) != '"' {
        proof {
            let sub = s@.subrange(i1 as int, i1 + 7);
            if sub == ("\"price\"")@ {
                assert(sub[0] == s@[i1 as int]);
                assert(sub[1] == s@[i1 + 1]);
                assert(sub[2] == s@[i1 + 2]);
                assert(sub[3] == s@[i1 + 3]);
                assert(sub[4] == s@[i1 + 4]);
                assert(sub[5] == s@[i1 + 5]);
                assert(sub[6] == s@[i1 + 6]);
                assert(false);
            }
        }
        return Err(PriceError::Validation);
    }
    proof {
        assert(s@.subrange(i1 as int, i1 + 7) =~= ("\"price\"")@);
    }
    let i2 = skip_ws_exec(s, i1 + 7, n);
    if i2 == n || s.get_char(i2) != ':' {
        return Err(PriceError::Validation);
    }
    let i3 = skip_ws_exec(s, i2 + 1, n);
    let neg: bool = i3 < n && s.get_char(i3) == '-';
    let i4: usize = if neg {
        i3 + 1
    } else {
        i3
    };
    let i5 = digits_end_exec(s, i4, n);
    if i4 == n || i5 == i4 || (s.get_char(i4) == '0' && i5 != i4 + 1) {
        return Err(PriceError::Validation);
    }
    let ghost digits = s@.subrange(i4 as int, i5 as int);
    proof {
        lemma_digits_end_props(s@, i4 as int);
        assert(forall|j: int| 0 <= j < digits.len() ==> is_dec_digit(#[trigger] digits[j]));
    }
    let count: usize = i5 - i4;
    if count > 19 {
        proof {
            assert(digits[0] == s@[i4 as int]);
            lemma_dec_num_lower(digits);
            lemma_pow10_le(19, (count - 1) as nat);
            assert(pow10(19) == 10000000000000000000) by {
                reveal_with_fuel(pow10, 20);
            }
            assert(dec_num(digits) >= 10000000000000000000);
        }
        return Err(PriceError::Validation);
    }
    let mut mag: u64 = 0;
    let mut k: usize = i4;
    proof {
        assert(s@.subrange(i4 as int, i4 as int) =~= Seq::<char>::empty());
        assert(pow10(19) == 10000000000000000000) by {
            reveal_with_fuel(pow10, 20);
        }
    }
    while k < i5
        invariant
            n == s@.len(),
            i4 <= k <= i5 <= n,
            i5 - i4 <= 19,
            digits == s@.subrange(i4 as int, i5 as int),
            digits_end(s@, i4 as int) == i5,
            forall|m: int| i4 <= m < i5 ==> is_dec_digit(#[trigger] s@[m]),
            mag == dec_num(s@.subrange(i4 as int, k as int)),
            mag < pow10((k - i4) as nat),
            pow10(19) == 10000000000000000000,
        decreases i5 - k,
    {
        let c = s.get_char(k);
        let d = match dec_digit_val(c) {
            Some(d) => d,
            None => {
                proof {
                    assert(is_dec_digit(s@[k as int]));
                }
                return Err(PriceError::Validation);
            },
        };
        proof {
            lemma_pow10_le(((k - i4) + 1) as nat, 19);
            lemma_pow10_pos((k - i4) as nat);
            assert(mag * 10 + d < pow10(((k - i4) + 1) as nat)) by (nonlinear_arith)
                requires
                    mag < pow10((k - i4) as nat),
                    d <= 9,
                    pow10(((k - i4) + 1) as nat) == 10 * pow10((k - i4) as nat),
            ;
            let pre = s@.subrange(i4 as int, k as int);
            let post = s@.subrange(i4 as int, k + 1);
            assert(post.drop_last() =~= pre);
            assert(post.last() == s@[k as int]);
        }
        mag = mag * 10 + d;
        k += 1;
    }
    proof {
        assert(s@.subrange(i4 as int, k as int) == digits);
        assert(mag == dec_num(digits));
    }
    let i6 = skip_ws_exec(s, i5, n);
    if i6 == n || s.get_char(i6) != '}' {
        return Err(PriceError::Validation);
    }
    if skip_ws_exec(s, i6 + 1, n) != n {
        return Err(PriceError::Validation);
    }
    if neg {
        if mag <= 9223372036854775807u64 {
            Ok(-(mag as i64))
        } else if mag == 9223372036854775808u64 {
            Ok(i64::MIN)
        } else {
            Err(PriceError::Validation)
        }
    } else {
        if mag <= 9223372036854775807u64 {
            Ok(mag as i64)
        } else {
            Err(PriceError::Validation)
        }
    }
}

} // verus!
