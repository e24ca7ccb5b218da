//! Identifiers: 128-bit values generated at random, written and read in the
//! canonical UUID text form (32 lowercase hex digits in groups of
//! 8-4-4-4-12, separated by dashes).

use vstd::prelude::*;
use vstd::string::StrSliceExecFns;
use vstd::string::StringExecFns;

verus! {

/// The hex digit character (lowercase) for a value in `0..16`.
pub open spec fn hex_char(d: int) -> char {
    if d == 0 {
        '0'
    } else if d == 1 {
        '1'
    } else if d == 2 {
        '2'
    } else if d == 3 {
        '3'
    } else if d == 4 {
        '4'
    } else if d == 5 {
        '5'
    } else if d == 6 {
        '6'
    } else if d == 7 {
        '7'
    } else if d == 8 {
        '8'
    } else if d == 9 {
        '9'
    } else if d == 10 {
        'a'
    } else if d == 11 {
        'b'
    } else if d == 12 {
        'c'
    } else if d == 13 {
        'd'
    } else if d == 14 {
        'e'
    } else {
        'f'
    }
}

/// The value of a hex digit character, either case; `-1` for any other char.
pub open spec fn hex_val(c: char) -> int {
    if c == '0' {
        0
    } else if c == '1' {
        1
    } else if c == '2' {
        2
    } else if c == '3' {
        3
    } else if c == '4' {
        4
    } else if c == '5' {
        5
    } else if c == '6' {
        6
    } else if c == '7' {
        7
    } else if c == '8' {
        8
    } else if c == '9' {
        9
    } else if c == 'a' || c == 'A' {
        10
    } else if c == 'b' || c == 'B' {
        11
    } else if c == 'c' || c == 'C' {
        12
    } else if c == 'd' || c == 'D' {
        13
    } else if c == 'e' || c == 'E' {
        14
    } else if c == 'f' || c == 'F' {
        15
    } else {
        -1
    }
}

pub open spec fn is_hex_digit(c: char) -> bool {
    hex_val(c) >= 0
}

/// Sixteen to the power `k`.
pub open spec fn pow16(k: nat) -> int
    decreases k,
{
    if k == 0 {
        1
    } else {
        16 * pow16((k - 1) as nat)
    }
}

/// The low `n` hex digits of `v`, most significant first.
pub open spec fn hexn(v: int, n: nat) -> Seq<char>
    decreases n,
{
    if n == 0 {
        Seq::empty()
    } else {
        hexn(v / 16, (n - 1) as nat).push(hex_char(v % 16))
    }
}

/// The value of a sequence of hex digit characters, most significant first.
pub open spec fn hex_num(s: Seq<char>) -> int
    decreases s.len(),
{
    if s.len() == 0 {
        0
    } else {
        hex_num(s.drop_last()) * 16 + hex_val(s.last())
    }
}

/// The canonical text of an identifier: groups of 8, 4, 4, 4 and 12 hex
/// digits, separated by dashes.
pub open spec fn uuid_chars(id: u128) -> Seq<char> {
    let h = hexn(id as int, 32);
    h.subrange(0, 8) + seq!['-'] + h.subrange(8, 12) + seq!['-'] + h.subrange(12, 16) + seq!['-']
        + h.subrange(16, 20) + seq!['-'] + h.subrange(20, 32)
}

/// Whether a character sequence has the canonical UUID shape: 36 characters,
/// dashes at positions 8, 13, 18 and 23, hex digits (either case) elsewhere.
pub open spec fn valid_uuid_chars(s: Seq<char>) -> bool {
    &&& s.len() == 36
    &&& s[8] == '-'
    &&& s[13] == '-'
    &&& s[18] == '-'
    &&& s[23] == '-'
    &&& forall|j: int|
        0 <= j < 36 && j != 8 && j != 13 && j != 18 && j != 23 ==> is_hex_digit(#[trigger] s[j])
}

/// The 32 hex digit characters of a UUID-shaped sequence, dashes dropped.
pub open spec fn uuid_hex_of(s: Seq<char>) -> Seq<char> {
    s.subrange(0, 8) + s.subrange(9, 13) + s.subrange(14, 18) + s.subrange(19, 23) + s.subrange(
        24,
        36,
    )
}

/// The identifier a character sequence denotes: its hex digits' value when it
/// has the canonical UUID shape, nothing otherwise.
pub open spec fn spec_parse_uuid(s: Seq<char>) -> Option<u128> {
    if valid_uuid_chars(s) {
        Some(hex_num(uuid_hex_of(s)) as u128)
    } else {
        None
    }
}

proof fn lemma_pow16_pos(k: nat)
    ensures
        pow16(k) >= 1,
    decreases k,
{
    if k > 0 {
        lemma_pow16_pos((k - 1) as nat);
    }
}

proof fn lemma_pow16_le(k1: nat, k2: nat)
    requires
        k1 <= k2,
    ensures
        pow16(k1) <= pow16(k2),
    decreases k2,
{
    if k1 < k2 {
        lemma_pow16_le(k1, (k2 - 1) as nat);
        lemma_pow16_pos((k2 - 1) as nat);
    }
}

proof fn lemma_pow16_32()
    ensures
        pow16(32) == 0x100000000000000000000000000000000,
{
    reveal_with_fuel(pow16, 33);
}

/// `hexn` yields exactly `n` lowercase hex digits.
proof fn lemma_hexn_digits(v: int, n: nat)
    requires
        v >= 0,
    ensures
        hexn(v, n).len() == n,
        forall|j: int| 0 <= j < n ==> is_hex_digit(#[trigger] hexn(v, n)[j]),
        forall|j: int| 0 <= j < n ==> '\0' <= #[trigger] hexn(v, n)[j] <= '\u{7f}',
    decreases n,
{
    if n > 0 {
        lemma_hexn_digits(v / 16, (n - 1) as nat);
        let prev = hexn(v / 16, (n - 1) as nat);
        let c = hex_char(v % 16);
        assert(is_hex_digit(c));
        assert('\0' <= c <= '\u{7f}');
        assert forall|j: int| 0 <= j < n implies is_hex_digit(#[trigger] hexn(v, n)[j]) by {
            if j < n - 1 {
                assert(hexn(v, n)[j] == prev[j]);
            } else {
                assert(hexn(v, n)[j] == c);
            }
        }
        assert forall|j: int| 0 <= j < n implies '\0' <= #[trigger] hexn(v, n)[j] <= '\u{7f}' by {
            if j < n - 1 {
                assert(hexn(v, n)[j] == prev[j]);
            } else {
                assert(hexn(v, n)[j] == c);
            }
        }
    }
}

/// Reading back the `n` hex digits of a value below `16^n` yields the value.
proof fn lemma_hex_num_hexn(v: int, n: nat)
    requires
        0 <= v < pow16(n),
    ensures
        hex_num(hexn(v, n)) == v,
    decreases n,
{
    if n == 0 {
        assert(v == 0);
    } else {
        let p = pow16((n - 1) as nat);
        lemma_pow16_pos((n - 1) as nat);
        assert(v / 16 < p) by (nonlinear_arith)
            requires
                0 <= v < 16 * p,
                p >= 1,
        ;
        lemma_hex_num_hexn(v / 16, (n - 1) as nat);
        let s = hexn(v, n);
        let t = hexn(v / 16, (n - 1) as nat);
        lemma_hexn_digits(v / 16, (n - 1) as nat);
        assert(s == t.push(hex_char(v % 16)));
        assert(s.drop_last() =~= t);
        assert(s.last() == hex_char(v % 16));
        assert(0 <= v % 16 < 16);
        assert(hex_val(hex_char(v % 16)) == v % 16);
        assert(hex_num(s) == (v / 16) * 16 + v % 16);
    }
}

/// Writing an identifier in canonical form and reading it back yields the
/// identifier: the canonical text denotes exactly the value it was made from.
pub proof fn lemma_uuid_round_trip(id: u128)
    ensures
        spec_parse_uuid(uuid_chars(id)) == Some(id),
{
    let h = hexn(id as int, 32);
    let s = uuid_chars(id);
    lemma_hexn_digits(id as int, 32);
    assert(s.len() == 36);
    assert(s[8] == '-');
    assert(s[13] == '-');
    assert(s[18] == '-');
    assert(s[23] == '-');
    assert forall|j: int|
        0 <= j < 36 && j != 8 && j != 13 && j != 18 && j != 23 implies is_hex_digit(
        #[trigger] s[j],
    ) by {
        if j < 8 {
            assert(s[j] == h[j]);
        } else if j < 13 {
            assert(s[j] == h[j - 1]);
        } else if j < 18 {
            assert(s[j] == h[j - 2]);
        } else if j < 23 {
            assert(s[j] == h[j - 3]);
        } else {
            assert(s[j] == h[j - 4]);
        }
    }
    assert(valid_uuid_chars(s));
    assert(uuid_hex_of(s) =~= h);
    lemma_pow16_32();
    lemma_hex_num_hexn(id as int, 32);
}

/// The one-character string of a hex digit value.
pub(crate) fn hex_digit_str(d: u128) -> (r: &'static str)
    requires
        d < 16,
    ensures
        r@ =~= seq![hex_char(d as int)],
{
    proof {
        reveal_strlit("0");
        reveal_strlit("1");
        reveal_strlit("2");
        reveal_strlit("3");
        reveal_strlit("4");
        reveal_strlit("5");
        reveal_strlit("6");
        reveal_strlit("7");
        reveal_strlit("8");
        reveal_strlit("9");
        reveal_strlit("a");
        reveal_strlit("b");
        reveal_strlit("c");
        reveal_strlit("d");
        reveal_strlit("e");
        reveal_strlit("f");
    }
    match d {
        0 => "0",
        1 => "1",
        2 => "2",
        3 => "3",
        4 => "4",
        5 => "5",
        6 => "6",
        7 => "7",
        8 => "8",
        9 => "9",
        10 => "a",
        11 => "b",
        12 => "c",
        13 => "d",
        14 => "e",
        _ => "f",
    }
}

/// The low `n` hex digits of `v`, as text, most significant first.
fn hex_fixed(v: u128, n: usize) -> (r: String)
    ensures
        r@ =~= hexn(v as int, n as nat),
    decreases n,
{
    if n == 0 {
        String::new()
    } else {
        let mut s = hex_fixed(v / 16, n - 1);
        s.append(hex_digit_str(v % 16));
        proof {
            assert(s@ =~= hexn(v as int, n as nat));
        }
        s
    }
}

/// Write an identifier in its canonical UUID text form.
pub fn uuid_string(id: u128) -> (r: String)
    ensures
        r@ == uuid_chars(id),
{
    let h = hex_fixed(id, 32);
    let hs = h.as_str();
    proof {
        lemma_hexn_digits(id as int, 32);
        assert(vstd::string::is_ascii(hs));
    }
    let mut out = String::new();
    out.append(hs.substring_ascii(0, 8));
    out.append("-");
    out.append(hs.substring_ascii(8, 12));
    out.append("-");
    out.append(hs.substring_ascii(12, 16));
    out.append("-");
    out.append(hs.substring_ascii(16, 20));
    out.append("-");
    out.append(hs.substring_ascii(20, 32));
    proof {
        reveal_strlit("-");
        assert(("-")@ =~= seq!['-']);
        assert(out@ =~= uuid_chars(id));
    }
    out
}

/// The value of a hex digit character, either case.
fn hex_digit_val(c: char) -> (r: Option<u128>)
    ensures
        match r {
            Some(d) => is_hex_digit(c) && d == hex_val(c),
            None => !is_hex_digit(c),
        },
{
    match c {
        '0' => Some(0),
        '1' => Some(1),
        '2' => Some(2),
        '3' => Some(3),
        '4' => Some(4),
        '5' => Some(5),
        '6' => Some(6),
        '7' => Some(7),
        '8' => Some(8),
        '9' => Some(9),
        'a' | 'A' => Some(10),
        'b' | 'B' => Some(11),
        'c' | 'C' => Some(12),
        'd' | 'D' => Some(13),
        'e' | 'E' => Some(14),
        'f' | 'F' => Some(15),
        _ => None,
    }
}

/// Read an identifier from its canonical UUID text form; either case of hex
/// digit is accepted. Yields nothing exactly when the text is not so shaped.
pub fn parse_uuid(s: &str) -> (r: Option<u128>)
    ensures
        r == spec_parse_uuid(s@),
{
    if s.unicode_len() != 36 {
        return None;
    }
    if s.get_char(8) != '-' || s.get_char(13) != '-' || s.get_char(18) != '-' || s.get_char(23)
        != '-' {
        return None;
    }
    let ghost hex = uuid_hex_of(s@);
    proof {
        assert(hex.len() == 32);
    }
    let mut v: u128 = 0;
    let mut count: usize = 0;
    let mut j: usize = 0;
    while j < 36
        invariant
            s@.len() == 36,
            hex == uuid_hex_of(s@),
            j <= 36,
            count == j - ghost_dashes_before(j as int),
            count <= 32,
            forall|m: int| 0 <= m < count ==> is_hex_digit(#[trigger] hex[m]),
            v == hex_num(hex.subrange(0, count as int)),
            v < pow16(count as nat),
        decreases 36 - j,
    {
        if j == 8 || j == 13 || j == 18 || j == 23 {
            j += 1;
            continue ;
        }
        let c = s.get_char(j);
        proof {
            lemma_hex_src(s@, j as int);
            assert(hex[count as int] == s@[j as int]);
        }
        match hex_digit_val(c) {
            Some(d) => {
                proof {
                    lemma_pow16_le(count as nat, 31);
                    lemma_pow16_32();
                    lemma_pow16_pos(count as nat);
                    assert(v * 16 + 15 < pow16((count + 1) as nat)) by (nonlinear_arith)
                        requires
                            v < pow16(count as nat),
                            pow16((count + 1) as nat) == 16 * pow16(count as nat),
                    ;
                    assert(pow16((count + 1) as nat) <= pow16(32)) by {
                        lemma_pow16_le((count + 1) as nat, 32);
                    }
                    let pre = hex.subrange(0, count as int);
                    let post = hex.subrange(0, count + 1);
                    assert(post.drop_last() =~= pre);
                    assert(post.last() == hex[count as int]);
                }
                v = v * 16 + d;
                count += 1;
            },
            None => {
                proof {
                    assert(!is_hex_digit(s@[j as int]));
                    assert(!valid_uuid_chars(s@));
                }
                return None;
            },
        }
        j += 1;
    }
    proof {
        assert(count == 32);
        assert(hex.subrange(0, 32) =~= hex);
        assert forall|m: int|
            0 <= m < 36 && m != 8 && m != 13 && m != 18 && m != 23 implies is_hex_digit(
            #[trigger] s@[m],
        ) by {
            lemma_hex_src(s@, m);
            let k = m - ghost_dashes_before(m);
            assert(s@[m] == hex[k]);
        }
        assert(valid_uuid_chars(s@));
        assert(v == hex_num(uuid_hex_of(s@)));
    }
    Some(v)
}

/// How many dash positions of the canonical form lie strictly before `j`.
spec fn ghost_dashes_before(j: int) -> int {
    if j <= 8 {
        0
    } else if j <= 13 {
        1
    } else if j <= 18 {
        2
    } else if j <= 23 {
        3
    } else {
        4
    }
}

/// In a 36-character sequence, the character at a non-dash position `j`
/// stands in the dash-free digit sequence at `j` less the dashes before it.
proof fn lemma_hex_src(s: Seq<char>, j: int)
    requires
        s.len() == 36,
        0 <= j < 36,
        j != 8 && j != 13 && j != 18 && j != 23,
    ensures
        0 <= j - ghost_dashes_before(j) < 32,
        uuid_hex_of(s)[j - ghost_dashes_before(j)] == s[j],
{
}

/// Relies on `uuid::Uuid::new_v4` and `uuid::Uuid::as_u128`: a freshly
/// generated random (version 4) UUID, as its 128-bit value. Nothing is
/// promised of the value: it is random.
#[verifier::external_body]
pub(crate) fn random_id() -> u128 {
    uuid::Uuid::new_v4().as_u128()
}

} // verus!
