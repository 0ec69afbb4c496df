//! Verified text utilities shared by the codec and the client: string
//! comparison and scanning, decimal and hexadecimal rendering and parsing,
//! and the concatenation lemmas the codec proofs lean on.
use vstd::prelude::*;

use crate::DecodeError;

verus! {

/// Character-for-character equality of two strings.
pub fn str_eq(a: &str, b: &str) -> (r: bool)
    ensures
        r == (a@ == b@),
{
    let n = a.unicode_len();
    if n != b.unicode_len() {
        return false;
    }
    let mut i: usize = 0;
    while i < n
        invariant
            i <= n,
            n == a@.len(),
            n == b@.len(),
            forall|j: int| 0 <= j < i ==> a@[j] == b@[j],
        decreases n - i,
    {
        if a.get_char(i) != b.get_char(i) {
            return false;
        }
        i = i + 1;
    }
    proof {
        assert(a@ =~= b@);
    }
    true
}

/// The character for one decimal digit.
pub open spec fn digit_char(d: nat) -> char {
    if d == 0 {
        '0'
    } else if d == 1 {
        '1'
    } else if d == 2 {
        '2'
    } else if d == 3 {
        '3'
    } else if d == 4 {
        '4'
    } else if d == 5 {
        '5'
    } else if d == 6 {
        '6'
    } else if d == 7 {
        '7'
    } else if d == 8 {
        '8'
    } else {
        '9'
    }
}

/// Decimal text of a natural number, most significant digit first, no sign
/// and no leading zeros (except for zero itself).
pub open spec fn dec_of(n: nat) -> Seq<char>
    decreases n,
{
    if n < 10 {
        seq![digit_char(n)]
    } else {
        dec_of(n / 10) + seq![digit_char(n % 10)]
    }
}

fn digit_str(d: u64) -> (r: &'static str)
    requires
        d < 10,
    ensures
        r@ =~= seq![digit_char(d as nat)],
{
    let r: &'static str = match d {
        0 => "0",
        1 => "1",
        2 => "2",
        3 => "3",
        4 => "4",
        5 => "5",
        6 => "6",
        7 => "7",
        8 => "8",
        _ => "9",
    };
    proof {
        reveal_strlit("0");
        reveal_strlit("1");
        reveal_strlit("2");
        reveal_strlit("3");
        reveal_strlit("4");
        reveal_strlit("5");
        reveal_strlit("6");
        reveal_strlit("7");
        reveal_strlit("8");
        reveal_strlit("9");
    }
    r
}

/// Decimal rendering of a 64-bit number.
pub fn u64_dec(n: u64) -> (r: String)
    ensures
        r@ == dec_of(n as nat),
    decreases n,
{
    if n < 10 {
        let mut s = String::new();
        s.append(digit_str(n));
        proof {
            assert(s@ =~= dec_of(n as nat));
        }
        s
    } else {
        let mut s = u64_dec(n / 10);
        s.append(digit_str(n % 10));
        proof {
            assert(s@ =~= dec_of(n as nat));
        }
        s
    }
}

/// A decimal digit character.
pub open spec fn is_digit_char(c: char) -> bool {
    '0' <= c && c <= '9'
}

proof fn lemma_digit_char_inj(d1: nat, d2: nat)
    requires
        d1 < 10,
        d2 < 10,
        digit_char(d1) == digit_char(d2),
    ensures
        d1 == d2,
{
}

/// Decimal text is non-empty and made of digits.
proof fn lemma_dec_of_digits(n: nat)
    ensures
        dec_of(n).len() >= 1,
        forall|i: int| 0 <= i < dec_of(n).len() ==> is_digit_char(#[trigger] dec_of(n)[i]),
    decreases n,
{
    if n >= 10 {
        lemma_dec_of_digits(n / 10);
    }
}

/// Decimal text never starts with a zero digit, except for zero itself.
proof fn lemma_dec_of_leading(n: nat)
    requires
        n >= 1,
    ensures
        dec_of(n)[0] != '0',
    decreases n,
{
    if n >= 10 {
        lemma_dec_of_leading(n / 10);
        lemma_dec_of_digits(n / 10);
        assert(dec_of(n)[0] == dec_of(n / 10)[0]);
    }
}

/// Two numbers with the same decimal text are the same number.
proof fn lemma_dec_of_inj(a: nat, b: nat)
    requires
        dec_of(a) == dec_of(b),
    ensures
        a == b,
    decreases a,
{
    lemma_dec_of_digits(a);
    lemma_dec_of_digits(b);
    if a < 10 && b < 10 {
        assert(dec_of(a)[0] == digit_char(a));
        assert(dec_of(b)[0] == digit_char(b));
        lemma_digit_char_inj(a, b);
    } else if a >= 10 && b >= 10 {
        assert(dec_of(a).drop_last() =~= dec_of(a / 10));
        assert(dec_of(b).drop_last() =~= dec_of(b / 10));
        assert(dec_of(a).last() == digit_char(a % 10));
        lemma_digit_char_inj(a % 10, b % 10);
        lemma_dec_of_inj(a / 10, b / 10);
    } else if a < 10 {
        assert(dec_of(b).len() == dec_of(b / 10).len() + 1);
        assert(dec_of(b / 10).len() >= 1);
    } else {
        assert(dec_of(a).len() == dec_of(a / 10).len() + 1);
        assert(dec_of(a / 10).len() >= 1);
    }
}

/// Every non-empty prefix of a decimal text is itself the decimal text of a
/// number no larger than the whole.
proof fn lemma_dec_of_prefix(n: nat, k: int)
    requires
        1 <= k <= dec_of(n).len(),
    ensures
        exists|m: nat| m <= n && dec_of(n).subrange(0, k) == #[trigger] dec_of(m),
    decreases n,
{
    lemma_dec_of_digits(n);
    if k == dec_of(n).len() {
        assert(dec_of(n).subrange(0, k) =~= dec_of(n));
        assert(n <= n && dec_of(n).subrange(0, k) == dec_of(n));
    } else {
        assert(n >= 10);
        assert(dec_of(n).drop_last() =~= dec_of(n / 10));
        assert(dec_of(n).subrange(0, k) =~= dec_of(n / 10).subrange(0, k));
        lemma_dec_of_prefix(n / 10, k);
        let m0 = choose|m: nat| m <= n / 10 && dec_of(n / 10).subrange(0, k) == #[trigger] dec_of(m);
        assert(m0 <= n && dec_of(n).subrange(0, k) == dec_of(m0));
    }
}

fn dec_digit_val(c: char) -> (r: Option<u64>)
    ensures
        r matches Some(d) ==> d < 10 && digit_char(d as nat) == c,
        r is None ==> !is_digit_char(c),
        r is Some <==> is_digit_char(c),
{
    match c {
        '0' => Some(0),
        '1' => Some(1),
        '2' => Some(2),
        '3' => Some(3),
        '4' => Some(4),
        '5' => Some(5),
        '6' => Some(6),
        '7' => Some(7),
        '8' => Some(8),
        '9' => Some(9),
        _ => None,
    }
}

/// The number `n` spelled in canonical decimal from `pos` to `end`, with the
/// digit run ending there: `end` is the text's end or holds a non-digit.
pub open spec fn valid_dec(s: Seq<char>, pos: int, n: u64, end: int) -> bool {
    &&& 0 <= pos <= end <= s.len()
    &&& s.subrange(pos, end) == dec_of(n as nat)
    &&& (end == s.len() || !is_digit_char(s[end]))
}

/// Reads a canonical decimal number (no sign, no leading zeros) at `pos`,
/// up to the end of the digit run. Succeeds exactly on the texts `valid_dec`
/// describes for some 64-bit number, and identifies number and end uniquely.
pub(crate) fn parse_u64_dec(s: &str, pos: usize) -> (r: Result<(u64, usize), DecodeError>)
    requires
        pos <= s@.len(),
    ensures
        r matches Ok((v, end)) ==> valid_dec(s@, pos as int, v, end as int),
        forall|n0: u64, e0: int| valid_dec(s@, pos as int, n0, e0) ==> r is Ok,
        r matches Ok((v, end)) ==> forall|n0: u64, e0: int|
            valid_dec(s@, pos as int, n0, e0) ==> v == n0 && end == e0,
{
    let n = s.unicode_len();
    if pos >= n {
        proof {
            assert forall|n0: u64, e0: int| !valid_dec(s@, pos as int, n0, e0) by {
                if valid_dec(s@, pos as int, n0, e0) {
                    lemma_dec_of_digits(n0 as nat);
                }
            }
        }
        return Err(DecodeError);
    }
    let d0 = match dec_digit_val(s.get_char(pos)) {
        Some(d) => d,
        None => {
            proof {
                assert forall|n0: u64, e0: int| !valid_dec(s@, pos as int, n0, e0) by {
                    if valid_dec(s@, pos as int, n0, e0) {
                        lemma_dec_of_digits(n0 as nat);
                        assert(s@.subrange(pos as int, e0)[0] == dec_of(n0 as nat)[0]);
                    }
                }
            }
            return Err(DecodeError);
        },
    };
    if d0 == 0 {
        if pos + 1 < n {
            let c1 = s.get_char(pos + 1);
            if dec_digit_val(c1).is_some() {
                proof {
                    assert forall|n0: u64, e0: int| !valid_dec(s@, pos as int, n0, e0) by {
                        if valid_dec(s@, pos as int, n0, e0) {
                            lemma_dec_of_digits(n0 as nat);
                            assert(s@.subrange(pos as int, e0)[0] == dec_of(n0 as nat)[0]);
                            assert(s@[pos as int] == digit_char(0));
                            if n0 >= 1 {
                                lemma_dec_of_leading(n0 as nat);
                                assert(false);
                            }
                            assert(n0 == 0);
                            assert(e0 == pos + 1);
                            assert(is_digit_char(s@[e0]));
                            assert(false);
                        }
                    }
                }
                return Err(DecodeError);
            }
        }
        proof {
            assert(s@.subrange(pos as int, pos + 1) =~= dec_of(0));
            assert(valid_dec(s@, pos as int, 0u64, pos + 1));
            assert forall|n0: u64, e0: int|
                valid_dec(s@, pos as int, n0, e0) implies 0u64 == n0 && pos + 1 == e0 by {
                lemma_dec_of_digits(n0 as nat);
                assert(s@.subrange(pos as int, e0)[0] == dec_of(n0 as nat)[0]);
                assert(s@[pos as int] == digit_char(0));
                if n0 >= 1 {
                    lemma_dec_of_leading(n0 as nat);
                }
                assert(n0 == 0);
            }
        }
        return Ok((0, pos + 1));
    }
    let mut v: u64 = d0;
    let mut i: usize = pos + 1;
    let mut overflow: bool = false;
    let ghost mut odigit: u64 = 0;
    proof {
        assert(s@.subrange(pos as int, pos + 1) =~= dec_of(v as nat));
    }
    while i < n
        invariant_except_break
            !overflow,
        invariant
            pos < i <= n,
            n == s@.len(),
            1 <= v,
            s@.subrange(pos as int, i as int) == dec_of(v as nat),
            forall|k: int| pos <= k < i ==> is_digit_char(s@[k]),
        ensures
            pos < i <= n,
            n == s@.len(),
            1 <= v,
            s@.subrange(pos as int, i as int) == dec_of(v as nat),
            forall|k: int| pos <= k < i ==> is_digit_char(s@[k]),
            !overflow ==> i == n || !is_digit_char(s@[i as int]),
            overflow ==> i < n && odigit < 10 && s@[i as int] == digit_char(odigit as nat) && 10
                * (v as int) + odigit > u64::MAX,
        decreases n - i,
    {
        let d = match dec_digit_val(s.get_char(i)) {
            Some(d) => d,
            None => {
                break ;
            },
        };
        if v > (u64::MAX - d) / 10 {
            proof {
                assert(10 * (v as int) + (d as int) > u64::MAX) by (nonlinear_arith)
                    requires
                        (v as int) > ((u64::MAX - d) as int) / 10,
                        0 <= (d as int) < 10,
                        (v as int) >= 0,
                ;
                odigit = d;
            }
            overflow = true;
            break ;
        }
        proof {
            assert(10 * (v as int) + (d as int) <= u64::MAX) by (nonlinear_arith)
                requires
                    (v as int) <= ((u64::MAX - d) as int) / 10,
                    0 <= (d as int) < 10,
                    (v as int) >= 0,
            ;
        }
        let ghost vpre = v as nat;
        v = v * 10 + d;
        i = i + 1;
        proof {
            assert(v as nat == vpre * 10 + d);
            assert((v as nat) / 10 == vpre && (v as nat) % 10 == d as nat) by (nonlinear_arith)
                requires
                    v as nat == vpre * 10 + d,
                    (d as nat) < 10,
            ;
            assert(dec_of(v as nat) == dec_of(vpre) + seq![digit_char(d as nat)]);
            lemma_join_at(s@, pos as int, i - 1, i as int);
            assert(s@.subrange(i - 1, i as int) =~= seq![digit_char(d as nat)]);
            assert(s@.subrange(pos as int, i as int) == dec_of(v as nat));
        }
    }
    if overflow {
        proof {
            assert forall|n0: u64, e0: int| !valid_dec(s@, pos as int, n0, e0) by {
                if valid_dec(s@, pos as int, n0, e0) {
                    lemma_dec_of_digits(n0 as nat);
                    lemma_dec_run(s@, pos as int, i + 1, n0, e0);
                    lemma_dec_of_prefix(n0 as nat, i + 1 - pos);
                    let m = choose|m: nat|
                        m <= n0 as nat && dec_of(n0 as nat).subrange(0, i + 1 - pos)
                            == #[trigger] dec_of(m);
                    assert(s@.subrange(pos as int, i + 1) =~= dec_of(n0 as nat).subrange(
                        0,
                        i + 1 - pos,
                    ));
                    assert(dec_of(m).drop_last() =~= s@.subrange(pos as int, i as int));
                    lemma_dec_of_digits(m);
                    if m < 10 {
                        assert(dec_of(m).len() == 1);
                        assert(false);
                    } else {
                        assert(dec_of(m).drop_last() =~= dec_of(m / 10));
                        lemma_dec_of_inj(m / 10, v as nat);
                        assert(dec_of(m).last() == digit_char(m % 10));
                        assert(dec_of(m).last() == s@[i as int]);
                        lemma_digit_char_inj(m % 10, odigit as nat);
                        assert(m == 10 * (m / 10) + m % 10);
                        assert(m as int == 10 * (v as int) + odigit);
                        assert(m > u64::MAX);
                        assert(false);
                    }
                }
            }
        }
        return Err(DecodeError);
    }
    proof {
        assert(valid_dec(s@, pos as int, v, i as int));
        assert forall|n0: u64, e0: int|
            valid_dec(s@, pos as int, n0, e0) implies v == n0 && i == e0 by {
            lemma_dec_of_digits(n0 as nat);
            lemma_dec_run(s@, pos as int, i as int, n0, e0);
            if i < e0 {
                assert(s@.subrange(pos as int, e0)[i - pos] == dec_of(n0 as nat)[i - pos]);
                assert(is_digit_char(s@[i as int]));
            }
            assert(e0 == i);
            assert(dec_of(v as nat) == dec_of(n0 as nat));
            lemma_dec_of_inj(v as nat, n0 as nat);
        }
    }
    Ok((v, i))
}

/// A digit run cannot end before a point every character up to which is a
/// digit: the canonical decimal at `pos` extends at least to `i`.
proof fn lemma_dec_run(s: Seq<char>, pos: int, i: int, n0: u64, e0: int)
    requires
        valid_dec(s, pos, n0, e0),
        pos < i <= s.len(),
        forall|k: int| pos <= k < i ==> is_digit_char(s[k]),
    ensures
        e0 >= i,
{
    lemma_dec_of_digits(n0 as nat);
    if e0 < i {
        assert(is_digit_char(s[e0]));
    }
}

/// The character for one hexadecimal digit (lower case).
pub open spec fn hex_char(d: nat) -> char {
    if d < 10 {
        digit_char(d)
    } else if d == 10 {
        'a'
    } else if d == 11 {
        'b'
    } else if d == 12 {
        'c'
    } else if d == 13 {
        'd'
    } else if d == 14 {
        'e'
    } else {
        'f'
    }
}

/// Lower-case hex text of a byte sequence, two digits per byte.
pub open spec fn hex_of(b: Seq<u8>) -> Seq<char>
    decreases b.len(),
{
    if b.len() == 0 {
        Seq::empty()
    } else {
        hex_of(b.drop_last()) + seq![
            hex_char((b.last() / 16) as nat),
            hex_char((b.last() % 16) as nat),
        ]
    }
}

fn hex_digit_str(d: u8) -> (r: &'static str)
    requires
        d < 16,
    ensures
        r@ =~= seq![hex_char(d as nat)],
{
    if d < 10 {
        digit_str(d as u64)
    } else {
        let r: &'static str = match d {
            10 => "a",
            11 => "b",
            12 => "c",
            13 => "d",
            14 => "e",
            _ => "f",
        };
        proof {
            reveal_strlit("a");
            reveal_strlit("b");
            reveal_strlit("c");
            reveal_strlit("d");
            reveal_strlit("e");
            reveal_strlit("f");
        }
        r
    }
}

/// Appends the hex text of `b` to `out`.
pub fn append_hex(out: &mut String, b: &Vec<u8>)
    ensures
        final(out)@ == old(out)@ + hex_of(b@),
{
    let mut i: usize = 0;
    while i < b.len()
        invariant
            i <= b@.len(),
            out@ == old(out)@ + hex_of(b@.subrange(0, i as int)),
        decreases b@.len() - i,
    {
        let byte = b[i];
        out.append(hex_digit_str(byte / 16));
        out.append(hex_digit_str(byte % 16));
        i = i + 1;
        proof {
            assert(b@.subrange(0, i as int).drop_last() =~= b@.subrange(0, i - 1));
            assert(b@.subrange(0, i as int).last() == b@[i - 1]);
            assert(out@ =~= old(out)@ + hex_of(b@.subrange(0, i as int)));
        }
    }
    proof {
        assert(b@.subrange(0, b@.len() as int) =~= b@);
    }
}

/// The hex text of a byte sequence is two characters per byte.
pub proof fn lemma_hex_of_len(b: Seq<u8>)
    ensures
        hex_of(b).len() == 2 * b.len(),
    decreases b.len(),
{
    if b.len() > 0 {
        lemma_hex_of_len(b.drop_last());
    }
}

/// Each byte's two hex digits stand at twice its index.
proof fn lemma_hex_of_index(b: Seq<u8>, i: int)
    requires
        0 <= i < b.len(),
    ensures
        hex_of(b).len() == 2 * b.len(),
        hex_of(b)[2 * i] == hex_char((b[i] / 16) as nat),
        hex_of(b)[2 * i + 1] == hex_char((b[i] % 16) as nat),
    decreases b.len(),
{
    lemma_hex_of_len(b);
    lemma_hex_of_len(b.drop_last());
    if i == b.len() - 1 {
    } else {
        lemma_hex_of_index(b.drop_last(), i);
        assert(b.drop_last()[i] == b[i]);
    }
}

proof fn lemma_hex_char_inj(d1: nat, d2: nat)
    requires
        d1 < 16,
        d2 < 16,
        hex_char(d1) == hex_char(d2),
    ensures
        d1 == d2,
{
}

proof fn lemma_hex_of_inj(a: Seq<u8>, b: Seq<u8>)
    requires
        a.len() == b.len(),
        hex_of(a) == hex_of(b),
    ensures
        a == b,
    decreases a.len(),
{
    lemma_hex_of_len(a);
    lemma_hex_of_len(b);
    if a.len() == 0 {
        assert(a =~= b);
    } else {
        let i = a.len() - 1;
        lemma_hex_of_index(a, i as int);
        lemma_hex_of_index(b, i as int);
        lemma_hex_char_inj((a[i as int] / 16) as nat, (b[i as int] / 16) as nat);
        lemma_hex_char_inj((a[i as int] % 16) as nat, (b[i as int] % 16) as nat);
        assert(a[i as int] == b[i as int]);
        assert forall|j: int| 0 <= j < i implies a[j] == b[j] by {
            lemma_hex_of_index(a, j);
            lemma_hex_of_index(b, j);
            lemma_hex_char_inj((a[j] / 16) as nat, (b[j] / 16) as nat);
            lemma_hex_char_inj((a[j] % 16) as nat, (b[j] % 16) as nat);
        }
        assert(a =~= b);
    }
}

fn hex_digit_val(c: char) -> (r: Option<u8>)
    ensures
        r matches Some(d) ==> d < 16 && hex_char(d as nat) == c,
        r is None ==> forall|d: u8| d < 16 ==> hex_char(d as nat) != c,
{
    match c {
        '0' => Some(0),
        '1' => Some(1),
        '2' => Some(2),
        '3' => Some(3),
        '4' => Some(4),
        '5' => Some(5),
        '6' => Some(6),
        '7' => Some(7),
        '8' => Some(8),
        '9' => Some(9),
        'a' => Some(10),
        'b' => Some(11),
        'c' => Some(12),
        'd' => Some(13),
        'e' => Some(14),
        'f' => Some(15),
        _ => None,
    }
}

/// 64 hex characters at `pos` in `s` spell the 32-byte value `b`.
pub open spec fn valid_hex32(s: Seq<char>, pos: int, b: Seq<u8>) -> bool {
    &&& b.len() == 32
    &&& 0 <= pos
    &&& pos + 64 <= s.len()
    &&& s.subrange(pos, pos + 64) == hex_of(b)
}

/// Reads exactly 64 hex characters at `pos` as 32 bytes. Succeeds exactly on
/// the texts `valid_hex32` describes, and identifies the bytes uniquely.
pub(crate) fn parse_hex32(s: &str, pos: usize) -> (r: Result<Vec<u8>, DecodeError>)
    requires
        pos <= s@.len(),
    ensures
        r matches Ok(v) ==> v@.len() == 32 && pos + 64 <= s@.len() && s@.subrange(
            pos as int,
            pos + 64,
        ) == hex_of(v@),
        forall|b: Seq<u8>| valid_hex32(s@, pos as int, b) ==> r is Ok,
        r matches Ok(v) ==> forall|b: Seq<u8>| valid_hex32(s@, pos as int, b) ==> v@ == b,
{
    let n = s.unicode_len();
    if n < 64 || pos > n - 64 {
        return Err(DecodeError);
    }
    let mut v: Vec<u8> = Vec::new();
    let mut i: usize = 0;
    while i < 32
        invariant
            i <= 32,
            v@.len() == i,
            pos + 64 <= n,
            n == s@.len(),
            s@.subrange(pos as int, pos + 2 * i) == hex_of(v@),
        decreases 32 - i,
    {
        let c1 = s.get_char(pos + 2 * i);
        let c2 = s.get_char(pos + 2 * i + 1);
        let d1 = match hex_digit_val(c1) {
            Some(d) => d,
            None => {
                proof {
                    assert forall|b: Seq<u8>| !valid_hex32(s@, pos as int, b) by {
                        if valid_hex32(s@, pos as int, b) {
                            lemma_hex_of_index(b, i as int);
                            assert(s@.subrange(pos as int, pos + 64)[2 * i] == hex_of(b)[2 * i]);
                            assert(s@[pos + 2 * i] == hex_char((b[i as int] / 16) as nat));
                            assert(b[i as int] / 16 < 16);
                            assert(false);
                        }
                    }
                }
                return Err(DecodeError);
            },
        };
        let d2 = match hex_digit_val(c2) {
            Some(d) => d,
            None => {
                proof {
                    assert forall|b: Seq<u8>| !valid_hex32(s@, pos as int, b) by {
                        if valid_hex32(s@, pos as int, b) {
                            lemma_hex_of_index(b, i as int);
                            assert(s@.subrange(pos as int, pos + 64)[2 * i + 1] == hex_of(b)[2 * i
                                + 1]);
                            assert(s@[pos + 2 * i + 1] == hex_char((b[i as int] % 16) as nat));
                            assert(b[i as int] % 16 < 16);
                            assert(false);
                        }
                    }
                }
                return Err(DecodeError);
            },
        };
        let byte = d1 * 16 + d2;
        let ghost vpre = v@;
        v.push(byte);
        i = i + 1;
        proof {
            lemma_hex_of_len(vpre);
            assert(byte / 16 == d1 && byte % 16 == d2);
            assert(v@.drop_last() =~= vpre);
            assert(hex_of(v@) == hex_of(vpre) + seq![hex_char(d1 as nat), hex_char(d2 as nat)]);
            lemma_join_at(s@, pos as int, pos + 2 * (i - 1), pos + 2 * i);
            assert(s@.subrange(pos + 2 * (i - 1), pos + 2 * i) =~= seq![c1, c2]);
            assert(s@.subrange(pos as int, pos + 2 * i) == hex_of(v@));
        }
    }
    proof {
        assert forall|b: Seq<u8>| valid_hex32(s@, pos as int, b) implies v@ == b by {
            lemma_hex_of_inj(v@, b);
        }
    }
    Ok(v)
}

/// How one character stands inside a JSON string: a quote or backslash is
/// backslash-escaped, a control character becomes a `\u00` escape with two
/// lower-case hex digits, every other character stands verbatim.
pub open spec fn esc_char(c: char) -> Seq<char> {
    if c == '"' {
        seq!['\\', '"']
    } else if c == '\\' {
        seq!['\\', '\\']
    } else if (c as u32) < 32 {
        seq![
            '\\',
            'u',
            '0',
            '0',
            hex_char(((c as u32) / 16) as nat),
            hex_char(((c as u32) % 16) as nat),
        ]
    } else {
        seq![c]
    }
}

/// The body of the JSON string carrying `s`: each character escaped as
/// `esc_char` says. Total: every string has a wire form.
pub open spec fn json_escaped(s: Seq<char>) -> Seq<char>
    decreases s.len(),
{
    if s.len() == 0 {
        Seq::empty()
    } else {
        esc_char(s[0]) + json_escaped(s.skip(1))
    }
}

/// Escaping a string one character longer appends that character's escape.
pub proof fn lemma_esc_snoc(s: Seq<char>, c: char)
    ensures
        json_escaped(s.push(c)) == json_escaped(s) + esc_char(c),
    decreases s.len(),
{
    if s.len() == 0 {
        assert(s.push(c)[0] == c);
        assert(s.push(c).skip(1) =~= Seq::<char>::empty());
        assert(json_escaped(s.push(c)) == esc_char(c) + json_escaped(s.push(c).skip(1)));
        assert(json_escaped(s.push(c).skip(1)) =~= Seq::<char>::empty());
        assert(json_escaped(s.push(c)) =~= json_escaped(s) + esc_char(c));
    } else {
        assert(s.push(c)[0] == s[0]);
        assert(s.push(c).skip(1) =~= s.skip(1).push(c));
        lemma_esc_snoc(s.skip(1), c);
        assert(json_escaped(s.push(c)) =~= json_escaped(s) + esc_char(c));
    }
}

/// Escaping distributes over concatenation.
proof fn lemma_esc_concat(a: Seq<char>, b: Seq<char>)
    ensures
        json_escaped(a + b) == json_escaped(a) + json_escaped(b),
    decreases a.len(),
{
    if a.len() == 0 {
        assert(a + b =~= b);
        assert(json_escaped(a + b) =~= json_escaped(a) + json_escaped(b));
    } else {
        assert((a + b)[0] == a[0]);
        assert((a + b).skip(1) =~= a.skip(1) + b);
        lemma_esc_concat(a.skip(1), b);
        assert(json_escaped(a + b) =~= json_escaped(a) + json_escaped(b));
    }
}

/// An escape unit is short and never starts with a quote.
proof fn lemma_esc_char_shape(c: char)
    ensures
        1 <= esc_char(c).len() <= 6,
        esc_char(c)[0] != '"',
{
}

/// Two escape units standing at the same place encode the same character.
proof fn lemma_esc_unit_inj(s: Seq<char>, u: int, x: char, y: char)
    requires
        0 <= u,
        u + esc_char(x).len() <= s.len(),
        u + esc_char(y).len() <= s.len(),
        forall|j: int| 0 <= j < esc_char(x).len() ==> s[u + j] == #[trigger] esc_char(x)[j],
        forall|j: int| 0 <= j < esc_char(y).len() ==> s[u + j] == #[trigger] esc_char(y)[j],
    ensures
        x == y,
{
    lemma_esc_char_shape(x);
    lemma_esc_char_shape(y);
    assert(s[u] == esc_char(x)[0]);
    assert(s[u] == esc_char(y)[0]);
    if x == '"' || x == '\\' || (x as u32) < 32 {
        assert(esc_char(x)[0] == '\\');
        assert(y == '"' || y == '\\' || (y as u32) < 32);
        assert(s[u + 1] == esc_char(x)[1]);
        assert(s[u + 1] == esc_char(y)[1]);
        if x == '"' {
            assert(esc_char(x)[1] == '"');
            assert(y == '"');
        } else if x == '\\' {
            assert(y == '\\');
        } else {
            assert(esc_char(x)[1] == 'u');
            assert((y as u32) < 32);
            assert(s[u + 4] == esc_char(x)[4]);
            assert(s[u + 4] == esc_char(y)[4]);
            assert(s[u + 5] == esc_char(x)[5]);
            assert(s[u + 5] == esc_char(y)[5]);
            lemma_hex_char_inj(((x as u32) / 16) as nat, ((y as u32) / 16) as nat);
            lemma_hex_char_inj(((x as u32) % 16) as nat, ((y as u32) % 16) as nat);
            assert((x as u32) == (y as u32));
            assert(x == y);
        }
    } else {
        assert(esc_char(x)[0] == x);
        if y == '"' || y == '\\' || (y as u32) < 32 {
            assert(esc_char(y)[0] == '\\');
            assert(x == '\\');
            assert(false);
        }
        assert(esc_char(y)[0] == y);
    }
}

/// The escaped content `c` stands between `pos` and the closing quote at
/// `close`.
pub open spec fn valid_jstr(s: Seq<char>, pos: int, c: Seq<char>, close: int) -> bool {
    &&& 0 <= pos <= close < s.len()
    &&& s[close] == '"'
    &&& s.subrange(pos, close) == json_escaped(c)
}

/// Where the escape unit of character `k` of the content stands in the text.
proof fn lemma_esc_at(s: Seq<char>, pos: int, c0: Seq<char>, e0: int, k: int)
    requires
        valid_jstr(s, pos, c0, e0),
        0 <= k < c0.len(),
    ensures
        ({
            let u = pos + json_escaped(c0.take(k)).len();
            &&& pos <= u
            &&& u + esc_char(c0[k]).len() <= e0
            &&& forall|j: int|
                0 <= j < esc_char(c0[k]).len() ==> s[u + j] == #[trigger] esc_char(c0[k])[j]
        }),
{
    lemma_esc_char_shape(c0[k]);
    assert(c0 =~= c0.take(k) + c0.skip(k));
    lemma_esc_concat(c0.take(k), c0.skip(k));
    assert(c0.skip(k)[0] == c0[k]);
    assert(c0.skip(k).skip(1) =~= c0.skip(k + 1));
    assert(json_escaped(c0.skip(k)) == esc_char(c0[k]) + json_escaped(c0.skip(k + 1)));
    let u = pos + json_escaped(c0.take(k)).len();
    let tail = json_escaped(c0.skip(k + 1));
    assert(json_escaped(c0) =~= json_escaped(c0.take(k)) + (esc_char(c0[k]) + tail));
    lemma_split_at(s, pos, e0, json_escaped(c0.take(k)), esc_char(c0[k]) + tail);
    lemma_split_at(s, u, e0, esc_char(c0[k]), tail);
    assert forall|j: int| 0 <= j < esc_char(c0[k]).len() implies s[u + j] == #[trigger] esc_char(
        c0[k],
    )[j] by {
        assert(s.subrange(u, u + esc_char(c0[k]).len() as int)[j] == esc_char(c0[k])[j]);
    }
}

/// The full content reaches exactly to the closing quote.
proof fn lemma_esc_whole(s: Seq<char>, pos: int, c0: Seq<char>, e0: int)
    requires
        valid_jstr(s, pos, c0, e0),
    ensures
        e0 == pos + json_escaped(c0).len(),
        json_escaped(c0.take(c0.len() as int)) == json_escaped(c0),
{
    assert(c0.take(c0.len() as int) =~= c0);
}

/// Relies on `String`'s `FromIterator` impl: collecting characters yields
/// the string of exactly those characters, in order.
#[verifier::external_body]
pub(crate) fn chars_to_string(v: &Vec<char>) -> (r: String)
    ensures
        r@ == v@,
{
    v.iter().collect()
}

fn hex_char_of(d: u8) -> (r: char)
    requires
        d < 16,
    ensures
        r == hex_char(d as nat),
{
    match d {
        0 => '0',
        1 => '1',
        2 => '2',
        3 => '3',
        4 => '4',
        5 => '5',
        6 => '6',
        7 => '7',
        8 => '8',
        9 => '9',
        10 => 'a',
        11 => 'b',
        12 => 'c',
        13 => 'd',
        14 => 'e',
        _ => 'f',
    }
}

/// Appends the escaped body of `s` to `out`. Total: every string is carried.
pub fn append_escaped(out: &mut String, s: &str)
    ensures
        final(out)@ == old(out)@ + json_escaped(s@),
{
    let n = s.unicode_len();
    let mut buf: Vec<char> = Vec::new();
    let mut i: usize = 0;
    proof {
        assert(s@.take(0) =~= Seq::<char>::empty());
    }
    while i < n
        invariant
            i <= n,
            n == s@.len(),
            buf@ == json_escaped(s@.take(i as int)),
        decreases n - i,
    {
        let c = s.get_char(i);
        let ghost bufpre = buf@;
        if c == '"' {
            buf.push('\\');
            buf.push('"');
        } else if c == '\\' {
            buf.push('\\');
            buf.push('\\');
        } else if (c as u32) < 32 {
            let code = c as u32;
            buf.push('\\');
            buf.push('u');
            buf.push('0');
            buf.push('0');
            buf.push(hex_char_of((code / 16) as u8));
            buf.push(hex_char_of((code % 16) as u8));
        } else {
            buf.push(c);
        }
        i = i + 1;
        proof {
            assert(s@.take(i as int) =~= s@.take(i - 1).push(s@[i - 1]));
            lemma_esc_snoc(s@.take(i - 1), s@[i - 1]);
            assert(buf@ =~= bufpre + esc_char(s@[i - 1]));
        }
    }
    proof {
        assert(s@.take(n as int) =~= s@);
    }
    let piece = chars_to_string(&buf);
    out.append(piece.as_str());
}

/// Reads an escaped JSON string body at `pos`, up to its closing quote.
/// Succeeds exactly on the texts `valid_jstr` describes, and identifies the
/// content and the closing position uniquely.
#[verifier::rlimit(100)]
pub(crate) fn parse_jstr(s: &str, pos: usize) -> (r: Result<(String, usize), DecodeError>)
    requires
        pos <= s@.len(),
    ensures
        r matches Ok((c, close)) ==> valid_jstr(s@, pos as int, c@, close as int),
        forall|c0: Seq<char>, e0: int| valid_jstr(s@, pos as int, c0, e0) ==> r is Ok,
        r matches Ok((c, close)) ==> forall|c0: Seq<char>, e0: int|
            valid_jstr(s@, pos as int, c0, e0) ==> c@ == c0 && close == e0,
{
    let n = s.unicode_len();
    let mut out: Vec<char> = Vec::new();
    let mut cur: usize = pos;
    proof {
        assert(s@.subrange(pos as int, pos as int) =~= json_escaped(Seq::<char>::empty()));
    }
    while cur < n
        invariant
            pos <= cur <= n,
            n == s@.len(),
            s@.subrange(pos as int, cur as int) == json_escaped(out@),
            forall|c0: Seq<char>, e0: int|
                #[trigger] valid_jstr(s@, pos as int, c0, e0) ==> out@.len() <= c0.len()
                    && out@ == c0.take(out@.len() as int),
        decreases n - cur,
    {
        let ch = s.get_char(cur);
        if ch == '"' {
            proof {
                assert forall|c0: Seq<char>, e0: int|
                    valid_jstr(s@, pos as int, c0, e0) implies out@ == c0 && cur == e0 by {
                    lemma_esc_whole(s@, pos as int, c0, e0);
                    if out@.len() < c0.len() {
                        lemma_esc_at(s@, pos as int, c0, e0, out@.len() as int);
                        assert(s@[cur as int] == esc_char(c0[out@.len() as int])[0]);
                        lemma_esc_char_shape(c0[out@.len() as int]);
                        assert(false);
                    }
                    assert(out@ =~= c0);
                }
            }
            let content = chars_to_string(&out);
            return Ok((content, cur));
        }
        let ghost outpre = out@;
        let parsed: char;
        let step: usize;
        if ch == '\\' {
            if n - cur < 2 {
                proof {
                    assert forall|c0: Seq<char>, e0: int|
                        !valid_jstr(s@, pos as int, c0, e0) by {
                        if valid_jstr(s@, pos as int, c0, e0) {
                            lemma_esc_whole(s@, pos as int, c0, e0);
                            if outpre.len() < c0.len() {
                                lemma_esc_at(s@, pos as int, c0, e0, outpre.len() as int);
                                lemma_esc_char_shape(c0[outpre.len() as int]);
                                assert(s@[cur as int] == esc_char(c0[outpre.len() as int])[0]);
                                assert(esc_char(c0[outpre.len() as int]).len() >= 2);
                                assert(cur + 2 <= e0);
                            }
                        }
                    }
                }
                return Err(DecodeError);
            }
            let c2 = s.get_char(cur + 1);
            if c2 == '"' {
                parsed = '"';
                step = 2;
            } else if c2 == '\\' {
                parsed = '\\';
                step = 2;
            } else if c2 == 'u' {
                if n - cur < 6 {
                    proof {
                        assert forall|c0: Seq<char>, e0: int|
                            !valid_jstr(s@, pos as int, c0, e0) by {
                            if valid_jstr(s@, pos as int, c0, e0) {
                                lemma_esc_whole(s@, pos as int, c0, e0);
                                if outpre.len() < c0.len() {
                                    lemma_esc_at(s@, pos as int, c0, e0, outpre.len() as int);
                                    lemma_esc_char_shape(c0[outpre.len() as int]);
                                    assert(s@[cur + 1] == esc_char(c0[outpre.len() as int])[1]);
                                    assert(esc_char(c0[outpre.len() as int]).len() == 6);
                                    assert(cur + 6 <= e0);
                                }
                            }
                        }
                    }
                    return Err(DecodeError);
                }
                let z1 = s.get_char(cur + 2);
                let z2 = s.get_char(cur + 3);
                let h1 = s.get_char(cur + 4);
                let h2 = s.get_char(cur + 5);
                let bad: bool;
                let mut code: u8 = 0;
                if z1 != '0' || z2 != '0' {
                    bad = true;
                } else {
                    match (hex_digit_val(h1), hex_digit_val(h2)) {
                        (Some(d1), Some(d2)) => {
                            code = d1 * 16 + d2;
                            bad = code >= 32;
                        },
                        _ => {
                            bad = true;
                        },
                    }
                }
                if bad {
                    proof {
                        assert forall|c0: Seq<char>, e0: int|
                            !valid_jstr(s@, pos as int, c0, e0) by {
                            if valid_jstr(s@, pos as int, c0, e0) {
                                lemma_esc_whole(s@, pos as int, c0, e0);
                                if outpre.len() < c0.len() {
                                    let x = c0[outpre.len() as int];
                                    lemma_esc_at(s@, pos as int, c0, e0, outpre.len() as int);
                                    lemma_esc_char_shape(x);
                                    assert(s@[cur + 1] == esc_char(x)[1]);
                                    assert((x as u32) < 32);
                                    assert(s@[cur + 2] == esc_char(x)[2]);
                                    assert(s@[cur + 3] == esc_char(x)[3]);
                                    assert(s@[cur + 4] == hex_char(((x as u32) / 16) as nat));
                                    assert(s@[cur + 5] == hex_char(((x as u32) % 16) as nat));
                                    assert(((x as u32) / 16) < 16);
                                    assert(((x as u32) % 16) < 16);
                                }
                            }
                        }
                    }
                    return Err(DecodeError);
                }
                parsed = code as char;
                step = 6;
                proof {
                    assert((parsed as u32) == code as u32);
                    assert(esc_char(parsed)[4] == hex_char(((code as u32) / 16) as nat));
                }
            } else {
                proof {
                    assert forall|c0: Seq<char>, e0: int|
                        !valid_jstr(s@, pos as int, c0, e0) by {
                        if valid_jstr(s@, pos as int, c0, e0) {
                            lemma_esc_whole(s@, pos as int, c0, e0);
                            if outpre.len() < c0.len() {
                                let x = c0[outpre.len() as int];
                                lemma_esc_at(s@, pos as int, c0, e0, outpre.len() as int);
                                lemma_esc_char_shape(x);
                                assert(s@[cur as int] == esc_char(x)[0]);
                                assert(esc_char(x).len() >= 2 ==> s@[cur + 1] == esc_char(x)[1]);
                            }
                        }
                    }
                }
                return Err(DecodeError);
            }
        } else if (ch as u32) < 32 {
            proof {
                assert forall|c0: Seq<char>, e0: int| !valid_jstr(s@, pos as int, c0, e0) by {
                    if valid_jstr(s@, pos as int, c0, e0) {
                        lemma_esc_whole(s@, pos as int, c0, e0);
                        if outpre.len() < c0.len() {
                            let x = c0[outpre.len() as int];
                            lemma_esc_at(s@, pos as int, c0, e0, outpre.len() as int);
                            lemma_esc_char_shape(x);
                            assert(s@[cur as int] == esc_char(x)[0]);
                        }
                    }
                }
            }
            return Err(DecodeError);
        } else {
            parsed = ch;
            step = 1;
        }
        out.push(parsed);
        cur = cur + step;
        proof {
            lemma_esc_snoc(outpre, parsed);
            assert(out@ =~= outpre.push(parsed));
            assert(s@.subrange(cur - step, cur as int) =~= esc_char(parsed));
            lemma_join_at(s@, pos as int, cur - step, cur as int);
            assert(s@.subrange(pos as int, cur as int) == json_escaped(out@));
            assert forall|c0: Seq<char>, e0: int|
                #[trigger] valid_jstr(s@, pos as int, c0, e0) implies out@.len() <= c0.len()
                    && out@ == c0.take(out@.len() as int) by {
                lemma_esc_whole(s@, pos as int, c0, e0);
                if outpre.len() == c0.len() {
                    assert(outpre =~= c0);
                    assert(cur - step == e0);
                    assert(s@[e0] == '"');
                    lemma_esc_char_shape(parsed);
                    assert(s@[cur - step] == esc_char(parsed)[0]);
                    assert(false);
                }
                let x = c0[outpre.len() as int];
                lemma_esc_at(s@, pos as int, c0, e0, outpre.len() as int);
                lemma_esc_char_shape(x);
                assert forall|j: int|
                    0 <= j < esc_char(parsed).len() implies s@[cur - step + j] == #[trigger]
                esc_char(parsed)[j] by {
                    assert(s@.subrange(cur - step, cur as int)[j] == esc_char(parsed)[j]);
                }
                lemma_esc_unit_inj(s@, cur - step, x, parsed);
                assert(c0.take(out@.len() as int) =~= c0.take(outpre.len() as int).push(x));
                assert(out@ =~= c0.take(out@.len() as int));
            }
        }
    }
    proof {
        assert forall|c0: Seq<char>, e0: int| !valid_jstr(s@, pos as int, c0, e0) by {
            if valid_jstr(s@, pos as int, c0, e0) {
                lemma_esc_whole(s@, pos as int, c0, e0);
                if out@.len() < c0.len() {
                    lemma_esc_at(s@, pos as int, c0, e0, out@.len() as int);
                    lemma_esc_char_shape(c0[out@.len() as int]);
                } else {
                    assert(out@ =~= c0);
                }
            }
        }
    }
    Err(DecodeError)
}

/// Whether `lit` occurs in `s` starting exactly at `pos`.
pub fn starts_with_at(s: &str, pos: usize, lit: &str) -> (r: bool)
    requires
        pos <= s@.len(),
    ensures
        r == (pos + lit@.len() <= s@.len() && s@.subrange(
            pos as int,
            pos + lit@.len(),
        ) == lit@),
{
    let n = s.unicode_len();
    let m = lit.unicode_len();
    if m > n - pos {
        return false;
    }
    let mut j: usize = 0;
    while j < m
        invariant
            j <= m,
            pos + m <= n,
            n == s@.len(),
            m == lit@.len(),
            forall|k: int| 0 <= k < j ==> s@[pos + k] == lit@[k],
        decreases m - j,
    {
        if s.get_char(pos + j) != lit.get_char(j) {
            proof {
                let sub = s@.subrange(pos as int, pos + lit@.len());
                assert(sub[j as int] != lit@[j as int]);
            }
            return false;
        }
        j = j + 1;
    }
    proof {
        assert(s@.subrange(pos as int, pos + lit@.len()) =~= lit@);
    }
    true
}

/// Splitting a known concatenation: if the text of `s` between `pos` and
/// `end` is `x + y`, then `x` and `y` each occupy their own range.
pub proof fn lemma_split_at(s: Seq<char>, pos: int, end: int, x: Seq<char>, y: Seq<char>)
    requires
        0 <= pos <= end <= s.len(),
        s.subrange(pos, end) == x + y,
    ensures
        pos + x.len() <= end,
        s.subrange(pos, pos + x.len() as int) == x,
        s.subrange(pos + x.len() as int, end) == y,
{
    assert(s.subrange(pos, end).len() == x.len() + y.len());
    assert(end - pos == x.len() + y.len());
    assert forall|i: int| 0 <= i < x.len() implies s[pos + i] == x[i] by {
        assert(s.subrange(pos, end)[i] == (x + y)[i]);
        assert(s.subrange(pos, end)[i] == s[pos + i]);
        assert((x + y)[i] == x[i]);
    }
    assert forall|i: int| 0 <= i < y.len() implies s[pos + x.len() + i] == y[i] by {
        assert(s.subrange(pos, end)[x.len() + i] == (x + y)[x.len() + i]);
        assert(s.subrange(pos, end)[x.len() + i] == s[pos + x.len() + i]);
        assert((x + y)[x.len() + i] == y[i]);
    }
    assert(s.subrange(pos, pos + x.len() as int) =~= x);
    assert(s.subrange(pos + x.len() as int, end) =~= y);
}

/// Joining adjacent ranges: the text over two adjacent ranges is the
/// concatenation of the texts over each.
pub proof fn lemma_join_at(s: Seq<char>, a: int, b: int, c: int)
    requires
        0 <= a <= b <= c <= s.len(),
    ensures
        s.subrange(a, c) == s.subrange(a, b) + s.subrange(b, c),
{
    assert(s.subrange(a, c) =~= s.subrange(a, b) + s.subrange(b, c));
}

/// Index of the first occurrence of `c` in `s` at or after `pos`.
pub fn find_char_from(s: &str, pos: usize, c: char) -> (r: Option<usize>)
    requires
        pos <= s@.len(),
    ensures
        r matches Some(j) ==> pos <= j < s@.len() && s@[j as int] == c && (forall|k: int|
            pos <= k < j ==> s@[k] != c),
        r is None ==> forall|k: int| pos <= k < s@.len() ==> s@[k] != c,
{
    let n = s.unicode_len();
    let mut i: usize = pos;
    while i < n
        invariant
            pos <= i <= n,
            n == s@.len(),
            forall|k: int| pos <= k < i ==> s@[k] != c,
        decreases n - i,
    {
        if s.get_char(i) == c {
            return Some(i);
        }
        i = i + 1;
    }
    None
}

} // verus!
