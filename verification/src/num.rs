//! Decimal parsing and formatting over bytes and characters.
//!
//! The response parser reads ASCII decimal payloads (bulk-string lengths,
//! integer replies) and the request builder and renderers write decimal
//! values back out. Everything here is specified against the mathematical
//! value of the digit string.

use vstd::prelude::*;

verus! {

/// An ASCII decimal digit `0`..`9`.
pub open spec fn is_ascii_digit(b: u8) -> bool {
    48 <= b <= 57
}

/// Every byte of the sequence is an ASCII decimal digit.
pub open spec fn all_digits(s: Seq<u8>) -> bool {
    forall|i: int| 0 <= i < s.len() ==> is_ascii_digit(#[trigger] s[i])
}

/// Numeric value of a sequence of ASCII decimal digits.
pub open spec fn dec_val(s: Seq<u8>) -> int
    decreases s.len(),
{
    if s.len() == 0 {
        0
    } else {
        10 * dec_val(s.drop_last()) + (s.last() - 48)
    }
}

/// Digit sequence, with an optional single leading `+`, as accepted by
/// unsigned decimal parsing.
pub open spec fn unsigned_digits(s: Seq<u8>) -> Seq<u8> {
    if s.len() > 0 && s[0] == 43 {
        s.drop_first()
    } else {
        s
    }
}

/// The byte sequence parses as an unsigned decimal no greater than `max`.
pub open spec fn is_unsigned_dec(s: Seq<u8>, max: int) -> bool {
    let d = unsigned_digits(s);
    d.len() > 0 && all_digits(d) && dec_val(d) <= max
}

/// Value of an unsigned decimal byte sequence.
pub open spec fn unsigned_dec_val(s: Seq<u8>) -> int {
    dec_val(unsigned_digits(s))
}

/// Digit sequence with an optional single leading `+` or `-` stripped.
pub open spec fn signed_digits(s: Seq<u8>) -> Seq<u8> {
    if s.len() > 0 && (s[0] == 43 || s[0] == 45) {
        s.drop_first()
    } else {
        s
    }
}

/// The byte sequence begins with a `-` sign.
pub open spec fn has_minus_sign(s: Seq<u8>) -> bool {
    s.len() > 0 && s[0] == 45
}

/// The byte sequence parses as a signed 64-bit decimal integer, the way
/// `i64` decimal parsing accepts it: an optional sign, then one or more
/// digits, with the value in range.
pub open spec fn is_i64_dec(s: Seq<u8>) -> bool {
    let d = signed_digits(s);
    d.len() > 0 && all_digits(d) && (if has_minus_sign(s) {
        dec_val(d) <= 0x8000_0000_0000_0000
    } else {
        dec_val(d) <= 0x7fff_ffff_ffff_ffff
    })
}

/// Appending digits never decreases the value of the digit string.
pub proof fn lemma_dec_val_prefix(s: Seq<u8>, i: int, j: int)
    requires
        0 <= i <= j <= s.len(),
        all_digits(s),
    ensures
        dec_val(s.subrange(0, i)) <= dec_val(s.subrange(0, j)),
        dec_val(s.subrange(0, i)) >= 0,
    decreases j - i,
{
    if i == j {
        lemma_dec_val_nonneg(s.subrange(0, i));
    } else {
        lemma_dec_val_prefix(s, i, j - 1);
        assert(s.subrange(0, j).drop_last() =~= s.subrange(0, j - 1));
        lemma_dec_val_nonneg(s.subrange(0, j - 1));
    }
}

/// A digit string's value is non-negative.
pub proof fn lemma_dec_val_nonneg(s: Seq<u8>)
    requires
        all_digits(s),
    ensures
        dec_val(s) >= 0,
    decreases s.len(),
{
    if s.len() > 0 {
        assert(all_digits(s.drop_last()));
        lemma_dec_val_nonneg(s.drop_last());
    }
}

/// Parses an unsigned 64-bit decimal from ASCII bytes: an optional leading
/// `+`, then one or more digits, rejecting overflow and anything else.
pub fn parse_u64_dec(s: &[u8]) -> (r: Option<u64>)
    ensures
        r is Some <==> is_unsigned_dec(s@, u64::MAX as int),
        r matches Some(v) ==> v == unsigned_dec_val(s@),
{
    let n = s.len();
    let start: usize = if n > 0 && s[0] == 43 {
        1
    } else {
        0
    };
    let ghost d = unsigned_digits(s@);
    proof {
        assert(d =~= s@.subrange(start as int, n as int));
    }
    if start >= n {
        return None;
    }
    let mut acc: u64 = 0;
    let mut i: usize = start;
    while i < n
        invariant
            n == s@.len(),
            start <= i <= n,
            start < n,
            d == unsigned_digits(s@),
            d =~= s@.subrange(start as int, n as int),
            all_digits(s@.subrange(start as int, i as int)),
            acc == dec_val(s@.subrange(start as int, i as int)),
        decreases n - i,
    {
        let b = s[i];
        if b < 48 || b > 57 {
            proof {
                assert(d[i as int - start as int] == s@[i as int]);
            }
            return None;
        }
        let digit = (b - 48) as u64;
        let shifted = match acc.checked_mul(10) {
            Some(x) => x,
            None => {
                proof {
                    overflow_means_no_parse(s@, start as int, i as int, acc as int, digit as int);
                }
                return None;
            },
        };
        let next = match shifted.checked_add(digit) {
            Some(x) => x,
            None => {
                proof {
                    overflow_means_no_parse(s@, start as int, i as int, acc as int, digit as int);
                }
                return None;
            },
        };
        proof {
            assert(s@.subrange(start as int, i + 1 as int).drop_last() =~= s@.subrange(
                start as int,
                i as int,
            ));
        }
        acc = next;
        i = i + 1;
    }
    proof {
        assert(s@.subrange(start as int, i as int) =~= d);
    }
    Some(acc)
}

/// If one more digit would push the accumulated value past `u64::MAX`, the
/// whole digit string is out of range.
proof fn overflow_means_no_parse(s: Seq<u8>, start: int, i: int, acc: int, digit: int)
    requires
        0 <= start <= i < s.len(),
        is_ascii_digit(s[i]),
        digit == s[i] - 48,
        acc == dec_val(s.subrange(start, i)),
        acc * 10 + digit > u64::MAX,
        all_digits(s.subrange(start, i)),
    ensures
        all_digits(s.subrange(start, s.len() as int)) ==> dec_val(
            s.subrange(start, s.len() as int),
        ) > u64::MAX,
{
    if all_digits(s.subrange(start, s.len() as int)) {
        let full = s.subrange(start, s.len() as int);
        let upto = s.subrange(start, i + 1);
        assert(upto.drop_last() =~= s.subrange(start, i));
        assert(dec_val(upto) == acc * 10 + digit);
        assert(upto =~= full.subrange(0, i + 1 - start));
        lemma_subrange_all_digits(full);
        lemma_dec_val_prefix(full, i + 1 - start, full.len() as int);
        assert(full.subrange(0, full.len() as int) =~= full);
    }
}

/// Digit-ness carries over to every subrange.
proof fn lemma_subrange_all_digits(s: Seq<u8>)
    requires
        all_digits(s),
    ensures
        forall|a: int, b: int|
            0 <= a <= b <= s.len() ==> all_digits(#[trigger] s.subrange(a, b)),
{
    assert forall|a: int, b: int| 0 <= a <= b <= s.len() implies all_digits(
        #[trigger] s.subrange(a, b),
    ) by {
        assert(forall|k: int| 0 <= k < b - a ==> s.subrange(a, b)[k] == s[a + k]);
    }
}

/// Checks whether ASCII bytes parse as a signed 64-bit decimal integer,
/// without producing the value.
pub fn is_valid_i64_dec(s: &[u8]) -> (r: bool)
    ensures
        r == is_i64_dec(s@),
{
    let n = s.len();
    let negative = n > 0 && s[0] == 45;
    let start: usize = if n > 0 && (s[0] == 43 || s[0] == 45) {
        1
    } else {
        0
    };
    let ghost d = signed_digits(s@);
    proof {
        assert(d =~= s@.subrange(start as int, n as int));
    }
    if start >= n {
        return false;
    }
    let bound: u64 = if negative {
        0x8000_0000_0000_0000
    } else {
        0x7fff_ffff_ffff_ffff
    };
    let mut acc: u64 = 0;
    let mut i: usize = start;
    while i < n
        invariant
            n == s@.len(),
            start <= i <= n,
            start < n,
            d == signed_digits(s@),
            negative == has_minus_sign(s@),
            d =~= s@.subrange(start as int, n as int),
            all_digits(s@.subrange(start as int, i as int)),
            acc == dec_val(s@.subrange(start as int, i as int)),
            acc <= bound,
            bound == if negative {
                0x8000_0000_0000_0000u64
            } else {
                0x7fff_ffff_ffff_ffffu64
            },
        decreases n - i,
    {
        let b = s[i];
        if b < 48 || b > 57 {
            proof {
                assert(d[i as int - start as int] == s@[i as int]);
            }
            return false;
        }
        let digit = (b - 48) as u64;
        proof {
            assert(s@.subrange(start as int, i + 1 as int).drop_last() =~= s@.subrange(
                start as int,
                i as int,
            ));
        }
        if acc > (bound - digit) / 10 {
            proof {
                let full = s@.subrange(start as int, n as int);
                if all_digits(full) {
                    let upto = s@.subrange(start as int, i + 1 as int);
                    assert(upto =~= full.subrange(0, i + 1 - start));
                    lemma_subrange_all_digits(full);
                    lemma_dec_val_prefix(full, i + 1 - start, full.len() as int);
                    assert(full.subrange(0, full.len() as int) =~= full);
                }
            }
            return false;
        }
        acc = acc * 10 + digit;
        i = i + 1;
    }
    proof {
        assert(s@.subrange(start as int, i as int) =~= d);
    }
    true
}

/// The decimal digit character for a value below ten.
pub open spec fn dec_digit_char(d: int) -> char {
    if d == 0 {
        '0'
    } else if d == 1 {
        '1'
    } else if d == 2 {
        '2'
    } else if d == 3 {
        '3'
    } else if d == 4 {
        '4'
    } else if d == 5 {
        '5'
    } else if d == 6 {
        '6'
    } else if d == 7 {
        '7'
    } else if d == 8 {
        '8'
    } else {
        '9'
    }
}

/// Decimal rendering of a non-negative value, as characters.
pub open spec fn dec_chars(n: int) -> Seq<char>
    decreases n,
{
    if n < 10 {
        seq![dec_digit_char(n)]
    } else {
        dec_chars(n / 10) + seq![dec_digit_char(n % 10)]
    }
}

/// Decimal rendering of a signed value, as characters.
pub open spec fn dec_chars_signed(n: int) -> Seq<char> {
    if n < 0 {
        seq!['-'] + dec_chars(-n)
    } else {
        dec_chars(n)
    }
}

/// Decimal rendering of a non-negative value, as ASCII bytes.
pub open spec fn dec_bytes(n: int) -> Seq<u8>
    decreases n,
{
    if n < 10 {
        seq![(48 + n) as u8]
    } else {
        dec_bytes(n / 10) + seq![(48 + n % 10) as u8]
    }
}

/// Appends one decimal digit character to a string.
fn push_digit_char(s: &mut String, d: u64)
    requires
        d < 10,
    ensures
        final(s)@ == old(s)@ + seq![dec_digit_char(d as int)],
{
    proof {
        reveal_strlit("0");
        reveal_strlit("1");
        reveal_strlit("2");
        reveal_strlit("3");
        reveal_strlit("4");
        reveal_strlit("5");
        reveal_strlit("6");
        reveal_strlit("7");
        reveal_strlit("8");
        reveal_strlit("9");
    }
    match d {
        0 => s.append("0"),
        1 => s.append("1"),
        2 => s.append("2"),
        3 => s.append("3"),
        4 => s.append("4"),
        5 => s.append("5"),
        6 => s.append("6"),
        7 => s.append("7"),
        8 => s.append("8"),
        _ => s.append("9"),
    }
}

/// Appends the decimal rendering of `n` to a string.
pub fn append_u64_chars(s: &mut String, n: u64)
    ensures
        final(s)@ == old(s)@ + dec_chars(n as int),
    decreases n,
{
    if n < 10 {
        push_digit_char(s, n);
    } else {
        append_u64_chars(s, n / 10);
        push_digit_char(s, n % 10);
    }
}

/// Appends the decimal rendering of a signed value to a string.
pub fn append_i64_chars(s: &mut String, n: i64)
    ensures
        final(s)@ == old(s)@ + dec_chars_signed(n as int),
{
    proof {
        reveal_strlit("-");
    }
    if n < 0 {
        let magnitude: u64 = ((-(n as i128)) as u64);
        s.append("-");
        append_u64_chars(s, magnitude);
    } else {
        append_u64_chars(s, n as u64);
    }
}

/// Appends the decimal rendering of `n` to a byte vector.
pub fn append_u64_bytes(v: &mut Vec<u8>, n: u64)
    ensures
        final(v)@ == old(v)@ + dec_bytes(n as int),
    decreases n,
{
    if n < 10 {
        v.push((48 + n) as u8);
        proof {
            assert(v@ =~= old(v)@ + dec_bytes(n as int));
        }
    } else {
        append_u64_bytes(v, n / 10);
        v.push((48 + (n % 10)) as u8);
        proof {
            assert(v@ =~= old(v)@ + dec_bytes(n as int));
        }
    }
}

} // verus!
