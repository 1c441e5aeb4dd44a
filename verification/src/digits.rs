//! Decimal digit strings: what it means for a byte field to parse as an
//! unsigned integer, and the canonical decimal rendering of one.

use vstd::prelude::*;

verus! {

/// Whether `b` is an ASCII decimal digit.
pub open spec fn is_digit(b: u8) -> bool {
    48 <= b <= 57
}

/// Whether `s` is one or more ASCII decimal digits.
pub open spec fn all_digits(s: Seq<u8>) -> bool {
    forall|i: int| 0 <= i < s.len() ==> is_digit(#[trigger] s[i])
}

/// The numeric value of a digit string (0 for the empty string).
pub open spec fn dec_val(s: Seq<u8>) -> nat
    decreases s.len(),
{
    if s.len() == 0 {
        0
    } else {
        (dec_val(s.drop_last()) * 10 + (s.last() - 48)) as nat
    }
}

/// `s` with one leading `+` removed, as Rust's unsigned-integer parsing
/// accepts before the digits.
pub open spec fn sign_stripped(s: Seq<u8>) -> Seq<u8> {
    if s.len() > 0 && s[0] == 43 {
        s.drop_first()
    } else {
        s
    }
}

/// Whether `s` parses as an unsigned integer no greater than `bound`:
/// an optional `+`, then one or more digits, with the value in range.
pub open spec fn parses_within(s: Seq<u8>, bound: nat) -> bool {
    let d = sign_stripped(s);
    d.len() > 0 && all_digits(d) && dec_val(d) <= bound
}

/// Extending a digit string can only grow its value.
proof fn lemma_dec_val_prefix_le(s: Seq<u8>, i: int)
    requires
        0 <= i <= s.len(),
        all_digits(s),
    ensures
        dec_val(s.take(i)) <= dec_val(s),
    decreases s.len() - i,
{
    if i < s.len() {
        lemma_dec_val_prefix_le(s, i + 1);
        assert(s.take(i + 1).drop_last() =~= s.take(i));
        assert(dec_val(s.take(i + 1)) == dec_val(s.take(i)) * 10 + (s.take(i + 1).last() - 48));
    } else {
        assert(s.take(i) =~= s);
    }
}

/// Parses `s` as a decimal `u64`, exactly as far as the digits allow.
///
/// Returns the value when `s` is an optional `+` followed by one or more
/// ASCII digits whose value fits in a `u64`, and nothing otherwise.
pub fn parse_u64(s: &[u8]) -> (r: Option<u64>)
    ensures
        r is Some <==> parses_within(s@, u64::MAX as nat),
        r is Some ==> r->0 == dec_val(sign_stripped(s@)),
{
    let start: usize = if s.len() > 0 && s[0] == 43 {
        1
    } else {
        0
    };
    let ghost d = sign_stripped(s@);
    proof {
        assert(d =~= s@.subrange(start as int, s@.len() as int));
    }
    if s.len() == start {
        return None;
    }
    let mut acc: u64 = 0;
    let mut i: usize = start;
    while i < s.len()
        invariant
            start <= i <= s.len(),
            d == sign_stripped(s@),
            d == s@.subrange(start as int, s@.len() as int),
            all_digits(d.take(i - start)),
            acc == dec_val(d.take(i - start)),
        decreases s.len() - i,
    {
        let b: u8 = s[i];
        if b < 48 || b > 57 {
            proof {
                assert(d[i - start] == b);
                assert(!all_digits(d));
            }
            return None;
        }
        let digit: u64 = (b - 48) as u64;
        proof {
            assert(d.take(i - start + 1).drop_last() =~= d.take(i - start));
            assert(d.take(i - start + 1).last() == b);
        }
        if acc > (u64::MAX - digit) / 10 {
            proof {
                assert(dec_val(d.take(i - start + 1)) > u64::MAX as nat) by {
                    assert(acc * 10 + digit > u64::MAX) by (nonlinear_arith)
                        requires
                            acc > (u64::MAX - digit) / 10,
                            digit <= 9,
                    ;
                }
                if all_digits(d) {
                    lemma_dec_val_prefix_le(d, i - start + 1);
                    assert(dec_val(d) > u64::MAX as nat);
                }
            }
            return None;
        }
        proof {
            assert(acc * 10 + digit <= u64::MAX) by (nonlinear_arith)
                requires
                    acc <= (u64::MAX - digit) / 10,
                    digit <= 9,
            ;
        }
        acc = acc * 10 + digit;
        i = i + 1;
    }
    proof {
        assert(d.take(i - start) =~= d);
    }
    Some(acc)
}

/// Parses `s` as a decimal `usize`, exactly as far as the digits allow.
pub fn parse_usize(s: &[u8]) -> (r: Option<usize>)
    ensures
        r is Some <==> parses_within(s@, usize::MAX as nat),
        r is Some ==> r->0 == dec_val(sign_stripped(s@)),
{
    match parse_u64(s) {
        Some(v) => {
            if v <= usize::MAX as u64 {
                Some(v as usize)
            } else {
                None
            }
        },
        None => {
            proof {
                if parses_within(s@, usize::MAX as nat) {
                    assert(parses_within(s@, u64::MAX as nat));
                }
            }
            None
        },
    }
}

/// The canonical decimal rendering of `n`: no sign, no leading zeros
/// (a single `0` for zero).
pub open spec fn dec_str_of(n: nat) -> Seq<u8>
    decreases n,
{
    if n < 10 {
        seq![(48 + n) as u8]
    } else {
        dec_str_of(n / 10).push((48 + n % 10) as u8)
    }
}

/// The decimal rendering is faithful: it is all digits, never empty, and
/// parses back to the value it renders.
pub proof fn lemma_decimal_round_trip(n: nat)
    ensures
        dec_str_of(n).len() > 0,
        all_digits(dec_str_of(n)),
        dec_val(dec_str_of(n)) == n,
    decreases n,
{
    if n < 10 {
        let s = dec_str_of(n);
        assert(s =~= seq![(48 + n) as u8]);
        assert(s.drop_last() =~= Seq::<u8>::empty());
        assert(dec_val(s) == (dec_val(s.drop_last()) * 10 + (s.last() - 48)) as nat);
    } else {
        lemma_decimal_round_trip(n / 10);
        let whole = dec_str_of(n);
        assert(whole.drop_last() =~= dec_str_of(n / 10));
        assert(whole.last() == (48 + n % 10) as u8);
        assert forall|i: int| 0 <= i < whole.len() implies is_digit(#[trigger] whole[i]) by {
            if i < whole.len() - 1 {
                assert(whole[i] == dec_str_of(n / 10)[i]);
            }
        }
        assert(dec_val(whole) == (dec_val(whole.drop_last()) * 10 + (whole.last() - 48)) as nat);
        assert(n / 10 * 10 + n % 10 == n);
    }
}

/// Renders `n` in decimal.
pub fn u64_to_decimal(n: u64) -> (r: Vec<u8>)
    ensures
        r@ == dec_str_of(n as nat),
{
    let mut out: Vec<u8> = Vec::new();
    let mut m: u64 = n;
    while m >= 10
        invariant
            dec_str_of(n as nat) == dec_str_of(m as nat) + out@,
        decreases m,
    {
        let digit: u8 = (48 + m % 10) as u8;
        proof {
            assert(dec_str_of(m as nat) == dec_str_of((m / 10) as nat).push(digit));
            assert(dec_str_of((m / 10) as nat).push(digit) + out@ =~= dec_str_of((m / 10) as nat)
                + out@.insert(0, digit));
        }
        out.insert(0, digit);
        m = m / 10;
    }
    let digit: u8 = (48 + m % 10) as u8;
    proof {
        assert(dec_str_of(m as nat) =~= seq![digit]);
        assert(seq![digit] + out@ =~= out@.insert(0, digit));
    }
    out.insert(0, digit);
    out
}

/// Renders `n` in decimal.
pub fn usize_to_decimal(n: usize) -> (r: Vec<u8>)
    ensures
        r@ == dec_str_of(n as nat),
{
    u64_to_decimal(n as u64)
}

} // verus!
