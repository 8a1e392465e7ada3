//! Decimal numbers in command-line text: reading them as `str::parse` does,
//! and writing them as `{}` formatting does.

use vstd::prelude::*;

verus! {

/// The ten decimal digits, in order.
pub open spec fn digit_chars() -> Seq<char> {
    seq!['0', '1', '2', '3', '4', '5', '6', '7', '8', '9']
}

/// The decimal representation of `n`, without leading zeros.
pub open spec fn decimal(n: nat) -> Seq<char>
    decreases n,
{
    if n < 10 {
        seq![digit_chars()[n as int]]
    } else {
        decimal(n / 10) + seq![digit_chars()[(n % 10) as int]]
    }
}

/// A decimal representation is a non-empty string of digits.
pub proof fn lemma_decimal_is_digits(n: nat)
    ensures
        decimal(n).len() > 0,
        forall|i: int| 0 <= i < decimal(n).len() ==> '0' <= #[trigger] decimal(n)[i] <= '9',
    decreases n,
{
    if n >= 10 {
        lemma_decimal_is_digits(n / 10);
        let d = digit_chars()[(n % 10) as int];
        assert forall|i: int| 0 <= i < decimal(n).len() implies '0' <= #[trigger] decimal(n)[i]
            <= '9' by {
            if i < decimal(n / 10).len() {
                assert(decimal(n)[i] == decimal(n / 10)[i]);
            } else {
                assert(decimal(n)[i] == d);
            }
        }
    }
}

/// Appends the decimal representation of `n` to `s`.
pub fn append_decimal(s: &mut String, n: u32)
    ensures
        final(s)@ == old(s)@ + decimal(n as nat),
    decreases n,
{
    if n >= 10 {
        append_decimal(s, n / 10);
    }
    let d = (n % 10) as usize;
    let digits = "0123456789";
    proof {
        reveal_strlit("0123456789");
        assert(digits@ =~= digit_chars());
    }
    let one = digits.substring_ascii(d, d + 1);
    s.append(one);
    proof {
        assert(one@ =~= seq![digit_chars()[d as int]]);
    }
}

/// `b` is an ASCII decimal digit.
pub open spec fn is_digit(b: u8) -> bool {
    0x30 <= b <= 0x39
}

/// The value of a string of decimal digits.
pub open spec fn digits_value(d: Seq<u8>) -> nat
    decreases d.len(),
{
    if d.len() == 0 {
        0
    } else {
        digits_value(d.drop_last()) * 10 + (d.last() - 0x30) as nat
    }
}

/// `d` is a non-empty string of decimal digits.
pub open spec fn is_digit_string(d: Seq<u8>) -> bool {
    d.len() > 0 && forall|i: int| 0 <= i < d.len() ==> is_digit(#[trigger] d[i])
}

/// The value of `b` as `str::parse` reads an unsigned integer that fits in
/// `max`: an optional `+`, then decimal digits.
pub open spec fn parse_unsigned(b: Seq<u8>, max: nat) -> Option<nat> {
    let d = if b.len() > 0 && b[0] == 0x2b { b.drop_first() } else { b };
    if is_digit_string(d) && digits_value(d) <= max {
        Some(digits_value(d))
    } else {
        None
    }
}

/// The value of `b` as `str::parse::<i32>` reads it: an optional `+` or `-`,
/// then decimal digits, within the range of `i32`.
pub open spec fn parse_i32(b: Seq<u8>) -> Option<int> {
    let neg = b.len() > 0 && b[0] == 0x2d;
    let d = if b.len() > 0 && (b[0] == 0x2b || b[0] == 0x2d) { b.drop_first() } else { b };
    if !is_digit_string(d) {
        None
    } else {
        let v: int = if neg { -(digits_value(d) as int) } else { digits_value(d) as int };
        if i32::MIN <= v <= i32::MAX {
            Some(v)
        } else {
            None
        }
    }
}

/// The value of the digit string `d`, or `None` where `d` is not a non-empty
/// string of digits; a value above `cap` comes back as `cap + 1`.
fn digits_value_capped(d: &[u8], cap: u64) -> (r: Option<u64>)
    requires
        cap <= 0xffff_ffff,
    ensures
        match r {
            None => !is_digit_string(d@),
            Some(v) => is_digit_string(d@) && (if digits_value(d@) <= cap {
                v == digits_value(d@)
            } else {
                v == cap + 1
            }),
        },
{
    if d.len() == 0 {
        return None;
    }
    let mut v: u64 = 0;
    let mut i: usize = 0;
    while i < d.len()
        invariant
            cap <= 0xffff_ffff,
            i <= d@.len(),
            forall|j: int| 0 <= j < i ==> is_digit(#[trigger] d@[j]),
            if digits_value(d@.take(i as int)) <= cap {
                v == digits_value(d@.take(i as int))
            } else {
                v == cap + 1
            },
        decreases d@.len() - i,
    {
        let c = d[i];
        if c < 0x30 || c > 0x39 {
            return None;
        }
        let ghost prev = digits_value(d@.take(i as int));
        assert(d@.take(i + 1).drop_last() =~= d@.take(i as int));
        assert(digits_value(d@.take(i + 1)) == prev * 10 + (c - 0x30) as nat);
        if v > cap {
            assert(prev > cap);
            assert(digits_value(d@.take(i + 1)) > cap) by (nonlinear_arith)
                requires
                    digits_value(d@.take(i + 1)) == prev * 10 + (c - 0x30) as nat,
                    prev > cap,
            ;
        } else {
            let next = v * 10 + (c - 0x30) as u64;
            if next > cap {
                v = cap + 1;
            } else {
                v = next;
            }
        }
        i = i + 1;
    }
    assert(d@.take(d@.len() as int) =~= d@);
    Some(v)
}

/// Reads an unsigned integer no larger than `max` as `str::parse` does:
/// `None` where the text is not an optional `+` followed by digits, or the
/// value exceeds `max`.
pub fn parse_unsigned_text(b: &[u8], max: u32) -> (r: Option<u32>)
    ensures
        match r {
            Some(v) => parse_unsigned(b@, max as nat) == Some(v as nat),
            None => parse_unsigned(b@, max as nat) is None,
        },
{
    let (start, d) = if b.len() > 0 && b[0] == 0x2b {
        b.split_at(1)
    } else {
        b.split_at(0)
    };
    assert(b@.len() > 0 && b@[0] == 0x2b ==> d@ =~= b@.drop_first());
    assert(!(b@.len() > 0 && b@[0] == 0x2b) ==> d@ =~= b@);
    match digits_value_capped(d, max as u64) {
        Some(v) => {
            if v <= max as u64 {
                Some(v as u32)
            } else {
                None
            }
        },
        None => None,
    }
}

/// Reads an `i32` as `str::parse::<i32>` does.
pub fn parse_i32_text(b: &[u8]) -> (r: Option<i32>)
    ensures
        match r {
            Some(v) => parse_i32(b@) == Some(v as int),
            None => parse_i32(b@) is None,
        },
{
    let neg = b.len() > 0 && b[0] == 0x2d;
    let signed = b.len() > 0 && (b[0] == 0x2b || b[0] == 0x2d);
    let (_, d) = if signed {
        b.split_at(1)
    } else {
        b.split_at(0)
    };
    assert(signed ==> d@ =~= b@.drop_first());
    assert(!signed ==> d@ =~= b@);
    match digits_value_capped(d, 0x8000_0000) {
        Some(v) => {
            if neg {
                if v <= 0x8000_0000 {
                    Some((0 - (v as i64)) as i32)
                } else {
                    None
                }
            } else {
                if v <= 0x7fff_ffff {
                    Some(v as i32)
                } else {
                    None
                }
            }
        },
        None => None,
    }
}

} // verus!
