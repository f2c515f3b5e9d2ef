//! Decimal integers: reading them as `str::parse::<i64>` does, and writing them as
//! `Display` does.
use vstd::prelude::*;

verus! {

/// An ASCII decimal digit.
pub open spec fn is_digit(c: char) -> bool {
    '0' <= c && c <= '9'
}

/// The value of the decimal digit `c`.
pub open spec fn digit_value(c: char) -> int {
    (c as int) - ('0' as int)
}

/// Every character of `s` is a decimal digit.
pub open spec fn all_digits(s: Seq<char>) -> bool {
    forall|i: int| 0 <= i < s.len() ==> is_digit(#[trigger] s[i])
}

/// The number written by the decimal digits `s`, most significant first.
pub open spec fn digits_value(s: Seq<char>) -> int
    decreases s.len(),
{
    if s.len() == 0 {
        0
    } else {
        digits_value(s.drop_last()) * 10 + digit_value(s.last())
    }
}

/// What `s.parse::<i64>()` gives: an optional `+` or `-` followed by at least one decimal
/// digit, and nothing else, whose value fits in `i64`.
pub open spec fn parse_i64_spec(s: Seq<char>) -> Option<int> {
    if s.len() == 0 {
        None
    } else {
        let neg = s[0] == '-';
        let d = if s[0] == '+' || s[0] == '-' {
            s.drop_first()
        } else {
            s
        };
        if d.len() == 0 || !all_digits(d) {
            None
        } else {
            let v = if neg {
                -digits_value(d)
            } else {
                digits_value(d)
            };
            if i64::MIN <= v && v <= i64::MAX {
                Some(v)
            } else {
                None
            }
        }
    }
}

proof fn lemma_digits_value_nonneg(s: Seq<char>)
    requires
        all_digits(s),
    ensures
        digits_value(s) >= 0,
    decreases s.len(),
{
    if s.len() > 0 {
        assert(all_digits(s.drop_last()));
        lemma_digits_value_nonneg(s.drop_last());
    }
}

/// A longer run of digits never has a smaller value than its prefix.
proof fn lemma_digits_value_prefix(s: Seq<char>, k: int)
    requires
        all_digits(s),
        0 <= k <= s.len(),
    ensures
        digits_value(s.take(k)) <= digits_value(s),
    decreases s.len() - k,
{
    if k < s.len() {
        lemma_digits_value_prefix(s, k + 1);
        assert(s.take(k + 1).drop_last() =~= s.take(k));
        assert(all_digits(s.take(k)));
        lemma_digits_value_nonneg(s.take(k));
        assert(is_digit(s[k]));
    } else {
        assert(s.take(k) =~= s);
    }
}

/// Reads a decimal `i64` as `str::parse::<i64>` does.
pub fn parse_i64(s: &Vec<char>) -> (r: Option<i64>)
    ensures
        r matches Some(v) ==> parse_i64_spec(s@) == Some(v as int),
        r is None ==> parse_i64_spec(s@) is None,
{
    let n = s.len();
    if n == 0 {
        return None;
    }
    let neg = s[0] == '-';
    let start: usize = if s[0] == '+' || s[0] == '-' {
        1
    } else {
        0
    };
    let ghost d = if s@[0] == '+' || s@[0] == '-' {
        s@.drop_first()
    } else {
        s@
    };
    assert(d =~= s@.subrange(start as int, n as int));
    if start == n {
        return None;
    }
    // magnitude, capped once it exceeds 2^63
    let limit: u128 = 0x8000_0000_0000_0000;
    let mut acc: u128 = 0;
    let mut i = start;
    while i < n
        invariant
            start <= i <= n == s@.len(),
            start < n,
            d == s@.subrange(start as int, n as int),
            d == (if s@[0] == '+' || s@[0] == '-' { s@.drop_first() } else { s@ }),
            neg == (s@[0] == '-'),
            limit == 0x8000_0000_0000_0000,
            acc <= limit,
            all_digits(d.take(i - start)),
            acc == digits_value(d.take(i - start)),
        decreases n - i,
    {
        let c = s[i];
        if !('0' <= c && c <= '9') {
            assert(!is_digit(d[i - start]));
            assert(!all_digits(d));
            return None;
        }
        let dv = (c as u32 - '0' as u32) as u128;
        assert(dv < 10);
        assert(acc * 10 <= 10 * limit && acc * 10 + dv <= 10 * limit + 10) by (nonlinear_arith)
            requires
                acc <= limit,
                dv < 10,
        ;
        assert(d.take(i - start + 1).drop_last() =~= d.take(i - start));
        assert(all_digits(d.take(i - start + 1)));
        let next = acc * 10 + dv;
        if next > limit {
            i = i + 1;
            assert(digits_value(d.take(i - start)) == next);
            // keep scanning: any later non-digit makes the parse fail, otherwise the value
            // is already too large
            let mut j = i;
            while j < n
                invariant
                    i <= j <= n == s@.len(),
                    start < i,
                    d == s@.subrange(start as int, n as int),
                    d == (if s@[0] == '+' || s@[0] == '-' { s@.drop_first() } else { s@ }),
                    limit == 0x8000_0000_0000_0000,
                    all_digits(d.take(j - start)),
                    digits_value(d.take(i - start)) > limit,
                decreases n - j,
            {
                if !('0' <= s[j] && s[j] <= '9') {
                    assert(!is_digit(d[j - start]));
                    assert(!all_digits(d));
                    return None;
                }
                assert(d.take(j - start + 1).drop_last() =~= d.take(j - start));
                j = j + 1;
            }
            proof {
                assert(d.take(n - start) =~= d);
                lemma_digits_value_prefix(d, i - start);
            }
            return None;
        }
        acc = next;
        i = i + 1;
    }
    assert(d.take(n - start) =~= d);
    if neg {
        if acc == limit {
            Some(i64::MIN)
        } else {
            Some(-(acc as i64))
        }
    } else {
        if acc >= limit {
            None
        } else {
            Some(acc as i64)
        }
    }
}

/// The decimal digits of `n`, most significant first, without leading zeros ("0" for 0).
pub open spec fn nat_digits(n: nat) -> Seq<char>
    decreases n,
{
    if n < 10 {
        seq![((n as int) + ('0' as int)) as char]
    } else {
        nat_digits(n / 10).push((((n % 10) as int) + ('0' as int)) as char)
    }
}

/// How `Display` writes the integer `v`: a `-` before the digits of a negative value.
pub open spec fn int_decimal(v: int) -> Seq<char> {
    if v < 0 {
        seq!['-'] + nat_digits((-v) as nat)
    } else {
        nat_digits(v as nat)
    }
}

/// Appends the decimal digits of `n`.
fn push_nat_digits(out: &mut String, n: u64)
    ensures
        final(out)@ == old(out)@ + nat_digits(n as nat),
    decreases n,
{
    if n < 10 {
        out.push(((n as u8) + 48u8) as char);
        assert(seq![((n as int) + ('0' as int)) as char] =~= seq![((n as u8) + 48u8) as char]);
    } else {
        push_nat_digits(out, n / 10);
        let d = (n % 10) as u8;
        out.push((d + 48u8) as char);
    }
}

/// The decimal form of `v`, as `v.to_string()` gives it.
pub fn i64_to_string(v: i64) -> (out: String)
    ensures
        out@ == int_decimal(v as int),
{
    let mut out = String::new();
    if v < 0 {
        out.push('-');
        let m: u64 = if v == i64::MIN {
            0x8000_0000_0000_0000
        } else {
            (-v) as u64
        };
        push_nat_digits(&mut out, m);
    } else {
        push_nat_digits(&mut out, v as u64);
        assert(out@ =~= nat_digits(v as nat));
    }
    out
}

} // verus!
