use crate::error::BitcoinError;
use vstd::prelude::*;

verus! {

/// The decimal value of a byte sequence read as ASCII digits, most
/// significant first. Meaningful only when every byte is a digit.
pub open spec fn spec_decimal_value(s: Seq<u8>) -> int
    decreases s.len(),
{
    if s.len() == 0 {
        0
    } else {
        spec_decimal_value(s.drop_last()) * 10 + (s.last() - 48)
    }
}

/// The digits of an amount string: everything behind one optional leading
/// `+` sign.
pub open spec fn spec_decimal_digits_part(s: Seq<u8>) -> Seq<u8> {
    if s.len() > 0 && s[0] == 43 {
        s.drop_first()
    } else {
        s
    }
}

/// An amount string parses as an unsigned 64-bit integer when, behind the
/// optional sign, there is at least one byte, every byte is an ASCII digit,
/// and the value fits in 64 bits.
pub open spec fn spec_is_u64_decimal(s: Seq<u8>) -> bool {
    let d = spec_decimal_digits_part(s);
    &&& d.len() > 0
    &&& forall|j: int| 0 <= j < d.len() ==> 48 <= #[trigger] d[j] <= 57
    &&& spec_decimal_value(d) <= u64::MAX
}

/// On an all-digit sequence the decimal value never shrinks as the prefix
/// grows.
proof fn lemma_decimal_value_monotone(d: Seq<u8>, k: int)
    requires
        0 <= k <= d.len(),
        forall|j: int| 0 <= j < d.len() ==> 48 <= #[trigger] d[j] <= 57,
    ensures
        spec_decimal_value(d.subrange(0, k)) <= spec_decimal_value(d),
    decreases d.len() - k,
{
    if k == d.len() {
        assert(d.subrange(0, k) =~= d);
    } else {
        assert(d.subrange(0, k + 1).drop_last() =~= d.subrange(0, k));
        assert(d.subrange(0, k + 1).last() == d[k]);
        assert(spec_decimal_value(d.subrange(0, k)) >= 0) by {
            lemma_decimal_value_nonneg(d.subrange(0, k));
        }
        assert(spec_decimal_value(d.subrange(0, k + 1)) >= spec_decimal_value(d.subrange(0, k)));
        lemma_decimal_value_monotone(d, k + 1);
    }
}

/// The decimal value of an all-digit sequence is never negative.
proof fn lemma_decimal_value_nonneg(d: Seq<u8>)
    requires
        forall|j: int| 0 <= j < d.len() ==> 48 <= #[trigger] d[j] <= 57,
    ensures
        spec_decimal_value(d) >= 0,
    decreases d.len(),
{
    if d.len() > 0 {
        lemma_decimal_value_nonneg(d.drop_last());
    }
}

/// Parse an amount string, as handed in by a caller, into an unsigned 64-bit
/// value: an optional leading `+`, then decimal digits. Fails with
/// `InvalidAmount` exactly when there are no digits, a byte is not a digit,
/// or the value overflows 64 bits.
#[verifier::loop_isolation(false)]
pub fn parse_amount(s: &[u8]) -> (r: Result<u64, BitcoinError>)
    ensures
        match r {
            Ok(v) => spec_is_u64_decimal(s@) && v == spec_decimal_value(
                spec_decimal_digits_part(s@),
            ),
            Err(e) => !spec_is_u64_decimal(s@) && e == BitcoinError::InvalidAmount,
        },
{
    let ghost d = spec_decimal_digits_part(s@);
    let mut start: usize = 0;
    if s.len() > 0 && s[0] == 43 {
        start = 1;
    }
    proof {
        assert(d.len() == s@.len() - start);
        assert(forall|j: int| 0 <= j < d.len() ==> d[j] == s@[start + j]);
    }
    if s.len() == start {
        return Err(BitcoinError::InvalidAmount);
    }
    let mut val: u64 = 0;
    let mut i: usize = start;
    while i < s.len()
        invariant
            start <= i <= s@.len(),
            forall|j: int| 0 <= j < i - start ==> 48 <= #[trigger] d[j] <= 57,
            val == spec_decimal_value(d.subrange(0, i - start)),
        decreases s@.len() - i,
    {
        let b: u8 = s[i];
        if b < 48 || b > 57 {
            proof {
                assert(d[i - start] == s@[i as int]);
            }
            return Err(BitcoinError::InvalidAmount);
        }
        let digit: u64 = (b - 48) as u64;
        proof {
            assert(d.subrange(0, i - start + 1).drop_last() =~= d.subrange(0, i - start));
            assert(d.subrange(0, i - start + 1).last() == d[i - start]);
        }
        if val > 1844674407370955161 || (val == 1844674407370955161 && digit > 5) {
            proof {
                // Either some later byte is not a digit, or the full value
                // only grows past this already overflowing prefix.
                if forall|j: int| 0 <= j < d.len() ==> 48 <= #[trigger] d[j] <= 57 {
                    lemma_decimal_value_monotone(d, i - start + 1);
                }
            }
            return Err(BitcoinError::InvalidAmount);
        }
        val = val * 10 + digit;
        i += 1;
    }
    proof {
        assert(d.subrange(0, i - start) =~= d);
    }
    Ok(val)
}

} // verus!
