//! The body length resolver: reads a `Content-Length` value as a plain
//! decimal, non-negative integer. No other body-length mechanism is
//! supported.

use crate::FramingError;
use vstd::prelude::*;

verus! {

/// Every byte is a decimal digit.
pub open spec fn all_digits(s: Seq<u8>) -> bool {
    forall|i: int| 0 <= i < s.len() ==> 48 <= #[trigger] s[i] <= 57
}

/// The number the digit string denotes.
pub open spec fn spec_decimal(s: Seq<u8>) -> int
    decreases s.len(),
{
    if s.len() == 0 {
        0
    } else {
        spec_decimal(s.drop_last()) * 10 + (s[s.len() - 1] - 48)
    }
}

/// A digit string denotes a non-negative number.
proof fn lemma_decimal_nonneg(s: Seq<u8>)
    requires
        all_digits(s),
    ensures
        spec_decimal(s) >= 0,
    decreases s.len(),
{
    if s.len() > 0 {
        assert forall|i: int| 0 <= i < s.drop_last().len() implies 48 <= #[trigger] s.drop_last()[i]
            <= 57 by {
            assert(s.drop_last()[i] == s[i]);
        }
        lemma_decimal_nonneg(s.drop_last());
    }
}

/// A digit string denotes at least what any of its prefixes denotes.
proof fn lemma_decimal_prefix_le(s: Seq<u8>, i: int)
    requires
        all_digits(s),
        0 <= i <= s.len(),
    ensures
        spec_decimal(s.subrange(0, i)) <= spec_decimal(s),
    decreases s.len() - i,
{
    if i < s.len() {
        lemma_decimal_prefix_le(s, i + 1);
        let a = s.subrange(0, i);
        let b = s.subrange(0, i + 1);
        assert(b.drop_last() =~= a);
        assert(all_digits(a));
        lemma_decimal_nonneg(a);
        assert(spec_decimal(b) == spec_decimal(a) * 10 + (b[b.len() - 1] - 48));
    } else {
        assert(s.subrange(0, i) =~= s);
    }
}

/// Parse a `Content-Length` value. Succeeds exactly on a non-empty,
/// all-digit string whose value fits the machine; the value is then
/// the denoted number.
pub fn parse_content_length(value: &[u8]) -> (r: Result<usize, FramingError>)
    ensures
        match r {
            Ok(n) => value@.len() > 0 && all_digits(value@) && n == spec_decimal(value@),
            Err(e) => e == FramingError::BadContentLength && (value@.len() == 0 || !all_digits(
                value@,
            ) || spec_decimal(value@) > usize::MAX),
        },
{
    let len = value.len();
    if len == 0 {
        return Err(FramingError::BadContentLength);
    }
    let mut acc: usize = 0;
    let mut i: usize = 0;
    while i < len
        invariant
            len == value@.len(),
            i <= len,
            all_digits(value@.subrange(0, i as int)),
            acc == spec_decimal(value@.subrange(0, i as int)),
        decreases len - i,
    {
        let b = value[i];
        if b < 48 || b > 57 {
            assert(!all_digits(value@));
            return Err(FramingError::BadContentLength);
        }
        let d = (b - 48) as usize;
        if acc > (usize::MAX - d) / 10 {
            proof {
                let pre = value@.subrange(0, i as int);
                let ext = value@.subrange(0, i + 1 as int);
                assert(ext.drop_last() =~= pre);
                assert(all_digits(ext));
                assert(spec_decimal(ext) == acc * 10 + d);
                assert(acc * 10 + d > usize::MAX) by (nonlinear_arith)
                    requires
                        acc > (usize::MAX - d) / 10,
                        0 <= d <= 9,
                        acc <= usize::MAX,
                {}
                if all_digits(value@) {
                    lemma_decimal_prefix_le(value@, i + 1);
                }
            }
            return Err(FramingError::BadContentLength);
        }
        proof {
            assert(acc * 10 + d <= usize::MAX) by (nonlinear_arith)
                requires
                    acc <= (usize::MAX - d) / 10,
                    0 <= d <= 9,
            {}
            let pre = value@.subrange(0, i as int);
            let ext = value@.subrange(0, i + 1 as int);
            assert(ext.drop_last() =~= pre);
        }
        acc = acc * 10 + d;
        i = i + 1;
    }
    proof {
        assert(value@.subrange(0, len as int) =~= value@);
    }
    Ok(acc)
}

} // verus!
