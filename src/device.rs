//! What the display device receives with an image.
use vstd::prelude::*;
use vstd::string::StringSliceAdditionalSpecFns;

verus! {

/// An image for the display and how long it may sleep afterwards.
#[derive(Clone, Debug, PartialEq, Eq)]
pub struct Response {
    pub image_data: Vec<u8>,
    pub deep_sleep_seconds: Option<u64>,
}

pub open spec fn is_digit(c: u8) -> bool {
    48 <= c <= 57
}

pub open spec fn all_digits(b: Seq<u8>) -> bool {
    forall|i: int| 0 <= i < b.len() ==> #[trigger] is_digit(b[i])
}

/// The number the decimal digits `b` write.
pub open spec fn decimal(b: Seq<u8>) -> int
    decreases b.len(),
{
    if b.len() == 0 {
        0
    } else {
        decimal(b.drop_last()) * 10 + (b.last() - 48)
    }
}

/// The value of an unsigned decimal, an optional `+` and at least one digit, if it fits in
/// 64 bits.
pub open spec fn seconds_of(b: Seq<u8>) -> Option<u64> {
    let d = if b.len() > 0 && b[0] == 43 {
        b.subrange(1, b.len() as int)
    } else {
        b
    };
    if d.len() > 0 && all_digits(d) && decimal(d) <= u64::MAX {
        Some(decimal(d) as u64)
    } else {
        None
    }
}

proof fn lemma_decimal_grows(b: Seq<u8>, k: int)
    requires
        all_digits(b),
        0 <= k <= b.len(),
    ensures
        decimal(b.subrange(0, k)) <= decimal(b),
        decimal(b) >= 0,
    decreases b.len() - k,
{
    if k < b.len() {
        lemma_decimal_grows(b, k + 1);
        let p = b.subrange(0, k + 1);
        assert(p.drop_last() =~= b.subrange(0, k));
        lemma_decimal_nonneg(b.subrange(0, k));
        assert(is_digit(p.last()));
    } else {
        assert(b.subrange(0, k) =~= b);
        lemma_decimal_nonneg(b);
    }
}

proof fn lemma_decimal_nonneg(b: Seq<u8>)
    requires
        all_digits(b),
    ensures
        decimal(b) >= 0,
    decreases b.len(),
{
    if b.len() > 0 {
        lemma_decimal_nonneg(b.drop_last());
        assert(is_digit(b.last()));
    }
}

/// Reads a header value such as `600` as a number of seconds; `None` where it is not an
/// unsigned decimal that fits in 64 bits.
pub fn parse_seconds(s: &str) -> (r: Option<u64>)
    ensures
        r == seconds_of(s.spec_bytes()),
{
    let b = s.as_bytes();
    let n = b.len();
    let start: usize = if n > 0 && b[0] == 43 { 1 } else { 0 };
    let ghost d = if n > 0 && b@[0] == 43 { b@.subrange(1, n as int) } else { b@ };
    assert(d =~= b@.subrange(start as int, n as int));
    if start == n {
        return None;
    }
    let mut acc: u64 = 0;
    let mut i: usize = start;
    while i < n
        invariant
            start <= i <= n,
            n == b@.len(),
            b@ == s.spec_bytes(),
            start == 1 <==> (n > 0 && b@[0] == 43),
            start < n,
            d == (if n > 0 && b@[0] == 43 { b@.subrange(1, n as int) } else { b@ }),
            d == b@.subrange(start as int, n as int),
            all_digits(b@.subrange(start as int, i as int)),
            acc == decimal(b@.subrange(start as int, i as int)),
        decreases n - i,
    {
        let c = b[i];
        let ghost p = b@.subrange(start as int, i + 1);
        assert(p.drop_last() =~= b@.subrange(start as int, i as int));
        if c < 48 || c > 57 {
            proof {
                assert(d[i - start] == c);
                assert(!is_digit(d[i - start]));
                assert(!all_digits(d));
                assert(b@ == s.spec_bytes());
            }
            return None;
        }
        let digit = (c - 48) as u64;
        if acc > (u64::MAX - digit) / 10 {
            proof {
                assert(all_digits(p));
                assert(decimal(p) > u64::MAX) by (nonlinear_arith)
                    requires
                        decimal(p) == acc * 10 + digit,
                        acc > (u64::MAX - digit) / 10,
                        0 <= digit <= 9,
                ;
                if all_digits(d) {
                    assert(p =~= d.subrange(0, i + 1 - start));
                    lemma_decimal_grows(d, i + 1 - start);
                    assert(decimal(d) > u64::MAX);
                }
                assert(b@ == s.spec_bytes());
            }
            return None;
        }
        acc = acc * 10 + digit;
        i = i + 1;
        proof {
            assert(all_digits(b@.subrange(start as int, i as int))) by {
                assert forall|k: int| 0 <= k < p.len() implies #[trigger] is_digit(p[k]) by {
                    if k < p.len() - 1 {
                        assert(p[k] == b@.subrange(start as int, i - 1)[k]);
                    }
                }
            }
        }
    }
    Some(acc)
}

} // verus!
