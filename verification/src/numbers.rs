//! Parsing of signed 64-bit decimal integers, as the amount field of a
//! balance change is serialized: an optional sign followed by decimal
//! digits, accepted exactly when the value fits in an `i64`.

use vstd::prelude::*;
use vstd::string::StrSliceExecFns;

verus! {

pub open spec fn is_digit(c: char) -> bool {
    48 <= c as u32 <= 57
}

pub open spec fn digit_val(c: char) -> int {
    c as u32 - 48
}

pub open spec fn all_digits(s: Seq<char>) -> bool {
    forall|i: int| 0 <= i < s.len() ==> is_digit(#[trigger] s[i])
}

/// Value of a sequence of decimal digits, most significant first.
pub open spec fn dec_val(s: Seq<char>) -> int
    decreases s.len(),
{
    if s.len() == 0 {
        0
    } else {
        10 * dec_val(s.drop_last()) + digit_val(s.last())
    }
}

/// The value denoted by `s` as a signed 64-bit decimal integer: an optional
/// `-` or `+`, then one or more digits, the whole within the `i64` range;
/// anything else denotes nothing.
pub open spec fn parse_i64_spec(s: Seq<char>) -> Option<int> {
    let neg = s.len() > 0 && s[0] == '-';
    let signed = s.len() > 0 && (s[0] == '-' || s[0] == '+');
    let ds = if signed {
        s.skip(1)
    } else {
        s
    };
    if ds.len() > 0 && all_digits(ds) {
        let v: int = if neg {
            -dec_val(ds)
        } else {
            dec_val(ds)
        };
        if i64::MIN <= v <= i64::MAX {
            Some(v)
        } else {
            None
        }
    } else {
        None
    }
}

pub proof fn lemma_dec_val_nonneg(s: Seq<char>)
    requires
        all_digits(s),
    ensures
        dec_val(s) >= 0,
    decreases s.len(),
{
    if s.len() > 0 {
        assert(all_digits(s.drop_last()));
        lemma_dec_val_nonneg(s.drop_last());
    }
}

/// A digit string is worth at least any of its prefixes.
pub proof fn lemma_dec_val_prefix(s: Seq<char>, i: int)
    requires
        0 <= i <= s.len(),
        all_digits(s),
    ensures
        dec_val(s.take(i)) <= dec_val(s),
    decreases s.len() - i,
{
    if i < s.len() {
        assert(all_digits(s.take(i)));
        lemma_dec_val_nonneg(s.take(i));
        assert(s.take(i + 1).drop_last() =~= s.take(i));
        assert(s.take(i + 1).last() == s[i]);
        assert(dec_val(s.take(i + 1)) == 10 * dec_val(s.take(i)) + digit_val(s[i]));
        lemma_dec_val_prefix(s, i + 1);
    } else {
        assert(s.take(i) =~= s);
    }
}

/// Parse `s` as a signed 64-bit decimal integer: `Some` exactly on the
/// strings that denote a value in the `i64` range.
pub fn parse_i64(s: &str) -> (r: Option<i64>)
    ensures
        match r {
            Some(v) => parse_i64_spec(s@) == Some(v as int),
            None => parse_i64_spec(s@) is None,
        },
{
    let n = s.unicode_len();
    if n == 0 {
        return None;
    }
    let c0 = s.get_char(0);
    let neg = c0 == '-';
    let start: usize = if c0 == '-' || c0 == '+' {
        1
    } else {
        0
    };
    if start == n {
        return None;
    }
    let ghost ds: Seq<char> = if start == 1 {
        s@.skip(1)
    } else {
        s@
    };
    let mut acc: u64 = 0;
    let mut i = start;
    while i < n
        invariant
            start <= i <= n,
            start <= 1,
            n == s@.len(),
            start < n,
            ds == if start == 1 {
                s@.skip(1)
            } else {
                s@
            },
            ds.len() == n - start,
            forall|j: int| 0 <= j < ds.len() ==> ds[j] == s@[j + start],
            neg == (s@[0] == '-'),
            (start == 1) == (s@[0] == '-' || s@[0] == '+'),
            all_digits(ds.take(i - start)),
            acc as int == dec_val(ds.take(i - start)),
            acc <= 9223372036854775808u64,
        decreases n - i,
    {
        let c = s.get_char(i);
        let u = c as u32;
        if u < 48 || u > 57 {
            proof {
                assert(!is_digit(ds[i - start]));
            }
            return None;
        }
        let d: u64 = (u - 48) as u64;
        let limit: u64 = (9223372036854775808u64 - d) / 10;
        proof {
            assert(ds.take(i - start + 1).drop_last() =~= ds.take(i - start));
            assert(ds.take(i - start + 1).last() == ds[i - start]);
            assert(all_digits(ds.take(i - start + 1)));
            assert(dec_val(ds.take(i - start + 1)) == 10 * (acc as int) + d);
        }
        if acc > limit {
            proof {
                let b: int = 9223372036854775808;
                assert(acc as int >= (b - d) / 10 + 1);
                assert(10 * ((b - d) / 10 + 1) >= b - d + 1) by (nonlinear_arith);
                assert(10 * (acc as int) + d > b) by (nonlinear_arith)
                    requires
                        acc as int >= (b - d) / 10 + 1,
                        10 * ((b - d) / 10 + 1) >= b - d + 1,
                        0 <= d <= 9,
                ;
                assert(dec_val(ds.take(i - start + 1)) > b);
                if all_digits(ds) {
                    lemma_dec_val_prefix(ds, i - start + 1);
                    assert(dec_val(ds) > b);
                }
                assert(parse_i64_spec(s@) is None);
            }
            return None;
        }
        proof {
            let b: int = 9223372036854775808;
            assert(10 * ((b - d) / 10) <= b - d) by (nonlinear_arith)
                requires
                    0 <= d <= 9,
            ;
            assert(10 * (acc as int) + d <= b) by (nonlinear_arith)
                requires
                    acc as int <= (b - d) / 10,
                    10 * ((b - d) / 10) <= b - d,
                    0 <= d <= 9,
            ;
        }
        acc = acc * 10 + d;
        i += 1;
    }
    proof {
        assert(ds.take(n - start) =~= ds);
    }
    if neg {
        if acc == 9223372036854775808u64 {
            return Some(i64::MIN);
        }
        return Some(-(acc as i64));
    }
    if acc > i64::MAX as u64 {
        proof {
            assert(dec_val(ds) > i64::MAX);
        }
        return None;
    }
    Some(acc as i64)
}

} // verus!
