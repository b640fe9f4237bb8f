use vstd::prelude::*;
use vstd::string::StrSliceExecFns;
use crate::geometry::ImageBounds;
use crate::parse::spec_split_at;
use crate::parse::split_at_separator;

verus! {

/// `c` is an ASCII decimal digit.
pub open spec fn is_digit(c: char) -> bool {
    48 <= c as u32 <= 57
}

/// The numeric value of a decimal digit.
pub open spec fn digit_value(c: char) -> nat {
    (c as u32 - 48) as nat
}

/// Every character of `s` is a decimal digit.
pub open spec fn all_digits(s: Seq<char>) -> bool {
    forall|i: int| 0 <= i < s.len() ==> is_digit(#[trigger] s[i])
}

/// The number a sequence of decimal digits denotes.
pub open spec fn digits_value(s: Seq<char>) -> nat
    decreases s.len(),
{
    if s.len() == 0 {
        0
    } else {
        digits_value(s.drop_last()) * 10 + digit_value(s.last())
    }
}

/// The digits of a numeral: what follows the optional leading '+'.
pub open spec fn numeral_digits(s: Seq<char>) -> Seq<char> {
    if s.len() > 0 && s[0] == '+' {
        s.subrange(1, s.len() as int)
    } else {
        s
    }
}

/// `s` is a decimal numeral as `usize::from_str` accepts one: an optional
/// leading '+' followed by one or more digits.
pub open spec fn is_numeral(s: Seq<char>) -> bool {
    numeral_digits(s).len() > 0 && all_digits(numeral_digits(s))
}

/// A longer prefix of digits never denotes a smaller number.
proof fn lemma_digits_value_mono(s: Seq<char>, a: int, i: int, j: int)
    requires
        0 <= a <= i <= j <= s.len(),
    ensures
        digits_value(s.subrange(a, i)) <= digits_value(s.subrange(a, j)),
    decreases j - i,
{
    if i < j {
        lemma_digits_value_mono(s, a, i, j - 1);
        assert(s.subrange(a, j).drop_last() =~= s.subrange(a, j - 1));
        let v = digits_value(s.subrange(a, j - 1));
        assert(v * 10 >= v) by (nonlinear_arith);
    }
}

/// Parses `s` as an unsigned decimal numeral, accepting exactly what
/// `usize::from_str` accepts: an optional leading '+', then one or more
/// digits. `None` on any other text and on a value above `usize::MAX`.
pub fn parse_usize(s: &str) -> (r: Option<usize>)
    ensures
        match r {
            Some(n) => is_numeral(s@) && n == digits_value(numeral_digits(s@)),
            None => !is_numeral(s@) || digits_value(numeral_digits(s@)) > usize::MAX,
        },
{
    let n = s.unicode_len();
    let start: usize = if n > 0 && s.get_char(0) == '+' {
        1
    } else {
        0
    };
    proof {
        assert(s@ =~= s@.subrange(0, n as int));
    }
    if start >= n {
        return None;
    }
    let mut acc: usize = 0;
    let mut i: usize = start;
    while i < n
        invariant
            n == s@.len(),
            start <= i <= n,
            start < n,
            start == 0 || start == 1,
            start == 1 <==> (s@.len() > 0 && s@[0] == '+'),
            numeral_digits(s@) == s@.subrange(start as int, n as int),
            forall|j: int| start <= j < i ==> is_digit(#[trigger] s@[j]),
            acc == digits_value(s@.subrange(start as int, i as int)),
        decreases n - i,
    {
        let c = s.get_char(i);
        let u = c as u32;
        if u < 48 || u > 57 {
            proof {
                assert(numeral_digits(s@)[i - start] == s@[i as int]);
            }
            return None;
        }
        let d = (u - 48) as usize;
        proof {
            assert(s@.subrange(start as int, i + 1 as int).drop_last() =~= s@.subrange(
                start as int,
                i as int,
            ));
            assert(s@.subrange(start as int, i + 1 as int).last() == s@[i as int]);
        }
        let stepped = match acc.checked_mul(10) {
            Some(m) => m.checked_add(d),
            None => None,
        };
        match stepped {
            Some(v) => {
                acc = v;
            },
            None => {
                proof {
                    lemma_digits_value_mono(s@, start as int, i + 1 as int, n as int);
                }
                return None;
            },
        }
        i = i + 1;
    }
    proof {
        assert(forall|k: int|
            0 <= k < numeral_digits(s@).len() ==> numeral_digits(s@)[k] == s@[k + start]);
    }
    Some(acc)
}

/// Reads image dimensions written `"WxH"`: the text before and after the
/// first 'x' must both be decimal numerals, and the bounds they give must
/// be well formed (both sides positive, pixel count within `usize`).
pub fn parse_dimensions(s: &str) -> (r: Option<ImageBounds>)
    ensures
        match spec_split_at(s@, 'x') {
            None => r is None,
            Some(parts) => {
                let w = digits_value(numeral_digits(parts.0));
                let h = digits_value(numeral_digits(parts.1));
                if is_numeral(parts.0) && is_numeral(parts.1) && w <= usize::MAX && h
                    <= usize::MAX && 0 < w && 0 < h && w * h <= usize::MAX {
                    r == Some(ImageBounds { width: w as usize, height: h as usize })
                } else {
                    r is None
                }
            },
        },
{
    match split_at_separator(s, 'x') {
        None => None,
        Some((ws, hs)) => match (parse_usize(ws), parse_usize(hs)) {
            (Some(w), Some(h)) => ImageBounds::new(w, h),
            _ => None,
        },
    }
}

} // verus!
