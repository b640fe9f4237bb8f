use vstd::prelude::*;
use vstd::string::StrSliceExecFns;
use crate::geometry::Complex;
use crate::geometry::ImageBounds;
use core::str::FromStr;

verus! {

/// Whether `sep` occurs in `s`.
pub open spec fn contains_char(s: Seq<char>, sep: char) -> bool {
    exists|i: int| 0 <= i < s.len() && s[i] == sep
}

/// The two pieces of `s` on either side of the first occurrence of `sep`,
/// or `None` when `sep` does not occur.
pub open spec fn spec_split_at(s: Seq<char>, sep: char) -> Option<(Seq<char>, Seq<char>)>
    decreases s.len(),
{
    if s.len() == 0 {
        None
    } else if s[0] == sep {
        Some((Seq::empty(), s.subrange(1, s.len() as int)))
    } else {
        match spec_split_at(s.subrange(1, s.len() as int), sep) {
            None => None,
            Some((l, r)) => Some((seq![s[0]] + l, r)),
        }
    }
}

/// The split is at the first occurrence of the separator: if `sep` first
/// occurs at index `i`, the pieces are what stands before and after it.
proof fn lemma_split_at_first_index(s: Seq<char>, sep: char, i: int)
    requires
        0 <= i < s.len(),
        s[i] == sep,
        forall|j: int| 0 <= j < i ==> s[j] != sep,
    ensures
        spec_split_at(s, sep) == Some((s.subrange(0, i), s.subrange(i + 1, s.len() as int))),
    decreases s.len(),
{
    if s[0] == sep {
        assert(i == 0);
        assert(s.subrange(0, 0) =~= Seq::<char>::empty());
    } else {
        let t = s.subrange(1, s.len() as int);
        assert(t[i - 1] == sep);
        assert(forall|j: int| 0 <= j < i - 1 ==> t[j] == s[j + 1] && t[j] != sep);
        lemma_split_at_first_index(t, sep, i - 1);
        assert(t.subrange(0, i - 1) =~= s.subrange(1, i));
        assert(t.subrange(i, t.len() as int) =~= s.subrange(i + 1, s.len() as int));
        assert(seq![s[0]] + s.subrange(1, i) =~= s.subrange(0, i));
    }
}

/// No occurrence of the separator means no split.
proof fn lemma_split_at_absent(s: Seq<char>, sep: char)
    requires
        forall|j: int| 0 <= j < s.len() ==> s[j] != sep,
    ensures
        spec_split_at(s, sep) is None,
    decreases s.len(),
{
    if s.len() > 0 {
        let t = s.subrange(1, s.len() as int);
        assert(forall|j: int| 0 <= j < t.len() ==> t[j] == s[j + 1] && t[j] != sep);
        lemma_split_at_absent(t, sep);
    }
}

/// Splits `s` at the first occurrence of `separator` into the text before
/// it and the text after it; `None` exactly when `separator` is absent.
pub fn split_at_separator<'a>(s: &'a str, separator: char) -> (r: Option<(&'a str, &'a str)>)
    ensures
        match r {
            None => spec_split_at(s@, separator) is None && !contains_char(s@, separator),
            Some((left, right)) => {
                &&& spec_split_at(s@, separator) == Some((left@, right@))
                &&& contains_char(s@, separator)
            },
        },
{
    let n = s.unicode_len();
    let mut i: usize = 0;
    while i < n
        invariant
            n == s@.len(),
            i <= n,
            forall|j: int| 0 <= j < i ==> s@[j] != separator,
        decreases n - i,
    {
        if s.get_char(i) == separator {
            let left = s.substring_char(0, i);
            let right = s.substring_char(i + 1, n);
            proof {
                lemma_split_at_first_index(s@, separator, i as int);
            }
            return Some((left, right));
        }
        i = i + 1;
    }
    proof {
        lemma_split_at_absent(s@, separator);
    }
    None
}

/// Relies on `str::FromStr::from_str`: parses `s` as a `T`, `None` when
/// `T`'s parser rejects `s`. What value a given `T` reads from a given
/// string is up to that parser.
#[verifier::external_body]
fn from_str_opt<T: FromStr>(s: &str) -> (r: Option<T>) {
    T::from_str(s).ok()
}

/// Parses `s` as a pair of `T`s separated by `separator`, such as
/// `"800x600"` or `"1.0,0.5"`: the text is split at the first occurrence
/// of `separator` and both pieces are handed to `T`'s parser. `None` when
/// the separator is absent or either piece is rejected.
pub fn parse_pair<T: FromStr>(s: &str, separator: char) -> (r: Option<(T, T)>)
    ensures
        r is Some ==> contains_char(s@, separator),
        !contains_char(s@, separator) ==> r is None,
{
    match split_at_separator(s, separator) {
        None => None,
        Some((left, right)) => match (from_str_opt::<T>(left), from_str_opt::<T>(right)) {
            (Some(l), Some(r)) => Some((l, r)),
            _ => None,
        },
    }
}

/// Parses `s` as `"re,im"`, a point of the complex plane whose two
/// components are read by `T`'s parser; composes on the pair parser with
/// separator ','.
pub fn parse_complex<T: FromStr>(s: &str) -> (r: Option<Complex<T>>)
    ensures
        r is Some ==> contains_char(s@, ','),
        !contains_char(s@, ',') ==> r is None,
{
    match parse_pair::<T>(s, ',') {
        Some((re, im)) => Some(Complex::new(re, im)),
        None => None,
    }
}

} // verus!
