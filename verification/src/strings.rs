//! Conversions between `String` and character vectors, and numbered
//! display names.

use vstd::prelude::*;
use crate::numerals::dec_digits;
use crate::numerals::u64_dec_chars;

verus! {

/// The characters of a string, as a vector.
pub fn chars_of(s: &str) -> (r: Vec<char>)
    ensures
        r@ == s@,
{
    let n = s.unicode_len();
    let mut r: Vec<char> = Vec::new();
    let mut i: usize = 0;
    while i < n
        invariant
            i <= n,
            n == s@.len(),
            r@ == s@.take(i as int),
        decreases n - i,
    {
        r.push(s.get_char(i));
        i = i + 1;
        assert(r@ =~= s@.take(i as int));
    }
    assert(s@.take(n as int) =~= s@);
    r
}

/// Relies on `String::from_iter` over `char`: the string holds exactly the
/// characters of the iterator, in order.
#[verifier::external_body]
pub fn string_from_chars(v: &Vec<char>) -> (r: String)
    ensures
        r@ == v@,
{
    v.iter().collect()
}

/// The display name `prefix` followed by the decimal digits of `n`, as
/// given to newly added requests and collections.
pub fn numbered_name(prefix: &str, n: u64) -> (r: String)
    ensures
        r@ == prefix@ + dec_digits(n as nat),
{
    let mut r = prefix.to_owned();
    let digits = u64_dec_chars(n);
    let ds = string_from_chars(&digits);
    r.append(ds.as_str());
    r
}

} // verus!
