//! Conversions between character sequences and strings.
use vstd::prelude::*;

verus! {

/// Collects characters into a `String` (std's `FromIterator<char>` for
/// `String`). Trusted: the resulting string holds exactly the given
/// characters, in order, as std documents for collecting chars.
#[verifier::external_body]
pub(crate) fn chars_to_string(chars: &Vec<char>) -> (r: String)
    ensures
        r@ == chars@,
{
    chars.iter().collect::<String>()
}

} // verus!
