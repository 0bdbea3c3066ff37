//! Approximate storage cost of a string.

use vstd::prelude::*;
use vstd::utf8::encode_utf8;

verus! {

/// The cost of a string: the number of bytes in its UTF-8 encoding.
pub open spec fn size_of(s: Seq<char>) -> nat {
    encode_utf8(s).len()
}

/// Returns the number of bytes that `s` occupies, which is the length of its
/// UTF-8 encoding and not the number of its characters.
pub fn get_size_of_string(s: &String) -> (n: usize)
    ensures
        n == size_of(s@),
{
    s.as_str().as_bytes().len()
}

} // verus!
