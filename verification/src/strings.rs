//! What this crate relies on from `String` beyond what vstd specifies.

use vstd::prelude::*;

verus! {

/// `String::push` appends the one character `c` to the end of the string and
/// leaves what was there before in place.
pub assume_specification[ String::push ](s: &mut String, c: char)
    ensures
        final(s)@ == old(s)@.push(c),
;

} // verus!
