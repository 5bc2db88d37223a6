//! What this library assumes of the standard string type beyond what the
//! verifier's own library states.

use vstd::prelude::*;

verus! {

/// `String::push` of the standard library: the character is appended at the
/// end, and nothing else changes. Taken from its documentation, not proved.
pub assume_specification[ std::string::String::push ](s: &mut std::string::String, ch: char)
    ensures
        final(s)@ == old(s)@.push(ch),
;

} // verus!
