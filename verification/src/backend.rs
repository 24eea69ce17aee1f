//! The token estimate a backend without a local tokenizer stands on.
use vstd::prelude::*;

verus! {

/// The four-characters-a-token approximation, never below one.
pub open spec fn spec_estimate_tokens(char_count: nat) -> nat {
    let q = (char_count as u32) / 4;
    if q == 0 { 1 } else { q as nat }
}

/// Tokens in a string, approximated at four characters each (at least one).
pub fn estimate_tokens(text: &str) -> (n: u32)
    ensures
        n == spec_estimate_tokens(text@.len()),
{
    let count = text.unicode_len();
    let q: u32 = (count as u32) / 4;
    if q == 0 { 1 } else { q }
}

} // verus!
