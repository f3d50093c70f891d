//! Vanity selector search for function signatures.
//!
//! Given a raw signature such as `"myFunction(address)"`, the library looks
//! for a renaming `myFunction_<suffix>(address)` whose 4-byte selector (the
//! leading bytes of the Keccak-256 digest of the signature text) begins with
//! a requested number of zero bytes. The search is a bounded exhaustive
//! enumeration of suffixes over a fixed alphabet, shorter suffixes first,
//! stopping at the first hit.

use vstd::prelude::*;

pub mod optimizer;
pub mod validator;

verus! {

/// Relies on `String::push` of std: appends the one character to the string.
#[verifier::external_body]
pub(crate) fn push_char(s: &mut String, c: char)
    ensures
        final(s)@ == old(s)@.push(c),
{
    s.push(c)
}

} // verus!
