//! A single trusted helper for building strings character by character;
//! everything else about text in this crate is verified code over `Seq<char>`
//! and `Seq<u8>`.

use vstd::prelude::*;

verus! {

/// Relies on String::push: appends exactly the given character.
#[verifier::external_body]
pub fn push_char(s: &mut String, c: char)
    ensures
        final(s)@ == old(s)@.push(c),
{
    s.push(c);
}

} // verus!
