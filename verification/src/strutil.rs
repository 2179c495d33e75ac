use vstd::prelude::*;

verus! {

/// Relies on String::push: appends the given character to the end of the
/// string, leaving the earlier characters as they were.
#[verifier::external_body]
pub fn push_char(s: &mut String, c: char)
    ensures
        final(s)@ == old(s)@.push(c),
{
    s.push(c);
}

} // verus!
