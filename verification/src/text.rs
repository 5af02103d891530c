//! Text handling shared by the engine: a text is a sequence of Unicode code
//! points, indexable in O(1), not a sequence of raw bytes.

use vstd::prelude::*;

verus! {

/// Collect the characters of `string` into a vector, so that the match
/// engine can index the text by code point in O(1).
pub fn to_chars(string: &String) -> (chars: Vec<char>)
    ensures
        chars@ == string@,
{
    let mut chars: Vec<char> = Vec::new();

    for c in it: string.as_str().chars()
        invariant
            chars@.len() == it.index(),
            forall|j: int| 0 <= j < chars@.len() ==> chars@[j] == it.seq()[j],
    {
        chars.push(c);
        proof {
            assert(c == it.seq()[it.index()]);
        }
    }
    proof {
        assert(chars@ =~= string@);
    }
    chars
}

/// Relies on String::push: appends the one character to the end of the
/// string.
#[verifier::external_body]
pub fn push_char(string: &mut String, c: char)
    ensures
        final(string)@ == old(string)@.push(c),
{
    string.push(c)
}

} // verus!
