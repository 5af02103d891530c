//! Path handling shared by the commands: the basename of a path.

use vstd::prelude::*;

verus! {

/// The basename of a path: everything after its last `/`, or the whole path
/// where it holds none. The basename of a path that ends in `/` is empty.
pub open spec fn basename_of(path: Seq<char>) -> Seq<char>
    decreases path.len(),
{
    if path.len() == 0 {
        Seq::empty()
    } else if path.last() == '/' {
        Seq::empty()
    } else {
        basename_of(path.drop_last()).push(path.last())
    }
}

/// Return the basename of `path`: everything after its last `/`, or the
/// whole path where it holds none.
pub fn basename(path: &String) -> (r: String)
    ensures
        r@ == basename_of(path@),
{
    let mut out = String::new();

    for c in it: path.as_str().chars()
        invariant
            out@ == basename_of(it.seq().take(it.index())),
    {
        if c == '/' {
            out = String::new();
        } else {
            crate::text::push_char(&mut out, c);
        }
        proof {
            assert(c == it.seq()[it.index()]);
            assert(it.seq().take(it.index() + 1).drop_last() =~= it.seq().take(it.index()));
            assert(it.seq().take(it.index() + 1).last() == c);
        }
    }
    proof {
        assert(path@.take(path@.len() as int) =~= path@);
    }
    out
}

} // verus!
