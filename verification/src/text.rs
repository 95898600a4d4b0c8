//! Lists of strings, seen as lists of their characters.

use vstd::prelude::*;

verus! {

/// The views of a list of strings, in order.
pub open spec fn texts_of(strings: Seq<String>) -> Seq<Seq<char>> {
    Seq::new(strings.len(), |i: int| strings[i]@)
}

} // verus!
