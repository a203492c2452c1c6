//! Names for the mathematical types in the traits of this library, for whoever implements them.

use vstd::prelude::*;

verus! {

/// A finite sequence.
pub type List<T> = Seq<T>;

/// A text as the sequence of its characters.
pub type Text = Seq<char>;

} // verus!
