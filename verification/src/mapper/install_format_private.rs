//! Keeps the set of descriptor formats closed.
use vstd::prelude::*;

verus! {

/// Implemented by the descriptor formats of this crate and by nothing else.
pub trait Sealed {

}

} // verus!
