//! Portrait face tags.

use vstd::prelude::*;

verus! {

/// Which face of an actor a portrait shows.
#[derive(Debug, Clone, Copy, PartialEq)]
pub enum FaceType {
    NORMAL,
}

} // verus!
