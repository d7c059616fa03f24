//! Types of the Julia-set renderer that are not floating point.
use vstd::prelude::*;

verus! {

/// Width and height of a rendered Julia-set image in pixels.
#[derive(Clone, Copy, Debug, PartialEq, Eq, Structural)]
pub struct ImageSize {
    pub x: u32,
    pub y: u32,
}

} // verus!
