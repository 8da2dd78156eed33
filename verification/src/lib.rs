use vstd::prelude::*;

pub mod shaders;
pub mod text;

verus! {

/// A window size in whole pixels, as a windowing backend reports it.
pub struct TestSize {
    pub x: i32,
    pub y: i32,
}

} // verus!
