use vstd::prelude::*;
use crate::v3::V3;

verus! {

/// A ray: an origin point plus a direction.  The intersection math tolerates
/// any non-zero direction; returned distances (`t`) are then expressed in
/// units of that direction vector, not in Euclidean distance.
#[derive(Clone, Copy, Debug)]
pub struct Ray {
    pub start: V3,
    pub direction: V3,
}

} // verus!
