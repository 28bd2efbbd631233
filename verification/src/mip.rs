//! Enumeration of mip levels: successive halvings of a texture size
//! until either dimension reaches zero.

use crate::datatypes::UVec2;
use vstd::prelude::*;

verus! {

/// Walks the mip chain of a texture size. Level zero is the full size;
/// each step halves both dimensions and stops once either is zero.
pub struct MipIterator {
    pub count: u32,
    pub size: UVec2,
}

/// The mip chain of `size`, starting before the first halving.
pub fn enumerate_mip_levels(size: UVec2) -> (r: MipIterator)
    ensures
        r.count == 0,
        r.size == size,
{
    MipIterator { count: 0, size }
}

impl MipIterator {
    /// The next mip level: both dimensions halve and the level number
    /// advances; the chain ends when either dimension reaches zero.
    pub fn next(&mut self) -> (r: Option<(u32, UVec2)>)
        requires
            old(self).count < u32::MAX,
        ensures
            final(self).size == (UVec2 { x: old(self).size.x / 2, y: old(self).size.y / 2 }),
            final(self).count == old(self).count + 1,
            r == (if final(self).size.x == 0 || final(self).size.y == 0 {
                Option::<(u32, UVec2)>::None
            } else {
                Option::<(u32, UVec2)>::Some((final(self).count, final(self).size))
            }),
    {
        self.size = UVec2 { x: self.size.x / 2, y: self.size.y / 2 };
        self.count = self.count + 1;
        if self.size.x == 0 || self.size.y == 0 {
            None
        } else {
            Some((self.count, self.size))
        }
    }
}

} // verus!
