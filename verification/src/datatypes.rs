//! Small shared data types: an unsigned two-component vector used for
//! texture sizes.

use vstd::prelude::*;

verus! {

/// A two-component vector of unsigned 32-bit integers.
#[derive(Debug, Clone, Copy, PartialEq, Eq, Structural)]
pub struct UVec2 {
    pub x: u32,
    pub y: u32,
}

impl UVec2 {
    pub fn new(x: u32, y: u32) -> (r: Self)
        ensures
            r == (UVec2 { x, y }),
    {
        Self { x, y }
    }

    pub fn into_array(self) -> (r: [u32; 2])
        ensures
            r@ == seq![self.x, self.y],
    {
        let r = [self.x, self.y];
        proof {
            assert(r@ =~= seq![self.x, self.y]);
        }
        r
    }

    pub fn from_array(a: [u32; 2]) -> (r: Self)
        ensures
            r == (UVec2 { x: a@[0], y: a@[1] }),
    {
        Self { x: a[0], y: a[1] }
    }

    /// Applies `f` to both components.
    pub fn map<F: Fn(u32) -> u32>(self, f: F) -> (r: Self)
        requires
            forall|v: u32| #[trigger] f.requires((v,)),
        ensures
            f.ensures((self.x,), r.x),
            f.ensures((self.y,), r.y),
    {
        Self { x: f(self.x), y: f(self.y) }
    }
}

} // verus!
