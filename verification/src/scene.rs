//! What a picture is taken of.
pub mod item;
pub mod light;
pub mod material;

use crate::fixed::Fixed;
use item::Item;
use light::LightSource;
use vstd::prelude::*;

verus! {

/// A length along a ray or between two points.
pub type Distance = Fixed;

/// What a ray that leaves the scene sees.
#[derive(Clone, Copy, Debug, PartialEq, Eq, Structural)]
pub enum Background {
    /// Nothing: black in every direction.
    Black,
    /// A sky that pales from the zenith down to the horizon.
    Sky,
}

/// The camera's picture format and the things in front of it. The camera
/// stands at the origin and looks down the negative z axis.
pub struct Scene {
    /// The number of pixels in a row.
    pub width: u32,
    /// The number of rows.
    pub height: u32,
    /// The field of view, in degrees.
    pub fov: Distance,
    pub items: Vec<Item>,
    /// The lights, for rendering by direct lighting. Rendering by scattered
    /// paths knows no lights but the items that give off light.
    pub lights: Vec<LightSource>,
    pub background: Background,
}

impl Scene {
    /// Every item can be shaded: the textures have texels.
    pub open spec fn wf(self) -> bool {
        forall|k: int| 0 <= k < self.items@.len() ==> (#[trigger] self.items@[k]).wf()
    }

    /// A picture of the scene can be taken: every item can be shaded, the
    /// picture is wider than high, and its pixels can be counted.
    pub open spec fn renderable(self) -> bool {
        &&& self.wf()
        &&& self.width > self.height
        &&& self.width * self.height <= u32::MAX
    }

    /// Whether a picture of the scene can be taken.
    pub fn is_renderable(&self) -> (b: bool)
        ensures
            b == self.renderable(),
    {
        if self.width <= self.height {
            return false;
        }
        assert(self.width * self.height <= 0xffff_ffff * 0xffff_ffff) by (nonlinear_arith)
            requires
                self.width <= 0xffff_ffff,
                self.height <= 0xffff_ffff,
        ;
        if self.width as u64 * self.height as u64 > u32::MAX as u64 {
            return false;
        }
        let mut k: usize = 0;
        while k < self.items.len()
            invariant
                k <= self.items@.len(),
                forall|j: int| 0 <= j < k ==> (#[trigger] self.items@[j]).wf(),
            decreases self.items@.len() - k,
        {
            if !self.items[k].get_material().color.is_usable() {
                return false;
            }
            k = k + 1;
        }
        true
    }
}

} // verus!
