//! Food.

use vstd::prelude::*;
use crate::rng::draw_range;
use crate::vector::{world_wf, Point2};
use rand::rngs::SmallRng;

verus! {

/// A piece of food, which lies where it is until a herbivore eats it.
#[derive(Debug, Copy, Clone, Eq, PartialEq, Structural)]
pub struct Food {
    pub eaten: bool,
    pub position: Point2,
}

impl Food {
    /// The food lies within the range in which distances are computed.
    pub open spec fn wf(self) -> bool {
        self.position.wf()
    }

    /// Lays a piece of food at a random place of the world.
    pub fn random(x: (i64, i64), y: (i64, i64), rng: &mut SmallRng) -> (r: Food)
        requires
            world_wf(x, y),
        ensures
            !r.eaten,
            x.0 <= r.position.x < x.1,
            y.0 <= r.position.y < y.1,
            r.wf(),
    {
        let px = draw_range(rng, x.0, x.1);
        let py = draw_range(rng, y.0, y.1);
        Food { eaten: false, position: Point2 { x: px, y: py } }
    }

    /// Tells whether the food lies within range.
    pub fn is_valid(&self) -> (r: bool)
        ensures
            r == self.wf(),
    {
        self.position.is_valid()
    }
}

} // verus!
