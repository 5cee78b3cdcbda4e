//! Volume cylinders: their polygonal section.

use vstd::prelude::*;

verus! {

/// Default number of sides of a cylinder's section (an octagon): cheap to
/// project and sort, and smooth enough at braille resolution.
pub const DEFAULT_SIDES: usize = 8;

} // verus!
