//! Image stacks: how many layer bricks a stack draws.

use vstd::prelude::*;

verus! {

/// Cap on the layers drawn per stack, so a many-layer image does not
/// dominate the scene.
pub const MAX_LAYERS: usize = 8;

/// Number of layer bricks drawn for an image with `layer_count` layers:
/// all of them, up to [`MAX_LAYERS`]; none for an image without layers.
pub fn stack_layer_count(layer_count: usize) -> (n: usize)
    ensures
        n == (if layer_count < MAX_LAYERS { layer_count } else { MAX_LAYERS }),
{
    if layer_count < MAX_LAYERS {
        layer_count
    } else {
        MAX_LAYERS
    }
}

} // verus!
