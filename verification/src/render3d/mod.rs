//! Scene primitives shared by the renderers: the braille framebuffer and
//! its supersample resolve, the unit cube's topology and the sizing rules
//! of cylinders and image stacks.

pub mod cube;
pub mod cylinder;
pub mod framebuffer;
pub mod raster;
pub mod stack;
