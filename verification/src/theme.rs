//! Container lifecycle status shared by every layer of the application.

use vstd::prelude::*;

verus! {

/// Lifecycle status of one container, as the renderer colors it.
#[derive(Debug, Clone, Copy, PartialEq, Eq, Hash, Structural)]
pub enum Status {
    Running,
    Paused,
    Stopped,
    Restarting,
    Crashed,
}

} // verus!
