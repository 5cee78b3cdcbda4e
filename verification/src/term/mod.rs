//! Terminal-environment concerns: capability classification and cell
//! pixel geometry.

pub mod capability;
pub mod cell;
