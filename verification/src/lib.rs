//! Context-aware errors organised as a tree: each exception holds its
//! top-level error and a tree of frames, one per error, each with the
//! message of its error, where it was created, and its children (the
//! sources of the error, and the exceptions it was raised over).

use vstd::prelude::*;

pub mod anyhow_interop;
pub mod exn;
pub mod frame;
pub mod location;
pub mod render;

pub use crate::anyhow_interop::{from_anyhow, into_anyhow, AnyhowError};
pub use crate::exn::Exn;
pub use crate::frame::Frame;
pub use crate::location::Location;

verus! {

} // verus!
