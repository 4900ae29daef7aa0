//! Viewport-facing types that hold no geometry: pointer buttons and the
//! Bevy backend, which draws nothing.

use vstd::prelude::*;

verus! {

/// A pointer / mouse button forwarded from the GUI layer.
#[derive(Debug, Clone, Copy, PartialEq, Eq, Structural)]
pub enum PointerButton {
    Primary,
    Secondary,
    Middle,
}

/// The Bevy viewport backend; it holds no state and draws nothing.
pub struct BevyBackend;

} // verus!
