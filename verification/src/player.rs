//! The plain types by which an application names the player's side of the world.
use vstd::prelude::*;

verus! {

/// Names the part of an application that turns input into the player's movement.
#[derive(Debug, Clone, Copy, PartialEq, Eq)]
pub struct PlayerControllerPlugin;

/// Marks the camera that follows the player.
#[derive(Debug, Clone, Copy, PartialEq, Eq)]
pub struct PlayerCamera;

/// Whether the window holds the cursor.
#[derive(Debug, Clone, Copy, PartialEq, Eq)]
pub struct CursorGrabStatus(pub bool);

impl Default for CursorGrabStatus {
    /// The cursor starts free.
    fn default() -> (status: CursorGrabStatus)
        ensures
            !status.0,
    {
        CursorGrabStatus(false)
    }
}

} // verus!
