//! What the two user32 detours do with the game's pointer calls while the
//! menu is open: `ClipCursor` is made with no rectangle, releasing the
//! confinement, and `SetCursorPos` is reported done without moving anything;
//! with the menu closed both go through as the game made them.

use vstd::prelude::*;

verus! {

/// Whether the menu is on screen, as the detours read it.
#[derive(Debug, Clone, Copy, PartialEq, Eq, Structural)]
pub struct CursorGate {
    pub menu_open: bool,
}

/// What the `ClipCursor` detour does.
#[derive(Debug, Clone, Copy, PartialEq, Eq, Structural)]
pub enum ClipAction {
    /// Call the real export with the caller's rectangle.
    PassRect,
    /// Call the real export with no rectangle: no confinement.
    Release,
    /// Nothing to call through to: report failure.
    Fail,
}

/// What the `SetCursorPos` detour does.
#[derive(Debug, Clone, Copy, PartialEq, Eq, Structural)]
pub enum SetPosAction {
    /// Call the real export.
    Forward,
    /// Report success and move nothing.
    Swallow,
}

impl CursorGate {
    pub fn new() -> (r: CursorGate)
        ensures
            !r.menu_open,
    {
        CursorGate { menu_open: false }
    }

    /// Tell the detours whether the menu is on screen.
    pub fn set_menu_open(&mut self, open: bool)
        ensures
            final(self).menu_open == open,
    {
        self.menu_open = open;
    }

    /// The `ClipCursor` detour's choice; `hooked` says whether the real
    /// export can be reached.
    pub fn clip(&self, hooked: bool) -> (r: ClipAction)
        ensures
            r == (if !hooked {
                ClipAction::Fail
            } else if self.menu_open {
                ClipAction::Release
            } else {
                ClipAction::PassRect
            }),
    {
        if !hooked {
            ClipAction::Fail
        } else if self.menu_open {
            ClipAction::Release
        } else {
            ClipAction::PassRect
        }
    }

    /// The `SetCursorPos` detour's choice: swallowed while the menu is open,
    /// and also when the real export cannot be reached.
    pub fn set_pos(&self, hooked: bool) -> (r: SetPosAction)
        ensures
            r == (if self.menu_open || !hooked {
                SetPosAction::Swallow
            } else {
                SetPosAction::Forward
            }),
    {
        if self.menu_open || !hooked {
            SetPosAction::Swallow
        } else {
            SetPosAction::Forward
        }
    }
}

} // verus!
