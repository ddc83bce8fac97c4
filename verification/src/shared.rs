//! Shared types that travel between the threads: the macro slots and the
//! commands for the engine and the overlay.

use vstd::prelude::*;
use crate::data::Dir;
use crate::keys::Scan;
use crate::settings::{Speed, SLOT_COUNT};

verus! {

/// Stratagem ids equipped in the four macro slots.
pub type Slots = [Option<u32>; SLOT_COUNT];

/// The overlay is never really hidden (showing a window steals the game's
/// focus); what changes is its state, and with it the window bounds.
#[derive(Debug, Clone, Copy, PartialEq, Eq, Structural)]
pub enum OverlayState {
    Hidden,
    Minimal,
    Panel,
}

/// Flash of a slot: yellow when it fires, red when it is blocked.
#[derive(Debug, Clone, Copy, PartialEq, Eq, Structural)]
pub enum FlashKind {
    Triggered,
    Blocked,
}

/// An order for the engine thread, with everything already resolved.
#[derive(Debug, Clone, PartialEq, Eq)]
pub enum EngineCmd {
    Run {
        codex: Vec<Dir>,
        /// Modifier scancode, already resolved: the hook cannot pay a lookup.
        modifier: Scan,
        use_arrows: bool,
        speed: Speed,
        slot: usize,
        support: bool,
    },
}

/// An order for the overlay thread.
#[derive(Debug, Clone, PartialEq, Eq)]
pub enum OverlayCmd {
    SetState(OverlayState),
    Toggle,
    Slots(Slots),
    LoadoutsChanged,
    /// The settings changed: both windows show something that depends on them.
    SettingsChanged,
    Flash { slot: usize, support: bool, kind: FlashKind },
    /// Reasserts the z-order above the game (alt-tab, video mode change).
    Reassert,
    FullscreenWarning(bool),
}

} // verus!
