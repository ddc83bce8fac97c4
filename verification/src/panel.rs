//! The overlay panel: assigning stratagems to the slots and applying a saved
//! build, all with the mouse, without leaving the game. The window never takes
//! the keyboard, so saved builds can only be applied here.
//!
//! What a click does is decided here; drawing is the window's business.

use vstd::prelude::*;
use crate::builds;
use crate::data::GameData;
use crate::loadouts::{self, Loadout};
use crate::settings::Settings;
use crate::shared::Slots;

verus! {

/// What was clicked in the panel.
#[derive(Debug, Clone, Copy, PartialEq, Eq, Structural)]
pub enum Id {
    /// The `×` that closes the panel.
    Close,
    /// The chip of the saved build at this index.
    Chip(usize),
    /// Something drawn by another part of the screen.
    Other(u64),
}

/// What the overlay thread does after a click.
#[derive(Debug, Clone, PartialEq, Eq)]
pub enum Action {
    /// Only redraw.
    Redraw,
    /// Close the panel (the same path as Ctrl+H).
    Close,
    /// New slots: save them, rebuild the shortcut table and tell the window.
    SlotsChanged(Slots),
}

/// What the panel needs to know of the rest of the app.
pub struct Ctx<'a> {
    pub data: &'a GameData,
    pub settings: &'a Settings,
    pub slots: Slots,
}

/// State of the panel between two builds of the screen.
pub struct Panel {
    loadouts: Vec<Loadout>,
    warning: bool,
}

impl Panel {
    /// The saved builds the panel shows.
    pub closed spec fn saved(&self) -> Seq<Loadout> {
        self.loadouts@
    }

    /// The exclusive-fullscreen warning is up.
    pub closed spec fn warned(&self) -> bool {
        self.warning
    }

    pub fn new() -> (p: Panel)
        ensures
            p.saved().len() == 0,
            !p.warned(),
    {
        Panel { loadouts: Vec::new(), warning: false }
    }

    /// Takes the saved builds read again from `loadouts.json`: the main window
    /// writes the file and tells the overlay.
    pub fn reload_loadouts(&mut self, loadouts: Vec<Loadout>)
        ensures
            final(self).saved() == loadouts@,
            final(self).warned() == old(self).warned(),
    {
        self.loadouts = loadouts;
    }

    pub fn loadouts(&self) -> (r: &[Loadout])
        ensures
            r@ == self.saved(),
    {
        self.loadouts.as_slice()
    }

    /// The game is in exclusive fullscreen: the warning goes on top of the panel.
    pub fn set_warning(&mut self, warning: bool)
        ensures
            final(self).warned() == warning,
            final(self).saved() == old(self).saved(),
    {
        self.warning = warning;
    }

    /// The chip that lights up: the saved build that matches the slots.
    pub fn active_chip(&self, ctx: &Ctx) -> (r: Option<usize>)
        requires
            ctx.data.wf(),
        ensures
            r matches Some(i) ==> builds::first_active(self.saved(), ctx.slots@, ctx.data) == Some(i as int),
            r is None ==> builds::first_active(self.saved(), ctx.slots@, ctx.data) is None,
    {
        builds::active_loadout(self.loadouts.as_slice(), ctx.slots, ctx.data)
    }

    /// What a click does: the `×` closes the panel, a chip puts its saved
    /// build in the macro slots (sanitized as on load). Anything else is not
    /// the panel's.
    pub fn on_click(&mut self, clicked: Id, ctx: &Ctx) -> (r: Option<Action>)
        requires
            ctx.data.wf(),
        ensures
            final(self).saved() == old(self).saved(),
            final(self).warned() == old(self).warned(),
            match clicked {
                Id::Close => r == Some(Action::Close),
                Id::Chip(i) => if i < old(self).saved().len() {
                    r matches Some(Action::SlotsChanged(s)) && s@ == loadouts::spec_sanitize(old(self).saved()[i as int].slot_ids@, ctx.data)
                } else {
                    r is None
                },
                Id::Other(_) => r is None,
            },
    {
        match clicked {
            Id::Close => Some(Action::Close),
            Id::Chip(index) => {
                if index < self.loadouts.len() {
                    let slots = loadouts::sanitize(self.loadouts[index].slot_ids.as_slice(), ctx.data);
                    Some(Action::SlotsChanged(slots))
                } else {
                    None
                }
            },
            Id::Other(_) => None,
        }
    }
}

} // verus!
