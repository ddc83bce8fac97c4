//! The tray icon's menu: its texts and what the player picks. The icon
//! itself (`Shell_NotifyIconW`) lives with the Windows parts of the app.

use vstd::prelude::*;

verus! {

/// Texts of the context menu, in the current language.
#[derive(Debug, Clone, Copy)]
pub struct MenuLabels<'a> {
    pub open: &'a str,
    pub exit: &'a str,
}

/// What the player picked in the menu.
#[derive(Debug, Clone, Copy, PartialEq, Eq, Structural)]
pub enum Command {
    /// Bring the window back.
    Open,
    /// Really quit the app.
    Exit,
}

} // verus!
