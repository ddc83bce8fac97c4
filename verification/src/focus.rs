//! Who has the focus, and what changes when it changes: the title of the
//! foreground window is classified, and a state machine decides what the
//! switch sets off. The signal itself comes from the system, outside.

use vstd::prelude::*;
use crate::shared::OverlayState;
use crate::text;

verus! {

/// Title of the main window. It matches the rule "MACRO and HELLDIVERS".
pub const APP_WINDOW_TITLE: &'static str = "Macro Helldivers 2";

/// Title of the two overlay windows (strip and panel).
pub const OVERLAY_WINDOW_TITLE: &'static str = "HD2_OVERLAY";

/// Which window is in the foreground, as the app sees it.
#[derive(Debug, Clone, Copy, PartialEq, Eq, Structural)]
pub enum Window {
    Game,
    /// Our main window.
    App,
    /// Strip or panel of the overlay.
    Overlay,
    /// Anything else: browser, chat, desktop.
    Other,
}

impl Window {
    pub open spec fn spec_arms_macros(self) -> bool {
        !(self is Other)
    }

    /// With the game, the app or the overlay in focus the shortcuts count;
    /// otherwise the keyboard belongs to whoever is in front.
    pub fn arms_macros(self) -> (r: bool)
        ensures
            r == self.spec_arms_macros(),
    {
        match self {
            Window::Other => false,
            _ => true,
        }
    }
}

/// `needle` occurs in `haystack`, ignoring ASCII case.
pub open spec fn contains_ignoring_case(haystack: Seq<char>, needle: Seq<char>) -> bool {
    exists|at: int| 0 <= at && at + needle.len() <= haystack.len()
        && #[trigger] text::ascii_lower_seq(haystack.subrange(at, at + needle.len())) == text::ascii_lower_seq(needle)
}

/// Classification by the title of the foreground window.
pub open spec fn spec_classify(title: Seq<char>) -> Window {
    if contains_ignoring_case(title, "HD2_OVERLAY"@) {
        Window::Overlay
    } else if contains_ignoring_case(title, "MACRO"@) && contains_ignoring_case(title, "HELLDIVERS"@) {
        Window::App
    } else if contains_ignoring_case(title, "HELLDIVERS"@) {
        Window::Game
    } else {
        Window::Other
    }
}

fn contains_ignoring_case_exec(haystack: &Vec<char>, needle: &Vec<char>) -> (r: bool)
    ensures
        r == contains_ignoring_case(haystack@, needle@),
{
    if needle.len() > haystack.len() {
        return false;
    }
    let hl: usize = haystack.len();
    let nl: usize = needle.len();
    let last: usize = hl - nl;
    let mut at: usize = 0;
    loop
        invariant
            hl == haystack@.len(),
            nl == needle@.len(),
            needle@.len() <= haystack@.len(),
            last == haystack@.len() - needle@.len(),
            at <= last,
            forall|k: int| 0 <= k < at ==> text::ascii_lower_seq(#[trigger] haystack@.subrange(k, k + needle@.len())) != text::ascii_lower_seq(needle@),
        decreases last - at,
    {
        let end: usize = at + nl;
        let window = text::slice_chars(haystack, at, end);
        if text::chars_eq_ignore_ascii_case(&window, needle) {
            return true;
        }
        if at == last {
            assert forall|k: int| 0 <= k && k + needle@.len() <= haystack@.len() implies text::ascii_lower_seq(#[trigger] haystack@.subrange(k, k + needle@.len())) != text::ascii_lower_seq(needle@) by {
                if k < at {
                }
            }
            return false;
        }
        at += 1;
    }
}

/// Classifies the foreground window by its title.
pub fn classify(title: &str) -> (w: Window)
    ensures
        w == spec_classify(title@),
{
    let t = text::chars_of(title);
    let overlay = text::chars_of("HD2_OVERLAY");
    let macro_word = text::chars_of("MACRO");
    let game = text::chars_of("HELLDIVERS");
    if contains_ignoring_case_exec(&t, &overlay) {
        Window::Overlay
    } else if contains_ignoring_case_exec(&t, &macro_word) && contains_ignoring_case_exec(&t, &game) {
        Window::App
    } else if contains_ignoring_case_exec(&t, &game) {
        Window::Game
    } else {
        Window::Other
    }
}

/// State of the app that changes the effect of a focus switch.
#[derive(Debug, Clone, Copy, PartialEq, Eq, Structural)]
pub struct Context {
    pub enable_overlay: bool,
    pub always_show_slots: bool,
    /// The overlay has something on screen now (minimal or panel).
    pub overlay_visible: bool,
}

/// What a focus switch orders. Nothing when nothing changed.
#[derive(Debug, Clone, Copy, Default, PartialEq, Eq, Structural)]
pub struct Effects {
    /// The current state, changed or not.
    pub focused: bool,
    /// `true` only on the transition.
    pub focus_changed: bool,
    pub overlay: Option<OverlayState>,
    /// Time to look at the game's video mode again and tell the windows.
    pub check_fullscreen: bool,
    /// The update check put off at boot (game in focus) may run now.
    pub check_updates: bool,
    /// Puts the overlay back on top of the z-order.
    pub reassert: bool,
}

/// What one observation does to the state (focused, update checked) and what
/// it orders.
pub open spec fn spec_observe(focused: bool, checked: bool, window: Window, context: Context) -> (bool, bool, Effects) {
    let now = window.spec_arms_macros();
    let changed = now != focused;
    let overlay = if !changed {
        None
    } else if now {
        if context.enable_overlay && context.always_show_slots { Some(OverlayState::Minimal) } else { None }
    } else {
        if context.enable_overlay { Some(OverlayState::Hidden) } else { None }
    };
    let check_updates = changed && !now && !checked;
    let visible = match overlay {
        Some(state) => state != OverlayState::Hidden,
        None => context.overlay_visible,
    };
    (
        now,
        checked || check_updates,
        Effects {
            focused: now,
            focus_changed: changed,
            overlay,
            check_fullscreen: changed && now,
            check_updates,
            reassert: now && visible,
        },
    )
}

/// The focus state machine. It lives on the hooks thread, the only one that
/// sees window switches.
#[derive(Debug, Default)]
pub struct Watcher {
    focused: bool,
    update_checked: bool,
}

impl Watcher {
    pub closed spec fn is_focused(&self) -> bool {
        self.focused
    }

    /// The deferred update check has been done (or is no longer owed).
    pub closed spec fn checked(&self) -> bool {
        self.update_checked
    }

    pub fn new() -> (w: Watcher)
        ensures
            !w.is_focused(),
            !w.checked(),
    {
        Watcher { focused: false, update_checked: false }
    }

    pub fn focused(&self) -> (r: bool)
        ensures
            r == self.is_focused(),
    {
        self.focused
    }

    /// Marks the update check as done, so that the next loss of focus does not
    /// ask for it again.
    pub fn mark_update_checked(&mut self)
        ensures
            final(self).checked(),
            final(self).is_focused() == old(self).is_focused(),
    {
        self.update_checked = true;
    }

    /// Records the window in focus and returns what it sets off.
    pub fn observe(&mut self, window: Window, context: Context) -> (effects: Effects)
        ensures
            (final(self).is_focused(), final(self).checked(), effects) == spec_observe(old(self).is_focused(), old(self).checked(), window, context),
    {
        let focused = window.arms_macros();
        let mut effects = Effects {
            focused,
            focus_changed: false,
            overlay: None,
            check_fullscreen: false,
            check_updates: false,
            reassert: false,
        };
        if focused != self.focused {
            self.focused = focused;
            effects.focus_changed = true;
            if focused {
                if context.enable_overlay && context.always_show_slots {
                    effects.overlay = Some(OverlayState::Minimal);
                }
                effects.check_fullscreen = true;
            } else {
                if context.enable_overlay {
                    effects.overlay = Some(OverlayState::Hidden);
                }
                if !self.update_checked {
                    self.update_checked = true;
                    effects.check_updates = true;
                }
            }
        }
        let visible = match effects.overlay {
            Some(state) => state != OverlayState::Hidden,
            None => context.overlay_visible,
        };
        effects.reassert = focused && visible;
        effects
    }
}

/// Once the update check has been released (or marked done), no later focus
/// switch asks for it again, and it stays done.
pub proof fn law_update_check_is_asked_at_most_once(focused: bool, window: Window, context: Context)
    ensures
        !spec_observe(focused, true, window, context).2.check_updates,
        spec_observe(focused, true, window, context).1,
{
}

/// Moving between the game, the app and the overlay is not a transition:
/// the macros stay armed and the overlay is left alone.
pub proof fn law_own_windows_are_not_a_transition(window: Window, context: Context)
    requires
        window.spec_arms_macros(),
    ensures
        !spec_observe(true, false, window, context).2.focus_changed,
        spec_observe(true, false, window, context).2.overlay is None,
        spec_observe(true, false, window, context).0,
{
}

/// Macros are armed exactly when the window in front is not a foreign one.
pub proof fn law_focus_follows_the_window(focused: bool, checked: bool, window: Window, context: Context)
    ensures
        spec_observe(focused, checked, window, context).0 == !(window is Other),
        spec_observe(focused, checked, window, context).2.focused == !(window is Other),
{
}

} // verus!
