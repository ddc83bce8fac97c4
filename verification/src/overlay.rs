//! The overlay's states and what the overlay thread does with its commands.
//!
//! The windows are never hidden (showing a transparent window activates it,
//! and activating anything steals the game's focus); what changes between the
//! states is their bounds. The windows themselves live outside the library.

use vstd::prelude::*;
use crate::shared::{FlashKind, OverlayCmd, OverlayState, Slots};

verus! {

/// The overlay has something on screen.
pub fn is_visible(state: OverlayState) -> (r: bool)
    ensures
        r == (state != OverlayState::Hidden),
{
    match state {
        OverlayState::Hidden => false,
        _ => true,
    }
}

/// Where the Ctrl+H hotkey leads: the panel closes to the persistent HUD when
/// it is on, and disappears altogether when it is not; from any other state the
/// hotkey opens the panel.
pub open spec fn spec_toggled(state: OverlayState, always_show_slots: bool) -> OverlayState {
    match state {
        OverlayState::Panel => if always_show_slots { OverlayState::Minimal } else { OverlayState::Hidden },
        _ => OverlayState::Panel,
    }
}

pub fn toggled(state: OverlayState, always_show_slots: bool) -> (r: OverlayState)
    ensures
        r == spec_toggled(state, always_show_slots),
{
    match state {
        OverlayState::Panel => if always_show_slots { OverlayState::Minimal } else { OverlayState::Hidden },
        _ => OverlayState::Panel,
    }
}

/// Closing the panel twice with the persistent HUD off brings it back; with
/// the HUD on, the panel and the strip take turns.
pub proof fn law_the_hotkey_walks_back(always_show_slots: bool)
    ensures
        spec_toggled(spec_toggled(OverlayState::Panel, always_show_slots), always_show_slots) == OverlayState::Panel,
        spec_toggled(OverlayState::Hidden, always_show_slots) == OverlayState::Panel,
        spec_toggled(OverlayState::Minimal, always_show_slots) == OverlayState::Panel,
{
}

/// What the overlay thread does for a command, besides redrawing.
#[derive(Debug, Clone, Copy, PartialEq, Eq)]
pub enum Effect {
    /// The four macro slots to show.
    Slots(Slots),
    /// Reread the saved builds the panel lists.
    ReloadLoadouts,
    /// Flash a macro slot.
    Flash { slot: usize, kind: FlashKind },
    /// Put the windows back above the game.
    Reassert,
    /// Show or hide the exclusive-fullscreen warning.
    Warning(bool),
}

/// What a batch of commands comes to.
#[derive(Debug, Clone, PartialEq, Eq)]
pub struct Drained {
    /// The state asked for, if any: changing state redraws both windows.
    pub state: Option<OverlayState>,
    pub strip_dirty: bool,
    pub panel_dirty: bool,
    /// The effects, in the order of their commands.
    pub effects: Vec<Effect>,
}

/// A batch as values.
pub struct DrainView {
    pub state: Option<OverlayState>,
    pub strip_dirty: bool,
    pub panel_dirty: bool,
    pub effects: Seq<Effect>,
}

/// One command applied to what the batch has come to so far. A toggle only
/// counts with the game focused (the hotkey and the panel's × do nothing
/// otherwise), and a flash of a fixed support stratagem has no slot on the
/// overlay.
pub open spec fn drain_step(acc: DrainView, current: OverlayState, focused: bool, always_show_slots: bool, cmd: OverlayCmd) -> DrainView {
    match cmd {
        OverlayCmd::SetState(next) => DrainView { state: Some(next), ..acc },
        OverlayCmd::Toggle => if focused {
            let from = match acc.state { Some(s) => s, None => current };
            DrainView { state: Some(spec_toggled(from, always_show_slots)), ..acc }
        } else {
            acc
        },
        OverlayCmd::Slots(slots) => DrainView { strip_dirty: true, panel_dirty: true, effects: acc.effects.push(Effect::Slots(slots)), ..acc },
        OverlayCmd::LoadoutsChanged => DrainView { panel_dirty: true, effects: acc.effects.push(Effect::ReloadLoadouts), ..acc },
        OverlayCmd::SettingsChanged => DrainView { strip_dirty: true, panel_dirty: true, ..acc },
        OverlayCmd::Flash { slot, support, kind } => if support {
            acc
        } else {
            DrainView { strip_dirty: true, panel_dirty: true, effects: acc.effects.push(Effect::Flash { slot, kind }), ..acc }
        },
        OverlayCmd::Reassert => DrainView { effects: acc.effects.push(Effect::Reassert), ..acc },
        OverlayCmd::FullscreenWarning(w) => DrainView { panel_dirty: true, effects: acc.effects.push(Effect::Warning(w)), ..acc },
    }
}

/// The commands applied in order, from nothing asked.
pub open spec fn spec_drain(current: OverlayState, focused: bool, always_show_slots: bool, cmds: Seq<OverlayCmd>) -> DrainView
    decreases cmds.len(),
{
    if cmds.len() == 0 {
        DrainView { state: None, strip_dirty: false, panel_dirty: false, effects: Seq::empty() }
    } else {
        drain_step(spec_drain(current, focused, always_show_slots, cmds.drop_last()), current, focused, always_show_slots, cmds.last())
    }
}

pub open spec fn drained_view(d: &Drained) -> DrainView {
    DrainView { state: d.state, strip_dirty: d.strip_dirty, panel_dirty: d.panel_dirty, effects: d.effects@ }
}

/// Folds a batch of commands drained from the channel (`drain_commands`): the
/// state to switch to, which windows need a redraw, and the effects in order.
/// `focused` and `always_show_slots` are read once for the batch.
pub fn drain(current: OverlayState, focused: bool, always_show_slots: bool, cmds: &[OverlayCmd]) -> (d: Drained)
    ensures
        drained_view(&d) == spec_drain(current, focused, always_show_slots, cmds@),
{
    let mut d = Drained { state: None, strip_dirty: false, panel_dirty: false, effects: Vec::new() };
    let mut i: usize = 0;
    assert(cmds@.take(0) =~= Seq::<OverlayCmd>::empty());
    assert(drained_view(&d) == spec_drain(current, focused, always_show_slots, cmds@.take(0)));
    while i < cmds.len()
        invariant
            i <= cmds@.len(),
            drained_view(&d) == spec_drain(current, focused, always_show_slots, cmds@.take(i as int)),
        decreases cmds.len() - i,
    {
        assert(cmds@.take(i + 1).drop_last() =~= cmds@.take(i as int));
        assert(cmds@.take(i + 1).last() == cmds@[i as int]);
        match &cmds[i] {
            OverlayCmd::SetState(next) => {
                d.state = Some(*next);
            },
            OverlayCmd::Toggle => {
                if focused {
                    let from = match d.state {
                        Some(s) => s,
                        None => current,
                    };
                    d.state = Some(toggled(from, always_show_slots));
                }
            },
            OverlayCmd::Slots(slots) => {
                d.effects.push(Effect::Slots(*slots));
                d.strip_dirty = true;
                d.panel_dirty = true;
            },
            OverlayCmd::LoadoutsChanged => {
                d.effects.push(Effect::ReloadLoadouts);
                d.panel_dirty = true;
            },
            OverlayCmd::SettingsChanged => {
                d.strip_dirty = true;
                d.panel_dirty = true;
            },
            OverlayCmd::Flash { slot, support, kind } => {
                if !*support {
                    d.effects.push(Effect::Flash { slot: *slot, kind: *kind });
                    d.strip_dirty = true;
                    d.panel_dirty = true;
                }
            },
            OverlayCmd::Reassert => {
                d.effects.push(Effect::Reassert);
            },
            OverlayCmd::FullscreenWarning(w) => {
                d.effects.push(Effect::Warning(*w));
                d.panel_dirty = true;
            },
        }
        i += 1;
    }
    assert(cmds@.take(cmds@.len() as int) =~= cmds@);
    d
}

/// Without the game focused no batch changes the state by a toggle: only an
/// explicit state command does.
pub proof fn law_no_toggle_without_focus(current: OverlayState, always_show_slots: bool, cmds: Seq<OverlayCmd>)
    requires
        forall|i: int| 0 <= i < cmds.len() ==> !(#[trigger] cmds[i] is SetState),
    ensures
        spec_drain(current, false, always_show_slots, cmds).state is None,
    decreases cmds.len(),
{
    if cmds.len() > 0 {
        law_no_toggle_without_focus(current, always_show_slots, cmds.drop_last());
        assert(!(cmds[cmds.len() - 1] is SetState));
    }
}

} // verus!
