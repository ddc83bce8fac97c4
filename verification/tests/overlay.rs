use macro_hd2::hooks::{on_key_down, on_key_up, Decision, KeySet, KeyDown, Order};
use macro_hd2::overlay::{drain, is_visible, toggled, Effect};
use macro_hd2::shared::{FlashKind, OverlayCmd, OverlayState};

#[test]
fn the_hotkey_walks_the_three_states_like_the_v1() {
    // Closed with the persistent HUD on: back to the strip.
    assert_eq!(toggled(OverlayState::Panel, true), OverlayState::Minimal);
    // Without the persistent HUD it disappears altogether.
    assert_eq!(toggled(OverlayState::Panel, false), OverlayState::Hidden);
    // And from any other state the hotkey opens the panel.
    assert_eq!(toggled(OverlayState::Hidden, false), OverlayState::Panel);
    assert_eq!(toggled(OverlayState::Minimal, true), OverlayState::Panel);
}

#[test]
fn only_hidden_is_invisible() {
    assert!(!is_visible(OverlayState::Hidden));
    assert!(is_visible(OverlayState::Minimal));
    assert!(is_visible(OverlayState::Panel));
}

#[test]
fn a_batch_folds_into_one_state_and_the_dirty_windows() {
    let cmds = [
        OverlayCmd::Toggle,
        OverlayCmd::Slots([Some(1), None, None, None]),
        OverlayCmd::Flash { slot: 2, support: true, kind: FlashKind::Blocked },
        OverlayCmd::Flash { slot: 1, support: false, kind: FlashKind::Triggered },
        OverlayCmd::Toggle,
        OverlayCmd::Reassert,
        OverlayCmd::FullscreenWarning(true),
        OverlayCmd::LoadoutsChanged,
    ];
    let d = drain(OverlayState::Minimal, true, true, &cmds);
    // Minimal → Panel → Minimal: the second toggle starts from the first.
    assert_eq!(d.state, Some(OverlayState::Minimal));
    assert!(d.strip_dirty && d.panel_dirty);
    assert_eq!(
        d.effects,
        vec![
            Effect::Slots([Some(1), None, None, None]),
            Effect::Flash { slot: 1, kind: FlashKind::Triggered },
            Effect::Reassert,
            Effect::Warning(true),
            Effect::ReloadLoadouts,
        ]
    );
}

#[test]
fn a_toggle_without_the_game_focused_does_nothing() {
    let d = drain(OverlayState::Hidden, false, false, &[OverlayCmd::Toggle]);
    assert_eq!(d.state, None);
    assert!(!d.strip_dirty && !d.panel_dirty && d.effects.is_empty());

    let d = drain(OverlayState::Hidden, false, false, &[OverlayCmd::Toggle, OverlayCmd::SetState(OverlayState::Panel)]);
    assert_eq!(d.state, Some(OverlayState::Panel));
}

#[test]
fn settings_and_warnings_mark_what_they_touch() {
    let d = drain(OverlayState::Panel, true, false, &[OverlayCmd::SettingsChanged]);
    assert!(d.strip_dirty && d.panel_dirty && d.state.is_none());
    let d = drain(OverlayState::Panel, true, false, &[OverlayCmd::FullscreenWarning(false)]);
    assert!(!d.strip_dirty && d.panel_dirty);
}

#[test]
fn a_held_key_fires_once_and_its_release_is_swallowed() {
    let mut swallowed = KeySet::new();
    let first = on_key_down(Decision::ToggleOverlay, &mut swallowed, 0x48);
    assert_eq!(first, KeyDown { swallow: true, order: Some(Order::ToggleOverlay) });
    // Auto-repeat: swallowed, nothing sent again.
    let repeat = on_key_down(Decision::ToggleOverlay, &mut swallowed, 0x48);
    assert_eq!(repeat, KeyDown { swallow: true, order: None });
    assert!(on_key_up(&mut swallowed, 0x48));
    // A key that was never ours passes both ways.
    assert!(!on_key_up(&mut swallowed, 0x48));
    let pass = on_key_down(Decision::PassThrough, &mut swallowed, 0x57);
    assert_eq!(pass, KeyDown { swallow: false, order: None });
    assert!(!on_key_up(&mut swallowed, 0x57));
}
