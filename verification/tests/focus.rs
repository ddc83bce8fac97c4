use macro_hd2::focus::{classify, Context, Watcher, Window, APP_WINDOW_TITLE, OVERLAY_WINDOW_TITLE};
use macro_hd2::shared::OverlayState;

const HUD: Context = Context { enable_overlay: true, always_show_slots: true, overlay_visible: false };
const PLAIN: Context = Context { always_show_slots: false, ..HUD };

#[test]
fn titles_are_classified_like_the_v1_rules() {
    assert_eq!(classify("HELLDIVERS™ 2"), Window::Game);
    assert_eq!(classify(APP_WINDOW_TITLE), Window::App);
    assert_eq!(classify(OVERLAY_WINDOW_TITLE), Window::Overlay);
    assert_eq!(classify("Discord"), Window::Other);
    assert_eq!(classify(""), Window::Other);
}

#[test]
fn classification_ignores_case_and_surrounding_text() {
    assert_eq!(classify("helldivers 2"), Window::Game);
    assert_eq!(classify("hd2_overlay panel"), Window::Overlay);
    assert_eq!(classify("helldivers-notas.txt - Bloco de Notas"), Window::Game);
    assert_eq!(classify("MACRO HELLDIVERS 2"), Window::App);
}

#[test]
fn only_foreign_windows_disarm_the_macros() {
    assert!(Window::Game.arms_macros());
    assert!(Window::App.arms_macros());
    assert!(Window::Overlay.arms_macros());
    assert!(!Window::Other.arms_macros());
}

#[test]
fn gaining_focus_shows_the_persistent_hud_and_checks_the_video_mode() {
    let mut watcher = Watcher::new();
    let effects = watcher.observe(Window::Game, HUD);

    assert!(effects.focus_changed && effects.focused);
    assert_eq!(effects.overlay, Some(OverlayState::Minimal));
    assert!(effects.check_fullscreen);
    assert!(effects.reassert, "the strip that just appeared goes up too");
    assert!(!effects.check_updates);
    assert!(watcher.focused());
}

#[test]
fn gaining_focus_without_the_persistent_hud_leaves_the_overlay_alone() {
    let mut watcher = Watcher::new();
    let effects = watcher.observe(Window::Game, PLAIN);

    assert_eq!(effects.overlay, None);
    assert!(!effects.reassert, "nothing visible to reassert");
    assert!(effects.check_fullscreen);
}

#[test]
fn the_overlay_stays_untouched_when_the_feature_is_off() {
    let context = Context { enable_overlay: false, ..HUD };
    let mut watcher = Watcher::new();
    assert_eq!(watcher.observe(Window::Game, context).overlay, None);
    assert_eq!(watcher.observe(Window::Other, context).overlay, None);
}

#[test]
fn losing_focus_hides_the_overlay_and_releases_the_deferred_update_check() {
    let mut watcher = Watcher::new();
    watcher.observe(Window::Game, HUD);

    let effects = watcher.observe(Window::Other, HUD);
    assert!(effects.focus_changed && !effects.focused);
    assert_eq!(effects.overlay, Some(OverlayState::Hidden));
    assert!(effects.check_updates);
    assert!(!effects.reassert);

    watcher.observe(Window::Game, HUD);
    assert!(!watcher.observe(Window::Other, HUD).check_updates);
}

#[test]
fn an_already_checked_updater_never_asks_again() {
    let mut watcher = Watcher::new();
    watcher.mark_update_checked();
    watcher.observe(Window::Game, PLAIN);
    assert!(!watcher.observe(Window::Other, PLAIN).check_updates);
}

#[test]
fn moving_between_our_own_windows_is_not_a_transition() {
    let mut watcher = Watcher::new();
    watcher.observe(Window::Game, PLAIN);

    for window in [Window::App, Window::Overlay, Window::Game] {
        let effects = watcher.observe(window, PLAIN);
        assert!(!effects.focus_changed, "{window:?}");
        assert!(effects.focused);
        assert_eq!(effects.overlay, None);
    }
}

#[test]
fn the_periodic_tick_keeps_the_overlay_on_top_while_the_game_is_up() {
    let visible = Context { overlay_visible: true, ..PLAIN };
    let mut watcher = Watcher::new();
    watcher.observe(Window::Game, visible);

    let effects = watcher.observe(Window::Game, visible);
    assert!(!effects.focus_changed);
    assert!(effects.reassert);

    assert!(!watcher.observe(Window::Other, visible).reassert);
}
