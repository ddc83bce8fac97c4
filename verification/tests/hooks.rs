use macro_hd2::data::{support_strats, Dir, GameData, Stratagem};
use macro_hd2::hooks::{decide, Bindings, Decision, KeySet, OVERLAY_HOTKEY_VK};
use macro_hd2::keys;
use macro_hd2::settings::{Language, Settings, Speed, SLOT_COUNT};
use macro_hd2::shared::{EngineCmd, Slots};

fn strat(id: u32, nome: &str, tag: &str, codex: Vec<Dir>) -> Stratagem {
    Stratagem {
        id,
        slug: String::new(),
        nome: nome.to_string(),
        imagem: String::new(),
        tag: vec![tag.to_string()],
        codex,
        kind_hint: None,
    }
}

fn data() -> GameData {
    GameData::from_list(vec![
        strat(0, "Orbital Precision Strike", "Offensive", vec![Dir::Right, Dir::Right, Dir::Up]),
        strat(1, "Orbital Gatling Barrage", "Offensive", vec![Dir::Right, Dir::Down, Dir::Left, Dir::Up, Dir::Up]),
        strat(2, "Eagle Airstrike", "Offensive", vec![Dir::Up, Dir::Right, Dir::Down, Dir::Right]),
    ])
}

fn first_ids(data: &GameData, n: usize) -> Vec<u32> {
    data.all().iter().take(n).map(|strat| strat.id).collect()
}

fn settings_with(shortcuts: [Option<&str>; SLOT_COUNT]) -> Settings {
    Settings {
        shortcuts: shortcuts.map(|name| name.map(str::to_string)),
        ..Settings::default()
    }
}

#[test]
fn slots_become_bindings_with_everything_resolved() {
    let data = data();
    let ids = first_ids(&data, 2);
    let settings = Settings {
        macro_speed: Speed::Turbo,
        use_arrows: true,
        modifier_key: "LeftAlt".to_string(),
        ..Settings::default()
    };
    let slots: Slots = [Some(ids[0]), None, Some(ids[1]), None];

    let bindings = Bindings::build(&settings, &slots, &data);

    assert_eq!(bindings.len(), 2);
    let first = bindings.find(keys::vk_from_name("F1").unwrap()).unwrap();
    assert_eq!(first.slot, 0);
    assert!(!first.support);
    assert_eq!(first.codex.as_slice(), data.by_id(ids[0]).unwrap().codex.as_slice());
    assert_eq!(first.modifier, keys::modifier_scan("LeftAlt"));
    assert_eq!(first.speed, Speed::Turbo);
    assert!(first.use_arrows);

    assert_eq!(
        bindings.find(keys::vk_from_name("F3").unwrap()).map(|binding| binding.slot),
        Some(2)
    );
    assert!(bindings.find(keys::vk_from_name("F2").unwrap()).is_none());
}

#[test]
fn support_shortcuts_carry_the_fixed_codexes() {
    let data = data();
    let settings = Settings {
        support_shortcuts: [Some("F5".into()), None, Some("F7".into())],
        ..settings_with([None, None, None, None])
    };
    let supports = support_strats();

    let bindings = Bindings::build(&settings, &[None, None, None, None], &data);

    let reinforce = bindings.find(keys::vk_from_name("F5").unwrap()).unwrap();
    assert!(reinforce.support);
    assert_eq!(reinforce.slot, 0);
    assert_eq!(reinforce.codex, supports[0].codex);

    let rearm = bindings.find(keys::vk_from_name("F7").unwrap()).unwrap();
    assert_eq!(rearm.slot, 2);
    assert_eq!(rearm.codex, supports[2].codex);
    assert_eq!(bindings.len(), 2);
}

#[test]
fn unknown_names_and_missing_stratagems_are_skipped() {
    let data = data();
    let settings = settings_with([Some("Ctrl+Shift+Q"), Some("F2"), None, Some("F4")]);
    let slots: Slots = [Some(0), Some(9_999), Some(0), None];

    let bindings = Bindings::build(&settings, &slots, &data);

    assert_eq!(bindings.len(), 0);
    assert!(bindings.is_empty());
}

#[test]
fn the_first_shortcut_wins_when_two_share_a_key() {
    let data = data();
    let id = first_ids(&data, 1)[0];
    let settings = Settings {
        support_shortcuts: [Some("F1".into()), None, None],
        ..settings_with([Some("F1"), None, None, None])
    };

    let bindings = Bindings::build(&settings, &[Some(id), None, None, None], &data);

    assert_eq!(bindings.len(), 1);
    assert!(!bindings.find(keys::vk_from_name("F1").unwrap()).unwrap().support);
}

fn armed_bindings() -> (GameData, Bindings) {
    let data = data();
    let id = data.all()[0].id;
    let bindings = Bindings::build(&Settings::default(), &[Some(id), None, None, None], &data);
    (data, bindings)
}

#[test]
fn a_bound_key_becomes_a_ready_engine_command() {
    let (data, bindings) = armed_bindings();
    let f1 = keys::vk_from_name("F1").unwrap();

    let Decision::Run(EngineCmd::Run { codex, slot, support, .. }) = decide(&bindings, f1, false, true) else {
        panic!("F1 should fire slot 0");
    };
    assert_eq!(slot, 0);
    assert!(!support);
    assert_eq!(codex.as_slice(), data.all()[0].codex.as_slice());
}

#[test]
fn nothing_is_swallowed_while_disarmed() {
    let (_data, bindings) = armed_bindings();
    let f1 = keys::vk_from_name("F1").unwrap();

    assert_eq!(decide(&bindings, f1, false, false), Decision::PassThrough);
    assert_eq!(decide(&bindings, OVERLAY_HOTKEY_VK, true, false), Decision::PassThrough);
}

#[test]
fn ctrl_h_toggles_the_overlay_only_when_it_is_enabled() {
    let data = data();
    let enabled = Bindings::build(&Settings::default(), &[None, None, None, None], &data);
    assert_eq!(decide(&enabled, OVERLAY_HOTKEY_VK, true, true), Decision::ToggleOverlay);
    assert_eq!(decide(&enabled, OVERLAY_HOTKEY_VK, false, true), Decision::PassThrough);

    let off = Bindings::build(
        &Settings { enable_overlay: false, ..Settings::default() },
        &[None, None, None, None],
        &data,
    );
    assert_eq!(decide(&off, OVERLAY_HOTKEY_VK, true, true), Decision::PassThrough);
}

#[test]
fn the_overlay_hotkey_is_the_h_key() {
    assert_eq!(keys::vk_from_name("H"), Some(OVERLAY_HOTKEY_VK));
}

#[test]
fn unrelated_keys_pass_through() {
    let (_data, bindings) = armed_bindings();
    let f9 = keys::vk_from_name("F9").unwrap();
    assert_eq!(decide(&bindings, f9, false, true), Decision::PassThrough);
    assert_eq!(decide(&bindings, f9, true, true), Decision::PassThrough);
}

#[test]
fn a_language_change_keeps_the_bindings_intact() {
    let data = data();
    let id = data.all()[0].id;
    let slots: Slots = [Some(id), None, None, None];
    let pt = Bindings::build(&Settings::default(), &slots, &data);
    let en = Bindings::build(&Settings { language: Language::En, ..Settings::default() }, &slots, &data);
    assert_eq!(pt, en);
}

#[test]
fn the_key_set_tracks_repeats_and_releases() {
    let mut set = KeySet::new();
    let f1 = keys::vk_from_name("F1").unwrap();

    assert!(!set.insert(f1), "first press");
    assert!(set.insert(f1), "auto-repeat");
    assert!(set.remove(f1), "the release closes the pair");
    assert!(!set.remove(f1), "and does not swallow the next one");

    let numpad0 = keys::vk_from_name("Numpad0").unwrap();
    assert!(!set.insert(numpad0));
    assert!(!set.insert(f1));
    assert!(set.remove(numpad0));
    assert!(set.insert(f1));

    assert!(!set.insert(300));
    assert!(!set.remove(300));
}
