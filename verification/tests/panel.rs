use macro_hd2::data::{Dir, GameData, Stratagem};
use macro_hd2::loadouts::{sanitize, Loadout};
use macro_hd2::panel::{Action, Ctx, Id, Panel};
use macro_hd2::settings::Settings;

fn strat(id: u32, nome: &str, tags: &[&str]) -> Stratagem {
    Stratagem {
        id,
        slug: String::new(),
        nome: nome.to_string(),
        imagem: String::new(),
        tag: tags.iter().map(|t| t.to_string()).collect(),
        codex: vec![Dir::Up, Dir::Right],
        kind_hint: None,
    }
}

fn data() -> GameData {
    GameData::from_list(vec![
        strat(0, "Orbital Precision Strike", &["Offensive"]),
        strat(1, "Eagle Airstrike", &["Offensive"]),
        strat(2, "Machine Gun", &["Supply"]),
    ])
}

fn with_loadouts(data: &GameData) -> Panel {
    let ids: Vec<u32> = data.all().iter().take(3).map(|strat| strat.id).collect();
    let mut panel = Panel::new();
    panel.reload_loadouts(vec![
        Loadout {
            id: "1".into(),
            name: "Bug Sweep".into(),
            slot_ids: vec![Some(ids[0]), Some(ids[1]), None, None],
            equip: Some(vec![]),
        },
        Loadout {
            id: "2".into(),
            name: "Bot Drop".into(),
            slot_ids: vec![Some(ids[2]), None, None, None],
            equip: None,
        },
    ]);
    panel
}

fn ctx<'a>(data: &'a GameData, settings: &'a Settings) -> Ctx<'a> {
    Ctx { data, settings, slots: [None, None, None, None] }
}

#[test]
fn a_saved_build_only_moves_the_macro_slots() {
    let data = data();
    let settings = Settings::default();
    let mut panel = with_loadouts(&data);
    let expected = sanitize(&panel.loadouts()[0].slot_ids, &data);

    assert_eq!(panel.on_click(Id::Chip(0), &ctx(&data, &settings)), Some(Action::SlotsChanged(expected)));
}

#[test]
fn the_close_button_asks_for_the_same_toggle_as_the_hotkey() {
    let data = data();
    let settings = Settings::default();
    let mut panel = Panel::new();
    assert_eq!(panel.on_click(Id::Close, &ctx(&data, &settings)), Some(Action::Close));
}

#[test]
fn an_unknown_click_is_not_ours() {
    let data = data();
    let settings = Settings::default();
    let mut panel = Panel::new();
    assert_eq!(panel.on_click(Id::Other(42), &ctx(&data, &settings)), None);
    assert_eq!(panel.on_click(Id::Chip(0), &ctx(&data, &settings)), None);
}

#[test]
fn the_chip_of_the_slots_in_use_lights_up() {
    let data = data();
    let settings = Settings::default();
    let panel = with_loadouts(&data);
    let in_use = Ctx { data: &data, settings: &settings, slots: [Some(2), None, None, None] };
    assert_eq!(panel.active_chip(&in_use), Some(1));
    assert_eq!(panel.active_chip(&ctx(&data, &settings)), None);
}

#[test]
fn the_warning_flag_is_kept_apart_from_the_builds() {
    let data = data();
    let mut panel = with_loadouts(&data);
    panel.set_warning(true);
    assert_eq!(panel.loadouts().len(), 2);
    panel.reload_loadouts(Vec::new());
    assert!(panel.loadouts().is_empty());
}
