use macro_hd2::builds::{
    active_loadout, apply, custom_assign, custom_disabled, custom_list, default_name, save, Build,
};
use macro_hd2::data::{
    self, Armor, Cosmetic, Described, Dir, EquipSlot, Equipment, GameData, Stratagem, Weapon,
};
use macro_hd2::loadouts::Loadout;
use macro_hd2::data::Dir::{Down, Left, Right, Up};

fn strat(id: u32, nome: &str, tags: &[&str], codex: Vec<Dir>) -> Stratagem {
    Stratagem {
        id,
        slug: String::new(),
        nome: nome.to_string(),
        imagem: String::new(),
        tag: tags.iter().map(|t| t.to_string()).collect(),
        codex,
        kind_hint: None,
    }
}

fn data() -> GameData {
    GameData::from_list(vec![
        strat(0, "Orbital Precision Strike", &["Offensive"], vec![Right, Right, Up]),
        strat(1, "Orbital Gatling Barrage", &["Offensive"], vec![Right, Down, Left, Up, Up]),
        strat(2, "Eagle Airstrike", &["Offensive"], vec![Up, Right, Down, Right]),
        strat(3, "Machine Gun", &["Supply"], vec![Down, Left, Down, Up, Right]),
        strat(4, "Anti-Materiel Rifle", &["Supply"], vec![Down, Left, Right, Up, Down]),
        strat(5, "Stalwart", &["Supply"], vec![Down, Left, Down, Up, Up, Left]),
        strat(6, "Patriot Exosuit", &["Supply", "Mecha"], vec![Left, Down, Right, Up, Left, Down, Down]),
        strat(7, "Emancipator Exosuit", &["Supply", "Mecha"], vec![Left, Down, Right, Up, Left, Down, Up]),
        strat(8, "Órbita de Gás", &["Offensive"], vec![Right, Right, Down, Right]),
        strat(9, "Tesla Tower", &["Defensive"], vec![Down, Up, Right, Up, Left, Right]),
        strat(10, "Shield Generator Relay", &["Defensive"], vec![Down, Down, Left, Right, Left, Right]),
    ])
}

fn equipment() -> Equipment {
    let weapon = |id: &str, nome: &str| Weapon {
        nome: nome.into(),
        tipo: "Assault Rifle".into(),
        dano: "45".into(),
        capacidade: None,
        cadencia: None,
        id: id.into(),
        imagem: String::new(),
    };
    Equipment {
        primary: vec![weapon("primary-ar-2-coyote", "AR-2 Coyote"), weapon("primary-ar-23-liberator", "AR-23 Liberator")],
        secondary: vec![weapon("secondary-p-2-peacemaker", "P-2 Peacemaker")],
        grenade: vec![weapon("grenade-g-6-frag", "G-6 Frag")],
        armor: vec![Armor {
            nome: "A-35 Recon".into(),
            peso: "Light".into(),
            armor: 50,
            speed: 550,
            stamina: 125,
            passive: "Scout".into(),
            warbond: "Helldivers Mobilize".into(),
            id: "armor-a-35-recon".into(),
            imagem: String::new(),
        }],
        helmet: vec![Cosmetic {
            nome: "A-35 Recon".into(),
            warbond: "Helldivers Mobilize".into(),
            id: "helmet-a-35-recon".into(),
            imagem: String::new(),
        }],
        cape: vec![],
        booster: vec![],
        passives: vec![Described {
            nome: "Scout".into(),
            descricao: "Markers".into(),
            id: "passives-scout".into(),
            imagem: String::new(),
        }],
        warbond: vec![],
        stratagem_info: vec![],
    }
}

fn nth(data: &GameData, index: usize) -> &Stratagem {
    &data.all()[index]
}

#[test]
fn the_custom_grid_equips_removes_and_refuses_duplicates() {
    let data = data();
    let mut build = Build::new();
    let first = nth(&data, 0);

    assert!(custom_assign(&mut build, 0, first, &data));
    assert_eq!(build.stratagems[0], Some(first.id));

    assert!(custom_assign(&mut build, 0, first, &data));
    assert_eq!(build.stratagems[0], None);

    custom_assign(&mut build, 0, first, &data);
    assert!(!custom_assign(&mut build, 2, first, &data));
    assert!(custom_disabled(&build, 2, first, &data));
    assert!(!custom_disabled(&build, 0, first, &data), "in its own slot it stays clickable, to remove it");
}

#[test]
fn the_custom_grid_respects_exclusive_tags() {
    let data = data();
    let mechas: Vec<&Stratagem> = data.all().iter().filter(|strat| strat.has_tag("Mecha")).collect();
    let mut build = Build::new();
    custom_assign(&mut build, 0, mechas[0], &data);

    assert!(!custom_assign(&mut build, 1, mechas[1], &data));
    assert!(custom_disabled(&build, 1, mechas[1], &data));
    assert!(custom_assign(&mut build, 0, mechas[1], &data));
    assert_eq!(build.stratagems[0], Some(mechas[1].id));
}

#[test]
fn the_custom_list_is_ordered_by_category_and_filtered_by_the_search() {
    let data = data();
    let all = custom_list(&data, "");
    assert_eq!(all.len(), data.all().len());

    let tag_of = |id: u32| data.by_id(id).and_then(|strat| strat.primary_tag()).unwrap_or_default().to_string();
    let tags: Vec<String> = all.iter().map(|id| tag_of(*id)).collect();
    let first_supply = tags.iter().position(|tag| tag == "Supply").unwrap();
    let last_offensive = tags.iter().rposition(|tag| tag == "Offensive").unwrap();
    assert!(last_offensive < first_supply, "offensive ones come first");

    let filtered = custom_list(&data, "  ORBITAL ");
    assert!(!filtered.is_empty() && filtered.len() < all.len());
    assert!(filtered
        .iter()
        .all(|id| data::normalize_text(&data.by_id(*id).unwrap().nome).contains("orbital")));
    assert!(custom_list(&data, "zzzz").is_empty());
}

#[test]
fn the_custom_list_sorts_by_name_inside_a_section_and_ignores_accents() {
    let data = data();
    assert_eq!(custom_list(&data, "orbita"), vec![1, 0, 8]);
    assert_eq!(custom_list(&data, "exosuit"), vec![7, 6]);
    assert_eq!(custom_list(&data, "TESLA"), vec![9]);
}

fn saved_build(data: &GameData) -> Build {
    let mut build = Build::new();
    build.stratagems = [Some(nth(data, 0).id), None, Some(nth(data, 3).id), None];
    build.set_equip(EquipSlot::Primary, Some("primary-ar-2-coyote".into()));
    build
}

fn gear_of<'a>(loadout: &'a Loadout, key: &str) -> Option<&'a String> {
    loadout.equip.as_ref()?.iter().find(|(k, _)| k == key).map(|(_, v)| v)
}

#[test]
fn saving_names_overwrites_by_name_and_ignores_an_empty_build() {
    let data = data();
    let mut loadouts = Vec::new();
    let build = saved_build(&data);

    assert!(!save(&mut loadouts, "", &Build::new()), "empty build");
    assert!(loadouts.is_empty());

    assert!(save(&mut loadouts, "  ", &build));
    assert_eq!(loadouts[0].name, "Build 1");
    assert_eq!(loadouts[0].slot_ids, build.stratagems.to_vec());
    assert_eq!(gear_of(&loadouts[0], "primary"), Some(&"primary-ar-2-coyote".to_string()));

    let mut other = build.copy();
    other.stratagems[1] = Some(nth(&data, 5).id);
    save(&mut loadouts, "BUILD 1", &other);
    assert_eq!(loadouts.len(), 1);
    assert_eq!(loadouts[0].slot_ids, other.stratagems.to_vec());
    assert_eq!(loadouts[0].name, "Build 1", "the original name stays");

    save(&mut loadouts, "Bug Sweep", &build);
    assert_eq!(loadouts.len(), 2);
    assert_ne!(loadouts[0].id, loadouts[1].id);
}

#[test]
fn a_build_without_gear_still_saves_the_equip_field() {
    let data = data();
    let mut loadouts = Vec::new();
    let mut build = Build::new();
    build.stratagems[0] = Some(nth(&data, 0).id);

    save(&mut loadouts, "Só estratagemas", &build);
    assert_eq!(loadouts[0].equip.as_ref().map(Vec::len), Some(0));
}

#[test]
fn applying_a_saved_build_fills_the_slots_and_the_screen() {
    let data = data();
    let equipment = equipment();
    let mut loadouts = Vec::new();
    let build = saved_build(&data);
    save(&mut loadouts, "Bug Sweep", &build);

    let applied = apply(&loadouts[0], None, &data, Some(&equipment));
    assert_eq!(applied.slots, build.stratagems);
    assert_eq!(applied.build, build);
}

#[test]
fn an_old_build_without_gear_keeps_what_is_on_screen() {
    let data = data();
    let equipment = equipment();
    let current = saved_build(&data);
    let old = Loadout {
        id: "1".into(),
        name: "Antiga".into(),
        slot_ids: vec![Some(nth(&data, 7).id), None, None, None],
        equip: None,
    };

    let applied = apply(&old, Some(&current), &data, Some(&equipment));
    assert_eq!(applied.build.stratagems[0], Some(nth(&data, 7).id));
    assert_eq!(applied.build.equip(EquipSlot::Primary), current.equip(EquipSlot::Primary));

    let applied = apply(&old, None, &data, Some(&equipment));
    assert_eq!(applied.build.equip(EquipSlot::Primary), None);
    assert_eq!(applied.build.stratagems[0], Some(nth(&data, 7).id));
}

#[test]
fn applying_cleans_conflicts_and_drops_gear_that_left_the_game() {
    let data = data();
    let equipment = equipment();
    let mechas: Vec<u32> = data.all().iter().filter(|strat| strat.has_tag("Mecha")).map(|strat| strat.id).collect();
    let loadout = Loadout {
        id: "1".into(),
        name: "Exos".into(),
        slot_ids: vec![Some(mechas[0]), Some(mechas[1]), Some(9_999), None],
        equip: Some(vec![
            ("primary".to_string(), "primary-nao-existe".to_string()),
            ("armor".to_string(), "armor-a-35-recon".to_string()),
        ]),
    };

    let applied = apply(&loadout, None, &data, Some(&equipment));
    assert_eq!(applied.slots[0], Some(mechas[0]));
    assert_eq!(applied.slots[1], None, "the second exosuit drops");
    assert_eq!(applied.slots[2], None, "an id that left the game drops");
    assert_eq!(applied.build.equip(EquipSlot::Primary), None);
    assert_eq!(applied.build.equip(EquipSlot::Armor), Some("armor-a-35-recon"));
}

#[test]
fn the_chip_of_the_current_slots_is_the_active_one() {
    let data = data();
    let mut loadouts = Vec::new();
    let build = saved_build(&data);
    save(&mut loadouts, "Bug Sweep", &build);
    let mut other = build.copy();
    other.stratagems[1] = Some(nth(&data, 9).id);
    save(&mut loadouts, "Outra", &other);

    assert_eq!(active_loadout(&loadouts, build.stratagems, &data), Some(0));
    assert_eq!(active_loadout(&loadouts, [None, None, None, None], &data), None);
    assert_eq!(active_loadout(&[], build.stratagems, &data), None);
}

#[test]
fn a_loadout_that_needed_sanitizing_still_lights_up_after_apply() {
    let data = data();
    let loadout = Loadout {
        id: "1".into(),
        name: "Velha".into(),
        slot_ids: vec![Some(data.all()[0].id), Some(9_999), None, None],
        equip: None,
    };
    let applied = apply(&loadout, None, &data, None);
    assert_eq!(active_loadout(std::slice::from_ref(&loadout), applied.slots, &data), Some(0));
}

#[test]
fn a_blank_name_never_overwrites_a_surviving_build() {
    let data = data();
    let build = saved_build(&data);
    let mut loadouts = Vec::new();
    save(&mut loadouts, "Build 1", &build);
    save(&mut loadouts, "Build 2", &build);
    loadouts.remove(0);

    assert_eq!(default_name(&loadouts), "Build 1");
    save(&mut loadouts, "", &build);
    assert_eq!(loadouts.len(), 2, "the new build does not swallow the existing one");
}

#[test]
fn assigning_to_an_out_of_range_slot_is_refused_not_a_panic() {
    let data = data();
    let mut build = Build::new();
    let strat = &data.all()[0];
    assert!(!custom_assign(&mut build, 4, strat, &data));
    assert_eq!(build.stratagems, [None, None, None, None]);
}

#[test]
fn default_names_skip_every_taken_number_ignoring_case() {
    let loadout = |name: &str| Loadout { id: name.into(), name: name.into(), slot_ids: vec![], equip: None };
    assert_eq!(default_name(&[]), "Build 1");
    assert_eq!(default_name(&[loadout("build 1"), loadout("BUILD 2")]), "Build 3");
    assert_eq!(default_name(&[loadout("Build 2")]), "Build 1");
}

#[test]
fn the_build_rules_come_from_the_settings() {
    let settings = macro_hd2::settings::Settings {
        build_match_set: false,
        build_balanced: true,
        build_max_one_sentry: true,
        ..macro_hd2::settings::Settings::default()
    };
    let rules = macro_hd2::builds::Rules::from_settings(&settings);
    assert!(!rules.match_set);
    assert!(rules.balanced);
    assert!(rules.max_one_sentry);
}
