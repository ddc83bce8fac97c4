use macro_hd2::data::{
    classify, has_exclusive_conflict, match_key, normalize_text, support_strats, Armor, Cosmetic,
    Described, Dir, EquipSlot, Equipment, GameData, StratKind, StratMeta, Stratagem, StratagemInfo,
    Weapon,
};
use macro_hd2::data::Dir::{Down, Left, Right, Up};

fn strat(id: u32, nome: &str, tags: &[&str], codex: Vec<Dir>) -> Stratagem {
    Stratagem {
        id,
        slug: String::new(),
        nome: nome.to_string(),
        imagem: format!("stratagems/{id}.webp"),
        tag: tags.iter().map(|t| t.to_string()).collect(),
        codex,
        kind_hint: None,
    }
}

fn data() -> GameData {
    GameData::from_list(vec![
        strat(0, "Orbital Precision Strike", &["Offensive"], vec![Right, Right, Up]),
        strat(1, "MG-43 Machine Gun", &["Supply"], vec![Down, Left, Down, Up, Right]),
        strat(2, "GR-8 Recoilless Rifle", &["Supply"], vec![Down, Left, Right, Right, Left]),
        strat(3, "A/MG-43 Machine Gun Sentry", &["Defensive"], vec![Down, Up, Right, Right, Up]),
        strat(4, "EXO-45 Patriot Exosuit", &["Supply", "Mecha"], vec![Left, Down, Right, Up, Left, Down, Down]),
        strat(5, "EXO-49 Emancipator Exosuit", &["Supply", "Mecha"], vec![Left, Down, Right, Up, Left, Down, Up]),
        strat(6, "M-102 Fast Recon Vehicle", &["Supply", "Vehicle"], vec![Left, Down, Right, Down, Right, Down, Up]),
    ])
}

fn info(nome: &str, tipo: Option<&str>, backpack: bool) -> StratagemInfo {
    StratagemInfo { nome: nome.into(), tipo: tipo.map(str::to_string), backpack }
}

fn equipment() -> Equipment {
    let weapon = |id: &str, nome: &str| Weapon {
        nome: nome.into(),
        tipo: "Assault Rifle".into(),
        dano: "45".into(),
        capacidade: None,
        cadencia: None,
        id: id.into(),
        imagem: format!("equipment/{id}.webp"),
    };
    let cosmetic = |id: &str, nome: &str| Cosmetic {
        nome: nome.into(),
        warbond: "Helldivers Mobilize".into(),
        id: id.into(),
        imagem: format!("equipment/{id}.webp"),
    };
    let described = |id: &str, nome: &str| Described {
        nome: nome.into(),
        descricao: "...".into(),
        id: id.into(),
        imagem: format!("equipment/{id}.webp"),
    };
    Equipment {
        primary: vec![weapon("primary-ar-23-liberator", "AR-23 Liberator")],
        secondary: vec![weapon("secondary-p-2-peacemaker", "P-2 Peacemaker")],
        grenade: vec![weapon("grenade-g-6-frag", "G-6 Frag")],
        armor: vec![Armor {
            nome: "B-01 Tactical".into(),
            peso: "Medium".into(),
            armor: 100,
            speed: 500,
            stamina: 100,
            passive: "Extra Padding".into(),
            warbond: "Helldivers Mobilize".into(),
            id: "armor-b-01-tactical".into(),
            imagem: "equipment/armor-b-01-tactical.webp".into(),
        }],
        helmet: vec![cosmetic("helmet-b-01-tactical", "B-01 Tactical")],
        cape: vec![cosmetic("cape-eagle-of-liberty", "Eagle of Liberty")],
        booster: vec![described("booster-hellpod-space-optimization", "Hellpod Space Optimization")],
        passives: vec![described("passives-extra-padding", "Extra Padding")],
        warbond: vec![],
        stratagem_info: vec![
            info("Recoilless Rifle", Some("Support Weapon"), true),
            info("Machine Gun", Some("Support Weapon"), false),
            info("Machine Gun Sentry", Some("Sentry"), false),
        ],
    }
}

#[test]
fn exclusive_tags_conflict_across_slots() {
    let data = data();
    let mechas: Vec<&Stratagem> = data.all().iter().filter(|s| s.has_tag("Mecha")).collect();
    assert!(mechas.len() >= 2);

    let slots = [Some(mechas[0]), None, None, None];
    assert!(has_exclusive_conflict(mechas[1], &slots, 1));
    assert!(!has_exclusive_conflict(mechas[1], &slots, 0));
    let vehicle = data.all().iter().find(|s| s.has_tag("Vehicle")).unwrap();
    assert!(!has_exclusive_conflict(vehicle, &slots, 1));
}

#[test]
fn normalize_strips_case_and_accents() {
    assert_eq!(normalize_text("Águia Metralhadora"), "aguia metralhadora");
    assert_eq!(normalize_text("A/G-16 Gatling"), "a/g-16 gatling");
    assert_eq!(normalize_text("Coração Órfão"), "coracao orfao");
    assert!(normalize_text("Orbital Precision Strike").contains("orbital"));
}

#[test]
fn support_codexes_match_the_game() {
    let supports = support_strats();
    assert_eq!(supports[0].codex, [Dir::Up, Dir::Down, Dir::Right, Dir::Left, Dir::Up]);
    assert_eq!(supports[1].codex, [Dir::Down, Dir::Down, Dir::Up, Dir::Right]);
    assert_eq!(supports[2].codex, [Dir::Up, Dir::Up, Dir::Left, Dir::Up, Dir::Right]);
}

#[test]
fn equipment_slots_expose_every_category_by_key_and_index() {
    let equipment = equipment();
    for (index, slot) in EquipSlot::all().iter().enumerate() {
        assert_eq!(slot.index(), index);
        assert_eq!(EquipSlot::from_key(slot.key()), Some(*slot));
        assert!(equipment.count(*slot) > 0, "{} empty", slot.key());

        let first = equipment.at(*slot, 0).expect("first item");
        assert!(!first.nome().is_empty());
        assert!(first.imagem().starts_with("equipment/"));
        assert_eq!(equipment.find(*slot, first.id()), Some(first));
    }
    assert_eq!(EquipSlot::from_key("sprintModifier"), None);
    assert_eq!(equipment.find(EquipSlot::Armor, "nao-existe"), None);
}

#[test]
fn only_armor_and_cosmetics_carry_a_warbond() {
    let equipment = equipment();
    assert!(equipment.at(EquipSlot::Armor, 0).unwrap().warbond().is_some());
    assert!(equipment.at(EquipSlot::Cape, 0).unwrap().warbond().is_some());
    assert_eq!(equipment.at(EquipSlot::Primary, 0).unwrap().warbond(), None);
    assert_eq!(equipment.at(EquipSlot::Booster, 0).unwrap().warbond(), None);
}

#[test]
fn armor_passives_all_resolve_to_a_description() {
    let equipment = equipment();
    for armor in &equipment.armor {
        assert!(equipment.passive(&armor.passive).is_some(), "{} uses the unknown passive {}", armor.nome, armor.passive);
    }
}

#[test]
fn stratagem_metadata_matches_the_wiki_classification() {
    let data = data();
    let equipment = equipment();
    let meta = StratMeta::build(&data, &equipment);

    let by_name = |name: &str| data.all().iter().find(|strat| strat.nome.contains(name)).unwrap().id;

    let recoilless = by_name("Recoilless Rifle");
    assert!(meta.is_support(recoilless));
    assert!(meta.is_backpack(recoilless));
    assert!(!meta.is_sentry(recoilless));

    let machine_gun = by_name("MG-43");
    assert!(meta.is_support(machine_gun));
    assert!(!meta.is_backpack(machine_gun));

    let sentry = by_name("Machine Gun Sentry");
    assert!(meta.is_sentry(sentry));
    assert!(!meta.is_support(sentry));

    let orbital = by_name("Orbital Precision Strike");
    assert_eq!(meta.kind(orbital), StratKind::none());
    assert_eq!(meta.kind(9_999), StratKind::none());
}

#[test]
fn the_match_key_strips_everything_but_letters_and_digits() {
    assert_eq!(match_key("A/G-16 Gatling"), "ag16gatling");
    assert_eq!(match_key("Águia Metralhadora"), "aguiametralhadora");
    assert_eq!(match_key("EAT-17"), "eat17");
}

#[test]
fn a_short_name_never_matches_by_substring() {
    let info = info("Heat Sink", Some("Support Weapon"), false);
    let infos = vec![(match_key(&info.nome), &info)];
    assert_eq!(classify("EAT-17", &infos), StratKind::none());
}

#[test]
fn resolve_drops_ids_that_no_longer_exist() {
    let data = data();
    let resolved = data.resolve(&[Some(0), Some(9_999), None]);
    assert_eq!(resolved[0].map(|s| s.id), Some(0));
    assert!(resolved[1].is_none());
    assert!(resolved[2].is_none());
}

#[test]
fn a_repeated_id_resolves_to_its_last_entry() {
    let data = GameData::from_list(vec![
        strat(7, "First", &["Offensive"], vec![Dir::Up]),
        strat(7, "Second", &["Offensive"], vec![Dir::Down]),
    ]);
    assert_eq!(data.by_id(7).map(|s| s.nome.as_str()), Some("Second"));
}
