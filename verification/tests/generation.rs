use macro_hd2::builds::{
    generate, generate_meta, meta_lists, weighted, Build, Locks, MetaLists, Pick, Rules,
    META_TOP_PASSIVES, META_TOP_STRATS, META_TOP_WEAPONS,
};
use macro_hd2::data::Dir::{Down, Left, Right, Up};
use macro_hd2::data::{
    Armor, Cosmetic, Described, Dir, EquipSlot, Equipment, GameData, StatsMap, StratKind, StratMeta,
    Stratagem, StratagemInfo, WeaponRef, Weapon,
};
use macro_hd2::meta_stats::{ItemStat, Section, Stats, Total};
use macro_hd2::settings::SLOT_COUNT;

/// How many builds each statistical test rolls.
const ROLLS: usize = 200;

const EXCLUSIVE_TAGS: [&str; 2] = ["Mecha", "Vehicle"];

fn strat(id: u32, nome: &str, tags: &[&str], codex: Vec<Dir>) -> Stratagem {
    Stratagem {
        id,
        slug: String::new(),
        nome: nome.to_string(),
        imagem: String::new(),
        tag: tags.iter().map(|t| t.to_string()).collect(),
        codex,
        kind_hint: None,
    }
}

fn data() -> GameData {
    GameData::from_list(vec![
        strat(0, "Orbital Precision Strike", &["Offensive"], vec![Right, Right, Up]),
        strat(1, "Orbital Gatling Barrage", &["Offensive"], vec![Right, Down, Left, Up, Up]),
        strat(2, "Eagle Airstrike", &["Offensive"], vec![Up, Right, Down, Right]),
        strat(3, "Eagle Cluster Bomb", &["Offensive"], vec![Up, Right, Down, Down, Right]),
        strat(4, "Machine Gun", &["Supply"], vec![Down, Left, Down, Up, Right]),
        strat(5, "Stalwart", &["Supply"], vec![Down, Left, Down, Up, Up, Left]),
        strat(6, "Railgun", &["Supply"], vec![Down, Right, Down, Up, Left, Right]),
        strat(7, "Recoilless Rifle", &["Supply"], vec![Down, Left, Right, Right, Left]),
        strat(8, "Jump Pack", &["Supply"], vec![Down, Up, Up, Down, Up]),
        strat(9, "Supply Pack", &["Supply"], vec![Down, Left, Down, Up, Up, Down]),
        strat(10, "Shield Generator Pack", &["Supply"], vec![Down, Up, Left, Right, Left, Right]),
        strat(11, "Gatling Sentry", &["Defensive"], vec![Down, Up, Right, Left]),
        strat(12, "Autocannon Sentry", &["Defensive"], vec![Down, Up, Right, Up, Left, Up]),
        strat(13, "Rocket Sentry", &["Defensive"], vec![Down, Up, Right, Right, Left]),
        strat(14, "Tesla Tower", &["Defensive"], vec![Down, Up, Right, Up, Left, Right]),
        strat(15, "Patriot Exosuit", &["Supply", "Mecha"], vec![Left, Down, Right, Up, Left, Down, Down]),
        strat(16, "Emancipator Exosuit", &["Supply", "Mecha"], vec![Left, Down, Right, Up, Left, Down, Up]),
        strat(17, "Fast Recon Vehicle", &["Supply", "Vehicle"], vec![Left, Down, Right, Down, Right, Down, Up]),
        strat(18, "Bastion Tank", &["Supply", "Vehicle"], vec![Left, Down, Right, Down, Left, Down, Up]),
        strat(19, "Orbital Laser", &["Offensive"], vec![Right, Down, Up, Right, Down]),
    ])
}

fn info(nome: &str, tipo: &str, backpack: bool) -> StratagemInfo {
    StratagemInfo { nome: nome.into(), tipo: Some(tipo.into()), backpack }
}

fn weapon(id: &str) -> Weapon {
    Weapon {
        nome: id.to_uppercase(),
        tipo: "Assault Rifle".into(),
        dano: "45".into(),
        capacidade: None,
        cadencia: None,
        id: id.into(),
        imagem: String::new(),
    }
}

fn armor(n: usize, passive: &str, warbond: &str) -> Armor {
    Armor {
        nome: format!("Armor {n}"),
        peso: "Medium".into(),
        armor: 100,
        speed: 500,
        stamina: 100,
        passive: passive.into(),
        warbond: warbond.into(),
        id: format!("armor-{n}"),
        imagem: String::new(),
    }
}

fn cosmetic(kind: &str, nome: &str, warbond: &str, n: usize) -> Cosmetic {
    Cosmetic { nome: nome.into(), warbond: warbond.into(), id: format!("{kind}-{n}"), imagem: String::new() }
}

fn described(kind: &str, nome: &str) -> Described {
    Described { nome: nome.into(), descricao: String::new(), id: format!("{kind}-{nome}"), imagem: String::new() }
}

const PASSIVES: [&str; 7] = ["Scout", "Engineering Kit", "Med-Kit", "Fortified", "Servo-Assisted", "Democracy Protects", "Peak Physique"];
const WARBONDS: [&str; 3] = ["Helldivers Mobilize", "Cutting Edge", "Steeled Veterans"];

fn equipment() -> Equipment {
    let mut armors = Vec::new();
    let mut helmets = Vec::new();
    for n in 0..10 {
        let warbond = WARBONDS[n % 3];
        armors.push(armor(n, PASSIVES[n % PASSIVES.len()], warbond));
        helmets.push(cosmetic("helmet", &format!("Armor {n}"), warbond, n));
    }
    // Capes only for two of the warbonds: the third keeps the drawn cape.
    let capes = vec![
        cosmetic("cape", "Cape A", WARBONDS[0], 0),
        cosmetic("cape", "Cape B", WARBONDS[0], 1),
        cosmetic("cape", "Cape C", WARBONDS[1], 2),
        cosmetic("cape", "Cape D", "", 3),
        cosmetic("cape", "Cape E", "Other", 4),
    ];
    Equipment {
        primary: (0..5).map(|n| weapon(&format!("primary-{n}"))).collect(),
        secondary: (0..5).map(|n| weapon(&format!("secondary-{n}"))).collect(),
        grenade: (0..5).map(|n| weapon(&format!("grenade-{n}"))).collect(),
        armor: armors,
        helmet: helmets,
        cape: capes,
        booster: vec![described("booster", "Vitality"), described("booster", "Stamina")],
        passives: PASSIVES.iter().map(|p| described("passive", p)).collect(),
        warbond: vec![],
        stratagem_info: vec![
            info("Machine Gun", "Support Weapon", false),
            info("Stalwart", "Support Weapon", false),
            info("Railgun", "Support Weapon", false),
            info("Recoilless Rifle", "Support Weapon", true),
            info("Jump Pack", "Backpack", true),
            info("Supply Pack", "Backpack", true),
            info("Shield Generator Pack", "Backpack", true),
            info("Gatling Sentry", "Sentry", false),
            info("Autocannon Sentry", "Sentry", false),
            info("Rocket Sentry", "Sentry", false),
        ],
    }
}

fn rules(balanced: bool, max_one_sentry: bool) -> Rules {
    Rules { match_set: true, balanced, max_one_sentry }
}

fn roll(rules: Rules, data: &GameData, equipment: &Equipment, meta: &StratMeta) -> Build {
    generate(None, &Locks::new(), rules, data, equipment, meta)
}

#[test]
fn a_build_fills_every_slot_without_repeating() {
    let data = data();
    let equipment = equipment();
    let meta = StratMeta::build(&data, &equipment);
    for _ in 0..ROLLS {
        let build = roll(rules(false, false), &data, &equipment, &meta);
        assert!(build.stratagems.iter().all(Option::is_some), "empty slot");
        for index in 1..SLOT_COUNT {
            assert!(!build.stratagems[..index].contains(&build.stratagems[index]), "repeated: {:?}", build.stratagems);
        }
        for slot in EquipSlot::all() {
            assert!(build.item(&equipment, slot).is_some(), "{} without an item", slot.key());
        }
    }
}

#[test]
fn two_mechs_never_share_a_build() {
    let data = data();
    let equipment = equipment();
    let meta = StratMeta::build(&data, &equipment);
    for tag in EXCLUSIVE_TAGS {
        for _ in 0..ROLLS {
            let build = roll(rules(false, false), &data, &equipment, &meta);
            let count = build
                .stratagems
                .iter()
                .flatten()
                .filter(|id| data.by_id(**id).is_some_and(|strat| strat.has_tag(tag)))
                .count();
            assert!(count <= 1, "{tag} came {count} times");
        }
    }
}

#[test]
fn a_balanced_build_always_carries_a_support_weapon_and_a_backpack() {
    let data = data();
    let equipment = equipment();
    let meta = StratMeta::build(&data, &equipment);
    for _ in 0..ROLLS {
        let build = roll(rules(true, false), &data, &equipment, &meta);
        let ids: Vec<u32> = build.stratagems.iter().flatten().copied().collect();
        assert!(ids.iter().any(|id| meta.is_support(*id)), "no support weapon");
        assert!(ids.iter().any(|id| meta.is_backpack(*id)), "no backpack");
        assert_eq!(ids.iter().filter(|id| meta.is_support(**id)).count(), 1);
        assert_eq!(ids.iter().filter(|id| meta.is_backpack(**id)).count(), 1);
    }
}

#[test]
fn the_sentry_cap_holds() {
    let data = data();
    let equipment = equipment();
    let meta = StratMeta::build(&data, &equipment);
    let mut with_sentry = 0;
    for _ in 0..ROLLS {
        let build = roll(rules(false, true), &data, &equipment, &meta);
        let sentries = build.stratagems.iter().flatten().filter(|id| meta.is_sentry(**id)).count();
        assert!(sentries <= 1, "{sentries} sentries in one build");
        with_sentry += usize::from(sentries == 1);
    }
    assert!(with_sentry > 0, "no sentry in {ROLLS} rolls");
}

#[test]
fn locked_items_survive_the_next_roll() {
    let data = data();
    let equipment = equipment();
    let meta = StratMeta::build(&data, &equipment);
    let first = roll(rules(false, false), &data, &equipment, &meta);

    let mut locks = Locks::new();
    locks.toggle_stratagem(1);
    locks.toggle_equip(EquipSlot::Primary);
    assert!(locks.stratagem(1) && locks.equip(EquipSlot::Primary));
    assert!(!locks.stratagem(0) && !locks.equip(EquipSlot::Armor));

    for _ in 0..ROLLS {
        let next = generate(Some(&first), &locks, rules(false, false), &data, &equipment, &meta);
        assert_eq!(next.stratagems[1], first.stratagems[1]);
        assert_eq!(next.equip(EquipSlot::Primary), first.equip(EquipSlot::Primary));
    }
}

#[test]
fn a_locked_slot_is_not_duplicated_by_the_roll() {
    let data = data();
    let equipment = equipment();
    let meta = StratMeta::build(&data, &equipment);
    let first = roll(rules(false, false), &data, &equipment, &meta);
    let mut locks = Locks::new();
    locks.toggle_stratagem(0);

    for _ in 0..ROLLS {
        let next = generate(Some(&first), &locks, rules(false, false), &data, &equipment, &meta);
        let kept = next.stratagems[0];
        assert!(!next.stratagems[1..].contains(&kept));
    }
}

#[test]
fn set_matching_pairs_the_helmet_and_the_cape_with_the_armor() {
    let data = data();
    let equipment = equipment();
    let meta = StratMeta::build(&data, &equipment);
    let mut matched_helmet = 0;

    for _ in 0..ROLLS {
        let build = roll(rules(false, false), &data, &equipment, &meta);
        let armor = build.item(&equipment, EquipSlot::Armor).unwrap();
        let helmet = build.item(&equipment, EquipSlot::Helmet).unwrap();
        let cape = build.item(&equipment, EquipSlot::Cape).unwrap();

        if helmet.nome() == armor.nome() {
            matched_helmet += 1;
            assert!(build.is_set_piece(&equipment, EquipSlot::Helmet));
        }
        let armor_warbond = armor.warbond().unwrap_or_default();
        if !armor_warbond.is_empty() && equipment.cape.iter().any(|item| item.warbond == armor_warbond) {
            assert_eq!(cape.warbond(), Some(armor_warbond));
            assert!(build.is_set_piece(&equipment, EquipSlot::Cape));
        }
    }
    assert!(matched_helmet > ROLLS / 2, "the set helmet nearly always exists: {matched_helmet}/{ROLLS}");
}

#[test]
fn set_matching_can_be_turned_off_and_never_beats_a_lock() {
    let data = data();
    let equipment = equipment();
    let meta = StratMeta::build(&data, &equipment);

    let matched = (0..ROLLS)
        .filter(|_| {
            let build = roll(Rules { match_set: false, ..rules(false, false) }, &data, &equipment, &meta);
            let armor = build.item(&equipment, EquipSlot::Armor).unwrap();
            let helmet = build.item(&equipment, EquipSlot::Helmet).unwrap();
            helmet.nome() == armor.nome()
        })
        .count();
    assert!(matched < ROLLS / 4, "too many sets without the rule: {matched}");

    let first = roll(rules(false, false), &data, &equipment, &meta);
    let mut locks = Locks::new();
    locks.toggle_equip(EquipSlot::Helmet);
    for _ in 0..ROLLS {
        let next = generate(Some(&first), &locks, rules(false, false), &data, &equipment, &meta);
        assert_eq!(next.equip(EquipSlot::Helmet), first.equip(EquipSlot::Helmet));
    }
}

#[test]
fn a_build_with_nothing_classified_still_fills_four_slots() {
    let data = data();
    let equipment = equipment();
    let meta = StratMeta::default();
    assert_eq!(meta.kind(0), StratKind::none());

    let build = roll(rules(true, true), &data, &equipment, &meta);
    assert!(build.stratagems.iter().all(Option::is_some));
}

#[test]
fn a_roll_without_equipment_leaves_the_gear_empty() {
    let data = data();
    let equipment = Equipment {
        primary: vec![],
        secondary: vec![],
        grenade: vec![],
        armor: vec![],
        helmet: vec![],
        cape: vec![],
        booster: vec![],
        passives: vec![],
        warbond: vec![],
        stratagem_info: vec![],
    };
    let meta = StratMeta::default();
    let build = roll(rules(true, true), &data, &equipment, &meta);
    for slot in EquipSlot::all() {
        assert_eq!(build.equip(slot), None);
    }
    assert!(build.has_stratagem());
}

// --- Meta ---

/// A percentage as parts per million of the loadouts.
fn ppm(percentage: f64) -> u64 {
    (percentage * 10_000.0).round() as u64
}

fn stat(percentage: f64) -> ItemStat {
    ItemStat { loadouts_ppm: ppm(percentage), change_ppm: None, is_new: None }
}

fn pick<T>(item: T, percentage: f64) -> Pick<T> {
    Pick { item, stat: stat(percentage) }
}

fn section(items: &[(&str, f64)], games: u64) -> Section {
    Section {
        items: items.iter().map(|(slug, percentage)| ((*slug).to_string(), stat(*percentage))).collect(),
        total: Total { games },
    }
}

/// Lists with the given stratagems, by decreasing pick rate, and nothing else.
fn lists_of(ids: &[u32]) -> MetaLists {
    MetaLists::new(
        ids.iter().enumerate().map(|(rank, id)| pick(*id, 50.0 - rank as f64)).collect(),
        [Vec::new(), Vec::new(), Vec::new()],
        Vec::new(),
        0,
    )
}

fn roll_meta(lists: &MetaLists, rules: Rules, data: &GameData, equipment: &Equipment, meta: &StratMeta) -> Build {
    generate_meta(None, &Locks::new(), rules, lists, data, equipment, meta)
}

fn stats_map() -> StatsMap {
    StatsMap {
        strategem: vec![
            ("orbital-precision-strike".into(), 0),
            ("machine-gun".into(), 4),
            ("left-the-game".into(), 999),
        ],
        weapons: vec![
            ("ar-2-coyote".into(), WeaponRef { cat: "primary".into(), id: "primary-0".into() }),
            ("p-2-peacemaker".into(), WeaponRef { cat: "secondary".into(), id: "secondary-3".into() }),
            ("not-a-weapon".into(), WeaponRef { cat: "armor".into(), id: "armor-0".into() }),
        ],
        armor: vec![("scout".into(), "Scout".into()), ("med-kit".into(), "Med-Kit".into()), ("gone".into(), "Gone".into())],
    }
}

#[test]
fn the_lists_resolve_the_slugs_and_come_out_by_pick_rate() {
    let data = data();
    let equipment = equipment();
    let map = stats_map();

    let stats = Stats {
        // Out of order on purpose: `meta_lists` does the ordering.
        strategem: section(
            &[("orbital-precision-strike", 5.0), ("machine-gun", 40.0), ("slug-que-nao-existe", 99.0), ("left-the-game", 60.0)],
            4_009,
        ),
        weapons: section(&[("ar-2-coyote", 12.0), ("p-2-peacemaker", 30.0), ("not-a-weapon", 50.0)], 0),
        armor: section(&[("scout", 7.0), ("med-kit", 18.0), ("gone", 70.0)], 0),
    };

    let lists = meta_lists(&stats, &data, &equipment, &map);
    assert!(!lists.is_empty());
    assert_eq!(lists.games, 4_009);

    // An unknown slug, or one pointing at a stratagem that left the game, is no row.
    assert_eq!(lists.stratagems.len(), 2);
    assert_eq!(lists.stratagems[0].item, 4);
    assert_eq!(lists.stratagems[0].stat.loadouts_ppm, 400_000);
    assert_eq!(lists.stratagems[1].item, 0);
    assert!(lists.stratagems.iter().all(|pick| data.by_id(pick.item).is_some()));

    // Each weapon falls in the category the map gives.
    assert_eq!(lists.weapons(EquipSlot::Primary).len(), 1);
    assert_eq!(lists.weapons(EquipSlot::Primary)[0].item, "primary-0");
    assert_eq!(lists.weapons(EquipSlot::Secondary)[0].item, "secondary-3");
    assert!(lists.weapons(EquipSlot::Grenade).is_empty());
    // A category that is not a weapon never has a list.
    assert!(lists.weapons(EquipSlot::Armor).is_empty());

    assert_eq!(lists.passives.len(), 2);
    assert_eq!(lists.passives[0].item, "Med-Kit");
    assert_eq!(lists.passives[1].item, "Scout");
    assert!(MetaLists::empty().is_empty());
}

#[test]
fn equal_pick_rates_are_ordered_by_the_item() {
    let data = data();
    let equipment = equipment();
    let map = stats_map();
    let stats = Stats {
        strategem: section(&[("machine-gun", 10.0), ("orbital-precision-strike", 10.0)], 1),
        weapons: section(&[], 0),
        armor: section(&[("scout", 3.0), ("med-kit", 3.0)], 0),
    };
    let lists = meta_lists(&stats, &data, &equipment, &map);
    let ids: Vec<u32> = lists.stratagems.iter().map(|p| p.item).collect();
    assert_eq!(ids, [0, 4]);
    let names: Vec<&str> = lists.passives.iter().map(|p| p.item.as_str()).collect();
    assert_eq!(names, ["Med-Kit", "Scout"]);
}

#[test]
fn a_weighted_pick_follows_the_pick_rate() {
    let popular = pick(1u32, 90.0);
    let rare = pick(2u32, 10.0);
    let list = [&popular, &rare];

    let hits = (0..ROLLS).filter(|_| weighted(&list).unwrap().item == 1).count();
    assert!(hits > ROLLS * 3 / 4, "the most used came only {hits} times");
    assert!(hits < ROLLS, "the least used never came");

    // A list without any weight answers its first item.
    let zeroed = [&pick(7u32, 0.0), &pick(8u32, 0.0)];
    assert_eq!(weighted(&zeroed).unwrap().item, 7);
    assert!(weighted::<u32>(&[]).is_none());
}

#[test]
fn an_item_without_weight_never_comes_out() {
    let list = [&pick(1u32, 0.0), &pick(2u32, 25.0), &pick(3u32, 0.0)];
    for _ in 0..ROLLS {
        assert_eq!(weighted(&list).unwrap().item, 2);
    }
}

#[test]
fn a_meta_build_only_takes_stratagems_from_the_top() {
    let data = data();
    let equipment = equipment();
    let meta = StratMeta::build(&data, &equipment);
    let top: Vec<u32> = data.all().iter().take(15).map(|strat| strat.id).collect();
    let lists = lists_of(&top);

    for _ in 0..ROLLS {
        let build = roll_meta(&lists, rules(false, false), &data, &equipment, &meta);
        assert!(build.stratagems.iter().all(Option::is_some));
        for id in build.stratagems.iter().flatten() {
            assert!(top[..META_TOP_STRATS].contains(id), "{id} is outside the top shown");
        }
        for index in 1..SLOT_COUNT {
            assert!(!build.stratagems[..index].contains(&build.stratagems[index]));
        }
    }
}

#[test]
fn the_backpack_fallback_reaches_outside_the_top() {
    let data = data();
    let equipment = equipment();
    let meta = StratMeta::build(&data, &equipment);

    let plain: Vec<u32> = data
        .all()
        .iter()
        .filter(|strat| !meta.is_support(strat.id) && !meta.is_backpack(strat.id))
        .take(META_TOP_STRATS)
        .map(|strat| strat.id)
        .collect();
    let support = data.all().iter().find(|s| meta.is_support(s.id) && !meta.is_backpack(s.id)).expect("a support weapon without backpack").id;
    let backpack = data.all().iter().find(|s| meta.is_backpack(s.id) && !meta.is_support(s.id)).expect("a backpack that is no support").id;

    let mut ids = plain.clone();
    ids.extend([support, backpack]);
    let lists = lists_of(&ids);

    for _ in 0..ROLLS {
        let build = roll_meta(&lists, rules(true, false), &data, &equipment, &meta);
        let equipped: Vec<u32> = build.stratagems.iter().flatten().copied().collect();
        assert!(equipped.iter().any(|id| meta.is_support(*id)), "balanced build without support weapon");
        assert!(equipped.iter().any(|id| meta.is_backpack(*id)), "balanced build without backpack");
    }
}

#[test]
fn the_meta_gear_comes_from_the_top_of_each_list() {
    let data = data();
    let meta = StratMeta::build(&data, &equipment());
    let equipment = equipment();

    let weapon_ids = |slot: EquipSlot| -> Vec<String> {
        (0..4).filter_map(|index| equipment.at(slot, index)).map(|item| item.id().to_string()).collect()
    };
    let mut weapons: [Vec<Pick<String>>; 3] = [Vec::new(), Vec::new(), Vec::new()];
    for slot in [EquipSlot::Primary, EquipSlot::Secondary, EquipSlot::Grenade] {
        weapons[slot.index()] =
            weapon_ids(slot).into_iter().enumerate().map(|(rank, id)| pick(id, 40.0 - rank as f64)).collect();
    }

    // Six real passives: only the first five may come on the armor.
    let mut names: Vec<String> = Vec::new();
    for armor in &equipment.armor {
        if !names.contains(&armor.passive) {
            names.push(armor.passive.clone());
        }
    }
    let passives: Vec<Pick<String>> = names
        .iter()
        .take(META_TOP_PASSIVES + 1)
        .enumerate()
        .map(|(rank, name)| pick(name.clone(), 30.0 - rank as f64))
        .collect();

    let ids: Vec<u32> = data.all().iter().take(12).map(|strat| strat.id).collect();
    let lists = MetaLists::new(lists_of(&ids).stratagems, weapons, passives, 1);

    for _ in 0..ROLLS {
        let build = roll_meta(&lists, rules(false, false), &data, &equipment, &meta);
        for slot in [EquipSlot::Primary, EquipSlot::Secondary, EquipSlot::Grenade] {
            let chosen = build.equip(slot).expect("drawn weapon");
            let top: Vec<&str> =
                lists.weapons(slot).iter().take(META_TOP_WEAPONS).map(|pick| pick.item.as_str()).collect();
            assert!(top.contains(&chosen), "{chosen} outside the top of {}", slot.key());
        }

        let armor = build.item(&equipment, EquipSlot::Armor).expect("drawn armor");
        let passive = &equipment.armor_by_id(armor.id()).unwrap().passive;
        assert!(names[..META_TOP_PASSIVES].contains(passive), "{passive} is not among the top passives");
        for slot in [EquipSlot::Helmet, EquipSlot::Cape, EquipSlot::Booster] {
            assert!(build.item(&equipment, slot).is_some(), "{} empty", slot.key());
        }
    }
}

#[test]
fn a_meta_build_keeps_what_is_locked() {
    let data = data();
    let equipment = equipment();
    let meta = StratMeta::build(&data, &equipment);
    let ids: Vec<u32> = data.all().iter().take(12).map(|strat| strat.id).collect();
    let lists = lists_of(&ids);
    let first = roll_meta(&lists, rules(false, false), &data, &equipment, &meta);

    let mut locks = Locks::new();
    locks.toggle_stratagem(2);
    locks.toggle_equip(EquipSlot::Booster);

    for _ in 0..ROLLS {
        let next = generate_meta(Some(&first), &locks, rules(false, false), &lists, &data, &equipment, &meta);
        assert_eq!(next.stratagems[2], first.stratagems[2]);
        assert_eq!(next.equip(EquipSlot::Booster), first.equip(EquipSlot::Booster));
        let kept = next.stratagems[2];
        assert_eq!(next.stratagems.iter().filter(|slot| **slot == kept).count(), 1);
    }
}

#[test]
fn without_lists_no_stratagem_is_picked_but_the_gear_still_rolls() {
    let data = data();
    let equipment = equipment();
    let meta = StratMeta::build(&data, &equipment);
    let build = roll_meta(&MetaLists::empty(), rules(true, true), &data, &equipment, &meta);

    assert!(build.stratagems.iter().all(Option::is_none));
    for slot in EquipSlot::all() {
        assert!(build.item(&equipment, slot).is_some(), "{}", slot.key());
    }
}

#[test]
fn toggling_a_lock_twice_gives_the_locks_back() {
    let mut locks = Locks::new();
    locks.toggle_stratagem(2);
    assert!(locks.stratagem(2));
    assert!(!locks.stratagem(1) && !locks.stratagem(3));
    locks.toggle_stratagem(2);
    assert!(!locks.stratagem(2));
    // An index past the slots changes nothing and is never locked.
    locks.toggle_stratagem(9);
    assert!(!locks.stratagem(9));
    assert!((0..4).all(|i| !locks.stratagem(i)));
}
