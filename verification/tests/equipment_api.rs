use macro_hd2::equipment_api::{capitalized, collection_items, from_api, ApiItem};
use macro_hd2::equipment_sync::Category;

fn item(id: &str, name: Option<&str>, collection_dir: &str, category: Option<&str>) -> ApiItem {
    ApiItem {
        id: id.into(),
        name: name.map(String::from),
        aliases: vec![],
        upcoming: false,
        image_url: Some(format!("/images/v1/{collection_dir}/{id}.0123abcd.webp")),
        category: category.map(String::from),
        subcategory: None,
        stats_raw: vec![],
        weight: None,
        armor_rating: None,
        speed: None,
        stamina_regen: None,
        passive_id: None,
        source_label: None,
        effect: None,
        description: None,
    }
}

fn weapon(id: &str, name: &str, category: &str) -> ApiItem {
    ApiItem {
        stats_raw: vec![
            ("Weapon Type".into(), Some("Assault Rifle".into())),
            ("Standard Damage".into(), Some(" 60 ".into())),
            ("Capacity".into(), Some("45".into())),
            ("Fire Rate".into(), Some("   ".into())),
        ],
        ..item(id, Some(name), "weapons", Some(category))
    }
}

fn passives() -> Vec<(String, String)> {
    vec![("scout".into(), "Scout".into())]
}

#[test]
fn a_weapon_takes_its_sheet_from_the_raw_stats() {
    let remote = from_api("weapons", weapon("ar-99-teste", " AR-99 Teste ", "primary"), &passives()).unwrap();
    assert_eq!(remote.category, Category::Primary);
    assert_eq!(remote.nome, "AR-99 Teste");
    assert_eq!(remote.tipo, "Assault Rifle");
    assert_eq!(remote.dano, "60");
    assert_eq!(remote.capacidade.as_deref(), Some("45"));
    // A blank line of the sheet is no value.
    assert_eq!(remote.cadencia, None);
    assert_eq!(remote.warbond, "");
}

#[test]
fn a_grenade_is_typed_by_its_subcategory() {
    let mut grenade = weapon("g-99-teste", "G-99 Teste", "throwable");
    grenade.subcategory = Some("standard".into());
    grenade.stats_raw.push(("Damage".into(), Some("400".into())));
    let remote = from_api("weapons", grenade, &passives()).unwrap();
    assert_eq!(remote.category, Category::Grenade);
    assert_eq!(remote.tipo, "Standard");
    assert_eq!(remote.dano, "400");
    assert_eq!(remote.cadencia, None);
}

#[test]
fn civilian_weapons_and_future_items_stay_out() {
    assert!(from_api("weapons", weapon("pa-1", "Pá", "civilian"), &passives()).is_none());
    let mut future = weapon("ar-100", "AR-100", "primary");
    future.upcoming = true;
    assert!(from_api("weapons", future, &passives()).is_none());
    assert!(from_api("vehicles", weapon("x-1", "X-1", "primary"), &passives()).is_none());
}

#[test]
fn an_armor_needs_its_whole_sheet_and_a_known_passive() {
    let armor = ApiItem {
        weight: Some("medium".into()),
        armor_rating: Some(100),
        speed: Some(500),
        stamina_regen: Some(100),
        passive_id: Some("scout".into()),
        source_label: Some("  Halo: ODST P2 ".into()),
        ..item("a-99-teste", Some("A-99 Teste"), "armors", None)
    };
    let remote = from_api("armors", armor.clone(), &passives()).unwrap();
    assert_eq!(remote.category, Category::Armor);
    assert_eq!(remote.peso, "Medium");
    assert_eq!((remote.armor, remote.speed, remote.stamina), (100, 500, 100));
    assert_eq!(remote.passive, "Scout");
    assert_eq!(remote.warbond, "Halo: ODST");

    let unknown = ApiItem { passive_id: Some("siege-ready".into()), ..armor.clone() };
    assert!(from_api("armors", unknown, &passives()).is_none());
    let no_rating = ApiItem { armor_rating: None, ..armor.clone() };
    assert!(from_api("armors", no_rating, &passives()).is_none());
    let odd_weight = ApiItem { weight: Some("enorme".into()), ..armor };
    assert!(from_api("armors", odd_weight, &passives()).is_none(), "fails the validation");
}

#[test]
fn a_label_keeps_a_page_that_is_not_a_number() {
    let helmet = ApiItem { source_label: Some("Freedom's Flame Pack".into()), ..item("h-1", Some("H-1"), "helmets", None) };
    assert_eq!(from_api("helmets", helmet, &passives()).unwrap().warbond, "Freedom's Flame Pack");
    let cape = ApiItem { source_label: Some("Polar Patriots P".into()), ..item("c-1", Some("C-1"), "capes", None) };
    assert_eq!(from_api("capes", cape, &passives()).unwrap().warbond, "Polar Patriots P");
}

#[test]
fn a_booster_prefers_its_effect_and_a_passive_its_description() {
    let booster = ApiItem {
        effect: Some("More stamina".into()),
        description: Some("Long text".into()),
        ..item("stamina", Some("Stamina Enhancement"), "boosters", None)
    };
    assert_eq!(from_api("boosters", booster, &passives()).unwrap().descricao, "More stamina");
    let passive = ApiItem { description: Some("Markers".into()), ..item("scout", Some("Scout"), "passives", None) };
    assert_eq!(from_api("passives", passive, &passives()).unwrap().descricao, "Markers");
}

#[test]
fn a_broken_item_does_not_sink_the_collection() {
    let items = vec![
        weapon("ar-99-teste", "AR-99 Teste", "primary"),
        item("sem-nome", None, "weapons", Some("primary")),
        weapon("../x", "Bad Slug", "primary"),
    ];
    let list = collection_items("weapons", items, &passives());
    assert_eq!(list.len(), 1);
    assert_eq!(list[0].nome, "AR-99 Teste");
}

#[test]
fn capitalized_raises_only_the_first_letter() {
    assert_eq!(capitalized("medium"), "Medium");
    assert_eq!(capitalized("standard grenade"), "Standard grenade");
    assert_eq!(capitalized(""), "");
    assert_eq!(capitalized("ódio"), "Ódio");
}
