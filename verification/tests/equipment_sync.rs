use macro_hd2::data::{Armor, Cosmetic, Described, EquipSlot, Equipment, Weapon};
use macro_hd2::equipment_api::{collection_items, ApiItem};
use macro_hd2::equipment_sync::{
    cached_items, fresh_items, merge, name_key, slug, Category, RemoteItem, MAX_NEW_PER_CATEGORY,
};

fn bundled() -> Equipment {
    Equipment {
        primary: vec![
            Weapon {
                nome: "AR-23 Liberator".into(),
                tipo: "Assault Rifles".into(),
                dano: "55 Ballistic".into(),
                capacidade: Some("45".into()),
                cadencia: Some("640 rpm".into()),
                id: "primary-ar-23-liberator".into(),
                imagem: "equipment/primary-ar-23-liberator.webp".into(),
            },
            Weapon {
                nome: "SG-225 Breaker".into(),
                tipo: "Shotguns".into(),
                dano: "330".into(),
                capacidade: None,
                cadencia: None,
                id: "primary-sg-225-breaker".into(),
                imagem: "equipment/primary-sg-225-breaker.webp".into(),
            },
        ],
        secondary: vec![],
        grenade: vec![],
        armor: vec![Armor {
            nome: "CPH-26 Commandant".into(),
            peso: "Medium".into(),
            armor: 100,
            speed: 500,
            stamina: 100,
            passive: "Siege-Ready".into(),
            warbond: "Castellan's Creed".into(),
            id: "armor-cph-26-commandant".into(),
            imagem: "equipment/armor-cph-26-commandant.webp".into(),
        }],
        helmet: vec![],
        cape: vec![Cosmetic {
            nome: "Old Cape".into(),
            warbond: "Helldivers Mobilize".into(),
            id: "cape-old-cape".into(),
            imagem: "equipment/cape-old-cape.webp".into(),
        }],
        booster: vec![],
        passives: vec![Described {
            nome: "Siege-Ready".into(),
            descricao: "More ammo".into(),
            id: "passives-siege-ready".into(),
            imagem: "equipment/passives-siege-ready.webp".into(),
        }],
        warbond: vec![],
        stratagem_info: vec![],
    }
}

fn item(category: Category, slug: &str, nome: &str) -> RemoteItem {
    let folder = category.collection();
    RemoteItem {
        category,
        slug: slug.into(),
        nome: nome.into(),
        aliases: vec![],
        image: format!("/images/v1/{folder}/{slug}.0123abcd.webp"),
        tipo: String::new(),
        dano: String::new(),
        capacidade: None,
        cadencia: None,
        peso: String::new(),
        armor: 0,
        speed: 0,
        stamina: 0,
        passive: String::new(),
        warbond: String::new(),
        descricao: String::new(),
    }
}

fn image(collection: &str, slug: &str) -> Option<String> {
    Some(format!("/images/v1/{collection}/{slug}.0123abcd.webp"))
}

fn api_item(slug: &str, name: &str, collection: &str) -> ApiItem {
    ApiItem {
        id: slug.into(),
        name: Some(name.into()),
        aliases: vec![],
        upcoming: false,
        image_url: image(collection, slug),
        category: None,
        subcategory: None,
        stats_raw: vec![],
        weight: None,
        armor_rating: None,
        speed: None,
        stamina_regen: None,
        passive_id: None,
        source_label: None,
        effect: None,
        description: None,
    }
}

fn weapon(slug: &str, name: &str, category: &str) -> ApiItem {
    ApiItem {
        category: Some(category.into()),
        subcategory: Some("assault_rifle".into()),
        stats_raw: vec![
            ("Weapon Type".into(), Some("Assault Rifles".into())),
            ("Standard Damage".into(), Some("70 Ballistic".into())),
            ("Capacity".into(), Some("45".into())),
            ("Fire Rate".into(), Some("700 rpm".into())),
        ],
        ..api_item(slug, name, "weapons")
    }
}

fn passive(slug: &str, name: &str) -> ApiItem {
    ApiItem { description: Some(format!("{name} faz algo.")), ..api_item(slug, name, "passives") }
}

fn armor(slug: &str, name: &str, passive_id: &str, label: &str) -> ApiItem {
    ApiItem {
        weight: Some("heavy".into()),
        armor_rating: Some(150),
        speed: Some(450),
        stamina_regen: Some(50),
        passive_id: Some(passive_id.into()),
        source_label: Some(label.into()),
        ..api_item(slug, name, "armors")
    }
}

fn cosmetic(collection: &str, slug: &str, name: &str, label: &str) -> ApiItem {
    ApiItem { source_label: Some(label.into()), ..api_item(slug, name, collection) }
}

/// The collections as the API serves them, with new items, known ones and
/// edge cases, each through the app's reading of an API item.
fn api() -> Vec<RemoteItem> {
    let passives = collection_items(
        "passives",
        vec![passive("passiva-teste", "Passiva Teste"), passive("siege-ready", "Siege-Ready")],
        &vec![],
    );
    let by_id: Vec<(String, String)> = passives.iter().map(|item| (item.slug.clone(), item.nome.clone())).collect();

    let future = ApiItem { upcoming: true, ..weapon("ar-98-futuro", "AR-98 Futuro", "primary") };
    let grenade = ApiItem {
        category: Some("throwable".into()),
        subcategory: Some("special".into()),
        stats_raw: vec![("Fuse Time".into(), Some("Impact".into()))],
        ..api_item("g-99-teste", "G-99 Teste", "weapons")
    };
    let mut all = passives;
    all.extend(collection_items(
        "weapons",
        vec![
            weapon("ar-99-teste", "AR-99 Teste", "primary"),
            weapon("ar-23-liberator", "AR-23 Liberator", "primary"),
            weapon("cqc-72-entrenchment-tool", "Trench Shovel", "civilian"),
            future,
            grenade,
        ],
        &by_id,
    ));
    all.extend(collection_items(
        "armors",
        vec![
            armor("bfm-999-teste", "BFM-999 Teste", "passiva-teste", "Battle-Hardened P2"),
            armor("tg-99-teste", "TG-99 Teste", "siege-ready", "Castellan\u{2019}s Creed P1"),
            // The wiki disambiguates the page with "(Armor)"; the bundled JSON does not.
            armor("cph-26-commandant", "CPH-26 Commandant (Armor)", "siege-ready", "Masters of Ceremony"),
            armor("sem-passiva", "SP-1 Sem Passiva", "nao-existe", "x"),
        ],
        &by_id,
    ));
    all.extend(collection_items(
        "capes",
        vec![cosmetic("capes", "capa-teste", "Capa Teste", "Castellan\u{2019}s Creed P3")],
        &by_id,
    ));
    all
}

fn find<'a>(items: &'a [RemoteItem], name: &str) -> Option<&'a RemoteItem> {
    items.iter().find(|item| item.nome == name)
}

#[test]
fn slugs_and_name_keys_follow_the_scrape() {
    assert_eq!(slug("AR-23 Liberator"), "ar-23-liberator");
    assert_eq!(slug("A/G-16 Gatling"), "a-g-16-gatling");
    assert_eq!(slug("Cloak of Posterity's Gratitude"), "cloak-of-posterity-s-gratitude");
    assert_eq!(name_key("CPH-26 Commandant (Armor)"), name_key("CPH-26 Commandant"));
    assert_eq!(name_key("Castellan\u{2019}s Creed"), name_key("Castellan's Creed"));
    assert_ne!(name_key("B-01 Tactical"), name_key("B-08 Light Gunner"));
}

#[test]
fn only_what_the_bundled_json_lacks_is_new() {
    let fresh = fresh_items(&bundled(), &api());
    let names: Vec<&str> = fresh.iter().map(|item| item.nome.as_str()).collect();

    assert!(names.contains(&"AR-99 Teste"));
    assert!(names.contains(&"G-99 Teste"));
    assert!(names.contains(&"BFM-999 Teste"));
    assert!(names.contains(&"Passiva Teste"));
    assert!(names.contains(&"Capa Teste"));
    // Already bundled, the wiki's disambiguation in the name included.
    assert!(!names.contains(&"AR-23 Liberator"));
    assert!(!names.contains(&"CPH-26 Commandant (Armor)"));
    assert!(!names.contains(&"Siege-Ready"));
    // Out of the loadout, upcoming, and an armor with a passive no one knows.
    assert!(!names.contains(&"Trench Shovel"));
    assert!(!names.contains(&"AR-98 Futuro"));
    assert!(!names.contains(&"SP-1 Sem Passiva"));
}

#[test]
fn a_new_item_carries_the_same_sheet_the_scrape_would_write() {
    let fresh = fresh_items(&bundled(), &api());

    let rifle = find(&fresh, "AR-99 Teste").unwrap();
    assert_eq!(rifle.id(), "primary-ar-99-teste");
    assert_eq!(rifle.tipo, "Assault Rifles");
    assert_eq!(rifle.dano, "70 Ballistic");
    assert_eq!(rifle.capacidade.as_deref(), Some("45"));
    assert_eq!(rifle.cadencia.as_deref(), Some("700 rpm"));

    let grenade = find(&fresh, "G-99 Teste").unwrap();
    assert_eq!(grenade.id(), "grenade-g-99-teste");
    assert_eq!(grenade.tipo, "Special");
    assert_eq!(grenade.dano, "");

    let tanker = find(&fresh, "BFM-999 Teste").unwrap();
    assert_eq!(tanker.peso, "Heavy");
    assert_eq!((tanker.armor, tanker.speed, tanker.stamina), (150, 450, 50));
    assert_eq!(tanker.passive, "Passiva Teste");
    // Without the warbond's page, as the scrape writes it.
    assert_eq!(tanker.warbond, "Battle-Hardened");
    assert_eq!(tanker.imagem(), "remote/equipment/armor-bfm-999-teste.0123abcd.webp");

    let passive = find(&fresh, "Passiva Teste").unwrap();
    assert_eq!(passive.id(), "passives-passiva-teste");
    assert_eq!(passive.descricao, "Passiva Teste faz algo.");
}

#[test]
fn a_known_warbond_keeps_the_bundled_spelling() {
    let fresh = fresh_items(&bundled(), &api());
    assert_eq!(find(&fresh, "TG-99 Teste").unwrap().warbond, "Castellan's Creed");
    assert_eq!(find(&fresh, "Capa Teste").unwrap().warbond, "Castellan's Creed");
    assert_eq!(find(&fresh, "TG-99 Teste").unwrap().passive, "Siege-Ready");
}

#[test]
fn merging_puts_each_item_in_its_alphabetical_place() {
    let mut equipment = bundled();
    let before = equipment.primary.len();
    merge(&mut equipment, &api());

    assert_eq!(equipment.primary.len(), before + 1);
    let names: Vec<&str> = equipment.primary.iter().map(|w| w.nome.as_str()).collect();
    let mut sorted = names.clone();
    sorted.sort_unstable();
    assert_eq!(names, sorted);

    let rifle = equipment.find(EquipSlot::Primary, "primary-ar-99-teste").expect("the new weapon");
    assert_eq!(rifle.imagem(), "remote/equipment/primary-ar-99-teste.0123abcd.webp");
    let tanker = equipment.armor.iter().find(|armor| armor.nome == "BFM-999 Teste").unwrap();
    assert!(equipment.passive(&tanker.passive).is_some());

    let again = equipment.clone();
    merge(&mut equipment, &api());
    assert_eq!(equipment, again);
}

#[test]
fn api_items_are_validated() {
    let base = RemoteItem { dano: "70".into(), ..item(Category::Primary, "ar-99-teste", "AR-99 Teste") };
    assert!(base.is_valid());
    let broken = |f: fn(&mut RemoteItem)| {
        let mut item = base.clone();
        f(&mut item);
        item.is_valid()
    };
    assert!(!broken(|i| i.slug = "../x".into()));
    assert!(!broken(|i| i.nome = "  ".into()));
    assert!(!broken(|i| i.nome = "x".repeat(200)));
    assert!(!broken(|i| i.nome = "a\u{0}b".into()));
    assert!(!broken(|i| i.image = "/images/v1/armors/x.0123abcd.webp".into()));
    assert!(!broken(|i| i.image = "/images/v1/weapons/../../x.webp".into()));
    assert!(!broken(|i| i.image = "/images/v1/weapons/x.png".into()));
    assert!(!broken(|i| i.dano = "x".repeat(1_000)));
    assert!(!broken(|i| i.armor = -1));
    assert!(!broken(|i| {
        i.category = Category::Armor;
        i.image = "/images/v1/armors/x.0123abcd.webp".into();
        i.peso = "Enorme".into();
        i.passive = "Siege-Ready".into();
    }));
    let good_armor = RemoteItem {
        peso: "Heavy".into(),
        armor: 150,
        speed: 450,
        stamina: 50,
        passive: "Siege-Ready".into(),
        warbond: "x".into(),
        ..item(Category::Armor, "tg-99-teste", "TG-99 Teste")
    };
    assert!(good_armor.is_valid());
}

#[test]
fn a_flood_of_new_items_is_refused_whole() {
    let api: Vec<RemoteItem> = (0..MAX_NEW_PER_CATEGORY + 1)
        .map(|n| item(Category::Secondary, &format!("zz-{n}"), &format!("ZZ-{n} Quebrada")))
        .collect();
    assert!(fresh_items(&bundled(), &api).is_empty());
    assert_eq!(fresh_items(&bundled(), &api[..MAX_NEW_PER_CATEGORY]).len(), MAX_NEW_PER_CATEGORY);
}

#[test]
fn the_cache_drops_tampered_items() {
    let fresh = fresh_items(&bundled(), &api());
    let valid: Vec<RemoteItem> = fresh.iter().filter(|i| i.is_valid()).cloned().collect();
    let mut tampered = valid.clone();
    tampered[0].image = "/images/v1/passives/../../../x.webp".into();
    assert_eq!(cached_items(tampered), valid[1..].to_vec());
    assert_eq!(cached_items(valid.clone()), valid);
}

#[test]
fn the_api_file_is_what_follows_the_last_slash() {
    let rifle = item(Category::Primary, "ar-99-teste", "AR-99 Teste");
    assert_eq!(rifle.api_file(), "ar-99-teste.0123abcd.webp");
    assert_eq!(rifle.icon_file(), "primary-ar-99-teste.0123abcd.webp");
}
