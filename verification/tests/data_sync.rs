use macro_hd2::data::{Dir, Equipment, GameData, StratKind, StratMeta, Stratagem, StratagemInfo};
use macro_hd2::data_sync::{
    cached_list, from_api, group_of, loadout_list, merge, not_bundled, stable_id, stale_icons, update_codexes, ApiImage,
    ApiStratagem, RemoteStratagem, MAX_CODEX, MAX_CODEX_CHANGES, MIN_LOADOUT,
};

use macro_hd2::data::Dir::{Down, Left, Right, Up};

fn bundled_entry(id: u32, slug: &str, tag: &str, codex: Vec<Dir>) -> Stratagem {
    Stratagem {
        id,
        slug: slug.into(),
        nome: slug.to_uppercase(),
        imagem: format!("stratagems/{slug}.webp"),
        tag: vec![tag.into()],
        codex,
        kind_hint: None,
    }
}

fn bundled() -> Vec<Stratagem> {
    vec![
        bundled_entry(0, "orbital-precision-strike", "Offensive", vec![Right, Right, Up]),
        bundled_entry(1, "orbital-laser", "Offensive", vec![Right, Down, Up, Right, Down]),
        bundled_entry(2, "orbital-railcannon-strike", "Offensive", vec![Right, Up, Down, Down, Right]),
        bundled_entry(3, "eagle-500kg-bomb", "Offensive", vec![Up, Right, Down, Down, Down]),
        bundled_entry(4, "eat-17-expendable-anti-tank", "Supply", vec![Down, Down, Left, Up, Right]),
        bundled_entry(5, "ac-8-autocannon", "Supply", vec![Down, Left, Down, Up, Up, Right]),
        bundled_entry(6, "a-mg-43-machine-gun-sentry", "Defensive", vec![Down, Up, Right, Right, Up]),
    ]
}

fn remote(slug: &str, permit: &str, kind: &str, traits: &[&str], codex: Vec<Dir>) -> RemoteStratagem {
    RemoteStratagem {
        slug: slug.to_string(),
        nome: slug.to_string(),
        permit: permit.to_string(),
        kind: kind.to_string(),
        traits: traits.iter().map(|t| t.to_string()).collect(),
        codex,
        image: format!("/images/v1/stratagems/{slug}.0123abcd.webp"),
    }
}

fn snapshot() -> Vec<RemoteStratagem> {
    bundled()
        .into_iter()
        .map(|s| {
            let kind = if s.slug.starts_with("orbital") {
                "orbital"
            } else if s.slug.starts_with("eagle") {
                "eagle"
            } else if s.slug.contains("sentry") {
                "sentry"
            } else {
                "support_weapon"
            };
            let traits: &[&str] = if s.slug.starts_with("eat") { &["expendable"] } else { &[] };
            remote(&s.slug, &s.tag[0], kind, traits, s.codex.clone())
        })
        .collect()
}

fn codex_of(list: &[Stratagem], slug: &str) -> Vec<Dir> {
    list.iter().find(|s| s.slug == slug).unwrap().codex.clone()
}

fn position(list: &[Stratagem], slug: &str) -> usize {
    list.iter().position(|s| s.slug == slug).unwrap()
}

fn set_codex(api: &mut [RemoteStratagem], slug: &str, codex: &[Dir]) {
    api.iter_mut().find(|r| r.slug == slug).unwrap().codex = codex.to_vec();
}

#[test]
fn stable_id_matches_the_sync_script() {
    assert_eq!(stable_id("orbital-precision-strike"), 0xd41c_e89c);
    assert_eq!(stable_id("40-k-meltagun"), 0xbaa3_c645);
    assert_eq!(stable_id(""), 0x811c_9dc5);
}

#[test]
fn nothing_changes_when_the_api_has_nothing_new() {
    assert_eq!(merge(bundled(), &snapshot()), bundled());
}

#[test]
fn a_codex_changed_in_a_patch_follows_the_api() {
    let mut api = snapshot();
    let new = vec![Left, Left, Left, Right, Up, Down];
    set_codex(&mut api, "orbital-laser", &new);
    let merged = merge(bundled(), &api);
    let mut expected = bundled();
    expected[1].codex = new;
    assert_eq!(merged, expected);
}

#[test]
fn a_codex_that_clashes_with_another_is_refused() {
    let old = codex_of(&bundled(), "orbital-laser");
    let precision = codex_of(&bundled(), "orbital-precision-strike");
    let mut api = snapshot();
    set_codex(&mut api, "orbital-laser", &precision);
    assert_eq!(codex_of(&merge(bundled(), &api), "orbital-laser"), old);

    set_codex(&mut api, "orbital-laser", &precision[..2]);
    assert_eq!(codex_of(&merge(bundled(), &api), "orbital-laser"), old);

    set_codex(&mut api, "orbital-laser", &[Down, Down, Up, Right, Left]);
    assert_eq!(codex_of(&merge(bundled(), &api), "orbital-laser"), old);
}

#[test]
fn two_stratagems_swapping_codexes_both_update() {
    let laser = codex_of(&bundled(), "orbital-laser");
    let railcannon = codex_of(&bundled(), "orbital-railcannon-strike");
    let mut api = snapshot();
    set_codex(&mut api, "orbital-laser", &railcannon);
    set_codex(&mut api, "orbital-railcannon-strike", &laser);
    let merged = merge(bundled(), &api);
    assert_eq!(codex_of(&merged, "orbital-laser"), railcannon);
    assert_eq!(codex_of(&merged, "orbital-railcannon-strike"), laser);
}

#[test]
fn too_many_codex_changes_at_once_are_all_refused() {
    let fresh = [
        vec![Left, Left, Left, Left, Left, Left, Up],
        vec![Left, Left, Left, Left, Left, Left, Down],
        vec![Left, Left, Left, Left, Left, Right, Up],
        vec![Left, Left, Left, Left, Left, Right, Down],
        vec![Left, Left, Left, Left, Right, Up, Up],
        vec![Left, Left, Left, Left, Right, Up, Down],
    ];
    let mut api = snapshot();
    for (item, codex) in api.iter_mut().zip(fresh.iter()).take(MAX_CODEX_CHANGES + 1) {
        item.codex = codex.clone();
    }
    assert_eq!(merge(bundled(), &api), bundled());

    let mut api = snapshot();
    for (item, codex) in api.iter_mut().zip(fresh.iter()).take(MAX_CODEX_CHANGES) {
        item.codex = codex.clone();
    }
    assert_ne!(merge(bundled(), &api), bundled());
}

#[test]
fn update_codexes_leaves_everything_else_alone() {
    let mut list = bundled();
    let mut api = snapshot();
    set_codex(&mut api, "eagle-500kg-bomb", &[Up, Left, Left, Down]);
    update_codexes(&mut list, &api);
    assert_eq!(codex_of(&list, "eagle-500kg-bomb"), vec![Up, Left, Left, Down]);
    assert_eq!(list[3].nome, bundled()[3].nome);
    assert_eq!(list.len(), bundled().len());
}

#[test]
fn a_new_stratagem_with_a_clashing_codex_is_skipped() {
    let mut api = snapshot();
    api.push(remote("orbital-copia", "Offensive", "orbital", &["orbital"], codex_of(&bundled(), "orbital-laser")));
    assert_eq!(merge(bundled(), &api), bundled());
}

#[test]
fn a_new_stratagem_lands_at_the_end_of_its_subgroup() {
    let mut api = snapshot();
    api.push(remote("eat-99-novo", "Supply", "support_weapon", &["anti-tank", "expendable"], vec![Left, Left, Up, Up, Down]));
    api.push(remote("orbital-novo", "Offensive", "orbital", &["orbital"], vec![Left, Right, Left, Right, Up]));
    api.push(remote("coisa-nova", "Defensive", "artillery", &[], vec![Left, Up, Left, Up, Down, Down]));
    let merged = merge(bundled(), &api);
    assert_eq!(merged.len(), bundled().len() + 3);

    let at = position(&merged, "eat-99-novo");
    assert_eq!(merged[at - 1].slug, "eat-17-expendable-anti-tank");
    assert_eq!(merged[at + 1].slug, "ac-8-autocannon");
    let at = position(&merged, "orbital-novo");
    assert_eq!(merged[at + 1].slug, "eagle-500kg-bomb");
    let at = position(&merged, "coisa-nova");
    assert_eq!(merged[at - 1].slug, "a-mg-43-machine-gun-sentry");
}

#[test]
fn a_new_stratagem_gets_tags_icon_and_kind() {
    let mut api = snapshot();
    api.push(remote("exo-99-novo-exosuit", "Supply", "vehicle", &["vehicle"], vec![Left, Down, Left, Up, Left, Down, Down]));
    api.push(remote("m-999-frv", "Supply", "vehicle", &["vehicle"], vec![Left, Down, Left, Up, Left, Down, Up]));
    api.push(remote("gr-99-mochila", "Supply", "support_weapon", &["backpack"], vec![Down, Left, Left, Left, Up]));
    let merged = merge(bundled(), &api);

    let exo = &merged[position(&merged, "exo-99-novo-exosuit")];
    assert_eq!(exo.id, stable_id("exo-99-novo-exosuit"));
    assert_eq!(exo.tag, ["Supply", "Mecha"]);
    assert_eq!(exo.imagem, "remote/exo-99-novo-exosuit.0123abcd.webp");

    let frv = &merged[position(&merged, "m-999-frv")];
    assert_eq!(frv.tag, ["Supply", "Vehicle"]);

    let weapon = &merged[position(&merged, "gr-99-mochila")];
    let kind = weapon.kind_hint.unwrap();
    assert!(kind.support && kind.backpack && !kind.sentry);
    assert_ne!(kind, StratKind::none());
}

#[test]
fn subgroups_follow_the_game_grouping() {
    assert_eq!(group_of(&remote("x", "Supply", "support_weapon", &["melee"], vec![Up])), "Supply/melee");
    assert_eq!(group_of(&remote("x", "Supply", "support_weapon", &["backpack"], vec![Up])), "Supply/backpack_weapon");
    assert_eq!(group_of(&remote("exo-1-exosuit", "Supply", "vehicle", &[], vec![Up])), "Supply/exosuit");
    assert_eq!(group_of(&remote("md-6-anti-personnel-minefield", "Defensive", "emplacement", &[], vec![Up])), "Defensive/mines");
    assert_eq!(group_of(&remote("a-g16-gatling-sentry", "Defensive", "emplacement", &[], vec![Up])), "Defensive/emplacement");
    assert_eq!(group_of(&remote("md-i4-incendiary-mines", "Defensive", "emplacement", &[], vec![Up])), "Defensive/mines");
    assert_eq!(group_of(&remote("x", "Offensive", "orbital", &[], vec![Up])), "Offensive/orbital");
}

fn api_item() -> ApiStratagem {
    ApiStratagem {
        id: "orbital-teste".into(),
        name: Some("Orbital Teste".into()),
        permit_type: Some("offensive".into()),
        availability: Some("loadout".into()),
        kind: Some("orbital".into()),
        trait_ids: Some(vec!["orbital".into()]),
        code: Some(vec!["right".into(), "up".into()]),
        image: Some(ApiImage { url: "/images/v1/stratagems/orbital-teste.abc123.webp".into() }),
    }
}

#[test]
fn data_sync_api_items_are_validated() {
    let item = |f: fn(&mut ApiStratagem)| {
        let mut base = api_item();
        f(&mut base);
        from_api(base)
    };
    let ok = item(|_| {}).expect("a valid item");
    assert_eq!(ok.permit, "Offensive");
    assert_eq!(ok.codex, vec![Right, Up]);
    assert!(item(|i| i.availability = Some("mission".into())).is_none());
    assert!(item(|i| i.permit_type = Some("mission".into())).is_none());
    assert!(item(|i| i.code = Some(vec![])).is_none());
    assert!(item(|i| i.code = Some(vec!["up".into(), "jump".into()])).is_none());
    assert!(item(|i| i.code = Some(vec!["up".into(); MAX_CODEX + 1])).is_none());
    assert!(item(|i| i.id = "../fora".into()).is_none());
    assert!(item(|i| i.id = "Maiuscula".into()).is_none());
    assert!(item(|i| i.name = Some(" ".into())).is_none());
    assert!(item(|i| i.kind = None).is_none());
    assert!(item(|i| i.image = Some(ApiImage { url: "/images/v1/stratagems/../../x.webp".into() })).is_none());
    assert!(item(|i| i.image = Some(ApiImage { url: "https://outro.site/x.webp".into() })).is_none());
    assert!(item(|i| i.image = Some(ApiImage { url: "/images/v1/stratagems/x.png".into() })).is_none());
}

#[test]
fn a_short_api_list_is_refused_whole() {
    assert!(loadout_list(vec![api_item()]).is_none());
    let many: Vec<ApiStratagem> = (0..MIN_LOADOUT)
        .map(|n| ApiStratagem { id: format!("orbital-teste-{n}"), ..api_item() })
        .collect();
    assert_eq!(loadout_list(many).map(|l| l.len()), Some(MIN_LOADOUT));
}

#[test]
fn a_cache_that_was_tampered_with_loses_only_the_bad_entries() {
    let list: Vec<RemoteStratagem> = (0..MIN_LOADOUT + 1)
        .map(|n| remote(&format!("orbital-{n}"), "Offensive", "orbital", &[], vec![Up, Down]))
        .collect();
    let mut tampered = list.clone();
    tampered[0].image = "/images/v1/stratagems/../../../evil.webp".into();
    assert_eq!(cached_list(tampered), list[1..].to_vec());
    assert!(cached_list(list[..10].to_vec()).is_empty());
}

#[test]
fn only_what_the_bundled_json_lacks_needs_an_icon() {
    let bundled = vec![bundled_entry(1, "eagle-airstrike", "Offensive", vec![Up, Right, Down, Right])];
    let list = vec![
        remote("eagle-airstrike", "Offensive", "eagle", &[], vec![Up, Right, Down, Right]),
        remote("brand-new", "Offensive", "orbital", &[], vec![Right, Right]),
    ];
    assert_eq!(not_bundled(&list, &bundled), vec![1]);
    assert!(not_bundled(&[], &bundled).is_empty());
}

#[test]
fn icons_nothing_uses_are_pruned() {
    let files = vec!["a.webp".to_string(), "b.webp".to_string(), "c.webp".to_string()];
    let keep = vec!["b.webp".to_string()];
    assert_eq!(stale_icons(&files, &keep), vec![0, 2]);
    assert!(stale_icons(&files, &files).is_empty());
}

#[test]
fn names_order_and_tags_stay_bundled() {
    let mut api = snapshot();
    for item in &mut api {
        item.nome = "outro nome".into();
        item.kind = "orbital".into();
    }
    assert_eq!(merge(bundled(), &api), bundled());
}

#[test]
fn a_refused_change_does_not_block_the_others() {
    let precision = codex_of(&bundled(), "orbital-precision-strike");
    let old_laser = codex_of(&bundled(), "orbital-laser");
    let new_railcannon = vec![Left, Up, Left, Down, Left, Up];
    let mut api = snapshot();
    set_codex(&mut api, "orbital-laser", &precision);
    set_codex(&mut api, "orbital-railcannon-strike", &new_railcannon);

    let merged = merge(bundled(), &api);
    assert_eq!(codex_of(&merged, "orbital-laser"), old_laser);
    assert_eq!(codex_of(&merged, "orbital-railcannon-strike"), new_railcannon);
}

#[test]
fn two_new_ones_in_the_same_subgroup_keep_the_api_order() {
    let mut api = snapshot();
    api.push(remote("eat-98-a", "Supply", "support_weapon", &["expendable"], vec![Left, Left, Down, Down, Up]));
    api.push(remote("eat-99-b", "Supply", "support_weapon", &["expendable"], vec![Left, Left, Down, Down, Right]));
    let merged = merge(bundled(), &api);
    let first = position(&merged, "eat-98-a");
    assert_eq!(merged[first - 1].slug, "eat-17-expendable-anti-tank");
    assert_eq!(merged[first + 1].slug, "eat-99-b");
    assert_eq!(merged[first + 2].slug, "ac-8-autocannon");
}

#[test]
fn an_unknown_subgroup_goes_to_the_end_of_its_color() {
    let mut api = snapshot();
    api.push(remote("coisa-nova", "Offensive", "artillery", &[], vec![Left, Right, Left, Left, Down]));
    let merged = merge(bundled(), &api);
    let at = position(&merged, "coisa-nova");
    assert_eq!(merged[at - 1].slug, "eagle-500kg-bomb");
    assert_eq!(merged[at + 1].primary_tag(), Some("Supply"));
}

#[test]
fn build_rules_classify_a_new_stratagem_by_its_api_kind() {
    let mut api = snapshot();
    api.push(remote("gr-99-mochila", "Supply", "support_weapon", &["backpack"], vec![Down, Left, Left, Left, Up]));
    let data = GameData::from_list(merge(bundled(), &api));
    let equipment = Equipment {
        primary: vec![],
        secondary: vec![],
        grenade: vec![],
        armor: vec![],
        helmet: vec![],
        cape: vec![],
        booster: vec![],
        passives: vec![],
        warbond: vec![],
        stratagem_info: vec![StratagemInfo {
            nome: "AC-8-AUTOCANNON".into(),
            tipo: Some("Support Weapon".into()),
            backpack: true,
        }],
    };
    let meta = StratMeta::build(&data, &equipment);

    let id = stable_id("gr-99-mochila");
    assert!(meta.is_support(id) && meta.is_backpack(id));
    // The ones the stratagem info knows still come from it.
    let autocannon = data.all().iter().find(|s| s.slug == "ac-8-autocannon").unwrap();
    assert!(meta.is_support(autocannon.id) && meta.is_backpack(autocannon.id));
}

#[test]
fn the_merged_list_still_indexes_by_id() {
    let mut api = snapshot();
    api.push(remote("orbital-novo", "Offensive", "orbital", &["orbital"], vec![Left, Right, Left, Right, Up]));
    let data = GameData::from_list(merge(bundled(), &api));
    let id = stable_id("orbital-novo");
    assert_eq!(data.by_id(id).map(|s| s.slug.as_str()), Some("orbital-novo"));
    assert_eq!(data.by_id(0).map(|s| s.slug.as_str()), Some("orbital-precision-strike"));
}

#[test]
fn the_sync_runs_once_per_session_and_never_with_the_game_in_front() {
    let mut synced = false;
    assert!(!macro_hd2::data_sync::auto_sync(true, &mut synced));
    assert!(!synced, "a focused call does not use up the turn");
    assert!(macro_hd2::data_sync::auto_sync(false, &mut synced));
    assert!(synced);
    assert!(!macro_hd2::data_sync::auto_sync(false, &mut synced));
    assert!(!macro_hd2::data_sync::auto_sync(true, &mut synced));
}
