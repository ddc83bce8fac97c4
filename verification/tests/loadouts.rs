use macro_hd2::data::{Dir, GameData, Stratagem};
use macro_hd2::loadouts::sanitize;
use macro_hd2::settings::SLOT_COUNT;

fn strat(id: u32, nome: &str, tags: &[&str]) -> Stratagem {
    Stratagem {
        id,
        slug: String::new(),
        nome: nome.to_string(),
        imagem: String::new(),
        tag: tags.iter().map(|t| t.to_string()).collect(),
        codex: vec![Dir::Up, Dir::Down],
        kind_hint: None,
    }
}

fn data() -> GameData {
    GameData::from_list(vec![
        strat(0, "Orbital Precision Strike", &["Offensive"]),
        strat(1, "Eagle Airstrike", &["Offensive"]),
        strat(2, "Machine Gun", &["Supply"]),
        strat(3, "Stalwart", &["Supply"]),
        strat(4, "Patriot Exosuit", &["Supply", "Mecha"]),
        strat(5, "Emancipator Exosuit", &["Supply", "Mecha"]),
    ])
}

#[test]
fn ids_are_resolved_against_the_current_data() {
    let data = data();
    let known = data.all()[3].id;
    let slots = sanitize(&[Some(known), Some(9_999), None, Some(known)], &data);

    assert_eq!(slots[0], Some(known));
    assert_eq!(slots[1], None, "an id that left the game becomes an empty slot");
    assert_eq!(slots[2], None);
    assert_eq!(slots[3], Some(known));
}

#[test]
fn a_short_or_long_list_is_normalized_to_four_slots() {
    let data = data();
    let id = data.all()[0].id;

    let short = sanitize(&[Some(id)], &data);
    assert_eq!(short, [Some(id), None, None, None]);

    let long = sanitize(&[None, None, None, None, Some(id)], &data);
    assert_eq!(long, [None; SLOT_COUNT], "the fifth slot is dropped");
}

#[test]
fn an_inherited_exclusivity_conflict_is_dropped_on_load() {
    let data = data();
    let mechas: Vec<u32> = data.all().iter().filter(|strat| strat.has_tag("Mecha")).map(|strat| strat.id).collect();
    assert!(mechas.len() >= 2);

    let slots = sanitize(&[Some(mechas[0]), Some(mechas[1]), None, None], &data);
    assert_eq!(slots[0], Some(mechas[0]), "the first stays");
    assert_eq!(slots[1], None, "the second exosuit drops");
}
