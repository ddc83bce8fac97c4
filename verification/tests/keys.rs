use macro_hd2::data::Dir;
use macro_hd2::keys::{
    arrows, direction_scan, is_modifier_vk, keys, modifier_keys, modifier_scan, name_from_vk,
    vk_from_name, wasd, Scan, VK_ESCAPE,
};
use std::collections::HashSet;

#[test]
fn names_and_vks_are_unique() {
    let table = keys();
    let names: HashSet<_> = table.iter().map(|(name, _)| *name).collect();
    let vks: HashSet<_> = table.iter().map(|(_, vk)| *vk).collect();
    assert_eq!(names.len(), table.len());
    assert_eq!(vks.len(), table.len());
}

#[test]
fn every_name_round_trips_through_its_vk() {
    for (name, vk) in keys() {
        assert_eq!(vk_from_name(name), Some(vk));
        assert_eq!(name_from_vk(vk), Some(name));
    }
}

#[test]
fn v1_default_shortcuts_resolve() {
    for name in ["F1", "F2", "F3", "F4"] {
        assert!(vk_from_name(name).is_some(), "{name}");
    }
    assert_eq!(vk_from_name("LeftControl"), Some(0xA2));
    assert_eq!(vk_from_name("Nope"), None);
}

#[test]
fn pure_modifiers_are_not_bindable_shortcuts() {
    assert!(is_modifier_vk(vk_from_name("LeftControl").unwrap()));
    assert!(is_modifier_vk(vk_from_name("LeftShift").unwrap()));
    assert!(is_modifier_vk(vk_from_name("LeftAlt").unwrap()));
    assert!(!is_modifier_vk(vk_from_name("F1").unwrap()));
    assert!(!is_modifier_vk(VK_ESCAPE));
}

#[test]
fn modifier_scancodes_match_the_reference_table() {
    assert_eq!(modifier_scan("LeftControl"), Scan::plain(0x1D));
    assert_eq!(modifier_scan("LeftAlt"), Scan::plain(0x38));
    assert_eq!(modifier_scan("Equal"), Scan::plain(0x0D));
    assert_eq!(modifier_scan("Minus"), Scan::plain(0x0C));
    assert_eq!(modifier_scan("Bogus"), modifier_scan("LeftControl"));
    for name in modifier_keys() {
        assert!(vk_from_name(name).is_some(), "{name}");
    }
}

#[test]
fn direction_scancodes_match_the_reference_table() {
    assert_eq!(direction_scan(Dir::Up, false), Scan::plain(0x11));
    assert_eq!(direction_scan(Dir::Left, false), Scan::plain(0x1E));
    assert_eq!(direction_scan(Dir::Down, false), Scan::plain(0x1F));
    assert_eq!(direction_scan(Dir::Right, false), Scan::plain(0x20));

    assert_eq!(direction_scan(Dir::Up, true), Scan::ext(0x48));
    assert_eq!(direction_scan(Dir::Down, true), Scan::ext(0x50));
    assert_eq!(direction_scan(Dir::Left, true), Scan::ext(0x4B));
    assert_eq!(direction_scan(Dir::Right, true), Scan::ext(0x4D));

    assert!(arrows().iter().all(|s| s.extended));
    assert!(wasd().iter().all(|s| !s.extended));
}
