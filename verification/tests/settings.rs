use macro_hd2::settings::{fixed_shortcuts, Language, Settings, Speed, SLOT_COUNT, SUPPORT_COUNT};

#[test]
fn the_defaults_are_those_of_the_first_version() {
    let s = Settings::default();
    assert_eq!(s.shortcut(0), Some("F1"));
    assert_eq!(s.shortcut(1), Some("F2"));
    assert_eq!(s.support_shortcuts, [None, None, None]);
    assert_eq!(s.modifier_key, "LeftControl");
    assert_eq!(s.macro_speed, Speed::Normal);
    assert_eq!(s.language, Language::Pt);
    assert!(s.enable_overlay);
    assert!(!s.always_show_slots);
    assert!(s.build_match_set && !s.build_balanced && !s.build_max_one_sentry);
}

#[test]
fn unknown_stored_names_fall_back_to_the_defaults() {
    assert_eq!(Speed::from_str_or_default("ludicrous"), Speed::Normal);
    assert_eq!(Language::from_str_or_default("tlh"), Language::Pt);
    for speed in Speed::all() {
        assert_eq!(Speed::from_str_or_default(speed.as_str()), speed);
    }
    for language in Language::all() {
        assert_eq!(Language::from_str_or_default(language.as_str()), language);
    }
}

#[test]
fn stored_shortcut_lists_are_cut_or_padded_to_their_length() {
    let short = fixed_shortcuts(vec![Some("F9".to_string())], SLOT_COUNT);
    assert_eq!(short, vec![Some("F9".to_string()), None, None, None]);
    let long: Vec<Option<String>> = (1..=6).map(|n| Some(format!("F{n}"))).collect();
    let cut = fixed_shortcuts(long, SLOT_COUNT);
    assert_eq!(cut.len(), SLOT_COUNT);
    assert_eq!(cut[3], Some("F4".to_string()));
    assert_eq!(fixed_shortcuts(vec![], SUPPORT_COUNT), vec![None, None, None]);
}

#[test]
fn an_index_past_the_slots_has_no_shortcut() {
    let s = Settings::default();
    assert_eq!(s.shortcut(SLOT_COUNT), None);
    assert_eq!(s.support_shortcut(0), None);
    assert_eq!(s.support_shortcut(SUPPORT_COUNT + 1), None);
}
