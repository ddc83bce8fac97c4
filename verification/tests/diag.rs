use macro_hd2::data::{support_strats, Dir, GameData, Stratagem};
use macro_hd2::diag::{
    file_name, game_of, held_keys, machine_id, known_software, plan, redact, running_software, stratagem_name, tail_start,
    SettingsSummary, WindowInfo, RUNS,
};
use macro_hd2::game_config::Video;
use macro_hd2::settings::{Language, Settings};
use std::collections::HashSet;

#[test]
fn the_known_list_is_lowercase_and_unique() {
    let mut seen = HashSet::new();
    for name in known_software() {
        assert_eq!(name, name.to_lowercase(), "{name}");
        assert!(name.ends_with(".exe"), "{name}");
        assert!(seen.insert(name), "repeated: {name}");
    }
}

#[test]
fn the_windows_user_does_not_leave_the_pc() {
    let log = "config em C:\\Users\\Fulano\\AppData\\Roaming\\Macro Helldivers 2\nFulano ok";
    let clean = redact(log, Some("C:\\Users\\Fulano"), Some("Fulano"));
    assert!(!clean.contains("Fulano"), "{clean}");
    assert!(clean.starts_with("config em %USERPROFILE%\\AppData"));
    assert_eq!(redact("Jogo ok", None, Some("ok")), "Jogo ok");
}

#[test]
fn the_file_name_carries_the_date() {
    let name = file_name(Language::Pt, "2026-09-17");
    assert!(name.starts_with("relatorio-debug-20"), "{name}");
    assert!(name.ends_with(".json"));
    assert!(file_name(Language::En, "2026-09-17").starts_with("debug-report-"));
    assert_eq!(name, "relatorio-debug-2026-09-17.json");
}

#[test]
fn the_plan_alternates_a_plain_codex_and_one_with_a_repeat() {
    let plan = plan();
    assert_eq!(plan.len(), RUNS);
    assert!(plan[1].windows(2).any(|pair| pair[0] == pair[1]), "the up-up of the Rearm");
    assert!(plan[0].windows(2).all(|pair| pair[0] != pair[1]));
    assert_eq!(plan[0], support_strats()[0].codex);
}

#[test]
fn the_game_process_is_recognized_ignoring_case() {
    let window = |exe: Option<&str>| WindowInfo { class: "other", exe: exe.map(str::to_string), title: None };
    assert!(window(Some("HellDivers2.EXE")).is_game_process());
    assert!(!window(Some("discord.exe")).is_game_process());
    assert!(!window(None).is_game_process());
}

#[test]
fn held_keys_follow_the_watch_list() {
    let mut pressed = [false; 12];
    pressed[0] = true;
    pressed[9] = true;
    assert_eq!(held_keys(&pressed), vec!["W", "CTRL"]);
    assert!(held_keys(&[false; 12]).is_empty());
}

#[test]
fn only_known_programs_that_run_are_reported() {
    let known = known_software();
    let processes = Some(vec!["Discord.exe".to_string(), "explorer.exe".to_string(), "RTSS.exe".to_string()]);
    assert_eq!(running_software(&known, &processes), vec!["rtss.exe", "discord.exe"]);
    assert!(running_software(&known, &None).is_empty());

    let game = game_of(Some(Video::default()), &Some(vec!["helldivers2.exe".to_string()]));
    assert!(game.config_found);
    assert_eq!(game.running, Some(true));
    assert_eq!(game_of(None, &None).running, None);
}

#[test]
fn the_settings_summary_names_the_slots() {
    let data = GameData::from_list(vec![Stratagem {
        id: 3,
        slug: String::new(),
        nome: "Eagle Airstrike".into(),
        imagem: String::new(),
        tag: vec!["Offensive".into()],
        codex: vec![Dir::Up, Dir::Right, Dir::Down, Dir::Right],
        kind_hint: None,
    }]);
    let settings = Settings::default();
    let summary = SettingsSummary::of(&settings, &[Some(3), Some(99), None, None], &data);
    assert_eq!(summary.slots, vec![Some("Eagle Airstrike".to_string()), None, None, None]);
    assert_eq!(summary.modifier, settings.modifier_key);
}

#[test]
fn a_record_names_the_slot_stratagem_or_the_fixed_support() {
    let data = GameData::from_list(vec![Stratagem {
        id: 3,
        slug: String::new(),
        nome: "Eagle Airstrike".into(),
        imagem: String::new(),
        tag: vec!["Offensive".into()],
        codex: vec![Dir::Up, Dir::Right, Dir::Down, Dir::Right],
        kind_hint: None,
    }]);
    let slots = [None, Some(3), Some(99), None];
    assert_eq!(stratagem_name(&slots, &data, 1, false), Some("Eagle Airstrike".to_string()));
    assert_eq!(stratagem_name(&slots, &data, 0, false), None);
    assert_eq!(stratagem_name(&slots, &data, 2, false), None);
    assert_eq!(stratagem_name(&slots, &data, 7, false), None);
    assert_eq!(stratagem_name(&slots, &data, 1, true), Some("Resupply".to_string()));
    assert_eq!(stratagem_name(&slots, &data, 3, true), None);
}

#[test]
fn the_tail_of_a_log_starts_at_a_line_boundary() {
    let text = b"primeira linha\nsegunda\nterceira\n";
    assert_eq!(tail_start(text, 1_000), 0);
    // Cut in the middle of "segunda": the incomplete line goes out whole.
    let start = tail_start(text, 12);
    assert_eq!(&text[start..], b"terceira\n");
    // A cut right at the start of a line still drops up to the next break.
    assert_eq!(tail_start(text, 9), text.len());
    assert_eq!(tail_start(b"", 100), 0);
    // No break after the cut: the bytes as they are.
    assert_eq!(tail_start(b"abcdef", 3), 3);
}

#[test]
fn the_machine_id_is_kept_or_drawn_as_twelve_hex_digits() {
    assert_eq!(machine_id(Some("  0a1B2c3D4e5F\n")), ("0a1B2c3D4e5F".to_string(), false));
    for stored in [None, Some(""), Some("0a1b2c3d4e5"), Some("0a1b2c3d4e5g"), Some("0a1b2c3d4e5f0")] {
        let (id, fresh) = machine_id(stored);
        assert!(fresh, "{stored:?}");
        assert_eq!(id.len(), 12);
        assert!(id.chars().all(|c| c.is_ascii_digit() || ('a'..='f').contains(&c)), "{id}");
    }
}
