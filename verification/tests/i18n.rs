use macro_hd2::data::EquipSlot;
use macro_hd2::diag::RunOutcome;
use macro_hd2::i18n::{language_name, tr};
use macro_hd2::meta_stats::Faction;
use macro_hd2::settings::{Language, Speed};

#[test]
fn both_languages_resolve() {
    assert_eq!(tr(Language::Pt).tabs.settings, "Configurações");
    assert_eq!(tr(Language::En).tabs.settings, "Settings");
    assert_eq!(language_name(Language::Pt), "Português");
    assert_eq!(language_name(Language::En), "English");
}

#[test]
fn speed_labels_cover_every_profile() {
    for language in Language::all() {
        let text = &tr(language).settings;
        for speed in Speed::all() {
            assert!(!text.speed(speed).is_empty(), "{language:?} {speed:?}");
            assert_ne!(text.speed_name(speed), text.speed(speed), "{language:?} {speed:?}");
        }
    }
}

#[test]
fn the_fps_cap_hint_carries_the_numbers() {
    let (title, body) = tr(Language::Pt).settings.fps_cap_hint(30, Speed::Normal);
    assert_eq!(title, "Jogo limitado a 30 fps");
    assert!(body.ends_with("Use \"Padrão\"."), "{body}");
    let (title, body) = tr(Language::En).settings.fps_cap_hint(45, Speed::Normal);
    assert_eq!(title, "Game capped at 45 fps");
    assert!(body.ends_with("Use \"Normal\"."), "{body}");
    assert_eq!(tr(Language::En).settings.speed_name(Speed::Fast), "Fast");
}

#[test]
fn equipment_and_weight_labels_cover_every_value() {
    for language in Language::all() {
        let text = &tr(language).build;
        for slot in EquipSlot::all() {
            assert!(!text.equip_label(slot).is_empty(), "{language:?} {slot:?}");
        }
        for faction in Faction::all() {
            assert!(!text.faction(faction).is_empty());
        }
    }
    let pt = &tr(Language::Pt).build;
    assert_eq!(pt.weight("Light"), "Leve");
    assert_eq!(pt.weight("Heavy"), "Pesada");
    assert_eq!(pt.weight("Medium"), "Média");
    assert_eq!(pt.weight("Exosuit"), "Média");
}

#[test]
fn tag_labels_fall_back_to_others() {
    let text = &tr(Language::Pt).settings;
    let others = tr(Language::Pt).macros.others;
    assert_eq!(text.tag("Offensive", others), "Ofensivo");
    assert_eq!(text.tag("Supply", others), "Suprimento");
    assert_eq!(text.tag("Defensive", others), "Defensivo");
    assert_eq!(text.tag("Mecha", others), "Outros");
}

#[test]
fn wrapped_sentences_match_the_legacy_text() {
    assert_eq!(
        tr(Language::Pt).build.hint,
        "Clique em Gerar Build para sortear um loadout completo: 4 estratagemas, armas, armadura, capacete, capa e booster. Use o cadeado para manter um item nos próximos sorteios."
    );
    assert_eq!(
        tr(Language::En).build.balanced_on,
        "Guarantees 1 support weapon and 1 backpack item, no doubles (support with backpack counts as both)"
    );
    assert_eq!(
        tr(Language::Pt).overlay.fullscreen_warning,
        "O jogo está em \"Tela Cheia\": nesse modo o Windows minimiza o jogo quando o overlay aparece. Mude o vídeo do jogo para \"Tela Cheia sem Borda\" (mesmo visual e desempenho)."
    );
    assert_eq!(
        tr(Language::En).settings.macro_speed_desc,
        "The game reads the keyboard once per frame, so each profile holds the key for at least one frame at the listed FPS. If the game drops inputs, pick a lower-FPS profile. Game capped at 30 fps, or dipping below that in combat: Low FPS. Below 30 all the time: Potato"
    );
}

#[test]
fn no_string_is_empty() {
    for language in Language::all() {
        let t = tr(language);
        let strings = [
            t.tabs.macro_tab,
            t.tabs.build,
            t.tabs.settings,
            t.macros.select_title,
            t.macros.others,
            t.macros.listening,
            t.macros.bind,
            t.macros.clear_slot,
            t.macros.search_placeholder,
            t.macros.search_no_results,
            t.build.hint,
            t.build.custom_hint,
            t.build.saved_hint,
            t.build.sub_saved,
            t.build.reroll,
            t.build.current,
            t.build.status_new,
            t.build.status_replace,
            t.build.status_taken,
            t.build.status_empty,
            t.build.save_changes,
            t.build.save_as_new,
            t.build.confirm_delete,
            t.build.notice_applied_current,
            t.build.equip_none,
            t.build.meta_credit,
            t.settings.keybinding,
            t.settings.macro_speed_desc,
            t.settings.fps_cap_title,
            t.settings.fps_cap_hint,
            t.settings.backup_desc,
            t.settings.overlay_shortcut,
            t.settings.persistent_hud_off,
            t.settings.theme,
            t.settings.theme_system,
            t.settings.theme_dark,
            t.settings.theme_light,
            t.settings.toast_done,
            t.settings.toast_error,
            t.macros.empty,
            t.macros.nothing_here,
            t.overlay.warning_title,
            t.overlay.fullscreen_warning,
            t.update.title,
            t.update.body,
            t.update.restart_now,
            t.update.later,
            t.tray.open,
            t.tray.exit,
        ];
        assert!(strings.iter().all(|s| !s.trim().is_empty()), "{language:?}");

        let d = &t.debug;
        let debug = [
            d.title, d.desc, d.mode, d.mode_on, d.mode_on_no_overlay, d.mode_off, d.typing, d.export,
            d.folder, d.exported, d.export_error, d.stat_calls, d.stat_rejected, d.stat_hold,
            d.stat_gap, d.stat_held, d.stat_ignored, d.stat_hook, d.stat_window, d.stat_last,
            d.calls_value, d.spread_value, d.hook_value, d.hook_idle, d.completed, d.aborted,
            d.blocked, d.unfocused, d.typing_idle, d.typing_running, d.typing_passed, d.typing_failed,
            d.typing_interrupted, d.typing_blocked, d.typing_holds, d.hud_waiting, d.hud_min_hold,
        ];
        assert!(debug.iter().all(|s| !s.trim().is_empty()), "{language:?}");
    }
}

#[test]
fn debug_templates_are_filled_without_leftover_keys() {
    for language in Language::all() {
        let d = &tr(language).debug;
        let running = d.typing_running(3, 10);
        assert!(!running.contains('{'), "{language:?}: {running}");
        assert!(running.contains("3/10"));
        assert_eq!(d.outcome(RunOutcome::Completed), d.completed);
        assert_eq!(d.outcome(RunOutcome::Unfocused), d.unfocused);
    }
}
