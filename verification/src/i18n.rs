//! The texts of the interface, in Portuguese and English, and the few that
//! are assembled from a template.

use vstd::prelude::*;
use crate::data::EquipSlot;
use crate::diag::{RunOutcome, Spread, Stats, Summary};
use crate::meta_stats::Faction;
use crate::settings::{Language, Speed};
use crate::text;

verus! {

/// Every text of the interface in one language.
pub struct Tr {
    pub tabs: Tabs,
    pub macros: Macros,
    pub build: Build,
    pub settings: SettingsText,
    pub overlay: Overlay,
    pub update: Update,
    pub tray: Tray,
    pub debug: DebugText,
}

/// Titles of the tabs of the main window.
pub struct Tabs {
    pub macro_tab: &'static str,
    pub build: &'static str,
    pub settings: &'static str,
}

/// The macro tab: slots, grid and search.
pub struct Macros {
    pub select_title: &'static str,
    pub others: &'static str,
    pub listening: &'static str,
    pub bind: &'static str,
    pub clear_slot: &'static str,
    pub search_placeholder: &'static str,
    pub search_no_results: &'static str,
    pub empty: &'static str,
    pub nothing_here: &'static str,
}

/// The build tab: generator, meta statistics, custom grid and saved builds.
pub struct Build {
    pub sub_meta: &'static str,
    pub sub_random: &'static str,
    pub sub_custom: &'static str,
    pub sub_saved: &'static str,
    pub saved: &'static str,
    pub saved_empty: &'static str,
    pub saved_hint: &'static str,
    pub saved_no_gear: &'static str,
    pub save_placeholder: &'static str,
    pub save_build: &'static str,
    pub save_changes: &'static str,
    pub save_as_new: &'static str,
    pub replace_build: &'static str,
    pub discard: &'static str,
    pub apply_build: &'static str,
    pub edit_build: &'static str,
    pub delete_build: &'static str,
    pub confirm_delete: &'static str,
    pub in_slots: &'static str,
    pub current: &'static str,
    pub status_new: &'static str,
    pub status_saved: &'static str,
    pub status_editing: &'static str,
    pub status_unsaved: &'static str,
    pub status_replace: &'static str,
    pub status_taken: &'static str,
    pub status_empty: &'static str,
    pub notice_saved: &'static str,
    pub notice_updated: &'static str,
    pub notice_applied: &'static str,
    pub notice_deleted: &'static str,
    pub notice_applied_current: &'static str,
    pub generate: &'static str,
    pub reroll: &'static str,
    pub apply_stratagems: &'static str,
    pub hint: &'static str,
    pub stratagems: &'static str,
    pub stratagem: &'static str,
    pub equipment: &'static str,
    pub primary: &'static str,
    pub secondary: &'static str,
    pub grenade: &'static str,
    pub armor: &'static str,
    pub helmet: &'static str,
    pub cape: &'static str,
    pub booster: &'static str,
    pub lock: &'static str,
    pub unlock: &'static str,
    pub weight_light: &'static str,
    pub weight_medium: &'static str,
    pub weight_heavy: &'static str,
    pub meta: &'static str,
    pub meta_generate: &'static str,
    pub faction_terminid: &'static str,
    pub faction_automaton: &'static str,
    pub faction_illuminate: &'static str,
    pub meta_difficulty_all: &'static str,
    pub meta_top_strats: &'static str,
    pub meta_top_passives: &'static str,
    pub meta_loading: &'static str,
    pub meta_error: &'static str,
    pub meta_credit: &'static str,
    pub meta_games: &'static str,
    pub meta_new: &'static str,
    pub match_set: &'static str,
    pub match_set_on: &'static str,
    pub match_set_off: &'static str,
    pub balanced: &'static str,
    pub balanced_on: &'static str,
    pub balanced_off: &'static str,
    pub max_sentry: &'static str,
    pub max_sentry_on: &'static str,
    pub max_sentry_off: &'static str,
    pub set_badge: &'static str,
    pub custom_title: &'static str,
    pub custom_hint: &'static str,
    pub custom_import: &'static str,
    pub custom_clear: &'static str,
    pub custom_equipment: &'static str,
    pub equip_none: &'static str,
}

/// The settings tab.
pub struct SettingsText {
    pub keybinding: &'static str,
    pub controller: &'static str,
    pub support: &'static str,
    pub shortcut_label: &'static str,
    pub support_shortcut_label: &'static str,
    pub ingame_key: &'static str,
    pub game_active: &'static str,
    pub game_inactive: &'static str,
    pub macro_speed: &'static str,
    pub macro_speed_desc: &'static str,
    pub macro_speed_potato: &'static str,
    pub macro_speed_low: &'static str,
    pub macro_speed_normal: &'static str,
    pub macro_speed_fast: &'static str,
    pub macro_speed_turbo: &'static str,
    pub fps_cap_title: &'static str,
    pub fps_cap_hint: &'static str,
    pub arrow_mode: &'static str,
    pub arrow_active: &'static str,
    pub wasd_active: &'static str,
    pub version: &'static str,
    pub updated: &'static str,
    pub language: &'static str,
    pub update_checking: &'static str,
    pub update_available: &'static str,
    pub update_download: &'static str,
    pub update_downloading: &'static str,
    pub update_ready: &'static str,
    pub update_up_to_date: &'static str,
    pub update_error: &'static str,
    pub update_retry: &'static str,
    pub tag_offensive: &'static str,
    pub tag_supply: &'static str,
    pub tag_defensive: &'static str,
    pub backup: &'static str,
    pub backup_desc: &'static str,
    pub backup_export: &'static str,
    pub backup_import: &'static str,
    pub backup_exported: &'static str,
    pub backup_imported: &'static str,
    pub backup_error: &'static str,
    pub overlay_shortcut: &'static str,
    pub overlay_enabled: &'static str,
    pub overlay_disabled: &'static str,
    pub persistent_hud: &'static str,
    pub persistent_hud_on: &'static str,
    pub persistent_hud_off: &'static str,
    pub theme: &'static str,
    pub theme_system: &'static str,
    pub theme_dark: &'static str,
    pub theme_light: &'static str,
    pub toast_done: &'static str,
    pub toast_error: &'static str,
}

/// The overlay warnings.
pub struct Overlay {
    pub warning_title: &'static str,
    pub fullscreen_warning: &'static str,
}

/// The "update ready" dialog.
pub struct Update {
    pub title: &'static str,
    pub body: &'static str,
    pub restart_now: &'static str,
    pub later: &'static str,
}

/// Diagnostics card, overlay key panel and typing test; texts with
/// `{key}` are filled by the methods of [`DebugText`].
pub struct DebugText {
    pub title: &'static str,
    pub desc: &'static str,
    pub mode: &'static str,
    pub mode_on: &'static str,
    pub mode_on_no_overlay: &'static str,
    pub mode_off: &'static str,
    pub typing: &'static str,
    pub export: &'static str,
    pub folder: &'static str,
    pub exported: &'static str,
    pub export_error: &'static str,
    pub stat_calls: &'static str,
    pub stat_rejected: &'static str,
    pub stat_hold: &'static str,
    pub stat_gap: &'static str,
    pub stat_held: &'static str,
    pub stat_ignored: &'static str,
    pub stat_hook: &'static str,
    pub stat_window: &'static str,
    pub stat_last: &'static str,
    pub calls_value: &'static str,
    pub spread_value: &'static str,
    pub hook_value: &'static str,
    pub hook_idle: &'static str,
    pub completed: &'static str,
    pub aborted: &'static str,
    pub blocked: &'static str,
    pub unfocused: &'static str,
    pub typing_idle: &'static str,
    pub typing_running: &'static str,
    pub typing_passed: &'static str,
    pub typing_failed: &'static str,
    pub typing_interrupted: &'static str,
    pub typing_blocked: &'static str,
    pub typing_holds: &'static str,
    pub hud_waiting: &'static str,
    pub hud_min_hold: &'static str,
}

/// The menu of the tray icon.
pub struct Tray {
    pub open: &'static str,
    pub exit: &'static str,
}


/// The Portuguese texts.
pub open spec fn spec_pt() -> Tr {
    Tr {
        tabs: Tabs {
            macro_tab: "Configurar Macros",
            build: "Builds",
            settings: "Configurações",
        },
        macros: Macros {
            select_title: "Selecionar Estratagemas para o Slot",
            others: "Outros",
            listening: "ESCUTANDO...",
            bind: "VINCULAR",
            clear_slot: "Remover do slot",
            search_placeholder: "Buscar estratagema...",
            search_no_results: "Nenhum estratagema encontrado para",
            empty: "Vazio",
            nothing_here: "Nada aqui",
        },
        build: Build {
            sub_meta: "Meta",
            sub_random: "Aleatória",
            sub_custom: "Personalizada",
            sub_saved: "Salvas",
            saved: "Builds Salvas",
            saved_empty: "Monte ou gere uma build e salve com um nome",
            saved_hint: "Aplicar põe os estratagemas nos slots de macro. Editar abre a build na aba \
                         Personalizada para trocar itens ou o nome.",
            saved_no_gear: "Sem equipamento",
            save_placeholder: "Nome da build...",
            save_build: "Salvar",
            save_changes: "Salvar alterações",
            save_as_new: "Salvar como nova",
            replace_build: "Substituir?",
            discard: "Descartar",
            apply_build: "Aplicar",
            edit_build: "Editar",
            delete_build: "Excluir",
            confirm_delete: "Confirmar?",
            in_slots: "Nos slots",
            current: "Build Atual",
            status_new: "Nova build · ainda não salva",
            status_saved: "Salva como",
            status_editing: "Editando",
            status_unsaved: "alterações não salvas",
            status_replace: "Já existe uma build com esse nome. Clique de novo para substituir",
            status_taken: "Outra build já usa esse nome",
            status_empty: "Adicione pelo menos um estratagema para salvar",
            notice_saved: "salva",
            notice_updated: "atualizada",
            notice_applied: "nos slots de macro",
            notice_deleted: "excluída",
            notice_applied_current: "Estratagemas aplicados nos slots",
            generate: "Gerar Build",
            reroll: "Rolar de novo",
            apply_stratagems: "Aplicar estratagemas nos slots",
            hint: "Clique em Gerar Build para sortear um loadout completo: 4 estratagemas, armas, \
                   armadura, capacete, capa e booster. Use o cadeado para manter um item nos \
                   próximos sorteios.",
            stratagems: "Estratagemas",
            stratagem: "Estratagema",
            equipment: "Equipamento",
            primary: "Primária",
            secondary: "Secundária",
            grenade: "Granada",
            armor: "Armadura",
            helmet: "Capacete",
            cape: "Capa",
            booster: "Booster",
            lock: "Travar item nos próximos sorteios",
            unlock: "Destravar item",
            weight_light: "Leve",
            weight_medium: "Média",
            weight_heavy: "Pesada",
            meta: "Meta por Facção",
            meta_generate: "Gerar Build Meta",
            faction_terminid: "Terminids",
            faction_automaton: "Automatons",
            faction_illuminate: "Illuminate",
            meta_difficulty_all: "Todas",
            meta_top_strats: "Top Estratagemas",
            meta_top_passives: "Top Passivas de Armadura",
            meta_loading: "Consultando estatísticas da comunidade...",
            meta_error: "Estatísticas indisponíveis no momento",
            meta_credit: "Dados da comunidade via helldive.live",
            meta_games: "partidas analisadas",
            meta_new: "NOVO",
            match_set: "Sets de Armadura",
            match_set_on: "Capacete do mesmo set + capa da warbond; set sem capa → capa aleatória",
            match_set_off: "Armadura, capacete e capa totalmente aleatórios",
            balanced: "Loadout Balanceado",
            balanced_on: "Garante 1 arma de apoio e 1 item de mochila, sem repetir (apoio com \
                          mochila conta pros dois)",
            balanced_off: "Estratagemas sem regra de arma de apoio/mochila",
            max_sentry: "Máx. 1 Torreta",
            max_sentry_on: "No máximo 1 sentinela por build",
            max_sentry_off: "Sem limite de sentinelas",
            set_badge: "SET",
            custom_title: "Montar Build",
            custom_hint: "Escolha o slot, clique nos estratagemas para equipar (clique de novo para \
                          remover) e selecione o equipamento se quiser. Depois dê um nome e salve \
                          no card Build Atual, logo abaixo.",
            custom_import: "Usar slots atuais",
            custom_clear: "Limpar tudo",
            custom_equipment: "Equipamento (opcional)",
            equip_none: "Nenhum",
        },
        settings: SettingsText {
            keybinding: "Atalhos de Combate",
            controller: "Config. de Controles",
            support: "Estratagemas de Apoio Fixo",
            shortcut_label: "Atalho",
            support_shortcut_label: "Atalho de Apoio",
            ingame_key: "Tecla de Estratégias In-Game",
            game_active: "Jogo Detectado",
            game_inactive: "Jogo Ausente",
            macro_speed: "Velocidade do Macro",
            macro_speed_desc: "O jogo lê o teclado uma vez por quadro, então cada perfil segura a \
                               tecla pelo tempo mínimo do FPS indicado. Se o jogo engolir inputs, \
                               use um perfil de FPS menor. Jogo travado em 30 fps, ou caindo \
                               abaixo disso em combate: Baixo FPS. Abaixo de 30 o tempo todo: \
                               Batata",
            macro_speed_potato: "Batata · 15 fps",
            macro_speed_low: "Baixo FPS · 30 fps",
            macro_speed_normal: "Padrão · 40 fps",
            macro_speed_fast: "Rápida · 60 fps",
            macro_speed_turbo: "Turbo · 60+ fps",
            fps_cap_title: "Jogo limitado a {fps} fps",
            fps_cap_hint: "Nesse FPS o perfil escolhido pode segurar uma tecla por menos de um \
                           quadro, e o jogo pode perdê-la. Use {profile}.",
            arrow_mode: "Modo Setas",
            arrow_active: "Setas ativas (Recomendado para movimento)",
            wasd_active: "WASD ativo (Pode travar o personagem)",
            version: "Versão",
            updated: "Atualizado",
            language: "Idioma",
            update_checking: "Verificando...",
            update_available: "Novo update!",
            update_download: "Baixar",
            update_downloading: "Baixando...",
            update_ready: "Instalar agora",
            update_up_to_date: "App atualizado",
            update_error: "Erro no update",
            update_retry: "Tentar de novo",
            tag_offensive: "Ofensivo",
            tag_supply: "Suprimento",
            tag_defensive: "Defensivo",
            backup: "Backup",
            backup_desc: "Exporta ou restaura tudo: loadouts, slots e configurações (atalhos, \
                          velocidade, idioma...)",
            backup_export: "Exportar",
            backup_import: "Importar",
            backup_exported: "Backup exportado!",
            backup_imported: "Backup restaurado!",
            backup_error: "Arquivo inválido",
            overlay_shortcut: "Atalho do Overlay",
            overlay_enabled: "Overlay Ativado (Ctrl + H)",
            overlay_disabled: "Overlay Desativado",
            persistent_hud: "HUD Persistente",
            persistent_hud_on: "Slots sempre visíveis no jogo",
            persistent_hud_off: "Esconder slots ao fechar",
            theme: "Tema",
            theme_system: "Sistema",
            theme_dark: "Escuro",
            theme_light: "Claro",
            toast_done: "Concluído",
            toast_error: "Erro",
        },
        overlay: Overlay {
            warning_title: "Aviso",
            fullscreen_warning: "O jogo está em \"Tela Cheia\": nesse modo o Windows minimiza o \
                                 jogo quando o overlay aparece. Mude o vídeo do jogo para \"Tela \
                                 Cheia sem Borda\" (mesmo visual e desempenho).",
        },
        update: Update {
            title: "Atualização Disponível",
            body: "Uma nova versão foi baixada e está pronta para ser instalada. Deseja reiniciar o \
                   programa agora para aplicar as mudanças?",
            restart_now: "Reiniciar Agora",
            later: "Depois",
        },
        tray: Tray {
            open: "Abrir Macro Helldivers 2",
            exit: "Sair",
        },
        debug: DebugText {
            title: "Diagnóstico",
            desc: "Para investigar estratagema que falha. Ligado, o app grava o tempo real de cada \
                   tecla, o que você segurava na hora do disparo e um retrato do PC. Só entram as \
                   teclas que o próprio macro manda; o que você digita fora dele, não.",
            mode: "Modo Debug",
            mode_on: "Gravando cada disparo, com o painel de teclas no jogo",
            mode_on_no_overlay: "Gravando cada disparo. Ligue o overlay para ver as teclas no jogo",
            mode_off: "Desligado: nada é gravado",
            typing: "Testar digitação",
            export: "Exportar relatório",
            folder: "Abrir pasta",
            exported: "Relatório exportado!",
            export_error: "Relatório não foi salvo",
            stat_calls: "Disparos",
            stat_rejected: "Recusadas pelo Windows",
            stat_hold: "Tecla segurada",
            stat_gap: "Intervalo entre teclas",
            stat_held: "Com movimento segurado",
            stat_ignored: "Ignorados com o jogo na frente",
            stat_hook: "Hook de teclado",
            stat_window: "Janela da frente",
            stat_last: "Último disparo",
            calls_value: "{runs} · {completed} ok · {aborted} abortados · {blocked} bloqueados · \
                          {unfocused} sem foco",
            spread_value: "mín {min} · média {mean} · máx {max} ms",
            hook_value: "{keys} teclas · a última há {age}s · pior chamada {us} µs",
            hook_idle: "Nenhuma tecla desde que o modo ligou",
            completed: "completo",
            aborted: "abortado",
            blocked: "bloqueado",
            unfocused: "sem foco",
            typing_idle: "O teste digita 10 sequências nesta janela e confere cada tecla que chega. \
                          Não toque no teclado até ele terminar.",
            typing_running: "Testando {done}/{total}... não toque no teclado",
            typing_passed: "Teclado OK: {passed}/{runs} sequências chegaram completas e na ordem",
            typing_failed: "Falhou: {passed}/{runs} completas · {missing} teclas perdidas · {extra} \
                            a mais",
            typing_interrupted: "{count} rodada(s) interrompida(s): a janela perdeu o foco",
            typing_blocked: "{count} rodada(s) recusada(s): um atalho disparou durante o teste",
            typing_holds: "Tecla segurada, em média: {sent} ms mandados, {received} ms recebidos",
            hud_waiting: "Aguardando disparo",
            hud_min_hold: "menor {ms} ms",
        },
    }
}

/// The English texts.
pub open spec fn spec_en() -> Tr {
    Tr {
        tabs: Tabs {
            macro_tab: "Configure Macros",
            build: "Builds",
            settings: "Settings",
        },
        macros: Macros {
            select_title: "Select Stratagems for Slot",
            others: "Others",
            listening: "LISTENING...",
            bind: "BIND",
            clear_slot: "Clear slot",
            search_placeholder: "Search stratagem...",
            search_no_results: "No stratagem found for",
            empty: "Empty",
            nothing_here: "Nothing here",
        },
        build: Build {
            sub_meta: "Meta",
            sub_random: "Random",
            sub_custom: "Custom",
            sub_saved: "Saved",
            saved: "Saved Builds",
            saved_empty: "Build or generate a loadout and save it with a name",
            saved_hint: "Apply puts the stratagems in your macro slots. Edit opens the build in the \
                         Custom tab to change items or the name.",
            saved_no_gear: "No gear",
            save_placeholder: "Build name...",
            save_build: "Save",
            save_changes: "Save changes",
            save_as_new: "Save as new",
            replace_build: "Replace?",
            discard: "Discard",
            apply_build: "Apply",
            edit_build: "Edit",
            delete_build: "Delete",
            confirm_delete: "Confirm?",
            in_slots: "In slots",
            current: "Current Build",
            status_new: "New build · not saved yet",
            status_saved: "Saved as",
            status_editing: "Editing",
            status_unsaved: "unsaved changes",
            status_replace: "A build with this name already exists. Click again to replace it",
            status_taken: "Another build already uses this name",
            status_empty: "Add at least one stratagem to save",
            notice_saved: "saved",
            notice_updated: "updated",
            notice_applied: "in your macro slots",
            notice_deleted: "deleted",
            notice_applied_current: "Stratagems applied to your slots",
            generate: "Generate Build",
            reroll: "Reroll",
            apply_stratagems: "Apply stratagems to slots",
            hint: "Click Generate Build to roll a full loadout: 4 stratagems, weapons, armor, \
                   helmet, cape and booster. Use the lock to keep an item across rolls.",
            stratagems: "Stratagems",
            stratagem: "Stratagem",
            equipment: "Equipment",
            primary: "Primary",
            secondary: "Secondary",
            grenade: "Grenade",
            armor: "Armor",
            helmet: "Helmet",
            cape: "Cape",
            booster: "Booster",
            lock: "Lock item across rolls",
            unlock: "Unlock item",
            weight_light: "Light",
            weight_medium: "Medium",
            weight_heavy: "Heavy",
            meta: "Faction Meta",
            meta_generate: "Generate Meta Build",
            faction_terminid: "Terminids",
            faction_automaton: "Automatons",
            faction_illuminate: "Illuminate",
            meta_difficulty_all: "All",
            meta_top_strats: "Top Stratagems",
            meta_top_passives: "Top Armor Passives",
            meta_loading: "Fetching community statistics...",
            meta_error: "Statistics unavailable right now",
            meta_credit: "Community data via helldive.live",
            meta_games: "matches analyzed",
            meta_new: "NEW",
            match_set: "Armor Sets",
            match_set_on: "Matching set helmet + warbond cape; set without a cape → random cape",
            match_set_off: "Armor, helmet and cape fully random",
            balanced: "Balanced Loadout",
            balanced_on: "Guarantees 1 support weapon and 1 backpack item, no doubles (support with \
                          backpack counts as both)",
            balanced_off: "No support weapon/backpack rules",
            max_sentry: "Max 1 Sentry",
            max_sentry_on: "At most 1 sentry per build",
            max_sentry_off: "No sentry limit",
            set_badge: "SET",
            custom_title: "Build Loadout",
            custom_hint: "Pick a slot, click stratagems to equip (click again to remove) and choose \
                          gear if you want. Then name it and save it in the Current Build card \
                          below.",
            custom_import: "Use current slots",
            custom_clear: "Clear all",
            custom_equipment: "Equipment (optional)",
            equip_none: "None",
        },
        settings: SettingsText {
            keybinding: "Combat Shortcuts",
            controller: "Controller Settings",
            support: "Fixed Support Stratagems",
            shortcut_label: "Shortcut",
            support_shortcut_label: "Support Shortcut",
            ingame_key: "In-Game Stratagem Key",
            game_active: "Game Detected",
            game_inactive: "Game Not Found",
            macro_speed: "Macro Speed",
            macro_speed_desc: "The game reads the keyboard once per frame, so each profile holds \
                               the key for at least one frame at the listed FPS. If the game drops \
                               inputs, pick a lower-FPS profile. Game capped at 30 fps, or dipping \
                               below that in combat: Low FPS. Below 30 all the time: Potato",
            macro_speed_potato: "Potato · 15 fps",
            macro_speed_low: "Low FPS · 30 fps",
            macro_speed_normal: "Normal · 40 fps",
            macro_speed_fast: "Fast · 60 fps",
            macro_speed_turbo: "Turbo · 60+ fps",
            fps_cap_title: "Game capped at {fps} fps",
            fps_cap_hint: "At this frame rate the selected profile can hold a key for less than a \
                           frame, and the game may miss it. Use {profile}.",
            arrow_mode: "Arrow Mode",
            arrow_active: "Arrows active (Recommended for movement)",
            wasd_active: "WASD active (May lock character movement)",
            version: "Version",
            updated: "Updated",
            language: "Language",
            update_checking: "Checking...",
            update_available: "New update!",
            update_download: "Download",
            update_downloading: "Downloading...",
            update_ready: "Install now",
            update_up_to_date: "Up to date",
            update_error: "Update error",
            update_retry: "Try again",
            tag_offensive: "Offensive",
            tag_supply: "Supply",
            tag_defensive: "Defensive",
            backup: "Backup",
            backup_desc: "Export or restore everything: loadouts, slots and settings (shortcuts, \
                          speed, language...)",
            backup_export: "Export",
            backup_import: "Import",
            backup_exported: "Backup exported!",
            backup_imported: "Backup restored!",
            backup_error: "Invalid file",
            overlay_shortcut: "Overlay Shortcut",
            overlay_enabled: "Overlay Active (Ctrl + H)",
            overlay_disabled: "Overlay Disabled",
            persistent_hud: "Persistent HUD",
            persistent_hud_on: "Slots always visible in-game",
            persistent_hud_off: "Hide slots on close",
            theme: "Theme",
            theme_system: "System",
            theme_dark: "Dark",
            theme_light: "Light",
            toast_done: "Done",
            toast_error: "Error",
        },
        overlay: Overlay {
            warning_title: "Warning",
            fullscreen_warning: "The game is in \"Fullscreen\" mode: Windows minimizes it whenever \
                                 the overlay appears. Switch the game video mode to \"Borderless \
                                 Fullscreen\" (same look and performance).",
        },
        update: Update {
            title: "Update Available",
            body: "A new version has been downloaded and is ready to install. Would you like to \
                   restart the program now to apply changes?",
            restart_now: "Restart Now",
            later: "Later",
        },
        tray: Tray {
            open: "Open Macro Helldivers 2",
            exit: "Exit",
        },
        debug: DebugText {
            title: "Diagnostics",
            desc: "For tracking down stratagems that fail. When on, the app records the real timing \
                   of every key, what you were holding when the call fired and a snapshot of the PC. \
                   Only the keys the macro itself sends are recorded; what you type outside it is not.",
            mode: "Debug Mode",
            mode_on: "Recording every call, with the key panel in game",
            mode_on_no_overlay: "Recording every call. Turn the overlay on to see the keys in game",
            mode_off: "Off: nothing is recorded",
            typing: "Typing test",
            export: "Export report",
            folder: "Open folder",
            exported: "Report exported!",
            export_error: "Report was not saved",
            stat_calls: "Calls",
            stat_rejected: "Rejected by Windows",
            stat_hold: "Key hold",
            stat_gap: "Gap between keys",
            stat_held: "While holding movement",
            stat_ignored: "Ignored with the game in front",
            stat_hook: "Keyboard hook",
            stat_window: "Front window",
            stat_last: "Last call",
            calls_value: "{runs} · {completed} ok · {aborted} aborted · {blocked} blocked · \
                          {unfocused} no focus",
            spread_value: "min {min} · avg {mean} · max {max} ms",
            hook_value: "{keys} keys · last one {age}s ago · slowest call {us} µs",
            hook_idle: "No keys since the mode was turned on",
            completed: "completed",
            aborted: "aborted",
            blocked: "blocked",
            unfocused: "no focus",
            typing_idle: "The test types 10 sequences into this window and checks every key that \
                          arrives. Don't touch the keyboard until it finishes.",
            typing_running: "Testing {done}/{total}... don't touch the keyboard",
            typing_passed: "Keyboard OK: {passed}/{runs} sequences arrived complete and in order",
            typing_failed: "Failed: {passed}/{runs} complete · {missing} keys lost · {extra} extra",
            typing_interrupted: "{count} run(s) interrupted: the window lost focus",
            typing_blocked: "{count} run(s) refused: a shortcut fired during the test",
            typing_holds: "Average key hold: {sent} ms sent, {received} ms received",
            hud_waiting: "Waiting for a call",
            hud_min_hold: "shortest {ms} ms",
        },
    }
}

/// The texts of a language.
pub open spec fn spec_tr(language: Language) -> Tr {
    match language {
        Language::Pt => spec_pt(),
        Language::En => spec_en(),
    }
}

fn pt() -> (r: Tr)
    ensures
        r == spec_pt(),
{
    Tr {
        tabs: Tabs {
            macro_tab: "Configurar Macros",
            build: "Builds",
            settings: "Configurações",
        },
        macros: Macros {
            select_title: "Selecionar Estratagemas para o Slot",
            others: "Outros",
            listening: "ESCUTANDO...",
            bind: "VINCULAR",
            clear_slot: "Remover do slot",
            search_placeholder: "Buscar estratagema...",
            search_no_results: "Nenhum estratagema encontrado para",
            empty: "Vazio",
            nothing_here: "Nada aqui",
        },
        build: Build {
            sub_meta: "Meta",
            sub_random: "Aleatória",
            sub_custom: "Personalizada",
            sub_saved: "Salvas",
            saved: "Builds Salvas",
            saved_empty: "Monte ou gere uma build e salve com um nome",
            saved_hint: "Aplicar põe os estratagemas nos slots de macro. Editar abre a build na aba \
                         Personalizada para trocar itens ou o nome.",
            saved_no_gear: "Sem equipamento",
            save_placeholder: "Nome da build...",
            save_build: "Salvar",
            save_changes: "Salvar alterações",
            save_as_new: "Salvar como nova",
            replace_build: "Substituir?",
            discard: "Descartar",
            apply_build: "Aplicar",
            edit_build: "Editar",
            delete_build: "Excluir",
            confirm_delete: "Confirmar?",
            in_slots: "Nos slots",
            current: "Build Atual",
            status_new: "Nova build · ainda não salva",
            status_saved: "Salva como",
            status_editing: "Editando",
            status_unsaved: "alterações não salvas",
            status_replace: "Já existe uma build com esse nome. Clique de novo para substituir",
            status_taken: "Outra build já usa esse nome",
            status_empty: "Adicione pelo menos um estratagema para salvar",
            notice_saved: "salva",
            notice_updated: "atualizada",
            notice_applied: "nos slots de macro",
            notice_deleted: "excluída",
            notice_applied_current: "Estratagemas aplicados nos slots",
            generate: "Gerar Build",
            reroll: "Rolar de novo",
            apply_stratagems: "Aplicar estratagemas nos slots",
            hint: "Clique em Gerar Build para sortear um loadout completo: 4 estratagemas, armas, \
                   armadura, capacete, capa e booster. Use o cadeado para manter um item nos \
                   próximos sorteios.",
            stratagems: "Estratagemas",
            stratagem: "Estratagema",
            equipment: "Equipamento",
            primary: "Primária",
            secondary: "Secundária",
            grenade: "Granada",
            armor: "Armadura",
            helmet: "Capacete",
            cape: "Capa",
            booster: "Booster",
            lock: "Travar item nos próximos sorteios",
            unlock: "Destravar item",
            weight_light: "Leve",
            weight_medium: "Média",
            weight_heavy: "Pesada",
            meta: "Meta por Facção",
            meta_generate: "Gerar Build Meta",
            faction_terminid: "Terminids",
            faction_automaton: "Automatons",
            faction_illuminate: "Illuminate",
            meta_difficulty_all: "Todas",
            meta_top_strats: "Top Estratagemas",
            meta_top_passives: "Top Passivas de Armadura",
            meta_loading: "Consultando estatísticas da comunidade...",
            meta_error: "Estatísticas indisponíveis no momento",
            meta_credit: "Dados da comunidade via helldive.live",
            meta_games: "partidas analisadas",
            meta_new: "NOVO",
            match_set: "Sets de Armadura",
            match_set_on: "Capacete do mesmo set + capa da warbond; set sem capa → capa aleatória",
            match_set_off: "Armadura, capacete e capa totalmente aleatórios",
            balanced: "Loadout Balanceado",
            balanced_on: "Garante 1 arma de apoio e 1 item de mochila, sem repetir (apoio com \
                          mochila conta pros dois)",
            balanced_off: "Estratagemas sem regra de arma de apoio/mochila",
            max_sentry: "Máx. 1 Torreta",
            max_sentry_on: "No máximo 1 sentinela por build",
            max_sentry_off: "Sem limite de sentinelas",
            set_badge: "SET",
            custom_title: "Montar Build",
            custom_hint: "Escolha o slot, clique nos estratagemas para equipar (clique de novo para \
                          remover) e selecione o equipamento se quiser. Depois dê um nome e salve \
                          no card Build Atual, logo abaixo.",
            custom_import: "Usar slots atuais",
            custom_clear: "Limpar tudo",
            custom_equipment: "Equipamento (opcional)",
            equip_none: "Nenhum",
        },
        settings: SettingsText {
            keybinding: "Atalhos de Combate",
            controller: "Config. de Controles",
            support: "Estratagemas de Apoio Fixo",
            shortcut_label: "Atalho",
            support_shortcut_label: "Atalho de Apoio",
            ingame_key: "Tecla de Estratégias In-Game",
            game_active: "Jogo Detectado",
            game_inactive: "Jogo Ausente",
            macro_speed: "Velocidade do Macro",
            macro_speed_desc: "O jogo lê o teclado uma vez por quadro, então cada perfil segura a \
                               tecla pelo tempo mínimo do FPS indicado. Se o jogo engolir inputs, \
                               use um perfil de FPS menor. Jogo travado em 30 fps, ou caindo \
                               abaixo disso em combate: Baixo FPS. Abaixo de 30 o tempo todo: \
                               Batata",
            macro_speed_potato: "Batata · 15 fps",
            macro_speed_low: "Baixo FPS · 30 fps",
            macro_speed_normal: "Padrão · 40 fps",
            macro_speed_fast: "Rápida · 60 fps",
            macro_speed_turbo: "Turbo · 60+ fps",
            fps_cap_title: "Jogo limitado a {fps} fps",
            fps_cap_hint: "Nesse FPS o perfil escolhido pode segurar uma tecla por menos de um \
                           quadro, e o jogo pode perdê-la. Use {profile}.",
            arrow_mode: "Modo Setas",
            arrow_active: "Setas ativas (Recomendado para movimento)",
            wasd_active: "WASD ativo (Pode travar o personagem)",
            version: "Versão",
            updated: "Atualizado",
            language: "Idioma",
            update_checking: "Verificando...",
            update_available: "Novo update!",
            update_download: "Baixar",
            update_downloading: "Baixando...",
            update_ready: "Instalar agora",
            update_up_to_date: "App atualizado",
            update_error: "Erro no update",
            update_retry: "Tentar de novo",
            tag_offensive: "Ofensivo",
            tag_supply: "Suprimento",
            tag_defensive: "Defensivo",
            backup: "Backup",
            backup_desc: "Exporta ou restaura tudo: loadouts, slots e configurações (atalhos, \
                          velocidade, idioma...)",
            backup_export: "Exportar",
            backup_import: "Importar",
            backup_exported: "Backup exportado!",
            backup_imported: "Backup restaurado!",
            backup_error: "Arquivo inválido",
            overlay_shortcut: "Atalho do Overlay",
            overlay_enabled: "Overlay Ativado (Ctrl + H)",
            overlay_disabled: "Overlay Desativado",
            persistent_hud: "HUD Persistente",
            persistent_hud_on: "Slots sempre visíveis no jogo",
            persistent_hud_off: "Esconder slots ao fechar",
            theme: "Tema",
            theme_system: "Sistema",
            theme_dark: "Escuro",
            theme_light: "Claro",
            toast_done: "Concluído",
            toast_error: "Erro",
        },
        overlay: Overlay {
            warning_title: "Aviso",
            fullscreen_warning: "O jogo está em \"Tela Cheia\": nesse modo o Windows minimiza o \
                                 jogo quando o overlay aparece. Mude o vídeo do jogo para \"Tela \
                                 Cheia sem Borda\" (mesmo visual e desempenho).",
        },
        update: Update {
            title: "Atualização Disponível",
            body: "Uma nova versão foi baixada e está pronta para ser instalada. Deseja reiniciar o \
                   programa agora para aplicar as mudanças?",
            restart_now: "Reiniciar Agora",
            later: "Depois",
        },
        tray: Tray {
            open: "Abrir Macro Helldivers 2",
            exit: "Sair",
        },
        debug: DebugText {
            title: "Diagnóstico",
            desc: "Para investigar estratagema que falha. Ligado, o app grava o tempo real de cada \
                   tecla, o que você segurava na hora do disparo e um retrato do PC. Só entram as \
                   teclas que o próprio macro manda; o que você digita fora dele, não.",
            mode: "Modo Debug",
            mode_on: "Gravando cada disparo, com o painel de teclas no jogo",
            mode_on_no_overlay: "Gravando cada disparo. Ligue o overlay para ver as teclas no jogo",
            mode_off: "Desligado: nada é gravado",
            typing: "Testar digitação",
            export: "Exportar relatório",
            folder: "Abrir pasta",
            exported: "Relatório exportado!",
            export_error: "Relatório não foi salvo",
            stat_calls: "Disparos",
            stat_rejected: "Recusadas pelo Windows",
            stat_hold: "Tecla segurada",
            stat_gap: "Intervalo entre teclas",
            stat_held: "Com movimento segurado",
            stat_ignored: "Ignorados com o jogo na frente",
            stat_hook: "Hook de teclado",
            stat_window: "Janela da frente",
            stat_last: "Último disparo",
            calls_value: "{runs} · {completed} ok · {aborted} abortados · {blocked} bloqueados · \
                          {unfocused} sem foco",
            spread_value: "mín {min} · média {mean} · máx {max} ms",
            hook_value: "{keys} teclas · a última há {age}s · pior chamada {us} µs",
            hook_idle: "Nenhuma tecla desde que o modo ligou",
            completed: "completo",
            aborted: "abortado",
            blocked: "bloqueado",
            unfocused: "sem foco",
            typing_idle: "O teste digita 10 sequências nesta janela e confere cada tecla que chega. \
                          Não toque no teclado até ele terminar.",
            typing_running: "Testando {done}/{total}... não toque no teclado",
            typing_passed: "Teclado OK: {passed}/{runs} sequências chegaram completas e na ordem",
            typing_failed: "Falhou: {passed}/{runs} completas · {missing} teclas perdidas · {extra} \
                            a mais",
            typing_interrupted: "{count} rodada(s) interrompida(s): a janela perdeu o foco",
            typing_blocked: "{count} rodada(s) recusada(s): um atalho disparou durante o teste",
            typing_holds: "Tecla segurada, em média: {sent} ms mandados, {received} ms recebidos",
            hud_waiting: "Aguardando disparo",
            hud_min_hold: "menor {ms} ms",
        },
    }
}

fn en() -> (r: Tr)
    ensures
        r == spec_en(),
{
    Tr {
        tabs: Tabs {
            macro_tab: "Configure Macros",
            build: "Builds",
            settings: "Settings",
        },
        macros: Macros {
            select_title: "Select Stratagems for Slot",
            others: "Others",
            listening: "LISTENING...",
            bind: "BIND",
            clear_slot: "Clear slot",
            search_placeholder: "Search stratagem...",
            search_no_results: "No stratagem found for",
            empty: "Empty",
            nothing_here: "Nothing here",
        },
        build: Build {
            sub_meta: "Meta",
            sub_random: "Random",
            sub_custom: "Custom",
            sub_saved: "Saved",
            saved: "Saved Builds",
            saved_empty: "Build or generate a loadout and save it with a name",
            saved_hint: "Apply puts the stratagems in your macro slots. Edit opens the build in the \
                         Custom tab to change items or the name.",
            saved_no_gear: "No gear",
            save_placeholder: "Build name...",
            save_build: "Save",
            save_changes: "Save changes",
            save_as_new: "Save as new",
            replace_build: "Replace?",
            discard: "Discard",
            apply_build: "Apply",
            edit_build: "Edit",
            delete_build: "Delete",
            confirm_delete: "Confirm?",
            in_slots: "In slots",
            current: "Current Build",
            status_new: "New build · not saved yet",
            status_saved: "Saved as",
            status_editing: "Editing",
            status_unsaved: "unsaved changes",
            status_replace: "A build with this name already exists. Click again to replace it",
            status_taken: "Another build already uses this name",
            status_empty: "Add at least one stratagem to save",
            notice_saved: "saved",
            notice_updated: "updated",
            notice_applied: "in your macro slots",
            notice_deleted: "deleted",
            notice_applied_current: "Stratagems applied to your slots",
            generate: "Generate Build",
            reroll: "Reroll",
            apply_stratagems: "Apply stratagems to slots",
            hint: "Click Generate Build to roll a full loadout: 4 stratagems, weapons, armor, \
                   helmet, cape and booster. Use the lock to keep an item across rolls.",
            stratagems: "Stratagems",
            stratagem: "Stratagem",
            equipment: "Equipment",
            primary: "Primary",
            secondary: "Secondary",
            grenade: "Grenade",
            armor: "Armor",
            helmet: "Helmet",
            cape: "Cape",
            booster: "Booster",
            lock: "Lock item across rolls",
            unlock: "Unlock item",
            weight_light: "Light",
            weight_medium: "Medium",
            weight_heavy: "Heavy",
            meta: "Faction Meta",
            meta_generate: "Generate Meta Build",
            faction_terminid: "Terminids",
            faction_automaton: "Automatons",
            faction_illuminate: "Illuminate",
            meta_difficulty_all: "All",
            meta_top_strats: "Top Stratagems",
            meta_top_passives: "Top Armor Passives",
            meta_loading: "Fetching community statistics...",
            meta_error: "Statistics unavailable right now",
            meta_credit: "Community data via helldive.live",
            meta_games: "matches analyzed",
            meta_new: "NEW",
            match_set: "Armor Sets",
            match_set_on: "Matching set helmet + warbond cape; set without a cape → random cape",
            match_set_off: "Armor, helmet and cape fully random",
            balanced: "Balanced Loadout",
            balanced_on: "Guarantees 1 support weapon and 1 backpack item, no doubles (support with \
                          backpack counts as both)",
            balanced_off: "No support weapon/backpack rules",
            max_sentry: "Max 1 Sentry",
            max_sentry_on: "At most 1 sentry per build",
            max_sentry_off: "No sentry limit",
            set_badge: "SET",
            custom_title: "Build Loadout",
            custom_hint: "Pick a slot, click stratagems to equip (click again to remove) and choose \
                          gear if you want. Then name it and save it in the Current Build card \
                          below.",
            custom_import: "Use current slots",
            custom_clear: "Clear all",
            custom_equipment: "Equipment (optional)",
            equip_none: "None",
        },
        settings: SettingsText {
            keybinding: "Combat Shortcuts",
            controller: "Controller Settings",
            support: "Fixed Support Stratagems",
            shortcut_label: "Shortcut",
            support_shortcut_label: "Support Shortcut",
            ingame_key: "In-Game Stratagem Key",
            game_active: "Game Detected",
            game_inactive: "Game Not Found",
            macro_speed: "Macro Speed",
            macro_speed_desc: "The game reads the keyboard once per frame, so each profile holds \
                               the key for at least one frame at the listed FPS. If the game drops \
                               inputs, pick a lower-FPS profile. Game capped at 30 fps, or dipping \
                               below that in combat: Low FPS. Below 30 all the time: Potato",
            macro_speed_potato: "Potato · 15 fps",
            macro_speed_low: "Low FPS · 30 fps",
            macro_speed_normal: "Normal · 40 fps",
            macro_speed_fast: "Fast · 60 fps",
            macro_speed_turbo: "Turbo · 60+ fps",
            fps_cap_title: "Game capped at {fps} fps",
            fps_cap_hint: "At this frame rate the selected profile can hold a key for less than a \
                           frame, and the game may miss it. Use {profile}.",
            arrow_mode: "Arrow Mode",
            arrow_active: "Arrows active (Recommended for movement)",
            wasd_active: "WASD active (May lock character movement)",
            version: "Version",
            updated: "Updated",
            language: "Language",
            update_checking: "Checking...",
            update_available: "New update!",
            update_download: "Download",
            update_downloading: "Downloading...",
            update_ready: "Install now",
            update_up_to_date: "Up to date",
            update_error: "Update error",
            update_retry: "Try again",
            tag_offensive: "Offensive",
            tag_supply: "Supply",
            tag_defensive: "Defensive",
            backup: "Backup",
            backup_desc: "Export or restore everything: loadouts, slots and settings (shortcuts, \
                          speed, language...)",
            backup_export: "Export",
            backup_import: "Import",
            backup_exported: "Backup exported!",
            backup_imported: "Backup restored!",
            backup_error: "Invalid file",
            overlay_shortcut: "Overlay Shortcut",
            overlay_enabled: "Overlay Active (Ctrl + H)",
            overlay_disabled: "Overlay Disabled",
            persistent_hud: "Persistent HUD",
            persistent_hud_on: "Slots always visible in-game",
            persistent_hud_off: "Hide slots on close",
            theme: "Theme",
            theme_system: "System",
            theme_dark: "Dark",
            theme_light: "Light",
            toast_done: "Done",
            toast_error: "Error",
        },
        overlay: Overlay {
            warning_title: "Warning",
            fullscreen_warning: "The game is in \"Fullscreen\" mode: Windows minimizes it whenever \
                                 the overlay appears. Switch the game video mode to \"Borderless \
                                 Fullscreen\" (same look and performance).",
        },
        update: Update {
            title: "Update Available",
            body: "A new version has been downloaded and is ready to install. Would you like to \
                   restart the program now to apply changes?",
            restart_now: "Restart Now",
            later: "Later",
        },
        tray: Tray {
            open: "Open Macro Helldivers 2",
            exit: "Exit",
        },
        debug: DebugText {
            title: "Diagnostics",
            desc: "For tracking down stratagems that fail. When on, the app records the real timing \
                   of every key, what you were holding when the call fired and a snapshot of the PC. \
                   Only the keys the macro itself sends are recorded; what you type outside it is not.",
            mode: "Debug Mode",
            mode_on: "Recording every call, with the key panel in game",
            mode_on_no_overlay: "Recording every call. Turn the overlay on to see the keys in game",
            mode_off: "Off: nothing is recorded",
            typing: "Typing test",
            export: "Export report",
            folder: "Open folder",
            exported: "Report exported!",
            export_error: "Report was not saved",
            stat_calls: "Calls",
            stat_rejected: "Rejected by Windows",
            stat_hold: "Key hold",
            stat_gap: "Gap between keys",
            stat_held: "While holding movement",
            stat_ignored: "Ignored with the game in front",
            stat_hook: "Keyboard hook",
            stat_window: "Front window",
            stat_last: "Last call",
            calls_value: "{runs} · {completed} ok · {aborted} aborted · {blocked} blocked · \
                          {unfocused} no focus",
            spread_value: "min {min} · avg {mean} · max {max} ms",
            hook_value: "{keys} keys · last one {age}s ago · slowest call {us} µs",
            hook_idle: "No keys since the mode was turned on",
            completed: "completed",
            aborted: "aborted",
            blocked: "blocked",
            unfocused: "no focus",
            typing_idle: "The test types 10 sequences into this window and checks every key that \
                          arrives. Don't touch the keyboard until it finishes.",
            typing_running: "Testing {done}/{total}... don't touch the keyboard",
            typing_passed: "Keyboard OK: {passed}/{runs} sequences arrived complete and in order",
            typing_failed: "Failed: {passed}/{runs} complete · {missing} keys lost · {extra} extra",
            typing_interrupted: "{count} run(s) interrupted: the window lost focus",
            typing_blocked: "{count} run(s) refused: a shortcut fired during the test",
            typing_holds: "Average key hold: {sent} ms sent, {received} ms received",
            hud_waiting: "Waiting for a call",
            hud_min_hold: "shortest {ms} ms",
        },
    }
}

/// The texts of the chosen language.
pub fn tr(language: Language) -> (r: Tr)
    ensures
        r == spec_tr(language),
{
    match language {
        Language::Pt => pt(),
        Language::En => en(),
    }
}

/// The name of a language in that language, not translated.
pub fn language_name(language: Language) -> (r: &'static str)
    ensures
        r@ == (match language {
            Language::Pt => "Português"@,
            Language::En => "English"@,
        }),
{
    match language {
        Language::Pt => "Português",
        Language::En => "English",
    }
}


impl Build {
    pub open spec fn spec_equip_label(&self, slot: EquipSlot) -> &'static str {
        match slot {
            EquipSlot::Primary => self.primary,
            EquipSlot::Secondary => self.secondary,
            EquipSlot::Grenade => self.grenade,
            EquipSlot::Armor => self.armor,
            EquipSlot::Helmet => self.helmet,
            EquipSlot::Cape => self.cape,
            EquipSlot::Booster => self.booster,
        }
    }

    /// Label of an equipment category.
    pub fn equip_label(&self, slot: EquipSlot) -> (r: &'static str)
        ensures
            r == self.spec_equip_label(slot),
    {
        match slot {
            EquipSlot::Primary => self.primary,
            EquipSlot::Secondary => self.secondary,
            EquipSlot::Grenade => self.grenade,
            EquipSlot::Armor => self.armor,
            EquipSlot::Helmet => self.helmet,
            EquipSlot::Cape => self.cape,
            EquipSlot::Booster => self.booster,
        }
    }

    /// Name of a faction on the line where the meta tab picks one.
    pub fn faction(&self, faction: Faction) -> (r: &'static str)
        ensures
            r == (match faction {
                Faction::Terminid => self.faction_terminid,
                Faction::Automaton => self.faction_automaton,
                Faction::Illuminate => self.faction_illuminate,
            }),
    {
        match faction {
            Faction::Terminid => self.faction_terminid,
            Faction::Automaton => self.faction_automaton,
            Faction::Illuminate => self.faction_illuminate,
        }
    }

    /// Weight of an armor, as `peso` comes in `equipment.json`; an unknown
    /// weight reads as medium.
    pub fn weight(&self, peso: &str) -> (r: &'static str)
        ensures
            r == (if peso@ == "Light"@ {
                self.weight_light
            } else if peso@ == "Heavy"@ {
                self.weight_heavy
            } else {
                self.weight_medium
            }),
    {
        if text::str_eq(peso, "Light") {
            self.weight_light
        } else if text::str_eq(peso, "Heavy") {
            self.weight_heavy
        } else {
            self.weight_medium
        }
    }
}

/// The separator between the name of a speed profile and its FPS.
pub open spec fn profile_separator() -> Seq<char> {
    seq![' ', '\u{00B7}', ' ']
}

impl SettingsText {
    pub open spec fn spec_speed(&self, speed: Speed) -> &'static str {
        match speed {
            Speed::Normal => self.macro_speed_normal,
            Speed::Fast => self.macro_speed_fast,
            Speed::Turbo => self.macro_speed_turbo,
        }
    }

    /// Label of a speed profile.
    pub fn speed(&self, speed: Speed) -> (r: &'static str)
        ensures
            r == self.spec_speed(speed),
    {
        match speed {
            Speed::Normal => self.macro_speed_normal,
            Speed::Fast => self.macro_speed_fast,
            Speed::Turbo => self.macro_speed_turbo,
        }
    }

    /// The name of a profile without its FPS: what comes before the first ` · `.
    pub open spec fn spec_speed_name(&self, speed: Speed) -> Seq<char> {
        text::before_first(self.spec_speed(speed)@, profile_separator())
    }

    /// Only the name of a profile, without its FPS.
    pub fn speed_name(&self, speed: Speed) -> (r: String)
        ensures
            r@ == self.spec_speed_name(speed),
    {
        let label = text::chars_of(self.speed(speed));
        let mut sep: Vec<char> = Vec::new();
        sep.push(' ');
        sep.push('\u{00B7}');
        sep.push(' ');
        assert(sep@ =~= profile_separator());
        let name = text::before_first_chars(&label, &sep);
        text::string_of(&name)
    }

    /// Title and text of the FPS-cap warning, with the numbers in.
    pub fn fps_cap_hint(&self, fps: u32, suggested: Speed) -> (r: (String, String))
        ensures
            r.0@ == text::replace_all(self.fps_cap_title@, "{fps}"@, text::decimal(fps as nat)),
            r.1@ == text::replace_all(self.fps_cap_hint@, "{profile}"@, seq!['"'] + self.spec_speed_name(suggested) + seq!['"']),
    {
        proof {
            reveal_strlit("{fps}");
            reveal_strlit("{profile}");
        }
        let title = text::chars_of(self.fps_cap_title);
        let key = text::chars_of("{fps}");
        let number = text::decimal_chars(fps as u128);
        let t = text::replace_chars(&title, &key, &number);
        let hint = text::chars_of(self.fps_cap_hint);
        let pkey = text::chars_of("{profile}");
        let name = self.speed_name(suggested);
        let mut quoted: Vec<char> = Vec::new();
        quoted.push('"');
        let nc = text::chars_of(name.as_str());
        quoted = text::concat_chars(&quoted, &nc);
        quoted.push('"');
        assert(quoted@ =~= seq!['"'] + self.spec_speed_name(suggested) + seq!['"']);
        let h = text::replace_chars(&hint, &pkey, &quoted);
        (text::string_of(&t), text::string_of(&h))
    }

    /// Label of a section of the stratagem grid, by tag.
    pub fn tag(&self, tag: &str, fallback: &'static str) -> (r: &'static str)
        ensures
            r == (if tag@ == "Offensive"@ {
                self.tag_offensive
            } else if tag@ == "Supply"@ {
                self.tag_supply
            } else if tag@ == "Defensive"@ {
                self.tag_defensive
            } else {
                fallback
            }),
    {
        if text::str_eq(tag, "Offensive") {
            self.tag_offensive
        } else if text::str_eq(tag, "Supply") {
            self.tag_supply
        } else if text::str_eq(tag, "Defensive") {
            self.tag_defensive
        } else {
            fallback
        }
    }
}

/// `{key}` replaced by `value` all over the template.
fn put(t: &Vec<char>, key: &'static str, value: &Vec<char>) -> (r: Vec<char>)
    requires
        key@.len() > 0,
    ensures
        r@ == text::replace_all(t@, key@, value@),
{
    let k = text::chars_of(key);
    text::replace_chars(t, &k, value)
}

/// `n / d` rounded to the nearest whole number, a tie going to the even one:
/// the rounding of `{:.0}`.
pub open spec fn round_div(n: nat, d: nat) -> nat
    recommends
        d > 0,
{
    let q = n / d;
    let r = n % d;
    if 2 * r > d {
        q + 1
    } else if 2 * r < d {
        q
    } else if q % 2 == 1 {
        q + 1
    } else {
        q
    }
}

/// Microseconds to whole milliseconds, a tie going to the even one.
pub open spec fn nearest_ms(us: nat) -> nat {
    round_div(us, 1000)
}

/// The mean of `count` values adding up to `total` microseconds, in whole
/// milliseconds, a tie going to the even one.
pub open spec fn mean_ms(total: nat, count: nat) -> nat {
    round_div(total, 1000 * count)
}

fn round_div_exec(n: u128, d: u128) -> (r: u128)
    requires
        d > 0,
        n < u128::MAX,
    ensures
        r == round_div(n as nat, d as nat),
{
    let q = n / d;
    let rem = n % d;
    proof {
        vstd::arithmetic::div_mod::lemma_fundamental_div_mod(n as int, d as int);
        assert(d * q + rem == n);
        if d > 1 && n > 0 {
            assert(q < n) by (nonlinear_arith)
                requires
                    d * q + rem == n,
                    d > 1,
                    n > 0,
                    q >= 0,
                    rem >= 0,
            ;
        }
    }
    let half_over = rem > d - rem;
    let half_under = rem < d - rem;
    if half_over {
        q + 1
    } else if half_under {
        q
    } else if q % 2 == 1 {
        q + 1
    } else {
        q
    }
}

fn ms_of(us: u64) -> (r: u128)
    ensures
        r == nearest_ms(us as nat),
{
    round_div_exec(us as u128, 1000)
}

fn mean_ms_of(s: &Spread) -> (r: u128)
    requires
        s.count > 0,
        s.bounded(),
    ensures
        r == mean_ms(s.total as nat, s.count as nat),
{
    let c = s.count as u128;
    proof {
        let cn: nat = s.count as nat;
        assert(1000 * cn <= 1000 * 0xffff_ffffnat) by (nonlinear_arith)
            requires
                cn <= 0xffff_ffffnat;
    }
    round_div_exec(s.total, 1000 * c)
}

pub open spec fn fill_calls(t: Seq<char>, stats: &Stats) -> Seq<char> {
    let a = text::replace_all(t, "{runs}"@, text::decimal(stats.runs as nat));
    let b = text::replace_all(a, "{completed}"@, text::decimal(stats.completed as nat));
    let c = text::replace_all(b, "{aborted}"@, text::decimal(stats.aborted as nat));
    let d = text::replace_all(c, "{blocked}"@, text::decimal(stats.blocked as nat));
    text::replace_all(d, "{unfocused}"@, text::decimal(stats.unfocused as nat))
}

pub open spec fn fill_spread(t: Seq<char>, s: &Spread) -> Seq<char> {
    let a = text::replace_all(t, "{min}"@, text::decimal(nearest_ms(s.min as nat)));
    let b = text::replace_all(a, "{mean}"@, text::decimal(mean_ms(s.total as nat, s.count as nat)));
    text::replace_all(b, "{max}"@, text::decimal(nearest_ms(s.max as nat)))
}

/// The lines of the typing test's result, most important first.
pub open spec fn typing_lines(d: &DebugText, summary: &Summary) -> Seq<Seq<char>> {
    let passed = summary.passed == summary.runs && summary.runs > 0;
    let first = if passed {
        text::replace_all(text::replace_all(d.typing_passed@, "{passed}"@, text::decimal(summary.passed as nat)), "{runs}"@, text::decimal(summary.runs as nat))
    } else {
        let a = text::replace_all(d.typing_failed@, "{passed}"@, text::decimal(summary.passed as nat));
        let b = text::replace_all(a, "{runs}"@, text::decimal(summary.runs as nat));
        let c = text::replace_all(b, "{missing}"@, text::decimal(summary.missing_keys as nat));
        text::replace_all(c, "{extra}"@, text::decimal(summary.extra_keys as nat))
    };
    let l1 = seq![first];
    let l2 = if summary.interrupted > 0 {
        l1.push(text::replace_all(d.typing_interrupted@, "{count}"@, text::decimal(summary.interrupted as nat)))
    } else {
        l1
    };
    let l3 = if summary.blocked > 0 {
        l2.push(text::replace_all(d.typing_blocked@, "{count}"@, text::decimal(summary.blocked as nat)))
    } else {
        l2
    };
    if summary.sent_hold.count > 0 && summary.received_hold.count > 0 {
        l3.push(text::replace_all(
            text::replace_all(d.typing_holds@, "{sent}"@, text::decimal(mean_ms(summary.sent_hold.total as nat, summary.sent_hold.count as nat))),
            "{received}"@,
            text::decimal(mean_ms(summary.received_hold.total as nat, summary.received_hold.count as nat)),
        ))
    } else {
        l3
    }
}

impl DebugText {
    /// Calls of the session by outcome.
    pub fn calls(&self, stats: &Stats) -> (r: String)
        ensures
            r@ == fill_calls(self.calls_value@, stats),
    {
        proof {
            reveal_strlit("{runs}");
            reveal_strlit("{completed}");
            reveal_strlit("{aborted}");
            reveal_strlit("{blocked}");
            reveal_strlit("{unfocused}");
        }
        let t = text::chars_of(self.calls_value);
        let a = put(&t, "{runs}", &text::decimal_chars(stats.runs as u128));
        let b = put(&a, "{completed}", &text::decimal_chars(stats.completed as u128));
        let c = put(&b, "{aborted}", &text::decimal_chars(stats.aborted as u128));
        let d = put(&c, "{blocked}", &text::decimal_chars(stats.blocked as u128));
        let e = put(&d, "{unfocused}", &text::decimal_chars(stats.unfocused as u128));
        text::string_of(&e)
    }

    /// Minimum, mean and maximum in whole milliseconds; "—" without a sample.
    pub fn spread(&self, spread: &Spread) -> (r: String)
        requires
            spread.bounded(),
        ensures
            spread.count == 0 ==> r@ == "\u{2014}"@,
            spread.count > 0 ==> r@ == fill_spread(self.spread_value@, spread),
    {
        if spread.count == 0 {
            return text::owned("\u{2014}");
        }
        proof {
            reveal_strlit("{min}");
            reveal_strlit("{mean}");
            reveal_strlit("{max}");
        }
        let t = text::chars_of(self.spread_value);
        let a = put(&t, "{min}", &text::decimal_chars(ms_of(spread.min)));
        let b = put(&a, "{mean}", &text::decimal_chars(mean_ms_of(spread)));
        let c = put(&b, "{max}", &text::decimal_chars(ms_of(spread.max)));
        text::string_of(&c)
    }

    /// The lines of the typing test's result, most important first; `true`
    /// when every run arrived whole.
    pub fn typing_result(&self, summary: &Summary) -> (r: (bool, Vec<String>))
        requires
            summary.sent_hold.bounded(),
            summary.received_hold.bounded(),
        ensures
            r.0 == (summary.passed == summary.runs && summary.runs > 0),
            text::views(r.1@) == typing_lines(self, summary),
    {
        proof {
            reveal_strlit("{passed}");
            reveal_strlit("{runs}");
            reveal_strlit("{missing}");
            reveal_strlit("{extra}");
            reveal_strlit("{count}");
            reveal_strlit("{sent}");
            reveal_strlit("{received}");
        }
        let passed = summary.passed == summary.runs && summary.runs > 0;
        let first = if passed {
            let t = text::chars_of(self.typing_passed);
            let a = put(&t, "{passed}", &text::decimal_chars(summary.passed as u128));
            put(&a, "{runs}", &text::decimal_chars(summary.runs as u128))
        } else {
            let t = text::chars_of(self.typing_failed);
            let a = put(&t, "{passed}", &text::decimal_chars(summary.passed as u128));
            let b = put(&a, "{runs}", &text::decimal_chars(summary.runs as u128));
            let c = put(&b, "{missing}", &text::decimal_chars(summary.missing_keys as u128));
            put(&c, "{extra}", &text::decimal_chars(summary.extra_keys as u128))
        };
        let mut lines: Vec<String> = Vec::new();
        text::push_string(&mut lines, text::string_of(&first));
        assert(text::views(lines@) =~= seq![first@]);
        if summary.interrupted > 0 {
            let t = text::chars_of(self.typing_interrupted);
            let l = put(&t, "{count}", &text::decimal_chars(summary.interrupted as u128));
            text::push_string(&mut lines, text::string_of(&l));
        }
        if summary.blocked > 0 {
            let t = text::chars_of(self.typing_blocked);
            let l = put(&t, "{count}", &text::decimal_chars(summary.blocked as u128));
            text::push_string(&mut lines, text::string_of(&l));
        }
        if summary.sent_hold.count > 0 && summary.received_hold.count > 0 {
            let t = text::chars_of(self.typing_holds);
            let a = put(&t, "{sent}", &text::decimal_chars(mean_ms_of(&summary.sent_hold)));
            let b = put(&a, "{received}", &text::decimal_chars(mean_ms_of(&summary.received_hold)));
            text::push_string(&mut lines, text::string_of(&b));
        }
        (passed, lines)
    }

    /// The word for how a call ended.
    pub fn outcome(&self, outcome: RunOutcome) -> (r: &'static str)
        ensures
            r == (match outcome {
                RunOutcome::Completed => self.completed,
                RunOutcome::Aborted => self.aborted,
                RunOutcome::Blocked => self.blocked,
                RunOutcome::Unfocused => self.unfocused,
            }),
    {
        match outcome {
            RunOutcome::Completed => self.completed,
            RunOutcome::Aborted => self.aborted,
            RunOutcome::Blocked => self.blocked,
            RunOutcome::Unfocused => self.unfocused,
        }
    }

    /// Progress of the typing test: `{done}` and `{total}` filled in.
    pub fn typing_running(&self, done: usize, total: usize) -> (r: String)
        ensures
            r@ == text::replace_all(text::replace_all(self.typing_running@, "{done}"@, text::decimal(done as nat)), "{total}"@, text::decimal(total as nat)),
    {
        proof {
            reveal_strlit("{done}");
            reveal_strlit("{total}");
        }
        let t = text::chars_of(self.typing_running);
        let k1 = text::chars_of("{done}");
        let v1 = text::decimal_chars(done as u128);
        let a = text::replace_chars(&t, &k1, &v1);
        let k2 = text::chars_of("{total}");
        let v2 = text::decimal_chars(total as u128);
        let b = text::replace_chars(&a, &k2, &v2);
        text::string_of(&b)
    }
}

} // verus!
