# macro_hd2

Stratagem macros for Helldivers 2: the key tables, the game data, the build
generator, the settings, the data-API merge and the decisions of the macro
engine, written in Verus with their contracts.

## Layout

- `src/` — the verified library.
  - `text` — character-level helpers (trim, search, replace, decimal text).
  - `keys`, `settings`, `shared` — scancodes, preferences, thread messages.
  - `data` — stratagems, equipment, the wiki classification and the stats map.
  - `engine` — the key sequence of a stratagem, the held-key tracker, the
    intake of an order; `bench` — the timing trace of a run.
  - `hooks`, `focus`, `overlay`, `panel`, `tray`, `images` — the shortcut
    table and the hook's decisions, the focus rules, the overlay's states,
    the premultiplied pixels of an icon.
  - `bitmap_cache` — which icons stay in memory and which files are broken.
  - `builds` — random, meta and custom builds, saved builds; `chance` — the
    random draws it uses.
  - `data_sync`, `equipment_sync`, `equipment_api` — validation and merge of
    what the data API serves; `equipment_order` — the alphabetical order of
    the equipment lists through a merge.
  - `meta_stats` — the community statistics and their cache.
  - `game_config` — the game's video settings file.
  - `diag`, `i18n` — the debug records, the typing test, the texts.
  - `loadouts` — saved builds, slots and the backup's slots.
- `tests/` — tests of the library, run against the compiled crate.
- `app/` — the program around the library: files, network, JSON, threads.

The laws of the library are the public proof functions named `law_*`.
