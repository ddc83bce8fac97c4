//! Debug mode: what the records say about a call, a window and the machine,
//! the keys the player was holding, the typing test plan and the report
//! file. Reading the machine and writing the files happen outside.

use vstd::prelude::*;
use crate::data::{self, Dir, GameData};
use crate::game_config::Video;
use crate::settings::{opt_view, Language, Settings, Speed, SLOT_COUNT, SUPPORT_COUNT};
use crate::shared::Slots;
use crate::keys::Scan;
use crate::text;
use crate::chance;

verus! {

/// The debug log, one JSON record per line.
pub const LOG_FILE: &'static str = "debug.jsonl";
/// The previous log, kept when the current one passes [`LOG_LIMIT`].
pub const OLD_LOG_FILE: &'static str = "debug.old.jsonl";
/// Size at which the log turns over, in bytes.
pub const LOG_LIMIT: u64 = 4194304;
/// File of the machine id.
pub const ID_FILE: &'static str = "debug-id.txt";
/// Most records a report carries, the latest ones.
pub const MAX_EVENTS: usize = 5000;
/// Most bytes of the app's own log a report carries, the latest ones.
pub const MAX_APP_LOG: usize = 262144;

/// The game's executable.
pub const GAME_EXE: &'static str = "helldivers2.exe";

/// Executables known to remap the keyboard, inject input, cap the FPS or
/// draw an overlay over the game. The record says which are running; the full
/// process list never leaves the machine.
pub fn known_software() -> (r: Vec<&'static str>)
    ensures
        r@.len() == 33,
{
    let r = vec![
        "autohotkey.exe",
        "autohotkey32.exe",
        "autohotkey64.exe",
        "autohotkeyu32.exe",
        "autohotkeyu64.exe",
        "autohotkeyux.exe",
        "autoit3.exe",
        "autoit3_x64.exe",
        "powertoys.keyboardmanagerengine.exe",
        "xmousebuttoncontrol.exe",
        "rewasdservice.exe",
        "rewasdengine.exe",
        "rewasdtray.exe",
        "joytokey.exe",
        "ds4windows.exe",
        "x360ce.exe",
        "antimicrox.exe",
        "razer synapse 3.exe",
        "razer synapse service.exe",
        "razercentralservice.exe",
        "lghub.exe",
        "lghub_agent.exe",
        "lcore.exe",
        "icue.exe",
        "steelseriesgg.exe",
        "steelseriesengine.exe",
        "wootility.exe",
        "rtss.exe",
        "msiafterburner.exe",
        "nvidia overlay.exe",
        "discord.exe",
        "obs64.exe",
        "wemod.exe",
    ];
    r
}


/// The foreground window, as the record keeps it.
#[derive(Debug, Clone, Default, PartialEq, Eq)]
pub struct WindowInfo {
    /// `game`, `app`, `overlay` or `other`: the classification that arms the shortcuts.
    pub class: &'static str,
    /// Executable that owns the window, without its path.
    pub exe: Option<String>,
    /// Only for the game's window or the app's: third-party titles stay on the machine.
    pub title: Option<String>,
}

impl WindowInfo {
    /// The executable is the game's, classified as such or not.
    pub fn is_game_process(&self) -> (r: bool)
        ensures
            r == (self.exe matches Some(e) && text::eq_ignore_ascii_case(e@, GAME_EXE@)),
    {
        match &self.exe {
            Some(e) => {
                let a = text::chars_of(e.as_str());
                let b = text::chars_of(GAME_EXE);
                text::chars_eq_ignore_ascii_case(&a, &b)
            },
            None => false,
        }
    }
}

/// How a shortcut call ended.
#[derive(Debug, Clone, Copy, PartialEq, Eq, Structural)]
pub enum RunOutcome {
    /// Every key went out.
    Completed,
    /// The focus left the game midway; the guard released what was held.
    Aborted,
    /// Another sequence was still running: dropped with the red flash.
    Blocked,
    /// The focus fell between the shortcut and the engine waking up: nothing went out.
    Unfocused,
}

/// A shortcut pressed with the game in front but the macros disarmed: the
/// "I pressed and nothing came" that no other record would catch.
#[derive(Debug, Clone, PartialEq, Eq)]
pub struct Ignored {
    pub at: String,
    pub key: &'static str,
    pub slot: usize,
    pub support: bool,
    /// `unfocused` (the app did not take the window for the game) or
    /// `recording` (the settings tab was waiting for a shortcut).
    pub reason: &'static str,
    pub window: WindowInfo,
}

/// A focus switch that arms or disarms the shortcuts.
#[derive(Debug, Clone, PartialEq, Eq)]
pub struct Focus {
    pub at: String,
    pub armed: bool,
    pub window: WindowInfo,
}

/// The preferences that touch the macro, with the slots by name.
#[derive(Debug, Clone, PartialEq, Eq)]
pub struct SettingsSummary {
    pub speed: Speed,
    pub modifier: String,
    pub arrows: bool,
    pub overlay: bool,
    pub persistent_hud: bool,
    pub language: Language,
    pub shortcuts: [Option<String>; SLOT_COUNT],
    pub support_shortcuts: [Option<String>; SUPPORT_COUNT],
    pub slots: Vec<Option<String>>,
}

fn copy_opt(s: &Option<String>) -> (r: Option<String>)
    ensures
        r == *s,
{
    match s {
        Some(x) => Some(x.clone()),
        None => None,
    }
}

/// The name of the stratagem in a slot, if the id still exists.
pub open spec fn slot_name(data: &GameData, id: Option<u32>) -> Option<Seq<char>> {
    match data::resolve_id(data, id) {
        Some(s) => Some(s.nome@),
        None => None,
    }
}

impl SettingsSummary {
    /// The summary of the settings and the slots as they are now.
    pub fn of(settings: &Settings, slots: &Slots, data: &GameData) -> (r: SettingsSummary)
        requires
            data.wf(),
        ensures
            r.speed == settings.macro_speed,
            r.modifier == settings.modifier_key,
            r.arrows == settings.use_arrows,
            r.overlay == settings.enable_overlay,
            r.persistent_hud == settings.always_show_slots,
            r.language == settings.language,
            r.shortcuts@ == settings.shortcuts@,
            r.support_shortcuts@ == settings.support_shortcuts@,
            r.slots@.len() == SLOT_COUNT,
            forall|i: int| 0 <= i < SLOT_COUNT ==> (match #[trigger] r.slots@[i] {
                Some(n) => Some(n@),
                None => None,
            }) == slot_name(data, slots@[i]),
    {
        let mut names: Vec<Option<String>> = Vec::new();
        let mut i: usize = 0;
        while i < SLOT_COUNT
            invariant
                i <= SLOT_COUNT,
                data.wf(),
                names@.len() == i,
                forall|j: int| 0 <= j < i ==> (match #[trigger] names@[j] {
                    Some(n) => Some(n@),
                    None => None,
                }) == slot_name(data, slots@[j]),
            decreases SLOT_COUNT - i,
        {
            let name = match slots[i] {
                Some(id) => match data.by_id(id) {
                    Some(s) => Some(s.nome.clone()),
                    None => None,
                },
                None => None,
            };
            names.push(name);
            i += 1;
        }
        let shortcuts = [
            copy_opt(&settings.shortcuts[0]),
            copy_opt(&settings.shortcuts[1]),
            copy_opt(&settings.shortcuts[2]),
            copy_opt(&settings.shortcuts[3]),
        ];
        let support_shortcuts = [
            copy_opt(&settings.support_shortcuts[0]),
            copy_opt(&settings.support_shortcuts[1]),
            copy_opt(&settings.support_shortcuts[2]),
        ];
        assert(shortcuts@ =~= settings.shortcuts@);
        assert(support_shortcuts@ =~= settings.support_shortcuts@);
        SettingsSummary {
            speed: settings.macro_speed,
            modifier: settings.modifier_key.clone(),
            arrows: settings.use_arrows,
            overlay: settings.enable_overlay,
            persistent_hud: settings.always_show_slots,
            language: settings.language,
            shortcuts,
            support_shortcuts,
            slots: names,
        }
    }
}

/// The keys watched when a call fires, with their virtual-keys: movement,
/// modifiers and space.
pub open spec fn watched_names() -> Seq<Seq<char>> {
    seq!["W"@, "A"@, "S"@, "D"@, "UP"@, "DOWN"@, "LEFT"@, "RIGHT"@, "SHIFT"@, "CTRL"@, "ALT"@, "SPACE"@]
}

pub fn watched_keys() -> (r: Vec<(&'static str, u16)>)
    ensures
        r@.len() == 12,
        forall|i: int| 0 <= i < 12 ==> (#[trigger] r@[i]).0@ == watched_names()[i],
{
    let r = vec![
        ("W", 0x57u16),
        ("A", 0x41u16),
        ("S", 0x53u16),
        ("D", 0x44u16),
        ("UP", 0x26u16),
        ("DOWN", 0x28u16),
        ("LEFT", 0x25u16),
        ("RIGHT", 0x27u16),
        ("SHIFT", 0x10u16),
        ("CTRL", 0x11u16),
        ("ALT", 0x12u16),
        ("SPACE", 0x20u16),
    ];
    r
}

/// The names of the watched keys that are down, in the order of the list.
pub open spec fn held_names(pressed: Seq<bool>, n: int) -> Seq<Seq<char>>
    decreases n,
{
    if n <= 0 {
        Seq::empty()
    } else if pressed[n - 1] {
        held_names(pressed, n - 1).push(watched_names()[n - 1])
    } else {
        held_names(pressed, n - 1)
    }
}

/// Which watched keys are down, given the state of each (in the order of
/// [`watched_keys`]): the engine asks before the modifier, when what is held
/// is still the player's alone.
pub fn held_keys(pressed: &[bool]) -> (r: Vec<&'static str>)
    requires
        pressed@.len() == 12,
    ensures
        r@.map_values(|k: &'static str| k@) == held_names(pressed@, 12),
{
    let keys = watched_keys();
    let mut r: Vec<&'static str> = Vec::new();
    let mut i: usize = 0;
    while i < 12
        invariant
            i <= 12,
            pressed@.len() == 12,
            keys@.len() == 12,
            forall|j: int| 0 <= j < 12 ==> (#[trigger] keys@[j]).0@ == watched_names()[j],
            r@.map_values(|k: &'static str| k@) == held_names(pressed@, i as int),
        decreases 12 - i,
    {
        if pressed[i] {
            let ghost before = r@;
            r.push(keys[i].0);
            assert(r@.map_values(|k: &'static str| k@) =~= before.map_values(|k: &'static str| k@).push(watched_names()[i as int]));
        }
        i += 1;
    }
    r
}

/// The executables of the list that are running, when the process list could
/// be read; the comparison ignores ASCII case.
pub fn running_software(known: &Vec<&'static str>, processes: &Option<Vec<String>>) -> (r: Vec<&'static str>)
    ensures
        processes is None ==> r@.len() == 0,
        processes matches Some(list) ==> r@.map_values(|k: &'static str| k@) == running_of(known@.map_values(|k: &'static str| k@), text::views(list@), known@.len() as int),
{
    let mut r: Vec<&'static str> = Vec::new();
    match processes {
        None => r,
        Some(list) => {
            let ghost ks = known@.map_values(|k: &'static str| k@);
            let mut i: usize = 0;
            while i < known.len()
                invariant
                    i <= known@.len(),
                    ks == known@.map_values(|k: &'static str| k@),
                    r@.map_values(|k: &'static str| k@) == running_of(ks, text::views(list@), i as int),
                decreases known.len() - i,
            {
                let name = text::chars_of(known[i]);
                if is_running(list, &name) {
                    let ghost before = r@;
                    r.push(known[i]);
                    assert(r@.map_values(|k: &'static str| k@) =~= before.map_values(|k: &'static str| k@).push(ks[i as int]));
                }
                i += 1;
            }
            r
        },
    }
}

/// Some process has this name, ignoring ASCII case.
pub open spec fn spec_running(processes: Seq<Seq<char>>, name: Seq<char>) -> bool {
    exists|i: int| 0 <= i < processes.len() && text::eq_ignore_ascii_case(#[trigger] processes[i], name)
}

/// The names among the first `n` that are running.
pub open spec fn running_of(names: Seq<Seq<char>>, processes: Seq<Seq<char>>, n: int) -> Seq<Seq<char>>
    decreases n,
{
    if n <= 0 {
        Seq::empty()
    } else if spec_running(processes, names[n - 1]) {
        running_of(names, processes, n - 1).push(names[n - 1])
    } else {
        running_of(names, processes, n - 1)
    }
}

fn is_running(list: &Vec<String>, name: &Vec<char>) -> (r: bool)
    ensures
        r == spec_running(text::views(list@), name@),
{
    let mut i: usize = 0;
    while i < list.len()
        invariant
            i <= list@.len(),
            forall|j: int| 0 <= j < i ==> !text::eq_ignore_ascii_case(#[trigger] text::views(list@)[j], name@),
        decreases list.len() - i,
    {
        let p = text::chars_of(list[i].as_str());
        if text::chars_eq_ignore_ascii_case(&p, name) {
            assert(text::views(list@)[i as int] == p@);
            return true;
        }
        assert(text::views(list@)[i as int] == p@);
        i += 1;
    }
    false
}

/// Whether the game runs: unknown when the process list could not be read.
pub fn game_running(processes: &Option<Vec<String>>) -> (r: Option<bool>)
    ensures
        match processes {
            Some(list) => r == Some(spec_running(text::views(list@), GAME_EXE@)),
            None => r is None,
        },
{
    match processes {
        Some(list) => {
            let name = text::chars_of(GAME_EXE);
            Some(is_running(list, &name))
        },
        None => None,
    }
}

/// Windows version data.
#[derive(Debug, Clone, Default, PartialEq, Eq)]
pub struct Os {
    pub product: Option<String>,
    /// `23H2`, `24H2`...
    pub version: Option<String>,
    /// Build with revision (`26100.4061`); from 22000 on it is Windows 11.
    pub build: Option<String>,
}

/// The main display.
#[derive(Debug, Clone, Copy, Default, PartialEq, Eq)]
pub struct Display {
    pub width: u32,
    pub height: u32,
    pub refresh_hz: u32,
}

/// What the machine says about the game.
#[derive(Debug, Clone, Default, PartialEq, Eq)]
pub struct Game {
    /// The game's settings file exists: the game was opened by this user.
    pub config_found: bool,
    pub video: Option<Video>,
    pub running: Option<bool>,
}

/// The whole picture of the machine.
#[derive(Debug, Clone, Default, PartialEq, Eq)]
pub struct Environment {
    pub app_version: &'static str,
    pub os: Option<Os>,
    pub cpu_threads: Option<usize>,
    pub ram_mb: Option<u64>,
    /// Keyboard layout of the window in focus, as the system names it.
    pub keyboard_layout: Option<String>,
    pub display: Option<Display>,
    /// The app runs elevated, as the installer asks.
    pub elevated: Option<bool>,
    /// The system's deadline for the keyboard hook, when it was changed.
    pub hooks_timeout_ms: Option<u32>,
    pub game: Game,
    /// Which of the known executables are running.
    pub software: Vec<&'static str>,
}

/// The record of the game, from what was read of the machine.
pub fn game_of(video: Option<Video>, processes: &Option<Vec<String>>) -> (g: Game)
    ensures
        g.config_found == video is Some,
        g.video == video,
        g.running == (match processes {
            Some(list) => Some(spec_running(text::views(list@), GAME_EXE@)),
            None => None,
        }),
{
    Game { config_found: video.is_some(), video, running: game_running(processes) }
}

// --- Timing ---

/// `a - b`, or zero when `b` is later: the durations come from a monotonic
/// clock, where a later event is never earlier.
pub open spec fn since(a: u64, b: u64) -> u64 {
    if a >= b { (a - b) as u64 } else { 0 }
}

fn elapsed(a: u64, b: u64) -> (r: u64)
    ensures
        r == since(a, b),
{
    if a >= b { a - b } else { 0 }
}

/// A key the engine sent.
#[derive(Debug, Clone, Copy, PartialEq, Eq)]
pub struct Stamp {
    /// Microseconds since the modifier went down.
    pub at_us: u64,
    pub key: &'static str,
    pub up: bool,
    /// `false` is Windows refusing the injection.
    pub ok: bool,
}

/// The real times of a sequence, read from its stamps (microseconds).
#[derive(Debug, Clone, PartialEq, Eq)]
pub struct Timing {
    pub lead_us: Option<u64>,
    /// How long each direction was held.
    pub holds_us: Vec<u64>,
    /// Between releasing a direction and pressing the next one.
    pub gaps_us: Vec<u64>,
    /// From the last direction released to the modifier released.
    pub tail_us: Option<u64>,
}

/// Timing as values, with the scan's state: when the last direction went down
/// (until it is released) and when the last one was released.
pub struct TimingScan {
    pub lead: Option<u64>,
    pub holds: Seq<u64>,
    pub gaps: Seq<u64>,
    pub tail: Option<u64>,
    pub pressed: Option<u64>,
    pub released: Option<u64>,
}

/// When the modifier first went down.
pub open spec fn modifier_down(stamps: Seq<Stamp>, modifier: Seq<char>) -> Option<u64>
    decreases stamps.len(),
{
    if stamps.len() == 0 {
        None
    } else if stamps[0].key@ == modifier && !stamps[0].up {
        Some(stamps[0].at_us)
    } else {
        modifier_down(stamps.drop_first(), modifier)
    }
}

/// One stamp read: the modifier going up closes the tail; a direction going
/// down opens a hold (after a gap, or after the lead for the first one); a
/// direction going up closes the open hold. A release without a press counts
/// for nothing.
pub open spec fn timing_step(acc: TimingScan, s: Stamp, modifier: Seq<char>, down: Option<u64>) -> TimingScan {
    if s.key@ == modifier {
        if s.up {
            TimingScan { tail: match acc.released { Some(at) => Some(since(s.at_us, at)), None => None }, ..acc }
        } else {
            acc
        }
    } else if !s.up {
        match acc.released {
            Some(at) => TimingScan { gaps: acc.gaps.push(since(s.at_us, at)), pressed: Some(s.at_us), ..acc },
            None => TimingScan { lead: match down { Some(at) => Some(since(s.at_us, at)), None => None }, pressed: Some(s.at_us), ..acc },
        }
    } else {
        match acc.pressed {
            Some(at) => TimingScan { holds: acc.holds.push(since(s.at_us, at)), released: Some(s.at_us), pressed: None, ..acc },
            None => acc,
        }
    }
}

pub open spec fn timing_scan(stamps: Seq<Stamp>, modifier: Seq<char>, down: Option<u64>) -> TimingScan
    decreases stamps.len(),
{
    if stamps.len() == 0 {
        TimingScan { lead: None, holds: Seq::empty(), gaps: Seq::empty(), tail: None, pressed: None, released: None }
    } else {
        timing_step(timing_scan(stamps.drop_last(), modifier, down), stamps.last(), modifier, down)
    }
}

/// The timing of a sequence: modifier, direction pairs and modifier again.
pub open spec fn spec_timing(stamps: Seq<Stamp>, modifier: Seq<char>) -> TimingScan {
    timing_scan(stamps, modifier, modifier_down(stamps, modifier))
}

fn find_modifier_down(stamps: &[Stamp], modifier: &str) -> (r: Option<u64>)
    ensures
        r == modifier_down(stamps@, modifier@),
{
    let mut i: usize = 0;
    assert(stamps@.skip(0) =~= stamps@);
    while i < stamps.len()
        invariant
            i <= stamps@.len(),
            modifier_down(stamps@, modifier@) == modifier_down(stamps@.skip(i as int), modifier@),
        decreases stamps.len() - i,
    {
        assert(stamps@.skip(i as int)[0] == stamps@[i as int]);
        if text::str_eq(stamps[i].key, modifier) && !stamps[i].up {
            return Some(stamps[i].at_us);
        }
        assert(stamps@.skip(i as int).drop_first() =~= stamps@.skip(i + 1));
        i += 1;
    }
    None
}

impl Timing {
    /// Reads the intervals of a sequence. An aborted sequence yields only its
    /// complete pairs.
    pub fn of(stamps: &[Stamp], modifier: &str) -> (t: Timing)
        ensures
            t.lead_us == spec_timing(stamps@, modifier@).lead,
            t.holds_us@ == spec_timing(stamps@, modifier@).holds,
            t.gaps_us@ == spec_timing(stamps@, modifier@).gaps,
            t.tail_us == spec_timing(stamps@, modifier@).tail,
    {
        let down = find_modifier_down(stamps, modifier);
        let mut t = Timing { lead_us: None, holds_us: Vec::new(), gaps_us: Vec::new(), tail_us: None };
        let mut pressed: Option<u64> = None;
        let mut released: Option<u64> = None;
        let mut i: usize = 0;
        assert(stamps@.take(0) =~= Seq::<Stamp>::empty());
        while i < stamps.len()
            invariant
                i <= stamps@.len(),
                down == modifier_down(stamps@, modifier@),
                ({
                    let sc = timing_scan(stamps@.take(i as int), modifier@, down);
                    &&& t.lead_us == sc.lead
                    &&& t.holds_us@ == sc.holds
                    &&& t.gaps_us@ == sc.gaps
                    &&& t.tail_us == sc.tail
                    &&& pressed == sc.pressed
                    &&& released == sc.released
                }),
            decreases stamps.len() - i,
        {
            assert(stamps@.take(i + 1).drop_last() =~= stamps@.take(i as int));
            assert(stamps@.take(i + 1).last() == stamps@[i as int]);
            let stamp = stamps[i];
            if text::str_eq(stamp.key, modifier) {
                if stamp.up {
                    t.tail_us = match released {
                        Some(at) => Some(elapsed(stamp.at_us, at)),
                        None => None,
                    };
                }
            } else if !stamp.up {
                match released {
                    Some(at) => t.gaps_us.push(elapsed(stamp.at_us, at)),
                    None => {
                        t.lead_us = match down {
                            Some(at) => Some(elapsed(stamp.at_us, at)),
                            None => None,
                        };
                    },
                }
                pressed = Some(stamp.at_us);
            } else {
                match pressed {
                    Some(at) => {
                        t.holds_us.push(elapsed(stamp.at_us, at));
                        released = Some(stamp.at_us);
                        pressed = None;
                    },
                    None => {},
                }
            }
            i += 1;
        }
        assert(stamps@.take(stamps@.len() as int) =~= stamps@);
        t
    }
}

/// Minimum, total and maximum of a measure, gathered without keeping the
/// sample; the mean is `total / count`.
#[derive(Debug, Clone, Copy, Default, PartialEq, Eq, Structural)]
pub struct Spread {
    pub count: u32,
    pub min: u64,
    pub max: u64,
    pub total: u128,
}

impl Spread {
    pub open spec fn spec_add(self, value: u64) -> Spread {
        Spread {
            count: (self.count + 1) as u32,
            min: if self.count == 0 || value < self.min { value } else { self.min },
            max: if self.count == 0 || value > self.max { value } else { self.max },
            total: (self.total + value) as u128,
        }
    }

    /// The total is never more than `count` values could make.
    pub open spec fn bounded(self) -> bool {
        self.total <= self.count * 0xffff_ffff_ffff_ffffnat
    }

    pub fn add(&mut self, value: u64)
        requires
            old(self).count < u32::MAX,
            old(self).bounded(),
        ensures
            *final(self) == old(self).spec_add(value),
            final(self).bounded(),
    {
        proof {
            let c: nat = old(self).count as nat;
            assert(c * 0xffff_ffff_ffff_ffffnat + 0xffff_ffff_ffff_ffffnat <= 0xffff_ffff_ffff_ffff_ffff_ffff_ffff_ffffnat) by (nonlinear_arith)
                requires
                    c < 0xffff_ffffnat;
        }
        if self.count == 0 {
            self.min = value;
            self.max = value;
        } else {
            if value < self.min {
                self.min = value;
            }
            if value > self.max {
                self.max = value;
            }
        }
        self.total = self.total + value as u128;
        self.count = self.count + 1;
    }
}

/// A spread of `n` values gathered one by one keeps the least and the greatest
/// of them, and their sum.
pub proof fn law_spread_keeps_min_and_max(s: Spread, value: u64)
    requires
        s.count < u32::MAX,
        s.bounded(),
    ensures
        s.spec_add(value).min <= value <= s.spec_add(value).max,
        s.count > 0 ==> s.spec_add(value).min <= s.min && s.spec_add(value).max >= s.max,
        s.spec_add(value).total == s.total + value,
        s.spec_add(value).count == s.count + 1,
{
}

// --- Typing test ---

/// Runs per test: half with each codex.
pub const RUNS: usize = 10;

/// The test plan: Reinforce, five different directions in a row, and Eagle
/// Rearm, which starts with two equal ones (a repeated direction is where a
/// short gap can merge two keys into one), taking turns.
pub fn plan() -> (r: Vec<Vec<Dir>>)
    ensures
        r@.len() == RUNS,
        forall|i: int| 0 <= i < RUNS ==> (#[trigger] r@[i])@ == data::support_codexes()[if i % 2 == 0 { 0int } else { 2int }],
{
    let supports = data::support_strats();
    let mut r: Vec<Vec<Dir>> = Vec::new();
    let mut run: usize = 0;
    while run < RUNS
        invariant
            run <= RUNS,
            supports@.len() == 3,
            forall|j: int| 0 <= j < 3 ==> (#[trigger] supports@[j]).codex@ == data::support_codexes()[j],
            r@.len() == run,
            forall|i: int| 0 <= i < run ==> (#[trigger] r@[i])@ == data::support_codexes()[if i % 2 == 0 { 0int } else { 2int }],
        decreases RUNS - run,
    {
        let which: usize = if run % 2 == 0 { 0 } else { 2 };
        r.push(crate::hooks::copy_codex(&supports[which].codex));
        run += 1;
    }
    r
}

/// A key that arrived at the window.
#[derive(Debug, Clone, Copy, PartialEq, Eq)]
pub struct Received {
    pub key: &'static str,
    pub up: bool,
    /// Microseconds on a monotonic clock.
    pub at_us: u64,
}

/// The verdict of one run.
#[derive(Debug, Clone, PartialEq, Eq)]
pub struct RunCheck {
    pub codex: Vec<Dir>,
    pub outcome: RunOutcome,
    /// Events the engine sent (downs and ups).
    pub sent: usize,
    /// Sent events that arrived, in the same order.
    pub matched: usize,
    pub missing: usize,
    /// Arrived without being sent: a physical key in the middle of the test, or
    /// a repeat made up by another program.
    pub extra: usize,
    /// How long each direction was held, measured on arrival (it includes the
    /// delay of the window's message queue).
    pub received_holds_us: Vec<u64>,
    pub sent_holds_us: Vec<u64>,
}

impl RunCheck {
    pub open spec fn spec_passed(&self) -> bool {
        self.outcome == RunOutcome::Completed && self.missing == 0 && self.extra == 0
    }

    pub fn passed(&self) -> (r: bool)
        ensures
            r == self.spec_passed(),
    {
        self.outcome == RunOutcome::Completed && self.missing == 0 && self.extra == 0
    }
}

/// The first received event at or after `from` with this key and direction.
pub open spec fn next_match(recv: Seq<Received>, from: int, key: Seq<char>, up: bool) -> Option<int>
    decreases recv.len() - from,
{
    if from < 0 || from >= recv.len() {
        None
    } else if recv[from].key@ == key && recv[from].up == up {
        Some(from)
    } else {
        next_match(recv, from + 1, key, up)
    }
}

/// The greedy matching after `n` sent events: where the search goes on,
/// how many matched, and which received events were used.
pub struct MatchScan {
    pub cursor: int,
    pub matched: nat,
    pub used: Seq<bool>,
}

/// Each sent event looks for the next equal received one from where the
/// previous match stopped.
pub open spec fn match_scan(sent: Seq<Stamp>, recv: Seq<Received>, n: int) -> MatchScan
    decreases n,
{
    if n <= 0 {
        MatchScan { cursor: 0, matched: 0, used: Seq::new(recv.len(), |i: int| false) }
    } else {
        let acc = match_scan(sent, recv, n - 1);
        match next_match(recv, acc.cursor, sent[n - 1].key@, sent[n - 1].up) {
            Some(j) => MatchScan { cursor: j + 1, matched: acc.matched + 1, used: acc.used.update(j, true) },
            None => acc,
        }
    }
}

/// How many flags are down.
pub open spec fn count_false(s: Seq<bool>) -> nat
    decreases s.len(),
{
    if s.len() == 0 {
        0
    } else {
        count_false(s.drop_last()) + if s.last() { 0nat } else { 1nat }
    }
}

/// The first later release of the same key.
pub open spec fn next_release(recv: Seq<Received>, from: int, key: Seq<char>) -> Option<int> {
    next_match(recv, from, key, true)
}

/// Holds on arrival: each direction down to the next release of the same key
/// (the modifier does not count).
pub open spec fn received_holds(recv: Seq<Received>, modifier: Option<Seq<char>>, n: int) -> Seq<u64>
    decreases n,
{
    if n <= 0 {
        Seq::empty()
    } else {
        let rest = received_holds(recv, modifier, n - 1);
        let e = recv[n - 1];
        if e.up || modifier == Some(e.key@) {
            rest
        } else {
            match next_release(recv, n, e.key@) {
                Some(j) => rest.push(since(recv[j].at_us, e.at_us)),
                None => rest,
            }
        }
    }
}

/// The key the run started with: the modifier.
pub open spec fn first_key(sent: Seq<Stamp>) -> Option<Seq<char>> {
    if sent.len() == 0 { None } else { Some(sent[0].key@) }
}

proof fn lemma_match_scan(sent: Seq<Stamp>, recv: Seq<Received>, n: int)
    requires
        0 <= n <= sent.len(),
    ensures
        match_scan(sent, recv, n).matched <= n,
        match_scan(sent, recv, n).used.len() == recv.len(),
        0 <= match_scan(sent, recv, n).cursor <= recv.len(),
    decreases n,
{
    if n > 0 {
        lemma_match_scan(sent, recv, n - 1);
        let acc = match_scan(sent, recv, n - 1);
        lemma_next_match(recv, acc.cursor, sent[n - 1].key@, sent[n - 1].up);
    }
}

proof fn lemma_next_match(recv: Seq<Received>, from: int, key: Seq<char>, up: bool)
    ensures
        next_match(recv, from, key, up) matches Some(j) ==> from <= j < recv.len() && recv[j].key@ == key && recv[j].up == up
            && forall|k: int| from <= k < j ==> !(recv[k].key@ == key && recv[k].up == up),
        next_match(recv, from, key, up) is None && from >= 0 ==> forall|k: int| from <= k < recv.len() ==> !(recv[k].key@ == key && recv[k].up == up),
    decreases recv.len() - from,
{
    if 0 <= from < recv.len() && !(recv[from].key@ == key && recv[from].up == up) {
        lemma_next_match(recv, from + 1, key, up);
    }
}

fn find_match(recv: &[Received], from: usize, key: &str, up: bool) -> (r: Option<usize>)
    requires
        from <= recv@.len(),
    ensures
        r matches Some(j) ==> next_match(recv@, from as int, key@, up) == Some(j as int),
        r is None ==> next_match(recv@, from as int, key@, up) is None,
{
    let mut j = from;
    while j < recv.len()
        invariant
            from <= j <= recv@.len(),
            next_match(recv@, from as int, key@, up) == next_match(recv@, j as int, key@, up),
        decreases recv.len() - j,
    {
        if text::str_eq(recv[j].key, key) && recv[j].up == up {
            return Some(j);
        }
        j += 1;
    }
    None
}

fn dirs_of(codex: &[Dir]) -> (r: Vec<Dir>)
    ensures
        r@ == codex@,
{
    let mut r: Vec<Dir> = Vec::new();
    let mut i: usize = 0;
    while i < codex.len()
        invariant
            i <= codex@.len(),
            r@ == codex@.take(i as int),
        decreases codex.len() - i,
    {
        r.push(codex[i]);
        assert(r@ =~= codex@.take(i + 1));
        i += 1;
    }
    assert(codex@.take(codex@.len() as int) =~= codex@);
    r
}

/// Compares what was sent with what arrived (`check`). Greedy matching in
/// order; what is left on either side is missing or extra.
pub fn check(codex: &[Dir], outcome: RunOutcome, sent: &[Stamp], received: &[Received]) -> (r: RunCheck)
    ensures
        r.codex@ == codex@,
        r.outcome == outcome,
        r.sent == sent@.len(),
        r.matched == match_scan(sent@, received@, sent@.len() as int).matched,
        r.missing == sent@.len() - r.matched,
        r.extra == count_false(match_scan(sent@, received@, sent@.len() as int).used),
        r.received_holds_us@ == received_holds(received@, first_key(sent@), received@.len() as int),
        r.sent_holds_us@ == match first_key(sent@) {
            Some(m) => spec_timing(sent@, m).holds,
            None => Seq::<u64>::empty(),
        },
{
    let mut used: Vec<bool> = Vec::new();
    while used.len() < received.len()
        invariant
            used@.len() <= received@.len(),
            forall|k: int| 0 <= k < used@.len() ==> !used@[k],
        decreases received.len() - used.len(),
    {
        used.push(false);
    }
    assert(used@ =~= Seq::new(received@.len(), |i: int| false));
    let mut cursor: usize = 0;
    let mut matched: usize = 0;
    let mut i: usize = 0;
    while i < sent.len()
        invariant
            i <= sent@.len(),
            ({
                let sc = match_scan(sent@, received@, i as int);
                &&& cursor == sc.cursor
                &&& matched == sc.matched
                &&& used@ == sc.used
            }),
            cursor <= received@.len(),
        decreases sent.len() - i,
    {
        proof {
            lemma_match_scan(sent@, received@, i as int);
        }
        if let Some(j) = find_match(received, cursor, sent[i].key, sent[i].up) {
            proof {
                lemma_next_match(received@, cursor as int, sent@[i as int].key@, sent@[i as int].up);
            }
            let n = received.len();
            assert(j < n);
            used.set(j, true);
            cursor = j + 1;
            matched = matched + 1;
        }
        i += 1;
    }
    proof {
        lemma_match_scan(sent@, received@, sent@.len() as int);
    }
    let mut extra: usize = 0;
    let mut k: usize = 0;
    assert(used@.take(0) =~= Seq::<bool>::empty());
    while k < used.len()
        invariant
            k <= used@.len(),
            extra == count_false(used@.take(k as int)),
            extra <= k,
        decreases used.len() - k,
    {
        assert(used@.take(k + 1).drop_last() =~= used@.take(k as int));
        if !used[k] {
            extra = extra + 1;
        }
        k += 1;
    }
    assert(used@.take(used@.len() as int) =~= used@);

    let modifier: Option<&str> = if sent.len() > 0 { Some(sent[0].key) } else { None };
    let mut holds: Vec<u64> = Vec::new();
    let mut e: usize = 0;
    while e < received.len()
        invariant
            e <= received@.len(),
            modifier matches Some(m) ==> first_key(sent@) == Some(m@),
            modifier is None ==> first_key(sent@) is None,
            holds@ == received_holds(received@, first_key(sent@), e as int),
        decreases received.len() - e,
    {
        let event = received[e];
        let is_modifier = match modifier {
            Some(m) => text::str_eq(event.key, m),
            None => false,
        };
        if !event.up && !is_modifier {
            if let Some(j) = find_match(received, e + 1, event.key, true) {
                proof {
                    lemma_next_match(received@, e + 1, event.key@, true);
                }
                holds.push(elapsed(received[j].at_us, event.at_us));
            }
        }
        e += 1;
    }
    let sent_holds = match modifier {
        Some(m) => Timing::of(sent, m).holds_us,
        None => Vec::new(),
    };
    RunCheck {
        codex: dirs_of(codex),
        outcome,
        sent: sent.len(),
        matched,
        missing: sent.len() - matched,
        extra,
        received_holds_us: holds,
        sent_holds_us: sent_holds,
    }
}

/// Summary of the whole test, for the panel and the log.
#[derive(Debug, Clone, Copy, Default, PartialEq, Eq, Structural)]
pub struct Summary {
    pub runs: usize,
    pub passed: usize,
    pub missing_keys: usize,
    pub extra_keys: usize,
    /// Runs the engine interrupted: the focus left the window midway.
    pub interrupted: usize,
    /// Runs refused because a real shortcut fired during the test.
    pub blocked: usize,
    pub sent_hold: Spread,
    pub received_hold: Spread,
}

/// A finished typing test.
#[derive(Debug, Clone, PartialEq, Eq)]
pub struct TypingRecord {
    pub at: String,
    pub speed: Speed,
    pub arrows: bool,
    pub summary: Summary,
    pub runs: Vec<RunCheck>,
}

/// The opening of a session: a picture of the machine and of the preferences.
#[derive(Debug, Clone, PartialEq, Eq)]
pub struct Session {
    pub at: String,
    pub id: String,
    pub environment: Environment,
    pub settings: SettingsSummary,
}

/// A spread with every value added, in order.
pub open spec fn spread_all(s: Spread, values: Seq<u64>) -> Spread
    decreases values.len(),
{
    if values.len() == 0 {
        s
    } else {
        spread_all(s, values.drop_last()).spec_add(values.last())
    }
}

pub open spec fn summary_step(acc: Summary, c: RunCheck) -> Summary {
    Summary {
        runs: acc.runs,
        passed: (acc.passed + if c.spec_passed() { 1int } else { 0int }) as usize,
        missing_keys: (acc.missing_keys + c.missing) as usize,
        extra_keys: (acc.extra_keys + c.extra) as usize,
        interrupted: (acc.interrupted + if c.outcome == RunOutcome::Aborted || c.outcome == RunOutcome::Unfocused { 1int } else { 0int }) as usize,
        blocked: (acc.blocked + if c.outcome == RunOutcome::Blocked { 1int } else { 0int }) as usize,
        sent_hold: spread_all(acc.sent_hold, c.sent_holds_us@),
        received_hold: spread_all(acc.received_hold, c.received_holds_us@),
    }
}

pub open spec fn spec_summary(checks: Seq<RunCheck>) -> Summary
    decreases checks.len(),
{
    if checks.len() == 0 {
        Summary {
            runs: 0,
            passed: 0,
            missing_keys: 0,
            extra_keys: 0,
            interrupted: 0,
            blocked: 0,
            sent_hold: Spread { count: 0, min: 0, max: 0, total: 0 },
            received_hold: Spread { count: 0, min: 0, max: 0, total: 0 },
        }
    } else {
        summary_step(spec_summary(checks.drop_last()), checks.last())
    }
}

/// Totals of the checks: what the summary adds up.
pub open spec fn total_of(checks: Seq<RunCheck>, f: spec_fn(RunCheck) -> nat) -> nat
    decreases checks.len(),
{
    if checks.len() == 0 {
        0
    } else {
        total_of(checks.drop_last(), f) + f(checks.last())
    }
}

pub open spec fn missing_of(c: RunCheck) -> nat {
    c.missing as nat
}

pub open spec fn extra_of(c: RunCheck) -> nat {
    c.extra as nat
}

/// The sums of the summary fit their counters.
pub open spec fn summary_fits(checks: Seq<RunCheck>) -> bool {
    &&& total_of(checks, |c: RunCheck| missing_of(c)) <= usize::MAX
    &&& total_of(checks, |c: RunCheck| extra_of(c)) <= usize::MAX
    &&& total_of(checks, |c: RunCheck| c.sent_holds_us@.len()) < u32::MAX
    &&& total_of(checks, |c: RunCheck| c.received_holds_us@.len()) < u32::MAX
}

proof fn lemma_total_prefix(checks: Seq<RunCheck>, f: spec_fn(RunCheck) -> nat, n: int)
    requires
        0 <= n <= checks.len(),
    ensures
        total_of(checks.take(n), f) <= total_of(checks, f),
    decreases checks.len() - n,
{
    if n < checks.len() {
        lemma_total_prefix(checks, f, n + 1);
        assert(checks.take(n + 1).drop_last() =~= checks.take(n));
    } else {
        assert(checks.take(n) =~= checks);
    }
}

fn add_all(s: &mut Spread, values: &Vec<u64>)
    requires
        old(s).bounded(),
        old(s).count + values@.len() < u32::MAX,
    ensures
        *final(s) == spread_all(*old(s), values@),
        final(s).bounded(),
        final(s).count == old(s).count + values@.len(),
{
    let mut i: usize = 0;
    assert(values@.take(0) =~= Seq::<u64>::empty());
    while i < values.len()
        invariant
            i <= values@.len(),
            old(s).count + values@.len() < u32::MAX,
            *s == spread_all(*old(s), values@.take(i as int)),
            s.bounded(),
            s.count == old(s).count + i,
        decreases values.len() - i,
    {
        assert(values@.take(i + 1).drop_last() =~= values@.take(i as int));
        s.add(values[i]);
        i += 1;
    }
    assert(values@.take(values@.len() as int) =~= values@);
}

impl Summary {
    /// Sums up the checked runs.
    pub fn of(checks: &[RunCheck]) -> (r: Summary)
        requires
            summary_fits(checks@),
        ensures
            r == (Summary { runs: checks@.len() as usize, ..spec_summary(checks@) }),
    {
        let mut r = Summary {
            runs: 0,
            passed: 0,
            missing_keys: 0,
            extra_keys: 0,
            interrupted: 0,
            blocked: 0,
            sent_hold: Spread { count: 0, min: 0, max: 0, total: 0 },
            received_hold: Spread { count: 0, min: 0, max: 0, total: 0 },
        };
        let ghost fm = |c: RunCheck| missing_of(c);
        let ghost fe = |c: RunCheck| extra_of(c);
        let ghost fs = |c: RunCheck| c.sent_holds_us@.len();
        let ghost fr = |c: RunCheck| c.received_holds_us@.len();
        let mut i: usize = 0;
        assert(checks@.take(0) =~= Seq::<RunCheck>::empty());
        while i < checks.len()
            invariant
                i <= checks@.len(),
                fm == (|c: RunCheck| missing_of(c)),
                fe == (|c: RunCheck| extra_of(c)),
                fs == (|c: RunCheck| c.sent_holds_us@.len()),
                fr == (|c: RunCheck| c.received_holds_us@.len()),
                summary_fits(checks@),
                r == spec_summary(checks@.take(i as int)),
                r.missing_keys == total_of(checks@.take(i as int), fm),
                r.extra_keys == total_of(checks@.take(i as int), fe),
                r.sent_hold.count == total_of(checks@.take(i as int), fs),
                r.received_hold.count == total_of(checks@.take(i as int), fr),
                r.passed <= i,
                r.interrupted <= i,
                r.blocked <= i,
                r.sent_hold.bounded(),
                r.received_hold.bounded(),
            decreases checks.len() - i,
        {
            let c = &checks[i];
            assert(checks@.take(i + 1).drop_last() =~= checks@.take(i as int));
            assert(checks@.take(i + 1).last() == *c);
            proof {
                lemma_total_prefix(checks@, fm, i + 1);
                lemma_total_prefix(checks@, fe, i + 1);
                lemma_total_prefix(checks@, fs, i + 1);
                lemma_total_prefix(checks@, fr, i + 1);
                assert(total_of(checks@.take(i + 1), fm) == total_of(checks@.take(i as int), fm) + fm(*c));
                assert(fm(*c) == c.missing);
                assert(total_of(checks@.take(i + 1), fe) == total_of(checks@.take(i as int), fe) + fe(*c));
                assert(fe(*c) == c.extra);
                assert(total_of(checks@.take(i + 1), fs) == total_of(checks@.take(i as int), fs) + c.sent_holds_us@.len());
                assert(total_of(checks@.take(i + 1), fr) == total_of(checks@.take(i as int), fr) + c.received_holds_us@.len());
            }
            if c.passed() {
                r.passed = r.passed + 1;
            }
            r.missing_keys = r.missing_keys + c.missing;
            r.extra_keys = r.extra_keys + c.extra;
            match c.outcome {
                RunOutcome::Completed => {},
                RunOutcome::Blocked => {
                    r.blocked = r.blocked + 1;
                },
                RunOutcome::Aborted | RunOutcome::Unfocused => {
                    r.interrupted = r.interrupted + 1;
                },
            }
            add_all(&mut r.sent_hold, &c.sent_holds_us);
            add_all(&mut r.received_hold, &c.received_holds_us);
            i += 1;
        }
        assert(checks@.take(checks@.len() as int) =~= checks@);
        r.runs = checks.len();
        r
    }
}

/// A test running or finished, as the window sees it. The preferences are
/// frozen at the start: changing the speed midway would mix two profiles in
/// one result.
#[derive(Debug, Clone)]
pub struct TypingTest {
    pub speed: Speed,
    pub arrows: bool,
    pub modifier: Scan,
    plan: Vec<Vec<Dir>>,
    received: Vec<Received>,
    /// What the engine said it sent in the current run, waiting for the last
    /// keys to arrive.
    sent: Option<(RunOutcome, Vec<Stamp>)>,
    checks: Vec<RunCheck>,
}

/// The codex of run `i` of the plan.
pub open spec fn plan_codex(i: int) -> Seq<Dir> {
    data::support_codexes()[if i % 2 == 0 { 0int } else { 2int }]
}

impl TypingTest {
    pub closed spec fn plan_of(&self) -> Seq<Seq<Dir>> {
        self.plan@.map_values(|c: Vec<Dir>| c@)
    }

    /// The preferences frozen at the start: speed, arrows, modifier.
    pub closed spec fn frozen(&self) -> (Speed, bool, Scan) {
        (self.speed, self.arrows, self.modifier)
    }

    pub closed spec fn received_of(&self) -> Seq<Received> {
        self.received@
    }

    pub closed spec fn pending(&self) -> Option<(RunOutcome, Seq<Stamp>)> {
        match self.sent {
            Some((o, v)) => Some((o, v@)),
            None => None,
        }
    }

    pub closed spec fn checks_of(&self) -> Seq<RunCheck> {
        self.checks@
    }

    pub open spec fn spec_done(&self) -> bool {
        self.checks_of().len() >= self.plan_of().len()
    }

    pub fn new(speed: Speed, arrows: bool, modifier: Scan) -> (t: TypingTest)
        ensures
            t.frozen() == (speed, arrows, modifier),
            t.plan_of().len() == RUNS,
            forall|i: int| 0 <= i < RUNS ==> #[trigger] t.plan_of()[i] == plan_codex(i),
            t.received_of().len() == 0,
            t.pending() is None,
            t.checks_of().len() == 0,
    {
        let t = TypingTest { speed, arrows, modifier, plan: plan(), received: Vec::new(), sent: None, checks: Vec::new() };
        assert forall|i: int| 0 <= i < RUNS implies #[trigger] t.plan_of()[i] == plan_codex(i) by {
            assert(t.plan_of()[i] == t.plan@[i]@);
        }
        t
    }

    /// Codex of the run to type now; `None` with the test over.
    pub fn current(&self) -> (r: Option<Vec<Dir>>)
        ensures
            self.checks_of().len() < self.plan_of().len() ==> (r matches Some(c) && c@ == self.plan_of()[self.checks_of().len() as int]),
            self.checks_of().len() >= self.plan_of().len() ==> r is None,
    {
        let k = self.checks.len();
        if k < self.plan.len() {
            Some(crate::hooks::copy_codex(&self.plan[k]))
        } else {
            None
        }
    }

    pub fn done(&self) -> (r: bool)
        ensures
            r == self.spec_done(),
    {
        self.checks.len() >= self.plan.len()
    }

    /// Runs checked and the total, for the "3/10" of the panel.
    pub fn progress(&self) -> (r: (usize, usize))
        ensures
            r == (self.checks_of().len() as usize, self.plan_of().len() as usize),
    {
        (self.checks.len(), self.plan.len())
    }

    /// A key arrived at the window; once the test is over keys are not recorded.
    pub fn on_key(&mut self, key: &'static str, up: bool, at_us: u64)
        ensures
            !old(self).spec_done() ==> final(self).received_of() == old(self).received_of().push(Received { key, up, at_us }),
            old(self).spec_done() ==> final(self).received_of() == old(self).received_of(),
            final(self).plan_of() == old(self).plan_of(),
            final(self).pending() == old(self).pending(),
            final(self).checks_of() == old(self).checks_of(),
            final(self).frozen() == old(self).frozen(),
    {
        if !self.done() {
            self.received.push(Received { key, up, at_us });
        }
    }

    /// The engine finished the run. The check waits for the window to drain the
    /// keys still in its queue.
    pub fn on_sent(&mut self, outcome: RunOutcome, stamps: Vec<Stamp>)
        ensures
            final(self).pending() == Some((outcome, stamps@)),
            final(self).received_of() == old(self).received_of(),
            final(self).plan_of() == old(self).plan_of(),
            final(self).checks_of() == old(self).checks_of(),
            final(self).frozen() == old(self).frozen(),
    {
        self.sent = Some((outcome, stamps));
    }

    /// Checks the current run and moves on to the next. `false` when no run was
    /// waiting to be checked; the engine's report is consumed either way.
    pub fn settle(&mut self) -> (r: bool)
        ensures
            r == (old(self).pending() is Some && !old(self).spec_done()),
            final(self).pending() is None,
            final(self).plan_of() == old(self).plan_of(),
            r ==> final(self).received_of().len() == 0,
            r ==> ({
                let (outcome, stamps) = old(self).pending()->0;
                let c = final(self).checks_of().last();
                &&& final(self).checks_of().drop_last() == old(self).checks_of()
                &&& final(self).checks_of().len() == old(self).checks_of().len() + 1
                &&& c.codex@ == old(self).plan_of()[old(self).checks_of().len() as int]
                &&& c.outcome == outcome
                &&& c.sent == stamps.len()
                &&& c.matched == match_scan(stamps, old(self).received_of(), stamps.len() as int).matched
                &&& c.missing == stamps.len() - c.matched
                &&& c.extra == count_false(match_scan(stamps, old(self).received_of(), stamps.len() as int).used)
                &&& c.received_holds_us@ == received_holds(old(self).received_of(), first_key(stamps), old(self).received_of().len() as int)
            }),
            !r ==> final(self).received_of() == old(self).received_of() && final(self).checks_of() == old(self).checks_of(),
            final(self).frozen() == old(self).frozen(),
    {
        let sent = self.sent.take();
        let (outcome, stamps) = match sent {
            Some(p) => p,
            None => return false,
        };
        let codex = match self.current() {
            Some(c) => c,
            None => return false,
        };
        let mut received: Vec<Received> = Vec::new();
        std::mem::swap(&mut received, &mut self.received);
        let c = check(codex.as_slice(), outcome, stamps.as_slice(), received.as_slice());
        self.checks.push(c);
        assert(self.checks@.drop_last() =~= old(self).checks@);
        true
    }

    pub fn checks(&self) -> (r: &[RunCheck])
        ensures
            r@ == self.checks_of(),
    {
        self.checks.as_slice()
    }

    pub fn summary(&self) -> (r: Summary)
        requires
            summary_fits(self.checks_of()),
        ensures
            r == (Summary { runs: self.checks_of().len() as usize, ..spec_summary(self.checks_of()) }),
    {
        Summary::of(self.checks.as_slice())
    }
}

/// A shortcut call, the way the log keeps it.
#[derive(Debug, Clone, PartialEq, Eq)]
pub struct Run {
    pub at: String,
    pub slot: usize,
    pub support: bool,
    /// Filled by the `diag` thread, which has the game data.
    pub stratagem: Option<String>,
    pub codex: Vec<Dir>,
    pub speed: Speed,
    pub arrows: bool,
    pub modifier: &'static str,
    pub outcome: RunOutcome,
    /// Movement keys and modifiers the player held when it fired.
    pub held: Vec<&'static str>,
    pub window: WindowInfo,
    pub timing: Timing,
    /// Keys Windows refused.
    pub rejected: usize,
    pub keys: Vec<Stamp>,
}

/// How many stamps Windows refused.
pub open spec fn refused(keys: Seq<Stamp>) -> nat
    decreases keys.len(),
{
    if keys.len() == 0 {
        0
    } else {
        refused(keys.drop_last()) + if keys.last().ok { 0nat } else { 1nat }
    }
}

impl Run {
    /// A call as the log keeps it; `at` is the time of the call and `modifier`
    /// the label of its modifier key.
    pub fn new(
        at: String,
        slot: usize,
        support: bool,
        codex: &[Dir],
        speed: Speed,
        arrows: bool,
        modifier: &'static str,
        outcome: RunOutcome,
        held: Vec<&'static str>,
        window: WindowInfo,
        keys: Vec<Stamp>,
    ) -> (r: Run)
        ensures
            r.at@ == at@ && r.slot == slot && r.support == support && r.stratagem is None,
            r.codex@ == codex@ && r.speed == speed && r.arrows == arrows && r.modifier == modifier,
            r.outcome == outcome && r.held@ == held@ && r.window == window && r.keys@ == keys@,
            r.timing.lead_us == spec_timing(keys@, modifier@).lead,
            r.timing.holds_us@ == spec_timing(keys@, modifier@).holds,
            r.timing.gaps_us@ == spec_timing(keys@, modifier@).gaps,
            r.timing.tail_us == spec_timing(keys@, modifier@).tail,
            r.rejected == refused(keys@),
    {
        let timing = Timing::of(keys.as_slice(), modifier);
        let mut rejected: usize = 0;
        let mut i: usize = 0;
        assert(keys@.take(0) =~= Seq::<Stamp>::empty());
        while i < keys.len()
            invariant
                i <= keys@.len(),
                rejected == refused(keys@.take(i as int)),
                rejected <= i,
            decreases keys.len() - i,
        {
            assert(keys@.take(i + 1).drop_last() =~= keys@.take(i as int));
            if !keys[i].ok {
                rejected = rejected + 1;
            }
            i += 1;
        }
        assert(keys@.take(keys@.len() as int) =~= keys@);
        Run {
            at,
            slot,
            support,
            stratagem: None,
            codex: dirs_of(codex),
            speed,
            arrows,
            modifier,
            outcome,
            held,
            window,
            timing,
            rejected,
            keys,
        }
    }
}

/// Keys that fight the macro when held: a physical W against the W it sends.
pub open spec fn movement_keys() -> Seq<Seq<char>> {
    seq!["W"@, "A"@, "S"@, "D"@, "UP"@, "DOWN"@, "LEFT"@, "RIGHT"@]
}

fn movement_keys_list() -> (r: Vec<&'static str>)
    ensures
        r@.len() == movement_keys().len(),
        forall|i: int| 0 <= i < r@.len() ==> (#[trigger] r@[i])@ == movement_keys()[i],
{
    vec!["W", "A", "S", "D", "UP", "DOWN", "LEFT", "RIGHT"]
}

/// The last call, for the panel to show without rereading the log.
#[derive(Debug, Clone, PartialEq, Eq)]
pub struct LastRun {
    pub stratagem: Option<String>,
    pub outcome: RunOutcome,
    pub keys: usize,
    pub min_hold_us: Option<u64>,
}

/// Summary of the debug session, for the panel and the report.
#[derive(Debug, Clone, Default, PartialEq, Eq)]
pub struct Stats {
    /// When the mode was turned on.
    pub since: Option<String>,
    pub runs: u32,
    pub completed: u32,
    pub aborted: u32,
    pub blocked: u32,
    pub unfocused: u32,
    pub ignored: u32,
    pub rejected_keys: u32,
    pub hold: Spread,
    pub gap: Spread,
    /// Calls with a movement key held when they fired.
    pub with_held_keys: u32,
    pub last: Option<LastRun>,
}

/// The least of the values.
pub open spec fn min_of(values: Seq<u64>) -> Option<u64>
    decreases values.len(),
{
    if values.len() == 0 {
        None
    } else {
        match min_of(values.drop_last()) {
            Some(m) => Some(if values.last() < m { values.last() } else { m }),
            None => Some(values.last()),
        }
    }
}

/// Some held key is a movement key.
pub open spec fn holds_movement(held: Seq<&'static str>) -> bool {
    exists|i: int, j: int| 0 <= i < held.len() && 0 <= j < movement_keys().len() && (#[trigger] held[i])@ == #[trigger] movement_keys()[j]
}

fn min_hold(values: &Vec<u64>) -> (r: Option<u64>)
    ensures
        r == min_of(values@),
{
    let mut r: Option<u64> = None;
    let mut i: usize = 0;
    assert(values@.take(0) =~= Seq::<u64>::empty());
    while i < values.len()
        invariant
            i <= values@.len(),
            r == min_of(values@.take(i as int)),
        decreases values.len() - i,
    {
        assert(values@.take(i + 1).drop_last() =~= values@.take(i as int));
        let v = values[i];
        r = match r {
            Some(m) => Some(if v < m { v } else { m }),
            None => Some(v),
        };
        i += 1;
    }
    assert(values@.take(values@.len() as int) =~= values@);
    r
}

impl Stats {
    /// Room in every counter for one more call.
    pub open spec fn has_room(&self, run: &Run) -> bool {
        &&& self.runs < u32::MAX && self.completed < u32::MAX && self.aborted < u32::MAX
        &&& self.blocked < u32::MAX && self.unfocused < u32::MAX && self.with_held_keys < u32::MAX
        &&& self.rejected_keys + run.rejected <= u32::MAX
        &&& self.hold.bounded() && self.hold.count + run.timing.holds_us@.len() < u32::MAX
        &&& self.gap.bounded() && self.gap.count + run.timing.gaps_us@.len() < u32::MAX
    }

    /// Counts a call: its outcome, its refused keys, its holds and gaps, and
    /// whether a movement key was held when it fired.
    pub fn add_run(&mut self, run: &Run)
        requires
            old(self).has_room(run),
        ensures
            final(self).runs == old(self).runs + 1,
            final(self).completed == old(self).completed + if run.outcome == RunOutcome::Completed { 1int } else { 0int },
            final(self).aborted == old(self).aborted + if run.outcome == RunOutcome::Aborted { 1int } else { 0int },
            final(self).blocked == old(self).blocked + if run.outcome == RunOutcome::Blocked { 1int } else { 0int },
            final(self).unfocused == old(self).unfocused + if run.outcome == RunOutcome::Unfocused { 1int } else { 0int },
            final(self).ignored == old(self).ignored,
            final(self).since == old(self).since,
            final(self).rejected_keys == old(self).rejected_keys + run.rejected,
            final(self).hold == spread_all(old(self).hold, run.timing.holds_us@),
            final(self).gap == spread_all(old(self).gap, run.timing.gaps_us@),
            final(self).with_held_keys == old(self).with_held_keys + if holds_movement(run.held@) { 1int } else { 0int },
            final(self).last matches Some(l) && l.stratagem == run.stratagem && l.outcome == run.outcome
                && l.keys == run.timing.holds_us@.len() && l.min_hold_us == min_of(run.timing.holds_us@),
    {
        self.runs = self.runs + 1;
        match run.outcome {
            RunOutcome::Completed => self.completed = self.completed + 1,
            RunOutcome::Aborted => self.aborted = self.aborted + 1,
            RunOutcome::Blocked => self.blocked = self.blocked + 1,
            RunOutcome::Unfocused => self.unfocused = self.unfocused + 1,
        }
        self.rejected_keys = self.rejected_keys + run.rejected as u32;
        add_all(&mut self.hold, &run.timing.holds_us);
        add_all(&mut self.gap, &run.timing.gaps_us);
        let movement = movement_keys_list();
        let mut held = false;
        let mut i: usize = 0;
        while i < run.held.len() && !held
            invariant
                i <= run.held@.len(),
                movement@.len() == movement_keys().len(),
                forall|k: int| 0 <= k < movement@.len() ==> (#[trigger] movement@[k])@ == movement_keys()[k],
                held ==> holds_movement(run.held@),
                !held ==> forall|a: int, b: int| 0 <= a < i && 0 <= b < movement_keys().len() ==> (#[trigger] run.held@[a])@ != #[trigger] movement_keys()[b],
            decreases run.held.len() - i + if held { 0int } else { 1int },
        {
            let mut j: usize = 0;
            while j < movement.len() && !held
                invariant
                    i < run.held@.len(),
                    j <= movement@.len(),
                    movement@.len() == movement_keys().len(),
                    forall|k: int| 0 <= k < movement@.len() ==> (#[trigger] movement@[k])@ == movement_keys()[k],
                    held ==> holds_movement(run.held@),
                    !held ==> forall|b: int| 0 <= b < j ==> run.held@[i as int]@ != #[trigger] movement_keys()[b],
                decreases movement.len() - j + if held { 0int } else { 1int },
            {
                if text::str_eq(run.held[i], movement[j]) {
                    assert(run.held@[i as int]@ == movement_keys()[j as int]);
                    held = true;
                } else {
                    j += 1;
                }
            }
            if !held {
                i += 1;
            }
        }
        if held {
            self.with_held_keys = self.with_held_keys + 1;
        }
        self.last = Some(LastRun {
            stratagem: match &run.stratagem {
                Some(s) => Some(s.clone()),
                None => None,
            },
            outcome: run.outcome,
            keys: run.timing.holds_us.len(),
            min_hold_us: min_hold(&run.timing.holds_us),
        });
    }
}

// --- Report ---

/// Name suggested in the save dialog, with the date of today (`YYYY-MM-DD`).
pub fn file_name(language: Language, date: &str) -> (r: String)
    ensures
        r@ == (match language {
            Language::Pt => "relatorio-debug-"@,
            Language::En => "debug-report-"@,
        }) + date@ + ".json"@,
{
    let head = match language {
        Language::Pt => text::chars_of("relatorio-debug-"),
        Language::En => text::chars_of("debug-report-"),
    };
    let d = text::chars_of(date);
    let tail = text::chars_of(".json");
    let hd = text::concat_chars(&head, &d);
    let all = text::concat_chars(&hd, &tail);
    text::string_of(&all)
}

/// The name of the stratagem a record is about: a fixed support by its
/// place, or what the macro slot holds now.
pub open spec fn spec_stratagem_name(slots: Seq<Option<u32>>, data: &GameData, slot: int, support: bool) -> Option<Seq<char>> {
    if support {
        if 0 <= slot < 3 { Some(data::support_names()[slot]) } else { None }
    } else if 0 <= slot < slots.len() {
        match slots[slot] {
            Some(id) => match data.spec_by_id(id) {
                Some(s) => Some(s.nome@),
                None => None,
            },
            None => None,
        }
    } else {
        None
    }
}

pub fn stratagem_name(slots: &Slots, data: &GameData, slot: usize, support: bool) -> (r: Option<String>)
    requires
        data.wf(),
    ensures
        opt_view(r) == spec_stratagem_name(slots@, data, slot as int, support),
{
    if support {
        let supports = data::support_strats();
        if slot < supports.len() {
            return Some(supports[slot].nome.to_owned());
        }
        return None;
    }
    if slot >= SLOT_COUNT {
        return None;
    }
    match slots[slot] {
        Some(id) => match data.by_id(id) {
            Some(s) => Some(s.nome.as_str().to_owned()),
            None => None,
        },
        None => None,
    }
}

/// Where the tail of a log file starts: the last `max` bytes, moved past the
/// first line break when the cut fell inside a line, so the tail begins on a
/// whole line. A file no longer than `max` is kept whole.
pub open spec fn spec_tail_start(bytes: Seq<u8>, max: int) -> int {
    let start = if bytes.len() > max { bytes.len() - max } else { 0 };
    if start > 0 && exists|j: int| start <= j < bytes.len() && bytes[j] == 10u8 {
        let nl = choose|j: int| start <= j < bytes.len() && bytes[j] == 10u8
            && forall|k: int| start <= k < j ==> bytes[k] != 10u8;
        nl + 1
    } else {
        start
    }
}

pub fn tail_start(bytes: &[u8], max: usize) -> (r: usize)
    ensures
        r <= bytes@.len(),
        r == spec_tail_start(bytes@, max as int),
{
    let n = bytes.len();
    let start: usize = if n > max { n - max } else { 0 };
    if start == 0 {
        return 0;
    }
    let mut j: usize = start;
    while j < n
        invariant
            n == bytes@.len(),
            0 < start <= j <= n,
            start == bytes@.len() - max,
            forall|k: int| start <= k < j ==> bytes@[k] != 10u8,
        decreases n - j,
    {
        if bytes[j] == 10u8 {
            assert(start <= j < bytes@.len() && bytes@[j as int] == 10u8 && forall|k: int| start <= k < j ==> bytes@[k] != 10u8);
            proof {
                let nl = choose|x: int| start <= x < bytes@.len() && bytes@[x] == 10u8
                    && forall|k: int| start <= k < x ==> bytes@[k] != 10u8;
                assert(nl == j as int) by {
                    if nl < j {
                        assert(bytes@[nl] != 10u8);
                    } else if nl > j {
                        assert(bytes@[j as int] != 10u8);
                    }
                }
            }
            return j + 1;
        }
        j += 1;
    }
    start
}

// --- Machine id ---

pub open spec fn is_hex_digit(c: char) -> bool {
    ('0' <= c && c <= '9') || ('a' <= c && c <= 'f') || ('A' <= c && c <= 'F')
}

/// An id of the machine: twelve hexadecimal digits.
pub open spec fn is_machine_id(t: Seq<char>) -> bool {
    t.len() == 12 && forall|i: int| 0 <= i < 12 ==> is_hex_digit(#[trigger] t[i])
}

/// The lowercase hexadecimal digit of `d` (below 16).
pub open spec fn hex_char(d: u64) -> char {
    if d < 10 { (d + 48) as char } else { (d + 87) as char }
}

/// `n` as twelve lowercase hexadecimal digits, the most significant first
/// (`{:012x}` of a number below 2^48).
pub open spec fn hex12(n: u64) -> Seq<char> {
    Seq::new(12, |k: int| hex_char((n >> ((44 - 4 * k) as u64)) & 15u64))
}

fn hex_digit(d: u64) -> (c: char)
    requires
        d < 16,
    ensures
        c == hex_char(d),
        is_hex_digit(c),
{
    if d < 10 {
        ((d as u8) + 48u8) as char
    } else {
        ((d as u8) + 87u8) as char
    }
}

fn stored_id(stored: &str) -> (r: Option<Vec<char>>)
    ensures
        r matches Some(v) ==> v@ == text::trim(stored@) && is_machine_id(v@),
        r is None ==> !is_machine_id(text::trim(stored@)),
{
    let chars = text::chars_of(stored);
    let id = text::trim_chars(&chars);
    if id.len() != 12 {
        return None;
    }
    let mut i: usize = 0;
    while i < 12
        invariant
            id@ == text::trim(stored@),
            id@.len() == 12,
            i <= 12,
            forall|j: int| 0 <= j < i ==> is_hex_digit(#[trigger] id@[j]),
        decreases 12 - i,
    {
        let c = id[i];
        if !(('0' <= c && c <= '9') || ('a' <= c && c <= 'f') || ('A' <= c && c <= 'F')) {
            assert(!is_hex_digit(id@[i as int]));
            return None;
        }
        i += 1;
    }
    Some(id)
}

/// The anonymous, stable id of this PC (`machine_id`): the stored one, when
/// the file holds twelve hex digits once trimmed; otherwise twelve hex digits
/// drawn now, which the caller stores (the `bool` of the result). It comes
/// from nothing of the user; it only groups the reports.
pub fn machine_id(stored: Option<&str>) -> (r: (String, bool))
    ensures
        (stored matches Some(s) && is_machine_id(text::trim(s@))) ==> r.0@ == text::trim(stored->0@) && !r.1,
        !(stored matches Some(s) && is_machine_id(text::trim(s@))) ==> r.1
            && exists|n: u64| n < 0x1_0000_0000_0000 && r.0@ == hex12(n),
        is_machine_id(r.0@),
{
    match stored {
        Some(s) => match stored_id(s) {
            Some(id) => return (text::string_of(&id), false),
            None => {},
        },
        None => {},
    }
    let drawn: u64 = chance::random_u64();
    let n: u64 = drawn & 0xFFFF_FFFF_FFFFu64;
    assert(n < 0x1_0000_0000_0000) by (bit_vector)
        requires
            n == drawn & 0xFFFF_FFFF_FFFFu64,
    ;
    let mut out: Vec<char> = Vec::new();
    let mut k: u64 = 0;
    while k < 12
        invariant
            k <= 12,
            out@.len() == k,
            forall|j: int| 0 <= j < k ==> #[trigger] out@[j] == hex12(n)[j],
            forall|j: int| 0 <= j < k ==> is_hex_digit(#[trigger] out@[j]),
        decreases 12 - k,
    {
        let shift: u64 = 44 - 4 * k;
        let d: u64 = (n >> shift) & 15u64;
        assert(d < 16) by (bit_vector)
            requires
                d == (n >> shift) & 15u64,
        ;
        out.push(hex_digit(d));
        k += 1;
    }
    assert(out@ =~= hex12(n));
    (text::string_of(&out), true)
}

/// The text with the Windows user taken out: the profile path becomes
/// `%USERPROFILE%` and the user name `%USERNAME%`. An empty profile is not
/// replaced, nor a name shorter than three bytes, which would match pieces of
/// common words.
pub open spec fn spec_redact(t: Seq<char>, profile: Option<Seq<char>>, user: Option<Seq<char>>) -> Seq<char> {
    let a = match profile {
        Some(p) => if p.len() > 0 { text::replace_all(t, p, "%USERPROFILE%"@) } else { t },
        None => t,
    };
    match user {
        Some(u) => if vstd::utf8::encode_utf8(u).len() >= 3 { text::replace_all(a, u, "%USERNAME%"@) } else { a },
        None => a,
    }
}

pub fn redact(t: &str, profile: Option<&str>, user: Option<&str>) -> (r: String)
    ensures
        r@ == spec_redact(t@, match profile {
            Some(p) => Some(p@),
            None => None,
        }, match user {
            Some(u) => Some(u@),
            None => None,
        }),
{
    let mut cur = text::chars_of(t);
    match profile {
        Some(p) => {
            let pc = text::chars_of(p);
            if pc.len() > 0 {
                let w = text::chars_of("%USERPROFILE%");
                cur = text::replace_chars(&cur, &pc, &w);
            }
        },
        None => {},
    }
    match user {
        Some(u) => {
            if u.as_bytes().len() >= 3 {
                let uc = text::chars_of(u);
                let w = text::chars_of("%USERNAME%");
                if uc.len() > 0 {
                    cur = text::replace_chars(&cur, &uc, &w);
                } else {
                    assert(vstd::utf8::encode_utf8(uc@).len() == 0);
                }
            }
        },
        None => {},
    }
    text::string_of(&cur)
}

} // verus!
