use std::cell::Cell;
use macro_hd2::data::Dir;
use macro_hd2::engine::{
    intake, jittered_us, run_sequence, Callbacks, Held, Intake, NoHooks, Jitter, KeyEvent, Outcome, Phase, Profile, Recorder,
    Sequence, JITTER_US, MIN_HOLD_MS,
};
use macro_hd2::keys::{self, Scan};
use macro_hd2::settings::Speed;

const CTRL: Scan = Scan { code: 0x1D, extended: false };

fn sequence(codex: &[Dir], speed: Speed, use_arrows: bool) -> Sequence {
    Sequence { codex: codex.to_vec(), modifier: CTRL, use_arrows, speed }
}

fn down(code: u16) -> KeyEvent {
    KeyEvent { scan: Scan { code, extended: false }, up: false }
}

fn up(code: u16) -> KeyEvent {
    KeyEvent { up: true, ..down(code) }
}

#[test]
fn speed_profiles_match_the_reference_table() {
    assert_eq!(Profile::of(Speed::Normal), Profile::normal());
    assert_eq!(Profile::of(Speed::Fast), Profile::fast());
    assert_eq!(Profile::of(Speed::Turbo), Profile::turbo());
    assert_eq!(Profile::turbo().hold, MIN_HOLD_MS);
}

#[test]
fn sequence_follows_the_reference_order() {
    let mut sink = Recorder::new();
    let seq = sequence(&[Dir::Up, Dir::Left], Speed::Normal, false);

    assert_eq!(run_sequence(&mut sink, &seq, Jitter::Off, &mut NoHooks::new()), Outcome::Completed);

    assert_eq!(
        sink.key_events(),
        vec![down(0x1D), down(0x11), up(0x11), down(0x1E), up(0x1E), up(0x1D)]
    );
    assert_eq!(
        sink.wait_ms(),
        vec![
            (Phase::Lead, 100),
            (Phase::Hold, 34),
            (Phase::Gap, 20),
            (Phase::Hold, 34),
            (Phase::Gap, 20),
            (Phase::Tail, 50),
        ]
    );
}

#[test]
fn arrow_mode_sends_the_extended_scancodes() {
    let mut sink = Recorder::new();
    let seq = sequence(&[Dir::Up, Dir::Down, Dir::Left, Dir::Right], Speed::Turbo, true);
    run_sequence(&mut sink, &seq, Jitter::Off, &mut NoHooks::new());

    let presses: Vec<Scan> = sink
        .key_events()
        .into_iter()
        .filter(|event| !event.up && event.scan != CTRL)
        .map(|event| event.scan)
        .collect();
    let arrows = keys::arrows();
    assert_eq!(presses, vec![arrows[0], arrows[1], arrows[2], arrows[3]]);
    assert!(presses.iter().all(|scan| scan.extended));
}

#[test]
fn turbo_waits_come_from_the_turbo_profile() {
    let mut sink = Recorder::new();
    run_sequence(&mut sink, &sequence(&[Dir::Right], Speed::Turbo, false), Jitter::Off, &mut NoHooks::new());
    assert_eq!(
        sink.wait_ms(),
        vec![(Phase::Lead, 50), (Phase::Hold, 20), (Phase::Gap, 6), (Phase::Tail, 30)]
    );
}

#[test]
fn losing_focus_stops_the_sequence_and_releases_every_key() {
    let mut sink = Recorder::new();
    let seen = Cell::new(0usize);
    let started = Cell::new(false);
    let mut hooks = Callbacks::new(
        || {
            let asked = seen.get();
            seen.set(asked + 1);
            asked >= 1
        },
        || started.set(true),
    );
    let seq = sequence(&[Dir::Up, Dir::Down, Dir::Left], Speed::Fast, false);

    assert_eq!(run_sequence(&mut sink, &seq, Jitter::Off, &mut hooks), Outcome::Aborted);
    assert!(started.get(), "the start is announced before the first step");
    assert_eq!(seen.get(), 2, "asked before the first direction and before the second");

    assert_eq!(sink.key_events(), vec![down(0x1D), down(0x11), up(0x11), up(0x1D)]);
}

#[test]
fn hooks_that_never_abort_are_asked_once_per_direction() {
    let mut sink = Recorder::new();
    let seen = Cell::new(0usize);
    let starts = Cell::new(0usize);
    let mut hooks = Callbacks::new(
        || {
            seen.set(seen.get() + 1);
            false
        },
        || starts.set(starts.get() + 1),
    );
    let seq = sequence(&[Dir::Up, Dir::Down, Dir::Left], Speed::Fast, false);
    assert_eq!(run_sequence(&mut sink, &seq, Jitter::Off, &mut hooks), Outcome::Completed);
    assert_eq!(seen.get(), 3);
    assert_eq!(starts.get(), 1);
}

#[test]
fn an_abort_before_the_first_direction_only_taps_the_modifier() {
    let mut sink = Recorder::new();
    let mut hooks = Callbacks::new(|| true, || {});
    let seq = sequence(&[Dir::Up, Dir::Down], Speed::Normal, false);
    assert_eq!(run_sequence(&mut sink, &seq, Jitter::Off, &mut hooks), Outcome::Aborted);
    assert_eq!(sink.key_events(), vec![down(0x1D), up(0x1D)]);
}

#[test]
fn a_key_held_when_the_sequence_dies_is_released_in_reverse_order() {
    let mut sink = Recorder::new();
    let mut held = Held::new();
    held.press(&mut sink, CTRL);
    held.press(&mut sink, keys::wasd()[Dir::Up.index()]);
    held.release_all(&mut sink);

    assert_eq!(sink.key_events(), vec![down(0x1D), down(0x11), up(0x11), up(0x1D)]);
}

#[test]
fn hold_never_falls_below_a_frame_even_with_the_worst_jitter() {
    let mut offset = -JITTER_US;
    while offset <= JITTER_US {
        for profile in [Profile::normal(), Profile::fast(), Profile::turbo()] {
            let hold = jittered_us(profile.hold, MIN_HOLD_MS, offset);
            assert!(hold >= u64::from(MIN_HOLD_MS) * 1000, "hold {hold} us with offset {offset}");
        }
        offset += 500;
    }
}

#[test]
fn jitter_only_moves_an_interval_five_milliseconds_each_way() {
    for _ in 0..200 {
        let offset = Jitter::Humanized.offset_us();
        assert!((-JITTER_US..JITTER_US).contains(&offset));
    }
    assert_eq!(Jitter::Off.offset_us(), 0);
    assert_eq!(jittered_us(34, 1, 0), 34_000);
    assert_eq!(jittered_us(34, 1, -5000), 29_000);
    assert_eq!(jittered_us(2, 1, -5000), 1_000);
}

#[test]
fn an_order_is_refused_while_running_and_dropped_without_focus() {
    assert_eq!(intake(true, true), Intake::Busy);
    assert_eq!(intake(true, false), Intake::Busy);
    assert_eq!(intake(false, false), Intake::Unfocused);
    assert_eq!(intake(false, true), Intake::Run);
}
