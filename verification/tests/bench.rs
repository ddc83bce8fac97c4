use macro_hd2::bench::Trace;
use macro_hd2::data::Dir;
use macro_hd2::engine::{run_sequence, Jitter, NoHooks, Phase, Recorder, Sequence};
use macro_hd2::keys;
use macro_hd2::settings::Speed;

fn traced_run(codex: Vec<Dir>) -> Trace<Recorder> {
    // The recorder does not sleep: each wait asked takes no real time, so the
    // deviation seen is what was asked, with the sign flipped.
    let mut trace = Trace::new(Recorder::new());
    run_sequence(
        &mut trace,
        &Sequence { codex, modifier: keys::modifier_scan("LeftControl"), use_arrows: false, speed: Speed::Turbo },
        Jitter::Off,
        &mut NoHooks::new(),
    );
    trace
}

#[test]
fn the_last_gap_and_the_tail_are_measured_as_one_stretch() {
    let trace = traced_run(vec![Dir::Up]);
    let deviations = trace.deviations();
    let phases: Vec<Phase> = deviations.iter().map(|(phase, _)| *phase).collect();
    // One direction: lead, hold, and the gap and tail closed by the tail.
    assert_eq!(phases, vec![Phase::Lead, Phase::Hold, Phase::Tail]);
    // The last stretch is charged the 6 ms of gap plus the 30 ms of tail.
    assert!((deviations[2].1 + 36_000).abs() < 1_000, "last stretch: {}", deviations[2].1);
}

#[test]
fn each_stretch_between_two_keys_is_one_deviation() {
    let trace = traced_run(vec![Dir::Up, Dir::Down]);
    let phases: Vec<Phase> = trace.deviations().iter().map(|(phase, _)| *phase).collect();
    // Modifier, up down, up up, down down, down up, modifier up: six keys,
    // five stretches between them.
    assert_eq!(phases, vec![Phase::Lead, Phase::Hold, Phase::Gap, Phase::Hold, Phase::Tail]);
}

#[test]
fn a_cleared_trace_has_no_deviation() {
    let mut trace = traced_run(vec![Dir::Left]);
    assert!(!trace.deviations().is_empty());
    trace.clear();
    assert!(trace.deviations().is_empty());
}
