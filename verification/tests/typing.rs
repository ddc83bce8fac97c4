use macro_hd2::data::{support_strats, Dir};
use macro_hd2::diag::{
    check, Received, Run, RunOutcome, Spread, Stamp, Stats, Summary, Timing, TypingTest, WindowInfo,
    RUNS,
};
use macro_hd2::i18n::tr;
use macro_hd2::keys;
use macro_hd2::settings::Language;
use macro_hd2::settings::Speed;

/// A time in milliseconds as the microseconds the stamps carry.
fn us(ms: f64) -> u64 {
    (ms * 1_000.0).round() as u64
}

fn stamp(at_ms: f64, key: &'static str, up: bool) -> Stamp {
    Stamp { at_us: us(at_ms), key, up, ok: true }
}

#[test]
fn timing_reads_lead_holds_gaps_and_tail() {
    let stamps = [
        stamp(0.0, "CTRL", false),
        stamp(100.0, "W", false),
        stamp(134.0, "W", true),
        stamp(154.0, "S", false),
        stamp(190.0, "S", true),
        stamp(260.0, "CTRL", true),
    ];
    assert_eq!(
        Timing::of(&stamps, "CTRL"),
        Timing { lead_us: Some(us(100.0)), holds_us: vec![us(34.0), us(36.0)], gaps_us: vec![us(20.0)], tail_us: Some(us(70.0)) }
    );
}

#[test]
fn an_aborted_sequence_keeps_only_the_complete_pairs() {
    // The guard released the direction and the modifier together, in reverse order.
    let stamps = [
        stamp(0.0, "CTRL", false),
        stamp(50.0, "UP", false),
        stamp(70.0, "UP", true),
        stamp(76.0, "DOWN", false),
        stamp(80.0, "DOWN", true),
        stamp(80.1, "CTRL", true),
    ];
    let timing = Timing::of(&stamps, "CTRL");
    assert_eq!(timing.holds_us, vec![us(20.0), us(4.0)]);
    assert_eq!(timing.gaps_us, vec![us(6.0)]);
    assert!(timing.tail_us.is_some());
    assert_eq!(Timing::of(&[], "CTRL"), Timing { lead_us: None, holds_us: vec![], gaps_us: vec![], tail_us: None });
}

#[test]
fn a_release_without_its_press_counts_for_nothing() {
    let stamps = [stamp(0.0, "CTRL", false), stamp(10.0, "W", true), stamp(20.0, "CTRL", true)];
    let timing = Timing::of(&stamps, "CTRL");
    assert!(timing.holds_us.is_empty());
    assert_eq!(timing.tail_us, None);
    assert_eq!(timing.lead_us, None);
}

#[test]
fn a_run_counts_rejected_keys_and_feeds_the_stats() {
    let mut keys = vec![stamp(0.0, "CTRL", false), stamp(100.0, "W", false), stamp(130.0, "W", true), stamp(180.0, "CTRL", true)];
    keys[1].ok = false;
    let run = Run::new(
        "2025-01-01T00:00:00Z".to_string(),
        1,
        false,
        &[Dir::Up],
        Speed::Normal,
        false,
        "CTRL",
        RunOutcome::Completed,
        vec!["W", "SHIFT"],
        WindowInfo { class: "game", exe: None, title: None },
        keys,
    );
    assert_eq!(run.rejected, 1);
    assert_eq!(run.modifier, "CTRL");

    let mut stats = Stats::default();
    stats.add_run(&run);
    assert_eq!((stats.runs, stats.completed, stats.rejected_keys), (1, 1, 1));
    assert_eq!(stats.with_held_keys, 1, "W held when it fired");
    assert_eq!(stats.hold.count, 1);
    assert_eq!(stats.hold.min, us(30.0));
    assert_eq!(stats.last.as_ref().unwrap().min_hold_us, Some(us(30.0)));
}

#[test]
fn a_modifier_held_alone_is_no_movement_key() {
    let run = Run::new(
        String::new(),
        0,
        true,
        &[Dir::Down],
        Speed::Fast,
        true,
        "ALT",
        RunOutcome::Aborted,
        vec!["SHIFT"],
        WindowInfo { class: "game", exe: None, title: None },
        vec![],
    );
    let mut stats = Stats::default();
    stats.add_run(&run);
    assert_eq!((stats.runs, stats.aborted, stats.with_held_keys), (1, 1, 0));
    assert_eq!(stats.last.as_ref().unwrap().min_hold_us, None);
}

#[test]
fn spread_keeps_min_mean_and_max_without_the_sample() {
    let mut spread = Spread::default();
    for value in [us(30.0), us(50.0), us(40.0)] {
        spread.add(value);
    }
    assert_eq!((spread.count, spread.min, spread.max), (3, us(30.0), us(50.0)));
    assert_eq!(spread.total / spread.count as u128, us(40.0) as u128);
}

/// Sent: CTRL, W, S, CTRL (down and up of each).
fn sent() -> Vec<Stamp> {
    vec![
        stamp(0.0, "CTRL", false),
        stamp(0.0, "W", false),
        stamp(0.0, "W", true),
        stamp(0.0, "S", false),
        stamp(0.0, "S", true),
        stamp(0.0, "CTRL", true),
    ]
}

fn received(events: &[(&'static str, bool, u64)]) -> Vec<Received> {
    let origin = 5_000_000;
    events.iter().map(|(key, up, ms)| Received { key, up: *up, at_us: origin + ms * 1_000 }).collect()
}

#[test]
fn everything_arriving_in_order_passes() {
    let got = received(&[("CTRL", false, 0), ("W", false, 100), ("W", true, 134), ("S", false, 154), ("S", true, 190), ("CTRL", true, 240)]);
    let result = check(&[Dir::Up, Dir::Down], RunOutcome::Completed, &sent(), &got);
    assert!(result.passed());
    assert_eq!((result.matched, result.missing, result.extra), (6, 0, 0));
    assert_eq!(result.received_holds_us, vec![34_000, 36_000]);
}

#[test]
fn a_lost_key_and_a_stray_key_are_both_counted() {
    // The S never arrived; an A nobody sent showed up.
    let got = received(&[("CTRL", false, 0), ("W", false, 100), ("W", true, 134), ("A", false, 150), ("A", true, 160), ("CTRL", true, 240)]);
    let result = check(&[Dir::Up, Dir::Down], RunOutcome::Completed, &sent(), &got);
    assert!(!result.passed());
    assert_eq!((result.missing, result.extra), (2, 2));
}

#[test]
fn keys_out_of_order_do_not_match() {
    let got = received(&[("CTRL", false, 0), ("S", false, 100), ("S", true, 134), ("W", false, 154), ("W", true, 190), ("CTRL", true, 240)]);
    let result = check(&[Dir::Up, Dir::Down], RunOutcome::Completed, &sent(), &got);
    assert!(!result.passed());
    assert!(result.missing > 0);
}

#[test]
fn the_test_walks_its_plan_and_summarizes() {
    let mut test = TypingTest::new(Speed::Normal, false, keys::modifier_scan("LeftControl"));
    assert_eq!(test.progress(), (0, RUNS));
    assert_eq!(test.current().unwrap(), support_strats()[0].codex);

    // Without the engine's report there is nothing to check.
    assert!(!test.settle());

    for run in 0..RUNS {
        test.on_key("CTRL", false, 0);
        test.on_key("CTRL", true, 0);
        let outcome = match run {
            3 => RunOutcome::Aborted,
            5 => RunOutcome::Blocked,
            _ => RunOutcome::Completed,
        };
        test.on_sent(outcome, vec![stamp(0.0, "CTRL", false), stamp(0.0, "CTRL", true)]);
        assert!(test.settle());
    }
    assert!(test.done());
    assert_eq!(test.current(), None);

    let summary = test.summary();
    assert_eq!(summary.runs, RUNS);
    assert_eq!(summary.interrupted, 1);
    assert_eq!(summary.blocked, 1, "a block is no loss of focus");
    assert_eq!(summary.passed, RUNS - 2);

    // Finished, a new key enters no run.
    test.on_key("W", false, 0);
    assert!(!test.settle());
}

#[test]
fn the_summary_adds_up_missing_extra_and_holds() {
    let good = received(&[("CTRL", false, 0), ("W", false, 100), ("W", true, 134), ("S", false, 154), ("S", true, 190), ("CTRL", true, 240)]);
    let bad = received(&[("CTRL", false, 0), ("W", false, 100), ("W", true, 130), ("A", false, 150), ("A", true, 160), ("CTRL", true, 240)]);
    let checks = [
        check(&[Dir::Up, Dir::Down], RunOutcome::Completed, &sent(), &good),
        check(&[Dir::Up, Dir::Down], RunOutcome::Unfocused, &sent(), &bad),
    ];
    let summary = Summary::of(&checks);
    assert_eq!((summary.runs, summary.passed, summary.missing_keys, summary.extra_keys), (2, 1, 2, 2));
    assert_eq!((summary.interrupted, summary.blocked), (1, 0));
    assert_eq!(summary.received_hold.count, 4);
    assert_eq!((summary.received_hold.min, summary.received_hold.max), (10_000, 36_000));
}

#[test]
fn the_debug_panel_words_the_stats() {
    let text = tr(Language::En);
    let mut stats = Stats::default();
    stats.runs = 5;
    stats.completed = 3;
    stats.aborted = 1;
    stats.unfocused = 1;
    assert_eq!(text.debug.calls(&stats), "5 · 3 ok · 1 aborted · 0 blocked · 1 no focus");

    assert_eq!(text.debug.spread(&Spread::default()), "\u{2014}");
    let mut spread = Spread::default();
    for value in [30_400, 50_600, 40_000] {
        spread.add(value);
    }
    // Whole milliseconds: 30.4 → 30, 50.6 → 51, mean 40.33 → 40.
    assert_eq!(text.debug.spread(&spread), "min 30 · avg 40 · max 51 ms");
}

#[test]
fn the_typing_result_leads_with_the_verdict() {
    let text = tr(Language::En);
    let good = received(&[("CTRL", false, 0), ("W", false, 100), ("W", true, 134), ("S", false, 154), ("S", true, 190), ("CTRL", true, 240)]);
    let mut sent_ok = sent();
    sent_ok[2].at_us = 30_000;
    sent_ok[4].at_us = 40_000;
    sent_ok[3].at_us = 35_000;
    sent_ok[1].at_us = 0;
    let summary = Summary::of(&[check(&[Dir::Up, Dir::Down], RunOutcome::Completed, &sent_ok, &good)]);
    let (passed, lines) = text.debug.typing_result(&summary);
    assert!(passed);
    assert_eq!(lines[0], "Keyboard OK: 1/1 sequences arrived complete and in order");
    // Sent holds 30 and 5 ms (mean 17.5 → 18), received 34 and 36 (mean 35).
    assert_eq!(lines.last().unwrap(), "Average key hold: 18 ms sent, 35 ms received");

    let bad = received(&[("CTRL", false, 0), ("W", false, 100)]);
    let summary = Summary::of(&[
        check(&[Dir::Up], RunOutcome::Blocked, &sent(), &bad),
        check(&[Dir::Up], RunOutcome::Aborted, &sent(), &bad),
    ]);
    let (passed, lines) = text.debug.typing_result(&summary);
    assert!(!passed);
    assert_eq!(lines[0], "Failed: 0/2 complete · 8 keys lost · 0 extra");
    assert_eq!(lines[1], "1 run(s) interrupted: the window lost focus");
    assert_eq!(lines[2], "1 run(s) refused: a shortcut fired during the test");
    assert_eq!(lines.len(), 3);
}

#[test]
fn a_tie_rounds_to_the_even_millisecond() {
    let text = tr(Language::En);
    let mut spread = Spread::default();
    for value in [2_500, 3_500] {
        spread.add(value);
    }
    // As `{:.0}` writes them: 2.5 → 2, 3.5 → 4, mean 3.0 → 3.
    assert_eq!(text.debug.spread(&spread), "min 2 · avg 3 · max 4 ms");
}
