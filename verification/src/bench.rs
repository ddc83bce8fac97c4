//! Instruments of the timing benches: a sink that stamps the clock at each
//! key sent, and the pairing of those stamps with the waits the sequence
//! asked for.
//!
//! What is measured is the real interval between two consecutive key sends
//! against the wait the sequence asked between them. That is the number that
//! matters: it includes the cost of the send itself, which is what the game
//! sees.

use vstd::prelude::*;
use crate::diag::since;
use crate::engine::{InputSink, KeyEvent, Phase, SinkOp};

verus! {

#[verifier::external_type_specification]
#[verifier::external_body]
pub struct ExInstant(std::time::Instant);

/// `Instant::now()`: a reading of the monotonic clock. Nothing is stated of
/// its value.
#[verifier::external_body]
fn clock_now() -> (r: std::time::Instant) {
    std::time::Instant::now()
}

/// `Instant::elapsed` from `origin`, in whole microseconds. Nothing is
/// stated of its value: it is the time of the machine.
#[verifier::external_body]
fn clock_micros_since(origin: &std::time::Instant) -> (r: u64) {
    origin.elapsed().as_micros() as u64
}

/// One step of the sequence, in the order it happened.
#[derive(Debug, Clone, Copy, PartialEq, Eq, Structural)]
pub enum Step {
    /// When a key was handed to the sink, in microseconds since the trace began.
    Sent(u64),
    /// A wait the sequence asked for, in microseconds.
    Waited(Phase, u64),
}

/// Wraps a real sink and keeps when each key left and how long each wait was.
pub struct Trace<S: InputSink> {
    inner: S,
    origin: std::time::Instant,
    steps: Vec<Step>,
}

/// Where the pairing of the steps stands: the send that opened the current
/// stretch, the waits asked since then (the phase of the last one, and their
/// total, capped at `u64::MAX`), and the deviations so far.
pub struct Pairing {
    pub opened: Option<u64>,
    pub pending: Option<(Phase, int)>,
    pub out: Seq<(Phase, int)>,
}

pub open spec fn capped(x: int) -> int {
    if x > u64::MAX { u64::MAX as int } else { x }
}

/// One step of the pairing. A wait adds to the stretch and names it after its
/// own phase; a send closes the stretch, when one is open and a wait was
/// asked in it, with its deviation: real time minus the time asked.
pub open spec fn pair_step(acc: Pairing, step: Step) -> Pairing {
    match step {
        Step::Waited(phase, d) => Pairing {
            pending: Some((phase, capped(match acc.pending { Some((_, t)) => t, None => 0 } + d))),
            ..acc
        },
        Step::Sent(at) => Pairing {
            opened: Some(at),
            pending: None,
            out: match (acc.opened, acc.pending) {
                (Some(from), Some((phase, asked))) => acc.out.push((phase, since(at, from) - asked)),
                _ => acc.out,
            },
        },
    }
}

pub open spec fn pairing(steps: Seq<Step>) -> Pairing
    decreases steps.len(),
{
    if steps.len() == 0 {
        Pairing { opened: None, pending: None, out: Seq::empty() }
    } else {
        pair_step(pairing(steps.drop_last()), steps.last())
    }
}

/// The deviation of each stretch between two keys, in microseconds:
/// positive slept too long, negative too short.
pub open spec fn spec_deviations(steps: Seq<Step>) -> Seq<(Phase, int)> {
    pairing(steps).out
}

pub open spec fn widened(v: Seq<(Phase, i128)>) -> Seq<(Phase, int)> {
    v.map_values(|d: (Phase, i128)| (d.0, d.1 as int))
}

impl<S: InputSink> Trace<S> {
    /// The steps kept so far.
    pub closed spec fn steps(&self) -> Seq<Step> {
        self.steps@
    }

    /// The wrapped sink.
    pub closed spec fn inner(&self) -> S {
        self.inner
    }

    pub fn new(inner: S) -> (t: Trace<S>)
        ensures
            t.steps() == Seq::<Step>::empty(),
            t.inner() == inner,
    {
        Trace { inner, origin: clock_now(), steps: Vec::new() }
    }

    /// The deviation of each stretch between two keys, in microseconds.
    ///
    /// There is almost always exactly one wait between two keys. The
    /// exception is the end of the sequence, where the `gap` of the last
    /// direction and the `tail` add up with no key in between: the pair
    /// becomes one measure, held against the sum of both and named after the
    /// phase that closes it.
    pub fn deviations(&self) -> (r: Vec<(Phase, i128)>)
        ensures
            widened(r@) == spec_deviations(self.steps()),
    {
        let ghost all = self.steps@;
        let mut out: Vec<(Phase, i128)> = Vec::new();
        let mut opened: Option<u64> = None;
        let mut pending: Option<(Phase, u64)> = None;
        let mut i: usize = 0;
        assert(all.take(0) =~= Seq::<Step>::empty());
        while i < self.steps.len()
            invariant
                all == self.steps@,
                i <= all.len(),
                ({
                    let p = pairing(all.take(i as int));
                    &&& p.opened == opened
                    &&& p.pending == (match pending { Some((ph, t)) => Some((ph, t as int)), None => None })
                    &&& p.out == widened(out@)
                }),
            decreases all.len() - i,
        {
            assert(all.take(i + 1).drop_last() =~= all.take(i as int));
            assert(all.take(i + 1).last() == all[i as int]);
            match self.steps[i] {
                Step::Waited(phase, d) => {
                    let before: u64 = match pending {
                        Some((_, t)) => t,
                        None => 0,
                    };
                    pending = Some((phase, before.saturating_add(d)));
                },
                Step::Sent(at) => {
                    match (opened, pending) {
                        (Some(from), Some((phase, asked))) => {
                            let took: u64 = if at >= from { at - from } else { 0 };
                            let d: i128 = took as i128 - asked as i128;
                            let ghost before = out@;
                            out.push((phase, d));
                            assert(widened(out@) =~= widened(before).push((phase, d as int)));
                        },
                        _ => {},
                    }
                    opened = Some(at);
                    pending = None;
                },
            }
            i += 1;
        }
        assert(all.take(all.len() as int) =~= all);
        out
    }

    /// Clears the timeline between runs, keeping the sink.
    pub fn clear(&mut self)
        ensures
            final(self).steps() == Seq::<Step>::empty(),
            final(self).inner() == old(self).inner(),
    {
        self.steps.clear();
    }
}

impl<S: InputSink> InputSink for Trace<S> {
    closed spec fn ops(&self) -> Seq<SinkOp> {
        self.inner.ops()
    }

    fn send(&mut self, event: KeyEvent)
        ensures
            exists|at: u64| final(self).steps() == old(self).steps().push(Step::Sent(at)),
    {
        // The stamp comes before the send: it is the moment the key is handed out.
        let at = clock_micros_since(&self.origin);
        self.steps.push(Step::Sent(at));
        self.inner.send(event);
        assert(final(self).steps() == old(self).steps().push(Step::Sent(at)));
    }

    fn wait(&mut self, phase: Phase, micros: u64)
        ensures
            final(self).steps() == old(self).steps().push(Step::Waited(phase, micros)),
    {
        self.steps.push(Step::Waited(phase, micros));
        self.inner.wait(phase, micros);
    }
}

} // verus!
