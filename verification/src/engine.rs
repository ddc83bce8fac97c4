//! Macro engine: turns a shortcut into keys inside the game.
//!
//! Three rules: the modifier press happens before any notice to the UI; a
//! second shortcut during a run is rejected, never queued; and nothing stays
//! held: every key pressed is released, in reverse order, whether the sequence
//! completes or aborts.

use vstd::prelude::*;
use crate::chance;
use crate::data::Dir;
use crate::keys::{self, Scan};
use crate::settings::Speed;

verus! {

/// The game reads the keyboard once per frame; a key shorter than that does
/// not exist for it. Holds are never shorter than this.
pub const MIN_HOLD_MS: u32 = 20;

/// Floor of the waits that are not holds: only forbids a zero wait.
pub const MIN_WAIT_MS: u32 = 1;

/// Amplitude of the humanized jitter, each way, in microseconds.
pub const JITTER_US: i64 = 5000;

/// Intervals of a speed profile, in milliseconds.
#[derive(Debug, Clone, Copy, PartialEq, Eq, Structural)]
pub struct Profile {
    /// Direction key held.
    pub hold: u32,
    /// Pause between one direction and the next.
    pub gap: u32,
    /// Pause after holding the modifier, before the first direction.
    pub lead: u32,
    /// Pause after the last direction, before releasing the modifier.
    pub tail: u32,
}

impl Profile {
    pub open spec fn spec_of(speed: Speed) -> Profile {
        match speed {
            Speed::Normal => Profile { hold: 34, gap: 20, lead: 100, tail: 50 },
            Speed::Fast => Profile { hold: 24, gap: 12, lead: 70, tail: 40 },
            Speed::Turbo => Profile { hold: 20, gap: 6, lead: 50, tail: 30 },
        }
    }

    /// ~1 frame at 30fps.
    pub fn normal() -> (p: Profile)
        ensures
            p == Profile::spec_of(Speed::Normal),
    {
        Profile { hold: 34, gap: 20, lead: 100, tail: 50 }
    }

    /// ~1.5 frame at 60fps.
    pub fn fast() -> (p: Profile)
        ensures
            p == Profile::spec_of(Speed::Fast),
    {
        Profile { hold: 24, gap: 12, lead: 70, tail: 40 }
    }

    /// ~1.2 frame at 60fps.
    pub fn turbo() -> (p: Profile)
        ensures
            p == Profile::spec_of(Speed::Turbo),
    {
        Profile { hold: 20, gap: 6, lead: 50, tail: 30 }
    }

    pub fn of(speed: Speed) -> (p: Profile)
        ensures
            p == Profile::spec_of(speed),
    {
        match speed {
            Speed::Normal => Profile::normal(),
            Speed::Fast => Profile::fast(),
            Speed::Turbo => Profile::turbo(),
        }
    }
}

/// Where in the sequence a wait happens.
#[derive(Debug, Clone, Copy, PartialEq, Eq, Structural)]
pub enum Phase {
    Lead,
    Hold,
    Gap,
    Tail,
}

impl Phase {
    pub open spec fn spec_as_str(self) -> Seq<char> {
        match self {
            Phase::Lead => seq!['l', 'e', 'a', 'd'],
            Phase::Hold => seq!['h', 'o', 'l', 'd'],
            Phase::Gap => seq!['g', 'a', 'p'],
            Phase::Tail => seq!['t', 'a', 'i', 'l'],
        }
    }

    pub fn as_str(self) -> (r: &'static str)
        ensures
            r@ == self.spec_as_str(),
    {
        proof {
            reveal_strlit("lead");
            reveal_strlit("hold");
            reveal_strlit("gap");
            reveal_strlit("tail");
            assert("lead"@ =~= seq!['l', 'e', 'a', 'd']);
            assert("hold"@ =~= seq!['h', 'o', 'l', 'd']);
            assert("gap"@ =~= seq!['g', 'a', 'p']);
            assert("tail"@ =~= seq!['t', 'a', 'i', 'l']);
        }
        match self {
            Phase::Lead => "lead",
            Phase::Hold => "hold",
            Phase::Gap => "gap",
            Phase::Tail => "tail",
        }
    }
}

/// One keyboard event: one half of a key's cycle.
#[derive(Debug, Clone, Copy, PartialEq, Eq, Structural)]
pub struct KeyEvent {
    pub scan: Scan,
    pub up: bool,
}

/// What a sink was asked to do, in order.
#[derive(Debug, Clone, Copy, PartialEq, Eq, Structural)]
pub enum SinkOp {
    Send(KeyEvent),
    Wait(Phase, u64),
}

/// Where the engine sends keys and how it waits. In production it is the
/// system keyboard; in tests a [`Recorder`] that keeps the whole sequence.
pub trait InputSink {
    /// Everything asked of the sink so far.
    spec fn ops(&self) -> Seq<SinkOp>;

    fn send(&mut self, event: KeyEvent)
        ensures
            final(self).ops() == old(self).ops().push(SinkOp::Send(event)),
    ;

    /// Waits `micros` microseconds.
    fn wait(&mut self, phase: Phase, micros: u64)
        ensures
            final(self).ops() == old(self).ops().push(SinkOp::Wait(phase, micros)),
    ;
}

/// A sink made of two closures: `press` hands a key event to the keyboard,
/// `pause` waits the microseconds of a phase. Both are callable at any time.
pub struct KeySink<A: Fn(KeyEvent), B: Fn(Phase, u64)> {
    press: A,
    pause: B,
    log: Ghost<Seq<SinkOp>>,
}

impl<A: Fn(KeyEvent), B: Fn(Phase, u64)> KeySink<A, B> {
    #[verifier::type_invariant]
    spec fn callable(self) -> bool {
        &&& forall|e: KeyEvent| call_requires(self.press, (e,))
        &&& forall|p: Phase, us: u64| call_requires(self.pause, (p, us))
    }

    pub fn new(press: A, pause: B) -> (s: KeySink<A, B>)
        requires
            forall|e: KeyEvent| call_requires(press, (e,)),
            forall|p: Phase, us: u64| call_requires(pause, (p, us)),
        ensures
            s.ops() == Seq::<SinkOp>::empty(),
    {
        KeySink { press, pause, log: Ghost(Seq::empty()) }
    }
}

impl<A: Fn(KeyEvent), B: Fn(Phase, u64)> InputSink for KeySink<A, B> {
    closed spec fn ops(&self) -> Seq<SinkOp> {
        self.log@
    }

    fn send(&mut self, event: KeyEvent) {
        proof {
            use_type_invariant(&*self);
        }
        (self.press)(event);
        self.log = Ghost(self.log@.push(SinkOp::Send(event)));
    }

    fn wait(&mut self, phase: Phase, micros: u64) {
        proof {
            use_type_invariant(&*self);
        }
        (self.pause)(phase, micros);
        self.log = Ghost(self.log@.push(SinkOp::Wait(phase, micros)));
    }
}

/// Humanized jitter, switchable off so a test can predict every interval.
#[derive(Debug, Clone, Copy, PartialEq, Eq, Structural)]
pub enum Jitter {
    Humanized,
    Off,
}

impl Jitter {
    /// Offset of one interval, in microseconds: none when off, otherwise
    /// drawn in `[-JITTER_US, JITTER_US)`.
    pub fn offset_us(self) -> (o: i64)
        ensures
            self is Off ==> o == 0,
            -JITTER_US <= o < JITTER_US,
    {
        match self {
            Jitter::Off => 0,
            Jitter::Humanized => chance::random_i64(-JITTER_US, JITTER_US),
        }
    }
}

/// An interval with jitter and floor, in microseconds.
pub open spec fn spec_jittered_us(base_ms: u32, floor_ms: u32, offset_us: int) -> int {
    let v = base_ms * 1000 + offset_us;
    if v >= floor_ms * 1000 { v } else { floor_ms * 1000 }
}

/// Applies jitter and floor to an interval, in microseconds. It is here that
/// turbo could fall below one frame; the floor rules that out.
pub fn jittered_us(base_ms: u32, floor_ms: u32, offset_us: i64) -> (r: u64)
    requires
        -JITTER_US <= offset_us <= JITTER_US,
    ensures
        r == spec_jittered_us(base_ms, floor_ms, offset_us as int),
        r >= floor_ms * 1000,
{
    let v: i128 = (base_ms as i128) * 1000 + (offset_us as i128);
    let f: i128 = (floor_ms as i128) * 1000;
    if v >= f { v as u64 } else { f as u64 }
}

/// A hold never drops below one frame, whatever the jitter.
pub proof fn law_hold_never_below_a_frame(speed: Speed, offset_us: int)
    requires
        -JITTER_US <= offset_us <= JITTER_US,
    ensures
        spec_jittered_us(Profile::spec_of(speed).hold, MIN_HOLD_MS, offset_us) >= MIN_HOLD_MS * 1000,
{
}

/// What to run, all resolved by the sender.
#[derive(Debug, Clone, PartialEq, Eq)]
pub struct Sequence {
    pub codex: Vec<Dir>,
    pub modifier: Scan,
    pub use_arrows: bool,
    pub speed: Speed,
}

/// Hooks of the sequence into the rest of the app.
pub trait Hooks {
    /// The answers `aborted` gave so far, in order.
    spec fn answers(&self) -> Seq<bool>;

    /// How many times `started` was called.
    spec fn starts(&self) -> nat;

    /// How many answers `aborted` had given when `started` was last called.
    spec fn start_mark(&self) -> Option<nat>;

    /// Consulted before each direction; `true` stops right away.
    fn aborted(&mut self) -> (r: bool)
        ensures
            final(self).answers() == old(self).answers().push(r),
            final(self).starts() == old(self).starts(),
            final(self).start_mark() == old(self).start_mark(),
    ;

    /// Called right after the modifier press, never before.
    fn started(&mut self)
        ensures
            final(self).answers() == old(self).answers(),
            final(self).starts() == old(self).starts() + 1,
            final(self).start_mark() == Some(old(self).answers().len()),
    ;
}

/// Hooks that never abort and tell no one: a sequence run with them goes
/// out whole. Every answer they gave is `false`.
pub struct NoHooks {
    pub asked: Ghost<nat>,
    pub starts: Ghost<nat>,
    pub start_mark: Ghost<Option<nat>>,
}

impl NoHooks {
    pub fn new() -> (h: NoHooks)
        ensures
            h.answers() == Seq::<bool>::empty(),
            h.starts() == 0,
    {
        NoHooks { asked: Ghost(0), starts: Ghost(0), start_mark: Ghost(None) }
    }
}

impl Hooks for NoHooks {
    open spec fn answers(&self) -> Seq<bool> {
        Seq::new(self.asked@, |i: int| false)
    }

    open spec fn starts(&self) -> nat {
        self.starts@
    }

    open spec fn start_mark(&self) -> Option<nat> {
        self.start_mark@
    }

    fn aborted(&mut self) -> (r: bool)
        ensures
            !r,
    {
        self.asked = Ghost(self.asked@ + 1);
        assert(self.answers() =~= old(self).answers().push(false));
        false
    }

    fn started(&mut self) {
        self.starts = Ghost(self.starts@ + 1);
        self.start_mark = Ghost(Some(self.asked@));
    }
}

/// Hooks made of two closures: `ask` answers whether to stop, `tell`
/// announces the start. Both are callable at any time.
pub struct Callbacks<A: Fn() -> bool, B: Fn()> {
    ask: A,
    tell: B,
    answers: Ghost<Seq<bool>>,
    starts: Ghost<nat>,
    start_mark: Ghost<Option<nat>>,
}

impl<A: Fn() -> bool, B: Fn()> Callbacks<A, B> {
    #[verifier::type_invariant]
    spec fn callable(self) -> bool {
        call_requires(self.ask, ()) && call_requires(self.tell, ())
    }

    pub fn new(ask: A, tell: B) -> (h: Callbacks<A, B>)
        requires
            call_requires(ask, ()),
            call_requires(tell, ()),
        ensures
            h.answers() == Seq::<bool>::empty(),
            h.starts() == 0,
    {
        Callbacks { ask, tell, answers: Ghost(Seq::empty()), starts: Ghost(0), start_mark: Ghost(None) }
    }
}

impl<A: Fn() -> bool, B: Fn()> Hooks for Callbacks<A, B> {
    closed spec fn answers(&self) -> Seq<bool> {
        self.answers@
    }

    closed spec fn starts(&self) -> nat {
        self.starts@
    }

    closed spec fn start_mark(&self) -> Option<nat> {
        self.start_mark@
    }

    fn aborted(&mut self) -> (r: bool) {
        proof {
            use_type_invariant(&*self);
        }
        let r = (self.ask)();
        self.answers = Ghost(self.answers@.push(r));
        r
    }

    fn started(&mut self) {
        proof {
            use_type_invariant(&*self);
        }
        (self.tell)();
        self.starts = Ghost(self.starts@ + 1);
        self.start_mark = Ghost(Some(self.answers@.len()));
    }
}

#[derive(Debug, Clone, Copy, PartialEq, Eq, Structural)]
pub enum Outcome {
    Completed,
    Aborted,
}

/// A wait the sequence may ask for: its phase, and a duration that is the base
/// with a jitter offset in range (exactly zero when jitter is off), floored.
pub open spec fn wait_ok(op: SinkOp, phase: Phase, base_ms: u32, floor_ms: u32, jitter: Jitter) -> bool {
    exists|o: int|
        -JITTER_US <= o < JITTER_US && (jitter is Off ==> o == 0)
            && op == SinkOp::Wait(phase, spec_jittered_us(base_ms, floor_ms, o) as u64)
}

pub open spec fn press(scan: Scan) -> SinkOp {
    SinkOp::Send(KeyEvent { scan, up: false })
}

pub open spec fn release(scan: Scan) -> SinkOp {
    SinkOp::Send(KeyEvent { scan, up: true })
}

/// `t` is what a run of `codex` asks of the sink when `k` directions went
/// out: modifier down, lead, then for each direction down, hold, up and gap;
/// a completed run adds the tail and the modifier release, an aborted one
/// only releases the modifier.
pub open spec fn valid_trace(
    t: Seq<SinkOp>,
    codex: Seq<Dir>,
    modifier: Scan,
    use_arrows: bool,
    speed: Speed,
    jitter: Jitter,
    k: int,
    completed: bool,
) -> bool {
    let p = Profile::spec_of(speed);
    &&& 0 <= k <= codex.len()
    &&& completed ==> k == codex.len()
    &&& t.len() == 4 * k + (if completed { 4int } else { 3int })
    &&& t[0] == press(modifier)
    &&& wait_ok(t[1], Phase::Lead, p.lead, MIN_WAIT_MS, jitter)
    &&& forall|j: int| 0 <= j < k ==> {
        let scan = keys::spec_direction_scan(#[trigger] codex[j], use_arrows);
        &&& t[2 + 4 * j] == press(scan)
        &&& wait_ok(t[2 + 4 * j + 1], Phase::Hold, p.hold, MIN_HOLD_MS, jitter)
        &&& t[2 + 4 * j + 2] == release(scan)
        &&& wait_ok(t[2 + 4 * j + 3], Phase::Gap, p.gap, MIN_WAIT_MS, jitter)
    }
    &&& completed ==> wait_ok(t[2 + 4 * k], Phase::Tail, p.tail, MIN_WAIT_MS, jitter)
    &&& completed ==> t[2 + 4 * k + 1] == release(modifier)
    &&& !completed ==> t[2 + 4 * k] == release(modifier)
}

fn wait_jittered<S: InputSink>(sink: &mut S, phase: Phase, base_ms: u32, floor_ms: u32, jitter: Jitter)
    ensures
        final(sink).ops().len() == old(sink).ops().len() + 1,
        final(sink).ops().take(old(sink).ops().len() as int) == old(sink).ops(),
        wait_ok(final(sink).ops().last(), phase, base_ms, floor_ms, jitter),
{
    let o = jitter.offset_us();
    let us = jittered_us(base_ms, floor_ms, o);
    sink.wait(phase, us);
    assert(final(sink).ops().take(old(sink).ops().len() as int) =~= old(sink).ops());
    assert(wait_ok(final(sink).ops().last(), phase, base_ms, floor_ms, jitter)) by {
        assert(final(sink).ops().last() == SinkOp::Wait(phase, spec_jittered_us(base_ms, floor_ms, o as int) as u64));
    }
}

proof fn lemma_push_prefix(b: Seq<SinkOp>, x: SinkOp, n: int)
    requires
        0 <= n <= b.len(),
    ensures
        b.push(x).take(n) == b.take(n),
        forall|j: int| 0 <= j < b.len() ==> b.push(x)[j] == b[j],
        b.push(x).skip(n) == b.skip(n).push(x),
{
    assert(b.push(x).take(n) =~= b.take(n));
    assert(b.push(x).skip(n) =~= b.skip(n).push(x));
}

proof fn lemma_prefix_index(a: Seq<SinkOp>, b: Seq<SinkOp>, i: int)
    requires
        b.len() <= a.len(),
        a.take(b.len() as int) == b,
        0 <= i < b.len(),
    ensures
        a[i] == b[i],
{
    assert(a[i] == a.take(b.len() as int)[i]);
}

/// The hooks are asked once before each direction, and the first `true`
/// stops the run: a completed run heard `false` before each of its `n`
/// directions; an aborted one heard `false` before each direction that went
/// out and `true` before the next.
pub open spec fn stops_as_asked(asked: Seq<bool>, n: nat, o: Outcome) -> bool {
    &&& o is Completed ==> asked == Seq::new(n, |j: int| false)
    &&& o is Aborted ==> 1 <= asked.len() <= n && asked.last()
        && forall|j: int| 0 <= j < asked.len() - 1 ==> !asked[j]
}

/// How many directions went out: all that were asked about, less the one
/// that the abort answered.
pub open spec fn directions_sent(asked: Seq<bool>, o: Outcome) -> int {
    if o is Completed { asked.len() as int } else { asked.len() - 1 }
}

/// Runs a whole sequence: modifier, lead, each direction with hold and gap,
/// tail and the modifier release. When the hooks report an abort before a
/// direction, nothing more is pressed and the modifier is released at once.
pub fn run_sequence<S: InputSink, H: Hooks>(sink: &mut S, sequence: &Sequence, jitter: Jitter, hooks: &mut H) -> (o: Outcome)
    ensures
        final(sink).ops().len() >= old(sink).ops().len(),
        final(sink).ops().take(old(sink).ops().len() as int) == old(sink).ops(),
        final(hooks).starts() == old(hooks).starts() + 1,
        final(hooks).start_mark() == Some(old(hooks).answers().len()),
        final(hooks).answers().len() >= old(hooks).answers().len(),
        final(hooks).answers().take(old(hooks).answers().len() as int) == old(hooks).answers(),
        stops_as_asked(final(hooks).answers().skip(old(hooks).answers().len() as int), sequence.codex@.len(), o),
        valid_trace(
            final(sink).ops().skip(old(sink).ops().len() as int),
            sequence.codex@,
            sequence.modifier,
            sequence.use_arrows,
            sequence.speed,
            jitter,
            directions_sent(final(hooks).answers().skip(old(hooks).answers().len() as int), o),
            o is Completed,
        ),
{
    let ghost start = sink.ops();
    let ghost n0 = start.len() as int;
    let ghost h0 = hooks.answers();
    let ghost st0 = hooks.starts();
    let profile = Profile::of(sequence.speed);
    sink.send(KeyEvent { scan: sequence.modifier, up: false });
    let ghost s1 = sink.ops();
    assert(s1 == start.push(press(sequence.modifier)));
    hooks.started();
    wait_jittered(sink, Phase::Lead, profile.lead, MIN_WAIT_MS, jitter);
    proof {
        lemma_prefix_index(sink.ops(), s1, n0);
    }
    let n = sequence.codex.len();
    let mut i: usize = 0;
    proof {
        assert(sink.ops().take(n0) =~= start);
    }
    while i < n
        invariant
            n == sequence.codex@.len(),
            n0 == start.len(),
            start == old(sink).ops(),
            h0 == old(hooks).answers(),
            st0 == old(hooks).starts(),
            hooks.answers() == h0 + Seq::new(i as nat, |j: int| false),
            hooks.starts() == st0 + 1,
            hooks.start_mark() == Some(h0.len()),
            i <= n,
            profile == Profile::spec_of(sequence.speed),
            sink.ops().len() == n0 + 2 + 4 * i,
            sink.ops().take(n0) == start,
            sink.ops()[n0] == press(sequence.modifier),
            wait_ok(sink.ops()[n0 + 1], Phase::Lead, profile.lead, MIN_WAIT_MS, jitter),
            forall|j: int| 0 <= j < i ==> {
                let scan = keys::spec_direction_scan(#[trigger] sequence.codex@[j], sequence.use_arrows);
                &&& sink.ops()[n0 + 2 + 4 * j] == press(scan)
                &&& wait_ok(sink.ops()[n0 + 2 + 4 * j + 1], Phase::Hold, profile.hold, MIN_HOLD_MS, jitter)
                &&& sink.ops()[n0 + 2 + 4 * j + 2] == release(scan)
                &&& wait_ok(sink.ops()[n0 + 2 + 4 * j + 3], Phase::Gap, profile.gap, MIN_WAIT_MS, jitter)
            },
        decreases n - i,
    {
        let ghost pre = hooks.answers();
        if hooks.aborted() {
            proof {
                let asked = hooks.answers().skip(h0.len() as int);
                assert(hooks.answers().take(h0.len() as int) =~= h0);
                assert(asked =~= Seq::new(i as nat, |j: int| false).push(true));
            }
            let ghost before = sink.ops();
            sink.send(KeyEvent { scan: sequence.modifier, up: true });
            proof {
                assert(sink.ops() == before.push(release(sequence.modifier)));
                lemma_push_prefix(before, release(sequence.modifier), n0);
                let t = sink.ops().skip(n0);
                assert(sink.ops().take(n0) =~= start) by {
                    assert(sink.ops().take(n0) =~= before.take(n0));
                }
                assert forall|j: int| 0 <= j < i implies {
                    let scan = keys::spec_direction_scan(#[trigger] sequence.codex@[j], sequence.use_arrows);
                    &&& t[2 + 4 * j] == press(scan)
                    &&& wait_ok(t[2 + 4 * j + 1], Phase::Hold, profile.hold, MIN_HOLD_MS, jitter)
                    &&& t[2 + 4 * j + 2] == release(scan)
                    &&& wait_ok(t[2 + 4 * j + 3], Phase::Gap, profile.gap, MIN_WAIT_MS, jitter)
                } by {
                    assert(t[2 + 4 * j] == before[n0 + 2 + 4 * j]);
                    assert(t[2 + 4 * j + 1] == before[n0 + 2 + 4 * j + 1]);
                    assert(t[2 + 4 * j + 2] == before[n0 + 2 + 4 * j + 2]);
                    assert(t[2 + 4 * j + 3] == before[n0 + 2 + 4 * j + 3]);
                }
                assert(valid_trace(t, sequence.codex@, sequence.modifier, sequence.use_arrows, sequence.speed, jitter, i as int, false));
            }
            return Outcome::Aborted;
        }
        assert(hooks.answers() =~= h0 + Seq::new((i + 1) as nat, |j: int| false));
        let ghost before = sink.ops();
        let scan = keys::direction_scan(sequence.codex[i], sequence.use_arrows);
        sink.send(KeyEvent { scan, up: false });
        let ghost b1 = sink.ops();
        wait_jittered(sink, Phase::Hold, profile.hold, MIN_HOLD_MS, jitter);
        let ghost b2 = sink.ops();
        sink.send(KeyEvent { scan, up: true });
        let ghost b3 = sink.ops();
        wait_jittered(sink, Phase::Gap, profile.gap, MIN_WAIT_MS, jitter);
        proof {
            let now = sink.ops();
            let m = before.len() as int;
            assert(b1 == before.push(press(scan)));
            assert(b3 == b2.push(release(scan)));
            lemma_push_prefix(before, press(scan), m);
            lemma_push_prefix(b2, release(scan), b2.len() as int);
            assert forall|q: int| 0 <= q < b3.len() implies now[q] == b3[q] by {
                lemma_prefix_index(now, b3, q);
            }
            assert forall|q: int| 0 <= q < b1.len() implies b2[q] == b1[q] by {
                lemma_prefix_index(b2, b1, q);
            }
            assert(now.len() == m + 4);
            assert(now[m] == press(scan));
            assert(now[m + 1] == b2[m + 1]);
            assert(now[m + 2] == release(scan));
            assert forall|q: int| 0 <= q < m implies now[q] == before[q] by {
                assert(now[q] == b3[q]);
                assert(b3[q] == b2[q]);
                assert(b2[q] == b1[q]);
            }
            assert(now.take(n0) =~= start) by {
                assert forall|q: int| 0 <= q < n0 implies now.take(n0)[q] == start[q] by {
                    assert(before[q] == before.take(n0)[q]);
                }
            }
            assert(now[n0] == press(sequence.modifier));
            assert(now[n0 + 1] == before[n0 + 1]);
            assert forall|j: int| 0 <= j < i + 1 implies {
                let scan = keys::spec_direction_scan(#[trigger] sequence.codex@[j], sequence.use_arrows);
                &&& now[n0 + 2 + 4 * j] == press(scan)
                &&& wait_ok(now[n0 + 2 + 4 * j + 1], Phase::Hold, profile.hold, MIN_HOLD_MS, jitter)
                &&& now[n0 + 2 + 4 * j + 2] == release(scan)
                &&& wait_ok(now[n0 + 2 + 4 * j + 3], Phase::Gap, profile.gap, MIN_WAIT_MS, jitter)
            } by {
                if j < i {
                    assert(now[n0 + 2 + 4 * j] == before[n0 + 2 + 4 * j]);
                    assert(now[n0 + 2 + 4 * j + 1] == before[n0 + 2 + 4 * j + 1]);
                    assert(now[n0 + 2 + 4 * j + 2] == before[n0 + 2 + 4 * j + 2]);
                    assert(now[n0 + 2 + 4 * j + 3] == before[n0 + 2 + 4 * j + 3]);
                } else {
                    assert(b2.last() == b2[m + 1]);
                }
            }
        }
        i += 1;
    }
    wait_jittered(sink, Phase::Tail, profile.tail, MIN_WAIT_MS, jitter);
    sink.send(KeyEvent { scan: sequence.modifier, up: true });
    proof {
        let t = sink.ops().skip(n0);
        assert(valid_trace(t, sequence.codex@, sequence.modifier, sequence.use_arrows, sequence.speed, jitter, n as int, true));
        assert(hooks.answers().take(h0.len() as int) =~= h0);
        assert(hooks.answers().skip(h0.len() as int) =~= Seq::new(n as nat, |j: int| false));
    }
    Outcome::Completed
}


/// The key events among `ops`, in order.
pub open spec fn sends(ops: Seq<SinkOp>) -> Seq<KeyEvent>
    decreases ops.len(),
{
    if ops.len() == 0 {
        Seq::empty()
    } else {
        match ops.last() {
            SinkOp::Send(e) => sends(ops.drop_last()).push(e),
            SinkOp::Wait(..) => sends(ops.drop_last()),
        }
    }
}

/// The waits among `ops`, in order, in microseconds.
pub open spec fn waits_of(ops: Seq<SinkOp>) -> Seq<(Phase, u64)>
    decreases ops.len(),
{
    if ops.len() == 0 {
        Seq::empty()
    } else {
        match ops.last() {
            SinkOp::Send(..) => waits_of(ops.drop_last()),
            SinkOp::Wait(p, us) => waits_of(ops.drop_last()).push((p, us)),
        }
    }
}

/// Test sink: keeps the whole sequence and advances a virtual clock, so tests
/// check order and intervals without waiting for real.
pub struct Recorder {
    /// Each event with the virtual instant (microseconds) at which it was sent.
    pub events: Vec<(u64, KeyEvent)>,
    /// Each wait asked for, in order, in microseconds.
    pub waits: Vec<(Phase, u64)>,
    elapsed: u64,
    log: Ghost<Seq<SinkOp>>,
}

impl Recorder {
    /// The events recorded, without their instants.
    pub closed spec fn recorded_events(&self) -> Seq<KeyEvent> {
        self.events@.map_values(|e: (u64, KeyEvent)| e.1)
    }

    /// The waits recorded, in microseconds.
    pub closed spec fn recorded_waits(&self) -> Seq<(Phase, u64)> {
        self.waits@
    }

    /// The recorded events and waits are the ones of the log.
    pub closed spec fn wf(&self) -> bool {
        &&& self.events@.map_values(|e: (u64, KeyEvent)| e.1) == sends(self.log@)
        &&& self.waits@ == waits_of(self.log@)
    }

    pub fn new() -> (r: Recorder)
        ensures
            r.wf(),
            r.ops() == Seq::<SinkOp>::empty(),
    {
        let r = Recorder { events: Vec::new(), waits: Vec::new(), elapsed: 0, log: Ghost(Seq::empty()) };
        assert(r.events@.map_values(|e: (u64, KeyEvent)| e.1) =~= Seq::<KeyEvent>::empty());
        r
    }

    /// Only the events, to compare the order of a sequence at once.
    pub fn key_events(&self) -> (r: Vec<KeyEvent>)
        ensures
            r@ == self.recorded_events(),
            self.wf() ==> r@ == sends(self.ops()),
    {
        let mut r: Vec<KeyEvent> = Vec::new();
        let mut i: usize = 0;
        while i < self.events.len()
            invariant
                i <= self.events@.len(),
                r@ == self.events@.take(i as int).map_values(|e: (u64, KeyEvent)| e.1),
            decreases self.events.len() - i,
        {
            r.push(self.events[i].1);
            assert(self.events@.take(i + 1).map_values(|e: (u64, KeyEvent)| e.1) =~= self.events@.take(i as int).map_values(|e: (u64, KeyEvent)| e.1).push(self.events@[i as int].1));
            i += 1;
        }
        assert(self.events@.take(self.events@.len() as int) =~= self.events@);
        r
    }

    /// Waits in whole milliseconds, rounded down.
    pub fn wait_ms(&self) -> (r: Vec<(Phase, u64)>)
        ensures
            r@ == self.recorded_waits().map_values(|w: (Phase, u64)| (w.0, w.1 / 1000)),
            self.wf() ==> r@ == waits_of(self.ops()).map_values(|w: (Phase, u64)| (w.0, w.1 / 1000)),
    {
        let mut r: Vec<(Phase, u64)> = Vec::new();
        let mut i: usize = 0;
        while i < self.waits.len()
            invariant
                i <= self.waits@.len(),
                r@ == self.waits@.take(i as int).map_values(|w: (Phase, u64)| (w.0, w.1 / 1000)),
            decreases self.waits.len() - i,
        {
            r.push((self.waits[i].0, self.waits[i].1 / 1000));
            assert(self.waits@.take(i + 1).map_values(|w: (Phase, u64)| (w.0, w.1 / 1000)) =~= self.waits@.take(i as int).map_values(|w: (Phase, u64)| (w.0, w.1 / 1000)).push((self.waits@[i as int].0, self.waits@[i as int].1 / 1000)));
            i += 1;
        }
        assert(self.waits@.take(self.waits@.len() as int) =~= self.waits@);
        r
    }
}

impl InputSink for Recorder {
    closed spec fn ops(&self) -> Seq<SinkOp> {
        self.log@
    }

    fn send(&mut self, event: KeyEvent)
        ensures
            old(self).wf() ==> final(self).wf(),
    {
        self.events.push((self.elapsed, event));
        self.log = Ghost(self.log@.push(SinkOp::Send(event)));
        proof {
            assert(self.log@.drop_last() =~= old(self).log@);
            assert(self.events@.map_values(|e: (u64, KeyEvent)| e.1) =~= old(self).events@.map_values(|e: (u64, KeyEvent)| e.1).push(event));
        }
    }

    fn wait(&mut self, phase: Phase, micros: u64)
        ensures
            old(self).wf() ==> final(self).wf(),
    {
        self.waits.push((phase, micros));
        self.elapsed = if self.elapsed <= u64::MAX - micros { self.elapsed + micros } else { u64::MAX };
        self.log = Ghost(self.log@.push(SinkOp::Wait(phase, micros)));
        proof {
            assert(self.log@.drop_last() =~= old(self).log@);
        }
    }
}

/// Keys held right now. Every key pressed through it is released by
/// [`Held::release_all`], last first, the way a hand would let go.
#[derive(Debug, Clone, Copy)]
pub struct Held {
    down: [Option<Scan>; 4],
}

/// Releases of the held keys, from the last slot to the first.
pub open spec fn releases_rev(down: Seq<Option<Scan>>) -> Seq<SinkOp>
    decreases down.len(),
{
    if down.len() == 0 {
        Seq::empty()
    } else {
        let rest = releases_rev(down.drop_last());
        match down.last() {
            Some(s) => seq![release(s)] + rest,
            None => rest,
        }
    }
}

impl Held {
    pub closed spec fn view(&self) -> Seq<Option<Scan>> {
        self.down@
    }

    pub fn new() -> (h: Held)
        ensures
            h.view() == seq![None::<Scan>, None, None, None],
    {
        let h = Held { down: [None, None, None, None] };
        assert(h.down@ =~= seq![None::<Scan>, None, None, None]);
        h
    }

    /// Sends the press and records the key in the first free place.
    pub fn press<S: InputSink>(&mut self, sink: &mut S, scan: Scan)
        ensures
            final(sink).ops() == old(sink).ops().push(press(scan)),
            final(self).view().len() == 4,
            (exists|i: int| 0 <= i < 4 && old(self).view()[i] is None) ==> ({
                let i = choose|i: int| 0 <= i < 4 && old(self).view()[i] is None && forall|j: int| 0 <= j < i ==> old(self).view()[j] is Some;
                final(self).view() == old(self).view().update(i, Some(scan))
            }),
    {
        sink.send(KeyEvent { scan, up: false });
        let mut i: usize = 0;
        while i < 4
            invariant
                i <= 4,
                self.down@ == old(self).down@,
                sink.ops() == old(sink).ops().push(press(scan)),
                forall|j: int| 0 <= j < i ==> self.down@[j] is Some,
            decreases 4 - i,
        {
            if self.down[i].is_none() {
                self.down[i] = Some(scan);
                proof {
                    let c = choose|c: int| 0 <= c < 4 && old(self).view()[c] is None && forall|j: int| 0 <= j < c ==> old(self).view()[j] is Some;
                    if c < i {
                        assert(false);
                    } else if c > i {
                        assert(old(self).view()[i as int] is Some);
                    }
                    assert(self.down@ =~= old(self).down@.update(i as int, Some(scan)));
                }
                return;
            }
            i += 1;
        }
    }

    /// Sends the release and forgets the key.
    pub fn release<S: InputSink>(&mut self, sink: &mut S, scan: Scan)
        ensures
            final(sink).ops() == old(sink).ops().push(release(scan)),
            final(self).view() == old(self).view().map_values(|d: Option<Scan>| if d == Some(scan) { None } else { d }),
    {
        sink.send(KeyEvent { scan, up: true });
        let mut i: usize = 0;
        while i < 4
            invariant
                i <= 4,
                forall|j: int| 0 <= j < i ==> self.down@[j] == (if old(self).down@[j] == Some(scan) { None } else { old(self).down@[j] }),
                forall|j: int| i <= j < 4 ==> self.down@[j] == old(self).down@[j],
            decreases 4 - i,
        {
            if self.down[i] == Some(scan) {
                self.down[i] = None;
            }
            i += 1;
        }
        assert(self.view() =~= old(self).view().map_values(|d: Option<Scan>| if d == Some(scan) { None } else { d }));
    }

    /// Releases every held key in reverse order: first the last key held
    /// (the direction), then the modifier.
    pub fn release_all<S: InputSink>(&mut self, sink: &mut S)
        ensures
            final(sink).ops() == old(sink).ops() + releases_rev(old(self).view()),
            final(self).view() == seq![None::<Scan>, None, None, None],
    {
        let mut i: usize = 4;
        assert(old(self).down@.take(4) =~= old(self).down@);
        assert(releases_rev(old(self).down@).take(0) =~= Seq::<SinkOp>::empty());
        assert(sink.ops() =~= old(sink).ops() + releases_rev(old(self).down@).take(0));
        while i > 0
            invariant
                i <= 4,
                sink.ops() == old(sink).ops() + releases_rev(old(self).down@).take(releases_rev(old(self).down@).len() - releases_rev(old(self).down@.take(i as int)).len()),
                releases_rev(old(self).down@.take(i as int)).len() <= releases_rev(old(self).down@).len(),
                releases_rev(old(self).down@) == releases_rev(old(self).down@).take(releases_rev(old(self).down@).len() - releases_rev(old(self).down@.take(i as int)).len()) + releases_rev(old(self).down@.take(i as int)),
                forall|j: int| 0 <= j < i ==> self.down@[j] == old(self).down@[j],
                forall|j: int| i <= j < 4 ==> self.down@[j] is None,
            decreases i,
        {
            let ghost whole = releases_rev(old(self).down@);
            let ghost pre = old(self).down@.take(i as int);
            assert(pre.drop_last() =~= old(self).down@.take(i - 1));
            match self.down[i - 1] {
                Some(scan) => {
                    sink.send(KeyEvent { scan, up: true });
                    self.down[i - 1] = None;
                    proof {
                        assert(releases_rev(pre) == seq![release(scan)] + releases_rev(old(self).down@.take(i - 1)));
                        let a = whole.len() - releases_rev(pre).len();
                        assert(whole.take(a + 1) =~= whole.take(a).push(release(scan)));
                        assert(whole =~= whole.take(a + 1) + releases_rev(old(self).down@.take(i - 1)));
                    }
                },
                None => {},
            }
            i -= 1;
        }
        assert(old(self).down@.take(0) =~= Seq::<Option<Scan>>::empty());
        assert(releases_rev(old(self).down@).take(releases_rev(old(self).down@).len() as int) =~= releases_rev(old(self).down@));
        assert(self.down@ =~= seq![None::<Scan>, None, None, None]);
    }
}


/// What the engine thread does with a shortcut order.
#[derive(Debug, Clone, Copy, PartialEq, Eq, Structural)]
pub enum Intake {
    /// Another sequence is still running: refused with the red flash, never queued.
    Busy,
    /// The focus fell between the hook queuing the order and the engine waking
    /// up: nothing goes out, silently.
    Unfocused,
    Run,
}

/// Decides an order as it arrives (`handle`): a run in progress refuses it,
/// a lost focus drops it, and otherwise the sequence runs. The orders that
/// arrive during a run are refused one by one before the run is over.
pub fn intake(running: bool, focused: bool) -> (r: Intake)
    ensures
        running ==> r == Intake::Busy,
        !running && !focused ==> r == Intake::Unfocused,
        !running && focused ==> r == Intake::Run,
{
    if running {
        Intake::Busy
    } else if !focused {
        Intake::Unfocused
    } else {
        Intake::Run
    }
}

} // verus!
