//! Global shortcuts: the table that the low-level keyboard hook consults and the
//! decision it takes for each key.
//!
//! The hook stays installed all the time; a pre-resolved table decides. The
//! callback compares a virtual-key, finds a ready command and hands it to the
//! engine: no settings lookup and no stratagem resolution on the hot path.

use vstd::prelude::*;
use crate::data::{self, Dir, GameData};
use crate::keys::{self, Scan, Vk};
use crate::settings::{Settings, Speed, SLOT_COUNT, SUPPORT_COUNT};
use crate::shared::{EngineCmd, Slots};

verus! {

/// Virtual-key of the overlay shortcut (`Ctrl+H`). Ctrl comes from the real
/// keyboard state, not from the table.
pub const OVERLAY_HOTKEY_VK: Vk = 0x48;

/// A resolved shortcut: from the virtual-key to the sequence it runs.
#[derive(Debug, Clone, PartialEq, Eq)]
pub struct Binding {
    pub vk: Vk,
    /// Index of the macro slot or of the fixed support stratagem, per `support`.
    pub slot: usize,
    pub support: bool,
    pub codex: Vec<Dir>,
    pub modifier: Scan,
    pub use_arrows: bool,
    pub speed: Speed,
}

/// What a binding stands for: virtual-key, slot, support flag and codex.
pub type Cand = (Vk, usize, bool, Seq<Dir>);

impl Binding {
    pub open spec fn cand(&self) -> Cand {
        (self.vk, self.slot, self.support, self.codex@)
    }

    /// Ready command for the engine.
    pub fn command(&self) -> (c: EngineCmd)
        ensures
            c matches EngineCmd::Run { codex, modifier, use_arrows, speed, slot, support }
                && codex@ == self.codex@ && modifier == self.modifier && use_arrows == self.use_arrows
                && speed == self.speed && slot == self.slot && support == self.support,
    {
        EngineCmd::Run {
            codex: copy_codex(&self.codex),
            modifier: self.modifier,
            use_arrows: self.use_arrows,
            speed: self.speed,
            slot: self.slot,
            support: self.support,
        }
    }
}

/// A copy of a codex.
pub fn copy_codex(codex: &Vec<Dir>) -> (r: Vec<Dir>)
    ensures
        r@ == codex@,
{
    let mut r: Vec<Dir> = Vec::new();
    let mut i: usize = 0;
    while i < codex.len()
        invariant
            i <= codex@.len(),
            r@ == codex@.take(i as int),
        decreases codex.len() - i,
    {
        r.push(codex[i]);
        assert(r@ =~= codex@.take(i + 1));
        i += 1;
    }
    assert(codex@.take(codex@.len() as int) =~= codex@);
    r
}

/// Candidate of macro slot `i`: its shortcut name must be a known key and its
/// id must resolve to a stratagem.
pub open spec fn slot_cand(settings: &Settings, slots: Seq<Option<u32>>, data: &GameData, i: int) -> Option<Cand> {
    match settings.spec_shortcut(i) {
        Some(name) => match keys::spec_vk_from_name(name) {
            Some(vk) => match slots[i] {
                Some(id) => match data.spec_by_id(id) {
                    Some(s) => Some((vk, i as usize, false, s.codex@)),
                    None => None,
                },
                None => None,
            },
            None => None,
        },
        None => None,
    }
}

/// Candidate of fixed support stratagem `i`.
pub open spec fn support_cand(settings: &Settings, i: int) -> Option<Cand> {
    match settings.spec_support_shortcut(i) {
        Some(name) => match keys::spec_vk_from_name(name) {
            Some(vk) => Some((vk, i as usize, true, data::support_codexes()[i])),
            None => None,
        },
        None => None,
    }
}

/// The seven candidates, macro slots first.
pub open spec fn candidates(settings: &Settings, slots: Seq<Option<u32>>, data: &GameData) -> Seq<Option<Cand>> {
    Seq::new(7, |k: int| if k < 4 { slot_cand(settings, slots, data, k) } else { support_cand(settings, k - 4) })
}

/// The candidates with a second use of the same virtual-key dropped: the first wins.
pub open spec fn dedup(c: Seq<Option<Cand>>) -> Seq<Cand>
    decreases c.len(),
{
    if c.len() == 0 {
        Seq::empty()
    } else {
        let prev = dedup(c.drop_last());
        match c.last() {
            Some(x) => if exists|j: int| 0 <= j < prev.len() && prev[j].0 == x.0 { prev } else { prev.push(x) },
            None => prev,
        }
    }
}

/// The table of bindings that `settings` and `slots` resolve to.
pub open spec fn spec_table(settings: &Settings, slots: Seq<Option<u32>>, data: &GameData) -> Seq<Cand> {
    dedup(candidates(settings, slots, data))
}

/// Index of the first entry of `t` with virtual-key `vk`.
pub open spec fn first_with_vk(t: Seq<Cand>, vk: Vk) -> Option<int>
    decreases t.len(),
{
    if t.len() == 0 {
        None
    } else if t[0].0 == vk {
        Some(0)
    } else {
        match first_with_vk(t.drop_first(), vk) {
            Some(i) => Some(i + 1),
            None => None,
        }
    }
}

/// The index found is an index of the table, and its entry has the key.
pub proof fn lemma_first_with_vk(t: Seq<Cand>, vk: Vk)
    ensures
        first_with_vk(t, vk) matches Some(i) ==> 0 <= i < t.len() && t[i].0 == vk,
    decreases t.len(),
{
    if t.len() > 0 && t[0].0 != vk {
        lemma_first_with_vk(t.drop_first(), vk);
    }
}

/// The table the callback consults.
#[derive(Debug, Clone, PartialEq, Eq)]
pub struct Bindings {
    entries: Vec<Binding>,
    /// `enableOverlay`, frozen here so the callback never opens the settings.
    overlay_hotkey: bool,
}

impl Bindings {
    pub closed spec fn table(&self) -> Seq<Cand> {
        self.entries@.map_values(|b: Binding| b.cand())
    }

    pub closed spec fn spec_overlay_hotkey(&self) -> bool {
        self.overlay_hotkey
    }

    /// The modifier, arrow mode and speed of each entry, in the order of
    /// [`Bindings::table`].
    pub closed spec fn setups(&self) -> Seq<(Scan, bool, Speed)> {
        self.entries@.map_values(|b: Binding| (b.modifier, b.use_arrows, b.speed))
    }

    /// Every entry carries the modifier, arrow mode and speed of `settings`.
    pub open spec fn carries(&self, settings: &Settings) -> bool {
        &&& self.setups().len() == self.table().len()
        &&& forall|i: int| 0 <= i < self.setups().len() ==> #[trigger] self.setups()[i]
            == (keys::spec_modifier_scan(settings.modifier_key@), settings.use_arrows, settings.macro_speed)
    }

    /// Resolves settings and slots into a table. Empty slots, blank shortcuts
    /// and names that are not keys make no entry; when two shortcuts share a
    /// virtual-key, the first one stays.
    pub fn build(settings: &Settings, slots: &Slots, data: &GameData) -> (b: Bindings)
        requires
            data.wf(),
        ensures
            b.table() == spec_table(settings, slots@, data),
            b.spec_overlay_hotkey() == settings.enable_overlay,
            b.carries(settings),
    {
        let modifier = keys::modifier_scan(settings.modifier_key.as_str());
        let supports = data::support_strats();
        let mut entries: Vec<Binding> = Vec::new();
        let ghost cands = candidates(settings, slots@, data);
        let mut k: usize = 0;
        while k < 7
            invariant
                data.wf(),
                k <= 7,
                cands == candidates(settings, slots@, data),
                modifier == keys::spec_modifier_scan(settings.modifier_key@),
                supports@.len() == 3,
                forall|i: int| 0 <= i < 3 ==> (#[trigger] supports@[i]).codex@ == data::support_codexes()[i],
                entries@.map_values(|b: Binding| b.cand()) == dedup(cands.take(k as int)),
                forall|i: int| 0 <= i < entries@.len() ==> {
                    &&& (#[trigger] entries@[i]).modifier == modifier
                    &&& entries@[i].use_arrows == settings.use_arrows
                    &&& entries@[i].speed == settings.macro_speed
                },
            decreases 7 - k,
        {
            let cand: Option<(Vk, usize, bool, Vec<Dir>)> = if k < SLOT_COUNT {
                match settings.shortcut(k) {
                    Some(name) => match keys::vk_from_name(name) {
                        Some(vk) => match slots[k] {
                            Some(id) => match data.by_id(id) {
                                Some(s) => Some((vk, k, false, copy_codex(&s.codex))),
                                None => None,
                            },
                            None => None,
                        },
                        None => None,
                    },
                    None => None,
                }
            } else {
                match settings.support_shortcut(k - SLOT_COUNT) {
                    Some(name) => match keys::vk_from_name(name) {
                        Some(vk) => Some((vk, k - SLOT_COUNT, true, copy_codex(&supports[k - SLOT_COUNT].codex))),
                        None => None,
                    },
                    None => None,
                }
            };
            let ghost prev = entries@.map_values(|b: Binding| b.cand());
            assert(cands.take(k + 1).drop_last() =~= cands.take(k as int));
            match cand {
                Some((vk, slot, support, codex)) => {
                    assert(cands[k as int] == Some((vk, slot, support, codex@)));
                    let mut dup = false;
                    let mut j: usize = 0;
                    while j < entries.len()
                        invariant
                            j <= entries@.len(),
                            prev == entries@.map_values(|b: Binding| b.cand()),
                            dup <==> exists|m: int| 0 <= m < j && prev[m].0 == vk,
                        decreases entries.len() - j,
                    {
                        assert(prev[j as int] == entries@[j as int].cand());
                        if entries[j].vk == vk {
                            dup = true;
                        }
                        j += 1;
                    }
                    if !dup {
                        entries.push(Binding {
                            vk,
                            slot,
                            support,
                            codex,
                            modifier,
                            use_arrows: settings.use_arrows,
                            speed: settings.macro_speed,
                        });
                        assert(entries@.map_values(|b: Binding| b.cand()) =~= prev.push((vk, slot, support, codex@)));
                    }
                },
                None => {},
            }
            k += 1;
        }
        assert(cands.take(7) =~= cands);
        let b = Bindings { entries, overlay_hotkey: settings.enable_overlay };
        assert(b.setups().len() == b.table().len());
        assert forall|i: int| 0 <= i < b.setups().len() implies #[trigger] b.setups()[i]
            == (keys::spec_modifier_scan(settings.modifier_key@), settings.use_arrows, settings.macro_speed) by {
            assert(b.setups()[i] == (b.entries@[i].modifier, b.entries@[i].use_arrows, b.entries@[i].speed));
        }
        b
    }

    /// Linear search: there are at most seven entries.
    pub fn find(&self, vk: Vk) -> (r: Option<&Binding>)
        ensures
            r matches Some(b) ==> first_with_vk(self.table(), vk) matches Some(i) && b.cand() == self.table()[i]
                && (b.modifier, b.use_arrows, b.speed) == self.setups()[i],
            r is None ==> first_with_vk(self.table(), vk) is None,
    {
        let mut i: usize = 0;
        assert(self.table().skip(0) =~= self.table());
        while i < self.entries.len()
            invariant
                i <= self.entries@.len(),
                self.table() == self.entries@.map_values(|b: Binding| b.cand()),
                first_with_vk(self.table(), vk) == match first_with_vk(self.table().skip(i as int), vk) {
                    Some(j) => Some(j + i),
                    None => None,
                },
            decreases self.entries.len() - i,
        {
            assert(self.table().skip(i as int).drop_first() =~= self.table().skip(i + 1));
            if self.entries[i].vk == vk {
                assert(self.setups()[i as int] == (self.entries@[i as int].modifier, self.entries@[i as int].use_arrows, self.entries@[i as int].speed));
                return Some(&self.entries[i]);
            }
            i += 1;
        }
        None
    }

    pub fn len(&self) -> (n: usize)
        ensures
            n == self.table().len(),
    {
        self.entries.len()
    }

    pub fn is_empty(&self) -> (r: bool)
        ensures
            r == (self.table().len() == 0),
    {
        self.entries.len() == 0
    }
}

/// The language plays no part in the table: changing it keeps the bindings.
pub proof fn law_language_does_not_change_the_table(a: &Settings, b: &Settings, slots: Seq<Option<u32>>, data: &GameData)
    requires
        a.shortcuts == b.shortcuts,
        a.support_shortcuts == b.support_shortcuts,
    ensures
        spec_table(a, slots, data) == spec_table(b, slots, data),
{
    assert(candidates(a, slots, data) =~= candidates(b, slots, data));
}

/// What to do with a key that just went down.
#[derive(Debug, Clone, PartialEq, Eq)]
pub enum Decision {
    /// Runs the sequence and swallows the key.
    Run(EngineCmd),
    /// Opens or closes the overlay panel and swallows the key.
    ToggleOverlay,
    /// Not ours: goes on to the focused app.
    PassThrough,
}

/// Decides where a key goes. `armed` is "game focused and not capturing a
/// shortcut": outside that the app never touches anyone's keyboard. Ctrl+H is
/// checked before the slots.
pub fn decide(bindings: &Bindings, vk: Vk, ctrl_down: bool, armed: bool) -> (d: Decision)
    ensures
        !armed ==> d == Decision::PassThrough,
        armed && vk == OVERLAY_HOTKEY_VK && ctrl_down && bindings.spec_overlay_hotkey() ==> d == Decision::ToggleOverlay,
        armed && !(vk == OVERLAY_HOTKEY_VK && ctrl_down && bindings.spec_overlay_hotkey()) ==> match first_with_vk(bindings.table(), vk) {
            Some(i) => d matches Decision::Run(EngineCmd::Run { codex, modifier, use_arrows, speed, slot, support })
                && (codex@, slot, support) == (bindings.table()[i].3, bindings.table()[i].1, bindings.table()[i].2)
                && (modifier, use_arrows, speed) == bindings.setups()[i]
                && 0 <= i < bindings.table().len(),
            None => d == Decision::PassThrough,
        },
{
    proof {
        lemma_first_with_vk(bindings.table(), vk);
    }
    if !armed {
        return Decision::PassThrough;
    }
    if vk == OVERLAY_HOTKEY_VK && ctrl_down && bindings.overlay_hotkey {
        return Decision::ToggleOverlay;
    }
    match bindings.find(vk) {
        Some(binding) => Decision::Run(binding.command()),
        None => Decision::PassThrough,
    }
}

/// Set of virtual-keys `0..256` in four words: which keys were swallowed on the
/// way down, so the way up is swallowed too and auto-repeat is recognized.
#[derive(Debug)]
pub struct KeySet {
    words: [u64; 4],
}

/// Bit `b` of `w`.
pub open spec fn bit_of(w: u64, b: u64) -> bool {
    (w >> b) & 1 == 1
}

impl KeySet {
    pub closed spec fn contains(&self, vk: Vk) -> bool {
        vk < 256 && bit_of(self.words[(vk / 64) as int], (vk % 64) as u64)
    }

    pub fn new() -> (s: KeySet)
        ensures
            forall|vk: Vk| !s.contains(vk),
    {
        let s = KeySet { words: [0, 0, 0, 0] };
        assert forall|vk: Vk| !s.contains(vk) by {
            let b = (vk % 64) as u64;
            if vk < 256 {
                assert(b < 64);
                assert((0u64 >> b) & 1 == 0) by (bit_vector);
            }
        }
        s
    }

    /// Marks the key; `true` when it was already marked (auto-repeat). Keys
    /// outside the range are not trackable and are never marked.
    pub fn insert(&mut self, vk: Vk) -> (was: bool)
        ensures
            was == old(self).contains(vk),
            forall|k: Vk| final(self).contains(k) == (old(self).contains(k) || (k == vk && vk < 256)),
    {
        if vk >= 256 {
            return false;
        }
        let w = (vk / 64) as usize;
        let b = (vk % 64) as u64;
        let old_w = self.words[w];
        let bit: u64 = 1u64 << b;
        let new_w = old_w | bit;
        proof {
            assert(bit_of(new_w, b)) by (bit_vector)
                requires
                    b < 64,
                    bit == 1u64 << b,
                    new_w == old_w | bit;
            assert(forall|c: u64| c < 64 && c != b ==> bit_of(new_w, c) == bit_of(old_w, c)) by (bit_vector)
                requires
                    b < 64,
                    bit == 1u64 << b,
                    new_w == old_w | bit;
            assert((old_w & bit != 0) == bit_of(old_w, b)) by (bit_vector)
                requires
                    b < 64,
                    bit == 1u64 << b;
        }
        let was = old_w & bit != 0;
        self.words[w] = new_w;
        proof {
            assert forall|k: Vk| final(self).contains(k) == (old(self).contains(k) || (k == vk && vk < 256)) by {
                if k < 256 && (k / 64) as usize == w && k != vk {
                    assert((k % 64) as u64 != b);
                }
            }
        }
        was
    }

    /// Unmarks the key; `true` when it was marked.
    pub fn remove(&mut self, vk: Vk) -> (was: bool)
        ensures
            was == old(self).contains(vk),
            forall|k: Vk| final(self).contains(k) == (old(self).contains(k) && k != vk),
    {
        if vk >= 256 {
            assert(!old(self).contains(vk));
            return false;
        }
        let w = (vk / 64) as usize;
        let b = (vk % 64) as u64;
        let old_w = self.words[w];
        let bit: u64 = 1u64 << b;
        let new_w = old_w & !bit;
        proof {
            assert(!bit_of(new_w, b)) by (bit_vector)
                requires
                    b < 64,
                    bit == 1u64 << b,
                    new_w == old_w & !bit;
            assert(forall|c: u64| c < 64 && c != b ==> bit_of(new_w, c) == bit_of(old_w, c)) by (bit_vector)
                requires
                    b < 64,
                    bit == 1u64 << b,
                    new_w == old_w & !bit;
            assert((old_w & bit != 0) == bit_of(old_w, b)) by (bit_vector)
                requires
                    b < 64,
                    bit == 1u64 << b;
        }
        let was = old_w & bit != 0;
        self.words[w] = new_w;
        proof {
            assert forall|k: Vk| final(self).contains(k) == (old(self).contains(k) && k != vk) by {
                if k < 256 && (k / 64) as usize == w && k != vk {
                    assert((k % 64) as u64 != b);
                }
            }
        }
        was
    }
}


/// What the hook sends for a key it swallows.
#[derive(Debug, Clone, PartialEq, Eq)]
pub enum Order {
    Engine(EngineCmd),
    ToggleOverlay,
}

/// What the hook does with a key that went down.
#[derive(Debug, Clone, PartialEq, Eq)]
pub struct KeyDown {
    /// The key is ours: it does not reach the focused app.
    pub swallow: bool,
    /// What to send; only on the first press of a swallowed key.
    pub order: Option<Order>,
}

/// Carries out a decision on a key that went down. Holding a key repeats its
/// key-down many times a second: one physical press is one sequence, and the
/// repetitions are only swallowed.
pub fn on_key_down(decision: Decision, swallowed: &mut KeySet, vk: Vk) -> (r: KeyDown)
    ensures
        decision == Decision::PassThrough ==> !r.swallow && r.order is None
            && forall|k: Vk| final(swallowed).contains(k) == old(swallowed).contains(k),
        decision != Decision::PassThrough ==> r.swallow
            && forall|k: Vk| final(swallowed).contains(k) == (old(swallowed).contains(k) || (k == vk && vk < 256)),
        decision != Decision::PassThrough && old(swallowed).contains(vk) ==> r.order is None,
        decision != Decision::PassThrough && !old(swallowed).contains(vk) ==> r.order == Some(match decision {
            Decision::Run(cmd) => Order::Engine(cmd),
            _ => Order::ToggleOverlay,
        }),
{
    match decision {
        Decision::PassThrough => KeyDown { swallow: false, order: None },
        Decision::Run(cmd) => {
            let repeat = swallowed.insert(vk);
            KeyDown { swallow: true, order: if repeat { None } else { Some(Order::Engine(cmd)) } }
        },
        Decision::ToggleOverlay => {
            let repeat = swallowed.insert(vk);
            KeyDown { swallow: true, order: if repeat { None } else { Some(Order::ToggleOverlay) } }
        },
    }
}

/// The way up of a key swallowed on the way down is swallowed too, or the
/// focused app would see a key-up without its key-down.
pub fn on_key_up(swallowed: &mut KeySet, vk: Vk) -> (swallow: bool)
    ensures
        swallow == old(swallowed).contains(vk),
        forall|k: Vk| final(swallowed).contains(k) == (old(swallowed).contains(k) && k != vk),
{
    swallowed.remove(vk)
}

} // verus!
