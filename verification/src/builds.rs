//! Builds: the rules of the custom grid, the saved builds and applying them to
//! the macro slots.
//!
//! A build keeps ids, not items: it survives an update of the JSON files and
//! becomes a saved build without any conversion.

use vstd::prelude::*;
use crate::data::{self, EquipSlot, Equipment, GameData, Item, StatsMap, StratMeta, Stratagem, EQUIP_SLOT_COUNT};
use crate::meta_stats::{ItemStat, Stats};
use crate::loadouts::{self, Loadout};
use crate::settings::{Settings, SLOT_COUNT};
use crate::shared::Slots;
use crate::text;
use crate::chance;

verus! {

/// A build: four stratagems and one item per equipment category.
#[derive(Debug, PartialEq, Eq)]
pub struct Build {
    pub stratagems: Slots,
    equip: [Option<String>; EQUIP_SLOT_COUNT],
}

/// An optional string as optional characters.
pub open spec fn opt_chars(s: Option<String>) -> Option<Seq<char>> {
    match s {
        Some(s) => Some(s@),
        None => None,
    }
}

fn copy_opt(s: &Option<String>) -> (r: Option<String>)
    ensures
        opt_chars(r) == opt_chars(*s),
{
    match s {
        Some(s) => Some(s.clone()),
        None => None,
    }
}

impl Build {
    /// The four stratagem slots.
    pub closed spec fn strats(&self) -> Slots {
        self.stratagems
    }

    /// Item ids by category, in canonical order.
    pub closed spec fn gear(&self) -> Seq<Option<Seq<char>>> {
        self.equip@.map_values(|e: Option<String>| opt_chars(e))
    }

    pub proof fn lemma_gear_len(&self)
        ensures
            self.gear().len() == EQUIP_SLOT_COUNT,
    {
    }

    /// An empty build: no stratagem and no item.
    pub fn new() -> (b: Build)
        ensures
            b.strats()@ == seq![None::<u32>, None, None, None],
            b.gear() == Seq::new(7, |i: int| None::<Seq<char>>),
    {
        let b = Build { stratagems: [None, None, None, None], equip: [None, None, None, None, None, None, None] };
        assert(b.strats()@ =~= seq![None::<u32>, None, None, None]);
        assert(b.gear() =~= Seq::new(7, |i: int| None::<Seq<char>>));
        b
    }

    /// A copy with the same stratagems and items.
    pub fn copy(&self) -> (b: Build)
        ensures
            b.strats() == self.strats(),
            b.gear() == self.gear(),
    {
        let b = Build {
            stratagems: self.stratagems,
            equip: [
                copy_opt(&self.equip[0]),
                copy_opt(&self.equip[1]),
                copy_opt(&self.equip[2]),
                copy_opt(&self.equip[3]),
                copy_opt(&self.equip[4]),
                copy_opt(&self.equip[5]),
                copy_opt(&self.equip[6]),
            ],
        };
        assert(b.gear() =~= self.gear());
        b
    }

    pub fn equip(&self, slot: EquipSlot) -> (r: Option<&str>)
        ensures
            r is None <==> self.gear()[slot.spec_index() as int] is None,
            r matches Some(s) ==> self.gear()[slot.spec_index() as int] == Some(s@),
    {
        match &self.equip[slot.index()] {
            Some(s) => Some(s.as_str()),
            None => None,
        }
    }

    pub fn set_equip(&mut self, slot: EquipSlot, id: Option<String>)
        ensures
            final(self).strats() == old(self).strats(),
            final(self).gear() == old(self).gear().update(slot.spec_index() as int, opt_chars(id)),
    {
        let ghost i = slot.spec_index() as int;
        self.equip[slot.index()] = id;
        assert(self.gear() =~= old(self).gear().update(i, opt_chars(id)));
    }

    pub open spec fn spec_has_stratagem(&self) -> bool {
        exists|i: int| 0 <= i < SLOT_COUNT && (#[trigger] self.strats()@[i]) is Some
    }

    /// Builds are only saved and applied with at least one stratagem.
    pub fn has_stratagem(&self) -> (r: bool)
        ensures
            r == self.spec_has_stratagem(),
    {
        let mut i: usize = 0;
        while i < SLOT_COUNT
            invariant
                i <= SLOT_COUNT,
                forall|j: int| 0 <= j < i ==> (#[trigger] self.strats()@[j]) is None,
            decreases SLOT_COUNT - i,
        {
            if self.stratagems[i].is_some() {
                return true;
            }
            i += 1;
        }
        false
    }

    pub open spec fn spec_is_empty(&self) -> bool {
        !self.spec_has_stratagem() && forall|i: int| 0 <= i < EQUIP_SLOT_COUNT ==> (#[trigger] self.gear()[i]) is None
    }

    pub fn is_empty(&self) -> (r: bool)
        ensures
            r == self.spec_is_empty(),
    {
        if self.has_stratagem() {
            return false;
        }
        let mut i: usize = 0;
        while i < EQUIP_SLOT_COUNT
            invariant
                i <= EQUIP_SLOT_COUNT,
                forall|j: int| 0 <= j < i ==> (#[trigger] self.gear()[j]) is None,
            decreases EQUIP_SLOT_COUNT - i,
        {
            if self.equip[i].is_some() {
                assert(self.gear()[i as int] is Some);
                return false;
            }
            i += 1;
        }
        true
    }

    /// The item of a category, resolved against the current `equipment.json`.
    pub open spec fn spec_item<'a>(&self, equipment: &'a Equipment, slot: EquipSlot) -> Option<Item<'a>> {
        match self.gear()[slot.spec_index() as int] {
            Some(id) => equipment.spec_find(slot, id),
            None => None,
        }
    }

    pub fn item<'a>(&self, equipment: &'a Equipment, slot: EquipSlot) -> (r: Option<Item<'a>>)
        ensures
            r == self.spec_item(equipment, slot),
    {
        match self.equip(slot) {
            Some(id) => equipment.find(slot, id),
            None => None,
        }
    }

    /// Helmet or cape that closes the set of the equipped armor: the helmet of
    /// identical name, the cape of the same (non-empty) warbond.
    pub open spec fn spec_is_set_piece(&self, equipment: &Equipment, slot: EquipSlot) -> bool {
        match (self.spec_item(equipment, slot), self.spec_item(equipment, EquipSlot::Armor)) {
            (Some(item), Some(armor)) => match slot {
                EquipSlot::Helmet => item.spec_nome() == armor.spec_nome(),
                EquipSlot::Cape => match (item.spec_warbond(), armor.spec_warbond()) {
                    (Some(c), Some(a)) => a.len() > 0 && c == a,
                    _ => false,
                },
                _ => false,
            },
            _ => false,
        }
    }

    pub fn is_set_piece(&self, equipment: &Equipment, slot: EquipSlot) -> (r: bool)
        ensures
            r == self.spec_is_set_piece(equipment, slot),
    {
        let item = match self.item(equipment, slot) {
            Some(item) => item,
            None => return false,
        };
        let armor = match self.item(equipment, EquipSlot::Armor) {
            Some(armor) => armor,
            None => return false,
        };
        match slot {
            EquipSlot::Helmet => text::str_eq(item.nome(), armor.nome()),
            EquipSlot::Cape => match (item.warbond(), armor.warbond()) {
                (Some(cape), Some(a)) => a.unicode_len() > 0 && text::str_eq(cape, a),
                _ => false,
            },
            _ => false,
        }
    }
}

/// The three options of the random build, read from the settings.
#[derive(Debug, Clone, Copy, PartialEq, Eq, Structural)]
pub struct Rules {
    pub match_set: bool,
    pub balanced: bool,
    pub max_one_sentry: bool,
}

impl Rules {
    pub fn from_settings(settings: &Settings) -> (r: Rules)
        ensures
            r == (Rules {
                match_set: settings.build_match_set,
                balanced: settings.build_balanced,
                max_one_sentry: settings.build_max_one_sentry,
            }),
    {
        Rules {
            match_set: settings.build_match_set,
            balanced: settings.build_balanced,
            max_one_sentry: settings.build_max_one_sentry,
        }
    }
}

/// Items the next roll must keep (the padlocks on screen).
#[derive(Debug, Clone, Copy)]
pub struct Locks {
    stratagems: [bool; SLOT_COUNT],
    equip: [bool; EQUIP_SLOT_COUNT],
}

impl Locks {
    pub closed spec fn strat_locks(&self) -> Seq<bool> {
        self.stratagems@
    }

    pub closed spec fn equip_locks(&self) -> Seq<bool> {
        self.equip@
    }

    /// Nothing locked.
    pub fn new() -> (l: Locks)
        ensures
            forall|i: int| 0 <= i < SLOT_COUNT ==> !(#[trigger] l.strat_locks()[i]),
            forall|i: int| 0 <= i < EQUIP_SLOT_COUNT ==> !(#[trigger] l.equip_locks()[i]),
            l.strat_locks().len() == SLOT_COUNT,
            l.equip_locks().len() == EQUIP_SLOT_COUNT,
    {
        Locks { stratagems: [false; SLOT_COUNT], equip: [false; EQUIP_SLOT_COUNT] }
    }

    /// Lock of a stratagem slot; an index out of range is never locked.
    pub fn stratagem(&self, index: usize) -> (r: bool)
        ensures
            r == (index < SLOT_COUNT && self.strat_locks()[index as int]),
    {
        if index < SLOT_COUNT {
            self.stratagems[index]
        } else {
            false
        }
    }

    /// Flips the lock of a stratagem slot; an index out of range changes nothing.
    pub fn toggle_stratagem(&mut self, index: usize)
        ensures
            index < SLOT_COUNT ==> final(self).strat_locks() == toggled_at(old(self).strat_locks(), index as int),
            index >= SLOT_COUNT ==> final(self).strat_locks() == old(self).strat_locks(),
            final(self).equip_locks() == old(self).equip_locks(),
    {
        if index < SLOT_COUNT {
            let v = !self.stratagems[index];
            self.stratagems[index] = v;
            assert(self.strat_locks() =~= old(self).strat_locks().update(index as int, v));
        }
    }

    pub fn equip(&self, slot: EquipSlot) -> (r: bool)
        ensures
            r == self.equip_locks()[slot.spec_index() as int],
    {
        self.equip[slot.index()]
    }

    pub fn toggle_equip(&mut self, slot: EquipSlot)
        ensures
            final(self).equip_locks() == toggled_at(old(self).equip_locks(), slot.spec_index() as int),
            final(self).strat_locks() == old(self).strat_locks(),
    {
        let i = slot.index();
        let v = !self.equip[i];
        self.equip[i] = v;
        assert(self.equip_locks() =~= old(self).equip_locks().update(i as int, v));
    }
}

/// `s` with the lock at `i` flipped.
pub open spec fn toggled_at(s: Seq<bool>, i: int) -> Seq<bool> {
    s.update(i, !s[i])
}

/// Every set of locks has one lock per stratagem slot and one per equipment
/// category.
pub proof fn lemma_lock_counts(l: Locks)
    ensures
        l.strat_locks().len() == SLOT_COUNT,
        l.equip_locks().len() == EQUIP_SLOT_COUNT,
{
}

/// Toggling a lock flips it and no other, and toggling it again gives the
/// locks back.
pub proof fn law_toggling_a_lock_twice_restores_it(l: Locks, i: int)
    requires
        0 <= i < SLOT_COUNT,
    ensures
        toggled_at(l.strat_locks(), i)[i] == !l.strat_locks()[i],
        forall|j: int| 0 <= j < SLOT_COUNT && j != i ==> toggled_at(l.strat_locks(), i)[j] == l.strat_locks()[j],
        toggled_at(toggled_at(l.strat_locks(), i), i) == l.strat_locks(),
{
    lemma_lock_counts(l);
    assert(toggled_at(toggled_at(l.strat_locks(), i), i) =~= l.strat_locks());
}

/// Stratagems of a build, resolved against the data (as values).
pub open spec fn resolved(build_slots: Seq<Option<u32>>, data: &GameData) -> Seq<Option<Stratagem>> {
    build_slots.map_values(|id: Option<u32>| data::resolve_id(data, id))
}

/// The card of the grid does not respond: the stratagem is already in another
/// slot of the build, or it conflicts with an exclusive already equipped.
pub open spec fn spec_custom_disabled(build: &Build, slot: int, strat: Stratagem, data: &GameData) -> bool {
    if 0 <= slot < SLOT_COUNT && build.strats()@[slot] == Some(strat.id) {
        false
    } else if build.strats()@.contains(Some(strat.id)) {
        true
    } else {
        data::conflict(strat, resolved(build.strats()@, data), slot)
    }
}

fn slots_contain(slots: &Slots, id: u32) -> (r: bool)
    ensures
        r == slots@.contains(Some(id)),
{
    let mut i: usize = 0;
    while i < SLOT_COUNT
        invariant
            i <= SLOT_COUNT,
            forall|j: int| 0 <= j < i ==> slots@[j] != Some(id),
        decreases SLOT_COUNT - i,
    {
        if slots[i] == Some(id) {
            assert(slots@[i as int] == Some(id));
            return true;
        }
        i += 1;
    }
    false
}

fn resolve_slots<'a>(data: &'a GameData, slots: &Slots) -> (r: Vec<Option<&'a Stratagem>>)
    requires
        data.wf(),
    ensures
        data::slot_values(r@) == resolved(slots@, data),
{
    let v = data.resolve(slots.as_slice());
    assert(data::slot_values(v@) =~= resolved(slots@, data));
    v
}

pub fn custom_disabled(build: &Build, slot: usize, strat: &Stratagem, data: &GameData) -> (r: bool)
    requires
        data.wf(),
    ensures
        r == spec_custom_disabled(build, slot as int, *strat, data),
{
    if slot < SLOT_COUNT && build.stratagems[slot] == Some(strat.id) {
        return false;
    }
    if slots_contain(&build.stratagems, strat.id) {
        return true;
    }
    let equipped = resolve_slots(data, &build.stratagems);
    data::has_exclusive_conflict(strat, equipped.as_slice(), slot)
}

/// What clicking a card does to the slots of the build under edit, and
/// whether the rules accept it. Clicking the stratagem already in the slot
/// clears it; one equipped in another slot, or conflicting with an exclusive,
/// is refused; a slot out of range is refused.
pub open spec fn spec_custom_assign(slots: Seq<Option<u32>>, slot: int, strat: Stratagem, data: &GameData) -> (bool, Seq<Option<u32>>) {
    if slot >= SLOT_COUNT {
        (false, slots)
    } else if slots[slot] == Some(strat.id) {
        (true, slots.update(slot, None))
    } else if exists|i: int| 0 <= i < SLOT_COUNT && i != slot && slots[i] == Some(strat.id) {
        (false, slots)
    } else if data::conflict(strat, resolved(slots, data), slot) {
        (false, slots)
    } else {
        (true, slots.update(slot, Some(strat.id)))
    }
}

/// Equips (or unequips) the stratagem in the slot under edit. `false` when
/// the rules refuse the move; the items of the build never change.
pub fn custom_assign(build: &mut Build, slot: usize, strat: &Stratagem, data: &GameData) -> (ok: bool)
    requires
        data.wf(),
    ensures
        (ok, final(build).strats()@) == spec_custom_assign(old(build).strats()@, slot as int, *strat, data),
        final(build).gear() == old(build).gear(),
{
    if slot >= SLOT_COUNT {
        return false;
    }
    if build.stratagems[slot] == Some(strat.id) {
        build.stratagems[slot] = None;
        assert(build.strats()@ =~= old(build).strats()@.update(slot as int, None));
        return true;
    }
    let mut i: usize = 0;
    while i < SLOT_COUNT
        invariant
            i <= SLOT_COUNT,
            slot < SLOT_COUNT,
            *build == *old(build),
            build.strats()@[slot as int] != Some(strat.id),
            forall|j: int| 0 <= j < i && j != slot ==> build.strats()@[j] != Some(strat.id),
        decreases SLOT_COUNT - i,
    {
        if i != slot && build.stratagems[i] == Some(strat.id) {
            assert(build.strats()@[i as int] == Some(strat.id));
            return false;
        }
        i += 1;
    }
    let equipped = resolve_slots(data, &build.stratagems);
    if data::has_exclusive_conflict(strat, equipped.as_slice(), slot) {
        return false;
    }
    build.stratagems[slot] = Some(strat.id);
    assert(build.strats()@ =~= old(build).strats()@.update(slot as int, Some(strat.id)));
    true
}

/// What applying a saved build produces.
#[derive(Debug)]
pub struct Applied {
    /// Goes to the macro slots (already without exclusivity conflicts).
    pub slots: Slots,
    /// Comes back to the screen as the displayed build.
    pub build: Build,
}

/// The item id a saved build keeps for a category key, if any: the first pair
/// with that key.
pub open spec fn gear_of(equip: Seq<(String, String)>, key: Seq<char>) -> Option<Seq<char>>
    decreases equip.len(),
{
    if equip.len() == 0 {
        None
    } else if equip[0].0@ == key {
        Some(equip[0].1@)
    } else {
        gear_of(equip.drop_first(), key)
    }
}

fn find_gear<'a>(equip: &'a Vec<(String, String)>, key: &str) -> (r: Option<&'a String>)
    ensures
        r is None <==> gear_of(equip@, key@) is None,
        r matches Some(v) ==> gear_of(equip@, key@) == Some(v@),
{
    let mut i: usize = 0;
    assert(equip@.skip(0) =~= equip@);
    while i < equip.len()
        invariant
            i <= equip@.len(),
            gear_of(equip@, key@) == gear_of(equip@.skip(i as int), key@),
        decreases equip.len() - i,
    {
        assert(equip@.skip(i as int).drop_first() =~= equip@.skip(i + 1));
        if text::str_eq(equip[i].0.as_str(), key) {
            return Some(&equip[i].1);
        }
        i += 1;
    }
    None
}

/// The item a saved build brings to a category: its id, kept only while the
/// game still has the item (when the equipment is known).
pub open spec fn applied_gear(equip: Seq<(String, String)>, slot: EquipSlot, equipment: Option<&Equipment>) -> Option<Seq<char>> {
    match gear_of(equip, slot.spec_key()) {
        Some(id) => match equipment {
            Some(e) => if e.spec_find(slot, id) is Some { Some(id) } else { None },
            None => Some(id),
        },
        None => None,
    }
}

/// Applies a saved build. A build with an equipment map replaces the whole
/// screen; an old build (saved before equipment existed) only swaps the
/// stratagems of the displayed build; with nothing on screen it becomes the
/// displayed build.
pub fn apply(loadout: &Loadout, current: Option<&Build>, data: &GameData, equipment: Option<&Equipment>) -> (a: Applied)
    requires
        data.wf(),
    ensures
        a.slots@ == loadouts::spec_sanitize(loadout.slot_ids@, data),
        a.build.strats() == a.slots,
        loadout.equip matches Some(equip) ==> a.build.gear() == Seq::new(7, |i: int| applied_gear(equip@, data::slot_at(i), equipment)),
        loadout.equip is None ==> a.build.gear() == match current {
            Some(c) => c.gear(),
            None => Seq::new(7, |i: int| None::<Seq<char>>),
        },
{
    let slots = loadouts::sanitize(loadout.slot_ids.as_slice(), data);
    let mut build = match (&loadout.equip, current) {
        (None, Some(current)) => current.copy(),
        _ => Build::new(),
    };
    build.stratagems = slots;
    match &loadout.equip {
        Some(equip) => {
            let all = EquipSlot::all();
            let mut k: usize = 0;
            while k < EQUIP_SLOT_COUNT
                invariant
                    k <= 7,
                    forall|j: int| 0 <= j < 7 ==> (#[trigger] all@[j]).spec_index() == j,
                    forall|j: int| 0 <= j < 7 ==> all@[j] == data::slot_at(j),
                    build.stratagems == slots,
                    build.gear().len() == 7,
                    forall|j: int| 0 <= j < k ==> #[trigger] build.gear()[j] == applied_gear(equip@, data::slot_at(j), equipment),
                decreases 7 - k,
            {
                let slot = all[k];
                let found = find_gear(equip, slot.key());
                let id: Option<String> = match found {
                    Some(id) => match equipment {
                        Some(e) => if e.find(slot, id.as_str()).is_some() { Some(id.clone()) } else { None },
                        None => Some(id.clone()),
                    },
                    None => None,
                };
                build.set_equip(slot, id);
                k += 1;
            }
            assert(build.gear() =~= Seq::new(7, |i: int| applied_gear(equip@, data::slot_at(i), equipment)));
        },
        None => {},
    }
    Applied { slots, build }
}

/// Index of the first saved build whose sanitized slots equal `slots`.
pub open spec fn first_active(loadouts: Seq<Loadout>, slots: Seq<Option<u32>>, data: &GameData) -> Option<int>
    decreases loadouts.len(),
{
    if loadouts.len() == 0 {
        None
    } else if loadouts::spec_sanitize(loadouts[0].slot_ids@, data) == slots {
        Some(0)
    } else {
        match first_active(loadouts.drop_first(), slots, data) {
            Some(i) => Some(i + 1),
            None => None,
        }
    }
}

/// The two slot arrays hold the same ids.
pub fn same_slots(a: &Slots, b: &Slots) -> (r: bool)
    ensures
        r == (a@ == b@),
{
    let mut i: usize = 0;
    while i < SLOT_COUNT
        invariant
            i <= SLOT_COUNT,
            forall|j: int| 0 <= j < i ==> a@[j] == b@[j],
        decreases SLOT_COUNT - i,
    {
        if a[i] != b[i] {
            assert(a@[i as int] != b@[i as int]);
            return false;
        }
        i += 1;
    }
    assert(a@ =~= b@);
    true
}

/// Index of the saved build that matches the current slots: the highlighted
/// chip. It compares the sanitized list, which is what `apply` puts in the slots.
pub fn active_loadout(loadouts: &[Loadout], slots: Slots, data: &GameData) -> (r: Option<usize>)
    requires
        data.wf(),
    ensures
        r matches Some(i) ==> first_active(loadouts@, slots@, data) == Some(i as int),
        r is None ==> first_active(loadouts@, slots@, data) is None,
{
    let mut i: usize = 0;
    assert(loadouts@.skip(0) =~= loadouts@);
    while i < loadouts.len()
        invariant
            data.wf(),
            i <= loadouts@.len(),
            first_active(loadouts@, slots@, data) == match first_active(loadouts@.skip(i as int), slots@, data) {
                Some(j) => Some(j + i),
                None => None,
            },
        decreases loadouts.len() - i,
    {
        assert(loadouts@.skip(i as int).drop_first() =~= loadouts@.skip(i + 1));
        let s = loadouts::sanitize(loadouts[i].slot_ids.as_slice(), data);
        if same_slots(&s, &slots) {
            return Some(i);
        }
        i += 1;
    }
    assert(loadouts@.skip(i as int) =~= Seq::<Loadout>::empty());
    None
}

// --- The custom grid list ---

/// Section of a stratagem in the custom grid: Offensive, Supply, Defensive,
/// then everything else.
pub open spec fn grid_rank(s: Stratagem) -> int {
    if s.tag@.len() == 0 {
        99
    } else if s.tag@[0]@ == "Offensive"@ {
        0
    } else if s.tag@[0]@ == "Supply"@ {
        1
    } else if s.tag@[0]@ == "Defensive"@ {
        2
    } else {
        99
    }
}

/// `a` comes strictly before `b` in the grid: by section, then by name.
pub open spec fn grid_before(a: Stratagem, b: Stratagem) -> bool {
    grid_rank(a) < grid_rank(b) || (grid_rank(a) == grid_rank(b) && text::lex_lt(a.nome@, b.nome@))
}

/// The search lets the stratagem through: an empty needle lets everything through.
pub open spec fn grid_matches(s: Stratagem, needle: Seq<char>) -> bool {
    needle.len() == 0 || text::contains(data::normalized(s.nome@), needle)
}

/// The stratagems the search lets through, in data order.
pub open spec fn grid_filter(list: Seq<Stratagem>, needle: Seq<char>) -> Seq<Stratagem>
    decreases list.len(),
{
    if list.len() == 0 {
        Seq::empty()
    } else if grid_matches(list.last(), needle) {
        grid_filter(list.drop_last(), needle).push(list.last())
    } else {
        grid_filter(list.drop_last(), needle)
    }
}

/// Where a stable sort puts `x` among the already sorted `sorted`: before the
/// first element that `x` strictly precedes.
pub open spec fn grid_insert_pos(sorted: Seq<Stratagem>, x: Stratagem) -> int
    decreases sorted.len(),
{
    if sorted.len() == 0 {
        0
    } else if grid_before(x, sorted[0]) {
        0
    } else {
        1 + grid_insert_pos(sorted.drop_first(), x)
    }
}

/// The stable sort of the grid (`sort_by` on section, then name).
pub open spec fn grid_sort(list: Seq<Stratagem>) -> Seq<Stratagem>
    decreases list.len(),
{
    if list.len() == 0 {
        Seq::empty()
    } else {
        let sorted = grid_sort(list.drop_last());
        sorted.insert(grid_insert_pos(sorted, list.last()), list.last())
    }
}

proof fn lemma_grid_insert_pos_bounds(sorted: Seq<Stratagem>, x: Stratagem)
    ensures
        0 <= grid_insert_pos(sorted, x) <= sorted.len(),
    decreases sorted.len(),
{
    if sorted.len() > 0 {
        lemma_grid_insert_pos_bounds(sorted.drop_first(), x);
    }
}

proof fn lemma_grid_sort_len(list: Seq<Stratagem>)
    ensures
        grid_sort(list).len() == list.len(),
    decreases list.len(),
{
    if list.len() > 0 {
        lemma_grid_sort_len(list.drop_last());
        lemma_grid_insert_pos_bounds(grid_sort(list.drop_last()), list.last());
    }
}

/// No stratagem of the list comes strictly before an earlier one.
pub open spec fn grid_sorted(l: Seq<Stratagem>) -> bool {
    forall|i: int, j: int| 0 <= i < j < l.len() ==> !grid_before(#[trigger] l[j], #[trigger] l[i])
}

proof fn lemma_grid_before_trans(a: Stratagem, b: Stratagem, c: Stratagem)
    requires
        grid_before(a, b),
        grid_before(b, c),
    ensures
        grid_before(a, c),
{
    if grid_rank(a) == grid_rank(b) && grid_rank(b) == grid_rank(c) {
        text::lemma_lex_lt_trans(a.nome@, b.nome@, c.nome@);
    }
}

proof fn lemma_grid_before_asym(a: Stratagem, b: Stratagem)
    requires
        grid_before(a, b),
    ensures
        !grid_before(b, a),
{
    if grid_rank(a) == grid_rank(b) {
        text::lemma_lex_lt_asym(a.nome@, b.nome@);
    }
}

proof fn lemma_grid_insert_pos_order(sorted: Seq<Stratagem>, x: Stratagem)
    ensures
        forall|k: int| 0 <= k < grid_insert_pos(sorted, x) ==> !grid_before(x, #[trigger] sorted[k]),
        grid_insert_pos(sorted, x) < sorted.len() ==> grid_before(x, sorted[grid_insert_pos(sorted, x)]),
    decreases sorted.len(),
{
    if sorted.len() > 0 && !grid_before(x, sorted[0]) {
        let rest = sorted.drop_first();
        lemma_grid_insert_pos_order(rest, x);
        lemma_grid_insert_pos_bounds(rest, x);
        lemma_grid_insert_pos_bounds(sorted, x);
        assert forall|k: int| 0 <= k < grid_insert_pos(sorted, x) implies !grid_before(x, #[trigger] sorted[k]) by {
            if k > 0 {
                assert(sorted[k] == rest[k - 1]);
            }
        }
        if grid_insert_pos(sorted, x) < sorted.len() {
            assert(sorted[grid_insert_pos(sorted, x)] == rest[grid_insert_pos(rest, x)]);
        }
    }
}

proof fn lemma_grid_sort_sorted(list: Seq<Stratagem>)
    ensures
        grid_sorted(grid_sort(list)),
    decreases list.len(),
{
    if list.len() > 0 {
        let s = grid_sort(list.drop_last());
        let x = list.last();
        lemma_grid_sort_sorted(list.drop_last());
        lemma_grid_insert_pos_bounds(s, x);
        lemma_grid_insert_pos_order(s, x);
        let p = grid_insert_pos(s, x);
        let w = s.insert(p, x);
        assert(grid_sort(list) == w);
        assert forall|i: int, j: int| 0 <= i < j < w.len() implies !grid_before(#[trigger] w[j], #[trigger] w[i]) by {
            if j < p {
                assert(w[i] == s[i] && w[j] == s[j]);
            } else if j == p {
                assert(w[i] == s[i] && w[j] == x);
            } else if i < p {
                assert(w[i] == s[i] && w[j] == s[j - 1]);
            } else if i == p {
                assert(w[i] == x && w[j] == s[j - 1]);
                lemma_grid_before_asym(x, s[p]);
                if j - 1 > p && grid_before(s[j - 1], x) {
                    lemma_grid_before_trans(s[j - 1], x, s[p]);
                }
            } else {
                assert(w[i] == s[i - 1] && w[j] == s[j - 1]);
            }
        }
    }
}

/// The first tag of the stratagem is `t`.
pub open spec fn first_tag_is(s: Stratagem, t: Seq<char>) -> bool {
    s.tag@.len() > 0 && s.tag@[0]@ == t
}

/// The grid lists the sections as the game's menus do: Offensive, then
/// Supply, then Defensive, then whatever has another first tag or none; in a
/// section the names go in alphabetical order.
pub proof fn law_the_grid_goes_offensive_supply_defensive(list: Seq<Stratagem>)
    ensures
        forall|i: int, j: int| 0 <= i < j < grid_sort(list).len() ==> {
            let a = #[trigger] grid_sort(list)[i];
            let b = #[trigger] grid_sort(list)[j];
            &&& first_tag_is(a, "Supply"@) ==> !first_tag_is(b, "Offensive"@)
            &&& first_tag_is(a, "Defensive"@) ==> !first_tag_is(b, "Offensive"@) && !first_tag_is(b, "Supply"@)
            &&& (first_tag_is(b, "Offensive"@) || first_tag_is(b, "Supply"@) || first_tag_is(b, "Defensive"@))
                ==> (first_tag_is(a, "Offensive"@) || first_tag_is(a, "Supply"@) || first_tag_is(a, "Defensive"@))
            &&& a.tag@.len() > 0 && b.tag@.len() > 0 && a.tag@[0]@ == b.tag@[0]@ ==> !text::lex_lt(b.nome@, a.nome@)
        },
{
    reveal_strlit("Offensive");
    reveal_strlit("Supply");
    reveal_strlit("Defensive");
    assert("Supply"@[0] != "Offensive"@[0]);
    assert("Defensive"@[0] != "Offensive"@[0] && "Defensive"@[0] != "Supply"@[0]);
    lemma_grid_sort_sorted(list);
}

fn grid_rank_of(s: &Stratagem) -> (r: u32)
    ensures
        r == grid_rank(*s),
{
    match s.primary_tag() {
        None => 99,
        Some(tag) => {
            proof {
                reveal_strlit("Offensive");
                reveal_strlit("Supply");
                reveal_strlit("Defensive");
            }
            let t = text::chars_of(tag);
            if text::str_eq(tag, "Offensive") {
                0
            } else if text::str_eq(tag, "Supply") {
                1
            } else if text::str_eq(tag, "Defensive") {
                2
            } else {
                99
            }
        },
    }
}

fn grid_before_exec(a: &Stratagem, b: &Stratagem) -> (r: bool)
    ensures
        r == grid_before(*a, *b),
{
    let ra = grid_rank_of(a);
    let rb = grid_rank_of(b);
    if ra != rb {
        return ra < rb;
    }
    let na = text::chars_of(a.nome.as_str());
    let nb = text::chars_of(b.nome.as_str());
    text::chars_lex_lt(&na, &nb)
}

/// Custom grid list: what the search lets through, ordered Offensive, Supply,
/// Defensive and, within a section, by name. The search ignores case, accents
/// and the blanks around it.
pub fn custom_list(data: &GameData, search: &str) -> (r: Vec<u32>)
    ensures
        r@ == grid_sort(grid_filter(data.list(), data::normalized(text::trim(search@)))).map_values(|s: Stratagem| s.id),
{
    let typed = text::chars_of(search);
    let trimmed = text::trim_chars(&typed);
    let needle = data::normalize_chars(&trimmed);
    let all = data.all();
    let mut sorted: Vec<usize> = Vec::new();
    let mut i: usize = 0;
    assert(all@.take(0) =~= Seq::<Stratagem>::empty());
    while i < all.len()
        invariant
            i <= all@.len(),
            all@ == data.list(),
            needle@ == data::normalized(text::trim(search@)),
            forall|k: int| 0 <= k < sorted@.len() ==> (#[trigger] sorted@[k]) < all@.len(),
            sorted@.map_values(|k: usize| all@[k as int]) == grid_sort(grid_filter(all@.take(i as int), needle@)),
        decreases all.len() - i,
    {
        let ghost prefix = all@.take(i as int);
        assert(all@.take(i + 1).drop_last() =~= prefix);
        assert(all@.take(i + 1).last() == all@[i as int]);
        let name = data::normalize_text(all[i].nome.as_str());
        let name_c = text::chars_of(name.as_str());
        let ghost x = all@[i as int];
        let ghost f = grid_filter(prefix, needle@);
        if needle.len() == 0 || text::chars_contains(&name_c, &needle) {
            assert(grid_matches(x, needle@));
            assert(grid_filter(all@.take(i + 1), needle@) == f.push(x));
            assert(f.push(x).drop_last() =~= f);
            let ghost view = sorted@.map_values(|k: usize| all@[k as int]);
            assert(view == grid_sort(f));
            let mut p: usize = 0;
            assert(view.skip(0) =~= view);
            while p < sorted.len() && !grid_before_exec(&all[i], &all[sorted[p]])
                invariant
                    p <= sorted@.len(),
                    i < all@.len(),
                    x == all@[i as int],
                    view == sorted@.map_values(|k: usize| all@[k as int]),
                    forall|k: int| 0 <= k < sorted@.len() ==> (#[trigger] sorted@[k]) < all@.len(),
                    grid_insert_pos(view, x) == p + grid_insert_pos(view.skip(p as int), x),
                decreases sorted.len() - p,
            {
                assert(view.skip(p as int)[0] == all@[sorted@[p as int] as int]);
                assert(view.skip(p as int).drop_first() =~= view.skip(p + 1));
                p += 1;
            }
            proof {
                if p == sorted@.len() {
                    assert(view.skip(p as int) =~= Seq::<Stratagem>::empty());
                } else {
                    assert(view.skip(p as int)[0] == all@[sorted@[p as int] as int]);
                }
            }
            assert(grid_insert_pos(view, x) == p);
            sorted.insert(p, i);
            assert(sorted@.map_values(|k: usize| all@[k as int]) =~= view.insert(p as int, x));
            assert(grid_sort(f.push(x)) == view.insert(p as int, x));
        } else {
            assert(!grid_matches(x, needle@));
            assert(grid_filter(all@.take(i + 1), needle@) == f);
        }
        i += 1;
    }
    assert(all@.take(all@.len() as int) =~= all@);
    let mut r: Vec<u32> = Vec::new();
    let mut j: usize = 0;
    while j < sorted.len()
        invariant
            j <= sorted@.len(),
            forall|k: int| 0 <= k < sorted@.len() ==> (#[trigger] sorted@[k]) < all@.len(),
            r@ == sorted@.map_values(|k: usize| all@[k as int]).take(j as int).map_values(|s: Stratagem| s.id),
        decreases sorted.len() - j,
    {
        r.push(all[sorted[j]].id);
        assert(sorted@.map_values(|k: usize| all@[k as int]).take(j + 1).map_values(|s: Stratagem| s.id)
            =~= r@);
        j += 1;
    }
    assert(sorted@.map_values(|k: usize| all@[k as int]).take(j as int) =~= sorted@.map_values(|k: usize| all@[k as int]));
    r
}

// --- Saved builds ---

/// Two distinct candidates among more candidates than keys: one of them is
/// free of every key, when the rendering tells candidates apart.
proof fn lemma_free_candidate(keys: Seq<Seq<char>>, cands: Set<int>, render: spec_fn(int) -> Seq<char>)
    requires
        cands.finite(),
        cands.len() > keys.len(),
        forall|a: int, b: int| cands.contains(a) && cands.contains(b) && render(a) == render(b) ==> a == b,
    ensures
        exists|k: int| cands.contains(k) && forall|i: int| 0 <= i < keys.len() ==> keys[i] != render(k),
    decreases keys.len(),
{
    if keys.len() == 0 {
        vstd::set::axiom_set_choose_len(cands);
        let k = cands.choose();
        assert(cands.contains(k));
    } else {
        let last = keys.last();
        let rest = keys.drop_last();
        let smaller = cands.filter(|k: int| render(k) != last);
        if exists|k0: int| cands.contains(k0) && render(k0) == last {
            let k0 = choose|k0: int| cands.contains(k0) && render(k0) == last;
            assert(smaller =~= cands.remove(k0));
        } else {
            assert(smaller =~= cands);
        }
        lemma_free_candidate(rest, smaller, render);
        let k = choose|k: int| smaller.contains(k) && forall|i: int| 0 <= i < rest.len() ==> rest[i] != render(k);
        assert forall|i: int| 0 <= i < keys.len() implies keys[i] != render(k) by {
            if i < rest.len() {
                assert(rest[i] == keys[i]);
            }
        }
    }
}

/// `Build {n}`.
pub open spec fn build_name(n: nat) -> Seq<char> {
    seq!['B', 'u', 'i', 'l', 'd', ' '] + text::decimal(n)
}

/// Some saved build has this name, ignoring ASCII case.
pub open spec fn name_taken(loadouts: Seq<Loadout>, name: Seq<char>) -> bool {
    exists|i: int| 0 <= i < loadouts.len() && text::eq_ignore_ascii_case(#[trigger] loadouts[i].name@, name)
}

/// The first free `Build {n}`, counting from 1.
pub open spec fn is_default_name(loadouts: Seq<Loadout>, name: Seq<char>) -> bool {
    exists|n: nat| #![trigger build_name(n)]
        1 <= n && name == build_name(n) && !name_taken(loadouts, build_name(n))
            && forall|m: nat| 1 <= m < n ==> name_taken(loadouts, #[trigger] build_name(m))
}

fn build_name_chars(n: u128) -> (r: Vec<char>)
    ensures
        r@ == build_name(n as nat),
{
    let mut r: Vec<char> = Vec::new();
    r.push('B');
    r.push('u');
    r.push('i');
    r.push('l');
    r.push('d');
    r.push(' ');
    let digits = text::decimal_chars(n);
    let all = text::concat_chars(&r, &digits);
    assert(all@ =~= build_name(n as nat));
    all
}

fn name_is_taken(loadouts: &[Loadout], name: &Vec<char>) -> (r: bool)
    ensures
        r == name_taken(loadouts@, name@),
{
    let mut i: usize = 0;
    while i < loadouts.len()
        invariant
            i <= loadouts@.len(),
            forall|j: int| 0 <= j < i ==> !text::eq_ignore_ascii_case(#[trigger] loadouts@[j].name@, name@),
        decreases loadouts.len() - i,
    {
        let have = text::chars_of(loadouts[i].name.as_str());
        if text::chars_eq_ignore_ascii_case(&have, name) {
            return true;
        }
        i += 1;
    }
    false
}

proof fn lemma_build_name_lower(n: nat)
    ensures
        text::ascii_lower_seq(build_name(n)) == seq!['b', 'u', 'i', 'l', 'd', ' '] + text::decimal(n),
{
    text::lemma_decimal_lower(n);
    assert(text::ascii_lower_seq(build_name(n)) =~= seq!['b', 'u', 'i', 'l', 'd', ' '] + text::decimal(n)) by {
        assert forall|i: int| 6 <= i < build_name(n).len() implies text::ascii_lower_seq(build_name(n))[i] == text::decimal(n)[i - 6] by {
            assert(build_name(n)[i] == text::decimal(n)[i - 6]);
            assert(text::ascii_lower_seq(text::decimal(n))[i - 6] == text::decimal(n)[i - 6]);
        }
    }
}

/// Name suggested when the field is blank: the first free `Build {n}`.
pub fn default_name(loadouts: &[Loadout]) -> (r: String)
    ensures
        is_default_name(loadouts@, r@),
{
    let last: u128 = (loadouts.len() as u128) + 1;
    let mut n: u128 = 1;
    loop
        invariant
            1 <= n <= last,
            last == loadouts@.len() + 1,
            forall|m: nat| 1 <= m < n ==> name_taken(loadouts@, #[trigger] build_name(m)),
        decreases last - n,
    {
        let name = build_name_chars(n);
        if !name_is_taken(loadouts, &name) {
            return text::string_of(&name);
        }
        if n == last {
            proof {
                let keys = loadouts@.map_values(|l: Loadout| text::ascii_lower_seq(l.name@));
                let render = |k: int| text::ascii_lower_seq(build_name(k as nat));
                let cands = vstd::set_lib::set_int_range(1, last + 1);
                vstd::set_lib::lemma_int_range(1, last + 1);
                assert forall|a: int, b: int| cands.contains(a) && cands.contains(b) && render(a) == render(b) implies a == b by {
                    lemma_build_name_lower(a as nat);
                    lemma_build_name_lower(b as nat);
                    let la = seq!['b', 'u', 'i', 'l', 'd', ' '] + text::decimal(a as nat);
                    let lb = seq!['b', 'u', 'i', 'l', 'd', ' '] + text::decimal(b as nat);
                    assert(la.skip(6) =~= text::decimal(a as nat));
                    assert(lb.skip(6) =~= text::decimal(b as nat));
                    text::lemma_decimal_injective(a as nat, b as nat);
                }
                lemma_free_candidate(keys, cands, render);
                let k = choose|k: int| cands.contains(k) && forall|i: int| 0 <= i < keys.len() ==> keys[i] != render(k);
                assert(name_taken(loadouts@, build_name(k as nat)));
                let i = choose|i: int| 0 <= i < loadouts@.len() && text::eq_ignore_ascii_case(#[trigger] loadouts@[i].name@, build_name(k as nat));
                assert(keys[i] == render(k));
            }
            assert(false);
        }
        n += 1;
    }
}

/// Milliseconds since the Unix epoch (`SystemTime::elapsed` on the epoch);
/// 0 when the clock stands before it. Nothing is stated: it reads the clock.
#[verifier::external_body]
fn epoch_millis() -> u64 {
    std::time::UNIX_EPOCH.elapsed().map_or(0, |d| d.as_millis() as u64)
}

/// Some saved build already has this id.
pub open spec fn id_taken(loadouts: Seq<Loadout>, id: Seq<char>) -> bool {
    exists|i: int| 0 <= i < loadouts.len() && #[trigger] loadouts[i].id@ == id
}

fn id_is_taken(loadouts: &[Loadout], id: &Vec<char>) -> (r: bool)
    ensures
        r == id_taken(loadouts@, id@),
{
    let mut i: usize = 0;
    while i < loadouts.len()
        invariant
            i <= loadouts@.len(),
            forall|j: int| 0 <= j < i ==> #[trigger] loadouts@[j].id@ != id@,
        decreases loadouts.len() - i,
    {
        let have = text::chars_of(loadouts[i].id.as_str());
        if text::chars_eq(&have, id) {
            assert(loadouts@[i as int].id@ == id@);
            return true;
        }
        i += 1;
    }
    false
}

/// Id in the format of the saved-builds file (the epoch milliseconds as
/// text). Two builds saved within the same millisecond would share it, so the
/// value is pushed forward until it is unused.
fn next_id(loadouts: &[Loadout]) -> (r: String)
    ensures
        !id_taken(loadouts@, r@),
        exists|n: nat| r@ == text::decimal(n),
{
    let start: u128 = epoch_millis() as u128;
    let last: u128 = start + (loadouts.len() as u128);
    let mut id: u128 = start;
    loop
        invariant
            start <= id <= last,
            last == start + loadouts@.len(),
            forall|m: nat| start <= m < id ==> id_taken(loadouts@, #[trigger] text::decimal(m)),
        decreases last - id,
    {
        let digits = text::decimal_chars(id);
        if !id_is_taken(loadouts, &digits) {
            return text::string_of(&digits);
        }
        if id == last {
            proof {
                let keys = loadouts@.map_values(|l: Loadout| l.id@);
                let render = |k: int| text::decimal(k as nat);
                let cands = vstd::set_lib::set_int_range(start as int, last + 1);
                vstd::set_lib::lemma_int_range(start as int, last + 1);
                assert forall|a: int, b: int| cands.contains(a) && cands.contains(b) && render(a) == render(b) implies a == b by {
                    text::lemma_decimal_injective(a as nat, b as nat);
                }
                lemma_free_candidate(keys, cands, render);
                let k = choose|k: int| cands.contains(k) && forall|i: int| 0 <= i < keys.len() ==> keys[i] != render(k);
                assert(id_taken(loadouts@, text::decimal(k as nat)));
                let i = choose|i: int| 0 <= i < loadouts@.len() && #[trigger] loadouts@[i].id@ == text::decimal(k as nat);
                assert(keys[i] == render(k));
            }
            assert(false);
        }
        id += 1;
    }
}

/// The `equip` map a saved build gets: one pair per category that has an
/// item, in canonical order, keyed by the category key.
pub open spec fn gear_pairs(gear: Seq<Option<Seq<char>>>, k: int) -> Seq<(Seq<char>, Seq<char>)>
    decreases k,
{
    if k <= 0 {
        Seq::empty()
    } else {
        let prev = gear_pairs(gear, k - 1);
        match gear[k - 1] {
            Some(id) => prev.push((data::slot_at(k - 1).spec_key(), id)),
            None => prev,
        }
    }
}

/// A map of pairs as characters.
pub open spec fn pairs_view(equip: Seq<(String, String)>) -> Seq<(Seq<char>, Seq<char>)> {
    equip.map_values(|p: (String, String)| (p.0@, p.1@))
}

/// Index of the first saved build with the same name, by Unicode lowercase.
pub open spec fn same_name_index(loadouts: Seq<Loadout>, name: Seq<char>) -> Option<int>
    decreases loadouts.len(),
{
    if loadouts.len() == 0 {
        None
    } else if text::str_lowercase(loadouts[0].name@) == text::str_lowercase(name) {
        Some(0)
    } else {
        match same_name_index(loadouts.drop_first(), name) {
            Some(i) => Some(i + 1),
            None => None,
        }
    }
}

/// The name a save uses: what was typed, trimmed, or the default one.
pub open spec fn saved_name(loadouts: Seq<Loadout>, typed: Seq<char>, name: Seq<char>) -> bool {
    if text::trim(typed).len() == 0 {
        is_default_name(loadouts, name)
    } else {
        name == text::trim(typed)
    }
}

fn gear_map(build: &Build) -> (r: Vec<(String, String)>)
    ensures
        pairs_view(r@) == gear_pairs(build.gear(), 7),
{
    let all = EquipSlot::all();
    let mut r: Vec<(String, String)> = Vec::new();
    let mut k: usize = 0;
    while k < EQUIP_SLOT_COUNT
        invariant
            k <= 7,
            forall|j: int| 0 <= j < 7 ==> (#[trigger] all@[j]).spec_index() == j,
            forall|j: int| 0 <= j < 7 ==> all@[j] == data::slot_at(j),
            pairs_view(r@) == gear_pairs(build.gear(), k as int),
        decreases 7 - k,
    {
        let slot = all[k];
        match build.equip(slot) {
            Some(id) => {
                let key = text::owned(slot.key());
                let idc = text::owned(id);
                r.push((key, idc));
                assert(pairs_view(r@) =~= gear_pairs(build.gear(), k as int).push((slot.spec_key(), id@)));
            },
            None => {},
        }
        k += 1;
    }
    r
}

fn copy_slots(slots: &Slots) -> (r: Vec<Option<u32>>)
    ensures
        r@ == slots@,
{
    let r = vec![slots[0], slots[1], slots[2], slots[3]];
    assert(r@ =~= slots@);
    r
}

/// Saves the displayed build. A name already in use (by Unicode lowercase)
/// overwrites that build, keeping its id and name, instead of adding another.
/// A build without stratagems is not saved.
pub fn save(loadouts: &mut Vec<Loadout>, name: &str, build: &Build) -> (ok: bool)
    ensures
        ok == build.spec_has_stratagem(),
        !ok ==> final(loadouts)@ == old(loadouts)@,
        ok ==> exists|n: Seq<char>| #[trigger] saved_name(old(loadouts)@, name@, n) && match same_name_index(old(loadouts)@, n) {
            Some(i) => {
                &&& final(loadouts)@.len() == old(loadouts)@.len()
                &&& forall|j: int| 0 <= j < old(loadouts)@.len() && j != i ==> final(loadouts)@[j] == old(loadouts)@[j]
                &&& final(loadouts)@[i].id == old(loadouts)@[i].id
                &&& final(loadouts)@[i].name == old(loadouts)@[i].name
                &&& final(loadouts)@[i].slot_ids@ == build.strats()@
                &&& final(loadouts)@[i].equip matches Some(e) && pairs_view(e@) == gear_pairs(build.gear(), 7)
            },
            None => {
                &&& final(loadouts)@.len() == old(loadouts)@.len() + 1
                &&& final(loadouts)@.take(old(loadouts)@.len() as int) == old(loadouts)@
                &&& final(loadouts)@.last().name@ == n
                &&& !id_taken(old(loadouts)@, final(loadouts)@.last().id@)
                &&& exists|k: nat| final(loadouts)@.last().id@ == text::decimal(k)
                &&& final(loadouts)@.last().slot_ids@ == build.strats()@
                &&& final(loadouts)@.last().equip matches Some(e) && pairs_view(e@) == gear_pairs(build.gear(), 7)
            },
        },
{
    if !build.has_stratagem() {
        return false;
    }
    let typed = text::chars_of(name);
    let trimmed = text::trim_chars(&typed);
    let chosen: String = if trimmed.len() == 0 {
        default_name(loadouts.as_slice())
    } else {
        text::string_of(&trimmed)
    };
    assert(saved_name(old(loadouts)@, name@, chosen@));
    let slot_ids = copy_slots(&build.stratagems);
    let equip = gear_map(build);
    let wanted = text::lowercase_string(chosen.as_str());
    let wanted_c = text::chars_of(wanted.as_str());
    let mut i: usize = 0;
    assert(loadouts@.skip(0) =~= loadouts@);
    while i < loadouts.len()
        invariant
            i <= loadouts@.len(),
            *loadouts == *old(loadouts),
            build.spec_has_stratagem(),
            saved_name(old(loadouts)@, name@, chosen@),
            slot_ids@ == build.strats()@,
            pairs_view(equip@) == gear_pairs(build.gear(), 7),
            wanted_c@ == text::str_lowercase(chosen@),
            same_name_index(loadouts@, chosen@) == match same_name_index(loadouts@.skip(i as int), chosen@) {
                Some(j) => Some(j + i),
                None => None,
            },
        decreases loadouts.len() - i,
    {
        assert(loadouts@.skip(i as int).drop_first() =~= loadouts@.skip(i + 1));
        assert(loadouts@.skip(i as int)[0] == loadouts@[i as int]);
        let have = text::lowercase_string(loadouts[i].name.as_str());
        let have_c = text::chars_of(have.as_str());
        if text::chars_eq(&have_c, &wanted_c) {
            assert(same_name_index(old(loadouts)@, chosen@) == Some(i as int));
            let id = loadouts[i].id.clone();
            let nm = loadouts[i].name.clone();
            let updated = Loadout { id, name: nm, slot_ids, equip: Some(equip) };
            loadouts.set(i, updated);
            assert(saved_name(old(loadouts)@, name@, chosen@));
            return true;
        }
        i += 1;
    }
    assert(loadouts@.skip(i as int) =~= Seq::<Loadout>::empty());
    let id = next_id(loadouts.as_slice());
    loadouts.push(Loadout { id, name: chosen, slot_ids, equip: Some(equip) });
    assert(loadouts@.take(old(loadouts)@.len() as int) =~= old(loadouts)@);
    true
}


// --- Random build ---

/// Ids of the filled slots, in slot order.
pub open spec fn filled(strats: Seq<Option<u32>>) -> Seq<u32>
    decreases strats.len(),
{
    if strats.len() == 0 {
        Seq::empty()
    } else {
        let rest = filled(strats.drop_last());
        match strats.last() {
            Some(id) => rest.push(id),
            None => rest,
        }
    }
}

/// The filled slots resolved against the data, as `has_exclusive_conflict` sees them.
pub open spec fn equipped(strats: Seq<Option<u32>>, data: &GameData) -> Seq<Option<Stratagem>> {
    filled(strats).map_values(|id: u32| data.spec_by_id(id))
}

/// Some filled slot holds a stratagem of which `f` holds.
pub open spec fn any_slot(strats: Seq<Option<u32>>, f: spec_fn(u32) -> bool) -> bool {
    exists|i: int| 0 <= i < strats.len() && (#[trigger] strats[i] matches Some(id) && f(id))
}

pub open spec fn is_support(meta: &StratMeta, id: u32) -> bool {
    meta.spec_kind(id).support
}

pub open spec fn is_backpack(meta: &StratMeta, id: u32) -> bool {
    meta.spec_kind(id).backpack
}

pub open spec fn is_sentry(meta: &StratMeta, id: u32) -> bool {
    meta.spec_kind(id).sentry
}

/// The stratagem fits the build as it is: not there yet, known, no exclusive
/// conflict, and none of the active caps broken (one sentry; one support
/// weapon and one backpack in a balanced build).
pub open spec fn spec_can_add(id: u32, strats: Seq<Option<u32>>, rules: Rules, data: &GameData, meta: &StratMeta) -> bool {
    &&& !strats.contains(Some(id))
    &&& data.spec_by_id(id) is Some
    &&& !data::conflict(data.spec_by_id(id)->0, equipped(strats, data), usize::MAX as int)
    &&& !(rules.max_one_sentry && is_sentry(meta, id) && any_slot(strats, |x: u32| is_sentry(meta, x)))
    &&& !(rules.balanced && is_support(meta, id) && any_slot(strats, |x: u32| is_support(meta, x)))
    &&& !(rules.balanced && is_backpack(meta, id) && any_slot(strats, |x: u32| is_backpack(meta, x)))
}

/// Which kind of stratagem a placement looks for.
#[derive(Debug, Clone, Copy, PartialEq, Eq, Structural)]
pub enum Need {
    Any,
    Support,
    Backpack,
}

pub open spec fn needs(need: Need, meta: &StratMeta, id: u32) -> bool {
    match need {
        Need::Any => true,
        Need::Support => is_support(meta, id),
        Need::Backpack => is_backpack(meta, id),
    }
}

fn any_of_kind(strats: &Slots, meta: &StratMeta, need: Need) -> (r: bool)
    requires
        need != Need::Any,
    ensures
        r == any_slot(strats@, |x: u32| needs(need, meta, x)),
{
    let mut i: usize = 0;
    while i < SLOT_COUNT
        invariant
            i <= SLOT_COUNT,
            need != Need::Any,
            forall|j: int| 0 <= j < i ==> !(#[trigger] strats@[j] matches Some(x) && needs(need, meta, x)),
        decreases SLOT_COUNT - i,
    {
        if let Some(x) = strats[i] {
            let hit = match need {
                Need::Support => meta.is_support(x),
                Need::Backpack => meta.is_backpack(x),
                Need::Any => true,
            };
            if hit {
                assert(strats@[i as int] matches Some(y) && needs(need, meta, y));
                return true;
            }
        }
        i += 1;
    }
    false
}

fn any_sentry(strats: &Slots, meta: &StratMeta) -> (r: bool)
    ensures
        r == any_slot(strats@, |x: u32| is_sentry(meta, x)),
{
    let mut i: usize = 0;
    while i < SLOT_COUNT
        invariant
            i <= SLOT_COUNT,
            forall|j: int| 0 <= j < i ==> !(#[trigger] strats@[j] matches Some(x) && is_sentry(meta, x)),
        decreases SLOT_COUNT - i,
    {
        if let Some(x) = strats[i] {
            if meta.is_sentry(x) {
                assert(strats@[i as int] matches Some(y) && is_sentry(meta, y));
                return true;
            }
        }
        i += 1;
    }
    false
}

proof fn lemma_filled_push(s: Seq<Option<u32>>, x: Option<u32>)
    ensures
        filled(s.push(x)) == match x {
            Some(id) => filled(s).push(id),
            None => filled(s),
        },
{
    assert(s.push(x).drop_last() =~= s);
}

/// The resolved filled slots, as `has_exclusive_conflict` takes them.
fn equipped_refs<'a>(strats: &Slots, data: &'a GameData) -> (r: Vec<Option<&'a Stratagem>>)
    requires
        data.wf(),
    ensures
        data::slot_values(r@) == equipped(strats@, data),
{
    let mut r: Vec<Option<&Stratagem>> = Vec::new();
    let mut i: usize = 0;
    assert(strats@.take(0) =~= Seq::<Option<u32>>::empty());
    while i < SLOT_COUNT
        invariant
            data.wf(),
            i <= SLOT_COUNT,
            data::slot_values(r@) == equipped(strats@.take(i as int), data),
        decreases SLOT_COUNT - i,
    {
        proof {
            assert(strats@.take(i + 1) =~= strats@.take(i as int).push(strats@[i as int]));
            lemma_filled_push(strats@.take(i as int), strats@[i as int]);
        }
        if let Some(id) = strats[i] {
            let s = data.by_id(id);
            let ghost before = r@;
            r.push(s);
            proof {
                assert(data::opt_strat(s) == data.spec_by_id(id));
                assert(r@ == before.push(s));
                assert(data::slot_values(r@) =~= data::slot_values(before).push(data::opt_strat(s)));
                assert(filled(strats@.take(i + 1)) == filled(strats@.take(i as int)).push(id));
                assert(equipped(strats@.take(i + 1), data) =~= equipped(strats@.take(i as int), data).push(data.spec_by_id(id)));
            }
            assert(data::slot_values(r@) =~= equipped(strats@.take(i + 1), data));
        } else {
            assert(data::slot_values(r@) =~= equipped(strats@.take(i + 1), data));
        }
        i += 1;
    }
    assert(strats@.take(SLOT_COUNT as int) =~= strats@);
    r
}

/// The stratagem fits the build as it is (`canAdd`). Every conflict counts:
/// no slot is the one being edited.
pub fn can_add(id: u32, strats: &Slots, rules: Rules, data: &GameData, meta: &StratMeta) -> (r: bool)
    requires
        data.wf(),
    ensures
        r == spec_can_add(id, strats@, rules, data, meta),
{
    if slots_contain(strats, id) {
        return false;
    }
    let strat = match data.by_id(id) {
        Some(s) => s,
        None => return false,
    };
    let equipped = equipped_refs(strats, data);
    if data::has_exclusive_conflict(strat, equipped.as_slice(), usize::MAX) {
        return false;
    }
    if rules.max_one_sentry && meta.is_sentry(id) && any_sentry(strats, meta) {
        return false;
    }
    if rules.balanced && meta.is_support(id) && any_of_kind(strats, meta, Need::Support) {
        proof {
            assert(any_slot(strats@, |x: u32| is_support(meta, x))) by {
                let i = choose|i: int| 0 <= i < strats@.len() && (#[trigger] strats@[i] matches Some(x) && needs(Need::Support, meta, x));
                assert(strats@[i] matches Some(x) && is_support(meta, x));
            }
        }
        return false;
    }
    if rules.balanced && meta.is_backpack(id) && any_of_kind(strats, meta, Need::Backpack) {
        proof {
            assert(any_slot(strats@, |x: u32| is_backpack(meta, x))) by {
                let i = choose|i: int| 0 <= i < strats@.len() && (#[trigger] strats@[i] matches Some(x) && needs(Need::Backpack, meta, x));
                assert(strats@[i] matches Some(x) && is_backpack(meta, x));
            }
        }
        return false;
    }
    proof {
        if rules.balanced && is_support(meta, id) && any_slot(strats@, |x: u32| is_support(meta, x)) {
            let i = choose|i: int| 0 <= i < strats@.len() && (#[trigger] strats@[i] matches Some(x) && is_support(meta, x));
            assert(strats@[i] matches Some(x) && needs(Need::Support, meta, x));
        }
        if rules.balanced && is_backpack(meta, id) && any_slot(strats@, |x: u32| is_backpack(meta, x)) {
            let i = choose|i: int| 0 <= i < strats@.len() && (#[trigger] strats@[i] matches Some(x) && is_backpack(meta, x));
            assert(strats@[i] matches Some(x) && needs(Need::Backpack, meta, x));
        }
    }
    true
}


/// The id fits the build and is of the kind looked for.
pub open spec fn fits(id: u32, strats: Seq<Option<u32>>, rules: Rules, data: &GameData, meta: &StratMeta, need: Need) -> bool {
    needs(need, meta, id) && spec_can_add(id, strats, rules, data, meta)
}

/// The first id of the pool that fits.
pub open spec fn first_fit(pool: Seq<u32>, strats: Seq<Option<u32>>, rules: Rules, data: &GameData, meta: &StratMeta, need: Need) -> Option<u32>
    decreases pool.len(),
{
    if pool.len() == 0 {
        None
    } else if fits(pool[0], strats, rules, data, meta, need) {
        Some(pool[0])
    } else {
        first_fit(pool.drop_first(), strats, rules, data, meta, need)
    }
}

/// The first empty slot.
pub open spec fn first_empty(strats: Seq<Option<u32>>) -> Option<int>
    decreases strats.len(),
{
    if strats.len() == 0 {
        None
    } else if strats[0] is None {
        Some(0)
    } else {
        match first_empty(strats.drop_first()) {
            Some(i) => Some(i + 1),
            None => None,
        }
    }
}

/// The first empty slot takes the first id of the pool that fits (`placeInEmptySlot`).
pub open spec fn place(strats: Seq<Option<u32>>, pool: Seq<u32>, rules: Rules, data: &GameData, meta: &StratMeta, need: Need) -> Seq<Option<u32>> {
    match first_empty(strats) {
        None => strats,
        Some(i) => match first_fit(pool, strats, rules, data, meta, need) {
            Some(id) => strats.update(i, Some(id)),
            None => strats,
        },
    }
}

/// Slot `index`, if empty, takes the first id of the pool that fits.
pub open spec fn fill_at(strats: Seq<Option<u32>>, pool: Seq<u32>, rules: Rules, data: &GameData, meta: &StratMeta, index: int) -> Seq<Option<u32>> {
    if strats[index] is Some {
        strats
    } else {
        match first_fit(pool, strats, rules, data, meta, Need::Any) {
            Some(id) => strats.update(index, Some(id)),
            None => strats,
        }
    }
}

/// Slots `0..k` filled in order.
pub open spec fn fill_upto(strats: Seq<Option<u32>>, pool: Seq<u32>, rules: Rules, data: &GameData, meta: &StratMeta, k: nat) -> Seq<Option<u32>>
    decreases k,
{
    if k == 0 {
        strats
    } else {
        fill_at(fill_upto(strats, pool, rules, data, meta, (k - 1) as nat), pool, rules, data, meta, k - 1)
    }
}

/// The stratagems of a random build from an ordered pool: in a balanced build a
/// support weapon and a backpack go in first, then every empty slot takes the
/// first id of the pool that fits.
pub open spec fn spec_fill(start: Seq<Option<u32>>, pool: Seq<u32>, rules: Rules, data: &GameData, meta: &StratMeta) -> Seq<Option<u32>> {
    let s1 = if rules.balanced && !any_slot(start, |x: u32| is_support(meta, x)) {
        place(start, pool, rules, data, meta, Need::Support)
    } else {
        start
    };
    let s2 = if rules.balanced && !any_slot(s1, |x: u32| is_backpack(meta, x)) {
        place(s1, pool, rules, data, meta, Need::Backpack)
    } else {
        s1
    };
    fill_upto(s2, pool, rules, data, meta, SLOT_COUNT as nat)
}

fn find_fit(pool: &[u32], strats: &Slots, rules: Rules, data: &GameData, meta: &StratMeta, need: Need) -> (r: Option<u32>)
    requires
        data.wf(),
    ensures
        r == first_fit(pool@, strats@, rules, data, meta, need),
{
    let mut i: usize = 0;
    assert(pool@.skip(0) =~= pool@);
    while i < pool.len()
        invariant
            data.wf(),
            i <= pool@.len(),
            first_fit(pool@, strats@, rules, data, meta, need) == first_fit(pool@.skip(i as int), strats@, rules, data, meta, need),
        decreases pool.len() - i,
    {
        let id = pool[i];
        let wanted = match need {
            Need::Any => true,
            Need::Support => meta.is_support(id),
            Need::Backpack => meta.is_backpack(id),
        };
        assert(pool@.skip(i as int)[0] == id);
        if wanted && can_add(id, strats, rules, data, meta) {
            return Some(id);
        }
        assert(pool@.skip(i as int).drop_first() =~= pool@.skip(i + 1));
        i += 1;
    }
    None
}

fn find_empty(strats: &Slots) -> (r: Option<usize>)
    ensures
        r matches Some(i) ==> first_empty(strats@) == Some(i as int) && i < SLOT_COUNT,
        r is None ==> first_empty(strats@) is None,
{
    let mut i: usize = 0;
    assert(strats@.skip(0) =~= strats@);
    while i < SLOT_COUNT
        invariant
            i <= SLOT_COUNT,
            strats@.len() == SLOT_COUNT,
            first_empty(strats@) == match first_empty(strats@.skip(i as int)) {
                Some(k) => Some(k + i),
                None => None::<int>,
            },
        decreases SLOT_COUNT - i,
    {
        if strats[i].is_none() {
            assert(strats@.skip(i as int)[0] is None);
            return Some(i);
        }
        assert(strats@.skip(i as int).drop_first() =~= strats@.skip(i + 1));
        i += 1;
    }
    assert(strats@.skip(SLOT_COUNT as int).len() == 0);
    None
}

/// Fills the first empty slot with the first id of the pool that fits (`placeInEmptySlot`).
fn place_first(strats: &mut Slots, pool: &[u32], rules: Rules, data: &GameData, meta: &StratMeta, need: Need)
    requires
        data.wf(),
    ensures
        final(strats)@ == place(old(strats)@, pool@, rules, data, meta, need),
{
    let index = match find_empty(strats) {
        Some(i) => i,
        None => return,
    };
    if let Some(id) = find_fit(pool, strats, rules, data, meta, need) {
        strats[index] = Some(id);
        assert(strats@ =~= place(old(strats)@, pool@, rules, data, meta, need));
    }
}

/// The stratagems of a random build, from the pool in the order it was drawn.
/// What was already in `start` (the locked slots) stays.
pub fn fill_slots(start: Slots, pool: &[u32], rules: Rules, data: &GameData, meta: &StratMeta) -> (r: Slots)
    requires
        data.wf(),
    ensures
        r@ == spec_fill(start@, pool@, rules, data, meta),
{
    let mut strats = start;
    if rules.balanced && !any_of_kind(&strats, meta, Need::Support) {
        proof {
            assert(!any_slot(start@, |x: u32| is_support(meta, x))) by {
                if any_slot(start@, |x: u32| is_support(meta, x)) {
                    let i = choose|i: int| 0 <= i < start@.len() && (#[trigger] start@[i] matches Some(x) && is_support(meta, x));
                    assert(start@[i] matches Some(x) && needs(Need::Support, meta, x));
                }
            }
        }
        place_first(&mut strats, pool, rules, data, meta, Need::Support);
    } else {
        proof {
            if rules.balanced && !any_slot(start@, |x: u32| is_support(meta, x)) {
                let i = choose|i: int| 0 <= i < start@.len() && (#[trigger] start@[i] matches Some(x) && needs(Need::Support, meta, x));
                assert(start@[i] matches Some(x) && is_support(meta, x));
            }
        }
    }
    let ghost s1 = strats@;
    if rules.balanced && !any_of_kind(&strats, meta, Need::Backpack) {
        proof {
            assert(!any_slot(s1, |x: u32| is_backpack(meta, x))) by {
                if any_slot(s1, |x: u32| is_backpack(meta, x)) {
                    let i = choose|i: int| 0 <= i < s1.len() && (#[trigger] s1[i] matches Some(x) && is_backpack(meta, x));
                    assert(s1[i] matches Some(x) && needs(Need::Backpack, meta, x));
                }
            }
        }
        place_first(&mut strats, pool, rules, data, meta, Need::Backpack);
    } else {
        proof {
            if rules.balanced && !any_slot(s1, |x: u32| is_backpack(meta, x)) {
                let i = choose|i: int| 0 <= i < s1.len() && (#[trigger] s1[i] matches Some(x) && needs(Need::Backpack, meta, x));
                assert(s1[i] matches Some(x) && is_backpack(meta, x));
            }
        }
    }
    let ghost s2 = strats@;
    let mut index: usize = 0;
    while index < SLOT_COUNT
        invariant
            data.wf(),
            index <= SLOT_COUNT,
            strats@ == fill_upto(s2, pool@, rules, data, meta, index as nat),
        decreases SLOT_COUNT - index,
    {
        if strats[index].is_none() {
            if let Some(id) = find_fit(pool, &strats, rules, data, meta, Need::Any) {
                strats[index] = Some(id);
            }
        }
        assert(strats@ =~= fill_upto(s2, pool@, rules, data, meta, (index + 1) as nat));
        index += 1;
    }
    strats
}


/// No stratagem appears in two slots.
pub open spec fn distinct_ids(s: Seq<Option<u32>>) -> bool {
    forall|i: int, j: int| 0 <= i < s.len() && 0 <= j < s.len() && i != j && s[i] is Some ==> s[i] != s[j]
}

/// Every filled slot is a stratagem of the data.
pub open spec fn all_known(s: Seq<Option<u32>>, data: &GameData) -> bool {
    forall|i: int| 0 <= i < s.len() && (#[trigger] s[i]) is Some ==> data.spec_by_id(s[i]->0) is Some
}

/// Two stratagems carry the same exclusive tag.
pub open spec fn share_exclusive(a: Stratagem, b: Stratagem) -> bool {
    exists|t: int| 0 <= t < data::exclusive_tags().len() && a.spec_has_tag(#[trigger] data::exclusive_tags()[t]) && b.spec_has_tag(data::exclusive_tags()[t])
}

/// No two filled slots share an exclusive tag.
pub open spec fn no_exclusive_pair(s: Seq<Option<u32>>, data: &GameData) -> bool {
    forall|i: int, j: int| 0 <= i < s.len() && 0 <= j < s.len() && i != j && s[i] is Some && s[j] is Some
        ==> !share_exclusive(#[trigger] data.spec_by_id(s[i]->0)->0, #[trigger] data.spec_by_id(s[j]->0)->0)
}

/// At most one filled slot is of the kind `f`.
pub open spec fn at_most_one(s: Seq<Option<u32>>, f: spec_fn(u32) -> bool) -> bool {
    forall|i: int, j: int| 0 <= i < s.len() && 0 <= j < s.len() && i != j && #[trigger] s[i] is Some && #[trigger] s[j] is Some
        ==> !(f(s[i]->0) && f(s[j]->0))
}

/// The slots keep the rules of the roll.
pub open spec fn slots_ok(s: Seq<Option<u32>>, rules: Rules, data: &GameData, meta: &StratMeta) -> bool {
    &&& distinct_ids(s)
    &&& all_known(s, data)
    &&& no_exclusive_pair(s, data)
    &&& rules.max_one_sentry ==> at_most_one(s, |x: u32| is_sentry(meta, x))
    &&& rules.balanced ==> at_most_one(s, |x: u32| is_support(meta, x))
    &&& rules.balanced ==> at_most_one(s, |x: u32| is_backpack(meta, x))
}

/// `b` grows from `a`: what `a` had stays, and every new stratagem comes from `pool`.
pub open spec fn extends(a: Seq<Option<u32>>, b: Seq<Option<u32>>, pool: Seq<u32>) -> bool {
    &&& b.len() == a.len()
    &&& forall|i: int| 0 <= i < a.len() && (#[trigger] a[i]) is Some ==> b[i] == a[i]
    &&& forall|i: int| 0 <= i < a.len() && a[i] is None && (#[trigger] b[i]) is Some ==> pool.contains(b[i]->0)
}

proof fn lemma_filled_len(s: Seq<Option<u32>>)
    ensures
        filled(s).len() <= s.len(),
    decreases s.len(),
{
    if s.len() > 0 {
        lemma_filled_len(s.drop_last());
    }
}

proof fn lemma_filled_contains(s: Seq<Option<u32>>, j: int)
    requires
        0 <= j < s.len(),
        s[j] is Some,
    ensures
        filled(s).contains(s[j]->0),
    decreases s.len(),
{
    let x = s[j]->0;
    if j == s.len() - 1 {
        assert(filled(s) == filled(s.drop_last()).push(x));
        assert(filled(s)[filled(s).len() - 1] == x);
    } else {
        lemma_filled_contains(s.drop_last(), j);
        let k = choose|k: int| 0 <= k < filled(s.drop_last()).len() && filled(s.drop_last())[k] == x;
        match s.last() {
            Some(y) => {
                assert(filled(s) == filled(s.drop_last()).push(y));
                assert(filled(s)[k] == x);
            },
            None => {},
        }
    }
}

/// Adding a stratagem that fits keeps the rules.
proof fn lemma_add_keeps_rules(s: Seq<Option<u32>>, i: int, id: u32, rules: Rules, data: &GameData, meta: &StratMeta)
    requires
        slots_ok(s, rules, data, meta),
        s.len() == SLOT_COUNT,
        0 <= i < s.len(),
        s[i] is None,
        spec_can_add(id, s, rules, data, meta),
    ensures
        slots_ok(s.update(i, Some(id)), rules, data, meta),
{
    let t = s.update(i, Some(id));
    let strat = data.spec_by_id(id)->0;
    assert forall|a: int, b: int| 0 <= a < t.len() && 0 <= b < t.len() && a != b && t[a] is Some implies t[a] != t[b] by {
        if a == i {
            assert(!s.contains(Some(id)));
            if b != i && s[b] == Some(id) {
                assert(s.contains(s[b]));
            }
        } else if b == i {
            if s[a] == Some(id) {
                assert(s.contains(s[a]));
            }
        }
    }
    assert forall|a: int, b: int| 0 <= a < t.len() && 0 <= b < t.len() && a != b && t[a] is Some && t[b] is Some
        implies !share_exclusive(#[trigger] data.spec_by_id(t[a]->0)->0, #[trigger] data.spec_by_id(t[b]->0)->0) by {
        if a == i || b == i {
            let j = if a == i { b } else { a };
            let other = data.spec_by_id(s[j]->0)->0;
            if share_exclusive(data.spec_by_id(t[a]->0)->0, data.spec_by_id(t[b]->0)->0) {
                let tt = choose|tt: int| 0 <= tt < data::exclusive_tags().len()
                    && (data.spec_by_id(t[a]->0)->0).spec_has_tag(#[trigger] data::exclusive_tags()[tt])
                    && (data.spec_by_id(t[b]->0)->0).spec_has_tag(data::exclusive_tags()[tt]);
                lemma_filled_contains(s, j);
                let k = choose|k: int| 0 <= k < filled(s).len() && filled(s)[k] == s[j]->0;
                assert(equipped(s, data)[k] == Some(other));
                assert(other.spec_has_tag(data::exclusive_tags()[tt]));
                lemma_filled_len(s);
                assert(k != usize::MAX as int);
                assert(data::other_slot_has_tag(equipped(s, data), usize::MAX as int, data::exclusive_tags()[tt]));
                assert(strat.spec_has_tag(data::exclusive_tags()[tt]));
                assert(data::conflict(strat, equipped(s, data), usize::MAX as int));
            }
        }
    }
    assert forall|a: int, b: int| 0 <= a < t.len() && 0 <= b < t.len() && a != b && #[trigger] t[a] is Some && #[trigger] t[b] is Some
        implies !(is_sentry(meta, t[a]->0) && is_sentry(meta, t[b]->0)) || !rules.max_one_sentry by {
        if rules.max_one_sentry && (a == i || b == i) {
            let j = if a == i { b } else { a };
            if is_sentry(meta, id) && is_sentry(meta, s[j]->0) {
                assert(s[j] matches Some(x) && is_sentry(meta, x));
            }
        }
    }
    assert forall|a: int, b: int| 0 <= a < t.len() && 0 <= b < t.len() && a != b && #[trigger] t[a] is Some && #[trigger] t[b] is Some
        implies !(is_support(meta, t[a]->0) && is_support(meta, t[b]->0)) || !rules.balanced by {
        if rules.balanced && (a == i || b == i) {
            let j = if a == i { b } else { a };
            if is_support(meta, id) && is_support(meta, s[j]->0) {
                assert(s[j] matches Some(x) && is_support(meta, x));
            }
        }
    }
    assert forall|a: int, b: int| 0 <= a < t.len() && 0 <= b < t.len() && a != b && #[trigger] t[a] is Some && #[trigger] t[b] is Some
        implies !(is_backpack(meta, t[a]->0) && is_backpack(meta, t[b]->0)) || !rules.balanced by {
        if rules.balanced && (a == i || b == i) {
            let j = if a == i { b } else { a };
            if is_backpack(meta, id) && is_backpack(meta, s[j]->0) {
                assert(s[j] matches Some(x) && is_backpack(meta, x));
            }
        }
    }
}

proof fn lemma_first_fit(pool: Seq<u32>, strats: Seq<Option<u32>>, rules: Rules, data: &GameData, meta: &StratMeta, need: Need)
    ensures
        first_fit(pool, strats, rules, data, meta, need) matches Some(id) ==> fits(id, strats, rules, data, meta, need) && pool.contains(id),
    decreases pool.len(),
{
    if pool.len() > 0 && !fits(pool[0], strats, rules, data, meta, need) {
        lemma_first_fit(pool.drop_first(), strats, rules, data, meta, need);
        if let Some(id) = first_fit(pool, strats, rules, data, meta, need) {
            let k = choose|k: int| 0 <= k < pool.drop_first().len() && pool.drop_first()[k] == id;
            assert(pool[k + 1] == id);
        }
    } else if pool.len() > 0 {
        assert(pool[0] == pool[0]);
    }
}

proof fn lemma_first_empty(s: Seq<Option<u32>>)
    ensures
        first_empty(s) matches Some(i) ==> 0 <= i < s.len() && s[i] is None,
    decreases s.len(),
{
    if s.len() > 0 && s[0] is Some {
        lemma_first_empty(s.drop_first());
    }
}

/// One step of the fill: the slots either stay or take one id of the pool that fits.
proof fn lemma_step(a: Seq<Option<u32>>, b: Seq<Option<u32>>, i: int, found: Option<u32>, pool: Seq<u32>, rules: Rules, data: &GameData, meta: &StratMeta, need: Need)
    requires
        a.len() == SLOT_COUNT,
        0 <= i < a.len(),
        a[i] is None,
        found == first_fit(pool, a, rules, data, meta, need),
        b == match found {
            Some(id) => a.update(i, Some(id)),
            None => a,
        },
    ensures
        extends(a, b, pool),
        slots_ok(a, rules, data, meta) ==> slots_ok(b, rules, data, meta),
{
    lemma_first_fit(pool, a, rules, data, meta, need);
    if let Some(id) = found {
        if slots_ok(a, rules, data, meta) {
            lemma_add_keeps_rules(a, i, id, rules, data, meta);
        }
        assert forall|k: int| 0 <= k < a.len() && a[k] is None && (#[trigger] b[k]) is Some implies pool.contains(b[k]->0) by {
            if k != i {
                assert(b[k] == a[k]);
            }
        }
    }
}

proof fn lemma_extends_trans(a: Seq<Option<u32>>, b: Seq<Option<u32>>, c: Seq<Option<u32>>, pool: Seq<u32>)
    requires
        extends(a, b, pool),
        extends(b, c, pool),
    ensures
        extends(a, c, pool),
{
    assert forall|i: int| 0 <= i < a.len() && a[i] is None && (#[trigger] c[i]) is Some implies pool.contains(c[i]->0) by {
        if b[i] is Some {
            assert(c[i] == b[i]);
        }
    }
}

proof fn lemma_place(a: Seq<Option<u32>>, pool: Seq<u32>, rules: Rules, data: &GameData, meta: &StratMeta, need: Need)
    requires
        a.len() == SLOT_COUNT,
    ensures
        extends(a, place(a, pool, rules, data, meta, need), pool),
        slots_ok(a, rules, data, meta) ==> slots_ok(place(a, pool, rules, data, meta, need), rules, data, meta),
{
    lemma_first_empty(a);
    if let Some(i) = first_empty(a) {
        lemma_step(a, place(a, pool, rules, data, meta, need), i, first_fit(pool, a, rules, data, meta, need), pool, rules, data, meta, need);
    }
}

proof fn lemma_fill_upto(s: Seq<Option<u32>>, pool: Seq<u32>, rules: Rules, data: &GameData, meta: &StratMeta, k: nat)
    requires
        k <= s.len(),
        s.len() == SLOT_COUNT,
    ensures
        extends(s, fill_upto(s, pool, rules, data, meta, k), pool),
        slots_ok(s, rules, data, meta) ==> slots_ok(fill_upto(s, pool, rules, data, meta, k), rules, data, meta),
    decreases k,
{
    if k > 0 {
        let prev = fill_upto(s, pool, rules, data, meta, (k - 1) as nat);
        lemma_fill_upto(s, pool, rules, data, meta, (k - 1) as nat);
        let next = fill_at(prev, pool, rules, data, meta, k - 1);
        if prev[k - 1] is None {
            lemma_step(prev, next, k - 1, first_fit(pool, prev, rules, data, meta, Need::Any), pool, rules, data, meta, Need::Any);
        }
        lemma_extends_trans(s, prev, next, pool);
    }
}

/// A build made by hand keeps the rules of the rolls: whatever the player
/// clicks, no stratagem ends up in two slots and no two slots share an
/// exclusive tag (two exosuits, two vehicles), as long as the build kept them
/// before. Every stratagem equipped is one of the data.
pub proof fn law_custom_keeps_the_rules(slots: Seq<Option<u32>>, slot: int, strat: Stratagem, data: &GameData)
    requires
        slots.len() == SLOT_COUNT,
        0 <= slot,
        data.spec_by_id(strat.id) == Some(strat),
        all_known(slots, data),
        distinct_ids(slots),
        no_exclusive_pair(slots, data),
    ensures
        distinct_ids(spec_custom_assign(slots, slot, strat, data).1),
        all_known(spec_custom_assign(slots, slot, strat, data).1, data),
        no_exclusive_pair(spec_custom_assign(slots, slot, strat, data).1, data),
{
    let after = spec_custom_assign(slots, slot, strat, data).1;
    if slot >= SLOT_COUNT {
    } else if slots[slot] == Some(strat.id) {
        assert(after == slots.update(slot, None));
    } else if exists|i: int| 0 <= i < SLOT_COUNT && i != slot && slots[i] == Some(strat.id) {
    } else if data::conflict(strat, resolved(slots, data), slot) {
    } else {
        assert(after == slots.update(slot, Some(strat.id)));
        assert forall|j: int| 0 <= j < after.len() && j != slot && (#[trigger] after[j]) is Some
            implies !share_exclusive(strat, data.spec_by_id(after[j]->0)->0) && !share_exclusive(data.spec_by_id(after[j]->0)->0, strat) by {
            let other = data.spec_by_id(slots[j]->0)->0;
            assert(resolved(slots, data)[j] == Some(other));
            if share_exclusive(strat, other) {
                let t = choose|t: int| 0 <= t < data::exclusive_tags().len() && strat.spec_has_tag(#[trigger] data::exclusive_tags()[t]) && other.spec_has_tag(data::exclusive_tags()[t]);
                assert(data::other_slot_has_tag(resolved(slots, data), slot, data::exclusive_tags()[t]));
            }
            if share_exclusive(other, strat) {
                let t = choose|t: int| 0 <= t < data::exclusive_tags().len() && other.spec_has_tag(#[trigger] data::exclusive_tags()[t]) && strat.spec_has_tag(data::exclusive_tags()[t]);
                assert(data::other_slot_has_tag(resolved(slots, data), slot, data::exclusive_tags()[t]));
            }
        }
    }
}

/// A random build keeps the rules it was drawn under: what was locked stays,
/// every new stratagem comes from the pool, and when the locked slots keep the
/// rules (no repeat, only known stratagems, no two exosuits or two vehicles,
/// and the caps of the active options), so does the whole build.
pub proof fn law_fill_keeps_the_rules(start: Seq<Option<u32>>, pool: Seq<u32>, rules: Rules, data: &GameData, meta: &StratMeta)
    requires
        start.len() == SLOT_COUNT,
    ensures
        extends(start, spec_fill(start, pool, rules, data, meta), pool),
        slots_ok(start, rules, data, meta) ==> slots_ok(spec_fill(start, pool, rules, data, meta), rules, data, meta),
{
    let s1 = if rules.balanced && !any_slot(start, |x: u32| is_support(meta, x)) {
        place(start, pool, rules, data, meta, Need::Support)
    } else {
        start
    };
    let s2 = if rules.balanced && !any_slot(s1, |x: u32| is_backpack(meta, x)) {
        place(s1, pool, rules, data, meta, Need::Backpack)
    } else {
        s1
    };
    lemma_place(start, pool, rules, data, meta, Need::Support);
    lemma_place(s1, pool, rules, data, meta, Need::Backpack);
    lemma_fill_upto(s2, pool, rules, data, meta, SLOT_COUNT as nat);
    lemma_extends_trans(start, s1, s2, pool);
    lemma_extends_trans(start, s2, spec_fill(start, pool, rules, data, meta), pool);
}


/// The slots the padlocks keep from the previous build; the others start empty.
pub open spec fn spec_locked_start(prev: Option<&Build>, locks: &Locks) -> Seq<Option<u32>> {
    Seq::new(SLOT_COUNT as nat, |i: int|
        if locks.strat_locks()[i] {
            match prev {
                Some(b) => b.strats()@[i],
                None => None,
            }
        } else {
            None
        })
}

fn locked_start(prev: Option<&Build>, locks: &Locks) -> (r: Slots)
    ensures
        r@ == spec_locked_start(prev, locks),
{
    let mut strats: Slots = [None, None, None, None];
    let mut i: usize = 0;
    while i < SLOT_COUNT
        invariant
            i <= SLOT_COUNT,
            forall|j: int| 0 <= j < i ==> strats@[j] == spec_locked_start(prev, locks)[j],
            forall|j: int| i <= j < SLOT_COUNT ==> strats@[j] is None,
        decreases SLOT_COUNT - i,
    {
        if locks.stratagem(i) {
            if let Some(b) = prev {
                strats[i] = b.stratagems[i];
            }
        }
        i += 1;
    }
    assert(strats@ =~= spec_locked_start(prev, locks));
    strats
}

/// The ids of the data, in the curated order.
pub open spec fn data_ids(data: &GameData) -> Seq<u32> {
    data.list().map_values(|s: Stratagem| s.id)
}

fn all_ids(data: &GameData) -> (r: Vec<u32>)
    ensures
        r@ == data_ids(data),
{
    let all = data.all();
    let mut r: Vec<u32> = Vec::new();
    let mut i: usize = 0;
    while i < all.len()
        invariant
            all@ == data.list(),
            i <= all@.len(),
            r@ == data_ids(data).take(i as int),
        decreases all.len() - i,
    {
        r.push(all[i].id);
        assert(r@ =~= data_ids(data).take(i + 1));
        i += 1;
    }
    assert(data_ids(data).take(all@.len() as int) =~= data_ids(data));
    r
}

/// The item the padlock keeps: the previous build's, when its category is locked.
pub open spec fn spec_kept(prev: Option<&Build>, locks: &Locks, slot: EquipSlot) -> Option<Seq<char>> {
    if locks.equip_locks()[slot.spec_index() as int] {
        match prev {
            Some(b) => b.gear()[slot.spec_index() as int],
            None => None,
        }
    } else {
        None
    }
}

fn kept_equip(prev: Option<&Build>, locks: &Locks, slot: EquipSlot) -> (r: Option<String>)
    ensures
        opt_chars(r) == spec_kept(prev, locks, slot),
{
    if locks.equip(slot) {
        match prev {
            Some(b) => match b.equip(slot) {
                Some(id) => Some(text::owned(id)),
                None => None,
            },
            None => None,
        }
    } else {
        None
    }
}

/// The item of a category after the roll: the kept one, else any item of the
/// category (none when the category is empty).
pub open spec fn rolled(g: Option<Seq<char>>, kept: Option<Seq<char>>, equipment: &Equipment, slot: EquipSlot) -> bool {
    match kept {
        Some(id) => g == Some(id),
        None => if equipment.spec_count(slot) == 0 {
            g is None
        } else {
            g matches Some(id) && equipment.ids(slot).contains(id)
        },
    }
}

/// Some item of the category, drawn at random; `None` for an empty category.
fn random_item(equipment: &Equipment, slot: EquipSlot) -> (r: Option<String>)
    ensures
        rolled(opt_chars(r), None, equipment, slot),
{
    let count = equipment.count(slot);
    if count == 0 {
        return None;
    }
    let k = chance::random_index(count);
    let item = equipment.at(slot, k).unwrap();
    let id = text::owned(item.id());
    assert(equipment.ids(slot)[k as int] == id@);
    Some(id)
}

fn roll_item(prev: Option<&Build>, locks: &Locks, equipment: &Equipment, slot: EquipSlot) -> (r: Option<String>)
    ensures
        rolled(opt_chars(r), spec_kept(prev, locks, slot), equipment, slot),
{
    match kept_equip(prev, locks, slot) {
        Some(id) => Some(id),
        None => random_item(equipment, slot),
    }
}

/// Names of the helmets, in order.
pub open spec fn helmet_names(e: &Equipment) -> Seq<Seq<char>> {
    e.helmet@.map_values(|c: data::Cosmetic| c.nome@)
}

/// Some cape of the warbond.
pub open spec fn has_cape_of(e: &Equipment, warbond: Seq<char>) -> bool {
    exists|j: int| 0 <= j < e.cape@.len() && (#[trigger] e.cape@[j]).warbond@ == warbond
}

/// `id` is a cape of the warbond.
pub open spec fn cape_of(e: &Equipment, warbond: Seq<char>, id: Seq<char>) -> bool {
    exists|j: int| 0 <= j < e.cape@.len() && (#[trigger] e.cape@[j]).warbond@ == warbond && e.cape@[j].id@ == id
}

/// The set of the armor closed: the helmet of identical name and a cape of the
/// same warbond replace the drawn ones, unless locked. A set without a matching
/// helmet or cape keeps the drawn one.
pub open spec fn set_matched(before: Seq<Option<Seq<char>>>, after: Seq<Option<Seq<char>>>, locks: &Locks, rules: Rules, e: &Equipment) -> bool {
    let armor_at = match before[3] {
        Some(aid) => data::first_index(e.armor_ids(), aid),
        None => None,
    };
    if !rules.match_set || armor_at is None {
        after == before
    } else {
        let armor = e.armor@[armor_at->0];
        let helmet = if locks.equip_locks()[4] {
            before[4]
        } else {
            match data::first_index(helmet_names(e), armor.nome@) {
                Some(h) => Some(e.helmet@[h].id@),
                None => before[4],
            }
        };
        &&& after.len() == before.len()
        &&& after[4] == helmet
        &&& if locks.equip_locks()[5] || armor.warbond@.len() == 0 || !has_cape_of(e, armor.warbond@) {
            after[5] == before[5]
        } else {
            after[5] matches Some(c) && cape_of(e, armor.warbond@, c)
        }
        &&& forall|k: int| 0 <= k < after.len() && k != 4 && k != 5 ==> after[k] == before[k]
    }
}

fn matching_helmet(equipment: &Equipment, nome: &str) -> (r: Option<usize>)
    ensures
        r matches Some(h) ==> data::first_index(helmet_names(equipment), nome@) == Some(h as int) && h < equipment.helmet@.len(),
        r is None ==> data::first_index(helmet_names(equipment), nome@) is None,
{
    let mut i: usize = 0;
    while i < equipment.helmet.len()
        invariant
            i <= equipment.helmet@.len(),
            forall|j: int| 0 <= j < i ==> helmet_names(equipment)[j] != nome@,
        decreases equipment.helmet.len() - i,
    {
        if text::str_eq(equipment.helmet[i].nome.as_str(), nome) {
            proof {
                data::lemma_first_index_unique(helmet_names(equipment), nome@, i as int);
            }
            return Some(i);
        }
        i += 1;
    }
    proof {
        data::lemma_first_index(helmet_names(equipment), nome@);
    }
    None
}

/// Closes the set of the drawn armor (set matching of the random build).
fn apply_set_matching(build: &mut Build, locks: &Locks, rules: Rules, equipment: &Equipment)
    ensures
        final(build).strats() == old(build).strats(),
        set_matched(old(build).gear(), final(build).gear(), locks, rules, equipment),
{
    proof {
        old(build).lemma_gear_len();
    }
    if !rules.match_set {
        return;
    }
    let armor_id = match build.equip(EquipSlot::Armor) {
        Some(a) => text::owned(a),
        None => return,
    };
    let armor = match equipment.armor_by_id(armor_id.as_str()) {
        Some(a) => a,
        None => return,
    };
    if !locks.equip(EquipSlot::Helmet) {
        if let Some(h) = matching_helmet(equipment, armor.nome.as_str()) {
            let id = text::owned(equipment.helmet[h].id.as_str());
            build.set_equip(EquipSlot::Helmet, Some(id));
        }
    }
    let ghost mid = build.gear();
    if !locks.equip(EquipSlot::Cape) && armor.warbond.as_str().unicode_len() > 0 {
        let mut capes: Vec<&str> = Vec::new();
        let mut i: usize = 0;
        while i < equipment.cape.len()
            invariant
                i <= equipment.cape@.len(),
                forall|k: int| 0 <= k < capes@.len() ==> cape_of(equipment, armor.warbond@, #[trigger] capes@[k]@),
                capes@.len() == 0 ==> forall|j: int| 0 <= j < i ==> (#[trigger] equipment.cape@[j]).warbond@ != armor.warbond@,
            decreases equipment.cape.len() - i,
        {
            if text::str_eq(equipment.cape[i].warbond.as_str(), armor.warbond.as_str()) {
                capes.push(equipment.cape[i].id.as_str());
                assert(equipment.cape@[i as int].warbond@ == armor.warbond@ && equipment.cape@[i as int].id@ == capes@[capes@.len() - 1]@);
            }
            i += 1;
        }
        if capes.len() > 0 {
            let k = chance::random_index(capes.len());
            let id = text::owned(capes[k]);
            assert(cape_of(equipment, armor.warbond@, capes@[k as int]@));
            build.set_equip(EquipSlot::Cape, Some(id));
        } else {
            assert(!has_cape_of(equipment, armor.warbond@));
        }
    }
    proof {
        build.lemma_gear_len();
        assert(build.gear()[3] == old(build).gear()[3]);
    }
}

/// The items of a roll before set matching: kept or drawn, category by category.
pub open spec fn gear_rolled(g: Seq<Option<Seq<char>>>, prev: Option<&Build>, locks: &Locks, equipment: &Equipment) -> bool {
    &&& g.len() == EQUIP_SLOT_COUNT
    &&& forall|k: int| 0 <= k < EQUIP_SLOT_COUNT ==> rolled(#[trigger] g[k], spec_kept(prev, locks, data::slot_at(k)), equipment, data::slot_at(k))
}

/// Rolls a whole build, keeping what is locked (`generateFullBuild`).
///
/// The stratagems come from the data in a random order (`fill_slots` says what
/// is taken from that order); every unlocked item is drawn from its category,
/// and with set matching on the helmet and the cape follow the armor.
pub fn generate(prev: Option<&Build>, locks: &Locks, rules: Rules, data: &GameData, equipment: &Equipment, meta: &StratMeta) -> (b: Build)
    requires
        data.wf(),
    ensures
        exists|pool: Seq<u32>| pool.to_multiset() == data_ids(data).to_multiset()
            && #[trigger] spec_fill(spec_locked_start(prev, locks), pool, rules, data, meta) == b.strats()@,
        exists|g: Seq<Option<Seq<char>>>| #[trigger] gear_rolled(g, prev, locks, equipment)
            && set_matched(g, b.gear(), locks, rules, equipment),
{
    let start = locked_start(prev, locks);
    let pool = chance::shuffled(all_ids(data));
    let strats = fill_slots(start, pool.as_slice(), rules, data, meta);
    let mut build = Build::new();
    build.stratagems = strats;
    let slots = EquipSlot::all();
    let mut k: usize = 0;
    while k < EQUIP_SLOT_COUNT
        invariant
            k <= EQUIP_SLOT_COUNT,
            build.strats() == strats,
            forall|i: int| 0 <= i < EQUIP_SLOT_COUNT ==> (#[trigger] slots@[i]) == data::slot_at(i) && slots@[i].spec_index() == i,
            build.gear().len() == EQUIP_SLOT_COUNT,
            forall|i: int| 0 <= i < k ==> rolled(#[trigger] build.gear()[i], spec_kept(prev, locks, data::slot_at(i)), equipment, data::slot_at(i)),
        decreases EQUIP_SLOT_COUNT - k,
    {
        let slot = slots[k];
        let id = roll_item(prev, locks, equipment, slot);
        build.set_equip(slot, id);
        k += 1;
    }
    let ghost g = build.gear();
    apply_set_matching(&mut build, locks, rules, equipment);
    assert(gear_rolled(g, prev, locks, equipment));
    assert(spec_fill(spec_locked_start(prev, locks), pool@, rules, data, meta) == build.strats()@);
    build
}


// --- Meta build ---

/// Stratagems of the top that enter the meta roll, and that the screen lists.
pub const META_TOP_STRATS: usize = 10;
/// Weapons listed (and drawn) per category.
pub const META_TOP_WEAPONS: usize = 3;
/// Armor passives listed, and the only ones the drawn armor may carry.
pub const META_TOP_PASSIVES: usize = 5;
/// When the active rules need something the top lacks, the roll falls back on
/// the most used of the whole list that qualify.
pub const META_FALLBACK: usize = 3;

/// An item of the statistics: what it refers to here and the site's numbers.
#[derive(Debug, Clone, PartialEq)]
pub struct Pick<T> {
    /// Stratagem id, equipment id or passive name.
    pub item: T,
    pub stat: ItemStat,
}

/// A stratagem pick as (id, share of the loadouts).
pub open spec fn strat_view(p: Pick<u32>) -> (u32, u64) {
    (p.item, p.stat.loadouts_ppm)
}

pub open spec fn strat_views(v: Seq<Pick<u32>>) -> Seq<(u32, u64)> {
    v.map_values(|p: Pick<u32>| strat_view(p))
}

/// A named pick (weapon id or passive name) as (name, share of the loadouts).
pub open spec fn named_view(p: Pick<String>) -> (Seq<char>, u64) {
    (p.item@, p.stat.loadouts_ppm)
}

pub open spec fn named_views(v: Seq<Pick<String>>) -> Seq<(Seq<char>, u64)> {
    v.map_values(|p: Pick<String>| named_view(p))
}

/// A stratagem pick with the whole of its numbers.
pub open spec fn strat_full(p: Pick<u32>) -> (u32, ItemStat) {
    (p.item, p.stat)
}

pub open spec fn strat_fulls(v: Seq<Pick<u32>>) -> Seq<(u32, ItemStat)> {
    v.map_values(|p: Pick<u32>| strat_full(p))
}

/// A named pick with the whole of its numbers.
pub open spec fn named_full(p: Pick<String>) -> (Seq<char>, ItemStat) {
    (p.item@, p.stat)
}

pub open spec fn named_fulls(v: Seq<Pick<String>>) -> Seq<(Seq<char>, ItemStat)> {
    v.map_values(|p: Pick<String>| named_full(p))
}

/// Higher pick rate first; ties by the item itself, so that two equal rates
/// keep their places on screen whatever order the answer came in.
pub open spec fn strat_before(a: (u32, u64), b: (u32, u64)) -> bool {
    a.1 > b.1 || (a.1 == b.1 && a.0 < b.0)
}

pub open spec fn named_before(a: (Seq<char>, u64), b: (Seq<char>, u64)) -> bool {
    a.1 > b.1 || (a.1 == b.1 && text::lex_lt(a.0, b.0))
}

pub open spec fn strats_sorted(v: Seq<(u32, u64)>) -> bool {
    forall|i: int, j: int| 0 <= i < j < v.len() ==> !strat_before(#[trigger] v[j], #[trigger] v[i])
}

pub open spec fn named_sorted(v: Seq<(Seq<char>, u64)>) -> bool {
    forall|i: int, j: int| 0 <= i < j < v.len() ==> !named_before(#[trigger] v[j], #[trigger] v[i])
}

proof fn lemma_named_order(a: (Seq<char>, u64), b: (Seq<char>, u64), c: (Seq<char>, u64))
    ensures
        named_before(a, b) ==> !named_before(b, a),
        named_before(a, b) && named_before(b, c) ==> named_before(a, c),
{
    if named_before(a, b) && a.1 == b.1 {
        text::lemma_lex_lt_asym(a.0, b.0);
    }
    if named_before(a, b) && named_before(b, c) && a.1 == b.1 && b.1 == c.1 {
        text::lemma_lex_lt_trans(a.0, b.0, c.0);
    }
}

/// Puts a stratagem pick in its place in a sorted list.
fn insert_strat(list: &mut Vec<Pick<u32>>, pick: Pick<u32>)
    requires
        strats_sorted(strat_views(old(list)@)),
    ensures
        strats_sorted(strat_views(final(list)@)),
        strat_views(final(list)@).to_multiset() == strat_views(old(list)@).to_multiset().insert(strat_view(pick)),
        strat_fulls(final(list)@).to_multiset() == strat_fulls(old(list)@).to_multiset().insert(strat_full(pick)),
{
    let ghost x = strat_view(pick);
    let mut pos: usize = 0;
    while pos < list.len()
        invariant
            pos <= list@.len(),
            list@ == old(list)@,
            x == strat_view(pick),
            forall|k: int| 0 <= k < pos ==> !strat_before(x, #[trigger] strat_views(list@)[k]),
        ensures
            pos <= list@.len(),
            list@ == old(list)@,
            forall|k: int| 0 <= k < pos ==> !strat_before(x, #[trigger] strat_views(list@)[k]),
            pos < list@.len() ==> strat_before(x, strat_views(list@)[pos as int]),
        decreases list.len() - pos,
    {
        let here = &list[pos];
        assert(strat_views(list@)[pos as int] == strat_view(*here));
        if pick.stat.loadouts_ppm > here.stat.loadouts_ppm
            || (pick.stat.loadouts_ppm == here.stat.loadouts_ppm && pick.item < here.item) {
            break;
        }
        pos += 1;
    }
    let ghost v = strat_views(list@);
    let ghost vf = strat_fulls(list@);
    list.insert(pos, pick);
    proof {
        let w = strat_views(list@);
        assert(w =~= v.insert(pos as int, x));
        vstd::seq_lib::to_multiset_insert(v, pos as int, x);
        assert(strat_fulls(list@) =~= vf.insert(pos as int, strat_full(pick)));
        vstd::seq_lib::to_multiset_insert(vf, pos as int, strat_full(pick));
        assert forall|i: int, j: int| 0 <= i < j < w.len() implies !strat_before(#[trigger] w[j], #[trigger] w[i]) by {
            if j < pos {
                assert(w[i] == v[i] && w[j] == v[j]);
            } else if j == pos {
                assert(w[i] == v[i]);
            } else if i < pos {
                assert(w[i] == v[i] && w[j] == v[j - 1]);
            } else if i == pos {
                assert(w[j] == v[j - 1]);
                if j - 1 > pos {
                    assert(!strat_before(v[j - 1], v[pos as int]));
                }
            } else {
                assert(w[i] == v[i - 1] && w[j] == v[j - 1]);
            }
        }
    }
}

/// Puts a named pick in its place in a sorted list.
fn insert_named(list: &mut Vec<Pick<String>>, pick: Pick<String>)
    requires
        named_sorted(named_views(old(list)@)),
    ensures
        named_sorted(named_views(final(list)@)),
        named_views(final(list)@).to_multiset() == named_views(old(list)@).to_multiset().insert(named_view(pick)),
        named_fulls(final(list)@).to_multiset() == named_fulls(old(list)@).to_multiset().insert(named_full(pick)),
{
    let ghost x = named_view(pick);
    let key = text::chars_of(pick.item.as_str());
    let mut pos: usize = 0;
    while pos < list.len()
        invariant
            pos <= list@.len(),
            list@ == old(list)@,
            key@ == pick.item@,
            x == named_view(pick),
            forall|k: int| 0 <= k < pos ==> !named_before(x, #[trigger] named_views(list@)[k]),
        ensures
            pos <= list@.len(),
            list@ == old(list)@,
            forall|k: int| 0 <= k < pos ==> !named_before(x, #[trigger] named_views(list@)[k]),
            pos < list@.len() ==> named_before(x, named_views(list@)[pos as int]),
        decreases list.len() - pos,
    {
        let here = &list[pos];
        assert(named_views(list@)[pos as int] == named_view(*here));
        if pick.stat.loadouts_ppm > here.stat.loadouts_ppm {
            break;
        }
        if pick.stat.loadouts_ppm == here.stat.loadouts_ppm {
            let other = text::chars_of(here.item.as_str());
            if text::chars_lex_lt(&key, &other) {
                break;
            }
        }
        pos += 1;
    }
    let ghost v = named_views(list@);
    let ghost vf = named_fulls(list@);
    list.insert(pos, pick);
    proof {
        let w = named_views(list@);
        assert(w =~= v.insert(pos as int, x));
        vstd::seq_lib::to_multiset_insert(v, pos as int, x);
        assert(named_fulls(list@) =~= vf.insert(pos as int, named_full(pick)));
        vstd::seq_lib::to_multiset_insert(vf, pos as int, named_full(pick));
        assert forall|i: int, j: int| 0 <= i < j < w.len() implies !named_before(#[trigger] w[j], #[trigger] w[i]) by {
            if j < pos {
                assert(w[i] == v[i] && w[j] == v[j]);
            } else if j == pos {
                assert(w[i] == v[i]);
            } else if i < pos {
                assert(w[i] == v[i] && w[j] == v[j - 1]);
            } else if i == pos {
                assert(w[j] == v[j - 1]);
                lemma_named_order(v[j - 1], x, v[pos as int]);
                if j - 1 > pos {
                    assert(!named_before(v[j - 1], v[pos as int]));
                }
            } else {
                assert(w[i] == v[i - 1] && w[j] == v[j - 1]);
            }
        }
    }
}

/// The lists of the Meta sub-tab, resolved against our JSON and ordered by
/// pick rate (`metaLists`).
#[derive(Debug, Clone, PartialEq)]
pub struct MetaLists {
    pub stratagems: Vec<Pick<u32>>,
    /// Weapons per category, indexed by `EquipSlot::index`: primary, secondary
    /// and grenade are the first three.
    pub weapons: [Vec<Pick<String>>; 3],
    /// Passives by the name the armor refers to them with.
    pub passives: Vec<Pick<String>>,
    /// Games analysed, the number credited to the site.
    pub games: u64,
}

impl MetaLists {
    /// The weapon list of category `k` (primary, secondary, grenade).
    pub open spec fn weapon_list(&self, k: int) -> Seq<Pick<String>> {
        self.weapons@[k]@
    }

    pub fn new(stratagems: Vec<Pick<u32>>, weapons: [Vec<Pick<String>>; 3], passives: Vec<Pick<String>>, games: u64) -> (m: MetaLists)
        ensures
            m.stratagems@ == stratagems@,
            forall|k: int| 0 <= k < 3 ==> m.weapon_list(k) == weapons@[k]@,
            m.passives@ == passives@,
            m.games == games,
    {
        MetaLists { stratagems, weapons, passives, games }
    }

    /// Nothing resolved: no answer, or an outdated `statsMap.json`.
    pub fn empty() -> (m: MetaLists)
        ensures
            m.stratagems@.len() == 0,
            forall|k: int| 0 <= k < 3 ==> m.weapon_list(k).len() == 0,
            m.passives@.len() == 0,
            m.games == 0,
    {
        MetaLists { stratagems: Vec::new(), weapons: [Vec::new(), Vec::new(), Vec::new()], passives: Vec::new(), games: 0 }
    }

    /// Weapons of a category; a category that is not a weapon answers empty.
    pub fn weapons(&self, slot: EquipSlot) -> (r: &[Pick<String>])
        ensures
            slot.spec_is_weapon() ==> r@ == self.weapon_list(slot.spec_index() as int),
            !slot.spec_is_weapon() ==> r@.len() == 0,
    {
        if slot.is_weapon() {
            self.weapons[slot.index()].as_slice()
        } else {
            &[]
        }
    }

    pub open spec fn spec_is_empty(&self) -> bool {
        self.stratagems@.len() == 0 && self.passives@.len() == 0
            && forall|k: int| 0 <= k < 3 ==> (#[trigger] self.weapon_list(k)).len() == 0
    }

    /// Nothing to show nor to draw.
    pub fn is_empty(&self) -> (r: bool)
        ensures
            r == self.spec_is_empty(),
    {
        let r = self.stratagems.len() == 0 && self.passives.len() == 0
            && self.weapons[0].len() == 0 && self.weapons[1].len() == 0 && self.weapons[2].len() == 0;
        proof {
            assert(self.weapon_list(0) == self.weapons[0]@);
            assert(self.weapon_list(1) == self.weapons[1]@);
            assert(self.weapon_list(2) == self.weapons[2]@);
        }
        r
    }
}

/// The stratagem rows of an answer: the slugs the map knows, pointing at a
/// stratagem still in the data.
pub open spec fn strat_rows(items: Seq<(String, ItemStat)>, map: &StatsMap, data: &GameData) -> Seq<(u32, u64)>
    decreases items.len(),
{
    if items.len() == 0 {
        Seq::empty()
    } else {
        let rest = strat_rows(items.drop_last(), map, data);
        let (slug, stat) = items.last();
        match map.spec_strat_id(slug@) {
            Some(id) => if data.spec_by_id(id) is Some { rest.push((id, stat.loadouts_ppm)) } else { rest },
            None => rest,
        }
    }
}

/// The weapon of a row, when the map places it in weapon category `k` and the
/// item is in our JSON.
pub open spec fn weapon_row(map: &StatsMap, e: &Equipment, slug: Seq<char>, k: int) -> Option<Seq<char>> {
    match map.spec_weapon(slug) {
        Some(w) => match EquipSlot::spec_from_key(w.cat@) {
            Some(slot) => if slot.spec_is_weapon() && slot.spec_index() == k && e.spec_find(slot, w.id@) is Some {
                Some(w.id@)
            } else {
                None
            },
            None => None,
        },
        None => None,
    }
}

pub open spec fn weapon_rows(items: Seq<(String, ItemStat)>, map: &StatsMap, e: &Equipment, k: int) -> Seq<(Seq<char>, u64)>
    decreases items.len(),
{
    if items.len() == 0 {
        Seq::empty()
    } else {
        let rest = weapon_rows(items.drop_last(), map, e, k);
        let (slug, stat) = items.last();
        match weapon_row(map, e, slug@, k) {
            Some(id) => rest.push((id, stat.loadouts_ppm)),
            None => rest,
        }
    }
}

/// The passive rows: slugs the map knows whose passive is in our JSON.
pub open spec fn passive_rows(items: Seq<(String, ItemStat)>, map: &StatsMap, e: &Equipment) -> Seq<(Seq<char>, u64)>
    decreases items.len(),
{
    if items.len() == 0 {
        Seq::empty()
    } else {
        let rest = passive_rows(items.drop_last(), map, e);
        let (slug, stat) = items.last();
        match map.spec_passive(slug@) {
            Some(name) => if data::first_index(e.passive_names(), name) is Some { rest.push((name, stat.loadouts_ppm)) } else { rest },
            None => rest,
        }
    }
}

/// The stratagem rows with the whole of their numbers.
pub open spec fn strat_rows_full(items: Seq<(String, ItemStat)>, map: &StatsMap, data: &GameData) -> Seq<(u32, ItemStat)>
    decreases items.len(),
{
    if items.len() == 0 {
        Seq::empty()
    } else {
        let rest = strat_rows_full(items.drop_last(), map, data);
        let (slug, stat) = items.last();
        match map.spec_strat_id(slug@) {
            Some(id) => if data.spec_by_id(id) is Some { rest.push((id, stat)) } else { rest },
            None => rest,
        }
    }
}

/// The weapon rows of category `k` with the whole of their numbers.
pub open spec fn weapon_rows_full(items: Seq<(String, ItemStat)>, map: &StatsMap, e: &Equipment, k: int) -> Seq<(Seq<char>, ItemStat)>
    decreases items.len(),
{
    if items.len() == 0 {
        Seq::empty()
    } else {
        let rest = weapon_rows_full(items.drop_last(), map, e, k);
        let (slug, stat) = items.last();
        match weapon_row(map, e, slug@, k) {
            Some(id) => rest.push((id, stat)),
            None => rest,
        }
    }
}

/// The passive rows with the whole of their numbers.
pub open spec fn passive_rows_full(items: Seq<(String, ItemStat)>, map: &StatsMap, e: &Equipment) -> Seq<(Seq<char>, ItemStat)>
    decreases items.len(),
{
    if items.len() == 0 {
        Seq::empty()
    } else {
        let rest = passive_rows_full(items.drop_last(), map, e);
        let (slug, stat) = items.last();
        match map.spec_passive(slug@) {
            Some(name) => if data::first_index(e.passive_names(), name) is Some { rest.push((name, stat)) } else { rest },
            None => rest,
        }
    }
}

fn copy_stat(s: &ItemStat) -> (r: ItemStat)
    ensures
        r == *s,
{
    ItemStat { loadouts_ppm: s.loadouts_ppm, change_ppm: s.change_ppm, is_new: s.is_new }
}

/// Turns the three raw answers into the lists of the screen: unknown slugs and
/// items that left our JSON drop out, and each list comes out by pick rate.
pub fn meta_lists(stats: &Stats, data: &GameData, equipment: &Equipment, map: &StatsMap) -> (r: MetaLists)
    requires
        data.wf(),
    ensures
        strat_views(r.stratagems@).to_multiset() == strat_rows(stats.strategem.items@, map, data).to_multiset(),
        strats_sorted(strat_views(r.stratagems@)),
        forall|k: int| 0 <= k < 3 ==> (#[trigger] named_views(r.weapon_list(k))).to_multiset()
            == weapon_rows(stats.weapons.items@, map, equipment, k).to_multiset(),
        forall|k: int| 0 <= k < 3 ==> named_sorted(#[trigger] named_views(r.weapon_list(k))),
        named_views(r.passives@).to_multiset() == passive_rows(stats.armor.items@, map, equipment).to_multiset(),
        named_sorted(named_views(r.passives@)),
        strat_fulls(r.stratagems@).to_multiset() == strat_rows_full(stats.strategem.items@, map, data).to_multiset(),
        forall|k: int| 0 <= k < 3 ==> (#[trigger] named_fulls(r.weapon_list(k))).to_multiset()
            == weapon_rows_full(stats.weapons.items@, map, equipment, k).to_multiset(),
        named_fulls(r.passives@).to_multiset() == passive_rows_full(stats.armor.items@, map, equipment).to_multiset(),
        r.games == stats.strategem.total.games,
{
    let items = &stats.strategem.items;
    let mut stratagems: Vec<Pick<u32>> = Vec::new();
    let mut i: usize = 0;
    assert(items@.take(0) =~= Seq::<(String, ItemStat)>::empty());
    assert(strat_views(stratagems@) =~= Seq::<(u32, u64)>::empty());
    assert(strat_fulls(stratagems@) =~= Seq::<(u32, ItemStat)>::empty());
    while i < items.len()
        invariant
            data.wf(),
            i <= items@.len(),
            strats_sorted(strat_views(stratagems@)),
            strat_views(stratagems@).to_multiset() == strat_rows(items@.take(i as int), map, data).to_multiset(),
            strat_fulls(stratagems@).to_multiset() == strat_rows_full(items@.take(i as int), map, data).to_multiset(),
        decreases items.len() - i,
    {
        assert(items@.take(i + 1).drop_last() =~= items@.take(i as int));
        let slug = items[i].0.as_str();
        if let Some(id) = map.strat_id(slug) {
            if data.by_id(id).is_some() {
                let pick = Pick { item: id, stat: copy_stat(&items[i].1) };
                insert_strat(&mut stratagems, pick);
                proof {
                    vstd::seq_lib::to_multiset_build(strat_rows(items@.take(i as int), map, data), strat_view(pick));
                    vstd::seq_lib::to_multiset_build(strat_rows_full(items@.take(i as int), map, data), strat_full(pick));
                }
            }
        }
        i += 1;
    }
    assert(items@.take(items@.len() as int) =~= items@);

    let witems = &stats.weapons.items;
    let mut lists: [Vec<Pick<String>>; 3] = [Vec::new(), Vec::new(), Vec::new()];
    let mut i: usize = 0;
    assert(witems@.take(0) =~= Seq::<(String, ItemStat)>::empty());
    assert forall|k: int| 0 <= k < 3 implies (#[trigger] named_views(lists@[k]@)) =~= Seq::<(Seq<char>, u64)>::empty() by {}
    assert forall|k: int| 0 <= k < 3 implies (#[trigger] named_fulls(lists@[k]@)) =~= Seq::<(Seq<char>, ItemStat)>::empty() by {}
    while i < witems.len()
        invariant
            i <= witems@.len(),
            forall|k: int| 0 <= k < 3 ==> (#[trigger] named_fulls(lists@[k]@)).to_multiset()
                == weapon_rows_full(witems@.take(i as int), map, equipment, k).to_multiset(),
            forall|k: int| 0 <= k < 3 ==> named_sorted(#[trigger] named_views(lists@[k]@)),
            forall|k: int| 0 <= k < 3 ==> (#[trigger] named_views(lists@[k]@)).to_multiset()
                == weapon_rows(witems@.take(i as int), map, equipment, k).to_multiset(),
        decreases witems.len() - i,
    {
        assert(witems@.take(i + 1).drop_last() =~= witems@.take(i as int));
        let slug = witems[i].0.as_str();
        if let Some(w) = map.weapon(slug) {
            if let Some(slot) = EquipSlot::from_key(w.cat.as_str()) {
                if slot.is_weapon() && equipment.find(slot, w.id.as_str()).is_some() {
                    let k = slot.index();
                    let pick = Pick { item: text::owned(w.id.as_str()), stat: copy_stat(&witems[i].1) };
                    let ghost before = lists@;
                    insert_named(&mut lists[k], pick);
                    proof {
                        assert(slot.spec_index() < 3) by {
                            match slot { EquipSlot::Primary => {}, EquipSlot::Secondary => {}, EquipSlot::Grenade => {}, _ => {} }
                        }
                        assert forall|q: int| 0 <= q < 3 implies (#[trigger] named_views(lists@[q]@)).to_multiset()
                            == weapon_rows(witems@.take(i + 1), map, equipment, q).to_multiset() by {
                            if q == k {
                                vstd::seq_lib::to_multiset_build(weapon_rows(witems@.take(i as int), map, equipment, q), named_view(pick));
                            } else {
                                assert(lists@[q] == before[q]);
                            }
                        }
                        assert forall|q: int| 0 <= q < 3 implies (#[trigger] named_fulls(lists@[q]@)).to_multiset()
                            == weapon_rows_full(witems@.take(i + 1), map, equipment, q).to_multiset() by {
                            if q == k {
                                vstd::seq_lib::to_multiset_build(weapon_rows_full(witems@.take(i as int), map, equipment, q), named_full(pick));
                            } else {
                                assert(lists@[q] == before[q]);
                            }
                        }
                        assert forall|q: int| 0 <= q < 3 implies named_sorted(#[trigger] named_views(lists@[q]@)) by {
                            if q != k {
                                assert(lists@[q] == before[q]);
                            }
                        }
                    }
                }
            }
        }
        i += 1;
    }
    assert(witems@.take(witems@.len() as int) =~= witems@);

    let pitems = &stats.armor.items;
    let mut passives: Vec<Pick<String>> = Vec::new();
    let mut i: usize = 0;
    assert(pitems@.take(0) =~= Seq::<(String, ItemStat)>::empty());
    assert(named_views(passives@) =~= Seq::<(Seq<char>, u64)>::empty());
    assert(named_fulls(passives@) =~= Seq::<(Seq<char>, ItemStat)>::empty());
    while i < pitems.len()
        invariant
            i <= pitems@.len(),
            named_fulls(passives@).to_multiset() == passive_rows_full(pitems@.take(i as int), map, equipment).to_multiset(),
            named_sorted(named_views(passives@)),
            named_views(passives@).to_multiset() == passive_rows(pitems@.take(i as int), map, equipment).to_multiset(),
        decreases pitems.len() - i,
    {
        assert(pitems@.take(i + 1).drop_last() =~= pitems@.take(i as int));
        let slug = pitems[i].0.as_str();
        if let Some(name) = map.passive(slug) {
            if equipment.passive(name.as_str()).is_some() {
                let pick = Pick { item: text::owned(name.as_str()), stat: copy_stat(&pitems[i].1) };
                insert_named(&mut passives, pick);
                proof {
                    vstd::seq_lib::to_multiset_build(passive_rows(pitems@.take(i as int), map, equipment), named_view(pick));
                    vstd::seq_lib::to_multiset_build(passive_rows_full(pitems@.take(i as int), map, equipment), named_full(pick));
                }
            }
        }
        i += 1;
    }
    assert(pitems@.take(pitems@.len() as int) =~= pitems@);

    MetaLists { stratagems, weapons: lists, passives, games: stats.strategem.total.games }
}


/// Sum of the weights.
pub open spec fn rate_sum(rates: Seq<u64>) -> nat
    decreases rates.len(),
{
    if rates.len() == 0 {
        0
    } else {
        rate_sum(rates.drop_last()) + rates.last() as nat
    }
}

/// Where a roll below the sum lands: walking the list, the first item whose
/// weight is more than what is left of the roll.
pub open spec fn landing(rates: Seq<u64>, roll: int) -> int
    decreases rates.len(),
{
    if rates.len() <= 1 || roll < rates[0] {
        0
    } else {
        1 + landing(rates.drop_first(), roll - rates[0])
    }
}

/// The item a weighted draw gives for a roll: with no weight at all, the
/// first one (what the first version did).
pub open spec fn weighted_pick(rates: Seq<u64>, roll: int) -> int {
    if rate_sum(rates) == 0 {
        0
    } else {
        landing(rates, roll)
    }
}

/// The rolls a weighted draw can take: below the sum (just `0` with no weight).
pub open spec fn roll_range(rates: Seq<u64>) -> nat {
    if rate_sum(rates) == 0 {
        1
    } else {
        rate_sum(rates)
    }
}

pub open spec fn rates_of<T>(list: Seq<&Pick<T>>) -> Seq<u64> {
    list.map_values(|p: &Pick<T>| p.stat.loadouts_ppm)
}

proof fn lemma_rate_sum_first(rates: Seq<u64>)
    requires
        rates.len() > 0,
    ensures
        rate_sum(rates) == rates[0] + rate_sum(rates.drop_first()),
    decreases rates.len(),
{
    if rates.len() == 1 {
        assert(rates.drop_last() =~= Seq::<u64>::empty());
        assert(rates.drop_first() =~= Seq::<u64>::empty());
    } else {
        lemma_rate_sum_first(rates.drop_last());
        assert(rates.drop_last().drop_first() =~= rates.drop_first().drop_last());
        assert(rates.drop_first().last() == rates.last());
        assert(rates.drop_last()[0] == rates[0]);
    }
}

proof fn lemma_landing(rates: Seq<u64>, roll: int)
    requires
        rates.len() > 0,
    ensures
        0 <= landing(rates, roll) < rates.len(),
        0 <= roll < rate_sum(rates) ==> rates[landing(rates, roll)] > 0,
    decreases rates.len(),
{
    if !(rates.len() <= 1 || roll < rates[0]) {
        lemma_landing(rates.drop_first(), roll - rates[0]);
        lemma_rate_sum_first(rates);
    } else if rates.len() == 1 {
        lemma_rate_sum_first(rates);
    }
}

/// A weighted draw never lands on an item without weight while some item has
/// weight, and always lands inside the list.
pub proof fn law_weighted_skips_zero_weights(rates: Seq<u64>, roll: int)
    requires
        rates.len() > 0,
        0 <= roll < roll_range(rates),
    ensures
        0 <= weighted_pick(rates, roll) < rates.len(),
        rate_sum(rates) > 0 ==> rates[weighted_pick(rates, roll)] > 0,
{
    lemma_landing(rates, roll);
}

/// The item a roll lands on.
pub fn weighted_at<T>(list: &[&Pick<T>], roll: u128) -> (r: usize)
    requires
        list@.len() > 0,
    ensures
        r == landing(rates_of(list@), roll as int),
        r < list@.len(),
{
    let ghost rates = rates_of(list@);
    let mut i: usize = 0;
    let mut left: u128 = roll;
    proof {
        lemma_landing(rates, roll as int);
        assert(rates.skip(0) =~= rates);
    }
    while i < list.len() - 1
        invariant
            i < list@.len(),
            rates == rates_of(list@),
            landing(rates, roll as int) == i + landing(rates.skip(i as int), left as int),
        decreases list.len() - i,
    {
        let w = list[i].stat.loadouts_ppm;
        assert(rates.skip(i as int)[0] == w);
        if left < w as u128 {
            return i;
        }
        assert(rates.skip(i as int).drop_first() =~= rates.skip(i + 1));
        left = left - w as u128;
        i += 1;
    }
    proof {
        assert(rates.skip(i as int).len() == 1);
    }
    i
}

proof fn lemma_rate_sum_bound(rates: Seq<u64>)
    ensures
        rate_sum(rates) <= rates.len() * 0xffff_ffff_ffff_ffffnat,
    decreases rates.len(),
{
    if rates.len() > 0 {
        lemma_rate_sum_bound(rates.drop_last());
    }
}

/// Weighted draw by pick rate (`weightedFrom`): each item comes out in
/// proportion to its share of the loadouts.
pub fn weighted<'a, T>(list: &[&'a Pick<T>]) -> (r: Option<&'a Pick<T>>)
    ensures
        list@.len() == 0 ==> r is None,
        list@.len() > 0 ==> exists|roll: int| 0 <= roll < roll_range(rates_of(list@))
            && r == Some(list@[#[trigger] weighted_pick(rates_of(list@), roll)]),
{
    if list.len() == 0 {
        return None;
    }
    let ghost rates = rates_of(list@);
    let mut total: u128 = 0;
    let mut i: usize = 0;
    while i < list.len()
        invariant
            i <= list@.len(),
            rates == rates_of(list@),
            total == rate_sum(rates.take(i as int)),
        decreases list.len() - i,
    {
        proof {
            assert(rates.take(i + 1).drop_last() =~= rates.take(i as int));
            lemma_rate_sum_bound(rates.take(i + 1));
            assert((i + 1) * 0xffff_ffff_ffff_ffffnat <= 0xffff_ffff_ffff_ffff_ffff_ffff_ffff_ffffnat) by (nonlinear_arith)
                requires
                    i + 1 <= 0xffff_ffff_ffff_ffffnat;
        }
        total = total + list[i].stat.loadouts_ppm as u128;
        i += 1;
    }
    assert(rates.take(list@.len() as int) =~= rates);
    if total == 0 {
        assert(weighted_pick(rates, 0) == 0);
        return Some(list[0]);
    }
    let roll = chance::random_below(total);
    let k = weighted_at(list, roll);
    assert(weighted_pick(rates, roll as int) == k);
    Some(list[k])
}


/// The first `n` items, or all of them when there are fewer.
pub open spec fn prefix<A>(s: Seq<A>, n: int) -> Seq<A> {
    if s.len() <= n {
        s
    } else {
        s.take(n)
    }
}

/// The picks whose stratagem fits the build, in list order.
pub open spec fn allowed_picks(list: Seq<(u32, u64)>, strats: Seq<Option<u32>>, rules: Rules, data: &GameData, meta: &StratMeta, need: Need) -> Seq<(u32, u64)>
    decreases list.len(),
{
    if list.len() == 0 {
        Seq::empty()
    } else {
        let rest = allowed_picks(list.drop_last(), strats, rules, data, meta, need);
        if fits(list.last().0, strats, rules, data, meta, need) {
            rest.push(list.last())
        } else {
            rest
        }
    }
}

/// What a meta placement draws from: the fitting stratagems of the top shown
/// on screen; when none of them fits, the first few fitting ones of the whole list.
pub open spec fn meta_pool(list: Seq<(u32, u64)>, strats: Seq<Option<u32>>, rules: Rules, data: &GameData, meta: &StratMeta, need: Need) -> Seq<(u32, u64)> {
    let top = allowed_picks(prefix(list, META_TOP_STRATS as int), strats, rules, data, meta, need);
    if top.len() > 0 {
        top
    } else {
        prefix(allowed_picks(list, strats, rules, data, meta, need), META_FALLBACK as int)
    }
}

pub open spec fn pool_rates<A>(pool: Seq<(A, u64)>) -> Seq<u64> {
    pool.map_values(|p: (A, u64)| p.1)
}

/// `r` is what a weighted draw from `pool` can give.
pub open spec fn drawn_from<A>(pool: Seq<(A, u64)>, r: Option<A>) -> bool {
    &&& pool.len() == 0 ==> r is None
    &&& pool.len() > 0 ==> exists|roll: int| 0 <= roll < roll_range(pool_rates(pool))
            && r == Some(pool[#[trigger] weighted_pick(pool_rates(pool), roll)].0)
}

pub open spec fn ref_views(v: Seq<&Pick<u32>>) -> Seq<(u32, u64)> {
    v.map_values(|p: &Pick<u32>| strat_view(*p))
}

fn allowed_refs<'a>(list: &'a [Pick<u32>], n: usize, strats: &Slots, rules: Rules, data: &GameData, meta: &StratMeta, need: Need) -> (r: Vec<&'a Pick<u32>>)
    requires
        data.wf(),
    ensures
        ref_views(r@) == allowed_picks(prefix(strat_views(list@), n as int), strats@, rules, data, meta, need),
{
    let end = if n < list.len() { n } else { list.len() };
    let ghost l = prefix(strat_views(list@), n as int);
    assert(l.len() == end);
    let mut r: Vec<&Pick<u32>> = Vec::new();
    let mut i: usize = 0;
    assert(l.take(0) =~= Seq::<(u32, u64)>::empty());
    assert(ref_views(r@) =~= Seq::<(u32, u64)>::empty());
    while i < end
        invariant
            data.wf(),
            i <= end,
            end <= list@.len(),
            l.len() == end,
            forall|k: int| 0 <= k < end ==> l[k] == strat_view(list@[k]),
            ref_views(r@) == allowed_picks(l.take(i as int), strats@, rules, data, meta, need),
        decreases end - i,
    {
        let pick = &list[i];
        let id = pick.item;
        assert(l.take(i + 1).drop_last() =~= l.take(i as int));
        assert(l.take(i + 1).last() == strat_view(*pick));
        let wanted = match need {
            Need::Any => true,
            Need::Support => meta.is_support(id),
            Need::Backpack => meta.is_backpack(id),
        };
        if wanted && can_add(id, strats, rules, data, meta) {
            r.push(pick);
            assert(ref_views(r@) =~= allowed_picks(l.take(i + 1), strats@, rules, data, meta, need));
        } else {
            assert(ref_views(r@) =~= allowed_picks(l.take(i + 1), strats@, rules, data, meta, need));
        }
        i += 1;
    }
    assert(l.take(end as int) =~= l);
    r
}

/// The pool of a meta placement.
pub fn meta_pool_of<'a>(strats: &Slots, lists: &'a MetaLists, rules: Rules, data: &GameData, meta: &StratMeta, need: Need) -> (r: Vec<&'a Pick<u32>>)
    requires
        data.wf(),
    ensures
        ref_views(r@) == meta_pool(strat_views(lists.stratagems@), strats@, rules, data, meta, need),
{
    let list = lists.stratagems.as_slice();
    let top = allowed_refs(list, META_TOP_STRATS, strats, rules, data, meta, need);
    if top.len() > 0 {
        return top;
    }
    let mut all = allowed_refs(list, list.len(), strats, rules, data, meta, need);
    proof {
        assert(prefix(strat_views(lists.stratagems@), list@.len() as int) == strat_views(lists.stratagems@));
    }
    let ghost before = all@;
    all.truncate(META_FALLBACK);
    proof {
        assert(ref_views(all@) =~= prefix(ref_views(before), META_FALLBACK as int));
    }
    all
}

proof fn lemma_ref_rates(r: Seq<&Pick<u32>>)
    ensures
        rates_of(r) == pool_rates(ref_views(r)),
{
    assert(rates_of(r) =~= pool_rates(ref_views(r)));
}

/// Picks a stratagem among the most used that fit the build, weighted by pick rate.
fn pick_meta(strats: &Slots, lists: &MetaLists, rules: Rules, data: &GameData, meta: &StratMeta, need: Need) -> (r: Option<u32>)
    requires
        data.wf(),
    ensures
        drawn_from(meta_pool(strat_views(lists.stratagems@), strats@, rules, data, meta, need), r),
{
    let pool = meta_pool_of(strats, lists, rules, data, meta, need);
    let ghost p = ref_views(pool@);
    proof {
        lemma_ref_rates(pool@);
    }
    match weighted(pool.as_slice()) {
        Some(pick) => {
            proof {
                let roll = choose|roll: int| 0 <= roll < roll_range(rates_of(pool@))
                    && Some(pick) == Some(pool@[#[trigger] weighted_pick(rates_of(pool@), roll)]);
                let k = weighted_pick(pool_rates(p), roll);
                lemma_landing(pool_rates(p), roll);
                assert(p[k] == strat_view(*pool@[k]));
                assert(Some(pick.item) == Some(p[weighted_pick(pool_rates(p), roll)].0));
            }
            Some(pick.item)
        },
        None => None,
    }
}

/// The first empty slot takes a stratagem drawn from the meta pool.
pub open spec fn meta_place(before: Seq<Option<u32>>, after: Seq<Option<u32>>, list: Seq<(u32, u64)>, rules: Rules, data: &GameData, meta: &StratMeta, need: Need) -> bool {
    match first_empty(before) {
        None => after == before,
        Some(i) => {
            let pool = meta_pool(list, before, rules, data, meta, need);
            if pool.len() == 0 {
                after == before
            } else {
                after[i] is Some && drawn_from(pool, after[i]) && after == before.update(i, after[i])
            }
        },
    }
}

/// Slot `index`, if empty, takes a stratagem drawn from the meta pool.
pub open spec fn meta_fill_at(before: Seq<Option<u32>>, after: Seq<Option<u32>>, list: Seq<(u32, u64)>, rules: Rules, data: &GameData, meta: &StratMeta, index: int) -> bool {
    if before[index] is Some {
        after == before
    } else {
        let pool = meta_pool(list, before, rules, data, meta, Need::Any);
        if pool.len() == 0 {
            after == before
        } else {
            after[index] is Some && drawn_from(pool, after[index]) && after == before.update(index, after[index])
        }
    }
}

/// The steps of the meta stratagems: in a balanced build a support weapon and
/// a backpack first, then each empty slot in order.
pub open spec fn meta_chain(
    start: Seq<Option<u32>>, s1: Seq<Option<u32>>, s2: Seq<Option<u32>>, s3: Seq<Option<u32>>,
    s4: Seq<Option<u32>>, s5: Seq<Option<u32>>, end: Seq<Option<u32>>,
    list: Seq<(u32, u64)>, rules: Rules, data: &GameData, meta: &StratMeta,
) -> bool {
    &&& if rules.balanced && !any_slot(start, |x: u32| is_support(meta, x)) {
        meta_place(start, s1, list, rules, data, meta, Need::Support)
    } else {
        s1 == start
    }
    &&& if rules.balanced && !any_slot(s1, |x: u32| is_backpack(meta, x)) {
        meta_place(s1, s2, list, rules, data, meta, Need::Backpack)
    } else {
        s2 == s1
    }
    &&& meta_fill_at(s2, s3, list, rules, data, meta, 0)
    &&& meta_fill_at(s3, s4, list, rules, data, meta, 1)
    &&& meta_fill_at(s4, s5, list, rules, data, meta, 2)
    &&& meta_fill_at(s5, end, list, rules, data, meta, 3)
}

/// The stratagems of a meta build, from the ones already in place.
pub open spec fn meta_strats(start: Seq<Option<u32>>, end: Seq<Option<u32>>, list: Seq<(u32, u64)>, rules: Rules, data: &GameData, meta: &StratMeta) -> bool {
    exists|s1: Seq<Option<u32>>, s2: Seq<Option<u32>>, s3: Seq<Option<u32>>, s4: Seq<Option<u32>>, s5: Seq<Option<u32>>|
        #[trigger] meta_chain(start, s1, s2, s3, s4, s5, end, list, rules, data, meta)
}

fn place_meta(strats: &mut Slots, lists: &MetaLists, rules: Rules, data: &GameData, meta: &StratMeta, need: Need)
    requires
        data.wf(),
    ensures
        meta_place(old(strats)@, final(strats)@, strat_views(lists.stratagems@), rules, data, meta, need),
{
    let index = match find_empty(strats) {
        Some(i) => i,
        None => return,
    };
    if let Some(id) = pick_meta(strats, lists, rules, data, meta, need) {
        strats[index] = Some(id);
        assert(strats@ =~= old(strats)@.update(index as int, Some(id)));
    }
}

fn meta_fill(strats: &mut Slots, lists: &MetaLists, rules: Rules, data: &GameData, meta: &StratMeta, index: usize)
    requires
        data.wf(),
        index < SLOT_COUNT,
    ensures
        meta_fill_at(old(strats)@, final(strats)@, strat_views(lists.stratagems@), rules, data, meta, index as int),
{
    if strats[index].is_some() {
        return;
    }
    if let Some(id) = pick_meta(strats, lists, rules, data, meta, Need::Any) {
        strats[index] = Some(id);
        assert(strats@ =~= old(strats)@.update(index as int, Some(id)));
    }
}

/// The stratagems of a meta build: a balanced build gets a support weapon and
/// a backpack first, then every empty slot takes a stratagem of the top.
pub fn meta_slots(start: Slots, lists: &MetaLists, rules: Rules, data: &GameData, meta: &StratMeta) -> (r: Slots)
    requires
        data.wf(),
    ensures
        meta_strats(start@, r@, strat_views(lists.stratagems@), rules, data, meta),
{
    let ghost list = strat_views(lists.stratagems@);
    let mut strats = start;
    if rules.balanced && !any_of_kind(&strats, meta, Need::Support) {
        proof {
            assert(!any_slot(start@, |x: u32| is_support(meta, x))) by {
                if any_slot(start@, |x: u32| is_support(meta, x)) {
                    let i = choose|i: int| 0 <= i < start@.len() && (#[trigger] start@[i] matches Some(x) && is_support(meta, x));
                    assert(start@[i] matches Some(x) && needs(Need::Support, meta, x));
                }
            }
        }
        place_meta(&mut strats, lists, rules, data, meta, Need::Support);
    } else {
        proof {
            if rules.balanced && !any_slot(start@, |x: u32| is_support(meta, x)) {
                let i = choose|i: int| 0 <= i < start@.len() && (#[trigger] start@[i] matches Some(x) && needs(Need::Support, meta, x));
                assert(start@[i] matches Some(x) && is_support(meta, x));
            }
        }
    }
    let ghost s1 = strats@;
    if rules.balanced && !any_of_kind(&strats, meta, Need::Backpack) {
        proof {
            assert(!any_slot(s1, |x: u32| is_backpack(meta, x))) by {
                if any_slot(s1, |x: u32| is_backpack(meta, x)) {
                    let i = choose|i: int| 0 <= i < s1.len() && (#[trigger] s1[i] matches Some(x) && is_backpack(meta, x));
                    assert(s1[i] matches Some(x) && needs(Need::Backpack, meta, x));
                }
            }
        }
        place_meta(&mut strats, lists, rules, data, meta, Need::Backpack);
    } else {
        proof {
            if rules.balanced && !any_slot(s1, |x: u32| is_backpack(meta, x)) {
                let i = choose|i: int| 0 <= i < s1.len() && (#[trigger] s1[i] matches Some(x) && needs(Need::Backpack, meta, x));
                assert(s1[i] matches Some(x) && is_backpack(meta, x));
            }
        }
    }
    let ghost s2 = strats@;
    meta_fill(&mut strats, lists, rules, data, meta, 0);
    let ghost s3 = strats@;
    meta_fill(&mut strats, lists, rules, data, meta, 1);
    let ghost s4 = strats@;
    meta_fill(&mut strats, lists, rules, data, meta, 2);
    let ghost s5 = strats@;
    meta_fill(&mut strats, lists, rules, data, meta, 3);
    assert(meta_chain(start@, s1, s2, s3, s4, s5, strats@, list, rules, data, meta));
    strats
}


pub open spec fn pick_ids(list: Seq<(u32, u64)>) -> Seq<u32> {
    list.map_values(|p: (u32, u64)| p.0)
}

proof fn lemma_allowed_picks(list: Seq<(u32, u64)>, strats: Seq<Option<u32>>, rules: Rules, data: &GameData, meta: &StratMeta, need: Need)
    ensures
        forall|k: int| 0 <= k < allowed_picks(list, strats, rules, data, meta, need).len() ==>
            fits((#[trigger] allowed_picks(list, strats, rules, data, meta, need)[k]).0, strats, rules, data, meta, need)
            && list.contains(allowed_picks(list, strats, rules, data, meta, need)[k]),
        list.len() == 0 ==> allowed_picks(list, strats, rules, data, meta, need).len() == 0,
    decreases list.len(),
{
    if list.len() > 0 {
        let rest = list.drop_last();
        lemma_allowed_picks(rest, strats, rules, data, meta, need);
        let a = allowed_picks(list, strats, rules, data, meta, need);
        assert forall|k: int| 0 <= k < a.len() implies fits((#[trigger] a[k]).0, strats, rules, data, meta, need) && list.contains(a[k]) by {
            let ar = allowed_picks(rest, strats, rules, data, meta, need);
            if k < ar.len() {
                assert(a[k] == ar[k]);
                let j = choose|j: int| 0 <= j < rest.len() && rest[j] == ar[k];
                assert(list[j] == rest[j]);
            } else {
                assert(a[k] == list.last());
                assert(list[list.len() - 1] == list.last());
            }
        }
    }
}

proof fn lemma_pool(list: Seq<(u32, u64)>, strats: Seq<Option<u32>>, rules: Rules, data: &GameData, meta: &StratMeta, need: Need)
    ensures
        forall|k: int| 0 <= k < meta_pool(list, strats, rules, data, meta, need).len() ==>
            fits((#[trigger] meta_pool(list, strats, rules, data, meta, need)[k]).0, strats, rules, data, meta, need)
            && pick_ids(list).contains(meta_pool(list, strats, rules, data, meta, need)[k].0),
        list.len() == 0 ==> meta_pool(list, strats, rules, data, meta, need).len() == 0,
{
    let top_list = prefix(list, META_TOP_STRATS as int);
    lemma_allowed_picks(top_list, strats, rules, data, meta, need);
    lemma_allowed_picks(list, strats, rules, data, meta, need);
    let pool = meta_pool(list, strats, rules, data, meta, need);
    let top = allowed_picks(top_list, strats, rules, data, meta, need);
    let all = allowed_picks(list, strats, rules, data, meta, need);
    assert forall|k: int| 0 <= k < pool.len() implies fits((#[trigger] pool[k]).0, strats, rules, data, meta, need)
        && pick_ids(list).contains(pool[k].0) by {
        if top.len() > 0 {
            assert(pool[k] == top[k]);
            let j = choose|j: int| 0 <= j < top_list.len() && top_list[j] == top[k];
            assert(list[j] == top_list[j]);
            assert(pick_ids(list)[j] == pool[k].0);
        } else {
            assert(pool[k] == all[k]);
            let j = choose|j: int| 0 <= j < list.len() && list[j] == all[k];
            assert(pick_ids(list)[j] == pool[k].0);
        }
    }
}

proof fn lemma_drawn(pool: Seq<(u32, u64)>, r: Option<u32>)
    requires
        drawn_from(pool, r),
        pool.len() > 0,
    ensures
        r matches Some(x) && exists|k: int| 0 <= k < pool.len() && #[trigger] pool[k].0 == x,
{
    let roll = choose|roll: int| 0 <= roll < roll_range(pool_rates(pool))
        && r == Some(pool[#[trigger] weighted_pick(pool_rates(pool), roll)].0);
    law_weighted_skips_zero_weights(pool_rates(pool), roll);
    let k = weighted_pick(pool_rates(pool), roll);
    assert(pool[k].0 == r->0);
}

proof fn lemma_meta_step(a: Seq<Option<u32>>, b: Seq<Option<u32>>, i: int, list: Seq<(u32, u64)>, rules: Rules, data: &GameData, meta: &StratMeta, need: Need)
    requires
        a.len() == SLOT_COUNT,
        0 <= i < a.len(),
        a[i] is None,
        ({
            let pool = meta_pool(list, a, rules, data, meta, need);
            if pool.len() == 0 {
                b == a
            } else {
                b[i] is Some && drawn_from(pool, b[i]) && b == a.update(i, b[i])
            }
        }),
    ensures
        extends(a, b, pick_ids(list)),
        slots_ok(a, rules, data, meta) ==> slots_ok(b, rules, data, meta),
        list.len() == 0 ==> b == a,
{
    let pool = meta_pool(list, a, rules, data, meta, need);
    lemma_pool(list, a, rules, data, meta, need);
    if pool.len() > 0 {
        lemma_drawn(pool, b[i]);
        let x = b[i]->0;
        let k = choose|k: int| 0 <= k < pool.len() && #[trigger] pool[k].0 == x;
        assert(fits(pool[k].0, a, rules, data, meta, need));
        if slots_ok(a, rules, data, meta) {
            lemma_add_keeps_rules(a, i, x, rules, data, meta);
        }
        assert forall|q: int| 0 <= q < a.len() && a[q] is None && (#[trigger] b[q]) is Some implies pick_ids(list).contains(b[q]->0) by {
            if q != i {
                assert(b[q] == a[q]);
            }
        }
    }
}

proof fn lemma_meta_place(a: Seq<Option<u32>>, b: Seq<Option<u32>>, list: Seq<(u32, u64)>, rules: Rules, data: &GameData, meta: &StratMeta, need: Need)
    requires
        a.len() == SLOT_COUNT,
        meta_place(a, b, list, rules, data, meta, need),
    ensures
        extends(a, b, pick_ids(list)),
        slots_ok(a, rules, data, meta) ==> slots_ok(b, rules, data, meta),
        list.len() == 0 ==> b == a,
{
    lemma_first_empty(a);
    if let Some(i) = first_empty(a) {
        lemma_meta_step(a, b, i, list, rules, data, meta, need);
    }
}

proof fn lemma_meta_fill_at(a: Seq<Option<u32>>, b: Seq<Option<u32>>, list: Seq<(u32, u64)>, rules: Rules, data: &GameData, meta: &StratMeta, index: int)
    requires
        a.len() == SLOT_COUNT,
        0 <= index < SLOT_COUNT,
        meta_fill_at(a, b, list, rules, data, meta, index),
    ensures
        extends(a, b, pick_ids(list)),
        slots_ok(a, rules, data, meta) ==> slots_ok(b, rules, data, meta),
        list.len() == 0 ==> b == a,
{
    if a[index] is None {
        lemma_meta_step(a, b, index, list, rules, data, meta, Need::Any);
    }
}

/// A meta build keeps the rules as the random one does: what was locked stays,
/// every new stratagem comes from the statistics' list, the rules survive, and
/// with an empty list no stratagem is picked at all.
pub proof fn law_meta_keeps_the_rules(start: Seq<Option<u32>>, end: Seq<Option<u32>>, list: Seq<(u32, u64)>, rules: Rules, data: &GameData, meta: &StratMeta)
    requires
        start.len() == SLOT_COUNT,
        meta_strats(start, end, list, rules, data, meta),
    ensures
        extends(start, end, pick_ids(list)),
        slots_ok(start, rules, data, meta) ==> slots_ok(end, rules, data, meta),
        list.len() == 0 ==> end == start,
{
    let (s1, s2, s3, s4, s5) = choose|s1: Seq<Option<u32>>, s2: Seq<Option<u32>>, s3: Seq<Option<u32>>, s4: Seq<Option<u32>>, s5: Seq<Option<u32>>|
        #[trigger] meta_chain(start, s1, s2, s3, s4, s5, end, list, rules, data, meta);
    let ids = pick_ids(list);
    if rules.balanced && !any_slot(start, |x: u32| is_support(meta, x)) {
        lemma_meta_place(start, s1, list, rules, data, meta, Need::Support);
    }
    if rules.balanced && !any_slot(s1, |x: u32| is_backpack(meta, x)) {
        lemma_meta_place(s1, s2, list, rules, data, meta, Need::Backpack);
    }
    lemma_meta_fill_at(s2, s3, list, rules, data, meta, 0);
    lemma_meta_fill_at(s3, s4, list, rules, data, meta, 1);
    lemma_meta_fill_at(s4, s5, list, rules, data, meta, 2);
    lemma_meta_fill_at(s5, end, list, rules, data, meta, 3);
    lemma_extends_trans(start, s1, s2, ids);
    lemma_extends_trans(start, s2, s3, ids);
    lemma_extends_trans(start, s3, s4, ids);
    lemma_extends_trans(start, s4, s5, ids);
    lemma_extends_trans(start, s5, end, ids);
}


pub open spec fn named_ref_views(v: Seq<&Pick<String>>) -> Seq<(Seq<char>, u64)> {
    v.map_values(|p: &Pick<String>| named_view(*p))
}

/// The first `n` picks of a list, by reference.
fn top_refs<'a>(list: &'a [Pick<String>], n: usize) -> (r: Vec<&'a Pick<String>>)
    ensures
        named_ref_views(r@) == prefix(named_views(list@), n as int),
        rates_of(r@) == pool_rates(named_ref_views(r@)),
{
    let end = if n < list.len() { n } else { list.len() };
    let mut r: Vec<&Pick<String>> = Vec::new();
    let mut i: usize = 0;
    while i < end
        invariant
            i <= end,
            end <= list@.len(),
            r@.len() == i,
            forall|k: int| 0 <= k < i ==> *r@[k] == list@[k],
        decreases end - i,
    {
        r.push(&list[i]);
        i += 1;
    }
    assert(named_ref_views(r@) =~= prefix(named_views(list@), n as int));
    assert(rates_of(r@) =~= pool_rates(named_ref_views(r@)));
    r
}

/// A weapon of a meta build: the kept one, else one of the top of its list
/// weighted by pick rate; a category with no weapon resolved falls back on the
/// ordinary draw.
pub open spec fn meta_weapon_rolled(g: Option<Seq<char>>, kept: Option<Seq<char>>, lists: &MetaLists, e: &Equipment, slot: EquipSlot) -> bool {
    match kept {
        Some(id) => g == Some(id),
        None => {
            let top = prefix(named_views(lists.weapon_list(slot.spec_index() as int)), META_TOP_WEAPONS as int);
            if top.len() == 0 {
                rolled(g, None, e, slot)
            } else {
                drawn_from(top, g)
            }
        },
    }
}

/// `id` is an armor carrying the passive.
pub open spec fn armor_with(e: &Equipment, passive: Seq<char>, id: Seq<char>) -> bool {
    exists|j: int| 0 <= j < e.armor@.len() && (#[trigger] e.armor@[j]).passive@ == passive && e.armor@[j].id@ == id
}

pub open spec fn has_armor_with(e: &Equipment, passive: Seq<char>) -> bool {
    exists|j: int| 0 <= j < e.armor@.len() && (#[trigger] e.armor@[j]).passive@ == passive
}

/// The armor of a meta build: the kept one, else an armor carrying one of the
/// top passives (the passive weighted by pick rate); with no such armor, or no
/// passive resolved, the ordinary draw.
pub open spec fn meta_armor_rolled(g: Option<Seq<char>>, kept: Option<Seq<char>>, lists: &MetaLists, e: &Equipment) -> bool {
    match kept {
        Some(id) => g == Some(id),
        None => {
            let top = prefix(named_views(lists.passives@), META_TOP_PASSIVES as int);
            if top.len() == 0 {
                rolled(g, None, e, EquipSlot::Armor)
            } else {
                exists|passive: Seq<char>| #[trigger] drawn_from(top, Some(passive))
                    && if has_armor_with(e, passive) {
                        g matches Some(id) && armor_with(e, passive, id)
                    } else {
                        rolled(g, None, e, EquipSlot::Armor)
                    }
            }
        },
    }
}

fn draw_named(top: &Vec<&Pick<String>>) -> (r: Option<String>)
    requires
        rates_of(top@) == pool_rates(named_ref_views(top@)),
    ensures
        drawn_from(named_ref_views(top@), opt_chars(r)),
{
    let ghost p = named_ref_views(top@);
    match weighted(top.as_slice()) {
        Some(pick) => {
            let id = text::owned(pick.item.as_str());
            proof {
                let roll = choose|roll: int| 0 <= roll < roll_range(rates_of(top@))
                    && Some(pick) == Some(top@[#[trigger] weighted_pick(rates_of(top@), roll)]);
                let k = weighted_pick(pool_rates(p), roll);
                lemma_landing(pool_rates(p), roll);
                assert(p[k] == named_view(*top@[k]));
                assert(opt_chars(Some(id)) == Some(p[weighted_pick(pool_rates(p), roll)].0));
            }
            Some(id)
        },
        None => None,
    }
}

fn meta_weapon(prev: Option<&Build>, locks: &Locks, lists: &MetaLists, equipment: &Equipment, slot: EquipSlot) -> (r: Option<String>)
    requires
        slot.spec_is_weapon(),
    ensures
        meta_weapon_rolled(opt_chars(r), spec_kept(prev, locks, slot), lists, equipment, slot),
{
    if let Some(id) = kept_equip(prev, locks, slot) {
        return Some(id);
    }
    let top = top_refs(lists.weapons(slot), META_TOP_WEAPONS);
    if top.len() == 0 {
        return random_item(equipment, slot);
    }
    draw_named(&top)
}

fn meta_armor(prev: Option<&Build>, locks: &Locks, lists: &MetaLists, equipment: &Equipment) -> (r: Option<String>)
    ensures
        meta_armor_rolled(opt_chars(r), spec_kept(prev, locks, EquipSlot::Armor), lists, equipment),
{
    if let Some(id) = kept_equip(prev, locks, EquipSlot::Armor) {
        return Some(id);
    }
    let top = top_refs(lists.passives.as_slice(), META_TOP_PASSIVES);
    if top.len() == 0 {
        return random_item(equipment, EquipSlot::Armor);
    }
    let passive = match draw_named(&top) {
        Some(p) => p,
        None => return random_item(equipment, EquipSlot::Armor),
    };
    let mut candidates: Vec<&str> = Vec::new();
    let mut i: usize = 0;
    while i < equipment.armor.len()
        invariant
            i <= equipment.armor@.len(),
            forall|k: int| 0 <= k < candidates@.len() ==> armor_with(equipment, passive@, #[trigger] candidates@[k]@),
            candidates@.len() == 0 ==> forall|j: int| 0 <= j < i ==> (#[trigger] equipment.armor@[j]).passive@ != passive@,
        decreases equipment.armor.len() - i,
    {
        if text::str_eq(equipment.armor[i].passive.as_str(), passive.as_str()) {
            candidates.push(equipment.armor[i].id.as_str());
            assert(equipment.armor@[i as int].passive@ == passive@ && equipment.armor@[i as int].id@ == candidates@[candidates@.len() - 1]@);
        }
        i += 1;
    }
    let r = if candidates.len() > 0 {
        let k = chance::random_index(candidates.len());
        assert(armor_with(equipment, passive@, candidates@[k as int]@));
        Some(text::owned(candidates[k]))
    } else {
        assert(!has_armor_with(equipment, passive@));
        random_item(equipment, EquipSlot::Armor)
    };
    assert(drawn_from(prefix(named_views(lists.passives@), META_TOP_PASSIVES as int), Some(passive@)));
    r
}

/// The items of a meta build before set matching.
pub open spec fn meta_gear(g: Seq<Option<Seq<char>>>, prev: Option<&Build>, locks: &Locks, lists: &MetaLists, equipment: &Equipment) -> bool {
    &&& g.len() == EQUIP_SLOT_COUNT
    &&& forall|k: int| 0 <= k < 3 ==> meta_weapon_rolled(#[trigger] g[k], spec_kept(prev, locks, data::slot_at(k)), lists, equipment, data::slot_at(k))
    &&& meta_armor_rolled(g[3], spec_kept(prev, locks, EquipSlot::Armor), lists, equipment)
    &&& forall|k: int| 4 <= k < EQUIP_SLOT_COUNT ==> rolled(#[trigger] g[k], spec_kept(prev, locks, data::slot_at(k)), equipment, data::slot_at(k))
}

/// Rolls a build from the statistics (`generateMetaBuild`): the same rules as
/// the random build, but the stratagems come from the top shown on screen and
/// each pick is weighted by its pick rate; the weapons come from the top of
/// their lists and the armor carries one of the top passives.
pub fn generate_meta(prev: Option<&Build>, locks: &Locks, rules: Rules, lists: &MetaLists, data: &GameData, equipment: &Equipment, meta: &StratMeta) -> (b: Build)
    requires
        data.wf(),
    ensures
        meta_strats(spec_locked_start(prev, locks), b.strats()@, strat_views(lists.stratagems@), rules, data, meta),
        exists|g: Seq<Option<Seq<char>>>| #[trigger] meta_gear(g, prev, locks, lists, equipment)
            && set_matched(g, b.gear(), locks, rules, equipment),
{
    let start = locked_start(prev, locks);
    let strats = meta_slots(start, lists, rules, data, meta);
    let mut build = Build::new();
    build.stratagems = strats;
    let slots = EquipSlot::all();
    let mut k: usize = 0;
    while k < EQUIP_SLOT_COUNT
        invariant
            k <= EQUIP_SLOT_COUNT,
            build.strats() == strats,
            forall|i: int| 0 <= i < EQUIP_SLOT_COUNT ==> (#[trigger] slots@[i]) == data::slot_at(i) && slots@[i].spec_index() == i,
            build.gear().len() == EQUIP_SLOT_COUNT,
            forall|i: int| 0 <= i < k && i < 3 ==> meta_weapon_rolled(#[trigger] build.gear()[i], spec_kept(prev, locks, data::slot_at(i)), lists, equipment, data::slot_at(i)),
            k > 3 ==> meta_armor_rolled(build.gear()[3], spec_kept(prev, locks, EquipSlot::Armor), lists, equipment),
            forall|i: int| 4 <= i < k ==> rolled(#[trigger] build.gear()[i], spec_kept(prev, locks, data::slot_at(i)), equipment, data::slot_at(i)),
        decreases EQUIP_SLOT_COUNT - k,
    {
        let slot = slots[k];
        let id = if k < 3 {
            meta_weapon(prev, locks, lists, equipment, slot)
        } else if k == 3 {
            meta_armor(prev, locks, lists, equipment)
        } else {
            roll_item(prev, locks, equipment, slot)
        };
        build.set_equip(slot, id);
        k += 1;
    }
    let ghost g = build.gear();
    apply_set_matching(&mut build, locks, rules, equipment);
    assert(meta_gear(g, prev, locks, lists, equipment));
    build
}

} // verus!
