//! Saved builds and the sanitizing of stored macro slots.
//!
//! The slots file stores ids, not the whole stratagem: a renamed or re-tagged
//! stratagem never leaves a slot with stale data, and one that left the game
//! becomes an empty slot when read.

use vstd::prelude::*;
use crate::data::{self, GameData, Stratagem, resolve_id, conflict, opt_strat, slot_values};
use crate::settings::SLOT_COUNT;
use crate::shared::Slots;

verus! {

/// File of the macro slots, in the configuration folder.
pub const SLOTS_FILE: &'static str = "slots.json";

/// File of the saved builds.
pub const LOADOUTS_FILE: &'static str = "loadouts.json";

/// Mark of a backup of this app.
pub const BACKUP_APP: &'static str = "macro-helldivers2";

/// Name suggested when exporting a backup.
pub const BACKUP_FILE_NAME: &'static str = "macro-helldivers2-backup.json";

/// What survives of the first `n` stored ids: each resolved against the data
/// and dropped when it conflicts with an exclusive stratagem kept before it.
pub open spec fn sanitized(ids: Seq<Option<u32>>, data: &GameData, n: nat) -> Seq<Option<Stratagem>>
    decreases n,
{
    if n == 0 {
        Seq::empty()
    } else {
        let prev = sanitized(ids, data, (n - 1) as nat);
        let i = n - 1;
        let s = if i < ids.len() { resolve_id(data, ids[i]) } else { None };
        let kept = match s {
            Some(st) => if conflict(st, prev, i) { None } else { Some(st) },
            None => None,
        };
        prev.push(kept)
    }
}

pub proof fn lemma_sanitized_len(ids: Seq<Option<u32>>, data: &GameData, n: nat)
    ensures
        sanitized(ids, data, n).len() == n,
    decreases n,
{
    if n > 0 {
        lemma_sanitized_len(ids, data, (n - 1) as nat);
    }
}

pub proof fn lemma_sanitized_prefix(ids: Seq<Option<u32>>, data: &GameData, m: nat, n: nat)
    requires
        m <= n,
    ensures
        sanitized(ids, data, n).take(m as int) == sanitized(ids, data, m),
    decreases n,
{
    lemma_sanitized_len(ids, data, n);
    lemma_sanitized_len(ids, data, m);
    if m < n {
        lemma_sanitized_prefix(ids, data, m, (n - 1) as nat);
        lemma_sanitized_len(ids, data, (n - 1) as nat);
        assert(sanitized(ids, data, n).take(m as int) =~= sanitized(ids, data, (n - 1) as nat).take(m as int));
    } else {
        assert(sanitized(ids, data, n).take(m as int) =~= sanitized(ids, data, m));
    }
}

/// The id of a kept slot.
pub open spec fn slot_id(s: Option<Stratagem>) -> Option<u32> {
    match s {
        Some(st) => Some(st.id),
        None => None,
    }
}

/// The four slots that `ids` sanitize to.
pub open spec fn spec_sanitize(ids: Seq<Option<u32>>, data: &GameData) -> Seq<Option<u32>> {
    sanitized(ids, data, SLOT_COUNT as nat).map_values(|s: Option<Stratagem>| slot_id(s))
}

/// Resolves the ids against the current data and clears what cannot coexist:
/// each slot is checked against the earlier ones, and the second exosuit (or
/// vehicle) of a pair is dropped. A list that is too short or too long does
/// not invalidate the file: what is missing becomes empty, the rest is ignored.
pub fn sanitize(ids: &[Option<u32>], data: &GameData) -> (slots: Slots)
    requires
        data.wf(),
    ensures
        slots@ == spec_sanitize(ids@, data),
{
    let mut kept: Vec<Option<&Stratagem>> = Vec::new();
    let mut out: Vec<Option<u32>> = Vec::new();
    let mut index: usize = 0;
    while index < SLOT_COUNT
        invariant
            data.wf(),
            index <= SLOT_COUNT,
            kept@.len() == index,
            out@.len() == index,
            slot_values(kept@) == sanitized(ids@, data, index as nat),
            forall|k: int| 0 <= k < index ==> #[trigger] out@[k] == slot_id(sanitized(ids@, data, index as nat)[k]),
        decreases SLOT_COUNT - index,
    {
        let strat: Option<&Stratagem> = if index < ids.len() {
            match ids[index] {
                Some(id) => data.by_id(id),
                None => None,
            }
        } else {
            None
        };
        let strat = match strat {
            Some(s) => if data::has_exclusive_conflict(s, kept.as_slice(), index) { None } else { Some(s) },
            None => None,
        };
        proof {
            lemma_sanitized_len(ids@, data, index as nat);
        }
        kept.push(strat);
        out.push(match strat { Some(s) => Some(s.id), None => None });
        proof {
            assert(slot_values(kept@) =~= sanitized(ids@, data, (index + 1) as nat));
            assert forall|k: int| 0 <= k < index + 1 implies #[trigger] out@[k] == slot_id(sanitized(ids@, data, (index + 1) as nat)[k]) by {
                if k < index {
                    assert(sanitized(ids@, data, (index + 1) as nat)[k] == sanitized(ids@, data, index as nat)[k]);
                }
            }
        }
        index += 1;
    }
    let slots: Slots = [out[0], out[1], out[2], out[3]];
    proof {
        lemma_sanitized_len(ids@, data, SLOT_COUNT as nat);
        assert(slots@ =~= spec_sanitize(ids@, data));
    }
    slots
}

/// A saved build, in the format the settings folder keeps.
#[derive(Debug, Clone, PartialEq, Eq)]
pub struct Loadout {
    pub id: String,
    pub name: String,
    /// Ids of the four slots, with `None` where the build defines nothing.
    pub slot_ids: Vec<Option<u32>>,
    /// Equipment by category key (`primary`, `armor`, ...). Builds saved before
    /// equipment existed have no map at all.
    pub equip: Option<Vec<(String, String)>>,
}

} // verus!
