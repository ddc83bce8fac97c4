//! The alphabetical order of the equipment lists, and what the insertion of
//! new items keeps of it.

use vstd::prelude::*;
use crate::data::{Armor, Cosmetic, Described, Equipment, Weapon};
use crate::equipment_sync::{
    armor_names, cosmetic_names, described_names, known_pairs, merged, same_entry, sorted_pos, spec_inserted, spec_is_known,
    spec_item_id, weapon_names, Category, RemoteItem,
};
use crate::text;

verus! {

/// The names are in order: none sorts before an earlier one.
pub open spec fn names_sorted(ns: Seq<Seq<char>>) -> bool {
    forall|i: int, j: int| 0 <= i < j < ns.len() ==> !text::lex_lt(#[trigger] ns[j], #[trigger] ns[i])
}

/// Every list of the equipment is in alphabetical order.
pub open spec fn equipment_sorted(e: Equipment) -> bool {
    &&& names_sorted(weapon_names(e.primary@))
    &&& names_sorted(weapon_names(e.secondary@))
    &&& names_sorted(weapon_names(e.grenade@))
    &&& names_sorted(armor_names(e.armor@))
    &&& names_sorted(cosmetic_names(e.helmet@))
    &&& names_sorted(cosmetic_names(e.cape@))
    &&& names_sorted(described_names(e.booster@))
    &&& names_sorted(described_names(e.passives@))
}

proof fn lemma_sorted_pos_bounds(ns: Seq<Seq<char>>, name: Seq<char>)
    ensures
        0 <= sorted_pos(ns, name) <= ns.len(),
        forall|k: int| 0 <= k < sorted_pos(ns, name) ==> text::lex_lt(#[trigger] ns[k], name),
        sorted_pos(ns, name) < ns.len() ==> !text::lex_lt(ns[sorted_pos(ns, name)], name),
    decreases ns.len(),
{
    if ns.len() > 0 && text::lex_lt(ns[0], name) {
        let rest = ns.drop_first();
        lemma_sorted_pos_bounds(rest, name);
        assert forall|k: int| 0 <= k < sorted_pos(ns, name) implies text::lex_lt(#[trigger] ns[k], name) by {
            if k > 0 {
                assert(ns[k] == rest[k - 1]);
            }
        }
        if sorted_pos(ns, name) < ns.len() {
            assert(ns[sorted_pos(ns, name)] == rest[sorted_pos(rest, name)]);
        }
    }
}

/// A name put at its sorted place keeps a sorted list sorted.
pub proof fn lemma_sorted_insert(ns: Seq<Seq<char>>, name: Seq<char>)
    requires
        names_sorted(ns),
    ensures
        names_sorted(ns.insert(sorted_pos(ns, name), name)),
{
    let p = sorted_pos(ns, name);
    lemma_sorted_pos_bounds(ns, name);
    let w = ns.insert(p, name);
    assert forall|i: int, j: int| 0 <= i < j < w.len() implies !text::lex_lt(#[trigger] w[j], #[trigger] w[i]) by {
        if j < p {
            assert(w[i] == ns[i] && w[j] == ns[j]);
        } else if j == p {
            assert(w[i] == ns[i] && w[j] == name);
            text::lemma_lex_lt_asym(ns[i], name);
        } else if i < p {
            assert(w[i] == ns[i] && w[j] == ns[j - 1]);
        } else if i == p {
            assert(w[i] == name && w[j] == ns[j - 1]);
            if j - 1 > p {
                assert(!text::lex_lt(ns[j - 1], ns[p]));
            } else if text::lex_lt(ns[p], ns[p]) {
                text::lemma_lex_lt_asym(ns[p], ns[p]);
            }
            text::lemma_lex_le_trans(name, ns[p], ns[j - 1]);
        } else {
            assert(w[i] == ns[i - 1] && w[j] == ns[j - 1]);
        }
    }
}

/// Putting a new item in keeps every list of the equipment in alphabetical
/// order.
pub proof fn law_an_inserted_item_keeps_the_lists_sorted(a: Equipment, item: RemoteItem, b: Equipment)
    requires
        equipment_sorted(a),
        spec_inserted(a, item, b),
    ensures
        equipment_sorted(b),
{
    reveal(spec_inserted);
    let name = text::trim(item.nome@);
    if item.category == Category::Primary {
        let pos = sorted_pos(weapon_names(a.primary@), name);
        lemma_sorted_pos_bounds(weapon_names(a.primary@), name);
        assert(weapon_names(b.primary@) =~= weapon_names(a.primary@).insert(pos, name));
        lemma_sorted_insert(weapon_names(a.primary@), name);
    }
    if item.category == Category::Secondary {
        let pos = sorted_pos(weapon_names(a.secondary@), name);
        lemma_sorted_pos_bounds(weapon_names(a.secondary@), name);
        assert(weapon_names(b.secondary@) =~= weapon_names(a.secondary@).insert(pos, name));
        lemma_sorted_insert(weapon_names(a.secondary@), name);
    }
    if item.category == Category::Grenade {
        let pos = sorted_pos(weapon_names(a.grenade@), name);
        lemma_sorted_pos_bounds(weapon_names(a.grenade@), name);
        assert(weapon_names(b.grenade@) =~= weapon_names(a.grenade@).insert(pos, name));
        lemma_sorted_insert(weapon_names(a.grenade@), name);
    }
    if item.category == Category::Armor {
        let pos = sorted_pos(armor_names(a.armor@), name);
        lemma_sorted_pos_bounds(armor_names(a.armor@), name);
        assert(armor_names(b.armor@) =~= armor_names(a.armor@).insert(pos, name));
        lemma_sorted_insert(armor_names(a.armor@), name);
    }
    if item.category == Category::Helmet {
        let pos = sorted_pos(cosmetic_names(a.helmet@), name);
        lemma_sorted_pos_bounds(cosmetic_names(a.helmet@), name);
        assert(cosmetic_names(b.helmet@) =~= cosmetic_names(a.helmet@).insert(pos, name));
        lemma_sorted_insert(cosmetic_names(a.helmet@), name);
    }
    if item.category == Category::Cape {
        let pos = sorted_pos(cosmetic_names(a.cape@), name);
        lemma_sorted_pos_bounds(cosmetic_names(a.cape@), name);
        assert(cosmetic_names(b.cape@) =~= cosmetic_names(a.cape@).insert(pos, name));
        lemma_sorted_insert(cosmetic_names(a.cape@), name);
    }
    if item.category == Category::Booster {
        let pos = sorted_pos(described_names(a.booster@), name);
        lemma_sorted_pos_bounds(described_names(a.booster@), name);
        assert(described_names(b.booster@) =~= described_names(a.booster@).insert(pos, name));
        lemma_sorted_insert(described_names(a.booster@), name);
    }
    if item.category == Category::Passive {
        let pos = sorted_pos(described_names(a.passives@), name);
        lemma_sorted_pos_bounds(described_names(a.passives@), name);
        assert(described_names(b.passives@) =~= described_names(a.passives@).insert(pos, name));
        lemma_sorted_insert(described_names(a.passives@), name);
    }
}


/// A merge keeps every list of the equipment in alphabetical order.
pub proof fn law_a_merge_keeps_the_lists_sorted(eq0: Equipment, items: Seq<RemoteItem>, eq1: Equipment)
    requires
        equipment_sorted(eq0),
        merged(eq0, items, eq1),
    ensures
        equipment_sorted(eq1),
    decreases items.len(),
{
    if items.len() > 0 {
        let mid = choose|mid: Equipment| merged(eq0, items.drop_last(), mid) && #[trigger] spec_inserted(mid, items.last(), eq1);
        law_a_merge_keeps_the_lists_sorted(eq0, items.drop_last(), mid);
        law_an_inserted_item_keeps_the_lists_sorted(mid, items.last(), eq1);
    }
}


/// How many of the items are of category `c`.
pub open spec fn count_in(items: Seq<RemoteItem>, c: Category) -> int
    decreases items.len(),
{
    if items.len() == 0 {
        0
    } else {
        count_in(items.drop_last(), c) + if items.last().category == c { 1int } else { 0int }
    }
}

proof fn lemma_inserted_lengths(a: Equipment, item: RemoteItem, b: Equipment)
    requires
        spec_inserted(a, item, b),
    ensures
        b.primary@.len() == a.primary@.len() + (if item.category == Category::Primary { 1int } else { 0int }),
        b.secondary@.len() == a.secondary@.len() + (if item.category == Category::Secondary { 1int } else { 0int }),
        b.grenade@.len() == a.grenade@.len() + (if item.category == Category::Grenade { 1int } else { 0int }),
        b.armor@.len() == a.armor@.len() + (if item.category == Category::Armor { 1int } else { 0int }),
        b.helmet@.len() == a.helmet@.len() + (if item.category == Category::Helmet { 1int } else { 0int }),
        b.cape@.len() == a.cape@.len() + (if item.category == Category::Cape { 1int } else { 0int }),
        b.booster@.len() == a.booster@.len() + (if item.category == Category::Booster { 1int } else { 0int }),
        b.passives@.len() == a.passives@.len() + (if item.category == Category::Passive { 1int } else { 0int }),
{
    reveal(spec_inserted);
}

/// A merge grows each list by exactly the new items of its category: each
/// enters once, and nothing else enters.
pub proof fn law_a_merge_adds_each_item_once(eq0: Equipment, items: Seq<RemoteItem>, eq1: Equipment)
    requires
        merged(eq0, items, eq1),
    ensures
        eq1.primary@.len() == eq0.primary@.len() + count_in(items, Category::Primary),
        eq1.secondary@.len() == eq0.secondary@.len() + count_in(items, Category::Secondary),
        eq1.grenade@.len() == eq0.grenade@.len() + count_in(items, Category::Grenade),
        eq1.armor@.len() == eq0.armor@.len() + count_in(items, Category::Armor),
        eq1.helmet@.len() == eq0.helmet@.len() + count_in(items, Category::Helmet),
        eq1.cape@.len() == eq0.cape@.len() + count_in(items, Category::Cape),
        eq1.booster@.len() == eq0.booster@.len() + count_in(items, Category::Booster),
        eq1.passives@.len() == eq0.passives@.len() + count_in(items, Category::Passive),
    decreases items.len(),
{
    if items.len() > 0 {
        let mid = choose|mid: Equipment| merged(eq0, items.drop_last(), mid) && #[trigger] spec_inserted(mid, items.last(), eq1);
        law_a_merge_adds_each_item_once(eq0, items.drop_last(), mid);
        lemma_inserted_lengths(mid, items.last(), eq1);
    }
}


proof fn lemma_known_after_insert(known: Seq<(Seq<char>, Seq<char>)>, pos: int, p: (Seq<char>, Seq<char>), x: RemoteItem)
    requires
        0 <= pos <= known.len(),
    ensures
        spec_is_known(known, x) ==> spec_is_known(known.insert(pos, p), x),
{
    if spec_is_known(known, x) {
        let k = choose|k: int| 0 <= k < known.len() && #[trigger] same_entry(known[k], x);
        let w = known.insert(pos, p);
        if k < pos {
            assert(w[k] == known[k]);
        } else {
            assert(w[k + 1] == known[k]);
        }
    }
}

/// After an item goes in, it is known to its category, and whatever was
/// known before still is.
proof fn lemma_inserted_is_known(a: Equipment, item: RemoteItem, b: Equipment, x: RemoteItem)
    requires
        spec_inserted(a, item, b),
    ensures
        spec_is_known(known_pairs(b, item.category), item),
        spec_is_known(known_pairs(a, x.category), x) ==> spec_is_known(known_pairs(b, x.category), x),
{
    reveal(spec_inserted);
    if item.category != x.category {
        assert(known_pairs(b, x.category) =~= known_pairs(a, x.category));
    }
    if item.category == Category::Primary {
        let pos = sorted_pos(weapon_names(a.primary@), text::trim(item.nome@));
        let e = b.primary@[pos];
        assert(known_pairs(b, Category::Primary) =~= known_pairs(a, Category::Primary).insert(pos, (e.nome@, e.id@)));
        lemma_known_after_insert(known_pairs(a, Category::Primary), pos, (e.nome@, e.id@), x);
        assert(known_pairs(b, Category::Primary)[pos] == (e.nome@, e.id@));
        assert(same_entry(known_pairs(b, Category::Primary)[pos], item));
    }
    if item.category == Category::Secondary {
        let pos = sorted_pos(weapon_names(a.secondary@), text::trim(item.nome@));
        let e = b.secondary@[pos];
        assert(known_pairs(b, Category::Secondary) =~= known_pairs(a, Category::Secondary).insert(pos, (e.nome@, e.id@)));
        lemma_known_after_insert(known_pairs(a, Category::Secondary), pos, (e.nome@, e.id@), x);
        assert(known_pairs(b, Category::Secondary)[pos] == (e.nome@, e.id@));
        assert(same_entry(known_pairs(b, Category::Secondary)[pos], item));
    }
    if item.category == Category::Grenade {
        let pos = sorted_pos(weapon_names(a.grenade@), text::trim(item.nome@));
        let e = b.grenade@[pos];
        assert(known_pairs(b, Category::Grenade) =~= known_pairs(a, Category::Grenade).insert(pos, (e.nome@, e.id@)));
        lemma_known_after_insert(known_pairs(a, Category::Grenade), pos, (e.nome@, e.id@), x);
        assert(known_pairs(b, Category::Grenade)[pos] == (e.nome@, e.id@));
        assert(same_entry(known_pairs(b, Category::Grenade)[pos], item));
    }
    if item.category == Category::Armor {
        let pos = sorted_pos(armor_names(a.armor@), text::trim(item.nome@));
        let e = b.armor@[pos];
        assert(known_pairs(b, Category::Armor) =~= known_pairs(a, Category::Armor).insert(pos, (e.nome@, e.id@)));
        lemma_known_after_insert(known_pairs(a, Category::Armor), pos, (e.nome@, e.id@), x);
        assert(known_pairs(b, Category::Armor)[pos] == (e.nome@, e.id@));
        assert(same_entry(known_pairs(b, Category::Armor)[pos], item));
    }
    if item.category == Category::Helmet {
        let pos = sorted_pos(cosmetic_names(a.helmet@), text::trim(item.nome@));
        let e = b.helmet@[pos];
        assert(known_pairs(b, Category::Helmet) =~= known_pairs(a, Category::Helmet).insert(pos, (e.nome@, e.id@)));
        lemma_known_after_insert(known_pairs(a, Category::Helmet), pos, (e.nome@, e.id@), x);
        assert(known_pairs(b, Category::Helmet)[pos] == (e.nome@, e.id@));
        assert(same_entry(known_pairs(b, Category::Helmet)[pos], item));
    }
    if item.category == Category::Cape {
        let pos = sorted_pos(cosmetic_names(a.cape@), text::trim(item.nome@));
        let e = b.cape@[pos];
        assert(known_pairs(b, Category::Cape) =~= known_pairs(a, Category::Cape).insert(pos, (e.nome@, e.id@)));
        lemma_known_after_insert(known_pairs(a, Category::Cape), pos, (e.nome@, e.id@), x);
        assert(known_pairs(b, Category::Cape)[pos] == (e.nome@, e.id@));
        assert(same_entry(known_pairs(b, Category::Cape)[pos], item));
    }
    if item.category == Category::Booster {
        let pos = sorted_pos(described_names(a.booster@), text::trim(item.nome@));
        let e = b.booster@[pos];
        assert(known_pairs(b, Category::Booster) =~= known_pairs(a, Category::Booster).insert(pos, (e.nome@, e.id@)));
        lemma_known_after_insert(known_pairs(a, Category::Booster), pos, (e.nome@, e.id@), x);
        assert(known_pairs(b, Category::Booster)[pos] == (e.nome@, e.id@));
        assert(same_entry(known_pairs(b, Category::Booster)[pos], item));
    }
    if item.category == Category::Passive {
        let pos = sorted_pos(described_names(a.passives@), text::trim(item.nome@));
        let e = b.passives@[pos];
        assert(known_pairs(b, Category::Passive) =~= known_pairs(a, Category::Passive).insert(pos, (e.nome@, e.id@)));
        lemma_known_after_insert(known_pairs(a, Category::Passive), pos, (e.nome@, e.id@), x);
        assert(known_pairs(b, Category::Passive)[pos] == (e.nome@, e.id@));
        assert(same_entry(known_pairs(b, Category::Passive)[pos], item));
    }
}

/// Nothing enters twice: after a merge, every item that went in is known to
/// its category, so a later search for new items passes it over.
pub proof fn law_a_merged_item_is_known_afterwards(eq0: Equipment, items: Seq<RemoteItem>, eq1: Equipment)
    requires
        merged(eq0, items, eq1),
    ensures
        forall|m: int| 0 <= m < items.len() ==> spec_is_known(known_pairs(eq1, (#[trigger] items[m]).category), items[m]),
    decreases items.len(),
{
    if items.len() > 0 {
        let mid = choose|mid: Equipment| merged(eq0, items.drop_last(), mid) && #[trigger] spec_inserted(mid, items.last(), eq1);
        law_a_merged_item_is_known_afterwards(eq0, items.drop_last(), mid);
        assert forall|m: int| 0 <= m < items.len() implies spec_is_known(known_pairs(eq1, (#[trigger] items[m]).category), items[m]) by {
            lemma_inserted_is_known(mid, items.last(), eq1, items[m]);
            if m < items.len() - 1 {
                assert(items[m] == items.drop_last()[m]);
            }
        }
    }
}

/// The names of (name, id) pairs.
pub open spec fn pair_names(ks: Seq<(Seq<char>, Seq<char>)>) -> Seq<Seq<char>> {
    ks.map_values(|p: (Seq<char>, Seq<char>)| p.0)
}

/// Putting a new item in adds exactly one entry, with the trimmed name and
/// the item's id, to the list of its category, just before the first name
/// that does not sort below it (after every name that does); every other
/// list, the warbonds and the stratagem notes stay as they were.
pub proof fn law_an_item_goes_in_at_its_alphabetical_place(a: Equipment, item: RemoteItem, b: Equipment)
    requires
        spec_inserted(a, item, b),
    ensures
        ({
            let ks = known_pairs(a, item.category);
            let name = text::trim(item.nome@);
            let pos = sorted_pos(pair_names(ks), name);
            &&& 0 <= pos <= ks.len()
            &&& known_pairs(b, item.category) == ks.insert(pos, (name, spec_item_id(item)))
            &&& forall|k: int| 0 <= k < pos ==> text::lex_lt((#[trigger] ks[k]).0, name)
            &&& pos < ks.len() ==> !text::lex_lt(ks[pos].0, name)
        }),
        forall|c: Category| c != item.category ==> #[trigger] known_pairs(b, c) == known_pairs(a, c),
        b.warbond == a.warbond,
        b.stratagem_info == a.stratagem_info,
{
    reveal(spec_inserted);
    let ks = known_pairs(a, item.category);
    let name = text::trim(item.nome@);
    let pos = sorted_pos(pair_names(ks), name);
    lemma_sorted_pos_bounds(pair_names(ks), name);
    assert forall|k: int| 0 <= k < pos implies text::lex_lt((#[trigger] ks[k]).0, name) by {
        assert(pair_names(ks)[k] == ks[k].0);
    }
    if pos < ks.len() {
        assert(pair_names(ks)[pos] == ks[pos].0);
    }
    if item.category == Category::Primary {
        assert(pair_names(known_pairs(a, Category::Primary)) =~= weapon_names(a.primary@));
        let e = b.primary@[pos];
        assert(known_pairs(b, Category::Primary) =~= known_pairs(a, Category::Primary).insert(pos, (e.nome@, e.id@)));
    }
    if item.category == Category::Secondary {
        assert(pair_names(known_pairs(a, Category::Secondary)) =~= weapon_names(a.secondary@));
        let e = b.secondary@[pos];
        assert(known_pairs(b, Category::Secondary) =~= known_pairs(a, Category::Secondary).insert(pos, (e.nome@, e.id@)));
    }
    if item.category == Category::Grenade {
        assert(pair_names(known_pairs(a, Category::Grenade)) =~= weapon_names(a.grenade@));
        let e = b.grenade@[pos];
        assert(known_pairs(b, Category::Grenade) =~= known_pairs(a, Category::Grenade).insert(pos, (e.nome@, e.id@)));
    }
    if item.category == Category::Armor {
        assert(pair_names(known_pairs(a, Category::Armor)) =~= armor_names(a.armor@));
        let e = b.armor@[pos];
        assert(known_pairs(b, Category::Armor) =~= known_pairs(a, Category::Armor).insert(pos, (e.nome@, e.id@)));
    }
    if item.category == Category::Helmet {
        assert(pair_names(known_pairs(a, Category::Helmet)) =~= cosmetic_names(a.helmet@));
        let e = b.helmet@[pos];
        assert(known_pairs(b, Category::Helmet) =~= known_pairs(a, Category::Helmet).insert(pos, (e.nome@, e.id@)));
    }
    if item.category == Category::Cape {
        assert(pair_names(known_pairs(a, Category::Cape)) =~= cosmetic_names(a.cape@));
        let e = b.cape@[pos];
        assert(known_pairs(b, Category::Cape) =~= known_pairs(a, Category::Cape).insert(pos, (e.nome@, e.id@)));
    }
    if item.category == Category::Booster {
        assert(pair_names(known_pairs(a, Category::Booster)) =~= described_names(a.booster@));
        let e = b.booster@[pos];
        assert(known_pairs(b, Category::Booster) =~= known_pairs(a, Category::Booster).insert(pos, (e.nome@, e.id@)));
    }
    if item.category == Category::Passive {
        assert(pair_names(known_pairs(a, Category::Passive)) =~= described_names(a.passives@));
        let e = b.passives@[pos];
        assert(known_pairs(b, Category::Passive) =~= known_pairs(a, Category::Passive).insert(pos, (e.nome@, e.id@)));
    }
    assert forall|c: Category| c != item.category implies #[trigger] known_pairs(b, c) == known_pairs(a, c) by {
        assert(known_pairs(b, c) =~= known_pairs(a, c));
    }
}

} // verus!
