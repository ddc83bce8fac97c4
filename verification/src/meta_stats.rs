//! Community pick-rate statistics (the helldive.live backend): the queries
//! the app makes and how long an answer stays good. The network and the
//! cache file are the caller's business.

use vstd::prelude::*;
use crate::text;

verus! {

/// Root of the statistics API.
pub const API: &'static str = "https://utm7j5pjvi.us-east-1.awsapprunner.com";

/// The patch the site reports on; to be updated when the site adds one.
pub const PATCH_ID: u32 = 12;

/// Cache file in the configuration folder.
pub const CACHE_FILE: &'static str = "meta-cache.json";

/// Six hours: the site recomputes its numbers a few times a day.
pub const CACHE_TTL_MS: u64 = 21_600_000;

/// Faction queried.
#[derive(Debug, Clone, Copy, Default, PartialEq, Eq, Structural, Hash)]
pub enum Faction {
    #[default]
    Terminid,
    Automaton,
    Illuminate,
}

impl Faction {
    /// Every faction, in the order the screen offers them.
    pub fn all() -> (r: [Faction; 3])
        ensures
            r@ == seq![Faction::Terminid, Faction::Automaton, Faction::Illuminate],
    {
        let r = [Faction::Terminid, Faction::Automaton, Faction::Illuminate];
        assert(r@ =~= seq![Faction::Terminid, Faction::Automaton, Faction::Illuminate]);
        r
    }

    pub open spec fn spec_slug(self) -> Seq<char> {
        match self {
            Faction::Terminid => "terminid"@,
            Faction::Automaton => "automaton"@,
            Faction::Illuminate => "illuminate"@,
        }
    }

    /// Value of the `faction` parameter, also the first half of the cache key.
    pub fn slug(self) -> (r: &'static str)
        ensures
            r@ == self.spec_slug(),
    {
        match self {
            Faction::Terminid => "terminid",
            Faction::Automaton => "automaton",
            Faction::Illuminate => "illuminate",
        }
    }
}

/// The difficulties the screen offers: `0` is "all", the rest are the levels
/// the site tells apart.
pub fn difficulties() -> (r: [u8; 5])
    ensures
        r@ == seq![0u8, 7u8, 8u8, 9u8, 10u8],
{
    let r: [u8; 5] = [0, 7, 8, 9, 10];
    assert(r@ =~= seq![0u8, 7u8, 8u8, 9u8, 10u8]);
    r
}

/// The three endpoints of a query, as the `type` parameter expects them.
pub open spec fn kinds() -> Seq<Seq<char>> {
    seq!["strategem"@, "weapons"@, "armor"@]
}

/// Totals of a query.
#[derive(Debug, Clone, Copy, Default, PartialEq, Eq)]
pub struct Total {
    pub games: u64,
}

/// Numbers of one item in a query. The site's percentages are held as parts per
/// million of the loadouts (`12.5%` is `125_000`), which is how they are ordered
/// and weighed here.
#[derive(Debug, Clone, Copy, Default, PartialEq, Eq, Structural)]
pub struct ItemStat {
    /// Share of the loadouts that carry the item.
    pub loadouts_ppm: u64,
    /// Change since the previous period; absent on a new item.
    pub change_ppm: Option<i64>,
    pub is_new: Option<bool>,
}

impl ItemStat {
    pub fn change(self) -> (r: i64)
        ensures
            r == match self.change_ppm {
                Some(c) => c,
                None => 0,
            },
    {
        match self.change_ppm {
            Some(c) => c,
            None => 0,
        }
    }

    pub fn is_new(self) -> (r: bool)
        ensures
            r == (self.is_new == Some(true)),
    {
        match self.is_new {
            Some(b) => b,
            None => false,
        }
    }
}

/// One answer of the site: the numbers of each item, by the site's slug.
#[derive(Debug, Clone, Default)]
pub struct Section {
    pub items: Vec<(String, ItemStat)>,
    pub total: Total,
}

/// The three answers of a faction × difficulty combination.
#[derive(Debug, Clone, Default)]
pub struct Stats {
    pub strategem: Section,
    pub weapons: Section,
    pub armor: Section,
}

/// Cache key in the format of the first version: `terminid|9`.
pub open spec fn spec_cache_key(faction: Faction, difficulty: u8) -> Seq<char> {
    faction.spec_slug() + seq!['|'] + text::decimal(difficulty as nat)
}

/// Cache key of a faction and a difficulty.
pub fn cache_key(faction: Faction, difficulty: u8) -> (r: String)
    ensures
        r@ == spec_cache_key(faction, difficulty),
{
    let s = text::chars_of(faction.slug());
    let mut bar: Vec<char> = Vec::new();
    bar.push('|');
    let d = text::decimal_chars(difficulty as u128);
    let head = text::concat_chars(&s, &bar);
    let all = text::concat_chars(&head, &d);
    assert(bar@ =~= seq!['|']);
    text::string_of(&all)
}

/// The query of one endpoint.
pub open spec fn spec_url(faction: Faction, difficulty: u8, kind: Seq<char>) -> Seq<char> {
    API@ + "/items_stats?faction="@ + faction.spec_slug() + "&patch_id="@ + text::decimal(PATCH_ID as nat)
        + "&difficulty="@ + text::decimal(difficulty as nat) + "&mission=All&modifier=ALL&type="@ + kind
}

fn append(acc: &mut Vec<char>, s: &str)
    ensures
        final(acc)@ == old(acc)@ + s@,
{
    let c = text::chars_of(s);
    let r = text::concat_chars(acc, &c);
    *acc = r;
}

/// The URL of one endpoint of a query.
pub fn url(faction: Faction, difficulty: u8, kind: &str) -> (r: String)
    ensures
        r@ == spec_url(faction, difficulty, kind@),
{
    let mut acc: Vec<char> = Vec::new();
    append(&mut acc, API);
    append(&mut acc, "/items_stats?faction=");
    append(&mut acc, faction.slug());
    append(&mut acc, "&patch_id=");
    let p = text::decimal_chars(PATCH_ID as u128);
    acc = text::concat_chars(&acc, &p);
    append(&mut acc, "&difficulty=");
    let d = text::decimal_chars(difficulty as u128);
    acc = text::concat_chars(&acc, &d);
    append(&mut acc, "&mission=All&modifier=ALL&type=");
    append(&mut acc, kind);
    assert(acc@ =~= spec_url(faction, difficulty, kind@));
    text::string_of(&acc)
}

/// A cached answer is still good: less than six hours old. A clock that went
/// back does not make it old.
pub fn fresh(at: u64, now: u64) -> (r: bool)
    ensures
        r == (now <= at || now - at < CACHE_TTL_MS),
{
    now.saturating_sub(at) < CACHE_TTL_MS
}

/// A cached answer is still good at `now`.
pub open spec fn spec_fresh(at: u64, now: u64) -> bool {
    now <= at || now - at < CACHE_TTL_MS
}

/// An entry of the cache file: when it was stored (milliseconds since the
/// epoch) and the answer.
#[derive(Debug, Clone)]
pub struct Entry {
    pub at: u64,
    pub data: Stats,
}

/// Keys of the cache, in order.
pub open spec fn cache_keys(cache: Seq<(String, Entry)>) -> Seq<Seq<char>> {
    cache.map_values(|e: (String, Entry)| e.0@)
}

/// The answer cached for a key, while it is still good.
pub open spec fn spec_cached(cache: Seq<(String, Entry)>, key: Seq<char>, now: u64) -> Option<Stats> {
    match crate::data::first_index(cache_keys(cache), key) {
        Some(i) => if spec_fresh(cache[i].1.at, now) { Some(cache[i].1.data) } else { None },
        None => None,
    }
}

/// The entries a store keeps: the ones still good, other than the key stored.
pub open spec fn kept_entries(cache: Seq<(String, Entry)>, key: Seq<char>, now: u64) -> Seq<(String, Entry)>
    decreases cache.len(),
{
    if cache.len() == 0 {
        Seq::empty()
    } else {
        let rest = kept_entries(cache.drop_last(), key, now);
        let e = cache.last();
        if spec_fresh(e.1.at, now) && e.0@ != key { rest.push(e) } else { rest }
    }
}

/// The answer cached for a combination, while it is still good.
pub fn cached<'a>(cache: &'a [(String, Entry)], key: &str, now: u64) -> (r: Option<&'a Stats>)
    ensures
        r matches Some(s) ==> spec_cached(cache@, key@, now) == Some(*s),
        r is None ==> spec_cached(cache@, key@, now) is None,
{
    let mut i: usize = 0;
    while i < cache.len()
        invariant
            i <= cache@.len(),
            forall|j: int| 0 <= j < i ==> cache_keys(cache@)[j] != key@,
        decreases cache.len() - i,
    {
        if text::str_eq(cache[i].0.as_str(), key) {
            proof {
                crate::data::lemma_first_index_unique(cache_keys(cache@), key@, i as int);
            }
            if fresh(cache[i].1.at, now) {
                return Some(&cache[i].1.data);
            }
            return None;
        }
        i += 1;
    }
    proof {
        crate::data::lemma_first_index(cache_keys(cache@), key@);
    }
    None
}

/// Stores an answer, keeping the other combinations still good: expired
/// entries of combinations nobody opens would only fatten a file that is read
/// whole on every query.
pub fn store(cache: Vec<(String, Entry)>, key: &str, stats: Stats, now: u64) -> (r: Vec<(String, Entry)>)
    ensures
        r@.drop_last() == kept_entries(cache@, key@, now),
        r@.len() > 0,
        r@.last().0@ == key@,
        r@.last().1.at == now,
        r@.last().1.data == stats,
{
    let ghost all = cache@;
    let mut cache = cache;
    let total = cache.len();
    let mut kept: Vec<(String, Entry)> = Vec::new();
    let mut i: usize = 0;
    assert(all.skip(0) =~= all);
    assert(all.take(0) =~= Seq::<(String, Entry)>::empty());
    while cache.len() > 0
        invariant
            all.len() == total,
            i + cache@.len() == all.len(),
            cache@ == all.skip(i as int),
            kept@ == kept_entries(all.take(i as int), key@, now),
        decreases cache.len(),
    {
        let e = cache.remove(0);
        assert(e == all[i as int]);
        assert(cache@ =~= all.skip(i + 1));
        assert(all.take(i + 1).drop_last() =~= all.take(i as int));
        assert(all.take(i + 1).last() == e);
        if fresh(e.1.at, now) && !text::str_eq(e.0.as_str(), key) {
            kept.push(e);
        }
        i += 1;
    }
    assert(all.take(all.len() as int) =~= all);
    let ghost before = kept@;
    kept.push((text::owned(key), Entry { at: now, data: stats }));
    assert(kept@.drop_last() =~= before);
    kept
}

proof fn lemma_kept_keys(cache: Seq<(String, Entry)>, key: Seq<char>, now: u64)
    ensures
        forall|i: int| 0 <= i < kept_entries(cache, key, now).len() ==> (#[trigger] kept_entries(cache, key, now)[i]).0@ != key
            && spec_fresh(kept_entries(cache, key, now)[i].1.at, now),
    decreases cache.len(),
{
    if cache.len() > 0 {
        lemma_kept_keys(cache.drop_last(), key, now);
        let rest = kept_entries(cache.drop_last(), key, now);
        let k = kept_entries(cache, key, now);
        assert forall|i: int| 0 <= i < k.len() implies (#[trigger] k[i]).0@ != key && spec_fresh(k[i].1.at, now) by {
            if i < rest.len() {
                assert(k[i] == rest[i]);
            }
        }
    }
}

/// Right after a store, the combination reads back the answer stored; and the
/// file keeps no entry that is no longer good.
pub proof fn law_a_stored_answer_reads_back(cache: Seq<(String, Entry)>, stored: Seq<(String, Entry)>, key: Seq<char>, stats: Stats, now: u64)
    requires
        stored.len() > 0,
        stored.drop_last() == kept_entries(cache, key, now),
        stored.last().0@ == key,
        stored.last().1.at == now,
        stored.last().1.data == stats,
    ensures
        spec_cached(stored, key, now) == Some(stats),
        forall|i: int| 0 <= i < stored.len() ==> spec_fresh(#[trigger] stored[i].1.at, now),
{
    lemma_kept_keys(cache, key, now);
    let n = stored.len() - 1;
    assert forall|j: int| 0 <= j < n implies cache_keys(stored)[j] != key by {
        assert(stored[j] == stored.drop_last()[j]);
    }
    crate::data::lemma_first_index_unique(cache_keys(stored), key, n);
    assert forall|i: int| 0 <= i < stored.len() implies spec_fresh(#[trigger] stored[i].1.at, now) by {
        if i < n {
            assert(stored[i] == stored.drop_last()[i]);
        }
    }
}

/// Every faction and difficulty has its own cache entry.
pub proof fn law_cache_keys_are_distinct(f1: Faction, d1: u8, f2: Faction, d2: u8)
    requires
        spec_cache_key(f1, d1) == spec_cache_key(f2, d2),
    ensures
        f1 == f2,
        d1 == d2,
{
    reveal_strlit("terminid");
    reveal_strlit("automaton");
    reveal_strlit("illuminate");
    let k = spec_cache_key(f1, d1);
    let s1 = f1.spec_slug();
    let s2 = f2.spec_slug();
    text::lemma_decimal_lower(d1 as nat);
    text::lemma_decimal_lower(d2 as nat);
    assert(k[s1.len() as int] == '|');
    assert(k[s2.len() as int] == '|');
    assert(forall|i: int| 0 <= i < s1.len() ==> #[trigger] k[i] == s1[i]);
    assert(forall|i: int| 0 <= i < s2.len() ==> #[trigger] spec_cache_key(f2, d2)[i] == s2[i]);
    assert(s1.len() == s2.len()) by {
        if s1.len() < s2.len() {
            assert(s2[s1.len() as int] != '|');
        } else if s2.len() < s1.len() {
            assert(s1[s2.len() as int] != '|');
        }
    }
    assert(f1 == f2) by {
        if f1 != f2 {
            assert(s1.len() != s2.len() || s1[0] != s2[0]);
        }
    }
    assert(k.skip(s1.len() as int + 1) =~= text::decimal(d1 as nat));
    assert(spec_cache_key(f2, d2).skip(s2.len() as int + 1) =~= text::decimal(d2 as nat));
    text::lemma_decimal_injective(d1 as nat, d2 as nat);
}

} // verus!
