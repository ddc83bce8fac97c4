use macro_hd2::meta_stats::{cache_key, cached, difficulties, fresh, store, url, Entry, Faction, Stats, API, CACHE_TTL_MS};
use std::collections::HashSet;

#[test]
fn the_url_carries_every_parameter_the_api_expects() {
    let url = url(Faction::Automaton, 9, "weapons");
    assert!(url.starts_with(&format!("{API}/items_stats?")));
    for part in ["faction=automaton", "patch_id=12", "difficulty=9", "mission=All", "modifier=ALL", "type=weapons"] {
        assert!(url.contains(part), "{url} without {part}");
    }
    assert!(!url.contains(' '), "{url}");
    assert_eq!(url.matches('?').count(), 1);
}

#[test]
fn cache_keys_pair_faction_and_difficulty() {
    assert_eq!(cache_key(Faction::Terminid, 0), "terminid|0");
    assert_eq!(cache_key(Faction::Illuminate, 10), "illuminate|10");
    let keys: Vec<String> = Faction::all()
        .into_iter()
        .flat_map(|faction| difficulties().into_iter().map(move |difficulty| cache_key(faction, difficulty)))
        .collect();
    assert_eq!(keys.len(), 15);
    assert_eq!(keys.iter().collect::<HashSet<_>>().len(), 15);
}

#[test]
fn an_entry_expires_after_six_hours() {
    let at = 1_000_000;
    assert!(fresh(at, at));
    assert!(fresh(at, at + CACHE_TTL_MS - 1));
    assert!(!fresh(at, at + CACHE_TTL_MS));
    assert!(fresh(at, 0));
}

#[test]
fn the_default_faction_is_the_terminids() {
    assert_eq!(Faction::default(), Faction::Terminid);
    assert_eq!(Faction::Automaton.slug(), "automaton");
}

fn answer(games: u64) -> Stats {
    let mut stats = Stats::default();
    stats.strategem.total.games = games;
    stats
}

#[test]
fn a_stored_answer_reads_back_and_expired_ones_leave() {
    let now = 10 * CACHE_TTL_MS;
    let cache = vec![
        ("terminid|9".to_string(), Entry { at: now - CACHE_TTL_MS, data: answer(1) }),
        ("automaton|5".to_string(), Entry { at: now - 60_000, data: answer(2) }),
        ("illuminate|3".to_string(), Entry { at: now - 1, data: answer(3) }),
    ];
    // Exactly six hours old is no longer good.
    assert!(cached(&cache, "terminid|9", now).is_none());
    assert_eq!(cached(&cache, "automaton|5", now).unwrap().strategem.total.games, 2);
    assert!(cached(&cache, "bug|1", now).is_none());

    let stored = store(cache, "illuminate|3", answer(30), now);
    let keys: Vec<&str> = stored.iter().map(|(key, _)| key.as_str()).collect();
    assert_eq!(keys, ["automaton|5", "illuminate|3"]);
    assert_eq!(cached(&stored, "illuminate|3", now).unwrap().strategem.total.games, 30);
    assert_eq!(stored[1].1.at, now);
}
