//! The policy of the icon cache: which bitmaps stay in memory, which files
//! are known to be broken, and what goes when the memory ceiling is passed.
//! The bitmaps themselves belong to the render target and live with the
//! Windows parts of the app, under the same relative paths.

use vstd::prelude::*;
use crate::text;

verus! {

/// Memory ceiling of the cache. A screen full of cards uses about 3MB.
pub const BUDGET_BYTES: usize = 8388608;

/// A bitmap held: its path relative to `assets/`, its size in bytes and the
/// tick of its last use.
#[derive(Debug, Clone)]
pub struct CacheEntry {
    pub rel: String,
    pub bytes: usize,
    pub used: u64,
}

/// An entry as (path, bytes, last use).
pub open spec fn entry_view(e: CacheEntry) -> (Seq<char>, nat, u64) {
    (e.rel@, e.bytes as nat, e.used)
}

/// The bytes of all entries together.
pub open spec fn total_bytes(es: Seq<(Seq<char>, nat, u64)>) -> nat
    decreases es.len(),
{
    if es.len() == 0 {
        0
    } else {
        total_bytes(es.drop_last()) + es.last().1
    }
}

/// The entry used longest ago (the first of them on a tie).
pub open spec fn lru_index(es: Seq<(Seq<char>, nat, u64)>) -> int
    decreases es.len(),
{
    if es.len() <= 1 {
        0
    } else {
        let j = lru_index(es.drop_last());
        if es.last().2 < es[j].2 { es.len() - 1 } else { j }
    }
}

pub proof fn lemma_lru_index(es: Seq<(Seq<char>, nat, u64)>)
    requires
        es.len() > 0,
    ensures
        0 <= lru_index(es) < es.len(),
        forall|k: int| 0 <= k < es.len() ==> es[lru_index(es)].2 <= #[trigger] es[k].2,
    decreases es.len(),
{
    if es.len() > 1 {
        let d = es.drop_last();
        lemma_lru_index(d);
        assert forall|k: int| 0 <= k < es.len() implies es[lru_index(es)].2 <= #[trigger] es[k].2 by {
            if k < es.len() - 1 {
                assert(es[k] == d[k]);
            }
        }
    }
}

/// The entries that stay once the least recently used ones went, one at a
/// time, until the bytes fit the budget or a single entry is left.
pub open spec fn kept_after_eviction(es: Seq<(Seq<char>, nat, u64)>) -> Seq<(Seq<char>, nat, u64)>
    decreases es.len(),
{
    if total_bytes(es) > BUDGET_BYTES && es.len() > 1 {
        proof {
            lemma_lru_index(es);
        }
        kept_after_eviction(es.remove(lru_index(es)))
    } else {
        es
    }
}

/// The paths evicted, in the order they went.
pub open spec fn evicted_paths(es: Seq<(Seq<char>, nat, u64)>) -> Seq<Seq<char>>
    decreases es.len(),
{
    if total_bytes(es) > BUDGET_BYTES && es.len() > 1 {
        proof {
            lemma_lru_index(es);
        }
        seq![es[lru_index(es)].0] + evicted_paths(es.remove(lru_index(es)))
    } else {
        Seq::empty()
    }
}

proof fn lemma_total_push(es: Seq<(Seq<char>, nat, u64)>, e: (Seq<char>, nat, u64))
    ensures
        total_bytes(es.push(e)) == total_bytes(es) + e.1,
{
    assert(es.push(e).drop_last() =~= es);
}

proof fn lemma_total_remove(es: Seq<(Seq<char>, nat, u64)>, i: int)
    requires
        0 <= i < es.len(),
    ensures
        total_bytes(es.remove(i)) + es[i].1 == total_bytes(es),
    decreases es.len(),
{
    if i < es.len() - 1 {
        let d = es.drop_last();
        lemma_total_remove(d, i);
        assert(es.remove(i) =~= d.remove(i).push(es.last()));
        lemma_total_push(d.remove(i), es.last());
    } else {
        assert(es.remove(i) =~= es.drop_last());
    }
}

/// What a lookup found.
#[derive(Debug, Clone, Copy, PartialEq, Eq, Structural)]
pub enum Lookup {
    /// The bitmap is held; its use was noted.
    Hit,
    /// The file failed before: do not try it again.
    Broken,
    /// Neither: decode the file, then insert it or mark it broken.
    Miss,
}

/// The bookkeeping of the icon cache.
///
/// On a loss of the device the whole cache goes, with the render target, in
/// [`BitmapCache::clear`].
pub struct BitmapCache {
    entries: Vec<CacheEntry>,
    /// Files that already failed: without this a broken path would be decoded
    /// again at every repaint.
    broken: Vec<String>,
    bytes: usize,
    tick: u64,
}

/// The paths are all different.
pub open spec fn distinct_paths(es: Seq<(Seq<char>, nat, u64)>) -> bool {
    forall|i: int, j: int| 0 <= i < j < es.len() ==> (#[trigger] es[i]).0 != (#[trigger] es[j]).0
}

/// Some entry has this path.
pub open spec fn holds_path(es: Seq<(Seq<char>, nat, u64)>, rel: Seq<char>) -> bool {
    exists|i: int| 0 <= i < es.len() && (#[trigger] es[i]).0 == rel
}

impl BitmapCache {
    /// The entries held, in the order they came in.
    pub closed spec fn held(&self) -> Seq<(Seq<char>, nat, u64)> {
        self.entries@.map_values(|e: CacheEntry| entry_view(e))
    }

    /// The paths known to be broken.
    pub closed spec fn failed(&self) -> Seq<Seq<char>> {
        self.broken@.map_values(|s: String| s@)
    }

    /// The bytes held, as counted.
    pub closed spec fn held_bytes(&self) -> nat {
        self.bytes as nat
    }

    /// The use clock.
    pub closed spec fn clock(&self) -> u64 {
        self.tick
    }

    /// The count of bytes is that of the entries, each path is held once,
    /// and no use lies ahead of the clock.
    pub open spec fn wf(&self) -> bool {
        &&& self.held_bytes() == total_bytes(self.held())
        &&& distinct_paths(self.held())
        &&& forall|i: int| 0 <= i < self.held().len() ==> (#[trigger] self.held()[i]).2 <= self.clock()
    }

    pub fn new() -> (c: BitmapCache)
        ensures
            c.wf(),
            c.held() == Seq::<(Seq<char>, nat, u64)>::empty(),
            c.failed() == Seq::<Seq<char>>::empty(),
            c.clock() == 0,
    {
        let c = BitmapCache { entries: Vec::new(), broken: Vec::new(), bytes: 0, tick: 0 };
        assert(c.held() =~= Seq::<(Seq<char>, nat, u64)>::empty());
        assert(c.failed() =~= Seq::<Seq<char>>::empty());
        c
    }

    /// A lookup of a path: the clock advances; a held bitmap has its use
    /// noted at the new tick; otherwise the broken list tells whether the file
    /// is worth decoding.
    pub fn lookup(&mut self, rel: &str) -> (r: Lookup)
        requires
            old(self).wf(),
            old(self).clock() < u64::MAX,
        ensures
            final(self).wf(),
            final(self).clock() == old(self).clock() + 1,
            final(self).failed() == old(self).failed(),
            final(self).held_bytes() == old(self).held_bytes(),
            (r is Hit) <==> holds_path(old(self).held(), rel@),
            r is Hit ==> exists|i: int| 0 <= i < old(self).held().len() && (#[trigger] old(self).held()[i]).0 == rel@
                && final(self).held() == old(self).held().update(i, (rel@, old(self).held()[i].1, final(self).clock())),
            !(r is Hit) ==> final(self).held() == old(self).held(),
            !(r is Hit) ==> ((r is Broken) <==> old(self).failed().contains(rel@)),
    {
        let ghost h0 = self.held();
        self.tick = self.tick + 1;
        let ghost snap = *self;
        assert(self.wf());
        let mut i: usize = 0;
        while i < self.entries.len()
            invariant
                i <= self.entries@.len(),
                *self == snap,
                snap.wf(),
                snap.held() == h0,
                h0 == old(self).held(),
                snap.clock() == old(self).clock() + 1,
                snap.failed() == old(self).failed(),
                snap.held_bytes() == old(self).held_bytes(),
                forall|k: int| 0 <= k < i ==> (#[trigger] h0[k]).0 != rel@,
            decreases self.entries.len() - i,
        {
            if text::str_eq(self.entries[i].rel.as_str(), rel) {
                let ghost before = self.entries@;
                let e = CacheEntry { rel: self.entries[i].rel.clone(), bytes: self.entries[i].bytes, used: self.tick };
                self.entries.set(i, e);
                proof {
                    assert(h0[i as int] == entry_view(before[i as int]));
                    assert(self.held() =~= h0.update(i as int, (rel@, h0[i as int].1, self.tick)));
                    lemma_total_update(h0, i as int, (rel@, h0[i as int].1, self.tick));
                    assert forall|a: int, b: int| 0 <= a < b < self.held().len() implies (#[trigger] self.held()[a]).0 != (#[trigger] self.held()[b]).0 by {
                        assert(h0[a].0 != h0[b].0);
                    }
                }
                return Lookup::Hit;
            }
            i += 1;
        }
        assert(!holds_path(h0, rel@));
        let mut j: usize = 0;
        while j < self.broken.len()
            invariant
                j <= self.broken@.len(),
                *self == snap,
                snap.wf(),
                snap.held() == old(self).held(),
                !holds_path(old(self).held(), rel@),
                snap.clock() == old(self).clock() + 1,
                snap.failed() == old(self).failed(),
                snap.held_bytes() == old(self).held_bytes(),
                forall|k: int| 0 <= k < j ==> (#[trigger] self.failed()[k]) != rel@,
            decreases self.broken.len() - j,
        {
            if text::str_eq(self.broken[j].as_str(), rel) {
                assert(self.failed()[j as int] == rel@);
                return Lookup::Broken;
            }
            j += 1;
        }
        Lookup::Miss
    }

    /// Notes that a file failed to decode or to become a bitmap.
    pub fn mark_broken(&mut self, rel: String)
        requires
            old(self).wf(),
        ensures
            final(self).wf(),
            final(self).held() == old(self).held(),
            final(self).clock() == old(self).clock(),
            final(self).failed() == if old(self).failed().contains(rel@) {
                old(self).failed()
            } else {
                old(self).failed().push(rel@)
            },
    {
        let ghost snap = *self;
        let mut j: usize = 0;
        while j < self.broken.len()
            invariant
                j <= self.broken@.len(),
                *self == snap,
                snap == *old(self),
                snap.wf(),
                forall|k: int| 0 <= k < j ==> (#[trigger] self.failed()[k]) != rel@,
            decreases self.broken.len() - j,
        {
            if text::str_eq(self.broken[j].as_str(), rel.as_str()) {
                assert(self.failed()[j as int] == rel@);
                return;
            }
            j += 1;
        }
        let ghost f0 = self.failed();
        self.broken.push(rel);
        assert(self.failed() =~= f0.push(rel@));
    }

    /// A bitmap just made goes in, used now; then the least recently used go,
    /// one at a time, until the bytes fit the budget or one entry is left.
    /// Gives the paths that went, whose bitmaps are to be dropped.
    pub fn insert(&mut self, rel: String, bytes: usize) -> (evicted: Vec<String>)
        requires
            old(self).wf(),
            !holds_path(old(self).held(), rel@),
            old(self).held_bytes() + bytes <= usize::MAX,
        ensures
            final(self).wf(),
            final(self).clock() == old(self).clock(),
            final(self).failed() == old(self).failed(),
            final(self).held() == kept_after_eviction(old(self).held().push((rel@, bytes as nat, old(self).clock()))),
            evicted@.map_values(|s: String| s@) == evicted_paths(old(self).held().push((rel@, bytes as nat, old(self).clock()))),
            total_bytes(final(self).held()) <= BUDGET_BYTES || final(self).held().len() <= 1,
    {
        let ghost all = self.held().push((rel@, bytes as nat, self.clock()));
        let ghost h0 = self.held();
        proof {
            lemma_total_push(h0, (rel@, bytes as nat, self.clock()));
        }
        self.entries.push(CacheEntry { rel, bytes, used: self.tick });
        self.bytes = self.bytes + bytes;
        assert(self.held() =~= all);
        assert(distinct_paths(self.held())) by {
            assert forall|a: int, b: int| 0 <= a < b < all.len() implies (#[trigger] all[a]).0 != (#[trigger] all[b]).0 by {
                if b == all.len() - 1 {
                    assert(h0[a] == all[a]);
                } else {
                    assert(h0[a].0 != h0[b].0);
                }
            }
        }
        let mut evicted: Vec<String> = Vec::new();
        while self.bytes > BUDGET_BYTES && self.entries.len() > 1
            invariant
                self.wf(),
                self.clock() == old(self).clock(),
                self.failed() == old(self).failed(),
                kept_after_eviction(self.held()) == kept_after_eviction(all),
                evicted@.map_values(|s: String| s@) + evicted_paths(self.held()) == evicted_paths(all),
            decreases self.entries.len(),
        {
            let ghost cur = self.held();
            let k = self.least_recent();
            let ghost ev = evicted@;
            proof {
                lemma_lru_index(cur);
                lemma_total_remove(cur, k as int);
                assert(evicted_paths(cur) == seq![cur[k as int].0] + evicted_paths(cur.remove(k as int)));
            }
            let gone = self.entries.remove(k);
            self.bytes = self.bytes - gone.bytes;
            evicted.push(gone.rel);
            proof {
                assert(self.held() =~= cur.remove(k as int));
                assert(evicted@.map_values(|s: String| s@) =~= ev.map_values(|s: String| s@).push(cur[k as int].0));
                assert(evicted@.map_values(|s: String| s@) + evicted_paths(self.held())
                    =~= ev.map_values(|s: String| s@) + evicted_paths(cur));
                assert forall|a: int, b: int| 0 <= a < b < self.held().len() implies (#[trigger] self.held()[a]).0 != (#[trigger] self.held()[b]).0 by {
                    let a0 = if a < k { a } else { a + 1 };
                    let b0 = if b < k { b } else { b + 1 };
                    assert(self.held()[a] == cur[a0] && self.held()[b] == cur[b0]);
                }
                assert forall|q: int| 0 <= q < self.held().len() implies (#[trigger] self.held()[q]).2 <= self.clock() by {
                    let q0 = if q < k { q } else { q + 1 };
                    assert(self.held()[q] == cur[q0]);
                }
            }
        }
        proof {
            assert(evicted_paths(self.held()) =~= Seq::<Seq<char>>::empty());
            assert(evicted@.map_values(|s: String| s@) =~= evicted@.map_values(|s: String| s@) + evicted_paths(self.held()));
        }
        evicted
    }

    /// The index of the entry used longest ago.
    fn least_recent(&self) -> (k: usize)
        requires
            self.entries@.len() > 0,
        ensures
            k == lru_index(self.held()),
    {
        let ghost h = self.held();
        let mut best: usize = 0;
        let mut j: usize = 1;
        assert(h.take(1).len() == 1);
        while j < self.entries.len()
            invariant
                1 <= j <= h.len(),
                h == self.held(),
                best < j,
                best == lru_index(h.take(j as int)),
            decreases self.entries.len() - j,
        {
            proof {
                lemma_lru_index(h.take(j as int));
                assert(h.take(j + 1).drop_last() =~= h.take(j as int));
                assert(h.take(j + 1)[best as int] == h[best as int]);
                assert(h.take(j + 1).last() == h[j as int]);
                assert(h[j as int].2 == self.entries@[j as int].used);
                assert(h[best as int].2 == self.entries@[best as int].used);
            }
            if self.entries[j].used < self.entries[best].used {
                best = j;
            }
            j += 1;
        }
        assert(h.take(h.len() as int) =~= h);
        best
    }

    /// Empties the cache: called when the render target is made anew.
    pub fn clear(&mut self)
        ensures
            final(self).wf(),
            final(self).held() == Seq::<(Seq<char>, nat, u64)>::empty(),
            final(self).failed() == Seq::<Seq<char>>::empty(),
            final(self).clock() == old(self).clock(),
    {
        self.entries = Vec::new();
        self.broken = Vec::new();
        self.bytes = 0;
        assert(self.held() =~= Seq::<(Seq<char>, nat, u64)>::empty());
        assert(self.failed() =~= Seq::<Seq<char>>::empty());
    }
}

proof fn lemma_total_update(es: Seq<(Seq<char>, nat, u64)>, i: int, e: (Seq<char>, nat, u64))
    requires
        0 <= i < es.len(),
        e.1 == es[i].1,
    ensures
        total_bytes(es.update(i, e)) == total_bytes(es),
    decreases es.len(),
{
    if i < es.len() - 1 {
        let d = es.drop_last();
        lemma_total_update(d, i, e);
        assert(es.update(i, e).drop_last() =~= d.update(i, e));
    } else {
        assert(es.update(i, e).drop_last() =~= es.drop_last());
    }
}

proof fn lemma_kept_are_entries(es: Seq<(Seq<char>, nat, u64)>)
    ensures
        forall|i: int| 0 <= i < kept_after_eviction(es).len() ==> es.contains(#[trigger] kept_after_eviction(es)[i]),
    decreases es.len(),
{
    if total_bytes(es) > BUDGET_BYTES && es.len() > 1 {
        lemma_lru_index(es);
        let l = lru_index(es);
        let rest = es.remove(l);
        lemma_kept_are_entries(rest);
        assert(kept_after_eviction(es) == kept_after_eviction(rest));
        assert forall|i: int| 0 <= i < kept_after_eviction(es).len() implies es.contains(#[trigger] kept_after_eviction(es)[i]) by {
            let x = kept_after_eviction(es)[i];
            assert(rest.contains(x));
            let q = choose|q: int| 0 <= q < rest.len() && rest[q] == x;
            if q < l {
                assert(es[q] == x);
            } else {
                assert(es[q + 1] == x);
            }
        }
    } else {
        assert forall|i: int| 0 <= i < kept_after_eviction(es).len() implies es.contains(#[trigger] kept_after_eviction(es)[i]) by {
            assert(es[i] == kept_after_eviction(es)[i]);
        }
    }
}

/// Eviction drops the least recently used: each path that went was last used
/// no later than any entry that stayed.
pub proof fn law_eviction_drops_the_least_recently_used(es: Seq<(Seq<char>, nat, u64)>)
    ensures
        forall|j: int| 0 <= j < evicted_paths(es).len() ==> exists|m: int|
            0 <= m < es.len() && es[m].0 == #[trigger] evicted_paths(es)[j]
                && forall|i: int| 0 <= i < kept_after_eviction(es).len() ==> es[m].2 <= (#[trigger] kept_after_eviction(es)[i]).2,
    decreases es.len(),
{
    if total_bytes(es) > BUDGET_BYTES && es.len() > 1 {
        lemma_lru_index(es);
        let l = lru_index(es);
        let rest = es.remove(l);
        law_eviction_drops_the_least_recently_used(rest);
        lemma_kept_are_entries(rest);
        let kept = kept_after_eviction(es);
        assert(kept == kept_after_eviction(rest));
        assert(evicted_paths(es) == seq![es[l].0] + evicted_paths(rest));
        assert forall|j: int| 0 <= j < evicted_paths(es).len() implies exists|m: int|
            0 <= m < es.len() && es[m].0 == #[trigger] evicted_paths(es)[j]
                && forall|i: int| 0 <= i < kept.len() ==> es[m].2 <= (#[trigger] kept[i]).2 by {
            if j == 0 {
                assert forall|i: int| 0 <= i < kept.len() implies es[l].2 <= (#[trigger] kept[i]).2 by {
                    assert(rest.contains(kept[i]));
                    let q = choose|q: int| 0 <= q < rest.len() && rest[q] == kept[i];
                    if q < l {
                        assert(es[q] == kept[i]);
                    } else {
                        assert(es[q + 1] == kept[i]);
                    }
                }
                assert(es[l].0 == evicted_paths(es)[0]);
            } else {
                assert(evicted_paths(es)[j] == evicted_paths(rest)[j - 1]);
                let m0 = choose|m: int| 0 <= m < rest.len() && rest[m].0 == #[trigger] evicted_paths(rest)[j - 1]
                    && forall|i: int| 0 <= i < kept_after_eviction(rest).len() ==> rest[m].2 <= (#[trigger] kept_after_eviction(rest)[i]).2;
                let m = if m0 < l { m0 } else { m0 + 1 };
                assert(es[m] == rest[m0]);
            }
        }
    }
}

} // verus!
