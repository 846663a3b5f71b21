//! The TTL-bounded cache of per-credential balance probes.
//!
//! Usage amounts are integers; the usage percentage is carried in basis
//! points (hundredths of a percent), clamped to the range zero to ten
//! thousand.

use vstd::prelude::*;
use crate::strutil::{opt_view, opt_plain};

verus! {

/// Cached balance entries older than this many seconds are stale.
pub const BALANCE_CACHE_TTL_SECS: u64 = 300;

/// A balance probe result for one credential.
#[derive(Clone, Debug)]
pub struct BalanceResponse {
    pub id: u64,
    pub subscription_title: Option<String>,
    pub current_usage: u64,
    pub usage_limit: u64,
    pub remaining: u64,
    /// Usage percentage in basis points, clamped to [0, 10000].
    pub usage_percentage_bp: u64,
    pub next_reset_at: Option<String>,
}

/// The mathematical value of a balance response.
pub struct BalanceResponseV {
    pub id: u64,
    pub subscription_title: Option<Seq<char>>,
    pub current_usage: u64,
    pub usage_limit: u64,
    pub remaining: u64,
    pub usage_percentage_bp: u64,
    pub next_reset_at: Option<Seq<char>>,
}

impl View for BalanceResponse {
    type V = BalanceResponseV;

    open spec fn view(&self) -> BalanceResponseV {
        BalanceResponseV {
            id: self.id,
            subscription_title: opt_view(self.subscription_title),
            current_usage: self.current_usage,
            usage_limit: self.usage_limit,
            remaining: self.remaining,
            usage_percentage_bp: self.usage_percentage_bp,
            next_reset_at: opt_view(self.next_reset_at),
        }
    }
}

/// Both optional strings of the response are plain.
pub open spec fn balance_plain(b: BalanceResponseV) -> bool {
    opt_plain(b.subscription_title) && opt_plain(b.next_reset_at)
}

/// A cached balance with the time it was stored.
#[derive(Clone, Debug)]
pub struct CachedBalance {
    /// Unix seconds at which the entry was stored.
    pub cached_at: u64,
    pub data: BalanceResponse,
}

/// The mathematical value of a cached balance.
pub struct CachedBalanceV {
    pub cached_at: u64,
    pub data: BalanceResponseV,
}

impl View for CachedBalance {
    type V = CachedBalanceV;

    open spec fn view(&self) -> CachedBalanceV {
        CachedBalanceV { cached_at: self.cached_at, data: self.data@ }
    }
}

/// An entry is fresh at `now` when it is younger than the TTL.
pub open spec fn entry_fresh(e: CachedBalanceV, now: u64) -> bool {
    now < e.cached_at + BALANCE_CACHE_TTL_SECS
}

/// The cache: one entry per credential id.
#[derive(Debug)]
pub struct BalanceCache {
    pub entries: Vec<(u64, CachedBalance)>,
}

/// The views of the cache entries, in storage order.
pub open spec fn cache_view(s: Seq<(u64, CachedBalance)>) -> Seq<(u64, CachedBalanceV)> {
    s.map_values(|e: (u64, CachedBalance)| (e.0, e.1@))
}

/// Some entry carries the id.
pub open spec fn cache_has(s: Seq<(u64, CachedBalanceV)>, id: u64) -> bool {
    exists|i: int| 0 <= i < s.len() && (#[trigger] s[i]).0 == id
}

/// The index of the entry with the id.
pub open spec fn cache_idx(s: Seq<(u64, CachedBalanceV)>, id: u64) -> int {
    choose|i: int| 0 <= i < s.len() && (#[trigger] s[i]).0 == id
}

impl BalanceCache {
    /// Keys are unique and the stored strings are plain.
    pub open spec fn wf(&self) -> bool {
        &&& forall|i: int, j: int|
            0 <= i < self@.len() && 0 <= j < self@.len() && i != j ==> (#[trigger] self@[i]).0 != (
            #[trigger] self@[j]).0
        &&& forall|i: int| 0 <= i < self@.len() ==> balance_plain((#[trigger] self@[i]).1.data)
        &&& forall|i: int| 0 <= i < self@.len() ==> (#[trigger] self@[i]).1.data.id == self@[i].0
    }

    /// The view of the cache.
    pub open spec fn view(&self) -> Seq<(u64, CachedBalanceV)> {
        cache_view(self.entries@)
    }

    /// An empty cache.
    pub fn new() -> (r: Self)
        ensures
            r.wf(),
            r@ =~= Seq::<(u64, CachedBalanceV)>::empty(),
    {
        BalanceCache { entries: Vec::new() }
    }

    /// The storage index of the entry with the id.
    fn find(&self, id: u64) -> (r: Option<usize>)
        ensures
            match r {
                Some(i) => i < self@.len() && self@[i as int].0 == id,
                None => !cache_has(self@, id),
            },
    {
        let n = self.entries.len();
        let mut i: usize = 0;
        while i < n
            invariant
                i <= n,
                n == self@.len(),
                forall|j: int| 0 <= j < i ==> (#[trigger] self@[j]).0 != id,
            decreases n - i,
        {
            if self.entries[i].0 == id {
                return Some(i);
            }
            i = i + 1;
        }
        None
    }

    /// Returns the cached balance for the id only while the entry is
    /// younger than the TTL at `now`; a stale or missing entry yields
    /// nothing, and the caller repopulates the cache.
    pub fn lookup(&self, id: u64, now: u64) -> (r: Option<BalanceResponse>)
        requires
            self.wf(),
        ensures
            match r {
                Some(b) => {
                    &&& cache_has(self@, id)
                    &&& {
                        let e = self@[cache_idx(self@, id)].1;
                        entry_fresh(e, now) && b@ == e.data
                    }
                },
                None => !cache_has(self@, id) || !entry_fresh(
                    self@[cache_idx(self@, id)].1,
                    now,
                ),
            },
    {
        match self.find(id) {
            Some(i) => {
                proof {
                    assert(cache_idx(self@, id) == i as int) by {
                        let k = cache_idx(self@, id);
                        assert(0 <= k < self@.len() && self@[k].0 == id);
                        if k != i as int {
                            assert(self@[k].0 != self@[i as int].0);
                        }
                    }
                }
                let e = &self.entries[i].1;
                if (e.cached_at as u128) + (BALANCE_CACHE_TTL_SECS as u128) > (now as u128) {
                    Some(e.data.clone_data())
                } else {
                    None
                }
            },
            None => None,
        }
    }

    /// Stores the balance for the id at `now`, replacing any prior entry.
    pub fn upsert(&mut self, id: u64, data: BalanceResponse, now: u64)
        requires
            old(self).wf(),
            balance_plain(data@),
            data@.id == id,
        ensures
            final(self).wf(),
            cache_has(final(self)@, id),
            final(self)@[cache_idx(final(self)@, id)].1 == (CachedBalanceV {
                cached_at: now,
                data: data@,
            }),
            final(self)@.len() == if cache_has(old(self)@, id) {
                old(self)@.len()
            } else {
                old(self)@.len() + 1
            },
            forall|other: u64|
                other != id ==> spec_entry_of(final(self)@, other) == spec_entry_of(
                    old(self)@,
                    other,
                ),
    {
        let entry = CachedBalance { cached_at: now, data };
        match self.find(id) {
            Some(i) => {
                let _ = self.entries.remove(i);
                self.entries.insert(i, (id, entry));
                proof {
                    assert(self@ =~= old(self)@.update(
                        i as int,
                        (id, CachedBalanceV { cached_at: now, data: data@ }),
                    ));
                    assert(self@[i as int].0 == id);
                    assert(cache_has(self@, id));
                    assert(cache_idx(self@, id) == i as int) by {
                        let k = cache_idx(self@, id);
                        assert(0 <= k < self@.len() && self@[k].0 == id);
                        if k != i as int {
                            assert(old(self)@[k].0 != old(self)@[i as int].0);
                        }
                    }
                    assert(cache_has(old(self)@, id));
                    assert(cache_idx(old(self)@, id) == i as int) by {
                        let k = cache_idx(old(self)@, id);
                        assert(0 <= k < old(self)@.len() && old(self)@[k].0 == id);
                        if k != i as int {
                            assert(old(self)@[k].0 != old(self)@[i as int].0);
                        }
                    }
                    assert(forall|other: u64|
                        other != id ==> #[trigger] spec_entry_of(self@, other) == spec_entry_of(
                            old(self)@,
                            other,
                        )) by {
                        assert forall|other: u64| other != id implies #[trigger] spec_entry_of(
                            self@,
                            other,
                        ) == spec_entry_of(old(self)@, other) by {
                            lemma_entry_of_update_other(old(self)@, self@, i as int, other);
                        }
                    }
                }
            },
            None => {
                self.entries.push((id, entry));
                proof {
                    assert(self@ =~= old(self)@.push(
                        (id, CachedBalanceV { cached_at: now, data: data@ }),
                    ));
                    assert(self@[old(self)@.len() as int].0 == id);
                    assert(cache_has(self@, id));
                    assert(cache_idx(self@, id) == old(self)@.len() as int) by {
                        let k = cache_idx(self@, id);
                        assert(0 <= k < self@.len() && self@[k].0 == id);
                        if k != old(self)@.len() as int {
                            assert(!cache_has(old(self)@, id));
                        }
                    }
                    assert(forall|other: u64|
                        other != id ==> #[trigger] spec_entry_of(self@, other) == spec_entry_of(
                            old(self)@,
                            other,
                        )) by {
                        assert forall|other: u64| other != id implies #[trigger] spec_entry_of(
                            self@,
                            other,
                        ) == spec_entry_of(old(self)@, other) by {
                            lemma_entry_of_push_other(old(self)@, self@, other);
                        }
                    }
                }
            },
        }
    }

    /// Drops the entry for the id, if any.
    pub fn purge(&mut self, id: u64)
        requires
            old(self).wf(),
        ensures
            final(self).wf(),
            !cache_has(final(self)@, id),
            forall|other: u64|
                other != id ==> spec_entry_of(final(self)@, other) == spec_entry_of(
                    old(self)@,
                    other,
                ),
    {
        match self.find(id) {
            Some(i) => {
                let _ = self.entries.remove(i);
                proof {
                    assert(self@ =~= old(self)@.remove(i as int));
                    assert(forall|k: int| 0 <= k < i ==> self@[k] == old(self)@[k]);
                    assert(forall|k: int|
                        i <= k < self@.len() ==> self@[k] == old(self)@[k + 1]);
                    assert(forall|other: u64|
                        other != id ==> #[trigger] spec_entry_of(self@, other) == spec_entry_of(
                            old(self)@,
                            other,
                        )) by {
                        assert forall|other: u64| other != id implies #[trigger] spec_entry_of(
                            self@,
                            other,
                        ) == spec_entry_of(old(self)@, other) by {
                            lemma_entry_of_remove_other(old(self)@, self@, i as int, other);
                        }
                    }
                }
            },
            None => {},
        }
    }
}

/// The cached entry an id maps to, if any.
pub open spec fn spec_entry_of(s: Seq<(u64, CachedBalanceV)>, id: u64) -> Option<CachedBalanceV> {
    if cache_has(s, id) {
        Some(s[cache_idx(s, id)].1)
    } else {
        None
    }
}

/// Updating one entry leaves what every other id maps to unchanged.
proof fn lemma_entry_of_update_other(
    s1: Seq<(u64, CachedBalanceV)>,
    s2: Seq<(u64, CachedBalanceV)>,
    i: int,
    other: u64,
)
    requires
        0 <= i < s1.len(),
        s2.len() == s1.len(),
        forall|k: int| 0 <= k < s1.len() && k != i ==> #[trigger] s2[k] == s1[k],
        s1[i].0 != other,
        s2[i].0 != other,
        forall|k: int, l: int|
            0 <= k < s1.len() && 0 <= l < s1.len() && k != l ==> (#[trigger] s1[k]).0 != (
            #[trigger] s1[l]).0,
    ensures
        spec_entry_of(s2, other) == spec_entry_of(s1, other),
{
    if cache_has(s1, other) {
        let k = cache_idx(s1, other);
        assert(0 <= k < s1.len() && s1[k].0 == other);
        assert(k != i);
        assert(s2[k].0 == other);
        assert(cache_has(s2, other));
        let k2 = cache_idx(s2, other);
        assert(0 <= k2 < s2.len() && s2[k2].0 == other);
        if k2 != k {
            if k2 == i {
                assert(false);
            } else {
                assert(s1[k2].0 == other);
                assert(s1[k2].0 != s1[k].0);
                assert(false);
            }
        }
    } else {
        if cache_has(s2, other) {
            let k2 = cache_idx(s2, other);
            assert(0 <= k2 < s2.len() && s2[k2].0 == other);
            assert(k2 != i);
            assert(s1[k2].0 == other);
            assert(false);
        }
    }
}

/// Appending an entry leaves what every other id maps to unchanged.
proof fn lemma_entry_of_push_other(
    s1: Seq<(u64, CachedBalanceV)>,
    s2: Seq<(u64, CachedBalanceV)>,
    other: u64,
)
    requires
        s2.len() == s1.len() + 1,
        forall|k: int| 0 <= k < s1.len() ==> #[trigger] s2[k] == s1[k],
        s2[s1.len() as int].0 != other,
        forall|k: int, l: int|
            0 <= k < s1.len() && 0 <= l < s1.len() && k != l ==> (#[trigger] s1[k]).0 != (
            #[trigger] s1[l]).0,
    ensures
        spec_entry_of(s2, other) == spec_entry_of(s1, other),
{
    if cache_has(s1, other) {
        let k = cache_idx(s1, other);
        assert(0 <= k < s1.len() && s1[k].0 == other);
        assert(s2[k].0 == other);
        assert(cache_has(s2, other));
        let k2 = cache_idx(s2, other);
        assert(0 <= k2 < s2.len() && s2[k2].0 == other);
        if k2 == s1.len() as int {
            assert(false);
        }
        assert(s1[k2].0 == other);
        if k2 != k {
            assert(s1[k2].0 != s1[k].0);
            assert(false);
        }
    } else {
        if cache_has(s2, other) {
            let k2 = cache_idx(s2, other);
            assert(k2 != s1.len() as int);
            assert(s1[k2].0 == other);
            assert(false);
        }
    }
}

/// Removing an entry leaves what every other id maps to unchanged, when
/// keys are unique.
proof fn lemma_entry_of_remove_other(
    s1: Seq<(u64, CachedBalanceV)>,
    s2: Seq<(u64, CachedBalanceV)>,
    i: int,
    other: u64,
)
    requires
        0 <= i < s1.len(),
        s2.len() == s1.len() - 1,
        forall|k: int| 0 <= k < i ==> #[trigger] s2[k] == s1[k],
        forall|k: int| i <= k < s2.len() ==> #[trigger] s2[k] == s1[k + 1],
        s1[i].0 != other,
        forall|k: int, l: int|
            0 <= k < s1.len() && 0 <= l < s1.len() && k != l ==> (#[trigger] s1[k]).0 != (
            #[trigger] s1[l]).0,
    ensures
        spec_entry_of(s2, other) == spec_entry_of(s1, other),
{
    if cache_has(s1, other) {
        let k = cache_idx(s1, other);
        assert(0 <= k < s1.len() && s1[k].0 == other);
        assert(k != i);
        let k2 = if k < i {
            k
        } else {
            k - 1
        };
        assert(s2[k2].0 == other);
        assert(cache_has(s2, other));
        let m = cache_idx(s2, other);
        assert(0 <= m < s2.len() && s2[m].0 == other);
        if m != k2 {
            let m1 = if m < i {
                m
            } else {
                m + 1
            };
            assert(s1[m1].0 == other);
            assert(m1 != k);
            assert(false);
        }
        assert(s2[m] == s1[k]);
    } else {
        if cache_has(s2, other) {
            let m = cache_idx(s2, other);
            let m1 = if m < i {
                m
            } else {
                m + 1
            };
            assert(s1[m1].0 == other);
            assert(false);
        }
    }
}

impl BalanceResponse {
    /// Copies the response field for field.
    pub fn clone_data(&self) -> (r: Self)
        ensures
            r@ == self@,
    {
        BalanceResponse {
            id: self.id,
            subscription_title: match &self.subscription_title {
                Some(s) => Some(s.clone()),
                None => None,
            },
            current_usage: self.current_usage,
            usage_limit: self.usage_limit,
            remaining: self.remaining,
            usage_percentage_bp: self.usage_percentage_bp,
            next_reset_at: match &self.next_reset_at {
                Some(s) => Some(s.clone()),
                None => None,
            },
        }
    }
}

/// Derives the balance response from a raw usage probe: what remains is the
/// limit less the usage, floored at zero, and the usage percentage is
/// clamped to one hundred percent; a zero limit reads as zero percent.
pub fn compute_balance(
    id: u64,
    current_usage: u64,
    usage_limit: u64,
    subscription_title: Option<String>,
    next_reset_at: Option<String>,
) -> (r: BalanceResponse)
    ensures
        r.id == id,
        r.current_usage == current_usage,
        r.usage_limit == usage_limit,
        r.remaining == if current_usage <= usage_limit {
            usage_limit - current_usage
        } else {
            0
        },
        r.usage_percentage_bp == if usage_limit > 0 {
            if (current_usage as int) * 10000 / (usage_limit as int) <= 10000 {
                (current_usage as int) * 10000 / (usage_limit as int)
            } else {
                10000int
            }
        } else {
            0int
        },
        opt_view(r.subscription_title) == opt_view(subscription_title),
        opt_view(r.next_reset_at) == opt_view(next_reset_at),
{
    let remaining = if current_usage <= usage_limit {
        usage_limit - current_usage
    } else {
        0
    };
    let pct_bp: u64 = if usage_limit > 0 {
        let raw = (current_usage as u128) * 10000u128 / (usage_limit as u128);
        if raw <= 10000u128 {
            raw as u64
        } else {
            10000
        }
    } else {
        0
    };
    BalanceResponse {
        id,
        subscription_title,
        current_usage,
        usage_limit,
        remaining,
        usage_percentage_bp: pct_bp,
        next_reset_at,
    }
}


/// A loaded entry list that a well-formed cache could have written and
/// that is entirely fresh at `now`.
pub open spec fn cache_good(es: Seq<(u64, CachedBalanceV)>, now: u64) -> bool {
    &&& forall|i: int, j: int|
        0 <= i < es.len() && 0 <= j < es.len() && i != j ==> (#[trigger] es[i]).0 != (
        #[trigger] es[j]).0
    &&& forall|i: int| 0 <= i < es.len() ==> balance_plain((#[trigger] es[i]).1.data)
    &&& forall|i: int| 0 <= i < es.len() ==> (#[trigger] es[i]).1.data.id == es[i].0
    &&& forall|i: int| 0 <= i < es.len() ==> entry_fresh((#[trigger] es[i]).1, now)
}

/// Whether a loaded entry joins what the scan already kept: it is fresh at
/// `now`, it names its own credential id, its strings are plain and its id
/// is not already kept.
pub open spec fn cache_load_keeps(
    e: (u64, CachedBalanceV),
    kept: Seq<(u64, CachedBalanceV)>,
    now: u64,
) -> bool {
    &&& entry_fresh(e.1, now)
    &&& e.1.data.id == e.0
    &&& balance_plain(e.1.data)
    &&& !cache_has(kept, e.0)
}

/// The entries a load keeps: one left-to-right scan over the list, keeping
/// each entry exactly when `cache_load_keeps` admits it.
pub open spec fn spec_load_cache(
    s: Seq<(u64, CachedBalanceV)>,
    i: int,
    kept: Seq<(u64, CachedBalanceV)>,
    now: u64,
) -> Seq<(u64, CachedBalanceV)>
    decreases s.len() - i,
{
    if i < 0 || i >= s.len() {
        kept
    } else if cache_load_keeps(s[i], kept, now) {
        spec_load_cache(s, i + 1, kept.push(s[i]), now)
    } else {
        spec_load_cache(s, i + 1, kept, now)
    }
}

impl BalanceCache {
    /// Rebuilds the cache from a list read off disk. The kept entries are
    /// exactly the `spec_load_cache` scan: entries older than the TTL at
    /// `now` are discarded, as are duplicates and entries a well-formed
    /// cache could not have written, and the good ones around them are
    /// kept. A good list is taken over unchanged.
    pub fn from_loaded(entries: Vec<(u64, CachedBalance)>, now: u64) -> (r: Self)
        ensures
            r.wf(),
            forall|i: int| 0 <= i < r@.len() ==> entry_fresh((#[trigger] r@[i]).1, now),
            r@ =~= spec_load_cache(cache_view(entries@), 0, Seq::empty(), now),
            cache_good(cache_view(entries@), now) ==> r@ =~= cache_view(entries@),
    {
        let n = entries.len();
        let mut kept: Vec<(u64, CachedBalance)> = Vec::new();
        let mut i: usize = 0;
        let entries = entries;
        proof {
            assert(cache_view(entries@).take(0) =~= Seq::<(u64, CachedBalanceV)>::empty());
            assert(cache_view(kept@) =~= Seq::<(u64, CachedBalanceV)>::empty());
        }
        while i < n
            invariant
                i <= n,
                n == entries@.len(),
                forall|k: int, l: int|
                    0 <= k < cache_view(kept@).len() && 0 <= l < cache_view(kept@).len() && k != l
                        ==> (#[trigger] cache_view(kept@)[k]).0 != (#[trigger] cache_view(
                        kept@,
                    )[l]).0,
                forall|k: int|
                    0 <= k < cache_view(kept@).len() ==> balance_plain(
                        (#[trigger] cache_view(kept@)[k]).1.data,
                    ),
                forall|k: int|
                    0 <= k < cache_view(kept@).len() ==> (#[trigger] cache_view(kept@)[k]).1.data.id
                        == cache_view(kept@)[k].0,
                forall|k: int|
                    0 <= k < cache_view(kept@).len() ==> entry_fresh(
                        (#[trigger] cache_view(kept@)[k]).1,
                        now,
                    ),
                spec_load_cache(cache_view(entries@), 0, Seq::empty(), now) == spec_load_cache(
                    cache_view(entries@),
                    i as int,
                    cache_view(kept@),
                    now,
                ),
                cache_good(cache_view(entries@), now) ==> cache_view(kept@) =~= cache_view(
                    entries@,
                ).take(i as int),
            decreases n - i,
        {
            let fresh = (entries[i].1.cached_at as u128) + (BALANCE_CACHE_TTL_SECS as u128) > (
            now as u128);
            let keep = fresh && entries[i].1.data.id == entries[i].0 && crate::strutil::opt_is_plain(
                &entries[i].1.data.subscription_title,
            ) && crate::strutil::opt_is_plain(&entries[i].1.data.next_reset_at) && !has_key(
                &kept,
                entries[i].0,
            );
            proof {
                assert(cache_view(entries@)[i as int] == (
                    entries@[i as int].0,
                    entries@[i as int].1@,
                ));
                assert(keep == cache_load_keeps(
                    cache_view(entries@)[i as int],
                    cache_view(kept@),
                    now,
                ));
            }
            proof {
                if cache_good(cache_view(entries@), now) {
                    let cv = cache_view(entries@);
                    assert(cv[i as int] == (entries@[i as int].0, entries@[i as int].1@));
                    assert(entry_fresh(cv[i as int].1, now));
                    assert(balance_plain(cv[i as int].1.data));
                    if cache_has(cache_view(kept@), entries@[i as int].0) {
                        let w = cache_idx(cache_view(kept@), entries@[i as int].0);
                        assert(cache_view(kept@)[w] == cv.take(i as int)[w]);
                        assert(cv.take(i as int)[w] == cv[w]);
                        assert(cv[w].0 != cv[i as int].0);
                        assert(false);
                    }
                    assert(keep);
                }
            }
            if keep {
                let ghost prev = kept@;
                let id = entries[i].0;
                let e = CachedBalance {
                    cached_at: entries[i].1.cached_at,
                    data: entries[i].1.data.clone_data(),
                };
                kept.push((id, e));
                proof {
                    assert(cache_view(kept@) =~= cache_view(prev).push(
                        (entries@[i as int].0, entries@[i as int].1@),
                    ));
                }
            }
            proof {
                if cache_good(cache_view(entries@), now) {
                    assert(cache_view(kept@) =~= cache_view(entries@).take(i + 1));
                }
                assert(spec_load_cache(cache_view(entries@), 0, Seq::empty(), now)
                    == spec_load_cache(cache_view(entries@), i + 1, cache_view(kept@), now));
            }
            i = i + 1;
        }
        proof {
            assert(cache_view(entries@).take(n as int) =~= cache_view(entries@));
        }
        BalanceCache { entries: kept }
    }

    /// The stored entries, for persistence.
    pub fn entries_ref(&self) -> (r: &Vec<(u64, CachedBalance)>)
        ensures
            cache_view(r@) == self@,
    {
        &self.entries
    }
}

/// Whether any kept entry already carries the id.
fn has_key(kept: &Vec<(u64, CachedBalance)>, id: u64) -> (r: bool)
    ensures
        r == cache_has(cache_view(kept@), id),
{
    let n = kept.len();
    let mut i: usize = 0;
    while i < n
        invariant
            i <= n,
            n == kept@.len(),
            forall|j: int| 0 <= j < i ==> (#[trigger] cache_view(kept@)[j]).0 != id,
        decreases n - i,
    {
        if kept[i].0 == id {
            proof {
                assert((#[trigger] cache_view(kept@)[i as int]).0 == id);
            }
            return true;
        }
        proof {
            assert((#[trigger] cache_view(kept@)[i as int]).0 == kept@[i as int].0);
        }
        i = i + 1;
    }
    false
}

} // verus!
