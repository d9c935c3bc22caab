//! A cache of resolution results, keyed by root package and strategy, whose
//! entries expire after a time to live.
use vstd::prelude::*;
use std::time::Instant;
use crate::text::{decimal, push_decimal, push_str};
use crate::types::package::{duplicate_ids, format_name, ids_view, PackageFormat, PackageId};

verus! {

/// A point in time; nothing about its value is known to the proofs.
#[verifier::external_type_specification]
#[verifier::external_body]
pub struct ExInstant(std::time::Instant);

/// `Instant::now`.  The clock is outside the proofs: nothing is stated of
/// the value.
#[verifier::external_body]
fn now() -> (t: Instant) {
    Instant::now()
}

/// `t.elapsed()`, as whole seconds and the nanoseconds past them.  It
/// depends on the clock, so nothing is stated of the result.
#[verifier::external_body]
fn elapsed_since(t: &Instant) -> (r: (u64, u32)) {
    let d = t.elapsed();
    (d.as_secs(), d.subsec_nanos())
}

/// Whether an entry `secs` seconds and `nanos` nanoseconds old has
/// outlived a time to live of `ttl_secs` seconds: its age is more than the
/// time to live (`elapsed() > Duration::from_secs(ttl_secs)`).
pub open spec fn expired(secs: u64, nanos: u32, ttl_secs: u64) -> bool {
    secs > ttl_secs || (secs == ttl_secs && nanos > 0)
}

/// What a lookup of `key` in the cache `c` gives for an entry of the given
/// age: the stored packages while they are within the time to live.
pub open spec fn lookup_result(c: CacheView, key: Seq<char>, age_secs: u64, age_nanos: u32) -> Option<
    Seq<(Seq<char>, PackageFormat, Seq<char>)>,
> {
    if c.entries.contains_key(key) && !expired(age_secs, age_nanos, c.ttl_secs) {
        Some(c.entries[key])
    } else {
        None
    }
}

pub fn is_expired(secs: u64, nanos: u32, ttl_secs: u64) -> (r: bool)
    ensures
        r == expired(secs, nanos, ttl_secs),
{
    secs > ttl_secs || (secs == ttl_secs && nanos > 0)
}

/// The time to live of an entry when none is given, in seconds.
pub const DEFAULT_TTL_SECS: u64 = 300;

struct CacheEntry {
    key: String,
    packages: Vec<PackageId>,
    inserted_at: Instant,
}

/// A resolution cache.  Keys are unique; setting a key again replaces its
/// entry.
pub struct DependencyCache {
    epoch: u64,
    ttl_secs: u64,
    entries: Vec<CacheEntry>,
}

spec fn entry_keys(s: Seq<CacheEntry>) -> Seq<Seq<char>> {
    s.map_values(|e: CacheEntry| e.key@)
}

spec fn entry_map(s: Seq<CacheEntry>) -> Map<Seq<char>, Seq<(Seq<char>, PackageFormat, Seq<char>)>>
    decreases s.len(),
{
    if s.len() == 0 {
        Map::empty()
    } else {
        entry_map(s.drop_last()).insert(s.last().key@, ids_view(s.last().packages@))
    }
}

spec fn time_map(s: Seq<CacheEntry>) -> Map<Seq<char>, Instant>
    decreases s.len(),
{
    if s.len() == 0 {
        Map::empty()
    } else {
        time_map(s.drop_last()).insert(s.last().key@, s.last().inserted_at)
    }
}

/// What the cache holds: its epoch, its time to live and, for each key, the
/// packages stored under it and the instant they were stored.
pub struct CacheView {
    pub epoch: u64,
    pub ttl_secs: u64,
    pub entries: Map<Seq<char>, Seq<(Seq<char>, PackageFormat, Seq<char>)>>,
    pub inserted: Map<Seq<char>, Instant>,
}

impl View for DependencyCache {
    type V = CacheView;

    closed spec fn view(&self) -> CacheView {
        CacheView {
            epoch: self.epoch,
            ttl_secs: self.ttl_secs,
            entries: entry_map(self.entries@),
            inserted: time_map(self.entries@),
        }
    }
}

/// The key of a root package and a strategy: `name:format:version:e<strategy>`.
pub open spec fn cache_key_text(root: (Seq<char>, PackageFormat, Seq<char>), strategy: u8) -> Seq<char> {
    root.0 + seq![':'] + format_name(root.1) + seq![':'] + root.2 + seq![':', 'e'] + decimal(strategy as nat)
}

proof fn lemma_entry_map_dom(s: Seq<CacheEntry>)
    ensures
        entry_map(s).dom() == entry_keys(s).to_set(),
    decreases s.len(),
{
    if s.len() > 0 {
        lemma_entry_map_dom(s.drop_last());
        assert(entry_keys(s.drop_last()) =~= entry_keys(s).drop_last());
        assert forall|k: Seq<char>| entry_map(s).dom().contains(k) <==> entry_keys(s).to_set().contains(k) by {
            if entry_keys(s).contains(k) && k != s.last().key@ {
                let i = choose|i: int| 0 <= i < entry_keys(s).len() && entry_keys(s)[i] == k;
                assert(i < s.len() - 1);
                assert(entry_keys(s.drop_last())[i] == k);
            }
            if k == s.last().key@ {
                assert(entry_keys(s)[s.len() - 1] == k);
            }
            if entry_keys(s.drop_last()).contains(k) {
                let i = choose|i: int| 0 <= i < entry_keys(s.drop_last()).len() && entry_keys(s.drop_last())[i] == k;
                assert(entry_keys(s)[i] == k);
            }
        }
        assert(entry_map(s).dom() =~= entry_keys(s).to_set());
    } else {
        assert(entry_keys(s).to_set() =~= Set::<Seq<char>>::empty());
    }
}

/// Replacing entry `i` by one with the same key sets that key's packages.
proof fn lemma_entry_map_update(s: Seq<CacheEntry>, i: int, e: CacheEntry)
    requires
        0 <= i < s.len(),
        entry_keys(s).no_duplicates(),
        e.key@ == s[i].key@,
    ensures
        entry_map(s.update(i, e)) == entry_map(s).insert(e.key@, ids_view(e.packages@)),
    decreases s.len(),
{
    let t = s.update(i, e);
    if i == s.len() - 1 {
        assert(t.drop_last() =~= s.drop_last());
        assert(entry_map(t) =~= entry_map(s).insert(e.key@, ids_view(e.packages@)));
    } else {
        assert(t.drop_last() =~= s.drop_last().update(i, e));
        assert(entry_keys(s.drop_last()) =~= entry_keys(s).drop_last());
        assert(entry_keys(s.drop_last()).no_duplicates());
        lemma_entry_map_update(s.drop_last(), i, e);
        assert(entry_keys(s)[i] != entry_keys(s)[s.len() - 1]);
        assert(entry_map(t) =~= entry_map(s).insert(e.key@, ids_view(e.packages@)));
    }
}

proof fn lemma_time_map_dom(s: Seq<CacheEntry>)
    ensures
        time_map(s).dom() == entry_map(s).dom(),
    decreases s.len(),
{
    if s.len() > 0 {
        lemma_time_map_dom(s.drop_last());
        assert(time_map(s).dom() =~= entry_map(s).dom());
    } else {
        assert(time_map(s).dom() =~= entry_map(s).dom());
    }
}

/// Replacing entry `i` by one with the same key sets that key's instant.
proof fn lemma_time_map_update(s: Seq<CacheEntry>, i: int, e: CacheEntry)
    requires
        0 <= i < s.len(),
        entry_keys(s).no_duplicates(),
        e.key@ == s[i].key@,
    ensures
        time_map(s.update(i, e)) == time_map(s).insert(e.key@, e.inserted_at),
    decreases s.len(),
{
    let t = s.update(i, e);
    if i == s.len() - 1 {
        assert(t.drop_last() =~= s.drop_last());
        assert(time_map(t) =~= time_map(s).insert(e.key@, e.inserted_at));
    } else {
        assert(t.drop_last() =~= s.drop_last().update(i, e));
        assert(entry_keys(s.drop_last()) =~= entry_keys(s).drop_last());
        assert(entry_keys(s.drop_last()).no_duplicates());
        lemma_time_map_update(s.drop_last(), i, e);
        assert(entry_keys(s)[i] != entry_keys(s)[s.len() - 1]);
        assert(time_map(t) =~= time_map(s).insert(e.key@, e.inserted_at));
    }
}

impl DependencyCache {
    /// No key is held twice.
    pub closed spec fn wf(&self) -> bool {
        entry_keys(self.entries@).no_duplicates()
    }

    /// A well-formed cache holds finitely many keys.
    pub proof fn lemma_finite(&self)
        requires
            self.wf(),
        ensures
            self@.entries.dom().finite(),
            self@.inserted.dom() == self@.entries.dom(),
    {
        lemma_entry_map_dom(self.entries@);
        lemma_time_map_dom(self.entries@);
    }

    /// An empty cache whose entries live five minutes.
    pub fn new() -> (c: DependencyCache)
        ensures
            c.wf(),
            c@.entries.dom().finite(),
            c@.epoch == 0,
            c@.ttl_secs == DEFAULT_TTL_SECS,
            c@.entries == Map::<Seq<char>, Seq<(Seq<char>, PackageFormat, Seq<char>)>>::empty(),
    {
        DependencyCache::with_ttl(DEFAULT_TTL_SECS)
    }

    /// An empty cache whose entries live `ttl_secs` seconds.
    pub fn with_ttl(ttl_secs: u64) -> (c: DependencyCache)
        ensures
            c.wf(),
            c@.entries.dom().finite(),
            c@.epoch == 0,
            c@.ttl_secs == ttl_secs,
            c@.entries == Map::<Seq<char>, Seq<(Seq<char>, PackageFormat, Seq<char>)>>::empty(),
    {
        let c = DependencyCache { epoch: 0, ttl_secs, entries: Vec::new() };
        assert(entry_keys(c.entries@).no_duplicates());
        assert(c@.entries =~= Map::<Seq<char>, Seq<(Seq<char>, PackageFormat, Seq<char>)>>::empty());
        c
    }

    /// The key under which the result for `root` and `strategy` is kept.
    pub fn cache_key(root: &PackageId, strategy: u8) -> (k: String)
        ensures
            k@ == cache_key_text(root@, strategy),
    {
        let mut k = String::new();
        push_str(&mut k, root.name.as_str());
        k.push(':');
        let f = root.format.name();
        push_str(&mut k, f.as_str());
        k.push(':');
        push_str(&mut k, root.version.as_str());
        k.push(':');
        k.push('e');
        push_decimal(&mut k, strategy as u64);
        proof {
            assert(k@ =~= cache_key_text(root@, strategy));
        }
        k
    }

    /// Position of the entry with key `k`.
    fn position(&self, k: &String) -> (r: Option<usize>)
        ensures
            match r {
                Some(i) => i < self.entries@.len() && self.entries@[i as int].key@ == k@,
                None => !entry_keys(self.entries@).contains(k@),
            },
    {
        let mut i: usize = 0;
        while i < self.entries.len()
            invariant
                i <= self.entries@.len(),
                forall|j: int| 0 <= j < i ==> self.entries@[j].key@ != k@,
            decreases self.entries.len() - i,
        {
            if self.entries[i].key == *k {
                return Some(i);
            }
            i += 1;
        }
        proof {
            if entry_keys(self.entries@).contains(k@) {
                let j = choose|j: int| 0 <= j < entry_keys(self.entries@).len() && entry_keys(self.entries@)[j] == k@;
                assert(self.entries@[j].key@ == k@);
            }
        }
        None
    }

    /// How long ago the entry for `root` and `strategy` was stored, as whole
    /// seconds and the nanoseconds past them (asked of the clock, for the
    /// instant `self@.inserted` holds for its key); `(0, 0)` when there is no
    /// such entry.
    pub fn entry_age(&self, root: &PackageId, strategy: u8) -> (r: (u64, u32))
        ensures
            !self@.entries.contains_key(cache_key_text(root@, strategy)) ==> r == (0u64, 0u32),
    {
        proof {
            lemma_entry_map_dom(self.entries@);
        }
        let k = DependencyCache::cache_key(root, strategy);
        match self.position(&k) {
            None => (0, 0),
            Some(i) => {
                proof {
                    assert(entry_keys(self.entries@)[i as int] == k@);
                    assert(entry_keys(self.entries@).to_set().contains(k@));
                }
                elapsed_since(&self.entries[i].inserted_at)
            },
        }
    }

    /// The cached packages for `root` and `strategy`, for an entry
    /// `age_secs` seconds and `age_nanos` nanoseconds old: `None` when there
    /// are none or when they have outlived the time to live.
    pub fn lookup(&self, root: &PackageId, strategy: u8, age_secs: u64, age_nanos: u32) -> (r: Option<Vec<PackageId>>)
        requires
            self.wf(),
        ensures
            match lookup_result(self@, cache_key_text(root@, strategy), age_secs, age_nanos) {
                Some(v) => r matches Some(x) && ids_view(x@) == v,
                None => r is None,
            },
    {
        proof {
            lemma_entry_map_dom(self.entries@);
        }
        let k = DependencyCache::cache_key(root, strategy);
        match self.position(&k) {
            None => None,
            Some(i) => {
                proof {
                    assert(entry_keys(self.entries@)[i as int] == k@);
                    assert(self.entries@.update(i as int, self.entries@[i as int]) =~= self.entries@);
                    lemma_entry_map_update(self.entries@, i as int, self.entries@[i as int]);
                }
                if is_expired(age_secs, age_nanos, self.ttl_secs) {
                    None
                } else {
                    Some(duplicate_ids(&self.entries[i].packages))
                }
            },
        }
    }

    /// The cached packages for `root` and `strategy`: the clock gives the
    /// entry's age, and `lookup` decides; so a missing key gives `None`, and
    /// otherwise the result is the stored packages or, once they have
    /// outlived the time to live, `None`.
    pub fn get(&self, root: &PackageId, strategy: u8) -> (r: Option<Vec<PackageId>>)
        requires
            self.wf(),
        ensures
            exists|age_secs: u64, age_nanos: u32| match #[trigger] lookup_result(self@, cache_key_text(root@, strategy), age_secs, age_nanos) {
                Some(v) => r matches Some(x) && ids_view(x@) == v,
                None => r is None,
            },
            !self@.entries.contains_key(cache_key_text(root@, strategy)) ==> r is None,
    {
        let (secs, nanos) = self.entry_age(root, strategy);
        let r = self.lookup(root, strategy, secs, nanos);
        proof {
            if !self@.entries.contains_key(cache_key_text(root@, strategy)) {
                assert(lookup_result(self@, cache_key_text(root@, strategy), secs, nanos) is None);
            }
        }
        r
    }

    /// Stores `packages` for `root` and `strategy`, replacing what was there.
    pub fn set(&mut self, root: &PackageId, strategy: u8, packages: Vec<PackageId>)
        requires
            old(self).wf(),
        ensures
            final(self).wf(),
            final(self)@.entries.dom().finite(),
            final(self)@.entries == old(self)@.entries.insert(cache_key_text(root@, strategy), ids_view(packages@)),
            final(self)@.entries.dom().len() == old(self)@.entries.dom().len() + if old(self)@.entries.contains_key(
                cache_key_text(root@, strategy),
            ) {
                0int
            } else {
                1int
            },
            final(self)@.inserted.contains_key(cache_key_text(root@, strategy)),
            final(self)@.inserted.remove(cache_key_text(root@, strategy)) == old(self)@.inserted.remove(
                cache_key_text(root@, strategy),
            ),
            final(self)@.epoch == old(self)@.epoch,
            final(self)@.ttl_secs == old(self)@.ttl_secs,
    {
        proof {
            old(self).lemma_finite();
        }
        let k = DependencyCache::cache_key(root, strategy);
        let e = CacheEntry { key: k, packages, inserted_at: now() };
        match self.position(&e.key) {
            Some(i) => {
                proof {
                    lemma_entry_map_update(self.entries@, i as int, e);
                    lemma_time_map_update(self.entries@, i as int, e);
                    assert(entry_keys(self.entries@.update(i as int, e)) =~= entry_keys(self.entries@));
                    assert(time_map(self.entries@).insert(e.key@, e.inserted_at).remove(e.key@) =~= time_map(
                        self.entries@,
                    ).remove(e.key@));
                }
                self.entries.set(i, e);
            },
            None => {
                proof {
                    assert(entry_keys(self.entries@.push(e)) =~= entry_keys(self.entries@).push(e.key@));
                    assert(self.entries@.push(e).drop_last() =~= self.entries@);
                    assert(time_map(self.entries@).insert(e.key@, e.inserted_at).remove(e.key@) =~= time_map(
                        self.entries@,
                    ).remove(e.key@));
                }
                self.entries.push(e);
            },
        }
        proof {
            self.lemma_finite();
        }
    }

    /// Drops every entry and moves to the next epoch.
    pub fn invalidate_all(&mut self)
        requires
            old(self)@.epoch < u64::MAX,
        ensures
            final(self).wf(),
            final(self)@.entries.dom().finite(),
            final(self)@.epoch == old(self)@.epoch + 1,
            final(self)@.ttl_secs == old(self)@.ttl_secs,
            final(self)@.entries == Map::<Seq<char>, Seq<(Seq<char>, PackageFormat, Seq<char>)>>::empty(),
    {
        self.epoch = self.epoch + 1;
        self.entries.clear();
        assert(entry_keys(self.entries@).no_duplicates());
        assert(self@.entries =~= Map::<Seq<char>, Seq<(Seq<char>, PackageFormat, Seq<char>)>>::empty());
    }

    pub fn current_epoch(&self) -> (e: u64)
        ensures
            e == self@.epoch,
    {
        self.epoch
    }

    /// The number of keys held.
    pub fn len(&self) -> (n: usize)
        requires
            self.wf(),
        ensures
            n == self@.entries.dom().len(),
    {
        proof {
            lemma_entry_map_dom(self.entries@);
            entry_keys(self.entries@).unique_seq_to_set();
        }
        self.entries.len()
    }

    pub fn is_empty(&self) -> (b: bool)
        requires
            self.wf(),
        ensures
            b == (self@.entries.dom().len() == 0),
    {
        self.len() == 0
    }

    /// Same as `invalidate_all`.
    pub fn bump_epoch(&mut self)
        requires
            old(self)@.epoch < u64::MAX,
        ensures
            final(self).wf(),
            final(self)@.entries.dom().finite(),
            final(self)@.epoch == old(self)@.epoch + 1,
            final(self)@.ttl_secs == old(self)@.ttl_secs,
            final(self)@.entries == Map::<Seq<char>, Seq<(Seq<char>, PackageFormat, Seq<char>)>>::empty(),
    {
        self.invalidate_all();
    }
}

impl Default for DependencyCache {
    fn default() -> (c: DependencyCache)
        ensures
            c.wf(),
            c@.entries.dom().finite(),
            c@.epoch == 0,
            c@.ttl_secs == DEFAULT_TTL_SECS,
            c@.entries == Map::<Seq<char>, Seq<(Seq<char>, PackageFormat, Seq<char>)>>::empty(),
    {
        DependencyCache::new()
    }
}

/// An entry stored by `set` is found by a lookup for as long as its age
/// is within the time to live: `before` and `after` are the cache around a
/// `set` of `packages` under `key`.
pub proof fn lemma_fresh_entry_found(
    before: CacheView,
    after: CacheView,
    key: Seq<char>,
    packages: Seq<(Seq<char>, PackageFormat, Seq<char>)>,
    age_secs: u64,
    age_nanos: u32,
)
    requires
        after.entries == before.entries.insert(key, packages),
        after.ttl_secs == before.ttl_secs,
        !expired(age_secs, age_nanos, before.ttl_secs),
    ensures
        lookup_result(after, key, age_secs, age_nanos) == Some(packages),
{
}

/// A call on a cache after it was made.
pub enum CacheCall {
    /// `set`
    Store,
    /// `get`
    Get,
    /// `len`
    Len,
    /// `is_empty`
    IsEmpty,
    /// `invalidate_all`
    InvalidateAll,
    /// `bump_epoch`
    BumpEpoch,
}

/// How a call moves the epoch, as the calls' contracts state it:
/// `invalidate_all` and `bump_epoch` add one, the others keep it.
pub open spec fn epoch_step(before: u64, after: u64, call: CacheCall) -> bool {
    match call {
        CacheCall::InvalidateAll | CacheCall::BumpEpoch => after == before + 1,
        _ => after == before,
    }
}

/// How many of `calls` are `invalidate_all` or `bump_epoch`.
pub open spec fn bumps(calls: Seq<CacheCall>) -> nat
    decreases calls.len(),
{
    if calls.len() == 0 {
        0
    } else {
        bumps(calls.drop_last()) + match calls.last() {
            CacheCall::InvalidateAll | CacheCall::BumpEpoch => 1nat,
            _ => 0nat,
        }
    }
}

/// The epoch of a cache made by `new`, `with_ttl` or `default` (epoch 0)
/// is, after any sequence of calls, the number of `invalidate_all` and
/// `bump_epoch` calls among them: `epochs[i]` is the epoch before the
/// `i`-th call and `epochs[i + 1]` the one after it.
pub proof fn lemma_epoch_counts(epochs: Seq<u64>, calls: Seq<CacheCall>)
    requires
        epochs.len() == calls.len() + 1,
        epochs[0] == 0,
        forall|i: int| 0 <= i < calls.len() ==> epoch_step(#[trigger] epochs[i], epochs[i + 1], calls[i]),
    ensures
        epochs.last() == bumps(calls),
    decreases calls.len(),
{
    if calls.len() > 0 {
        let n = calls.len() - 1;
        assert forall|i: int| 0 <= i < calls.drop_last().len() implies epoch_step(
            #[trigger] epochs.drop_last()[i],
            epochs.drop_last()[i + 1],
            calls.drop_last()[i],
        ) by {
            assert(epoch_step(epochs[i], epochs[i + 1], calls[i]));
        }
        lemma_epoch_counts(epochs.drop_last(), calls.drop_last());
        assert(epoch_step(epochs[n], epochs[n + 1], calls[n]));
    }
}

} // verus!
