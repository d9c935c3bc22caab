//! The content-addressed store and shared library deduplication.
//!
//! The store keeps one origin directory per format (`deb`, `rpm`, `sam`)
//! and a shared library store indexed by SONAME and by content hash.  The
//! shared library index is kept sorted by SONAME, one entry per SONAME.
use vstd::prelude::*;
use crate::text::{chars_of, idx_of, lemma_text_less_total, lemma_text_less_trans, less, owned, str_eq, string_of, text_less};
use crate::types::package::{format_name, PackageFormat};
use crate::util::path::{join, path_join};

verus! {

// ---------------------------------------------------------------------------
// Entries
// ---------------------------------------------------------------------------

/// Which package, from which origin, provides a SONAME.
#[derive(Debug, Clone)]
pub struct Provider {
    pub origin: PackageFormat,
    pub package_name: String,
    pub package_hash: String,
    pub priority: u32,
}

/// One content-addressed shared library.  The reference count is kept as
/// a plain number.
#[derive(Debug, Clone)]
pub struct SharedLibEntry {
    pub soname: String,
    pub hash: String,
    pub providers: Vec<Provider>,
    pub ref_count: usize,
}

impl SharedLibEntry {
    pub fn new(soname: String, hash: String) -> (e: SharedLibEntry)
        ensures
            e.soname == soname,
            e.hash == hash,
            e.providers@.len() == 0,
            e.ref_count == 0,
    {
        SharedLibEntry { soname, hash, providers: Vec::new(), ref_count: 0 }
    }

    /// Records one more provider and counts one more reference.
    pub fn add_provider(&mut self, provider: Provider)
        requires
            old(self).ref_count < usize::MAX,
        ensures
            final(self).providers@ == old(self).providers@.push(provider),
            final(self).soname == old(self).soname,
            final(self).hash == old(self).hash,
            final(self).ref_count == old(self).ref_count + 1,
    {
        self.providers.push(provider);
        self.ref_count = self.ref_count + 1;
    }

    pub fn ref_count(&self) -> (n: usize)
        ensures
            n == self.ref_count,
    {
        self.ref_count
    }
}

// ---------------------------------------------------------------------------
// The shared library store
// ---------------------------------------------------------------------------

/// The SONAME-indexed store of shared libraries under `path`: every library
/// lives at `path/<soname>/<hash>`.
pub struct SharedLibStore {
    path: String,
    entries: Vec<SharedLibEntry>,
    hashes: Vec<(String, String)>,
}

pub open spec fn sonames(s: Seq<SharedLibEntry>) -> Seq<Seq<char>> {
    s.map_values(|e: SharedLibEntry| e.soname@)
}

pub open spec fn hash_keys(s: Seq<(String, String)>) -> Seq<Seq<char>> {
    s.map_values(|e: (String, String)| e.0@)
}

/// The hash index as a map from hash to SONAME.
pub open spec fn hash_map(s: Seq<(String, String)>) -> Map<Seq<char>, Seq<char>>
    decreases s.len(),
{
    if s.len() == 0 {
        Map::empty()
    } else {
        hash_map(s.drop_last()).insert(s.last().0@, s.last().1@)
    }
}

/// Entries sorted by SONAME, strictly.
pub open spec fn sorted(s: Seq<SharedLibEntry>) -> bool {
    forall|i: int, j: int| 0 <= i < j < s.len() ==> text_less(#[trigger] s[i].soname@, #[trigger] s[j].soname@)
}

impl SharedLibStore {
    /// Entries sorted by SONAME (so each SONAME has one entry), each hash
    /// indexed once.
    closed spec fn shape(&self) -> bool {
        sorted(self.entries@) && hash_keys(self.hashes@).no_duplicates()
    }

    /// The store is well formed: its entries are sorted by SONAME and the
    /// hash index names, for each hash, a stored entry with that hash.
    pub closed spec fn wf(&self) -> bool {
        self.shape() && index_consistent(hash_map(self.hashes@), soname_map(self.entries@))
    }

    /// The entries, in SONAME order.
    pub closed spec fn entries_spec(&self) -> Seq<SharedLibEntry> {
        self.entries@
    }

    /// The entries by SONAME.
    pub open spec fn libs(&self) -> Map<Seq<char>, SharedLibEntry> {
        soname_map(self.entries_spec())
    }

    /// The hash index.
    pub closed spec fn hash_index(&self) -> Map<Seq<char>, Seq<char>> {
        hash_map(self.hashes@)
    }

    pub closed spec fn path_spec(&self) -> Seq<char> {
        self.path@
    }

    /// In a well-formed store the entries are sorted by SONAME, one per
    /// SONAME, each found under its SONAME, and each indexed hash names a
    /// stored entry with that hash.
    pub proof fn lemma_wf(&self)
        requires
            self.wf(),
        ensures
            sorted(self.entries_spec()),
            index_consistent(self.hash_index(), self.libs()),
            forall|n: Seq<char>| self.libs().contains_key(n) <==> sonames(self.entries_spec()).contains(n),
            forall|i: int| 0 <= i < self.entries_spec().len() ==> self.libs().contains_key(#[trigger] self.entries_spec()[i].soname@)
                && self.libs()[self.entries_spec()[i].soname@] == self.entries_spec()[i],
    {
        assert forall|i: int| 0 <= i < self.entries_spec().len() implies self.libs().contains_key(#[trigger] self.entries_spec()[i].soname@)
            && self.libs()[self.entries_spec()[i].soname@] == self.entries_spec()[i] by {
            lemma_map_at(self.entries@, i);
        }
    }

    pub fn new(path: String) -> (s: SharedLibStore)
        ensures
            s.wf(),
            s.path_spec() == path@,
            s.entries_spec().len() == 0,
            s.libs() == Map::<Seq<char>, SharedLibEntry>::empty(),
            s.hash_index() == Map::<Seq<char>, Seq<char>>::empty(),
    {
        let s = SharedLibStore { path, entries: Vec::new(), hashes: Vec::new() };
        assert(hash_keys(s.hashes@).no_duplicates());
        assert(s.libs() =~= Map::<Seq<char>, SharedLibEntry>::empty());
        assert(hash_map(s.hashes@) =~= Map::<Seq<char>, Seq<char>>::empty());
        s
    }

    pub fn path(&self) -> (p: &str)
        ensures
            p@ == self.path_spec(),
    {
        self.path.as_str()
    }

    /// Where the library `soname` with content `hash` is kept.
    pub fn path_for(&self, soname: &str, hash: &str) -> (p: String)
        ensures
            p@ == path_join(path_join(self.path_spec(), soname@), hash@),
    {
        let d = join(self.path.as_str(), soname);
        join(d.as_str(), hash)
    }

    /// Position of the entry of `soname`.
    fn position(&self, soname: &str) -> (r: Option<usize>)
        requires
            self.shape(),
        ensures
            match r {
                Some(i) => i < self.entries@.len() && self.entries@[i as int].soname@ == soname@
                    && soname_map(self.entries@).contains_key(soname@)
                    && soname_map(self.entries@)[soname@] == self.entries@[i as int],
                None => !sonames(self.entries@).contains(soname@),
            },
    {
        let mut i: usize = 0;
        while i < self.entries.len()
            invariant
                i <= self.entries@.len(),
                self.shape(),
                forall|j: int| 0 <= j < i ==> self.entries@[j].soname@ != soname@,
            decreases self.entries.len() - i,
        {
            if str_eq(self.entries[i].soname.as_str(), soname) {
                proof {
                    lemma_map_at(self.entries@, i as int);
                }
                return Some(i);
            }
            i += 1;
        }
        proof {
            if sonames(self.entries@).contains(soname@) {
                let j = choose|j: int| 0 <= j < sonames(self.entries@).len() && sonames(self.entries@)[j] == soname@;
                assert(self.entries@[j].soname@ == soname@);
            }
        }
        None
    }

    /// The entry of `soname`.
    pub fn get(&self, soname: &str) -> (r: Option<&SharedLibEntry>)
        requires
            self.wf(),
        ensures
            match r {
                Some(e) => self.libs().contains_key(soname@) && *e == self.libs()[soname@],
                None => !self.libs().contains_key(soname@),
            },
    {
        match self.position(soname) {
            Some(i) => Some(&self.entries[i]),
            None => None,
        }
    }

    /// Position of the index entry of `hash`.
    fn hash_position(&self, hash: &str) -> (r: Option<usize>)
        requires
            self.shape(),
        ensures
            match r {
                Some(i) => i < self.hashes@.len() && self.hashes@[i as int].0@ == hash@
                    && hash_map(self.hashes@).contains_key(hash@) && hash_map(self.hashes@)[hash@] == self.hashes@[i as int].1@,
                None => !hash_map(self.hashes@).contains_key(hash@),
            },
    {
        proof {
            lemma_hash_map_dom(self.hashes@);
        }
        let mut i: usize = 0;
        while i < self.hashes.len()
            invariant
                i <= self.hashes@.len(),
                self.shape(),
                forall|j: int| 0 <= j < i ==> self.hashes@[j].0@ != hash@,
            decreases self.hashes.len() - i,
        {
            if str_eq(self.hashes[i].0.as_str(), hash) {
                proof {
                    lemma_hash_map_at(self.hashes@, i as int);
                }
                return Some(i);
            }
            i += 1;
        }
        proof {
            if hash_keys(self.hashes@).contains(hash@) {
                let j = choose|j: int| 0 <= j < hash_keys(self.hashes@).len() && hash_keys(self.hashes@)[j] == hash@;
                assert(self.hashes@[j].0@ == hash@);
            }
        }
        None
    }

    /// The entry whose content hash is `hash`, through the hash index.
    pub fn get_by_hash(&self, hash: &str) -> (r: Option<&SharedLibEntry>)
        requires
            self.wf(),
        ensures
            match r {
                Some(e) => self.hash_index().contains_key(hash@) && *e == self.libs()[self.hash_index()[hash@]]
                    && e.hash@ == hash@,
                None => !self.hash_index().contains_key(hash@),
            },
    {
        match self.hash_position(hash) {
            Some(k) => {
                let r = self.get(self.hashes[k].1.as_str());
                r
            },
            None => None,
        }
    }

    /// Indexes `entry` under its SONAME (replacing an entry of the same
    /// SONAME) and its hash; the hash the replaced entry had no longer
    /// leads to that SONAME.
    pub fn insert(&mut self, entry: SharedLibEntry)
        requires
            old(self).wf(),
        ensures
            final(self).wf(),
            final(self).path_spec() == old(self).path_spec(),
            sorted(final(self).entries_spec()),
            final(self).libs() == old(self).libs().insert(entry.soname@, entry),
            final(self).hash_index() == reindexed(old(self).hash_index(), old(self).libs(), entry),
    {
        let ghost libs0 = soname_map(self.entries@);
        let ghost idx0 = hash_map(self.hashes@);
        match self.position(entry.soname.as_str()) {
            Some(i) => {
                let old_hash = self.entries[i].hash.clone();
                match self.hash_position(old_hash.as_str()) {
                    Some(k) => {
                        if str_eq(self.hashes[k].1.as_str(), entry.soname.as_str()) {
                            self.unindex_hash(old_hash.as_str());
                        }
                    },
                    None => {},
                }
            },
            None => {},
        }
        let ghost idx1 = hash_map(self.hashes@);
        proof {
            assert(libs0.contains_key(entry.soname@) <==> sonames(old(self).entries@).contains(entry.soname@));
            let cleared = if libs0.contains_key(entry.soname@) && idx0.contains_key(libs0[entry.soname@].hash@)
                && idx0[libs0[entry.soname@].hash@] == entry.soname@ {
                idx0.remove(libs0[entry.soname@].hash@)
            } else {
                idx0
            };
            assert(idx1 == cleared);
        }
        let h = entry.hash.clone();
        let sn = entry.soname.clone();
        self.index_hash(h, sn);
        self.place(entry);
        proof {
            let libs2 = soname_map(self.entries@);
            let idx2 = hash_map(self.hashes@);
            assert(idx2 == idx1.insert(entry.hash@, entry.soname@));
            assert forall|h: Seq<char>| #[trigger] idx2.contains_key(h) implies libs2.contains_key(idx2[h]) && libs2[idx2[h]].hash@ == h by {
                if h != entry.hash@ {
                    assert(idx1.contains_key(h) && idx0.contains_key(h) && idx2[h] == idx0[h]);
                }
            }
        }
    }

    fn index_hash(&mut self, hash: String, soname: String)
        requires
            old(self).shape(),
        ensures
            final(self).shape(),
            final(self).entries == old(self).entries,
            final(self).path == old(self).path,
            hash_map(final(self).hashes@) == hash_map(old(self).hashes@).insert(hash@, soname@),
    {
        match self.hash_position(hash.as_str()) {
            Some(k) => {
                let ghost before = self.hashes@;
                let e = (hash, soname);
                proof {
                    lemma_hash_map_update(before, k as int, e);
                    assert(hash_keys(before.update(k as int, e)) =~= hash_keys(before));
                }
                self.hashes.set(k, e);
            },
            None => {
                let ghost before = self.hashes@;
                proof {
                    lemma_hash_map_dom(before);
                    assert(!hash_keys(before).contains(hash@));
                }
                self.hashes.push((hash, soname));
                proof {
                    assert(self.hashes@.drop_last() =~= before);
                    assert(hash_keys(self.hashes@) =~= hash_keys(before).push(self.hashes@.last().0@));
                }
            },
        }
    }

    fn place(&mut self, entry: SharedLibEntry)
        requires
            old(self).shape(),
        ensures
            final(self).shape(),
            final(self).hashes == old(self).hashes,
            soname_map(final(self).entries@) == soname_map(old(self).entries@).insert(entry.soname@, entry),
            final(self).path == old(self).path,
            sonames(final(self).entries@).to_set() == sonames(old(self).entries@).to_set().insert(entry.soname@),
            exists|i: int| 0 <= i < final(self).entries@.len() && final(self).entries@[i] == entry,
            forall|i: int| 0 <= i < old(self).entries@.len() && old(self).entries@[i].soname@ != entry.soname@
                ==> final(self).entries@.contains(#[trigger] old(self).entries@[i]),
    {
        let mut i: usize = 0;
        while i < self.entries.len() && less(self.entries[i].soname.as_str(), entry.soname.as_str())
            invariant
                i <= self.entries@.len(),
                forall|j: int| 0 <= j < i ==> text_less(#[trigger] self.entries@[j].soname@, entry.soname@),
            decreases self.entries.len() - i,
        {
            i += 1;
        }
        let ghost old_e = self.entries@;
        if i < self.entries.len() && str_eq(self.entries[i].soname.as_str(), entry.soname.as_str()) {
            self.entries.set(i, entry);
            proof {
                assert(sonames(self.entries@) =~= sonames(old_e));
                assert(self.entries@[i as int] == entry);
                assert forall|a: int, b: int| 0 <= a < b < self.entries@.len() implies text_less(
                    #[trigger] self.entries@[a].soname@,
                    #[trigger] self.entries@[b].soname@,
                ) by {
                    assert(self.entries@[a].soname@ == old_e[a].soname@);
                    assert(self.entries@[b].soname@ == old_e[b].soname@);
                }
                assert(sonames(old_e).to_set().contains(entry.soname@)) by {
                    assert(sonames(old_e)[i as int] == entry.soname@);
                }
                assert(sonames(self.entries@).to_set() =~= sonames(old_e).to_set().insert(entry.soname@));
                assert forall|k: int| 0 <= k < old_e.len() && old_e[k].soname@ != entry.soname@
                    implies self.entries@.contains(#[trigger] old_e[k]) by {
                    assert(k != i);
                    assert(self.entries@[k] == old_e[k]);
                }
            }
        } else {
            proof {
                if i < old_e.len() {
                    lemma_text_less_total(old_e[i as int].soname@, entry.soname@);
                }
            }
            self.entries.insert(i, entry);
            proof {
                let ne = self.entries@;
                assert(ne[i as int] == entry);
                assert forall|k: int| 0 <= k < ne.len() && k != i implies (#[trigger] ne[k]) == if k < i { old_e[k] } else { old_e[k - 1] } by {}
                assert forall|a: int, b: int| 0 <= a < b < ne.len() implies text_less(
                    #[trigger] ne[a].soname@,
                    #[trigger] ne[b].soname@,
                ) by {
                    if b == i {
                        assert(ne[a] == old_e[a]);
                    } else if a == i {
                        assert(ne[b] == old_e[b - 1]);
                        if b - 1 > i {
                            lemma_text_less_trans(entry.soname@, old_e[i as int].soname@, old_e[b - 1].soname@);
                        }
                    } else {
                        let oa = if a < i { a } else { a - 1 };
                        let ob = if b < i { b } else { b - 1 };
                        assert(ne[a] == old_e[oa]);
                        assert(ne[b] == old_e[ob]);
                    }
                }
                assert forall|x: Seq<char>| sonames(ne).to_set().contains(x) <==> sonames(old_e).to_set().insert(entry.soname@).contains(x) by {
                    if sonames(ne).contains(x) {
                        let k = choose|k: int| 0 <= k < sonames(ne).len() && sonames(ne)[k] == x;
                        if k != i {
                            let ok = if k < i { k } else { k - 1 };
                            assert(sonames(old_e)[ok] == x);
                        }
                    }
                    if sonames(old_e).contains(x) {
                        let k = choose|k: int| 0 <= k < sonames(old_e).len() && sonames(old_e)[k] == x;
                        let nk = if k < i { k } else { k + 1 };
                        assert(sonames(ne)[nk] == x);
                    }
                    if x == entry.soname@ {
                        assert(sonames(ne)[i as int] == x);
                    }
                }
                assert(sonames(ne).to_set() =~= sonames(old_e).to_set().insert(entry.soname@));
                assert forall|k: int| 0 <= k < old_e.len() && old_e[k].soname@ != entry.soname@
                    implies ne.contains(#[trigger] old_e[k]) by {
                    let nk = if k < i { k } else { k + 1 };
                    assert(ne[nk] == old_e[k]);
                }
            }
        }
        proof {
            lemma_place_map(old(self).entries@, self.entries@, entry);
        }
    }

    /// Removes the entry of `soname`, and the hash index entry of its hash;
    /// gives back the entry.
    pub fn remove(&mut self, soname: &str) -> (r: Option<SharedLibEntry>)
        requires
            old(self).wf(),
        ensures
            final(self).wf(),
            final(self).path_spec() == old(self).path_spec(),
            sorted(final(self).entries_spec()),
            !final(self).libs().contains_key(soname@),
            match r {
                Some(e) => old(self).libs().contains_key(soname@) && e == old(self).libs()[soname@]
                    && final(self).libs() == old(self).libs().remove(soname@)
                    && final(self).hash_index() == old(self).hash_index().remove(e.hash@)
                    && final(self).entries_spec() == old(self).entries_spec().remove_value(e),
                None => !old(self).libs().contains_key(soname@) && final(self).entries_spec() == old(self).entries_spec()
                    && final(self).hash_index() == old(self).hash_index(),
            },
    {
        match self.position(soname) {
            None => None,
            Some(i) => {
                let ghost old_e = self.entries@;
                let ghost idx0 = hash_map(self.hashes@);
                let e = self.entries.remove(i);
                proof {
                    assert(old_e[i as int] == e);
                    assert(self.entries@ == old_e.remove(i as int));
                    lemma_remove_map(old_e, i as int);
                    lemma_remove_value_sorted(old_e, i as int);
                    assert(old_e.contains(e));
                }
                self.unindex_hash(e.hash.as_str());
                proof {
                    let libs1 = soname_map(self.entries@);
                    let idx1 = hash_map(self.hashes@);
                    assert forall|h: Seq<char>| #[trigger] idx1.contains_key(h) implies libs1.contains_key(idx1[h]) && libs1[idx1[h]].hash@ == h by {
                        assert(idx0.contains_key(h) && idx1[h] == idx0[h]);
                    }
                }
                Some(e)
            },
        }
    }

    fn unindex_hash(&mut self, hash: &str)
        requires
            old(self).shape(),
        ensures
            final(self).shape(),
            final(self).entries == old(self).entries,
            final(self).path == old(self).path,
            hash_map(final(self).hashes@) == hash_map(old(self).hashes@).remove(hash@),
    {
        match self.hash_position(hash) {
            None => {
                proof {
                    assert(hash_map(self.hashes@).remove(hash@) =~= hash_map(self.hashes@));
                }
            },
            Some(k) => {
                let ghost before = self.hashes@;
                self.hashes.remove(k);
                proof {
                    lemma_hash_map_remove(before, k as int);
                    assert forall|a: int, b: int| 0 <= a < b < hash_keys(self.hashes@).len() implies hash_keys(self.hashes@)[a]
                        != hash_keys(self.hashes@)[b] by {
                        let oa = if a < k { a } else { a + 1 };
                        let ob = if b < k { b } else { b + 1 };
                        assert(hash_keys(self.hashes@)[a] == hash_keys(before)[oa]);
                        assert(hash_keys(self.hashes@)[b] == hash_keys(before)[ob]);
                    }
                }
            },
        }
    }

    /// All entries, in SONAME order: one per stored SONAME, each the entry
    /// stored under its SONAME.
    pub fn iter(&self) -> (r: Vec<&SharedLibEntry>)
        requires
            self.wf(),
        ensures
            r@.len() == self.entries_spec().len(),
            forall|i: int| 0 <= i < r@.len() ==> *(#[trigger] r@[i]) == self.entries_spec()[i],
            forall|i: int, j: int| 0 <= i < j < r@.len() ==> text_less((#[trigger] r@[i]).soname@, (#[trigger] r@[j]).soname@),
            forall|i: int| 0 <= i < r@.len() ==> self.libs().contains_key((#[trigger] r@[i]).soname@)
                && self.libs()[r@[i].soname@] == *r@[i],
            forall|n: Seq<char>| #[trigger] self.libs().contains_key(n) ==> exists|i: int| 0 <= i < r@.len() && (#[trigger] r@[i]).soname@ == n,
    {
        let mut r: Vec<&SharedLibEntry> = Vec::new();
        let mut i: usize = 0;
        while i < self.entries.len()
            invariant
                i <= self.entries@.len(),
                r@.len() == i,
                forall|k: int| 0 <= k < i ==> *(#[trigger] r@[k]) == self.entries@[k],
            decreases self.entries.len() - i,
        {
            r.push(&self.entries[i]);
            i += 1;
        }
        proof {
            self.lemma_wf();
            assert forall|n: Seq<char>| #[trigger] self.libs().contains_key(n) implies exists|i: int| 0 <= i < r@.len() && (#[trigger] r@[i]).soname@ == n by {
                let k = choose|k: int| 0 <= k < sonames(self.entries@).len() && sonames(self.entries@)[k] == n;
                assert(r@[k].soname@ == n);
            }
        }
        r
    }
}

/// The entries as a map from SONAME to entry.
pub open spec fn soname_map(s: Seq<SharedLibEntry>) -> Map<Seq<char>, SharedLibEntry> {
    Map::new(|n: Seq<char>| sonames(s).contains(n), |n: Seq<char>| s[sonames(s).index_of(n)])
}

/// Each indexed hash names a stored SONAME whose entry has that hash.
pub open spec fn index_consistent(idx: Map<Seq<char>, Seq<char>>, libs: Map<Seq<char>, SharedLibEntry>) -> bool {
    forall|h: Seq<char>| #[trigger] idx.contains_key(h) ==> libs.contains_key(idx[h]) && libs[idx[h]].hash@ == h
}

/// The hash index after `entry` is inserted into a store holding `libs`:
/// the index entry of the hash the SONAME had before goes, if it still
/// leads to that SONAME; then the new hash leads to the SONAME.
pub open spec fn reindexed(idx: Map<Seq<char>, Seq<char>>, libs: Map<Seq<char>, SharedLibEntry>, entry: SharedLibEntry) -> Map<Seq<char>, Seq<char>> {
    let n = entry.soname@;
    let cleared = if libs.contains_key(n) && idx.contains_key(libs[n].hash@) && idx[libs[n].hash@] == n {
        idx.remove(libs[n].hash@)
    } else {
        idx
    };
    cleared.insert(entry.hash@, n)
}

/// After `insert(entry)`, looking the entry up by its SONAME or by its hash
/// finds it, and every other SONAME is found as before.
pub proof fn lemma_insert_then_lookup(
    idx: Map<Seq<char>, Seq<char>>,
    libs: Map<Seq<char>, SharedLibEntry>,
    entry: SharedLibEntry,
    other: Seq<char>,
)
    ensures
        libs.insert(entry.soname@, entry).contains_key(entry.soname@),
        libs.insert(entry.soname@, entry)[entry.soname@] == entry,
        reindexed(idx, libs, entry).contains_key(entry.hash@),
        libs.insert(entry.soname@, entry)[reindexed(idx, libs, entry)[entry.hash@]] == entry,
        other != entry.soname@ ==> (libs.insert(entry.soname@, entry).contains_key(other) == libs.contains_key(other)
            && (libs.contains_key(other) ==> libs.insert(entry.soname@, entry)[other] == libs[other])),
{
}

/// After `insert(entry)` and then `remove` of its SONAME, the SONAME is
/// gone and the other SONAMEs are found as before the insert.
pub proof fn lemma_insert_then_remove(libs: Map<Seq<char>, SharedLibEntry>, entry: SharedLibEntry)
    ensures
        libs.insert(entry.soname@, entry)[entry.soname@] == entry,
        libs.insert(entry.soname@, entry).remove(entry.soname@) == libs.remove(entry.soname@),
{
    assert(libs.insert(entry.soname@, entry).remove(entry.soname@) =~= libs.remove(entry.soname@));
}

proof fn lemma_map_at(s: Seq<SharedLibEntry>, j: int)
    requires
        sorted(s),
        0 <= j < s.len(),
    ensures
        soname_map(s).contains_key(s[j].soname@),
        soname_map(s)[s[j].soname@] == s[j],
{
    let n = s[j].soname@;
    assert(sonames(s)[j] == n);
    let i = sonames(s).index_of(n);
    assert(0 <= i < s.len() && sonames(s)[i] == n);
    if i != j {
        if i < j {
            assert(text_less(s[i].soname@, s[j].soname@));
        } else {
            assert(text_less(s[j].soname@, s[i].soname@));
        }
        lemma_text_less_total(n, n);
    }
}

proof fn lemma_place_map(old_e: Seq<SharedLibEntry>, ne: Seq<SharedLibEntry>, entry: SharedLibEntry)
    requires
        sorted(old_e),
        sorted(ne),
        sonames(ne).to_set() == sonames(old_e).to_set().insert(entry.soname@),
        exists|i: int| 0 <= i < ne.len() && ne[i] == entry,
        forall|i: int| 0 <= i < old_e.len() && old_e[i].soname@ != entry.soname@ ==> ne.contains(#[trigger] old_e[i]),
    ensures
        soname_map(ne) == soname_map(old_e).insert(entry.soname@, entry),
{
    let m = soname_map(old_e).insert(entry.soname@, entry);
    assert forall|n: Seq<char>| soname_map(ne).contains_key(n) <==> m.contains_key(n) by {
        assert(sonames(ne).to_set().contains(n) <==> sonames(ne).contains(n));
        assert(sonames(old_e).to_set().contains(n) <==> sonames(old_e).contains(n));
    }
    assert forall|n: Seq<char>| #[trigger] soname_map(ne).contains_key(n) implies soname_map(ne)[n] == m[n] by {
        if n == entry.soname@ {
            let i = choose|i: int| 0 <= i < ne.len() && ne[i] == entry;
            lemma_map_at(ne, i);
        } else {
            assert(sonames(old_e).contains(n));
            let k = choose|k: int| 0 <= k < sonames(old_e).len() && sonames(old_e)[k] == n;
            lemma_map_at(old_e, k);
            assert(ne.contains(old_e[k]));
            let j = choose|j: int| 0 <= j < ne.len() && ne[j] == old_e[k];
            lemma_map_at(ne, j);
        }
    }
    assert(soname_map(ne) =~= m);
}

proof fn lemma_remove_map(s: Seq<SharedLibEntry>, i: int)
    requires
        sorted(s),
        0 <= i < s.len(),
    ensures
        sorted(s.remove(i)),
        soname_map(s.remove(i)) == soname_map(s).remove(s[i].soname@),
{
    let t = s.remove(i);
    let n = s[i].soname@;
    assert forall|a: int, b: int| 0 <= a < b < t.len() implies text_less(#[trigger] t[a].soname@, #[trigger] t[b].soname@) by {
        let oa = if a < i { a } else { a + 1 };
        let ob = if b < i { b } else { b + 1 };
        assert(t[a] == s[oa]);
        assert(t[b] == s[ob]);
    }
    let m = soname_map(s).remove(n);
    assert forall|x: Seq<char>| soname_map(t).contains_key(x) <==> m.contains_key(x) by {
        if sonames(t).contains(x) {
            let k = choose|k: int| 0 <= k < sonames(t).len() && sonames(t)[k] == x;
            let ok = if k < i { k } else { k + 1 };
            assert(sonames(s)[ok] == x);
            if x == n {
                if ok < i {
                    assert(text_less(s[ok].soname@, s[i].soname@));
                } else {
                    assert(text_less(s[i].soname@, s[ok].soname@));
                }
                lemma_text_less_total(n, n);
            }
        }
        if sonames(s).contains(x) && x != n {
            let k = choose|k: int| 0 <= k < sonames(s).len() && sonames(s)[k] == x;
            assert(k != i);
            let nk = if k < i { k } else { k - 1 };
            assert(sonames(t)[nk] == x);
        }
    }
    assert forall|x: Seq<char>| #[trigger] soname_map(t).contains_key(x) implies soname_map(t)[x] == m[x] by {
        let k = choose|k: int| 0 <= k < sonames(t).len() && sonames(t)[k] == x;
        let ok = if k < i { k } else { k + 1 };
        assert(t[k] == s[ok]);
        assert(sonames(t)[k] == t[k].soname@);
        lemma_map_at(t, k);
        lemma_map_at(s, ok);
        assert(m.contains_key(x));
        assert(x != n);
        assert(m[x] == soname_map(s)[x]);
    }
    assert(soname_map(t) =~= m);
}

proof fn lemma_hash_map_dom(s: Seq<(String, String)>)
    ensures
        forall|h: Seq<char>| hash_map(s).contains_key(h) <==> hash_keys(s).contains(h),
    decreases s.len(),
{
    if s.len() > 0 {
        lemma_hash_map_dom(s.drop_last());
        assert(hash_keys(s.drop_last()) =~= hash_keys(s).drop_last());
        assert forall|h: Seq<char>| hash_map(s).contains_key(h) <==> hash_keys(s).contains(h) by {
            if hash_keys(s).contains(h) && h != s.last().0@ {
                let i = choose|i: int| 0 <= i < hash_keys(s).len() && hash_keys(s)[i] == h;
                assert(i != s.len() - 1);
                assert(hash_keys(s.drop_last())[i] == h);
            }
            if h == s.last().0@ {
                assert(hash_keys(s)[s.len() - 1] == h);
            }
            if hash_keys(s.drop_last()).contains(h) {
                let i = choose|i: int| 0 <= i < hash_keys(s.drop_last()).len() && hash_keys(s.drop_last())[i] == h;
                assert(hash_keys(s)[i] == h);
            }
        }
    }
}

proof fn lemma_hash_map_at(s: Seq<(String, String)>, k: int)
    requires
        0 <= k < s.len(),
        hash_keys(s).no_duplicates(),
    ensures
        hash_map(s).contains_key(s[k].0@),
        hash_map(s)[s[k].0@] == s[k].1@,
    decreases s.len(),
{
    if k < s.len() - 1 {
        assert(hash_keys(s.drop_last()) =~= hash_keys(s).drop_last());
        lemma_hash_map_at(s.drop_last(), k);
        assert(hash_keys(s)[k] != hash_keys(s)[s.len() - 1]);
    }
}

proof fn lemma_hash_map_update(s: Seq<(String, String)>, k: int, e: (String, String))
    requires
        0 <= k < s.len(),
        hash_keys(s).no_duplicates(),
        e.0@ == s[k].0@,
    ensures
        hash_map(s.update(k, e)) == hash_map(s).insert(e.0@, e.1@),
    decreases s.len(),
{
    let t = s.update(k, e);
    if k == s.len() - 1 {
        assert(t.drop_last() =~= s.drop_last());
        assert(hash_map(t) =~= hash_map(s).insert(e.0@, e.1@));
    } else {
        assert(t.drop_last() =~= s.drop_last().update(k, e));
        assert(hash_keys(s.drop_last()) =~= hash_keys(s).drop_last());
        lemma_hash_map_update(s.drop_last(), k, e);
        assert(hash_keys(s)[k] != hash_keys(s)[s.len() - 1]);
        assert(hash_map(t) =~= hash_map(s).insert(e.0@, e.1@));
    }
}

proof fn lemma_hash_map_remove(s: Seq<(String, String)>, k: int)
    requires
        0 <= k < s.len(),
        hash_keys(s).no_duplicates(),
    ensures
        hash_map(s.remove(k)) == hash_map(s).remove(s[k].0@),
    decreases s.len(),
{
    let t = s.remove(k);
    if k == s.len() - 1 {
        assert(t =~= s.drop_last());
        lemma_hash_map_dom(s.drop_last());
        assert(hash_keys(s.drop_last()) =~= hash_keys(s).drop_last());
        assert(!hash_keys(s.drop_last()).contains(s[k].0@)) by {
            if hash_keys(s.drop_last()).contains(s[k].0@) {
                let i = choose|i: int| 0 <= i < hash_keys(s.drop_last()).len() && hash_keys(s.drop_last())[i] == s[k].0@;
                assert(hash_keys(s)[i] == hash_keys(s)[k]);
            }
        }
        assert(hash_map(t) =~= hash_map(s).remove(s[k].0@));
    } else {
        assert(t.drop_last() =~= s.drop_last().remove(k));
        assert(t.last() == s.last());
        assert(hash_keys(s.drop_last()) =~= hash_keys(s).drop_last());
        lemma_hash_map_remove(s.drop_last(), k);
        assert(hash_keys(s)[k] != hash_keys(s)[s.len() - 1]);
        assert(hash_map(t) =~= hash_map(s).remove(s[k].0@));
    }
}

proof fn lemma_remove_value_sorted(s: Seq<SharedLibEntry>, i: int)
    requires
        0 <= i < s.len(),
        sorted(s),
    ensures
        s.remove_value(s[i]) == s.remove(i),
{
    let x = s[i];
    assert(s.index_of_first(x) == Some(i)) by {
        let r = s.index_of_first(x);
        s.index_of_first_ensures(x);
        match r {
            Some(j) => {
                if j != i {
                    if j < i {
                        assert(text_less(s[j].soname@, s[i].soname@));
                    } else {
                        assert(text_less(s[i].soname@, s[j].soname@));
                    }
                    lemma_text_less_total(x.soname@, x.soname@);
                }
            },
            None => {
                assert(s.contains(x));
            },
        }
    }
}

// ---------------------------------------------------------------------------
// The store manager
// ---------------------------------------------------------------------------

/// A per-format origin directory.
#[derive(Debug, Clone)]
pub struct OriginStore {
    format: PackageFormat,
    path: String,
}

impl OriginStore {
    pub closed spec fn format_spec(&self) -> PackageFormat {
        self.format
    }

    pub closed spec fn path_spec(&self) -> Seq<char> {
        self.path@
    }

    pub fn format(&self) -> (f: &PackageFormat)
        ensures
            *f == self.format_spec(),
    {
        &self.format
    }

    pub fn path(&self) -> (p: &str)
        ensures
            p@ == self.path_spec(),
    {
        self.path.as_str()
    }
}

/// The store: one origin directory per format under `base`, and the shared
/// library store at `base/shared/libs`.
pub struct StoreManager {
    base: String,
    origins: Vec<OriginStore>,
    shared_libs: SharedLibStore,
}

impl StoreManager {
    pub closed spec fn base_spec(&self) -> Seq<char> {
        self.base@
    }

    pub closed spec fn wf(&self) -> bool {
        &&& self.shared_libs.wf()
        &&& self.origins@.len() == 3
        &&& forall|i: int| 0 <= i < 3 ==> (#[trigger] self.origins@[i]).path@ == path_join(
            self.base@,
            format_name(self.origins@[i].format),
        )
        &&& self.origins@[0].format == PackageFormat::Deb
        &&& self.origins@[1].format == PackageFormat::Rpm
        &&& self.origins@[2].format == PackageFormat::Sam
    }

    pub closed spec fn libs(&self) -> SharedLibStore {
        self.shared_libs
    }

    /// A store rooted at `base`.
    pub fn new(base: String) -> (s: StoreManager)
        ensures
            s.wf(),
            s.base_spec() == base@,
            s.libs().path_spec() == path_join(path_join(base@, "shared"@), "libs"@),
            s.libs().entries_spec().len() == 0,
    {
        let shared = join(base.as_str(), "shared");
        let libs_path = join(shared.as_str(), "libs");
        let mut origins: Vec<OriginStore> = Vec::new();
        let deb = PackageFormat::Deb.name();
        let rpm = PackageFormat::Rpm.name();
        let sam = PackageFormat::Sam.name();
        origins.push(OriginStore { format: PackageFormat::Deb, path: join(base.as_str(), deb.as_str()) });
        origins.push(OriginStore { format: PackageFormat::Rpm, path: join(base.as_str(), rpm.as_str()) });
        origins.push(OriginStore { format: PackageFormat::Sam, path: join(base.as_str(), sam.as_str()) });
        StoreManager { base, origins, shared_libs: SharedLibStore::new(libs_path) }
    }

    pub fn base(&self) -> (b: &str)
        ensures
            b@ == self.base_spec(),
    {
        self.base.as_str()
    }

    /// The origin store of a format (there is one for each).
    pub fn origin(&self, fmt: &PackageFormat) -> (r: Option<&OriginStore>)
        requires
            self.wf(),
        ensures
            r matches Some(o) && o.format_spec() == *fmt && o.path_spec() == path_join(self.base_spec(), format_name(*fmt)),
    {
        let i: usize = match fmt {
            PackageFormat::Deb => 0,
            PackageFormat::Rpm => 1,
            PackageFormat::Sam => 2,
        };
        Some(&self.origins[i])
    }

    pub fn shared_libs(&self) -> (s: &SharedLibStore)
        ensures
            *s == self.libs(),
    {
        &self.shared_libs
    }

    pub fn shared_libs_mut(&mut self) -> (s: &mut SharedLibStore)
        ensures
            *s == old(self).libs(),
            final(self).libs() == *final(s),
            final(self).base_spec() == old(self).base_spec(),
            old(self).wf() && final(s).wf() ==> final(self).wf(),
    {
        &mut self.shared_libs
    }
}

// ---------------------------------------------------------------------------
// Helpers
// ---------------------------------------------------------------------------

/// The package name in an origin hash: the text before the first `-`.
pub open spec fn pkg_name_of(origin_hash: Seq<char>) -> Seq<char> {
    origin_hash.take(idx_of(origin_hash, '-') as int)
}

pub fn extract_pkg_name(origin_hash: &str) -> (r: String)
    ensures
        r@ == pkg_name_of(origin_hash@),
{
    let v = chars_of(origin_hash);
    let k = crate::text::find_char(&v, 0, v.len(), '-');
    proof {
        assert(v@.subrange(0, v@.len() as int) =~= origin_hash@);
        assert(origin_hash@.take(k as int) =~= v@.subrange(0, k as int));
    }
    string_of(&v, 0, k)
}

/// The priority of a format as a provider (higher is preferred): native
/// packages first.
pub open spec fn format_priority(fmt: PackageFormat) -> u32 {
    match fmt {
        PackageFormat::Sam => 100,
        PackageFormat::Deb => 50,
        PackageFormat::Rpm => 50,
    }
}

pub fn priority_for_format(fmt: &PackageFormat) -> (p: u32)
    ensures
        p == format_priority(*fmt),
{
    match fmt {
        PackageFormat::Sam => 100,
        PackageFormat::Deb => 50,
        PackageFormat::Rpm => 50,
    }
}

} // verus!
