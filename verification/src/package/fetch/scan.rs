//! Scanning the files of an extracted package: the records to keep and the
//! packages whose files it would overwrite.
use vstd::prelude::*;
use crate::package::fetch::PackageConflict;
use crate::text::{owned, str_eq};
use crate::types::db::{FileAction, FileRecord};
use crate::types::package::{PackageFormat, PackageId};

verus! {

/// Which package owns each file path the database knows.
pub struct OwnerMap {
    entries: Vec<(String, PackageId)>,
}

pub open spec fn owner_keys(s: Seq<(String, PackageId)>) -> Seq<Seq<char>> {
    s.map_values(|e: (String, PackageId)| e.0@)
}

/// The owners as a map from path to package id.
pub open spec fn owner_map(s: Seq<(String, PackageId)>) -> Map<Seq<char>, (Seq<char>, PackageFormat, Seq<char>)>
    decreases s.len(),
{
    if s.len() == 0 {
        Map::empty()
    } else {
        owner_map(s.drop_last()).insert(s.last().0@, s.last().1@)
    }
}

proof fn lemma_owner_map(s: Seq<(String, PackageId)>, i: int)
    requires
        owner_keys(s).no_duplicates(),
        0 <= i < s.len(),
    ensures
        owner_map(s).contains_key(s[i].0@),
        owner_map(s)[s[i].0@] == s[i].1@,
    decreases s.len(),
{
    if i < s.len() - 1 {
        assert(owner_keys(s.drop_last()) =~= owner_keys(s).drop_last());
        lemma_owner_map(s.drop_last(), i);
        assert(owner_keys(s)[i] != owner_keys(s)[s.len() - 1]);
    }
}

proof fn lemma_owner_map_dom(s: Seq<(String, PackageId)>)
    ensures
        forall|k: Seq<char>| owner_map(s).contains_key(k) <==> owner_keys(s).contains(k),
    decreases s.len(),
{
    if s.len() > 0 {
        lemma_owner_map_dom(s.drop_last());
        assert(owner_keys(s.drop_last()) =~= owner_keys(s).drop_last());
        assert forall|k: Seq<char>| owner_map(s).contains_key(k) <==> owner_keys(s).contains(k) by {
            if owner_keys(s).contains(k) && k != s.last().0@ {
                let j = choose|j: int| 0 <= j < owner_keys(s).len() && owner_keys(s)[j] == k;
                assert(j != s.len() - 1);
                assert(owner_keys(s.drop_last())[j] == k);
            }
            if owner_keys(s.drop_last()).contains(k) {
                let j = choose|j: int| 0 <= j < owner_keys(s.drop_last()).len() && owner_keys(s.drop_last())[j] == k;
                assert(owner_keys(s)[j] == k);
            }
            if k == s.last().0@ {
                assert(owner_keys(s)[s.len() - 1] == k);
            }
        }
    }
}

impl OwnerMap {
    /// Each path is listed once.
    pub closed spec fn wf(&self) -> bool {
        owner_keys(self.entries@).no_duplicates()
    }

    pub closed spec fn view(&self) -> Map<Seq<char>, (Seq<char>, PackageFormat, Seq<char>)> {
        owner_map(self.entries@)
    }

    pub fn new() -> (m: OwnerMap)
        ensures
            m.wf(),
            m.view() == Map::<Seq<char>, (Seq<char>, PackageFormat, Seq<char>)>::empty(),
    {
        let m = OwnerMap { entries: Vec::new() };
        assert(owner_keys(m.entries@) =~= Seq::<Seq<char>>::empty());
        m
    }

    fn position(&self, path: &str) -> (r: Option<usize>)
        ensures
            match r {
                Some(i) => i < self.entries@.len() && self.entries@[i as int].0@ == path@,
                None => !owner_keys(self.entries@).contains(path@),
            },
    {
        let mut i: usize = 0;
        while i < self.entries.len()
            invariant
                i <= self.entries@.len(),
                forall|j: int| 0 <= j < i ==> self.entries@[j].0@ != path@,
            decreases self.entries.len() - i,
        {
            if str_eq(self.entries[i].0.as_str(), path) {
                return Some(i);
            }
            i += 1;
        }
        proof {
            if owner_keys(self.entries@).contains(path@) {
                let j = choose|j: int| 0 <= j < owner_keys(self.entries@).len() && owner_keys(self.entries@)[j] == path@;
                assert(self.entries@[j].0@ == path@);
            }
        }
        None
    }

    /// Records that `pid` owns `path` (replacing an earlier owner).
    pub fn insert(&mut self, path: String, pid: PackageId)
        requires
            old(self).wf(),
        ensures
            final(self).wf(),
            final(self).view() == old(self).view().insert(path@, pid@),
    {
        let ghost before = self.entries@;
        proof {
            lemma_owner_map_dom(before);
        }
        match self.position(path.as_str()) {
            Some(i) => {
                let e = (path, pid);
                self.entries.set(i, e);
                proof {
                    let after = self.entries@;
                    assert(owner_keys(after) =~= owner_keys(before));
                    lemma_owner_map_dom(after);
                    assert forall|k: Seq<char>| #![auto] owner_map(after).contains_key(k) implies owner_map(after)[k]
                        == owner_map(before).insert(e.0@, e.1@)[k] by {
                        assert(owner_keys(after).contains(k));
                        let j = choose|j: int| 0 <= j < owner_keys(after).len() && owner_keys(after)[j] == k;
                        assert(owner_keys(after).len() == after.len());
                        assert(after[j].0@ == k);
                        lemma_owner_map(after, j);
                        if j == i {
                            assert(after[j] == e);
                        } else {
                            assert(after[j] == before[j]);
                            assert(owner_keys(after)[j] != owner_keys(after)[i as int]);
                            lemma_owner_map(before, j);
                        }
                    }
                    assert(owner_keys(before)[i as int] == e.0@);
                    assert(owner_keys(before).contains(e.0@));
                    assert forall|k: Seq<char>| owner_map(after).contains_key(k) <==> owner_map(before).insert(
                        e.0@,
                        e.1@,
                    ).contains_key(k) by {
                        assert(owner_map(after).contains_key(k) == owner_keys(after).contains(k));
                        assert(owner_map(before).contains_key(k) == owner_keys(before).contains(k));
                    }
                    assert(owner_map(after) =~= owner_map(before).insert(e.0@, e.1@));
                }
            },
            None => {
                let e = (path, pid);
                self.entries.push(e);
                proof {
                    let after = self.entries@;
                    assert(after.drop_last() =~= before);
                    assert(owner_keys(after) =~= owner_keys(before).push(e.0@));
                }
            },
        }
    }

    /// The owner of `path`.
    pub fn get(&self, path: &str) -> (r: Option<&PackageId>)
        requires
            self.wf(),
        ensures
            match r {
                Some(p) => self.view().contains_key(path@) && self.view()[path@] == p@,
                None => !self.view().contains_key(path@),
            },
    {
        proof {
            lemma_owner_map_dom(self.entries@);
        }
        match self.position(path) {
            Some(i) => {
                proof {
                    lemma_owner_map(self.entries@, i as int);
                }
                Some(&self.entries[i].1)
            },
            None => None,
        }
    }
}

/// The package that owns `path`, if the database knows one.
pub fn lookup_owner(path: &str, map: &OwnerMap) -> (r: Result<PackageId, ()>)
    requires
        map.wf(),
    ensures
        match r {
            Ok(p) => map.view().contains_key(path@) && map.view()[path@] == p@,
            Err(()) => !map.view().contains_key(path@),
        },
{
    match map.get(path) {
        Some(p) => Ok(p.duplicate()),
        None => Err(()),
    }
}

/// A file of the extracted package: where it goes, its hash, and the hash
/// of the file already at that place, when there is one and it can be read.
pub struct ScannedFile {
    pub target: String,
    pub hash: String,
    pub existing_hash: Option<String>,
}

/// A conflict arises when a different file already stands at the place and
/// the database says another package owns it.
pub open spec fn conflict_owner(
    name: Seq<char>,
    format: PackageFormat,
    f: ScannedFile,
    owners: Map<Seq<char>, (Seq<char>, PackageFormat, Seq<char>)>,
) -> Option<(Seq<char>, PackageFormat, Seq<char>)> {
    match f.existing_hash {
        Some(h) => if h@ != f.hash@ && owners.contains_key(f.target@) && owners[f.target@] != (
            name,
            format,
            Seq::<char>::empty(),
        ) {
            Some(owners[f.target@])
        } else {
            None
        },
        None => None,
    }
}

pub open spec fn conflicts_run(
    name: Seq<char>,
    format: PackageFormat,
    fs: Seq<ScannedFile>,
    owners: Map<Seq<char>, (Seq<char>, PackageFormat, Seq<char>)>,
) -> Seq<Seq<char>>
    decreases fs.len(),
{
    if fs.len() == 0 {
        Seq::empty()
    } else {
        let rest = conflicts_run(name, format, fs.drop_last(), owners);
        match conflict_owner(name, format, fs.last(), owners) {
            Some(o) => rest.push(crate::types::package::package_key_text(o)),
            None => rest,
        }
    }
}

/// A file that cannot conflict: nothing readable stands at its place, what
/// stands there has the same content, no package owns the place, or the
/// package being installed owns it.
pub open spec fn quiet_file(
    name: Seq<char>,
    format: PackageFormat,
    f: ScannedFile,
    owners: Map<Seq<char>, (Seq<char>, PackageFormat, Seq<char>)>,
) -> bool {
    f.existing_hash is None || f.existing_hash->0@ == f.hash@ || !owners.contains_key(f.target@) || owners[f.target@] == (
        name,
        format,
        Seq::<char>::empty(),
    )
}

/// A file whose existing content differs from the new one and whose
/// recorded owner is another package (another name, or the same name in
/// another format) yields a conflict naming that owner; when no file can
/// conflict, there is no conflict.
pub proof fn law_overwritten_owner_conflicts(
    name: Seq<char>,
    format: PackageFormat,
    fs: Seq<ScannedFile>,
    owners: Map<Seq<char>, (Seq<char>, PackageFormat, Seq<char>)>,
    i: int,
)
    ensures
        0 <= i < fs.len() && fs[i].existing_hash is Some && fs[i].existing_hash->0@ != fs[i].hash@ && owners.contains_key(
            fs[i].target@,
        ) && (owners[fs[i].target@].0 != name || owners[fs[i].target@].1 != format) ==> conflicts_run(
            name,
            format,
            fs,
            owners,
        ).contains(crate::types::package::package_key_text(owners[fs[i].target@])),
        (forall|k: int| 0 <= k < fs.len() ==> quiet_file(name, format, #[trigger] fs[k], owners)) ==> conflicts_run(
            name,
            format,
            fs,
            owners,
        ).len() == 0,
    decreases fs.len(),
{
    if fs.len() > 0 {
        let pre = fs.drop_last();
        law_overwritten_owner_conflicts(name, format, pre, owners, i);
        if 0 <= i < fs.len() && fs[i].existing_hash is Some && fs[i].existing_hash->0@ != fs[i].hash@ && owners.contains_key(
            fs[i].target@,
        ) && (owners[fs[i].target@].0 != name || owners[fs[i].target@].1 != format) {
            let key = crate::types::package::package_key_text(owners[fs[i].target@]);
            if i == fs.len() - 1 {
                let r = conflicts_run(name, format, fs, owners);
                assert(r.last() == key);
            } else {
                assert(pre[i] == fs[i]);
                let rest = conflicts_run(name, format, pre, owners);
                let k = choose|k: int| 0 <= k < rest.len() && rest[k] == key;
                assert(conflicts_run(name, format, fs, owners)[k] == key);
            }
        }
        if forall|k: int| 0 <= k < fs.len() ==> quiet_file(name, format, #[trigger] fs[k], owners) {
            assert forall|k: int| 0 <= k < pre.len() implies quiet_file(name, format, #[trigger] pre[k], owners) by {
                assert(pre[k] == fs[k]);
            }
            assert(fs.last() == fs[fs.len() - 1]);
        }
    }
}

/// The record of a new file of package `name`.
pub open spec fn new_record(name: Seq<char>, format: PackageFormat, f: ScannedFile, r: FileRecord) -> bool {
    &&& r.id is None
    &&& r.transaction_id == 0
    &&& r.package@ == name
    &&& r.format == format
    &&& r.filepath@ == f.target@
    &&& r.hash@ == f.hash@
    &&& r.action == FileAction::Created
}

fn same_id(a: &PackageId, b: &PackageId) -> (r: bool)
    ensures
        r == (a@ == b@),
{
    str_eq(a.name.as_str(), b.name.as_str()) && a.format == b.format && str_eq(a.version.as_str(), b.version.as_str())
}

/// The records of the files of package `name` and the owners of the files
/// it would overwrite (as `name:format`, one per file, in order).
pub fn scan_records(name: &str, format: PackageFormat, files: &Vec<ScannedFile>, owners: &OwnerMap) -> (r: (
    Vec<FileRecord>,
    Vec<PackageConflict>,
))
    requires
        owners.wf(),
    ensures
        r.0@.len() == files@.len(),
        forall|i: int| 0 <= i < files@.len() ==> new_record(name@, format, files@[i], #[trigger] r.0@[i]),
        crate::package::fetch::owners_of(r.1@) == conflicts_run(name@, format, files@, owners.view()),
{
    let mut records: Vec<FileRecord> = Vec::new();
    let mut conflicts: Vec<PackageConflict> = Vec::new();
    let me = PackageId::new(name, format);
    let mut i: usize = 0;
    while i < files.len()
        invariant
            owners.wf(),
            me@ == (name@, format, Seq::<char>::empty()),
            i <= files@.len(),
            records@.len() == i,
            forall|j: int| 0 <= j < i ==> new_record(name@, format, files@[j], #[trigger] records@[j]),
            crate::package::fetch::owners_of(conflicts@) == conflicts_run(
                name@,
                format,
                files@.take(i as int),
                owners.view(),
            ),
        decreases files.len() - i,
    {
        let f = &files[i];
        let ghost before = crate::package::fetch::owners_of(conflicts@);
        proof {
            assert(files@.take(i + 1).drop_last() =~= files@.take(i as int));
            assert(files@.take(i + 1).last() == files@[i as int]);
        }
        match &f.existing_hash {
            Some(h) => {
                if !str_eq(h.as_str(), f.hash.as_str()) {
                    match lookup_owner(f.target.as_str(), owners) {
                        Ok(owner) => {
                            if !same_id(&owner, &me) {
                                let c = PackageConflict { owner: owner.package_key() };
                                conflicts.push(c);
                                proof {
                                    assert(crate::package::fetch::owners_of(conflicts@) =~= before.push(c.owner@));
                                }
                            }
                        },
                        Err(()) => {},
                    }
                }
            },
            None => {},
        }
        let rec = FileRecord {
            id: None,
            transaction_id: 0,
            package: owned(name),
            format,
            filepath: f.target.clone(),
            hash: f.hash.clone(),
            action: FileAction::Created,
        };
        records.push(rec);
        i += 1;
    }
    proof {
        assert(files@.take(i as int) =~= files@);
    }
    (records, conflicts)
}

} // verus!
