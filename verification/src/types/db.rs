//! Records kept in the package database.
use vstd::prelude::*;
use crate::text::{contains_str, strings_view};
use crate::types::package::{package_key_text, parse_package_key, PackageFormat, PackageId};

verus! {

/// Who installed a package.
#[derive(Debug, Clone, Copy, PartialEq, Eq, Structural)]
pub enum InstallOrigin {
    /// Installed by spm itself.
    Spm,
    /// Found on the system by a sync (installed through dpkg or rpm directly).
    Foreign,
}

/// The name `Display` gives an origin.
pub open spec fn install_origin_name(o: InstallOrigin) -> Seq<char> {
    match o {
        InstallOrigin::Spm => seq!['s', 'p', 'm'],
        InstallOrigin::Foreign => seq!['f', 'o', 'r', 'e', 'i', 'g', 'n'],
    }
}

impl InstallOrigin {
    /// `spm` or `foreign`.
    pub fn name(&self) -> (s: String)
        ensures
            s@ == install_origin_name(*self),
    {
        let mut s = String::new();
        match self {
            InstallOrigin::Spm => {
                s.push('s');
                s.push('p');
                s.push('m');
            },
            InstallOrigin::Foreign => {
                s.push('f');
                s.push('o');
                s.push('r');
                s.push('e');
                s.push('i');
                s.push('g');
                s.push('n');
            },
        }
        proof {
            assert(s@ =~= install_origin_name(*self));
        }
        s
    }
}

/// One recorded transaction.
#[derive(Debug, Clone)]
pub struct Transaction {
    pub id: Option<i64>,
    pub action: TransactionAction,
    pub timestamp: String,
    pub user: String,
    pub status: TransactionStatus,
    pub packages: Vec<String>,
    pub snapshot_id: Option<String>,
}

/// The package id a transaction entry names: `name:format` is read as such;
/// any other entry is a bare name of a `.sam` package.
pub open spec fn package_id_of_entry(s: Seq<char>) -> (Seq<char>, PackageFormat, Seq<char>) {
    match parse_package_key(s) {
        Some(id) => id,
        None => (s, PackageFormat::Sam, Seq::empty()),
    }
}

impl Transaction {
    /// The ids of the packages of the transaction, in order.
    pub fn package_ids(&self) -> (r: Vec<PackageId>)
        ensures
            r@.len() == self.packages@.len(),
            forall|i: int| 0 <= i < r@.len() ==> #[trigger] r@[i]@ == package_id_of_entry(self.packages@[i]@),
    {
        let mut r: Vec<PackageId> = Vec::new();
        let mut i: usize = 0;
        while i < self.packages.len()
            invariant
                i <= self.packages@.len(),
                r@.len() == i,
                forall|j: int| 0 <= j < i ==> #[trigger] r@[j]@ == package_id_of_entry(self.packages@[j]@),
            decreases self.packages.len() - i,
        {
            let s = &self.packages[i];
            let id = match PackageId::from_str(s.as_str()) {
                Some(p) => p,
                None => PackageId::new(s.as_str(), PackageFormat::Sam),
            };
            r.push(id);
            i += 1;
        }
        r
    }

    /// Records `pid` (as `name:format`) unless it is recorded already.
    pub fn add_package_id(&mut self, pid: &PackageId)
        ensures
            strings_view(final(self).packages@) == (if strings_view(old(self).packages@).contains(
                package_key_text(pid@),
            ) {
                strings_view(old(self).packages@)
            } else {
                strings_view(old(self).packages@).push(package_key_text(pid@))
            }),
            final(self).id == old(self).id,
            final(self).action == old(self).action,
            final(self).timestamp == old(self).timestamp,
            final(self).user == old(self).user,
            final(self).status == old(self).status,
            final(self).snapshot_id == old(self).snapshot_id,
    {
        let s = pid.package_key();
        if !contains_str(&self.packages, s.as_str()) {
            self.packages.push(s);
            proof {
                assert(strings_view(self.packages@) =~= strings_view(old(self).packages@).push(
                    package_key_text(pid@),
                ));
            }
        }
    }
}

/// What a transaction did.
#[derive(Debug, Clone, Copy, PartialEq, Eq, Structural)]
pub enum TransactionAction {
    Install,
    Remove,
    Upgrade,
    Purge,
}

/// How a transaction ended.
#[derive(Debug, Clone, Copy, PartialEq, Eq, Structural)]
pub enum TransactionStatus {
    Completed,
    Undone,
    Failed,
}

/// A file that a transaction touched.
#[derive(Debug, Clone)]
pub struct FileRecord {
    pub id: Option<i64>,
    pub transaction_id: i64,
    pub package: String,
    pub format: PackageFormat,
    pub filepath: String,
    pub hash: String,
    pub action: FileAction,
}

/// What happened to a file.
#[derive(Debug, Clone, Copy, PartialEq, Eq, Structural)]
pub enum FileAction {
    Created,
    Modified,
    Deleted,
}

/// A package the database knows as installed.
#[derive(Debug, Clone)]
pub struct InstalledPackage {
    pub name: String,
    pub version: String,
    pub format: PackageFormat,
    pub install_type: InstallType,
    pub manifest: Option<String>,
    pub install_date: String,
    pub source_repo: Option<String>,
    pub store_hash: Option<String>,
    pub origin: InstallOrigin,
}

/// Whether a package is installed into the system or into a sandbox.
#[derive(Debug, Clone, Copy, PartialEq, Eq, Structural)]
pub enum InstallType {
    Native,
    Sandbox,
}

} // verus!
