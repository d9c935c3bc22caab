//! Packages, package identities, dependencies and manifests.
use vstd::prelude::*;
use crate::text::{strings_view, chars_of, eq_ignore_case, last_idx_of, lower_ascii, push_range, rfind_char, string_of, to_lower_ascii};

verus! {

/// The archive format a package comes in.
#[derive(Debug, Clone, Copy, PartialEq, Eq, Hash, Structural)]
pub enum PackageFormat {
    Deb,
    Rpm,
    Sam,
}

impl Default for PackageFormat {
    fn default() -> (r: Self)
        ensures
            r == PackageFormat::Deb,
    {
        PackageFormat::Deb
    }
}

/// The name `Display` gives a format.
pub open spec fn format_name(f: PackageFormat) -> Seq<char> {
    match f {
        PackageFormat::Deb => seq!['d', 'e', 'b'],
        PackageFormat::Rpm => seq!['r', 'p', 'm'],
        PackageFormat::Sam => seq!['s', 'a', 'm'],
    }
}

impl PackageFormat {
    /// The lower-case name of the format (`deb`, `rpm` or `sam`).
    pub fn name(&self) -> (s: String)
        ensures
            s@ == format_name(*self),
    {
        let mut s = String::new();
        match self {
            PackageFormat::Deb => {
                s.push('d');
                s.push('e');
                s.push('b');
            },
            PackageFormat::Rpm => {
                s.push('r');
                s.push('p');
                s.push('m');
            },
            PackageFormat::Sam => {
                s.push('s');
                s.push('a');
                s.push('m');
            },
        }
        proof {
            assert(s@ =~= format_name(*self));
        }
        s
    }
}

/// Where a dependency is expected to come from.
#[derive(Debug, Clone, Copy, PartialEq, Eq, Structural)]
pub enum DependencySource {
    System,
    Spm,
    Sandbox,
}

#[derive(Debug, Clone)]
pub struct Dependency {
    pub name: String,
    pub version: String,
    pub source: DependencySource,
    pub format: Option<PackageFormat>,
}

pub struct DependencyView {
    pub name: Seq<char>,
    pub version: Seq<char>,
    pub source: DependencySource,
    pub format: Option<PackageFormat>,
}

impl View for Dependency {
    type V = DependencyView;

    open spec fn view(&self) -> DependencyView {
        DependencyView {
            name: self.name@,
            version: self.version@,
            source: self.source,
            format: self.format,
        }
    }
}

/// The views of a list of dependencies.
pub open spec fn deps_view(v: Seq<Dependency>) -> Seq<DependencyView> {
    v.map_values(|d: Dependency| d@)
}

/// A package as described by its control data.
#[derive(Debug, Clone)]
pub struct Package {
    pub name: String,
    pub version: String,
    pub architecture: String,
    pub maintainer: String,
    pub description: String,
    pub dependencies: Vec<Dependency>,
    pub conflicts: Vec<String>,
    pub provides: Vec<String>,
    pub recommends: Vec<String>,
    pub install_size: u64,
    pub format: PackageFormat,
    pub source_repo: Option<String>,
}

pub struct PackageView {
    pub name: Seq<char>,
    pub version: Seq<char>,
    pub architecture: Seq<char>,
    pub maintainer: Seq<char>,
    pub description: Seq<char>,
    pub dependencies: Seq<DependencyView>,
    pub conflicts: Seq<Seq<char>>,
    pub provides: Seq<Seq<char>>,
    pub recommends: Seq<Seq<char>>,
    pub install_size: u64,
    pub format: PackageFormat,
    pub source_repo: Option<Seq<char>>,
}

pub open spec fn opt_view(o: Option<String>) -> Option<Seq<char>> {
    match o {
        Some(s) => Some(s@),
        None => None,
    }
}

impl View for Package {
    type V = PackageView;

    open spec fn view(&self) -> PackageView {
        PackageView {
            name: self.name@,
            version: self.version@,
            architecture: self.architecture@,
            maintainer: self.maintainer@,
            description: self.description@,
            dependencies: deps_view(self.dependencies@),
            conflicts: strings_view(self.conflicts@),
            provides: strings_view(self.provides@),
            recommends: strings_view(self.recommends@),
            install_size: self.install_size,
            format: self.format,
            source_repo: opt_view(self.source_repo),
        }
    }
}

/// The package with every field empty or zero.
pub open spec fn empty_package(format: PackageFormat, source_repo: Option<Seq<char>>) -> PackageView {
    PackageView {
        name: Seq::empty(),
        version: Seq::empty(),
        architecture: Seq::empty(),
        maintainer: Seq::empty(),
        description: Seq::empty(),
        dependencies: Seq::empty(),
        conflicts: Seq::empty(),
        provides: Seq::empty(),
        recommends: Seq::empty(),
        install_size: 0,
        format,
        source_repo,
    }
}

/// A copy of a list of strings.
pub fn copy_strings(v: &Vec<String>) -> (r: Vec<String>)
    ensures
        strings_view(r@) == strings_view(v@),
{
    let mut r: Vec<String> = Vec::new();
    let mut i: usize = 0;
    while i < v.len()
        invariant
            i <= v@.len(),
            strings_view(r@) == strings_view(v@).take(i as int),
        decreases v.len() - i,
    {
        let ghost before = strings_view(r@);
        r.push(v[i].clone());
        proof {
            assert(strings_view(r@) =~= before.push(v@[i as int]@));
            assert(strings_view(v@).take(i + 1) =~= strings_view(v@).take(i as int).push(v@[i as int]@));
        }
        i += 1;
    }
    assert(strings_view(v@).take(i as int) =~= strings_view(v@));
    r
}

impl Dependency {
    /// A copy of this dependency.
    pub fn duplicate(&self) -> (d: Dependency)
        ensures
            d@ == self@,
    {
        Dependency { name: self.name.clone(), version: self.version.clone(), source: self.source, format: self.format }
    }
}

/// A copy of a list of dependencies.
pub fn copy_deps(v: &Vec<Dependency>) -> (r: Vec<Dependency>)
    ensures
        deps_view(r@) == deps_view(v@),
{
    let mut r: Vec<Dependency> = Vec::new();
    let mut i: usize = 0;
    while i < v.len()
        invariant
            i <= v@.len(),
            deps_view(r@) == deps_view(v@).take(i as int),
        decreases v.len() - i,
    {
        let ghost before = deps_view(r@);
        let d = v[i].duplicate();
        r.push(d);
        proof {
            assert(deps_view(r@) =~= before.push(v@[i as int]@));
            assert(deps_view(v@).take(i + 1) =~= deps_view(v@).take(i as int).push(v@[i as int]@));
        }
        i += 1;
    }
    assert(deps_view(v@).take(i as int) =~= deps_view(v@));
    r
}

impl Package {
    /// A copy of this package.
    pub fn duplicate(&self) -> (p: Package)
        ensures
            p@ == self@,
    {
        Package {
            name: self.name.clone(),
            version: self.version.clone(),
            architecture: self.architecture.clone(),
            maintainer: self.maintainer.clone(),
            description: self.description.clone(),
            dependencies: copy_deps(&self.dependencies),
            conflicts: copy_strings(&self.conflicts),
            provides: copy_strings(&self.provides),
            recommends: copy_strings(&self.recommends),
            install_size: self.install_size,
            format: self.format,
            source_repo: match &self.source_repo {
                Some(s) => Some(s.clone()),
                None => None,
            },
        }
    }

    /// An empty package of the given format.
    pub fn empty(format: PackageFormat, source_repo: Option<String>) -> (p: Package)
        ensures
            p@ == empty_package(format, opt_view(source_repo)),
    {
        let p = Package {
            name: String::new(),
            version: String::new(),
            architecture: String::new(),
            maintainer: String::new(),
            description: String::new(),
            dependencies: Vec::new(),
            conflicts: Vec::new(),
            provides: Vec::new(),
            recommends: Vec::new(),
            install_size: 0,
            format,
            source_repo,
        };
        proof {
            assert(deps_view(p.dependencies@) =~= Seq::empty());
            assert(strings_view(p.conflicts@) =~= Seq::empty());
            assert(strings_view(p.provides@) =~= Seq::empty());
            assert(strings_view(p.recommends@) =~= Seq::empty());
        }
        p
    }
}

impl Default for Package {
    fn default() -> (p: Package)
        ensures
            p@ == empty_package(PackageFormat::Deb, None),
    {
        Package::empty(PackageFormat::Deb, None)
    }
}

/// A package's identity: name, format and (possibly empty) version.
#[derive(Debug, Clone, PartialEq, Eq, Hash)]
pub struct PackageId {
    pub name: String,
    pub format: PackageFormat,
    pub version: String,
}

impl View for PackageId {
    type V = (Seq<char>, PackageFormat, Seq<char>);

    open spec fn view(&self) -> (Seq<char>, PackageFormat, Seq<char>) {
        (self.name@, self.format, self.version@)
    }
}

/// The text `Display` gives a package id: `name:format`.
pub open spec fn package_key_text(id: (Seq<char>, PackageFormat, Seq<char>)) -> Seq<char> {
    id.0 + seq![':'] + format_name(id.1)
}

/// The format that a format name stands for, whatever its ASCII case.
pub open spec fn format_of_name(s: Seq<char>) -> Option<PackageFormat> {
    if eq_ignore_case(s, format_name(PackageFormat::Deb)) {
        Some(PackageFormat::Deb)
    } else if eq_ignore_case(s, format_name(PackageFormat::Rpm)) {
        Some(PackageFormat::Rpm)
    } else if eq_ignore_case(s, format_name(PackageFormat::Sam)) {
        Some(PackageFormat::Sam)
    } else {
        None
    }
}

/// What `PackageId::from_str` reads from `name:format`: the name is all
/// before the last `:`; the version is empty.
pub open spec fn parse_package_key(s: Seq<char>) -> Option<(Seq<char>, PackageFormat, Seq<char>)> {
    match last_idx_of(s, ':') {
        Some(k) => match format_of_name(s.skip((k + 1) as int)) {
            Some(f) => Some((s.take(k as int), f, Seq::empty())),
            None => None,
        },
        None => None,
    }
}

/// Whether `v[lo..hi]` equals `name` ignoring ASCII case.
fn eq_name_ignore_case(v: &Vec<char>, lo: usize, hi: usize, n0: char, n1: char, n2: char) -> (b: bool)
    requires
        lo <= hi <= v.len(),
        lower_ascii(n0) == n0,
        lower_ascii(n1) == n1,
        lower_ascii(n2) == n2,
    ensures
        b == eq_ignore_case(v@.subrange(lo as int, hi as int), seq![n0, n1, n2]),
{
    let ghost s = v@.subrange(lo as int, hi as int);
    let ghost name = seq![n0, n1, n2];
    if hi - lo != 3 {
        return false;
    }
    let b = to_lower_ascii(v[lo]) == n0 && to_lower_ascii(v[lo + 1]) == n1 && to_lower_ascii(v[lo + 2]) == n2;
    proof {
        assert(s[0] == v@[lo as int]);
        assert(s[1] == v@[lo + 1]);
        assert(s[2] == v@[lo + 2]);
        if b {
            assert forall|i: int| 0 <= i < s.len() implies lower_ascii(#[trigger] s[i]) == lower_ascii(name[i]) by {
                if i == 0 {
                } else if i == 1 {
                } else {
                }
            }
        } else {
            if lower_ascii(s[0]) != lower_ascii(name[0]) {
            } else if lower_ascii(s[1]) != lower_ascii(name[1]) {
            } else {
                assert(lower_ascii(s[2]) != lower_ascii(name[2]));
            }
        }
    }
    b
}

impl PackageId {
    pub fn new(name: &str, format: PackageFormat) -> (p: PackageId)
        ensures
            p@ == (name@, format, Seq::<char>::empty()),
    {
        let v = chars_of(name);
        let name = string_of(&v, 0, v.len());
        proof {
            assert(v@.subrange(0, v@.len() as int) =~= v@);
        }
        PackageId { name, format, version: String::new() }
    }

    pub fn new_v(name: &str, format: PackageFormat, version: &str) -> (p: PackageId)
        ensures
            p@ == (name@, format, version@),
    {
        let v = chars_of(name);
        let w = chars_of(version);
        proof {
            assert(v@.subrange(0, v@.len() as int) =~= v@);
            assert(w@.subrange(0, w@.len() as int) =~= w@);
        }
        PackageId { name: string_of(&v, 0, v.len()), format, version: string_of(&w, 0, w.len()) }
    }

    /// A copy of this id.
    pub fn duplicate(&self) -> (p: PackageId)
        ensures
            p@ == self@,
    {
        PackageId { name: self.name.clone(), format: self.format, version: self.version.clone() }
    }

    /// `name:format`, as `Display` writes it.
    pub fn package_key(&self) -> (s: String)
        ensures
            s@ == package_key_text(self@),
    {
        let v = chars_of(self.name.as_str());
        let mut s = String::new();
        push_range(&mut s, &v, 0, v.len());
        s.push(':');
        let f = self.format.name();
        let fv = chars_of(f.as_str());
        push_range(&mut s, &fv, 0, fv.len());
        proof {
            assert(v@.subrange(0, v@.len() as int) =~= v@);
            assert(fv@.subrange(0, fv@.len() as int) =~= fv@);
            assert(s@ =~= package_key_text(self@));
        }
        s
    }

    /// Reads `name:format`; `None` when there is no `:` or the text after the
    /// last one is not a format name.
    pub fn from_str(s: &str) -> (r: Option<PackageId>)
        ensures
            match parse_package_key(s@) {
                Some(id) => r matches Some(p) && p@ == id,
                None => r is None,
            },
    {
        let v = chars_of(s);
        let n = v.len();
        proof {
            assert(v@.subrange(0, n as int) =~= s@);
        }
        match rfind_char(&v, 0, n, ':') {
            None => None,
            Some(k) => {
                proof {
                    assert(s@.skip(k + 1) =~= v@.subrange(k + 1, n as int));
                    assert(s@.take(k as int) =~= v@.subrange(0, k as int));
                }
                let format = if eq_name_ignore_case(&v, k + 1, n, 'd', 'e', 'b') {
                    PackageFormat::Deb
                } else if eq_name_ignore_case(&v, k + 1, n, 'r', 'p', 'm') {
                    PackageFormat::Rpm
                } else if eq_name_ignore_case(&v, k + 1, n, 's', 'a', 'm') {
                    PackageFormat::Sam
                } else {
                    return None;
                };
                Some(PackageId { name: string_of(&v, 0, k), format, version: String::new() })
            },
        }
    }
}

/// A system user or group that a package needs.
#[derive(Debug, Clone, Copy, PartialEq, Eq, Structural)]
pub enum SysuserType {
    User,
    Group,
    Uuid,
}

#[derive(Debug, Clone)]
pub struct SysuserEntry {
    pub name: String,
    pub entry_type: SysuserType,
    pub id: Option<String>,
    pub description: Option<String>,
    pub home: Option<String>,
    pub shell: Option<String>,
}

#[derive(Debug, Clone)]
pub struct TmpfileEntry {
    pub path: String,
    pub mode: String,
    pub uid: String,
    pub gid: String,
    pub age: Option<String>,
    pub argument: Option<String>,
}

/// A trigger: a script to run when a package matching `pattern` is
/// installed, removed or updated (`on`).
#[derive(Debug, Clone)]
pub struct Trigger {
    pub on: String,
    pub pattern: String,
    pub script: String,
}

#[derive(Debug, Clone)]
pub struct PackageSource {
    pub original_format: String,
    pub original_package: String,
    pub repo: String,
    pub hash_original: String,
}

#[derive(Debug, Clone)]
pub struct AiMetadata {
    pub converted: bool,
    pub conversion_date: String,
    pub dependencies_verified: bool,
    pub conflicts_resolved: Vec<String>,
    pub sandbox_required: bool,
}

#[derive(Debug, Clone)]
pub struct PackageSignature {
    pub algorithm: String,
    pub key_id: String,
    pub value: String,
}

/// The manifest stored with a `.sam` package.
#[derive(Debug, Clone)]
pub struct Manifest {
    pub name: String,
    pub version: String,
    pub architecture: String,
    pub maintainer: String,
    pub description: String,
    pub dependencies: Vec<Dependency>,
    pub conflicts: Vec<String>,
    pub provides: Vec<String>,
    pub recommends: Vec<String>,
    pub install_size: u64,
    pub format_version: u32,
    pub source: Option<PackageSource>,
    pub ai_metadata: Option<AiMetadata>,
    pub signature: Option<PackageSignature>,
    /// Systemd unit files shipped by this package.
    pub systemd_units: Vec<String>,
    /// System user/group definitions.
    pub sysusers: Vec<SysuserEntry>,
    /// tmpfiles.d entries.
    pub tmpfiles: Vec<TmpfileEntry>,
    /// Trigger definitions (run on other package install/remove).
    pub triggers: Vec<Trigger>,
    /// Packages this package obsoletes.
    pub obsoletes: Vec<String>,
    /// Configuration files shipped by this package.
    pub conffiles: Vec<String>,
}

impl Manifest {
    /// A manifest with only a name and a version; everything else is empty.
    pub fn named(name: String, version: String) -> (m: Manifest)
        ensures
            m.name == name,
            m.version == version,
            m.architecture@ == Seq::<char>::empty(),
            m.dependencies@.len() == 0,
            m.install_size == 0,
            m.format_version == 0,
            m.source is None,
            m.signature is None,
            m.systemd_units@.len() == 0,
            m.sysusers@.len() == 0,
            m.tmpfiles@.len() == 0,
            m.triggers@.len() == 0,
            m.obsoletes@.len() == 0,
            m.conffiles@.len() == 0,
    {
        Manifest {
            name,
            version,
            architecture: String::new(),
            maintainer: String::new(),
            description: String::new(),
            dependencies: Vec::new(),
            conflicts: Vec::new(),
            provides: Vec::new(),
            recommends: Vec::new(),
            install_size: 0,
            format_version: 0,
            source: None,
            ai_metadata: None,
            signature: None,
            systemd_units: Vec::new(),
            sysusers: Vec::new(),
            tmpfiles: Vec::new(),
            triggers: Vec::new(),
            obsoletes: Vec::new(),
            conffiles: Vec::new(),
        }
    }
}

impl Default for Manifest {
    fn default() -> (m: Manifest)
        ensures
            m.name@ == Seq::<char>::empty(),
            m.version@ == Seq::<char>::empty(),
            m.dependencies@.len() == 0,
            m.install_size == 0,
            m.format_version == 0,
            m.conffiles@.len() == 0,
    {
        Manifest::named(String::new(), String::new())
    }
}

/// The views of a list of package ids.
pub open spec fn ids_view(v: Seq<PackageId>) -> Seq<(Seq<char>, PackageFormat, Seq<char>)> {
    v.map_values(|p: PackageId| p@)
}

/// A copy of a list of package ids.
pub fn duplicate_ids(v: &Vec<PackageId>) -> (r: Vec<PackageId>)
    ensures
        ids_view(r@) == ids_view(v@),
{
    let mut r: Vec<PackageId> = Vec::new();
    let mut i: usize = 0;
    while i < v.len()
        invariant
            i <= v@.len(),
            ids_view(r@) == ids_view(v@.take(i as int)),
        decreases v.len() - i,
    {
        let ghost before = ids_view(r@);
        r.push(v[i].duplicate());
        proof {
            assert(ids_view(r@) =~= before.push(v@[i as int]@));
            assert(ids_view(v@.take(i + 1)) =~= ids_view(v@.take(i as int)).push(v@[i as int]@));
        }
        i += 1;
    }
    assert(v@.take(v@.len() as int) =~= v@);
    r
}

} // verus!
