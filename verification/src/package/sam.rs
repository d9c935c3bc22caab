//! The `.sam` package file: `SAM1`, the manifest's length (little-endian
//! `u32`), the manifest as JSON, then the zstd-compressed data archive and,
//! optionally, the zstd-compressed metadata archive.
use vstd::prelude::*;
use crate::error::SpmError;
use crate::package::extract::codec::{zstd_compress, zstd_encode};
use crate::package::fetch::trim_end_slashes;
use crate::text::{owned, push_str, str_eq, strings_view};
use crate::types::package::{copy_deps, copy_strings, deps_view, Manifest, Package, PackageFormat, PackageSource};
use crate::util::fs::{elf_magic, has_elf_magic};
use crate::util::hash::{blake3_digest, hash_bytes, hex_text};

verus! {

// ---------------------------------------------------------------------------
// Framing
// ---------------------------------------------------------------------------

pub open spec fn sam_magic() -> Seq<u8> {
    seq![0x53u8, 0x41u8, 0x4du8, 0x31u8]
}

/// The little-endian `u32` at `p`.
pub open spec fn le32(s: Seq<u8>, p: int) -> nat {
    (s[p] + s[p + 1] * 0x100 + s[p + 2] * 0x10000 + s[p + 3] * 0x1000000) as nat
}

/// Where the manifest of a `.sam` file lies (it starts at byte 8), or the
/// message of the first read that fails: the magic, the length, the
/// manifest.
pub open spec fn sam_manifest_range(d: Seq<u8>) -> Result<(nat, nat), Seq<char>> {
    if d.len() < 4 {
        Err("Failed to read magic: failed to fill whole buffer"@)
    } else if d.take(4) != sam_magic() {
        Err("Invalid .sam file: bad magic"@)
    } else if d.len() < 8 {
        Err("Failed to read manifest length: failed to fill whole buffer"@)
    } else if d.len() < 8 + le32(d, 4) {
        Err("Failed to read manifest: failed to fill whole buffer"@)
    } else {
        Ok((8, le32(d, 4)))
    }
}

/// The start and length of the manifest of the `.sam` file `d`.
pub fn sam_manifest(d: &[u8]) -> (r: Result<(usize, usize), SpmError>)
    ensures
        match sam_manifest_range(d@) {
            Ok((s, n)) => r matches Ok(x) && x.0 == s && x.1 == n,
            Err(m) => r matches Err(SpmError::InvalidFormat(t)) && t@ == m,
        },
{
    if d.len() < 4 {
        return Err(SpmError::InvalidFormat(owned("Failed to read magic: failed to fill whole buffer")));
    }
    if !(d[0] == 0x53 && d[1] == 0x41 && d[2] == 0x4d && d[3] == 0x31) {
        proof {
            if d@.take(4) == sam_magic() {
                assert(d@.take(4)[0] == d@[0]);
                assert(d@.take(4)[1] == d@[1]);
                assert(d@.take(4)[2] == d@[2]);
                assert(d@.take(4)[3] == d@[3]);
            }
        }
        return Err(SpmError::InvalidFormat(owned("Invalid .sam file: bad magic")));
    }
    assert(d@.take(4) =~= sam_magic());
    if d.len() < 8 {
        return Err(SpmError::InvalidFormat(owned("Failed to read manifest length: failed to fill whole buffer")));
    }
    let n: u64 = (d[4] as u64) + (d[5] as u64) * 0x100 + (d[6] as u64) * 0x10000 + (d[7] as u64) * 0x1000000;
    if (d.len() as u64) - 8 < n {
        return Err(SpmError::InvalidFormat(owned("Failed to read manifest: failed to fill whole buffer")));
    }
    Ok((8, n as usize))
}

fn push_all(out: &mut Vec<u8>, b: &[u8])
    ensures
        final(out)@ == old(out)@ + b@,
{
    let ghost start = out@;
    let mut i: usize = 0;
    while i < b.len()
        invariant
            i <= b@.len(),
            out@ == start + b@.take(i as int),
        decreases b.len() - i,
    {
        out.push(b[i]);
        proof {
            assert(b@.take(i + 1) =~= b@.take(i as int).push(b@[i as int]));
        }
        i += 1;
    }
    proof {
        assert(b@.take(b@.len() as int) =~= b@);
    }
}

pub open spec fn le32_bytes(n: nat) -> Seq<u8> {
    seq![(n % 0x100) as u8, ((n / 0x100) % 0x100) as u8, ((n / 0x10000) % 0x100) as u8, ((n / 0x1000000) % 0x100) as u8]
}

/// The message of a failed compression step.
pub open spec fn zstd_step_text(step: u8, e: Seq<char>) -> Seq<char> {
    (if step == 0 {
        "Failed to create zstd encoder: "@
    } else if step == 1 {
        "Failed to compress data: "@
    } else {
        "Failed to finish zstd stream: "@
    }) + e
}

/// The bytes of a `.sam` file with manifest `manifest_json`, data archive
/// `data` and metadata archive `meta`, both compressed at level 3; or the
/// error of the first compression that fails.
pub open spec fn sam_file(manifest_json: Seq<u8>, data: Seq<u8>, meta: Option<Seq<u8>>) -> Option<Seq<u8>> {
    match zstd_encode(data, 3) {
        None => None,
        Some(dz) => {
            let head = sam_magic() + le32_bytes(manifest_json.len()) + manifest_json + dz;
            match meta {
                None => Some(head),
                Some(m) => match zstd_encode(m, 3) {
                    None => None,
                    Some(mz) => Some(head + mz),
                },
            }
        },
    }
}

fn compress3(data: &[u8]) -> (r: Result<Vec<u8>, SpmError>)
    ensures
        r matches Ok(v) ==> zstd_encode(data@, 3) == Some(v@),
        r matches Err(e) ==> zstd_encode(data@, 3) is None && e is Compression,
{
    match zstd_compress(data, 3) {
        Ok(v) => Ok(v),
        Err((step, e)) => {
            let mut m = String::new();
            if step == 0 {
                push_str(&mut m, "Failed to create zstd encoder: ");
            } else if step == 1 {
                push_str(&mut m, "Failed to compress data: ");
            } else {
                push_str(&mut m, "Failed to finish zstd stream: ");
            }
            push_str(&mut m, e.as_str());
            Err(SpmError::Compression(m))
        },
    }
}

/// Builds a `.sam` file.
pub fn create_sam_bytes(manifest_json: &[u8], data: &[u8], meta: Option<&[u8]>) -> (r: Result<Vec<u8>, SpmError>)
    requires
        manifest_json@.len() <= u32::MAX,
    ensures
        match sam_file(manifest_json@, data@, match meta { Some(m) => Some(m@), None => None }) {
            Some(f) => r matches Ok(v) && v@ == f,
            None => r matches Err(e) && e is Compression,
        },
{
    let dz = compress3(data)?;
    let mut out: Vec<u8> = Vec::new();
    out.push(0x53);
    out.push(0x41);
    out.push(0x4d);
    out.push(0x31);
    let n = manifest_json.len();
    out.push((n % 0x100) as u8);
    out.push(((n / 0x100) % 0x100) as u8);
    out.push(((n / 0x10000) % 0x100) as u8);
    out.push(((n / 0x1000000) % 0x100) as u8);
    assert(out@ =~= sam_magic() + le32_bytes(manifest_json@.len()));
    push_all(&mut out, manifest_json);
    push_all(&mut out, dz.as_slice());
    match meta {
        None => Ok(out),
        Some(m) => {
            let mz = compress3(m)?;
            push_all(&mut out, mz.as_slice());
            Ok(out)
        },
    }
}

// ---------------------------------------------------------------------------
// Converting a package
// ---------------------------------------------------------------------------

/// The name of a package format in a manifest's source (`{:?}`, lower case).
pub open spec fn format_name(f: PackageFormat) -> Seq<char> {
    match f {
        PackageFormat::Deb => "deb"@,
        PackageFormat::Rpm => "rpm"@,
        PackageFormat::Sam => "sam"@,
    }
}

fn format_name_exec(f: PackageFormat) -> (r: String)
    ensures
        r@ == format_name(f),
{
    match f {
        PackageFormat::Deb => owned("deb"),
        PackageFormat::Rpm => owned("rpm"),
        PackageFormat::Sam => owned("sam"),
    }
}

/// The manifest of package `pkg` converted to `.sam`: its fields, format
/// version 1, and its source (the original format, the file name
/// `original_package`, no repository, the hash of the original file);
/// everything else empty.
pub fn manifest_for_conversion(pkg: &Package, original_package: &str, hash_original: String) -> (m: Manifest)
    ensures
        m.name@ == pkg.name@,
        m.version@ == pkg.version@,
        m.architecture@ == pkg.architecture@,
        m.maintainer@ == pkg.maintainer@,
        m.description@ == pkg.description@,
        deps_view(m.dependencies@) == deps_view(pkg.dependencies@),
        strings_view(m.conflicts@) == strings_view(pkg.conflicts@),
        strings_view(m.provides@) == strings_view(pkg.provides@),
        strings_view(m.recommends@) == strings_view(pkg.recommends@),
        m.install_size == pkg.install_size,
        m.format_version == 1,
        m.source matches Some(s) && s.original_format@ == format_name(pkg.format) && s.original_package@
            == original_package@ && s.repo@.len() == 0 && s.hash_original == hash_original,
        m.ai_metadata is None,
        m.signature is None,
        m.systemd_units@.len() == 0,
        m.sysusers@.len() == 0,
        m.tmpfiles@.len() == 0,
        m.triggers@.len() == 0,
        m.obsoletes@.len() == 0,
        m.conffiles@.len() == 0,
{
    Manifest {
        name: owned(pkg.name.as_str()),
        version: owned(pkg.version.as_str()),
        architecture: owned(pkg.architecture.as_str()),
        maintainer: owned(pkg.maintainer.as_str()),
        description: owned(pkg.description.as_str()),
        dependencies: copy_deps(&pkg.dependencies),
        conflicts: copy_strings(&pkg.conflicts),
        provides: copy_strings(&pkg.provides),
        recommends: copy_strings(&pkg.recommends),
        install_size: pkg.install_size,
        format_version: 1,
        source: Some(
            PackageSource {
                original_format: format_name_exec(pkg.format),
                original_package: owned(original_package),
                repo: String::new(),
                hash_original,
            },
        ),
        ai_metadata: None,
        signature: None,
        systemd_units: Vec::new(),
        sysusers: Vec::new(),
        tmpfiles: Vec::new(),
        triggers: Vec::new(),
        obsoletes: Vec::new(),
        conffiles: Vec::new(),
    }
}

/// The path of the `.sam` file a package file is converted to.
pub fn converted_path(path: &str) -> (r: String)
    ensures
        r@ == path@ + ".sam"@,
{
    let mut r = owned(path);
    push_str(&mut r, ".sam");
    r
}

// ---------------------------------------------------------------------------
// Downloading a .sam file
// ---------------------------------------------------------------------------

/// The URL of file `filename` in a repository at `repo_url`.
pub open spec fn sam_url(repo_url: Seq<char>, filename: Seq<char>) -> Seq<char> {
    trim_end_slashes(repo_url) + seq!['/'] + filename
}

pub fn sam_download_url(repo_url: &str, filename: &str) -> (r: String)
    ensures
        r@ == sam_url(repo_url@, filename@),
{
    let mut r = crate::package::fetch::trim_end_slashes_exec(repo_url);
    r.push('/');
    push_str(&mut r, filename);
    r
}

pub open spec fn sam_hash_mismatch_text(name: Seq<char>, expected: Seq<char>, actual: Seq<char>) -> Seq<char> {
    "Hash mismatch for '"@ + name + "': expected "@ + expected + ", got "@ + actual
}

/// Checks a downloaded `.sam` file `body` against the BLAKE3 hash that the
/// repository index gives for it.
pub fn check_sam_hash(name: &str, expected: &str, body: &[u8]) -> (r: Result<(), SpmError>)
    ensures
        r is Ok <==> hex_text(blake3_digest(body@)) == expected@,
        r is Err ==> (r matches Err(SpmError::InvalidFormat(m)) && m@ == sam_hash_mismatch_text(
            name@,
            expected@,
            hex_text(blake3_digest(body@)),
        )),
{
    let actual = hash_bytes(body);
    if str_eq(actual.as_str(), expected) {
        return Ok(());
    }
    let mut m = String::new();
    push_str(&mut m, "Hash mismatch for '");
    push_str(&mut m, name);
    push_str(&mut m, "': expected ");
    push_str(&mut m, expected);
    push_str(&mut m, ", got ");
    push_str(&mut m, actual.as_str());
    assert(m@ =~= sam_hash_mismatch_text(name@, expected@, actual@));
    Err(SpmError::InvalidFormat(m))
}

// ---------------------------------------------------------------------------
// Shared-object names
// ---------------------------------------------------------------------------

/// What `goblin` reads of an ELF object's dynamic section, by name: the
/// file offset of its string table and its entries (tag, value); none when
/// the object does not parse or has no dynamic section.
pub uninterp spec fn elf_dynamic(bytes: Seq<u8>) -> Option<(usize, Seq<(u64, u64)>)>;

/// What `goblin::strtab::Strtab::new(table, 0).get_at(offset)` gives, by
/// name.
pub uninterp spec fn strtab_entry(table: Seq<u8>, offset: u64) -> Option<Seq<char>>;

/// `goblin::elf::Elf::parse` and its `dynamic` section: the string table's
/// offset (`info.strtab`) and each entry's tag and value, in order.
#[verifier::external_body]
fn read_elf_dynamic(bytes: &[u8]) -> (r: Option<(usize, Vec<(u64, u64)>)>)
    ensures
        match elf_dynamic(bytes@) {
            Some((st, dyns)) => r matches Some(x) && x.0 == st && x.1@ == dyns,
            None => r is None,
        },
{
    match goblin::elf::Elf::parse(bytes) {
        Ok(elf) => match elf.dynamic {
            Some(d) => Some((d.info.strtab, d.dyns.iter().map(|e| (e.d_tag, e.d_val)).collect())),
            None => None,
        },
        Err(_) => None,
    }
}

/// `Strtab::new(table, 0x0).get_at(offset)` of `goblin`.  `Strtab::new`
/// leaves the table unparsed (its list of strings empty, with the default
/// `alloc` feature), and `get_at` looks only in that list, so it finds
/// nothing: the result is always `None`.
#[verifier::external_body]
fn strtab_get(table: &[u8], offset: u64) -> (r: Option<String>)
    ensures
        r matches Some(s) ==> strtab_entry(table@, offset) == Some(s@),
        r is None ==> strtab_entry(table@, offset) is None,
        r is None,
{
    goblin::strtab::Strtab::new(table, 0x0).get_at(offset as usize).map(|s| s.to_string())
}

/// The `DT_SONAME` (tag 14) entries of a dynamic section, read from the
/// string table `table`.
pub open spec fn soname_entries(table: Seq<u8>, dyns: Seq<(u64, u64)>) -> Seq<Seq<char>>
    decreases dyns.len(),
{
    if dyns.len() == 0 {
        Seq::empty()
    } else {
        soname_entries(table, dyns.drop_last()) + (if dyns.last().0 == 14 {
            match strtab_entry(table, dyns.last().1) {
                Some(s) => seq![s],
                None => Seq::empty(),
            }
        } else {
            Seq::empty()
        })
    }
}

/// The shared-object names an ELF file declares: none for a file that is
/// not ELF, does not parse, or whose string table offset is zero or past
/// its end.
pub open spec fn file_sonames(bytes: Seq<u8>) -> Seq<Seq<char>> {
    if !elf_magic(bytes) {
        Seq::empty()
    } else {
        match elf_dynamic(bytes) {
            None => Seq::empty(),
            Some((st, dyns)) => if 0 < st < bytes.len() {
                soname_entries(bytes.skip(st as int), dyns)
            } else {
                Seq::empty()
            },
        }
    }
}

pub open spec fn all_sonames(files: Seq<Seq<u8>>) -> Seq<Seq<char>>
    decreases files.len(),
{
    if files.len() == 0 {
        Seq::empty()
    } else {
        all_sonames(files.drop_last()) + file_sonames(files.last())
    }
}

/// `s` with later repeats dropped.
pub open spec fn first_occurrences(s: Seq<Seq<char>>) -> Seq<Seq<char>>
    decreases s.len(),
{
    if s.len() == 0 {
        Seq::empty()
    } else {
        let d = first_occurrences(s.drop_last());
        if d.contains(s.last()) {
            d
        } else {
            d.push(s.last())
        }
    }
}

pub open spec fn files_view(v: Seq<Vec<u8>>) -> Seq<Seq<u8>> {
    v.map_values(|f: Vec<u8>| f@)
}

fn push_unique_name(out: &mut Vec<String>, s: String)
    ensures
        strings_view(final(out)@) == (if strings_view(old(out)@).contains(s@) {
            strings_view(old(out)@)
        } else {
            strings_view(old(out)@).push(s@)
        }),
{
    let mut i: usize = 0;
    while i < out.len()
        invariant
            i <= out@.len(),
            forall|j: int| 0 <= j < i ==> out@[j]@ != s@,
        decreases out.len() - i,
    {
        if str_eq(out[i].as_str(), s.as_str()) {
            assert(strings_view(out@)[i as int] == s@);
            return;
        }
        i += 1;
    }
    let ghost before = strings_view(out@);
    proof {
        if before.contains(s@) {
            let j = choose|j: int| 0 <= j < before.len() && before[j] == s@;
            assert(out@[j]@ == s@);
        }
    }
    out.push(s);
    assert(strings_view(out@) =~= before.push(s@));
}

/// The shared-object names declared by the files of a package (each file's
/// bytes, in order), each name once, in the order first found.
pub fn sonames_of_files(files: &Vec<Vec<u8>>) -> (r: Vec<String>)
    ensures
        strings_view(r@) == first_occurrences(all_sonames(files_view(files@))),
{
    let ghost fv = files_view(files@);
    let mut out: Vec<String> = Vec::new();
    let mut i: usize = 0;
    proof {
        assert(fv.take(0) =~= Seq::<Seq<u8>>::empty());
    }
    while i < files.len()
        invariant
            i <= files@.len(),
            fv == files_view(files@),
            strings_view(out@) == first_occurrences(all_sonames(fv.take(i as int))),
        decreases files.len() - i,
    {
        let bytes = files[i].as_slice();
        let ghost prev = all_sonames(fv.take(i as int));
        proof {
            assert(fv.take(i + 1).drop_last() =~= fv.take(i as int));
            assert(fv.take(i + 1).last() == bytes@);
        }
        let mut found = false;
        if has_elf_magic(bytes) {
            match read_elf_dynamic(bytes) {
                Some((st, dyns)) => {
                    if st > 0 && st < bytes.len() {
                        let table = &bytes[st..bytes.len()];
                        assert(table@ =~= bytes@.skip(st as int));
                        let mut j: usize = 0;
                        proof {
                            assert(dyns@.take(0) =~= Seq::<(u64, u64)>::empty());
                        }
                        while j < dyns.len()
                            invariant
                                j <= dyns@.len(),
                                strings_view(out@) == first_occurrences(prev + soname_entries(table@, dyns@.take(j as int))),
                            decreases dyns.len() - j,
                        {
                            let ghost before = prev + soname_entries(table@, dyns@.take(j as int));
                            proof {
                                assert(dyns@.take(j + 1).drop_last() =~= dyns@.take(j as int));
                                assert(dyns@.take(j + 1).last() == dyns@[j as int]);
                            }
                            if dyns[j].0 == 14 {
                                match strtab_get(table, dyns[j].1) {
                                    Some(s) => {
                                        push_unique_name(&mut out, s);
                                    },
                                    None => {},
                                }
                            }
                            proof {
                                let now = prev + soname_entries(table@, dyns@.take(j + 1));
                                if dyns@[j as int].0 == 14 {
                                    match strtab_entry(table@, dyns@[j as int].1) {
                                        Some(s) => {
                                            assert(now =~= before.push(s));
                                            assert(now.drop_last() =~= before);
                                        },
                                        None => {
                                            assert(now =~= before);
                                        },
                                    }
                                } else {
                                    assert(now =~= before);
                                }
                            }
                            j += 1;
                        }
                        proof {
                            assert(dyns@.take(dyns@.len() as int) =~= dyns@);
                        }
                        found = true;
                    }
                },
                None => {},
            }
        }
        proof {
            if !found {
                assert(file_sonames(bytes@) =~= Seq::<Seq<char>>::empty());
                assert(prev + file_sonames(bytes@) =~= prev);
            }
        }
        i += 1;
    }
    proof {
        assert(fv.take(fv.len() as int) =~= fv);
    }
    out
}

} // verus!
