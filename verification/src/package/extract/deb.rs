//! Unpacking `.deb` archives: an `ar` archive whose `control.tar*` member
//! goes to `CONTROL/` and whose `data.tar*` member goes to the target.
//!
//! Each member has a 60-byte header: the name in bytes 0..16 and the size,
//! in decimal, in bytes 48..58; the data follows, padded to an even length.
use vstd::prelude::*;
use crate::error::SpmError;
use crate::package::deb::{ar_name, normalize_ar_name};
use crate::text::{chars_of, parse_u64, parse_unsigned, starts_with, str_eq, string_of, trim, trim_range, utf8_lossy};

verus! {

/// The `ar` magic `!<arch>\n`.
pub open spec fn has_ar_magic(d: Seq<u8>) -> bool {
    &&& d.len() >= 8
    &&& d[0] == 0x21 && d[1] == 0x3c && d[2] == 0x61 && d[3] == 0x72
    &&& d[4] == 0x63 && d[5] == 0x68 && d[6] == 0x3e && d[7] == 0x0a
}

/// The size field of the header at `off`: its text, trimmed, parsed as a
/// `usize`, or zero when it does not parse.
pub open spec fn ar_size(d: Seq<u8>, off: int) -> nat {
    match parse_unsigned(trim(crate::text::lossy(d.subrange(off + 48, off + 58))), usize::MAX as nat) {
        Some(n) => n,
        None => 0,
    }
}

/// The name of the member whose header is at `off`, normalised.
pub open spec fn ar_member_name(d: Seq<u8>, off: int) -> Seq<char> {
    ar_name(trim(crate::text::lossy(d.subrange(off, off + 16))))
}

/// Where a member is unpacked.
#[derive(Debug, Clone, Copy, PartialEq, Eq, Structural)]
pub enum DebDest {
    /// `<target>/CONTROL`.
    Control,
    /// The target itself.
    Data,
}

/// How a member's tar archive is compressed.
#[derive(Debug, Clone, Copy, PartialEq, Eq, Structural)]
pub enum TarKind {
    /// xz.
    Xz,
    /// gzip when it starts with the gzip magic, else plain.
    Any,
    /// zstd.
    Zstd,
}

/// What is done with a member of the given name, if anything.
pub open spec fn member_use(name: Seq<char>) -> Option<(DebDest, TarKind)> {
    if name == "control.tar.xz"@ {
        Some((DebDest::Control, TarKind::Xz))
    } else if name == "data.tar.xz"@ {
        Some((DebDest::Data, TarKind::Xz))
    } else if name == "control.tar.gz"@ || name == "control.tar"@ {
        Some((DebDest::Control, TarKind::Any))
    } else if name == "data.tar.gz"@ || name == "data.tar"@ {
        Some((DebDest::Data, TarKind::Any))
    } else if name == "control.tar.zst"@ {
        Some((DebDest::Control, TarKind::Zstd))
    } else if name == "data.tar.zst"@ {
        Some((DebDest::Data, TarKind::Zstd))
    } else {
        None
    }
}

/// The compression a member's extension names.
pub open spec fn kind_of_ext(ext: Seq<char>) -> TarKind {
    if ext == ".xz"@ {
        TarKind::Xz
    } else if ext == ".zst"@ {
        TarKind::Zstd
    } else {
        TarKind::Any
    }
}

/// Each `control.tar` member, plain or with one of the compressions the
/// format allows (`.gz`, `.xz`, `.zst`), is unpacked into the control
/// directory, and each `data.tar` member into the target, with the
/// compression its extension names; a member that is unpacked at all goes
/// to the control directory exactly when its name starts with
/// `control.tar`, and to the target exactly when it starts with `data.tar`.
pub proof fn law_members_go_where_named(ext: Seq<char>, name: Seq<char>)
    ensures
        (ext == ""@ || ext == ".gz"@ || ext == ".xz"@ || ext == ".zst"@) ==> member_use("control.tar"@ + ext) == Some(
            (DebDest::Control, kind_of_ext(ext)),
        ) && member_use("data.tar"@ + ext) == Some((DebDest::Data, kind_of_ext(ext))),
        member_use(name) matches Some((d, _)) ==> (d == DebDest::Control <==> starts_with(name, "control.tar"@)) && (d
            == DebDest::Data <==> starts_with(name, "data.tar"@)),
{
    reveal_strlit("control.tar");
    reveal_strlit("data.tar");
    reveal_strlit("");
    reveal_strlit(".gz");
    reveal_strlit(".xz");
    reveal_strlit(".zst");
    reveal_strlit("control.tar.xz");
    reveal_strlit("control.tar.gz");
    reveal_strlit("control.tar.zst");
    reveal_strlit("data.tar.xz");
    reveal_strlit("data.tar.gz");
    reveal_strlit("data.tar.zst");
    assert("control.tar"@ + ""@ =~= "control.tar"@);
    assert("control.tar"@ + ".gz"@ =~= "control.tar.gz"@);
    assert("control.tar"@ + ".xz"@ =~= "control.tar.xz"@);
    assert("control.tar"@ + ".zst"@ =~= "control.tar.zst"@);
    assert("data.tar"@ + ""@ =~= "data.tar"@);
    assert("data.tar"@ + ".gz"@ =~= "data.tar.gz"@);
    assert("data.tar"@ + ".xz"@ =~= "data.tar.xz"@);
    assert("data.tar"@ + ".zst"@ =~= "data.tar.zst"@);
    assert(".xz"@ != ".zst"@);
    assert(".gz"@[1] != ".xz"@[1] && ".gz"@ != ".zst"@);
    assert("control.tar.xz"@[12] != "control.tar.gz"@[12]);
    assert("data.tar.xz"@[0] != "control.tar"@[0]);
    assert("data.tar.xz"@[9] != "data.tar.gz"@[9]);
    assert("control.tar"@[0] != "data.tar.gz"@[0]);
    assert(""@ != ".xz"@ && ""@ != ".zst"@);
    if member_use(name) is Some {
        if name == "control.tar"@ || name == "control.tar.gz"@ || name == "control.tar.xz"@ || name == "control.tar.zst"@ {
            assert(name.take(11) =~= "control.tar"@);
            assert(name.take(8)[0] != "data.tar"@[0]);
        } else {
            assert(name == "data.tar"@ || name == "data.tar.gz"@ || name == "data.tar.xz"@ || name == "data.tar.zst"@);
            assert(name.take(8) =~= "data.tar"@);
            if name.len() >= 11 {
                assert(name.take(11)[0] != "control.tar"@[0]);
            }
        }
    }
}

/// One tar archive to unpack.
#[derive(Debug, Clone)]
pub struct DebStep {
    pub dest: DebDest,
    pub kind: TarKind,
    pub data: Vec<u8>,
}

/// The tar archives of a `.deb`, in order, and the error that stops the
/// reading, if any (the archives before it are unpacked all the same).
#[derive(Debug, Clone)]
pub struct DebPlan {
    pub steps: Vec<DebStep>,
    pub error: Option<SpmError>,
}

pub open spec fn steps_view(v: Seq<DebStep>) -> Seq<(DebDest, TarKind, Seq<u8>)> {
    v.map_values(|s: DebStep| (s.dest, s.kind, s.data@))
}

/// `io::Read::read_exact` past the end of the data.
pub open spec fn eof_text() -> Seq<char> {
    "failed to fill whole buffer"@
}

/// The archives of the members from `off` on, and the message of the read
/// error that ends them, if one does.  A header that does not fit ends the
/// archive.
pub open spec fn deb_members(d: Seq<u8>, off: int) -> (Seq<(DebDest, TarKind, Seq<u8>)>, Option<Seq<char>>)
    decreases d.len() - off,
{
    if off < 0 || off + 60 > d.len() {
        (Seq::empty(), None)
    } else {
        let size = ar_size(d, off);
        let start = off + 60;
        if start + size > d.len() {
            (Seq::empty(), Some("Failed to read ar data: "@ + eof_text()))
        } else if size % 2 == 1 && start + size + 1 > d.len() {
            (Seq::empty(), Some("Failed to read ar padding: "@ + eof_text()))
        } else {
            let next = start + size + size % 2;
            let rest = deb_members(d, next);
            match member_use(ar_member_name(d, off)) {
                Some((dest, kind)) => (seq![(dest, kind, d.subrange(start, start + size))] + rest.0, rest.1),
                None => rest,
            }
        }
    }
}

/// The plan of a `.deb`: refused without the `ar` magic, else its members
/// after the magic.
pub open spec fn deb_plan_spec(d: Seq<u8>) -> Result<(Seq<(DebDest, TarKind, Seq<u8>)>, Option<Seq<char>>), Seq<char>> {
    if !has_ar_magic(d) {
        Err("Invalid .deb file: bad ar magic"@)
    } else {
        Ok(deb_members(d, 8))
    }
}

fn ar_magic_ok(d: &[u8]) -> (b: bool)
    ensures
        b == has_ar_magic(d@),
{
    d.len() >= 8 && d[0] == 0x21 && d[1] == 0x3c && d[2] == 0x61 && d[3] == 0x72 && d[4] == 0x63 && d[5] == 0x68
        && d[6] == 0x3e && d[7] == 0x0a
}

/// The text of `b`, trimmed.
fn trimmed_text(b: &[u8]) -> (r: Vec<char>)
    ensures
        r@ == trim(crate::text::lossy(b@)),
{
    let s = utf8_lossy(b);
    let v = chars_of(s.as_str());
    let (lo, hi) = trim_range(&v, 0, v.len());
    proof {
        assert(v@.subrange(0, v@.len() as int) =~= v@);
    }
    let mut r: Vec<char> = Vec::new();
    let mut i = lo;
    while i < hi
        invariant
            lo <= i <= hi <= v@.len(),
            r@ == v@.subrange(lo as int, i as int),
        decreases hi - i,
    {
        r.push(v[i]);
        proof {
            assert(v@.subrange(lo as int, i + 1) =~= v@.subrange(lo as int, i as int).push(v@[i as int]));
        }
        i += 1;
    }
    r
}

fn member_use_exec(name: &str) -> (r: Option<(DebDest, TarKind)>)
    ensures
        r == member_use(name@),
{
    if str_eq(name, "control.tar.xz") {
        Some((DebDest::Control, TarKind::Xz))
    } else if str_eq(name, "data.tar.xz") {
        Some((DebDest::Data, TarKind::Xz))
    } else if str_eq(name, "control.tar.gz") || str_eq(name, "control.tar") {
        Some((DebDest::Control, TarKind::Any))
    } else if str_eq(name, "data.tar.gz") || str_eq(name, "data.tar") {
        Some((DebDest::Data, TarKind::Any))
    } else if str_eq(name, "control.tar.zst") {
        Some((DebDest::Control, TarKind::Zstd))
    } else if str_eq(name, "data.tar.zst") {
        Some((DebDest::Data, TarKind::Zstd))
    } else {
        None
    }
}

fn read_error(prefix: &str) -> (e: SpmError)
    ensures
        e matches SpmError::Other(m) && m@ == prefix@ + eof_text(),
{
    let mut m = String::new();
    crate::text::push_str(&mut m, prefix);
    crate::text::push_str(&mut m, "failed to fill whole buffer");
    SpmError::Other(m)
}

proof fn lemma_members_done(d: Seq<u8>, off: int)
    requires
        off + 60 > d.len(),
    ensures
        deb_members(d, off) == (Seq::<(DebDest, TarKind, Seq<u8>)>::empty(), Option::<Seq<char>>::None),
{
}

/// The tar archives of a `.deb` file and where each goes, in order: an
/// `xz`, `gz`/plain or `zst` compressed `control.tar` to `CONTROL/`, and
/// `data.tar` to the target; other members are skipped.  Data without the
/// `ar` magic is refused.
pub fn deb_plan(d: &[u8]) -> (r: Result<DebPlan, SpmError>)
    ensures
        match deb_plan_spec(d@) {
            Err(m) => r matches Err(SpmError::InvalidFormat(x)) && x@ == m,
            Ok((steps, err)) => r matches Ok(p) && steps_view(p.steps@) == steps && match err {
                Some(m) => p.error matches Some(SpmError::Other(x)) && x@ == m,
                None => p.error is None,
            },
        },
{
    if !ar_magic_ok(d) {
        return Err(SpmError::InvalidFormat(crate::error::message("Invalid .deb file: bad ar magic")));
    }
    let n = d.len();
    let ghost all = deb_members(d@, 8);
    let mut steps: Vec<DebStep> = Vec::new();
    let mut off: usize = 8;
    proof {
        assert(steps_view(steps@) + all.0 =~= all.0);
    }
    loop
        invariant
            n == d@.len(),
            has_ar_magic(d@),
            8 <= off <= n,
            all == deb_members(d@, 8),
            all.0 == steps_view(steps@) + deb_members(d@, off as int).0,
            all.1 == deb_members(d@, off as int).1,
        decreases n - off,
    {
        if n - off < 60 {
            proof {
                lemma_members_done(d@, off as int);
                assert(steps_view(steps@) + Seq::empty() =~= steps_view(steps@));
            }
            return Ok(DebPlan { steps, error: None });
        }
        let size_text = trimmed_text(&d[off + 48..off + 58]);
        let size: usize = match parse_u64(&size_text, 0, size_text.len()) {
            Some(x) => if x <= usize::MAX as u64 {
                x as usize
            } else {
                0
            },
            None => 0,
        };
        proof {
            assert(size_text@.subrange(0, size_text@.len() as int) =~= size_text@);
            assert(size == ar_size(d@, off as int));
        }
        let start = off + 60;
        if size > n - start {
            proof {
                assert(steps_view(steps@) + Seq::empty() =~= steps_view(steps@));
            }
            return Ok(DebPlan { steps, error: Some(read_error("Failed to read ar data: ")) });
        }
        if size % 2 == 1 && size + 1 > n - start {
            proof {
                assert(steps_view(steps@) + Seq::empty() =~= steps_view(steps@));
            }
            return Ok(DebPlan { steps, error: Some(read_error("Failed to read ar padding: ")) });
        }
        let name_text = trimmed_text(&d[off..off + 16]);
        let raw_name = string_of(&name_text, 0, name_text.len());
        proof {
            assert(name_text@.subrange(0, name_text@.len() as int) =~= name_text@);
        }
        let name = normalize_ar_name(raw_name.as_str());
        let next = start + size + size % 2;
        let ghost rest = deb_members(d@, next as int);
        let ghost before = steps_view(steps@);
        match member_use_exec(name.as_str()) {
            Some((dest, kind)) => {
                let data = vstd::slice::slice_to_vec(&d[start..start + size]);
                let step = DebStep { dest, kind, data };
                steps.push(step);
                proof {
                    assert(steps_view(steps@) =~= before.push((dest, kind, d@.subrange(start as int, start + size))));
                    assert(before + (seq![(dest, kind, d@.subrange(start as int, start + size))] + rest.0)
                        =~= steps_view(steps@) + rest.0);
                }
            },
            None => {},
        }
        off = next;
    }
}

} // verus!
