//! Maintainer scripts of a package.
use vstd::prelude::*;
use crate::error::SpmError;
use crate::package::rpm::{be32, be_i32, entries_read, read_be32, read_be_i32, read_str_field, str_field};
use crate::text::{chars_of, owned, push_signed_decimal, push_str, push_range, signed_decimal, starts_with, str_eq, trim, trim_range};

verus! {

/// The maintainer scripts of a package, by their contents.
#[derive(Debug, Clone)]
pub struct Scripts {
    pub preinst: Option<String>,
    pub postinst: Option<String>,
    pub prerm: Option<String>,
    pub postrm: Option<String>,
}

impl Scripts {
    /// Whether the package has no script at all.
    pub fn is_empty(&self) -> (r: bool)
        ensures
            r == (self.preinst is None && self.postinst is None && self.prerm is None && self.postrm is None),
    {
        self.preinst.is_none() && self.postinst.is_none() && self.prerm.is_none() && self.postrm.is_none()
    }
}

impl Default for Scripts {
    fn default() -> (s: Scripts)
        ensures
            s.preinst is None && s.postinst is None && s.prerm is None && s.postrm is None,
    {
        Scripts { preinst: None, postinst: None, prerm: None, postrm: None }
    }
}


/// The scripts by their texts.
pub struct ScriptsView {
    pub preinst: Option<Seq<char>>,
    pub postinst: Option<Seq<char>>,
    pub prerm: Option<Seq<char>>,
    pub postrm: Option<Seq<char>>,
}

pub open spec fn opt_text(o: Option<String>) -> Option<Seq<char>> {
    match o {
        Some(s) => Some(s@),
        None => None,
    }
}

impl View for Scripts {
    type V = ScriptsView;

    open spec fn view(&self) -> ScriptsView {
        ScriptsView {
            preinst: opt_text(self.preinst),
            postinst: opt_text(self.postinst),
            prerm: opt_text(self.prerm),
            postrm: opt_text(self.postrm),
        }
    }
}

pub open spec fn no_scripts() -> ScriptsView {
    ScriptsView { preinst: None, postinst: None, prerm: None, postrm: None }
}

// ---------------------------------------------------------------------------
// Scripts of an RPM header
// ---------------------------------------------------------------------------

/// One index entry of an RPM header applied to the scripts read so far: a
/// string entry (type 8 or 9) with tag 1023, 1024, 1025 or 1026 is the
/// pre-install, post-install, pre-remove or post-remove script.
pub open spec fn rpm_script_step(h: Seq<u8>, s: ScriptsView, tag: int, ty: int, val: int) -> ScriptsView {
    if ty == 8 || ty == 9 {
        if tag == 1023 {
            ScriptsView { preinst: Some(str_field(h, val)), ..s }
        } else if tag == 1024 {
            ScriptsView { postinst: Some(str_field(h, val)), ..s }
        } else if tag == 1025 {
            ScriptsView { prerm: Some(str_field(h, val)), ..s }
        } else if tag == 1026 {
            ScriptsView { postrm: Some(str_field(h, val)), ..s }
        } else {
            s
        }
    } else {
        s
    }
}

/// The scripts named by the first `k` index entries.
pub open spec fn rpm_scripts_upto(h: Seq<u8>, k: int) -> ScriptsView
    decreases k,
{
    if k <= 0 {
        no_scripts()
    } else {
        let o = 16 + (k - 1) * 16;
        rpm_script_step(h, rpm_scripts_upto(h, k - 1), be_i32(h, o), be_i32(h, o + 4), be_i32(h, o + 8))
    }
}

/// The maintainer scripts of an RPM main header (its 16-byte preamble, its
/// index entries and its store), the later entry winning for a tag given
/// twice.
pub fn rpm_scripts_from_header(h: &[u8]) -> (s: Scripts)
    requires
        h@.len() >= 16,
    ensures
        s@ == rpm_scripts_upto(h@, entries_read(h@)),
{
    let nindex = read_be32(h, 8);
    let mut s = Scripts { preinst: None, postinst: None, prerm: None, postrm: None };
    let mut k: u32 = 0;
    let mut off: usize = 16;
    while k < nindex && off <= h.len() - 16
        invariant
            h@.len() >= 16,
            nindex == be32(h@, 8),
            k <= nindex,
            off == 16 + 16 * k,
            off <= h@.len(),
            s@ == rpm_scripts_upto(h@, k as int),
        decreases nindex - k,
    {
        let tag = read_be_i32(h, off);
        let ty = read_be_i32(h, off + 4);
        let val = read_be_i32(h, off + 8);
        if ty == 8 || ty == 9 {
            if tag == 1023 {
                s.preinst = Some(read_str_field(h, val));
            } else if tag == 1024 {
                s.postinst = Some(read_str_field(h, val));
            } else if tag == 1025 {
                s.prerm = Some(read_str_field(h, val));
            } else if tag == 1026 {
                s.postrm = Some(read_str_field(h, val));
            }
        }
        off += 16;
        k += 1;
    }
    assert(k as int == entries_read(h@));
    s
}

// ---------------------------------------------------------------------------
// Script members of package archives
// ---------------------------------------------------------------------------

/// Which script a file of a package's control archive holds.
#[derive(Debug, Clone, Copy, PartialEq, Eq, Structural)]
pub enum ScriptKind {
    PreInst,
    PostInst,
    PreRm,
    PostRm,
}

/// The script a bare name stands for.
pub open spec fn script_kind_of(n: Seq<char>) -> Option<ScriptKind> {
    if n == "preinst"@ {
        Some(ScriptKind::PreInst)
    } else if n == "postinst"@ {
        Some(ScriptKind::PostInst)
    } else if n == "prerm"@ {
        Some(ScriptKind::PreRm)
    } else if n == "postrm"@ {
        Some(ScriptKind::PostRm)
    } else {
        None
    }
}

/// An archive member's name without one leading `./`.
pub open spec fn without_dot_slash(n: Seq<char>) -> Seq<char> {
    if starts_with(n, "./"@) {
        n.skip(2)
    } else {
        n
    }
}

/// A name without one trailing `.sh`.
pub open spec fn without_sh(n: Seq<char>) -> Seq<char> {
    if crate::text::ends_with(n, ".sh"@) {
        n.take(n.len() - 3)
    } else {
        n
    }
}

fn kind_of(n: &str) -> (r: Option<ScriptKind>)
    ensures
        r == script_kind_of(n@),
{
    if str_eq(n, "preinst") {
        Some(ScriptKind::PreInst)
    } else if str_eq(n, "postinst") {
        Some(ScriptKind::PostInst)
    } else if str_eq(n, "prerm") {
        Some(ScriptKind::PreRm)
    } else if str_eq(n, "postrm") {
        Some(ScriptKind::PostRm)
    } else {
        None
    }
}

fn strip_dot_slash(name: &str) -> (r: String)
    ensures
        r@ == without_dot_slash(name@),
{
    let v = chars_of(name);
    proof {
        assert(v@.subrange(0, v@.len() as int) =~= name@);
    }
    if crate::text::starts_with_str(&v, 0, v.len(), "./") {
        proof {
            reveal_strlit("./");
        }
        crate::text::string_of(&v, 2, v.len())
    } else {
        owned(name)
    }
}

/// The script that a member of a `.deb` control archive holds: its name,
/// without a leading `./`, is `preinst`, `postinst`, `prerm` or `postrm`.
pub fn deb_script_member(name: &str) -> (r: Option<ScriptKind>)
    ensures
        r == script_kind_of(without_dot_slash(name@)),
{
    let c = strip_dot_slash(name);
    kind_of(c.as_str())
}

/// The script that a member of a `.sam` metadata archive holds: as for a
/// `.deb`, a trailing `.sh` taken off.
pub fn sam_script_member(name: &str) -> (r: Option<ScriptKind>)
    ensures
        r == script_kind_of(without_sh(without_dot_slash(name@))),
{
    let c = strip_dot_slash(name);
    let v = chars_of(c.as_str());
    proof {
        assert(v@.subrange(0, v@.len() as int) =~= c@);
    }
    if crate::text::ends_with_str(&v, 0, v.len(), ".sh") {
        proof {
            reveal_strlit(".sh");
        }
        let b = crate::text::string_of(&v, 0, v.len() - 3);
        proof {
            assert(c@.take(c@.len() - 3) =~= b@);
        }
        kind_of(b.as_str())
    } else {
        kind_of(c.as_str())
    }
}

/// `scripts` with the script of kind `k` set to `content`.
pub open spec fn with_script(s: ScriptsView, k: ScriptKind, content: Option<Seq<char>>) -> ScriptsView {
    match k {
        ScriptKind::PreInst => ScriptsView { preinst: content, ..s },
        ScriptKind::PostInst => ScriptsView { postinst: content, ..s },
        ScriptKind::PreRm => ScriptsView { prerm: content, ..s },
        ScriptKind::PostRm => ScriptsView { postrm: content, ..s },
    }
}

impl Scripts {
    /// Sets the script of kind `k`.
    pub fn set(&mut self, k: ScriptKind, content: Option<String>)
        ensures
            final(self)@ == with_script(old(self)@, k, opt_text(content)),
    {
        match k {
            ScriptKind::PreInst => self.preinst = content,
            ScriptKind::PostInst => self.postinst = content,
            ScriptKind::PreRm => self.prerm = content,
            ScriptKind::PostRm => self.postrm = content,
        }
    }
}

// ---------------------------------------------------------------------------
// Running scripts
// ---------------------------------------------------------------------------

/// A script of blanks only is not run.
pub fn script_is_blank(content: &str) -> (r: bool)
    ensures
        r == (trim(content@).len() == 0),
{
    let v = chars_of(content);
    proof {
        assert(v@.subrange(0, v@.len() as int) =~= content@);
    }
    let (a, b) = trim_range(&v, 0, v.len());
    a == b
}

/// The message of a script that exited with failure: its exit code (`-1`
/// when a signal ended it) and its standard error, blanks trimmed.
pub open spec fn script_failed_text(phase: Seq<char>, in_sandbox: bool, code: Option<i32>, stderr: Seq<char>) -> Seq<char> {
    phase + (if in_sandbox { " script failed in sandbox (exit code: "@ } else { " script failed (exit code: "@ })
        + signed_decimal(
        match code {
            Some(c) => c as int,
            None => -1,
        },
    ) + "): "@ + trim(stderr)
}

pub fn script_failed(phase: &str, in_sandbox: bool, code: Option<i32>, stderr: &str) -> (e: SpmError)
    ensures
        e matches SpmError::Other(m) && m@ == script_failed_text(phase@, in_sandbox, code, stderr@),
{
    let mut m = String::new();
    push_str(&mut m, phase);
    if in_sandbox {
        push_str(&mut m, " script failed in sandbox (exit code: ");
    } else {
        push_str(&mut m, " script failed (exit code: ");
    }
    let c: i64 = match code {
        Some(c) => c as i64,
        None => -1,
    };
    push_signed_decimal(&mut m, c);
    push_str(&mut m, "): ");
    let v = chars_of(stderr);
    proof {
        assert(v@.subrange(0, v@.len() as int) =~= stderr@);
    }
    let (a, b) = trim_range(&v, 0, v.len());
    push_range(&mut m, &v, a, b);
    proof {
        assert(m@ =~= script_failed_text(phase@, in_sandbox, code, stderr@));
    }
    SpmError::Other(m)
}

} // verus!
