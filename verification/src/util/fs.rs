//! Facts read off files and command output.
use vstd::prelude::*;
use crate::text::{chars_of, owned, string_of, trim, trim_range};

verus! {

/// A file starts with the ELF magic number `\x7fELF`.
pub open spec fn elf_magic(head: Seq<u8>) -> bool {
    head.len() >= 4 && head[0] == 0x7f && head[1] == 0x45 && head[2] == 0x4c && head[3] == 0x46
}

/// Whether the first bytes of a file (as many as it has, up to four or
/// more) mark it as an ELF object.
pub fn has_elf_magic(head: &[u8]) -> (r: bool)
    ensures
        r == elf_magic(head@),
{
    head.len() >= 4 && head[0] == 0x7f && head[1] == 0x45 && head[2] == 0x4c && head[3] == 0x46
}

/// The machine name that `uname -m` printed, blanks trimmed; `x86_64` when
/// it printed nothing usable.
pub open spec fn arch_text(uname: Option<Seq<char>>) -> Seq<char> {
    match uname {
        Some(s) => if trim(s).len() > 0 {
            trim(s)
        } else {
            "x86_64"@
        },
        None => "x86_64"@,
    }
}

pub fn arch_from_uname(uname: &Option<String>) -> (r: String)
    ensures
        r@ == arch_text(crate::package::scripts::opt_text(*uname)),
{
    match uname {
        Some(s) => {
            let v = chars_of(s.as_str());
            proof {
                assert(v@.subrange(0, v@.len() as int) =~= s@);
            }
            let (a, b) = trim_range(&v, 0, v.len());
            if a < b {
                string_of(&v, a, b)
            } else {
                owned("x86_64")
            }
        },
        None => owned("x86_64"),
    }
}

} // verus!
