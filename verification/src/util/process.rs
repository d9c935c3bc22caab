//! Helpers for reporting on running processes.
use vstd::prelude::*;
use vstd::string::StringSliceAdditionalSpecFns;
use vstd::utf8::{encode_utf8, is_char_boundary};
use crate::text::{
    chars_of, contains, contains_str_in, ends_with, ends_with_str, lines, next_line, parse_u64, parse_unsigned,
    push_str, strings_view, trim, trim_range, words, words_of,
};
use vstd::string::StrSliceExecFns;

verus! {

/// `s` cut to at most `max` bytes: a longer string keeps its first
/// `max - 3` bytes (none when `max < 3`) followed by `...`.  The cut must
/// fall on a character boundary.
pub fn truncate(s: &str, max: usize) -> (r: String)
    requires
        s.spec_bytes().len() <= usize::MAX,
        s.spec_bytes().len() > max ==> is_char_boundary(s.spec_bytes(), if max >= 3 { max - 3 } else { 0 }),
    ensures
        s.spec_bytes().len() <= max ==> r@ == s@,
        s.spec_bytes().len() > max ==> exists|p: Seq<char>|
            encode_utf8(p) == s.spec_bytes().subrange(0, if max >= 3 { max - 3 } else { 0 }) && r@ == p + "..."@,
{
    if s.len() > max {
        let cut = max.saturating_sub(3);
        let (head, _tail) = s.split_at(cut);
        let mut r = String::new();
        push_str(&mut r, head);
        push_str(&mut r, "...");
        proof {
            assert(cut == if max >= 3 { max - 3 } else { 0 });
            assert(encode_utf8(head@) == s.spec_bytes().subrange(0, cut as int));
            assert(r@ =~= head@ + "..."@);
        }
        r
    } else {
        let mut r = String::new();
        push_str(&mut r, s);
        assert(r@ =~= s@);
        r
    }
}

/// `s` with every trailing `suf` removed (`trim_end_matches`).
pub open spec fn strip_suffix_all(s: Seq<char>, suf: Seq<char>) -> Seq<char>
    decreases s.len(),
{
    if suf.len() > 0 && ends_with(s, suf) {
        strip_suffix_all(s.take(s.len() - suf.len()), suf)
    } else {
        s
    }
}

/// What a line of `/proc/<pid>/maps` tells of a deleted mapping: the path
/// (the last field, without trailing ` (deleted)`) and the inode (the fifth
/// field, zero when it does not parse); only lines that mention
/// `(deleted)`, have five fields or more, a non-zero inode and a path.
pub open spec fn deleted_mapping(l: Seq<char>) -> Option<(Seq<char>, nat)> {
    if contains(l, "(deleted)"@) && words(l).len() >= 5 {
        let ps = words(l);
        let lib = strip_suffix_all(ps.last(), " (deleted)"@);
        let inode = match parse_unsigned(ps[4], u64::MAX as nat) {
            Some(n) => n,
            None => 0,
        };
        if inode > 0 && lib.len() > 0 {
            Some((lib, inode))
        } else {
            None
        }
    } else {
        None
    }
}

pub open spec fn deleted_run(ls: Seq<Seq<char>>) -> Seq<(Seq<char>, nat)>
    decreases ls.len(),
{
    if ls.len() == 0 {
        Seq::empty()
    } else {
        let rest = deleted_run(ls.drop_last());
        match deleted_mapping(ls.last()) {
            Some(e) => rest.push(e),
            None => rest,
        }
    }
}

pub open spec fn mappings_view(v: Seq<(String, u64)>) -> Seq<(Seq<char>, nat)> {
    v.map_values(|e: (String, u64)| (e.0@, e.1 as nat))
}

fn strip_suffix_all_exec(s: &str, suf: &str) -> (r: String)
    ensures
        r@ == strip_suffix_all(s@, suf@),
{
    let v = chars_of(s);
    let w = chars_of(suf);
    let mut k = v.len();
    proof {
        assert(v@.subrange(0, k as int) =~= s@);
    }
    while w.len() > 0 && ends_with_str(&v, 0, k, suf)
        invariant
            k <= v@.len(),
            w@ == suf@,
            strip_suffix_all(s@, suf@) == strip_suffix_all(v@.subrange(0, k as int), suf@),
        decreases k,
    {
        proof {
            assert(v@.subrange(0, k as int).take(k - w@.len()) =~= v@.subrange(0, k - w@.len()));
        }
        k -= w.len();
    }
    crate::text::string_of(&v, 0, k)
}

/// The deleted mappings that `/proc/<pid>/maps` lists, in order.
pub fn deleted_mappings(maps: &str) -> (r: Vec<(String, u64)>)
    ensures
        mappings_view(r@) == deleted_run(lines(maps@)),
{
    let v = chars_of(maps);
    let n = v.len();
    let ghost all = lines(maps@);
    let ghost k: int = 0;
    let mut out: Vec<(String, u64)> = Vec::new();
    let mut pos: usize = 0;
    proof {
        assert(v@.skip(0) =~= maps@);
        assert(all.take(0) =~= Seq::<Seq<char>>::empty());
        assert(mappings_view(out@) =~= Seq::empty());
    }
    while pos < n
        invariant
            n == v@.len(),
            v@ == maps@,
            pos <= n,
            all == lines(maps@),
            0 <= k <= all.len(),
            lines(v@.skip(pos as int)) == all.skip(k),
            mappings_view(out@) == deleted_run(all.take(k)),
        decreases n - pos,
    {
        let (e, next) = next_line(&v, pos);
        let ghost l = v@.subrange(pos as int, e as int);
        proof {
            let ls = lines(v@.skip(pos as int));
            assert(ls[0] == l);
            assert(ls.len() >= 1);
            assert(all.skip(k)[0] == all[k]);
            assert(ls.drop_first() =~= lines(v@.skip(next as int)));
            assert(all.skip(k + 1) =~= all.skip(k).drop_first());
            assert(all.take(k + 1).drop_last() =~= all.take(k));
            assert(all.take(k + 1).last() == l);
        }
        let line = crate::text::string_of(&v, pos, e);
        if contains_str_in(line.as_str(), "(deleted)") {
            let ps = words_of(line.as_str());
            if ps.len() >= 5 {
                let lib = strip_suffix_all_exec(ps[ps.len() - 1].as_str(), " (deleted)");
                let f = chars_of(ps[4].as_str());
                let inode: u64 = match parse_u64(&f, 0, f.len()) {
                    Some(x) => x,
                    None => 0,
                };
                proof {
                    assert(strings_view(ps@)[4] == ps@[4]@);
                    assert(strings_view(ps@).last() == ps@[ps@.len() - 1]@);
                    assert(f@.subrange(0, f@.len() as int) =~= f@);
                }
                if inode > 0 && lib.as_str().unicode_len() > 0 {
                    let ghost before = mappings_view(out@);
                    out.push((lib, inode));
                    proof {
                        assert(mappings_view(out@) =~= before.push((lib@, inode as nat)));
                    }
                }
            }
        }
        proof {
            k = k + 1;
        }
        pos = next;
    }
    proof {
        assert(v@.skip(n as int) =~= Seq::<char>::empty());
        assert(all.skip(k) =~= Seq::<Seq<char>>::empty());
        assert(all.take(k) =~= all);
    }
    out
}

/// Whether a package's file list (`/var/lib/dpkg/info/<pkg>.list`) names
/// `path` on one of its lines, blanks trimmed.
pub open spec fn list_names_path(ls: Seq<Seq<char>>, path: Seq<char>) -> bool {
    exists|i: int| 0 <= i < ls.len() && trim(#[trigger] ls[i]) == path
}

pub fn file_list_has(content: &str, path: &str) -> (r: bool)
    ensures
        r == list_names_path(lines(content@), path@),
{
    let v = chars_of(content);
    let n = v.len();
    let p = chars_of(path);
    let ghost all = lines(content@);
    let ghost k: int = 0;
    let mut pos: usize = 0;
    proof {
        assert(v@.skip(0) =~= content@);
    }
    while pos < n
        invariant
            n == v@.len(),
            v@ == content@,
            p@ == path@,
            pos <= n,
            all == lines(content@),
            0 <= k <= all.len(),
            lines(v@.skip(pos as int)) == all.skip(k),
            forall|i: int| 0 <= i < k ==> trim(#[trigger] all[i]) != path@,
        decreases n - pos,
    {
        let (e, next) = next_line(&v, pos);
        let ghost l = v@.subrange(pos as int, e as int);
        proof {
            let ls = lines(v@.skip(pos as int));
            assert(ls[0] == l);
            assert(ls.len() >= 1);
            assert(all.skip(k)[0] == all[k]);
            assert(ls.drop_first() =~= lines(v@.skip(next as int)));
            assert(all.skip(k + 1) =~= all.skip(k).drop_first());
        }
        let (a, b) = trim_range(&v, pos, e);
        if crate::text::same(&v, a, b, p.as_slice()) {
            assert(trim(all[k]) == path@);
            return true;
        }
        proof {
            k = k + 1;
        }
        pos = next;
    }
    proof {
        assert(v@.skip(n as int) =~= Seq::<char>::empty());
        assert(all.skip(k).len() == 0);
    }
    false
}

} // verus!
