//! Debian repository metadata: deb822 paragraphs read as field maps.
use vstd::prelude::*;
use crate::text::{
    chars_of, eq_ignore_ascii_case, eq_ignore_case, find_char, idx_of, lines, next_line, push_range, push_str, starts_with, str_eq, string_of, trim,
    trim_range,
};
use crate::error::SpmError;
use crate::package::extract::codec::{decoded_text_ok, gz_to_text, gzip_decode, string_from_utf8, text_of, xz_decode, xz_to_text};
use crate::package::fetch::{sha_for, sha_search};

verus! {

/// The fields of one deb822 paragraph.  Setting a field again replaces its
/// value.
#[derive(Debug, Clone)]
pub struct Deb822Entry {
    fields: Vec<(String, String)>,
}

/// The map that a list of assignments leaves: later ones win.
pub open spec fn fields_map(s: Seq<(String, String)>) -> Map<Seq<char>, Seq<char>>
    decreases s.len(),
{
    if s.len() == 0 {
        Map::empty()
    } else {
        fields_map(s.drop_last()).insert(s.last().0@, s.last().1@)
    }
}

impl View for Deb822Entry {
    type V = Map<Seq<char>, Seq<char>>;

    closed spec fn view(&self) -> Map<Seq<char>, Seq<char>> {
        fields_map(self.fields@)
    }
}

proof fn lemma_fields_map_empty(s: Seq<(String, String)>)
    ensures
        s.len() > 0 ==> fields_map(s).contains_key(s.last().0@),
        s.len() == 0 ==> fields_map(s) == Map::<Seq<char>, Seq<char>>::empty(),
{
}

impl Deb822Entry {
    /// A paragraph with no field.
    pub fn new() -> (e: Deb822Entry)
        ensures
            e@ == Map::<Seq<char>, Seq<char>>::empty(),
    {
        Deb822Entry { fields: Vec::new() }
    }

    /// Sets field `key` to `value`.
    pub fn insert(&mut self, key: String, value: String)
        ensures
            final(self)@ == old(self)@.insert(key@, value@),
    {
        self.fields.push((key, value));
        proof {
            assert(self.fields@.drop_last() =~= old(self).fields@);
        }
    }

    /// The value of field `key`.
    pub fn get(&self, key: &str) -> (r: Option<&String>)
        ensures
            match r {
                Some(v) => self@.contains_key(key@) && self@[key@] == v@,
                None => !self@.contains_key(key@),
            },
    {
        let ghost s = self.fields@;
        let mut i = self.fields.len();
        assert(s.take(i as int) =~= s);
        while i > 0
            invariant
                i <= s.len(),
                s == self.fields@,
                fields_map(s).contains_key(key@) == fields_map(s.take(i as int)).contains_key(key@),
                fields_map(s).contains_key(key@) ==> fields_map(s)[key@] == fields_map(
                    s.take(i as int),
                )[key@],
            decreases i,
        {
            let ghost t = s.take(i as int);
            assert(t.drop_last() =~= s.take(i - 1));
            if str_eq(self.fields[i - 1].0.as_str(), key) {
                return Some(&self.fields[i - 1].1);
            }
            i -= 1;
        }
        proof {
            assert(s.take(0) =~= Seq::<(String, String)>::empty());
        }
        None
    }

    /// Whether no field is set.
    pub fn is_empty(&self) -> (r: bool)
        ensures
            r == (self@ == Map::<Seq<char>, Seq<char>>::empty()),
    {
        proof {
            lemma_fields_map_empty(self.fields@);
        }
        self.fields.len() == 0
    }
}

// ---------------------------------------------------------------------------
// Packages files
// ---------------------------------------------------------------------------

/// The state of the paragraph reader: finished paragraphs, the current one,
/// and the pending field's name and value.
pub type ParagraphsState = (
    Seq<Map<Seq<char>, Seq<char>>>,
    Map<Seq<char>, Seq<char>>,
    Seq<char>,
    Seq<char>,
);

/// Stores the pending field, if there is one.
pub open spec fn store_pending(m: Map<Seq<char>, Seq<char>>, k: Seq<char>, v: Seq<char>) -> Map<
    Seq<char>,
    Seq<char>,
> {
    if k.len() > 0 {
        m.insert(k, trim(v))
    } else {
        m
    }
}

/// Closes the current paragraph if it holds a field.
pub open spec fn close_paragraph(
    done: Seq<Map<Seq<char>, Seq<char>>>,
    m: Map<Seq<char>, Seq<char>>,
) -> Seq<Map<Seq<char>, Seq<char>>> {
    if m == Map::<Seq<char>, Seq<char>>::empty() {
        done
    } else {
        done.push(m)
    }
}

/// One line of a Packages file.  A blank line ends the paragraph; an
/// indented line continues the pending value (when there is one); `Key: value`
/// stores the pending field and starts a new one.
pub open spec fn paragraphs_step(st: ParagraphsState, line: Seq<char>) -> ParagraphsState {
    let (done, m, k, v) = st;
    if line.len() == 0 {
        let m2 = store_pending(m, k, v);
        (close_paragraph(done, m2), Map::empty(), Seq::empty(), Seq::empty())
    } else if line[0] == ' ' || line[0] == '\t' {
        if k.len() > 0 {
            (done, m, k, v + seq!['\n'] + trim(line))
        } else {
            st
        }
    } else {
        let i = idx_of(line, ':');
        if i < line.len() {
            (done, store_pending(m, k, v), trim(line.take(i as int)), trim(line.skip((i + 1) as int)))
        } else {
            st
        }
    }
}

pub open spec fn paragraphs_run(st: ParagraphsState, ls: Seq<Seq<char>>) -> ParagraphsState
    decreases ls.len(),
{
    if ls.len() == 0 {
        st
    } else {
        paragraphs_run(paragraphs_step(st, ls[0]), ls.drop_first())
    }
}

/// The paragraphs of a Packages file, in order; empty ones are skipped.
pub open spec fn paragraphs(content: Seq<char>) -> Seq<Map<Seq<char>, Seq<char>>> {
    let (done, m, k, v) = paragraphs_run(
        (Seq::empty(), Map::empty(), Seq::empty(), Seq::empty()),
        lines(content),
    );
    close_paragraph(done, store_pending(m, k, v))
}

/// The views of a list of paragraphs.
pub open spec fn entries_view(v: Seq<Deb822Entry>) -> Seq<Map<Seq<char>, Seq<char>>> {
    v.map_values(|e: Deb822Entry| e@)
}

/// Stores the pending field `v[ka..kb]` with value `value`, if there is one.
fn store_pending_exec(entry: &mut Deb822Entry, v: &Vec<char>, ka: usize, kb: usize, value: &String)
    requires
        ka <= kb <= v.len(),
    ensures
        final(entry)@ == store_pending(old(entry)@, v@.subrange(ka as int, kb as int), value@),
{
    if ka < kb {
        let w = chars_of(value.as_str());
        let (a, b) = trim_range(&w, 0, w.len());
        proof {
            assert(w@.subrange(0, w@.len() as int) =~= value@);
        }
        entry.insert(string_of(v, ka, kb), string_of(&w, a, b));
    }
}

/// Reads every paragraph of a Packages file into a field map.
pub fn parse_deb822(content: &str) -> (r: Vec<Deb822Entry>)
    ensures
        entries_view(r@) == paragraphs(content@),
{
    let v = chars_of(content);
    let n = v.len();
    let mut done: Vec<Deb822Entry> = Vec::new();
    let mut cur = Deb822Entry::new();
    let mut ka: usize = 0;
    let mut kb: usize = 0;
    let mut value = String::new();
    let ghost init: ParagraphsState = (Seq::empty(), Map::empty(), Seq::empty(), Seq::empty());
    let mut pos: usize = 0;
    proof {
        assert(v@.skip(0) =~= content@);
        assert(entries_view(done@) =~= Seq::<Map<Seq<char>, Seq<char>>>::empty());
        assert(v@.subrange(0, 0) =~= Seq::<char>::empty());
    }
    while pos < n
        invariant
            pos <= n == v.len(),
            ka <= kb <= n,
            v@ == content@,
            init == (Seq::<Map<Seq<char>, Seq<char>>>::empty(), Map::<Seq<char>, Seq<char>>::empty(), Seq::<char>::empty(), Seq::<char>::empty()),
            paragraphs_run(init, lines(content@)) == paragraphs_run(
                (entries_view(done@), cur@, v@.subrange(ka as int, kb as int), value@),
                lines(v@.skip(pos as int)),
            ),
        decreases n - pos,
    {
        let ghost st: ParagraphsState = (entries_view(done@), cur@, v@.subrange(ka as int, kb as int), value@);
        let (e, nx) = next_line(&v, pos);
        let ghost line = v@.subrange(pos as int, e as int);
        if e == pos {
            store_pending_exec(&mut cur, &v, ka, kb, &value);
            if !cur.is_empty() {
                let ghost before = entries_view(done@);
                done.push(cur);
                proof {
                    assert(entries_view(done@) =~= before.push(done@.last()@));
                }
            }
            cur = Deb822Entry::new();
            ka = 0;
            kb = 0;
            value = String::new();
        } else if v[pos] == ' ' || v[pos] == '\t' {
            if ka < kb {
                value.push('\n');
                let (a, b) = trim_range(&v, pos, e);
                push_range(&mut value, &v, a, b);
            }
        } else {
            let i = find_char(&v, pos, e, ':');
            if i < e {
                store_pending_exec(&mut cur, &v, ka, kb, &value);
                let (a, b) = trim_range(&v, pos, i);
                let (c, d) = trim_range(&v, i + 1, e);
                ka = a;
                kb = b;
                value = string_of(&v, c, d);
                proof {
                    assert(line.take(i - pos) =~= v@.subrange(pos as int, i as int));
                    assert(line.skip(i - pos + 1) =~= v@.subrange(i + 1, e as int));
                }
            }
        }
        proof {
            assert(line.len() > 0 ==> line[0] == v@[pos as int]);
            assert(v@.subrange(0, 0) =~= Seq::<char>::empty());
            assert((entries_view(done@), cur@, v@.subrange(ka as int, kb as int), value@) == paragraphs_step(st, line));
            let ls = lines(v@.skip(pos as int));
            assert(ls[0] == line);
            assert(ls.drop_first() =~= lines(v@.skip(nx as int)));
        }
        pos = nx;
    }
    proof {
        assert(v@.skip(n as int) =~= Seq::<char>::empty());
        assert(lines(v@.skip(n as int)) =~= Seq::<Seq<char>>::empty());
    }
    store_pending_exec(&mut cur, &v, ka, kb, &value);
    if !cur.is_empty() {
        let ghost before = entries_view(done@);
        done.push(cur);
        proof {
            assert(entries_view(done@) =~= before.push(done@.last()@));
        }
    }
    done
}

/// The Debian name of a machine architecture (`x86_64` is `amd64`,
/// `aarch64` is `arm64`, `arm` is `armhf`); others keep their name.
pub open spec fn debian_arch_name(arch: Seq<char>) -> Seq<char> {
    if arch == "x86_64"@ {
        "amd64"@
    } else if arch == "aarch64"@ {
        "arm64"@
    } else if arch == "arm"@ {
        "armhf"@
    } else {
        arch
    }
}

fn owned(s: &str) -> (r: String)
    ensures
        r@ == s@,
{
    let v = chars_of(s);
    proof {
        assert(v@.subrange(0, v@.len() as int) =~= s@);
    }
    string_of(&v, 0, v.len())
}

/// The Debian name of the machine architecture `arch`.
pub fn debian_arch(arch: &str) -> (r: String)
    ensures
        r@ == debian_arch_name(arch@),
{
    if str_eq(arch, "x86_64") {
        owned("amd64")
    } else if str_eq(arch, "aarch64") {
        owned("arm64")
    } else if str_eq(arch, "arm") {
        owned("armhf")
    } else {
        owned(arch)
    }
}


// ---------------------------------------------------------------------------
// Fetching from a Debian repository
// ---------------------------------------------------------------------------

pub open spec fn is_gz(d: Seq<u8>) -> bool {
    d.len() >= 2 && d[0] == 0x1f && d[1] == 0x8b
}

pub open spec fn is_xz(d: Seq<u8>) -> bool {
    d.len() > 4 && d[0] == 0xfd && d[1] == 0x37 && d[2] == 0x7a && d[3] == 0x58 && d[4] == 0x5a
}

/// The text of a downloaded `Packages` file: gzip and xz data are
/// decompressed (by their magic numbers), anything else is read as UTF-8.
pub fn decompress_packages(data: &[u8]) -> (r: Result<String, SpmError>)
    ensures
        is_gz(data@) ==> decoded_text_ok(gzip_decode(data@), "Failed to decompress gz: "@, r),
        !is_gz(data@) && is_xz(data@) ==> decoded_text_ok(xz_decode(data@), "Failed to decompress xz: "@, r),
        !is_gz(data@) && !is_xz(data@) ==> match text_of(data@) {
            Some(t) => r matches Ok(s) && s@ == t,
            None => r matches Err(SpmError::InvalidFormat(m)) && starts_with(m@, "Invalid UTF-8 in Packages file: "@),
        },
{
    if data.len() >= 2 && data[0] == 0x1f && data[1] == 0x8b {
        return gz_to_text(data, "Failed to decompress gz: ");
    }
    if data.len() > 4 && data[0] == 0xfd && data[1] == 0x37 && data[2] == 0x7a && data[3] == 0x58 && data[4] == 0x5a {
        return xz_to_text(data, "Failed to decompress xz: ");
    }
    let mut v: Vec<u8> = Vec::new();
    let mut i: usize = 0;
    while i < data.len()
        invariant
            i <= data@.len(),
            v@ == data@.take(i as int),
        decreases data.len() - i,
    {
        v.push(data[i]);
        proof {
            assert(data@.take(i + 1) =~= data@.take(i as int).push(data@[i as int]));
        }
        i += 1;
    }
    assert(data@.take(data@.len() as int) =~= data@);
    match string_from_utf8(v) {
        Ok(s) => Ok(s),
        Err(e) => {
            let mut m = String::new();
            push_str(&mut m, "Invalid UTF-8 in Packages file: ");
            push_str(&mut m, e.as_str());
            proof {
                reveal_strlit("Invalid UTF-8 in Packages file: ");
                assert(m@.take("Invalid UTF-8 in Packages file: "@.len() as int) =~= "Invalid UTF-8 in Packages file: "@);
            }
            Err(SpmError::InvalidFormat(m))
        },
    }
}

/// A paragraph of a `Packages` file for package `name` (its name compared
/// ignoring ASCII case) and, when one is asked for, for `version`.
pub open spec fn stanza_matches(e: Map<Seq<char>, Seq<char>>, name: Seq<char>, version: Option<Seq<char>>) -> bool {
    &&& e.contains_key("Package"@)
    &&& eq_ignore_case(e["Package"@], name)
    &&& match version {
        None => true,
        Some(v) => e.contains_key("Version"@) && e["Version"@] == v,
    }
}

/// The first matching paragraph.
pub open spec fn first_stanza(es: Seq<Map<Seq<char>, Seq<char>>>, name: Seq<char>, version: Option<Seq<char>>) -> Option<
    Map<Seq<char>, Seq<char>>,
>
    decreases es.len(),
{
    if es.len() == 0 {
        None
    } else if stanza_matches(es[0], name, version) {
        Some(es[0])
    } else {
        first_stanza(es.drop_first(), name, version)
    }
}

pub open spec fn debian_not_found_text(name: Seq<char>, base: Seq<char>, distro: Seq<char>, component: Seq<char>) -> Seq<char> {
    "Package '"@ + name + "' not found in "@ + base + "/dists/"@ + distro + seq![' '] + component
}

pub open spec fn no_filename_text(name: Seq<char>) -> Seq<char> {
    "Package entry for '"@ + name + "' has no Filename field"@
}

/// The file to download for `name` (and `version`) from the text of a
/// `Packages` file of `base`/dists/`distro`, `component`, and its SHA256
/// checksum when the paragraph gives one for that file.
pub fn select_debian_package(
    text: &str,
    name: &str,
    version: Option<&str>,
    base: &str,
    distro: &str,
    component: &str,
) -> (r: Result<(String, Option<String>), SpmError>)
    ensures
        match first_stanza(
            paragraphs(text@),
            name@,
            match version {
                Some(v) => Some(v@),
                None => None,
            },
        ) {
            None => r matches Err(SpmError::PackageNotFound(m)) && m@ == debian_not_found_text(name@, base@, distro@, component@),
            Some(e) => if !e.contains_key("Filename"@) {
                r matches Err(SpmError::InvalidFormat(m)) && m@ == no_filename_text(name@)
            } else {
                r matches Ok(x) && x.0@ == e["Filename"@] && (if e.contains_key("SHA256"@) {
                    match sha_search(lines(e["SHA256"@]), e["Filename"@]) {
                        Some(c) => x.1 matches Some(s) && s@ == c,
                        None => x.1 is None,
                    }
                } else {
                    x.1 is None
                })
            },
        },
{
    let entries = parse_deb822(text);
    let ghost es = paragraphs(text@);
    let ghost ver: Option<Seq<char>> = match version {
        Some(v) => Some(v@),
        None => None,
    };
    let mut i: usize = 0;
    proof {
        assert(es.skip(0) =~= es);
    }
    while i < entries.len()
        invariant
            i <= entries@.len(),
            entries_view(entries@) == es,
            es == paragraphs(text@),
            ver == match version {
                Some(v) => Some(v@),
                None => None::<Seq<char>>,
            },
            first_stanza(es, name@, ver) == first_stanza(es.skip(i as int), name@, ver),
        decreases entries.len() - i,
    {
        let e = &entries[i];
        proof {
            assert(es[i as int] == e@);
            assert(es.skip(i as int)[0] == es[i as int]);
            assert(es.skip(i as int).drop_first() =~= es.skip(i + 1));
        }
        let pm = match e.get("Package") {
            Some(p) => eq_ignore_ascii_case(p.as_str(), name),
            None => false,
        };
        let vm = match version {
            None => true,
            Some(v) => match e.get("Version") {
                Some(ev) => str_eq(ev.as_str(), v),
                None => false,
            },
        };
        if pm && vm {
            proof {
                assert(e@.contains_key("Package"@));
                assert(eq_ignore_case(e@["Package"@], name@));
                assert(match ver {
                    None => true,
                    Some(vv) => e@.contains_key("Version"@) && e@["Version"@] == vv,
                });
                assert(stanza_matches(e@, name@, ver));
            }
            match e.get("Filename") {
                None => {
                    let mut m = String::new();
                    push_str(&mut m, "Package entry for '");
                    push_str(&mut m, name);
                    push_str(&mut m, "' has no Filename field");
                    assert(m@ =~= no_filename_text(name@));
                    return Err(SpmError::InvalidFormat(m));
                },
                Some(f) => {
                    let sha = match e.get("SHA256") {
                        Some(field) => sha_for(field.as_str(), f.as_str()),
                        None => None,
                    };
                    return Ok((crate::text::owned(f.as_str()), sha));
                },
            }
        }
        proof {
            assert(!stanza_matches(e@, name@, ver));
        }
        i += 1;
    }
    proof {
        assert(es.skip(i as int).len() == 0);
    }
    let mut m = String::new();
    push_str(&mut m, "Package '");
    push_str(&mut m, name);
    push_str(&mut m, "' not found in ");
    push_str(&mut m, base);
    push_str(&mut m, "/dists/");
    push_str(&mut m, distro);
    m.push(' ');
    push_str(&mut m, component);
    assert(m@ =~= debian_not_found_text(name@, base@, distro@, component@));
    Err(SpmError::PackageNotFound(m))
}

/// The URL of the `Packages.gz` index of `component` of `distro` for the
/// Debian architecture `arch`, in a repository at `base`.
pub open spec fn packages_url_text(base: Seq<char>, distro: Seq<char>, component: Seq<char>, arch: Seq<char>) -> Seq<char> {
    base + "/dists/"@ + distro + seq!['/'] + component + "/binary-"@ + arch + "/Packages.gz"@
}

pub fn packages_url(base: &str, distro: &str, component: &str, arch: &str) -> (r: String)
    ensures
        r@ == packages_url_text(base@, distro@, component@, arch@),
{
    let mut r = String::new();
    crate::text::push_str(&mut r, base);
    crate::text::push_str(&mut r, "/dists/");
    crate::text::push_str(&mut r, distro);
    r.push('/');
    crate::text::push_str(&mut r, component);
    crate::text::push_str(&mut r, "/binary-");
    crate::text::push_str(&mut r, arch);
    crate::text::push_str(&mut r, "/Packages.gz");
    r
}

} // verus!
