//! Desktop entries of sandboxed applications.
use vstd::prelude::*;
use crate::text::{chars_of, contains, is_ws, lines, next_line, push_range, push_str, starts_with, starts_with_str, string_of, strings_view, trim, trim_range, ws};
use crate::package::install::remove::join_lines;
use crate::util::path::{file_name, file_name_of, join, path_exists, path_join};

verus! {

/// The name of the wrapper entry for desktop file `desktop_basename` of
/// sandbox `sandbox_name`: `spm-sandbox-<sandbox>-<basename>`.
pub open spec fn wrapper_text(sandbox_name: Seq<char>, desktop_basename: Seq<char>) -> Seq<char> {
    "spm-sandbox-"@ + sandbox_name + seq!['-'] + desktop_basename
}

pub fn wrapper_name(sandbox_name: &str, desktop_basename: &str) -> (r: String)
    ensures
        r@ == wrapper_text(sandbox_name@, desktop_basename@),
{
    let mut r = String::new();
    push_str(&mut r, "spm-sandbox-");
    push_str(&mut r, sandbox_name);
    r.push('-');
    push_str(&mut r, desktop_basename);
    assert(r@ =~= wrapper_text(sandbox_name@, desktop_basename@));
    r
}

/// Index of the first whitespace character of `s` (`s.len()` when none).
pub open spec fn ws_idx(s: Seq<char>) -> nat
    decreases s.len(),
{
    if s.len() == 0 {
        0
    } else if is_ws(s[0]) {
        0
    } else {
        1 + ws_idx(s.drop_first())
    }
}

/// `splitn(2, char::is_whitespace)`: the program and the rest of the line
/// after the first whitespace character.
pub open spec fn exec_parts(t: Seq<char>) -> (Seq<char>, Seq<char>) {
    let k = ws_idx(t);
    if k < t.len() {
        (t.take(k as int), t.skip((k + 1) as int))
    } else {
        (t, Seq::empty())
    }
}

/// A command line from a program name and its arguments.
pub open spec fn exec_text(bin_name: Seq<char>, rest: Seq<char>) -> Seq<char> {
    if rest.len() == 0 {
        bin_name
    } else {
        bin_name + seq![' '] + rest
    }
}

/// An `Exec=` value with the program's directory taken off.
pub open spec fn stripped_exec(e: Seq<char>) -> Seq<char> {
    let (b, r) = exec_parts(trim(e));
    let n = match file_name_of(b) {
        Some(x) => x,
        None => b,
    };
    exec_text(n, r)
}

/// `bin_name`, then a space and `rest` when there is any.
pub fn exec_line(bin_name: &str, rest: &str) -> (r: String)
    ensures
        r@ == exec_text(bin_name@, rest@),
{
    let mut r = String::new();
    push_str(&mut r, bin_name);
    if !rest.is_empty() {
        r.push(' ');
        push_str(&mut r, rest);
    }
    assert(r@ =~= exec_text(bin_name@, rest@));
    r
}

/// Takes the directory off the program of an `Exec=` value and keeps its
/// arguments: `/usr/bin/steam %u` becomes `steam %u`.
pub fn strip_exec_path(exec_value: &str) -> (r: String)
    ensures
        r@ == stripped_exec(exec_value@),
{
    let v = chars_of(exec_value);
    proof {
        assert(v@.subrange(0, v@.len() as int) =~= exec_value@);
    }
    let (a, b) = trim_range(&v, 0, v.len());
    let ghost t = v@.subrange(a as int, b as int);
    let mut k = a;
    while k < b && !ws(v[k])
        invariant
            a <= k <= b <= v.len(),
            ws_idx(t) == (k - a) + ws_idx(v@.subrange(k as int, b as int)),
        decreases b - k,
    {
        assert(v@.subrange(k as int, b as int).drop_first() =~= v@.subrange(k + 1, b as int));
        k += 1;
    }
    proof {
        assert(ws_idx(v@.subrange(k as int, b as int)) == 0);
        assert(ws_idx(t) == k - a);
    }
    let binary = string_of(&v, a, k);
    let rest = if k < b {
        proof {
            assert(t.take(k - a) =~= v@.subrange(a as int, k as int));
            assert(t.skip(k - a + 1) =~= v@.subrange(k + 1, b as int));
        }
        string_of(&v, k + 1, b)
    } else {
        proof {
            assert(t =~= v@.subrange(a as int, k as int));
        }
        String::new()
    };
    let name = match file_name(binary.as_str()) {
        Some(n) => n,
        None => binary,
    };
    exec_line(name.as_str(), rest.as_str())
}


// ---------------------------------------------------------------------------
// Rewriting a desktop entry
// ---------------------------------------------------------------------------

/// A section header or a blank line: copied as it is.
pub open spec fn plain_line(t: Seq<char>) -> bool {
    t.len() == 0 || t[0] == '['
}

/// A line, blanks trimmed, that starts with `Exec=`.
pub open spec fn is_exec_line(line: Seq<char>) -> bool {
    !plain_line(trim(line)) && starts_with(trim(line), "Exec="@)
}

/// A line, blanks trimmed, that starts with `Icon=`.
pub open spec fn is_icon_line(line: Seq<char>) -> bool {
    !plain_line(trim(line)) && !starts_with(trim(line), "Exec="@) && starts_with(trim(line), "Icon="@)
}

/// The icon an `Icon=` line names, blanks trimmed.
pub open spec fn icon_of(line: Seq<char>) -> Seq<char> {
    trim(trim(line).skip(5))
}

/// The icons that the `Icon=` lines name, in order.
pub open spec fn icon_names(ls: Seq<Seq<char>>) -> Seq<Seq<char>>
    decreases ls.len(),
{
    if ls.len() == 0 {
        Seq::empty()
    } else if is_icon_line(ls.last()) {
        icon_names(ls.drop_last()).push(icon_of(ls.last()))
    } else {
        icon_names(ls.drop_last())
    }
}

/// A path, in double quotes when it holds a space.
pub open spec fn quoted(p: Seq<char>) -> Seq<char> {
    if p.contains(' ') {
        seq!['"'] + p + seq!['"']
    } else {
        p
    }
}

/// What one line of a desktop file becomes: `Exec=` runs the program in the
/// sandbox through `spm_bin`, `Icon=` points at the icon file found for it
/// (when one was), `TryExec=` names `spm_bin`; other lines stay.
pub open spec fn entry_line(
    line: Seq<char>,
    sandbox_name: Seq<char>,
    spm_bin: Seq<char>,
    icon: Option<Seq<char>>,
) -> Seq<char> {
    let t = trim(line);
    if plain_line(t) {
        line
    } else if starts_with(t, "Exec="@) {
        "Exec="@ + quoted(spm_bin) + " sandbox run "@ + sandbox_name + seq![' '] + stripped_exec(t.skip(5))
    } else if starts_with(t, "Icon="@) {
        match icon {
            Some(p) => "Icon="@ + quoted(p),
            None => line,
        }
    } else if starts_with(t, "TryExec="@) {
        "TryExec="@ + spm_bin
    } else {
        line
    }
}

/// The icon file found for the `i`-th `Icon=` line, if any.
pub open spec fn icon_at(icons: Seq<Option<Seq<char>>>, i: int) -> Option<Seq<char>> {
    if 0 <= i < icons.len() {
        icons[i]
    } else {
        None
    }
}

/// The lines of the wrapper entry.
pub open spec fn rewritten(
    ls: Seq<Seq<char>>,
    sandbox_name: Seq<char>,
    spm_bin: Seq<char>,
    icons: Seq<Option<Seq<char>>>,
) -> Seq<Seq<char>>
    decreases ls.len(),
{
    if ls.len() == 0 {
        Seq::empty()
    } else {
        let pre = ls.drop_last();
        let icon = if is_icon_line(ls.last()) {
            icon_at(icons, icon_names(pre).len() as int)
        } else {
            None
        };
        rewritten(pre, sandbox_name, spm_bin, icons).push(
            entry_line(ls.last(), sandbox_name, spm_bin, icon),
        )
    }
}

pub open spec fn has_exec_line(ls: Seq<Seq<char>>) -> bool {
    exists|i: int| 0 <= i < ls.len() && is_exec_line(#[trigger] ls[i])
}

/// The wrapper entry for a desktop file: its lines rewritten and joined
/// with `\n`; nothing for a file without an `Exec=` line.
pub open spec fn desktop_rewrite(
    content: Seq<char>,
    sandbox_name: Seq<char>,
    spm_bin: Seq<char>,
    icons: Seq<Option<Seq<char>>>,
) -> Option<Seq<char>> {
    let ls = lines(content);
    if has_exec_line(ls) {
        Some(join_lines(rewritten(ls, sandbox_name, spm_bin, icons)))
    } else {
        None
    }
}

pub open spec fn opt_texts(v: Seq<Option<String>>) -> Seq<Option<Seq<char>>> {
    v.map_values(|o: Option<String>| match o {
        Some(s) => Some(s@),
        None => None,
    })
}

proof fn lemma_rewritten_len(
    ls: Seq<Seq<char>>,
    sandbox_name: Seq<char>,
    spm_bin: Seq<char>,
    icons: Seq<Option<Seq<char>>>,
)
    ensures
        rewritten(ls, sandbox_name, spm_bin, icons).len() == ls.len(),
    decreases ls.len(),
{
    if ls.len() > 0 {
        lemma_rewritten_len(ls.drop_last(), sandbox_name, spm_bin, icons);
    }
}

/// Appends `p`, in double quotes when it holds a space.
fn push_quoted(r: &mut String, p: &str)
    ensures
        final(r)@ == old(r)@ + quoted(p@),
{
    let v = chars_of(p);
    let mut i: usize = 0;
    let mut space = false;
    while i < v.len()
        invariant
            i <= v@.len(),
            v@ == p@,
            space == exists|j: int| 0 <= j < i && v@[j] == ' ',
        decreases v.len() - i,
    {
        if v[i] == ' ' {
            space = true;
        }
        i += 1;
    }
    proof {
        if p@.contains(' ') {
            let j = choose|j: int| 0 <= j < p@.len() && p@[j] == ' ';
            assert(v@[j] == ' ');
        }
    }
    if space {
        r.push('"');
        push_str(r, p);
        r.push('"');
    } else {
        push_str(r, p);
    }
    proof {
        assert(final(r)@ =~= old(r)@ + quoted(p@)) by {
            if space {
                assert(old(r)@.push('"') + p@ + seq!['"'] =~= old(r)@ + (seq!['"'] + p@ + seq!['"']));
            }
        }
    }
}


/// The rewritten form of the line `v[lo..hi]`, and whether it is an
/// `Exec=` line and an `Icon=` line.
fn entry_of(
    v: &Vec<char>,
    lo: usize,
    hi: usize,
    sandbox_name: &str,
    spm_bin: &str,
    icon: &Option<String>,
) -> (r: (String, bool, bool))
    requires
        lo <= hi <= v.len(),
    ensures
        r.0@ == entry_line(
            v@.subrange(lo as int, hi as int),
            sandbox_name@,
            spm_bin@,
            match icon {
                Some(s) => Some(s@),
                None => None,
            },
        ),
        r.1 == is_exec_line(v@.subrange(lo as int, hi as int)),
        r.2 == is_icon_line(v@.subrange(lo as int, hi as int)),
{
    let ghost line = v@.subrange(lo as int, hi as int);
    let ghost ic: Option<Seq<char>> = match icon {
        Some(s) => Some(s@),
        None => None,
    };
    let (a, b) = trim_range(v, lo, hi);
    let ghost t = trim(line);
    proof {
        reveal_strlit("Exec=");
        reveal_strlit("Icon=");
        reveal_strlit("TryExec=");
    }
    if a == b || v[a] == '[' {
        return (string_of(v, lo, hi), false, false);
    }
    let mut r = String::new();
    if starts_with_str(v, a, b, "Exec=") {
        proof {
            assert(t.skip(5) =~= v@.subrange(a + 5, b as int));
        }
        let value = string_of(v, a + 5, b);
        push_str(&mut r, "Exec=");
        push_quoted(&mut r, spm_bin);
        push_str(&mut r, " sandbox run ");
        push_str(&mut r, sandbox_name);
        r.push(' ');
        let e = strip_exec_path(value.as_str());
        push_str(&mut r, e.as_str());
        assert(r@ =~= entry_line(line, sandbox_name@, spm_bin@, ic));
        return (r, true, false);
    }
    if starts_with_str(v, a, b, "Icon=") {
        match icon {
            Some(path) => {
                push_str(&mut r, "Icon=");
                push_quoted(&mut r, path.as_str());
                assert(r@ =~= entry_line(line, sandbox_name@, spm_bin@, ic));
                return (r, false, true);
            },
            None => {
                return (string_of(v, lo, hi), false, true);
            },
        }
    }
    if starts_with_str(v, a, b, "TryExec=") {
        push_str(&mut r, "TryExec=");
        push_str(&mut r, spm_bin);
        assert(r@ =~= entry_line(line, sandbox_name@, spm_bin@, ic));
        return (r, false, false);
    }
    (string_of(v, lo, hi), false, false)
}

/// The icon named on the `Icon=` line `v[lo..hi]`, blanks trimmed.
fn icon_text(v: &Vec<char>, lo: usize, hi: usize) -> (r: String)
    requires
        lo <= hi <= v.len(),
        is_icon_line(v@.subrange(lo as int, hi as int)),
    ensures
        r@ == icon_of(v@.subrange(lo as int, hi as int)),
{
    let (a, b) = trim_range(v, lo, hi);
    proof {
        reveal_strlit("Icon=");
        assert(trim(v@.subrange(lo as int, hi as int)).skip(5) =~= v@.subrange(a + 5, b as int));
    }
    let (c, d) = trim_range(v, a + 5, b);
    string_of(v, c, d)
}

/// The icons that the `Icon=` lines of a desktop file name, in order; each
/// is looked up in the sandbox before the file is rewritten.
pub fn desktop_icon_names(content: &str) -> (r: Vec<String>)
    ensures
        strings_view(r@) == icon_names(lines(content@)),
{
    let v = chars_of(content);
    let n = v.len();
    let ghost all = lines(content@);
    let ghost k: int = 0;
    let mut out: Vec<String> = Vec::new();
    let mut pos: usize = 0;
    proof {
        assert(v@.skip(0) =~= content@);
        assert(all.take(0) =~= Seq::<Seq<char>>::empty());
    }
    while pos < n
        invariant
            n == v@.len(),
            v@ == content@,
            pos <= n,
            all == lines(content@),
            0 <= k <= all.len(),
            lines(v@.skip(pos as int)) == all.skip(k),
            strings_view(out@) == icon_names(all.take(k)),
        decreases n - pos,
    {
        let (e, next) = next_line(&v, pos);
        let ghost l = v@.subrange(pos as int, e as int);
        proof {
            let ls = lines(v@.skip(pos as int));
            assert(ls[0] == l);
            assert(ls.len() >= 1);
            assert(all.skip(k)[0] == all[k]);
            assert(ls.drop_first() =~= lines(v@.skip(next as int)));
            assert(all.skip(k + 1) =~= all.skip(k).drop_first());
            assert(all.take(k + 1).drop_last() =~= all.take(k));
            assert(all.take(k + 1).last() == l);
        }
        let (a, b) = trim_range(&v, pos, e);
        let plain = a == b || v[a] == '[';
        if !plain && !starts_with_str(&v, a, b, "Exec=") && starts_with_str(&v, a, b, "Icon=") {
            let name = icon_text(&v, pos, e);
            let ghost before = strings_view(out@);
            out.push(name);
            proof {
                assert(strings_view(out@) =~= before.push(icon_of(l)));
            }
        }
        proof {
            k = k + 1;
        }
        pos = next;
    }
    proof {
        assert(v@.skip(n as int) =~= Seq::<char>::empty());
        assert(all.skip(k).len() == 0);
        assert(all.take(k) =~= all);
    }
    out
}

/// The wrapper entry for a sandboxed application's desktop file `content`:
/// `icons[i]` is the icon file found in the sandbox for the `i`-th name of
/// `desktop_icon_names(content)`.  `None` for a file without an `Exec=`
/// line.
pub fn rewrite_desktop_entry(
    content: &str,
    sandbox_name: &str,
    spm_bin: &str,
    icons: &Vec<Option<String>>,
) -> (r: Option<String>)
    ensures
        match r {
            Some(s) => desktop_rewrite(content@, sandbox_name@, spm_bin@, opt_texts(icons@)) == Some(s@),
            None => desktop_rewrite(content@, sandbox_name@, spm_bin@, opt_texts(icons@)) is None,
        },
{
    let v = chars_of(content);
    let n = v.len();
    let ghost all = lines(content@);
    let ghost ic = opt_texts(icons@);
    let ghost k: int = 0;
    let mut out = String::new();
    let mut count: usize = 0;
    let mut has_exec = false;
    let mut pos: usize = 0;
    proof {
        assert(v@.skip(0) =~= content@);
        assert(all.take(0) =~= Seq::<Seq<char>>::empty());
    }
    while pos < n
        invariant
            n == v@.len(),
            v@ == content@,
            pos <= n,
            all == lines(content@),
            ic == opt_texts(icons@),
            0 <= k <= all.len(),
            lines(v@.skip(pos as int)) == all.skip(k),
            out@ == join_lines(rewritten(all.take(k), sandbox_name@, spm_bin@, ic)),
            count == icon_names(all.take(k)).len(),
            count <= k,
            k <= pos,
            (pos == 0) == (k == 0),
            has_exec == has_exec_line(all.take(k)),
        decreases n - pos,
    {
        let (e, next) = next_line(&v, pos);
        let ghost l = v@.subrange(pos as int, e as int);
        let ghost pre = all.take(k);
        proof {
            let ls = lines(v@.skip(pos as int));
            assert(ls[0] == l);
            assert(ls.len() >= 1);
            assert(all.skip(k)[0] == all[k]);
            assert(ls.drop_first() =~= lines(v@.skip(next as int)));
            assert(all.skip(k + 1) =~= all.skip(k).drop_first());
            assert(all.take(k + 1).drop_last() =~= pre);
            assert(all.take(k + 1).last() == l);
        }
        let icon: Option<String> = if count < icons.len() {
            match &icons[count] {
                Some(p) => Some(crate::text::owned(p.as_str())),
                None => None,
            }
        } else {
            None
        };
        let (line, ex, isicon) = entry_of(&v, pos, e, sandbox_name, spm_bin, &icon);
        proof {
            let iv: Option<Seq<char>> = match icon {
                Some(s) => Some(s@),
                None => None,
            };
            assert(iv == icon_at(ic, count as int));
            let now = rewritten(all.take(k + 1), sandbox_name@, spm_bin@, ic);
            let want = if is_icon_line(l) { icon_at(ic, count as int) } else { None };
            assert(entry_line(l, sandbox_name@, spm_bin@, want) == line@);
            assert(now == rewritten(pre, sandbox_name@, spm_bin@, ic).push(line@));
        }
        if pos > 0 {
            out.push('\n');
        }
        push_str(&mut out, line.as_str());
        proof {
            let now = rewritten(all.take(k + 1), sandbox_name@, spm_bin@, ic);
            let before = rewritten(pre, sandbox_name@, spm_bin@, ic);
            assert(now.drop_last() =~= before);
            if k == 0 {
                assert(now =~= seq![line@]);
            } else {
                lemma_rewritten_len(pre, sandbox_name@, spm_bin@, ic);
                assert(now.len() >= 2);
                assert(join_lines(now) == join_lines(before) + seq!['\n'] + line@);
            }
        }
        if isicon {
            count = count + 1;
        }
        if ex {
            has_exec = true;
        }
        proof {
            let t1 = all.take(k + 1);
            if has_exec_line(t1) && !has_exec_line(pre) {
                let i = choose|i: int| 0 <= i < t1.len() && is_exec_line(#[trigger] t1[i]);
                if i < k {
                    assert(pre[i] == t1[i]);
                }
            }
            if has_exec_line(pre) {
                let i = choose|i: int| 0 <= i < pre.len() && is_exec_line(#[trigger] pre[i]);
                assert(t1[i] == pre[i]);
            }
            if ex {
                assert(is_exec_line(t1[k]));
            }
            k = k + 1;
        }
        pos = next;
    }
    proof {
        assert(v@.skip(n as int) =~= Seq::<char>::empty());
        assert(all.skip(k).len() == 0);
        assert(all.take(k) =~= all);
    }
    if has_exec {
        Some(out)
    } else {
        None
    }
}


// ---------------------------------------------------------------------------
// Icons
// ---------------------------------------------------------------------------

/// The directories of a sandbox, relative to its root, where icons are
/// looked for, in order.
pub open spec fn icon_dirs() -> Seq<Seq<char>> {
    seq![
        "usr/share/icons/hicolor/256x256/apps"@,
        "usr/share/icons/hicolor/128x128/apps"@,
        "usr/share/icons/hicolor/64x64/apps"@,
        "usr/share/icons/hicolor/48x48/apps"@,
        "usr/share/icons/hicolor/32x32/apps"@,
        "usr/share/icons/hicolor/scalable/apps"@,
        "usr/share/icons/hicolor/16x16/apps"@,
        "usr/share/icons"@,
        "usr/share/pixmaps"@,
    ]
}

/// The files tried in one directory: the name with each image extension,
/// then the name alone.
pub open spec fn dir_candidates(dir: Seq<char>, name: Seq<char>) -> Seq<Seq<char>> {
    seq![
        path_join(dir, name + ".png"@),
        path_join(dir, name + ".svg"@),
        path_join(dir, name + ".xpm"@),
        path_join(dir, name + ".svgz"@),
        path_join(dir, name),
    ]
}

pub open spec fn candidates_in(base: Seq<char>, dirs: Seq<Seq<char>>, name: Seq<char>) -> Seq<Seq<char>>
    decreases dirs.len(),
{
    if dirs.len() == 0 {
        Seq::empty()
    } else {
        candidates_in(base, dirs.drop_last(), name) + dir_candidates(path_join(base, dirs.last()), name)
    }
}

/// The files, in the order tried, that may hold the icon `name` of a
/// sandbox rooted at `sandbox_dir`: an absolute name is only itself.
pub open spec fn icon_paths(sandbox_dir: Seq<char>, name: Seq<char>) -> Seq<Seq<char>> {
    if name.len() > 0 && name[0] == '/' {
        seq![name]
    } else {
        candidates_in(sandbox_dir, icon_dirs(), name)
    }
}

fn push_candidate(out: &mut Vec<String>, dir: &str, name: &str, ext: &str)
    ensures
        strings_view(final(out)@) == strings_view(old(out)@).push(path_join(dir@, name@ + ext@)),
{
    let mut f = String::new();
    push_str(&mut f, name);
    push_str(&mut f, ext);
    let ghost before = strings_view(out@);
    out.push(join(dir, f.as_str()));
    assert(strings_view(out@) =~= before.push(path_join(dir@, name@ + ext@)));
}

/// The files to try for the icon `icon_name` of the sandbox at
/// `sandbox_dir`, in order.
pub fn icon_candidates(sandbox_dir: &str, icon_name: &str) -> (r: Vec<String>)
    ensures
        strings_view(r@) == icon_paths(sandbox_dir@, icon_name@),
{
    let mut out: Vec<String> = Vec::new();
    let nv = chars_of(icon_name);
    if nv.len() > 0 && nv[0] == '/' {
        out.push(crate::text::owned(icon_name));
        assert(strings_view(out@) =~= seq![icon_name@]);
        return out;
    }
    let dirs: Vec<&str> = vec![
        "usr/share/icons/hicolor/256x256/apps",
        "usr/share/icons/hicolor/128x128/apps",
        "usr/share/icons/hicolor/64x64/apps",
        "usr/share/icons/hicolor/48x48/apps",
        "usr/share/icons/hicolor/32x32/apps",
        "usr/share/icons/hicolor/scalable/apps",
        "usr/share/icons/hicolor/16x16/apps",
        "usr/share/icons",
        "usr/share/pixmaps",
    ];
    let ghost ds = dirs@.map_values(|d: &str| d@);
    assert(ds =~= icon_dirs());
    let mut i: usize = 0;
    proof {
        assert(ds.take(0) =~= Seq::<Seq<char>>::empty());
    }
    while i < dirs.len()
        invariant
            i <= dirs@.len(),
            ds == dirs@.map_values(|d: &str| d@),
            ds == icon_dirs(),
            strings_view(out@) == candidates_in(sandbox_dir@, ds.take(i as int), icon_name@),
        decreases dirs.len() - i,
    {
        let d = join(sandbox_dir, dirs[i]);
        let ghost before = strings_view(out@);
        push_candidate(&mut out, d.as_str(), icon_name, ".png");
        push_candidate(&mut out, d.as_str(), icon_name, ".svg");
        push_candidate(&mut out, d.as_str(), icon_name, ".xpm");
        push_candidate(&mut out, d.as_str(), icon_name, ".svgz");
        let ghost mid = strings_view(out@);
        out.push(join(d.as_str(), icon_name));
        proof {
            assert(strings_view(out@) =~= mid.push(path_join(d@, icon_name@)));
            assert(ds.take(i + 1).drop_last() =~= ds.take(i as int));
            assert(ds.take(i + 1).last() == dirs@[i as int]@);
            assert(strings_view(out@) =~= before + dir_candidates(d@, icon_name@));
        }
        i += 1;
    }
    proof {
        assert(ds.take(ds.len() as int) =~= ds);
    }
    out
}

/// The first candidate whose flag is set, if any.
pub open spec fn first_flagged(cands: Seq<Seq<char>>, flags: Seq<bool>) -> Option<Seq<char>>
    decreases cands.len(),
{
    if cands.len() == 0 || flags.len() == 0 {
        None
    } else if flags[0] {
        Some(cands[0])
    } else {
        first_flagged(cands.drop_first(), flags.drop_first())
    }
}

/// The candidate at the first index whose existence flag is set; `None`
/// when no flag is set.
pub fn first_existing(cands: &Vec<String>, exists: &Vec<bool>) -> (r: Option<String>)
    requires
        cands@.len() == exists@.len(),
    ensures
        match first_flagged(strings_view(cands@), exists@) {
            Some(p) => r matches Some(s) && s@ == p,
            None => r is None,
        },
        r is None <==> forall|i: int| 0 <= i < exists@.len() ==> !#[trigger] exists@[i],
{
    let mut i: usize = 0;
    proof {
        assert(strings_view(cands@).skip(0) =~= strings_view(cands@));
        assert(exists@.skip(0) =~= exists@);
    }
    while i < cands.len()
        invariant
            i <= cands@.len() == exists@.len(),
            first_flagged(strings_view(cands@), exists@) == first_flagged(strings_view(cands@).skip(i as int), exists@.skip(i as int)),
            forall|k: int| 0 <= k < i ==> !#[trigger] exists@[k],
        decreases cands.len() - i,
    {
        proof {
            assert(strings_view(cands@).skip(i as int).drop_first() =~= strings_view(cands@).skip(i + 1));
            assert(exists@.skip(i as int).drop_first() =~= exists@.skip(i + 1));
            assert(strings_view(cands@).skip(i as int)[0] == cands@[i as int]@);
        }
        if exists[i] {
            return Some(crate::text::owned(cands[i].as_str()));
        }
        i += 1;
    }
    None
}

/// The first file of `icon_candidates` that exists, if any.  Which files
/// exist is the disk's answer; what is done with it is `first_existing`.
pub fn find_icon_path(sandbox_dir: &str, icon_name: &str) -> (r: Option<String>)
    ensures
        r matches Some(p) ==> icon_paths(sandbox_dir@, icon_name@).contains(p@),
{
    let c = icon_candidates(sandbox_dir, icon_name);
    let mut flags: Vec<bool> = Vec::new();
    let mut i: usize = 0;
    while i < c.len()
        invariant
            i <= c@.len(),
            flags@.len() == i,
        decreases c.len() - i,
    {
        flags.push(path_exists(c[i].as_str()));
        i += 1;
    }
    let r = first_existing(&c, &flags);
    proof {
        lemma_first_flagged_in(strings_view(c@), flags@);
    }
    r
}

proof fn lemma_first_flagged_in(cands: Seq<Seq<char>>, flags: Seq<bool>)
    ensures
        first_flagged(cands, flags) matches Some(p) ==> cands.contains(p),
    decreases cands.len(),
{
    if cands.len() > 0 && flags.len() > 0 && !flags[0] {
        lemma_first_flagged_in(cands.drop_first(), flags.drop_first());
        if let Some(p) = first_flagged(cands.drop_first(), flags.drop_first()) {
            let k = choose|k: int| 0 <= k < cands.drop_first().len() && cands.drop_first()[k] == p;
            assert(cands[k + 1] == p);
        }
    }
    if cands.len() > 0 && flags.len() > 0 && flags[0] {
        assert(cands[0] == cands[0]);
    }
}

/// Whether `file_name` is a wrapper entry of sandbox `sandbox_name`:
/// `spm-sandbox-<sandbox>-…​.desktop`.
pub open spec fn is_wrapper_of(file_name: Seq<char>, sandbox_name: Seq<char>) -> bool {
    starts_with(file_name, "spm-sandbox-"@ + sandbox_name + seq!['-']) && crate::text::ends_with(file_name, ".desktop"@)
}

pub fn is_wrapper_entry(file_name: &str, sandbox_name: &str) -> (r: bool)
    ensures
        r == is_wrapper_of(file_name@, sandbox_name@),
{
    let v = chars_of(file_name);
    let mut prefix = String::new();
    push_str(&mut prefix, "spm-sandbox-");
    push_str(&mut prefix, sandbox_name);
    prefix.push('-');
    proof {
        assert(v@.subrange(0, v@.len() as int) =~= file_name@);
        assert(prefix@ =~= "spm-sandbox-"@ + sandbox_name@ + seq!['-']);
    }
    starts_with_str(&v, 0, v.len(), prefix.as_str()) && crate::text::ends_with_str(&v, 0, v.len(), ".desktop")
}

} // verus!
