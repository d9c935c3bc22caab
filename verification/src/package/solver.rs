//! Dependency solving: dependency strings read as version constraints, and
//! the choice of a provider's version.
use vstd::prelude::*;
use crate::text::{
    chars_of, find, find_char, find_str, idx_of, str_eq, string_of, trim, trim_range, contains,
    contains_str, contains_str_in, lines, next_line, owned, push_str, starts_with, starts_with_str, strings_view,
    text_starts_with, words,
    words_of,
};
use crate::error::SpmError;
use crate::types::config::RepoSource;
use crate::types::package::{ids_view, PackageFormat, PackageId};
use crate::types::version::{
    parse_version, version_order, version_order_exec, version_text, Version, VersionStrategy,
    lemma_version_order_antisym, lemma_version_order_refl,
};

verus! {

// ---------------------------------------------------------------------------
// Names and constraints
// ---------------------------------------------------------------------------

/// The package name of a dependency string: the text before the first
/// space, then before the first `(`, trimmed (`"libc6 (>= 2.31)"` is
/// `libc6`, `"libssl.so.3()(64bit)"` is `libssl.so.3`).
pub open spec fn soname_name(raw: Seq<char>) -> Seq<char> {
    let k = idx_of(raw, ' ');
    let a = if k < raw.len() {
        trim(raw.take(k as int))
    } else {
        raw
    };
    trim(a.take(idx_of(a, '(') as int))
}

/// The range of `soname_name(v[lo..hi])`.
fn soname_range(v: &Vec<char>, lo: usize, hi: usize) -> (r: (usize, usize))
    requires
        lo <= hi <= v.len(),
    ensures
        lo <= r.0 <= r.1 <= hi,
        v@.subrange(r.0 as int, r.1 as int) == soname_name(v@.subrange(lo as int, hi as int)),
{
    let ghost raw = v@.subrange(lo as int, hi as int);
    let k = find_char(v, lo, hi, ' ');
    let (a, b) = if k < hi {
        proof {
            assert(raw.take(k - lo) =~= v@.subrange(lo as int, k as int));
        }
        trim_range(v, lo, k)
    } else {
        (lo, hi)
    };
    let p = find_char(v, a, b, '(');
    proof {
        assert(v@.subrange(a as int, b as int).take(p - a) =~= v@.subrange(a as int, p as int));
    }
    trim_range(v, a, p)
}

/// The package name of a dependency string.
pub fn extract_soname_name(raw: &str) -> (r: String)
    ensures
        r@ == soname_name(raw@),
{
    let v = chars_of(raw);
    proof {
        assert(v@.subrange(0, v@.len() as int) =~= raw@);
    }
    let (a, b) = soname_range(&v, 0, v.len());
    string_of(&v, a, b)
}

/// The set of versions a dependency accepts.
#[derive(Debug, Clone)]
pub enum VersionConstraint {
    Any,
    AtLeast(Version),
    Above(Version),
    AtMost(Version),
    Below(Version),
    Exactly(Version),
}

/// A constraint over parsed versions.
pub enum ConstraintView {
    Any,
    AtLeast((u32, Seq<char>, Seq<char>)),
    Above((u32, Seq<char>, Seq<char>)),
    AtMost((u32, Seq<char>, Seq<char>)),
    Below((u32, Seq<char>, Seq<char>)),
    Exactly((u32, Seq<char>, Seq<char>)),
}

impl View for VersionConstraint {
    type V = ConstraintView;

    open spec fn view(&self) -> ConstraintView {
        match self {
            VersionConstraint::Any => ConstraintView::Any,
            VersionConstraint::AtLeast(v) => ConstraintView::AtLeast(v@),
            VersionConstraint::Above(v) => ConstraintView::Above(v@),
            VersionConstraint::AtMost(v) => ConstraintView::AtMost(v@),
            VersionConstraint::Below(v) => ConstraintView::Below(v@),
            VersionConstraint::Exactly(v) => ConstraintView::Exactly(v@),
        }
    }
}

/// Whether constraint `c` accepts version `v`, by the version order.
pub open spec fn allows(c: ConstraintView, v: (u32, Seq<char>, Seq<char>)) -> bool {
    match c {
        ConstraintView::Any => true,
        ConstraintView::AtLeast(b) => version_order(v, b) >= 0,
        ConstraintView::Above(b) => version_order(v, b) > 0,
        ConstraintView::AtMost(b) => version_order(v, b) <= 0,
        ConstraintView::Below(b) => version_order(v, b) < 0,
        ConstraintView::Exactly(b) => version_order(v, b) == 0,
    }
}

impl VersionConstraint {
    /// Whether this constraint accepts `v`.
    pub fn allows(&self, v: &Version) -> (r: bool)
        ensures
            r == allows(self@, v@),
    {
        match self {
            VersionConstraint::Any => true,
            VersionConstraint::AtLeast(b) => version_order_exec(v, b) >= 0,
            VersionConstraint::Above(b) => version_order_exec(v, b) > 0,
            VersionConstraint::AtMost(b) => version_order_exec(v, b) <= 0,
            VersionConstraint::Below(b) => version_order_exec(v, b) < 0,
            VersionConstraint::Exactly(b) => version_order_exec(v, b) == 0,
        }
    }
}

/// The constraint an operator and a version text stand for.  `>>` is read
/// as `>=` and `<<` as `<=`; an unknown operator accepts every version.
pub open spec fn op_constraint(op: Seq<char>, ver: Seq<char>) -> ConstraintView {
    let v = parse_version(ver);
    if op == ">="@ || op == ">>"@ {
        ConstraintView::AtLeast(v)
    } else if op == ">"@ {
        ConstraintView::Above(v)
    } else if op == "<="@ || op == "<<"@ {
        ConstraintView::AtMost(v)
    } else if op == "<"@ {
        ConstraintView::Below(v)
    } else if op == "="@ {
        ConstraintView::Exactly(v)
    } else {
        ConstraintView::Any
    }
}

/// The constraint for operator `op` and version text `ver`.
pub fn op_str_to_range(op: &str, ver: &str) -> (c: VersionConstraint)
    ensures
        c@ == op_constraint(op@, ver@),
{
    let v = Version::parse(ver);
    if str_eq(op, ">=") || str_eq(op, ">>") {
        VersionConstraint::AtLeast(v)
    } else if str_eq(op, ">") {
        VersionConstraint::Above(v)
    } else if str_eq(op, "<=") || str_eq(op, "<<") {
        VersionConstraint::AtMost(v)
    } else if str_eq(op, "<") {
        VersionConstraint::Below(v)
    } else if str_eq(op, "=") {
        VersionConstraint::Exactly(v)
    } else {
        VersionConstraint::Any
    }
}

/// The first of the operators `>=`, `<=`, `>>`, `<<`, `>`, `<`, `=` (in this
/// order) that occurs in `t`, with the position of its first occurrence.
pub open spec fn first_op(t: Seq<char>) -> Option<(Seq<char>, int)> {
    if find(t, ">="@) is Some {
        Some((">="@, find(t, ">="@)->0))
    } else if find(t, "<="@) is Some {
        Some(("<="@, find(t, "<="@)->0))
    } else if find(t, ">>"@) is Some {
        Some((">>"@, find(t, ">>"@)->0))
    } else if find(t, "<<"@) is Some {
        Some(("<<"@, find(t, "<<"@)->0))
    } else if find(t, ">"@) is Some {
        Some((">"@, find(t, ">"@)->0))
    } else if find(t, "<"@) is Some {
        Some(("<"@, find(t, "<"@)->0))
    } else if find(t, "="@) is Some {
        Some(("="@, find(t, "="@)->0))
    } else {
        None
    }
}

/// Looks for `op` in `v[lo..hi]`.
fn op_in(v: &Vec<char>, lo: usize, hi: usize, op: &str) -> (r: Option<usize>)
    requires
        lo <= hi <= v.len(),
    ensures
        match find(v@.subrange(lo as int, hi as int), op@) {
            Some(k) => 0 <= k && r == Some((lo + k) as usize) && lo + k + op@.len() <= hi,
            None => r is None,
        },
{
    let p = chars_of(op);
    find_str(v, lo, hi, p.as_slice())
}

/// The first operator of `v[lo..hi]` (see `first_op`), its text and where
/// it starts.
fn first_op_in(v: &Vec<char>, lo: usize, hi: usize) -> (r: Option<(String, usize)>)
    requires
        lo <= hi <= v.len(),
    ensures
        match first_op(v@.subrange(lo as int, hi as int)) {
            Some((op, k)) => r matches Some((o, p)) && o@ == op && p == lo + k && lo <= p && p + op.len() <= hi,
            None => r is None,
        },
{
    if let Some(p) = op_in(v, lo, hi, ">=") {
        return Some((owned(">="), p));
    }
    if let Some(p) = op_in(v, lo, hi, "<=") {
        return Some((owned("<="), p));
    }
    if let Some(p) = op_in(v, lo, hi, ">>") {
        return Some((owned(">>"), p));
    }
    if let Some(p) = op_in(v, lo, hi, "<<") {
        return Some((owned("<<"), p));
    }
    if let Some(p) = op_in(v, lo, hi, ">") {
        return Some((owned(">"), p));
    }
    if let Some(p) = op_in(v, lo, hi, "<") {
        return Some((owned("<"), p));
    }
    if let Some(p) = op_in(v, lo, hi, "=") {
        return Some((owned("="), p));
    }
    None
}

/// `split_op_ver`: the operator and the version of `op ver` (both trimmed);
/// without an operator, no operator and the whole text.
pub open spec fn op_and_version(s: Seq<char>) -> (Seq<char>, Seq<char>) {
    let t = trim(s);
    match first_op(t) {
        Some((op, k)) => (op, trim(t.skip(k + op.len()))),
        None => (Seq::empty(), t),
    }
}

/// Splits `op ver` into the operator and the version.
pub fn split_op_ver(s: &str) -> (r: (String, String))
    ensures
        r.0@ == op_and_version(s@).0,
        r.1@ == op_and_version(s@).1,
{
    let v = chars_of(s);
    proof {
        assert(v@.subrange(0, v@.len() as int) =~= s@);
    }
    let (a, b) = trim_range(&v, 0, v.len());
    match first_op_in(&v, a, b) {
        Some((op, k)) => {
            let ghost t = v@.subrange(a as int, b as int);
            proof {
                assert(first_op(t) is Some);
            }
            let start = k + chars_of(op.as_str()).len();
            let (x, y) = trim_range(&v, start, b);
            proof {
                assert(t.skip(k - a + op@.len()) =~= v@.subrange(start as int, b as int));
            }
            (op, string_of(&v, x, y))
        },
        None => (String::new(), string_of(&v, a, b)),
    }
}

/// `s.trim_end_matches(')')`.
pub open spec fn strip_rparens(s: Seq<char>) -> Seq<char>
    decreases s.len(),
{
    if s.len() > 0 && s.last() == ')' {
        strip_rparens(s.drop_last())
    } else {
        s
    }
}

/// The name and the constraint that a dependency string stands for:
/// `name (op ver)` (Debian), `name op ver` (RPM) or a plain name.
pub open spec fn dep_constraint(raw: Seq<char>) -> (Seq<char>, ConstraintView) {
    let r = trim(raw);
    let k = idx_of(r, '(');
    if k < r.len() {
        let inner = trim(strip_rparens(r.skip((k + 1) as int)));
        let ov = op_and_version(inner);
        (trim(r.take(k as int)), op_constraint(ov.0, ov.1))
    } else {
        match first_op(r) {
            Some((op, p)) => (trim(r.take(p)), op_constraint(op, trim(r.skip(p + op.len())))),
            None => (soname_name(r), ConstraintView::Any),
        }
    }
}

/// `name (op ver)`: the parenthesised form, with `(` at `k` in `v[a..b]`.
fn paren_dep(v: &Vec<char>, a: usize, b: usize, k: usize) -> (r: (String, VersionConstraint))
    requires
        a <= k < b <= v.len(),
        idx_of(v@.subrange(a as int, b as int), '(') == k - a,
    ensures
        trim(v@.subrange(a as int, b as int)) == v@.subrange(a as int, b as int) ==> r.0@ == dep_constraint(v@.subrange(a as int, b as int)).0
            && r.1@ == dep_constraint(v@.subrange(a as int, b as int)).1,
{
    let ghost r = v@.subrange(a as int, b as int);
    let (na, nb) = trim_range(v, a, k);
    let mut e = b;
    while e > k + 1 && v[e - 1] == ')'
        invariant
            a <= k < b <= v.len(),
            k + 1 <= e <= b,
            strip_rparens(v@.subrange(k + 1, b as int)) == strip_rparens(v@.subrange(k + 1, e as int)),
        decreases e,
    {
        assert(v@.subrange(k + 1, e as int).drop_last() =~= v@.subrange(k + 1, e - 1));
        e -= 1;
    }
    let inner = string_of(v, k + 1, e);
    let (op, ver) = split_op_ver(inner.as_str());
    let c = op_str_to_range(op.as_str(), ver.as_str());
    proof {
        assert(r.take(k - a) =~= v@.subrange(a as int, k as int));
        assert(r.skip(k - a + 1) =~= v@.subrange(k + 1, b as int));
        let w = v@.subrange(k + 1, e as int);
        assert(strip_rparens(w) == w);
        crate::text::lemma_trim_idem(w);
        assert(op_and_version(w) == op_and_version(trim(w)));
    }
    (string_of(v, na, nb), c)
}

/// `name op ver` or a plain name, in the trimmed text `v[a..b]` that has no `(`.
fn plain_dep(v: &Vec<char>, a: usize, b: usize) -> (r: (String, VersionConstraint))
    requires
        a <= b <= v.len(),
    ensures
        r.0@ == match first_op(v@.subrange(a as int, b as int)) {
            Some((op, p)) => trim(v@.subrange(a as int, b as int).take(p)),
            None => soname_name(v@.subrange(a as int, b as int)),
        },
        r.1@ == match first_op(v@.subrange(a as int, b as int)) {
            Some((op, p)) => op_constraint(op, trim(v@.subrange(a as int, b as int).skip(p + op.len()))),
            None => ConstraintView::Any,
        },
{
    let ghost r = v@.subrange(a as int, b as int);
    match first_op_in(v, a, b) {
        Some((op, p)) => {
            proof {
                assert(first_op(r) is Some);
            }
            let (na, nb) = trim_range(v, a, p);
            let start = p + chars_of(op.as_str()).len();
            let (x, y) = trim_range(v, start, b);
            let ver = string_of(v, x, y);
            let c = op_str_to_range(op.as_str(), ver.as_str());
            proof {
                assert(r.take(p - a) =~= v@.subrange(a as int, p as int));
                assert(r.skip(p - a + op@.len()) =~= v@.subrange(start as int, b as int));
            }
            (string_of(v, na, nb), c)
        },
        None => {
            let (x, y) = soname_range(v, a, b);
            (string_of(v, x, y), VersionConstraint::Any)
        },
    }
}

/// Reads a dependency string into a package name and a version constraint.
pub fn dep_string_to_range(raw: &str) -> (r: (String, VersionConstraint))
    ensures
        r.0@ == dep_constraint(raw@).0,
        r.1@ == dep_constraint(raw@).1,
{
    let v = chars_of(raw);
    proof {
        assert(v@.subrange(0, v@.len() as int) =~= raw@);
    }
    let (a, b) = trim_range(&v, 0, v.len());
    proof {
        crate::text::lemma_trim_idem(raw@);
    }
    let k = find_char(&v, a, b, '(');
    if k < b {
        paren_dep(&v, a, b, k)
    } else {
        plain_dep(&v, a, b)
    }
}

// ---------------------------------------------------------------------------
// Providers
// ---------------------------------------------------------------------------

/// A package that provides a name (a package name or a capability such as
/// a SONAME), at some version, from some repository.
#[derive(Debug, Clone)]
pub struct SonameProvider {
    pub pkg: String,
    pub version: String,
    pub priority: u32,
    pub source: RepoSource,
}

pub type ProviderView = (Seq<char>, Seq<char>, u32, RepoSource);

impl View for SonameProvider {
    type V = ProviderView;

    open spec fn view(&self) -> ProviderView {
        (self.pkg@, self.version@, self.priority, self.source)
    }
}

pub open spec fn providers_view(v: Seq<SonameProvider>) -> Seq<ProviderView> {
    v.map_values(|p: SonameProvider| p@)
}

/// What the solver reads about the repositories: the providers of each name
/// and the requirements of each package.
#[derive(Debug, Clone)]
pub struct SonameIndex {
    pub providers: Vec<(String, Vec<SonameProvider>)>,
    pub requires: Vec<(String, Vec<String>)>,
}

/// The first entry of `table` for `name`.
pub open spec fn lookup<T>(table: Seq<(String, T)>, name: Seq<char>) -> Option<T>
    decreases table.len(),
{
    if table.len() == 0 {
        None
    } else if table[0].0@ == name {
        Some(table[0].1)
    } else {
        lookup(table.drop_first(), name)
    }
}

/// Position of the first entry of `table` for `name`.
pub fn lookup_index<T>(table: &Vec<(String, T)>, name: &str) -> (r: Option<usize>)
    ensures
        match lookup(table@, name@) {
            Some(x) => r matches Some(i) && i < table@.len() && table@[i as int].1 == x,
            None => r is None,
        },
{
    let mut i: usize = 0;
    assert(table@.skip(0) =~= table@);
    while i < table.len()
        invariant
            i <= table@.len(),
            lookup(table@, name@) == lookup(table@.skip(i as int), name@),
        decreases table.len() - i,
    {
        proof {
            assert(table@.skip(i as int)[0] == table@[i as int]);
            assert(table@.skip(i as int).drop_first() =~= table@.skip(i + 1));
        }
        if str_eq(table[i].0.as_str(), name) {
            return Some(i);
        }
        i += 1;
    }
    proof {
        assert(table@.skip(i as int).len() == 0);
    }
    None
}

/// Whether a provider is on the preferred (`side`) or the other side of the
/// split by preferred source.
pub open spec fn in_group(p: ProviderView, pref: Option<RepoSource>, side: bool) -> bool {
    (match pref {
        Some(s) => p.3 == s,
        None => false,
    }) == side
}

/// The highest version among the providers of one side; of equal ones the
/// last (`Iterator::max_by_key`).
pub open spec fn newest(ps: Seq<ProviderView>, pref: Option<RepoSource>, side: bool) -> Option<(u32, Seq<char>, Seq<char>)>
    decreases ps.len(),
{
    if ps.len() == 0 {
        None
    } else {
        let b = newest(ps.drop_last(), pref, side);
        let last = ps.last();
        if in_group(last, pref, side) {
            let lv = parse_version(last.1);
            match b {
                None => Some(lv),
                Some(bv) => if version_order(lv, bv) >= 0 {
                    Some(lv)
                } else {
                    b
                },
            }
        } else {
            b
        }
    }
}

/// The provider of one side with the lowest priority number; of equal ones
/// the first (a stable sort by priority, then the first).
pub open spec fn stablest(ps: Seq<ProviderView>, pref: Option<RepoSource>, side: bool) -> Option<ProviderView>
    decreases ps.len(),
{
    if ps.len() == 0 {
        None
    } else {
        let b = stablest(ps.drop_last(), pref, side);
        let last = ps.last();
        if in_group(last, pref, side) {
            match b {
                None => Some(last),
                Some(bp) => if last.2 < bp.2 {
                    Some(last)
                } else {
                    b
                },
            }
        } else {
            b
        }
    }
}

/// The version the solver picks among providers: the newest (the preferred
/// source winning ties) or the one from the repository of highest priority
/// (the preferred source first).
pub open spec fn best_version_of(ps: Seq<ProviderView>, strategy: VersionStrategy, pref: Option<RepoSource>) -> Option<(u32, Seq<char>, Seq<char>)> {
    match strategy {
        VersionStrategy::PreferNewest => match (newest(ps, pref, true), newest(ps, pref, false)) {
            (Some(a), Some(b)) => if version_order(a, b) >= 0 {
                Some(a)
            } else {
                Some(b)
            },
            (Some(a), None) => Some(a),
            (None, Some(b)) => Some(b),
            (None, None) => None,
        },
        VersionStrategy::PreferStable => match stablest(ps, pref, true) {
            Some(p) => Some(parse_version(p.1)),
            None => match stablest(ps, pref, false) {
                Some(p) => Some(parse_version(p.1)),
                None => None,
            },
        },
    }
}

/// Whether every provider's version is `u` or older than `u`.
pub open spec fn dominated_by(ps: Seq<ProviderView>, u: (u32, Seq<char>, Seq<char>)) -> bool {
    forall|j: int| 0 <= j < ps.len() ==> parse_version((#[trigger] ps[j]).1) == u || version_order(parse_version(ps[j].1), u) < 0
}

proof fn lemma_newest_member(ps: Seq<ProviderView>, pref: Option<RepoSource>, side: bool)
    ensures
        match newest(ps, pref, side) {
            Some(w) => exists|k: int| 0 <= k < ps.len() && in_group(ps[k], pref, side) && parse_version(ps[k].1) == w,
            None => forall|k: int| 0 <= k < ps.len() ==> !in_group(#[trigger] ps[k], pref, side),
        },
    decreases ps.len(),
{
    if ps.len() > 0 {
        let pre = ps.drop_last();
        lemma_newest_member(pre, pref, side);
        match newest(pre, pref, side) {
            Some(w) => {
                let k = choose|k: int| 0 <= k < pre.len() && in_group(pre[k], pref, side) && parse_version(pre[k].1) == w;
                assert(ps[k] == pre[k]);
            },
            None => {
                assert forall|k: int| 0 <= k < ps.len() - 1 implies !in_group(#[trigger] ps[k], pref, side) by {
                    assert(ps[k] == pre[k]);
                }
            },
        }
        assert(ps.last() == ps[ps.len() - 1]);
    }
}

proof fn lemma_newest_dominant(ps: Seq<ProviderView>, pref: Option<RepoSource>, side: bool, u: (u32, Seq<char>, Seq<char>), i: int)
    requires
        dominated_by(ps, u),
        0 <= i < ps.len(),
        in_group(ps[i], pref, side),
        parse_version(ps[i].1) == u,
    ensures
        newest(ps, pref, side) == Some(u),
    decreases ps.len(),
{
    let pre = ps.drop_last();
    let last = ps.last();
    assert(last == ps[ps.len() - 1]);
    assert(dominated_by(pre, u)) by {
        assert forall|j: int| 0 <= j < pre.len() implies parse_version((#[trigger] pre[j]).1) == u || version_order(
            parse_version(pre[j].1),
            u,
        ) < 0 by {
            assert(pre[j] == ps[j]);
        }
    }
    lemma_newest_member(pre, pref, side);
    if i < ps.len() - 1 {
        assert(pre[i] == ps[i]);
        lemma_newest_dominant(pre, pref, side, u, i);
        if in_group(last, pref, side) {
            let lv = parse_version(last.1);
            if lv != u {
                assert(version_order(lv, u) < 0);
            }
        }
    } else {
        lemma_version_order_refl(u);
        match newest(pre, pref, side) {
            Some(bv) => {
                let k = choose|k: int| 0 <= k < pre.len() && in_group(pre[k], pref, side) && parse_version(pre[k].1) == bv;
                assert(pre[k] == ps[k]);
                lemma_version_order_antisym(bv, u);
            },
            None => {},
        }
    }
}

/// Under `PreferNewest`, a provider whose version every other provider's
/// version is equal to or older than is the one picked, whatever the
/// preferred source: the preferred source only breaks ties.
pub proof fn law_newest_wins(ps: Seq<ProviderView>, pref: Option<RepoSource>, i: int)
    requires
        0 <= i < ps.len(),
        dominated_by(ps, parse_version(ps[i].1)),
    ensures
        best_version_of(ps, VersionStrategy::PreferNewest, pref) == Some(parse_version(ps[i].1)),
{
    let u = parse_version(ps[i].1);
    let side = match pref {
        Some(s) => ps[i].3 == s,
        None => false,
    };
    lemma_newest_dominant(ps, pref, side, u, i);
    lemma_newest_member(ps, pref, !side);
    lemma_version_order_refl(u);
    match newest(ps, pref, !side) {
        Some(w) => {
            let k = choose|k: int| 0 <= k < ps.len() && in_group(ps[k], pref, !side) && parse_version(ps[k].1) == w;
            assert(parse_version(ps[k].1) == u || version_order(parse_version(ps[k].1), u) < 0);
            lemma_version_order_antisym(w, u);
        },
        None => {},
    }
}

fn in_group_exec(p: &SonameProvider, pref: Option<RepoSource>, side: bool) -> (r: bool)
    ensures
        r == in_group(p@, pref, side),
{
    let is_pref = match pref {
        Some(s) => p.source == s,
        None => false,
    };
    is_pref == side
}

/// `newest` over `ps`.
fn newest_exec(ps: &Vec<SonameProvider>, pref: Option<RepoSource>, side: bool) -> (r: Option<Version>)
    ensures
        match newest(providers_view(ps@), pref, side) {
            Some(v) => r matches Some(x) && x@ == v,
            None => r is None,
        },
{
    let mut best: Option<Version> = None;
    let mut i: usize = 0;
    while i < ps.len()
        invariant
            i <= ps@.len(),
            match newest(providers_view(ps@.take(i as int)), pref, side) {
                Some(v) => best matches Some(x) && x@ == v,
                None => best is None,
            },
        decreases ps.len() - i,
    {
        proof {
            assert(providers_view(ps@.take(i + 1)).drop_last() =~= providers_view(ps@.take(i as int)));
            assert(providers_view(ps@.take(i + 1)).last() == ps@[i as int]@);
        }
        if in_group_exec(&ps[i], pref, side) {
            let lv = Version::parse(ps[i].version.as_str());
            let replace = match &best {
                None => true,
                Some(bv) => version_order_exec(&lv, bv) >= 0,
            };
            if replace {
                best = Some(lv);
            }
        }
        i += 1;
    }
    assert(ps@.take(ps@.len() as int) =~= ps@);
    best
}

/// Position of `stablest` over `ps`.
fn stablest_exec(ps: &Vec<SonameProvider>, pref: Option<RepoSource>, side: bool) -> (r: Option<usize>)
    ensures
        match stablest(providers_view(ps@), pref, side) {
            Some(p) => r matches Some(i) && i < ps@.len() && ps@[i as int]@ == p,
            None => r is None,
        },
{
    let mut best: Option<usize> = None;
    let mut i: usize = 0;
    while i < ps.len()
        invariant
            i <= ps@.len(),
            match stablest(providers_view(ps@.take(i as int)), pref, side) {
                Some(p) => best matches Some(j) && j < i && ps@[j as int]@ == p,
                None => best is None,
            },
        decreases ps.len() - i,
    {
        proof {
            assert(providers_view(ps@.take(i + 1)).drop_last() =~= providers_view(ps@.take(i as int)));
            assert(providers_view(ps@.take(i + 1)).last() == ps@[i as int]@);
        }
        if in_group_exec(&ps[i], pref, side) {
            let replace = match best {
                None => true,
                Some(j) => ps[i].priority < ps[j].priority,
            };
            if replace {
                best = Some(i);
            }
        }
        i += 1;
    }
    assert(ps@.take(ps@.len() as int) =~= ps@);
    best
}

/// The version to pick among `ps`.
pub fn best_version_among(ps: &Vec<SonameProvider>, strategy: VersionStrategy, pref: Option<RepoSource>) -> (r: Option<Version>)
    ensures
        match best_version_of(providers_view(ps@), strategy, pref) {
            Some(v) => r matches Some(x) && x@ == v,
            None => r is None,
        },
{
    match strategy {
        VersionStrategy::PreferNewest => {
            let a = newest_exec(ps, pref, true);
            let b = newest_exec(ps, pref, false);
            match (a, b) {
                (Some(va), Some(vb)) => {
                    if version_order_exec(&va, &vb) >= 0 {
                        Some(va)
                    } else {
                        Some(vb)
                    }
                },
                (Some(va), None) => Some(va),
                (None, Some(vb)) => Some(vb),
                (None, None) => None,
            }
        },
        VersionStrategy::PreferStable => {
            match stablest_exec(ps, pref, true) {
                Some(i) => Some(Version::parse(ps[i].version.as_str())),
                None => match stablest_exec(ps, pref, false) {
                    Some(i) => Some(Version::parse(ps[i].version.as_str())),
                    None => None,
                },
            }
        },
    }
}

/// The solver's view of the repositories, with its strategy.
pub struct SpmDepProvider {
    pub index: SonameIndex,
    pub strategy: VersionStrategy,
    pub preferred_source: Option<RepoSource>,
}

/// The providers the index lists for `name` (none when it lists none).
pub open spec fn providers_of(index: SonameIndex, name: Seq<char>) -> Seq<ProviderView> {
    match lookup(index.providers@, name) {
        Some(v) => providers_view(v@),
        None => Seq::empty(),
    }
}

impl SpmDepProvider {
    pub fn new(index: SonameIndex, strategy: VersionStrategy) -> (p: SpmDepProvider)
        ensures
            p.index == index,
            p.strategy == strategy,
            p.preferred_source is None,
    {
        SpmDepProvider { index, strategy, preferred_source: None }
    }

    pub fn with_preferred_source(self, source: RepoSource) -> (p: SpmDepProvider)
        ensures
            p.index == self.index,
            p.strategy == self.strategy,
            p.preferred_source == Some(source),
    {
        SpmDepProvider { preferred_source: Some(source), ..self }
    }

    /// The version the solver picks for `package`: `None` when nothing
    /// provides it.
    pub fn best_version(&self, package: &str) -> (r: Option<Version>)
        ensures
            match best_version_of(providers_of(self.index, package@), self.strategy, self.preferred_source) {
                Some(v) => r matches Some(x) && x@ == v,
                None => r is None,
            },
    {
        match lookup_index(&self.index.providers, package) {
            Some(i) => best_version_among(&self.index.providers[i].1, self.strategy, self.preferred_source),
            None => {
                let empty: Vec<SonameProvider> = Vec::new();
                proof {
                    assert(providers_view(empty@) =~= Seq::<ProviderView>::empty());
                }
                best_version_among(&empty, self.strategy, self.preferred_source)
            },
        }
    }

    /// The version to try for `package` within `range`, if the best one is
    /// in it.
    pub fn choose_version(&self, package: &str, range: &VersionConstraint) -> (r: Option<Version>)
        ensures
            match best_version_of(providers_of(self.index, package@), self.strategy, self.preferred_source) {
                Some(v) => if allows(range@, v) {
                    r matches Some(x) && x@ == v
                } else {
                    r is None
                },
                None => r is None,
            },
    {
        match self.best_version(package) {
            Some(v) => {
                if range.allows(&v) {
                    Some(v)
                } else {
                    None
                }
            },
            None => None,
        }
    }

    /// Packages whose best version fits come first (1); others last.
    pub fn prioritize(&self, package: &str, range: &VersionConstraint) -> (r: usize)
        ensures
            r == match best_version_of(providers_of(self.index, package@), self.strategy, self.preferred_source) {
                Some(v) => if allows(range@, v) {
                    1
                } else {
                    usize::MAX
                },
                None => usize::MAX,
            },
    {
        match self.best_version(package) {
            Some(v) => {
                if range.allows(&v) {
                    1
                } else {
                    usize::MAX
                }
            },
            None => usize::MAX,
        }
    }

    /// The constraints that `package` puts on other packages: its
    /// requirements read by `dep_string_to_range`, without nameless ones.
    pub fn get_dependencies(&self, package: &str) -> (r: Vec<(String, VersionConstraint)>)
        ensures
            deps_view(r@) == match lookup(self.index.requires@, package@) {
                Some(reqs) => named_deps(strings_view(reqs@)),
                None => Seq::empty(),
            },
    {
        let mut r: Vec<(String, VersionConstraint)> = Vec::new();
        match lookup_index(&self.index.requires, package) {
            None => {
                assert(deps_view(r@) =~= Seq::<(Seq<char>, ConstraintView)>::empty());
                r
            },
            Some(k) => {
                let reqs = &self.index.requires[k].1;
                let mut i: usize = 0;
                assert(deps_view(r@) =~= named_deps(strings_view(reqs@.take(0))));
                while i < reqs.len()
                    invariant
                        i <= reqs@.len(),
                        deps_view(r@) == named_deps(strings_view(reqs@.take(i as int))),
                    decreases reqs.len() - i,
                {
                    let ghost before = deps_view(r@);
                    let (name, c) = dep_string_to_range(reqs[i].as_str());
                    proof {
                        assert(strings_view(reqs@.take(i + 1)).drop_last() =~= strings_view(reqs@.take(i as int)));
                        assert(strings_view(reqs@.take(i + 1)).last() == reqs@[i as int]@);
                    }
                    if !name.as_str().is_empty() {
                        r.push((name, c));
                        proof {
                            assert(deps_view(r@) =~= before.push(dep_constraint(reqs@[i as int]@)));
                        }
                    } else {
                        proof {
                            assert(before + Seq::<(Seq<char>, ConstraintView)>::empty() =~= before);
                        }
                    }
                    i += 1;
                }
                assert(reqs@.take(reqs@.len() as int) =~= reqs@);
                r
            },
        }
    }
}

/// The constraints of a list of requirements, nameless ones left out.
pub open spec fn named_deps(reqs: Seq<Seq<char>>) -> Seq<(Seq<char>, ConstraintView)>
    decreases reqs.len(),
{
    if reqs.len() == 0 {
        Seq::empty()
    } else {
        let d = dep_constraint(reqs.last());
        named_deps(reqs.drop_last()) + if d.0.len() > 0 {
            seq![d]
        } else {
            Seq::empty()
        }
    }
}

pub open spec fn deps_view(v: Seq<(String, VersionConstraint)>) -> Seq<(Seq<char>, ConstraintView)> {
    v.map_values(|d: (String, VersionConstraint)| (d.0@, d.1@))
}

// ---------------------------------------------------------------------------
// The native resolvers' output
// ---------------------------------------------------------------------------

/// The names in order of first appearance, each once.
pub open spec fn dedup_run(acc: Seq<Seq<char>>, ns: Seq<Seq<char>>) -> Seq<Seq<char>>
    decreases ns.len(),
{
    if ns.len() == 0 {
        acc
    } else if acc.contains(ns[0]) {
        dedup_run(acc, ns.drop_first())
    } else {
        dedup_run(acc.push(ns[0]), ns.drop_first())
    }
}

pub open spec fn dedup_names(ns: Seq<Seq<char>>) -> Seq<Seq<char>> {
    dedup_run(Seq::empty(), ns)
}

/// `ids` are packages of format `f` with the names `ns`, in order.
pub open spec fn ids_named(ids: Seq<(Seq<char>, PackageFormat, Seq<char>)>, ns: Seq<Seq<char>>, f: PackageFormat) -> bool {
    &&& ids.len() == ns.len()
    &&& forall|i: int| 0 <= i < ns.len() ==> #[trigger] ids[i] == (ns[i], f, Seq::<char>::empty())
}

/// The names `dnf repoquery --requires --resolve` prints for `package`:
/// each trimmed line once, without blanks and without the root itself.
pub open spec fn repoquery_names(ls: Seq<Seq<char>>, package: Seq<char>) -> Seq<Seq<char>>
    decreases ls.len(),
{
    if ls.len() == 0 {
        Seq::empty()
    } else {
        let n = trim(ls.last());
        let rest = repoquery_names(ls.drop_last(), package);
        if n.len() == 0 || n == package {
            rest
        } else {
            rest.push(n)
        }
    }
}

fn push_unique(names: &mut Vec<String>, ids: &mut Vec<PackageId>, n: String, f: PackageFormat)
    requires
        ids_named(ids_view(old(ids)@), strings_view(old(names)@), f),
    ensures
        ids_named(ids_view(final(ids)@), strings_view(final(names)@), f),
        strings_view(final(names)@) == if strings_view(old(names)@).contains(n@) {
            strings_view(old(names)@)
        } else {
            strings_view(old(names)@).push(n@)
        },
{
    if !contains_str(names, n.as_str()) {
        let id = PackageId::new(n.as_str(), f);
        let ghost b = strings_view(names@);
        let ghost bi = ids_view(ids@);
        names.push(n);
        ids.push(id);
        proof {
            assert(strings_view(names@) =~= b.push(n@));
            assert(ids_view(ids@) =~= bi.push(id@));
            assert forall|i: int| 0 <= i < strings_view(names@).len() implies #[trigger] ids_view(ids@)[i] == (
                strings_view(names@)[i],
                f,
                Seq::<char>::empty(),
            ) by {
                if i < b.len() {
                    assert(ids_view(ids@)[i] == bi[i]);
                }
            }
        }
    }
}

/// The packages `dnf repoquery --requires --resolve <package>` names: the
/// root first, then each other name once, in order, all RPM packages.
pub fn parse_dnf_repoquery(stdout: &str, package: &str) -> (r: Vec<PackageId>)
    ensures
        ids_named(
            ids_view(r@),
            seq![package@] + dedup_names(repoquery_names(lines(stdout@), package@)),
            PackageFormat::Rpm,
        ),
{
    let v = chars_of(stdout);
    let n = v.len();
    let mut names: Vec<String> = Vec::new();
    let mut ids: Vec<PackageId> = Vec::new();
    let ghost all = lines(stdout@);
    let mut pos: usize = 0;
    proof {
        assert(v@.skip(0) =~= stdout@);
        assert(all.take(0) =~= Seq::<Seq<char>>::empty());
    }
    let ghost k: int = 0;
    while pos < n
        invariant
            n == v@.len(),
            v@ == stdout@,
            pos <= n,
            all == lines(stdout@),
            0 <= k <= all.len(),
            lines(v@.skip(pos as int)) == all.skip(k),
            ids_named(ids_view(ids@), strings_view(names@), PackageFormat::Rpm),
            strings_view(names@) == dedup_names(repoquery_names(all.take(k), package@)),
        decreases n - pos,
    {
        let (e, next) = next_line(&v, pos);
        let (a, b) = trim_range(&v, pos, e);
        let ghost l = v@.subrange(pos as int, e as int);
        proof {
            let ls = lines(v@.skip(pos as int));
            assert(ls[0] == l);
            assert(ls.len() >= 1);
            assert(k < all.len());
            assert(all.skip(k)[0] == all[k]);
            assert(all[k] == l);
            assert(ls.drop_first() =~= lines(v@.skip(next as int)));
            assert(all.skip(k + 1) =~= all.skip(k).drop_first());
            assert(all.take(k + 1).drop_last() =~= all.take(k));
            assert(all.take(k + 1).last() == l);
        }
        let name = string_of(&v, a, b);
        if a < b && !str_eq(name.as_str(), package) {
            let ghost before = strings_view(names@);
            push_unique(&mut names, &mut ids, name, PackageFormat::Rpm);
            proof {
                lemma_dedup_push(repoquery_names(all.take(k), package@), trim(l));
            }
        }
        proof {
            k = k + 1;
        }
        pos = next;
    }
    proof {
        assert(v@.skip(n as int) =~= Seq::<char>::empty());
        assert(all.skip(k) =~= Seq::<Seq<char>>::empty());
        assert(all.take(k) =~= all);
    }
    let root = PackageId::new(package, PackageFormat::Rpm);
    let ghost before = ids_view(ids@);
    ids.insert(0, root);
    proof {
        let goal = seq![package@] + strings_view(names@);
        assert(ids_view(ids@) =~= seq![root@] + before);
        assert forall|i: int| 0 <= i < goal.len() implies #[trigger] ids_view(ids@)[i] == (
            goal[i],
            PackageFormat::Rpm,
            Seq::<char>::empty(),
        ) by {
            if i > 0 {
                assert(ids_view(ids@)[i] == before[i - 1]);
            }
        }
    }
    ids
}

/// Deduplicating a list with one more name at the end.
proof fn lemma_dedup_push(ns: Seq<Seq<char>>, x: Seq<char>)
    ensures
        dedup_names(ns.push(x)) == if dedup_names(ns).contains(x) {
            dedup_names(ns)
        } else {
            dedup_names(ns).push(x)
        },
{
    lemma_dedup_run_push(Seq::empty(), ns, x);
}

proof fn lemma_dedup_run_push(acc: Seq<Seq<char>>, ns: Seq<Seq<char>>, x: Seq<char>)
    ensures
        dedup_run(acc, ns.push(x)) == if dedup_run(acc, ns).contains(x) {
            dedup_run(acc, ns)
        } else {
            dedup_run(acc, ns).push(x)
        },
    decreases ns.len(),
{
    if ns.len() == 0 {
        assert(seq![x].drop_first() =~= Seq::<Seq<char>>::empty());
        assert(ns.push(x) =~= seq![x]);
        assert(seq![x][0] == x);
        assert(dedup_run(acc.push(x), Seq::empty()) == acc.push(x));
        assert(dedup_run(acc, Seq::empty()) == acc);
    } else {
        assert(ns.push(x).drop_first() =~= ns.drop_first().push(x));
        assert(ns.push(x)[0] == ns[0]);
        if acc.contains(ns[0]) {
            lemma_dedup_run_push(acc, ns.drop_first(), x);
        } else {
            lemma_dedup_run_push(acc.push(ns[0]), ns.drop_first(), x);
        }
    }
}

/// `w` without its trailing commas.
pub open spec fn trim_end_commas(w: Seq<char>) -> Seq<char>
    decreases w.len(),
{
    if w.len() > 0 && w.last() == ',' {
        trim_end_commas(w.drop_last())
    } else {
        w
    }
}

/// The package names among the words of a list line: commas trimmed, and
/// no empty words or words in brackets.
pub open spec fn list_names(ws: Seq<Seq<char>>) -> Seq<Seq<char>>
    decreases ws.len(),
{
    if ws.len() == 0 {
        Seq::empty()
    } else {
        let w = trim_end_commas(ws[0]);
        let rest = list_names(ws.drop_first());
        if w.len() > 0 && w[0] != '(' && w[0] != '[' {
            seq![w] + rest
        } else {
            rest
        }
    }
}

/// A line that opens the list of packages to install or upgrade.
pub open spec fn opens_list(t: Seq<char>) -> bool {
    starts_with(t, "The following NEW packages will be installed:"@) || starts_with(
        t,
        "The following packages will be upgraded:"@,
    )
}

/// A line that closes such a list.
pub open spec fn closes_list(t: Seq<char>) -> bool {
    ||| starts_with(t, "The following packages will be REMOVED:"@)
    ||| starts_with(t, "The following packages have been kept back:"@)
    ||| starts_with(t, "0 upgraded,"@)
    ||| starts_with(t, "Need to get"@)
}

/// The names listed in `apt-get --simulate install` output, from lines `ls`
/// read with the list open or not.
pub open spec fn simulate_names(open: bool, ls: Seq<Seq<char>>) -> Seq<Seq<char>>
    decreases ls.len(),
{
    if ls.len() == 0 {
        Seq::empty()
    } else {
        let t = trim(ls[0]);
        if opens_list(t) {
            simulate_names(true, ls.drop_first())
        } else if closes_list(t) {
            simulate_names(false, ls.drop_first())
        } else if open {
            list_names(words(t)) + simulate_names(true, ls.drop_first())
        } else {
            simulate_names(false, ls.drop_first())
        }
    }
}

/// The names on the `Inst <name> ...` lines.
pub open spec fn inst_names(ls: Seq<Seq<char>>) -> Seq<Seq<char>>
    decreases ls.len(),
{
    if ls.len() == 0 {
        Seq::empty()
    } else {
        let l = ls[0];
        let rest = inst_names(ls.drop_first());
        if starts_with(l, "Inst "@) && words(l.skip(5)).len() > 0 {
            seq![words(l.skip(5))[0]] + rest
        } else {
            rest
        }
    }
}

/// The packages `apt-get --simulate install` would install: those of its
/// lists, else those of its `Inst` lines.
pub open spec fn simulate_result(text: Seq<char>) -> Seq<Seq<char>> {
    let a = simulate_names(false, lines(text));
    if a.len() > 0 {
        a
    } else {
        inst_names(lines(text))
    }
}

pub open spec fn no_packages_text(package: Seq<char>, text: Seq<char>) -> Seq<char> {
    "apt-get --simulate returned no packages for '"@ + package + "':\n"@ + text
}

fn trim_end_commas_exec(w: &str) -> (r: String)
    ensures
        r@ == trim_end_commas(w@),
{
    let v = chars_of(w);
    let mut k = v.len();
    proof {
        assert(v@.subrange(0, k as int) =~= w@);
    }
    while k > 0 && v[k - 1] == ','
        invariant
            k <= v@.len(),
            trim_end_commas(w@) == trim_end_commas(v@.subrange(0, k as int)),
        decreases k,
    {
        proof {
            assert(v@.subrange(0, k as int).drop_last() =~= v@.subrange(0, k - 1));
        }
        k -= 1;
    }
    string_of(&v, 0, k)
}

fn push_list_names(ws: &Vec<String>, out: &mut Vec<String>)
    ensures
        strings_view(final(out)@) == strings_view(old(out)@) + list_names(strings_view(ws@)),
{
    let ghost all = strings_view(ws@);
    let ghost start = strings_view(out@);
    let mut i: usize = 0;
    proof {
        assert(all.skip(0) =~= all);
        assert(start + list_names(all) =~= start + list_names(all.skip(0)));
    }
    while i < ws.len()
        invariant
            i <= ws@.len(),
            all == strings_view(ws@),
            strings_view(out@) + list_names(all.skip(i as int)) == start + list_names(all),
        decreases ws.len() - i,
    {
        let w = trim_end_commas_exec(ws[i].as_str());
        let ghost before = strings_view(out@);
        proof {
            assert(all.skip(i as int)[0] == ws@[i as int]@);
            assert(all.skip(i as int).drop_first() =~= all.skip(i + 1));
        }
        let wv = chars_of(w.as_str());
        if wv.len() > 0 && wv[0] != '(' && wv[0] != '[' {
            out.push(w);
            proof {
                assert(strings_view(out@) =~= before.push(w@));
                assert(before + (seq![w@] + list_names(all.skip(i + 1))) =~= strings_view(out@) + list_names(all.skip(i + 1)));
            }
        }
        i += 1;
    }
    proof {
        assert(all.skip(i as int) =~= Seq::<Seq<char>>::empty());
        assert(strings_view(out@) + Seq::<Seq<char>>::empty() =~= strings_view(out@));
    }
}

fn line_starts(v: &Vec<char>, a: usize, b: usize, lit: &str) -> (r: bool)
    requires
        a <= b <= v@.len(),
    ensures
        r == starts_with(v@.subrange(a as int, b as int), lit@),
{
    starts_with_str(v, a, b, lit)
}

/// The names listed by `apt-get --simulate install` output.
fn simulate_list(text: &str) -> (r: Vec<String>)
    ensures
        strings_view(r@) == simulate_names(false, lines(text@)),
{
    let v = chars_of(text);
    let n = v.len();
    let mut out: Vec<String> = Vec::new();
    let mut open = false;
    let mut pos: usize = 0;
    proof {
        assert(v@.skip(0) =~= text@);
        assert(strings_view(out@) =~= Seq::<Seq<char>>::empty());
    }
    while pos < n
        invariant
            n == v@.len(),
            v@ == text@,
            pos <= n,
            strings_view(out@) + simulate_names(open, lines(v@.skip(pos as int))) == simulate_names(false, lines(text@)),
        decreases n - pos,
    {
        let (e, next) = next_line(&v, pos);
        let ghost l = v@.subrange(pos as int, e as int);
        let ghost ls = lines(v@.skip(pos as int));
        proof {
            assert(ls[0] == l);
            assert(ls.drop_first() =~= lines(v@.skip(next as int)));
        }
        let (a, b) = trim_range(&v, pos, e);
        let ghost t = v@.subrange(a as int, b as int);
        if line_starts(&v, a, b, "The following NEW packages will be installed:")
            || line_starts(&v, a, b, "The following packages will be upgraded:") {
            open = true;
        } else if line_starts(&v, a, b, "The following packages will be REMOVED:")
            || line_starts(&v, a, b, "The following packages have been kept back:")
            || line_starts(&v, a, b, "0 upgraded,") || line_starts(&v, a, b, "Need to get") {
            open = false;
        } else if open {
            let line = string_of(&v, a, b);
            let ws = words_of(line.as_str());
            let ghost before = strings_view(out@);
            push_list_names(&ws, &mut out);
            proof {
                assert(before + (list_names(words(t)) + simulate_names(true, ls.drop_first())) =~= strings_view(out@)
                    + simulate_names(true, ls.drop_first()));
            }
        }
        pos = next;
    }
    proof {
        assert(v@.skip(n as int) =~= Seq::<char>::empty());
        assert(strings_view(out@) + Seq::<Seq<char>>::empty() =~= strings_view(out@));
    }
    out
}

/// The names on the `Inst` lines of `apt-get --simulate` output.
fn simulate_inst(text: &str) -> (r: Vec<String>)
    ensures
        strings_view(r@) == inst_names(lines(text@)),
{
    let v = chars_of(text);
    let n = v.len();
    let mut out: Vec<String> = Vec::new();
    let mut pos: usize = 0;
    proof {
        assert(v@.skip(0) =~= text@);
        assert(strings_view(out@) =~= Seq::<Seq<char>>::empty());
    }
    while pos < n
        invariant
            n == v@.len(),
            v@ == text@,
            pos <= n,
            strings_view(out@) + inst_names(lines(v@.skip(pos as int))) == inst_names(lines(text@)),
        decreases n - pos,
    {
        let (e, next) = next_line(&v, pos);
        let ghost l = v@.subrange(pos as int, e as int);
        let ghost ls = lines(v@.skip(pos as int));
        proof {
            assert(ls[0] == l);
            assert(ls.drop_first() =~= lines(v@.skip(next as int)));
            reveal_strlit("Inst ");
        }
        if line_starts(&v, pos, e, "Inst ") {
            let rest = string_of(&v, pos + 5, e);
            proof {
                assert(rest@ =~= l.skip(5));
            }
            let ws = words_of(rest.as_str());
            if ws.len() > 0 {
                let ghost before = strings_view(out@);
                let w = ws[0].clone();
                proof {
                    assert(strings_view(ws@)[0] == ws@[0]@);
                }
                out.push(w);
                proof {
                    assert(strings_view(out@) =~= before.push(w@));
                    assert(before + (seq![w@] + inst_names(ls.drop_first())) =~= strings_view(out@) + inst_names(
                        ls.drop_first(),
                    ));
                }
            }
        }
        pos = next;
    }
    proof {
        assert(v@.skip(n as int) =~= Seq::<char>::empty());
        assert(strings_view(out@) + Seq::<Seq<char>>::empty() =~= strings_view(out@));
    }
    out
}

/// The packages that `apt-get --simulate install <package>` would install,
/// each once, in order, as `.deb` packages; an error with the output when
/// it names none.
pub fn parse_apt_simulate(text: &str, package: &str) -> (r: Result<Vec<PackageId>, SpmError>)
    ensures
        simulate_result(text@).len() == 0 ==> (r matches Err(SpmError::ResolutionFailed(m)) && m@
            == no_packages_text(package@, text@)),
        simulate_result(text@).len() > 0 ==> (r matches Ok(ids) && ids_named(
            ids_view(ids@),
            dedup_names(simulate_result(text@)),
            PackageFormat::Deb,
        )),
{
    let mut found = simulate_list(text);
    if found.len() == 0 {
        found = simulate_inst(text);
    }
    if found.len() == 0 {
        let mut m = String::new();
        push_str(&mut m, "apt-get --simulate returned no packages for '");
        push_str(&mut m, package);
        push_str(&mut m, "':\n");
        push_str(&mut m, text);
        return Err(SpmError::ResolutionFailed(m));
    }
    let mut names: Vec<String> = Vec::new();
    let mut ids: Vec<PackageId> = Vec::new();
    let ghost all = strings_view(found@);
    let mut i: usize = 0;
    proof {
        assert(all.take(0) =~= Seq::<Seq<char>>::empty());
        assert(strings_view(names@) =~= Seq::<Seq<char>>::empty());
        assert(ids_view(ids@) =~= Seq::empty());
    }
    while i < found.len()
        invariant
            i <= found@.len(),
            all == strings_view(found@),
            ids_named(ids_view(ids@), strings_view(names@), PackageFormat::Deb),
            strings_view(names@) == dedup_names(all.take(i as int)),
        decreases found.len() - i,
    {
        let w = found[i].clone();
        proof {
            assert(all.take(i + 1) =~= all.take(i as int).push(found@[i as int]@));
            lemma_dedup_push(all.take(i as int), found@[i as int]@);
        }
        push_unique(&mut names, &mut ids, w, PackageFormat::Deb);
        i += 1;
    }
    proof {
        assert(all.take(i as int) =~= all);
    }
    Ok(ids)
}

// ---------------------------------------------------------------------------
// From a solution to packages
// ---------------------------------------------------------------------------

/// Whether a solution entry is internal to the solver (an `or` group or an
/// `rpmlib(..)` feature) and stands for no package.
pub open spec fn internal_name(n: Seq<char>) -> bool {
    starts_with(n, "__or_"@) || starts_with(n, "rpmlib("@)
}

/// Whether a solution entry is a capability (a shared library or a file
/// path) that some package provides, rather than a package itself.
pub open spec fn capability_name(n: Seq<char>) -> bool {
    contains(n, ".so"@) || starts_with(n, "/"@)
}

/// The provider with the lowest priority number; of equal ones the first.
pub open spec fn best_provider(ps: Seq<ProviderView>) -> Option<ProviderView>
    decreases ps.len(),
{
    if ps.len() == 0 {
        None
    } else {
        match best_provider(ps.drop_last()) {
            Some(b) => if ps.last().2 < b.2 {
                Some(ps.last())
            } else {
                Some(b)
            },
            None => Some(ps.last()),
        }
    }
}

/// The package (name and version text) a solution entry stands for, if any:
/// a capability stands for its best provider, a package name for itself at
/// the solved version.
pub open spec fn entry_package(index: SonameIndex, name: Seq<char>, ver: (u32, Seq<char>, Seq<char>)) -> Option<(Seq<char>, Seq<char>)> {
    if internal_name(name) {
        None
    } else if capability_name(name) {
        match best_provider(providers_of(index, name)) {
            Some(p) => Some((p.0, p.1)),
            None => None,
        }
    } else {
        Some((name, version_text(ver)))
    }
}

/// Whether some id in `ids` has the name `n`.
pub open spec fn has_name(ids: Seq<(Seq<char>, PackageFormat, Seq<char>)>, n: Seq<char>) -> bool {
    exists|j: int| 0 <= j < ids.len() && ids[j].0 == n
}

/// The packages a solution stands for, in order, each name at its first
/// occurrence only.
pub open spec fn solution_ids(sol: Seq<(String, Version)>, index: SonameIndex, f: PackageFormat) -> Seq<(Seq<char>, PackageFormat, Seq<char>)>
    decreases sol.len(),
{
    if sol.len() == 0 {
        Seq::empty()
    } else {
        let prev = solution_ids(sol.drop_last(), index, f);
        match entry_package(index, sol.last().0@, sol.last().1@) {
            Some(p) => if has_name(prev, p.0) {
                prev
            } else {
                prev.push((p.0, f, p.1))
            },
            None => prev,
        }
    }
}

/// Position of the provider with the lowest priority number (the first of equals).
fn best_provider_index(ps: &Vec<SonameProvider>) -> (r: Option<usize>)
    ensures
        match best_provider(providers_view(ps@)) {
            Some(b) => r matches Some(i) && i < ps@.len() && ps@[i as int]@ == b,
            None => r is None,
        },
{
    let mut best: Option<usize> = None;
    let mut i: usize = 0;
    proof {
        assert(providers_view(ps@.take(0)) =~= Seq::<ProviderView>::empty());
    }
    while i < ps.len()
        invariant
            i <= ps@.len(),
            match best_provider(providers_view(ps@.take(i as int))) {
                Some(b) => best matches Some(k) && k < i && ps@[k as int]@ == b,
                None => best is None,
            },
        decreases ps.len() - i,
    {
        proof {
            assert(providers_view(ps@.take(i + 1)).drop_last() =~= providers_view(ps@.take(i as int)));
            assert(providers_view(ps@.take(i + 1)).last() == ps@[i as int]@);
        }
        match best {
            Some(k) => {
                if ps[i].priority < ps[k].priority {
                    best = Some(i);
                }
            },
            None => {
                best = Some(i);
            },
        }
        i += 1;
    }
    proof {
        assert(ps@.take(i as int) =~= ps@);
    }
    best
}

/// Whether some id in `ids` has the name `n`.
fn ids_have_name(ids: &Vec<PackageId>, n: &str) -> (r: bool)
    ensures
        r == has_name(ids_view(ids@), n@),
{
    let mut i: usize = 0;
    while i < ids.len()
        invariant
            i <= ids@.len(),
            forall|j: int| 0 <= j < i ==> ids@[j].name@ != n@,
        decreases ids.len() - i,
    {
        if str_eq(ids[i].name.as_str(), n) {
            proof {
                assert(ids_view(ids@)[i as int].0 == n@);
            }
            return true;
        }
        i += 1;
    }
    proof {
        if has_name(ids_view(ids@), n@) {
            let j = choose|j: int| 0 <= j < ids_view(ids@).len() && ids_view(ids@)[j].0 == n@;
            assert(ids_view(ids@)[j] == ids@[j]@);
        }
    }
    false
}

/// The packages to install for a solution of the solver: internal entries
/// are dropped, each capability is replaced by its provider with the lowest
/// priority number, and each package is kept at its first occurrence.
pub fn solution_to_packages(solution: &Vec<(String, Version)>, index: &SonameIndex, format: PackageFormat) -> (r: Vec<PackageId>)
    ensures
        ids_view(r@) == solution_ids(solution@, *index, format),
{
    let mut pkgs: Vec<PackageId> = Vec::new();
    let mut i: usize = 0;
    proof {
        assert(solution@.take(0) =~= Seq::<(String, Version)>::empty());
        assert(ids_view(pkgs@) =~= Seq::empty());
    }
    while i < solution.len()
        invariant
            i <= solution@.len(),
            ids_view(pkgs@) == solution_ids(solution@.take(i as int), *index, format),
        decreases solution.len() - i,
    {
        proof {
            assert(solution@.take(i + 1).drop_last() =~= solution@.take(i as int));
            assert(solution@.take(i + 1).last() == solution@[i as int]);
        }
        let ghost before = ids_view(pkgs@);
        let name = solution[i].0.as_str();
        if text_starts_with(name, "__or_") || text_starts_with(name, "rpmlib(") {
        } else if contains_str_in(name, ".so") || text_starts_with(name, "/") {
            match lookup_index(&index.providers, name) {
                Some(k) => {
                    match best_provider_index(&index.providers[k].1) {
                        Some(b) => {
                            let p = &index.providers[k].1[b];
                            if !ids_have_name(&pkgs, p.pkg.as_str()) {
                                let id = PackageId::new_v(p.pkg.as_str(), format, p.version.as_str());
                                pkgs.push(id);
                                proof {
                                    assert(ids_view(pkgs@) =~= before.push(id@));
                                }
                            }
                        },
                        None => {},
                    }
                },
                None => {},
            }
        } else {
            if !ids_have_name(&pkgs, name) {
                let v = solution[i].1.render();
                let id = PackageId::new_v(name, format, v.as_str());
                pkgs.push(id);
                proof {
                    assert(ids_view(pkgs@) =~= before.push(id@));
                }
            }
        }
        i += 1;
    }
    proof {
        assert(solution@.take(i as int) =~= solution@);
    }
    pkgs
}

} // verus!
