//! Searching repository indexes.
use vstd::prelude::*;
use crate::text::{
    chars_of, contains, contains_str, contains_str_in, eq_ignore_ascii_case, eq_ignore_case, indices_view, lines,
    lower_ascii, next_line, owned, pad_right, push_padded, push_signed_decimal, push_str, signed_decimal,
    sorted_firsts, sorted_firsts_of, starts_with, starts_with_str, string_of, strings_view, trim, trim_range,
};
use crate::package::install::InstalledDeps;
use crate::types::db::{InstallType, InstalledPackage};
use vstd::string::StrSliceExecFns;
use crate::types::db::{Transaction, TransactionAction, TransactionStatus};
use vstd::string::StringSliceAdditionalSpecFns;
use vstd::utf8::{decode_utf8, encode_utf8, is_char_boundary};
use crate::types::config::{RepoIndex, RepoIndexRecord};
use crate::types::package::{empty_package, Package, PackageFormat, PackageView};

verus! {

/// The lower-case form of a text, as `str::to_lowercase` gives it (Unicode
/// lower-casing), by name.
pub uninterp spec fn lowercase(s: Seq<char>) -> Seq<char>;

/// `str::to_lowercase`.  Its result is named; the documentation shows that
/// ASCII text is lower-cased letter by letter, which is also stated.
#[verifier::external_body]
pub(crate) fn to_lowercase(s: &str) -> (r: String)
    ensures
        r@ == lowercase(s@),
        (forall|i: int| 0 <= i < s@.len() ==> (s@[i] as u32) < 128) ==> r@ == s@.map_values(|c: char| lower_ascii(c)),
{
    s.to_lowercase()
}

/// Whether a record matches a query, all three lower-cased: the query
/// occurs in the name or in the description.
pub fn record_matches(name_lower: &str, desc_lower: &str, query_lower: &str) -> (r: bool)
    ensures
        r == (contains(name_lower@, query_lower@) || contains(desc_lower@, query_lower@)),
{
    contains_str_in(name_lower, query_lower) || contains_str_in(desc_lower, query_lower)
}

/// A record matches when the lower-cased query occurs in its lower-cased
/// name or description.
pub open spec fn native_match(q: Seq<char>, r: RepoIndexRecord) -> bool {
    contains(lowercase(r.name@), lowercase(q)) || contains(lowercase(r.description@), lowercase(q))
}

/// The package a matching record stands for.
pub open spec fn native_package(r: RepoIndexRecord) -> PackageView {
    PackageView { name: r.name@, version: r.version@, ..empty_package(PackageFormat::Sam, Some("native"@)) }
}

/// The packages of the matching records, in index order.
pub open spec fn native_matches(q: Seq<char>, rs: Seq<RepoIndexRecord>) -> Seq<PackageView>
    decreases rs.len(),
{
    if rs.len() == 0 {
        Seq::empty()
    } else {
        native_matches(q, rs.drop_last()) + if native_match(q, rs.last()) {
            seq![native_package(rs.last())]
        } else {
            Seq::empty()
        }
    }
}

pub open spec fn packages_view(v: Seq<Package>) -> Seq<PackageView> {
    v.map_values(|p: Package| p@)
}

/// The packages of a native repository index that match `query`, ignoring
/// case.
pub fn match_native_packages(query: &str, index: &RepoIndex) -> (r: Vec<Package>)
    ensures
        packages_view(r@) == native_matches(query@, index.packages@),
{
    let q = to_lowercase(query);
    let mut results: Vec<Package> = Vec::new();
    let mut i: usize = 0;
    while i < index.packages.len()
        invariant
            i <= index.packages@.len(),
            q@ == lowercase(query@),
            packages_view(results@) == native_matches(query@, index.packages@.take(i as int)),
        decreases index.packages.len() - i,
    {
        let rec = &index.packages[i];
        let ghost before = packages_view(results@);
        let n = to_lowercase(rec.name.as_str());
        let d = to_lowercase(rec.description.as_str());
        proof {
            assert(index.packages@.take(i + 1).drop_last() =~= index.packages@.take(i as int));
            assert(index.packages@.take(i + 1).last() == *rec);
        }
        if record_matches(n.as_str(), d.as_str(), q.as_str()) {
            let mut p = Package::empty(PackageFormat::Sam, Some(owned("native")));
            p.name = rec.name.clone();
            p.version = rec.version.clone();
            results.push(p);
            proof {
                assert(packages_view(results@) =~= before.push(native_package(*rec)));
            }
        } else {
            proof {
                assert(packages_view(results@) =~= before + Seq::<PackageView>::empty());
            }
        }
        i += 1;
    }
    assert(index.packages@.take(index.packages@.len() as int) =~= index.packages@);
    results
}

// ---------------------------------------------------------------------------
// Transaction history
// ---------------------------------------------------------------------------

/// The date shown for a timestamp: its first 19 bytes (`YYYY-MM-DDTHH:MM:SS`)
/// when it is that long, else all of it.
pub open spec fn history_date(ts: Seq<char>) -> Seq<char> {
    if encode_utf8(ts).len() >= 19 {
        decode_utf8(encode_utf8(ts).subrange(0, 19))
    } else {
        ts
    }
}

/// A timestamp can be cut at 19 bytes when it is shorter or a character
/// ends there.
pub open spec fn date_cuttable(ts: Seq<char>) -> bool {
    encode_utf8(ts).len() >= 19 ==> is_char_boundary(encode_utf8(ts), 19)
}

/// `Debug` of an action.
pub open spec fn action_name(a: TransactionAction) -> Seq<char> {
    match a {
        TransactionAction::Install => "Install"@,
        TransactionAction::Remove => "Remove"@,
        TransactionAction::Upgrade => "Upgrade"@,
        TransactionAction::Purge => "Purge"@,
    }
}

/// `Debug` of a status.
pub open spec fn status_name(s: TransactionStatus) -> Seq<char> {
    match s {
        TransactionStatus::Completed => "Completed"@,
        TransactionStatus::Undone => "Undone"@,
        TransactionStatus::Failed => "Failed"@,
    }
}

/// The texts joined with `, `.
pub open spec fn join_comma(v: Seq<Seq<char>>) -> Seq<char>
    decreases v.len(),
{
    if v.len() == 0 {
        Seq::empty()
    } else if v.len() == 1 {
        v[0]
    } else {
        join_comma(v.drop_last()) + ", "@ + v.last()
    }
}

/// One row of the history table.
pub open spec fn history_row(t: Transaction) -> Seq<char> {
    pad_right(signed_decimal(match t.id {
        Some(i) => i as int,
        None => 0,
    }), 5) + " "@ + pad_right(action_name(t.action), 12) + " "@ + pad_right(history_date(t.timestamp@), 20) + " "@
        + pad_right(status_name(t.status), 10) + " "@ + join_comma(strings_view(t.packages@)) + "\n"@
}

pub open spec fn history_rows(txs: Seq<Transaction>) -> Seq<char>
    decreases txs.len(),
{
    if txs.len() == 0 {
        Seq::empty()
    } else {
        history_rows(txs.drop_last()) + history_row(txs.last())
    }
}

/// The header of the history table and its rule.
pub open spec fn history_header() -> Seq<char> {
    pad_right("ID"@, 5) + " "@ + pad_right("Action"@, 12) + " "@ + pad_right("Date"@, 20) + " "@ + pad_right(
        "Status"@,
        10,
    ) + " "@ + "Packages"@ + "\n"@ + Seq::new(80, |i: int| '-') + "\n"@
}

/// The history table: a header, a rule and one row per transaction (id,
/// action, date, status, packages), or a notice when there is none.
pub open spec fn history_table(txs: Seq<Transaction>) -> Seq<char> {
    if txs.len() == 0 {
        "No transactions found"@
    } else {
        history_header() + history_rows(txs)
    }
}

fn action_text(a: TransactionAction) -> (r: &'static str)
    ensures
        r@ == action_name(a),
{
    match a {
        TransactionAction::Install => "Install",
        TransactionAction::Remove => "Remove",
        TransactionAction::Upgrade => "Upgrade",
        TransactionAction::Purge => "Purge",
    }
}

fn status_text(s: TransactionStatus) -> (r: &'static str)
    ensures
        r@ == status_name(s),
{
    match s {
        TransactionStatus::Completed => "Completed",
        TransactionStatus::Undone => "Undone",
        TransactionStatus::Failed => "Failed",
    }
}

fn push_joined(out: &mut String, v: &Vec<String>)
    ensures
        final(out)@ == old(out)@ + join_comma(strings_view(v@)),
{
    let mut i: usize = 0;
    while i < v.len()
        invariant
            i <= v@.len(),
            out@ == old(out)@ + join_comma(strings_view(v@).take(i as int)),
        decreases v.len() - i,
    {
        let ghost before = out@;
        if i > 0 {
            push_str(out, ", ");
        }
        push_str(out, v[i].as_str());
        proof {
            let t = strings_view(v@).take(i + 1);
            assert(t.drop_last() =~= strings_view(v@).take(i as int));
            assert(t.last() == v@[i as int]@);
            if i == 0 {
                assert(t =~= seq![v@[0]@]);
            }
            assert(out@ =~= old(out)@ + join_comma(t));
        }
        i += 1;
    }
    assert(strings_view(v@).take(i as int) =~= strings_view(v@));
}

/// Appends one row of the history table.
#[verifier::spinoff_prover]
#[verifier::rlimit(60)]
fn push_history_row(out: &mut String, t: &Transaction)
    requires
        date_cuttable(t.timestamp@),
    ensures
        final(out)@ == old(out)@ + history_row(*t),
{
    let ghost before = out@;
    let id: i64 = match t.id {
        Some(x) => x,
        None => 0,
    };
    let mut idt = String::new();
    push_signed_decimal(&mut idt, id);
    push_padded(out, idt.as_str(), 5);
    push_str(out, " ");
    push_padded(out, action_text(t.action), 12);
    push_str(out, " ");
    let ghost p1 = out@;
    let ts = t.timestamp.as_str();
    if ts.as_bytes().len() >= 19 {
        let (d, _rest) = ts.split_at(19);
        proof {
            vstd::utf8::encode_utf8_decode_utf8(d@);
        }
        push_padded(out, d, 20);
    } else {
        push_padded(out, ts, 20);
    }
    assert(out@ == p1 + pad_right(history_date(t.timestamp@), 20));
    push_str(out, " ");
    push_padded(out, status_text(t.status), 10);
    push_str(out, " ");
    push_joined(out, &t.packages);
    push_str(out, "\n");
    proof {
        assert(out@ =~= before + history_row(*t));
    }
}

/// Whether every timestamp can be cut where the table cuts it.
pub fn history_dates_cuttable(txs: &[Transaction]) -> (r: bool)
    ensures
        r == forall|i: int| 0 <= i < txs@.len() ==> date_cuttable(#[trigger] txs@[i].timestamp@),
{
    let mut i: usize = 0;
    while i < txs.len()
        invariant
            i <= txs@.len(),
            forall|j: int| 0 <= j < i ==> date_cuttable(#[trigger] txs@[j].timestamp@),
        decreases txs.len() - i,
    {
        let ts = txs[i].timestamp.as_str();
        if ts.as_bytes().len() >= 19 && !ts.is_char_boundary(19) {
            return false;
        }
        i += 1;
    }
    true
}

/// The transaction history as a table.
pub fn format_history_table(txs: &[Transaction]) -> (r: String)
    requires
        forall|i: int| 0 <= i < txs@.len() ==> date_cuttable(#[trigger] txs@[i].timestamp@),
    ensures
        r@ == history_table(txs@),
{
    if txs.len() == 0 {
        return owned("No transactions found");
    }
    let mut out = String::new();
    push_padded(&mut out, "ID", 5);
    push_str(&mut out, " ");
    push_padded(&mut out, "Action", 12);
    push_str(&mut out, " ");
    push_padded(&mut out, "Date", 20);
    push_str(&mut out, " ");
    push_padded(&mut out, "Status", 10);
    push_str(&mut out, " ");
    push_str(&mut out, "Packages");
    push_str(&mut out, "\n");
    let ghost before_rule = out@;
    let mut k: usize = 0;
    while k < 80
        invariant
            k <= 80,
            out@ == before_rule + Seq::new(k as nat, |i: int| '-'),
        decreases 80 - k,
    {
        out.push('-');
        proof {
            assert(Seq::new(k as nat, |i: int| '-').push('-') =~= Seq::new((k + 1) as nat, |i: int| '-'));
        }
        k += 1;
    }
    push_str(&mut out, "\n");
    proof {
        assert(out@ =~= history_header());
    }
    let ghost head = out@;
    let mut i: usize = 0;
    while i < txs.len()
        invariant
            i <= txs@.len(),
            forall|j: int| 0 <= j < txs@.len() ==> date_cuttable(#[trigger] txs@[j].timestamp@),
            out@ == head + history_rows(txs@.take(i as int)),
        decreases txs.len() - i,
    {
        let t = &txs[i];
        let ghost before = out@;
        push_history_row(&mut out, t);
        proof {
            assert(txs@.take(i + 1).drop_last() =~= txs@.take(i as int));
        }
        i += 1;
    }
    proof {
        assert(txs@.take(i as int) =~= txs@);
    }
    out
}

// ---------------------------------------------------------------------------
// Searching cached Packages files
// ---------------------------------------------------------------------------

/// A paragraph's package matches when its name, lower-cased, contains the
/// lower-cased query `q`.
pub open spec fn deb_hit(name: Seq<char>, q: Seq<char>) -> bool {
    name.len() > 0 && contains(lowercase(name), q)
}

/// The matching package names of a Packages file, from lines `ls`, with
/// `name` the name of the paragraph being read.
pub open spec fn deb_search_run(name: Seq<char>, ls: Seq<Seq<char>>, q: Seq<char>) -> Seq<Seq<char>>
    decreases ls.len(),
{
    if ls.len() == 0 {
        if deb_hit(name, q) {
            seq![name]
        } else {
            Seq::empty()
        }
    } else {
        let l = ls[0];
        if l.len() == 0 {
            (if deb_hit(name, q) {
                seq![name]
            } else {
                Seq::empty()
            }) + deb_search_run(Seq::empty(), ls.drop_first(), q)
        } else if starts_with(l, "Package: "@) {
            deb_search_run(trim(l.skip(9)), ls.drop_first(), q)
        } else {
            deb_search_run(name, ls.drop_first(), q)
        }
    }
}

/// A package found in an apt cache.
pub open spec fn apt_found_package(name: Seq<char>) -> PackageView {
    PackageView { name, ..empty_package(PackageFormat::Deb, Some("apt"@)) }
}

fn apt_package(name: String) -> (p: Package)
    ensures
        p@ == apt_found_package(name@),
{
    let mut p = Package::empty(PackageFormat::Deb, Some(owned("apt")));
    p.name = name;
    p
}

fn push_hit(out: &mut Vec<Package>, name: &String, q: &str)
    ensures
        packages_view(final(out)@) == packages_view(old(out)@) + (if deb_hit(name@, q@) {
            seq![apt_found_package(name@)]
        } else {
            Seq::empty()
        }),
{
    let ghost before = packages_view(out@);
    if name.as_str().unicode_len() > 0 {
        let l = to_lowercase(name.as_str());
        if contains_str_in(l.as_str(), q) {
            let p = apt_package(name.clone());
            out.push(p);
            proof {
                assert(packages_view(out@) =~= before.push(p@));
            }
            return;
        }
    }
    proof {
        assert(packages_view(out@) =~= before + Seq::<PackageView>::empty());
    }
}

/// The packages of a cached Packages file whose names contain the query,
/// ASCII and other letters compared lower-cased.
pub fn search_deb_text(text: &str, query: &str) -> (r: Vec<Package>)
    ensures
        packages_view(r@) == deb_search_run(Seq::empty(), lines(text@), lowercase(query@)).map_values(
            |n: Seq<char>| apt_found_package(n),
        ),
{
    let q = to_lowercase(query);
    let v = chars_of(text);
    let n = v.len();
    let mut out: Vec<Package> = Vec::new();
    let mut name = String::new();
    let mut pos: usize = 0;
    let ghost goal = deb_search_run(Seq::empty(), lines(text@), q@);
    proof {
        assert(v@.skip(0) =~= text@);
        assert(packages_view(out@) =~= Seq::<PackageView>::empty());
        assert(Seq::<Seq<char>>::empty().map_values(|n: Seq<char>| apt_found_package(n)) =~= Seq::<PackageView>::empty());
    }
    while pos < n
        invariant
            n == v@.len(),
            v@ == text@,
            pos <= n,
            goal == deb_search_run(Seq::empty(), lines(text@), q@),
            goal.map_values(|n: Seq<char>| apt_found_package(n)) == packages_view(out@) + deb_search_run(
                name@,
                lines(v@.skip(pos as int)),
                q@,
            ).map_values(|n: Seq<char>| apt_found_package(n)),
        decreases n - pos,
    {
        let (e, next) = next_line(&v, pos);
        let ghost l = v@.subrange(pos as int, e as int);
        let ghost ls = lines(v@.skip(pos as int));
        proof {
            assert(ls[0] == l);
            assert(ls.drop_first() =~= lines(v@.skip(next as int)));
            reveal_strlit("Package: ");
        }
        let ghost before = packages_view(out@);
        let ghost rest = ls.drop_first();
        if e == pos {
            push_hit(&mut out, &name, q.as_str());
            proof {
                let hit = if deb_hit(name@, q@) {
                    seq![name@]
                } else {
                    Seq::empty()
                };
                let f = |n: Seq<char>| apt_found_package(n);
                assert((hit + deb_search_run(Seq::empty(), rest, q@)).map_values(f) =~= hit.map_values(f)
                    + deb_search_run(Seq::empty(), rest, q@).map_values(f));
                assert(hit.map_values(f) =~= if deb_hit(name@, q@) {
                    seq![apt_found_package(name@)]
                } else {
                    Seq::empty()
                });
            }
            name = String::new();
        } else if starts_with_str(&v, pos, e, "Package: ") {
            let (a, b) = trim_range(&v, pos + 9, e);
            proof {
                assert(l.skip(9) =~= v@.subrange(pos + 9, e as int));
            }
            name = string_of(&v, a, b);
        }
        pos = next;
    }
    proof {
        assert(v@.skip(n as int) =~= Seq::<char>::empty());
    }
    let ghost before = packages_view(out@);
    push_hit(&mut out, &name, q.as_str());
    proof {
        let f = |n: Seq<char>| apt_found_package(n);
        let hit = if deb_hit(name@, q@) {
            seq![name@]
        } else {
            Seq::empty()
        };
        assert(hit.map_values(f) =~= if deb_hit(name@, q@) {
            seq![apt_found_package(name@)]
        } else {
            Seq::empty()
        });
    }
    out
}

// ---------------------------------------------------------------------------
// Sorting search results
// ---------------------------------------------------------------------------

pub open spec fn names_view(v: Seq<Package>) -> Seq<Seq<char>> {
    v.map_values(|p: Package| p.name@)
}

/// Search results sorted by name, each name once (the first result of that
/// name is kept): a stable sort by name followed by a removal of repeats.
pub fn sort_unique_by_name(pkgs: &Vec<Package>) -> (r: Vec<Package>)
    ensures
        exists|o: Seq<int>| #![auto] sorted_firsts_of(names_view(pkgs@), o) && packages_view(r@) == o.map_values(
            |i: int| pkgs@[i]@,
        ),
{
    let mut names: Vec<String> = Vec::new();
    let mut i: usize = 0;
    while i < pkgs.len()
        invariant
            i <= pkgs@.len(),
            strings_view(names@) == names_view(pkgs@).take(i as int),
        decreases pkgs.len() - i,
    {
        let ghost before = strings_view(names@);
        names.push(pkgs[i].name.clone());
        proof {
            assert(strings_view(names@) =~= before.push(pkgs@[i as int].name@));
            assert(names_view(pkgs@).take(i + 1) =~= names_view(pkgs@).take(i as int).push(pkgs@[i as int].name@));
        }
        i += 1;
    }
    proof {
        assert(names_view(pkgs@).take(i as int) =~= names_view(pkgs@));
    }
    let order = sorted_firsts(&names);
    let ghost o = indices_view(order@);
    let mut r: Vec<Package> = Vec::new();
    let mut k: usize = 0;
    while k < order.len()
        invariant
            k <= order@.len(),
            o == indices_view(order@),
            sorted_firsts_of(names_view(pkgs@), o),
            names_view(pkgs@).len() == pkgs@.len(),
            packages_view(r@) == o.take(k as int).map_values(|i: int| pkgs@[i]@),
        decreases order.len() - k,
    {
        assert(o[k as int] == order@[k as int] as int);
        let p = pkgs[order[k]].duplicate();
        let ghost before = packages_view(r@);
        r.push(p);
        proof {
            assert(packages_view(r@) =~= before.push(p@));
            assert(o.take(k + 1) =~= o.take(k as int).push(o[k as int]));
            assert(o.take(k + 1).map_values(|i: int| pkgs@[i]@) =~= o.take(k as int).map_values(|i: int| pkgs@[i]@).push(
                pkgs@[o[k as int]]@,
            ));
        }
        k += 1;
    }
    proof {
        assert(o.take(k as int) =~= o);
    }
    r
}

// ---------------------------------------------------------------------------
// Package information
// ---------------------------------------------------------------------------

pub open spec fn format_debug(f: PackageFormat) -> Seq<char> {
    match f {
        PackageFormat::Deb => "Deb"@,
        PackageFormat::Rpm => "Rpm"@,
        PackageFormat::Sam => "Sam"@,
    }
}

pub open spec fn install_type_debug(t: InstallType) -> Seq<char> {
    match t {
        InstallType::Native => "Native"@,
        InstallType::Sandbox => "Sandbox"@,
    }
}

/// What `spm info` shows of an installed package.
pub open spec fn installed_info(p: InstalledPackage) -> Seq<char> {
    "Package: "@ + p.name@ + "\nVersion: "@ + p.version@ + "\nFormat: "@ + format_debug(p.format) + "\nType: "@
        + install_type_debug(p.install_type) + "\nInstalled: "@ + p.install_date@
}

pub fn installed_info_text(p: &InstalledPackage) -> (r: String)
    ensures
        r@ == installed_info(*p),
{
    let mut r = String::new();
    push_str(&mut r, "Package: ");
    push_str(&mut r, p.name.as_str());
    push_str(&mut r, "\nVersion: ");
    push_str(&mut r, p.version.as_str());
    push_str(&mut r, "\nFormat: ");
    match p.format {
        PackageFormat::Deb => push_str(&mut r, "Deb"),
        PackageFormat::Rpm => push_str(&mut r, "Rpm"),
        PackageFormat::Sam => push_str(&mut r, "Sam"),
    }
    push_str(&mut r, "\nType: ");
    match p.install_type {
        InstallType::Native => push_str(&mut r, "Native"),
        InstallType::Sandbox => push_str(&mut r, "Sandbox"),
    }
    push_str(&mut r, "\nInstalled: ");
    push_str(&mut r, p.install_date.as_str());
    r
}

/// The paragraph of package `name` in a cached Packages file, as shown by
/// `spm info`: its lines from the `Package:` line on, each ending in a new
/// line; `in_pkg` says whether that line was seen.
pub open spec fn info_run(in_pkg: bool, entry: Seq<char>, ls: Seq<Seq<char>>, name: Seq<char>) -> Option<Seq<char>>
    decreases ls.len(),
{
    if ls.len() == 0 {
        if in_pkg && entry.len() > 0 {
            Some(entry)
        } else {
            None
        }
    } else {
        let l = ls[0];
        if l.len() == 0 {
            if in_pkg {
                Some(entry)
            } else {
                info_run(false, Seq::empty(), ls.drop_first(), name)
            }
        } else {
            let now = in_pkg || (starts_with(l, "Package: "@) && eq_ignore_case(trim(l.skip(9)), name));
            let entry2 = if now {
                entry + l + "\n"@
            } else {
                entry
            };
            info_run(now, entry2, ls.drop_first(), name)
        }
    }
}

pub fn deb_info_entry(text: &str, name: &str) -> (r: Option<String>)
    ensures
        match info_run(false, Seq::empty(), lines(text@), name@) {
            Some(e) => r matches Some(x) && x@ == e,
            None => r is None,
        },
{
    let v = chars_of(text);
    let n = v.len();
    let mut in_pkg = false;
    let mut entry = String::new();
    let mut pos: usize = 0;
    let ghost goal = info_run(false, Seq::empty(), lines(text@), name@);
    proof {
        assert(v@.skip(0) =~= text@);
    }
    while pos < n
        invariant
            n == v@.len(),
            v@ == text@,
            pos <= n,
            goal == info_run(false, Seq::empty(), lines(text@), name@),
            goal == info_run(in_pkg, entry@, lines(v@.skip(pos as int)), name@),
        decreases n - pos,
    {
        let (e, next) = next_line(&v, pos);
        let ghost l = v@.subrange(pos as int, e as int);
        let ghost ls = lines(v@.skip(pos as int));
        proof {
            assert(ls[0] == l);
            assert(ls.drop_first() =~= lines(v@.skip(next as int)));
            reveal_strlit("Package: ");
        }
        if e == pos {
            if in_pkg {
                return Some(entry);
            }
            entry = String::new();
        } else {
            if starts_with_str(&v, pos, e, "Package: ") {
                let (a, b) = trim_range(&v, pos + 9, e);
                proof {
                    assert(l.skip(9) =~= v@.subrange(pos + 9, e as int));
                }
                let t = string_of(&v, a, b);
                if eq_ignore_ascii_case(t.as_str(), name) {
                    in_pkg = true;
                }
            }
            if in_pkg {
                let ghost old_entry = entry@;
                crate::text::push_range(&mut entry, &v, pos, e);
                entry.push('\n');
                proof {
                    reveal_strlit("\n");
                    assert(entry@ =~= old_entry + l + "\n"@);
                }
            }
        }
        pos = next;
    }
    proof {
        assert(v@.skip(n as int) =~= Seq::<char>::empty());
    }
    if in_pkg && entry.as_str().unicode_len() > 0 {
        Some(entry)
    } else {
        None
    }
}

// ---------------------------------------------------------------------------
// Reverse dependencies
// ---------------------------------------------------------------------------

/// The installed packages that depend on `name`, in name order, each once.
pub fn reverse_dependents(pkgs: &Vec<InstalledDeps>, name: &str) -> (r: Vec<String>)
    ensures
        exists|o: Seq<int>| #![auto] sorted_firsts_of(dependents_of(pkgs@, name@), o) && strings_view(r@) == o.map_values(
            |i: int| dependents_of(pkgs@, name@)[i],
        ),
{
    let mut names: Vec<String> = Vec::new();
    let mut i: usize = 0;
    proof {
        assert(strings_view(names@) =~= Seq::<Seq<char>>::empty());
    }
    while i < pkgs.len()
        invariant
            i <= pkgs@.len(),
            strings_view(names@) == dependents_upto(pkgs@, name@, i as int),
        decreases pkgs.len() - i,
    {
        let ghost before = strings_view(names@);
        if contains_str(&pkgs[i].deps, name) {
            names.push(pkgs[i].name.clone());
            proof {
                assert(strings_view(names@) =~= before.push(pkgs@[i as int].name@));
            }
        }
        i += 1;
    }
    let order = sorted_firsts(&names);
    let ghost o = indices_view(order@);
    let ghost dn = strings_view(names@);
    let mut r: Vec<String> = Vec::new();
    let mut k: usize = 0;
    proof {
        assert(strings_view(r@) =~= Seq::<Seq<char>>::empty());
    }
    while k < order.len()
        invariant
            k <= order@.len(),
            o == indices_view(order@),
            dn == strings_view(names@),
            sorted_firsts_of(dn, o),
            strings_view(r@) == o.take(k as int).map_values(|i: int| dn[i]),
        decreases order.len() - k,
    {
        assert(o[k as int] == order@[k as int] as int);
        let s = names[order[k]].clone();
        let ghost before = strings_view(r@);
        r.push(s);
        proof {
            assert(strings_view(r@) =~= before.push(s@));
            assert(o.take(k + 1).map_values(|i: int| dn[i]) =~= o.take(k as int).map_values(|i: int| dn[i]).push(dn[o[k as int]]));
        }
        k += 1;
    }
    proof {
        assert(o.take(k as int) =~= o);
        assert(dn == dependents_of(pkgs@, name@));
        assert(o.map_values(|i: int| dn[i]) =~= o.map_values(|i: int| dependents_of(pkgs@, name@)[i]));
        assert(sorted_firsts_of(dependents_of(pkgs@, name@), o) && strings_view(r@) == o.map_values(
            |i: int| dependents_of(pkgs@, name@)[i],
        ));
    }
    r
}

/// The names of the installed packages among the first `k` that list
/// `name` as a dependency, in order.
pub open spec fn dependents_upto(pkgs: Seq<InstalledDeps>, name: Seq<char>, k: int) -> Seq<Seq<char>>
    decreases k,
{
    if k <= 0 {
        Seq::empty()
    } else if strings_view(pkgs[k - 1].deps@).contains(name) {
        dependents_upto(pkgs, name, k - 1).push(pkgs[k - 1].name@)
    } else {
        dependents_upto(pkgs, name, k - 1)
    }
}

pub open spec fn dependents_of(pkgs: Seq<InstalledDeps>, name: Seq<char>) -> Seq<Seq<char>> {
    dependents_upto(pkgs, name, pkgs.len() as int)
}

} // verus!
