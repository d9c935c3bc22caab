//! Package versions in the `epoch:version-release` form and their order.
use vstd::prelude::*;
use std::cmp::Ordering;
use crate::text::{
    chars_of, find_char, idx_of, last_idx_of, parse_u64, parse_unsigned, rfind_char, string_of,
    push_decimal, push_range, decimal,
};
use crate::types::verorder::{rpm_order, rpm_order_exec, lemma_rpm_order_antisym, lemma_rpm_order_refl};

verus! {

/// A parsed version: epoch, upstream version and release.
#[derive(Debug, Clone, PartialEq, Eq)]
pub struct Version {
    pub epoch: u32,
    pub version: String,
    pub release: String,
}

impl View for Version {
    type V = (u32, Seq<char>, Seq<char>);

    open spec fn view(&self) -> (u32, Seq<char>, Seq<char>) {
        (self.epoch, self.version@, self.release@)
    }
}

/// Strategy for choosing between versions during dependency resolution.
#[derive(Debug, Clone, Copy, PartialEq, Eq)]
pub enum VersionStrategy {
    /// Prefer packages from highest-priority repos (lowest priority number).
    /// This is the default and gives the most "stable" result.
    PreferStable,
    /// Prefer the highest version number regardless of repo priority.
    PreferNewest,
}

impl Default for VersionStrategy {
    fn default() -> (r: Self)
        ensures
            r == VersionStrategy::PreferStable,
    {
        VersionStrategy::PreferStable
    }
}

/// The epoch that `Version::parse` reads from the text before the first `:`:
/// its value as a `u32`, or 0 when it is not one.
pub open spec fn epoch_value(e: Seq<char>) -> u32 {
    match parse_unsigned(e, u32::MAX as nat) {
        Some(n) => n as u32,
        None => 0,
    }
}

/// What `Version::parse` makes of `s`: the epoch is what stands before the
/// first `:`, and the release is what follows the last `-` after it.
pub open spec fn parse_version(s: Seq<char>) -> (u32, Seq<char>, Seq<char>) {
    let i = idx_of(s, ':');
    let epoch: u32 = if i < s.len() {
        epoch_value(s.take(i as int))
    } else {
        0
    };
    let rest = if i < s.len() {
        s.skip((i + 1) as int)
    } else {
        s
    };
    match last_idx_of(rest, '-') {
        Some(k) => (epoch, rest.take(k as int), rest.skip((k + 1) as int)),
        None => (epoch, rest, Seq::<char>::empty()),
    }
}

/// The order of two parsed versions: epochs first, then the version and the
/// release under `rpm_order`.
pub open spec fn version_order(x: (u32, Seq<char>, Seq<char>), y: (u32, Seq<char>, Seq<char>)) -> int {
    if x.0 < y.0 {
        -1
    } else if x.0 > y.0 {
        1
    } else if rpm_order(x.1, y.1) != 0 {
        rpm_order(x.1, y.1)
    } else {
        rpm_order(x.2, y.2)
    }
}

/// The `Ordering` that stands for -1, 0 or 1.
pub open spec fn ordering_of(c: int) -> Ordering {
    if c < 0 {
        Ordering::Less
    } else if c > 0 {
        Ordering::Greater
    } else {
        Ordering::Equal
    }
}

/// The text `Display` gives a version.
pub open spec fn version_text(v: (u32, Seq<char>, Seq<char>)) -> Seq<char> {
    if v.0 > 0 {
        decimal(v.0 as nat) + seq![':'] + v.1 + seq!['-'] + v.2
    } else if v.2.len() == 0 {
        v.1
    } else {
        v.1 + seq!['-'] + v.2
    }
}

/// Every version is equal to itself.
pub proof fn lemma_version_order_refl(x: (u32, Seq<char>, Seq<char>))
    ensures
        version_order(x, x) == 0,
{
}

/// Comparing two versions the other way round gives the opposite answer.
pub proof fn lemma_version_order_antisym(x: (u32, Seq<char>, Seq<char>), y: (u32, Seq<char>, Seq<char>))
    ensures
        version_order(x, y) == -version_order(y, x),
{
    lemma_rpm_order_antisym(x.1, y.1);
    lemma_rpm_order_antisym(x.2, y.2);
}

/// Versions are ordered by epoch first; with equal epochs, the version
/// parts decide whenever they differ, whatever the releases; the releases
/// only break a tie between equal version parts.
pub proof fn law_version_before_release(
    x: (u32, Seq<char>, Seq<char>),
    y: (u32, Seq<char>, Seq<char>),
    rx: Seq<char>,
    ry: Seq<char>,
)
    ensures
        x.0 < y.0 ==> version_order(x, y) < 0,
        x.0 > y.0 ==> version_order(x, y) > 0,
        x.0 == y.0 && rpm_order(x.1, y.1) != 0 ==> version_order(x, y) == rpm_order(x.1, y.1),
        x.0 == y.0 && rpm_order(x.1, y.1) != 0 ==> version_order(x, y) == version_order((x.0, x.1, rx), (y.0, y.1, ry)),
        x.0 == y.0 && x.1 == y.1 ==> version_order(x, y) == rpm_order(x.2, y.2),
{
    if x.1 == y.1 {
        lemma_rpm_order_refl(x.1);
    }
}

/// The `Ordering` that stands for a negative, zero or positive `r`.
pub open spec fn ordering_of_i8(r: i8) -> Ordering {
    if r < 0 {
        Ordering::Less
    } else if r > 0 {
        Ordering::Greater
    } else {
        Ordering::Equal
    }
}

fn order_to_ordering(r: i8) -> (o: Ordering)
    ensures
        o == ordering_of_i8(r),
{
    if r < 0 {
        Ordering::Less
    } else if r > 0 {
        Ordering::Greater
    } else {
        Ordering::Equal
    }
}

/// The order of two versions as -1, 0 or 1.
pub fn version_order_exec(x: &Version, y: &Version) -> (r: i8)
    ensures
        r as int == version_order(x@, y@),
{
    if x.epoch < y.epoch {
        -1
    } else if x.epoch > y.epoch {
        1
    } else {
        let c = rpm_order_exec(x.version.as_str(), y.version.as_str());
        if c != 0 {
            c
        } else {
            rpm_order_exec(x.release.as_str(), y.release.as_str())
        }
    }
}

impl Version {
    /// Parses `epoch:version-release`; a missing or unreadable epoch is 0
    /// and a missing release is empty.
    pub fn parse(ver: &str) -> (r: Self)
        ensures
            r@ == parse_version(ver@),
    {
        let v = chars_of(ver);
        let n = v.len();
        let colon = find_char(&v, 0, n, ':');
        proof {
            assert(v@.subrange(0, n as int) =~= ver@);
        }
        let mut epoch: u32 = 0;
        let mut start: usize = 0;
        if colon < n {
            match parse_u64(&v, 0, colon) {
                Some(e) => {
                    if e <= u32::MAX as u64 {
                        epoch = e as u32;
                    }
                },
                None => {},
            }
            start = colon + 1;
            proof {
                assert(epoch == epoch_value(ver@.take(colon as int)));
                assert(ver@.take(colon as int) =~= v@.subrange(0, colon as int));
                assert(ver@.skip(colon + 1) =~= v@.subrange(colon + 1, n as int));
            }
        } else {
            proof {
                assert(ver@ =~= v@.subrange(0, n as int));
            }
        }
        let ghost rest = v@.subrange(start as int, n as int);
        proof {
            let i = idx_of(ver@, ':');
            assert(i == colon);
            if colon < n {
                assert(rest =~= ver@.skip((i + 1) as int));
            } else {
                assert(rest =~= ver@);
                assert(epoch == 0);
            }
            assert(parse_version(ver@).0 == epoch);
        }
        match rfind_char(&v, start, n, '-') {
            Some(k) => {
                proof {
                    assert(rest.take(k - start) =~= v@.subrange(start as int, k as int));
                    assert(rest.skip(k - start + 1) =~= v@.subrange(k + 1, n as int));
                }
                let r = Version { epoch, version: string_of(&v, start, k), release: string_of(&v, k + 1, n) };
                proof {
                    let pv = parse_version(ver@);
                    assert(last_idx_of(rest, '-') == Some((k - start) as nat));
                    assert(pv.1 == rest.take(k - start));
                    assert(r@.1 == pv.1);
                    assert(r@.2 == pv.2);
                }
                r
            },
            None => {
                let release = String::new();
                let r = Version { epoch, version: string_of(&v, start, n), release };
                proof {
                    let pv = parse_version(ver@);
                    assert(r@.1 == pv.1);
                    assert(r@.2 == pv.2);
                }
                r
            },
        }
    }

    /// Compares two version strings after parsing them.
    pub fn compare(a: &str, b: &str) -> (o: Ordering)
        ensures
            o == ordering_of(version_order(parse_version(a@), parse_version(b@))),
    {
        let va = Version::parse(a);
        let vb = Version::parse(b);
        order_to_ordering(version_order_exec(&va, &vb))
    }

    /// The order of `self` and `other` (`Ord::cmp`).
    pub fn compare_to(&self, other: &Version) -> (o: Ordering)
        ensures
            o == ordering_of(version_order(self@, other@)),
    {
        order_to_ordering(version_order_exec(self, other))
    }

    /// The text `Display` gives this version.
    pub fn render(&self) -> (s: String)
        ensures
            s@ == version_text(self@),
    {
        let mut s = String::new();
        if self.epoch > 0 {
            push_decimal(&mut s, self.epoch as u64);
            s.push(':');
            let v = chars_of(self.version.as_str());
            push_range(&mut s, &v, 0, v.len());
            s.push('-');
            let r = chars_of(self.release.as_str());
            push_range(&mut s, &r, 0, r.len());
            proof {
                assert(v@.subrange(0, v@.len() as int) =~= self.version@);
                assert(r@.subrange(0, r@.len() as int) =~= self.release@);
                assert(s@ =~= version_text(self@));
            }
        } else {
            let v = chars_of(self.version.as_str());
            push_range(&mut s, &v, 0, v.len());
            proof {
                assert(v@.subrange(0, v@.len() as int) =~= self.version@);
            }
            let r = chars_of(self.release.as_str());
            if r.len() != 0 {
                s.push('-');
                push_range(&mut s, &r, 0, r.len());
                proof {
                    assert(r@.subrange(0, r@.len() as int) =~= self.release@);
                }
            }
            proof {
                assert(s@ =~= version_text(self@));
            }
        }
        s
    }
}

/// RPM version comparison (`rpmvercmp`) of two version strings.
pub fn rpmvercmp(a: &str, b: &str) -> (o: Ordering)
    ensures
        o == ordering_of(rpm_order(a@, b@)),
{
    order_to_ordering(rpm_order_exec(a, b))
}

} // verus!
