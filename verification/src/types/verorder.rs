//! The RPM version ordering ("rpmvercmp") on character sequences.
//!
//! A version string is read as alternating runs of digits and of ASCII
//! letters; everything else separates runs.  Digit runs compare as numbers
//! (leading zeros ignored), letter runs compare lexicographically, a digit
//! run is newer than a letter run, and a `~` sorts before anything,
//! even the end of the string.
use vstd::prelude::*;
use crate::text::{is_alnum, is_alpha, is_digit, digit, alpha, trim, chars_of, trim_range, same_range};

verus! {

/// The three character classes that the ordering distinguishes.
pub open spec fn in_class(c: char, kind: u8) -> bool {
    if kind == 0 {
        !is_alnum(c)
    } else if kind == 1 {
        is_digit(c)
    } else {
        is_alpha(c)
    }
}

/// Length of the leading run of `s` whose characters are all of class `kind`
/// (0: separators, 1: digits, 2: letters).
pub open spec fn run(s: Seq<char>, kind: u8) -> nat
    decreases s.len(),
{
    if s.len() > 0 && in_class(s[0], kind) {
        1 + run(s.drop_first(), kind)
    } else {
        0
    }
}

/// Number of leading zeros of a digit run that do not count: a `'0'` is
/// dropped while another digit follows it.
pub open spec fn zeros(s: Seq<char>) -> nat
    decreases s.len(),
{
    if s.len() > 1 && s[0] == '0' && is_digit(s[1]) {
        1 + zeros(s.drop_first())
    } else {
        0
    }
}

/// Lexicographic order of two character sequences: -1, 0 or 1.
pub open spec fn lex(x: Seq<char>, y: Seq<char>) -> int
    decreases x.len(),
{
    if x.len() == 0 && y.len() == 0 {
        0
    } else if x.len() == 0 {
        -1
    } else if y.len() == 0 {
        1
    } else if x[0] < y[0] {
        -1
    } else if y[0] < x[0] {
        1
    } else {
        lex(x.drop_first(), y.drop_first())
    }
}

pub open spec fn sign(d: int) -> int {
    if d < 0 {
        -1
    } else if d > 0 {
        1
    } else {
        0
    }
}

pub proof fn lemma_run(s: Seq<char>, kind: u8)
    ensures
        run(s, kind) <= s.len(),
        forall|i: int| 0 <= i < run(s, kind) ==> in_class(#[trigger] s[i], kind),
        run(s, kind) < s.len() ==> !in_class(s[run(s, kind) as int], kind),
    decreases s.len(),
{
    if s.len() > 0 && in_class(s[0], kind) {
        lemma_run(s.drop_first(), kind);
        assert forall|i: int| 0 <= i < run(s, kind) implies in_class(#[trigger] s[i], kind) by {
            if i > 0 {
                assert(s[i] == s.drop_first()[i - 1]);
            }
        }
        if run(s, kind) < s.len() {
            assert(s[run(s, kind) as int] == s.drop_first()[run(s.drop_first(), kind) as int]);
        }
    }
}

pub proof fn lemma_run_unique(s: Seq<char>, kind: u8, k: int)
    requires
        0 <= k <= s.len(),
        forall|i: int| 0 <= i < k ==> in_class(#[trigger] s[i], kind),
        k < s.len() ==> !in_class(s[k], kind),
    ensures
        run(s, kind) == k,
{
    lemma_run(s, kind);
    if run(s, kind) < k {
        assert(in_class(s[run(s, kind) as int], kind));
    }
    if run(s, kind) > k {
        assert(in_class(s[k], kind));
    }
}

pub proof fn lemma_zeros(s: Seq<char>)
    ensures
        zeros(s) <= s.len(),
        zeros(s) > 0 ==> zeros(s) < s.len(),
        s.len() > 0 && is_digit(s[0]) ==> is_digit(s[zeros(s) as int]),
    decreases s.len(),
{
    if s.len() > 1 && s[0] == '0' && is_digit(s[1]) {
        lemma_zeros(s.drop_first());
        assert(s[zeros(s) as int] == s.drop_first()[zeros(s.drop_first()) as int]);
    }
}

/// The order of two version strings (already trimmed): -1, 0 or 1.
pub open spec fn ver_order(a: Seq<char>, b: Seq<char>) -> int
    decreases a.len() + b.len(),
{
    if a.len() == 0 && b.len() == 0 {
        0
    } else if a.len() > 0 && a[0] == '~' {
        if b.len() == 0 || b[0] != '~' {
            -1
        } else {
            ver_order(a.drop_first(), b.drop_first())
        }
    } else if b.len() > 0 && b[0] == '~' {
        1
    } else {
        let a1 = a.skip(run(a, 0) as int);
        let b1 = b.skip(run(b, 0) as int);
        proof {
            lemma_run(a, 0);
            lemma_run(b, 0);
        }
        if a1.len() == 0 || b1.len() == 0 {
            sign(a1.len() - b1.len())
        } else if is_digit(a1[0]) && is_digit(b1[0]) {
            let a2 = a1.skip(zeros(a1) as int);
            let b2 = b1.skip(zeros(b1) as int);
            proof {
                lemma_zeros(a1);
                lemma_zeros(b1);
                lemma_run(a2, 1);
                lemma_run(b2, 1);
            }
            let an = run(a2, 1);
            let bn = run(b2, 1);
            if an != bn {
                sign(an - bn)
            } else {
                let c = lex(a2.take(an as int), b2.take(bn as int));
                if c != 0 {
                    c
                } else {
                    ver_order(a2.skip(an as int), b2.skip(bn as int))
                }
            }
        } else if is_alpha(a1[0]) && is_alpha(b1[0]) {
            proof {
                lemma_run(a1, 2);
                lemma_run(b1, 2);
            }
            let an = run(a1, 2);
            let bn = run(b1, 2);
            let c = lex(a1.take(an as int), b1.take(bn as int));
            if c != 0 {
                c
            } else {
                ver_order(a1.skip(an as int), b1.skip(bn as int))
            }
        } else if is_alpha(a1[0]) {
            1
        } else if is_alpha(b1[0]) {
            -1
        } else {
            ver_order(a1.drop_first(), b1.drop_first())
        }
    }
}

// ---------------------------------------------------------------------------
// Laws of the ordering
// ---------------------------------------------------------------------------

pub proof fn lemma_lex_refl(x: Seq<char>)
    ensures
        lex(x, x) == 0,
    decreases x.len(),
{
    if x.len() > 0 {
        lemma_lex_refl(x.drop_first());
    }
}

pub proof fn lemma_lex_antisym(x: Seq<char>, y: Seq<char>)
    ensures
        lex(x, y) == -lex(y, x),
    decreases x.len(),
{
    if x.len() > 0 && y.len() > 0 && x[0] == y[0] {
        lemma_lex_antisym(x.drop_first(), y.drop_first());
    }
}

/// Every version string is equal to itself.
pub proof fn lemma_ver_order_refl(a: Seq<char>)
    ensures
        ver_order(a, a) == 0,
    decreases a.len(),
{
    if a.len() == 0 {
    } else if a[0] == '~' {
        lemma_ver_order_refl(a.drop_first());
    } else {
        let a1 = a.skip(run(a, 0) as int);
        lemma_run(a, 0);
        if a1.len() == 0 {
        } else if is_digit(a1[0]) {
            let a2 = a1.skip(zeros(a1) as int);
            lemma_zeros(a1);
            lemma_run(a2, 1);
            lemma_lex_refl(a2.take(run(a2, 1) as int));
            lemma_ver_order_refl(a2.skip(run(a2, 1) as int));
        } else if is_alpha(a1[0]) {
            lemma_run(a1, 2);
            lemma_lex_refl(a1.take(run(a1, 2) as int));
            lemma_ver_order_refl(a1.skip(run(a1, 2) as int));
        } else {
            lemma_ver_order_refl(a1.drop_first());
        }
    }
}

/// Swapping the two versions swaps the answer.
pub proof fn lemma_ver_order_antisym(a: Seq<char>, b: Seq<char>)
    ensures
        ver_order(a, b) == -ver_order(b, a),
    decreases a.len() + b.len(),
{
    if a.len() == 0 && b.len() == 0 {
    } else if a.len() > 0 && a[0] == '~' {
        if b.len() > 0 && b[0] == '~' {
            lemma_ver_order_antisym(a.drop_first(), b.drop_first());
        }
    } else if b.len() > 0 && b[0] == '~' {
    } else {
        let a1 = a.skip(run(a, 0) as int);
        let b1 = b.skip(run(b, 0) as int);
        lemma_run(a, 0);
        lemma_run(b, 0);
        if a1.len() == 0 || b1.len() == 0 {
        } else if is_digit(a1[0]) && is_digit(b1[0]) {
            let a2 = a1.skip(zeros(a1) as int);
            let b2 = b1.skip(zeros(b1) as int);
            lemma_zeros(a1);
            lemma_zeros(b1);
            lemma_run(a2, 1);
            lemma_run(b2, 1);
            let an = run(a2, 1);
            let bn = run(b2, 1);
            lemma_lex_antisym(a2.take(an as int), b2.take(bn as int));
            if an == bn {
                lemma_ver_order_antisym(a2.skip(an as int), b2.skip(bn as int));
            }
        } else if is_alpha(a1[0]) && is_alpha(b1[0]) {
            lemma_run(a1, 2);
            lemma_run(b1, 2);
            let an = run(a1, 2);
            let bn = run(b1, 2);
            lemma_lex_antisym(a1.take(an as int), b1.take(bn as int));
            lemma_ver_order_antisym(a1.skip(an as int), b1.skip(bn as int));
        } else if !is_alpha(a1[0]) && !is_alpha(b1[0]) && !(is_digit(a1[0]) && is_digit(b1[0])) {
            // both characters are alphanumeric, so this case cannot arise
            lemma_run(a, 0);
            assert(!in_class(a1[0], 0)) by {
                assert(a1[0] == a[run(a, 0) as int]);
            }
            assert(!in_class(b1[0], 0)) by {
                assert(b1[0] == b[run(b, 0) as int]);
            }
        }
    }
}

// ---------------------------------------------------------------------------
// Executable pieces
// ---------------------------------------------------------------------------

pub fn class_of(c: char, kind: u8) -> (b: bool)
    ensures
        b == in_class(c, kind),
{
    if kind == 0 {
        !(digit(c) || alpha(c))
    } else if kind == 1 {
        digit(c)
    } else {
        alpha(c)
    }
}

/// End of the run of class `kind` that starts at `i` in `v[..hi]`.
pub fn run_end(v: &Vec<char>, i: usize, hi: usize, kind: u8) -> (j: usize)
    requires
        i <= hi <= v.len(),
    ensures
        i <= j <= hi,
        j - i == run(v@.subrange(i as int, hi as int), kind),
{
    let mut j = i;
    while j < hi && class_of(v[j], kind)
        invariant
            i <= j <= hi <= v.len(),
            forall|k: int| i <= k < j ==> in_class(#[trigger] v@[k], kind),
        decreases hi - j,
    {
        j += 1;
    }
    proof {
        let s = v@.subrange(i as int, hi as int);
        assert forall|k: int| 0 <= k < j - i implies in_class(#[trigger] s[k], kind) by {
            assert(s[k] == v@[i + k]);
        }
        if j < hi {
            assert(s[j - i] == v@[j as int]);
        }
        lemma_run_unique(s, kind, j - i);
    }
    j
}

/// End of the dropped leading zeros of the digit run at `i`.
pub fn zeros_end(v: &Vec<char>, i: usize, hi: usize) -> (j: usize)
    requires
        i <= hi <= v.len(),
    ensures
        i <= j <= hi,
        j - i == zeros(v@.subrange(i as int, hi as int)),
{
    let mut j = i;
    while hi > 0 && j < hi - 1 && v[j] == '0' && digit(v[j + 1])
        invariant
            i <= j <= hi <= v.len(),
            zeros(v@.subrange(i as int, hi as int)) == (j - i) + zeros(v@.subrange(j as int, hi as int)),
        decreases hi - j,
    {
        proof {
            let s = v@.subrange(j as int, hi as int);
            assert(s.drop_first() =~= v@.subrange(j + 1, hi as int));
        }
        j += 1;
    }
    j
}

/// `lex(v[i..i+n], w[k..k+m])`.
pub fn lex_exec(v: &Vec<char>, i: usize, n: usize, w: &Vec<char>, k: usize, m: usize) -> (r: i8)
    requires
        i + n <= v.len(),
        k + m <= w.len(),
    ensures
        r as int == lex(v@.subrange(i as int, i + n), w@.subrange(k as int, k + m)),
{
    let mut t: usize = 0;
    while t < n && t < m && v[i + t] == w[k + t]
        invariant
            i + n <= v.len(),
            k + m <= w.len(),
            t <= n,
            t <= m,
            lex(v@.subrange(i as int, i + n), w@.subrange(k as int, k + m)) == lex(
                v@.subrange(i + t, i + n),
                w@.subrange(k + t, k + m),
            ),
        decreases n - t,
    {
        proof {
            assert(v@.subrange(i + t, i + n).drop_first() =~= v@.subrange(i + t + 1, i + n));
            assert(w@.subrange(k + t, k + m).drop_first() =~= w@.subrange(k + t + 1, k + m));
        }
        t += 1;
    }
    if t == n && t == m {
        0
    } else if t == n {
        -1
    } else if t == m {
        1
    } else if v[i + t] < w[k + t] {
        -1
    } else {
        1
    }
}

/// The order of `a[alo..ahi]` and `b[blo..bhi]` under `ver_order`.
pub fn ver_order_exec(a: &Vec<char>, alo: usize, ahi: usize, b: &Vec<char>, blo: usize, bhi: usize) -> (r: i8)
    requires
        alo <= ahi <= a.len(),
        blo <= bhi <= b.len(),
    ensures
        r as int == ver_order(a@.subrange(alo as int, ahi as int), b@.subrange(blo as int, bhi as int)),
{
    let ghost target = ver_order(a@.subrange(alo as int, ahi as int), b@.subrange(blo as int, bhi as int));
    let mut ai = alo;
    let mut bi = blo;
    loop
        invariant
            alo <= ai <= ahi <= a.len(),
            blo <= bi <= bhi <= b.len(),
            ver_order(a@.subrange(ai as int, ahi as int), b@.subrange(bi as int, bhi as int)) == target,
            target == ver_order(a@.subrange(alo as int, ahi as int), b@.subrange(blo as int, bhi as int)),
        decreases (ahi - ai) + (bhi - bi),
    {
        let ghost sa = a@.subrange(ai as int, ahi as int);
        let ghost sb = b@.subrange(bi as int, bhi as int);
        proof {
            if ai < ahi {
                assert(sa[0] == a@[ai as int]);
            }
            if bi < bhi {
                assert(sb[0] == b@[bi as int]);
            }
        }
        if ai == ahi && bi == bhi {
            return 0;
        }
        if ai < ahi && a[ai] == '~' {
            if bi == bhi || b[bi] != '~' {
                return -1;
            }
            proof {
                assert(sa.drop_first() =~= a@.subrange(ai + 1, ahi as int));
                assert(sb.drop_first() =~= b@.subrange(bi + 1, bhi as int));
            }
            ai += 1;
            bi += 1;
            continue;
        }
        if bi < bhi && b[bi] == '~' {
            return 1;
        }
        let a1 = run_end(a, ai, ahi, 0);
        let b1 = run_end(b, bi, bhi, 0);
        proof {
            assert(sa.skip(run(sa, 0) as int) =~= a@.subrange(a1 as int, ahi as int));
            assert(sb.skip(run(sb, 0) as int) =~= b@.subrange(b1 as int, bhi as int));
        }
        let ghost sa1 = a@.subrange(a1 as int, ahi as int);
        let ghost sb1 = b@.subrange(b1 as int, bhi as int);
        if a1 == ahi || b1 == bhi {
            let la = ahi - a1;
            let lb = bhi - b1;
            if la < lb {
                return -1;
            } else if la > lb {
                return 1;
            } else {
                return 0;
            }
        }
        assert(sa1[0] == a@[a1 as int]);
        assert(sb1[0] == b@[b1 as int]);
        if digit(a[a1]) && digit(b[b1]) {
            let a2 = zeros_end(a, a1, ahi);
            let b2 = zeros_end(b, b1, bhi);
            proof {
                assert(sa1.skip(zeros(sa1) as int) =~= a@.subrange(a2 as int, ahi as int));
                assert(sb1.skip(zeros(sb1) as int) =~= b@.subrange(b2 as int, bhi as int));
            }
            let a3 = run_end(a, a2, ahi, 1);
            let b3 = run_end(b, b2, bhi, 1);
            let an = a3 - a2;
            let bn = b3 - b2;
            if an != bn {
                return if an < bn {
                    -1
                } else {
                    1
                };
            }
            let c = lex_exec(a, a2, an, b, b2, bn);
            proof {
                let sa2 = a@.subrange(a2 as int, ahi as int);
                let sb2 = b@.subrange(b2 as int, bhi as int);
                assert(sa2.take(an as int) =~= a@.subrange(a2 as int, a2 + an));
                assert(sb2.take(bn as int) =~= b@.subrange(b2 as int, b2 + bn));
                assert(sa2.skip(an as int) =~= a@.subrange(a3 as int, ahi as int));
                assert(sb2.skip(bn as int) =~= b@.subrange(b3 as int, bhi as int));
                lemma_zeros(sa1);
                lemma_run(sa2, 1);
            }
            if c != 0 {
                return c;
            }
            ai = a3;
            bi = b3;
            continue;
        }
        if alpha(a[a1]) && alpha(b[b1]) {
            let a3 = run_end(a, a1, ahi, 2);
            let b3 = run_end(b, b1, bhi, 2);
            let an = a3 - a1;
            let bn = b3 - b1;
            let c = lex_exec(a, a1, an, b, b1, bn);
            proof {
                assert(sa1.take(an as int) =~= a@.subrange(a1 as int, a1 + an));
                assert(sb1.take(bn as int) =~= b@.subrange(b1 as int, b1 + bn));
                assert(sa1.skip(an as int) =~= a@.subrange(a3 as int, ahi as int));
                assert(sb1.skip(bn as int) =~= b@.subrange(b3 as int, bhi as int));
                lemma_run(sa1, 2);
            }
            if c != 0 {
                return c;
            }
            ai = a3;
            bi = b3;
            continue;
        }
        if alpha(a[a1]) {
            return 1;
        }
        if alpha(b[b1]) {
            return -1;
        }
        proof {
            assert(sa1.drop_first() =~= a@.subrange(a1 + 1, ahi as int));
            assert(sb1.drop_first() =~= b@.subrange(b1 + 1, bhi as int));
        }
        ai = a1 + 1;
        bi = b1 + 1;
    }
}

/// The order that `rpmvercmp` computes: both strings are trimmed first, and
/// equal trimmed strings are equal versions.
pub open spec fn rpm_order(a: Seq<char>, b: Seq<char>) -> int {
    let ta = trim(a);
    let tb = trim(b);
    if ta == tb {
        0
    } else {
        ver_order(ta, tb)
    }
}

/// Every version string is equal to itself.
pub proof fn lemma_rpm_order_refl(a: Seq<char>)
    ensures
        rpm_order(a, a) == 0,
{
}

/// Swapping the two version strings swaps the answer.
pub proof fn lemma_rpm_order_antisym(a: Seq<char>, b: Seq<char>)
    ensures
        rpm_order(a, b) == -rpm_order(b, a),
{
    lemma_ver_order_antisym(trim(a), trim(b));
}

/// `rpm_order(a@, b@)` as -1, 0 or 1.
pub fn rpm_order_exec(a: &str, b: &str) -> (r: i8)
    ensures
        r as int == rpm_order(a@, b@),
{
    let va = chars_of(a);
    let vb = chars_of(b);
    let (alo, ahi) = trim_range(&va, 0, va.len());
    let (blo, bhi) = trim_range(&vb, 0, vb.len());
    proof {
        assert(va@.subrange(0, va@.len() as int) =~= a@);
        assert(vb@.subrange(0, vb@.len() as int) =~= b@);
    }
    if same_range(&va, alo, ahi, &vb, blo, bhi) {
        0
    } else {
        ver_order_exec(&va, alo, ahi, &vb, blo, bhi)
    }
}

} // verus!
