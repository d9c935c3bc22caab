//! Character-level text handling shared by the parsers of this crate.
//!
//! Text is modelled as `Seq<char>`.  Executable code works on a `Vec<char>`
//! copy of the input and on index ranges into it.
use vstd::prelude::*;
use vstd::string::StrSliceExecFns;

verus! {

/// `String::push` appends one character to the end of the string.
pub assume_specification[ String::push ](s: &mut String, ch: char)
    ensures
        final(s)@ == old(s)@.push(ch),
;

// ---------------------------------------------------------------------------
// Character classes
// ---------------------------------------------------------------------------

/// The Unicode `White_Space` property, as `char::is_whitespace` defines it.
pub open spec fn is_ws(c: char) -> bool {
    ||| c == ' '
    ||| ('\t' <= c && c <= '\r')
    ||| c == '\u{85}'
    ||| c == '\u{A0}'
    ||| c == '\u{1680}'
    ||| ('\u{2000}' <= c && c <= '\u{200A}')
    ||| c == '\u{2028}'
    ||| c == '\u{2029}'
    ||| c == '\u{202F}'
    ||| c == '\u{205F}'
    ||| c == '\u{3000}'
}

pub open spec fn is_digit(c: char) -> bool {
    '0' <= c && c <= '9'
}

pub open spec fn is_alpha(c: char) -> bool {
    ('a' <= c && c <= 'z') || ('A' <= c && c <= 'Z')
}

pub open spec fn is_alnum(c: char) -> bool {
    is_digit(c) || is_alpha(c)
}

pub fn ws(c: char) -> (b: bool)
    ensures
        b == is_ws(c),
{
    c == ' ' || ('\t' <= c && c <= '\r') || c == '\u{85}' || c == '\u{A0}' || c == '\u{1680}'
        || ('\u{2000}' <= c && c <= '\u{200A}') || c == '\u{2028}' || c == '\u{2029}'
        || c == '\u{202F}' || c == '\u{205F}' || c == '\u{3000}'
}

pub fn digit(c: char) -> (b: bool)
    ensures
        b == is_digit(c),
{
    '0' <= c && c <= '9'
}

pub fn alpha(c: char) -> (b: bool)
    ensures
        b == is_alpha(c),
{
    ('a' <= c && c <= 'z') || ('A' <= c && c <= 'Z')
}

/// ASCII lower-casing of one character (`char::to_ascii_lowercase`).
pub open spec fn lower_ascii(c: char) -> char {
    if 'A' <= c && c <= 'Z' {
        ((c as u32) + 32) as char
    } else {
        c
    }
}

pub fn to_lower_ascii(c: char) -> (r: char)
    ensures
        r == lower_ascii(c),
{
    if 'A' <= c && c <= 'Z' {
        let u: u8 = ((c as u32) + 32) as u8;
        u as char
    } else {
        c
    }
}

/// `str::eq_ignore_ascii_case`.
pub open spec fn eq_ignore_case(a: Seq<char>, b: Seq<char>) -> bool {
    a.len() == b.len() && forall|i: int| 0 <= i < a.len() ==> lower_ascii(#[trigger] a[i]) == lower_ascii(b[i])
}

// ---------------------------------------------------------------------------
// Trimming
// ---------------------------------------------------------------------------

/// `str::trim_start`.
pub open spec fn trim_start(s: Seq<char>) -> Seq<char>
    decreases s.len(),
{
    if s.len() > 0 && is_ws(s[0]) {
        trim_start(s.drop_first())
    } else {
        s
    }
}

/// `str::trim_end`.
pub open spec fn trim_end(s: Seq<char>) -> Seq<char>
    decreases s.len(),
{
    if s.len() > 0 && is_ws(s.last()) {
        trim_end(s.drop_last())
    } else {
        s
    }
}

/// `str::trim`.
pub open spec fn trim(s: Seq<char>) -> Seq<char> {
    trim_end(trim_start(s))
}

/// Number of leading whitespace characters of `s`.
pub open spec fn lead_ws(s: Seq<char>) -> nat
    decreases s.len(),
{
    if s.len() > 0 && is_ws(s[0]) {
        1 + lead_ws(s.drop_first())
    } else {
        0
    }
}

/// Number of trailing whitespace characters of `s`.
pub open spec fn trail_ws(s: Seq<char>) -> nat
    decreases s.len(),
{
    if s.len() > 0 && is_ws(s.last()) {
        1 + trail_ws(s.drop_last())
    } else {
        0
    }
}

pub proof fn lemma_trim_start(s: Seq<char>)
    ensures
        lead_ws(s) <= s.len(),
        trim_start(s) == s.skip(lead_ws(s) as int),
        forall|i: int| 0 <= i < lead_ws(s) ==> is_ws(#[trigger] s[i]),
        lead_ws(s) < s.len() ==> !is_ws(s[lead_ws(s) as int]),
    decreases s.len(),
{
    if s.len() > 0 && is_ws(s[0]) {
        lemma_trim_start(s.drop_first());
        assert(s.drop_first().skip(lead_ws(s.drop_first()) as int) =~= s.skip(lead_ws(s) as int));
        assert forall|i: int| 0 <= i < lead_ws(s) implies is_ws(#[trigger] s[i]) by {
            if i > 0 {
                assert(s[i] == s.drop_first()[i - 1]);
            }
        }
        if lead_ws(s) < s.len() {
            assert(s[lead_ws(s) as int] == s.drop_first()[lead_ws(s.drop_first()) as int]);
        }
    } else {
        assert(s.skip(0) =~= s);
    }
}

pub proof fn lemma_trim_end(s: Seq<char>)
    ensures
        trail_ws(s) <= s.len(),
        trim_end(s) == s.take(s.len() - trail_ws(s)),
        forall|i: int| s.len() - trail_ws(s) <= i < s.len() ==> is_ws(#[trigger] s[i]),
        trail_ws(s) < s.len() ==> !is_ws(s[s.len() - trail_ws(s) - 1]),
    decreases s.len(),
{
    if s.len() > 0 && is_ws(s.last()) {
        lemma_trim_end(s.drop_last());
        assert(s.drop_last().take(s.drop_last().len() - trail_ws(s.drop_last())) =~= s.take(
            s.len() - trail_ws(s),
        ));
        assert forall|i: int| s.len() - trail_ws(s) <= i < s.len() implies is_ws(#[trigger] s[i]) by {
            if i < s.len() - 1 {
                assert(s[i] == s.drop_last()[i]);
            }
        }
        if trail_ws(s) < s.len() {
            assert(s[s.len() - trail_ws(s) - 1] == s.drop_last()[s.drop_last().len() - trail_ws(
                s.drop_last(),
            ) - 1]);
        }
    } else {
        assert(s.take(s.len() as int) =~= s);
    }
}

/// Trimming twice is trimming once.
pub proof fn lemma_trim_idem(s: Seq<char>)
    ensures
        trim(trim(s)) == trim(s),
{
    lemma_trim_start(s);
    let u = trim_start(s);
    lemma_trim_end(u);
    let t = trim(s);
    if t.len() > 0 {
        assert(t[0] == u[0]);
        assert(u[0] == s[lead_ws(s) as int]);
        assert(!is_ws(t[0]));
        assert(trim_start(t) == t);
        assert(t.last() == u[u.len() - trail_ws(u) - 1]);
        assert(trim_end(t) == t);
    } else {
        assert(trim_start(t) == t);
        assert(trim_end(t) == t);
    }
}

/// The range `[lo2, hi2)` that remains of `v[lo..hi]` after `str::trim`.
pub fn trim_range(v: &Vec<char>, lo: usize, hi: usize) -> (r: (usize, usize))
    requires
        lo <= hi <= v.len(),
    ensures
        lo <= r.0 <= r.1 <= hi,
        v@.subrange(r.0 as int, r.1 as int) == trim(v@.subrange(lo as int, hi as int)),
{
    let ghost s = v@.subrange(lo as int, hi as int);
    let mut a = lo;
    while a < hi && ws(v[a])
        invariant
            lo <= a <= hi <= v.len(),
            forall|i: int| lo <= i < a ==> is_ws(#[trigger] v@[i]),
        decreases hi - a,
    {
        a += 1;
    }
    proof {
        lemma_trim_start(s);
        let k = lead_ws(s);
        // the number of leading blanks is exactly a - lo
        if k < a - lo {
            assert(s[k as int] == v@[lo + k]);
        }
        if k > a - lo {
            assert(s[a - lo] == v@[a as int]);
        }
        assert(k == a - lo);
        assert(trim_start(s) =~= v@.subrange(a as int, hi as int));
    }
    let mut b = hi;
    while b > a && ws(v[b - 1])
        invariant
            lo <= a <= b <= hi <= v.len(),
            forall|i: int| b <= i < hi ==> is_ws(#[trigger] v@[i]),
        decreases b - a,
    {
        b -= 1;
    }
    proof {
        let t = v@.subrange(a as int, hi as int);
        lemma_trim_end(t);
        let k = trail_ws(t);
        if k < hi - b {
            assert(t[t.len() - k - 1] == v@[hi - k - 1]);
        }
        if k > hi - b {
            assert(t[b - a - 1] == v@[b - 1]);
        }
        assert(k == hi - b);
        assert(trim_end(t) =~= v@.subrange(a as int, b as int));
    }
    (a, b)
}

// ---------------------------------------------------------------------------
// Searching
// ---------------------------------------------------------------------------

/// Index of the first `c` in `s`, or `s.len()` when there is none.
pub open spec fn idx_of(s: Seq<char>, c: char) -> nat
    decreases s.len(),
{
    if s.len() == 0 {
        0
    } else if s[0] == c {
        0
    } else {
        1 + idx_of(s.drop_first(), c)
    }
}

pub proof fn lemma_idx_of(s: Seq<char>, c: char)
    ensures
        idx_of(s, c) <= s.len(),
        idx_of(s, c) < s.len() ==> s[idx_of(s, c) as int] == c,
        forall|i: int| 0 <= i < idx_of(s, c) ==> #[trigger] s[i] != c,
    decreases s.len(),
{
    if s.len() > 0 && s[0] != c {
        lemma_idx_of(s.drop_first(), c);
        assert forall|i: int| 0 <= i < idx_of(s, c) implies #[trigger] s[i] != c by {
            if i > 0 {
                assert(s[i] == s.drop_first()[i - 1]);
            }
        }
    }
}

/// `idx_of` is determined by the position of the first occurrence.
pub proof fn lemma_idx_of_unique(s: Seq<char>, c: char, k: int)
    requires
        0 <= k <= s.len(),
        k < s.len() ==> s[k] == c,
        forall|i: int| 0 <= i < k ==> #[trigger] s[i] != c,
    ensures
        idx_of(s, c) == k,
{
    lemma_idx_of(s, c);
    if idx_of(s, c) < k {
        assert(s[idx_of(s, c) as int] == c);
    }
    if idx_of(s, c) > k {
        assert(s[k] != c);
    }
}

/// Index of the first `c` in `v[lo..hi]`, relative to the whole vector
/// (`hi` when there is none).
pub fn find_char(v: &Vec<char>, lo: usize, hi: usize, c: char) -> (r: usize)
    requires
        lo <= hi <= v.len(),
    ensures
        lo <= r <= hi,
        r - lo == idx_of(v@.subrange(lo as int, hi as int), c),
{
    let mut i = lo;
    while i < hi && v[i] != c
        invariant
            lo <= i <= hi <= v.len(),
            forall|j: int| lo <= j < i ==> #[trigger] v@[j] != c,
        decreases hi - i,
    {
        i += 1;
    }
    proof {
        let s = v@.subrange(lo as int, hi as int);
        assert forall|j: int| 0 <= j < i - lo implies #[trigger] s[j] != c by {
            assert(s[j] == v@[lo + j]);
        }
        lemma_idx_of_unique(s, c, i - lo);
    }
    i
}

/// Index of the last `c` in `s`, or `None`.
pub open spec fn last_idx_of(s: Seq<char>, c: char) -> Option<nat>
    decreases s.len(),
{
    if s.len() == 0 {
        None
    } else if s.last() == c {
        Some((s.len() - 1) as nat)
    } else {
        last_idx_of(s.drop_last(), c)
    }
}

pub proof fn lemma_last_idx_of(s: Seq<char>, c: char)
    ensures
        last_idx_of(s, c) matches Some(k) ==> k < s.len() && s[k as int] == c && forall|i: int|
            k < i < s.len() ==> #[trigger] s[i] != c,
        last_idx_of(s, c) is None ==> forall|i: int| 0 <= i < s.len() ==> #[trigger] s[i] != c,
    decreases s.len(),
{
    if s.len() > 0 && s.last() != c {
        lemma_last_idx_of(s.drop_last(), c);
        assert forall|i: int| 0 <= i < s.len() - 1 implies #[trigger] s[i] == s.drop_last()[i] by {}
    }
}

/// Index of the last `c` in `v[lo..hi]`, relative to the whole vector.
pub fn rfind_char(v: &Vec<char>, lo: usize, hi: usize, c: char) -> (r: Option<usize>)
    requires
        lo <= hi <= v.len(),
    ensures
        match last_idx_of(v@.subrange(lo as int, hi as int), c) {
            Some(k) => lo + k < hi && r == Some((lo + k) as usize),
            None => r is None,
        },
        r matches Some(x) ==> lo <= x < hi && v@[x as int] == c,
{
    let ghost s = v@.subrange(lo as int, hi as int);
    proof {
        lemma_last_idx_of(s, c);
    }
    let mut i = hi;
    while i > lo && v[i - 1] != c
        invariant
            lo <= i <= hi <= v.len(),
            s == v@.subrange(lo as int, hi as int),
            last_idx_of(s, c) == last_idx_of(v@.subrange(lo as int, i as int), c),
        decreases i - lo,
    {
        proof {
            let t = v@.subrange(lo as int, i as int);
            assert(t.drop_last() =~= v@.subrange(lo as int, i - 1));
        }
        i -= 1;
    }
    if i > lo {
        Some(i - 1)
    } else {
        proof {
            assert(v@.subrange(lo as int, i as int).len() == 0);
        }
        None
    }
}

/// `s` starts with `p` (`str::starts_with`).
pub open spec fn starts_with(s: Seq<char>, p: Seq<char>) -> bool {
    p.len() <= s.len() && s.take(p.len() as int) == p
}

/// `s` ends with `p` (`str::ends_with`).
pub open spec fn ends_with(s: Seq<char>, p: Seq<char>) -> bool {
    p.len() <= s.len() && s.skip(s.len() - p.len()) == p
}

/// `p` occurs in `s` at position `i`.
pub open spec fn occurs_at(s: Seq<char>, p: Seq<char>, i: int) -> bool {
    0 <= i && i + p.len() <= s.len() && s.subrange(i, i + p.len()) == p
}

/// `str::contains` with a string pattern.
pub open spec fn contains(s: Seq<char>, p: Seq<char>) -> bool {
    exists|i: int| occurs_at(s, p, i)
}

/// `str::find` with a string pattern: the first position at which `p` occurs.
#[verifier::opaque]
pub open spec fn find(s: Seq<char>, p: Seq<char>) -> Option<int> {
    if contains(s, p) {
        Some(choose|i: int| occurs_at(s, p, i) && forall|j: int| 0 <= j < i ==> !occurs_at(s, p, j))
    } else {
        None
    }
}

pub proof fn lemma_find_first(s: Seq<char>, p: Seq<char>, k: int)
    requires
        occurs_at(s, p, k),
        forall|j: int| 0 <= j < k ==> !occurs_at(s, p, j),
    ensures
        find(s, p) == Some(k),
{
    reveal(find);
    assert(contains(s, p));
    let c = choose|i: int| occurs_at(s, p, i) && forall|j: int| 0 <= j < i ==> !occurs_at(s, p, j);
    assert(occurs_at(s, p, c) && forall|j: int| 0 <= j < c ==> !occurs_at(s, p, j));
    if c < k {
        assert(!occurs_at(s, p, c));
    }
    if c > k {
        assert(!occurs_at(s, p, k));
    }
}

/// Whether `v[at..]` (within `v[..hi]`) begins with `p`.
pub fn matches_at(v: &Vec<char>, at: usize, hi: usize, p: &[char]) -> (b: bool)
    requires
        at <= hi <= v.len(),
    ensures
        b == starts_with(v@.subrange(at as int, hi as int), p@),
{
    if p.len() > hi - at {
        return false;
    }
    let mut i: usize = 0;
    while i < p.len()
        invariant
            at <= hi <= v.len(),
            p.len() <= hi - at,
            i <= p.len(),
            forall|j: int| 0 <= j < i ==> v@[at + j] == p@[j],
        decreases p.len() - i,
    {
        if v[at + i] != p[i] {
            proof {
                let s = v@.subrange(at as int, hi as int);
                assert(s.take(p.len() as int)[i as int] != p@[i as int]);
            }
            return false;
        }
        i += 1;
    }
    assert(v@.subrange(at as int, hi as int).take(p.len() as int) =~= p@);
    true
}

/// First position (relative to the whole vector) at which `p` occurs in
/// `v[lo..hi]`.
#[verifier::spinoff_prover]
#[verifier::rlimit(30)]
pub fn find_str(v: &Vec<char>, lo: usize, hi: usize, p: &[char]) -> (r: Option<usize>)
    requires
        lo <= hi <= v.len(),
    ensures
        match find(v@.subrange(lo as int, hi as int), p@) {
            Some(k) => 0 <= k && lo + k + p@.len() <= hi && r == Some((lo + k) as usize),
            None => r is None,
        },
{
    let ghost s = v@.subrange(lo as int, hi as int);
    if p.len() > hi - lo {
        proof {
            assert forall|j: int| !occurs_at(s, p@, j) by {}
            reveal(find);
        }
        return None;
    }
    let last = hi - p.len();
    let mut i = lo;
    loop
        invariant
            lo <= i <= last,
            last + p.len() == hi,
            hi <= v.len(),
            s == v@.subrange(lo as int, hi as int),
            forall|j: int| 0 <= j < i - lo ==> !occurs_at(s, p@, j),
        decreases last - i,
    {
        let m = matches_at(v, i, hi, p);
        proof {
            let w = v@.subrange(i as int, hi as int).take(p@.len() as int);
            assert(w =~= s.subrange(i - lo, i - lo + p@.len()));
            assert(m == occurs_at(s, p@, i - lo));
        }
        if m {
            proof {
                lemma_find_first(s, p@, i - lo);
            }
            return Some(i);
        }
        if i == last {
            proof {
                assert forall|j: int| !occurs_at(s, p@, j) by {
                    if 0 <= j < i - lo {
                    }
                }
                assert(!contains(s, p@));
                reveal(find);
            }
            return None;
        }
        i += 1;
    }
}

// ---------------------------------------------------------------------------
// Lines
// ---------------------------------------------------------------------------

/// A line taken from before a `'\n'` loses one trailing `'\r'`.
pub open spec fn strip_cr(s: Seq<char>) -> Seq<char> {
    if s.len() > 0 && s.last() == '\r' {
        s.drop_last()
    } else {
        s
    }
}

/// `str::lines`.
pub open spec fn lines(s: Seq<char>) -> Seq<Seq<char>>
    decreases s.len(),
{
    if s.len() == 0 {
        seq![]
    } else {
        let i = idx_of(s, '\n');
        if i < s.len() {
            seq![strip_cr(s.take(i as int))] + lines(s.skip((i + 1) as int))
        } else {
            seq![s]
        }
    }
}

/// The line that starts at `pos`: it ends at `r.1` (exclusive) and the next
/// line starts at `r.2`.
pub fn next_line(v: &Vec<char>, pos: usize) -> (r: (usize, usize))
    requires
        pos < v.len(),
    ensures
        pos <= r.0 <= r.1 <= v.len(),
        pos < r.1,
        lines(v@.skip(pos as int)) == seq![v@.subrange(pos as int, r.0 as int)] + lines(
            v@.skip(r.1 as int),
        ),
{
    let e = find_char(v, pos, v.len(), '\n');
    proof {
        assert(v@.subrange(pos as int, v.len() as int) =~= v@.skip(pos as int));
    }
    let ghost s = v@.skip(pos as int);
    if e < v.len() {
        let end = if e > pos && v[e - 1] == '\r' {
            e - 1
        } else {
            e
        };
        proof {
            assert(s.take(e - pos) =~= v@.subrange(pos as int, e as int));
            assert(s.skip(e - pos + 1) =~= v@.skip(e + 1));
            assert(strip_cr(v@.subrange(pos as int, e as int)) =~= v@.subrange(
                pos as int,
                end as int,
            ));
        }
        (end, e + 1)
    } else {
        proof {
            assert(v@.skip(v.len() as int).len() == 0);
            assert(s =~= v@.subrange(pos as int, v.len() as int));
        }
        (v.len(), v.len())
    }
}

// ---------------------------------------------------------------------------
// Splitting
// ---------------------------------------------------------------------------

/// `str::split` with a single-character separator.
pub open spec fn split(s: Seq<char>, c: char) -> Seq<Seq<char>>
    decreases s.len(),
{
    let i = idx_of(s, c);
    if i < s.len() {
        seq![s.take(i as int)] + split(s.skip((i + 1) as int), c)
    } else {
        seq![s]
    }
}

/// The piece of `split(v[pos..hi], c)` that starts at `pos` ends at `r.0`;
/// `r.1` says whether a separator follows it.
pub fn next_piece(v: &Vec<char>, pos: usize, hi: usize, c: char) -> (r: (usize, bool))
    requires
        pos <= hi <= v.len(),
    ensures
        pos <= r.0 <= hi,
        r.1 ==> r.0 < hi && split(v@.subrange(pos as int, hi as int), c) == seq![
            v@.subrange(pos as int, r.0 as int),
        ] + split(v@.subrange(r.0 + 1, hi as int), c),
        !r.1 ==> r.0 == hi && split(v@.subrange(pos as int, hi as int), c) == seq![
            v@.subrange(pos as int, hi as int),
        ],
{
    let e = find_char(v, pos, hi, c);
    let ghost s = v@.subrange(pos as int, hi as int);
    if e < hi {
        proof {
            assert(s.take(e - pos) =~= v@.subrange(pos as int, e as int));
            assert(s.skip(e - pos + 1) =~= v@.subrange(e + 1, hi as int));
        }
        (e, true)
    } else {
        (e, false)
    }
}

/// `str::split_whitespace` from index `i`, where a word began at `start`
/// (or none is open when `start` is negative).
pub open spec fn words_acc(s: Seq<char>, i: int, start: int) -> Seq<Seq<char>>
    decreases s.len() - i,
{
    if i >= s.len() {
        if start >= 0 {
            seq![s.subrange(start, s.len() as int)]
        } else {
            Seq::empty()
        }
    } else if is_ws(s[i]) {
        if start >= 0 {
            seq![s.subrange(start, i)] + words_acc(s, i + 1, -1)
        } else {
            words_acc(s, i + 1, -1)
        }
    } else {
        words_acc(s, i + 1, if start >= 0 { start } else { i })
    }
}

/// `str::split_whitespace`: the maximal runs of non-blank characters.
pub open spec fn words(s: Seq<char>) -> Seq<Seq<char>> {
    words_acc(s, 0, -1)
}

/// The words of `s` (`split_whitespace`).
pub fn words_of(s: &str) -> (r: Vec<String>)
    ensures
        strings_view(r@) == words(s@),
{
    let v = chars_of(s);
    let n = v.len();
    let mut r: Vec<String> = Vec::new();
    let mut i: usize = 0;
    let mut open = false;
    let mut start: usize = 0;
    proof {
        assert(strings_view(r@) + words_acc(s@, 0, -1) =~= words(s@));
    }
    while i < n
        invariant
            n == v@.len(),
            v@ == s@,
            i <= n,
            open ==> start < i,
            strings_view(r@) + words_acc(s@, i as int, if open { start as int } else { -1 }) == words(s@),
        decreases n - i,
    {
        let ghost before = strings_view(r@);
        if ws(v[i]) {
            if open {
                let w = string_of(&v, start, i);
                r.push(w);
                proof {
                    assert(strings_view(r@) =~= before.push(w@));
                    assert(before + (seq![s@.subrange(start as int, i as int)] + words_acc(s@, i + 1, -1))
                        =~= strings_view(r@) + words_acc(s@, i + 1, -1));
                }
                open = false;
            }
        } else if !open {
            open = true;
            start = i;
        }
        i += 1;
    }
    if open {
        let ghost before = strings_view(r@);
        let w = string_of(&v, start, n);
        r.push(w);
        proof {
            assert(strings_view(r@) =~= before.push(w@));
            assert(strings_view(r@) =~= before + seq![s@.subrange(start as int, n as int)]);
        }
    } else {
        proof {
            assert(strings_view(r@) =~= strings_view(r@) + Seq::<Seq<char>>::empty());
        }
    }
    r
}

// ---------------------------------------------------------------------------
// Numbers
// ---------------------------------------------------------------------------

/// The value of a string of ASCII digits.
pub open spec fn digits_value(s: Seq<char>) -> nat
    decreases s.len(),
{
    if s.len() == 0 {
        0
    } else {
        digits_value(s.drop_last()) * 10 + ((s.last() as u32) - 48) as nat
    }
}

pub open spec fn all_digits(s: Seq<char>) -> bool {
    forall|i: int| 0 <= i < s.len() ==> is_digit(#[trigger] s[i])
}

/// The digits that `str::parse` for an unsigned type reads: an optional
/// leading `'+'` is dropped.
pub open spec fn unsigned_digits(s: Seq<char>) -> Seq<char> {
    if s.len() > 0 && s[0] == '+' {
        s.drop_first()
    } else {
        s
    }
}

/// `str::parse::<T>()` for an unsigned integer type whose largest value is
/// `max`: `None` on an error.
pub open spec fn parse_unsigned(s: Seq<char>, max: nat) -> Option<nat> {
    let d = unsigned_digits(s);
    if d.len() > 0 && all_digits(d) && digits_value(d) <= max {
        Some(digits_value(d))
    } else {
        None
    }
}

/// `v[lo..hi].parse::<u64>()`.
pub fn parse_u64(v: &Vec<char>, lo: usize, hi: usize) -> (r: Option<u64>)
    requires
        lo <= hi <= v.len(),
    ensures
        match parse_unsigned(v@.subrange(lo as int, hi as int), u64::MAX as nat) {
            Some(n) => r == Some(n as u64),
            None => r is None,
        },
{
    let ghost s = v@.subrange(lo as int, hi as int);
    let start = if lo < hi && v[lo] == '+' {
        lo + 1
    } else {
        lo
    };
    proof {
        assert(unsigned_digits(s) =~= v@.subrange(start as int, hi as int));
    }
    let ghost d = v@.subrange(start as int, hi as int);
    if start == hi {
        return None;
    }
    let mut acc: u64 = 0;
    let mut i = start;
    while i < hi
        invariant
            lo <= start <= i <= hi <= v.len(),
            d == v@.subrange(start as int, hi as int),
            s == v@.subrange(lo as int, hi as int),
            unsigned_digits(s) == d,
            all_digits(v@.subrange(start as int, i as int)),
            acc as nat == digits_value(v@.subrange(start as int, i as int)),
        decreases hi - i,
    {
        let c = v[i];
        if !digit(c) {
            proof {
                assert(d[i - start] == c);
                assert(!is_digit(d[i - start]));
                assert(!all_digits(d));
                assert(parse_unsigned(s, u64::MAX as nat) is None);
            }
            return None;
        }
        let dv: u64 = ((c as u32) - 48) as u64;
        proof {
            let t = v@.subrange(start as int, i + 1);
            assert(t.drop_last() =~= v@.subrange(start as int, i as int));
            assert(t.last() == c);
        }
        if acc > (u64::MAX - dv) / 10 {
            proof {
                // the value only grows from here
                let t = v@.subrange(start as int, i + 1);
                assert(dv == ((c as u32) - 48) as nat);
                assert(digits_value(t) == digits_value(t.drop_last()) * 10 + ((t.last() as u32) - 48) as nat);
                assert(digits_value(t) == acc * 10 + dv);
                assert(acc * 10 + dv > u64::MAX) by (nonlinear_arith)
                    requires
                        acc > (u64::MAX - dv) / 10,
                        dv <= 9,
                ;
                if all_digits(d) {
                    lemma_digits_value_prefix(d, i + 1 - start);
                    assert(d.take(i + 1 - start) =~= t);
                    assert(digits_value(d) > u64::MAX);
                }
                assert(parse_unsigned(s, u64::MAX as nat) is None);
            }
            return None;
        }
        assert(acc * 10 + dv <= u64::MAX) by (nonlinear_arith)
            requires
                acc <= (u64::MAX - dv) / 10,
                dv <= 9,
        ;
        acc = acc * 10 + dv;
        i += 1;
        proof {
            let t = v@.subrange(start as int, i as int);
            assert forall|j: int| 0 <= j < t.len() implies is_digit(#[trigger] t[j]) by {
                if j < t.len() - 1 {
                    assert(t[j] == v@.subrange(start as int, i - 1)[j]);
                }
            }
        }
    }
    proof {
        assert(d =~= v@.subrange(start as int, i as int));
    }
    Some(acc)
}

/// A longer run of digits is worth at least as much as its prefix.
pub proof fn lemma_digits_value_prefix(d: Seq<char>, k: int)
    requires
        0 <= k <= d.len(),
        all_digits(d),
    ensures
        digits_value(d.take(k)) <= digits_value(d),
    decreases d.len() - k,
{
    if k < d.len() {
        lemma_digits_value_prefix(d, k + 1);
        assert(d.take(k + 1).drop_last() =~= d.take(k));
        assert(is_digit(d[k]));
    } else {
        assert(d.take(k) =~= d);
    }
}

/// The decimal digits of `n` (`u64::to_string`).
pub open spec fn decimal(n: nat) -> Seq<char>
    decreases n,
{
    if n < 10 {
        seq![(48 + n) as char]
    } else {
        decimal(n / 10).push((48 + n % 10) as char)
    }
}

/// Appends the decimal digits of `n` to `s`.
pub fn push_decimal(s: &mut String, n: u64)
    ensures
        final(s)@ == old(s)@ + decimal(n as nat),
    decreases n,
{
    if n >= 10 {
        push_decimal(s, n / 10);
    }
    let d: u8 = (n % 10) as u8 + 48;
    let c = d as char;
    s.push(c);
    proof {
        assert(c == (48 + (n as nat) % 10) as char);
        if n >= 10 {
            assert(decimal(n as nat) == decimal((n / 10) as nat).push(c));
        } else {
            assert(decimal(n as nat) == seq![c]);
        }
    }
}

/// `n` in decimal, with a minus sign when below zero (signed integer
/// display).
pub open spec fn signed_decimal(n: int) -> Seq<char> {
    if n < 0 {
        "-"@ + decimal((-n) as nat)
    } else {
        decimal(n as nat)
    }
}

/// Appends `n` in decimal to `s`.
pub fn push_signed_decimal(s: &mut String, n: i64)
    ensures
        final(s)@ == old(s)@ + signed_decimal(n as int),
{
    if n < 0 {
        s.push('-');
        let m: u64 = if n == i64::MIN {
            9223372036854775808u64
        } else {
            (-n) as u64
        };
        push_decimal(s, m);
        proof {
            reveal_strlit("-");
            assert(final(s)@ =~= old(s)@ + signed_decimal(n as int));
        }
    } else {
        push_decimal(s, n as u64);
    }
}

/// `s` left-aligned in a field of `w` characters (`{:<w}`).
pub open spec fn pad_right(s: Seq<char>, w: nat) -> Seq<char> {
    if s.len() >= w {
        s
    } else {
        s + Seq::new((w - s.len()) as nat, |i: int| ' ')
    }
}

/// Appends `t` left-aligned in a field of `w` characters.
pub fn push_padded(s: &mut String, t: &str, w: usize)
    ensures
        final(s)@ == old(s)@ + pad_right(t@, w as nat),
{
    let n = t.unicode_len();
    push_str(s, t);
    if n < w {
        let mut k: usize = n;
        while k < w
            invariant
                n <= k <= w,
                n == t@.len(),
                s@ == old(s)@ + t@ + Seq::new((k - n) as nat, |i: int| ' '),
            decreases w - k,
        {
            s.push(' ');
            proof {
                assert(Seq::new((k - n) as nat, |i: int| ' ').push(' ') =~= Seq::new((k + 1 - n) as nat, |i: int| ' '));
            }
            k += 1;
        }
        assert(s@ =~= old(s)@ + pad_right(t@, w as nat));
    } else {
        assert(s@ =~= old(s)@ + pad_right(t@, w as nat));
    }
}

// ---------------------------------------------------------------------------
// Building strings
// ---------------------------------------------------------------------------

/// The characters of `s`, in order.
pub fn chars_of(s: &str) -> (v: Vec<char>)
    ensures
        v@ == s@,
{
    let mut v: Vec<char> = Vec::new();
    for c in it: s.chars()
        invariant
            v@ == it.seq().take(it.index() as int),
    {
        v.push(c);
    }
    v
}

/// Appends `v[lo..hi]` to `r`.
pub fn push_range(r: &mut String, v: &Vec<char>, lo: usize, hi: usize)
    requires
        lo <= hi <= v.len(),
    ensures
        final(r)@ == old(r)@ + v@.subrange(lo as int, hi as int),
{
    let ghost start = r@;
    let mut i = lo;
    while i < hi
        invariant
            lo <= i <= hi <= v.len(),
            r@ == start + v@.subrange(lo as int, i as int),
        decreases hi - i,
    {
        r.push(v[i]);
        i += 1;
        assert(v@.subrange(lo as int, i as int) =~= v@.subrange(lo as int, i - 1).push(v@[i - 1]));
    }
}

/// A string holding the characters `v[lo..hi]`.
pub fn string_of(v: &Vec<char>, lo: usize, hi: usize) -> (r: String)
    requires
        lo <= hi <= v.len(),
    ensures
        r@ == v@.subrange(lo as int, hi as int),
{
    let mut r = String::new();
    push_range(&mut r, v, lo, hi);
    assert(r@ =~= v@.subrange(lo as int, hi as int));
    r
}

/// Appends all of `t` to `r`.
pub fn push_str(r: &mut String, t: &str)
    ensures
        final(r)@ == old(r)@ + t@,
{
    let v = chars_of(t);
    push_range(r, &v, 0, v.len());
    assert(v@.subrange(0, v@.len() as int) =~= v@);
}

/// Whether two character sequences are equal.
pub fn same(a: &Vec<char>, alo: usize, ahi: usize, b: &[char]) -> (r: bool)
    requires
        alo <= ahi <= a.len(),
    ensures
        r == (a@.subrange(alo as int, ahi as int) == b@),
{
    if ahi - alo != b.len() {
        proof {
            assert(a@.subrange(alo as int, ahi as int).len() != b@.len());
        }
        return false;
    }
    let r = matches_at(a, alo, ahi, b);
    proof {
        assert(a@.subrange(alo as int, ahi as int).take(b@.len() as int) =~= a@.subrange(
            alo as int,
            ahi as int,
        ));
    }
    r
}

/// Whether `a[alo..ahi]` and `b[blo..bhi]` hold the same characters.
pub fn same_range(a: &Vec<char>, alo: usize, ahi: usize, b: &Vec<char>, blo: usize, bhi: usize) -> (r: bool)
    requires
        alo <= ahi <= a.len(),
        blo <= bhi <= b.len(),
    ensures
        r == (a@.subrange(alo as int, ahi as int) == b@.subrange(blo as int, bhi as int)),
{
    if ahi - alo != bhi - blo {
        proof {
            assert(a@.subrange(alo as int, ahi as int).len() != b@.subrange(blo as int, bhi as int).len());
        }
        return false;
    }
    let mut i: usize = 0;
    while i < ahi - alo
        invariant
            alo <= ahi <= a.len(),
            blo <= bhi <= b.len(),
            ahi - alo == bhi - blo,
            i <= ahi - alo,
            forall|j: int| 0 <= j < i ==> a@.subrange(alo as int, ahi as int)[j] == #[trigger] b@.subrange(blo as int, bhi as int)[j],
        decreases ahi - alo - i,
    {
        if a[alo + i] != b[blo + i] {
            proof {
                assert(a@.subrange(alo as int, ahi as int)[i as int] != b@.subrange(blo as int, bhi as int)[i as int]);
            }
            return false;
        }
        i += 1;
    }
    assert(a@.subrange(alo as int, ahi as int) =~= b@.subrange(blo as int, bhi as int));
    true
}

/// `String == String` for two strings.
pub fn str_eq(a: &str, b: &str) -> (r: bool)
    ensures
        r == (a@ == b@),
{
    let va = chars_of(a);
    let vb = chars_of(b);
    let r = same(&va, 0, va.len(), vb.as_slice());
    assert(va@.subrange(0, va@.len() as int) =~= va@);
    r
}

/// The views of a list of strings.
pub open spec fn strings_view(v: Seq<String>) -> Seq<Seq<char>> {
    v.map_values(|s: String| s@)
}

/// Whether one of the strings of `v` equals `s`.
pub fn contains_str(v: &Vec<String>, s: &str) -> (r: bool)
    ensures
        r == strings_view(v@).contains(s@),
{
    let mut i: usize = 0;
    while i < v.len()
        invariant
            i <= v.len(),
            forall|j: int| 0 <= j < i ==> v@[j]@ != s@,
        decreases v.len() - i,
    {
        if str_eq(v[i].as_str(), s) {
            proof {
                assert(strings_view(v@)[i as int] == s@);
            }
            return true;
        }
        i += 1;
    }
    proof {
        if strings_view(v@).contains(s@) {
            let j = choose|j: int| 0 <= j < strings_view(v@).len() && strings_view(v@)[j] == s@;
            assert(v@[j]@ == s@);
        }
    }
    false
}

/// Each piece trimmed (`.map(|s| s.trim())`).
pub open spec fn trim_all(ps: Seq<Seq<char>>) -> Seq<Seq<char>> {
    ps.map_values(|p: Seq<char>| trim(p))
}

/// `v[lo..hi].split(c).map(|s| s.trim().to_string()).collect()`.
pub fn split_trimmed(v: &Vec<char>, lo: usize, hi: usize, c: char) -> (r: Vec<String>)
    requires
        lo <= hi <= v.len(),
    ensures
        strings_view(r@) == trim_all(split(v@.subrange(lo as int, hi as int), c)),
{
    let ghost total = trim_all(split(v@.subrange(lo as int, hi as int), c));
    let mut r: Vec<String> = Vec::new();
    let mut pos = lo;
    let mut fin = false;
    proof {
        assert(strings_view(r@) =~= Seq::<Seq<char>>::empty());
        assert(total =~= strings_view(r@) + trim_all(split(v@.subrange(pos as int, hi as int), c)));
    }
    while !fin
        invariant
            lo <= pos <= hi <= v.len(),
            !fin ==> total == strings_view(r@) + trim_all(split(v@.subrange(pos as int, hi as int), c)),
            fin ==> total == strings_view(r@),
        decreases hi - pos + (if fin { 0int } else { 1int }),
    {
        let (e, more) = next_piece(v, pos, hi, c);
        let (a, b) = trim_range(v, pos, e);
        let piece = string_of(v, a, b);
        let ghost old_r = strings_view(r@);
        let ghost rest = split(v@.subrange(pos as int, hi as int), c);
        r.push(piece);
        proof {
            assert(strings_view(r@) =~= old_r.push(trim(v@.subrange(pos as int, e as int))));
        }
        if more {
            proof {
                let nxt = split(v@.subrange(e + 1, hi as int), c);
                assert(rest == seq![v@.subrange(pos as int, e as int)] + nxt);
                assert(trim_all(rest) =~= seq![trim(v@.subrange(pos as int, e as int))] + trim_all(nxt));
                assert(total =~= strings_view(r@) + trim_all(nxt));
            }
            pos = e + 1;
        } else {
            proof {
                assert(trim_all(rest) =~= seq![trim(v@.subrange(pos as int, e as int))]);
                assert(total =~= strings_view(r@));
            }
            fin = true;
            pos = hi;
        }
    }
    r
}

/// `str::eq_ignore_ascii_case`.
pub fn eq_ignore_ascii_case(a: &str, b: &str) -> (r: bool)
    ensures
        r == eq_ignore_case(a@, b@),
{
    let va = chars_of(a);
    let vb = chars_of(b);
    if va.len() != vb.len() {
        return false;
    }
    let mut i: usize = 0;
    while i < va.len()
        invariant
            va@ == a@,
            vb@ == b@,
            va.len() == vb.len(),
            i <= va.len(),
            forall|j: int| 0 <= j < i ==> lower_ascii(#[trigger] a@[j]) == lower_ascii(b@[j]),
        decreases va.len() - i,
    {
        if to_lower_ascii(va[i]) != to_lower_ascii(vb[i]) {
            return false;
        }
        i += 1;
    }
    true
}

/// Whether `v[lo..hi]` starts with the text `lit`.
pub fn starts_with_str(v: &Vec<char>, lo: usize, hi: usize, lit: &str) -> (r: bool)
    requires
        lo <= hi <= v.len(),
    ensures
        r == starts_with(v@.subrange(lo as int, hi as int), lit@),
{
    let p = chars_of(lit);
    matches_at(v, lo, hi, p.as_slice())
}

/// Whether `v[lo..hi]` ends with the text `lit`.
pub fn ends_with_str(v: &Vec<char>, lo: usize, hi: usize, lit: &str) -> (r: bool)
    requires
        lo <= hi <= v.len(),
    ensures
        r == ends_with(v@.subrange(lo as int, hi as int), lit@),
{
    let p = chars_of(lit);
    if p.len() > hi - lo {
        return false;
    }
    let r = matches_at(v, hi - p.len(), hi, p.as_slice());
    proof {
        let s = v@.subrange(lo as int, hi as int);
        assert(s.skip(s.len() - p@.len()) =~= v@.subrange(hi - p@.len(), hi as int));
        assert(v@.subrange(hi - p@.len(), hi as int).take(p@.len() as int) =~= v@.subrange(hi - p@.len(), hi as int));
    }
    r
}

/// The text between `pre` and `suf` when `s` is `pre`, text, `suf`
/// (`strip_prefix(pre).and_then(|t| t.strip_suffix(suf))`), else empty.
pub open spec fn between(s: Seq<char>, pre: Seq<char>, suf: Seq<char>) -> Seq<char> {
    if starts_with(s, pre) && ends_with(s.skip(pre.len() as int), suf) {
        s.subrange(pre.len() as int, s.len() - suf.len())
    } else {
        Seq::empty()
    }
}

/// The range of `between(v[lo..hi], pre, suf)`.
pub fn between_range(v: &Vec<char>, lo: usize, hi: usize, pre: &str, suf: &str) -> (r: (usize, usize))
    requires
        lo <= hi <= v.len(),
    ensures
        lo <= r.0 <= r.1 <= hi,
        v@.subrange(r.0 as int, r.1 as int) == between(v@.subrange(lo as int, hi as int), pre@, suf@),
{
    let ghost s = v@.subrange(lo as int, hi as int);
    if starts_with_str(v, lo, hi, pre) {
        let a = lo + chars_of(pre).len();
        proof {
            assert(s.skip(pre@.len() as int) =~= v@.subrange(a as int, hi as int));
        }
        if ends_with_str(v, a, hi, suf) {
            let b = hi - chars_of(suf).len();
            proof {
                assert(s.subrange(pre@.len() as int, s.len() - suf@.len()) =~= v@.subrange(a as int, b as int));
            }
            return (a, b);
        }
    }
    assert(v@.subrange(lo as int, lo as int) =~= Seq::<char>::empty());
    (lo, lo)
}

/// What a line-by-line reader does with one line: go on in a new state, or
/// stop with a result.
pub enum Step<S, R> {
    Go(S),
    Stop(R),
}

/// An owned copy of `s`.
pub fn owned(s: &str) -> (r: String)
    ensures
        r@ == s@,
{
    let mut r = String::new();
    push_str(&mut r, s);
    assert(r@ =~= s@);
    r
}

/// Whether the text `s` starts with `p` (`str::starts_with`).
pub fn text_starts_with(s: &str, p: &str) -> (r: bool)
    ensures
        r == starts_with(s@, p@),
{
    let v = chars_of(s);
    proof {
        assert(v@.subrange(0, v@.len() as int) =~= s@);
    }
    starts_with_str(&v, 0, v.len(), p)
}

/// Whether the text `p` occurs in `s` (`str::contains`).
pub fn contains_str_in(s: &str, p: &str) -> (r: bool)
    ensures
        r == contains(s@, p@),
{
    let v = chars_of(s);
    let w = chars_of(p);
    proof {
        assert(v@.subrange(0, v@.len() as int) =~= s@);
        reveal(find);
    }
    match find_str(&v, 0, v.len(), w.as_slice()) {
        Some(_) => true,
        None => false,
    }
}

/// A one-character text occurs exactly where that character does.
pub proof fn lemma_contains_char(s: Seq<char>, c: char)
    ensures
        contains(s, seq![c]) == s.contains(c),
{
    if s.contains(c) {
        let i = choose|i: int| 0 <= i < s.len() && s[i] == c;
        assert(s.subrange(i, i + 1) =~= seq![c]);
        assert(occurs_at(s, seq![c], i));
    }
    if contains(s, seq![c]) {
        let i = choose|i: int| occurs_at(s, seq![c], i);
        assert(s.subrange(i, i + 1)[0] == s[i]);
    }
}

// ---------------------------------------------------------------------------
// Text order
// ---------------------------------------------------------------------------

/// The order of `String`: lexicographic by character.
pub open spec fn text_less(a: Seq<char>, b: Seq<char>) -> bool
    decreases a.len(),
{
    if a.len() == 0 {
        b.len() > 0
    } else if b.len() == 0 {
        false
    } else if a[0] != b[0] {
        a[0] < b[0]
    } else {
        text_less(a.drop_first(), b.drop_first())
    }
}

pub proof fn lemma_text_less_total(a: Seq<char>, b: Seq<char>)
    ensures
        text_less(a, b) || a == b || text_less(b, a),
        !(text_less(a, b) && text_less(b, a)),
        !text_less(a, a),
    decreases a.len(),
{
    if a.len() > 0 && b.len() > 0 && a[0] == b[0] {
        lemma_text_less_total(a.drop_first(), b.drop_first());
        if a.drop_first() == b.drop_first() {
            assert forall|i: int| 0 <= i < a.len() implies a[i] == b[i] by {
                if i > 0 {
                    assert(a[i] == a.drop_first()[i - 1]);
                    assert(b[i] == b.drop_first()[i - 1]);
                }
            }
            assert(a =~= b);
        }
    }
    if a.len() == 0 && b.len() == 0 {
        assert(a =~= b);
    }
    if a.len() > 0 {
        lemma_text_less_total(a.drop_first(), a.drop_first());
    }
}

pub proof fn lemma_text_less_trans(a: Seq<char>, b: Seq<char>, c: Seq<char>)
    requires
        text_less(a, b),
        text_less(b, c),
    ensures
        text_less(a, c),
    decreases a.len(),
{
    if a.len() > 0 && b.len() > 0 && c.len() > 0 && a[0] == b[0] && b[0] == c[0] {
        lemma_text_less_trans(a.drop_first(), b.drop_first(), c.drop_first());
    }
}

/// Whether `a < b` as `String`s.
pub fn less(a: &str, b: &str) -> (r: bool)
    ensures
        r == text_less(a@, b@),
{
    let va = chars_of(a);
    let vb = chars_of(b);
    let mut i: usize = 0;
    assert(a@.skip(0) =~= a@);
    assert(b@.skip(0) =~= b@);
    while i < va.len() && i < vb.len() && va[i] == vb[i]
        invariant
            va@ == a@,
            vb@ == b@,
            i <= va.len(),
            i <= vb.len(),
            text_less(a@, b@) == text_less(a@.skip(i as int), b@.skip(i as int)),
        decreases va.len() - i,
    {
        assert(a@.skip(i as int).drop_first() =~= a@.skip(i + 1));
        assert(b@.skip(i as int).drop_first() =~= b@.skip(i + 1));
        i += 1;
    }
    if i == va.len() {
        i < vb.len()
    } else if i == vb.len() {
        false
    } else {
        assert(a@.skip(i as int)[0] == va@[i as int]);
        assert(b@.skip(i as int)[0] == vb@[i as int]);
        va[i] < vb[i]
    }
}

/// `r` picks, from `names`, the first occurrence of each name, in the order
/// of the names: what a stable sort by name followed by a removal of
/// repeated names keeps.
pub open spec fn sorted_firsts_of(names: Seq<Seq<char>>, r: Seq<int>) -> bool {
    &&& forall|k: int| 0 <= k < r.len() ==> 0 <= #[trigger] r[k] < names.len()
    &&& forall|a: int, b: int| 0 <= a < b < r.len() ==> text_less(names[#[trigger] r[a]], names[#[trigger] r[b]])
    &&& forall|k: int, j: int| #![trigger names[j], r[k]] 0 <= k < r.len() && 0 <= j < r[k] ==> names[j] != names[r[k]]
    &&& forall|j: int| 0 <= j < names.len() ==> #[trigger] covered(names, r, j)
}

pub open spec fn indices_view(v: Seq<usize>) -> Seq<int> {
    v.map_values(|i: usize| i as int)
}

pub open spec fn fi_bounds(r: Seq<int>, i: int) -> bool {
    forall|k: int| 0 <= k < r.len() ==> 0 <= #[trigger] r[k] < i
}

pub open spec fn fi_sorted(n: Seq<Seq<char>>, r: Seq<int>) -> bool {
    forall|a: int, b: int| 0 <= a < b < r.len() ==> text_less(n[#[trigger] r[a]], n[#[trigger] r[b]])
}

pub open spec fn fi_first(n: Seq<Seq<char>>, r: Seq<int>) -> bool {
    forall|k: int, j: int| #![trigger n[j], r[k]] 0 <= k < r.len() && 0 <= j < r[k] ==> n[j] != n[r[k]]
}

/// Some kept index names the same as `j`.
pub open spec fn covered(n: Seq<Seq<char>>, r: Seq<int>, j: int) -> bool {
    exists|k: int| 0 <= k < r.len() && n[#[trigger] r[k]] == n[j]
}

pub open spec fn fi_cover(n: Seq<Seq<char>>, r: Seq<int>, i: int) -> bool {
    forall|j: int| 0 <= j < i ==> #[trigger] covered(n, r, j)
}

/// What `sorted_firsts` has built after looking at the first `i` names.
#[verifier::opaque]
pub open spec fn firsts_inv(n: Seq<Seq<char>>, r: Seq<int>, i: int) -> bool {
    fi_bounds(r, i) && fi_sorted(n, r) && fi_first(n, r) && fi_cover(n, r, i)
}

proof fn lemma_firsts_found(n: Seq<Seq<char>>, r: Seq<int>, k: int, i: int)
    requires
        0 <= i < n.len(),
        firsts_inv(n, r, i),
        0 <= k < r.len(),
        n[r[k]] == n[i],
    ensures
        firsts_inv(n, r, i + 1),
{
    reveal(firsts_inv);
    assert forall|j: int| 0 <= j < i + 1 implies #[trigger] covered(n, r, j) by {
        if j == i {
            assert(n[r[k]] == n[j]);
        }
    }
    assert forall|q: int| 0 <= q < r.len() implies 0 <= #[trigger] r[q] < i + 1 by {}
}

/// Where the new name goes, no kept name equals it.
proof fn lemma_firsts_absent(n: Seq<Seq<char>>, r: Seq<int>, k: int, i: int)
    requires
        0 <= i < n.len(),
        fi_bounds(r, i),
        fi_sorted(n, r),
        0 <= k <= r.len(),
        forall|q: int| 0 <= q < k ==> text_less(n[#[trigger] r[q]], n[i]),
        k < r.len() ==> text_less(n[i], n[r[k]]),
    ensures
        forall|q: int| 0 <= q < r.len() ==> n[#[trigger] r[q]] != n[i],
{
    assert forall|q: int| 0 <= q < r.len() implies n[#[trigger] r[q]] != n[i] by {
        if q < k {
            lemma_text_less_total(n[r[q]], n[i]);
        } else if q == k {
            lemma_text_less_total(n[i], n[r[k]]);
        } else {
            assert(text_less(n[r[k]], n[r[q]]));
            lemma_text_less_trans(n[i], n[r[k]], n[r[q]]);
            lemma_text_less_total(n[i], n[r[q]]);
        }
    }
}

#[verifier::spinoff_prover]
proof fn lemma_insert_sorted(n: Seq<Seq<char>>, r: Seq<int>, k: int, i: int)
    requires
        0 <= i < n.len(),
        fi_bounds(r, i),
        fi_sorted(n, r),
        0 <= k <= r.len(),
        forall|q: int| 0 <= q < k ==> text_less(n[#[trigger] r[q]], n[i]),
        k < r.len() ==> text_less(n[i], n[r[k]]),
    ensures
        fi_sorted(n, r.insert(k, i)),
        fi_bounds(r.insert(k, i), i + 1),
{
    let nr = r.insert(k, i);
    assert forall|a: int, b: int| 0 <= a < b < nr.len() implies text_less(n[#[trigger] nr[a]], n[#[trigger] nr[b]]) by {
        if b == k {
            assert(nr[a] == r[a]);
        } else if a == k {
            assert(nr[b] == r[b - 1]);
            if b - 1 > k {
                lemma_text_less_trans(n[i], n[r[k]], n[r[b - 1]]);
            }
        } else {
            let oa = if a < k { a } else { a - 1 };
            let ob = if b < k { b } else { b - 1 };
            assert(nr[a] == r[oa]);
            assert(nr[b] == r[ob]);
        }
    }
    assert forall|q: int| 0 <= q < nr.len() implies 0 <= #[trigger] nr[q] < i + 1 by {
        if q != k {
            let oq = if q < k { q } else { q - 1 };
            assert(nr[q] == r[oq]);
        }
    }
}

#[verifier::spinoff_prover]
proof fn lemma_insert_first_cover(n: Seq<Seq<char>>, r: Seq<int>, k: int, i: int)
    requires
        0 <= i < n.len(),
        fi_first(n, r),
        fi_cover(n, r, i),
        0 <= k <= r.len(),
        forall|q: int| 0 <= q < r.len() ==> n[#[trigger] r[q]] != n[i],
    ensures
        fi_first(n, r.insert(k, i)),
        fi_cover(n, r.insert(k, i), i + 1),
{
    let nr = r.insert(k, i);
    assert forall|q: int, j: int| #![trigger n[j], nr[q]] 0 <= q < nr.len() && 0 <= j < nr[q] implies n[j] != n[nr[q]] by {
        if q == k {
            if n[j] == n[i] {
                assert(covered(n, r, j));
                let w = choose|w: int| 0 <= w < r.len() && n[#[trigger] r[w]] == n[j];
                assert(n[r[w]] != n[i]);
            }
        } else {
            let oq = if q < k { q } else { q - 1 };
            assert(nr[q] == r[oq]);
        }
    }
    assert forall|j: int| 0 <= j < i + 1 implies #[trigger] covered(n, nr, j) by {
        if j == i {
            assert(nr[k] == i);
            assert(0 <= k < nr.len() && n[nr[k]] == n[j]);
        } else {
            assert(covered(n, r, j));
            let w = choose|w: int| 0 <= w < r.len() && n[#[trigger] r[w]] == n[j];
            let nw = if w < k { w } else { w + 1 };
            assert(0 <= nw < nr.len());
            assert(nr[nw] == r[w]);
            assert(n[nr[nw]] == n[j]);
        }
    }
}

proof fn lemma_firsts_done(n: Seq<Seq<char>>, r: Seq<int>)
    requires
        firsts_inv(n, r, n.len() as int),
    ensures
        sorted_firsts_of(n, r),
{
    reveal(firsts_inv);
}

proof fn lemma_firsts_insert(n: Seq<Seq<char>>, r: Seq<int>, k: int, i: int)
    requires
        0 <= i < n.len(),
        firsts_inv(n, r, i),
        0 <= k <= r.len(),
        forall|q: int| 0 <= q < k ==> text_less(n[#[trigger] r[q]], n[i]),
        k < r.len() ==> text_less(n[i], n[r[k]]),
    ensures
        firsts_inv(n, r.insert(k, i), i + 1),
{
    reveal(firsts_inv);
    lemma_firsts_absent(n, r, k, i);
    lemma_insert_sorted(n, r, k, i);
    lemma_insert_first_cover(n, r, k, i);
}

proof fn lemma_firsts_bounds(n: Seq<Seq<char>>, r: Seq<int>, i: int)
    requires
        firsts_inv(n, r, i),
    ensures
        fi_bounds(r, i),
{
    reveal(firsts_inv);
}

/// The first occurrence of each name, in the order of the names.
pub fn sorted_firsts(names: &Vec<String>) -> (r: Vec<usize>)
    ensures
        sorted_firsts_of(strings_view(names@), indices_view(r@)),
{
    let ghost n = strings_view(names@);
    let mut r: Vec<usize> = Vec::new();
    let mut i: usize = 0;
    proof {
        assert(indices_view(r@) =~= Seq::<int>::empty());
        reveal(firsts_inv);
    }
    while i < names.len()
        invariant
            i <= names@.len(),
            n == strings_view(names@),
            firsts_inv(n, indices_view(r@), i as int),
        decreases names.len() - i,
    {
        let ni = names[i].as_str();
        let ghost rv = indices_view(r@);
        proof {
            lemma_firsts_bounds(n, rv, i as int);
        }
        assert(n[i as int] == ni@);
        let mut k: usize = 0;
        assert forall|q: int| 0 <= q < r@.len() implies (#[trigger] r@[q]) < i by {
            assert(rv[q] == r@[q] as int);
        }
        while k < r.len() && less(names[r[k]].as_str(), ni)
            invariant
                k <= r@.len(),
                i < names@.len(),
                forall|q: int| 0 <= q < r@.len() ==> (#[trigger] r@[q]) < i,
                n == strings_view(names@),
                n[i as int] == ni@,
                rv == indices_view(r@),
                fi_bounds(rv, i as int),
                forall|q: int| 0 <= q < k ==> text_less(n[#[trigger] rv[q]], ni@),
            decreases r.len() - k,
        {
            assert(rv[k as int] == r@[k as int]);
            assert(n[rv[k as int]] == names@[r@[k as int] as int]@);
            k += 1;
        }
        if k < r.len() {
            assert(rv[k as int] == r@[k as int]);
            assert(n[rv[k as int]] == names@[r@[k as int] as int]@);
        }
        if k < r.len() && str_eq(names[r[k]].as_str(), ni) {
            proof {
                lemma_firsts_found(n, rv, k as int, i as int);
            }
        } else {
            proof {
                if k < rv.len() {
                    lemma_text_less_total(n[rv[k as int]], ni@);
                }
                lemma_firsts_insert(n, rv, k as int, i as int);
            }
            r.insert(k, i);
            proof {
                assert(indices_view(r@) =~= rv.insert(k as int, i as int));
            }
        }
        i += 1;
    }
    proof {
        lemma_firsts_done(n, indices_view(r@));
    }
    r
}

// ---------------------------------------------------------------------------
// Bytes as text
// ---------------------------------------------------------------------------

/// What `String::from_utf8_lossy` makes of some bytes.
pub uninterp spec fn lossy(b: Seq<u8>) -> Seq<char>;

/// `String::from_utf8_lossy(b).to_string()`: the bytes decoded as UTF-8,
/// each invalid sequence replaced by U+FFFD.  It is a function of the bytes
/// alone; the decoding itself is not restated here.
#[verifier::external_body]
pub fn utf8_lossy(b: &[u8]) -> (r: String)
    ensures
        r@ == lossy(b@),
{
    String::from_utf8_lossy(b).to_string()
}

} // verus!
