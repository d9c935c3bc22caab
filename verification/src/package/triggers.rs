//! Triggers: scripts that a package asks to run when other packages whose
//! names match a pattern are installed or removed.
use vstd::prelude::*;
use crate::text::{chars_of, str_eq, strings_view};

verus! {

/// Whether `p[pi..]` matches `s[si..]`, with `?` for any one character and
/// `*` for any run of characters.
pub open spec fn glob_from(p: Seq<char>, s: Seq<char>, pi: int, si: int) -> bool
    decreases p.len() - pi + s.len() - si, p.len() - pi,
{
    if pi < 0 || si < 0 || pi > p.len() || si > s.len() {
        false
    } else if pi == p.len() {
        si == s.len()
    } else if si == s.len() {
        forall|k: int| pi <= k < p.len() ==> p[k] == '*'
    } else if p[pi] == '?' {
        glob_from(p, s, pi + 1, si + 1)
    } else if p[pi] == '*' {
        glob_from(p, s, pi + 1, si) || glob_from(p, s, pi, si + 1)
    } else if p[pi] == s[si] {
        glob_from(p, s, pi + 1, si + 1)
    } else {
        false
    }
}

/// Whether `name` matches the glob `pattern`; `*` alone matches anything.
pub open spec fn glob(pattern: Seq<char>, name: Seq<char>) -> bool {
    pattern == "*"@ || glob_from(pattern, name, 0, 0)
}

fn all_stars(p: &Vec<char>, pi: usize) -> (r: bool)
    requires
        pi <= p@.len(),
    ensures
        r == forall|k: int| pi <= k < p@.len() ==> p@[k] == '*',
{
    let mut k = pi;
    while k < p.len()
        invariant
            pi <= k <= p@.len(),
            forall|j: int| pi <= j < k ==> p@[j] == '*',
        decreases p.len() - k,
    {
        if p[k] != '*' {
            return false;
        }
        k += 1;
    }
    true
}

fn glob_inner(p: &Vec<char>, s: &Vec<char>, pi: usize, si: usize) -> (r: bool)
    requires
        pi <= p@.len(),
        si <= s@.len(),
    ensures
        r == glob_from(p@, s@, pi as int, si as int),
    decreases p@.len() - pi + s@.len() - si, p@.len() - pi,
{
    if pi == p.len() {
        return si == s.len();
    }
    if si == s.len() {
        return all_stars(p, pi);
    }
    if p[pi] == '?' {
        glob_inner(p, s, pi + 1, si + 1)
    } else if p[pi] == '*' {
        glob_inner(p, s, pi + 1, si) || glob_inner(p, s, pi, si + 1)
    } else if p[pi] == s[si] {
        glob_inner(p, s, pi + 1, si + 1)
    } else {
        false
    }
}

/// Simple glob matching of package names.
pub fn glob_match(pattern: &str, name: &str) -> (r: bool)
    ensures
        r == glob(pattern@, name@),
{
    if str_eq(pattern, "*") {
        return true;
    }
    let p = chars_of(pattern);
    let s = chars_of(name);
    glob_inner(&p, &s, 0, 0)
}

/// Which package, if any, a trigger with event `on` and pattern `pattern`
/// runs for.
pub fn trigger_for(on: &str, pattern: &str, event: &str, names: &Vec<String>) -> (r: Option<usize>)
    ensures
        match r {
            Some(i) => on@ == event@ && i < names@.len() && glob(pattern@, names@[i as int]@) && forall|j: int|
                0 <= j < i ==> !glob(pattern@, #[trigger] names@[j]@),
            None => on@ != event@ || forall|i: int| 0 <= i < names@.len() ==> !glob(pattern@, #[trigger] names@[i]@),
        },
{
    if !str_eq(on, event) {
        return None;
    }
    let mut i: usize = 0;
    while i < names.len()
        invariant
            on@ == event@,
            i <= names@.len(),
            forall|j: int| 0 <= j < i ==> !glob(pattern@, #[trigger] names@[j]@),
        decreases names.len() - i,
    {
        if glob_match(pattern, names[i].as_str()) {
            return Some(i);
        }
        i += 1;
    }
    None
}

/// A star matches every name.
pub proof fn law_star_matches_all(name: Seq<char>)
    ensures
        glob("*"@, name),
{
}

/// A pattern without wildcards matches exactly the name it spells.
pub proof fn law_plain_pattern_is_equality(p: Seq<char>, name: Seq<char>)
    requires
        forall|k: int| 0 <= k < p.len() ==> p[k] != '*' && p[k] != '?',
        p != "*"@,
    ensures
        glob(p, name) <==> p == name,
{
    lemma_plain(p, name, 0, 0);
    if p == name {
        assert(p.skip(0) =~= p);
        assert(name.skip(0) =~= name);
    } else if glob_from(p, name, 0, 0) {
        assert(p.skip(0) =~= p);
        assert(name.skip(0) =~= name);
    }
}

proof fn lemma_plain(p: Seq<char>, s: Seq<char>, pi: int, si: int)
    requires
        forall|k: int| 0 <= k < p.len() ==> p[k] != '*' && p[k] != '?',
        0 <= pi <= p.len(),
        0 <= si <= s.len(),
    ensures
        glob_from(p, s, pi, si) <==> p.skip(pi) == s.skip(si),
    decreases p.len() - pi + s.len() - si,
{
    if pi == p.len() {
        if si < s.len() {
            assert(s.skip(si).len() > 0);
        }
        assert(p.skip(pi) =~= Seq::<char>::empty());
        if si == s.len() {
            assert(s.skip(si) =~= Seq::<char>::empty());
        }
    } else if si == s.len() {
        assert(p[pi] != '*');
        assert(p.skip(pi).len() > 0);
        assert(s.skip(si) =~= Seq::<char>::empty());
    } else {
        lemma_plain(p, s, pi + 1, si + 1);
        if p[pi] == s[si] {
            if p.skip(pi + 1) == s.skip(si + 1) {
                assert(p.skip(pi) =~= seq![p[pi]] + p.skip(pi + 1));
                assert(s.skip(si) =~= seq![s[si]] + s.skip(si + 1));
            }
            if p.skip(pi) == s.skip(si) {
                assert(p.skip(pi + 1) =~= p.skip(pi).drop_first());
                assert(s.skip(si + 1) =~= s.skip(si).drop_first());
            }
        } else {
            assert(p.skip(pi)[0] != s.skip(si)[0]);
        }
    }
}

} // verus!
