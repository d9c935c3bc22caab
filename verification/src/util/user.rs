//! User names from the password database.
use vstd::prelude::*;
use crate::text::{chars_of, lines, next_line, next_piece, parse_u64, parse_unsigned, split, string_of};

verus! {

/// A line of `/etc/passwd` (`name:password:uid:…`) that gives user id
/// `uid`.
pub open spec fn passwd_match(line: Seq<char>, uid: u32) -> bool {
    let p = split(line, ':');
    p.len() >= 3 && parse_unsigned(p[2], u32::MAX as nat) == Some(uid as nat)
}

/// The name on the first line that gives `uid`.
pub open spec fn passwd_user(ls: Seq<Seq<char>>, uid: u32) -> Option<Seq<char>>
    decreases ls.len(),
{
    if ls.len() == 0 {
        None
    } else if passwd_match(ls[0], uid) {
        Some(split(ls[0], ':')[0])
    } else {
        passwd_user(ls.drop_first(), uid)
    }
}

/// The name of user `uid` in the text of `/etc/passwd`.
pub fn user_name_from_passwd(passwd: &str, uid: u32) -> (r: Option<String>)
    ensures
        match passwd_user(lines(passwd@), uid) {
            Some(n) => r matches Some(s) && s@ == n,
            None => r is None,
        },
{
    let v = chars_of(passwd);
    let n = v.len();
    let ghost all = lines(passwd@);
    let ghost k: int = 0;
    let mut pos: usize = 0;
    proof {
        assert(v@.skip(0) =~= passwd@);
        assert(all.skip(0) =~= all);
    }
    while pos < n
        invariant
            n == v@.len(),
            v@ == passwd@,
            pos <= n,
            all == lines(passwd@),
            0 <= k <= all.len(),
            lines(v@.skip(pos as int)) == all.skip(k),
            passwd_user(all, uid) == passwd_user(all.skip(k), uid),
        decreases n - pos,
    {
        let (e, next) = next_line(&v, pos);
        let ghost l = v@.subrange(pos as int, e as int);
        proof {
            let ls = lines(v@.skip(pos as int));
            assert(ls[0] == l);
            assert(ls.len() >= 1);
            assert(all.skip(k)[0] == all[k]);
            assert(ls.drop_first() =~= lines(v@.skip(next as int)));
            assert(all.skip(k + 1) =~= all.skip(k).drop_first());
        }
        let (e0, m0) = next_piece(&v, pos, e, ':');
        if m0 {
            let (e1, m1) = next_piece(&v, e0 + 1, e, ':');
            if m1 {
                let (e2, _m2) = next_piece(&v, e1 + 1, e, ':');
                let ghost p = split(l, ':');
                proof {
                    assert(p[0] == v@.subrange(pos as int, e0 as int));
                    assert(p[2] == split(v@.subrange(e1 + 1, e as int), ':')[0]);
                    assert(p[2] == v@.subrange(e1 + 1, e2 as int));
                }
                let num = parse_u64(&v, e1 + 1, e2);
                match num {
                    Some(x) => {
                        if x == uid as u64 {
                            proof {
                                assert(passwd_match(l, uid));
                            }
                            return Some(string_of(&v, pos, e0));
                        }
                    },
                    None => {},
                }
                proof {
                    assert(!passwd_match(l, uid));
                }
            } else {
                proof {
                    assert(split(l, ':').len() == 2);
                }
            }
        } else {
            proof {
                assert(split(l, ':').len() == 1);
            }
        }
        proof {
            k = k + 1;
        }
        pos = next;
    }
    proof {
        assert(v@.skip(n as int) =~= Seq::<char>::empty());
        assert(all.skip(k).len() == 0);
    }
    None
}

} // verus!
