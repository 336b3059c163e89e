//! Paths held as text, joined the way `Path::join` joins them on Unix.

use vstd::prelude::*;
use crate::text::{chars_of, concat, matches_at, string_of};

verus! {

/// `Path::join` on Unix: an absolute component replaces the base; otherwise the component
/// follows the base, with a `'/'` between them unless the base is empty or already ends
/// in one.
pub open spec fn joined(base: Seq<char>, comp: Seq<char>) -> Seq<char> {
    if comp.len() > 0 && comp[0] == '/' {
        comp
    } else if base.len() == 0 || base.last() == '/' {
        base + comp
    } else {
        base + seq!['/'] + comp
    }
}

/// `base` joined with `comp`.
pub fn join(base: &str, comp: &str) -> (r: String)
    ensures
        r@ == joined(base@, comp@),
{
    let b = chars_of(base);
    let c = chars_of(comp);
    if c.len() > 0 && c[0] == '/' {
        return comp.to_owned();
    }
    if b.len() == 0 || b[b.len() - 1] == '/' {
        concat(base, comp)
    } else {
        let mut r = base.to_owned();
        r.push('/');
        r.push_str(comp);
        r
    }
}

/// A path with a leading `~` (the whole path, or followed by `'/'`) read as the home
/// directory, as a shell reads it; unchanged where it has none or there is no home.
pub open spec fn expand_home(p: Seq<char>, home: Option<Seq<char>>) -> Seq<char> {
    match home {
        Some(h) => if p == seq!['~'] || matches_at(p, seq!['~', '/'], 0) {
            h + p.skip(1)
        } else {
            p
        },
        None => p,
    }
}

/// `p` with a leading `~` replaced by the home directory (see `expand_home`).
pub fn expand_home_exec(p: &str, home: &Option<String>) -> (r: String)
    ensures
        r@ == expand_home(p@, match home {
            Some(h) => Some(h@),
            None => None,
        }),
{
    match home {
        None => p.to_owned(),
        Some(h) => {
            let cs = chars_of(p);
            let tilde = cs.len() >= 1 && cs[0] == '~';
            let whole = tilde && cs.len() == 1;
            let dir = tilde && cs.len() >= 2 && cs[1] == '/';
            assert(dir == matches_at(p@, seq!['~', '/'], 0)) by {
                if cs.len() >= 2 {
                    assert(p@.subrange(0, 2) =~= seq![p@[0], p@[1]]);
                }
            }
            assert(whole == (p@ == seq!['~'])) by {
                if p@ == seq!['~'] {
                    assert(p@.len() == 1);
                }
                if whole {
                    assert(p@ =~= seq!['~']);
                }
            }
            if whole || dir {
                let mut r = h.clone();
                let mut k: usize = 1;
                while k < cs.len()
                    invariant
                        1 <= k <= cs.len(),
                        cs@ == p@,
                        r@ == h@ + p@.subrange(1, k as int),
                    decreases cs.len() - k,
                {
                    r.push(cs[k]);
                    k = k + 1;
                    assert(p@.subrange(1, k as int) =~= p@.subrange(1, k - 1).push(p@[k - 1]));
                }
                assert(p@.subrange(1, cs.len() as int) =~= p@.skip(1));
                r
            } else {
                p.to_owned()
            }
        },
    }
}

} // verus!
