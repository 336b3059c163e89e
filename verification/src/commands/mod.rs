//! The decisions behind each `kit` command.

pub mod add;
pub mod install;
pub mod list;
pub mod regen;
pub mod scan;
pub mod setup;
pub mod update;

use vstd::prelude::*;
use crate::config::Config;
use crate::system;

verus! {

/// The ascending indices below `n` that `keep` holds for.
pub open spec fn select(n: nat, keep: spec_fn(int) -> bool) -> Seq<usize>
    decreases n,
{
    if n == 0 {
        Seq::empty()
    } else {
        let r = select((n - 1) as nat, keep);
        if keep(n - 1) {
            r.push((n - 1) as usize)
        } else {
            r
        }
    }
}

/// An index is selected exactly when it is below `n` and `keep` holds for it.
pub proof fn lemma_select(n: nat, keep: spec_fn(int) -> bool)
    requires
        n <= usize::MAX,
    ensures
        forall|i: int| 0 <= i < n ==> (select(n, keep).contains(i as usize) <==> #[trigger] keep(i)),
        forall|k: int| 0 <= k < select(n, keep).len() ==> #[trigger] select(n, keep)[k] < n,
    decreases n,
{
    if n > 0 {
        let m = (n - 1) as nat;
        lemma_select(m, keep);
        let r = select(m, keep);
        let s = select(n, keep);
        if keep(m as int) {
            assert(s == r.push(m as usize));
        } else {
            assert(s == r);
        }
        assert forall|k: int| 0 <= k < s.len() implies #[trigger] s[k] < n by {
            if k < r.len() {
                assert(s[k] == r[k]);
            }
        }
        assert forall|i: int| 0 <= i < n implies (s.contains(i as usize) <==> #[trigger] keep(i)) by {
            if i < m {
                if s.contains(i as usize) {
                    let w = choose|w: int| 0 <= w < s.len() && s[w] == i as usize;
                    if w < r.len() {
                        assert(r[w] == s[w]);
                        assert(r.contains(i as usize));
                    } else {
                        assert(s[w] == m as usize);
                    }
                }
                if keep(i) {
                    assert(r.contains(i as usize));
                    let w = choose|w: int| 0 <= w < r.len() && r[w] == i as usize;
                    assert(s[w] == i as usize);
                }
            } else {
                if keep(i) {
                    assert(s[r.len() as int] == i as usize);
                } else if s.contains(i as usize) {
                    let w = choose|w: int| 0 <= w < s.len() && s[w] == i as usize;
                    assert(r[w] < m);
                }
            }
        }
    }
}

/// How many of the flags are set.
pub open spec fn count_true(flags: Seq<bool>) -> nat
    decreases flags.len(),
{
    if flags.len() == 0 {
        0
    } else {
        count_true(flags.drop_last()) + if flags.last() { 1nat } else { 0nat }
    }
}

/// How many of the flags are set.
pub fn count_found(found: &Vec<bool>) -> (r: usize)
    ensures
        r == count_true(found@),
        r <= found.len(),
{
    let mut count: usize = 0;
    let mut i: usize = 0;
    assert(found@.take(0) =~= Seq::<bool>::empty());
    while i < found.len()
        invariant
            i <= found.len(),
            count == count_true(found@.take(i as int)),
            count <= i,
        decreases found.len() - i,
    {
        assert(found@.take(i + 1).drop_last() =~= found@.take(i as int));
        if found[i] {
            count = count + 1;
        }
        i = i + 1;
    }
    assert(found@.take(found.len() as int) =~= found@);
    count
}

/// How many of the configured tools are found on `PATH`: each tool's name looked up by
/// `which`, in order, and the found ones counted by `count_found`. What is on disk decides
/// each lookup, so which tools are found is not stated.
pub fn installed_count(config: &Config) -> (r: usize)
    ensures
        exists|found: Seq<bool>| found.len() == config.tools.len() && r == count_true(found),
        r <= config.tools.len(),
        exists|found: Seq<bool>|
            found.len() == config.tools.len() && (forall|i: int|
                0 <= i < found.len() ==> system::which_found(
                    (#[trigger] config.tools@[i]).name@,
                    found[i],
                )) && r == count_true(found),
{
    let mut found: Vec<bool> = Vec::new();
    let mut i: usize = 0;
    while i < config.tools.len()
        invariant
            i <= config.tools.len(),
            found.len() == i,
            forall|j: int|
                0 <= j < i ==> system::which_found((#[trigger] config.tools@[j]).name@, found@[j]),
        decreases config.tools.len() - i,
    {
        let name = config.tools[i].name.as_str();
        let hit = system::which(name);
        proof {
            assert(call_ensures(system::which, (name,), hit));
            assert(system::which_found(config.tools@[i as int].name@, hit is Some));
        }
        found.push(hit.is_some());
        i = i + 1;
    }
    count_found(&found)
}

} // verus!
