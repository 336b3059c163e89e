//! `kit regen`: the aliases file and the symlinks for the configured tools.

use vstd::prelude::*;
use crate::config::{Config, Tool, ToolEntry};
use crate::text::{chars_of, matches_at, matches_at_exec};
use crate::system;

verus! {

/// Each alias of one tool paired with the tool's name, in order.
pub open spec fn tool_alias_pairs(e: ToolEntry) -> Seq<(Seq<char>, Seq<char>)> {
    e.tool.alias_names().map_values(|a: Seq<char>| (a, e.name@))
}

/// Every (alias, tool name) pair of the configuration, tool by tool, in order.
pub open spec fn alias_pairs(tools: Seq<ToolEntry>) -> Seq<(Seq<char>, Seq<char>)>
    decreases tools.len(),
{
    if tools.len() == 0 {
        Seq::empty()
    } else {
        alias_pairs(tools.drop_last()) + tool_alias_pairs(tools.last())
    }
}

/// The (alias, tool name) pairs that go into the aliases file.
pub fn collect_aliases(config: &Config) -> (r: Vec<(String, String)>)
    ensures
        r.deep_view() == alias_pairs(config.tools@),
{
    let mut r: Vec<(String, String)> = Vec::new();
    let mut i: usize = 0;
    assert(config.tools@.take(0) =~= Seq::<ToolEntry>::empty());
    while i < config.tools.len()
        invariant
            i <= config.tools.len(),
            r.deep_view() == alias_pairs(config.tools@.take(i as int)),
        decreases config.tools.len() - i,
    {
        let entry = &config.tools[i];
        let aliases = entry.tool.aliases();
        let ghost base = r.deep_view();
        let mut k: usize = 0;
        while k < aliases.len()
            invariant
                k <= aliases.len(),
                aliases.deep_view() == entry.tool.alias_names(),
                r.deep_view() == base + tool_alias_pairs(*entry).take(k as int),
            decreases aliases.len() - k,
        {
            let ghost before = r.deep_view();
            let pair = (aliases[k].clone(), entry.name.clone());
            r.push(pair);
            k = k + 1;
            assert(tool_alias_pairs(*entry).take(k as int) =~= tool_alias_pairs(*entry).take(
                k - 1,
            ).push((aliases@[k - 1]@, entry.name@)));
            assert(r.deep_view() =~= before.push((aliases@[k - 1]@, entry.name@)));
        }
        assert(tool_alias_pairs(*entry).take(aliases.len() as int) =~= tool_alias_pairs(*entry));
        assert(config.tools@.take(i + 1).drop_last() =~= config.tools@.take(i as int));
        i = i + 1;
    }
    assert(config.tools@.take(config.tools.len() as int) =~= config.tools@);
    r
}

/// Every alias of every configured tool is in the aliases file, paired with its tool's
/// name.
pub proof fn lemma_alias_pairs_complete(tools: Seq<ToolEntry>, i: int, k: int)
    requires
        0 <= i < tools.len(),
        0 <= k < tools[i].tool.alias_names().len(),
    ensures
        alias_pairs(tools).contains((tools[i].tool.alias_names()[k], tools[i].name@)),
    decreases tools.len(),
{
    let prev = tools.drop_last();
    let tail = tool_alias_pairs(tools.last());
    assert(alias_pairs(tools) == alias_pairs(prev) + tail);
    if i < tools.len() - 1 {
        assert(prev[i] == tools[i]);
        lemma_alias_pairs_complete(prev, i, k);
        let w = choose|w: int|
            0 <= w < alias_pairs(prev).len() && alias_pairs(prev)[w] == (
                tools[i].tool.alias_names()[k],
                tools[i].name@,
            );
        assert(alias_pairs(tools)[w] == alias_pairs(prev)[w]);
    } else {
        assert(alias_pairs(tools)[alias_pairs(prev).len() + k] == tail[k]);
    }
}

/// The symlinks for one tool, as (link name, target) pairs: where the tool's program was
/// found, one for the tool's own name and one for each alias, all to that program.
pub open spec fn tool_links(e: ToolEntry, resolved: Option<Seq<char>>) -> Seq<(Seq<char>, Seq<char>)> {
    match resolved {
        None => Seq::empty(),
        Some(p) => seq![(e.name@, p)] + e.tool.alias_names().map_values(|a: Seq<char>| (a, p)),
    }
}

/// The (link name, target) symlinks for one tool whose program was found at `resolved`
/// (`None` where it was not found).
pub fn tool_symlinks(entry: &ToolEntry, resolved: &Option<String>) -> (r: Vec<(String, String)>)
    ensures
        r.deep_view() == tool_links(
            *entry,
            match resolved {
                Some(p) => Some(p@),
                None => None,
            },
        ),
{
    let mut r: Vec<(String, String)> = Vec::new();
    match resolved {
        None => {
            assert(r.deep_view() =~= Seq::<(Seq<char>, Seq<char>)>::empty());
        },
        Some(path) => {
            r.push((entry.name.clone(), path.clone()));
            let aliases = entry.tool.aliases();
            let ghost all = tool_links(*entry, Some(path@));
            assert(r.deep_view() =~= all.take(1));
            let mut k: usize = 0;
            while k < aliases.len()
                invariant
                    k <= aliases.len(),
                    aliases.deep_view() == entry.tool.alias_names(),
                    all == tool_links(*entry, Some(path@)),
                    all.len() == aliases.len() + 1,
                    r.deep_view() == all.take(k + 1),
                decreases aliases.len() - k,
            {
                let ghost before = r.deep_view();
                r.push((aliases[k].clone(), path.clone()));
                k = k + 1;
                assert(all[k as int] == (aliases@[k - 1]@, path@));
                assert(r.deep_view() =~= before.push((aliases@[k - 1]@, path@)));
                assert(all.take(k + 1) =~= all.take(k as int).push(all[k as int]));
                assert(r.deep_view() =~= all.take(k + 1));
            }
            assert(all.take(aliases.len() + 1) =~= all);
        },
    }
    r
}

/// The names under which a tool's program is looked up, in order: the tool's name, then
/// each alias.
pub open spec fn program_candidates(e: ToolEntry) -> Seq<Seq<char>> {
    seq![e.name@] + e.tool.alias_names()
}

/// `p` is not a path inside the directory `dir` (not one of kit's own links there).
pub open spec fn outside_dir(p: Seq<char>, dir: Seq<char>) -> bool {
    !matches_at(p, dir + seq!['/'], 0)
}

/// The first lookup that found a path outside `dir`.
pub open spec fn first_usable(lookups: Seq<Option<Seq<char>>>, dir: Seq<char>) -> Option<
    Seq<char>,
>
    decreases lookups.len(),
{
    if lookups.len() == 0 {
        None
    } else {
        match first_usable(lookups.drop_last(), dir) {
            Some(p) => Some(p),
            None => if lookups.last() is Some && outside_dir(lookups.last()->0, dir) {
                lookups.last()
            } else {
                None
            },
        }
    }
}

/// The text an optional string holds.
pub open spec fn opt_seq(o: Option<String>) -> Option<Seq<char>> {
    match o {
        Some(s) => Some(s@),
        None => None,
    }
}

/// Lookup `j` found a path outside `dir`.
pub open spec fn usable_at(lookups: Seq<Option<Seq<char>>>, dir: Seq<char>, j: int) -> bool {
    lookups[j] is Some && outside_dir(lookups[j]->0, dir)
}

/// The program chosen is the path of the earliest lookup that found one outside `dir`, and
/// there is none only where no lookup did. In particular a tool whose own name is found
/// outside `dir` (the first lookup) gets that path.
pub proof fn lemma_first_usable_is_earliest(lookups: Seq<Option<Seq<char>>>, dir: Seq<char>)
    ensures
        match first_usable(lookups, dir) {
            Some(p) => exists|i: int|
                0 <= i < lookups.len() && #[trigger] lookups[i] == Some(p) && usable_at(
                    lookups,
                    dir,
                    i,
                ) && forall|j: int| 0 <= j < i ==> !usable_at(lookups, dir, j),
            None => forall|j: int| 0 <= j < lookups.len() ==> !usable_at(lookups, dir, j),
        },
        lookups.len() > 0 && usable_at(lookups, dir, 0) ==> first_usable(lookups, dir)
            == lookups[0],
    decreases lookups.len(),
{
    if lookups.len() > 0 {
        let prev = lookups.drop_last();
        lemma_first_usable_is_earliest(prev, dir);
        let n = lookups.len() - 1;
        assert forall|j: int| 0 <= j < n implies usable_at(prev, dir, j) == usable_at(
            lookups,
            dir,
            j,
        ) by {
            assert(prev[j] == lookups[j]);
        }
        match first_usable(prev, dir) {
            Some(p) => {
                let i = choose|i: int|
                    0 <= i < prev.len() && #[trigger] prev[i] == Some(p) && usable_at(prev, dir, i)
                        && forall|j: int| 0 <= j < i ==> !usable_at(prev, dir, j);
                assert(lookups[i] == Some(p));
            },
            None => {
                if usable_at(lookups, dir, n) {
                    assert(lookups[n] == lookups.last());
                } else {
                    assert forall|j: int| 0 <= j < lookups.len() implies !usable_at(
                        lookups,
                        dir,
                        j,
                    ) by {
                        if j < n {
                            assert(!usable_at(prev, dir, j));
                        }
                    }
                }
            },
        }
        if usable_at(lookups, dir, 0) && n > 0 {
            assert(usable_at(prev, dir, 0));
            assert(prev[0] == lookups[0]);
        }
    }
}

/// The names under which a tool's program is looked up: the tool's name, then each alias.
pub fn program_candidates_exec(entry: &ToolEntry) -> (r: Vec<String>)
    ensures
        r.deep_view() == program_candidates(*entry),
{
    let mut r: Vec<String> = Vec::new();
    r.push(entry.name.clone());
    let aliases = entry.tool.aliases();
    let ghost all = program_candidates(*entry);
    assert(r.deep_view() =~= all.take(1));
    let mut k: usize = 0;
    while k < aliases.len()
        invariant
            k <= aliases.len(),
            aliases.deep_view() == entry.tool.alias_names(),
            all == program_candidates(*entry),
            all.len() == aliases.len() + 1,
            r.deep_view() == all.take(k + 1),
        decreases aliases.len() - k,
    {
        let ghost before = r.deep_view();
        r.push(aliases[k].clone());
        k = k + 1;
        assert(all[k as int] == aliases@[k - 1]@);
        assert(r.deep_view() =~= before.push(aliases@[k - 1]@));
        assert(all.take(k + 1) =~= all.take(k as int).push(all[k as int]));
    }
    assert(all.take(aliases.len() + 1) =~= all);
    r
}

/// The program to link to, from the lookups of a tool's candidate names: the first path
/// found that is not inside the kit bin directory `bin_dir`.
pub fn pick_program(lookups: &Vec<Option<String>>, bin_dir: &str) -> (r: Option<String>)
    ensures
        opt_seq(r) == first_usable(lookups@.map_values(|o: Option<String>| opt_seq(o)), bin_dir@),
{
    let ghost views = lookups@.map_values(|o: Option<String>| opt_seq(o));
    let mut prefix = chars_of(bin_dir);
    prefix.push('/');
    let mut i: usize = 0;
    assert(views.take(0) =~= Seq::<Option<Seq<char>>>::empty());
    while i < lookups.len()
        invariant
            i <= lookups.len(),
            views == lookups@.map_values(|o: Option<String>| opt_seq(o)),
            prefix@ == bin_dir@ + seq!['/'],
            first_usable(views.take(i as int), bin_dir@) is None,
        decreases lookups.len() - i,
    {
        assert(views.take(i + 1).drop_last() =~= views.take(i as int));
        assert(views.take(i + 1).last() == opt_seq(lookups@[i as int]));
        match &lookups[i] {
            Some(p) => {
                let pc = chars_of(p.as_str());
                if !matches_at_exec(pc.as_slice(), prefix.as_slice(), 0) {
                    proof {
                        lemma_first_usable_extend(views, bin_dir@, i as int);
                    }
                    return Some(p.clone());
                }
            },
            None => {},
        }
        i = i + 1;
    }
    assert(views.take(lookups.len() as int) =~= views);
    None
}

/// Once no earlier lookup is usable, the first usable one among the first `i + 1` is the
/// `i`-th where that one is usable.
proof fn lemma_first_usable_extend(views: Seq<Option<Seq<char>>>, dir: Seq<char>, i: int)
    requires
        0 <= i < views.len(),
        first_usable(views.take(i), dir) is None,
        views[i] is Some,
        outside_dir(views[i]->0, dir),
    ensures
        first_usable(views, dir) == views[i],
    decreases views.len() - i,
{
    assert(views.take(i + 1).drop_last() =~= views.take(i));
    if i + 1 < views.len() {
        lemma_first_usable_prefix(views, dir, i + 1);
    } else {
        assert(views.take(i + 1) =~= views);
    }
}

/// A usable lookup found within a prefix stays the first usable one of the whole.
proof fn lemma_first_usable_prefix(views: Seq<Option<Seq<char>>>, dir: Seq<char>, n: int)
    requires
        0 <= n <= views.len(),
        first_usable(views.take(n), dir) is Some,
    ensures
        first_usable(views, dir) == first_usable(views.take(n), dir),
    decreases views.len() - n,
{
    if n < views.len() {
        assert(views.take(n + 1).drop_last() =~= views.take(n));
        lemma_first_usable_prefix(views, dir, n + 1);
    } else {
        assert(views.take(n) =~= views);
    }
}

/// The program of a tool as found on `PATH`: each candidate name looked up by `which`, and
/// the first path found outside the kit bin directory `bin_dir` taken. What is on disk
/// decides the lookups; the choice among them is `first_usable`.
pub fn tool_program(entry: &ToolEntry, bin_dir: &str) -> (r: Option<String>)
    ensures
        exists|lookups: Seq<Option<Seq<char>>>|
            lookups.len() == program_candidates(*entry).len() && opt_seq(r) == first_usable(
                lookups,
                bin_dir@,
            ),
        exists|lookups: Seq<Option<Seq<char>>>|
            lookups.len() == program_candidates(*entry).len() && (forall|i: int|
                0 <= i < lookups.len() ==> system::which_gave(
                    #[trigger] program_candidates(*entry)[i],
                    lookups[i],
                )) && opt_seq(r) == first_usable(lookups, bin_dir@),
{
    let candidates = program_candidates_exec(entry);
    let mut lookups: Vec<Option<String>> = Vec::new();
    let mut i: usize = 0;
    while i < candidates.len()
        invariant
            i <= candidates.len(),
            lookups.len() == i,
            candidates.deep_view() == program_candidates(*entry),
            forall|j: int|
                0 <= j < i ==> system::which_gave(
                    #[trigger] program_candidates(*entry)[j],
                    opt_seq(lookups@[j]),
                ),
        decreases candidates.len() - i,
    {
        let name = candidates[i].as_str();
        let found = system::which(name);
        proof {
            assert(call_ensures(system::which, (name,), found));
            assert(candidates.deep_view()[i as int] == name@);
            assert(system::which_gave(program_candidates(*entry)[i as int], opt_seq(found)));
        }
        lookups.push(found);
        i = i + 1;
    }
    let r = pick_program(&lookups, bin_dir);
    proof {
        let views = lookups@.map_values(|o: Option<String>| opt_seq(o));
        assert forall|j: int| 0 <= j < views.len() implies system::which_gave(
            #[trigger] program_candidates(*entry)[j],
            views[j],
        ) by {
            assert(views[j] == opt_seq(lookups@[j]));
        }
    }
    r
}

/// The symlinks for one tool whose program is looked up on `PATH` (see `tool_program`):
/// the links of `tool_links` to the first path found, for its name or an alias, outside
/// the kit bin directory `bin_dir`. So ripgrep with the alias `rg`, installed as `rg`,
/// gets `<bin_dir>/rg` linked to that `rg`; and a link always leads to a program, never
/// to another link of kit's own. What is on disk decides the lookups.
pub fn tool_symlinks_found(entry: &ToolEntry, bin_dir: &str) -> (r: Vec<(String, String)>)
    ensures
        exists|lookups: Seq<Option<Seq<char>>>|
            lookups.len() == program_candidates(*entry).len() && r.deep_view() == tool_links(
                *entry,
                first_usable(lookups, bin_dir@),
            ),
        exists|lookups: Seq<Option<Seq<char>>>|
            lookups.len() == program_candidates(*entry).len() && (forall|i: int|
                0 <= i < lookups.len() ==> system::which_gave(
                    #[trigger] program_candidates(*entry)[i],
                    lookups[i],
                )) && r.deep_view() == tool_links(*entry, first_usable(lookups, bin_dir@)),
{
    let program = tool_program(entry, bin_dir);
    tool_symlinks(entry, &program)
}

} // verus!
