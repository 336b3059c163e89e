//! Classifying the programs found on `PATH` by where they were installed from.

use vstd::prelude::*;
use crate::config::opt_view;
use crate::json::{Json, object_keys, object_keys_exec};
use crate::text::{chars_of, contains, contains_exec, lines, lines_exec, split_char, split_char_exec};

verus! {

/// A program found on `PATH`.
#[derive(Debug, Clone, PartialEq)]
pub struct FoundBinary {
    pub name: String,
    pub path: String,
    pub source: DetectedSource,
}

/// Where a program on `PATH` appears to have come from.
#[derive(Debug, Clone, Copy, PartialEq, Eq, Structural)]
pub enum DetectedSource {
    Brew,
    Mise,
    Unknown,
}

/// A file in a `PATH` directory: its name, its full path, and its permission bits where
/// they could be read.
#[derive(Debug, Clone, PartialEq)]
pub struct PathEntry {
    pub name: String,
    pub path: String,
    pub mode: Option<u32>,
}

/// What a found program is, as text and source.
pub open spec fn found_view(b: FoundBinary) -> (Seq<char>, Seq<char>, DetectedSource) {
    (b.name@, b.path@, b.source)
}

/// A file counts as a program unless its permission bits are known and give no one the
/// right to execute it.
pub open spec fn spec_is_executable(mode: Option<u32>) -> bool {
    match mode {
        None => true,
        Some(m) => m & 0o111u32 != 0,
    }
}

/// Whether a file with these permission bits counts as a program.
pub fn is_executable(mode: Option<u32>) -> (b: bool)
    ensures
        b == spec_is_executable(mode),
{
    match mode {
        None => true,
        Some(m) => m & 0o111u32 != 0,
    }
}

/// The directories named by a `PATH` value: its pieces between `':'`.
pub fn path_dirs(path_var: &str) -> (r: Vec<String>)
    ensures
        r.deep_view() == split_char(path_var@, ':'),
{
    let cs = chars_of(path_var);
    split_char_exec(cs.as_slice(), ':')
}

/// `mise` as text.
pub open spec fn mise_text() -> Seq<char> {
    seq!['m', 'i', 's', 'e']
}

/// The classification rule: a Homebrew formula first, then a path through a `mise`
/// directory, then a tool that `mise` reports, else unknown.
pub open spec fn detected(
    brew: Seq<Seq<char>>,
    mise: Seq<Seq<char>>,
    name: Seq<char>,
    path: Seq<char>,
) -> DetectedSource {
    if brew.contains(name) {
        DetectedSource::Brew
    } else if contains(path, mise_text()) {
        DetectedSource::Mise
    } else if mise.contains(name) {
        DetectedSource::Mise
    } else {
        DetectedSource::Unknown
    }
}

/// The programs a scan keeps from the `PATH` entries, in order: each executable entry whose
/// name has not been kept before, with its classification.
pub open spec fn scan_found(
    brew: Seq<Seq<char>>,
    mise: Seq<Seq<char>>,
    entries: Seq<PathEntry>,
) -> Seq<(Seq<char>, Seq<char>, DetectedSource)>
    decreases entries.len(),
{
    if entries.len() == 0 {
        Seq::empty()
    } else {
        let acc = scan_found(brew, mise, entries.drop_last());
        let e = entries.last();
        if spec_is_executable(e.mode) && !acc.map_values(
            |f: (Seq<char>, Seq<char>, DetectedSource)| f.0,
        ).contains(e.name@) {
            acc.push((e.name@, e.path@, detected(brew, mise, e.name@, e.path@)))
        } else {
            acc
        }
    }
}

/// The names the scan keeps.
pub open spec fn found_names(found: Seq<(Seq<char>, Seq<char>, DetectedSource)>) -> Seq<
    Seq<char>,
> {
    found.map_values(|f: (Seq<char>, Seq<char>, DetectedSource)| f.0)
}

/// Entry `k` is the first executable entry named `name`.
pub open spec fn first_executable_named(entries: Seq<PathEntry>, k: int, name: Seq<char>) -> bool {
    0 <= k < entries.len() && entries[k].name@ == name && spec_is_executable(entries[k].mode)
        && forall|k2: int|
        0 <= k2 < k && spec_is_executable(#[trigger] entries[k2].mode) ==> entries[k2].name@
            != name
}

/// A scan reports each program name once; every executable entry's name is reported; and
/// what is reported under a name is the first executable entry with that name, classified
/// by the scanner's rule.
pub proof fn lemma_scan_found(brew: Seq<Seq<char>>, mise: Seq<Seq<char>>, entries: Seq<PathEntry>)
    ensures
        ({
            let found = scan_found(brew, mise, entries);
            &&& forall|i: int, j: int|
                0 <= i < j < found.len() ==> #[trigger] found[i].0 != #[trigger] found[j].0
            &&& forall|k: int|
                0 <= k < entries.len() && spec_is_executable(#[trigger] entries[k].mode)
                    ==> found_names(found).contains(entries[k].name@)
            &&& forall|i: int|
                #![trigger found[i]]
                0 <= i < found.len() ==> exists|k: int|
                    #![trigger entries[k]]
                    first_executable_named(entries, k, found[i].0) && found[i] == (
                        entries[k].name@,
                        entries[k].path@,
                        detected(brew, mise, entries[k].name@, entries[k].path@),
                    )
        }),
    decreases entries.len(),
{
    if entries.len() > 0 {
        let prev = entries.drop_last();
        lemma_scan_found(brew, mise, prev);
        let acc = scan_found(brew, mise, prev);
        let found = scan_found(brew, mise, entries);
        let e = entries.last();
        let n = entries.len() - 1;
        assert forall|i: int| #![trigger found[i]] 0 <= i < acc.len() implies exists|k: int|
            #![trigger entries[k]]
            first_executable_named(entries, k, found[i].0) && found[i] == (
                entries[k].name@,
                entries[k].path@,
                detected(brew, mise, entries[k].name@, entries[k].path@),
            ) by {
            let k = choose|k: int|
                #![trigger prev[k]]
                first_executable_named(prev, k, acc[i].0) && acc[i] == (
                    prev[k].name@,
                    prev[k].path@,
                    detected(brew, mise, prev[k].name@, prev[k].path@),
                );
            assert(prev[k] == entries[k]);
            assert(found[i] == acc[i]);
            assert forall|k2: int|
                0 <= k2 < k && spec_is_executable(#[trigger] entries[k2].mode) implies entries[k2].name@
                != acc[i].0 by {
                assert(prev[k2] == entries[k2]);
            }
        }
        if spec_is_executable(e.mode) && !found_names(acc).contains(e.name@) {
            assert(found == acc.push((e.name@, e.path@, detected(brew, mise, e.name@, e.path@))));
            assert forall|i: int, j: int|
                0 <= i < j < found.len() implies #[trigger] found[i].0 != #[trigger] found[j].0 by {
                if j == acc.len() {
                    assert(found_names(acc)[i] == acc[i].0);
                }
            }
            assert forall|k2: int|
                0 <= k2 < n && spec_is_executable(#[trigger] entries[k2].mode) implies entries[k2].name@
                != e.name@ by {
                assert(prev[k2] == entries[k2]);
                assert(spec_is_executable(prev[k2].mode));
            }
            assert(first_executable_named(entries, n, e.name@));
            assert(found_names(found) =~= found_names(acc).push(e.name@));
            assert forall|k: int|
                0 <= k < entries.len() && spec_is_executable(#[trigger] entries[k].mode)
                    implies found_names(found).contains(entries[k].name@) by {
                if k < n {
                    assert(prev[k] == entries[k]);
                    assert(spec_is_executable(prev[k].mode));
                    let w = choose|w: int|
                        0 <= w < found_names(acc).len() && found_names(acc)[w] == prev[k].name@;
                    assert(found_names(found)[w] == entries[k].name@);
                } else {
                    assert(found_names(found)[acc.len() as int] == e.name@);
                }
            }
        } else {
            assert forall|k: int|
                0 <= k < entries.len() && spec_is_executable(#[trigger] entries[k].mode)
                    implies found_names(found).contains(entries[k].name@) by {
                if k < n {
                    assert(prev[k] == entries[k]);
                    assert(spec_is_executable(prev[k].mode));
                }
            }
        }
    }
}

/// The path of the first executable entry named `name`, if there is one.
pub open spec fn first_exec_path(entries: Seq<PathEntry>, name: Seq<char>) -> Option<Seq<char>>
    decreases entries.len(),
{
    if entries.len() == 0 {
        None
    } else {
        match first_exec_path(entries.drop_last(), name) {
            Some(p) => Some(p),
            None => if spec_is_executable(entries.last().mode) && entries.last().name@ == name {
                Some(entries.last().path@)
            } else {
                None
            },
        }
    }
}

/// The conflicts on `PATH`, in order: for each executable entry whose name an earlier
/// executable entry already has, that name, the path of the first such entry (the one
/// that runs) and the path it shadows.
pub open spec fn conflicts_of(entries: Seq<PathEntry>) -> Seq<(Seq<char>, Seq<char>, Seq<char>)>
    decreases entries.len(),
{
    if entries.len() == 0 {
        Seq::empty()
    } else {
        let acc = conflicts_of(entries.drop_last());
        let e = entries.last();
        match first_exec_path(entries.drop_last(), e.name@) {
            Some(w) => if spec_is_executable(e.mode) {
                acc.push((e.name@, w, e.path@))
            } else {
                acc
            },
            None => acc,
        }
    }
}

/// Once a prefix has an executable entry named `name`, longer prefixes keep it first.
proof fn lemma_first_exec_prefix(s: Seq<PathEntry>, name: Seq<char>, n: int)
    requires
        0 <= n <= s.len(),
        first_exec_path(s.take(n), name) is Some,
    ensures
        first_exec_path(s, name) == first_exec_path(s.take(n), name),
    decreases s.len() - n,
{
    if n < s.len() {
        assert(s.take(n + 1).drop_last() =~= s.take(n));
        lemma_first_exec_prefix(s, name, n + 1);
    } else {
        assert(s.take(n) =~= s);
    }
}

/// The scan reports a program under `name` at `path`.
pub open spec fn scan_reports(
    found: Seq<(Seq<char>, Seq<char>, DetectedSource)>,
    name: Seq<char>,
    path: Seq<char>,
) -> bool {
    exists|i: int| 0 <= i < found.len() && #[trigger] found[i] == (name, path, found[i].2)
}

/// The scan keeps a program under `name` exactly when some entry named `name` is
/// executable, and what it keeps is the path of the first such entry.
pub proof fn lemma_scan_keeps_first_exec(
    brew: Seq<Seq<char>>,
    mise: Seq<Seq<char>>,
    entries: Seq<PathEntry>,
    name: Seq<char>,
)
    ensures
        ({
            let found = scan_found(brew, mise, entries);
            match first_exec_path(entries, name) {
                Some(p) => scan_reports(found, name, p),
                None => !found_names(found).contains(name),
            }
        }),
    decreases entries.len(),
{
    if entries.len() > 0 {
        let prev = entries.drop_last();
        lemma_scan_keeps_first_exec(brew, mise, prev, name);
        let acc = scan_found(brew, mise, prev);
        let found = scan_found(brew, mise, entries);
        let e = entries.last();
        let pushed = spec_is_executable(e.mode) && !found_names(acc).contains(e.name@);
        if pushed {
            assert(found == acc.push((e.name@, e.path@, detected(brew, mise, e.name@, e.path@))));
        } else {
            assert(found == acc);
        }
        match first_exec_path(prev, name) {
            Some(p) => {
                let i = choose|i: int|
                    0 <= i < acc.len() && #[trigger] acc[i] == (name, p, acc[i].2);
                assert(found[i] == acc[i]);
            },
            None => {
                if spec_is_executable(e.mode) && e.name@ == name {
                    let n = acc.len() as int;
                    assert(found[n] == (name, e.path@, found[n].2));
                } else if pushed {
                    assert(found_names(found) =~= found_names(acc).push(e.name@));
                    if found_names(found).contains(name) {
                        let w = choose|w: int|
                            0 <= w < found_names(found).len() && found_names(found)[w] == name;
                        assert(found_names(acc)[w] == name);
                    }
                }
            },
        }
    }
}

/// What a conflict names as the path that runs is the path the scan reports for that
/// program.
pub proof fn lemma_conflicts_name_the_scanned_path(
    brew: Seq<Seq<char>>,
    mise: Seq<Seq<char>>,
    entries: Seq<PathEntry>,
)
    ensures
        forall|k: int|
            0 <= k < conflicts_of(entries).len() ==> scan_reports(
                scan_found(brew, mise, entries),
                (#[trigger] conflicts_of(entries)[k]).0,
                conflicts_of(entries)[k].1,
            ),
{
    let found = scan_found(brew, mise, entries);
    let cs = conflicts_of(entries);
    assert forall|k: int| 0 <= k < cs.len() implies scan_reports(found, (#[trigger] cs[k]).0, cs[k].1) by {
        lemma_conflict_has_first(entries, k);
        let c = cs[k];
        lemma_scan_keeps_first_exec(brew, mise, entries, c.0);
    }
}

/// Each conflict names, as the path that runs, the first executable entry with its name.
proof fn lemma_conflict_has_first(entries: Seq<PathEntry>, k: int)
    requires
        0 <= k < conflicts_of(entries).len(),
    ensures
        first_exec_path(entries, conflicts_of(entries)[k].0) == Some(conflicts_of(entries)[k].1),
    decreases entries.len(),
{
    let prev = entries.drop_last();
    let acc = conflicts_of(prev);
    let e = entries.last();
    let c = conflicts_of(entries)[k];
    if k < acc.len() {
        assert(c == acc[k]);
        lemma_conflict_has_first(prev, k);
    } else {
        assert(c.0 == e.name@);
        assert(first_exec_path(prev, e.name@) == Some(c.1));
    }
    assert(entries.take(prev.len() as int) =~= prev);
    lemma_first_exec_prefix(entries, c.0, prev.len() as int);
}

/// The path of the first executable entry among the first `upto` named `name`.
fn first_exec_path_exec(entries: &Vec<PathEntry>, upto: usize, name: &String) -> (r: Option<
    String,
>)
    requires
        upto <= entries.len(),
    ensures
        opt_view(r) == first_exec_path(entries@.take(upto as int), name@),
{
    let mut i: usize = 0;
    assert(entries@.take(0) =~= Seq::<PathEntry>::empty());
    while i < upto
        invariant
            i <= upto <= entries.len(),
            first_exec_path(entries@.take(i as int), name@) is None,
        decreases upto - i,
    {
        assert(entries@.take(i + 1).drop_last() =~= entries@.take(i as int));
        assert(entries@.take(i + 1).last() == entries@[i as int]);
        if is_executable(entries[i].mode) && entries[i].name == *name {
            proof {
                let pre = entries@.take(upto as int);
                assert(pre.take(i + 1) =~= entries@.take(i + 1));
                lemma_first_exec_prefix(pre, name@, i + 1);
            }
            return Some(entries[i].path.clone());
        }
        i = i + 1;
    }
    None
}

/// The conflicts on `PATH` (see `conflicts_of`): each program name found executable in
/// more than one place, with the path that runs and the path it shadows, in `PATH` order.
pub fn path_conflicts(entries: &Vec<PathEntry>) -> (r: Vec<(String, String, String)>)
    ensures
        r.deep_view() == conflicts_of(entries@),
{
    let mut r: Vec<(String, String, String)> = Vec::new();
    let mut i: usize = 0;
    assert(entries@.take(0) =~= Seq::<PathEntry>::empty());
    while i < entries.len()
        invariant
            i <= entries.len(),
            r.deep_view() == conflicts_of(entries@.take(i as int)),
        decreases entries.len() - i,
    {
        let ghost before = r.deep_view();
        assert(entries@.take(i + 1).drop_last() =~= entries@.take(i as int));
        assert(entries@.take(i + 1).last() == entries@[i as int]);
        let e = &entries[i];
        if is_executable(e.mode) {
            match first_exec_path_exec(entries, i, &e.name) {
                Some(w) => {
                    let c = (e.name.clone(), w, e.path.clone());
                    r.push(c);
                    assert(r.deep_view() =~= before.push(c.deep_view()));
                },
                None => {},
            }
        }
        i = i + 1;
    }
    assert(entries@.take(entries.len() as int) =~= entries@);
    r
}

/// Whether `v` holds a string with the text `s`.
fn contains_string(v: &Vec<String>, s: &String) -> (b: bool)
    ensures
        b == v.deep_view().contains(s@),
{
    let mut i: usize = 0;
    while i < v.len()
        invariant
            i <= v.len(),
            forall|j: int| 0 <= j < i ==> v@[j]@ != s@,
        decreases v.len() - i,
    {
        if v[i] == *s {
            assert(v.deep_view()[i as int] == s@);
            return true;
        }
        i = i + 1;
    }
    proof {
        if v.deep_view().contains(s@) {
            let k = choose|k: int| 0 <= k < v.deep_view().len() && v.deep_view()[k] == s@;
            assert(v@[k]@ == s@);
        }
    }
    false
}

/// The sources of information a scan classifies programs by: the formulas Homebrew lists
/// and the tools `mise` reports.
pub struct Scanner {
    brew_formulas: Vec<String>,
    mise_tools: Vec<String>,
}

impl Scanner {
    /// The formulas Homebrew lists.
    pub closed spec fn brew(&self) -> Seq<Seq<char>> {
        self.brew_formulas.deep_view()
    }

    /// The tools `mise` reports.
    pub closed spec fn mise(&self) -> Seq<Seq<char>> {
        self.mise_tools.deep_view()
    }

    /// A scanner from what `brew list --formula -1` printed (one formula per line; `None`
    /// where it could not be run) and what `mise ls --current --json` printed, parsed
    /// (`None` where it could not be run or parsed): the tools are the keys of the object.
    pub fn new(brew_list_output: &Option<String>, mise_listing: &Option<Json>) -> (r: Scanner)
        ensures
            r.brew() == match brew_list_output {
                Some(o) => lines(o@),
                None => Seq::<Seq<char>>::empty(),
            },
            r.mise() == object_keys(*mise_listing),
    {
        let brew_formulas = match brew_list_output {
            Some(o) => {
                let cs = chars_of(o.as_str());
                lines_exec(cs.as_slice())
            },
            None => Vec::new(),
        };
        let mise_tools = object_keys_exec(mise_listing);
        let r = Scanner { brew_formulas, mise_tools };
        assert(brew_list_output is None ==> r.brew() =~= Seq::<Seq<char>>::empty());
        r
    }

    /// Where the program `name` at `path` appears to have come from.
    pub fn detect_source(&self, name: &str, path: &str) -> (d: DetectedSource)
        ensures
            d == detected(self.brew(), self.mise(), name@, path@),
    {
        let n = name.to_owned();
        if contains_string(&self.brew_formulas, &n) {
            return DetectedSource::Brew;
        }
        let p = chars_of(path);
        let m = vec!['m', 'i', 's', 'e'];
        assert(m@ =~= mise_text());
        if contains_exec(p.as_slice(), m.as_slice()) {
            return DetectedSource::Mise;
        }
        if contains_string(&self.mise_tools, &n) {
            return DetectedSource::Mise;
        }
        DetectedSource::Unknown
    }

    /// The programs among the `PATH` entries (in `PATH` order, then directory order): each
    /// executable entry whose name was not found earlier, with where it came from.
    pub fn scan_path(&self, entries: &Vec<PathEntry>) -> (r: Vec<FoundBinary>)
        ensures
            r@.map_values(|b: FoundBinary| found_view(b)) == scan_found(
                self.brew(),
                self.mise(),
                entries@,
            ),
    {
        let mut found: Vec<FoundBinary> = Vec::new();
        let mut seen: Vec<String> = Vec::new();
        let mut i: usize = 0;
        assert(entries@.take(0) =~= Seq::<PathEntry>::empty());
        while i < entries.len()
            invariant
                i <= entries.len(),
                found@.map_values(|b: FoundBinary| found_view(b)) == scan_found(
                    self.brew(),
                    self.mise(),
                    entries@.take(i as int),
                ),
                seen.deep_view() == found@.map_values(|b: FoundBinary| b.name@),
            decreases entries.len() - i,
        {
            let e = &entries[i];
            let ghost acc = scan_found(self.brew(), self.mise(), entries@.take(i as int));
            let ghost prev = found@;
            assert(entries@.take(i + 1).drop_last() =~= entries@.take(i as int));
            assert(entries@.take(i + 1).last() == entries@[i as int]);
            assert(acc.map_values(|f: (Seq<char>, Seq<char>, DetectedSource)| f.0)
                =~= seen.deep_view());
            if is_executable(e.mode) && !contains_string(&seen, &e.name) {
                let ghost prev_seen = seen.deep_view();
                let source = self.detect_source(e.name.as_str(), e.path.as_str());
                let fb = FoundBinary { name: e.name.clone(), path: e.path.clone(), source };
                found.push(fb);
                seen.push(e.name.clone());
                assert(found@ == prev.push(fb));
                assert(found@.map_values(|b: FoundBinary| found_view(b)) =~= prev.map_values(
                    |b: FoundBinary| found_view(b),
                ).push(found_view(fb)));
                assert(seen.deep_view() =~= prev_seen.push(e.name@));
                assert(found@.map_values(|b: FoundBinary| b.name@) =~= prev.map_values(
                    |b: FoundBinary| b.name@,
                ).push(fb.name@));
            }
            i = i + 1;
            assert(found@.map_values(|b: FoundBinary| found_view(b)) =~= scan_found(
                self.brew(),
                self.mise(),
                entries@.take(i as int),
            ));
        }
        assert(entries@.take(entries.len() as int) =~= entries@);
        found
    }
}

} // verus!
