//! `kit scan`: the configured tools set against what was found on `PATH`.

use vstd::prelude::*;
use crate::commands::{select, lemma_select};
use crate::config::{Config, SourceKind, Tool, source_kind_name};
use crate::scanner::FoundBinary;

verus! {

/// How many programs found but not configured are listed by name.
pub const UNCONFIGURED_SHOWN: usize = 20;

/// The name of the source a tool is installed from.
pub fn source_name(tool: &Tool) -> (r: &'static str)
    ensures
        r@ == source_kind_name(tool.spec_kind()),
{
    let k = tool.kind();
    k.name()
}

/// The outcome of a scan, as indices: configured tools found on `PATH`, configured tools
/// not found, and programs found that are not configured (indices into the found list).
#[derive(Debug, Clone, PartialEq)]
pub struct ScanReport {
    pub installed: Vec<usize>,
    pub missing: Vec<usize>,
    pub unconfigured: Vec<usize>,
}

/// The names of the found programs.
pub open spec fn binary_names(binaries: Seq<FoundBinary>) -> Seq<Seq<char>> {
    binaries.map_values(|b: FoundBinary| b.name@)
}

/// Tool `i` of the configuration was found on `PATH`.
pub open spec fn tool_found(config: Config, binaries: Seq<FoundBinary>) -> spec_fn(int) -> bool {
    |i: int| binary_names(binaries).contains(config.tools@[i].name@)
}

/// Tool `i` of the configuration was not found on `PATH`.
pub open spec fn tool_not_found(config: Config, binaries: Seq<FoundBinary>) -> spec_fn(
    int,
) -> bool {
    |i: int| !binary_names(binaries).contains(config.tools@[i].name@)
}

/// Found program `j` is not configured.
pub open spec fn binary_unconfigured(config: Config, binaries: Seq<FoundBinary>) -> spec_fn(
    int,
) -> bool {
    |j: int| !config.names().contains(binaries[j].name@)
}

/// Whether `name` is among the texts of `names`.
fn has_name(names: &Vec<String>, name: &String) -> (b: bool)
    ensures
        b == names.deep_view().contains(name@),
{
    let mut i: usize = 0;
    while i < names.len()
        invariant
            i <= names.len(),
            forall|j: int| 0 <= j < i ==> names@[j]@ != name@,
        decreases names.len() - i,
    {
        if names[i] == *name {
            assert(names.deep_view()[i as int] == name@);
            return true;
        }
        i = i + 1;
    }
    proof {
        if names.deep_view().contains(name@) {
            let k = choose|k: int| 0 <= k < names.deep_view().len() && names.deep_view()[k] == name@;
            assert(names@[k]@ == name@);
        }
    }
    false
}

/// The configured tools and the found programs, sorted into the three lists of a scan.
pub fn scan_report(config: &Config, binaries: &Vec<FoundBinary>) -> (r: ScanReport)
    ensures
        r.installed@ == select(config.tools.len() as nat, tool_found(*config, binaries@)),
        r.missing@ == select(config.tools.len() as nat, tool_not_found(*config, binaries@)),
        r.unconfigured@ == select(binaries.len() as nat, binary_unconfigured(*config, binaries@)),
        forall|i: int|
            0 <= i < config.tools.len() ==> (r.installed@.contains(i as usize) <==> exists|j: int|
                0 <= j < binaries.len() && #[trigger] binaries@[j].name@ == (
                #[trigger] config.tools@[i]).name@),
        forall|i: int|
            0 <= i < config.tools.len() ==> (r.missing@.contains(i as usize) <==> !exists|j: int|
                0 <= j < binaries.len() && #[trigger] binaries@[j].name@ == (
                #[trigger] config.tools@[i]).name@),
        forall|j: int|
            0 <= j < binaries.len() ==> (r.unconfigured@.contains(j as usize) <==> !exists|i: int|
                0 <= i < config.tools.len() && (#[trigger] config.tools@[i]).name@ == (
                #[trigger] binaries@[j]).name@),
        forall|k: int| 0 <= k < r.installed.len() ==> #[trigger] r.installed@[k] < config.tools.len(),
        forall|k: int| 0 <= k < r.missing.len() ==> #[trigger] r.missing@[k] < config.tools.len(),
        forall|k: int| 0 <= k < r.unconfigured.len() ==> #[trigger] r.unconfigured@[k] < binaries.len(),
{
    let mut found_names: Vec<String> = Vec::new();
    let mut j: usize = 0;
    while j < binaries.len()
        invariant
            j <= binaries.len(),
            found_names.deep_view() == binary_names(binaries@).take(j as int),
        decreases binaries.len() - j,
    {
        let ghost prev = found_names.deep_view();
        let nm = binaries[j].name.clone();
        found_names.push(nm);
        assert(found_names.deep_view() =~= prev.push(binaries@[j as int].name@));
        j = j + 1;
        assert(found_names.deep_view() =~= binary_names(binaries@).take(j as int));
    }
    assert(binary_names(binaries@).take(binaries.len() as int) =~= binary_names(binaries@));
    let mut configured: Vec<String> = Vec::new();
    let mut k: usize = 0;
    while k < config.tools.len()
        invariant
            k <= config.tools.len(),
            configured.deep_view() == config.names().take(k as int),
        decreases config.tools.len() - k,
    {
        let ghost prev = configured.deep_view();
        let nm = config.tools[k].name.clone();
        configured.push(nm);
        assert(configured.deep_view() =~= prev.push(config.tools@[k as int].name@));
        k = k + 1;
        assert(configured.deep_view() =~= config.names().take(k as int));
    }
    assert(config.names().take(config.tools.len() as int) =~= config.names());
    let mut installed: Vec<usize> = Vec::new();
    let mut missing: Vec<usize> = Vec::new();
    let mut i: usize = 0;
    while i < config.tools.len()
        invariant
            i <= config.tools.len(),
            found_names.deep_view() == binary_names(binaries@),
            installed@ == select(i as nat, tool_found(*config, binaries@)),
            missing@ == select(i as nat, tool_not_found(*config, binaries@)),
        decreases config.tools.len() - i,
    {
        if has_name(&found_names, &config.tools[i].name) {
            installed.push(i);
        } else {
            missing.push(i);
        }
        i = i + 1;
    }
    let mut unconfigured: Vec<usize> = Vec::new();
    let mut b: usize = 0;
    while b < binaries.len()
        invariant
            b <= binaries.len(),
            configured.deep_view() == config.names(),
            unconfigured@ == select(b as nat, binary_unconfigured(*config, binaries@)),
        decreases binaries.len() - b,
    {
        if !has_name(&configured, &binaries[b].name) {
            unconfigured.push(b);
        }
        b = b + 1;
    }
    proof {
        lemma_select(config.tools.len() as nat, tool_found(*config, binaries@));
        lemma_select(config.tools.len() as nat, tool_not_found(*config, binaries@));
        lemma_select(binaries.len() as nat, binary_unconfigured(*config, binaries@));
        assert forall|i: int| 0 <= i < config.tools.len() implies (installed@.contains(i as usize)
            <==> exists|j: int|
            0 <= j < binaries.len() && #[trigger] binaries@[j].name@ == (
            #[trigger] config.tools@[i]).name@) && (missing@.contains(i as usize) <==> !exists|j: int|
            0 <= j < binaries.len() && #[trigger] binaries@[j].name@ == (
            #[trigger] config.tools@[i]).name@) by {
            lemma_scan_partitions_tools(*config, binaries@, i);
            lemma_names_contain(binary_names(binaries@), binaries@, config.tools@[i].name@);
        }
        assert forall|j: int| 0 <= j < binaries.len() implies (unconfigured@.contains(j as usize)
            <==> !exists|i: int|
            0 <= i < config.tools.len() && (#[trigger] config.tools@[i]).name@ == (
            #[trigger] binaries@[j]).name@) by {
            lemma_scan_lists_unconfigured(*config, binaries@, j);
        }
    }
    ScanReport { installed, missing, unconfigured }
}

/// `names` lists the names of `binaries`, so it holds `name` exactly when some binary has it.
proof fn lemma_names_contain(names: Seq<Seq<char>>, binaries: Seq<FoundBinary>, name: Seq<char>)
    requires
        names == binary_names(binaries),
    ensures
        names.contains(name) <==> exists|j: int|
            0 <= j < binaries.len() && #[trigger] binaries[j].name@ == name,
{
    if names.contains(name) {
        let w = choose|w: int| 0 <= w < names.len() && names[w] == name;
        assert(binaries[w].name@ == name);
    }
    if exists|j: int| 0 <= j < binaries.len() && #[trigger] binaries[j].name@ == name {
        let j = choose|j: int| 0 <= j < binaries.len() && #[trigger] binaries[j].name@ == name;
        assert(names[j] == name);
    }
}

/// A found program is listed as not configured exactly when no configured tool has its
/// name, whatever source it was found from.
pub proof fn lemma_scan_lists_unconfigured(config: Config, binaries: Seq<FoundBinary>, j: int)
    requires
        binaries.len() <= usize::MAX,
        0 <= j < binaries.len(),
    ensures
        select(binaries.len() as nat, binary_unconfigured(config, binaries)).contains(j as usize)
            <==> !exists|i: int|
            0 <= i < config.tools.len() && (#[trigger] config.tools@[i]).name@ == binaries[j].name@,
{
    lemma_select(binaries.len() as nat, binary_unconfigured(config, binaries));
    let name = binaries[j].name@;
    if config.names().contains(name) {
        let w = choose|w: int| 0 <= w < config.names().len() && config.names()[w] == name;
        assert(config.tools@[w].name@ == name);
    }
    if exists|i: int| 0 <= i < config.tools.len() && (#[trigger] config.tools@[i]).name@ == name {
        let i = choose|i: int| 0 <= i < config.tools.len() && (#[trigger] config.tools@[i]).name@ == name;
        assert(config.names()[i] == name);
    }
    assert(binary_unconfigured(config, binaries)(j) == !config.names().contains(name));
}

/// Every configured tool is reported exactly once: as installed when a program of its name
/// was found, as missing otherwise.
pub proof fn lemma_scan_partitions_tools(config: Config, binaries: Seq<FoundBinary>, i: int)
    requires
        0 <= i < config.tools.len(),
    ensures
        select(config.tools.len() as nat, tool_found(config, binaries)).contains(i as usize)
            <==> binary_names(binaries).contains(config.tools@[i].name@),
        select(config.tools.len() as nat, tool_not_found(config, binaries)).contains(i as usize)
            <==> !binary_names(binaries).contains(config.tools@[i].name@),
{
    lemma_select(config.tools.len() as nat, tool_found(config, binaries));
    lemma_select(config.tools.len() as nat, tool_not_found(config, binaries));
    assert(tool_found(config, binaries)(i) == binary_names(binaries).contains(
        config.tools@[i].name@,
    ));
    assert(tool_not_found(config, binaries)(i) == !binary_names(binaries).contains(
        config.tools@[i].name@,
    ));
}

/// How many of `n` programs found but not configured are listed by name, and how many are
/// only counted.
pub fn unconfigured_listing(n: usize) -> (r: (usize, usize))
    ensures
        r.0 + r.1 == n,
        r.0 == if n <= UNCONFIGURED_SHOWN { n } else { UNCONFIGURED_SHOWN },
{
    if n > UNCONFIGURED_SHOWN {
        (UNCONFIGURED_SHOWN, n - UNCONFIGURED_SHOWN)
    } else {
        (n, 0)
    }
}

} // verus!
