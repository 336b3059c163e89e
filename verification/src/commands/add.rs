//! `kit add`: turning what the user answers into a new configured tool.

use vstd::prelude::*;
use crate::config::{Config, SourceKind, Tool, ToolEntry};
use crate::scanner::{DetectedSource, FoundBinary};
use crate::text::{chars_of, split_char, split_char_exec, str_eq, string_of, trim, trim_exec};

verus! {

/// Why a tool cannot be added.
#[derive(Debug, Clone, PartialEq)]
pub enum AddError {
    /// A tool is already configured under the name.
    AlreadyConfigured(String),
}

impl AddError {
    /// The message shown for the error.
    pub open spec fn spec_message(&self) -> Seq<char> {
        match self {
            AddError::AlreadyConfigured(n) => "Tool '"@ + n@ + "' is already in your config"@,
        }
    }

    /// The message shown for the error.
    pub fn message(&self) -> (r: String)
        ensures
            r@ == self.spec_message(),
    {
        match self {
            AddError::AlreadyConfigured(n) => {
                let mut r = "Tool '".to_owned();
                r.push_str(n.as_str());
                r.push_str("' is already in your config");
                r
            },
        }
    }
}

/// A tool can be added under `name` unless one is configured under it already.
pub fn check_addable(config: &Config, name: &str) -> (r: Result<(), AddError>)
    ensures
        r is Ok <==> !config.names().contains(name@),
        r matches Err(AddError::AlreadyConfigured(n)) ==> n@ == name@,
{
    if config.contains_tool(name) {
        Err(AddError::AlreadyConfigured(name.to_owned()))
    } else {
        Ok(())
    }
}

/// The pieces kept from `pieces`, in order: each one trimmed, the empty ones dropped.
pub open spec fn trimmed_nonempty(pieces: Seq<Seq<char>>) -> Seq<Seq<char>>
    decreases pieces.len(),
{
    if pieces.len() == 0 {
        Seq::empty()
    } else {
        let r = trimmed_nonempty(pieces.drop_last());
        let t = trim(pieces.last());
        if t.len() == 0 {
            r
        } else {
            r.push(t)
        }
    }
}

/// The aliases typed as comma-separated text: the pieces between commas, trimmed, the
/// empty ones dropped.
pub open spec fn alias_list(text: Seq<char>) -> Seq<Seq<char>> {
    trimmed_nonempty(split_char(text, ','))
}

/// No alias read from the text is empty, and each is a trimmed piece of it.
pub proof fn lemma_alias_list_nonempty(text: Seq<char>)
    ensures
        forall|k: int|
            0 <= k < alias_list(text).len() ==> (#[trigger] alias_list(text)[k]).len() > 0
                && split_char(text, ',').map_values(|p: Seq<char>| trim(p)).contains(
                alias_list(text)[k],
            ),
{
    lemma_trimmed_nonempty(split_char(text, ','));
}

/// What `trimmed_nonempty` keeps is non-empty, and each is one of the trimmed pieces.
proof fn lemma_trimmed_nonempty(pieces: Seq<Seq<char>>)
    ensures
        forall|k: int|
            0 <= k < trimmed_nonempty(pieces).len() ==> (#[trigger] trimmed_nonempty(pieces)[k]).len()
                > 0 && pieces.map_values(|p: Seq<char>| trim(p)).contains(
                trimmed_nonempty(pieces)[k],
            ),
    decreases pieces.len(),
{
    if pieces.len() > 0 {
        let prev = pieces.drop_last();
        lemma_trimmed_nonempty(prev);
        let r = trimmed_nonempty(prev);
        let all = pieces.map_values(|p: Seq<char>| trim(p));
        let before = prev.map_values(|p: Seq<char>| trim(p));
        assert forall|k: int| 0 <= k < trimmed_nonempty(pieces).len() implies (
        #[trigger] trimmed_nonempty(pieces)[k]).len() > 0 && all.contains(trimmed_nonempty(pieces)[k]) by {
            let x = trimmed_nonempty(pieces)[k];
            if k < r.len() {
                assert(x == r[k]);
                let w = choose|w: int| 0 <= w < before.len() && before[w] == x;
                assert(all[w] == before[w]);
            } else {
                assert(x == trim(pieces.last()));
                assert(all[pieces.len() - 1] == x);
            }
        }
    }
}

/// The aliases typed as comma-separated text (see `alias_list`).
pub fn parse_aliases(text: &str) -> (r: Vec<String>)
    ensures
        r.deep_view() == alias_list(text@),
{
    let cs = chars_of(text);
    let pieces = split_char_exec(cs.as_slice(), ',');
    let ghost all = pieces.deep_view();
    let mut r: Vec<String> = Vec::new();
    let mut i: usize = 0;
    assert(all.take(0) =~= Seq::<Seq<char>>::empty());
    while i < pieces.len()
        invariant
            i <= pieces.len(),
            all == pieces.deep_view(),
            r.deep_view() == trimmed_nonempty(all.take(i as int)),
        decreases pieces.len() - i,
    {
        let ghost before = r.deep_view();
        assert(all.take(i + 1).drop_last() =~= all.take(i as int));
        assert(all.take(i + 1).last() == pieces@[i as int]@);
        let pc = chars_of(pieces[i].as_str());
        let t = trim_exec(pc.as_slice());
        if t.len() > 0 {
            let a = string_of(t.as_slice());
            r.push(a);
            assert(r.deep_view() =~= before.push(t@));
        }
        i = i + 1;
    }
    assert(all.take(pieces.len() as int) =~= all);
    r
}

/// The source offered first for a new tool: `mise` for a program that looks installed by
/// mise, `brew` otherwise.
pub open spec fn spec_default_source(detected: Option<DetectedSource>) -> SourceKind {
    match detected {
        Some(DetectedSource::Mise) => SourceKind::Mise,
        _ => SourceKind::Brew,
    }
}

/// The source offered first for a new tool (see `spec_default_source`).
pub fn default_source(detected: Option<DetectedSource>) -> (r: SourceKind)
    ensures
        r == spec_default_source(detected),
{
    match detected {
        Some(DetectedSource::Mise) => SourceKind::Mise,
        _ => SourceKind::Brew,
    }
}

/// Where the scan says the program `name` came from: the source of the first program
/// found under that name.
pub open spec fn found_source(found: Seq<FoundBinary>, name: Seq<char>) -> Option<DetectedSource>
    decreases found.len(),
{
    if found.len() == 0 {
        None
    } else {
        match found_source(found.drop_last(), name) {
            Some(d) => Some(d),
            None => if found.last().name@ == name {
                Some(found.last().source)
            } else {
                None
            },
        }
    }
}

/// A source found within a prefix stays the one found in the whole.
proof fn lemma_found_source_prefix(found: Seq<FoundBinary>, name: Seq<char>, n: int)
    requires
        0 <= n <= found.len(),
        found_source(found.take(n), name) is Some,
    ensures
        found_source(found, name) == found_source(found.take(n), name),
    decreases found.len() - n,
{
    if n < found.len() {
        assert(found.take(n + 1).drop_last() =~= found.take(n));
        lemma_found_source_prefix(found, name, n + 1);
    } else {
        assert(found.take(n) =~= found);
    }
}

/// Where the scan says the program `name` came from (see `found_source`).
pub fn source_of(found: &Vec<FoundBinary>, name: &str) -> (r: Option<DetectedSource>)
    ensures
        r == found_source(found@, name@),
{
    let mut i: usize = 0;
    assert(found@.take(0) =~= Seq::<FoundBinary>::empty());
    while i < found.len()
        invariant
            i <= found.len(),
            found_source(found@.take(i as int), name@) is None,
        decreases found.len() - i,
    {
        assert(found@.take(i + 1).drop_last() =~= found@.take(i as int));
        assert(found@.take(i + 1).last() == found@[i as int]);
        if str_eq(found[i].name.as_str(), name) {
            proof {
                lemma_found_source_prefix(found@, name@, i + 1);
            }
            return Some(found[i].source);
        }
        i = i + 1;
    }
    assert(found@.take(found.len() as int) =~= found@);
    None
}

/// The tool described by the answers to `kit add`'s questions, for the chosen source:
/// the aliases as comma-separated text; for mise, the version (none where left empty);
/// for curl, the install URL and the binary (the tool's name where left empty).
pub fn new_tool(
    kind: SourceKind,
    name: &str,
    aliases_text: &str,
    version_text: &str,
    install_url: &str,
    binary_text: &str,
) -> (r: Tool)
    ensures
        r.spec_kind() == kind,
        r.alias_names() == alias_list(aliases_text@),
        r matches Tool::Mise { version, .. } ==> (if version_text@.len() == 0 {
            version is None
        } else {
            version matches Some(v) && v@ == version_text@
        }),
        r matches Tool::Curl { install_url: u, binary: b, .. } ==> u@ == install_url@ && b@ == (
        if binary_text@.len() == 0 {
            name@
        } else {
            binary_text@
        }),
{
    let aliases = parse_aliases(aliases_text);
    match kind {
        SourceKind::Brew => Tool::Brew { aliases },
        SourceKind::Mise => {
            let version = if chars_of(version_text).len() == 0 {
                None
            } else {
                Some(version_text.to_owned())
            };
            Tool::Mise { version, aliases }
        },
        SourceKind::Curl => {
            let binary = if chars_of(binary_text).len() == 0 {
                name.to_owned()
            } else {
                binary_text.to_owned()
            };
            Tool::Curl { install_url: install_url.to_owned(), binary, aliases }
        },
    }
}

impl Config {
    /// Adds `tool` under `name` at the end, unless a tool is configured under that name
    /// already, which is an error and leaves the configuration as it was. Names stay
    /// distinct.
    pub fn add_tool(&mut self, name: String, tool: Tool) -> (r: Result<(), AddError>)
        requires
            old(self).wf(),
        ensures
            r is Ok <==> !old(self).names().contains(name@),
            r matches Err(e) ==> e == AddError::AlreadyConfigured(name) && *final(self)
                == *old(self),
            r is Ok ==> final(self).config == old(self).config && final(self).tools@
                == old(self).tools@.push(ToolEntry { name, tool }),
            final(self).wf(),
    {
        if self.contains_tool(name.as_str()) {
            return Err(AddError::AlreadyConfigured(name));
        }
        let ghost before = self.tools@;
        self.tools.push(ToolEntry { name, tool });
        proof {
            assert forall|i: int|
                0 <= i < before.len() implies #[trigger] before[i].name@ != self.tools@[before.len() as int].name@ by {
                assert(old(self).names()[i] == before[i].name@);
            }
        }
        Ok(())
    }
}

} // verus!
