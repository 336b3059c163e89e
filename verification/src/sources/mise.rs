//! mise, the runtime version manager.

use vstd::prelude::*;
use crate::json::{Json, lookup, lookup_exec};
use crate::text::{chars_of, matches_at_exec, starts_with};

verus! {

/// Tools installed with `mise install`.
pub struct Mise;

/// What `mise install` and `mise use` are given: `name@version`, or `name` alone.
pub open spec fn tool_spec_text(name: Seq<char>, version: Option<Seq<char>>) -> Seq<char> {
    match version {
        Some(v) => name + seq!['@'] + v,
        None => name,
    }
}

/// The version string of one entry that `mise ls` lists for a tool: its `"version"` member
/// where it is an object with a string there.
pub open spec fn entry_version(entry: Json) -> Option<Seq<char>> {
    match entry {
        Json::Object(members) => match lookup(members@, "version"@) {
            Some(Json::Str(s)) => Some(s@),
            _ => None,
        },
        _ => None,
    }
}

/// What a `mise ls --current --json` listing says of a tool: it is installed when the
/// listing is an object with the tool's name as a key and, where a version is asked for and
/// the tool's value is an array, some entry's version begins with it.
pub open spec fn listing_says_installed(
    listing: Option<Json>,
    name: Seq<char>,
    version: Option<Seq<char>>,
) -> bool {
    match listing {
        Some(Json::Object(members)) => match lookup(members@, name) {
            None => false,
            Some(value) => match version {
                None => true,
                Some(v) => match value {
                    Json::Array(entries) => exists|i: int|
                        0 <= i < entries.len() && (entry_version(#[trigger] entries@[i]) matches Some(
                            s,
                        ) && starts_with(s, v)),
                    _ => true,
                },
            },
        },
        _ => false,
    }
}

/// `s` begins with `v`.
pub open spec fn begins_with(s: Seq<char>, v: Seq<char>) -> bool {
    v.len() <= s.len() && s.subrange(0, v.len() as int) == v
}

/// Where the listing holds an array of entries for the tool, the tool counts as installed
/// at version `v` exactly when the version string of some entry begins with `v` (so
/// `20.18.0` is version `20` and `20.18`, not version `18`).
pub proof fn lemma_installed_version_is_a_prefix(listing: Option<Json>, name: Seq<char>, v: Seq<char>)
    ensures
        match listing {
            Some(Json::Object(members)) => match lookup(members@, name) {
                Some(Json::Array(entries)) => listing_says_installed(listing, name, Some(v))
                    <==> exists|i: int|
                    0 <= i < entries.len() && (entry_version(#[trigger] entries@[i]) matches Some(
                        s,
                    ) && begins_with(s, v)),
                _ => true,
            },
            _ => true,
        },
{
    match listing {
        Some(Json::Object(members)) => match lookup(members@, name) {
            Some(Json::Array(entries)) => {
                if listing_says_installed(listing, name, Some(v)) {
                    let i = choose|i: int|
                        0 <= i < entries.len() && (entry_version(#[trigger] entries@[i]) matches Some(
                            s,
                        ) && starts_with(s, v));
                    let s = entry_version(entries@[i])->0;
                    assert(begins_with(s, v));
                }
                if exists|i: int|
                    0 <= i < entries.len() && (entry_version(#[trigger] entries@[i]) matches Some(
                        s,
                    ) && begins_with(s, v)) {
                    let i = choose|i: int|
                        0 <= i < entries.len() && (entry_version(#[trigger] entries@[i]) matches Some(
                            s,
                        ) && begins_with(s, v));
                    let s = entry_version(entries@[i])->0;
                    assert(starts_with(s, v));
                }
            },
            _ => {},
        },
        _ => {},
    }
}

/// The text an optional `&str` holds.
pub open spec fn opt_str_view(o: Option<&str>) -> Option<Seq<char>> {
    match o {
        Some(s) => Some(s@),
        None => None,
    }
}

impl Mise {
    /// `name@version`, or `name` where no version is given.
    pub fn tool_spec(name: &str, version: Option<&str>) -> (r: String)
        ensures
            r@ == tool_spec_text(name@, opt_str_view(version)),
    {
        match version {
            Some(v) => {
                let mut r = name.to_owned();
                r.push('@');
                r.push_str(v);
                r
            },
            None => name.to_owned(),
        }
    }

    /// Whether one listed entry has a version that begins with `v`.
    fn entry_matches(entry: &Json, v: &str) -> (b: bool)
        ensures
            b == (entry_version(*entry) matches Some(s) && starts_with(s, v@)),
    {
        match entry {
            Json::Object(members) => {
                proof {
                    reveal_strlit("version");
                }
                match lookup_exec(members, "version") {
                    Some(Json::Str(s)) => {
                        let sc = chars_of(s.as_str());
                        let vc = chars_of(v);
                        matches_at_exec(sc.as_slice(), vc.as_slice(), 0)
                    },
                    _ => false,
                }
            },
            _ => false,
        }
    }

    /// Whether a `mise ls --current --json` listing (`None` where mise could not be run or
    /// its output not parsed) shows the tool `name` installed, at a version that begins with
    /// `version` where one is given.
    #[verifier::loop_isolation(false)]
    pub fn listing_reports_installed(
        listing: &Option<Json>,
        name: &str,
        version: Option<&str>,
    ) -> (b: bool)
        ensures
            b == listing_says_installed(*listing, name@, opt_str_view(version)),
            match (*listing, version) {
                (Some(Json::Object(members)), Some(v)) => match lookup(members@, name@) {
                    Some(Json::Array(entries)) => b <==> exists|i: int|
                        0 <= i < entries.len() && (entry_version(#[trigger] entries@[i]) matches Some(
                            s,
                        ) && begins_with(s, v@)),
                    _ => true,
                },
                _ => true,
            },
    {
        proof {
            if version is Some {
                lemma_installed_version_is_a_prefix(*listing, name@, version->0@);
            }
        }
        match listing {
            Some(Json::Object(members)) => match lookup_exec(members, name) {
                None => false,
                Some(value) => match version {
                    None => true,
                    Some(v) => match value {
                        Json::Array(entries) => {
                            let mut i: usize = 0;
                            while i < entries.len()
                                invariant
                                    i <= entries.len(),
                                    forall|j: int|
                                        0 <= j < i ==> !(entry_version(#[trigger] entries@[j]) matches Some(s)
                                            && starts_with(s, v@)),
                                decreases entries.len() - i,
                            {
                                if Self::entry_matches(&entries[i], v) {
                                    assert(entry_version(entries@[i as int]) matches Some(s)
                                        && starts_with(s, v@));
                                    return true;
                                }
                                i = i + 1;
                            }
                            false
                        },
                        _ => true,
                    },
                },
            },
            _ => false,
        }
    }
}

} // verus!
