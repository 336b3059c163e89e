//! `kit install`: which configured tools to install.

use vstd::prelude::*;
use crate::commands::{count_found, count_true};
use crate::config::{Config, Tool, ToolEntry, opt_view};
use crate::sources::mise::{Mise, tool_spec_text};
use crate::text::str_eq;

verus! {

/// Why `kit install` has nothing to install.
#[derive(Debug, Clone, PartialEq)]
pub enum InstallError {
    /// Neither a tool name nor `--all` was given.
    NothingSpecified,
    /// The named tool is not in the configuration.
    NotConfigured(String),
}

impl InstallError {
    /// The message shown for the error.
    pub open spec fn spec_message(&self) -> Seq<char> {
        match self {
            InstallError::NothingSpecified => "Specify a tool name or use --all"@,
            InstallError::NotConfigured(n) => "Tool '"@ + n@ + "' not found in config"@,
        }
    }

    /// The message shown for the error.
    pub fn message(&self) -> (r: String)
        ensures
            r@ == self.spec_message(),
    {
        match self {
            InstallError::NothingSpecified => "Specify a tool name or use --all".to_owned(),
            InstallError::NotConfigured(n) => {
                let mut r = "Tool '".to_owned();
                r.push_str(n.as_str());
                r.push_str("' not found in config");
                r
            },
        }
    }
}

/// The indices of the tools to install: every tool with `--all`; else the first tool
/// configured under the given name; an error where no name is given or it is not
/// configured.
#[verifier::loop_isolation(false)]
pub fn install_targets(config: &Config, tool: &Option<String>, all: bool) -> (r: Result<
    Vec<usize>,
    InstallError,
>)
    ensures
        all ==> (r matches Ok(v) && v@.len() == config.tools.len() && forall|i: int|
            0 <= i < v@.len() ==> #[trigger] v@[i] == i),
        !all && tool is None ==> r == Err::<Vec<usize>, InstallError>(InstallError::NothingSpecified),
        !all && tool is Some ==> match r {
            Ok(v) => v@.len() == 1 && v@[0] < config.tools.len() && config.tools@[v@[0] as int].name@
                == tool->0@ && forall|j: int|
                0 <= j < v@[0] ==> #[trigger] config.tools@[j].name@ != tool->0@,
            Err(e) => e == InstallError::NotConfigured(tool->0) && !config.names().contains(
                tool->0@,
            ),
        },
{
    if all {
        let mut v: Vec<usize> = Vec::new();
        let mut i: usize = 0;
        while i < config.tools.len()
            invariant
                i <= config.tools.len(),
                v@.len() == i,
                forall|k: int| 0 <= k < i ==> #[trigger] v@[k] == k,
            decreases config.tools.len() - i,
        {
            v.push(i);
            i = i + 1;
        }
        return Ok(v);
    }
    match tool {
        None => Err(InstallError::NothingSpecified),
        Some(name) => {
            let mut i: usize = 0;
            while i < config.tools.len()
                invariant
                    i <= config.tools.len(),
                    forall|j: int| 0 <= j < i ==> #[trigger] config.tools@[j].name@ != name@,
                decreases config.tools.len() - i,
            {
                if str_eq(config.tools[i].name.as_str(), name.as_str()) {
                    let mut v: Vec<usize> = Vec::new();
                    v.push(i);
                    return Ok(v);
                }
                i = i + 1;
            }
            proof {
                if config.names().contains(name@) {
                    let k = choose|k: int| 0 <= k < config.names().len() && config.names()[k] == name@;
                    assert(config.tools@[k].name@ == name@);
                }
            }
            Err(InstallError::NotConfigured(name.clone()))
        },
    }
}

/// How to find out whether a configured tool is installed already.
#[derive(Debug, Clone, PartialEq)]
pub enum InstallCheck {
    /// Ask Homebrew whether it lists the formula.
    Brew(String),
    /// Ask mise whether it reports the tool, at the version where one is configured.
    Mise { name: String, version: Option<String> },
    /// Look for the binary on `PATH`.
    Curl(String),
}

/// What installing a configured tool comes to once it is known whether it is installed.
#[derive(Debug, Clone, PartialEq)]
pub enum InstallAction {
    /// It is installed already: nothing is done.
    Skip,
    /// `brew install <formula>`.
    Brew(String),
    /// `mise install <spec>`, then `mise use --global <spec>`.
    Mise(String),
    /// The install script at the URL, fetched with curl and run with `sh`, for the binary.
    Curl { install_url: String, binary: String },
}

/// How to find out whether the tool is installed: by its name for brew and mise (with
/// the configured version for mise), by its binary for curl.
pub fn install_check(entry: &ToolEntry) -> (r: InstallCheck)
    ensures
        match entry.tool {
            Tool::Brew { .. } => r matches InstallCheck::Brew(n) && n@ == entry.name@,
            Tool::Mise { version, .. } => r matches InstallCheck::Mise { name, version: v }
                && name@ == entry.name@ && opt_view(v) == opt_view(version),
            Tool::Curl { binary, .. } => r matches InstallCheck::Curl(b) && b@ == binary@,
        },
{
    match &entry.tool {
        Tool::Brew { .. } => InstallCheck::Brew(entry.name.clone()),
        Tool::Mise { version, .. } => {
            let v = match version {
                Some(x) => Some(x.clone()),
                None => None,
            };
            InstallCheck::Mise { name: entry.name.clone(), version: v }
        },
        Tool::Curl { binary, .. } => InstallCheck::Curl(binary.clone()),
    }
}

/// What to do for the tool: nothing where it is installed already, else the install
/// command of its source (for mise, `<name>@<version>` or the bare name).
pub fn install_action(entry: &ToolEntry, installed: bool) -> (r: InstallAction)
    ensures
        installed ==> r == InstallAction::Skip,
        !installed ==> match entry.tool {
            Tool::Brew { .. } => r matches InstallAction::Brew(n) && n@ == entry.name@,
            Tool::Mise { version, .. } => r matches InstallAction::Mise(sp) && sp@
                == tool_spec_text(entry.name@, opt_view(version)),
            Tool::Curl { install_url, binary, .. } => r matches InstallAction::Curl {
                install_url: u,
                binary: b,
            } && u@ == install_url@ && b@ == binary@,
        },
{
    if installed {
        return InstallAction::Skip;
    }
    match &entry.tool {
        Tool::Brew { .. } => InstallAction::Brew(entry.name.clone()),
        Tool::Mise { version, .. } => {
            let v = match version {
                Some(x) => Some(x.as_str()),
                None => None,
            };
            InstallAction::Mise(Mise::tool_spec(entry.name.as_str(), v))
        },
        Tool::Curl { install_url, binary, .. } => InstallAction::Curl {
            install_url: install_url.clone(),
            binary: binary.clone(),
        },
    }
}

/// The tally of `kit install --all`: how many tools were installed (or were already) and
/// how many failed, one outcome per tool.
pub fn install_tally(outcomes: &Vec<bool>) -> (r: (usize, usize))
    ensures
        r.0 == count_true(outcomes@),
        r.0 + r.1 == outcomes.len(),
{
    let ok = count_found(outcomes);
    (ok, outcomes.len() - ok)
}

} // verus!
