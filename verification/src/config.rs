//! The configuration model of `kit.toml`: global settings and the configured tools.

use vstd::prelude::*;
use crate::paths::{join, joined};
use crate::system;
use crate::text::{concat, str_eq};

verus! {

/// The three places a tool can come from.
#[derive(Debug, Clone, Copy, PartialEq, Eq, Structural)]
pub enum SourceKind {
    Brew,
    Mise,
    Curl,
}

/// The name of a source as it appears in `kit.toml` and in messages.
pub open spec fn source_kind_name(k: SourceKind) -> Seq<char> {
    match k {
        SourceKind::Brew => seq!['b', 'r', 'e', 'w'],
        SourceKind::Mise => seq!['m', 'i', 's', 'e'],
        SourceKind::Curl => seq!['c', 'u', 'r', 'l'],
    }
}

impl SourceKind {
    /// `"brew"`, `"mise"` or `"curl"`.
    pub fn name(&self) -> (r: &'static str)
        ensures
            r@ == source_kind_name(*self),
    {
        match self {
            SourceKind::Brew => {
                proof {
                    reveal_strlit("brew");
                }
                assert("brew"@ =~= source_kind_name(*self));
                "brew"
            },
            SourceKind::Mise => {
                proof {
                    reveal_strlit("mise");
                }
                assert("mise"@ =~= source_kind_name(*self));
                "mise"
            },
            SourceKind::Curl => {
                proof {
                    reveal_strlit("curl");
                }
                assert("curl"@ =~= source_kind_name(*self));
                "curl"
            },
        }
    }
}

/// Settings that apply to every tool: where the managed `bin` directory is and which
/// shell rc file `kit` maintains.
#[derive(Debug, Clone, PartialEq)]
pub struct GlobalConfig {
    pub bin_dir: String,
    pub shell_rc: String,
}

impl GlobalConfig {
    /// The default settings for the given home directory: `<home>/.kit/bin` and
    /// `<home>/.zshrc`.
    pub fn default_in(home: &Option<String>) -> (r: Self)
        ensures
            r.bin_dir@ == default_bin_dir_for(opt_view(*home)),
            r.shell_rc@ == default_shell_rc_for(opt_view(*home)),
    {
        GlobalConfig { bin_dir: default_bin_dir_in(home), shell_rc: default_shell_rc_in(home) }
    }
}

impl Default for GlobalConfig {
    /// The default settings, under the home directory that the environment reports.
    fn default() -> (r: Self)
        ensures
            exists|home: Option<Seq<char>>| system::home_dir_gave(home) &&
                r.bin_dir@ == default_bin_dir_for(home) && r.shell_rc@ == default_shell_rc_for(
                    home,
                ),
    {
        let home = system::home_dir();
        proof {
            assert(system::home_dir_gave(opt_view(home)));
        }
        GlobalConfig::default_in(&home)
    }
}

/// One configured tool, by the source it is installed from.
#[derive(Debug, Clone, PartialEq)]
pub enum Tool {
    Brew { aliases: Vec<String> },
    Mise { version: Option<String>, aliases: Vec<String> },
    Curl { install_url: String, binary: String, aliases: Vec<String> },
}

impl Tool {
    /// The aliases of the tool, whichever its source.
    pub open spec fn alias_names(&self) -> Seq<Seq<char>> {
        match self {
            Tool::Brew { aliases } => aliases.deep_view(),
            Tool::Mise { aliases, .. } => aliases.deep_view(),
            Tool::Curl { aliases, .. } => aliases.deep_view(),
        }
    }

    /// The source the tool is installed from.
    pub open spec fn spec_kind(&self) -> SourceKind {
        match self {
            Tool::Brew { .. } => SourceKind::Brew,
            Tool::Mise { .. } => SourceKind::Mise,
            Tool::Curl { .. } => SourceKind::Curl,
        }
    }

    /// The aliases declared for the tool.
    pub fn aliases(&self) -> (r: &[String])
        ensures
            r.deep_view() == self.alias_names(),
    {
        match self {
            Tool::Brew { aliases } => aliases.as_slice(),
            Tool::Mise { aliases, .. } => aliases.as_slice(),
            Tool::Curl { aliases, .. } => aliases.as_slice(),
        }
    }

    /// The source the tool is installed from.
    pub fn kind(&self) -> (k: SourceKind)
        ensures
            k == self.spec_kind(),
    {
        match self {
            Tool::Brew { .. } => SourceKind::Brew,
            Tool::Mise { .. } => SourceKind::Mise,
            Tool::Curl { .. } => SourceKind::Curl,
        }
    }
}

/// A tool under the name it is configured with (the key of its `[tools.<name>]` table).
#[derive(Debug, Clone, PartialEq)]
pub struct ToolEntry {
    pub name: String,
    pub tool: Tool,
}

/// The whole configuration. Each tool name occurs once (see `wf`), as the keys of the
/// `[tools]` table do.
#[derive(Debug, Clone, PartialEq)]
pub struct Config {
    pub config: GlobalConfig,
    pub tools: Vec<ToolEntry>,
}

/// Why a configuration could not be loaded.
#[derive(Debug, Clone, PartialEq)]
pub enum ConfigError {
    /// The file could not be read; the reason as the system gave it.
    Io(String),
    /// The file is not a valid configuration; the reason as the parser gave it.
    Parse(String),
    /// No file at the path.
    NotFound(String),
}

impl ConfigError {
    /// The message shown for the error.
    pub open spec fn spec_message(&self) -> Seq<char> {
        match self {
            ConfigError::Io(m) => "Failed to read config file: "@ + m@,
            ConfigError::Parse(m) => "Failed to parse config: "@ + m@,
            ConfigError::NotFound(p) => "Config file not found at "@ + p@,
        }
    }

    /// The message shown for the error.
    pub fn message(&self) -> (r: String)
        ensures
            r@ == self.spec_message(),
    {
        match self {
            ConfigError::Io(m) => concat("Failed to read config file: ", m.as_str()),
            ConfigError::Parse(m) => concat("Failed to parse config: ", m.as_str()),
            ConfigError::NotFound(p) => concat("Config file not found at ", p.as_str()),
        }
    }
}

/// `kit` as a path component.
pub open spec fn kit_component() -> Seq<char> {
    seq!['k', 'i', 't']
}

/// Where `kit.toml` lives, given the home directory: `<home>/.config/kit/kit.toml`, or
/// `./kit/kit.toml` where there is no home directory.
pub open spec fn config_path_for(home: Option<Seq<char>>) -> Seq<char> {
    let dir = match home {
        Some(h) => joined(h, seq!['.', 'c', 'o', 'n', 'f', 'i', 'g']),
        None => seq!['.'],
    };
    joined(joined(dir, kit_component()), seq!['k', 'i', 't', '.', 't', 'o', 'm', 'l'])
}

/// `<home>/.kit/bin`, with an empty home where there is none.
pub open spec fn default_bin_dir_for(home: Option<Seq<char>>) -> Seq<char> {
    let base = match home {
        Some(h) => h,
        None => Seq::<char>::empty(),
    };
    joined(joined(base, seq!['.', 'k', 'i', 't']), seq!['b', 'i', 'n'])
}

/// `<home>/.zshrc`, with an empty home where there is none.
pub open spec fn default_shell_rc_for(home: Option<Seq<char>>) -> Seq<char> {
    let base = match home {
        Some(h) => h,
        None => Seq::<char>::empty(),
    };
    joined(base, seq!['.', 'z', 's', 'h', 'r', 'c'])
}

/// The text an optional string holds, or `None`.
pub open spec fn opt_view(o: Option<String>) -> Option<Seq<char>> {
    match o {
        Some(s) => Some(s@),
        None => None,
    }
}

/// The bin directory used when a `[config]` table leaves `bin_dir` out, for the given
/// home directory.
pub fn default_bin_dir_in(home: &Option<String>) -> (r: String)
    ensures
        r@ == default_bin_dir_for(opt_view(*home)),
{
    let base = match home {
        Some(h) => h.clone(),
        None => String::new(),
    };
    proof {
        reveal_strlit(".kit");
        reveal_strlit("bin");
    }
    assert(".kit"@ =~= seq!['.', 'k', 'i', 't']);
    assert("bin"@ =~= seq!['b', 'i', 'n']);
    let k = join(base.as_str(), ".kit");
    join(k.as_str(), "bin")
}

/// The shell rc used when a `[config]` table leaves `shell_rc` out, for the given home
/// directory.
pub fn default_shell_rc_in(home: &Option<String>) -> (r: String)
    ensures
        r@ == default_shell_rc_for(opt_view(*home)),
{
    let base = match home {
        Some(h) => h.clone(),
        None => String::new(),
    };
    proof {
        reveal_strlit(".zshrc");
    }
    assert(".zshrc"@ =~= seq!['.', 'z', 's', 'h', 'r', 'c']);
    join(base.as_str(), ".zshrc")
}

/// The bin directory used when a `[config]` table leaves `bin_dir` out: under the home
/// directory that the environment reports.
pub fn default_bin_dir() -> (r: String)
    ensures
        exists|home: Option<Seq<char>>| system::home_dir_gave(home) && r@ == default_bin_dir_for(home),
{
    let home = system::home_dir();
    proof {
        assert(system::home_dir_gave(opt_view(home)));
    }
    default_bin_dir_in(&home)
}

/// The shell rc used when a `[config]` table leaves `shell_rc` out: under the home
/// directory that the environment reports.
pub fn default_shell_rc() -> (r: String)
    ensures
        exists|home: Option<Seq<char>>| system::home_dir_gave(home) && r@ == default_shell_rc_for(home),
{
    let home = system::home_dir();
    proof {
        assert(system::home_dir_gave(opt_view(home)));
    }
    default_shell_rc_in(&home)
}

impl Config {
    /// No tool name occurs twice.
    pub open spec fn wf(&self) -> bool {
        forall|i: int, j: int|
            0 <= i < self.tools.len() && 0 <= j < self.tools.len() && i != j
                ==> self.tools@[i].name@ != self.tools@[j].name@
    }

    /// The configured names, in order.
    pub open spec fn names(&self) -> Seq<Seq<char>> {
        self.tools@.map_values(|e: ToolEntry| e.name@)
    }

    /// Where `kit.toml` lives for the given home directory: `<home>/.config/kit/kit.toml`,
    /// or `./kit/kit.toml` where there is none.
    pub fn config_path_in(home: &Option<String>) -> (r: String)
        ensures
            r@ == config_path_for(opt_view(*home)),
    {
        proof {
            reveal_strlit(".");
            reveal_strlit(".config");
            reveal_strlit("kit");
            reveal_strlit("kit.toml");
        }
        assert("."@ =~= seq!['.']);
        assert(".config"@ =~= seq!['.', 'c', 'o', 'n', 'f', 'i', 'g']);
        assert("kit"@ =~= kit_component());
        assert("kit.toml"@ =~= seq!['k', 'i', 't', '.', 't', 'o', 'm', 'l']);
        let dir = match home {
            Some(h) => join(h.as_str(), ".config"),
            None => ".".to_owned(),
        };
        let k = join(dir.as_str(), "kit");
        join(k.as_str(), "kit.toml")
    }

    /// Where `kit.toml` lives: `~/.config/kit/kit.toml`, for the home directory that the
    /// environment reports.
    pub fn config_path() -> (r: String)
        ensures
            exists|home: Option<Seq<char>>| system::home_dir_gave(home) && r@ == config_path_for(home),
    {
        let home = system::home_dir();
        proof {
            assert(system::home_dir_gave(opt_view(home)));
        }
        Self::config_path_in(&home)
    }

    /// The loaded configuration, or the default one where loading failed. A loaded
    /// configuration has distinct tool names, as the keys of its `[tools]` table do.
    pub fn load_or_default(loaded: Result<Config, ConfigError>) -> (r: Config)
        requires
            loaded matches Ok(c) ==> c.wf(),
        ensures
            loaded matches Ok(c) ==> r == c,
            loaded is Err ==> r.tools@.len() == 0 && exists|home: Option<Seq<char>>| system::home_dir_gave(home) &&
                r.config.bin_dir@ == default_bin_dir_for(home) && r.config.shell_rc@
                    == default_shell_rc_for(home),
            r.wf(),
    {
        match loaded {
            Ok(c) => c,
            Err(_) => Config::default(),
        }
    }

    /// Whether no tool name occurs twice.
    pub fn names_distinct(&self) -> (b: bool)
        ensures
            b == self.wf(),
    {
        let n = self.tools.len();
        let mut i: usize = 0;
        while i < n
            invariant
                i <= n == self.tools.len(),
                forall|a: int, b: int|
                    0 <= a < i && 0 <= b < n && a != b ==> self.tools@[a].name@
                        != self.tools@[b].name@,
            decreases n - i,
        {
            let mut j: usize = 0;
            while j < n
                invariant
                    i < n == self.tools.len(),
                    j <= n,
                    forall|a: int, b: int|
                        0 <= a < i && 0 <= b < n && a != b ==> self.tools@[a].name@
                            != self.tools@[b].name@,
                    forall|b: int|
                        0 <= b < j && b != i ==> self.tools@[i as int].name@ != self.tools@[b].name@,
                decreases n - j,
            {
                if j != i && str_eq(self.tools[i].name.as_str(), self.tools[j].name.as_str()) {
                    return false;
                }
                j = j + 1;
            }
            i = i + 1;
        }
        true
    }

    /// The default configuration for the given home directory: no tools, and the default
    /// settings.
    pub fn default_in(home: &Option<String>) -> (r: Config)
        ensures
            r.tools@.len() == 0,
            r.config.bin_dir@ == default_bin_dir_for(opt_view(*home)),
            r.config.shell_rc@ == default_shell_rc_for(opt_view(*home)),
            r.wf(),
    {
        Config { config: GlobalConfig::default_in(home), tools: Vec::new() }
    }

    /// The tool configured under `name`, if any (the first entry with that name).
    pub fn tool(&self, name: &str) -> (r: Option<&Tool>)
        ensures
            r matches Some(t) ==> exists|i: int|
                0 <= i < self.tools.len() && self.tools@[i].name@ == name@ && self.tools@[i].tool
                    == *t && forall|j: int| 0 <= j < i ==> #[trigger] self.tools@[j].name@ != name@,
            self.wf() ==> (r matches Some(t) ==> forall|i: int|
                0 <= i < self.tools.len() && #[trigger] self.tools@[i].name@ == name@
                    ==> self.tools@[i].tool == *t),
            r is None ==> !self.names().contains(name@),
    {
        let mut i: usize = 0;
        while i < self.tools.len()
            invariant
                i <= self.tools.len(),
                forall|j: int| 0 <= j < i ==> #[trigger] self.tools@[j].name@ != name@,
            decreases self.tools.len() - i,
        {
            if str_eq(self.tools[i].name.as_str(), name) {
                return Some(&self.tools[i].tool);
            }
            i = i + 1;
        }
        proof {
            if self.names().contains(name@) {
                let k = choose|k: int| 0 <= k < self.names().len() && self.names()[k] == name@;
                assert(self.tools@[k].name@ == name@);
            }
        }
        None
    }

    /// Whether a tool is configured under `name`.
    pub fn contains_tool(&self, name: &str) -> (b: bool)
        ensures
            b == self.names().contains(name@),
    {
        let r = self.tool(name);
        proof {
            if r is Some {
                let i = choose|i: int|
                    0 <= i < self.tools.len() && self.tools@[i].name@ == name@ && self.tools@[i].tool
                        == *r->0 && forall|j: int|
                        0 <= j < i ==> #[trigger] self.tools@[j].name@ != name@;
                assert(self.names()[i] == name@);
            }
        }
        r.is_some()
    }
}

impl Default for Config {
    /// No tools, and the default settings under the home directory that the environment
    /// reports.
    fn default() -> (r: Self)
        ensures
            r.tools@.len() == 0,
            exists|home: Option<Seq<char>>| system::home_dir_gave(home) &&
                r.config.bin_dir@ == default_bin_dir_for(home) && r.config.shell_rc@
                    == default_shell_rc_for(home),
            r.wf(),
    {
        Config { config: GlobalConfig::default(), tools: Vec::new() }
    }
}

} // verus!
