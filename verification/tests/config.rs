use kit::config::{
    default_bin_dir_in, default_shell_rc_in, Config, ConfigError, GlobalConfig, SourceKind, Tool,
    ToolEntry,
};
use kit::shell::Shell;

fn sample() -> Config {
    Config {
        config: GlobalConfig { bin_dir: "/home/ann/.kit/bin".into(), shell_rc: "/home/ann/.zshrc".into() },
        tools: vec![
            ToolEntry { name: "ripgrep".into(), tool: Tool::Brew { aliases: vec!["rg".into()] } },
            ToolEntry {
                name: "python".into(),
                tool: Tool::Mise { version: Some("3.12".into()), aliases: vec![] },
            },
            ToolEntry {
                name: "starship".into(),
                tool: Tool::Curl {
                    install_url: "https://starship.rs/install.sh".into(),
                    binary: "starship".into(),
                    aliases: vec!["ss".into(), "star".into()],
                },
            },
        ],
    }
}

#[test]
fn tool_aliases_and_kind() {
    let c = sample();
    assert_eq!(c.tools[0].tool.aliases(), &["rg".to_string()]);
    assert!(c.tools[1].tool.aliases().is_empty());
    assert_eq!(c.tools[2].tool.aliases(), &["ss".to_string(), "star".to_string()]);
    assert_eq!(c.tools[0].tool.kind(), SourceKind::Brew);
    assert_eq!(c.tools[1].tool.kind(), SourceKind::Mise);
    assert_eq!(c.tools[2].tool.kind(), SourceKind::Curl);
    assert_eq!(SourceKind::Curl.name(), "curl");
}

#[test]
fn lookup_by_name() {
    let c = sample();
    assert!(matches!(c.tool("ripgrep"), Some(Tool::Brew { .. })));
    assert!(c.tool("fd").is_none());
    assert!(c.contains_tool("python"));
    assert!(!c.contains_tool("fd"));
}

#[test]
fn default_config_is_empty() {
    let c = Config::default_in(&Some("/home/u".into()));
    assert!(c.tools.is_empty());
    assert_eq!(c.config.bin_dir, "/home/u/.kit/bin");
    assert_eq!(c.config.shell_rc, "/home/u/.zshrc");
    let c = Config::default();
    assert!(c.tools.is_empty());
    assert!(c.config.bin_dir.ends_with(".kit/bin"));
    assert!(c.config.shell_rc.ends_with(".zshrc"));
}

#[test]
fn load_or_default_falls_back() {
    let c = Config::load_or_default(Ok(sample()));
    assert_eq!(c, sample());
    let c = Config::load_or_default(Err(ConfigError::NotFound("/x/kit.toml".into())));
    assert_eq!(c, Config::default());
    assert!(c.tools.is_empty());
}

#[test]
fn config_error_messages() {
    assert_eq!(ConfigError::NotFound("/x/kit.toml".into()).message(), "Config file not found at /x/kit.toml");
    assert_eq!(ConfigError::Parse("bad".into()).message(), "Failed to parse config: bad");
    assert_eq!(ConfigError::Io("denied".into()).message(), "Failed to read config file: denied");
}

#[test]
fn paths_from_home_and_config_dir() {
    assert_eq!(default_bin_dir_in(&Some("/home/ann".into())), "/home/ann/.kit/bin");
    assert_eq!(default_bin_dir_in(&None), ".kit/bin");
    assert_eq!(default_shell_rc_in(&Some("/home/ann".into())), "/home/ann/.zshrc");
    assert_eq!(Config::config_path_in(&Some("/home/ann".into())), "/home/ann/.config/kit/kit.toml");
    assert_eq!(Config::config_path_in(&None), "./kit/kit.toml");
    assert!(Config::config_path().ends_with("kit/kit.toml"));
}

#[test]
fn shell_from_config_uses_parent_of_bin_dir() {
    let sh = Shell::from_config_in(&sample(), &Some("/home/ann".into()));
    assert_eq!(sh.kit_dir, "/home/ann/.kit");
    assert_eq!(sh.shell_rc, "/home/ann/.zshrc");
    let sh = Shell::from_config(&sample());
    assert_eq!(sh.kit_dir, "/home/ann/.kit");
}

#[test]
fn shell_from_config_expands_home() {
    let mut c = sample();
    c.config.bin_dir = "~/.kit/bin".into();
    c.config.shell_rc = "~/.zshrc".into();
    let sh = Shell::from_config_in(&c, &Some("/home/u".into()));
    assert_eq!(sh.kit_dir, "/home/u/.kit");
    assert_eq!(sh.shell_rc, "/home/u/.zshrc");
    assert_eq!(sh.aliases_path(), "/home/u/.kit/aliases.zsh");
    // Without a home directory the path stays as written.
    let sh = Shell::from_config_in(&c, &None);
    assert_eq!(sh.kit_dir, "~/.kit");
    // A bin_dir with no parent falls back to <home>/.kit.
    c.config.bin_dir = "".into();
    let sh = Shell::from_config_in(&c, &Some("/home/u".into()));
    assert_eq!(sh.kit_dir, "/home/u/.kit");
}

#[test]
fn fresh_machine_shell_is_under_home() {
    let c = Config::default_in(&Some("/home/u".into()));
    let sh = Shell::from_config_in(&c, &Some("/home/u".into()));
    assert_eq!(sh.kit_dir, "/home/u/.kit");
    assert_eq!(sh.shell_rc, "/home/u/.zshrc");
    let rc = sh.injected_rc_with_home("", "/home/u");
    assert!(rc.contains("export PATH=\"$HOME/.kit/bin:$PATH\""));
}
