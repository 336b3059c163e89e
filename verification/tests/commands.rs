use kit::commands::count_found;
use kit::commands::add::{check_addable, AddError};
use kit::commands::add::{default_source, new_tool, parse_aliases, source_of};
use kit::commands::install::{install_action, install_check, install_tally, InstallAction, InstallCheck};
use kit::commands::setup::{setup_step_with, SetupStep};
use kit::commands::install::{install_targets, InstallError};
use kit::commands::list::tool_description;
use kit::commands::regen::{collect_aliases, pick_program, program_candidates_exec, tool_symlinks};
use kit::commands::scan::{scan_report, source_name, unconfigured_listing, ScanReport};
use kit::commands::setup::{install_hint, join_names, missing_sources_with, required_sources};
use kit::config::{Config, GlobalConfig, SourceKind, Tool, ToolEntry};
use kit::scanner::{DetectedSource, FoundBinary};

fn brew(name: &str, aliases: &[&str]) -> ToolEntry {
    ToolEntry { name: name.into(), tool: Tool::Brew { aliases: aliases.iter().map(|a| a.to_string()).collect() } }
}

fn curl(name: &str) -> ToolEntry {
    ToolEntry {
        name: name.into(),
        tool: Tool::Curl { install_url: "https://x/install.sh".into(), binary: name.into(), aliases: vec![] },
    }
}

fn config(tools: Vec<ToolEntry>) -> Config {
    Config { config: GlobalConfig { bin_dir: "/h/.kit/bin".into(), shell_rc: "/h/.zshrc".into() }, tools }
}

fn found(name: &str) -> FoundBinary {
    FoundBinary { name: name.into(), path: format!("/usr/bin/{}", name), source: DetectedSource::Unknown }
}

#[test]
fn scan_report_sorts_tools() {
    let c = config(vec![brew("ripgrep", &[]), curl("starship"), brew("bat", &["cat"])]);
    let bins = vec![found("bat"), found("ls"), found("ripgrep"), found("cat")];
    let r = scan_report(&c, &bins);
    assert_eq!(r, ScanReport { installed: vec![0, 2], missing: vec![1], unconfigured: vec![1, 3] });
    assert_eq!(source_name(&c.tools[1].tool), "curl");
    assert_eq!(source_name(&c.tools[0].tool), "brew");
}

#[test]
fn unconfigured_listing_caps_at_twenty() {
    assert_eq!(unconfigured_listing(3), (3, 0));
    assert_eq!(unconfigured_listing(20), (20, 0));
    assert_eq!(unconfigured_listing(25), (20, 5));
}

#[test]
fn setup_sources() {
    let c = config(vec![curl("starship"), brew("ripgrep", &[]), curl("rustup")]);
    let req = required_sources(&c);
    assert_eq!(req, vec![SourceKind::Brew, SourceKind::Curl]);
    assert_eq!(missing_sources_with(&req, &vec![true, false]), vec![SourceKind::Curl]);
    assert_eq!(join_names(&req), "brew, curl");
    assert_eq!(install_hint(SourceKind::Mise), "Install from https://mise.jdx.dev");
    assert!(required_sources(&Config::default()).is_empty());
}

#[test]
fn regen_aliases_and_links() {
    let c = config(vec![brew("ripgrep", &["rg"]), curl("starship"), brew("bat", &["cat", "b"])]);
    assert_eq!(
        collect_aliases(&c),
        vec![
            ("rg".to_string(), "ripgrep".to_string()),
            ("cat".to_string(), "bat".to_string()),
            ("b".to_string(), "bat".to_string()),
        ]
    );
    assert_eq!(
        tool_symlinks(&c.tools[2], &Some("/usr/bin/bat".into())),
        vec![
            ("bat".to_string(), "/usr/bin/bat".to_string()),
            ("cat".to_string(), "/usr/bin/bat".to_string()),
            ("b".to_string(), "/usr/bin/bat".to_string()),
        ]
    );
    assert!(tool_symlinks(&c.tools[0], &None).is_empty());
}

#[test]
fn alias_program_is_linked_when_only_the_alias_is_found() {
    // ripgrep with alias rg: no `ripgrep` on PATH, `rg` at /opt/homebrew/bin/rg.
    let e = brew("ripgrep", &["rg"]);
    assert_eq!(program_candidates_exec(&e), vec!["ripgrep".to_string(), "rg".to_string()]);
    let program = pick_program(&vec![None, Some("/opt/homebrew/bin/rg".into())], "/h/.kit/bin");
    assert_eq!(program, Some("/opt/homebrew/bin/rg".to_string()));
    assert_eq!(
        tool_symlinks(&e, &program),
        vec![
            ("ripgrep".to_string(), "/opt/homebrew/bin/rg".to_string()),
            ("rg".to_string(), "/opt/homebrew/bin/rg".to_string()),
        ]
    );
}

#[test]
fn own_links_are_not_taken_as_the_program() {
    let lookups = vec![Some("/h/.kit/bin/ripgrep".into()), Some("/usr/bin/rg".into())];
    assert_eq!(pick_program(&lookups, "/h/.kit/bin"), Some("/usr/bin/rg".to_string()));
    assert_eq!(pick_program(&vec![Some("/h/.kit/bin/x".into())], "/h/.kit/bin"), None);
    assert_eq!(pick_program(&vec![None, None], "/h/.kit/bin"), None);
    // A tool is looked up by its name first, then by its aliases.
    assert_eq!(program_candidates_exec(&curl("starship")), vec!["starship".to_string()]);
    assert_eq!(
        program_candidates_exec(&brew("ripgrep", &["rg"])),
        vec!["ripgrep".to_string(), "rg".to_string()]
    );
}

#[test]
fn install_targets_choose_tools() {
    let c = config(vec![brew("ripgrep", &[]), curl("starship")]);
    assert_eq!(install_targets(&c, &None, true), Ok(vec![0, 1]));
    assert_eq!(install_targets(&c, &Some("starship".into()), false), Ok(vec![1]));
    let e = install_targets(&c, &Some("fd".into()), false).unwrap_err();
    assert_eq!(e, InstallError::NotConfigured("fd".into()));
    assert_eq!(e.message(), "Tool 'fd' not found in config");
    assert_eq!(install_targets(&c, &None, false), Err(InstallError::NothingSpecified));
    assert_eq!(InstallError::NothingSpecified.message(), "Specify a tool name or use --all");
}

#[test]
fn list_descriptions() {
    assert_eq!(tool_description(&brew("bat", &["cat", "b"]).tool), "brew [aliases: cat, b]");
    assert_eq!(tool_description(&brew("fd", &[]).tool), "brew");
    assert_eq!(tool_description(&curl("starship").tool), "curl (starship)");
    let m = Tool::Mise { version: None, aliases: vec!["py".into()] };
    assert_eq!(tool_description(&m), "mise@latest [aliases: py]");
    let m = Tool::Mise { version: Some("3.12".into()), aliases: vec![] };
    assert_eq!(tool_description(&m), "mise@3.12");
}

#[test]
fn add_refuses_a_configured_name() {
    let mut c = config(vec![brew("ripgrep", &[])]);
    let e = check_addable(&c, "ripgrep").unwrap_err();
    assert_eq!(e, AddError::AlreadyConfigured("ripgrep".into()));
    assert_eq!(e.message(), "Tool 'ripgrep' is already in your config");
    assert_eq!(check_addable(&c, "fd"), Ok(()));
    let before = c.clone();
    assert_eq!(c.add_tool("ripgrep".into(), Tool::Brew { aliases: vec![] }), Err(AddError::AlreadyConfigured("ripgrep".into())));
    assert_eq!(c, before);
    assert_eq!(c.add_tool("fd".into(), Tool::Brew { aliases: vec![] }), Ok(()));
    assert_eq!(c.tools.len(), 2);
    assert_eq!(c.tools[1], brew("fd", &[]));
}

#[test]
fn add_reads_the_answers() {
    assert_eq!(parse_aliases(" rg , ,grep,, \t"), vec!["rg".to_string(), "grep".to_string()]);
    assert_eq!(parse_aliases(""), Vec::<String>::new());
    assert_eq!(new_tool(SourceKind::Brew, "ripgrep", "rg", "", "", ""), Tool::Brew { aliases: vec!["rg".into()] });
    assert_eq!(
        new_tool(SourceKind::Mise, "python", "py, python3", "", "", ""),
        Tool::Mise { version: None, aliases: vec!["py".into(), "python3".into()] }
    );
    assert_eq!(
        new_tool(SourceKind::Mise, "python", "", "3.12", "", ""),
        Tool::Mise { version: Some("3.12".into()), aliases: vec![] }
    );
    assert_eq!(
        new_tool(SourceKind::Curl, "starship", "", "", "https://starship.rs/install.sh", ""),
        Tool::Curl { install_url: "https://starship.rs/install.sh".into(), binary: "starship".into(), aliases: vec![] }
    );
    assert_eq!(
        new_tool(SourceKind::Curl, "uv", "", "", "https://x/uv.sh", "uvx"),
        Tool::Curl { install_url: "https://x/uv.sh".into(), binary: "uvx".into(), aliases: vec![] }
    );
    assert_eq!(default_source(Some(DetectedSource::Mise)), SourceKind::Mise);
    assert_eq!(default_source(Some(DetectedSource::Brew)), SourceKind::Brew);
    assert_eq!(default_source(Some(DetectedSource::Unknown)), SourceKind::Brew);
    assert_eq!(default_source(None), SourceKind::Brew);
    let mut b = found("python");
    b.source = DetectedSource::Mise;
    let bins = vec![found("ls"), b];
    assert_eq!(source_of(&bins, "python"), Some(DetectedSource::Mise));
    assert_eq!(source_of(&bins, "ls"), Some(DetectedSource::Unknown));
    assert_eq!(source_of(&bins, "fd"), None);
}

#[test]
fn install_checks_and_actions_follow_the_source() {
    let r = brew("ripgrep", &[]);
    let m = ToolEntry { name: "python".into(), tool: Tool::Mise { version: Some("3.12".into()), aliases: vec![] } };
    let m2 = ToolEntry { name: "node".into(), tool: Tool::Mise { version: None, aliases: vec![] } };
    let mut s = curl("starship");
    if let Tool::Curl { binary, .. } = &mut s.tool {
        *binary = "starship-bin".into();
    }
    assert_eq!(install_check(&r), InstallCheck::Brew("ripgrep".into()));
    assert_eq!(install_check(&m), InstallCheck::Mise { name: "python".into(), version: Some("3.12".into()) });
    assert_eq!(install_check(&s), InstallCheck::Curl("starship-bin".into()));
    assert_eq!(install_action(&r, true), InstallAction::Skip);
    assert_eq!(install_action(&m, true), InstallAction::Skip);
    assert_eq!(install_action(&r, false), InstallAction::Brew("ripgrep".into()));
    assert_eq!(install_action(&m, false), InstallAction::Mise("python@3.12".into()));
    assert_eq!(install_action(&m2, false), InstallAction::Mise("node".into()));
    assert_eq!(
        install_action(&s, false),
        InstallAction::Curl { install_url: "https://x/install.sh".into(), binary: "starship-bin".into() }
    );
    assert_eq!(install_tally(&vec![true, false, true]), (2, 1));
    assert_eq!(install_tally(&vec![]), (0, 0));
}

#[test]
fn setup_stops_on_missing_installers() {
    let req = vec![SourceKind::Brew, SourceKind::Mise, SourceKind::Curl];
    assert_eq!(setup_step_with(&req, &vec![true, false, false]), SetupStep::Stop(vec![SourceKind::Mise, SourceKind::Curl]));
    assert_eq!(setup_step_with(&req, &vec![true, true, true]), SetupStep::Inject);
    assert_eq!(setup_step_with(&vec![], &vec![]), SetupStep::Inject);
}

#[test]
fn a_tool_installed_under_its_alias_is_linked_to_it() {
    let rg = brew("ripgrep", &["rg"]);
    let lookups = vec![None, Some("/opt/homebrew/bin/rg".to_string())];
    let program = pick_program(&lookups, "/h/.kit/bin");
    assert_eq!(program, Some("/opt/homebrew/bin/rg".to_string()));
    assert_eq!(
        tool_symlinks(&rg, &program),
        vec![
            ("ripgrep".to_string(), "/opt/homebrew/bin/rg".to_string()),
            ("rg".to_string(), "/opt/homebrew/bin/rg".to_string()),
        ]
    );
    assert_eq!(tool_symlinks(&rg, &None), vec![]);
}

#[test]
fn count_found_counts_set_flags() {
    assert_eq!(count_found(&vec![true, false, true, true]), 3);
    assert_eq!(count_found(&vec![false, false]), 0);
    assert_eq!(count_found(&vec![]), 0);
}

#[test]
fn names_distinct_spots_a_repeated_name() {
    assert!(config(vec![brew("a", &[]), brew("b", &[])]).names_distinct());
    assert!(config(vec![]).names_distinct());
    assert!(!config(vec![brew("a", &[]), curl("b"), brew("a", &["x"])]).names_distinct());
}
