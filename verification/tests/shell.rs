use kit::shell::{aliases_file_content, injection_block, rc_with_injection, Shell};

fn shell() -> Shell {
    Shell::new("/tmp/t/.kit".to_string(), "/tmp/t/.zshrc".to_string())
}

#[test]
fn test_write_aliases() {
    let aliases = vec![
        ("rg".to_string(), "ripgrep".to_string()),
        ("cat".to_string(), "bat".to_string()),
    ];
    let content = aliases_file_content(&aliases);
    assert!(content.contains("alias rg=\"ripgrep\""));
    assert!(content.contains("alias cat=\"bat\""));
}

#[test]
fn aliases_file_exact_content() {
    let aliases = vec![("rg".to_string(), "ripgrep".to_string())];
    assert_eq!(
        aliases_file_content(&aliases),
        "# ~/.kit/aliases.zsh - managed by kit, do not edit\nalias rg=\"ripgrep\"\n"
    );
    assert_eq!(aliases_file_content(&[]), "# ~/.kit/aliases.zsh - managed by kit, do not edit\n");
}

#[test]
fn test_inject_rc_new() {
    let content = shell().injected_rc("# existing content\n");
    assert!(content.contains("# >>> kit >>>"));
    assert!(content.contains("# <<< kit <<<"));
    assert!(content.contains("# existing content"));
}

#[test]
fn test_inject_rc_replace() {
    let content = shell().injected_rc("before\n# >>> kit >>>\nold stuff\n# <<< kit <<<\nafter\n");
    assert!(content.contains("before"));
    assert!(content.contains("after"));
    assert!(!content.contains("old stuff"));
    assert_eq!(content.matches("# >>> kit >>>").count(), 1);
}

#[test]
fn injection_block_text() {
    assert_eq!(
        injection_block("$HOME/.kit"),
        "# >>> kit >>>\nexport PATH=\"$HOME/.kit/bin:$PATH\"\nsource \"$HOME/.kit/aliases.zsh\"\n# <<< kit <<<"
    );
}

#[test]
fn injected_rc_with_home_exact() {
    let sh = Shell::new("/home/ann/.kit".to_string(), "/home/ann/.zshrc".to_string());
    let block = "# >>> kit >>>\nexport PATH=\"$HOME/.kit/bin:$PATH\"\nsource \"$HOME/.kit/aliases.zsh\"\n# <<< kit <<<";
    assert_eq!(sh.injected_rc_with_home("alias ll=ls\n\n  \n", "/home/ann"), format!("alias ll=ls\n{}\n", block));
    assert_eq!(
        sh.injected_rc_with_home("a\n# >>> kit >>>\nold\n# <<< kit <<<\nb\n", "/home/ann"),
        format!("a\n{}\nb\n", block)
    );
    // An empty rc gets the block after a newline.
    assert_eq!(sh.injected_rc_with_home("", "/home/ann"), format!("\n{}\n", block));
}

#[test]
fn injection_is_idempotent_on_example() {
    let sh = Shell::new("/home/ann/.kit".to_string(), "/home/ann/.zshrc".to_string());
    let once = sh.injected_rc_with_home("export EDITOR=vim\n", "/home/ann");
    let twice = sh.injected_rc_with_home(&once, "/home/ann");
    assert_eq!(once, twice);
}

#[test]
fn replace_keeps_text_up_to_second_end_marker_only() {
    let existing = "x# >>> kit >>>a# <<< kit <<<b# <<< kit <<<c";
    assert_eq!(rc_with_injection(existing, "[B]"), "x[B]b");
    // Start marker without end marker: everything after the start is dropped.
    assert_eq!(rc_with_injection("x# >>> kit >>>tail", "[B]"), "x[B]");
}

#[test]
fn kit_dir_display_replaces_home() {
    let sh = Shell::new("/home/ann/.kit".to_string(), String::new());
    assert_eq!(sh.kit_dir_display("/home/ann"), "$HOME/.kit");
    assert_eq!(sh.kit_dir_display("/home/bob"), "/home/ann/.kit");
    // With no home directory the kit directory is written as it is.
    let sh = Shell::new("ab".to_string(), String::new());
    assert_eq!(sh.kit_dir_display(""), "ab");
}

#[test]
fn injected_rc_without_home_keeps_kit_dir() {
    let sh = Shell::new("/k/.kit".to_string(), "/k/.zshrc".to_string());
    assert_eq!(
        sh.injected_rc_with_home("", ""),
        "\n# >>> kit >>>\nexport PATH=\"/k/.kit/bin:$PATH\"\nsource \"/k/.kit/aliases.zsh\"\n# <<< kit <<<\n"
    );
}

#[test]
fn injecting_twice_keeps_one_block() {
    let sh = Shell::new("/home/ann/.kit".to_string(), String::new());
    for existing in ["", "alias g=git\n", "a\n# >>> kit >>>\nold\n# <<< kit <<<\nb\n"] {
        let once = sh.injected_rc_with_home(existing, "/home/ann");
        assert_eq!(once.matches("# >>> kit >>>").count(), 1);
        assert_eq!(sh.injected_rc_with_home(&once, "/home/ann"), once);
    }
}

#[test]
fn shell_paths() {
    let sh = shell();
    assert_eq!(sh.aliases_path(), "/tmp/t/.kit/aliases.zsh");
    assert_eq!(sh.bin_dir(), "/tmp/t/.kit/bin");
    assert_eq!(sh.symlink_path("rg"), "/tmp/t/.kit/bin/rg");
    let sh = Shell::new("/tmp/t/.kit/".to_string(), String::new());
    assert_eq!(sh.bin_dir(), "/tmp/t/.kit/bin");
    assert_eq!(sh.symlink_path("/abs/rg"), "/abs/rg");
}
