use kit::json::{Json, JsonMember};
use kit::scanner::{is_executable, path_conflicts, path_dirs, DetectedSource, FoundBinary, PathEntry, Scanner};

fn entry(name: &str, path: &str, mode: Option<u32>) -> PathEntry {
    PathEntry { name: name.to_string(), path: path.to_string(), mode }
}

fn mise_listing(keys: &[&str]) -> Option<Json> {
    Some(Json::Object(
        keys.iter()
            .map(|k| JsonMember { key: k.to_string(), value: Json::Array(vec![]) })
            .collect(),
    ))
}

#[test]
fn test_detected_source_display() {
    assert_eq!(format!("{:?}", DetectedSource::Brew), "Brew");
    assert_eq!(format!("{:?}", DetectedSource::Mise), "Mise");
    assert_eq!(format!("{:?}", DetectedSource::Unknown), "Unknown");
}

#[test]
fn detect_source_prefers_brew_then_mise_path_then_mise_tools() {
    let scanner = Scanner::new(&Some("ripgrep\nbat\n".to_string()), &mise_listing(&["node"]));
    assert_eq!(scanner.detect_source("bat", "/home/u/.local/share/mise/bin/bat"), DetectedSource::Brew);
    assert_eq!(scanner.detect_source("python", "/home/u/.local/share/mise/installs/python"), DetectedSource::Mise);
    assert_eq!(scanner.detect_source("node", "/usr/bin/node"), DetectedSource::Mise);
    assert_eq!(scanner.detect_source("ls", "/bin/ls"), DetectedSource::Unknown);
}

#[test]
fn scanner_without_brew_or_mise_knows_nothing() {
    let scanner = Scanner::new(&None, &None);
    assert_eq!(scanner.detect_source("ripgrep", "/usr/bin/rg"), DetectedSource::Unknown);
    // A listing that is not an object names no tools.
    let scanner = Scanner::new(&None, &Some(Json::Array(vec![])));
    assert_eq!(scanner.detect_source("node", "/usr/bin/node"), DetectedSource::Unknown);
}

#[test]
fn brew_lines_are_split_like_str_lines() {
    let scanner = Scanner::new(&Some("a\r\nb\n\nc".to_string()), &None);
    assert_eq!(scanner.detect_source("a", "/x"), DetectedSource::Brew);
    assert_eq!(scanner.detect_source("b", "/x"), DetectedSource::Brew);
    assert_eq!(scanner.detect_source("c", "/x"), DetectedSource::Brew);
    assert_eq!(scanner.detect_source("a\r", "/x"), DetectedSource::Unknown);
}

#[test]
fn scan_path_keeps_first_executable_of_each_name() {
    let scanner = Scanner::new(&Some("rg\n".to_string()), &None);
    let entries = vec![
        entry("rg", "/opt/homebrew/bin/rg", Some(0o755)),
        entry("notes.txt", "/opt/homebrew/bin/notes.txt", Some(0o644)),
        entry("ls", "/bin/ls", None),
        entry("rg", "/usr/bin/rg", Some(0o755)),
        entry("notes.txt", "/usr/bin/notes.txt", Some(0o700)),
    ];
    let found = scanner.scan_path(&entries);
    assert_eq!(
        found,
        vec![
            FoundBinary { name: "rg".into(), path: "/opt/homebrew/bin/rg".into(), source: DetectedSource::Brew },
            FoundBinary { name: "ls".into(), path: "/bin/ls".into(), source: DetectedSource::Unknown },
            FoundBinary { name: "notes.txt".into(), path: "/usr/bin/notes.txt".into(), source: DetectedSource::Unknown },
        ]
    );
}

#[test]
fn executable_bits() {
    assert!(is_executable(None));
    assert!(is_executable(Some(0o100)));
    assert!(is_executable(Some(0o001)));
    assert!(!is_executable(Some(0o644)));
}

#[test]
fn path_dirs_split_on_colons() {
    assert_eq!(path_dirs("/usr/bin:/bin"), vec!["/usr/bin".to_string(), "/bin".to_string()]);
    assert_eq!(path_dirs(""), vec!["".to_string()]);
    assert_eq!(path_dirs("a::b:"), vec!["a".to_string(), "".to_string(), "b".to_string(), "".to_string()]);
}

#[test]
fn test_scanner_finds_binaries() {
    let scanner = Scanner::new(&None, &None);
    let entries = vec![
        entry("README", "/usr/local/bin/README", Some(0o644)),
        entry("ls", "/bin/ls", Some(0o755)),
    ];
    let binaries = scanner.scan_path(&entries);
    // Should find at least some common binaries
    assert!(!binaries.is_empty());
}

#[test]
fn conflicts_name_the_path_that_runs_and_the_one_it_shadows() {
    let entries = vec![
        entry("python", "/home/u/.local/share/mise/bin/python", Some(0o755)),
        entry("rg", "/usr/local/bin/rg", Some(0o755)),
        entry("python", "/usr/bin/python", Some(0o755)),
        entry("python", "/opt/python", Some(0o644)),
        entry("rg", "/usr/bin/rg", None),
        entry("fd", "/usr/bin/fd", Some(0o600)),
        entry("fd", "/bin/fd", Some(0o755)),
    ];
    assert_eq!(
        path_conflicts(&entries),
        vec![
            ("python".to_string(), "/home/u/.local/share/mise/bin/python".to_string(), "/usr/bin/python".to_string()),
            ("rg".to_string(), "/usr/local/bin/rg".to_string(), "/usr/bin/rg".to_string()),
        ]
    );
    assert_eq!(path_conflicts(&vec![]), vec![]);
}
