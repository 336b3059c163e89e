use kit::commands::update::{
    asset_file_name, get_platform, is_up_to_date, latest_release_url, newer_version, plan_update,
    tag_version, Asset, Release, UpdateError, UpdatePlan,
};

fn release(tag: &str, names: &[&str]) -> Release {
    Release {
        tag_name: tag.into(),
        assets: names
            .iter()
            .map(|n| Asset { name: n.to_string(), browser_download_url: format!("https://dl/{}", n) })
            .collect(),
    }
}

#[test]
fn versions_compare_without_leading_v() {
    assert_eq!(tag_version("v1.2.0"), "1.2.0");
    assert_eq!(tag_version("vv1"), "1");
    assert!(is_up_to_date("0.1.0", "v0.1.0"));
    assert!(!is_up_to_date("0.1.0", "v0.2.0"));
    assert_eq!(newer_version("0.1.0", "v0.2.0".into()), Some("v0.2.0".to_string()));
    assert_eq!(newer_version("0.1.0", "0.1.0".into()), None);
}

#[test]
fn platform_names() {
    assert_eq!(get_platform("macos", "aarch64"), Ok(("darwin", "arm64")));
    assert_eq!(get_platform("linux", "x86_64"), Ok(("linux", "x64")));
    assert_eq!(get_platform("windows", "x86_64"), Err(UpdateError::UnsupportedOs));
    assert_eq!(get_platform("linux", "riscv64"), Err(UpdateError::UnsupportedArch));
    assert_eq!(asset_file_name("linux", "x64"), "kit-linux-x64.tar.gz");
    assert_eq!(UpdateError::UnsupportedOs.message(), "Unsupported OS");
}

#[test]
fn update_plans() {
    let r = release("v0.2.0", &["kit-darwin-arm64.tar.gz", "kit-linux-x64.tar.gz"]);
    assert_eq!(plan_update("0.2.0", &r, "linux", "x86_64"), Ok(UpdatePlan::UpToDate));
    assert_eq!(
        plan_update("0.1.0", &r, "linux", "x86_64"),
        Ok(UpdatePlan::Download { asset: 1, file_name: "kit-linux-x64.tar.gz".into() })
    );
    let e = plan_update("0.1.0", &r, "linux", "aarch64").unwrap_err();
    assert_eq!(e, UpdateError::NoBinary { os: "linux".into(), arch: "arm64".into() });
    assert_eq!(e.message(), "No binary available for linux-arm64");
    assert_eq!(plan_update("0.1.0", &r, "freebsd", "x86_64"), Err(UpdateError::UnsupportedOs));
    assert_eq!(latest_release_url(), "https://api.github.com/repos/nickcramaro/kit/releases/latest");
}
