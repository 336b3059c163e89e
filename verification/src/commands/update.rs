//! `kit update`: deciding whether there is a newer release and which file to fetch.

use vstd::prelude::*;
use crate::text::{chars_of, str_eq, string_of, trim_leading, trim_leading_exec};

verus! {

/// The repository that publishes releases of `kit`.
pub const REPO: &'static str = "nickcramaro/kit";

/// The base of the release API.
pub const GITHUB_API: &'static str = "https://api.github.com/repos";

/// A published release: its tag and its downloadable files.
#[derive(Debug, Clone, PartialEq)]
pub struct Release {
    pub tag_name: String,
    pub assets: Vec<Asset>,
}

/// One downloadable file of a release.
#[derive(Debug, Clone, PartialEq)]
pub struct Asset {
    pub name: String,
    pub browser_download_url: String,
}

/// Why an update cannot go ahead.
#[derive(Debug, Clone, PartialEq)]
pub enum UpdateError {
    /// The operating system is neither macOS nor Linux.
    UnsupportedOs,
    /// The processor is neither x86_64 nor aarch64.
    UnsupportedArch,
    /// The release has no archive for this platform (its os and arch names).
    NoBinary { os: String, arch: String },
}

impl UpdateError {
    /// The message shown for the error.
    pub open spec fn spec_message(&self) -> Seq<char> {
        match self {
            UpdateError::UnsupportedOs => "Unsupported OS"@,
            UpdateError::UnsupportedArch => "Unsupported architecture"@,
            UpdateError::NoBinary { os, arch } => "No binary available for "@ + os@ + "-"@
                + arch@,
        }
    }

    /// The message shown for the error.
    pub fn message(&self) -> (r: String)
        ensures
            r@ == self.spec_message(),
    {
        match self {
            UpdateError::UnsupportedOs => "Unsupported OS".to_owned(),
            UpdateError::UnsupportedArch => "Unsupported architecture".to_owned(),
            UpdateError::NoBinary { os, arch } => {
                let mut r = "No binary available for ".to_owned();
                r.push_str(os.as_str());
                r.push_str("-");
                r.push_str(arch.as_str());
                r
            },
        }
    }
}

/// The address of the latest release's description.
pub open spec fn latest_release_url_text() -> Seq<char> {
    GITHUB_API@ + "/"@ + REPO@ + "/releases/latest"@
}

/// The address of the latest release's description.
pub fn latest_release_url() -> (r: String)
    ensures
        r@ == latest_release_url_text(),
{
    let mut r = GITHUB_API.to_owned();
    r.push_str("/");
    r.push_str(REPO);
    r.push_str("/releases/latest");
    r
}

/// A release tag without its leading `v`s.
pub fn tag_version(tag: &str) -> (r: String)
    ensures
        r@ == trim_leading(tag@, 'v'),
{
    let cs = chars_of(tag);
    let t = trim_leading_exec(cs.as_slice(), 'v');
    string_of(t.as_slice())
}

/// The running version is the released one: the tag without its leading `v`s equals it.
pub open spec fn up_to_date(current: Seq<char>, tag: Seq<char>) -> bool {
    trim_leading(tag, 'v') == current
}

/// Whether the release tagged `tag` is the running version `current`.
pub fn is_up_to_date(current: &str, tag: &str) -> (b: bool)
    ensures
        b == up_to_date(current@, tag@),
{
    let t = tag_version(tag);
    str_eq(t.as_str(), current)
}

/// The newer version to announce: the latest tag, unless it is the running version.
pub fn newer_version(current: &str, latest: String) -> (r: Option<String>)
    ensures
        up_to_date(current@, latest@) ==> r is None,
        !up_to_date(current@, latest@) ==> r == Some(latest),
{
    if is_up_to_date(current, latest.as_str()) {
        None
    } else {
        Some(latest)
    }
}

/// The platform names used in release archives, for the names Rust gives the operating
/// system and the architecture: macOS is `darwin`, Linux `linux`; x86_64 is `x64`, aarch64
/// `arm64`.
pub open spec fn platform_of(os: Seq<char>, arch: Seq<char>) -> Result<
    (Seq<char>, Seq<char>),
    UpdateError,
> {
    let o = if os == "macos"@ {
        Some("darwin"@)
    } else if os == "linux"@ {
        Some("linux"@)
    } else {
        None
    };
    let a = if arch == "x86_64"@ {
        Some("x64"@)
    } else if arch == "aarch64"@ {
        Some("arm64"@)
    } else {
        None
    };
    match (o, a) {
        (None, _) => Err(UpdateError::UnsupportedOs),
        (Some(_), None) => Err(UpdateError::UnsupportedArch),
        (Some(x), Some(y)) => Ok((x, y)),
    }
}

/// The platform names used in release archives (see `platform_of`), for the operating
/// system and architecture that `std::env::consts` names.
pub fn get_platform(os: &str, arch: &str) -> (r: Result<(&'static str, &'static str), UpdateError>)
    ensures
        match (r, platform_of(os@, arch@)) {
            (Ok((x, y)), Ok((sx, sy))) => x@ == sx && y@ == sy,
            (Err(e), Err(se)) => e == se,
            _ => false,
        },
{
    let os_name = if str_eq(os, "macos") {
        "darwin"
    } else if str_eq(os, "linux") {
        "linux"
    } else {
        return Err(UpdateError::UnsupportedOs);
    };
    let arch_name = if str_eq(arch, "x86_64") {
        "x64"
    } else if str_eq(arch, "aarch64") {
        "arm64"
    } else {
        return Err(UpdateError::UnsupportedArch);
    };
    Ok((os_name, arch_name))
}

/// `kit-<os>-<arch>.tar.gz`.
pub open spec fn asset_file_name_text(os: Seq<char>, arch: Seq<char>) -> Seq<char> {
    "kit-"@ + os + "-"@ + arch + ".tar.gz"@
}

/// The archive name for a platform: `kit-<os>-<arch>.tar.gz`.
pub fn asset_file_name(os: &str, arch: &str) -> (r: String)
    ensures
        r@ == asset_file_name_text(os@, arch@),
{
    let mut r = "kit-".to_owned();
    r.push_str(os);
    r.push_str("-");
    r.push_str(arch);
    r.push_str(".tar.gz");
    r
}

/// The index of the first asset named `name`, if any.
pub fn find_asset(assets: &Vec<Asset>, name: &str) -> (r: Option<usize>)
    ensures
        r matches Some(i) ==> i < assets.len() && assets@[i as int].name@ == name@ && forall|j: int|
            0 <= j < i ==> #[trigger] assets@[j].name@ != name@,
        r is None ==> forall|j: int| 0 <= j < assets.len() ==> #[trigger] assets@[j].name@ != name@,
{
    let mut i: usize = 0;
    while i < assets.len()
        invariant
            i <= assets.len(),
            forall|j: int| 0 <= j < i ==> #[trigger] assets@[j].name@ != name@,
        decreases assets.len() - i,
    {
        if str_eq(assets[i].name.as_str(), name) {
            return Some(i);
        }
        i = i + 1;
    }
    None
}

/// What an update does.
#[derive(Debug, Clone, PartialEq)]
pub enum UpdatePlan {
    /// The running version is the latest one.
    UpToDate,
    /// Download the asset at this index of the release, which is named `file_name`.
    Download { asset: usize, file_name: String },
}

/// The update decision: nothing when the release is the running version; else the
/// platform's archive, the first asset with that name; an error where the platform is not
/// supported or the release has no archive for it.
pub fn plan_update(current: &str, release: &Release, os: &str, arch: &str) -> (r: Result<
    UpdatePlan,
    UpdateError,
>)
    ensures
        up_to_date(current@, release.tag_name@) ==> r == Ok::<UpdatePlan, UpdateError>(
            UpdatePlan::UpToDate,
        ),
        !up_to_date(current@, release.tag_name@) ==> match platform_of(os@, arch@) {
            Err(e) => r == Err::<UpdatePlan, UpdateError>(e),
            Ok((o, a)) => match r {
                Ok(UpdatePlan::Download { asset, file_name }) => file_name@
                    == asset_file_name_text(o, a) && asset < release.assets.len()
                    && release.assets@[asset as int].name@ == file_name@ && forall|j: int|
                    0 <= j < asset ==> #[trigger] release.assets@[j].name@ != file_name@,
                Err(UpdateError::NoBinary { os: eo, arch: ea }) => eo@ == o && ea@ == a
                    && forall|j: int|
                    0 <= j < release.assets.len() ==> #[trigger] release.assets@[j].name@
                        != asset_file_name_text(o, a),
                _ => false,
            },
        },
{
    if is_up_to_date(current, release.tag_name.as_str()) {
        return Ok(UpdatePlan::UpToDate);
    }
    let (o, a) = match get_platform(os, arch) {
        Ok(p) => p,
        Err(e) => return Err(e),
    };
    let file_name = asset_file_name(o, a);
    match find_asset(&release.assets, file_name.as_str()) {
        Some(i) => Ok(UpdatePlan::Download { asset: i, file_name }),
        None => Err(UpdateError::NoBinary { os: o.to_owned(), arch: a.to_owned() }),
    }
}

} // verus!
