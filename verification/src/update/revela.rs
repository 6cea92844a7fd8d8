//! The updater of Revela, the binary used for decompilation.
use crate::update::{same_text, UpdateError, UpdateRequiredInfo};
use vstd::prelude::*;
use vstd::string::StringExecFns;

verus! {

/// The release tag that is installed unless the user names another.
pub const TARGET_REVELA_TAG: &'static str = "v1.0.0-rc2";

/// The version that the installed binary is taken to have.
pub const CURRENT_REVELA_VERSION: &'static str = "1.0.0-rc1";

/// Update Revela, the binary used for decompilation.
#[derive(Debug)]
pub struct RevelaUpdateTool {
    /// The owner of the repo to download the binary from.
    pub repo_owner: String,
    /// The name of the repo to download the binary from.
    pub repo_name: String,
    /// The tag we target to install.
    pub target_tag: String,
    /// Where to install the binary. Make sure this directory is on your PATH.
    pub install_dir: Option<String>,
}

/// The processor architectures that the binary may have been built for.
#[derive(Clone, Copy, Debug, PartialEq, Eq, Structural)]
pub enum CpuArch {
    X86_64,
    Aarch64,
    /// An architecture for which no release is published.
    Other,
}

/// What `self_update::version::bump_is_greater` makes of two version texts:
/// `None` where it fails.
pub uninterp spec fn bump_is_greater_of(current: Seq<char>, other: Seq<char>) -> Option<bool>;

/// `self_update::version::bump_is_greater`: parses both texts as semantic
/// versions and says whether `other` is the greater; fails if one of them
/// is no semantic version. The outcome depends on the two texts alone.
#[verifier::external_body]
fn bump_is_greater(current: &str, other: &str) -> (greater: Result<
    bool,
    self_update::errors::Error,
>)
    ensures
        match greater {
            Ok(is_greater) => bump_is_greater_of(current@, other@) == Some(is_greater),
            Err(_) => bump_is_greater_of(current@, other@) is None,
        },
{
    self_update::version::bump_is_greater(current, other)
}

/// The text `s` with each occurrence of `from` replaced by `to`, the
/// occurrences taken from the left and not overlapping.
pub open spec fn replaced(s: Seq<char>, from: Seq<char>, to: Seq<char>) -> Seq<char>
    decreases s.len(),
{
    if from.len() == 0 || s.len() < from.len() {
        s
    } else if s.take(from.len() as int) == from {
        to + replaced(s.skip(from.len() as int), from, to)
    } else {
        seq![s[0]] + replaced(s.skip(1), from, to)
    }
}

/// `str::replace`: a new text in which every match of the pattern `from` is
/// replaced by `to`. Stated for a pattern that is not empty.
#[verifier::external_body]
fn replace(s: &str, from: &str, to: &str) -> (result: String)
    requires
        from@.len() > 0,
    ensures
        result@ == replaced(s@, from@, to@),
{
    s.replace(from, to)
}

/// The name of the architecture as release targets spell it.
pub open spec fn arch_name(arch: CpuArch) -> Seq<char> {
    match arch {
        CpuArch::X86_64 => "x86_64"@,
        CpuArch::Aarch64 => "aarch64"@,
        CpuArch::Other => Seq::empty(),
    }
}

/// The name of the architecture as release targets spell it. No release is
/// published for an architecture other than the two named.
pub fn get_arch(arch: CpuArch) -> (name: &'static str)
    requires
        arch != CpuArch::Other,
    ensures
        name@ == arch_name(arch),
{
    match arch {
        CpuArch::X86_64 => "x86_64",
        _ => "aarch64",
    }
}

/// The vendor and system part of the release target for a build platform,
/// `None` for a platform without releases.
pub open spec fn target_system(build_os: Seq<char>) -> Option<Seq<char>> {
    if build_os == "linux-aarch64"@ || build_os == "linux-x86_64"@ {
        Some("unknown-linux-gnu"@)
    } else if build_os == "macos-aarch64"@ || build_os == "macos-x86"@ {
        Some("apple-darwin"@)
    } else if build_os == "windows-x86_64"@ {
        Some("pc-windows-gnu"@)
    } else {
        None
    }
}

impl RevelaUpdateTool {
    /// An updater for the release `target_tag` of the repository
    /// `repo_owner/repo_name`.
    pub fn new(
        repo_owner: String,
        repo_name: String,
        target_tag: String,
        install_dir: Option<String>,
    ) -> (tool: RevelaUpdateTool)
        ensures
            tool.repo_owner == repo_owner,
            tool.repo_name == repo_name,
            tool.target_tag == target_tag,
            tool.install_dir == install_dir,
    {
        RevelaUpdateTool { repo_owner, repo_name, target_tag, install_dir }
    }

    /// The name of the binary in messages.
    pub fn pretty_name(&self) -> (name: &'static str)
        ensures
            name@ == "Revela"@,
    {
        "Revela"
    }

    /// The name of the command.
    pub fn command_name(&self) -> (name: &'static str)
        ensures
            name@ == "UpdateRevela"@,
    {
        "UpdateRevela"
    }

    /// The outcome of the update check, given whether the target version is
    /// greater than the current one.
    pub fn update_info(&self, update_required: bool) -> (info: UpdateRequiredInfo)
        ensures
            info.update_required == update_required,
            info.current_version@ == CURRENT_REVELA_VERSION@,
            info.target_version@ == self.target_tag@,
            info.target_version_tag@ == self.target_tag@,
    {
        UpdateRequiredInfo {
            update_required,
            current_version: String::from_str(CURRENT_REVELA_VERSION),
            target_version: self.target_tag.clone(),
            target_version_tag: self.target_tag.clone(),
        }
    }

    /// Return information about whether an update is required: it is if the
    /// target tag, without the letter `v`, is a greater version than the
    /// current one.
    pub fn get_update_info(&self) -> (info: Result<UpdateRequiredInfo, UpdateError>)
        ensures
            match bump_is_greater_of(
                CURRENT_REVELA_VERSION@,
                replaced(self.target_tag@, "v"@, ""@),
            ) {
                Some(update_required) => info is Ok && {
                    let found = info->Ok_0;
                    &&& found.update_required == update_required
                    &&& found.current_version@ == CURRENT_REVELA_VERSION@
                    &&& found.target_version@ == self.target_tag@
                    &&& found.target_version_tag@ == self.target_tag@
                },
                None => info is Err && info->Err_0 is VersionCompare,
            },
    {
        proof {
            reveal_strlit("v");
        }
        let target_version = replace(self.target_tag.as_str(), "v", "");
        match bump_is_greater(CURRENT_REVELA_VERSION, target_version.as_str()) {
            Ok(update_required) => Ok(self.update_info(update_required)),
            Err(error) => Err(UpdateError::VersionCompare(error)),
        }
    }

    /// The release target to download for a binary built for `arch` on the
    /// platform `build_os`: the architecture, a hyphen, and the vendor and
    /// system of the platform.
    pub fn release_target(arch: CpuArch, build_os: Option<&str>) -> (target: Result<
        String,
        UpdateError,
    >)
        requires
            arch != CpuArch::Other,
        ensures
            match build_os {
                None => target is Err && target->Err_0 is MissingBuildInfo,
                Some(os) => match target_system(os@) {
                    Some(system) => target is Ok && target->Ok_0@ == arch_name(arch) + "-"@
                        + system,
                    None => target is Err && target->Err_0 is UnsupportedOs
                        && target->Err_0->UnsupportedOs_0@ == os@,
                },
            },
    {
        let arch_str = get_arch(arch);
        let os = match build_os {
            Some(os) => os,
            None => { return Err(UpdateError::MissingBuildInfo); },
        };
        let system = if same_text(os, "linux-aarch64") || same_text(os, "linux-x86_64") {
            "unknown-linux-gnu"
        } else if same_text(os, "macos-aarch64") || same_text(os, "macos-x86") {
            "apple-darwin"
        } else if same_text(os, "windows-x86_64") {
            "pc-windows-gnu"
        } else {
            return Err(UpdateError::UnsupportedOs(String::from_str(os)));
        };
        Ok(String::from_str(arch_str).concat("-").concat(system))
    }
}

} // verus!
