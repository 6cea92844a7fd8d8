//! What a binary self-updater decides: whether an update is due, which
//! release to fetch, and what to report.
//!
//! Fetching and replacing the binary is the caller's work. The functions here
//! take what the caller found out and say what follows from it.
use vstd::prelude::*;
use vstd::string::StringExecFns;

pub mod revela;
pub mod tool;

verus! {

/// What an update check found.
#[derive(Debug)]
pub struct UpdateRequiredInfo {
    pub update_required: bool,
    pub current_version: String,
    pub target_version: String,
    pub target_version_tag: String,
}

/// How a run of the updater ended. The text is the version tag.
#[derive(Debug)]
pub enum UpdateStatus {
    UpToDate(String),
    Updated(String),
}

/// What the updater does once the update check has come back.
#[derive(Debug)]
pub enum UpdateStep {
    /// Nothing to do; the text is the message for the user.
    Done(String),
    /// Fetch the target release and replace the binary.
    Install,
}

/// Why an update could not be prepared.
pub enum UpdateError {
    /// The current and the target version could not be compared.
    VersionCompare(self_update::errors::Error),
    /// The platform the running binary was built for is not known.
    MissingBuildInfo,
    /// No release is published for the platform of this name.
    UnsupportedOs(String),
}

/// The error that a failed version comparison of `self_update` returns.
#[verifier::external_type_specification]
#[verifier::external_body]
pub struct ExSelfUpdateError(self_update::errors::Error);

/// The message that says the binary is at the target version already.
pub open spec fn up_to_date_text(target_version: Seq<char>) -> Seq<char> {
    "Already up to date (v"@ + target_version + ")"@
}

/// The message that says the binary has been updated.
pub open spec fn updated_text(
    pretty_name: Seq<char>,
    current_version: Seq<char>,
    target_version: Seq<char>,
) -> Seq<char> {
    "Successfully updated "@ + pretty_name + " from v"@ + current_version + " to v"@
        + target_version
}

/// Decides what follows an update check: with no update required the run is
/// over and the user is told so, else the release is to be installed.
pub fn plan_update(info: &UpdateRequiredInfo) -> (step: UpdateStep)
    ensures
        match step {
            UpdateStep::Done(message) => !info.update_required && message@ == up_to_date_text(
                info.target_version@,
            ),
            UpdateStep::Install => info.update_required,
        },
{
    if !info.update_required {
        let message = String::from_str("Already up to date (v").concat(
            info.target_version.as_str(),
        ).concat(")");
        UpdateStep::Done(message)
    } else {
        UpdateStep::Install
    }
}

/// The message for the user after the updater has replaced the binary.
///
/// The updater is only run when an update is required, so it cannot have
/// found the binary up to date.
pub fn report_update(pretty_name: &str, info: &UpdateRequiredInfo, status: &UpdateStatus) -> (message:
    String)
    requires
        status is Updated,
    ensures
        message@ == updated_text(pretty_name@, info.current_version@, info.target_version@),
{
    String::from_str("Successfully updated ").concat(pretty_name).concat(" from v").concat(
        info.current_version.as_str(),
    ).concat(" to v").concat(info.target_version.as_str())
}

/// Whether two texts are the same.
pub fn same_text(a: &str, b: &str) -> (same: bool)
    ensures
        same == (a@ == b@),
{
    a.to_owned() == b.to_owned()
}

} // verus!
