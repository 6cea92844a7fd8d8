use dead_store::update::revela::{
    get_arch, CpuArch, RevelaUpdateTool, CURRENT_REVELA_VERSION, TARGET_REVELA_TAG,
};
use dead_store::update::{
    plan_update, report_update, same_text, UpdateError, UpdateRequiredInfo, UpdateStatus, UpdateStep,
};

fn tool(tag: &str) -> RevelaUpdateTool {
    RevelaUpdateTool::new("verichains".to_string(), "revela".to_string(), tag.to_string(), None)
}

fn info(update_required: bool) -> UpdateRequiredInfo {
    UpdateRequiredInfo {
        update_required,
        current_version: "1.0.0-rc1".to_string(),
        target_version: "v1.0.0-rc2".to_string(),
        target_version_tag: "v1.0.0-rc2".to_string(),
    }
}

#[test]
fn default_target_tag_requires_an_update() {
    let found = tool(TARGET_REVELA_TAG).get_update_info().ok().unwrap();
    assert!(found.update_required);
    assert_eq!(found.current_version, "1.0.0-rc1");
    assert_eq!(found.current_version, CURRENT_REVELA_VERSION);
    assert_eq!(found.target_version, "v1.0.0-rc2");
    assert_eq!(found.target_version_tag, "v1.0.0-rc2");
}

#[test]
fn tag_of_the_current_version_requires_no_update() {
    let found = tool("v1.0.0-rc1").get_update_info().ok().unwrap();
    assert!(!found.update_required);
    assert_eq!(found.target_version, "v1.0.0-rc1");
}

#[test]
fn older_tag_requires_no_update() {
    assert!(!tool("v0.9.0").get_update_info().ok().unwrap().update_required);
    // A release is greater than its own release candidates.
    assert!(tool("v1.0.0").get_update_info().ok().unwrap().update_required);
    assert!(tool("2.1.3").get_update_info().ok().unwrap().update_required);
}

#[test]
fn every_letter_v_is_taken_out_of_the_tag() {
    // "vv1.2.3" is no version until both letters are gone.
    assert!(tool("vv1.2.3").get_update_info().ok().unwrap().update_required);
    // "1.0.0-dev" loses its `v` too: "1.0.0-de" is a smaller pre-release than "rc1".
    let found = tool("1.0.0-dev").get_update_info().ok().unwrap();
    assert!(!found.update_required);
    assert_eq!(found.target_version_tag, "1.0.0-dev");
}

#[test]
fn tag_that_is_no_version_is_an_error() {
    assert!(matches!(
        tool("latest").get_update_info(),
        Err(UpdateError::VersionCompare(_))
    ));
    assert!(matches!(tool("").get_update_info(), Err(UpdateError::VersionCompare(_))));
}

#[test]
fn update_info_carries_the_tag_twice() {
    let found = tool("v3.0.0").update_info(false);
    assert!(!found.update_required);
    assert_eq!(found.current_version, "1.0.0-rc1");
    assert_eq!(found.target_version, "v3.0.0");
    assert_eq!(found.target_version_tag, "v3.0.0");
}

#[test]
fn names_of_the_tool() {
    assert_eq!(tool("v1.0.0").pretty_name(), "Revela");
    assert_eq!(tool("v1.0.0").command_name(), "UpdateRevela");
    assert_eq!(TARGET_REVELA_TAG, "v1.0.0-rc2");
}

#[test]
fn architecture_names() {
    assert_eq!(get_arch(CpuArch::X86_64), "x86_64");
    assert_eq!(get_arch(CpuArch::Aarch64), "aarch64");
}

#[test]
fn release_target_for_each_platform() {
    let target = |arch, os| RevelaUpdateTool::release_target(arch, Some(os)).ok().unwrap();
    assert_eq!(target(CpuArch::X86_64, "linux-x86_64"), "x86_64-unknown-linux-gnu");
    assert_eq!(target(CpuArch::Aarch64, "linux-aarch64"), "aarch64-unknown-linux-gnu");
    assert_eq!(target(CpuArch::Aarch64, "macos-aarch64"), "aarch64-apple-darwin");
    assert_eq!(target(CpuArch::X86_64, "macos-x86"), "x86_64-apple-darwin");
    assert_eq!(target(CpuArch::X86_64, "windows-x86_64"), "x86_64-pc-windows-gnu");
}

#[test]
fn release_target_for_an_unknown_platform_is_an_error() {
    match RevelaUpdateTool::release_target(CpuArch::X86_64, Some("freebsd-x86_64")) {
        Err(UpdateError::UnsupportedOs(os)) => assert_eq!(os, "freebsd-x86_64"),
        _ => panic!("expected an unsupported platform"),
    }
    assert!(matches!(
        RevelaUpdateTool::release_target(CpuArch::X86_64, Some("macos-x86_64")),
        Err(UpdateError::UnsupportedOs(_))
    ));
    assert!(matches!(
        RevelaUpdateTool::release_target(CpuArch::X86_64, None),
        Err(UpdateError::MissingBuildInfo)
    ));
}

#[test]
fn no_update_required_ends_the_run_with_a_message() {
    match plan_update(&info(false)) {
        UpdateStep::Done(message) => assert_eq!(message, "Already up to date (vv1.0.0-rc2)"),
        UpdateStep::Install => panic!("nothing to install"),
    }
    assert!(matches!(plan_update(&info(true)), UpdateStep::Install));
}

#[test]
fn report_after_an_update() {
    let status = UpdateStatus::Updated("v1.0.0-rc2".to_string());
    assert_eq!(
        report_update("Revela", &info(true), &status),
        "Successfully updated Revela from v1.0.0-rc1 to vv1.0.0-rc2"
    );
}

#[test]
fn texts_are_compared_letter_by_letter() {
    assert!(same_text("macos-x86", "macos-x86"));
    assert!(!same_text("macos-x86", "macos-x86_64"));
    assert!(same_text("", ""));
}
