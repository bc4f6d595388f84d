use bevui_28::download::{
    download_destination, download_error_message, exit_code_string, install_next, DownloadFailure,
    InstallNext, InstallStep, StepReport,
};

#[test]
fn destination_is_below_home() {
    assert_eq!(
        download_destination(Some("/home/ada"), "breakout"),
        Ok("/home/ada/.debevl/apps/games/breakout".to_string())
    );
    assert_eq!(download_destination(None, "breakout"), Err("Could not determine home directory".to_string()));
}

#[test]
fn exit_codes_read_like_debug_output() {
    for code in [None, Some(0), Some(1), Some(128), Some(-1), Some(i32::MIN), Some(i32::MAX)] {
        assert_eq!(exit_code_string(code), format!("{:?}", code));
    }
}

#[test]
fn download_failures_are_explained() {
    assert_eq!(
        download_error_message(&DownloadFailure::GitExit(Some(128))),
        "git clone failed with exit status: Some(128)"
    );
    assert_eq!(
        download_error_message(&DownloadFailure::CargoExit(None)),
        "cargo build failed with exit status: None"
    );
    assert_eq!(
        download_error_message(&DownloadFailure::CreateParent("denied".to_string())),
        "Failed to create parent directory: denied"
    );
    assert_eq!(
        download_error_message(&DownloadFailure::ClearOld("busy".to_string())),
        "Failed to clear existing folder: busy"
    );
    assert_eq!(
        download_error_message(&DownloadFailure::RunGit("no git".to_string())),
        "Failed to execute git clone: no git"
    );
    assert_eq!(
        download_error_message(&DownloadFailure::RunCargo("no cargo".to_string())),
        "Failed to execute cargo build: no cargo"
    );
}

#[test]
fn install_steps_run_in_order() {
    assert_eq!(install_next(InstallStep::CreateParent, StepReport::Succeeded), InstallNext::Run(InstallStep::ClearOld));
    assert_eq!(install_next(InstallStep::CreateParent, StepReport::NothingToDo), InstallNext::Run(InstallStep::ClearOld));
    assert_eq!(install_next(InstallStep::ClearOld, StepReport::NothingToDo), InstallNext::Run(InstallStep::Clone));
    assert_eq!(install_next(InstallStep::Clone, StepReport::Succeeded), InstallNext::Run(InstallStep::Build));
    assert_eq!(install_next(InstallStep::Build, StepReport::NothingToDo), InstallNext::Installed);
    assert_eq!(install_next(InstallStep::Build, StepReport::Succeeded), InstallNext::Installed);
}

#[test]
fn install_stops_at_first_failure() {
    let e = || "denied".to_string();
    assert_eq!(
        install_next(InstallStep::CreateParent, StepReport::Error(e())),
        InstallNext::Failed("Failed to create parent directory: denied".to_string())
    );
    assert_eq!(
        install_next(InstallStep::ClearOld, StepReport::Error(e())),
        InstallNext::Failed("Failed to clear existing folder: denied".to_string())
    );
    assert_eq!(
        install_next(InstallStep::Clone, StepReport::Error(e())),
        InstallNext::Failed("Failed to execute git clone: denied".to_string())
    );
    assert_eq!(
        install_next(InstallStep::Clone, StepReport::ExitFailure(Some(128))),
        InstallNext::Failed("git clone failed with exit status: Some(128)".to_string())
    );
    assert_eq!(
        install_next(InstallStep::Build, StepReport::Error(e())),
        InstallNext::Failed("Failed to execute cargo build: denied".to_string())
    );
    assert_eq!(
        install_next(InstallStep::Build, StepReport::ExitFailure(None)),
        InstallNext::Failed("cargo build failed with exit status: None".to_string())
    );
}
