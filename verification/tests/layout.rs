use ntep_launcher::steps::{stage_progress, SetupStage};
use ntep_launcher::steps::{after_mirror_attempt, after_port_scan, is_runtime_process, python_setup_plan, MirrorStep, PortWaitStep, PythonSetupPlan};
use ntep_launcher::layout::{
    cleanup_target_belongs_to_launcher, is_managed_python_dir, managed_python_candidates,
    mirror_label, path_entry_candidates, path_is_inside, primary_default_mirror,
    uv_python_install_mirrors, venv_bin_dir, venv_dir, venv_python, venv_python_install_dir,
    venv_uv, virtualenv_layout_entries, workspace_candidates, workspace_not_found_message,
    MirrorLabel, Platform,
};
use ntep_launcher::steps::{
    bootstrap_dir_name, cleanup_retry_delay_ms, retry_after_failure, should_report_tick,
    uv_executable_name, MAX_SYNC_RETRIES,
};
use ntep_launcher::tips::{current_tip_key, tip_key, TIPS_COUNT};

fn path(parts: &[&str]) -> Vec<String> {
    parts.iter().map(|s| s.to_string()).collect()
}

#[test]
fn workspace_candidates_in_app_bundle() {
    let exe = path(&["/", "Applications", "NTEP Launcher.app", "Contents", "MacOS"]);
    let c = workspace_candidates(&exe, Platform::MacOs);
    assert_eq!(c, vec![path(&["/", "Applications", "NTEP Launcher.app", "Contents", "NTEPilot"]), exe.clone()]);
    assert_eq!(workspace_candidates(&exe, Platform::Other), vec![exe.clone()]);
    let plain = path(&["/", "opt", "NTEPilot"]);
    assert_eq!(workspace_candidates(&plain, Platform::MacOs), vec![plain.clone()]);
}

#[test]
fn venv_paths_per_platform() {
    let ws = path(&["C:", "\\", "NTEPilot"]);
    assert_eq!(venv_dir(&ws), path(&["C:", "\\", "NTEPilot", ".venv"]));
    assert_eq!(venv_bin_dir(&ws, Platform::Windows), path(&["C:", "\\", "NTEPilot", ".venv", "Scripts"]));
    assert_eq!(venv_python(&ws, Platform::Windows), path(&["C:", "\\", "NTEPilot", ".venv", "Scripts", "python.exe"]));
    assert_eq!(venv_uv(&ws, Platform::Windows), path(&["C:", "\\", "NTEPilot", ".venv", "Scripts", "uv.exe"]));
    let ws = path(&["/", "opt", "NTEPilot"]);
    assert_eq!(venv_python(&ws, Platform::Other), path(&["/", "opt", "NTEPilot", ".venv", "bin", "python"]));
    assert_eq!(venv_uv(&ws, Platform::MacOs), path(&["/", "opt", "NTEPilot", ".venv", "bin", "uv"]));
    assert_eq!(venv_python_install_dir(&ws), path(&["/", "opt", "NTEPilot", ".venv", "python"]));
}

#[test]
fn paths_inside_compare_components() {
    let ws = path(&["/", "opt", "NTEPilot"]);
    assert!(path_is_inside(&path(&["/", "opt", "NTEPilot", ".venv", "bin", "python"]), &ws));
    assert!(path_is_inside(&ws, &ws));
    assert!(!path_is_inside(&path(&["/", "opt", "NTEPilot2"]), &ws));
    assert!(!path_is_inside(&path(&["/", "opt"]), &ws));
}

#[test]
fn cleanup_only_in_launcher_directory() {
    let exe = path(&["/", "A", "NTEP Launcher.app", "Contents", "MacOS"]);
    assert!(cleanup_target_belongs_to_launcher(&exe, &exe, Platform::Other));
    let inside = path(&["/", "A", "NTEP Launcher.app", "Contents", "NTEPilot"]);
    assert!(cleanup_target_belongs_to_launcher(&inside, &exe, Platform::MacOs));
    assert!(!cleanup_target_belongs_to_launcher(&inside, &exe, Platform::Other));
    assert!(!cleanup_target_belongs_to_launcher(&path(&["/", "tmp"]), &exe, Platform::MacOs));
}

#[test]
fn workspace_missing_message_names_markers() {
    assert_eq!(
        workspace_not_found_message(Platform::Other),
        "Cannot find NTEPilot workspace. Expected main.py, pyproject.toml, and uv.lock next to the launcher."
    );
    assert_eq!(
        workspace_not_found_message(Platform::MacOs),
        "Cannot find NTEPilot workspace. Expected main.py, pyproject.toml, and uv.lock next to the launcher or in NTEP Launcher.app/Contents/NTEPilot."
    );
}

#[test]
fn virtualenv_layout_per_platform() {
    assert_eq!(virtualenv_layout_entries(Platform::Windows), vec!["Scripts", "Lib", "Include", "pyvenv.cfg"]);
    assert_eq!(virtualenv_layout_entries(Platform::Other), vec!["bin", "lib", "include", "pyvenv.cfg"]);
}

#[test]
fn managed_python_lookup() {
    assert!(is_managed_python_dir("cpython-3.14.3-linux-x86_64-gnu"));
    assert!(!is_managed_python_dir("cpython-3.14.2-linux-x86_64-gnu"));
    assert!(!is_managed_python_dir("cpython-3.14.3"));
    let dir = path(&["/", "p"]);
    assert_eq!(managed_python_candidates(&dir, Platform::Windows), vec![path(&["/", "p", "python.exe"])]);
    assert_eq!(
        managed_python_candidates(&dir, Platform::Other),
        vec![path(&["/", "p", "bin", "python3.14"]), path(&["/", "p", "bin", "python"])]
    );
}

#[test]
fn path_entries_for_executables() {
    let dir = path(&["/", "usr", "bin"]);
    assert_eq!(path_entry_candidates(&dir, "uv", Platform::Other), vec![path(&["/", "usr", "bin", "uv"])]);
    assert_eq!(
        path_entry_candidates(&dir, "uv", Platform::Windows),
        vec![path(&["/", "usr", "bin", "uv"]), path(&["/", "usr", "bin", "uv.exe"])]
    );
}

#[test]
fn mirrors_default_or_configured() {
    assert_eq!(uv_python_install_mirrors(Some("https://m".into())), vec!["https://m".to_string()]);
    let d = uv_python_install_mirrors(None);
    assert_eq!(d.len(), 3);
    assert_eq!(d[0], primary_default_mirror());
    assert_eq!(mirror_label(0), MirrorLabel::Primary);
    assert_eq!(mirror_label(2), MirrorLabel::Fallback);
}

#[test]
fn retries_and_ticks() {
    assert_eq!(retry_after_failure(0), Some(1));
    assert_eq!(retry_after_failure(19), Some(20));
    assert_eq!(retry_after_failure(MAX_SYNC_RETRIES), None);
    assert_eq!(cleanup_retry_delay_ms(0), 250);
    assert_eq!(cleanup_retry_delay_ms(19), 2150);
    assert!(should_report_tick(1));
    assert!(should_report_tick(20));
    assert!(!should_report_tick(2));
    assert_eq!(uv_executable_name(Platform::Windows), "uv.exe");
    assert_eq!(uv_executable_name(Platform::MacOs), "uv");
    assert_eq!(bootstrap_dir_name(77), "ntep-bootstrap-77");
}

#[test]
fn tips_cycle_through_keys() {
    assert_eq!(TIPS_COUNT, 19);
    assert_eq!(tip_key(0), "tips.0");
    assert_eq!(tip_key(20), "tips.1");
    assert_eq!(tip_key(1_700_000_000), format!("tips.{}", 1_700_000_000usize % 19));
    let k = current_tip_key();
    let idx: usize = k.strip_prefix("tips.").unwrap().parse().unwrap();
    assert!(idx < 19);
}

#[test]
fn runtime_paths_lie_in_workspace() {
    let ws = path(&["/", "srv", "NTEPilot"]);
    for platform in [Platform::Windows, Platform::MacOs, Platform::Other] {
        assert!(path_is_inside(&venv_dir(&ws), &ws));
        assert!(path_is_inside(&venv_bin_dir(&ws, platform), &ws));
        assert!(path_is_inside(&venv_python(&ws, platform), &ws));
        assert!(path_is_inside(&venv_uv(&ws, platform), &ws));
        assert!(path_is_inside(&venv_python_install_dir(&ws), &ws));
    }
}

#[test]
fn runtime_process_detection() {
    let ws = path(&["/", "srv", "NTEPilot"]);
    let inside = path(&["/", "srv", "NTEPilot", ".venv", "bin", "python"]);
    let outside = path(&["/", "usr", "bin", "python"]);
    assert!(is_runtime_process(5, 1, Some(&inside), None, &ws));
    assert!(is_runtime_process(5, 1, Some(&outside), Some(&ws), &ws));
    assert!(!is_runtime_process(5, 1, Some(&outside), None, &ws));
    assert!(!is_runtime_process(1, 1, Some(&inside), Some(&inside), &ws));
    assert_eq!(python_setup_plan(true, true), PythonSetupPlan::Ready);
    assert_eq!(python_setup_plan(false, true), PythonSetupPlan::CreateVenv);
    assert_eq!(python_setup_plan(true, false), PythonSetupPlan::DownloadThenCreateVenv);
    assert_eq!(after_mirror_attempt(0, true, 3), MirrorStep::Downloaded);
    assert_eq!(after_mirror_attempt(0, false, 3), MirrorStep::TryMirror(1));
    assert_eq!(after_mirror_attempt(2, false, 3), MirrorStep::AllFailed);
    assert_eq!(after_port_scan(true, 0), PortWaitStep::Released);
    assert_eq!(after_port_scan(true, 2), PortWaitStep::KeepWaiting);
    assert_eq!(after_port_scan(false, 0), PortWaitStep::GiveUp);
}

#[test]
fn setup_stages_move_forward() {
    use_stages();
}

fn use_stages() {
    let order = [
        SetupStage::PreparingWorkspace,
        SetupStage::CheckingPython,
        SetupStage::CheckingPythonVersion,
        SetupStage::DownloadingPython,
        SetupStage::CreatingVenv,
        SetupStage::CopyingTools,
        SetupStage::VerifyingDependencies,
        SetupStage::Finishing,
    ];
    let progress: Vec<u8> = order.iter().map(|s| stage_progress(*s)).collect();
    assert_eq!(progress, vec![8, 9, 10, 11, 13, 16, 64, 94]);
}
