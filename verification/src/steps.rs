//! The small rules of the setup steps: how often a sync is retried, how long a
//! removal waits before it tries again, when a long-running tool reports, and
//! the names of the uv executable and of its bootstrap directory.

use vstd::prelude::*;
use crate::layout::{parts, path_is_inside, path_starts_with, Platform};
use crate::text::{decimal, push_decimal, push_text, string_from};

verus! {

/// Retries of the dependency sync after its first attempt.
pub const MAX_SYNC_RETRIES: usize = 20;

/// Attempts at removing an entry of the runtime.
pub const CLEANUP_RETRIES: usize = 20;

/// After attempt `retry` (counted from 0) of the sync failed: the number of the
/// retry to report before the next attempt, or none when no retry is left.
pub fn retry_after_failure(retry: usize) -> (r: Option<usize>)
    requires
        retry <= MAX_SYNC_RETRIES,
    ensures
        r == (if retry == MAX_SYNC_RETRIES {
            None
        } else {
            Some((retry + 1) as usize)
        }),
{
    if retry == MAX_SYNC_RETRIES {
        None
    } else {
        Some(retry + 1)
    }
}

/// The pause after a failed removal: 250 ms, and 100 ms more for each attempt
/// before it.
pub fn cleanup_retry_delay_ms(attempt: usize) -> (ms: u64)
    requires
        attempt < CLEANUP_RETRIES,
    ensures
        ms == 250 + attempt * 100,
{
    250 + attempt as u64 * 100
}

/// A tool that runs for `elapsed_ticks` tenths of a second reports at the first
/// tick and at each full second.
pub fn should_report_tick(elapsed_ticks: u16) -> (r: bool)
    ensures
        r == (elapsed_ticks == 1 || elapsed_ticks % 10 == 0),
{
    elapsed_ticks == 1 || elapsed_ticks % 10 == 0
}

/// The file name of the uv executable: `uv.exe` on Windows, `uv` elsewhere.
pub fn uv_executable_name(platform: Platform) -> (r: &'static str)
    ensures
        r@ == (if platform == Platform::Windows {
            "uv.exe"@
        } else {
            "uv"@
        }),
{
    if platform == Platform::Windows {
        "uv.exe"
    } else {
        "uv"
    }
}

/// The temporary directory into which the launcher whose process id is `pid`
/// writes its embedded uv: `ntep-bootstrap-<pid>`.
pub fn bootstrap_dir_name(pid: u32) -> (r: String)
    ensures
        r@ == "ntep-bootstrap-"@ + decimal(pid as nat),
{
    let mut cs: Vec<char> = Vec::new();
    push_text(&mut cs, "ntep-bootstrap-");
    push_decimal(pid as u64, &mut cs);
    string_from(cs.as_slice())
}

/// What the Python setup has to do, given what is already in place.
#[derive(Clone, Copy, Debug, PartialEq, Eq, Structural)]
pub enum PythonSetupPlan {
    /// The virtual environment works and the managed Python is there.
    Ready,
    /// The managed Python is there; the virtual environment is made again.
    CreateVenv,
    /// The managed Python is downloaded first, then the environment is made.
    DownloadThenCreateVenv,
}

pub fn python_setup_plan(venv_works: bool, managed_python_present: bool) -> (r: PythonSetupPlan)
    ensures
        r == (if venv_works && managed_python_present {
            PythonSetupPlan::Ready
        } else if managed_python_present {
            PythonSetupPlan::CreateVenv
        } else {
            PythonSetupPlan::DownloadThenCreateVenv
        }),
{
    if venv_works && managed_python_present {
        PythonSetupPlan::Ready
    } else if managed_python_present {
        PythonSetupPlan::CreateVenv
    } else {
        PythonSetupPlan::DownloadThenCreateVenv
    }
}

/// What follows a download attempt from mirror `index` of `count`.
#[derive(Clone, Copy, Debug, PartialEq, Eq, Structural)]
pub enum MirrorStep {
    /// Python is downloaded.
    Downloaded,
    /// Try the mirror with this index.
    TryMirror(usize),
    /// Every mirror failed.
    AllFailed,
}

/// The mirrors are tried in order until one succeeds.
pub fn after_mirror_attempt(index: usize, succeeded: bool, count: usize) -> (r: MirrorStep)
    requires
        index < count,
    ensures
        r == (if succeeded {
            MirrorStep::Downloaded
        } else if index + 1 < count {
            MirrorStep::TryMirror((index + 1) as usize)
        } else {
            MirrorStep::AllFailed
        }),
{
    if succeeded {
        MirrorStep::Downloaded
    } else if index + 1 < count {
        MirrorStep::TryMirror(index + 1)
    } else {
        MirrorStep::AllFailed
    }
}

/// What follows a scan of the port while the launcher waits for it to be freed.
#[derive(Clone, Copy, Debug, PartialEq, Eq, Structural)]
pub enum PortWaitStep {
    /// No process holds the port any more.
    Released,
    /// Some process still holds it: wait and scan again.
    KeepWaiting,
    /// The scan failed: stop waiting.
    GiveUp,
}

pub fn after_port_scan(scan_succeeded: bool, holders: usize) -> (r: PortWaitStep)
    ensures
        r == (if !scan_succeeded {
            PortWaitStep::GiveUp
        } else if holders == 0 {
            PortWaitStep::Released
        } else {
            PortWaitStep::KeepWaiting
        }),
{
    if !scan_succeeded {
        PortWaitStep::GiveUp
    } else if holders == 0 {
        PortWaitStep::Released
    } else {
        PortWaitStep::KeepWaiting
    }
}

/// A process of the runtime, to be killed before the runtime is cleaned: not
/// the launcher itself, and its executable or its working directory (made
/// canonical, when they could be) lies in the workspace.
pub open spec fn runtime_process(
    pid: u32,
    current_pid: u32,
    exe: Option<Seq<Seq<char>>>,
    cwd: Option<Seq<Seq<char>>>,
    workspace: Seq<Seq<char>>,
) -> bool {
    &&& pid != current_pid
    &&& {
        ||| (exe matches Some(e) && path_starts_with(e, workspace))
        ||| (cwd matches Some(c) && path_starts_with(c, workspace))
    }
}

/// A process other than the launcher is a runtime process as soon as its
/// executable lies in the workspace, whatever its working directory, and as soon
/// as its working directory does, whatever its executable; a process for which
/// neither lies there is not one, nor is the launcher itself.
pub proof fn lemma_runtime_process_either_path(
    pid: u32,
    current_pid: u32,
    exe: Option<Seq<Seq<char>>>,
    cwd: Option<Seq<Seq<char>>>,
    workspace: Seq<Seq<char>>,
)
    ensures
        pid != current_pid ==> ((exe matches Some(e) && e.len() >= workspace.len() && e.take(
            workspace.len() as int,
        ) == workspace) ==> runtime_process(pid, current_pid, exe, cwd, workspace)),
        pid != current_pid ==> ((cwd matches Some(c) && c.len() >= workspace.len() && c.take(
            workspace.len() as int,
        ) == workspace) ==> runtime_process(pid, current_pid, exe, cwd, workspace)),
        !(exe matches Some(e) && e.len() >= workspace.len() && e.take(workspace.len() as int)
            == workspace) && !(cwd matches Some(c) && c.len() >= workspace.len() && c.take(
            workspace.len() as int,
        ) == workspace) ==> !runtime_process(pid, current_pid, exe, cwd, workspace),
        !runtime_process(current_pid, current_pid, exe, cwd, workspace),
{
}

pub fn is_runtime_process(
    pid: u32,
    current_pid: u32,
    exe: Option<&[String]>,
    cwd: Option<&[String]>,
    workspace: &[String],
) -> (r: bool)
    ensures
        r == runtime_process(
            pid,
            current_pid,
            match exe {
                Some(e) => Some(parts(e@)),
                None => None,
            },
            match cwd {
                Some(c) => Some(parts(c@)),
                None => None,
            },
            parts(workspace@),
        ),
{
    if pid == current_pid {
        return false;
    }
    let by_exe = match exe {
        Some(e) => path_is_inside(e, workspace),
        None => false,
    };
    let by_cwd = match cwd {
        Some(c) => path_is_inside(c, workspace),
        None => false,
    };
    by_exe || by_cwd
}

/// The steps of the workspace setup that the splash screen reports, in the
/// order they come.
#[derive(Clone, Copy, Debug, PartialEq, Eq, Structural)]
pub enum SetupStage {
    PreparingWorkspace,
    CheckingPython,
    CheckingPythonVersion,
    DownloadingPython,
    CreatingVenv,
    CopyingTools,
    VerifyingDependencies,
    Finishing,
}

/// The place of a stage in the setup.
pub open spec fn stage_rank(stage: SetupStage) -> int {
    match stage {
        SetupStage::PreparingWorkspace => 0,
        SetupStage::CheckingPython => 1,
        SetupStage::CheckingPythonVersion => 2,
        SetupStage::DownloadingPython => 3,
        SetupStage::CreatingVenv => 4,
        SetupStage::CopyingTools => 5,
        SetupStage::VerifyingDependencies => 6,
        SetupStage::Finishing => 7,
    }
}

/// The progress that the splash screen shows when a stage begins.
pub open spec fn stage_progress_of(stage: SetupStage) -> u8 {
    match stage {
        SetupStage::PreparingWorkspace => 8,
        SetupStage::CheckingPython => 9,
        SetupStage::CheckingPythonVersion => 10,
        SetupStage::DownloadingPython => 11,
        SetupStage::CreatingVenv => 13,
        SetupStage::CopyingTools => 16,
        SetupStage::VerifyingDependencies => 64,
        SetupStage::Finishing => 94,
    }
}

pub fn stage_progress(stage: SetupStage) -> (p: u8)
    ensures
        p == stage_progress_of(stage),
{
    match stage {
        SetupStage::PreparingWorkspace => 8,
        SetupStage::CheckingPython => 9,
        SetupStage::CheckingPythonVersion => 10,
        SetupStage::DownloadingPython => 11,
        SetupStage::CreatingVenv => 13,
        SetupStage::CopyingTools => 16,
        SetupStage::VerifyingDependencies => 64,
        SetupStage::Finishing => 94,
    }
}

/// The setup only moves forward on the splash screen: a later stage never shows
/// less progress than an earlier one; the Python download moves between the
/// progress of its own stage and that of the next; and the dependency sync,
/// which never shows more than 90, stays below the finishing stage.
pub proof fn lemma_setup_moves_forward(a: SetupStage, b: SetupStage)
    ensures
        stage_rank(a) <= stage_rank(b) ==> stage_progress_of(a) <= stage_progress_of(b),
        stage_progress_of(SetupStage::DownloadingPython) < stage_progress_of(SetupStage::CreatingVenv),
        90 < stage_progress_of(SetupStage::Finishing),
        stage_progress_of(SetupStage::VerifyingDependencies) == 64,
{
}

} // verus!
