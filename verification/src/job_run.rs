//! Running one deployment job: the decisions between the agent's outside steps
//! (registry check, status reports, download, checksum, installer run, clean-up),
//! as a machine that takes what each step gave and says which step comes next.
use vstd::prelude::*;
use crate::agent::{is_success_code, is_success_status, JobInfo};
use crate::text::{decimal, push_decimal, push_signed_decimal, push_str, signed_decimal};

verus! {

/// The operating system family, which decides the shell the installer runs in.
#[derive(Clone, Copy, Debug, PartialEq, Eq, Structural)]
pub enum Platform {
    Windows,
    Unix,
}

/// Why a job run stopped before its end.
#[derive(Clone, Copy, Debug, PartialEq, Eq, Structural)]
pub enum JobError {
    /// A status report could not be posted.
    StatusNotPosted,
    /// The download request could not be made.
    RequestFailed,
    /// The downloaded package could not be written.
    SaveFailed,
    /// The saved package could not be read back for its checksum.
    ChecksumUnreadable,
    /// The installer could not be started.
    SpawnFailed,
}

/// Where a job run stands: which outside step it waits on.
#[derive(Clone, Copy, Debug, PartialEq, Eq, Structural)]
pub enum JobPhase {
    AwaitPrerequisites,
    AwaitSkipStatus,
    AwaitDownloadingStatus,
    AwaitDownload,
    AwaitDownloadFailedStatus,
    AwaitSave,
    AwaitVerifyingStatus,
    AwaitChecksum,
    AwaitMismatchStatus,
    AwaitMismatchRemoval,
    AwaitInstallingStatus,
    AwaitInstaller,
    AwaitLogs { exit_code: i32 },
    AwaitFinalStatus,
    AwaitCleanup,
    Done,
}

/// A status report for the server.
#[derive(Debug)]
pub struct StatusUpdate {
    pub status: String,
    pub exit_code: i32,
    pub message: String,
    pub need_reboot: bool,
}

/// How to start the installer: program, arguments and time limit; it runs in the
/// temporary directory that holds the package.
#[derive(Debug)]
pub struct InstallCommand {
    pub program: String,
    pub args: Vec<String>,
    pub timeout_seconds: u64,
}

/// Installer output for the server.
#[derive(Debug)]
pub struct LogEntry {
    pub log_type: String,
    pub content: String,
}

/// The next outside step of a job run.
#[derive(Debug)]
pub enum JobAction {
    /// Check the job's registry prerequisite.
    CheckPrerequisites,
    /// Post this status report.
    PostStatus(StatusUpdate),
    /// Remove any old package file, then request the package.
    Download,
    /// Write the response body to the package file.
    SaveBody,
    /// Compute the SHA-256 checksum of the package file.
    ComputeChecksum,
    /// Run the installer.
    RunInstaller(InstallCommand),
    /// Send these logs, ignoring failures.
    SendLogs(Vec<LogEntry>),
    /// Remove the package file, ignoring failures.
    RemoveFile,
    /// The run is over.
    Finish(Result<(), JobError>),
}

/// What an outside step gave.
#[derive(Debug)]
pub enum JobEvent {
    /// The prerequisite check's result.
    Prerequisites(bool),
    /// Whether the status report was posted.
    StatusPosted(bool),
    /// The download response's status code and its text (such as `404 Not Found`).
    Response { code: u16, status_text: String },
    /// The download request failed.
    RequestFailed,
    /// Whether the body was written.
    BodySaved(bool),
    /// The package file's checksum, or `None` when it could not be read.
    Checksum(Option<String>),
    /// The installer ended: its exit code, if any, and its output.
    Exited { exit_code: Option<i32>, stdout: String, stderr: String },
    /// Waiting for the installer failed, with the error's text.
    WaitFailed(String),
    /// The installer did not end within the time limit.
    TimedOut,
    /// The installer could not be started.
    SpawnFailed,
    /// The logs were sent (or failed to be).
    LogsSent,
    /// The package file was removed (or failed to be).
    FileRemoved,
}

/// A job run: the job, the platform and where the run stands.
#[derive(Debug)]
pub struct JobRun {
    pub job: JobInfo,
    pub platform: Platform,
    pub phase: JobPhase,
}

/// An action as a value.
pub enum Act {
    CheckPrerequisites,
    PostStatus { status: Seq<char>, exit_code: int, message: Seq<char>, need_reboot: bool },
    Download,
    SaveBody,
    ComputeChecksum,
    RunInstaller { program: Seq<char>, args: Seq<Seq<char>>, timeout_seconds: nat },
    SendLogs(Seq<(Seq<char>, Seq<char>)>),
    RemoveFile,
    Finish(Result<(), JobError>),
}

/// An event as a value.
pub enum Ev {
    Prerequisites(bool),
    StatusPosted(bool),
    Response { code: u16, status_text: Seq<char> },
    RequestFailed,
    BodySaved(bool),
    Checksum(Option<Seq<char>>),
    Exited { exit_code: Option<i32>, stdout: Seq<char>, stderr: Seq<char> },
    WaitFailed(Seq<char>),
    TimedOut,
    SpawnFailed,
    LogsSent,
    FileRemoved,
}

/// The value of an action.
pub open spec fn act_view(a: JobAction) -> Act {
    match a {
        JobAction::CheckPrerequisites => Act::CheckPrerequisites,
        JobAction::PostStatus(u) => Act::PostStatus {
            status: u.status@,
            exit_code: u.exit_code as int,
            message: u.message@,
            need_reboot: u.need_reboot,
        },
        JobAction::Download => Act::Download,
        JobAction::SaveBody => Act::SaveBody,
        JobAction::ComputeChecksum => Act::ComputeChecksum,
        JobAction::RunInstaller(c) => Act::RunInstaller {
            program: c.program@,
            args: c.args@.map_values(|s: String| s@),
            timeout_seconds: c.timeout_seconds as nat,
        },
        JobAction::SendLogs(l) => Act::SendLogs(l@.map_values(|e: LogEntry| (e.log_type@, e.content@))),
        JobAction::RemoveFile => Act::RemoveFile,
        JobAction::Finish(r) => Act::Finish(r),
    }
}

/// The value of an event.
pub open spec fn ev_view(e: JobEvent) -> Ev {
    match e {
        JobEvent::Prerequisites(b) => Ev::Prerequisites(b),
        JobEvent::StatusPosted(b) => Ev::StatusPosted(b),
        JobEvent::Response { code, status_text } => Ev::Response { code, status_text: status_text@ },
        JobEvent::RequestFailed => Ev::RequestFailed,
        JobEvent::BodySaved(b) => Ev::BodySaved(b),
        JobEvent::Checksum(c) => Ev::Checksum(
            match c {
                Some(s) => Some(s@),
                None => None,
            },
        ),
        JobEvent::Exited { exit_code, stdout, stderr } => Ev::Exited { exit_code, stdout: stdout@, stderr: stderr@ },
        JobEvent::WaitFailed(s) => Ev::WaitFailed(s@),
        JobEvent::TimedOut => Ev::TimedOut,
        JobEvent::SpawnFailed => Ev::SpawnFailed,
        JobEvent::LogsSent => Ev::LogsSent,
        JobEvent::FileRemoved => Ev::FileRemoved,
    }
}

/// A phase that waits for a status report to be posted.
pub open spec fn awaits_status(p: JobPhase) -> bool {
    match p {
        JobPhase::AwaitSkipStatus | JobPhase::AwaitDownloadingStatus | JobPhase::AwaitDownloadFailedStatus
        | JobPhase::AwaitVerifyingStatus | JobPhase::AwaitMismatchStatus | JobPhase::AwaitInstallingStatus
        | JobPhase::AwaitFinalStatus => true,
        _ => false,
    }
}

/// The events a phase waits for.
pub open spec fn accepts(p: JobPhase, e: Ev) -> bool {
    match p {
        JobPhase::AwaitPrerequisites => e is Prerequisites,
        JobPhase::AwaitDownload => e is Response || e is RequestFailed,
        JobPhase::AwaitSave => e is BodySaved,
        JobPhase::AwaitChecksum => e is Checksum,
        JobPhase::AwaitInstaller => e is Exited || e is WaitFailed || e is TimedOut || e is SpawnFailed,
        JobPhase::AwaitLogs { .. } => e is LogsSent,
        JobPhase::AwaitMismatchRemoval | JobPhase::AwaitCleanup => e is FileRemoved,
        JobPhase::Done => false,
        _ => awaits_status(p) && e is StatusPosted,
    }
}

/// A status report action.
pub open spec fn post(status: Seq<char>, exit_code: int, message: Seq<char>, need_reboot: bool) -> Act {
    Act::PostStatus { status, exit_code, message, need_reboot }
}

/// The report that ends an installer run with exit code `code`: success for 0, a
/// required reboot for 3010 (Windows' pending-reboot code), failure otherwise.
pub open spec fn outcome_report(code: int) -> Act {
    if code == 0 {
        post("success"@, 0, "Installation completed successfully."@, false)
    } else if code == 3010 {
        post("need_reboot"@, 3010, "Installation finished successfully. Reboot is required."@, true)
    } else {
        post("failed"@, code, "Installation failed with exit code "@ + signed_decimal(code), false)
    }
}

/// The installer command: `cmd /C <install command>` on Windows, `sh -c <install command>`
/// elsewhere, with the job's time limit.
pub open spec fn installer_of(job: JobInfo, platform: Platform) -> Act {
    match platform {
        Platform::Windows => Act::RunInstaller {
            program: "cmd"@,
            args: seq!["/C"@, job.install_command@],
            timeout_seconds: job.timeout_seconds as nat,
        },
        Platform::Unix => Act::RunInstaller {
            program: "sh"@,
            args: seq!["-c"@, job.install_command@],
            timeout_seconds: job.timeout_seconds as nat,
        },
    }
}

/// The logs sent for installer output: standard output, then standard error, each only
/// when not empty.
pub open spec fn output_logs(stdout: Seq<char>, stderr: Seq<char>) -> Seq<(Seq<char>, Seq<char>)> {
    (if stdout.len() > 0 {
        seq![("stdout"@, stdout)]
    } else {
        Seq::empty()
    }) + (if stderr.len() > 0 {
        seq![("stderr"@, stderr)]
    } else {
        Seq::empty()
    })
}

/// Where a job run goes on an accepted event, and the step it asks for next.
pub open spec fn next(job: JobInfo, platform: Platform, p: JobPhase, e: Ev) -> (JobPhase, Act) {
    match p {
        JobPhase::AwaitPrerequisites => match e {
            Ev::Prerequisites(true) => (
                JobPhase::AwaitSkipStatus,
                post("success"@, 0, "Already Installed (Skipped by pre-requisite registry check)"@, false),
            ),
            _ => (JobPhase::AwaitDownloadingStatus, post("downloading"@, 0, "Downloading package installer..."@, false)),
        },
        JobPhase::AwaitDownload => match e {
            Ev::Response { code, status_text } => if is_success_code(code) {
                (JobPhase::AwaitSave, Act::SaveBody)
            } else {
                (
                    JobPhase::AwaitDownloadFailedStatus,
                    post("failed"@, -1, "Download failed with status: "@ + status_text, false),
                )
            },
            _ => (JobPhase::Done, Act::Finish(Err(JobError::RequestFailed))),
        },
        JobPhase::AwaitSave => match e {
            Ev::BodySaved(true) => (
                JobPhase::AwaitVerifyingStatus,
                post("downloading"@, 0, "Verifying SHA256 checksum..."@, false),
            ),
            _ => (JobPhase::Done, Act::Finish(Err(JobError::SaveFailed))),
        },
        JobPhase::AwaitChecksum => match e {
            Ev::Checksum(Some(h)) => if h == job.sha256@ {
                (JobPhase::AwaitInstallingStatus, post("installing"@, 0, "Executing silent installation..."@, false))
            } else {
                (
                    JobPhase::AwaitMismatchStatus,
                    post(
                        "failed"@,
                        -1,
                        "SHA256 verification failed. Expected "@ + job.sha256@ + ", got "@ + h,
                        false,
                    ),
                )
            },
            _ => (JobPhase::Done, Act::Finish(Err(JobError::ChecksumUnreadable))),
        },
        JobPhase::AwaitInstaller => match e {
            Ev::Exited { exit_code, stdout, stderr } => {
                let c: int = match exit_code {
                    Some(v) => v as int,
                    None => -1,
                };
                if output_logs(stdout, stderr).len() > 0 {
                    (JobPhase::AwaitLogs { exit_code: c as i32 }, Act::SendLogs(output_logs(stdout, stderr)))
                } else {
                    (JobPhase::AwaitFinalStatus, outcome_report(c))
                }
            },
            Ev::WaitFailed(detail) => (
                JobPhase::AwaitFinalStatus,
                post("failed"@, -1, "Process wait error: "@ + detail, false),
            ),
            Ev::TimedOut => (
                JobPhase::AwaitFinalStatus,
                post(
                    "failed"@,
                    -1,
                    "Installation process timed out after "@ + decimal(job.timeout_seconds as nat) + " seconds."@,
                    false,
                ),
            ),
            _ => (JobPhase::Done, Act::Finish(Err(JobError::SpawnFailed))),
        },
        JobPhase::AwaitLogs { exit_code } => (JobPhase::AwaitFinalStatus, outcome_report(exit_code as int)),
        JobPhase::AwaitMismatchRemoval | JobPhase::AwaitCleanup => (JobPhase::Done, Act::Finish(Ok(()))),
        JobPhase::Done => (JobPhase::Done, Act::Finish(Ok(()))),
        _ => match e {
            Ev::StatusPosted(true) => match p {
                JobPhase::AwaitDownloadingStatus => (JobPhase::AwaitDownload, Act::Download),
                JobPhase::AwaitVerifyingStatus => (JobPhase::AwaitChecksum, Act::ComputeChecksum),
                JobPhase::AwaitMismatchStatus => (JobPhase::AwaitMismatchRemoval, Act::RemoveFile),
                JobPhase::AwaitInstallingStatus => (JobPhase::AwaitInstaller, installer_of(job, platform)),
                JobPhase::AwaitFinalStatus => (JobPhase::AwaitCleanup, Act::RemoveFile),
                _ => (JobPhase::Done, Act::Finish(Ok(()))),
            },
            _ => (JobPhase::Done, Act::Finish(Err(JobError::StatusNotPosted))),
        },
    }
}

/// A status report.
fn report(status: &str, exit_code: i32, message: String, need_reboot: bool) -> (a: JobAction)
    ensures
        act_view(a) == post(status@, exit_code as int, message@, need_reboot),
{
    JobAction::PostStatus(StatusUpdate { status: status.to_owned(), exit_code, message, need_reboot })
}

/// A report with a fixed message.
fn fixed_report(status: &str, exit_code: i32, message: &str, need_reboot: bool) -> (a: JobAction)
    ensures
        act_view(a) == post(status@, exit_code as int, message@, need_reboot),
{
    report(status, exit_code, message.to_owned(), need_reboot)
}

/// The report for an installer exit code.
fn outcome_action(code: i32) -> (a: JobAction)
    ensures
        act_view(a) == outcome_report(code as int),
{
    if code == 0 {
        fixed_report("success", 0, "Installation completed successfully.", false)
    } else if code == 3010 {
        fixed_report("need_reboot", 3010, "Installation finished successfully. Reboot is required.", true)
    } else {
        let mut m = String::new();
        push_str(&mut m, "Installation failed with exit code ");
        push_signed_decimal(&mut m, code as i64);
        report("failed", code, m, false)
    }
}

/// The installer command of a job.
fn installer_action(job: &JobInfo, platform: Platform) -> (a: JobAction)
    ensures
        act_view(a) == installer_of(*job, platform),
{
    let (program, flag) = match platform {
        Platform::Windows => ("cmd", "/C"),
        Platform::Unix => ("sh", "-c"),
    };
    let args: Vec<String> = vec![flag.to_owned(), job.install_command.clone()];
    assert(args@.map_values(|s: String| s@) =~= seq![flag@, job.install_command@]);
    JobAction::RunInstaller(InstallCommand {
        program: program.to_owned(),
        args,
        timeout_seconds: job.timeout_seconds,
    })
}

impl JobRun {
    /// Starts a run of `job`: its first step is the prerequisite check.
    pub fn start(job: JobInfo, platform: Platform) -> (r: (JobRun, JobAction))
        ensures
            r.0.job == job,
            r.0.platform == platform,
            r.0.phase == JobPhase::AwaitPrerequisites,
            act_view(r.1) == Act::CheckPrerequisites,
    {
        (JobRun { job, platform, phase: JobPhase::AwaitPrerequisites }, JobAction::CheckPrerequisites)
    }

    /// Whether the run waits for this event now.
    pub fn accepts(&self, event: &JobEvent) -> (r: bool)
        ensures
            r == accepts(self.phase, ev_view(*event)),
    {
        match self.phase {
            JobPhase::AwaitPrerequisites => matches!(event, JobEvent::Prerequisites(_)),
            JobPhase::AwaitDownload => matches!(event, JobEvent::Response { .. } | JobEvent::RequestFailed),
            JobPhase::AwaitSave => matches!(event, JobEvent::BodySaved(_)),
            JobPhase::AwaitChecksum => matches!(event, JobEvent::Checksum(_)),
            JobPhase::AwaitInstaller => matches!(
                event,
                JobEvent::Exited { .. } | JobEvent::WaitFailed(_) | JobEvent::TimedOut | JobEvent::SpawnFailed
            ),
            JobPhase::AwaitLogs { .. } => matches!(event, JobEvent::LogsSent),
            JobPhase::AwaitMismatchRemoval | JobPhase::AwaitCleanup => matches!(event, JobEvent::FileRemoved),
            JobPhase::Done => false,
            _ => matches!(event, JobEvent::StatusPosted(_)),
        }
    }

    /// Takes what the last step gave and returns the next step.
    pub fn step(&mut self, event: JobEvent) -> (a: JobAction)
        requires
            accepts(old(self).phase, ev_view(event)),
        ensures
            final(self).job == old(self).job,
            final(self).platform == old(self).platform,
            (final(self).phase, act_view(a)) == next(old(self).job, old(self).platform, old(self).phase, ev_view(event)),
    {
        let (phase, action) = match self.phase {
            JobPhase::AwaitPrerequisites => match event {
                JobEvent::Prerequisites(true) => (
                    JobPhase::AwaitSkipStatus,
                    fixed_report("success", 0, "Already Installed (Skipped by pre-requisite registry check)", false),
                ),
                _ => (
                    JobPhase::AwaitDownloadingStatus,
                    fixed_report("downloading", 0, "Downloading package installer...", false),
                ),
            },
            JobPhase::AwaitDownload => match event {
                JobEvent::Response { code, status_text } => {
                    if is_success_status(code) {
                        (JobPhase::AwaitSave, JobAction::SaveBody)
                    } else {
                        let mut m = String::new();
                        push_str(&mut m, "Download failed with status: ");
                        push_str(&mut m, status_text.as_str());
                        (JobPhase::AwaitDownloadFailedStatus, report("failed", -1, m, false))
                    }
                },
                _ => (JobPhase::Done, JobAction::Finish(Err(JobError::RequestFailed))),
            },
            JobPhase::AwaitSave => match event {
                JobEvent::BodySaved(true) => (
                    JobPhase::AwaitVerifyingStatus,
                    fixed_report("downloading", 0, "Verifying SHA256 checksum...", false),
                ),
                _ => (JobPhase::Done, JobAction::Finish(Err(JobError::SaveFailed))),
            },
            JobPhase::AwaitChecksum => match event {
                JobEvent::Checksum(Some(h)) => {
                    if h == self.job.sha256 {
                        (
                            JobPhase::AwaitInstallingStatus,
                            fixed_report("installing", 0, "Executing silent installation...", false),
                        )
                    } else {
                        let mut m = String::new();
                        push_str(&mut m, "SHA256 verification failed. Expected ");
                        push_str(&mut m, self.job.sha256.as_str());
                        push_str(&mut m, ", got ");
                        push_str(&mut m, h.as_str());
                        (JobPhase::AwaitMismatchStatus, report("failed", -1, m, false))
                    }
                },
                _ => (JobPhase::Done, JobAction::Finish(Err(JobError::ChecksumUnreadable))),
            },
            JobPhase::AwaitInstaller => match event {
                JobEvent::Exited { exit_code, stdout, stderr } => {
                    let c: i32 = match exit_code {
                        Some(v) => v,
                        None => -1,
                    };
                    let mut logs: Vec<LogEntry> = Vec::new();
                    let ghost want = output_logs(stdout@, stderr@);
                    if !stdout.as_str().is_empty() {
                        logs.push(LogEntry { log_type: "stdout".to_owned(), content: stdout });
                    }
                    if !stderr.as_str().is_empty() {
                        logs.push(LogEntry { log_type: "stderr".to_owned(), content: stderr });
                    }
                    assert(logs@.map_values(|e: LogEntry| (e.log_type@, e.content@)) =~= want);
                    if logs.len() > 0 {
                        (JobPhase::AwaitLogs { exit_code: c }, JobAction::SendLogs(logs))
                    } else {
                        (JobPhase::AwaitFinalStatus, outcome_action(c))
                    }
                },
                JobEvent::WaitFailed(detail) => {
                    let mut m = String::new();
                    push_str(&mut m, "Process wait error: ");
                    push_str(&mut m, detail.as_str());
                    (JobPhase::AwaitFinalStatus, report("failed", -1, m, false))
                },
                JobEvent::TimedOut => {
                    let mut m = String::new();
                    push_str(&mut m, "Installation process timed out after ");
                    push_decimal(&mut m, self.job.timeout_seconds);
                    push_str(&mut m, " seconds.");
                    (JobPhase::AwaitFinalStatus, report("failed", -1, m, false))
                },
                _ => (JobPhase::Done, JobAction::Finish(Err(JobError::SpawnFailed))),
            },
            JobPhase::AwaitLogs { exit_code } => (JobPhase::AwaitFinalStatus, outcome_action(exit_code)),
            JobPhase::AwaitMismatchRemoval | JobPhase::AwaitCleanup => (JobPhase::Done, JobAction::Finish(Ok(()))),
            JobPhase::Done => (JobPhase::Done, JobAction::Finish(Ok(()))),
            _ => match event {
                JobEvent::StatusPosted(true) => match self.phase {
                    JobPhase::AwaitDownloadingStatus => (JobPhase::AwaitDownload, JobAction::Download),
                    JobPhase::AwaitVerifyingStatus => (JobPhase::AwaitChecksum, JobAction::ComputeChecksum),
                    JobPhase::AwaitMismatchStatus => (JobPhase::AwaitMismatchRemoval, JobAction::RemoveFile),
                    JobPhase::AwaitInstallingStatus => (
                        JobPhase::AwaitInstaller,
                        installer_action(&self.job, self.platform),
                    ),
                    JobPhase::AwaitFinalStatus => (JobPhase::AwaitCleanup, JobAction::RemoveFile),
                    _ => (JobPhase::Done, JobAction::Finish(Ok(()))),
                },
                _ => (JobPhase::Done, JobAction::Finish(Err(JobError::StatusNotPosted))),
            },
        };
        self.phase = phase;
        action
    }
}

/// The actions a run asks for, one per event, from phase `p`.
pub open spec fn actions_of(job: JobInfo, platform: Platform, p: JobPhase, evs: Seq<Ev>) -> Seq<Act>
    decreases evs.len(),
{
    if evs.len() == 0 {
        Seq::empty()
    } else {
        let (q, a) = next(job, platform, p, evs[0]);
        seq![a] + actions_of(job, platform, q, evs.drop_first())
    }
}

proof fn lemma_actions_len(job: JobInfo, platform: Platform, p: JobPhase, evs: Seq<Ev>)
    ensures
        actions_of(job, platform, p, evs).len() == evs.len(),
    decreases evs.len(),
{
    if evs.len() > 0 {
        lemma_actions_len(job, platform, next(job, platform, p, evs[0]).0, evs.drop_first());
    }
}

/// Each event of `evs` is one the run waits for when it comes.
pub open spec fn valid_events(job: JobInfo, platform: Platform, p: JobPhase, evs: Seq<Ev>) -> bool
    decreases evs.len(),
{
    evs.len() == 0 || (accepts(p, evs[0]) && valid_events(job, platform, next(job, platform, p, evs[0]).0, evs.drop_first()))
}

/// The phases from the installing report on, reached only through a matching checksum.
pub open spec fn after_verification(p: JobPhase) -> bool {
    match p {
        JobPhase::AwaitInstallingStatus | JobPhase::AwaitInstaller | JobPhase::AwaitLogs { .. }
        | JobPhase::AwaitFinalStatus | JobPhase::AwaitCleanup => true,
        _ => false,
    }
}

proof fn lemma_installer_after_checksum(job: JobInfo, platform: Platform, p: JobPhase, evs: Seq<Ev>)
    requires
        !after_verification(p),
        valid_events(job, platform, p, evs),
    ensures
        forall|k: int| 0 <= k < evs.len() && (#[trigger] actions_of(job, platform, p, evs)[k]) is RunInstaller
            ==> exists|j: int| 0 <= j < k && evs[j] == Ev::Checksum(Some(job.sha256@)),
    decreases evs.len(),
{
    if evs.len() > 0 {
        let (q, a) = next(job, platform, p, evs[0]);
        let rest = evs.drop_first();
        let acts = actions_of(job, platform, p, evs);
        lemma_actions_len(job, platform, q, rest);
        assert(acts == seq![a] + actions_of(job, platform, q, rest));
        assert(!(a is RunInstaller));
        if !after_verification(q) {
            lemma_installer_after_checksum(job, platform, q, rest);
            assert forall|k: int| 0 <= k < evs.len() && (#[trigger] acts[k]) is RunInstaller
                implies exists|j: int| 0 <= j < k && evs[j] == Ev::Checksum(Some(job.sha256@)) by {
                assert(k >= 1);
                assert(acts[k] == actions_of(job, platform, q, rest)[k - 1]);
                let j = choose|j: int| 0 <= j < k - 1 && rest[j] == Ev::Checksum(Some(job.sha256@));
                assert(evs[j + 1] == rest[j]);
            }
        } else {
            assert(evs[0] == Ev::Checksum(Some(job.sha256@)));
            assert forall|k: int| 0 <= k < evs.len() && (#[trigger] acts[k]) is RunInstaller
                implies exists|j: int| 0 <= j < k && evs[j] == Ev::Checksum(Some(job.sha256@)) by {
                assert(k >= 1);
            }
        }
    }
}

/// Law: the installer is run only after the downloaded package's checksum was found equal
/// to the job's expected SHA-256: in any run, every `RunInstaller` step comes after a
/// checksum event carrying exactly the job's `sha256` text.
pub proof fn installer_runs_only_after_matching_checksum(job: JobInfo, platform: Platform, evs: Seq<Ev>)
    requires
        valid_events(job, platform, JobPhase::AwaitPrerequisites, evs),
    ensures
        forall|k: int| 0 <= k < evs.len() && (#[trigger] actions_of(job, platform, JobPhase::AwaitPrerequisites, evs)[k]) is RunInstaller
            ==> exists|j: int| 0 <= j < k && evs[j] == Ev::Checksum(Some(job.sha256@)),
{
    lemma_installer_after_checksum(job, platform, JobPhase::AwaitPrerequisites, evs);
}

/// How many more events a run can take from a phase at most.
pub open spec fn steps_left(p: JobPhase) -> nat {
    match p {
        JobPhase::AwaitPrerequisites => 11,
        JobPhase::AwaitDownloadingStatus => 10,
        JobPhase::AwaitDownload => 9,
        JobPhase::AwaitSave => 8,
        JobPhase::AwaitVerifyingStatus => 7,
        JobPhase::AwaitChecksum => 6,
        JobPhase::AwaitInstallingStatus => 5,
        JobPhase::AwaitInstaller => 4,
        JobPhase::AwaitLogs { .. } => 3,
        JobPhase::AwaitFinalStatus => 2,
        JobPhase::AwaitMismatchStatus => 2,
        JobPhase::AwaitCleanup => 1,
        JobPhase::AwaitMismatchRemoval => 1,
        JobPhase::AwaitDownloadFailedStatus => 1,
        JobPhase::AwaitSkipStatus => 1,
        JobPhase::Done => 0,
    }
}

proof fn lemma_run_length(job: JobInfo, platform: Platform, p: JobPhase, evs: Seq<Ev>)
    requires
        valid_events(job, platform, p, evs),
    ensures
        evs.len() <= steps_left(p),
    decreases evs.len(),
{
    if evs.len() > 0 {
        let q = next(job, platform, p, evs[0]).0;
        assert(steps_left(q) < steps_left(p));
        lemma_run_length(job, platform, q, evs.drop_first());
    }
}

/// Law: a job run always comes to an end: it takes at most eleven events, each accepted
/// event moves it strictly forward, the step that brings it to `Done` is exactly the one
/// that finishes it, and `Done` waits for nothing.
pub proof fn job_runs_end(job: JobInfo, platform: Platform, p: JobPhase, e: Ev, evs: Seq<Ev>)
    ensures
        valid_events(job, platform, JobPhase::AwaitPrerequisites, evs) ==> evs.len() <= 11,
        accepts(p, e) ==> steps_left(next(job, platform, p, e).0) < steps_left(p),
        accepts(p, e) ==> (next(job, platform, p, e).0 == JobPhase::Done <==> next(job, platform, p, e).1 is Finish),
        !accepts(JobPhase::Done, e),
{
    if valid_events(job, platform, JobPhase::AwaitPrerequisites, evs) {
        lemma_run_length(job, platform, JobPhase::AwaitPrerequisites, evs);
    }
}

/// Law: a status report that cannot be posted stops the run at once with
/// `StatusNotPosted`, whatever report it was.
pub proof fn unposted_status_stops_run(job: JobInfo, platform: Platform, p: JobPhase)
    requires
        awaits_status(p),
    ensures
        next(job, platform, p, Ev::StatusPosted(false)) == (JobPhase::Done, Act::Finish(Err(JobError::StatusNotPosted))),
{
}

/// The phases after the installer was started, from which only the clean-up finishes well.
pub open spec fn after_install(p: JobPhase) -> bool {
    match p {
        JobPhase::AwaitInstaller | JobPhase::AwaitLogs { .. } | JobPhase::AwaitFinalStatus => true,
        _ => false,
    }
}

proof fn lemma_cleanup_before_success(job: JobInfo, platform: Platform, p: JobPhase, evs: Seq<Ev>)
    requires
        after_install(p),
        valid_events(job, platform, p, evs),
    ensures
        forall|m: int| 0 <= m < evs.len() && #[trigger] actions_of(job, platform, p, evs)[m] == Act::Finish(Ok(()))
            ==> exists|r: int| 0 <= r < m && actions_of(job, platform, p, evs)[r] == Act::RemoveFile,
    decreases evs.len(),
{
    if evs.len() > 0 {
        let (q, a) = next(job, platform, p, evs[0]);
        let rest = evs.drop_first();
        let acts = actions_of(job, platform, p, evs);
        let tail = actions_of(job, platform, q, rest);
        lemma_actions_len(job, platform, q, rest);
        assert(acts == seq![a] + tail);
        assert(a != Act::Finish(Ok(())));
        if after_install(q) {
            lemma_cleanup_before_success(job, platform, q, rest);
            assert forall|m: int| 0 <= m < evs.len() && #[trigger] acts[m] == Act::Finish(Ok(()))
                implies exists|r: int| 0 <= r < m && acts[r] == Act::RemoveFile by {
                assert(acts[m] == tail[m - 1]);
                let r = choose|r: int| 0 <= r < m - 1 && tail[r] == Act::RemoveFile;
                assert(acts[r + 1] == tail[r]);
            }
        } else if q == JobPhase::AwaitCleanup {
            assert(a == Act::RemoveFile);
            assert forall|m: int| 0 <= m < evs.len() && #[trigger] acts[m] == Act::Finish(Ok(()))
                implies exists|r: int| 0 <= r < m && acts[r] == Act::RemoveFile by {
                assert(m != 0);
                assert(acts[0] == Act::RemoveFile);
            }
        } else {
            assert(q == JobPhase::Done);
            assert(valid_events(job, platform, q, rest));
            if rest.len() > 0 {
                assert(!accepts(q, rest[0]));
            }
            assert(rest.len() == 0);
        }
    }
}

/// Law: once the installer was started, a run that ends well has removed the package
/// file first: every `Finish(Ok)` after a `RunInstaller` step comes after a `RemoveFile` step
/// that follows it.
pub proof fn package_removed_after_install(job: JobInfo, platform: Platform, evs: Seq<Ev>, k: int, m: int)
    requires
        valid_events(job, platform, JobPhase::AwaitPrerequisites, evs),
        0 <= k < m < evs.len(),
        actions_of(job, platform, JobPhase::AwaitPrerequisites, evs)[k] is RunInstaller,
        actions_of(job, platform, JobPhase::AwaitPrerequisites, evs)[m] == Act::Finish(Ok(())),
    ensures
        exists|r: int| k < r < m && actions_of(job, platform, JobPhase::AwaitPrerequisites, evs)[r] == Act::RemoveFile,
{
    lemma_actions_len(job, platform, JobPhase::AwaitPrerequisites, evs);
    lemma_suffix_after_install(job, platform, JobPhase::AwaitPrerequisites, evs, k);
    let p = phase_after(job, platform, JobPhase::AwaitPrerequisites, evs.take(k + 1));
    let rest = evs.skip(k + 1);
    lemma_cleanup_before_success(job, platform, p, rest);
    let tail = actions_of(job, platform, p, rest);
    lemma_actions_len(job, platform, p, rest);
    assert(tail[m - k - 1] == Act::Finish(Ok(())));
    let r = choose|r: int| 0 <= r < m - k - 1 && tail[r] == Act::RemoveFile;
    assert(actions_of(job, platform, JobPhase::AwaitPrerequisites, evs)[k + 1 + r] == tail[r]);
}

/// The phase a run reaches after `evs`.
pub open spec fn phase_after(job: JobInfo, platform: Platform, p: JobPhase, evs: Seq<Ev>) -> JobPhase
    decreases evs.len(),
{
    if evs.len() == 0 {
        p
    } else {
        phase_after(job, platform, next(job, platform, p, evs[0]).0, evs.drop_first())
    }
}

proof fn lemma_suffix_after_install(job: JobInfo, platform: Platform, p: JobPhase, evs: Seq<Ev>, k: int)
    requires
        valid_events(job, platform, p, evs),
        0 <= k < evs.len(),
        actions_of(job, platform, p, evs)[k] is RunInstaller,
    ensures
        after_install(phase_after(job, platform, p, evs.take(k + 1))),
        valid_events(job, platform, phase_after(job, platform, p, evs.take(k + 1)), evs.skip(k + 1)),
        forall|i: int| 0 <= i < evs.len() - k - 1 ==> actions_of(job, platform, p, evs)[k + 1 + i]
            == #[trigger] actions_of(job, platform, phase_after(job, platform, p, evs.take(k + 1)), evs.skip(k + 1))[i],
    decreases evs.len(),
{
    let (q, a) = next(job, platform, p, evs[0]);
    let rest = evs.drop_first();
    lemma_actions_len(job, platform, q, rest);
    lemma_actions_len(job, platform, p, evs);
    assert(actions_of(job, platform, p, evs) == seq![a] + actions_of(job, platform, q, rest));
    assert(evs.take(k + 1)[0] == evs[0]);
    assert(evs.take(k + 1).drop_first() =~= rest.take(k));
    if k == 0 {
        assert(a is RunInstaller);
        assert(q == JobPhase::AwaitInstaller);
        assert(rest.take(0) =~= Seq::<Ev>::empty());
        assert(evs.skip(1) =~= rest);
    } else {
        assert(actions_of(job, platform, q, rest)[k - 1] == actions_of(job, platform, p, evs)[k]);
        lemma_suffix_after_install(job, platform, q, rest, k - 1);
        assert(rest.skip(k) =~= evs.skip(k + 1));
        let pq = phase_after(job, platform, q, rest.take(k));
        assert(phase_after(job, platform, p, evs.take(k + 1)) == pq);
        assert forall|i: int| 0 <= i < evs.len() - k - 1 implies actions_of(job, platform, p, evs)[k + 1 + i]
            == #[trigger] actions_of(job, platform, pq, evs.skip(k + 1))[i] by {
            assert(actions_of(job, platform, p, evs)[k + 1 + i] == actions_of(job, platform, q, rest)[k + i]);
        }
    }
}

/// Law: when the registry prerequisite already holds, the run only reports the package
/// as already installed: it never downloads, checks or runs anything.
pub proof fn satisfied_prerequisite_skips_install(job: JobInfo, platform: Platform, evs: Seq<Ev>)
    requires
        valid_events(job, platform, JobPhase::AwaitPrerequisites, evs),
        evs.len() > 0,
        evs[0] == Ev::Prerequisites(true),
    ensures
        forall|k: int| 0 <= k < evs.len() ==> {
            let a = #[trigger] actions_of(job, platform, JobPhase::AwaitPrerequisites, evs)[k];
            !(a is Download) && !(a is SaveBody) && !(a is ComputeChecksum) && !(a is RunInstaller)
        },
{
    let rest = evs.drop_first();
    let acts = actions_of(job, platform, JobPhase::AwaitPrerequisites, evs);
    lemma_actions_len(job, platform, JobPhase::AwaitSkipStatus, rest);
    assert(acts == seq![post("success"@, 0, "Already Installed (Skipped by pre-requisite registry check)"@, false)]
        + actions_of(job, platform, JobPhase::AwaitSkipStatus, rest));
    if rest.len() > 0 {
        let rest2 = rest.drop_first();
        assert(valid_events(job, platform, JobPhase::AwaitSkipStatus, rest));
        let q = next(job, platform, JobPhase::AwaitSkipStatus, rest[0]).0;
        assert(q == JobPhase::Done);
        assert(valid_events(job, platform, q, rest2));
        if rest2.len() > 0 {
            assert(!accepts(q, rest2[0]));
        }
        assert(rest2.len() == 0);
    }
}

/// Where a run stands in its sequence of status reports.
pub enum ReportStage {
    /// Nothing reported yet.
    Start,
    /// "Downloading package installer..." reported.
    Downloading,
    /// "Verifying SHA256 checksum..." reported.
    Verifying,
    /// "Executing silent installation..." reported.
    Installing,
    /// A final report was made; no other may follow.
    Closed,
}

/// A failure report: status `failed`, exit code -1, no reboot.
pub open spec fn is_failure_report(a: Act) -> bool {
    a matches Act::PostStatus { status, exit_code, need_reboot, .. } && status == "failed"@ && exit_code == -1 && !need_reboot
}

/// A report that ends an installer run: `success` with code 0, `need_reboot` with code 3010
/// and a reboot asked, or `failed` without a reboot.
pub open spec fn is_outcome_report(a: Act) -> bool {
    a matches Act::PostStatus { status, exit_code, need_reboot, .. } && (
        (status == "success"@ && exit_code == 0 && !need_reboot)
        || (status == "need_reboot"@ && exit_code == 3010 && need_reboot)
        || (status == "failed"@ && !need_reboot))
}

/// The stage after report `a` at stage `st`, if `a` may come there.
pub open spec fn report_step(st: ReportStage, a: Act) -> Option<ReportStage> {
    match st {
        ReportStage::Start => if a == post("success"@, 0, "Already Installed (Skipped by pre-requisite registry check)"@, false) {
            Some(ReportStage::Closed)
        } else if a == post("downloading"@, 0, "Downloading package installer..."@, false) {
            Some(ReportStage::Downloading)
        } else {
            None
        },
        ReportStage::Downloading => if is_failure_report(a) {
            Some(ReportStage::Closed)
        } else if a == post("downloading"@, 0, "Verifying SHA256 checksum..."@, false) {
            Some(ReportStage::Verifying)
        } else {
            None
        },
        ReportStage::Verifying => if is_failure_report(a) {
            Some(ReportStage::Closed)
        } else if a == post("installing"@, 0, "Executing silent installation..."@, false) {
            Some(ReportStage::Installing)
        } else {
            None
        },
        ReportStage::Installing => if is_outcome_report(a) {
            Some(ReportStage::Closed)
        } else {
            None
        },
        ReportStage::Closed => None,
    }
}

/// The reports `rs` may follow one another from stage `st`.
pub open spec fn reports_follow(st: ReportStage, rs: Seq<Act>) -> bool
    decreases rs.len(),
{
    if rs.len() == 0 {
        true
    } else {
        match report_step(st, rs[0]) {
            Some(next_stage) => reports_follow(next_stage, rs.drop_first()),
            None => false,
        }
    }
}

/// The status reports a run posts, in order, from phase `p`.
pub open spec fn reports_of(job: JobInfo, platform: Platform, p: JobPhase, evs: Seq<Ev>) -> Seq<Act>
    decreases evs.len(),
{
    if evs.len() == 0 {
        Seq::empty()
    } else {
        let (q, a) = next(job, platform, p, evs[0]);
        (if a is PostStatus {
            seq![a]
        } else {
            Seq::empty()
        }) + reports_of(job, platform, q, evs.drop_first())
    }
}

/// The report stage of a phase.
pub open spec fn stage_of(p: JobPhase) -> ReportStage {
    match p {
        JobPhase::AwaitPrerequisites => ReportStage::Start,
        JobPhase::AwaitDownloadingStatus | JobPhase::AwaitDownload | JobPhase::AwaitSave => ReportStage::Downloading,
        JobPhase::AwaitVerifyingStatus | JobPhase::AwaitChecksum => ReportStage::Verifying,
        JobPhase::AwaitInstallingStatus | JobPhase::AwaitInstaller | JobPhase::AwaitLogs { .. } => ReportStage::Installing,
        _ => ReportStage::Closed,
    }
}

proof fn lemma_report_stages(job: JobInfo, platform: Platform, p: JobPhase, e: Ev)
    requires
        accepts(p, e),
    ensures
        ({
            let (q, a) = next(job, platform, p, e);
            &&& a is PostStatus ==> report_step(stage_of(p), a) == Some(stage_of(q))
            &&& !(a is PostStatus) ==> (stage_of(q) == stage_of(p) || q == JobPhase::Done)
        }),
{
    reveal_strlit("failed");
    reveal_strlit("installing");
    reveal_strlit("downloading");
    reveal_strlit("success");
    match p {
        JobPhase::AwaitInstaller => {
            if let Ev::Exited { exit_code, .. } = e {
                let c: int = match exit_code {
                    Some(v) => v as int,
                    None => -1,
                };
                assert(is_outcome_report(outcome_report(c)));
            }
        },
        JobPhase::AwaitLogs { exit_code } => {
            assert(is_outcome_report(outcome_report(exit_code as int)));
        },
        JobPhase::AwaitPrerequisites => {
            // The download report is not the skip report: their status words differ.
            assert("downloading"@.len() != "success"@.len());
        },
        _ => {},
    }
}

proof fn lemma_reports_follow(job: JobInfo, platform: Platform, p: JobPhase, evs: Seq<Ev>)
    requires
        valid_events(job, platform, p, evs),
    ensures
        reports_follow(stage_of(p), reports_of(job, platform, p, evs)),
    decreases evs.len(),
{
    if evs.len() > 0 {
        let (q, a) = next(job, platform, p, evs[0]);
        let rest = evs.drop_first();
        lemma_report_stages(job, platform, p, evs[0]);
        lemma_reports_follow(job, platform, q, rest);
        let x = reports_of(job, platform, q, rest);
        let r = reports_of(job, platform, p, evs);
        if a is PostStatus {
            assert(r == seq![a] + x);
            assert((seq![a] + x).drop_first() =~= x);
        } else {
            assert(r =~= x);
            if q == JobPhase::Done && stage_of(q) != stage_of(p) {
                assert(valid_events(job, platform, q, rest));
                if rest.len() > 0 {
                    assert(!accepts(q, rest[0]));
                }
                assert(x =~= Seq::<Act>::empty());
            }
        }
    }
}

/// Law: the status reports of a job run come in one of four orders, or a beginning of one:
/// the skip report ("success", already installed) alone; or "downloading" (download), then
/// a failure ("failed", -1); or download, "downloading" (verify), failure; or download,
/// verify, "installing", then one outcome: "success" with 0, "need_reboot" with 3010 and a
/// reboot asked, or "failed" without one. Nothing follows a success or failure report, and
/// only the "need_reboot" report with code 3010 asks for a reboot.
pub proof fn status_reports_in_order(job: JobInfo, platform: Platform, evs: Seq<Ev>)
    requires
        valid_events(job, platform, JobPhase::AwaitPrerequisites, evs),
    ensures
        reports_follow(ReportStage::Start, reports_of(job, platform, JobPhase::AwaitPrerequisites, evs)),
{
    lemma_reports_follow(job, platform, JobPhase::AwaitPrerequisites, evs);
}

/// Law: the prerequisite check decides whether the package is fetched, whatever the job.
/// When the check does not hold, the first step is the report ("downloading", 0,
/// "Downloading package installer...", no reboot) and, once it is posted, the download;
/// the run never reports the package as already installed. When the check holds, the
/// first step is the report ("success", 0, "Already Installed (Skipped by pre-requisite
/// registry check)", no reboot) and, once it is posted, the end of the run without a download.
pub proof fn prerequisite_decides_download(job: JobInfo, platform: Platform, evs: Seq<Ev>)
    requires
        valid_events(job, platform, JobPhase::AwaitPrerequisites, evs),
        evs.len() >= 2,
        evs[1] == Ev::StatusPosted(true),
    ensures
        evs[0] == Ev::Prerequisites(false) ==> {
            &&& actions_of(job, platform, JobPhase::AwaitPrerequisites, evs)[0] == (Act::PostStatus {
                status: "downloading"@,
                exit_code: 0,
                message: "Downloading package installer..."@,
                need_reboot: false,
            })
            &&& actions_of(job, platform, JobPhase::AwaitPrerequisites, evs)[1] == Act::Download
            &&& forall|k: int| 0 <= k < evs.len() ==> #[trigger] actions_of(job, platform, JobPhase::AwaitPrerequisites, evs)[k]
                != (Act::PostStatus {
                    status: "success"@,
                    exit_code: 0,
                    message: "Already Installed (Skipped by pre-requisite registry check)"@,
                    need_reboot: false,
                })
        },
        evs[0] == Ev::Prerequisites(true) ==> {
            &&& actions_of(job, platform, JobPhase::AwaitPrerequisites, evs)[0] == (Act::PostStatus {
                status: "success"@,
                exit_code: 0,
                message: "Already Installed (Skipped by pre-requisite registry check)"@,
                need_reboot: false,
            })
            &&& actions_of(job, platform, JobPhase::AwaitPrerequisites, evs)[1] == Act::Finish(Ok(()))
        },
{
    let acts = actions_of(job, platform, JobPhase::AwaitPrerequisites, evs);
    lemma_actions_len(job, platform, JobPhase::AwaitPrerequisites, evs);
    let (q, a) = next(job, platform, JobPhase::AwaitPrerequisites, evs[0]);
    let rest = evs.drop_first();
    lemma_actions_len(job, platform, q, rest);
    assert(acts == seq![a] + actions_of(job, platform, q, rest));
    assert(rest[0] == evs[1]);
    let (q2, a2) = next(job, platform, q, rest[0]);
    assert(actions_of(job, platform, q, rest) == seq![a2] + actions_of(job, platform, q2, rest.drop_first()));
    assert(acts[1] == a2);
    if evs[0] == Ev::Prerequisites(false) {
        // After the first step the run never comes back to the phase that may skip.
        reveal_strlit("downloading");
        reveal_strlit("success");
        reveal_strlit("Already Installed (Skipped by pre-requisite registry check)");
        reveal_strlit("Downloading package installer...");
        lemma_no_skip_after_start(job, platform, q, rest);
        assert forall|k: int| 0 <= k < evs.len() implies #[trigger] acts[k] != skip_report() by {
            if k > 0 {
                assert(acts[k] == actions_of(job, platform, q, rest)[k - 1]);
            } else {
                assert("downloading"@.len() != "success"@.len());
            }
        }
    }
}

/// The report that a package is already installed.
pub open spec fn skip_report() -> Act {
    post("success"@, 0, "Already Installed (Skipped by pre-requisite registry check)"@, false)
}

proof fn lemma_no_skip_after_start(job: JobInfo, platform: Platform, p: JobPhase, evs: Seq<Ev>)
    requires
        p != JobPhase::AwaitPrerequisites,
        valid_events(job, platform, p, evs),
    ensures
        forall|k: int| 0 <= k < evs.len() ==> #[trigger] actions_of(job, platform, p, evs)[k] != skip_report(),
    decreases evs.len(),
{
    if evs.len() > 0 {
        let (q, a) = next(job, platform, p, evs[0]);
        let rest = evs.drop_first();
        lemma_actions_len(job, platform, q, rest);
        let acts = actions_of(job, platform, p, evs);
        assert(acts == seq![a] + actions_of(job, platform, q, rest));
        lemma_not_skip(job, platform, p, evs[0]);
        assert(q != JobPhase::AwaitPrerequisites);
        lemma_no_skip_after_start(job, platform, q, rest);
        assert forall|k: int| 0 <= k < evs.len() implies #[trigger] acts[k] != skip_report() by {
            if k > 0 {
                assert(acts[k] == actions_of(job, platform, q, rest)[k - 1]);
            }
        }
    }
}

proof fn lemma_not_skip(job: JobInfo, platform: Platform, p: JobPhase, e: Ev)
    requires
        p != JobPhase::AwaitPrerequisites,
        accepts(p, e),
    ensures
        next(job, platform, p, e).1 != skip_report(),
        next(job, platform, p, e).0 != JobPhase::AwaitPrerequisites,
{
    reveal_strlit("success");
    reveal_strlit("failed");
    reveal_strlit("downloading");
    reveal_strlit("installing");
    reveal_strlit("need_reboot");
    reveal_strlit("Already Installed (Skipped by pre-requisite registry check)");
    reveal_strlit("Installation completed successfully.");
    let a = next(job, platform, p, e).1;
    if a == skip_report() {
        assert(a is PostStatus);
        if let Act::PostStatus { status, exit_code, message, .. } = a {
            assert(status == "success"@);
            assert(message == "Already Installed (Skipped by pre-requisite registry check)"@);
            assert(message.len() != "Installation completed successfully."@.len());
        }
    }
}

} // verus!
