use deploy_agent::agent::{
    get_clean_server_url, heartbeat_form, is_success_status, heartbeat_url, jobs_url, log_form, log_url, status_form, status_url, JobInfo,
};
use deploy_agent::checksum::{compute_sha256, to_hex_string};
use deploy_agent::job_run::{JobAction, JobError, JobEvent, JobPhase, JobRun, Platform};
use deploy_agent::prerequisites::{check_prerequisites, registry_target, RegistryReading};

fn job() -> JobInfo {
    JobInfo {
        job_id: 42,
        job_name: "Install 7-Zip".to_string(),
        package_id: 7,
        package_name: "7-Zip".to_string(),
        version: "23.01".to_string(),
        file_name: "7z.msi".to_string(),
        sha256: "ba7816bf8f01cfea414140de5dae2223b00361a396177a9cb410ff61f20015ad".to_string(),
        download_url: "http://server/files/7z.msi".to_string(),
        install_command: "msiexec /i 7z.msi /qn".to_string(),
        uninstall_command: None,
        timeout_seconds: 600,
        reboot_policy: "never".to_string(),
        pre_check_reg_key: None,
        pre_check_reg_value: None,
        pre_check_reg_type: None,
        pre_check_reg_compare: None,
        pre_check_reg_expected: None,
    }
}

fn reading(key_opened: bool, raw_present: bool, dword: Option<u32>, text: Option<&str>) -> RegistryReading {
    RegistryReading { key_opened, raw_present, dword, text: text.map(|t| t.to_string()) }
}

fn check_job(key: Option<&str>, value: Option<&str>, ty: Option<&str>, cmp: Option<&str>, expected: Option<&str>) -> JobInfo {
    let mut j = job();
    j.pre_check_reg_key = key.map(str::to_string);
    j.pre_check_reg_value = value.map(str::to_string);
    j.pre_check_reg_type = ty.map(str::to_string);
    j.pre_check_reg_compare = cmp.map(str::to_string);
    j.pre_check_reg_expected = expected.map(str::to_string);
    j
}

fn status_of(a: &JobAction) -> (String, i32, String, bool) {
    match a {
        JobAction::PostStatus(u) => (u.status.clone(), u.exit_code, u.message.clone(), u.need_reboot),
        other => panic!("expected a status report, got {other:?}"),
    }
}

fn posted(run: &mut JobRun) -> JobAction {
    run.step(JobEvent::StatusPosted(true))
}

/// Drives a run up to the installer start and returns it with the installer step.
fn run_to_installer(platform: Platform) -> (JobRun, JobAction) {
    let (mut run, first) = JobRun::start(job(), platform);
    assert!(matches!(first, JobAction::CheckPrerequisites));
    let a = run.step(JobEvent::Prerequisites(false));
    assert_eq!(status_of(&a), ("downloading".into(), 0, "Downloading package installer...".into(), false));
    assert!(matches!(posted(&mut run), JobAction::Download));
    let a = run.step(JobEvent::Response { code: 200, status_text: "200 OK".into() });
    assert!(matches!(a, JobAction::SaveBody));
    let a = run.step(JobEvent::BodySaved(true));
    assert_eq!(status_of(&a), ("downloading".into(), 0, "Verifying SHA256 checksum...".into(), false));
    assert!(matches!(posted(&mut run), JobAction::ComputeChecksum));
    let sum = compute_sha256(b"abc");
    let a = run.step(JobEvent::Checksum(Some(sum)));
    assert_eq!(status_of(&a), ("installing".into(), 0, "Executing silent installation...".into(), false));
    let a = posted(&mut run);
    (run, a)
}

#[test]
fn hex_strings_use_two_lower_case_digits_per_byte() {
    assert_eq!(to_hex_string(&[]), "");
    assert_eq!(to_hex_string(&[0x00, 0x0f, 0xab, 0xff]), "000fabff");
    let bytes: Vec<u8> = (0..=255).collect();
    let expected: String = bytes.iter().map(|b| format!("{:02x}", b)).collect();
    assert_eq!(to_hex_string(&bytes), expected);
}

#[test]
fn sha256_checksums_match_known_digests() {
    assert_eq!(compute_sha256(b"abc"), "ba7816bf8f01cfea414140de5dae2223b00361a396177a9cb410ff61f20015ad");
    assert_eq!(compute_sha256(b""), "e3b0c44298fc1c149afbf4c8996fb92427ae41e4649b934ca495991b7852b855");
    assert_eq!(compute_sha256(&[0u8; 10000]).len(), 64);
}

#[test]
fn server_url_gets_a_scheme_and_loses_trailing_slashes() {
    assert_eq!(get_clean_server_url(""), "");
    assert_eq!(get_clean_server_url("deploy.example.com:21114"), "http://deploy.example.com:21114");
    assert_eq!(get_clean_server_url("deploy.example.com/"), "http://deploy.example.com");
    assert_eq!(get_clean_server_url("https://deploy.example.com///"), "https://deploy.example.com");
    assert_eq!(get_clean_server_url("http://10.0.0.5"), "http://10.0.0.5");
    assert_eq!(get_clean_server_url("HTTPS://x"), "http://HTTPS://x");
    assert_eq!(get_clean_server_url("http://"), "http:");
    assert_eq!(get_clean_server_url("/"), "http:");
}

#[test]
fn endpoints_are_built_on_the_server_url() {
    let s = "http://srv";
    assert_eq!(heartbeat_url(s), "http://srv/api/agent/deployment/heartbeat");
    assert_eq!(jobs_url(s, "123 456", "u-1"), "http://srv/api/agent/deployment/jobs?device_id=123 456&uuid=u-1");
    assert_eq!(status_url(s, 42), "http://srv/api/agent/deployment/jobs/42/status");
    assert_eq!(status_url(s, -7), "http://srv/api/agent/deployment/jobs/-7/status");
    assert_eq!(log_url(s, 0), "http://srv/api/agent/deployment/jobs/0/log");
    assert_eq!(log_url(s, i32::MIN), "http://srv/api/agent/deployment/jobs/-2147483648/log");
}

#[test]
fn forms_carry_their_fields() {
    let h = heartbeat_form("d".into(), "u".into(), "1.4.0".into(), "windows".into(), "pc-1".into());
    assert_eq!((h.device_id.as_str(), h.uuid.as_str(), h.agent_version.as_str()), ("d", "u", "1.4.0"));
    assert_eq!((h.os.as_str(), h.hostname.as_str(), h.ip_address.as_str()), ("windows", "pc-1", ""));
    let f = status_form("d".into(), "u".into(), "failed".into(), -1, "m".into(), true);
    assert_eq!((f.status.as_str(), f.exit_code, f.message.as_str(), f.need_reboot), ("failed", -1, "m", true));
    let l = log_form("d".into(), "u".into(), "stdout".into(), "out".into());
    assert_eq!((l.log_type.as_str(), l.content.as_str()), ("stdout", "out"));
}

#[test]
fn prerequisites_need_a_key() {
    let r = reading(true, true, Some(1), Some("x"));
    assert!(!check_prerequisites(&check_job(None, None, None, None, None), &r));
    assert!(!check_prerequisites(&check_job(Some(""), None, None, None, None), &r));
    assert_eq!(registry_target(&check_job(None, None, None, None, None)), None);
    assert_eq!(registry_target(&check_job(Some(""), Some("v"), None, None, None)), None);
    assert_eq!(
        registry_target(&check_job(Some("SOFTWARE\\7-Zip"), None, None, None, None)),
        Some(("SOFTWARE\\7-Zip".to_string(), String::new()))
    );
    assert_eq!(
        registry_target(&check_job(Some("SOFTWARE\\7-Zip"), Some("Path"), None, None, None)),
        Some(("SOFTWARE\\7-Zip".to_string(), "Path".to_string()))
    );
}

#[test]
fn existing_key_alone_satisfies_the_default_check() {
    let j = check_job(Some("SOFTWARE\\7-Zip"), None, None, None, None);
    assert!(check_prerequisites(&j, &reading(true, false, None, None)));
    assert!(!check_prerequisites(&j, &reading(false, true, Some(1), Some("x"))));
}

#[test]
fn exists_type_needs_the_value() {
    let j = check_job(Some("K"), Some("Path"), Some("exists"), None, None);
    assert!(check_prerequisites(&j, &reading(true, true, None, None)));
    assert!(!check_prerequisites(&j, &reading(true, false, None, None)));
    // A comparison other than "exists" with no value name reads the key's default value.
    let j = check_job(Some("K"), None, Some("exists"), Some("eq"), None);
    assert!(!check_prerequisites(&j, &reading(true, false, None, None)));
    assert!(check_prerequisites(&j, &reading(true, true, None, None)));
}

#[test]
fn dword_values_compare_with_the_expected_number() {
    let r = reading(true, true, Some(5), None);
    let cases = [("eq", "5", true), ("eq", "6", false), ("ne", "6", true), ("gt", "4", true), ("gt", "5", false),
        ("gte", "5", true), ("lt", "6", true), ("lt", "5", false), ("lte", "5", true), ("exists", "5", false),
        ("EQ", "5", false)];
    for (c, e, want) in cases {
        let j = check_job(Some("K"), Some("Version"), Some("dword"), Some(c), Some(e));
        assert_eq!(check_prerequisites(&j, &r), want, "{c} {e}");
    }
    // An unreadable expected number counts as 0.
    let j = check_job(Some("K"), Some("V"), Some("dword"), Some("eq"), Some("five"));
    assert!(check_prerequisites(&j, &reading(true, true, Some(0), None)));
    assert!(!check_prerequisites(&j, &reading(true, true, Some(5), None)));
    let j = check_job(Some("K"), Some("V"), Some("dword"), Some("gte"), Some("+3"));
    assert!(check_prerequisites(&j, &reading(true, true, Some(3), None)));
    assert!(!check_prerequisites(&j, &reading(true, true, None, None)));
}

#[test]
fn string_values_compare_for_equality() {
    let r = reading(true, true, None, Some("23.01"));
    assert!(check_prerequisites(&check_job(Some("K"), Some("V"), Some("sz"), Some("eq"), Some("23.01")), &r));
    assert!(!check_prerequisites(&check_job(Some("K"), Some("V"), Some("sz"), Some("eq"), Some("23.1")), &r));
    assert!(check_prerequisites(&check_job(Some("K"), Some("V"), Some("sz"), Some("ne"), Some("23.1")), &r));
    assert!(!check_prerequisites(&check_job(Some("K"), Some("V"), Some("sz"), Some("gt"), Some("1")), &r));
    assert!(!check_prerequisites(&check_job(Some("K"), Some("V"), Some("sz"), Some("eq"), None), &reading(true, true, None, None)));
    assert!(!check_prerequisites(&check_job(Some("K"), Some("V"), Some("qword"), Some("eq"), Some("1")), &r));
}

#[test]
fn prerequisite_met_skips_the_install() {
    let (mut run, _) = JobRun::start(job(), Platform::Windows);
    let a = run.step(JobEvent::Prerequisites(true));
    assert_eq!(
        status_of(&a),
        ("success".into(), 0, "Already Installed (Skipped by pre-requisite registry check)".into(), false)
    );
    assert!(matches!(posted(&mut run), JobAction::Finish(Ok(()))));
    assert_eq!(run.phase, JobPhase::Done);
    assert!(!run.accepts(&JobEvent::FileRemoved));
}

#[test]
fn failed_download_is_reported() {
    let (mut run, _) = JobRun::start(job(), Platform::Unix);
    run.step(JobEvent::Prerequisites(false));
    posted(&mut run);
    assert!(!run.accepts(&JobEvent::LogsSent));
    assert!(run.accepts(&JobEvent::RequestFailed));
    let a = run.step(JobEvent::Response { code: 404, status_text: "404 Not Found".into() });
    assert_eq!(status_of(&a), ("failed".into(), -1, "Download failed with status: 404 Not Found".into(), false));
    assert!(matches!(posted(&mut run), JobAction::Finish(Ok(()))));
}

#[test]
fn request_and_write_errors_stop_the_run() {
    let (mut run, _) = JobRun::start(job(), Platform::Unix);
    run.step(JobEvent::Prerequisites(false));
    posted(&mut run);
    assert!(matches!(run.step(JobEvent::RequestFailed), JobAction::Finish(Err(JobError::RequestFailed))));
    let (mut run, _) = JobRun::start(job(), Platform::Unix);
    run.step(JobEvent::Prerequisites(false));
    posted(&mut run);
    run.step(JobEvent::Response { code: 204, status_text: "204 No Content".into() });
    assert!(matches!(run.step(JobEvent::BodySaved(false)), JobAction::Finish(Err(JobError::SaveFailed))));
}

#[test]
fn unposted_status_stops_the_run() {
    let (mut run, _) = JobRun::start(job(), Platform::Unix);
    run.step(JobEvent::Prerequisites(false));
    let a = run.step(JobEvent::StatusPosted(false));
    assert!(matches!(a, JobAction::Finish(Err(JobError::StatusNotPosted))));
    assert_eq!(run.phase, JobPhase::Done);
}

#[test]
fn checksum_mismatch_reports_and_removes_the_file() {
    let (mut run, _) = JobRun::start(job(), Platform::Windows);
    run.step(JobEvent::Prerequisites(false));
    posted(&mut run);
    run.step(JobEvent::Response { code: 200, status_text: "200 OK".into() });
    run.step(JobEvent::BodySaved(true));
    posted(&mut run);
    let bad = compute_sha256(b"tampered");
    let a = run.step(JobEvent::Checksum(Some(bad.clone())));
    let msg = format!("SHA256 verification failed. Expected {}, got {}", job().sha256, bad);
    assert_eq!(status_of(&a), ("failed".into(), -1, msg, false));
    assert!(matches!(posted(&mut run), JobAction::RemoveFile));
    assert!(matches!(run.step(JobEvent::FileRemoved), JobAction::Finish(Ok(()))));
}

#[test]
fn checksum_compare_is_exact() {
    let (mut run, _) = JobRun::start(job(), Platform::Windows);
    run.step(JobEvent::Prerequisites(false));
    posted(&mut run);
    run.step(JobEvent::Response { code: 200, status_text: "200 OK".into() });
    run.step(JobEvent::BodySaved(true));
    posted(&mut run);
    let upper = job().sha256.to_uppercase();
    let a = run.step(JobEvent::Checksum(Some(upper)));
    assert_eq!(status_of(&a).0, "failed");
    let (mut run2, _) = JobRun::start(job(), Platform::Windows);
    run2.step(JobEvent::Prerequisites(false));
    posted(&mut run2);
    run2.step(JobEvent::Response { code: 299, status_text: "299".into() });
    run2.step(JobEvent::BodySaved(true));
    posted(&mut run2);
    assert!(matches!(run2.step(JobEvent::Checksum(None)), JobAction::Finish(Err(JobError::ChecksumUnreadable))));
}

#[test]
fn installer_runs_in_the_platform_shell() {
    let (_, a) = run_to_installer(Platform::Windows);
    match a {
        JobAction::RunInstaller(c) => {
            assert_eq!(c.program, "cmd");
            assert_eq!(c.args, vec!["/C".to_string(), "msiexec /i 7z.msi /qn".to_string()]);
            assert_eq!(c.timeout_seconds, 600);
        },
        other => panic!("{other:?}"),
    }
    let (_, a) = run_to_installer(Platform::Unix);
    match a {
        JobAction::RunInstaller(c) => {
            assert_eq!(c.program, "sh");
            assert_eq!(c.args, vec!["-c".to_string(), "msiexec /i 7z.msi /qn".to_string()]);
        },
        other => panic!("{other:?}"),
    }
}

#[test]
fn successful_install_sends_logs_reports_and_cleans_up() {
    let (mut run, _) = run_to_installer(Platform::Unix);
    let a = run.step(JobEvent::Exited { exit_code: Some(0), stdout: "done\n".into(), stderr: "warn\n".into() });
    match a {
        JobAction::SendLogs(logs) => {
            let l: Vec<(String, String)> = logs.into_iter().map(|e| (e.log_type, e.content)).collect();
            assert_eq!(l, vec![("stdout".into(), "done\n".into()), ("stderr".into(), "warn\n".into())]);
        },
        other => panic!("{other:?}"),
    }
    let a = run.step(JobEvent::LogsSent);
    assert_eq!(status_of(&a), ("success".into(), 0, "Installation completed successfully.".into(), false));
    assert!(matches!(posted(&mut run), JobAction::RemoveFile));
    assert!(matches!(run.step(JobEvent::FileRemoved), JobAction::Finish(Ok(()))));
}

#[test]
fn reboot_code_and_failures_are_reported() {
    let (mut run, _) = run_to_installer(Platform::Windows);
    let a = run.step(JobEvent::Exited { exit_code: Some(3010), stdout: String::new(), stderr: String::new() });
    assert_eq!(
        status_of(&a),
        ("need_reboot".into(), 3010, "Installation finished successfully. Reboot is required.".into(), true)
    );
    let (mut run, _) = run_to_installer(Platform::Windows);
    let a = run.step(JobEvent::Exited { exit_code: Some(1603), stdout: String::new(), stderr: "boom".into() });
    assert!(matches!(a, JobAction::SendLogs(ref l) if l.len() == 1 && l[0].log_type == "stderr"));
    let a = run.step(JobEvent::LogsSent);
    assert_eq!(status_of(&a), ("failed".into(), 1603, "Installation failed with exit code 1603".into(), false));
    let (mut run, _) = run_to_installer(Platform::Unix);
    let a = run.step(JobEvent::Exited { exit_code: None, stdout: String::new(), stderr: String::new() });
    assert_eq!(status_of(&a), ("failed".into(), -1, "Installation failed with exit code -1".into(), false));
}

#[test]
fn timeouts_and_wait_errors_are_reported() {
    let (mut run, _) = run_to_installer(Platform::Unix);
    let a = run.step(JobEvent::TimedOut);
    assert_eq!(status_of(&a), ("failed".into(), -1, "Installation process timed out after 600 seconds.".into(), false));
    assert!(matches!(posted(&mut run), JobAction::RemoveFile));
    let (mut run, _) = run_to_installer(Platform::Unix);
    let a = run.step(JobEvent::WaitFailed("Kind(Interrupted)".into()));
    assert_eq!(status_of(&a), ("failed".into(), -1, "Process wait error: Kind(Interrupted)".into(), false));
    let (mut run, _) = run_to_installer(Platform::Unix);
    assert!(matches!(run.step(JobEvent::SpawnFailed), JobAction::Finish(Err(JobError::SpawnFailed))));
}

#[test]
fn a_run_takes_at_most_eleven_events() {
    let (mut run, _) = run_to_installer(Platform::Unix);
    // Seven events so far; four more end the longest run.
    run.step(JobEvent::Exited { exit_code: Some(0), stdout: "x".into(), stderr: String::new() });
    run.step(JobEvent::LogsSent);
    posted(&mut run);
    assert!(matches!(run.step(JobEvent::FileRemoved), JobAction::Finish(Ok(()))));
    assert_eq!(run.phase, JobPhase::Done);
}

#[test]
fn success_statuses_are_2xx() {
    assert!(is_success_status(200));
    assert!(is_success_status(204));
    assert!(is_success_status(299));
    assert!(!is_success_status(199));
    assert!(!is_success_status(300));
    assert!(!is_success_status(404));
}

#[test]
fn reports_of_a_successful_run_come_in_order() {
    let mut words: Vec<(String, i32, bool)> = Vec::new();
    let (mut run, mut action) = JobRun::start(job(), Platform::Unix);
    let events = vec![
        JobEvent::Prerequisites(false),
        JobEvent::StatusPosted(true),
        JobEvent::Response { code: 200, status_text: "200 OK".into() },
        JobEvent::BodySaved(true),
        JobEvent::StatusPosted(true),
        JobEvent::Checksum(Some(compute_sha256(b"abc"))),
        JobEvent::StatusPosted(true),
        JobEvent::Exited { exit_code: Some(3010), stdout: String::new(), stderr: String::new() },
        JobEvent::StatusPosted(true),
        JobEvent::FileRemoved,
    ];
    for e in events {
        assert!(run.accepts(&e));
        action = run.step(e);
        if let JobAction::PostStatus(u) = &action {
            words.push((u.status.clone(), u.exit_code, u.need_reboot));
        }
    }
    assert!(matches!(action, JobAction::Finish(Ok(()))));
    assert_eq!(
        words,
        vec![
            ("downloading".to_string(), 0, false),
            ("downloading".to_string(), 0, false),
            ("installing".to_string(), 0, false),
            ("need_reboot".to_string(), 3010, true),
        ]
    );
}
