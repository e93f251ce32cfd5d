//! The deployment server's side of the agent: server address, endpoints and the forms sent.
use vstd::prelude::*;
use crate::text::{has_prefix, push_str, push_signed_decimal, signed_decimal, starts_with, trim_end_char, trim_end_matching};

verus! {

/// A deployment job as the server describes it.
#[derive(Debug)]
pub struct JobInfo {
    pub job_id: i32,
    pub job_name: String,
    pub package_id: i32,
    pub package_name: String,
    pub version: String,
    pub file_name: String,
    pub sha256: String,
    pub download_url: String,
    pub install_command: String,
    pub uninstall_command: Option<String>,
    pub timeout_seconds: u64,
    pub reboot_policy: String,
    pub pre_check_reg_key: Option<String>,
    pub pre_check_reg_value: Option<String>,
    pub pre_check_reg_type: Option<String>,
    pub pre_check_reg_compare: Option<String>,
    pub pre_check_reg_expected: Option<String>,
}

/// The periodic heartbeat sent to the server.
#[derive(Debug)]
pub struct HeartbeatForm {
    pub device_id: String,
    pub uuid: String,
    pub agent_version: String,
    pub os: String,
    pub hostname: String,
    pub ip_address: String,
}

/// A job status report.
#[derive(Debug)]
pub struct StatusUpdateForm {
    pub device_id: String,
    pub uuid: String,
    pub status: String,
    pub exit_code: i32,
    pub message: String,
    pub need_reboot: bool,
}

/// Installer output sent to the server.
#[derive(Debug)]
pub struct LogForm {
    pub device_id: String,
    pub uuid: String,
    pub log_type: String,
    pub content: String,
}

/// An HTTP status code in `200..=299`, the successful ones (http's `StatusCode::is_success`).
pub open spec fn is_success_code(code: u16) -> bool {
    200 <= code <= 299
}

/// Whether an HTTP status code reports success.
pub fn is_success_status(code: u16) -> (r: bool)
    ensures
        r == is_success_code(code),
{
    200 <= code && code <= 299
}

/// `s` starts with `http://` or `https://`.
pub open spec fn has_http_scheme(s: Seq<char>) -> bool {
    starts_with(s, "http://"@) || starts_with(s, "https://"@)
}

/// The server base URL made from the configured API server: empty when nothing is
/// configured; otherwise with `http://` put in front when no scheme is given, and
/// without trailing slashes.
pub open spec fn clean_server_url(api_server: Seq<char>) -> Seq<char> {
    if api_server.len() == 0 {
        Seq::empty()
    } else if has_http_scheme(api_server) {
        trim_end_char(api_server, '/')
    } else {
        trim_end_char("http://"@ + api_server, '/')
    }
}

/// The server base URL for the configured API server address.
pub fn get_clean_server_url(api_server: &str) -> (url: String)
    ensures
        url@ == clean_server_url(api_server@),
{
    if api_server.is_empty() {
        return String::new();
    }
    if has_prefix(api_server, "http://") || has_prefix(api_server, "https://") {
        trim_end_matching(api_server, '/')
    } else {
        let mut with_scheme = String::new();
        push_str(&mut with_scheme, "http://");
        push_str(&mut with_scheme, api_server);
        assert(with_scheme@ =~= "http://"@ + api_server@);
        trim_end_matching(with_scheme.as_str(), '/')
    }
}

/// The heartbeat endpoint.
pub open spec fn heartbeat_url_of(server: Seq<char>) -> Seq<char> {
    server + "/api/agent/deployment/heartbeat"@
}

/// The endpoint that lists a device's pending jobs (device id and uuid put in as they are).
pub open spec fn jobs_url_of(server: Seq<char>, device_id: Seq<char>, uuid: Seq<char>) -> Seq<char> {
    server + "/api/agent/deployment/jobs?device_id="@ + device_id + "&uuid="@ + uuid
}

/// The endpoint that takes a job's status reports.
pub open spec fn status_url_of(server: Seq<char>, job_id: int) -> Seq<char> {
    server + "/api/agent/deployment/jobs/"@ + signed_decimal(job_id) + "/status"@
}

/// The endpoint that takes a job's installer output.
pub open spec fn log_url_of(server: Seq<char>, job_id: int) -> Seq<char> {
    server + "/api/agent/deployment/jobs/"@ + signed_decimal(job_id) + "/log"@
}

/// The heartbeat endpoint of a server.
pub fn heartbeat_url(server: &str) -> (url: String)
    ensures
        url@ == heartbeat_url_of(server@),
{
    let mut url = String::new();
    push_str(&mut url, server);
    push_str(&mut url, "/api/agent/deployment/heartbeat");
    assert(url@ =~= heartbeat_url_of(server@));
    url
}

/// The job list endpoint of a server for one device.
pub fn jobs_url(server: &str, device_id: &str, uuid: &str) -> (url: String)
    ensures
        url@ == jobs_url_of(server@, device_id@, uuid@),
{
    let mut url = String::new();
    push_str(&mut url, server);
    push_str(&mut url, "/api/agent/deployment/jobs?device_id=");
    push_str(&mut url, device_id);
    push_str(&mut url, "&uuid=");
    push_str(&mut url, uuid);
    assert(url@ =~= jobs_url_of(server@, device_id@, uuid@));
    url
}

/// The status endpoint of a job.
pub fn status_url(server: &str, job_id: i32) -> (url: String)
    ensures
        url@ == status_url_of(server@, job_id as int),
{
    let mut url = String::new();
    push_str(&mut url, server);
    push_str(&mut url, "/api/agent/deployment/jobs/");
    push_signed_decimal(&mut url, job_id as i64);
    push_str(&mut url, "/status");
    assert(url@ =~= status_url_of(server@, job_id as int));
    url
}

/// The log endpoint of a job.
pub fn log_url(server: &str, job_id: i32) -> (url: String)
    ensures
        url@ == log_url_of(server@, job_id as int),
{
    let mut url = String::new();
    push_str(&mut url, server);
    push_str(&mut url, "/api/agent/deployment/jobs/");
    push_signed_decimal(&mut url, job_id as i64);
    push_str(&mut url, "/log");
    assert(url@ =~= log_url_of(server@, job_id as int));
    url
}

/// The heartbeat of a device; the IP address is left empty for the server to take
/// from the connection.
pub fn heartbeat_form(device_id: String, uuid: String, agent_version: String, os: String, hostname: String) -> (f: HeartbeatForm)
    ensures
        f.device_id == device_id,
        f.uuid == uuid,
        f.agent_version == agent_version,
        f.os == os,
        f.hostname == hostname,
        f.ip_address@ == Seq::<char>::empty(),
{
    HeartbeatForm { device_id, uuid, agent_version, os, hostname, ip_address: String::new() }
}

/// A status report of a device.
pub fn status_form(device_id: String, uuid: String, status: String, exit_code: i32, message: String, need_reboot: bool) -> (f: StatusUpdateForm)
    ensures
        f.device_id == device_id,
        f.uuid == uuid,
        f.status == status,
        f.exit_code == exit_code,
        f.message == message,
        f.need_reboot == need_reboot,
{
    StatusUpdateForm { device_id, uuid, status, exit_code, message, need_reboot }
}

/// An installer output report of a device.
pub fn log_form(device_id: String, uuid: String, log_type: String, content: String) -> (f: LogForm)
    ensures
        f.device_id == device_id,
        f.uuid == uuid,
        f.log_type == log_type,
        f.content == content,
{
    LogForm { device_id, uuid, log_type, content }
}

proof fn lemma_trim_end_char(s: Seq<char>, c: char)
    ensures
        trim_end_char(s, c).len() <= s.len(),
        trim_end_char(s, c) == s.take(trim_end_char(s, c).len() as int),
        trim_end_char(s, c).len() > 0 ==> trim_end_char(s, c).last() != c,
        s.len() > 0 && s[0] != c ==> trim_end_char(s, c).len() > 0,
    decreases s.len(),
{
    if s.len() > 0 && s.last() == c {
        let t = s.drop_last();
        lemma_trim_end_char(t, c);
        assert(trim_end_char(s, c) == trim_end_char(t, c));
        assert(t.take(trim_end_char(t, c).len() as int) =~= s.take(trim_end_char(t, c).len() as int));
        if s.len() > 1 {
            assert(t[0] == s[0]);
        }
    } else {
        assert(s.take(s.len() as int) =~= s);
    }
}

/// Law: a cleaned server URL never ends with `/`, and it is empty exactly when no API
/// server is configured.
pub proof fn clean_server_url_shape(api_server: Seq<char>)
    ensures
        clean_server_url(api_server).len() > 0 ==> clean_server_url(api_server).last() != '/',
        clean_server_url(api_server).len() == 0 <==> api_server.len() == 0,
{
    reveal_strlit("http://");
    reveal_strlit("https://");
    if api_server.len() > 0 {
        if has_http_scheme(api_server) {
            if starts_with(api_server, "http://"@) {
                assert(api_server[0] == "http://"@.take(7)[0]);
            } else {
                assert(api_server[0] == "https://"@.take(8)[0]);
            }
            lemma_trim_end_char(api_server, '/');
        } else {
            let w = "http://"@ + api_server;
            assert(w[0] == 'h');
            lemma_trim_end_char(w, '/');
        }
    }
}

} // verus!
