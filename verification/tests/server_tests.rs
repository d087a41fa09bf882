use codebar_server::text::{lower_chars, upper_chars};
use codebar_server::api::{ApiResponse, AutoBreakConfig, ConnectRequest, TimeRoundingConfig};
use codebar_server::config::{Config, EnvSettings};
use codebar_server::gui::Tab;
use codebar_server::models::{
    Job, JobWithCount, ReportInput, SecuritySettings, TeamMember, TimeEntryInput, TimeEntryRecord,
};
use codebar_server::requests::{
    applied_message, applied_response, auth_refusal, change_op, connect_display_name,
    device_input_from_connect, entity_number, found_local_ids, heartbeat_rate_limited,
    heartbeat_refusal, is_given, job_download_payload, job_ref_action, local_ids, missing_ids,
    pending_check, queued_response, registration_code_refusal, registration_rate_limited,
    rfc3339_to_millis, rfc3339_to_secs, room_update_from_report, synced_scan_id, updated_since,
    AuthRefusal, ChangeOp, HeartbeatRefusal, JobRefAction, RegisterRefusal,
};
use codebar_server::settings::{
    clamp_auto_break, clamp_time_rounding, clean_room_items, default_room_item_list,
    default_security_settings, rounding_in_effect, security_settings_from_rows,
    security_settings_rows,
};
use codebar_server::timekeeping::{auto_break_entry, round_time, team_member_status, timesheet_days};

fn s(x: &str) -> String {
    x.to_string()
}

#[test]
fn api_response_envelopes() {
    let ok = ApiResponse::success(5);
    assert!(ok.success && ok.data == Some(5) && ok.message.is_none() && ok.error.is_none());
    let msg = ApiResponse::success_with_message(1, s("done"));
    assert_eq!(msg.message, Some(s("done")));
    let err = ApiResponse::error(s("bad"));
    assert!(!err.success && err.error == Some(s("bad")) && err.data.is_none());
}

#[test]
fn config_defaults_and_urls() {
    let c = Config::defaults_at(s("/data/codebar.db"));
    assert_eq!(c.server_addr(), "0.0.0.0:8080");
    assert_eq!(c.database_url(), "sqlite:/data/codebar.db");
    assert!(c.email.is_none());
}

fn env() -> EnvSettings {
    EnvSettings {
        server_host: None,
        server_port: None,
        database_path: None,
        smtp_host: None,
        smtp_port: None,
        smtp_username: None,
        smtp_password: None,
        email_from: None,
        email_to: None,
        auto_send_enabled: None,
        auto_send_delay_minutes: None,
    }
}

#[test]
fn config_from_environment() {
    let mut e = env();
    e.server_host = Some(s("0.0.0.0"));
    e.server_port = Some(s("9000"));
    let c = Config::from_env_settings(Config::defaults_at(s("db")), &e);
    assert_eq!(c.server_addr(), "0.0.0.0:9000");
    e.server_port = Some(s("nope"));
    let c = Config::from_env_settings(Config::defaults_at(s("db")), &e);
    assert_eq!(c.server.port, 8080);
    e.smtp_host = Some(s("smtp.example.com"));
    e.smtp_username = Some(s("user"));
    e.smtp_password = Some(s("SECRET-REDACTED"));
    let c = Config::from_env_settings(Config::defaults_at(s("db")), &e);
    assert!(c.email.is_none());
    e.email_from = Some(s("me@example.com"));
    e.email_to = Some(s("a@x.com, b@y.com"));
    e.auto_send_enabled = Some(s("1"));
    let c = Config::from_env_settings(Config::defaults_at(s("db")), &e);
    let m = c.email.unwrap();
    assert_eq!(m.smtp_port, 587);
    assert_eq!(m.to_addresses, vec![s("a@x.com"), s("b@y.com")]);
    assert!(m.auto_send_enabled);
    assert_eq!(m.auto_send_delay_minutes, 30);
}

#[test]
fn security_settings_store_and_read_back() {
    let st = SecuritySettings {
        max_registration_attempts_per_device: 3,
        max_registration_attempts_per_ip: 7,
        rate_limit_window_minutes: 20,
        block_duration_minutes: -5,
        token_expiry_hours: 48,
        require_registration_code: false,
    };
    let rows = security_settings_rows(&st);
    assert_eq!(rows[0], (s("security.require_registration_codes"), s("false")));
    assert_eq!(rows[4], (s("security.block_duration_minutes"), s("-5")));
    assert_eq!(security_settings_from_rows(&rows), st);
}

#[test]
fn security_settings_defaults_for_bad_values() {
    let rows = vec![
        (s("security.max_registration_attempts_per_device"), s("lots")),
        (s("security.token_expiry_hours"), s("12")),
        (s("security.unknown"), s("1")),
    ];
    let st = security_settings_from_rows(&rows);
    let mut expected = default_security_settings();
    expected.token_expiry_hours = 12;
    assert_eq!(st, expected);
    assert_eq!(expected.max_registration_attempts_per_device, 5);
    assert!(expected.require_registration_code);
}

#[test]
fn configs_are_clamped() {
    let c = clamp_auto_break(&AutoBreakConfig { enabled: true, threshold_hours: 30, break_minutes: 0 });
    assert_eq!((c.threshold_hours, c.break_minutes), (24, 1));
    let d = AutoBreakConfig::default();
    assert_eq!((d.enabled, d.threshold_hours, d.break_minutes), (true, 8, 30));
    let r = clamp_time_rounding(&TimeRoundingConfig { enabled: true, interval_minutes: 90 });
    assert_eq!(r.interval_minutes, 60);
    let t = TimeRoundingConfig::default();
    assert_eq!((t.enabled, t.interval_minutes), (false, 15));
    assert_eq!(rounding_in_effect(&TimeRoundingConfig { enabled: true, interval_minutes: 0 }), Some(1));
    assert_eq!(rounding_in_effect(&t), None);
}

#[test]
fn room_items_are_cleaned() {
    let items = vec![s("  fillers "), s(""), s("   "), s("trim")];
    let cleaned = clean_room_items(&items);
    assert_eq!(cleaned, vec![s("fillers"), s("trim")]);
    assert_eq!(clean_room_items(&cleaned), cleaned);
    assert_eq!(default_room_item_list().len(), 5);
}

#[test]
fn rounding_clock_times() {
    assert_eq!(round_time(1000, 15), 900);
    assert_eq!(round_time(1350, 15), 1800);
    assert_eq!(round_time(900, 15), 900);
    assert_eq!(round_time(-100, 1), -60);
    assert_eq!(round_time(1_700_000_000, 15), 1_700_000_100);
    assert_eq!(round_time(round_time(1000, 15), 15), round_time(1000, 15));
}

fn work_entry(id: &str, clock_in: i64, clock_out: Option<i64>, is_break: Option<bool>) -> TimeEntryInput {
    TimeEntryInput {
        id: s(id),
        device_id: s("dev1"),
        customer_name: Some(s("Cust")),
        job_name: None,
        job_id: Some(s("j1")),
        clock_in,
        clock_out,
        note: None,
        is_break,
        is_paid: None,
    }
}

#[test]
fn automatic_breaks() {
    let cfg = AutoBreakConfig::default();
    let e = work_entry("e1", 0, Some(9 * 3_600_000), None);
    let b = auto_break_entry(&cfg, &e).unwrap();
    assert_eq!(b.id, "auto-break-e1");
    assert_eq!(b.clock_in, 8 * 3_600_000);
    assert_eq!(b.clock_out, Some(8 * 3_600_000 + 30 * 60_000));
    assert_eq!(b.note, Some(s("Auto 30min break - worked over 8hrs")));
    assert_eq!((b.is_break, b.is_paid), (Some(true), Some(false)));
    assert_eq!(b.customer_name, Some(s("Cust")));
    assert!(auto_break_entry(&cfg, &work_entry("e2", 0, Some(7 * 3_600_000), None)).is_none());
    assert!(auto_break_entry(&cfg, &work_entry("e3", 0, Some(9 * 3_600_000), Some(true))).is_none());
    assert!(auto_break_entry(&cfg, &work_entry("e4", 0, None, None)).is_none());
    let off = AutoBreakConfig { enabled: false, ..cfg };
    assert!(auto_break_entry(&off, &e).is_none());
}

fn record(uuid: &str, device: &str, clock_in: &str, clock_out: Option<&str>, is_break: i32) -> TimeEntryRecord {
    TimeEntryRecord {
        id: 1,
        uuid: s(uuid),
        device_id: s(device),
        customer_name: None,
        job_name: Some(s("Kitchen")),
        job_id: None,
        clock_in: s(clock_in),
        clock_out: clock_out.map(s),
        note: None,
        is_break,
        is_paid: 1,
        synced_at: None,
        created_at: None,
    }
}

fn member(device: &str, name: &str) -> TeamMember {
    TeamMember {
        id: 1,
        device_id: s(device),
        display_name: s(name),
        role: s("worker"),
        is_admin: 0,
        avatar_color: None,
        created_at: None,
        updated_at: None,
    }
}

#[test]
fn timesheet_days_group_and_sort() {
    let entries = vec![
        record("a", "d1", "2024-05-02T08:00:00Z", Some("2024-05-02T12:00:00Z"), 0),
        record("b", "d2", "2024-05-02T09:00:00Z", Some("2024-05-02T10:00:00Z"), 0),
        record("c", "d1", "2024-05-02T12:00:00Z", Some("2024-05-02T12:30:00Z"), 1),
        record("d", "d1", "2024-05-01T08:00:00Z", None, 0),
        record("e", "d1", "2024-04-01T08:00:00Z", Some("2024-04-01T09:00:00Z"), 0),
    ];
    let members = vec![member("d1", "Zed"), member("d2", "Amy")];
    let days = timesheet_days(entries, &members, Some("2024-05-01"), None).unwrap();
    let keys: Vec<(String, String)> = days.iter().map(|d| (d.date.clone(), d.display_name.clone())).collect();
    assert_eq!(
        keys,
        vec![(s("2024-05-02"), s("Amy")), (s("2024-05-02"), s("Zed")), (s("2024-05-01"), s("Zed"))]
    );
    assert_eq!(days[1].total_work_seconds, 4 * 3600);
    assert_eq!(days[1].total_break_seconds, 1800);
    assert_eq!(days[1].entries.len(), 2);
    assert_eq!(days[0].total_work_seconds, 3600);
    assert_eq!(days[2].total_work_seconds, 0);
    assert!(days.iter().all(|d| !d.has_gps));
}

#[test]
fn team_member_status_from_open_entries() {
    let m = member("d1", "Zed");
    let work = vec![record("w", "d1", "2024-05-02T08:00:00Z", None, 0)];
    let breaks = vec![record("b", "d2", "2024-05-02T08:00:00Z", None, 1)];
    let st = team_member_status(&m, &work, &breaks, Some(s("now")), 4);
    assert_eq!(st.status, "working");
    assert_eq!(st.current_job, Some(s("Kitchen")));
    assert_eq!(st.clock_in, Some(s("2024-05-02T08:00:00Z")));
    assert_eq!(st.total_scans_today, 4);
    let idle = team_member_status(&member("d9", "Nobody"), &work, &breaks, None, 0);
    assert_eq!(idle.status, "offline");
    assert_eq!(idle.current_job, None);
}

#[test]
fn synced_ids_and_verification() {
    assert_eq!(synced_scan_id(Some(42), "uuid-1"), "42");
    assert_eq!(synced_scan_id(None, "uuid-1"), "uuid-1");
    let ids = vec![s("1"), s("2"), s("3")];
    assert_eq!(local_ids(&ids), Some(vec![1, 2, 3]));
    assert_eq!(local_ids(&vec![s("1"), s("abc")]), None);
    let found = found_local_ids(&vec![1, 3]);
    assert_eq!(found, vec![s("1"), s("3")]);
    assert_eq!(missing_ids(&ids, &found), vec![s("2")]);
}

#[test]
fn job_reference_actions() {
    assert_eq!(job_ref_action(&Some(s("R1")), true), JobRefAction::SetJobReference);
    assert_eq!(job_ref_action(&Some(s("R1")), false), JobRefAction::LinkScanByReference);
    assert_eq!(job_ref_action(&Some(s("")), true), JobRefAction::Nothing);
    assert!(!is_given(&None));
}

#[test]
fn registration_and_heartbeat_refusals() {
    assert_eq!(registration_code_refusal(false, &None), None);
    assert_eq!(registration_code_refusal(true, &None), Some(RegisterRefusal::CodeMissing));
    assert_eq!(registration_code_refusal(true, &Some(s("  "))), Some(RegisterRefusal::CodeBlank));
    assert_eq!(registration_code_refusal(true, &Some(s("abc"))), None);
    assert_eq!(RegisterRefusal::CodeMissing.message(), "Registration code is required");
    assert_eq!(RegisterRefusal::Blocked.status(), 429);
    assert_eq!(RegisterRefusal::CodeBlank.status(), 400);
    assert_eq!(RegisterRefusal::RateLimited.message(), "Too many registration attempts. Device blocked temporarily.");
    let st = default_security_settings();
    assert!(registration_rate_limited(5, 0, &st));
    assert!(!registration_rate_limited(4, 9, &st));
    assert!(heartbeat_rate_limited(61));
    assert!(!heartbeat_rate_limited(60));
    assert_eq!(heartbeat_refusal(true, true), Some(HeartbeatRefusal::Blocked));
    assert_eq!(heartbeat_refusal(false, true).unwrap().status(), 429);
    assert_eq!(HeartbeatRefusal::Blocked.message(), "Device is blocked");
    assert_eq!(auth_refusal(0, None, 10), Some(AuthRefusal::NotApproved));
    assert_eq!(auth_refusal(1, Some(None), 10), Some(AuthRefusal::Blocked));
    assert_eq!(auth_refusal(1, Some(Some(20)), 10), Some(AuthRefusal::Blocked));
    assert_eq!(auth_refusal(1, Some(Some(5)), 10), None);
    assert_eq!(AuthRefusal::NotApproved.message(), "Device not approved");
}

#[test]
fn connecting_devices() {
    let req = ConnectRequest {
        device_id: s("d1"),
        device_name: Some(s("Pixel")),
        model: None,
        os_version: Some(s("14")),
        app_version: None,
        user_name: Some(s("  Ann ")),
        phone_number: None,
    };
    let d = device_input_from_connect(&req);
    assert_eq!(d.device_id, "d1");
    assert_eq!(d.device_name, Some(s("Pixel")));
    assert!(d.registration_code.is_none());
    assert_eq!(connect_display_name(&req.user_name), Some(s("Ann")));
    assert_eq!(connect_display_name(&Some(s("   "))), None);
}

#[test]
fn web_client_changes() {
    assert_eq!(change_op("create", "job"), Ok(ChangeOp::CreateJob));
    assert_eq!(change_op("update", "job_details"), Ok(ChangeOp::UpdateJobDetails));
    assert_eq!(change_op("drop", "table"), Err(s("Unsupported operation: drop table")));
    assert_eq!(entity_number(&Some(s("12")), "Job ID required for delete", "Invalid job ID"), Ok(12));
    assert_eq!(entity_number(&None, "Job ID required for delete", "Invalid job ID"), Err(s("Job ID required for delete")));
    assert_eq!(entity_number(&Some(s("x")), "Job ID required for delete", "Invalid job ID"), Err(s("Invalid job ID")));
    assert_eq!(applied_message(ChangeOp::CreateJob, "Kitchen", 0), "Job 'Kitchen' created");
    assert_eq!(applied_message(ChangeOp::UpdateScanAssignments, "", 3), "3 scans updated");
    assert_eq!(applied_message(ChangeOp::DeleteScan, "", 0), "Scan deleted");
    let q = queued_response(7);
    assert!(!q.applied && q.pending_id == Some(7) && q.message == "Change queued for approval");
    let a = applied_response(s("ok"), None);
    assert!(a.applied && a.pending_id.is_none());
    assert_eq!(pending_check("pending"), Ok(()));
    assert_eq!(pending_check("approved"), Err(s("Change already approved")));
}

fn job(updated: Option<&str>) -> JobWithCount {
    JobWithCount {
        job: Job {
            id: 3,
            uuid: s("uuid-3"),
            name: s("Kitchen"),
            description: None,
            reference_number: Some(s("R9")),
            customer_name: None,
            expected_count: 10,
            status: s("active"),
            device_id: None,
            created_by: None,
            notes: None,
            priority: s("normal"),
            due_date: Some(s("not a date")),
            created_at: Some(s("2024-01-01T00:00:00Z")),
            updated_at: updated.map(s),
            started_at: None,
            completed_at: None,
        },
        scan_count: 4,
        file_count: 2,
    }
}

#[test]
fn jobs_for_download() {
    assert_eq!(rfc3339_to_millis("2024-01-01T00:00:00Z"), 1_704_067_200_000);
    assert_eq!(rfc3339_to_millis("garbage"), 0);
    assert_eq!(rfc3339_to_secs("2024-01-01T00:00:01Z"), Some(1_704_067_201));
    let j = job(Some("2024-01-01T00:00:00Z"));
    let p = job_download_payload(&j);
    assert_eq!(p.id, "uuid-3");
    assert_eq!(p.server_id, Some(3));
    assert_eq!(p.reference_number, "R9");
    assert_eq!(p.description, "");
    assert_eq!(p.created_at, 1_704_067_200_000);
    assert_eq!(p.due_date, Some(0));
    assert_eq!(p.started_at, None);
    assert_eq!((p.scan_count, p.file_count), (4, 2));
    assert!(updated_since(&j, Some(1)));
    assert!(!updated_since(&j, Some(1_704_067_200_000)));
    assert!(updated_since(&j, Some(0)));
    assert!(!updated_since(&job(None), Some(5)));
}

#[test]
fn room_progress_from_reports() {
    let mut r = ReportInput {
        id: s("r1"),
        job_id: Some(s("j1")),
        title: s("t"),
        room_name: Some(s("101")),
        notes: None,
        status: None,
        author_device_id: None,
        author_name: Some(s("Ann")),
        assigned_to_device_id: None,
        assigned_to_name: None,
        cabinet_count: None,
        is_complete: Some(true),
        has_fillers: None,
        has_handles: Some(true),
        has_fast_caps: None,
        has_set_boxes: None,
        has_caulking: None,
        punch_list: None,
        created_at: None,
        updated_at: None,
    };
    let u = room_update_from_report(&r).unwrap();
    assert_eq!((u.cabinet_count, u.is_complete, u.has_handles, u.has_fillers), (0, true, true, false));
    assert_eq!(u.report_id, "r1");
    assert_eq!(u.updated_by, Some(s("Ann")));
    r.room_name = Some(s(""));
    assert!(room_update_from_report(&r).is_none());
}

#[test]
fn tabs() {
    assert_eq!(Tab::initial(), Tab::Scans);
    assert_eq!(Tab::ScanMap.title(), "Map");
    assert_eq!(Tab::Timesheets.title(), "Timesheets");
}

#[test]
fn changes_of_trusted_clients_apply_at_once() {
    let mut c = codebar_server::models::WebClient {
        id: 1,
        client_id: s("c1"),
        client_name: None,
        user_agent: None,
        ip_address: None,
        is_trusted: 1,
        last_seen_at: None,
        created_at: None,
    };
    assert_eq!(codebar_server::requests::change_route(&c), codebar_server::requests::ChangeRoute::Apply);
    c.is_trusted = 0;
    assert_eq!(codebar_server::requests::change_route(&c), codebar_server::requests::ChangeRoute::Queue);
}

#[test]
fn ascii_case_mapping() {
    assert_eq!(upper_chars(&['a', 'b', '1', 'Z']), vec!['A', 'B', '1', 'Z']);
    assert_eq!(lower_chars(&['A', 'b', '-', 'Q']), vec!['a', 'b', '-', 'q']);
    assert_eq!(upper_chars(&['\u{df}']), vec!['S', 'S']);
}
