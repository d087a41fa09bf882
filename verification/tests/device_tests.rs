use codebar_server::api::AutoBreakConfig;
use codebar_server::devices::{
    blocked_now, fingerprint_hash, heartbeat_session, lower_hex, new_device_token, new_registration_code,
    new_uuid, online_now, registration_code_key, time_text_after, SessionUpdate,
};
use codebar_server::job_files::read_job_pdf_checked;
use codebar_server::gui::{click_tab, online_count, refresh_due, Tab, Theme};
use codebar_server::models::{Device, DeviceWithStats, JobInput, ReportInput, TimeEntryInput};
use codebar_server::records::{job_row, report_row, time_entry_row};
use codebar_server::requests::{background_action, background_set_message, rfc3339_millis, BackgroundAction};
use codebar_server::timekeeping::{break_fits_exec, millis_text_or, opt_millis_text_exec, round_millis};

fn s(x: &str) -> String {
    x.to_string()
}

fn alnum(t: &str) -> bool {
    t.chars().all(|c| c.is_ascii_alphanumeric())
}

#[test]
fn millisecond_times_as_text() {
    assert_eq!(millis_text_or(0, "now"), "1970-01-01T00:00:00+00:00");
    assert_eq!(millis_text_or(1_500, "now"), "1970-01-01T00:00:01.500+00:00");
    assert_eq!(millis_text_or(-1, "now"), "1969-12-31T23:59:59.999+00:00");
    assert_eq!(millis_text_or(i64::MAX, "now"), "now");
    assert_eq!(opt_millis_text_exec(Some(86_400_000)), Some(s("1970-01-02T00:00:00+00:00")));
    assert_eq!(opt_millis_text_exec(None), None);
    assert_eq!(opt_millis_text_exec(Some(i64::MIN)), None);
}

#[test]
fn rounding_millisecond_times() {
    assert_eq!(round_millis(1_000, 15), 0);
    assert_eq!(round_millis(1_350_000, 15), 1_800_000);
    assert_eq!(round_millis(900_123, 15), 900_000);
    assert_eq!(round_millis(-1, 1), 0);
}

fn job_input() -> JobInput {
    JobInput {
        id: s("u1"),
        name: s("Kitchen"),
        description: None,
        reference_number: None,
        customer_name: None,
        expected_count: None,
        scan_count: None,
        status: None,
        created_at: None,
        updated_at: None,
        started_at: Some(60_000),
        completed_at: Some(i64::MAX),
        device_id: None,
        created_by: None,
        notes: None,
        priority: Some(s("HIGH")),
        due_date: None,
    }
}

#[test]
fn job_rows() {
    let r = job_row(&job_input(), "NOW");
    assert_eq!(r.created_at, "NOW");
    assert_eq!(r.started_at, Some(s("1970-01-01T00:01:00+00:00")));
    assert_eq!(r.completed_at, None);
    assert_eq!(r.due_date, None);
    assert_eq!(r.expected_count, 0);
    assert_eq!(r.status, "PENDING");
    assert_eq!(r.priority, "HIGH");
    let mut j = job_input();
    j.created_at = Some(0);
    j.status = Some(s("ACTIVE"));
    j.expected_count = Some(12);
    let r = job_row(&j, "NOW");
    assert_eq!(r.created_at, "1970-01-01T00:00:00+00:00");
    assert_eq!(r.status, "ACTIVE");
    assert_eq!(r.expected_count, 12);
}

#[test]
fn report_rows() {
    let input = ReportInput {
        id: s("r1"),
        job_id: None,
        title: s("t"),
        room_name: None,
        notes: None,
        status: None,
        author_device_id: None,
        author_name: None,
        assigned_to_device_id: None,
        assigned_to_name: None,
        cabinet_count: Some(4),
        is_complete: Some(true),
        has_fillers: Some(false),
        has_handles: None,
        has_fast_caps: Some(true),
        has_set_boxes: None,
        has_caulking: None,
        punch_list: None,
        created_at: Some(0),
        updated_at: None,
    };
    let r = report_row(&input, "NOW");
    assert_eq!(r.created_at, "1970-01-01T00:00:00+00:00");
    assert_eq!(r.updated_at, "NOW");
    assert_eq!(r.status, "draft");
    assert_eq!(r.cabinet_count, 4);
    assert_eq!((r.is_complete, r.has_fillers, r.has_handles, r.has_fast_caps), (1, 0, 0, 1));
}

fn entry(clock_in: i64, clock_out: Option<i64>) -> TimeEntryInput {
    TimeEntryInput {
        id: s("e1"),
        device_id: s("d1"),
        customer_name: None,
        job_name: None,
        job_id: None,
        clock_in,
        clock_out,
        note: None,
        is_break: None,
        is_paid: None,
    }
}

#[test]
fn time_entry_rows() {
    let r = time_entry_row(&entry(1_000, Some(1_350_000)), None, 0);
    assert_eq!(r.clock_in, "1970-01-01T00:00:01+00:00");
    assert_eq!(r.clock_out, Some(s("1970-01-01T00:22:30+00:00")));
    assert_eq!((r.is_break, r.is_paid), (0, 1));
    let r = time_entry_row(&entry(1_000, Some(1_350_000)), Some(15), 0);
    assert_eq!(r.clock_in, "1970-01-01T00:00:00+00:00");
    assert_eq!(r.clock_out, Some(s("1970-01-01T00:30:00+00:00")));
    let mut e = entry(i64::MAX, Some(i64::MAX));
    e.is_break = Some(true);
    e.is_paid = Some(false);
    let r = time_entry_row(&e, None, 60_000);
    assert_eq!(r.clock_in, "1970-01-01T00:01:00+00:00");
    assert_eq!(r.clock_out, None);
    assert_eq!((r.is_break, r.is_paid), (1, 0));
}

#[test]
fn online_and_blocked() {
    let seen = Some(s("2024-05-02T08:00:00Z"));
    let t = rfc3339_millis("2024-05-02T08:00:00Z").unwrap();
    assert_eq!(t, 1_714_636_800_000);
    assert!(online_now(&seen, "2024-05-02T08:04:59.999999999Z"));
    assert!(!online_now(&seen, "2024-05-02T08:05:00Z"));
    assert!(online_now(&seen, "2024-05-02T07:00:00Z"));
    assert!(!online_now(&None, "2024-05-02T08:00:00Z"));
    assert!(!online_now(&Some(s("yesterday")), "2024-05-02T08:00:00Z"));
    assert!(blocked_now("2024-05-02T08:00:00Z", t - 1));
    assert!(!blocked_now("2024-05-02T08:00:00Z", t));
    assert!(!blocked_now("soon", t));
    assert_eq!(rfc3339_millis("not a time"), None);
}

#[test]
fn times_after_now() {
    assert_eq!(time_text_after(0, 3_600_000), Some(s("1970-01-01T01:00:00+00:00")));
    assert_eq!(time_text_after(3_600_000, -3_600_000), Some(s("1970-01-01T00:00:00+00:00")));
    assert_eq!(time_text_after(i64::MAX, 1), None);
}

#[test]
fn heartbeat_sessions() {
    let hb = Some(s("2024-05-02T08:00:00Z"));
    let t = "2024-05-02T08:00:00Z";
    let seen = Some(s("2024-05-02T08:00:00Z"));
    // a heartbeat two minutes later continues the session
    assert_eq!(
        heartbeat_session(&hb, &seen, Some(3), Some(100), "2024-05-02T08:02:00.500Z"),
        Some(SessionUpdate { connection_count: Some(3), total_uptime_seconds: 220 })
    );
    // five minutes and 59 seconds still continue it
    assert_eq!(
        heartbeat_session(&hb, &seen, None, None, "2024-05-02T08:05:59.999999999Z"),
        Some(SessionUpdate { connection_count: None, total_uptime_seconds: 359 })
    );
    // six minutes start a new one
    assert_eq!(
        heartbeat_session(&hb, &seen, Some(3), Some(100), "2024-05-02T08:06:00Z"),
        Some(SessionUpdate { connection_count: Some(4), total_uptime_seconds: 100 })
    );
    // a heartbeat from the future adds nothing
    assert_eq!(
        heartbeat_session(&hb, &seen, Some(3), Some(100), "2024-05-02T07:59:50Z"),
        Some(SessionUpdate { connection_count: Some(3), total_uptime_seconds: 100 })
    );
    // the gap is counted to the nanosecond: just under a minute is 59 seconds
    assert_eq!(
        heartbeat_session(
            &Some(s("2024-05-02T08:00:00.000000500Z")),
            &seen,
            Some(3),
            Some(100),
            "2024-05-02T08:01:00.000000400Z"
        ),
        Some(SessionUpdate { connection_count: Some(3), total_uptime_seconds: 159 })
    );
    // never seen, or no last heartbeat: a new session
    assert_eq!(
        heartbeat_session(&hb, &None, None, None, t),
        Some(SessionUpdate { connection_count: Some(1), total_uptime_seconds: 0 })
    );
    assert_eq!(
        heartbeat_session(&None, &seen, Some(1), Some(5), t),
        Some(SessionUpdate { connection_count: Some(2), total_uptime_seconds: 5 })
    );
    // a last heartbeat that does not parse counts as now
    assert_eq!(
        heartbeat_session(&Some(s("garbled")), &seen, Some(1), Some(5), t),
        Some(SessionUpdate { connection_count: Some(1), total_uptime_seconds: 5 })
    );
    // counts that would overflow
    assert_eq!(heartbeat_session(&None, &seen, Some(i64::MAX), Some(5), t), None);
    assert_eq!(heartbeat_session(&hb, &seen, Some(1), Some(i64::MAX), "2024-05-02T08:00:01Z"), None);
}

#[test]
fn fingerprint_hashes() {
    assert_eq!(fingerprint_hash(&Some(s("abc"))), Some(s("900150983cd24fb0d6963f7d28e17f72")));
    assert_eq!(fingerprint_hash(&Some(s(""))), Some(s("d41d8cd98f00b204e9800998ecf8427e")));
    assert_eq!(fingerprint_hash(&None), None);
    assert_eq!(lower_hex(&[0, 15, 16, 255]), "000f10ff");
}

#[test]
fn codes_tokens_and_ids() {
    let c = new_registration_code(&None);
    assert_eq!(c.code.len(), 8);
    assert!(alnum(&c.code));
    assert_eq!(c.key, format!("reg_code.{}", c.code));
    assert_eq!(c.description, "Generated registration code");
    let c = new_registration_code(&Some(s("front desk")));
    assert_eq!(c.description, "front desk");
    assert_eq!(registration_code_key("AB12"), "reg_code.AB12");
    let t = new_device_token(0, 24).unwrap();
    assert_eq!(t.token.len(), 32);
    assert!(alnum(&t.token));
    assert_eq!(t.expires_at, "1970-01-02T00:00:00+00:00");
    assert!(new_device_token(i64::MAX, 1).is_none());
    let u = new_uuid();
    assert_eq!(u.len(), 36);
    let b: Vec<char> = u.chars().collect();
    assert_eq!((b[8], b[13], b[18], b[23], b[14]), ('-', '-', '-', '-', '4'));
    assert!("89ab".contains(b[19]));
    assert_ne!(new_uuid(), u);
}

#[test]
fn background_types() {
    assert_eq!(background_action("none"), Ok(BackgroundAction::Remove));
    assert_eq!(background_action("image"), Ok(BackgroundAction::SetType));
    assert_eq!(background_action("shader"), Ok(BackgroundAction::SetType));
    assert_eq!(
        background_action("video"),
        Err(s("Invalid background_type. Must be: image, shader, or none"))
    );
    assert_eq!(background_set_message("shader"), "Background type set to shader");
}

fn device(id: &str) -> Device {
    Device {
        id: 1,
        device_id: s(id),
        device_name: None,
        model: None,
        os_version: None,
        app_version: None,
        last_seen_at: None,
        registered_at: None,
        is_active: 1,
        registration_code: None,
        is_approved: 0,
        auth_token: None,
        auth_token_expires_at: None,
        fingerprint_hash: None,
        registration_attempts: 0,
        last_registration_attempt_at: None,
        blocked_until: None,
        ip_address: None,
        user_agent: None,
        status: None,
        last_heartbeat_at: None,
        connection_count: None,
        total_uptime_seconds: None,
        error_count: None,
        last_error_at: None,
        last_error_message: None,
        battery_level: None,
        is_charging: None,
        available_memory_mb: None,
        total_memory_mb: None,
        network_type: None,
        connection_quality: None,
    }
}

#[test]
fn window_decisions() {
    let mut current = Tab::Scans;
    assert!(click_tab(&mut current, Tab::Team, true));
    assert_eq!(current, Tab::Team);
    assert!(!click_tab(&mut current, Tab::Email, false));
    assert_eq!(current, Tab::Team);
    assert_eq!(Tab::navigation().len(), 9);
    assert_eq!(Tab::navigation()[5], Tab::ScanMap);
    assert_eq!(Tab::ScanMap.icon(), "🗺");
    assert!(refresh_due(false, None));
    assert!(refresh_due(false, Some(5)));
    assert!(!refresh_due(false, Some(4)));
    assert!(refresh_due(true, Some(0)));
    let ds = vec![
        DeviceWithStats { device: device("a"), total_scans: 1, is_online: true },
        DeviceWithStats { device: device("b"), total_scans: 0, is_online: false },
        DeviceWithStats { device: device("c"), total_scans: 3, is_online: true },
    ];
    assert_eq!(online_count(&ds), 2);
    let t = Theme::default();
    assert_eq!(t.primary, (99, 102, 241));
    assert_eq!(t.muted, (148, 163, 184));
}

#[test]
fn automatic_break_overflow_checks() {
    let cfg = AutoBreakConfig::default();
    assert!(break_fits_exec(&cfg, &entry(0, Some(9 * 3_600_000))));
    assert!(break_fits_exec(&cfg, &entry(0, None)));
    assert!(!break_fits_exec(&cfg, &entry(i64::MIN, Some(i64::MAX))));
    assert!(break_fits_exec(&cfg, &entry(i64::MAX - 1_000, Some(i64::MAX))));
    assert!(!break_fits_exec(&cfg, &entry(i64::MAX - 8 * 3_600_000, Some(i64::MAX))));
    let off = AutoBreakConfig { enabled: false, threshold_hours: 8, break_minutes: 30 };
    assert!(break_fits_exec(&off, &entry(i64::MIN, Some(i64::MAX))));
}

#[test]
fn reading_uploaded_pdfs() {
    let r = read_job_pdf_checked(b"not a pdf", "bol.pdf", "j1", "f1").unwrap();
    assert_eq!(r.extracted_text, None);
    assert!(r.tickets.is_empty());
    assert_eq!(r.address, None);
}

#[test]
fn chrono_range_ends_exactly() {
    assert_ne!(millis_text_or(8_210_266_876_799_999, "out"), "out");
    assert_eq!(millis_text_or(8_210_266_876_800_000, "out"), "out");
    assert_ne!(millis_text_or(-8_334_601_228_800_000, "out"), "out");
    assert_eq!(millis_text_or(-8_334_601_228_800_001, "out"), "out");
}

#[test]
fn written_times_read_back() {
    for ms in [0i64, 1_714_636_800_123, -1, 253_402_300_799_999, -62_167_219_200_000] {
        assert_eq!(rfc3339_millis(&millis_text_or(ms, "")), Some(ms));
    }
}
