//! The server's API: its response envelope, and the requests and
//! responses of its endpoints.

use vstd::prelude::*;
use crate::lading::opt_str;
use crate::models::{
    Device, Job, JobFileMeta, JobFileSearchResult, JobInput, LadingTicket, PendingChange, RegistrationCodeInfo, ReportInput, ReportRecord, RoomProgress,
    RoomProgressSummary, TeamMember, TeamMemberStatus, TimeEntryInput, TimeEntryRecord, TimesheetDay,
    WebClient,
};

verus! {

/// The envelope of every API response.
#[derive(Clone, Debug, PartialEq)]
pub struct ApiResponse<T> {
    pub success: bool,
    pub message: Option<String>,
    pub error: Option<String>,
    pub data: Option<T>,
}

impl<T> ApiResponse<T> {
    /// A successful response carrying `data`.
    pub fn success(data: T) -> (r: Self)
        ensures
            r.success,
            r.message is None,
            r.error is None,
            r.data == Some(data),
    {
        ApiResponse { success: true, message: None, error: None, data: Some(data) }
    }

    /// A successful response carrying `data` and a message.
    pub fn success_with_message(data: T, message: String) -> (r: Self)
        ensures
            r.success,
            opt_str(r.message) == Some(message@),
            r.error is None,
            r.data == Some(data),
    {
        ApiResponse { success: true, message: Some(message), error: None, data: Some(data) }
    }
}

impl ApiResponse<()> {
    /// A failed response carrying the error text.
    pub fn error(error: String) -> (r: Self)
        ensures
            !r.success,
            r.message is None,
            opt_str(r.error) == Some(error@),
            r.data is None,
    {
        ApiResponse { success: false, message: None, error: Some(error), data: None }
    }
}

#[derive(Clone, Debug, PartialEq)]
pub struct HealthResponse {
    pub status: String,
    pub version: String,
    pub timestamp: i64,
    pub uptime_seconds: u64,
}

#[derive(Clone, Debug, PartialEq)]
pub struct SyncScansResponse {
    pub synced_ids: Vec<String>,
}

#[derive(Clone, Debug, PartialEq)]
pub struct VerifyScansRequest {
    pub device_id: String,
    /// Can be local IDs (integers as strings) or UUIDs
    pub scan_ids: Vec<String>,
}

#[derive(Clone, Debug, PartialEq)]
pub struct VerifyScansResponse {
    /// IDs that were found on the server
    pub verified: Vec<String>,
    /// IDs that were not found on the server
    pub missing: Vec<String>,
}

#[derive(Clone, Debug, PartialEq)]
pub struct SyncJobsRequest {
    pub device_id: String,
    pub jobs: Vec<JobInput>,
}

#[derive(Clone, Debug, PartialEq)]
pub struct SyncJobsResponse {
    pub synced_job_ids: Vec<String>,
}

#[derive(Clone, Debug, PartialEq)]
pub struct GetScansQuery {
    pub job_id: Option<i64>,
    pub device_id: Option<String>,
    pub since: Option<i64>,
    pub limit: Option<i64>,
}

#[derive(Clone, Debug, PartialEq)]
pub struct GetJobsQuery {
    pub device_id: Option<String>,
    pub since: Option<i64>,
}

/// Job payload formatted for Android download (matches JobPayload in Android)
#[derive(Clone, Debug, PartialEq)]
pub struct JobDownloadPayload {
    pub id: String,
    pub server_id: Option<i64>,
    pub name: String,
    pub description: String,
    pub reference_number: String,
    pub customer_name: String,
    pub expected_count: i32,
    pub scan_count: i32,
    pub status: String,
    pub created_at: i64,
    pub updated_at: i64,
    pub started_at: Option<i64>,
    pub completed_at: Option<i64>,
    pub device_id: String,
    pub created_by: String,
    pub notes: String,
    pub priority: String,
    pub due_date: Option<i64>,
    pub file_count: i32,
}

#[derive(Clone, Debug, PartialEq)]
pub struct GetJobsResponse {
    pub jobs: Vec<JobDownloadPayload>,
}

#[derive(Clone, Debug, PartialEq)]
pub struct UpdateJobRequest {
    pub name: Option<String>,
    pub status: Option<String>,
    pub completed_at: Option<i64>,
    pub reference_number: Option<Option<String>>,
    pub description: Option<Option<String>>,
    pub customer_name: Option<Option<String>>,
    pub notes: Option<Option<String>>,
    pub priority: Option<String>,
    pub expected_count: Option<i32>,
    pub due_date: Option<Option<String>>,
    pub address: Option<Option<String>>,
}

#[derive(Clone, Debug, PartialEq)]
pub struct UpdateScanAssignmentsRequest {
    pub scan_ids: Vec<i64>,
    pub job_id: Option<i64>,
    pub device_id: Option<String>,
}

#[derive(Clone, Debug, PartialEq)]
pub struct UpdateScanAssignmentsResponse {
    pub updated: u64,
}

#[derive(Clone, Debug, PartialEq)]
pub struct GetDevicesResponse {
    pub devices: Vec<Device>,
    pub total: i64,
}

#[derive(Clone, Debug, PartialEq)]
pub struct DevicesResponse {
    pub devices: Vec<Device>,
}

#[derive(Clone, Debug, PartialEq)]
pub struct JobResponse {
    pub job: Job,
}

#[derive(Clone, Debug, PartialEq)]
pub struct DeviceRegisterResponse {
    pub device_id: String,
}

#[derive(Clone, Debug, PartialEq)]
pub struct DeviceAuthResponse {
    pub authenticated: bool,
    pub device_id: String,
    pub device_name: Option<String>,
}

#[derive(Clone, Debug, PartialEq)]
pub struct BlockDeviceRequest {
    pub device_id: String,
    pub minutes: i32,
}

#[derive(Clone, Debug, PartialEq)]
pub struct UnblockDeviceRequest {
    pub device_id: String,
}

#[derive(Clone, Debug, PartialEq)]
pub struct GenerateCodeRequest {
    pub description: Option<String>,
}

#[derive(Clone, Debug, PartialEq)]
pub struct RegistrationCodeResponse {
    pub code: String,
}

#[derive(Clone, Debug, PartialEq)]
pub struct HeartbeatRequest {
    pub device_id: String,
    /// Number of scans waiting to be synced
    pub pending_scans: Option<i32>,
    /// Number of jobs waiting to be synced
    pub pending_jobs: Option<i32>,
}

#[derive(Clone, Debug, PartialEq)]
pub struct HeartbeatResponse {
    pub acknowledged: bool,
    pub server_time: i64,
}

#[derive(Clone, Debug, PartialEq)]
pub struct EnhancedHeartbeatRequest {
    pub device_id: String,
    /// Number of scans waiting to be synced
    pub pending_scans: Option<i32>,
    /// Number of jobs waiting to be synced
    pub pending_jobs: Option<i32>,
    /// Battery level (0-100)
    pub battery_level: Option<i32>,
    /// Is device charging
    pub is_charging: Option<bool>,
    /// Total scans performed
    pub total_scans: Option<i32>,
    /// Memory usage description
    pub memory_usage: Option<String>,
    /// App version
    pub app_version: Option<String>,
    /// Network type (WiFi, Mobile, etc.)
    pub network_type: Option<String>,
    /// Connection quality description
    pub connection_quality: Option<String>,
    /// Timestamp of heartbeat
    pub timestamp: Option<i64>,
}

#[derive(Clone, Debug, PartialEq)]
pub struct EnhancedHeartbeatResponse {
    pub acknowledged: bool,
    pub server_time: i64,
    /// Suggested heartbeat interval in seconds (optional)
    pub suggested_interval_seconds: Option<i32>,
}

#[derive(Clone, Debug, PartialEq)]
pub struct ConnectRequest {
    pub device_id: String,
    pub device_name: Option<String>,
    pub model: Option<String>,
    pub os_version: Option<String>,
    pub app_version: Option<String>,
    pub user_name: Option<String>,
    pub phone_number: Option<String>,
}

#[derive(Clone, Debug, PartialEq)]
pub struct ConnectResponse {
    pub connected: bool,
    pub device_id: String,
    pub server_version: String,
    pub server_time: i64,
    pub is_admin: bool,
}

#[derive(Clone, Debug, PartialEq)]
pub struct DisconnectRequest {
    pub device_id: String,
}

#[derive(Clone, Debug, PartialEq)]
pub struct SecuritySettingsResponse {
    pub max_registration_attempts_per_device: u32,
    pub max_registration_attempts_per_ip: u32,
    pub rate_limit_window_minutes: u32,
    pub block_duration_minutes: i64,
    pub token_expiry_hours: u32,
    pub require_registration_code: bool,
}

#[derive(Clone, Debug, PartialEq)]
pub struct UpdateSecuritySettingsRequest {
    pub max_registration_attempts_per_device: Option<u32>,
    pub max_registration_attempts_per_ip: Option<u32>,
    pub rate_limit_window_minutes: Option<u32>,
    pub block_duration_minutes: Option<i64>,
    pub token_expiry_hours: Option<u32>,
    pub require_registration_code: Option<bool>,
}

#[derive(Clone, Debug, PartialEq)]
pub struct RegistrationCodesResponse {
    pub codes: Vec<RegistrationCodeInfo>,
}

#[derive(Clone, Debug, PartialEq)]
pub struct RegisterWebClientRequest {
    pub client_name: Option<String>,
}

#[derive(Clone, Debug, PartialEq)]
pub struct WebClientResponse {
    pub client_id: String,
    pub is_trusted: bool,
    pub client_name: Option<String>,
    pub user_id: Option<String>,
}

#[derive(Clone, Debug, PartialEq)]
pub struct WebClientsResponse {
    pub clients: Vec<WebClient>,
}

#[derive(Clone, Debug, PartialEq)]
pub struct WebClientStatusQuery {
    pub client_id: String,
}

#[derive(Clone, Debug, PartialEq)]
pub struct SetTrustRequest {
    pub is_trusted: bool,
}

#[derive(Clone, Debug, PartialEq)]
pub struct UpdateClientNameRequest {
    pub name: String,
}

#[derive(Clone, Debug, PartialEq)]
pub struct LinkWebClientRequest {
    pub user_id: Option<String>,
}

#[derive(Clone, Debug, PartialEq)]
pub struct SubmitChangeResponse {
    pub applied: bool,
    pub pending_id: Option<i64>,
    pub message: String,
}

#[derive(Clone, Debug, PartialEq)]
pub struct PendingChangesResponse {
    pub changes: Vec<PendingChange>,
    pub count: i64,
}

#[derive(Clone, Debug, PartialEq)]
pub struct SyncTimeEntriesRequest {
    pub device_id: String,
    pub entries: Vec<TimeEntryInput>,
}

#[derive(Clone, Debug, PartialEq)]
pub struct SyncTimeEntriesResponse {
    pub synced_ids: Vec<String>,
}

#[derive(Clone, Debug, PartialEq)]
pub struct GetTimeEntriesQuery {
    pub device_id: Option<String>,
    pub job_id: Option<String>,
    pub since: Option<i64>,
    pub limit: Option<i64>,
}

#[derive(Clone, Debug, PartialEq)]
pub struct GetTimeEntriesResponse {
    pub entries: Vec<TimeEntryRecord>,
    pub total: i64,
}

#[derive(Clone, Debug, PartialEq)]
pub struct SyncReportsRequest {
    pub device_id: String,
    pub reports: Vec<ReportInput>,
}

#[derive(Clone, Debug, PartialEq)]
pub struct SyncReportsResponse {
    pub synced_report_ids: Vec<String>,
}

#[derive(Clone, Debug, PartialEq)]
pub struct GetReportsQuery {
    pub job_id: Option<String>,
    pub status: Option<String>,
    pub limit: Option<i64>,
}

#[derive(Clone, Debug, PartialEq)]
pub struct GetReportsResponse {
    pub reports: Vec<ReportRecord>,
    pub total: i64,
}

#[derive(Clone, Debug, PartialEq)]
pub struct SyncLocationPingsResponse {
    pub synced_ids: Vec<String>,
}

#[derive(Clone, Debug, PartialEq)]
pub struct GetLocationPingsQuery {
    pub device_id: Option<String>,
    pub time_entry_id: Option<String>,
    pub since: Option<i64>,
    pub active_only: Option<bool>,
    pub limit: Option<i64>,
}

#[derive(Clone, Debug, PartialEq)]
pub struct TeamStatusResponse {
    pub members: Vec<TeamMemberStatus>,
}

#[derive(Clone, Debug, PartialEq)]
pub struct TeamMembersResponse {
    pub members: Vec<TeamMember>,
}

#[derive(Clone, Debug, PartialEq)]
pub struct GetTimesheetsQuery {
    pub device_id: Option<String>,
    pub date_from: Option<String>,
    pub date_to: Option<String>,
    pub limit: Option<i64>,
}

#[derive(Clone, Debug, PartialEq)]
pub struct TimesheetsResponse {
    pub days: Vec<TimesheetDay>,
    pub total: usize,
}

#[derive(Clone, Debug, PartialEq)]
pub struct GetRoomProgressQuery {
    pub search: Option<String>,
}

#[derive(Clone, Debug, PartialEq)]
pub struct RoomProgressResponse {
    pub rooms: Vec<RoomProgress>,
    pub summary: RoomProgressSummary,
}

#[derive(Clone, Debug, PartialEq)]
pub struct AutoBreakConfig {
    pub enabled: bool,
    pub threshold_hours: i32,
    pub break_minutes: i32,
}

#[derive(Clone, Debug, PartialEq)]
pub struct TimeRoundingConfig {
    pub enabled: bool,
    pub interval_minutes: i32,
}

#[derive(Clone, Debug, PartialEq)]
pub struct JobFilesResponse {
    pub files: Vec<JobFileMeta>,
}

#[derive(Clone, Debug, PartialEq)]
pub struct JobFileSearchResponse {
    pub results: Vec<JobFileSearchResult>,
}

#[derive(Clone, Debug, PartialEq)]
pub struct LadingTicketsResponse {
    pub tickets: Vec<LadingTicket>,
}

#[derive(Clone, Debug, PartialEq)]
pub struct JobFileSearchQuery {
    pub q: String,
    pub job_id: Option<String>,
}

#[derive(Clone, Debug, PartialEq)]
pub struct ReparseResponse {
    pub tickets_deleted: u64,
    pub tickets_inserted: u64,
    pub tickets: Vec<ReparseTicket>,
    pub extracted_text: Option<String>,
}

#[derive(Clone, Debug, PartialEq)]
pub struct ReparseTicket {
    pub ticket_number: String,
    pub description: Option<String>,
    pub room: Option<String>,
    pub qty: i32,
    pub section: Option<String>,
}

#[derive(Clone, Debug, PartialEq)]
pub struct TicketDescriptionQuery {
    pub job_id: Option<String>,
}

#[derive(Clone, Debug, PartialEq)]
pub struct DeleteBackgroundRequest {
    pub device_id: String,
}

#[derive(Clone, Debug, PartialEq)]
pub struct SetBackgroundTypeRequest {
    pub device_id: String,
    pub background_type: String,
}

#[derive(Clone, Debug, PartialEq)]
pub struct BackgroundTypeResponse {
    pub background_type: String,
}

impl Default for AutoBreakConfig {
    /// Enabled: a 30-minute break after 8 hours.
    fn default() -> (r: Self)
        ensures
            r.enabled,
            r.threshold_hours == 8,
            r.break_minutes == 30,
    {
        AutoBreakConfig { enabled: true, threshold_hours: 8, break_minutes: 30 }
    }
}

impl Default for TimeRoundingConfig {
    /// Disabled, with a 15-minute interval.
    fn default() -> (r: Self)
        ensures
            !r.enabled,
            r.interval_minutes == 15,
    {
        TimeRoundingConfig { enabled: false, interval_minutes: 15 }
    }
}

} // verus!
