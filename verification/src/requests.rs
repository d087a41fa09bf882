//! The decisions the API's endpoints make about a request: which ids were
//! synced or are missing, whether a device may register or send a
//! heartbeat, which change a web client asks for and what is answered.

use vstd::prelude::*;
use crate::api::{ConnectRequest, JobDownloadPayload, SubmitChangeResponse};
use crate::config::strings_view;
use crate::lading::opt_str;
use crate::models::{DeviceInput, JobWithCount, ReportInput, SecuritySettings, WebClient};
use crate::text::{
    append_chars, chars_eq, chars_of, i64_chars, int_str, nat_str, parse_int, parse_int_chars, string_of,
    trim, trim_chars, u64_chars,
};

verus! {

pub open spec fn i64_min() -> int {
    -0x8000_0000_0000_0000
}

pub open spec fn i64_max() -> int {
    0x7FFF_FFFF_FFFF_FFFF
}

fn copy_str(s: &str) -> (r: String)
    ensures
        r@ == s@,
{
    string_of(&chars_of(s))
}

fn copy_opt(o: &Option<String>) -> (r: Option<String>)
    ensures
        opt_str(r) == opt_str(*o),
{
    match o {
        Some(s) => Some(copy_str(s.as_str())),
        None => None,
    }
}

fn text_of(parts: Vec<char>) -> (r: String)
    ensures
        r@ == parts@,
{
    string_of(&parts)
}

// ------------------------------------------------------------------
// Syncing and verifying scans
// ------------------------------------------------------------------

/// The id a synced scan is confirmed by: its local id where the device
/// sent one, else its UUID.
pub fn synced_scan_id(local_id: Option<i64>, id: &str) -> (r: String)
    ensures
        r@ == match local_id {
            Some(l) => int_str(l as int),
            None => id@,
        },
{
    match local_id {
        Some(l) => text_of(i64_chars(l)),
        None => copy_str(id),
    }
}

/// The text is set and not empty.
pub open spec fn given(o: Option<String>) -> bool {
    match o {
        Some(s) => s@.len() > 0,
        None => false,
    }
}

pub fn is_given(o: &Option<String>) -> (r: bool)
    ensures
        r == given(*o),
{
    match o {
        Some(s) => chars_of(s.as_str()).len() > 0,
        None => false,
    }
}

/// What a scan's barcode job reference does: it names the job the scan
/// was resolved to, or else finds the job the scan belongs to.
#[derive(Clone, Copy, Debug, PartialEq, Eq)]
pub enum JobRefAction {
    SetJobReference,
    LinkScanByReference,
    Nothing,
}

pub fn job_ref_action(job_ref: &Option<String>, resolved_job: bool) -> (r: JobRefAction)
    ensures
        r == (if !given(*job_ref) {
            JobRefAction::Nothing
        } else if resolved_job {
            JobRefAction::SetJobReference
        } else {
            JobRefAction::LinkScanByReference
        }),
{
    if !is_given(job_ref) {
        JobRefAction::Nothing
    } else if resolved_job {
        JobRefAction::SetJobReference
    } else {
        JobRefAction::LinkScanByReference
    }
}

/// The id parses as a 64-bit integer.
pub open spec fn is_local_id(s: Seq<char>) -> bool {
    parse_int(s, i64_min(), i64_max()) is Some
}

/// All the ids are local ids (integers), not UUIDs.
pub open spec fn all_local(ids: Seq<String>) -> bool {
    forall|i: int| 0 <= i < ids.len() ==> is_local_id(#[trigger] ids[i]@)
}

fn parse_i64(s: &str) -> (r: Option<i64>)
    ensures
        match r {
            Some(v) => parse_int(s@, i64_min(), i64_max()) == Some(v as int),
            None => parse_int(s@, i64_min(), i64_max()) is None,
        },
{
    parse_int_chars(&chars_of(s), -0x8000_0000_0000_0000, 0x7FFF_FFFF_FFFF_FFFF)
}

/// Whether the ids to verify are local ids; and if so, their values.
pub fn local_ids(ids: &Vec<String>) -> (r: Option<Vec<i64>>)
    ensures
        r is Some <==> all_local(ids@),
        r matches Some(v) ==> v@.len() == ids@.len() && forall|i: int|
            0 <= i < ids@.len() ==> parse_int(#[trigger] ids@[i]@, i64_min(), i64_max()) == Some(
                v@[i] as int,
            ),
{
    let mut v: Vec<i64> = Vec::new();
    let mut i: usize = 0;
    while i < ids.len()
        invariant
            i <= ids@.len(),
            v@.len() == i,
            forall|k: int| 0 <= k < i ==> parse_int(#[trigger] ids@[k]@, i64_min(), i64_max()) == Some(
                v@[k] as int,
            ),
        decreases ids@.len() - i,
    {
        match parse_i64(ids[i].as_str()) {
            Some(x) => {
                v.push(x);
            },
            None => {
                assert(!is_local_id(ids@[i as int]@));
                return None;
            },
        }
        i = i + 1;
    }
    Some(v)
}

/// The local ids found, as text.
pub fn found_local_ids(found: &Vec<i64>) -> (r: Vec<String>)
    ensures
        r@.len() == found@.len(),
        forall|i: int| 0 <= i < found@.len() ==> (#[trigger] r@[i])@ == int_str(found@[i] as int),
{
    let mut r: Vec<String> = Vec::new();
    let mut i: usize = 0;
    while i < found.len()
        invariant
            i <= found@.len(),
            r@.len() == i,
            forall|k: int| 0 <= k < i ==> (#[trigger] r@[k])@ == int_str(found@[k] as int),
        decreases found@.len() - i,
    {
        r.push(text_of(i64_chars(found[i])));
        i = i + 1;
    }
    r
}

/// The ids that are not among those found, in the order asked.
pub open spec fn missing_of(ids: Seq<Seq<char>>, found: Seq<Seq<char>>) -> Seq<Seq<char>>
    decreases ids.len(),
{
    if ids.len() == 0 {
        seq![]
    } else {
        let r = missing_of(ids.drop_last(), found);
        if found.contains(ids.last()) {
            r
        } else {
            r.push(ids.last())
        }
    }
}

fn contains_string(v: &Vec<String>, s: &str) -> (r: bool)
    ensures
        r == strings_view(v@).contains(s@),
{
    let c = chars_of(s);
    let mut i: usize = 0;
    while i < v.len()
        invariant
            i <= v@.len(),
            c@ == s@,
            forall|k: int| 0 <= k < i ==> v@[k]@ != s@,
        decreases v@.len() - i,
    {
        if chars_eq(&chars_of(v[i].as_str()), &c) {
            assert(strings_view(v@)[i as int] == s@);
            return true;
        }
        i = i + 1;
    }
    assert forall|k: int| 0 <= k < strings_view(v@).len() implies strings_view(v@)[k] != s@ by {
        assert(strings_view(v@)[k] == v@[k]@);
    }
    false
}

/// The ids asked to verify that were not found on the server.
pub fn missing_ids(ids: &Vec<String>, found: &Vec<String>) -> (r: Vec<String>)
    ensures
        strings_view(r@) == missing_of(strings_view(ids@), strings_view(found@)),
{
    let ghost iv = strings_view(ids@);
    let ghost fv = strings_view(found@);
    let mut r: Vec<String> = Vec::new();
    let mut i: usize = 0;
    assert(iv.take(0) =~= Seq::<Seq<char>>::empty());
    assert(strings_view(r@) =~= Seq::<Seq<char>>::empty());
    while i < ids.len()
        invariant
            i <= ids@.len(),
            iv == strings_view(ids@),
            fv == strings_view(found@),
            strings_view(r@) == missing_of(iv.take(i as int), fv),
        decreases ids@.len() - i,
    {
        assert(iv.take(i + 1).drop_last() =~= iv.take(i as int));
        assert(iv.take(i + 1).last() == ids@[i as int]@);
        if !contains_string(found, ids[i].as_str()) {
            let ghost before = strings_view(r@);
            let s = copy_str(ids[i].as_str());
            r.push(s);
            assert(strings_view(r@) =~= before.push(ids@[i as int]@));
        }
        i = i + 1;
    }
    assert(iv.take(i as int) =~= iv);
    r
}

/// Every id asked to verify is either found or missing, never both.
pub proof fn lemma_verify_partition(ids: Seq<Seq<char>>, found: Seq<Seq<char>>, id: Seq<char>)
    requires
        ids.contains(id),
    ensures
        found.contains(id) <==> !missing_of(ids, found).contains(id),
    decreases ids.len(),
{
    let r = missing_of(ids.drop_last(), found);
    if ids.last() == id {
        if found.contains(id) {
            lemma_missing_not_found(ids.drop_last(), found, id);
        } else {
            assert(r.push(id)[r.len() as int] == id);
        }
    } else {
        let k = choose|k: int| 0 <= k < ids.len() && ids[k] == id;
        assert(ids.drop_last()[k] == id);
        lemma_verify_partition(ids.drop_last(), found, id);
        if !found.contains(ids.last()) {
            if r.push(ids.last()).contains(id) {
                let j = choose|j: int| 0 <= j < r.push(ids.last()).len() && r.push(ids.last())[j] == id;
                assert(r[j] == id);
            }
            if r.contains(id) {
                let j = choose|j: int| 0 <= j < r.len() && r[j] == id;
                assert(r.push(ids.last())[j] == id);
            }
        }
    }
}

proof fn lemma_missing_not_found(ids: Seq<Seq<char>>, found: Seq<Seq<char>>, id: Seq<char>)
    requires
        found.contains(id),
    ensures
        !missing_of(ids, found).contains(id),
    decreases ids.len(),
{
    if ids.len() > 0 {
        lemma_missing_not_found(ids.drop_last(), found, id);
        let r = missing_of(ids.drop_last(), found);
        if !found.contains(ids.last()) {
            if r.push(ids.last()).contains(id) {
                let j = choose|j: int| 0 <= j < r.push(ids.last()).len() && r.push(ids.last())[j] == id;
                if j < r.len() {
                    assert(r[j] == id);
                }
            }
        }
    }
}

// ------------------------------------------------------------------
// Registering devices and heartbeats
// ------------------------------------------------------------------

/// Why a device may not register.
#[derive(Clone, Copy, Debug, PartialEq, Eq)]
pub enum RegisterRefusal {
    Blocked,
    RateLimited,
    CodeMissing,
    CodeBlank,
}

impl RegisterRefusal {
    /// The HTTP status of the refusal.
    pub fn status(&self) -> (r: u16)
        ensures
            r == match *self {
                RegisterRefusal::Blocked | RegisterRefusal::RateLimited => 429u16,
                _ => 400u16,
            },
    {
        match self {
            RegisterRefusal::Blocked | RegisterRefusal::RateLimited => 429,
            _ => 400,
        }
    }

    /// The error text of the refusal.
    pub fn message(&self) -> (r: String)
        ensures
            r@ == match *self {
                RegisterRefusal::Blocked => "Device is temporarily blocked due to excessive registration attempts"@,
                RegisterRefusal::RateLimited => "Too many registration attempts. Device blocked temporarily."@,
                RegisterRefusal::CodeMissing => "Registration code is required"@,
                RegisterRefusal::CodeBlank => "Valid registration code is required"@,
            },
    {
        match self {
            RegisterRefusal::Blocked => copy_str(
                "Device is temporarily blocked due to excessive registration attempts",
            ),
            RegisterRefusal::RateLimited => copy_str(
                "Too many registration attempts. Device blocked temporarily.",
            ),
            RegisterRefusal::CodeMissing => copy_str("Registration code is required"),
            RegisterRefusal::CodeBlank => copy_str("Valid registration code is required"),
        }
    }
}

/// Where registration codes are required, a device must send one that is
/// not blank.
pub fn registration_code_refusal(require_code: bool, code: &Option<String>) -> (r: Option<RegisterRefusal>)
    ensures
        r == (if !require_code {
            None
        } else {
            match *code {
                Some(c) => if trim(c@).len() == 0 {
                    Some(RegisterRefusal::CodeBlank)
                } else {
                    None
                },
                None => Some(RegisterRefusal::CodeMissing),
            }
        }),
{
    if !require_code {
        return None;
    }
    match code {
        Some(c) => {
            if trim_chars(&chars_of(c.as_str())).len() == 0 {
                Some(RegisterRefusal::CodeBlank)
            } else {
                None
            }
        },
        None => Some(RegisterRefusal::CodeMissing),
    }
}

/// Too many registration attempts: the device's or the address's count
/// within the window reaches its maximum.
pub fn registration_rate_limited(device_attempts: i64, ip_attempts: i64, settings: &SecuritySettings) -> (r: bool)
    ensures
        r == (device_attempts >= settings.max_registration_attempts_per_device || ip_attempts
            >= settings.max_registration_attempts_per_ip),
{
    device_attempts >= settings.max_registration_attempts_per_device as i64 || ip_attempts
        >= settings.max_registration_attempts_per_ip as i64
}

/// More than 60 heartbeats within the last hour.
pub fn heartbeat_rate_limited(heartbeat_count: i64) -> (r: bool)
    ensures
        r == (heartbeat_count > 60),
{
    heartbeat_count > 60
}

/// Why a heartbeat is refused.
#[derive(Clone, Copy, Debug, PartialEq, Eq)]
pub enum HeartbeatRefusal {
    Blocked,
    TooMany,
}

impl HeartbeatRefusal {
    pub fn status(&self) -> (r: u16)
        ensures
            r == match *self {
                HeartbeatRefusal::Blocked => 403u16,
                HeartbeatRefusal::TooMany => 429u16,
            },
    {
        match self {
            HeartbeatRefusal::Blocked => 403,
            HeartbeatRefusal::TooMany => 429,
        }
    }

    pub fn message(&self) -> (r: String)
        ensures
            r@ == match *self {
                HeartbeatRefusal::Blocked => "Device is blocked"@,
                HeartbeatRefusal::TooMany => "Too many heartbeat requests"@,
            },
    {
        match self {
            HeartbeatRefusal::Blocked => copy_str("Device is blocked"),
            HeartbeatRefusal::TooMany => copy_str("Too many heartbeat requests"),
        }
    }
}

/// A blocked device is refused first, then one over the rate limit.
pub fn heartbeat_refusal(blocked: bool, rate_limited: bool) -> (r: Option<HeartbeatRefusal>)
    ensures
        r == (if blocked {
            Some(HeartbeatRefusal::Blocked)
        } else if rate_limited {
            Some(HeartbeatRefusal::TooMany)
        } else {
            None
        }),
{
    if blocked {
        Some(HeartbeatRefusal::Blocked)
    } else if rate_limited {
        Some(HeartbeatRefusal::TooMany)
    } else {
        None
    }
}

/// Why a device's authentication is refused.
#[derive(Clone, Copy, Debug, PartialEq, Eq)]
pub enum AuthRefusal {
    NotApproved,
    Blocked,
}

impl AuthRefusal {
    pub fn message(&self) -> (r: String)
        ensures
            r@ == match *self {
                AuthRefusal::NotApproved => "Device not approved"@,
                AuthRefusal::Blocked => "Device temporarily blocked"@,
            },
    {
        match self {
            AuthRefusal::NotApproved => copy_str("Device not approved"),
            AuthRefusal::Blocked => copy_str("Device temporarily blocked"),
        }
    }
}

/// An authenticated device must be approved, and not blocked: a block that
/// does not parse, or that ends after `now_secs`, refuses it.
/// `blocked_until` is `None` where no block is set, and `Some(None)` where
/// it does not parse.
pub fn auth_refusal(is_approved: i32, blocked_until: Option<Option<i64>>, now_secs: i64) -> (r: Option<AuthRefusal>)
    ensures
        r == (if is_approved != 1 {
            Some(AuthRefusal::NotApproved)
        } else {
            match blocked_until {
                Some(None) => Some(AuthRefusal::Blocked),
                Some(Some(t)) => if now_secs < t {
                    Some(AuthRefusal::Blocked)
                } else {
                    None
                },
                None => None,
            }
        }),
{
    if is_approved != 1 {
        return Some(AuthRefusal::NotApproved);
    }
    match blocked_until {
        Some(None) => Some(AuthRefusal::Blocked),
        Some(Some(t)) => if now_secs < t {
            Some(AuthRefusal::Blocked)
        } else {
            None
        },
        None => None,
    }
}

/// The device record that a connecting device registers.
pub fn device_input_from_connect(request: &ConnectRequest) -> (r: DeviceInput)
    ensures
        r.device_id@ == request.device_id@,
        opt_str(r.device_name) == opt_str(request.device_name),
        opt_str(r.model) == opt_str(request.model),
        opt_str(r.os_version) == opt_str(request.os_version),
        opt_str(r.app_version) == opt_str(request.app_version),
        r.registration_code is None,
        r.fingerprint is None,
        r.user_agent is None,
{
    DeviceInput {
        device_id: copy_str(request.device_id.as_str()),
        device_name: copy_opt(&request.device_name),
        model: copy_opt(&request.model),
        os_version: copy_opt(&request.os_version),
        app_version: copy_opt(&request.app_version),
        registration_code: None,
        fingerprint: None,
        user_agent: None,
    }
}

/// The name a connecting device's team member takes: the user name sent,
/// trimmed, unless blank.
pub fn connect_display_name(user_name: &Option<String>) -> (r: Option<String>)
    ensures
        opt_str(r) == match *user_name {
            Some(u) => if trim(u@).len() > 0 {
                Some(trim(u@))
            } else {
                None
            },
            None => None,
        },
{
    match user_name {
        Some(u) => {
            let t = trim_chars(&chars_of(u.as_str()));
            if t.len() > 0 {
                Some(text_of(t))
            } else {
                None
            }
        },
        None => None,
    }
}

// ------------------------------------------------------------------
// Changes from web clients
// ------------------------------------------------------------------

/// The changes a web client can ask for.
#[derive(Clone, Copy, Debug, PartialEq, Eq)]
pub enum ChangeOp {
    CreateJob,
    UpdateJob,
    DeleteJob,
    UpdateDevice,
    DeleteDevice,
    CreateScan,
    DeleteScan,
    UpdateScanAssignments,
    UpdateJobDetails,
}

pub open spec fn change_op_of(ct: Seq<char>, et: Seq<char>) -> Option<ChangeOp> {
    if ct == "create"@ && et == "job"@ {
        Some(ChangeOp::CreateJob)
    } else if ct == "update"@ && et == "job"@ {
        Some(ChangeOp::UpdateJob)
    } else if ct == "delete"@ && et == "job"@ {
        Some(ChangeOp::DeleteJob)
    } else if ct == "update"@ && et == "device"@ {
        Some(ChangeOp::UpdateDevice)
    } else if ct == "delete"@ && et == "device"@ {
        Some(ChangeOp::DeleteDevice)
    } else if ct == "create"@ && et == "scan"@ {
        Some(ChangeOp::CreateScan)
    } else if ct == "delete"@ && et == "scan"@ {
        Some(ChangeOp::DeleteScan)
    } else if ct == "update"@ && et == "scan_assignments"@ {
        Some(ChangeOp::UpdateScanAssignments)
    } else if ct == "update"@ && et == "job_details"@ {
        Some(ChangeOp::UpdateJobDetails)
    } else {
        None
    }
}

fn is_lit(s: &[char], lit: &str) -> (r: bool)
    ensures
        r == (s@ == lit@),
{
    chars_eq(s, &chars_of(lit))
}

/// The change that `change_type` and `entity_type` name, or the error
/// `Unsupported operation: <type> <entity>`.
pub fn change_op(change_type: &str, entity_type: &str) -> (r: Result<ChangeOp, String>)
    ensures
        match r {
            Ok(op) => change_op_of(change_type@, entity_type@) == Some(op),
            Err(m) => change_op_of(change_type@, entity_type@) is None && m@ == "Unsupported operation: "@
                + change_type@ + " "@ + entity_type@,
        },
{
    let ct = chars_of(change_type);
    let et = chars_of(entity_type);
    if is_lit(&ct, "create") && is_lit(&et, "job") {
        Ok(ChangeOp::CreateJob)
    } else if is_lit(&ct, "update") && is_lit(&et, "job") {
        Ok(ChangeOp::UpdateJob)
    } else if is_lit(&ct, "delete") && is_lit(&et, "job") {
        Ok(ChangeOp::DeleteJob)
    } else if is_lit(&ct, "update") && is_lit(&et, "device") {
        Ok(ChangeOp::UpdateDevice)
    } else if is_lit(&ct, "delete") && is_lit(&et, "device") {
        Ok(ChangeOp::DeleteDevice)
    } else if is_lit(&ct, "create") && is_lit(&et, "scan") {
        Ok(ChangeOp::CreateScan)
    } else if is_lit(&ct, "delete") && is_lit(&et, "scan") {
        Ok(ChangeOp::DeleteScan)
    } else if is_lit(&ct, "update") && is_lit(&et, "scan_assignments") {
        Ok(ChangeOp::UpdateScanAssignments)
    } else if is_lit(&ct, "update") && is_lit(&et, "job_details") {
        Ok(ChangeOp::UpdateJobDetails)
    } else {
        let mut m = chars_of("Unsupported operation: ");
        append_chars(&mut m, &ct);
        append_chars(&mut m, &chars_of(" "));
        append_chars(&mut m, &et);
        Err(text_of(m))
    }
}

/// The number in the entity id that a change needs: `missing` where there
/// is none, `invalid` where it is not an integer.
pub fn entity_number(entity_id: &Option<String>, missing: &str, invalid: &str) -> (r: Result<i64, String>)
    ensures
        match r {
            Ok(v) => entity_id matches Some(s) && parse_int(s@, i64_min(), i64_max()) == Some(v as int),
            Err(m) => match *entity_id {
                Some(s) => parse_int(s@, i64_min(), i64_max()) is None && m@ == invalid@,
                None => m@ == missing@,
            },
        },
{
    match entity_id {
        Some(s) => match parse_i64(s.as_str()) {
            Some(v) => Ok(v),
            None => Err(copy_str(invalid)),
        },
        None => Err(copy_str(missing)),
    }
}

/// The message of an applied change: `subject` is the job's name, the
/// device's name (empty where it has none), or the scan's ticket number
/// or barcode; `count` how many scans were updated.
pub open spec fn applied_message_of(op: ChangeOp, subject: Seq<char>, count: nat) -> Seq<char> {
    match op {
        ChangeOp::CreateJob => "Job '"@ + subject + "' created"@,
        ChangeOp::UpdateJob => "Job '"@ + subject + "' updated"@,
        ChangeOp::DeleteJob => "Job deleted"@,
        ChangeOp::UpdateDevice => "Device '"@ + subject + "' updated"@,
        ChangeOp::DeleteDevice => "Device deleted"@,
        ChangeOp::CreateScan => "Scan '"@ + subject + "' created"@,
        ChangeOp::DeleteScan => "Scan deleted"@,
        ChangeOp::UpdateScanAssignments => nat_str(count) + " scans updated"@,
        ChangeOp::UpdateJobDetails => "Job updated"@,
    }
}

fn quoted(before: &str, subject: &str, after: &str) -> (r: String)
    ensures
        r@ == before@ + subject@ + after@,
{
    let mut m = chars_of(before);
    append_chars(&mut m, &chars_of(subject));
    append_chars(&mut m, &chars_of(after));
    text_of(m)
}

/// The message answered for an applied change.
pub fn applied_message(op: ChangeOp, subject: &str, count: u64) -> (r: String)
    ensures
        r@ == applied_message_of(op, subject@, count as nat),
{
    match op {
        ChangeOp::CreateJob => quoted("Job '", subject, "' created"),
        ChangeOp::UpdateJob => quoted("Job '", subject, "' updated"),
        ChangeOp::DeleteJob => copy_str("Job deleted"),
        ChangeOp::UpdateDevice => quoted("Device '", subject, "' updated"),
        ChangeOp::DeleteDevice => copy_str("Device deleted"),
        ChangeOp::CreateScan => quoted("Scan '", subject, "' created"),
        ChangeOp::DeleteScan => copy_str("Scan deleted"),
        ChangeOp::UpdateScanAssignments => {
            let mut m = u64_chars(count);
            append_chars(&mut m, &chars_of(" scans updated"));
            text_of(m)
        },
        ChangeOp::UpdateJobDetails => copy_str("Job updated"),
    }
}

/// What becomes of a change that a web client submits.
#[derive(Clone, Copy, Debug, PartialEq, Eq, Structural)]
pub enum ChangeRoute {
    /// Applied at once.
    Apply,
    /// Queued until it is approved or rejected.
    Queue,
}

/// A trusted client's change is applied at once; any other client's is
/// queued for approval.
pub fn change_route(client: &WebClient) -> (r: ChangeRoute)
    ensures
        r == if client.is_trusted != 0 {
            ChangeRoute::Apply
        } else {
            ChangeRoute::Queue
        },
{
    if client.is_trusted != 0 {
        ChangeRoute::Apply
    } else {
        ChangeRoute::Queue
    }
}

/// The answer to a change that was queued for approval.
pub fn queued_response(pending_id: i64) -> (r: SubmitChangeResponse)
    ensures
        !r.applied,
        r.pending_id == Some(pending_id),
        r.message@ == "Change queued for approval"@,
{
    SubmitChangeResponse { applied: false, pending_id: Some(pending_id), message: copy_str("Change queued for approval") }
}

/// The answer to a change that was applied; `pending_id` where it was
/// approved from the queue.
pub fn applied_response(message: String, pending_id: Option<i64>) -> (r: SubmitChangeResponse)
    ensures
        r.applied,
        r.pending_id == pending_id,
        r.message@ == message@,
{
    SubmitChangeResponse { applied: true, pending_id, message }
}

/// A queued change can be approved or rejected only while it is pending;
/// else the error `Change already <status>`.
pub fn pending_check(status: &str) -> (r: Result<(), String>)
    ensures
        match r {
            Ok(_) => status@ == "pending"@,
            Err(m) => status@ != "pending"@ && m@ == "Change already "@ + status@,
        },
{
    let cs = chars_of(status);
    if is_lit(&cs, "pending") {
        Ok(())
    } else {
        let mut m = chars_of("Change already ");
        append_chars(&mut m, &cs);
        Err(text_of(m))
    }
}

// ------------------------------------------------------------------
// Jobs for download
// ------------------------------------------------------------------

/// The moment an RFC 3339 time names: its whole seconds and its
/// milliseconds since the epoch.
pub uninterp spec fn rfc3339_instant(s: Seq<char>) -> Option<(int, int)>;

/// `chrono::DateTime::parse_from_rfc3339(s)`, and of the time it gives
/// `timestamp()` and `timestamp_millis()`; `None` where it does not parse.
/// The milliseconds are the seconds times 1000 plus the milliseconds of the
/// nanoseconds within the second, which a leap second takes up to 1999.
#[verifier::external_body]
fn parse_rfc3339(s: &str) -> (r: Option<(i64, i64)>)
    ensures
        match r {
            Some(v) => rfc3339_instant(s@) == Some((v.0 as int, v.1 as int)),
            None => rfc3339_instant(s@) is None,
        },
        r matches Some(v) ==> v.0 * 1000 <= v.1 < v.0 * 1000 + 2000,
{
    chrono::DateTime::parse_from_rfc3339(s).ok().map(|dt| (dt.timestamp(), dt.timestamp_millis()))
}

/// The milliseconds since the epoch of an RFC 3339 time, or 0 where it
/// does not parse.
pub open spec fn millis_of(s: Seq<char>) -> int {
    match rfc3339_instant(s) {
        Some(v) => v.1,
        None => 0,
    }
}

/// The seconds since the epoch of an RFC 3339 time, where it parses.
pub fn rfc3339_to_secs(s: &str) -> (r: Option<i64>)
    ensures
        r == match rfc3339_instant(s@) {
            Some(v) => Some(v.0 as i64),
            None => None::<i64>,
        },
{
    match parse_rfc3339(s) {
        Some(v) => Some(v.0),
        None => None,
    }
}

/// The milliseconds since the epoch of an RFC 3339 time, where it parses.
pub fn rfc3339_millis(s: &str) -> (r: Option<i64>)
    ensures
        match rfc3339_instant(s@) {
            Some(v) => r == Some(v.1 as i64) && v.1 == v.1 as i64,
            None => r is None,
        },
{
    match parse_rfc3339(s) {
        Some(v) => Some(v.1),
        None => None,
    }
}

/// Convert an RFC 3339 time to milliseconds since the epoch (0 where it
/// does not parse).
pub fn rfc3339_to_millis(s: &str) -> (r: i64)
    ensures
        r == millis_of(s@),
{
    match parse_rfc3339(s) {
        Some(v) => v.1,
        None => 0,
    }
}

pub open spec fn opt_millis(o: Option<String>) -> Option<int> {
    match o {
        Some(s) => Some(millis_of(s@)),
        None => None,
    }
}

fn opt_millis_exec(o: &Option<String>) -> (r: Option<i64>)
    ensures
        match r {
            Some(x) => opt_millis(*o) == Some(x as int),
            None => opt_millis(*o) is None,
        },
{
    match o {
        Some(s) => Some(rfc3339_to_millis(s.as_str())),
        None => None,
    }
}

pub open spec fn or_empty(o: Option<String>) -> Seq<char> {
    match o {
        Some(s) => s@,
        None => seq![],
    }
}

fn or_empty_exec(o: &Option<String>) -> (r: String)
    ensures
        r@ == or_empty(*o),
{
    match o {
        Some(s) => copy_str(s.as_str()),
        None => {
            let e: Vec<char> = Vec::new();
            text_of(e)
        },
    }
}

/// A job is listed for a download since `since` (milliseconds) where it
/// was updated after it; a `since` of 0 or less lists every job.
pub fn updated_since(jwc: &JobWithCount, since: Option<i64>) -> (r: bool)
    ensures
        r == match since {
            Some(s) => if s > 0 {
                match opt_millis(jwc.job.updated_at) {
                    Some(u) => u > s,
                    None => 0 > s,
                }
            } else {
                true
            },
            None => true,
        },
{
    match since {
        Some(s) => {
            if s > 0 {
                let u = match &jwc.job.updated_at {
                    Some(t) => rfc3339_to_millis(t.as_str()),
                    None => 0,
                };
                u > s
            } else {
                true
            }
        },
        None => true,
    }
}

/// A job as the Android app downloads it: its UUID as id, its times in
/// milliseconds (0 where missing or unparsable, for creation and update),
/// and empty text for what it does not have.
pub fn job_download_payload(jwc: &JobWithCount) -> (r: JobDownloadPayload)
    ensures
        r.id@ == jwc.job.uuid@,
        r.server_id == Some(jwc.job.id),
        r.name@ == jwc.job.name@,
        r.description@ == or_empty(jwc.job.description),
        r.reference_number@ == or_empty(jwc.job.reference_number),
        r.customer_name@ == or_empty(jwc.job.customer_name),
        r.expected_count == jwc.job.expected_count,
        r.scan_count == jwc.scan_count,
        r.status@ == jwc.job.status@,
        r.created_at == match opt_millis(jwc.job.created_at) {
            Some(v) => v,
            None => 0,
        },
        r.updated_at == match opt_millis(jwc.job.updated_at) {
            Some(v) => v,
            None => 0,
        },
        r.started_at == match opt_millis(jwc.job.started_at) {
            Some(v) => Some(v as i64),
            None => None::<i64>,
        },
        r.completed_at == match opt_millis(jwc.job.completed_at) {
            Some(v) => Some(v as i64),
            None => None::<i64>,
        },
        r.device_id@ == or_empty(jwc.job.device_id),
        r.created_by@ == or_empty(jwc.job.created_by),
        r.notes@ == or_empty(jwc.job.notes),
        r.priority@ == jwc.job.priority@,
        r.due_date == match opt_millis(jwc.job.due_date) {
            Some(v) => Some(v as i64),
            None => None::<i64>,
        },
        r.file_count == jwc.file_count,
{
    let j = &jwc.job;
    let created_at = match opt_millis_exec(&j.created_at) {
        Some(v) => v,
        None => 0,
    };
    let updated_at = match opt_millis_exec(&j.updated_at) {
        Some(v) => v,
        None => 0,
    };
    JobDownloadPayload {
        id: copy_str(j.uuid.as_str()),
        server_id: Some(j.id),
        name: copy_str(j.name.as_str()),
        description: or_empty_exec(&j.description),
        reference_number: or_empty_exec(&j.reference_number),
        customer_name: or_empty_exec(&j.customer_name),
        expected_count: j.expected_count,
        scan_count: jwc.scan_count,
        status: copy_str(j.status.as_str()),
        created_at,
        updated_at,
        started_at: opt_millis_exec(&j.started_at),
        completed_at: opt_millis_exec(&j.completed_at),
        device_id: or_empty_exec(&j.device_id),
        created_by: or_empty_exec(&j.created_by),
        notes: or_empty_exec(&j.notes),
        priority: copy_str(j.priority.as_str()),
        due_date: opt_millis_exec(&j.due_date),
        file_count: jwc.file_count,
    }
}

// ------------------------------------------------------------------
// Room progress from reports
// ------------------------------------------------------------------

/// What a report records of its room.
#[derive(Clone, Debug, PartialEq)]
pub struct RoomUpdate {
    pub job_id: String,
    pub room_name: String,
    pub cabinet_count: i32,
    pub is_complete: bool,
    pub has_fillers: bool,
    pub has_handles: bool,
    pub has_fast_caps: bool,
    pub has_set_boxes: bool,
    pub has_caulking: bool,
    pub punch_list: Option<String>,
    pub notes: Option<String>,
    pub report_id: String,
    pub updated_by: Option<String>,
}

pub open spec fn flag(o: Option<bool>) -> bool {
    match o {
        Some(b) => b,
        None => false,
    }
}

fn flag_exec(o: Option<bool>) -> (r: bool)
    ensures
        r == flag(o),
{
    match o {
        Some(b) => b,
        None => false,
    }
}

/// The room progress a synced report updates: only a report that names
/// both its job and its room; missing counts and flags are 0 and `false`.
pub fn room_update_from_report(report: &ReportInput) -> (r: Option<RoomUpdate>)
    ensures
        r is Some <==> given(report.room_name) && given(report.job_id),
        r matches Some(u) ==> {
            &&& opt_str(Some(u.job_id)) == opt_str(report.job_id)
            &&& opt_str(Some(u.room_name)) == opt_str(report.room_name)
            &&& u.cabinet_count == match report.cabinet_count {
                Some(c) => c,
                None => 0i32,
            }
            &&& u.is_complete == flag(report.is_complete)
            &&& u.has_fillers == flag(report.has_fillers)
            &&& u.has_handles == flag(report.has_handles)
            &&& u.has_fast_caps == flag(report.has_fast_caps)
            &&& u.has_set_boxes == flag(report.has_set_boxes)
            &&& u.has_caulking == flag(report.has_caulking)
            &&& opt_str(u.punch_list) == opt_str(report.punch_list)
            &&& opt_str(u.notes) == opt_str(report.notes)
            &&& u.report_id@ == report.id@
            &&& opt_str(u.updated_by) == opt_str(report.author_name)
        },
{
    if !is_given(&report.room_name) || !is_given(&report.job_id) {
        return None;
    }
    let room_name = match &report.room_name {
        Some(n) => copy_str(n.as_str()),
        None => {
            return None;
        },
    };
    let job_id = match &report.job_id {
        Some(j) => copy_str(j.as_str()),
        None => {
            return None;
        },
    };
    Some(
        RoomUpdate {
            job_id,
            room_name,
            cabinet_count: match report.cabinet_count {
                Some(c) => c,
                None => 0,
            },
            is_complete: flag_exec(report.is_complete),
            has_fillers: flag_exec(report.has_fillers),
            has_handles: flag_exec(report.has_handles),
            has_fast_caps: flag_exec(report.has_fast_caps),
            has_set_boxes: flag_exec(report.has_set_boxes),
            has_caulking: flag_exec(report.has_caulking),
            punch_list: copy_opt(&report.punch_list),
            notes: copy_opt(&report.notes),
            report_id: copy_str(report.id.as_str()),
            updated_by: copy_opt(&report.author_name),
        },
    )
}

// ------------------------------------------------------------------
// Backgrounds
// ------------------------------------------------------------------

/// What setting a user's background type does.
#[derive(Clone, Copy, Debug, PartialEq, Eq, Structural)]
pub enum BackgroundAction {
    /// `none`: the background is removed.
    Remove,
    /// `image` or `shader`: the type is recorded.
    SetType,
}

/// The action a background type asks for, or the error for a type that is
/// none of `image`, `shader` and `none`.
pub fn background_action(background_type: &str) -> (r: Result<BackgroundAction, String>)
    ensures
        background_type@ == "none"@ ==> r == Ok::<BackgroundAction, String>(BackgroundAction::Remove),
        (background_type@ == "image"@ || background_type@ == "shader"@) ==> r == Ok::<
            BackgroundAction,
            String,
        >(BackgroundAction::SetType),
        !(background_type@ == "none"@ || background_type@ == "image"@ || background_type@ == "shader"@) ==> (
        r matches Err(e) && e@ == "Invalid background_type. Must be: image, shader, or none"@),
{
    let t = chars_of(background_type);
    proof {
        reveal_strlit("none");
        reveal_strlit("image");
        reveal_strlit("shader");
        assert("image"@.len() == 5 && "shader"@.len() == 6 && "none"@.len() == 4);
    }
    if is_lit(&t, "none") {
        Ok(BackgroundAction::Remove)
    } else if is_lit(&t, "image") || is_lit(&t, "shader") {
        Ok(BackgroundAction::SetType)
    } else {
        Err(copy_str("Invalid background_type. Must be: image, shader, or none"))
    }
}

/// `Background type set to <type>`.
pub fn background_set_message(background_type: &str) -> (r: String)
    ensures
        r@ == "Background type set to "@ + background_type@,
{
    let mut m = chars_of("Background type set to ");
    append_chars(&mut m, &chars_of(background_type));
    text_of(m)
}

} // verus!
