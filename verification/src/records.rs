//! The values a record is stored with: the times a device sent as
//! milliseconds written out in RFC 3339 form, and defaults for what it
//! left out.

use vstd::prelude::*;
use crate::lading::opt_str;
use crate::models::{JobInput, ReportInput, TimeEntryInput};
use crate::text::{chars_of, string_of};
use crate::timekeeping::{
    chrono_holds, millis_text_or, millis_to_rfc3339, opt_millis_text, opt_millis_text_exec, rfc3339_of_millis, round_millis,
    rounded_millis,
};

verus! {

fn text_or_default(o: Option<String>, dflt: &str) -> (r: String)
    ensures
        r@ == match opt_str(o) {
            Some(t) => t,
            None => dflt@,
        },
{
    match o {
        Some(t) => t,
        None => string_of(&chars_of(dflt)),
    }
}

fn flag(b: Option<bool>, dflt: bool) -> (r: i32)
    ensures
        r == if (match b {
            Some(v) => v,
            None => dflt,
        }) {
            1i32
        } else {
            0i32
        },
{
    let v = match b {
        Some(v) => v,
        None => dflt,
    };
    if v {
        1
    } else {
        0
    }
}

// ------------------------------------------------------------------
// Jobs
// ------------------------------------------------------------------

/// The columns of a job row that are not copied as they came.
pub struct JobRow {
    pub created_at: String,
    pub started_at: Option<String>,
    pub completed_at: Option<String>,
    pub due_date: Option<String>,
    pub expected_count: i32,
    pub status: String,
    pub priority: String,
}

/// The stored form of a job sent by a device: its times written out (the
/// creation time defaults to `now`), no expected count meaning zero, and
/// the status and priority `PENDING` and `NORMAL` where none is given.
pub fn job_row(input: &JobInput, now: &str) -> (r: JobRow)
    ensures
        r.created_at@ == match opt_millis_text(input.created_at) {
            Some(t) => t,
            None => now@,
        },
        opt_str(r.started_at) == opt_millis_text(input.started_at),
        opt_str(r.completed_at) == opt_millis_text(input.completed_at),
        opt_str(r.due_date) == opt_millis_text(input.due_date),
        r.expected_count == match input.expected_count {
            Some(n) => n,
            None => 0,
        },
        r.status@ == match opt_str(input.status) {
            Some(s) => s,
            None => "PENDING"@,
        },
        r.priority@ == match opt_str(input.priority) {
            Some(p) => p,
            None => "NORMAL"@,
        },
{
    let created_at = text_or_default(opt_millis_text_exec(input.created_at), now);
    let status = match &input.status {
        Some(s) => string_of(&chars_of(s.as_str())),
        None => string_of(&chars_of("PENDING")),
    };
    let priority = match &input.priority {
        Some(p) => string_of(&chars_of(p.as_str())),
        None => string_of(&chars_of("NORMAL")),
    };
    JobRow {
        created_at,
        started_at: opt_millis_text_exec(input.started_at),
        completed_at: opt_millis_text_exec(input.completed_at),
        due_date: opt_millis_text_exec(input.due_date),
        expected_count: match input.expected_count {
            Some(n) => n,
            None => 0,
        },
        status,
        priority,
    }
}

// ------------------------------------------------------------------
// Reports
// ------------------------------------------------------------------

/// The columns of a report row that are not copied as they came.
pub struct ReportRow {
    pub created_at: String,
    pub updated_at: String,
    pub status: String,
    pub cabinet_count: i32,
    pub is_complete: i32,
    pub has_fillers: i32,
    pub has_handles: i32,
    pub has_fast_caps: i32,
    pub has_set_boxes: i32,
    pub has_caulking: i32,
}

pub open spec fn flag_of(b: Option<bool>) -> i32 {
    if b == Some(true) {
        1
    } else {
        0
    }
}

/// The stored form of a report sent by a device: its times written out
/// (both default to `now`), the status `draft` where none is given, no
/// cabinet count meaning zero, and each check stored as 1 or 0 (absent
/// meaning 0).
pub fn report_row(input: &ReportInput, now: &str) -> (r: ReportRow)
    ensures
        r.created_at@ == match opt_millis_text(input.created_at) {
            Some(t) => t,
            None => now@,
        },
        r.updated_at@ == match opt_millis_text(input.updated_at) {
            Some(t) => t,
            None => now@,
        },
        r.status@ == match opt_str(input.status) {
            Some(s) => s,
            None => "draft"@,
        },
        r.cabinet_count == match input.cabinet_count {
            Some(n) => n,
            None => 0,
        },
        r.is_complete == flag_of(input.is_complete),
        r.has_fillers == flag_of(input.has_fillers),
        r.has_handles == flag_of(input.has_handles),
        r.has_fast_caps == flag_of(input.has_fast_caps),
        r.has_set_boxes == flag_of(input.has_set_boxes),
        r.has_caulking == flag_of(input.has_caulking),
{
    let status = match &input.status {
        Some(s) => string_of(&chars_of(s.as_str())),
        None => string_of(&chars_of("draft")),
    };
    ReportRow {
        created_at: text_or_default(opt_millis_text_exec(input.created_at), now),
        updated_at: text_or_default(opt_millis_text_exec(input.updated_at), now),
        status,
        cabinet_count: match input.cabinet_count {
            Some(n) => n,
            None => 0,
        },
        is_complete: flag(input.is_complete, false),
        has_fillers: flag(input.has_fillers, false),
        has_handles: flag(input.has_handles, false),
        has_fast_caps: flag(input.has_fast_caps, false),
        has_set_boxes: flag(input.has_set_boxes, false),
        has_caulking: flag(input.has_caulking, false),
    }
}

// ------------------------------------------------------------------
// Time entries
// ------------------------------------------------------------------

/// The time `ms` where chrono can hold it, else `now_ms`.
pub open spec fn instant_or(ms: int, now_ms: int) -> int {
    if chrono_holds(ms / 1000) {
        ms
    } else {
        now_ms
    }
}

/// The time, rounded where rounding is in effect.
pub open spec fn stored_millis(ms: int, rounding: Option<i32>) -> int {
    match rounding {
        Some(iv) => rounded_millis(ms, iv as int),
        None => ms,
    }
}

/// The text of a time as stored; empty where chrono cannot hold it.
pub open spec fn stored_text(ms: int, rounding: Option<i32>) -> Seq<char> {
    if chrono_holds(ms / 1000) {
        rfc3339_of_millis(stored_millis(ms, rounding))
    } else {
        Seq::empty()
    }
}

/// The columns of a time entry row that are not copied as they came.
pub struct EntryRow {
    pub clock_in: String,
    pub clock_out: Option<String>,
    pub is_break: i32,
    pub is_paid: i32,
}

fn stored_text_exec(ms: i64, rounding: Option<i32>) -> (r: String)
    requires
        rounding matches Some(iv) ==> iv != 0,
    ensures
        r@ == stored_text(ms as int, rounding),
{
    match millis_to_rfc3339(ms) {
        Some(t) => {
            match rounding {
                Some(iv) => {
                    let m = round_millis(ms, iv);
                    millis_text_or(m, "")
                },
                None => t,
            }
        },
        None => String::new(),
    }
}

/// The stored form of a time entry sent by a device: the clock-in and
/// clock-out times written out, each rounded to the nearest `rounding`
/// minutes where that is given; a clock-in that chrono cannot hold is
/// replaced by `now_ms`, a clock-out that it cannot hold is left out.  A
/// break is stored as 1 (absent meaning no break), and the entry is paid
/// unless it says otherwise.
pub fn time_entry_row(input: &TimeEntryInput, rounding: Option<i32>, now_ms: i64) -> (r: EntryRow)
    requires
        rounding matches Some(iv) ==> iv != 0,
    ensures
        r.clock_in@ == stored_text(instant_or(input.clock_in as int, now_ms as int), rounding),
        opt_str(r.clock_out) == match input.clock_out {
            Some(co) => if chrono_holds(co as int / 1000) {
                Some(stored_text(co as int, rounding))
            } else {
                None
            },
            None => None,
        },
        r.is_break == flag_of(input.is_break),
        r.is_paid == if input.is_paid == Some(false) {
            0i32
        } else {
            1i32
        },
{
    let ci = match millis_to_rfc3339(input.clock_in) {
        Some(_) => input.clock_in,
        None => now_ms,
    };
    let clock_in = stored_text_exec(ci, rounding);
    let clock_out = match input.clock_out {
        Some(co) => match millis_to_rfc3339(co) {
            Some(_) => Some(stored_text_exec(co, rounding)),
            None => None,
        },
        None => None,
    };
    EntryRow { clock_in, clock_out, is_break: flag(input.is_break, false), is_paid: flag(input.is_paid, true) }
}

} // verus!
