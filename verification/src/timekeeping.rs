//! Time keeping: rounding clock times, automatic breaks, who is working,
//! and timesheets by day.

use vstd::prelude::*;
use crate::api::AutoBreakConfig;
use crate::lading::opt_str;
use crate::models::{TeamMember, TeamMemberStatus, TimeEntryInput, TimeEntryRecord, TimesheetDay};
use crate::text::{append_chars, chars_eq, chars_of, copy_range, find, find_chars, i64_chars, int_str, string_of};
use crate::requests::rfc3339_instant;

verus! {

// ------------------------------------------------------------------
// Rounding clock times
// ------------------------------------------------------------------

/// Rust's integer division, which truncates toward zero.
pub open spec fn tdiv(a: int, b: int) -> int {
    if a >= 0 && b > 0 {
        a / b
    } else if a < 0 && b > 0 {
        -((-a) / b)
    } else if a >= 0 && b < 0 {
        -(a / (-b))
    } else {
        (-a) / (-b)
    }
}

/// The first second chrono holds: `DateTime::<Utc>::MIN_UTC`, the start of
/// January 1 of the year -262143.
pub open spec fn chrono_min_secs() -> int {
    -8_334_601_228_800
}

/// The last whole second chrono holds: `DateTime::<Utc>::MAX_UTC`, within
/// the last second of December 31 of the year 262142.
pub open spec fn chrono_max_secs() -> int {
    8_210_266_876_799
}

/// Whether chrono holds the time `secs` seconds after the epoch.
pub open spec fn chrono_holds(secs: int) -> bool {
    chrono_min_secs() <= secs <= chrono_max_secs()
}

/// `chrono::DateTime::from_timestamp(secs, 0)` gives a time exactly where
/// `secs` lies within chrono's range of dates, from `MIN_UTC` to `MAX_UTC`:
/// it splits `secs` into days and seconds of the day, and a date exists for
/// every day number from the first to the last of the years -262143 to
/// 262142.
#[verifier::external_body]
fn timestamp_in_range(secs: i64) -> (r: bool)
    ensures
        r == chrono_holds(secs as int),
{
    chrono::DateTime::from_timestamp(secs, 0).is_some()
}

/// The first second of the year 0 and the last of the year 9999: the
/// times chrono writes with a year of four digits.
pub open spec fn four_digit_years(secs: int) -> bool {
    -62_167_219_200 <= secs <= 253_402_300_799
}

/// The RFC 3339 text that chrono writes for the UTC time `ms` milliseconds
/// after the epoch.
pub uninterp spec fn rfc3339_of_millis(ms: int) -> Seq<char>;

/// `chrono::DateTime::from_timestamp_millis(ms)`, written with
/// `to_rfc3339`.  chrono splits `ms` into whole seconds (rounded down) and
/// a part below one second, so there is a time exactly where there is one
/// at those seconds (the range stated at `timestamp_in_range`).  The text
/// is named, not spelled out.  Where the year has four digits, chrono's
/// RFC 3339 parser reads the text back to the same time: the same whole
/// seconds, and a fraction of at most nine digits giving the same
/// milliseconds.
#[verifier::external_body]
pub(crate) fn millis_to_rfc3339(ms: i64) -> (r: Option<String>)
    ensures
        r is Some <==> chrono_holds(ms as int / 1000),
        r matches Some(t) ==> t@ == rfc3339_of_millis(ms as int),
        r matches Some(t) ==> (four_digit_years(ms as int / 1000) ==> rfc3339_instant(t@) == Some(
            (ms as int / 1000, ms as int),
        )),
{
    chrono::DateTime::from_timestamp_millis(ms).map(|dt| dt.to_rfc3339())
}

/// The time `ts` (seconds) rounded to the nearest `interval_minutes`:
/// `((ts + s/2) / s) * s` for `s` the interval in seconds, where chrono can
/// hold that time; else `ts`.
pub open spec fn rounded_time(ts: int, interval_minutes: int) -> int {
    let r = rounding_target(ts, interval_minutes);
    if chrono_holds(r) {
        r
    } else {
        ts
    }
}

/// The largest magnitude of a chrono timestamp is below this.
pub open spec fn time_bound() -> int {
    10_000_000_000_000
}

fn tdiv_exec(a: i64, b: i64) -> (r: i64)
    requires
        b != 0,
        -time_bound() * 2 <= a <= time_bound() * 2,
        -0x1_0000_0000_00 <= b <= 0x1_0000_0000_00,
    ensures
        r == tdiv(a as int, b as int),
{
    let ua: u64 = if a < 0 {
        (-a) as u64
    } else {
        a as u64
    };
    let ub: u64 = if b < 0 {
        (-b) as u64
    } else {
        b as u64
    };
    let q = ua / ub;
    if (a >= 0) == (b > 0) {
        q as i64
    } else {
        -(q as i64)
    }
}

proof fn lemma_tdiv_bound(a: int, b: int)
    requires
        b != 0,
    ensures
        -(if a < 0 { -a } else { a }) <= tdiv(a, b) * b <= (if a < 0 { -a } else { a }),
        -(if a < 0 { -a } else { a }) <= tdiv(a, b) <= (if a < 0 { -a } else { a }),
{
    let ua = if a < 0 { -a } else { a };
    let ub = if b < 0 { -b } else { b };
    assert(0 <= (ua / ub) * ub <= ua && 0 <= ua / ub <= ua) by (nonlinear_arith)
        requires
            ua >= 0,
            ub >= 1,
    ;
    if a >= 0 && b > 0 {
    } else if a < 0 && b > 0 {
        assert(tdiv(a, b) * b == -((ua / ub) * ub)) by (nonlinear_arith)
            requires
                tdiv(a, b) == -(ua / ub),
                b == ub,
        ;
    } else if a >= 0 && b < 0 {
        assert(tdiv(a, b) * b == (ua / ub) * ub) by (nonlinear_arith)
            requires
                tdiv(a, b) == -(ua / ub),
                b == -ub,
        ;
    } else {
        assert(tdiv(a, b) * b == -((ua / ub) * ub)) by (nonlinear_arith)
            requires
                tdiv(a, b) == ua / ub,
                b == -ub,
        ;
    }
}

/// The nearest multiple of the interval, as `round_time` computes it,
/// before chrono is asked whether it can hold that time.
pub open spec fn rounding_target(ts: int, interval_minutes: int) -> int {
    let secs = interval_minutes * 60;
    tdiv(ts + tdiv(secs, 2), secs) * secs
}

fn rounding_target_exec(ts: i64, interval_minutes: i32) -> (r: i64)
    requires
        interval_minutes != 0,
        -time_bound() <= ts <= time_bound(),
    ensures
        r == rounding_target(ts as int, interval_minutes as int),
{
    let secs: i64 = interval_minutes as i64 * 60;
    let half = tdiv_exec(secs, 2);
    proof {
        lemma_tdiv_bound(secs as int, 2);
    }
    let q = tdiv_exec(ts + half, secs);
    proof {
        lemma_tdiv_bound((ts + half) as int, secs as int);
    }
    q * secs
}

/// Round a time (seconds since the epoch) to the nearest N minutes.
pub fn round_time(ts: i64, interval_minutes: i32) -> (r: i64)
    requires
        interval_minutes != 0,
        -time_bound() <= ts <= time_bound(),
    ensures
        r == rounded_time(ts as int, interval_minutes as int),
{
    let rounded = rounding_target_exec(ts, interval_minutes);
    if timestamp_in_range(rounded) {
        rounded
    } else {
        ts
    }
}

/// A time held to the millisecond, rounded to the nearest N minutes from
/// its whole seconds; where chrono cannot hold the rounded time, the time
/// is kept as it was.
pub open spec fn rounded_millis(ms: int, interval_minutes: int) -> int {
    let r = rounding_target(ms / 1000, interval_minutes);
    if chrono_holds(r) {
        r * 1000
    } else {
        ms
    }
}

/// Round a time given in milliseconds to the nearest N minutes.
pub fn round_millis(ms: i64, interval_minutes: i32) -> (r: i64)
    requires
        interval_minutes != 0,
        -time_bound() <= ms as int / 1000 <= time_bound(),
    ensures
        r == rounded_millis(ms as int, interval_minutes as int),
{
    let ts = ms / 1000 - if ms % 1000 < 0 { 1 } else { 0 };
    assert(ts == ms as int / 1000) by {
        assert(ms as int == 1000 * (ms as int / 1000) + ms as int % 1000);
    }
    let rounded = rounding_target_exec(ts, interval_minutes);
    if timestamp_in_range(rounded) {
        rounded * 1000
    } else {
        ms
    }
}

/// The UTC time `ms` in RFC 3339 form, or `fallback` where chrono has no
/// such time.  A time of a four-digit year reads back as the same
/// milliseconds.
pub fn millis_text_or(ms: i64, fallback: &str) -> (r: String)
    ensures
        r@ == if chrono_holds(ms as int / 1000) {
            rfc3339_of_millis(ms as int)
        } else {
            fallback@
        },
        four_digit_years(ms as int / 1000) ==> rfc3339_instant(r@) == Some((ms as int / 1000, ms as int)),
{
    match millis_to_rfc3339(ms) {
        Some(t) => t,
        None => string_of(&chars_of(fallback)),
    }
}

pub open spec fn opt_millis_text(ms: Option<i64>) -> Option<Seq<char>> {
    match ms {
        Some(m) => if chrono_holds(m as int / 1000) {
            Some(rfc3339_of_millis(m as int))
        } else {
            None
        },
        None => None,
    }
}

/// The UTC time `ms`, where one is given and chrono can hold it, in RFC
/// 3339 form.
pub fn opt_millis_text_exec(ms: Option<i64>) -> (r: Option<String>)
    ensures
        opt_str(r) == opt_millis_text(ms),
        r matches Some(t) ==> (ms matches Some(m) && (four_digit_years(m as int / 1000) ==> rfc3339_instant(t@)
            == Some((m as int / 1000, m as int)))),
{
    match ms {
        Some(m) => millis_to_rfc3339(m),
        None => None,
    }
}


/// For times from the epoch on, a rounded time is a multiple of the
/// interval, and the nearest one (a time halfway between rounds up),
/// wherever chrono can hold it.
pub proof fn lemma_round_time_nearest(ts: int, interval_minutes: int)
    requires
        0 <= ts <= time_bound(),
        1 <= interval_minutes <= 0x7FFF_FFFF,
    ensures
        ({
            let s = interval_minutes * 60;
            let r = rounded_time(ts, interval_minutes);
            chrono_holds(((ts + s / 2) / s) * s) ==> r % s == 0 && r <= ts + s / 2 < r + s
        }),
{
    let s = interval_minutes * 60;
    assert(tdiv(s, 2) == s / 2);
    let a = ts + s / 2;
    assert(tdiv(a, s) == a / s);
    let r = (a / s) * s;
    assert(r % s == 0 && r <= a < r + s) by (nonlinear_arith)
        requires
            a >= 0,
            s >= 1,
            r == (a / s) * s,
    ;
}

/// For times from the epoch on, rounding a rounded time changes nothing.
pub proof fn lemma_round_time_idempotent(ts: int, interval_minutes: int)
    requires
        0 <= ts <= time_bound(),
        1 <= interval_minutes <= 0x7FFF_FFFF,
    ensures
        rounded_time(rounded_time(ts, interval_minutes), interval_minutes) == rounded_time(
            ts,
            interval_minutes,
        ),
{
    let s = interval_minutes * 60;
    assert(tdiv(s, 2) == s / 2);
    let a = ts + s / 2;
    assert(tdiv(a, s) == a / s);
    let r = (a / s) * s;
    if chrono_holds(r) {
        assert(r >= 0 && r % s == 0 && (r + s / 2) / s * s == r) by (nonlinear_arith)
            requires
                a >= 0,
                s >= 1,
                r == (a / s) * s,
        ;
        assert(tdiv(r + s / 2, s) == (r + s / 2) / s);
    }
}


// ------------------------------------------------------------------
// Automatic breaks
// ------------------------------------------------------------------

pub open spec fn i64_fits(x: int) -> bool {
    -0x8000_0000_0000_0000 <= x <= 0x7FFF_FFFF_FFFF_FFFF
}

/// A work entry (not a break) with a clock-out, worked at least the
/// threshold: it gets an automatic break.
pub open spec fn break_applies(cfg: AutoBreakConfig, e: TimeEntryInput) -> bool {
    &&& cfg.enabled
    &&& e.is_break != Some(true)
    &&& e.clock_out is Some
    &&& e.clock_out->0 - e.clock_in >= cfg.threshold_hours * 3_600_000
}

/// The times involved in the automatic break of `e` fit in 64 bits.
pub open spec fn break_fits(cfg: AutoBreakConfig, e: TimeEntryInput) -> bool {
    &&& (cfg.enabled && e.is_break != Some(true) && e.clock_out is Some) ==> i64_fits(
        e.clock_out->0 - e.clock_in,
    )
    &&& break_applies(cfg, e) ==> i64_fits(e.clock_in + cfg.threshold_hours * 3_600_000)
        && i64_fits(e.clock_in + cfg.threshold_hours * 3_600_000 + cfg.break_minutes * 60_000)
}

pub open spec fn break_note(cfg: AutoBreakConfig) -> Seq<char> {
    "Auto "@ + int_str(cfg.break_minutes as int) + "min break - worked over "@ + int_str(
        cfg.threshold_hours as int,
    ) + "hrs"@
}

/// `b` is the automatic break of the work entry `e`: an unpaid break from
/// the threshold point on, as long as the configured break.
pub open spec fn is_break_of(cfg: AutoBreakConfig, e: TimeEntryInput, b: TimeEntryInput) -> bool {
    &&& b.id@ == "auto-break-"@ + e.id@
    &&& b.device_id@ == e.device_id@
    &&& opt_str(b.customer_name) == opt_str(e.customer_name)
    &&& opt_str(b.job_name) == opt_str(e.job_name)
    &&& opt_str(b.job_id) == opt_str(e.job_id)
    &&& b.clock_in == e.clock_in + cfg.threshold_hours * 3_600_000
    &&& b.clock_out == Some((e.clock_in + cfg.threshold_hours * 3_600_000 + cfg.break_minutes * 60_000) as i64)
    &&& opt_str(b.note) == Some(break_note(cfg))
    &&& b.is_break == Some(true)
    &&& b.is_paid == Some(false)
}

fn copy_opt_string(o: &Option<String>) -> (r: Option<String>)
    ensures
        opt_str(r) == opt_str(*o),
{
    match o {
        Some(s) => Some(string_of(&chars_of(s.as_str()))),
        None => None,
    }
}

fn i32_chars(n: i32) -> (r: Vec<char>)
    ensures
        r@ == int_str(n as int),
{
    i64_chars(n as i64)
}

/// Whether the times of the automatic break of `entry` fit in 64 bits
/// (where they do not, adding them up overflows).
pub fn break_fits_exec(cfg: &AutoBreakConfig, entry: &TimeEntryInput) -> (r: bool)
    ensures
        r == break_fits(*cfg, *entry),
{
    let is_break = match entry.is_break {
        Some(b) => b,
        None => false,
    };
    if !cfg.enabled || is_break {
        return true;
    }
    let co = match entry.clock_out {
        Some(c) => c,
        None => {
            return true;
        },
    };
    let worked: i128 = co as i128 - entry.clock_in as i128;
    if worked < -0x8000_0000_0000_0000 || worked > 0x7FFF_FFFF_FFFF_FFFF {
        return false;
    }
    let threshold: i128 = cfg.threshold_hours as i128 * 3_600_000;
    if worked < threshold {
        return true;
    }
    let start: i128 = entry.clock_in as i128 + threshold;
    let end: i128 = start + cfg.break_minutes as i128 * 60_000;
    -0x8000_0000_0000_0000 <= start && start <= 0x7FFF_FFFF_FFFF_FFFF && -0x8000_0000_0000_0000 <= end && end
        <= 0x7FFF_FFFF_FFFF_FFFF
}

/// The automatic break that a synced time entry gets, if any: where the
/// configuration is enabled and `entry` is work that lasted at least the
/// threshold.  (Whether the break is already stored is for the caller.)
pub fn auto_break_entry(cfg: &AutoBreakConfig, entry: &TimeEntryInput) -> (r: Option<TimeEntryInput>)
    requires
        break_fits(*cfg, *entry),
    ensures
        r is Some <==> break_applies(*cfg, *entry),
        r matches Some(b) ==> is_break_of(*cfg, *entry, b),
{
    if !cfg.enabled {
        return None;
    }
    let is_break = match entry.is_break {
        Some(b) => b,
        None => false,
    };
    if is_break {
        return None;
    }
    let clock_out = match entry.clock_out {
        Some(co) => co,
        None => {
            return None;
        },
    };
    let threshold_ms: i64 = cfg.threshold_hours as i64 * 3_600_000;
    let break_ms: i64 = cfg.break_minutes as i64 * 60_000;
    let worked_ms = clock_out - entry.clock_in;
    if worked_ms < threshold_ms {
        return None;
    }
    let break_start = entry.clock_in + threshold_ms;
    let break_end = break_start + break_ms;
    let mut id = chars_of("auto-break-");
    append_chars(&mut id, &chars_of(entry.id.as_str()));
    let mut note = chars_of("Auto ");
    append_chars(&mut note, &i32_chars(cfg.break_minutes));
    append_chars(&mut note, &chars_of("min break - worked over "));
    append_chars(&mut note, &i32_chars(cfg.threshold_hours));
    append_chars(&mut note, &chars_of("hrs"));
    Some(
        TimeEntryInput {
            id: string_of(&id),
            device_id: string_of(&chars_of(entry.device_id.as_str())),
            customer_name: copy_opt_string(&entry.customer_name),
            job_name: copy_opt_string(&entry.job_name),
            job_id: copy_opt_string(&entry.job_id),
            clock_in: break_start,
            clock_out: Some(break_end),
            note: Some(string_of(&note)),
            is_break: Some(true),
            is_paid: Some(false),
        },
    )
}

// ------------------------------------------------------------------
// Who is working
// ------------------------------------------------------------------

/// The index of the first entry of the device `did`.
pub open spec fn first_for(es: Seq<TimeEntryRecord>, did: Seq<char>) -> Option<int>
    decreases es.len(),
{
    if es.len() == 0 {
        None
    } else if es[0].device_id@ == did {
        Some(0)
    } else {
        match first_for(es.drop_first(), did) {
            Some(i) => Some(i + 1),
            None => None,
        }
    }
}

pub open spec fn opt_or(a: Option<Seq<char>>, b: Option<Seq<char>>) -> Option<Seq<char>> {
    if a is Some {
        a
    } else {
        b
    }
}

/// The status of a team member: on a break where one of its breaks is
/// open, else working where one of its work entries is open, else offline;
/// with the job (or customer) and clock-in of that entry.
pub open spec fn status_of(
    did: Seq<char>,
    work: Seq<TimeEntryRecord>,
    breaks: Seq<TimeEntryRecord>,
) -> (Seq<char>, Option<Seq<char>>, Option<Seq<char>>) {
    match first_for(breaks, did) {
        Some(i) => ("break"@, opt_or(opt_str(breaks[i].job_name), opt_str(breaks[i].customer_name)), Some(breaks[i].clock_in@)),
        None => match first_for(work, did) {
            Some(i) => ("working"@, opt_or(opt_str(work[i].job_name), opt_str(work[i].customer_name)), Some(work[i].clock_in@)),
            None => ("offline"@, None, None),
        },
    }
}

fn first_for_exec(es: &Vec<TimeEntryRecord>, did: &str) -> (r: Option<usize>)
    ensures
        match r {
            Some(i) => i < es@.len() && first_for(es@, did@) == Some(i as int),
            None => first_for(es@, did@) is None,
        },
{
    let d = chars_of(did);
    let mut k: usize = 0;
    assert(es@.subrange(0, es@.len() as int) =~= es@);
    while k < es.len()
        invariant
            k <= es@.len(),
            d@ == did@,
            first_for(es@, did@) == match first_for(es@.subrange(k as int, es@.len() as int), did@) {
                Some(i) => Some(i + k),
                None => None,
            },
        decreases es@.len() - k,
    {
        let ghost rest = es@.subrange(k as int, es@.len() as int);
        assert(rest[0] == es@[k as int]);
        assert(rest.drop_first() =~= es@.subrange(k + 1, es@.len() as int));
        let e = chars_of(es[k].device_id.as_str());
        if crate::text::chars_eq(&e, &d) {
            return Some(k);
        }
        k = k + 1;
    }
    None
}

fn job_or_customer(e: &TimeEntryRecord) -> (r: Option<String>)
    ensures
        opt_str(r) == opt_or(opt_str(e.job_name), opt_str(e.customer_name)),
{
    if e.job_name.is_some() {
        copy_opt_string(&e.job_name)
    } else {
        copy_opt_string(&e.customer_name)
    }
}

/// The status of a team member, from the open work entries and breaks,
/// when its device was last seen and how many scans it made today.
pub fn team_member_status(
    member: &TeamMember,
    active_work: &Vec<TimeEntryRecord>,
    active_breaks: &Vec<TimeEntryRecord>,
    last_seen: Option<String>,
    total_scans_today: i64,
) -> (r: TeamMemberStatus)
    ensures
        r.device_id@ == member.device_id@,
        r.display_name@ == member.display_name@,
        r.role@ == member.role@,
        r.is_admin == (member.is_admin != 0),
        opt_str(r.avatar_color) == opt_str(member.avatar_color),
        (r.status@, opt_str(r.current_job), opt_str(r.clock_in)) == status_of(
            member.device_id@,
            active_work@,
            active_breaks@,
        ),
        opt_str(r.last_seen) == opt_str(last_seen),
        r.total_scans_today == total_scans_today,
{
    let (status, current_job, clock_in) = match first_for_exec(active_breaks, member.device_id.as_str()) {
        Some(i) => (
            string_of(&chars_of("break")),
            job_or_customer(&active_breaks[i]),
            Some(string_of(&chars_of(active_breaks[i].clock_in.as_str()))),
        ),
        None => match first_for_exec(active_work, member.device_id.as_str()) {
            Some(i) => (
                string_of(&chars_of("working")),
                job_or_customer(&active_work[i]),
                Some(string_of(&chars_of(active_work[i].clock_in.as_str()))),
            ),
            None => (string_of(&chars_of("offline")), None, None),
        },
    };
    TeamMemberStatus {
        device_id: string_of(&chars_of(member.device_id.as_str())),
        display_name: string_of(&chars_of(member.display_name.as_str())),
        role: string_of(&chars_of(member.role.as_str())),
        is_admin: member.is_admin != 0,
        avatar_color: copy_opt_string(&member.avatar_color),
        status,
        current_job,
        clock_in,
        last_seen,
        total_scans_today,
    }
}


// ------------------------------------------------------------------
// Timesheets
// ------------------------------------------------------------------

/// The whole seconds from one RFC 3339 time to another.
pub uninterp spec fn rfc3339_span(start: Seq<char>, end: Seq<char>) -> Option<int>;

/// Parses both times with `chrono::DateTime::parse_from_rfc3339` and gives
/// `(end - start).num_seconds()`, the whole seconds between them truncated
/// toward zero; `None` where either does not parse.
#[verifier::external_body]
pub(crate) fn seconds_between(start: &str, end: &str) -> (r: Option<i64>)
    ensures
        match r {
            Some(v) => rfc3339_span(start@, end@) == Some(v as int),
            None => rfc3339_span(start@, end@) is None,
        },
{
    match (chrono::DateTime::parse_from_rfc3339(start), chrono::DateTime::parse_from_rfc3339(end)) {
        (Ok(s), Ok(e)) => Some((e - s).num_seconds()),
        _ => None,
    }
}

/// The date of a clock-in time: its text before the first `T`.
pub open spec fn date_of(ci: Seq<char>) -> Seq<char> {
    match find(ci, "T"@) {
        Some(p) => ci.take(p),
        None => ci,
    }
}

/// `a` comes before `b` in the order of strings.
pub open spec fn str_lt(a: Seq<char>, b: Seq<char>) -> bool
    decreases a.len(),
{
    if a.len() == 0 {
        b.len() > 0
    } else if b.len() == 0 {
        false
    } else if a[0] != b[0] {
        (a[0] as u32) < (b[0] as u32)
    } else {
        str_lt(a.drop_first(), b.drop_first())
    }
}

pub open spec fn opt_strv(o: Option<&str>) -> Option<Seq<char>> {
    match o {
        Some(s) => Some(s@),
        None => None,
    }
}

/// The date lies within the bounds that are given.
pub open spec fn date_in_range(d: Seq<char>, from: Option<Seq<char>>, to: Option<Seq<char>>) -> bool {
    &&& match from {
        Some(f) => !str_lt(d, f),
        None => true,
    }
    &&& match to {
        Some(t) => !str_lt(t, d),
        None => true,
    }
}

/// The seconds an entry counts: from clock-in to clock-out, at least 0;
/// 0 for an open entry or one whose times do not parse.
pub open spec fn entry_secs(e: TimeEntryRecord) -> int {
    match e.clock_out {
        Some(co) => match rfc3339_span(e.clock_in@, co@) {
            Some(v) => if v > 0 {
                v
            } else {
                0
            },
            None => 0,
        },
        None => 0,
    }
}

/// A day of a timesheet: the entries of one device on one date, and the
/// seconds worked and on break.
pub struct DayV {
    pub date: Seq<char>,
    pub device_id: Seq<char>,
    pub display_name: Seq<char>,
    pub entries: Seq<TimeEntryRecord>,
    pub work: int,
    pub brk: int,
}

pub open spec fn day_view(d: TimesheetDay) -> DayV {
    DayV {
        date: d.date@,
        device_id: d.device_id@,
        display_name: d.display_name@,
        entries: d.entries@,
        work: d.total_work_seconds as int,
        brk: d.total_break_seconds as int,
    }
}

pub open spec fn days_view(v: Seq<TimesheetDay>) -> Seq<DayV> {
    v.map_values(|d: TimesheetDay| day_view(d))
}

/// The name a device goes by: that of its (last) team member, else the
/// device id itself.
pub open spec fn member_name(ms: Seq<TeamMember>, did: Seq<char>) -> Seq<char>
    decreases ms.len(),
{
    if ms.len() == 0 {
        did
    } else if ms.last().device_id@ == did {
        ms.last().display_name@
    } else {
        member_name(ms.drop_last(), did)
    }
}

/// The index of the day of device `did` on `date`.
pub open spec fn group_of(g: Seq<DayV>, did: Seq<char>, date: Seq<char>) -> Option<int>
    decreases g.len(),
{
    if g.len() == 0 {
        None
    } else if g.last().device_id == did && g.last().date == date {
        Some(g.len() - 1)
    } else {
        group_of(g.drop_last(), did, date)
    }
}

pub open spec fn add_to_days(g: Seq<DayV>, e: TimeEntryRecord, ms: Seq<TeamMember>) -> Seq<DayV> {
    let did = e.device_id@;
    let date = date_of(e.clock_in@);
    let secs = entry_secs(e);
    let w = if e.is_break != 0 {
        0
    } else {
        secs
    };
    let b = if e.is_break != 0 {
        secs
    } else {
        0
    };
    match group_of(g, did, date) {
        Some(i) => g.update(i, DayV { entries: g[i].entries.push(e), work: g[i].work + w, brk: g[i].brk + b, ..g[i] }),
        None => g.push(
            DayV { date, device_id: did, display_name: member_name(ms, did), entries: seq![e], work: w, brk: b },
        ),
    }
}

/// The entries grouped by device and date, in the order each day first
/// appears, leaving out dates outside the bounds.
pub open spec fn group_days(es: Seq<TimeEntryRecord>, ms: Seq<TeamMember>, from: Option<Seq<char>>, to: Option<Seq<char>>) -> Seq<DayV>
    decreases es.len(),
{
    if es.len() == 0 {
        seq![]
    } else {
        let g = group_days(es.drop_last(), ms, from, to);
        let e = es.last();
        if date_in_range(date_of(e.clock_in@), from, to) {
            add_to_days(g, e, ms)
        } else {
            g
        }
    }
}

/// Day `a` goes before day `b`: a later date, or the same date and a name
/// that comes first.
pub open spec fn day_before(a: DayV, b: DayV) -> bool {
    str_lt(b.date, a.date) || (a.date == b.date && str_lt(a.display_name, b.display_name))
}

pub open spec fn insert_pos(s: Seq<DayV>, x: DayV) -> int
    decreases s.len(),
{
    if s.len() == 0 {
        0
    } else if day_before(x, s[0]) {
        0
    } else {
        1 + insert_pos(s.drop_first(), x)
    }
}

/// The days sorted by date (latest first), then name; days that tie keep
/// their order.
pub open spec fn sort_days(ds: Seq<DayV>) -> Seq<DayV>
    decreases ds.len(),
{
    if ds.len() == 0 {
        seq![]
    } else {
        let s = sort_days(ds.drop_last());
        s.insert(insert_pos(s, ds.last()), ds.last())
    }
}

pub open spec fn timesheet(es: Seq<TimeEntryRecord>, ms: Seq<TeamMember>, from: Option<Seq<char>>, to: Option<Seq<char>>) -> Seq<DayV> {
    sort_days(group_days(es, ms, from, to))
}

// ------------------------------------------------------------------
// Timesheets come latest date first, then by name
// ------------------------------------------------------------------

proof fn lemma_str_lt_trans(a: Seq<char>, b: Seq<char>, c: Seq<char>)
    requires
        str_lt(a, b),
        str_lt(b, c),
    ensures
        str_lt(a, c),
    decreases a.len(),
{
    if a.len() > 0 && b.len() > 0 && c.len() > 0 && a[0] == b[0] && b[0] == c[0] {
        lemma_str_lt_trans(a.drop_first(), b.drop_first(), c.drop_first());
    }
}

proof fn lemma_day_before_trans(a: DayV, b: DayV, c: DayV)
    requires
        day_before(a, b),
        day_before(b, c),
    ensures
        day_before(a, c),
{
    if str_lt(b.date, a.date) && str_lt(c.date, b.date) {
        lemma_str_lt_trans(c.date, b.date, a.date);
    } else if a.date == b.date && b.date == c.date {
        lemma_str_lt_trans(a.display_name, b.display_name, c.display_name);
    }
}

/// No day of `s` should go before one that precedes it.
pub open spec fn days_sorted(s: Seq<DayV>) -> bool {
    forall|i: int, j: int| 0 <= i < j < s.len() ==> !day_before(#[trigger] s[j], #[trigger] s[i])
}

proof fn lemma_insert_pos(s: Seq<DayV>, x: DayV)
    ensures
        0 <= insert_pos(s, x) <= s.len(),
        forall|i: int| 0 <= i < insert_pos(s, x) ==> !day_before(x, #[trigger] s[i]),
        insert_pos(s, x) < s.len() ==> day_before(x, s[insert_pos(s, x)]),
    decreases s.len(),
{
    if s.len() > 0 && !day_before(x, s[0]) {
        lemma_insert_pos(s.drop_first(), x);
        assert forall|i: int| 0 <= i < insert_pos(s, x) implies !day_before(x, #[trigger] s[i]) by {
            if i > 0 {
                assert(s[i] == s.drop_first()[i - 1]);
            }
        }
        if insert_pos(s, x) < s.len() {
            assert(s[insert_pos(s, x)] == s.drop_first()[insert_pos(s.drop_first(), x)]);
        }
    }
}

proof fn lemma_sort_days_sorted(ds: Seq<DayV>)
    ensures
        days_sorted(sort_days(ds)),
        sort_days(ds).len() == ds.len(),
    decreases ds.len(),
{
    if ds.len() > 0 {
        let s = sort_days(ds.drop_last());
        let x = ds.last();
        lemma_sort_days_sorted(ds.drop_last());
        lemma_insert_pos(s, x);
        let p = insert_pos(s, x);
        let r = s.insert(p, x);
        assert(r == sort_days(ds));
        assert forall|i: int, j: int| 0 <= i < j < r.len() implies !day_before(#[trigger] r[j], #[trigger] r[i]) by {
            if j < p {
                assert(r[i] == s[i] && r[j] == s[j]);
            } else if j == p {
                assert(r[i] == s[i] && r[j] == x);
            } else if i < p {
                assert(r[i] == s[i] && r[j] == s[j - 1]);
            } else if i == p {
                assert(r[i] == x && r[j] == s[j - 1]);
                assert(p < s.len());
                if day_before(s[j - 1], x) {
                    lemma_day_before_trans(s[j - 1], x, s[p]);
                    if j - 1 > p {
                        assert(!day_before(s[j - 1], s[p]));
                    } else {
                        lemma_day_before_irrefl(s[p]);
                    }
                }
            } else {
                assert(r[i] == s[i - 1] && r[j] == s[j - 1]);
            }
        }
    }
}

proof fn lemma_str_lt_irrefl(a: Seq<char>)
    ensures
        !str_lt(a, a),
    decreases a.len(),
{
    if a.len() > 0 {
        lemma_str_lt_irrefl(a.drop_first());
    }
}

proof fn lemma_day_before_irrefl(a: DayV)
    ensures
        !day_before(a, a),
{
    lemma_str_lt_irrefl(a.date);
    lemma_str_lt_irrefl(a.display_name);
}

/// A timesheet lists its days by date, the latest first, and the days of
/// one date by name.
pub proof fn lemma_timesheet_sorted(
    es: Seq<TimeEntryRecord>,
    ms: Seq<TeamMember>,
    from: Option<Seq<char>>,
    to: Option<Seq<char>>,
)
    ensures
        forall|i: int, j: int|
            0 <= i < j < timesheet(es, ms, from, to).len() ==> {
                let a = #[trigger] timesheet(es, ms, from, to)[i];
                let b = #[trigger] timesheet(es, ms, from, to)[j];
                &&& !str_lt(a.date, b.date)
                &&& a.date == b.date ==> !str_lt(b.display_name, a.display_name)
            },
{
    lemma_sort_days_sorted(group_days(es, ms, from, to));
}

fn str_lt_exec(a: &[char], b: &[char]) -> (r: bool)
    ensures
        r == str_lt(a@, b@),
{
    let mut k: usize = 0;
    assert(a@.subrange(0, a@.len() as int) =~= a@);
    assert(b@.subrange(0, b@.len() as int) =~= b@);
    loop
        invariant
            k <= a@.len(),
            k <= b@.len(),
            str_lt(a@, b@) == str_lt(a@.subrange(k as int, a@.len() as int), b@.subrange(k as int, b@.len() as int)),
        decreases a@.len() - k,
    {
        let ghost ra = a@.subrange(k as int, a@.len() as int);
        let ghost rb = b@.subrange(k as int, b@.len() as int);
        if k == a.len() {
            return k < b.len();
        }
        if k == b.len() {
            return false;
        }
        assert(ra[0] == a@[k as int] && rb[0] == b@[k as int]);
        if a[k] != b[k] {
            return (a[k] as u32) < (b[k] as u32);
        }
        assert(ra.drop_first() =~= a@.subrange(k + 1, a@.len() as int));
        assert(rb.drop_first() =~= b@.subrange(k + 1, b@.len() as int));
        k = k + 1;
    }
}

fn date_of_exec(ci: &str) -> (r: Vec<char>)
    ensures
        r@ == date_of(ci@),
{
    let cs = chars_of(ci);
    let t = chars_of("T");
    match find_chars(&cs, &t) {
        Some(p) => {
            proof {
                crate::text::lemma_find_some(cs@, t@, 0);
            }
            assert(p <= cs.len());
            copy_range(&cs, 0, p)
        },
        None => cs,
    }
}

fn in_range_exec(d: &[char], from: Option<&str>, to: Option<&str>) -> (r: bool)
    ensures
        r == date_in_range(d@, opt_strv(from), opt_strv(to)),
{
    let a = match from {
        Some(f) => !str_lt_exec(d, &chars_of(f)),
        None => true,
    };
    let b = match to {
        Some(t) => !str_lt_exec(&chars_of(t), d),
        None => true,
    };
    a && b
}

fn entry_secs_exec(e: &TimeEntryRecord) -> (r: i64)
    ensures
        r == entry_secs(*e),
        r >= 0,
{
    match &e.clock_out {
        Some(co) => match seconds_between(e.clock_in.as_str(), co.as_str()) {
            Some(v) => if v > 0 {
                v
            } else {
                0
            },
            None => 0,
        },
        None => 0,
    }
}

fn member_name_exec(ms: &Vec<TeamMember>, did: &[char]) -> (r: Vec<char>)
    ensures
        r@ == member_name(ms@, did@),
{
    let mut k: usize = ms.len();
    assert(ms@.take(k as int) =~= ms@);
    while k > 0
        invariant
            k <= ms@.len(),
            member_name(ms@, did@) == member_name(ms@.take(k as int), did@),
        decreases k,
    {
        let ghost t = ms@.take(k as int);
        assert(t.last() == ms@[k - 1]);
        assert(t.drop_last() =~= ms@.take(k - 1));
        if chars_eq(&chars_of(ms[k - 1].device_id.as_str()), did) {
            return chars_of(ms[k - 1].display_name.as_str());
        }
        k = k - 1;
    }
    copy_range(did, 0, did.len())
}

fn group_of_exec(g: &Vec<TimesheetDay>, did: &[char], date: &[char]) -> (r: Option<usize>)
    ensures
        match r {
            Some(i) => i < g@.len() && group_of(days_view(g@), did@, date@) == Some(i as int),
            None => group_of(days_view(g@), did@, date@) is None,
        },
{
    let ghost gv = days_view(g@);
    let mut k: usize = g.len();
    assert(gv.take(k as int) =~= gv);
    while k > 0
        invariant
            k <= g@.len(),
            gv == days_view(g@),
            group_of(gv, did@, date@) == group_of(gv.take(k as int), did@, date@),
        decreases k,
    {
        let ghost t = gv.take(k as int);
        assert(t.last() == gv[k - 1]);
        assert(t.drop_last() =~= gv.take(k - 1));
        if chars_eq(&chars_of(g[k - 1].device_id.as_str()), did) && chars_eq(
            &chars_of(g[k - 1].date.as_str()),
            date,
        ) {
            assert(t.len() - 1 == k - 1);
            return Some(k - 1);
        }
        k = k - 1;
    }
    None
}

/// Every day's seconds worked and on break fit in 64 bits.
pub open spec fn totals_fit(g: Seq<DayV>) -> bool {
    forall|i: int| 0 <= i < g.len() ==> 0 <= #[trigger] g[i].work <= i64::MAX && 0 <= g[i].brk <= i64::MAX
}

/// Some day's seconds worked or on break pass the largest 64-bit integer.
pub open spec fn totals_overflow(g: Seq<DayV>) -> bool {
    exists|i: int| 0 <= i < g.len() && (#[trigger] g[i].work > i64::MAX || g[i].brk > i64::MAX)
}

proof fn lemma_group_of(g: Seq<DayV>, did: Seq<char>, date: Seq<char>)
    ensures
        group_of(g, did, date) matches Some(i) ==> 0 <= i < g.len() && g[i].device_id == did && g[i].date == date,
    decreases g.len(),
{
    if g.len() > 0 {
        lemma_group_of(g.drop_last(), did, date);
    }
}

/// The date lies within the bounds that are given, both ends included.
pub open spec fn between_dates(d: Seq<char>, from: Option<Seq<char>>, to: Option<Seq<char>>) -> bool {
    (from matches Some(f) ==> !str_lt(d, f)) && (to matches Some(t) ==> !str_lt(t, d))
}

proof fn lemma_group_days_dates(es: Seq<TimeEntryRecord>, ms: Seq<TeamMember>, from: Option<Seq<char>>, to: Option<Seq<char>>)
    ensures
        forall|i: int|
            0 <= i < group_days(es, ms, from, to).len() ==> between_dates(
                (#[trigger] group_days(es, ms, from, to)[i]).date,
                from,
                to,
            ),
        forall|k: int|
            0 <= k < es.len() && between_dates(date_of((#[trigger] es[k]).clock_in@), from, to) ==> exists|i: int|
                0 <= i < group_days(es, ms, from, to).len() && (#[trigger] group_days(es, ms, from, to)[i]).date
                    == date_of(es[k].clock_in@) && group_days(es, ms, from, to)[i].device_id == es[k].device_id@
                    && group_days(es, ms, from, to)[i].entries.contains(es[k]),
    decreases es.len(),
{
    if es.len() > 0 {
        let es0 = es.drop_last();
        let e = es.last();
        let g = group_days(es0, ms, from, to);
        lemma_group_days_dates(es0, ms, from, to);
        let g2 = group_days(es, ms, from, to);
        let did = e.device_id@;
        let date = date_of(e.clock_in@);
        lemma_group_of(g, did, date);
        if date_in_range(date, from, to) {
            assert(g2 == add_to_days(g, e, ms));
            assert forall|i: int| 0 <= i < g2.len() implies between_dates((#[trigger] g2[i]).date, from, to) by {
                if i < g.len() {
                    assert(g2[i].date == g[i].date);
                }
            }
            assert forall|k: int|
                0 <= k < es.len() && between_dates(date_of((#[trigger] es[k]).clock_in@), from, to) implies exists|i: int|
                0 <= i < g2.len() && (#[trigger] g2[i]).date == date_of(es[k].clock_in@) && g2[i].device_id
                    == es[k].device_id@ && g2[i].entries.contains(es[k]) by {
                if k < es0.len() {
                    assert(es[k] == es0[k]);
                    let i = choose|i: int|
                        0 <= i < g.len() && (#[trigger] g[i]).date == date_of(es0[k].clock_in@) && g[i].device_id
                            == es0[k].device_id@ && g[i].entries.contains(es0[k]);
                    let m = choose|m: int| 0 <= m < g[i].entries.len() && g[i].entries[m] == es0[k];
                    assert(g2[i].date == g[i].date && g2[i].device_id == g[i].device_id);
                    assert(g2[i].entries[m] == es[k]);
                } else {
                    assert(es[k] == e);
                    match group_of(g, did, date) {
                        Some(i) => {
                            assert(g2[i].entries[g[i].entries.len() as int] == e);
                        },
                        None => {
                            assert(g2[g.len() as int].entries[0] == e);
                        },
                    }
                }
            }
        } else {
            assert forall|k: int|
                0 <= k < es.len() && between_dates(date_of((#[trigger] es[k]).clock_in@), from, to) implies exists|i: int|
                0 <= i < g2.len() && (#[trigger] g2[i]).date == date_of(es[k].clock_in@) && g2[i].device_id
                    == es[k].device_id@ && g2[i].entries.contains(es[k]) by {
                assert(k < es0.len());
                assert(es[k] == es0[k]);
            }
        }
    }
}

proof fn lemma_sort_days_members(ds: Seq<DayV>)
    ensures
        forall|x: DayV| sort_days(ds).contains(x) <==> ds.contains(x),
    decreases ds.len(),
{
    if ds.len() > 0 {
        let d0 = ds.drop_last();
        let s = sort_days(d0);
        let x = ds.last();
        lemma_sort_days_members(d0);
        lemma_insert_pos(s, x);
        let p = insert_pos(s, x);
        let r = s.insert(p, x);
        assert(r == sort_days(ds));
        assert forall|y: DayV| r.contains(y) <==> ds.contains(y) by {
            if r.contains(y) {
                let m = choose|m: int| 0 <= m < r.len() && r[m] == y;
                if m < p {
                    assert(s[m] == y);
                    assert(s.contains(y));
                } else if m == p {
                    assert(ds[ds.len() - 1] == y);
                } else {
                    assert(s[m - 1] == y);
                    assert(s.contains(y));
                }
                if s.contains(y) {
                    assert(d0.contains(y));
                    let q = choose|q: int| 0 <= q < d0.len() && d0[q] == y;
                    assert(d0[q] == ds[q]);
                    assert(ds[q] == y);
                }
            }
            if ds.contains(y) {
                let q = choose|q: int| 0 <= q < ds.len() && ds[q] == y;
                if q == ds.len() - 1 {
                    assert(r[p] == y);
                } else {
                    assert(d0[q] == ds[q]);
                    assert(d0[q] == y);
                    assert(d0.contains(y));
                    assert(s.contains(y));
                    let m = choose|m: int| 0 <= m < s.len() && s[m] == y;
                    if m < p {
                        assert(r[m] == y);
                    } else {
                        assert(r[m + 1] == y);
                    }
                }
            }
        }
    }
}

/// The seconds worked in `es`: those of its entries that are not breaks.
pub open spec fn worked_secs(es: Seq<TimeEntryRecord>) -> int
    decreases es.len(),
{
    if es.len() == 0 {
        0
    } else {
        worked_secs(es.drop_last()) + if es.last().is_break != 0 {
            0
        } else {
            entry_secs(es.last())
        }
    }
}

/// The seconds on break in `es`: those of its entries that are breaks.
pub open spec fn break_secs(es: Seq<TimeEntryRecord>) -> int
    decreases es.len(),
{
    if es.len() == 0 {
        0
    } else {
        break_secs(es.drop_last()) + if es.last().is_break != 0 {
            entry_secs(es.last())
        } else {
            0
        }
    }
}

/// A day holds only entries of its device and date, its totals are the
/// seconds of its work and of its break entries, and it carries the name
/// its device goes by.
pub open spec fn day_adds_up(d: DayV, ms: Seq<TeamMember>) -> bool {
    &&& d.work == worked_secs(d.entries)
    &&& d.brk == break_secs(d.entries)
    &&& d.display_name == member_name(ms, d.device_id)
    &&& forall|m: int|
        0 <= m < d.entries.len() ==> (#[trigger] d.entries[m]).device_id@ == d.device_id && date_of(
            d.entries[m].clock_in@,
        ) == d.date
}

proof fn lemma_push_adds_up(d: DayV, ms: Seq<TeamMember>, e: TimeEntryRecord)
    requires
        day_adds_up(d, ms),
        e.device_id@ == d.device_id,
        date_of(e.clock_in@) == d.date,
    ensures
        ({
            let w = if e.is_break != 0 {
                0
            } else {
                entry_secs(e)
            };
            let b = if e.is_break != 0 {
                entry_secs(e)
            } else {
                0
            };
            day_adds_up(DayV { entries: d.entries.push(e), work: d.work + w, brk: d.brk + b, ..d }, ms)
        }),
{
    assert(d.entries.push(e).drop_last() =~= d.entries);
    let n = d.entries.push(e);
    assert forall|m: int| 0 <= m < n.len() implies (#[trigger] n[m]).device_id@ == d.device_id && date_of(
        n[m].clock_in@,
    ) == d.date by {
        if m < d.entries.len() {
            assert(n[m] == d.entries[m]);
        }
    }
}

proof fn lemma_group_days_add_up(es: Seq<TimeEntryRecord>, ms: Seq<TeamMember>, from: Option<Seq<char>>, to: Option<Seq<char>>)
    ensures
        forall|i: int| 0 <= i < group_days(es, ms, from, to).len() ==> day_adds_up(#[trigger] group_days(es, ms, from, to)[i], ms),
    decreases es.len(),
{
    if es.len() > 0 {
        let es0 = es.drop_last();
        let e = es.last();
        let g = group_days(es0, ms, from, to);
        lemma_group_days_add_up(es0, ms, from, to);
        let g2 = group_days(es, ms, from, to);
        let did = e.device_id@;
        let date = date_of(e.clock_in@);
        lemma_group_of(g, did, date);
        if date_in_range(date, from, to) {
            assert(g2 == add_to_days(g, e, ms));
            match group_of(g, did, date) {
                Some(i) => {
                    lemma_push_adds_up(g[i], ms, e);
                    assert forall|j: int| 0 <= j < g2.len() implies day_adds_up(#[trigger] g2[j], ms) by {
                        if j != i {
                            assert(g2[j] == g[j]);
                        }
                    }
                },
                None => {
                    let nd = DayV {
                        date,
                        device_id: did,
                        display_name: member_name(ms, did),
                        entries: seq![e],
                        work: if e.is_break != 0 {
                            0
                        } else {
                            entry_secs(e)
                        },
                        brk: if e.is_break != 0 {
                            entry_secs(e)
                        } else {
                            0
                        },
                    };
                    assert(seq![e].drop_last() =~= Seq::<TimeEntryRecord>::empty());
                    assert(seq![e].last() == e);
                    assert(worked_secs(Seq::<TimeEntryRecord>::empty()) == 0);
                    assert(break_secs(Seq::<TimeEntryRecord>::empty()) == 0);
                    assert(worked_secs(seq![e]) == nd.work);
                    assert(break_secs(seq![e]) == nd.brk);
                    assert(day_adds_up(nd, ms));
                    assert forall|j: int| 0 <= j < g2.len() implies day_adds_up(#[trigger] g2[j], ms) by {
                        if j < g.len() {
                            assert(g2[j] == g[j]);
                        } else {
                            assert(g2[j] == nd);
                        }
                    }
                },
            }
        }
    }
}

/// The totals of a timesheet add up: every listed day holds only entries
/// of its device and date, its work total is the sum of the seconds of its
/// entries that are not breaks, its break total the sum of those that are,
/// and it carries the name its device goes by.
pub proof fn lemma_timesheet_totals(es: Seq<TimeEntryRecord>, ms: Seq<TeamMember>, from: Option<Seq<char>>, to: Option<Seq<char>>)
    ensures
        forall|i: int|
            0 <= i < timesheet(es, ms, from, to).len() ==> day_adds_up(#[trigger] timesheet(es, ms, from, to)[i], ms),
{
    let g = group_days(es, ms, from, to);
    let t = timesheet(es, ms, from, to);
    lemma_group_days_add_up(es, ms, from, to);
    lemma_sort_days_members(g);
    assert(t == sort_days(g));
    assert forall|i: int| 0 <= i < t.len() implies day_adds_up(#[trigger] t[i], ms) by {
        assert(t.contains(t[i]));
        assert(g.contains(t[i]));
        let q = choose|q: int| 0 <= q < g.len() && g[q] == t[i];
        assert(day_adds_up(g[q], ms));
    }
}

/// Dates outside the bounds are left out of a timesheet and none inside is
/// lost: every listed day's date lies between `from` and `to` (in string
/// order, both ends included, where given), and every entry whose date lies
/// between them is in the listed day of its device and date.
pub proof fn lemma_timesheet_dates(es: Seq<TimeEntryRecord>, ms: Seq<TeamMember>, from: Option<Seq<char>>, to: Option<Seq<char>>)
    ensures
        forall|i: int|
            0 <= i < timesheet(es, ms, from, to).len() ==> ({
                let d = (#[trigger] timesheet(es, ms, from, to)[i]).date;
                &&& from matches Some(f) ==> !str_lt(d, f)
                &&& to matches Some(t) ==> !str_lt(t, d)
            }),
        forall|k: int|
            0 <= k < es.len() && ({
                let d = date_of((#[trigger] es[k]).clock_in@);
                &&& from matches Some(f) ==> !str_lt(d, f)
                &&& to matches Some(t) ==> !str_lt(t, d)
            }) ==> exists|i: int|
                0 <= i < timesheet(es, ms, from, to).len() && (#[trigger] timesheet(es, ms, from, to)[i]).date
                    == date_of(es[k].clock_in@) && timesheet(es, ms, from, to)[i].device_id == es[k].device_id@
                    && timesheet(es, ms, from, to)[i].entries.contains(es[k]),
{
    let g = group_days(es, ms, from, to);
    let t = timesheet(es, ms, from, to);
    lemma_group_days_dates(es, ms, from, to);
    lemma_sort_days_members(g);
    assert(t == sort_days(g));
    assert forall|i: int| 0 <= i < t.len() implies between_dates((#[trigger] t[i]).date, from, to) by {
        assert(t.contains(t[i]));
        assert(g.contains(t[i]));
        let q = choose|q: int| 0 <= q < g.len() && g[q] == t[i];
        assert(between_dates(g[q].date, from, to));
    }
    assert forall|k: int| 0 <= k < es.len() && between_dates(date_of((#[trigger] es[k]).clock_in@), from, to) implies exists|i: int|
        0 <= i < t.len() && (#[trigger] t[i]).date == date_of(es[k].clock_in@) && t[i].device_id == es[k].device_id@
            && t[i].entries.contains(es[k]) by {
        let q = choose|q: int|
            0 <= q < g.len() && (#[trigger] g[q]).date == date_of(es[k].clock_in@) && g[q].device_id == es[k].device_id@
                && g[q].entries.contains(es[k]);
        assert(g.contains(g[q]));
        assert(t.contains(g[q]));
        let i = choose|i: int| 0 <= i < t.len() && t[i] == g[q];
        assert(t[i].date == date_of(es[k].clock_in@));
    }
}

proof fn lemma_add_keeps_overflow(g: Seq<DayV>, e: TimeEntryRecord, ms: Seq<TeamMember>)
    requires
        totals_overflow(g),
    ensures
        totals_overflow(add_to_days(g, e, ms)),
{
    let j = choose|j: int| 0 <= j < g.len() && (#[trigger] g[j].work > i64::MAX || g[j].brk > i64::MAX);
    let r = add_to_days(g, e, ms);
    lemma_group_of(g, e.device_id@, date_of(e.clock_in@));
    assert(entry_secs(e) >= 0);
    assert(r[j].work >= g[j].work && r[j].brk >= g[j].brk);
    assert(r[j].work > i64::MAX || r[j].brk > i64::MAX);
}

/// Once some day's totals overflow, they stay so as entries are added.
proof fn lemma_overflow_persists(
    es: Seq<TimeEntryRecord>,
    ms: Seq<TeamMember>,
    from: Option<Seq<char>>,
    to: Option<Seq<char>>,
    k: int,
)
    requires
        0 <= k <= es.len(),
        totals_overflow(group_days(es.take(k), ms, from, to)),
    ensures
        totals_overflow(group_days(es, ms, from, to)),
    decreases es.len() - k,
{
    if k == es.len() {
        assert(es.take(k) =~= es);
    } else {
        let t = es.take(k + 1);
        assert(t.drop_last() =~= es.take(k));
        if date_in_range(date_of(t.last().clock_in@), from, to) {
            lemma_add_keeps_overflow(group_days(es.take(k), ms, from, to), t.last(), ms);
        }
        lemma_overflow_persists(es, ms, from, to, k + 1);
    }
}

/// Adds an entry to the days it belongs to; `false` (leaving the days
/// as they were) where a total would pass the largest 64-bit integer.
fn add_entry_exec(g: &mut Vec<TimesheetDay>, e: TimeEntryRecord, ms: &Vec<TeamMember>) -> (ok: bool)
    requires
        totals_fit(days_view(old(g)@)),
        forall|i: int| 0 <= i < old(g)@.len() ==> !(#[trigger] old(g)@[i]).has_gps,
    ensures
        ok ==> days_view(final(g)@) == add_to_days(days_view(old(g)@), e, ms@),
        ok ==> totals_fit(days_view(final(g)@)),
        !ok ==> totals_overflow(add_to_days(days_view(old(g)@), e, ms@)),
        forall|i: int| 0 <= i < final(g)@.len() ==> !(#[trigger] final(g)@[i]).has_gps,
{
    let ghost gv = days_view(g@);
    let date = date_of_exec(e.clock_in.as_str());
    let did = chars_of(e.device_id.as_str());
    let secs = entry_secs_exec(&e);
    let w: i64 = if e.is_break != 0 {
        0
    } else {
        secs
    };
    let b: i64 = if e.is_break != 0 {
        secs
    } else {
        0
    };
    match group_of_exec(g, &did, &date) {
        Some(i) => {
            assert(day_view(g@[i as int]) == gv[i as int]);
            assert(did@ == e.device_id@ && date@ == date_of(e.clock_in@));
            assert(add_to_days(gv, e, ms@)[i as int].work == gv[i as int].work + w);
            assert(add_to_days(gv, e, ms@)[i as int].brk == gv[i as int].brk + b);
            let work = match g[i].total_work_seconds.checked_add(w) {
                Some(v) => v,
                None => {
                    assert(add_to_days(gv, e, ms@)[i as int].work > i64::MAX);
                    return false;
                },
            };
            let brk = match g[i].total_break_seconds.checked_add(b) {
                Some(v) => v,
                None => {
                    assert(add_to_days(gv, e, ms@)[i as int].brk > i64::MAX);
                    return false;
                },
            };
            let mut day = g.remove(i);
            assert(day_view(day) == gv[i as int]);
            day.entries.push(e);
            day.total_work_seconds = work;
            day.total_break_seconds = brk;
            g.insert(i, day);
            assert(days_view(g@) =~= gv.update(
                i as int,
                DayV {
                    entries: gv[i as int].entries.push(e),
                    work: gv[i as int].work + w,
                    brk: gv[i as int].brk + b,
                    ..gv[i as int]
                },
            ));
            true
        },
        None => {
            let name = member_name_exec(ms, &did);
            let mut es: Vec<TimeEntryRecord> = Vec::new();
            es.push(e);
            let day = TimesheetDay {
                date: string_of(&date),
                device_id: string_of(&did),
                display_name: string_of(&name),
                entries: es,
                total_work_seconds: w,
                total_break_seconds: b,
                has_gps: false,
            };
            g.push(day);
            assert(days_view(g@) =~= gv.push(
                DayV {
                    date: date@,
                    device_id: did@,
                    display_name: member_name(ms@, did@),
                    entries: seq![e],
                    work: w as int,
                    brk: b as int,
                },
            ));
            true
        },
    }
}

fn insert_pos_exec(s: &Vec<TimesheetDay>, x: &TimesheetDay) -> (r: usize)
    ensures
        r == insert_pos(days_view(s@), day_view(*x)),
        r <= s@.len(),
{
    let ghost sv = days_view(s@);
    let xd = chars_of(x.date.as_str());
    let xn = chars_of(x.display_name.as_str());
    let mut k: usize = 0;
    assert(sv.subrange(0, sv.len() as int) =~= sv);
    while k < s.len()
        invariant
            k <= s@.len(),
            sv == days_view(s@),
            xd@ == x.date@,
            xn@ == x.display_name@,
            insert_pos(sv, day_view(*x)) == k + insert_pos(sv.subrange(k as int, sv.len() as int), day_view(*x)),
        decreases s@.len() - k,
    {
        let ghost rest = sv.subrange(k as int, sv.len() as int);
        assert(rest[0] == sv[k as int]);
        assert(rest.drop_first() =~= sv.subrange(k + 1, sv.len() as int));
        let sd = chars_of(s[k].date.as_str());
        let sn = chars_of(s[k].display_name.as_str());
        let before = str_lt_exec(&sd, &xd) || (chars_eq(&xd, &sd) && str_lt_exec(&xn, &sn));
        if before {
            return k;
        }
        k = k + 1;
    }
    assert(sv.subrange(k as int, sv.len() as int) =~= Seq::<DayV>::empty());
    k
}

/// Groups time entries into timesheet days: one per device and date
/// (the text of the clock-in before `T`), within the date bounds that are
/// given; with the name the device goes by and the seconds worked and on
/// break; latest date first, then by name.  Whether a day has GPS pings is
/// left `false` for the caller to fill in.
pub fn timesheet_days(
    entries: Vec<TimeEntryRecord>,
    members: &Vec<TeamMember>,
    date_from: Option<&str>,
    date_to: Option<&str>,
) -> (r: Option<Vec<TimesheetDay>>)
    ensures
        r is None <==> totals_overflow(group_days(entries@, members@, opt_strv(date_from), opt_strv(date_to))),
        r matches Some(v) ==> days_view(v@) == timesheet(entries@, members@, opt_strv(date_from), opt_strv(date_to)),
        r matches Some(v) ==> forall|i: int| 0 <= i < v@.len() ==> !(#[trigger] v@[i]).has_gps,
{
    let ghost es = entries@;
    let ghost from = opt_strv(date_from);
    let ghost to = opt_strv(date_to);
    let n = entries.len();
    let mut rest = entries;
    let mut groups: Vec<TimesheetDay> = Vec::new();
    let mut k: usize = 0;
    assert(es.take(0) =~= Seq::<TimeEntryRecord>::empty());
    assert(days_view(groups@) =~= Seq::<DayV>::empty());
    while rest.len() > 0
        invariant
            k <= es.len(),
            es.len() == n,
            es == entries@,
            from == opt_strv(date_from),
            to == opt_strv(date_to),
            rest@ == es.subrange(k as int, es.len() as int),
            days_view(groups@) == group_days(es.take(k as int), members@, from, to),
            totals_fit(days_view(groups@)),
            forall|i: int| 0 <= i < groups@.len() ==> !(#[trigger] groups@[i]).has_gps,
        decreases rest@.len(),
    {
        let e = rest.remove(0);
        let ghost eg = e;
        assert(e == es[k as int]);
        assert(es.take(k + 1).drop_last() =~= es.take(k as int));
        assert(es.take(k + 1).last() == e);
        assert(group_days(es.take(k + 1), members@, from, to) == (if date_in_range(
            date_of(eg.clock_in@),
            from,
            to,
        ) {
            add_to_days(group_days(es.take(k as int), members@, from, to), eg, members@)
        } else {
            group_days(es.take(k as int), members@, from, to)
        }));
        let d = date_of_exec(e.clock_in.as_str());
        let ghost g0 = days_view(groups@);
        assert(g0 == group_days(es.take(k as int), members@, from, to));
        assert(d@ == date_of(eg.clock_in@));
        if in_range_exec(&d, date_from, date_to) {
            assert(date_in_range(date_of(eg.clock_in@), from, to));
            if !add_entry_exec(&mut groups, e, members) {
                proof {
                    assert(totals_overflow(add_to_days(g0, eg, members@)));
                    assert(totals_overflow(group_days(es.take(k + 1), members@, from, to)));
                    lemma_overflow_persists(es, members@, from, to, k + 1);
                    assert(totals_overflow(group_days(es, members@, from, to)));
                }
                return None;
            }
            assert(days_view(groups@) == add_to_days(g0, eg, members@));
            assert(days_view(groups@) == group_days(es.take(k + 1), members@, from, to));
        }
        k = k + 1;
        assert(rest@ =~= es.subrange(k as int, es.len() as int));
    }
    assert(es.take(k as int) =~= es);
    let ghost gv = days_view(groups@);
    assert(!totals_overflow(gv));
    assert(gv.len() == groups.len());
    let mut sorted: Vec<TimesheetDay> = Vec::new();
    let mut j: usize = 0;
    assert(gv.take(0) =~= Seq::<DayV>::empty());
    assert(days_view(sorted@) =~= Seq::<DayV>::empty());
    while groups.len() > 0
        invariant
            j <= gv.len(),
            gv.len() <= usize::MAX,
            j + groups@.len() == gv.len(),
            days_view(groups@) == gv.subrange(j as int, gv.len() as int),
            days_view(sorted@) == sort_days(gv.take(j as int)),
            forall|i: int| 0 <= i < groups@.len() ==> !(#[trigger] groups@[i]).has_gps,
            forall|i: int| 0 <= i < sorted@.len() ==> !(#[trigger] sorted@[i]).has_gps,
        decreases groups@.len(),
    {
        let ghost before = groups@;
        let d = groups.remove(0);
        assert(days_view(before) == gv.subrange(j as int, gv.len() as int));
        assert(before.len() > 0);
        assert(days_view(before).len() == before.len());
        assert(day_view(d) == gv[j as int]) by {
            assert(d == before[0]);
            assert(days_view(before)[0] == day_view(before[0]));
            assert(days_view(before)[0] == gv.subrange(j as int, gv.len() as int)[0]);
        }
        assert(days_view(groups@) =~= gv.subrange(j + 1, gv.len() as int)) by {
            assert(groups@ =~= before.remove(0));
            assert forall|i: int| 0 <= i < groups@.len() implies days_view(groups@)[i] == gv.subrange(
                j + 1,
                gv.len() as int,
            )[i] by {
                assert(groups@[i] == before[i + 1]);
                assert(days_view(before)[i + 1] == day_view(before[i + 1]));
                assert(days_view(before)[i + 1] == gv.subrange(j as int, gv.len() as int)[i + 1]);
            }
        }
        assert(gv.take(j + 1).drop_last() =~= gv.take(j as int));
        assert(gv.take(j + 1).last() == gv[j as int]);
        let p = insert_pos_exec(&sorted, &d);
        let ghost sv = days_view(sorted@);
        sorted.insert(p, d);
        assert(days_view(sorted@) =~= sv.insert(p as int, day_view(d)));
        j = j + 1;
    }
    assert(gv.take(j as int) =~= gv);
    Some(sorted)
}

} // verus!
