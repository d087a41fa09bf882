//! Settings the server keeps: the security settings stored as key/value
//! rows, the automatic-break and time-rounding configurations, and the
//! room completion items.

use vstd::prelude::*;
use crate::api::{AutoBreakConfig, TimeRoundingConfig};
use crate::config::strings_view;
use crate::models::SecuritySettings;
use crate::text::{
    chars_eq, chars_of, i64_chars, int_str, lemma_parse_int_str, lemma_trim_idempotent, nat_str,
    parse_int, parse_int_chars, string_of, trim, trim_chars, u64_chars,
};

verus! {

// ------------------------------------------------------------------
// Security settings
// ------------------------------------------------------------------

/// The security settings where none are stored.
pub open spec fn default_security() -> SecuritySettings {
    SecuritySettings {
        max_registration_attempts_per_device: 5,
        max_registration_attempts_per_ip: 10,
        rate_limit_window_minutes: 15,
        block_duration_minutes: 60,
        token_expiry_hours: 24,
        require_registration_code: true,
    }
}

pub open spec fn u32_or(v: Seq<char>, d: int) -> u32 {
    match parse_int(v, 0, 0xFFFF_FFFF) {
        Some(x) => x as u32,
        None => d as u32,
    }
}

pub open spec fn i64_or(v: Seq<char>, d: int) -> i64 {
    match parse_int(v, -0x8000_0000_0000_0000, 0x7FFF_FFFF_FFFF_FFFF) {
        Some(x) => x as i64,
        None => d as i64,
    }
}

pub open spec fn key_require() -> Seq<char> {
    "security.require_registration_codes"@
}

pub open spec fn key_per_device() -> Seq<char> {
    "security.max_registration_attempts_per_device"@
}

pub open spec fn key_per_ip() -> Seq<char> {
    "security.max_registration_attempts_per_ip"@
}

pub open spec fn key_window() -> Seq<char> {
    "security.rate_limit_window_minutes"@
}

pub open spec fn key_block() -> Seq<char> {
    "security.block_duration_minutes"@
}

pub open spec fn key_token() -> Seq<char> {
    "security.token_expiry_hours"@
}

/// The settings after one stored row; a number that does not parse gives
/// that setting's default, and an unknown key changes nothing.
pub open spec fn apply_row(s: SecuritySettings, key: Seq<char>, value: Seq<char>) -> SecuritySettings {
    if key == key_require() {
        SecuritySettings { require_registration_code: value == "true"@, ..s }
    } else if key == key_per_device() {
        SecuritySettings { max_registration_attempts_per_device: u32_or(value, 5), ..s }
    } else if key == key_per_ip() {
        SecuritySettings { max_registration_attempts_per_ip: u32_or(value, 10), ..s }
    } else if key == key_window() {
        SecuritySettings { rate_limit_window_minutes: u32_or(value, 15), ..s }
    } else if key == key_block() {
        SecuritySettings { block_duration_minutes: i64_or(value, 60), ..s }
    } else if key == key_token() {
        SecuritySettings { token_expiry_hours: u32_or(value, 24), ..s }
    } else {
        s
    }
}

/// The settings that the stored rows give, read in order.
pub open spec fn settings_from_rows(rows: Seq<(Seq<char>, Seq<char>)>) -> SecuritySettings
    decreases rows.len(),
{
    if rows.len() == 0 {
        default_security()
    } else {
        apply_row(settings_from_rows(rows.drop_last()), rows.last().0, rows.last().1)
    }
}

pub open spec fn bool_str(b: bool) -> Seq<char> {
    if b {
        "true"@
    } else {
        "false"@
    }
}

/// The rows that store the settings `s`.
pub open spec fn settings_rows(s: SecuritySettings) -> Seq<(Seq<char>, Seq<char>)> {
    seq![
        (key_require(), bool_str(s.require_registration_code)),
        (key_per_device(), nat_str(s.max_registration_attempts_per_device as nat)),
        (key_per_ip(), nat_str(s.max_registration_attempts_per_ip as nat)),
        (key_window(), nat_str(s.rate_limit_window_minutes as nat)),
        (key_block(), int_str(s.block_duration_minutes as int)),
        (key_token(), nat_str(s.token_expiry_hours as nat)),
    ]
}

pub open spec fn rows_view(v: Seq<(String, String)>) -> Seq<(Seq<char>, Seq<char>)> {
    v.map_values(|r: (String, String)| (r.0@, r.1@))
}

/// The security settings where none are stored.
pub fn default_security_settings() -> (r: SecuritySettings)
    ensures
        r == default_security(),
{
    SecuritySettings {
        max_registration_attempts_per_device: 5,
        max_registration_attempts_per_ip: 10,
        rate_limit_window_minutes: 15,
        block_duration_minutes: 60,
        token_expiry_hours: 24,
        require_registration_code: true,
    }
}

fn u32_or_exec(v: &[char], d: u32) -> (r: u32)
    ensures
        r == u32_or(v@, d as int),
{
    match parse_int_chars(v, 0, 0xFFFF_FFFF) {
        Some(x) => x as u32,
        None => d,
    }
}

fn i64_or_exec(v: &[char], d: i64) -> (r: i64)
    ensures
        r == i64_or(v@, d as int),
{
    match parse_int_chars(v, -0x8000_0000_0000_0000, 0x7FFF_FFFF_FFFF_FFFF) {
        Some(x) => x,
        None => d,
    }
}

/// Reads the security settings from the stored `security.*` rows.
pub fn security_settings_from_rows(rows: &Vec<(String, String)>) -> (r: SecuritySettings)
    ensures
        r == settings_from_rows(rows_view(rows@)),
{
    let ghost rv = rows_view(rows@);
    let k1 = chars_of("security.require_registration_codes");
    let k2 = chars_of("security.max_registration_attempts_per_device");
    let k3 = chars_of("security.max_registration_attempts_per_ip");
    let k4 = chars_of("security.rate_limit_window_minutes");
    let k5 = chars_of("security.block_duration_minutes");
    let k6 = chars_of("security.token_expiry_hours");
    let t = chars_of("true");
    let mut s = default_security_settings();
    let mut i: usize = 0;
    assert(rv.take(0) =~= Seq::<(Seq<char>, Seq<char>)>::empty());
    while i < rows.len()
        invariant
            i <= rows@.len(),
            rv == rows_view(rows@),
            k1@ == key_require(),
            k2@ == key_per_device(),
            k3@ == key_per_ip(),
            k4@ == key_window(),
            k5@ == key_block(),
            k6@ == key_token(),
            t@ == "true"@,
            s == settings_from_rows(rv.take(i as int)),
        decreases rows@.len() - i,
    {
        assert(rv.take(i + 1).drop_last() =~= rv.take(i as int));
        assert(rv.take(i + 1).last() == rv[i as int]);
        assert(rv[i as int] == (rows@[i as int].0@, rows@[i as int].1@));
        let key = chars_of(rows[i].0.as_str());
        let value = chars_of(rows[i].1.as_str());
        if chars_eq(&key, &k1) {
            s.require_registration_code = chars_eq(&value, &t);
        } else if chars_eq(&key, &k2) {
            s.max_registration_attempts_per_device = u32_or_exec(&value, 5);
        } else if chars_eq(&key, &k3) {
            s.max_registration_attempts_per_ip = u32_or_exec(&value, 10);
        } else if chars_eq(&key, &k4) {
            s.rate_limit_window_minutes = u32_or_exec(&value, 15);
        } else if chars_eq(&key, &k5) {
            s.block_duration_minutes = i64_or_exec(&value, 60);
        } else if chars_eq(&key, &k6) {
            s.token_expiry_hours = u32_or_exec(&value, 24);
        }
        i = i + 1;
    }
    assert(rv.take(i as int) =~= rv);
    s
}

fn row(key: &str, value: Vec<char>) -> (r: (String, String))
    ensures
        r.0@ == key@,
        r.1@ == value@,
{
    (string_of(&chars_of(key)), string_of(&value))
}

/// The rows that store the security settings `s`: each setting under its
/// `security.*` key, in decimal (or `true` / `false`).
pub fn security_settings_rows(s: &SecuritySettings) -> (r: Vec<(String, String)>)
    ensures
        rows_view(r@) == settings_rows(*s),
{
    let b = if s.require_registration_code {
        chars_of("true")
    } else {
        chars_of("false")
    };
    let mut r: Vec<(String, String)> = Vec::new();
    r.push(row("security.require_registration_codes", b));
    r.push(row("security.max_registration_attempts_per_device", u64_chars(s.max_registration_attempts_per_device as u64)));
    r.push(row("security.max_registration_attempts_per_ip", u64_chars(s.max_registration_attempts_per_ip as u64)));
    r.push(row("security.rate_limit_window_minutes", u64_chars(s.rate_limit_window_minutes as u64)));
    r.push(row("security.block_duration_minutes", i64_chars(s.block_duration_minutes)));
    r.push(row("security.token_expiry_hours", u64_chars(s.token_expiry_hours as u64)));
    assert(rows_view(r@) =~= settings_rows(*s));
    r
}

proof fn lemma_keys_distinct()
    ensures
        key_require() != key_per_device(),
        key_require() != key_per_ip(),
        key_require() != key_window(),
        key_require() != key_block(),
        key_require() != key_token(),
        key_per_device() != key_per_ip(),
        key_per_device() != key_window(),
        key_per_device() != key_block(),
        key_per_device() != key_token(),
        key_per_ip() != key_window(),
        key_per_ip() != key_block(),
        key_per_ip() != key_token(),
        key_window() != key_block(),
        key_window() != key_token(),
        key_block() != key_token(),
        "true"@ != "false"@,
{
    reveal_strlit("security.require_registration_codes");
    reveal_strlit("security.max_registration_attempts_per_device");
    reveal_strlit("security.max_registration_attempts_per_ip");
    reveal_strlit("security.rate_limit_window_minutes");
    reveal_strlit("security.block_duration_minutes");
    reveal_strlit("security.token_expiry_hours");
    reveal_strlit("true");
    reveal_strlit("false");
    assert(key_require().len() != key_per_device().len());
    assert(key_require().len() != key_per_ip().len());
    assert(key_require().len() != key_window().len());
    assert(key_require().len() != key_block().len());
    assert(key_require().len() != key_token().len());
    assert(key_per_device().len() != key_per_ip().len());
    assert(key_per_device().len() != key_window().len());
    assert(key_per_device().len() != key_block().len());
    assert(key_per_device().len() != key_token().len());
    assert(key_per_ip().len() != key_window().len());
    assert(key_per_ip().len() != key_block().len());
    assert(key_per_ip().len() != key_token().len());
    assert(key_window().len() != key_block().len());
    assert(key_window().len() != key_token().len());
    assert(key_block().len() != key_token().len());
    assert("true"@.len() != "false"@.len());
}

/// Storing security settings and reading them back gives the same settings.
pub proof fn lemma_security_settings_roundtrip(s: SecuritySettings)
    ensures
        settings_from_rows(settings_rows(s)) == s,
{
    lemma_keys_distinct();
    let rows = settings_rows(s);
    lemma_parse_int_str(s.max_registration_attempts_per_device as int, 0, 0xFFFF_FFFF);
    lemma_parse_int_str(s.max_registration_attempts_per_ip as int, 0, 0xFFFF_FFFF);
    lemma_parse_int_str(s.rate_limit_window_minutes as int, 0, 0xFFFF_FFFF);
    lemma_parse_int_str(
        s.block_duration_minutes as int,
        -0x8000_0000_0000_0000,
        0x7FFF_FFFF_FFFF_FFFF,
    );
    lemma_parse_int_str(s.token_expiry_hours as int, 0, 0xFFFF_FFFF);
    assert(int_str(s.max_registration_attempts_per_device as int) == nat_str(
        s.max_registration_attempts_per_device as nat,
    ));
    assert(int_str(s.max_registration_attempts_per_ip as int) == nat_str(
        s.max_registration_attempts_per_ip as nat,
    ));
    assert(int_str(s.rate_limit_window_minutes as int) == nat_str(s.rate_limit_window_minutes as nat));
    assert(int_str(s.token_expiry_hours as int) == nat_str(s.token_expiry_hours as nat));
    assert(rows.take(0) =~= Seq::<(Seq<char>, Seq<char>)>::empty());
    assert(rows.take(1).drop_last() =~= rows.take(0));
    assert(rows.take(2).drop_last() =~= rows.take(1));
    assert(rows.take(3).drop_last() =~= rows.take(2));
    assert(rows.take(4).drop_last() =~= rows.take(3));
    assert(rows.take(5).drop_last() =~= rows.take(4));
    assert(rows.drop_last() =~= rows.take(5));
    assert(settings_from_rows(rows.take(0)) == default_security());
    assert(rows.take(1).last() == rows[0]);
    assert(rows.take(2).last() == rows[1]);
    assert(rows.take(3).last() == rows[2]);
    assert(rows.take(4).last() == rows[3]);
    assert(rows.take(5).last() == rows[4]);
    assert(rows.last() == rows[5]);
    let s1 = settings_from_rows(rows.take(1));
    assert(s1 == SecuritySettings {
        require_registration_code: s.require_registration_code,
        ..default_security()
    });
    let s2 = settings_from_rows(rows.take(2));
    assert(s2.max_registration_attempts_per_device == s.max_registration_attempts_per_device);
    let s3 = settings_from_rows(rows.take(3));
    let s4 = settings_from_rows(rows.take(4));
    let s5 = settings_from_rows(rows.take(5));
    assert(s5.block_duration_minutes == s.block_duration_minutes);
}

// ------------------------------------------------------------------
// Automatic breaks and time rounding
// ------------------------------------------------------------------

pub open spec fn clamp(x: int, lo: int, hi: int) -> int {
    if x < lo {
        lo
    } else if x > hi {
        hi
    } else {
        x
    }
}

fn clamp_i32(x: i32, lo: i32, hi: i32) -> (r: i32)
    requires
        lo <= hi,
    ensures
        r == clamp(x as int, lo as int, hi as int),
{
    if x < lo {
        lo
    } else if x > hi {
        hi
    } else {
        x
    }
}

/// The automatic-break configuration as it is saved: a threshold of 1 to
/// 24 hours and a break of 1 to 120 minutes.
pub fn clamp_auto_break(config: &AutoBreakConfig) -> (r: AutoBreakConfig)
    ensures
        r.enabled == config.enabled,
        r.threshold_hours == clamp(config.threshold_hours as int, 1, 24),
        r.break_minutes == clamp(config.break_minutes as int, 1, 120),
{
    AutoBreakConfig {
        enabled: config.enabled,
        threshold_hours: clamp_i32(config.threshold_hours, 1, 24),
        break_minutes: clamp_i32(config.break_minutes, 1, 120),
    }
}

/// The time-rounding configuration as it is saved: an interval of 1 to 60
/// minutes.
pub fn clamp_time_rounding(config: &TimeRoundingConfig) -> (r: TimeRoundingConfig)
    ensures
        r.enabled == config.enabled,
        r.interval_minutes == clamp(config.interval_minutes as int, 1, 60),
{
    TimeRoundingConfig { enabled: config.enabled, interval_minutes: clamp_i32(config.interval_minutes, 1, 60) }
}

/// The rounding that clock times get: the interval (at least one minute)
/// where rounding is enabled.
pub fn rounding_in_effect(config: &TimeRoundingConfig) -> (r: Option<i32>)
    ensures
        r == (if config.enabled {
            Some(
                if config.interval_minutes < 1 {
                    1i32
                } else {
                    config.interval_minutes
                },
            )
        } else {
            None
        }),
{
    if config.enabled {
        Some(
            if config.interval_minutes < 1 {
                1
            } else {
                config.interval_minutes
            },
        )
    } else {
        None
    }
}

// ------------------------------------------------------------------
// Room completion items
// ------------------------------------------------------------------

pub open spec fn default_room_items() -> Seq<Seq<char>> {
    seq!["fillers"@, "handles"@, "fast_caps"@, "set_boxes"@, "caulking"@]
}

/// The items every room is checked for where none are configured.
pub fn default_room_item_list() -> (r: Vec<String>)
    ensures
        strings_view(r@) == default_room_items(),
{
    let mut r: Vec<String> = Vec::new();
    r.push(string_of(&chars_of("fillers")));
    r.push(string_of(&chars_of("handles")));
    r.push(string_of(&chars_of("fast_caps")));
    r.push(string_of(&chars_of("set_boxes")));
    r.push(string_of(&chars_of("caulking")));
    assert(strings_view(r@) =~= default_room_items());
    r
}

/// The items, each trimmed, without the blank ones.
pub open spec fn cleaned_items(items: Seq<Seq<char>>) -> Seq<Seq<char>>
    decreases items.len(),
{
    if items.len() == 0 {
        seq![]
    } else {
        let r = cleaned_items(items.drop_last());
        let t = trim(items.last());
        if t.len() > 0 {
            r.push(t)
        } else {
            r
        }
    }
}

/// Trims the room items and drops the blank ones.
pub fn clean_room_items(items: &Vec<String>) -> (r: Vec<String>)
    ensures
        strings_view(r@) == cleaned_items(strings_view(items@)),
{
    let ghost iv = strings_view(items@);
    let mut r: Vec<String> = Vec::new();
    let mut i: usize = 0;
    assert(iv.take(0) =~= Seq::<Seq<char>>::empty());
    assert(strings_view(r@) =~= Seq::<Seq<char>>::empty());
    while i < items.len()
        invariant
            i <= items@.len(),
            iv == strings_view(items@),
            strings_view(r@) == cleaned_items(iv.take(i as int)),
        decreases items@.len() - i,
    {
        assert(iv.take(i + 1).drop_last() =~= iv.take(i as int));
        assert(iv.take(i + 1).last() == items@[i as int]@);
        let t = trim_chars(&chars_of(items[i].as_str()));
        if t.len() > 0 {
            let ghost before = strings_view(r@);
            let st = string_of(&t);
            r.push(st);
            assert(strings_view(r@) =~= before.push(t@));
        }
        i = i + 1;
    }
    assert(iv.take(i as int) =~= iv);
    r
}

/// Cleaning cleaned room items changes nothing.
pub proof fn lemma_clean_idempotent(items: Seq<Seq<char>>)
    ensures
        cleaned_items(cleaned_items(items)) == cleaned_items(items),
    decreases items.len(),
{
    if items.len() > 0 {
        lemma_clean_idempotent(items.drop_last());
        let r = cleaned_items(items.drop_last());
        let t = trim(items.last());
        lemma_trim_idempotent(items.last());
        if t.len() > 0 {
            assert(r.push(t).drop_last() =~= r);
        }
    }
}

} // verus!
