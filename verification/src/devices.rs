//! Devices: whether one is online or blocked, how its heartbeats add up
//! to sessions, and the hashes, codes and identifiers it is given.

use vstd::prelude::*;
use rand::Rng;
use crate::lading::opt_str;
use crate::requests::{rfc3339_instant, rfc3339_millis};
use crate::text::{append_chars, chars_of, is_alpha, is_digit, string_of};
use crate::timekeeping::{rfc3339_span, seconds_between, i64_fits, opt_millis_text, opt_millis_text_exec, tdiv};

verus! {

// ------------------------------------------------------------------
// Online and blocked
// ------------------------------------------------------------------

/// A device is online where it was last seen less than five minutes
/// before `now`: chrono's whole seconds from one to the other (which are
/// below 300 exactly where the gap is below five minutes) are below 300.
/// One never seen, or seen at a time that does not parse, is not online.
pub open spec fn online_at(last_seen_at: Option<Seq<char>>, now: Seq<char>) -> bool {
    match last_seen_at {
        Some(s) => match rfc3339_span(s, now) {
            Some(g) => g < 300,
            None => false,
        },
        None => false,
    }
}

/// Whether a device last seen at `last_seen_at` counts as online at the
/// RFC 3339 time `now`.
pub fn online_now(last_seen_at: &Option<String>, now: &str) -> (r: bool)
    ensures
        r == online_at(opt_str(*last_seen_at), now@),
{
    match last_seen_at {
        Some(s) => match seconds_between(s.as_str(), now) {
            Some(g) => g < 300,
            None => false,
        },
        None => false,
    }
}

/// Whether a device blocked until `blocked_until` is still blocked at
/// `now_ms`; a time that does not parse blocks nothing.
pub fn blocked_now(blocked_until: &str, now_ms: i64) -> (r: bool)
    ensures
        r == match rfc3339_instant(blocked_until@) {
            Some(v) => now_ms < v.1,
            None => false,
        },
{
    match rfc3339_millis(blocked_until) {
        Some(m) => now_ms < m,
        None => false,
    }
}

/// The time `delta_ms` after `now_ms` in RFC 3339 form, for a block's end
/// or the start of a window (a negative `delta_ms`); `None` where chrono
/// cannot hold that time.
pub fn time_text_after(now_ms: i64, delta_ms: i64) -> (r: Option<String>)
    ensures
        opt_str(r) == if i64_fits(now_ms + delta_ms) {
            opt_millis_text(Some((now_ms + delta_ms) as i64))
        } else {
            None
        },
{
    match now_ms.checked_add(delta_ms) {
        Some(t) => opt_millis_text_exec(Some(t)),
        None => None,
    }
}

// ------------------------------------------------------------------
// Heartbeat sessions
// ------------------------------------------------------------------

/// The whole seconds from the last heartbeat to `now`, truncated toward
/// zero as chrono counts them; none where the last heartbeat does not
/// parse (chrono then measures from now to now).
pub open spec fn gap_secs(last_heartbeat_at: Seq<char>, now: Seq<char>) -> int {
    match rfc3339_span(last_heartbeat_at, now) {
        Some(g) => g,
        None => 0,
    }
}

/// A heartbeat continues the session of the last one where that came at
/// most five whole minutes before; it then adds the seconds since, where
/// positive, to the uptime.  There is no session to continue where the
/// device has no last heartbeat or was never seen.
pub open spec fn continued_secs(last_heartbeat_at: Option<Seq<char>>, seen: bool, now: Seq<char>) -> Option<int> {
    match last_heartbeat_at {
        Some(h) => if seen {
            let g = gap_secs(h, now);
            if tdiv(g, 60) <= 5 {
                Some(
                    if g > 0 {
                        g
                    } else {
                        0
                    },
                )
            } else {
                None
            }
        } else {
            None
        },
        None => None,
    }
}

/// The connection count and uptime after a heartbeat: a continued session
/// adds its seconds to the uptime; a new one counts one more connection.
pub open spec fn session_after(
    last_heartbeat_at: Option<Seq<char>>,
    seen: bool,
    connection_count: Option<i64>,
    uptime: Option<i64>,
    now: Seq<char>,
) -> (Option<int>, int) {
    let base: int = match uptime {
        Some(u) => u as int,
        None => 0,
    };
    match continued_secs(last_heartbeat_at, seen, now) {
        Some(add) => (
            match connection_count {
                Some(c) => Some(c as int),
                None => None,
            },
            base + add,
        ),
        None => (
            Some(
                match connection_count {
                    Some(c) => c + 1,
                    None => 1,
                },
            ),
            base,
        ),
    }
}

/// A device's connection count and uptime after a heartbeat.
#[derive(Clone, Copy, Debug, PartialEq, Eq, Structural)]
pub struct SessionUpdate {
    pub connection_count: Option<i64>,
    pub total_uptime_seconds: i64,
}

fn tdiv_i128(a: i128, b: i128) -> (r: i128)
    requires
        b > 0,
        -0x1_0000_0000_0000_0000_0000 <= a <= 0x1_0000_0000_0000_0000_0000,
        b <= 0x1_0000,
    ensures
        r == tdiv(a as int, b as int),
{
    let ua: u128 = if a < 0 {
        (-a) as u128
    } else {
        a as u128
    };
    let q = ua / (b as u128);
    if a >= 0 {
        q as i128
    } else {
        -(q as i128)
    }
}

/// The connection count and uptime of a device after a heartbeat at the
/// RFC 3339 time `now`, from what its record held; `None` where the count or the
/// uptime would pass the largest 64-bit integer.
pub fn heartbeat_session(
    last_heartbeat_at: &Option<String>,
    last_seen_at: &Option<String>,
    connection_count: Option<i64>,
    total_uptime_seconds: Option<i64>,
    now: &str,
) -> (r: Option<SessionUpdate>)
    ensures
        ({
            let (c, u) = session_after(
                opt_str(*last_heartbeat_at),
                last_seen_at is Some,
                connection_count,
                total_uptime_seconds,
                now@,
            );
            match r {
                Some(s) => u == s.total_uptime_seconds && match c {
                    Some(n) => s.connection_count == Some(n as i64),
                    None => s.connection_count is None,
                },
                None => !(i64_fits(u) && match c {
                    Some(n) => i64_fits(n),
                    None => true,
                }),
            }
        }),
        r matches Some(s) ==> s.total_uptime_seconds >= match total_uptime_seconds {
            Some(u) => u,
            None => 0,
        },
        r matches Some(s) ==> (connection_count matches Some(c) ==> s.connection_count matches Some(n) && n >= c),
{
    let base: i64 = match total_uptime_seconds {
        Some(u) => u,
        None => 0,
    };
    let ghost seen = last_seen_at is Some;
    let continues: Option<i128> = match last_heartbeat_at {
        Some(h) => {
            if last_seen_at.is_some() {
                let g: i128 = match seconds_between(h.as_str(), now) {
                    Some(v) => v as i128,
                    None => 0,
                };
                assert(g == gap_secs(h@, now@));
                if tdiv_i128(g, 60) <= 5 {
                    Some(if g > 0 {
                        g
                    } else {
                        0
                    })
                } else {
                    None
                }
            } else {
                None
            }
        },
        None => None,
    };
    assert(continues == match continued_secs(opt_str(*last_heartbeat_at), seen, now@) {
        Some(a) => Some(a as i128),
        None => None::<i128>,
    });
    match continues {
        Some(add) => {
            let total: i128 = base as i128 + add;
            if total > 0x7FFF_FFFF_FFFF_FFFF {
                None
            } else {
                Some(SessionUpdate { connection_count, total_uptime_seconds: total as i64 })
            }
        },
        None => {
            let bumped: i64 = match connection_count {
                Some(c) => {
                    if c == 0x7FFF_FFFF_FFFF_FFFF {
                        return None;
                    }
                    c + 1
                },
                None => 1,
            };
            Some(SessionUpdate { connection_count: Some(bumped), total_uptime_seconds: base })
        },
    }
}

// ------------------------------------------------------------------
// Fingerprint hashes
// ------------------------------------------------------------------

/// The MD5 digest of `data`.
pub uninterp spec fn md5_digest(data: Seq<u8>) -> Seq<u8>;

/// `md5::compute(data)`: its sixteen bytes, named, not spelled out.
#[verifier::external_body]
fn md5_bytes(data: &[u8]) -> (r: Vec<u8>)
    ensures
        r@ == md5_digest(data@),
        r@.len() == 16,
{
    md5::compute(data).0.to_vec()
}

pub open spec fn hex_char(d: int) -> char {
    seq!['0', '1', '2', '3', '4', '5', '6', '7', '8', '9', 'a', 'b', 'c', 'd', 'e', 'f'][d]
}

/// Each byte as two lowercase hexadecimal digits (`{:02x}`).
pub open spec fn hex_text(b: Seq<u8>) -> Seq<char>
    decreases b.len(),
{
    if b.len() == 0 {
        seq![]
    } else {
        hex_text(b.drop_last()) + seq![hex_char((b.last() / 16) as int), hex_char((b.last() % 16) as int)]
    }
}

fn hex_char_exec(d: u8) -> (c: char)
    requires
        d < 16,
    ensures
        c == hex_char(d as int),
{
    match d {
        0 => '0',
        1 => '1',
        2 => '2',
        3 => '3',
        4 => '4',
        5 => '5',
        6 => '6',
        7 => '7',
        8 => '8',
        9 => '9',
        10 => 'a',
        11 => 'b',
        12 => 'c',
        13 => 'd',
        14 => 'e',
        _ => 'f',
    }
}

/// The bytes in lowercase hexadecimal, two digits each.
pub fn lower_hex(b: &[u8]) -> (r: String)
    ensures
        r@ == hex_text(b@),
{
    let mut out: Vec<char> = Vec::new();
    let mut i: usize = 0;
    while i < b.len()
        invariant
            i <= b@.len(),
            out@ == hex_text(b@.take(i as int)),
        decreases b@.len() - i,
    {
        assert(b@.take(i + 1).drop_last() =~= b@.take(i as int));
        out.push(hex_char_exec(b[i] / 16));
        out.push(hex_char_exec(b[i] % 16));
        i = i + 1;
        assert(out@ =~= hex_text(b@.take(i as int)));
    }
    assert(b@.take(i as int) =~= b@);
    string_of(&out)
}

proof fn lemma_hex_text_len(b: Seq<u8>)
    ensures
        hex_text(b).len() == 2 * b.len(),
    decreases b.len(),
{
    if b.len() > 0 {
        lemma_hex_text_len(b.drop_last());
    }
}

/// The hash a device's fingerprint is stored as: the MD5 digest of its
/// UTF-8 bytes in lowercase hexadecimal, 32 digits.
pub fn fingerprint_hash(fingerprint: &Option<String>) -> (r: Option<String>)
    ensures
        opt_str(r) == match *fingerprint {
            Some(f) => Some(hex_text(md5_digest(vstd::utf8::encode_utf8(f@)))),
            None => None,
        },
        r matches Some(h) ==> h@.len() == 32,
{
    proof {
        if let Some(f) = fingerprint {
            lemma_hex_text_len(md5_digest(vstd::utf8::encode_utf8(f@)));
        }
    }
    match fingerprint {
        Some(f) => {
            let digest = md5_bytes(f.as_str().as_bytes());
            Some(lower_hex(digest.as_slice()))
        },
        None => None,
    }
}

// ------------------------------------------------------------------
// Codes, tokens and identifiers
// ------------------------------------------------------------------

pub open spec fn is_alnum(c: char) -> bool {
    is_alpha(c) || is_digit(c)
}

/// `n` characters drawn by rand's `thread_rng` from `Alphanumeric`: each
/// is an ASCII letter or digit.  Which ones come out is chance, and not
/// stated.
#[verifier::external_body]
fn random_alphanumeric(n: usize) -> (r: String)
    ensures
        r@.len() == n,
        forall|i: int| 0 <= i < n ==> is_alnum(#[trigger] r@[i]),
{
    rand::thread_rng().sample_iter(&rand::distributions::Alphanumeric).take(n).map(char::from).collect()
}

/// The key under which a registration code is kept among the settings.
pub open spec fn code_key(code: Seq<char>) -> Seq<char> {
    "reg_code."@ + code
}

pub fn registration_code_key(code: &str) -> (r: String)
    ensures
        r@ == code_key(code@),
{
    let mut k = chars_of("reg_code.");
    append_chars(&mut k, &chars_of(code));
    proof {
        reveal_strlit("reg_code.");
    }
    string_of(&k)
}

/// A registration code to keep among the settings: the code, its key, and
/// its description.
pub struct RegistrationCodeRow {
    pub code: String,
    pub key: String,
    pub description: String,
}

/// A new registration code: eight random ASCII letters and digits, kept
/// under `reg_code.` and the code, with the description given or
/// `Generated registration code`.
pub fn new_registration_code(description: &Option<String>) -> (r: RegistrationCodeRow)
    ensures
        r.code@.len() == 8,
        forall|i: int| 0 <= i < 8 ==> is_alnum(#[trigger] r.code@[i]),
        r.key@ == code_key(r.code@),
        r.description@ == match opt_str(*description) {
            Some(d) => d,
            None => "Generated registration code"@,
        },
{
    let code = random_alphanumeric(8);
    let key = registration_code_key(code.as_str());
    let description = match description {
        Some(d) => string_of(&chars_of(d.as_str())),
        None => string_of(&chars_of("Generated registration code")),
    };
    RegistrationCodeRow { code, key, description }
}

/// A device's authentication token and when it expires.
pub struct DeviceToken {
    pub token: String,
    pub expires_at: String,
}

/// A new authentication token for a device: 32 random ASCII letters and
/// digits, expiring `expiry_hours` after `now_ms`; `None` where chrono
/// cannot hold the time of expiry.
pub fn new_device_token(now_ms: i64, expiry_hours: u32) -> (r: Option<DeviceToken>)
    ensures
        r matches Some(t) ==> {
            &&& t.token@.len() == 32
            &&& forall|i: int| 0 <= i < 32 ==> is_alnum(#[trigger] t.token@[i])
            &&& Some(t.expires_at@) == opt_millis_text(Some((now_ms + expiry_hours * 3_600_000) as i64))
            &&& i64_fits(now_ms + expiry_hours * 3_600_000)
        },
        r is None ==> !i64_fits(now_ms + expiry_hours * 3_600_000) || opt_millis_text(
            Some((now_ms + expiry_hours * 3_600_000) as i64),
        ) is None,
{
    let token = random_alphanumeric(32);
    let delta: i64 = expiry_hours as i64 * 3_600_000;
    match time_text_after(now_ms, delta) {
        Some(expires_at) => Some(DeviceToken { token, expires_at }),
        None => None,
    }
}

/// The text of a random (version 4) UUID, hyphenated, in lowercase.
pub open spec fn uuid_shape(s: Seq<char>) -> bool {
    &&& s.len() == 36
    &&& forall|i: int|
        0 <= i < 36 ==> if i == 8 || i == 13 || i == 18 || i == 23 {
            #[trigger] s[i] == '-'
        } else {
            is_digit(s[i]) || ('a' <= s[i] && s[i] <= 'f')
        }
    &&& s[14] == '4'
    &&& s[19] == '8' || s[19] == '9' || s[19] == 'a' || s[19] == 'b'
}

/// `uuid::Uuid::new_v4().to_string()`: random but for the version digit
/// `4` and the variant digit, written as 32 lowercase hexadecimal digits
/// in groups of 8, 4, 4, 4 and 12 joined by hyphens.
#[verifier::external_body]
fn uuid_v4_text() -> (r: String)
    ensures
        uuid_shape(r@),
{
    uuid::Uuid::new_v4().to_string()
}

/// A fresh identifier for a record: a random UUID.
pub fn new_uuid() -> (r: String)
    ensures
        uuid_shape(r@),
{
    uuid_v4_text()
}

} // verus!
