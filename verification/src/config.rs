//! The server's configuration: where it listens, where its database is,
//! and how it sends mail; read from environment settings.

use vstd::prelude::*;
use crate::lading::opt_str;
use crate::text::{
    append_chars, chars_of, nat_str, parse_int, split_char, split_on, string_of, trim, trim_chars,
    u64_chars, views,
};

verus! {

#[derive(Clone, Debug, PartialEq)]
pub struct ServerConfig {
    pub host: String,
    pub port: u16,
}

#[derive(Clone, Debug, PartialEq)]
pub struct DatabaseConfig {
    /// The path of the database file.
    pub path: String,
}

#[derive(Clone, Debug, PartialEq)]
pub struct EmailConfig {
    pub smtp_host: String,
    pub smtp_port: u16,
    pub smtp_username: String,
    pub smtp_password: String,
    pub from_address: String,
    pub to_addresses: Vec<String>,
    pub auto_send_enabled: bool,
    pub auto_send_delay_minutes: u32,
}

/// Application configuration
#[derive(Clone, Debug, PartialEq)]
pub struct Config {
    pub server: ServerConfig,
    pub database: DatabaseConfig,
    pub email: Option<EmailConfig>,
}

/// The settings the environment gives, each where it is set.
#[derive(Clone, Debug, PartialEq)]
pub struct EnvSettings {
    pub server_host: Option<String>,
    pub server_port: Option<String>,
    pub database_path: Option<String>,
    pub smtp_host: Option<String>,
    pub smtp_port: Option<String>,
    pub smtp_username: Option<String>,
    pub smtp_password: Option<String>,
    pub email_from: Option<String>,
    pub email_to: Option<String>,
    pub auto_send_enabled: Option<String>,
    pub auto_send_delay_minutes: Option<String>,
}

/// The number a setting gives, within `0..=hi`, else `dflt`.
pub open spec fn setting_num(o: Option<String>, hi: int, dflt: int) -> int {
    match o {
        Some(s) => match parse_int(s@, 0, hi) {
            Some(v) => v,
            None => dflt,
        },
        None => dflt,
    }
}

/// The addresses of a comma-separated list, each trimmed.
pub open spec fn address_list(s: Seq<char>) -> Seq<Seq<char>> {
    split_char(s, ',').map_values(|p: Seq<char>| trim(p))
}

pub open spec fn strings_view(v: Seq<String>) -> Seq<Seq<char>> {
    v.map_values(|s: String| s@)
}

/// `true` or `1`.
pub open spec fn setting_flag(o: Option<String>) -> bool {
    match o {
        Some(s) => s@ == "true"@ || s@ == "1"@,
        None => false,
    }
}

/// The mail settings, where host, user name, password and sender are all set.
pub open spec fn email_of(env: EnvSettings, e: Option<EmailConfig>) -> bool {
    match (env.smtp_host, env.smtp_username, env.smtp_password, env.email_from) {
        (Some(h), Some(u), Some(p), Some(f)) => match e {
            Some(c) => {
                &&& c.smtp_host@ == h@
                &&& c.smtp_port as int == setting_num(env.smtp_port, 65535, 587)
                &&& c.smtp_username@ == u@
                &&& c.smtp_password@ == p@
                &&& c.from_address@ == f@
                &&& strings_view(c.to_addresses@) == match env.email_to {
                    Some(t) => address_list(t@),
                    None => Seq::<Seq<char>>::empty(),
                }
                &&& c.auto_send_enabled == setting_flag(env.auto_send_enabled)
                &&& c.auto_send_delay_minutes as int == setting_num(
                    env.auto_send_delay_minutes,
                    0xFFFF_FFFF,
                    30,
                )
            },
            None => false,
        },
        _ => e is None,
    }
}

fn parse_setting(o: &Option<String>, hi: u32, dflt: u32) -> (r: u32)
    requires
        dflt <= hi,
    ensures
        r as int == setting_num(*o, hi as int, dflt as int),
        r <= hi,
{
    match o {
        Some(s) => {
            let cs = chars_of(s.as_str());
            match crate::text::parse_int_chars(&cs, 0, hi as i64) {
                Some(v) => v as u32,
                None => dflt,
            }
        },
        None => dflt,
    }
}

fn copy_string(s: &String) -> (r: String)
    ensures
        r@ == s@,
{
    let cs = chars_of(s.as_str());
    string_of(&cs)
}

fn address_list_exec(s: &String) -> (r: Vec<String>)
    ensures
        strings_view(r@) == address_list(s@),
{
    let cs = chars_of(s.as_str());
    let parts = split_on(&cs, ',');
    let ghost pv = views(parts@);
    let mut r: Vec<String> = Vec::new();
    let mut k: usize = 0;
    while k < parts.len()
        invariant
            k <= parts@.len(),
            pv == views(parts@),
            pv == split_char(s@, ','),
            strings_view(r@) == address_list(s@).take(k as int),
        decreases parts@.len() - k,
    {
        assert(pv[k as int] == parts@[k as int]@);
        let t = trim_chars(&parts[k]);
        let st = string_of(&t);
        let ghost before = strings_view(r@);
        let ghost sv = st@;
        r.push(st);
        assert(strings_view(r@) =~= before.push(sv));
        assert(address_list(s@)[k as int] == trim(pv[k as int]));
        k = k + 1;
        assert(strings_view(r@) =~= address_list(s@).take(k as int));
    }
    assert(address_list(s@).take(k as int) =~= address_list(s@));
    r
}

fn flag_exec(o: &Option<String>) -> (r: bool)
    ensures
        r == setting_flag(*o),
{
    match o {
        Some(s) => {
            let cs = chars_of(s.as_str());
            let t = chars_of("true");
            let one = chars_of("1");
            crate::text::chars_eq(&cs, &t) || crate::text::chars_eq(&cs, &one)
        },
        None => false,
    }
}

impl Config {
    /// The configuration used where nothing is set: `0.0.0.0:8080`, the
    /// database at `db_path`, no mail.
    pub fn defaults_at(db_path: String) -> (r: Config)
        ensures
            r.server.host@ == "0.0.0.0"@,
            r.server.port == 8080,
            r.database.path@ == db_path@,
            r.email is None,
    {
        Config {
            server: ServerConfig { host: string_of(&chars_of("0.0.0.0")), port: 8080 },
            database: DatabaseConfig { path: db_path },
            email: None,
        }
    }

    /// The configuration that the environment settings `env` make of
    /// `defaults`: host, port (8080 where it does not parse) and database
    /// path where set, and mail where its four required settings are set.
    pub fn from_env_settings(defaults: Config, env: &EnvSettings) -> (r: Config)
        ensures
            r.server.host@ == (match env.server_host {
                Some(h) => h@,
                None => defaults.server.host@,
            }),
            r.server.port == (match env.server_port {
                Some(_) => setting_num(env.server_port, 65535, 8080),
                None => defaults.server.port as int,
            }),
            r.database.path@ == (match env.database_path {
                Some(p) => p@,
                None => defaults.database.path@,
            }),
            match (env.smtp_host, env.smtp_username, env.smtp_password, env.email_from) {
                (Some(_), Some(_), Some(_), Some(_)) => email_of(*env, r.email),
                _ => r.email == defaults.email,
            },
    {
        let mut config = defaults;
        match &env.server_host {
            Some(h) => {
                config.server.host = copy_string(h);
            },
            None => {},
        }
        match &env.server_port {
            Some(_) => {
                config.server.port = parse_setting(&env.server_port, 65535, 8080) as u16;
            },
            None => {},
        }
        match &env.database_path {
            Some(p) => {
                config.database.path = copy_string(p);
            },
            None => {},
        }
        match (&env.smtp_host, &env.smtp_username, &env.smtp_password, &env.email_from) {
            (Some(h), Some(u), Some(p), Some(f)) => {
                let to_addresses = match &env.email_to {
                    Some(t) => address_list_exec(t),
                    None => {
                        let v: Vec<String> = Vec::new();
                        assert(strings_view(v@) =~= Seq::<Seq<char>>::empty());
                        v
                    },
                };
                config.email = Some(
                    EmailConfig {
                        smtp_host: copy_string(h),
                        smtp_port: parse_setting(&env.smtp_port, 65535, 587) as u16,
                        smtp_username: copy_string(u),
                        smtp_password: copy_string(p),
                        from_address: copy_string(f),
                        to_addresses,
                        auto_send_enabled: flag_exec(&env.auto_send_enabled),
                        auto_send_delay_minutes: parse_setting(
                            &env.auto_send_delay_minutes,
                            0xFFFF_FFFF,
                            30,
                        ),
                    },
                );
            },
            _ => {},
        }
        config
    }

    /// Get the server address as a string: `host:port`.
    pub fn server_addr(&self) -> (r: String)
        ensures
            r@ == self.server.host@ + ":"@ + nat_str(self.server.port as nat),
    {
        let mut cs = chars_of(self.server.host.as_str());
        let colon = chars_of(":");
        append_chars(&mut cs, &colon);
        let digits = u64_chars(self.server.port as u64);
        append_chars(&mut cs, &digits);
        string_of(&cs)
    }

    /// Get the database URL for SQLx: `sqlite:` and the path.
    pub fn database_url(&self) -> (r: String)
        ensures
            r@ == "sqlite:"@ + self.database.path@,
    {
        let mut cs = chars_of("sqlite:");
        let p = chars_of(self.database.path.as_str());
        append_chars(&mut cs, &p);
        string_of(&cs)
    }
}

} // verus!
