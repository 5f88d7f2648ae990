//! The service's settings, read from environment values.

use vstd::prelude::*;

use crate::text::{chars_of, digits_of, push_digits, push_str, same_text, string_of};

verus! {

/// The service's settings.
#[derive(Clone, Debug)]
pub struct AppConfig {
    pub database_url: String,
    pub database_max_connections: u32,
    pub database_min_connections: u32,
    pub database_connect_timeout_secs: u64,
    pub server_host: String,
    pub server_port: u16,
    pub app_name: String,
    pub app_env: String,
}

/// The environment values the settings are read from; `None` where a
/// variable is unset or not valid Unicode.
#[derive(Clone, Debug)]
pub struct EnvValues {
    pub database_url: Option<String>,
    pub database_max_connections: Option<String>,
    pub database_min_connections: Option<String>,
    pub database_connect_timeout_secs: Option<String>,
    pub server_host: Option<String>,
    pub server_port: Option<String>,
    pub app_name: Option<String>,
    pub app_env: Option<String>,
}

/// Whether a character is an ASCII decimal digit.
pub open spec fn is_digit(c: char) -> bool {
    '0' <= c <= '9'
}

/// The value of a sequence of decimal digits.
pub open spec fn digits_value(s: Seq<char>) -> int
    decreases s.len(),
{
    if s.len() == 0 {
        0
    } else {
        digits_value(s.drop_last()) * 10 + (s.last() as int - '0' as int)
    }
}

/// The number an unsigned integer text stands for, as Rust's `FromStr` for
/// unsigned integers reads it: an optional `+`, then one or more decimal
/// digits, nothing else.
pub open spec fn unsigned_text(s: Seq<char>) -> Option<int> {
    let body = unsigned_body(s);
    if body.len() > 0 && all_digits(body) {
        Some(digits_value(body))
    } else {
        None
    }
}

/// A text without its leading `+`, if it has one.
pub open spec fn unsigned_body(s: Seq<char>) -> Seq<char> {
    if s.len() > 0 && s[0] == '+' {
        s.drop_first()
    } else {
        s
    }
}

/// Whether every character is a decimal digit.
pub open spec fn all_digits(s: Seq<char>) -> bool {
    forall|i: int| 0 <= i < s.len() ==> is_digit(#[trigger] s[i])
}

/// The value of an unsigned integer text of a type whose largest value is
/// `max`; `None` when the text is no such integer or too large.
pub open spec fn parsed_unsigned(s: Seq<char>, max: int) -> Option<int> {
    match unsigned_text(s) {
        Some(v) => if v <= max {
            Some(v)
        } else {
            None
        },
        None => None,
    }
}

proof fn lemma_digits_value_nonneg(s: Seq<char>)
    requires
        forall|i: int| 0 <= i < s.len() ==> is_digit(#[trigger] s[i]),
    ensures
        0 <= digits_value(s),
    decreases s.len(),
{
    if s.len() > 0 {
        let p = s.drop_last();
        assert forall|i: int| 0 <= i < p.len() implies is_digit(#[trigger] p[i]) by {
            assert(p[i] == s[i]);
        }
        lemma_digits_value_nonneg(p);
    }
}

/// Reads an unsigned integer of at most `max` from a text, as Rust's
/// `FromStr` for unsigned integers does.
pub fn parse_unsigned(s: &str, max: u64) -> (r: Option<u64>)
    ensures
        match parsed_unsigned(s@, max as int) {
            Some(v) => r == Some(v as u64),
            None => r is None,
        },
        r matches Some(n) ==> parsed_unsigned(s@, max as int) == Some(n as int),
{
    let cs = chars_of(s);
    let start: usize = if cs.len() > 0 && cs[0] == '+' {
        1
    } else {
        0
    };
    let ghost body = unsigned_body(s@);
    assert(body =~= cs@.subrange(start as int, cs@.len() as int));
    if start >= cs.len() {
        return None;
    }
    let mut acc: u64 = 0;
    let mut too_big = false;
    let mut i: usize = start;
    while i < cs.len()
        invariant
            cs@ == s@,
            start <= i <= cs.len(),
            body =~= cs@.subrange(start as int, cs@.len() as int),
            body == unsigned_body(s@),
            forall|j: int| start <= j < i ==> is_digit(#[trigger] cs@[j]),
            !too_big ==> acc == digits_value(cs@.subrange(start as int, i as int)) && acc <= max,
            too_big ==> digits_value(cs@.subrange(start as int, i as int)) > max,
        decreases cs.len() - i,
    {
        let c = cs[i];
        if !('0' <= c && c <= '9') {
            assert(body[i - start] == c);
            assert(!is_digit(body[i - start]));
            assert(!all_digits(body));
            return None;
        }
        let d: u64 = (c as u32 - '0' as u32) as u64;
        let ghost prefix = cs@.subrange(start as int, i as int);
        let ghost next = cs@.subrange(start as int, i + 1);
        assert(next.drop_last() =~= prefix);
        assert(next.last() == c);
        proof {
            assert forall|j: int| 0 <= j < prefix.len() implies is_digit(#[trigger] prefix[j]) by {
                assert(prefix[j] == cs@[start + j]);
            }
            lemma_digits_value_nonneg(prefix);
        }
        if !too_big {
            if d > max || acc > (max - d) / 10 {
                too_big = true;
                assert(acc * 10 + d > max) by (nonlinear_arith)
                    requires
                        d > max || acc > (max - d) / 10,
                        acc >= 0,
                ;
            } else {
                assert(acc * 10 + d <= max) by (nonlinear_arith)
                    requires
                        acc <= (max - d) / 10,
                        d <= max,
                ;
                acc = acc * 10 + d;
            }
        } else {
            assert(digits_value(next) >= digits_value(prefix)) by (nonlinear_arith)
                requires
                    digits_value(next) == digits_value(prefix) * 10 + d,
                    digits_value(prefix) >= 0,
                    d >= 0,
            ;
        }
        i = i + 1;
    }
    if too_big {
        None
    } else {
        Some(acc)
    }
}

/// A numeric setting: its default when unset, else the value of its text if
/// that is an unsigned integer of at most `max`, else `None`.
pub open spec fn setting(v: Option<String>, default: int, max: int) -> Option<int> {
    match v {
        None => Some(default),
        Some(t) => parsed_unsigned(t@, max),
    }
}

/// A text setting: its text, or the default when unset.
pub open spec fn text_setting(v: Option<String>, default: Seq<char>) -> Seq<char> {
    match v {
        None => default,
        Some(t) => t@,
    }
}

/// Why the settings cannot be read, if they cannot: the first of the
/// required database URL missing, or a numeric setting that is not a
/// number of its type, in the order of the settings.
pub open spec fn config_failure(env: EnvValues) -> Option<Seq<char>> {
    if env.database_url is None {
        Some("missing required env var: DATABASE_URL"@)
    } else if setting(env.database_max_connections, 5, u32::MAX as int) is None {
        Some("invalid value for env var: "@ + "DATABASE_MAX_CONNECTIONS"@)
    } else if setting(env.database_min_connections, 1, u32::MAX as int) is None {
        Some("invalid value for env var: "@ + "DATABASE_MIN_CONNECTIONS"@)
    } else if setting(env.database_connect_timeout_secs, 5, u64::MAX as int) is None {
        Some("invalid value for env var: "@ + "DATABASE_CONNECT_TIMEOUT_SECS"@)
    } else if setting(env.server_port, 8080, u16::MAX as int) is None {
        Some("invalid value for env var: "@ + "SERVER_PORT"@)
    } else {
        None
    }
}

fn text_of(s: &str) -> (r: String)
    ensures
        r@ == s@,
{
    let v = chars_of(s);
    string_of(&v)
}

fn read_setting(v: &Option<String>, key: &str, default: u64, max: u64) -> (r: Result<u64, String>)
    requires
        default <= max,
    ensures
        match setting(*v, default as int, max as int) {
            Some(n) => r == Ok::<u64, String>(n as u64),
            None => r matches Err(m) && m@ == "invalid value for env var: "@ + key@,
        },
        r matches Ok(n) ==> n <= max && setting(*v, default as int, max as int) == Some(n as int),
{
    match v {
        None => Ok(default),
        Some(t) => match parse_unsigned(t.as_str(), max) {
            Some(n) => Ok(n),
            None => {
                let mut m = chars_of("invalid value for env var: ");
                push_str(&mut m, key);
                Err(string_of(&m))
            },
        },
    }
}

fn read_text(v: &Option<String>, default: &str) -> (r: String)
    ensures
        r@ == text_setting(*v, default@),
{
    match v {
        None => text_of(default),
        Some(t) => t.clone(),
    }
}

impl AppConfig {
    /// Reads the settings from environment values: `DATABASE_URL` is
    /// required; the pool takes 5 connections at most and 1 at least and
    /// waits 5 seconds; the server listens on 0.0.0.0:8080; the application
    /// is `rental-api` in `development`, unless the environment says
    /// otherwise.
    pub fn from_env_values(env: &EnvValues) -> (r: Result<AppConfig, String>)
        ensures
            r is Err <==> config_failure(*env) is Some,
            r matches Err(m) ==> m@ == config_failure(*env)->0,
            r matches Ok(c) ==> {
                &&& c.database_url@ == env.database_url->0@
                &&& c.database_max_connections == setting(env.database_max_connections, 5, u32::MAX as int)->0
                &&& c.database_min_connections == setting(env.database_min_connections, 1, u32::MAX as int)->0
                &&& c.database_connect_timeout_secs == setting(env.database_connect_timeout_secs, 5, u64::MAX as int)->0
                &&& c.server_host@ == text_setting(env.server_host, "0.0.0.0"@)
                &&& c.server_port == setting(env.server_port, 8080, u16::MAX as int)->0
                &&& c.app_name@ == text_setting(env.app_name, "rental-api"@)
                &&& c.app_env@ == text_setting(env.app_env, "development"@)
            },
    {
        let database_url = match &env.database_url {
            Some(u) => u.clone(),
            None => {
                return Err(text_of("missing required env var: DATABASE_URL"));
            },
        };
        let max_conn = match read_setting(&env.database_max_connections, "DATABASE_MAX_CONNECTIONS", 5, u32::MAX as u64) {
            Ok(n) => n,
            Err(m) => {
                return Err(m);
            },
        };
        let min_conn = match read_setting(&env.database_min_connections, "DATABASE_MIN_CONNECTIONS", 1, u32::MAX as u64) {
            Ok(n) => n,
            Err(m) => {
                return Err(m);
            },
        };
        let timeout = match read_setting(&env.database_connect_timeout_secs, "DATABASE_CONNECT_TIMEOUT_SECS", 5, u64::MAX) {
            Ok(n) => n,
            Err(m) => {
                return Err(m);
            },
        };
        let port = match read_setting(&env.server_port, "SERVER_PORT", 8080, u16::MAX as u64) {
            Ok(n) => n,
            Err(m) => {
                return Err(m);
            },
        };
        Ok(
            AppConfig {
                database_url,
                database_max_connections: max_conn as u32,
                database_min_connections: min_conn as u32,
                database_connect_timeout_secs: timeout,
                server_host: read_text(&env.server_host, "0.0.0.0"),
                server_port: port as u16,
                app_name: read_text(&env.app_name, "rental-api"),
                app_env: read_text(&env.app_env, "development"),
            },
        )
    }

    /// The address the server binds: `host:port`.
    pub fn server_addr(&self) -> (r: String)
        ensures
            r@ == self.server_host@ + ":"@ + digits_of(self.server_port as nat),
    {
        let mut v = chars_of(self.server_host.as_str());
        push_str(&mut v, ":");
        push_digits(self.server_port as u64, &mut v);
        string_of(&v)
    }

    /// Whether the service runs in the development environment.
    pub fn is_development(&self) -> (r: bool)
        ensures
            r == (self.app_env@ == "development"@),
    {
        same_text(self.app_env.as_str(), "development")
    }
}

} // verus!
