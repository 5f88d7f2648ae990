use rental_api::config::{parse_unsigned, AppConfig, EnvValues};
use rental_api::text::{chars_of, decimal_string, same_text};

fn env() -> EnvValues {
    EnvValues {
        database_url: Some("postgres://localhost/rental".to_string()),
        database_max_connections: None,
        database_min_connections: None,
        database_connect_timeout_secs: None,
        server_host: None,
        server_port: None,
        app_name: None,
        app_env: None,
    }
}

#[test]
fn defaults_apply_when_unset() {
    let c = AppConfig::from_env_values(&env()).unwrap();
    assert_eq!(c.database_url, "postgres://localhost/rental");
    assert_eq!(c.database_max_connections, 5);
    assert_eq!(c.database_min_connections, 1);
    assert_eq!(c.database_connect_timeout_secs, 5);
    assert_eq!(c.server_host, "0.0.0.0");
    assert_eq!(c.server_port, 8080);
    assert_eq!(c.app_name, "rental-api");
    assert_eq!(c.app_env, "development");
    assert!(c.is_development());
    assert_eq!(c.server_addr(), "0.0.0.0:8080");
}

#[test]
fn settings_override_defaults() {
    let mut e = env();
    e.server_host = Some("127.0.0.1".to_string());
    e.server_port = Some("+9000".to_string());
    e.database_max_connections = Some("20".to_string());
    e.app_env = Some("production".to_string());
    let c = AppConfig::from_env_values(&e).unwrap();
    assert_eq!(c.server_addr(), "127.0.0.1:9000");
    assert_eq!(c.database_max_connections, 20);
    assert!(!c.is_development());
}

#[test]
fn missing_url_and_bad_numbers_are_refused() {
    let mut e = env();
    e.database_url = None;
    e.server_port = Some("x".to_string());
    assert_eq!(AppConfig::from_env_values(&e).unwrap_err(), "missing required env var: DATABASE_URL");
    let mut e = env();
    e.server_port = Some("70000".to_string());
    assert_eq!(AppConfig::from_env_values(&e).unwrap_err(), "invalid value for env var: SERVER_PORT");
    let mut e = env();
    e.database_min_connections = Some("-1".to_string());
    e.server_port = Some("".to_string());
    assert_eq!(AppConfig::from_env_values(&e).unwrap_err(), "invalid value for env var: DATABASE_MIN_CONNECTIONS");
}

#[test]
fn unsigned_parsing_matches_from_str() {
    for s in ["0", "42", "+7", "65535", "65536", "", "+", "-1", " 1", "1a", "007"] {
        assert_eq!(parse_unsigned(s, u16::MAX as u64), s.parse::<u16>().ok().map(|v| v as u64), "{s}");
    }
    assert_eq!(parse_unsigned("18446744073709551615", u64::MAX), Some(u64::MAX));
    assert_eq!(parse_unsigned("18446744073709551616", u64::MAX), None);
}

#[test]
fn text_helpers() {
    assert_eq!(chars_of("añb"), vec!['a', 'ñ', 'b']);
    assert_eq!(decimal_string(-120), "-120");
    assert_eq!(decimal_string(0), "0");
    assert_eq!(decimal_string(i64::MIN), i64::MIN.to_string());
    assert!(same_text("abc", "abc"));
    assert!(!same_text("abc", "abd"));
    assert!(!same_text("ab", "abc"));
}
