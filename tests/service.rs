use samson::api::{messages_response, ApiResponse, STATUS_BAD_REQUEST, STATUS_INTERNAL_ERROR, STATUS_OK};
use samson::config::{parse_unsigned, Config, ConfigError};
use samson::db::{Database, SmsMessage};
use samson::modem::{is_modem_object, sort_modems, ModemInfo};
use samson::utils::Timestamp;

#[test]
fn success_envelope() {
    let r = ApiResponse::success(5u32);
    assert!(r.success);
    assert_eq!(r.data, Some(5));
    assert_eq!(r.error, None);
    assert_eq!(r.status(), STATUS_OK);
}

#[test]
fn error_envelope() {
    let r = ApiResponse::<()>::error("boom".to_string());
    assert!(!r.success);
    assert_eq!(r.data, None);
    assert_eq!(r.error.as_deref(), Some("boom"));
    assert_eq!(r.status(), STATUS_INTERNAL_ERROR);
    let (status, r) = ApiResponse::<()>::error_with_status("bad".to_string(), 404);
    assert_eq!(status, 404);
    assert_eq!(r.error.as_deref(), Some("bad"));
}

fn store() -> Database {
    let mut db = Database::new();
    for (secs, text) in [(300, "c"), (100, "a"), (200, "b")] {
        db.insert_message(&SmsMessage {
            id: None,
            imei: "dev".to_string(),
            sender: "s".to_string(),
            text: text.to_string(),
            timestamp: Timestamp::new(1704067200 + secs, 0),
        })
        .unwrap();
    }
    db
}

#[test]
fn query_with_bad_bound_is_bad_request() {
    let (status, r) = messages_response(&store(), "dev", Some("yesterday"));
    assert_eq!(status, STATUS_BAD_REQUEST);
    assert!(!r.success);
    assert_eq!(r.error.as_deref(), Some("Invalid 'after' timestamp format. Expected RFC3339: yesterday"));
}

#[test]
fn query_with_short_offset_bound() {
    // 01:01:40+01 is 00:01:40Z, 100 s after the new year
    let (status, r) = messages_response(&store(), "dev", Some("2024-01-01T01:01:40+01"));
    assert_eq!(status, STATUS_OK);
    let texts: Vec<String> = r.data.unwrap().into_iter().map(|m| m.text).collect();
    assert_eq!(texts, vec!["b".to_string(), "c".to_string()]);
}

#[test]
fn query_without_bound() {
    let (status, r) = messages_response(&store(), "dev", None);
    assert_eq!(status, STATUS_OK);
    assert!(r.success);
    assert_eq!(r.data.unwrap().len(), 3);
    let (_, r) = messages_response(&store(), "other", None);
    assert!(r.data.unwrap().is_empty());
}

#[test]
fn unsigned_numbers() {
    assert_eq!(parse_unsigned("42", u64::MAX), Some(42));
    assert_eq!(parse_unsigned("+7", u64::MAX), Some(7));
    assert_eq!(parse_unsigned("18446744073709551615", u64::MAX), Some(u64::MAX));
    assert_eq!(parse_unsigned("18446744073709551616", u64::MAX), None);
    assert_eq!(parse_unsigned("65536", 65535), None);
    assert_eq!(parse_unsigned("", 10), None);
    assert_eq!(parse_unsigned("+", 10), None);
    assert_eq!(parse_unsigned("-1", 10), None);
    assert_eq!(parse_unsigned("1a", 10), None);
}

#[test]
fn config_defaults() {
    let c = Config::from_values(None, None, None, None, None, None).unwrap();
    assert_eq!(c.db_path, "samson.db");
    assert_eq!(c.poll_interval, 1);
    assert_eq!(c.api_host, "0.0.0.0");
    assert_eq!(c.api_port, 3030);
    assert_eq!(c.metrics_host, "0.0.0.0");
    assert_eq!(c.metrics_port, 9090);
}

#[test]
fn config_values_and_errors() {
    let c = Config::from_values(Some("x.db".to_string()), Some("5"), Some("127.0.0.1".to_string()), Some("80"), None, Some("0")).unwrap();
    assert_eq!(c.db_path, "x.db");
    assert_eq!(c.poll_interval, 5);
    assert_eq!(c.api_port, 80);
    assert_eq!(c.metrics_port, 0);
    assert_eq!(Config::from_values(None, Some("0"), None, None, None, None).unwrap_err(), ConfigError::ZeroPollInterval);
    assert_eq!(Config::from_values(None, Some("x"), None, None, None, None).unwrap_err(), ConfigError::InvalidPollInterval);
    assert_eq!(Config::from_values(None, None, None, Some("70000"), None, None).unwrap_err(), ConfigError::InvalidApiPort);
    assert_eq!(Config::from_values(None, None, None, None, None, Some("p")).unwrap_err(), ConfigError::InvalidMetricsPort);
}

#[test]
fn modems_sorted_by_path() {
    let ms = vec![
        ModemInfo { path: "/org/m/2".to_string(), imei: "b".to_string() },
        ModemInfo { path: "/org/m/10".to_string(), imei: "c".to_string() },
        ModemInfo { path: "/org/m/1".to_string(), imei: "a".to_string() },
    ];
    let sorted = sort_modems(&ms);
    let paths: Vec<&str> = sorted.iter().map(|m| m.path.as_str()).collect();
    assert_eq!(paths, vec!["/org/m/1", "/org/m/10", "/org/m/2"]);
    assert!(sort_modems(&vec![]).is_empty());
}

#[test]
fn modem_objects_recognised() {
    let yes = vec!["org.freedesktop.ModemManager1.Sim".to_string(), "org.freedesktop.ModemManager1.Modem".to_string()];
    let no = vec!["org.freedesktop.ModemManager1.Modem.Messaging".to_string()];
    assert!(is_modem_object(&yes));
    assert!(!is_modem_object(&no));
    assert!(!is_modem_object(&vec![]));
}
