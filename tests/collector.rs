use env_monitor::collector::{
    after_poll, decode_serial_frame, device_log_path, get_timestamp_text, log_due, parse_device_list,
    parse_env_stat, timestamp_text_at, EnvStat, EnvStatGetError,
};
use env_monitor::decimal::Decimal;
use env_monitor::time::Timestamp;

fn d(m: i64, s: u32) -> Decimal {
    Decimal { mantissa: m, scale: s }
}

#[test]
fn test_get_timestamp_text() {
    let stat = EnvStat { temp: d(243, 1), humid: d(301, 1) };
    let text = get_timestamp_text(&stat);
    println!("{}", text);
    assert!(text.ends_with(",24.3,30.1\n"));
    assert_eq!(text.matches('/').count(), 2);
    assert!(text.contains(" AM,") || text.contains(" PM,"));
}

#[test]
fn timestamp_text_at_fixed_time() {
    let stat = EnvStat { temp: d(243, 1), humid: d(301, 1) };
    let now = Timestamp { epoch_secs: 0, year: 2022, month: 11, day: 26, hour: 17, minute: 19, second: 53 };
    assert_eq!(timestamp_text_at(&stat, &now), "11/26/2022 5:19:53 PM,24.3,30.1\n");
    let midnight = Timestamp { epoch_secs: 0, year: 2023, month: 1, day: 2, hour: 0, minute: 5, second: 0 };
    assert_eq!(timestamp_text_at(&stat, &midnight), "1/2/2023 12:05:00 AM,24.3,30.1\n");
}

#[test]
fn test_read_device_list() {
    let list = parse_device_list("10.0.0.134,kitchen,10.0.0.135,garage,10.0.0.136");
    for (ip, device_name) in &list {
        println!("IP: {}, Device name: {}", ip, device_name);
    }
    assert_eq!(
        list,
        vec![
            ("10.0.0.134".to_string(), "kitchen".to_string()),
            ("10.0.0.135".to_string(), "garage".to_string()),
        ]
    );
    assert!(parse_device_list("").is_empty());
}

#[test]
fn serial_frames() {
    let f = decode_serial_frame("xxT:23.5:H:41:yy");
    assert_eq!(f.temperature, Some(d(235, 1)));
    assert_eq!(f.humidity, Some(d(41, 0)));
    let partial = decode_serial_frame("T:23.5");
    assert_eq!(partial.temperature, None);
    assert_eq!(partial.humidity, None);
    let bad = decode_serial_frame("T:abc:H:50.5:");
    assert_eq!(bad.temperature, None);
    assert_eq!(bad.humidity, Some(d(505, 1)));
}

#[test]
fn env_stat_bodies() {
    assert_eq!(parse_env_stat("24.4,31"), Ok(EnvStat { temp: d(244, 1), humid: d(31, 0) }));
    assert_eq!(parse_env_stat("24.4"), Err(EnvStatGetError::ParseErrorLength));
    assert_eq!(parse_env_stat("1e2,3"), Ok(EnvStat { temp: d(100, 0), humid: d(3, 0) }));
    assert_eq!(parse_env_stat("+.5,5."), Ok(EnvStat { temp: d(5, 1), humid: d(5, 0) }));
    assert_eq!(parse_env_stat("x,31"), Err(EnvStatGetError::ParseError));
    assert_eq!(parse_env_stat("24.4,y"), Err(EnvStatGetError::ParseError));
}

#[test]
fn polling_decisions() {
    let s = EnvStat { temp: d(1, 0), humid: d(2, 0) };
    assert_eq!(after_poll(Ok(s)), (s, true));
    assert_eq!(after_poll(Err(EnvStatGetError::UrlFailed)), (EnvStat { temp: d(0, 0), humid: d(0, 0) }, false));
    assert!(log_due(0, 61));
    assert!(!log_due(0, 60));
    assert!(!log_due(100, 50));
    assert_eq!(device_log_path("kitchen"), "./log/kitchen.csv");
}
