use env_monitor::chart::{prepare_chart, split_chars};
use env_monitor::decimal::Decimal;
use env_monitor::location::Location;
use env_monitor::overview::render_overview;
use env_monitor::reading::{header, Reading, RejectReason};
use env_monitor::registry::{new_file_text, IngestPlan, IngestStatus, LocationInfo, Registry};
use env_monitor::time::{is_stale, Timestamp};
use std::collections::HashMap;

fn at(epoch_secs: i64, hour: u8, minute: u8, second: u8) -> Timestamp {
    Timestamp { epoch_secs, year: 2024, month: 3, day: 5, hour, minute, second }
}

/// Runs one ingestion against in-memory log files, as the endpoint does.
fn ingest(
    reg: &mut Registry,
    files: &mut HashMap<String, String>,
    loc: &str,
    t: &str,
    h: &str,
    now: Timestamp,
) -> IngestStatus {
    let reading = Reading::from_request(loc, t, h, now).unwrap();
    let row = reading.format_to_file();
    let location = reading.location();
    match reg.begin_ingest(&location) {
        IngestPlan::AppendTo { index } => {
            files.get_mut(location.as_str()).unwrap().push_str(&row);
            reg.finish_append(index, now)
        }
        IngestPlan::OpenLog => {
            let existed = files.contains_key(location.as_str());
            let text = new_file_text(existed, &row);
            files.entry(location.as_str().to_string()).or_default().push_str(&text);
            reg.finish_open(location, now, true)
        }
    }
}

#[test]
fn kitchen_scenario() {
    let mut reg = Registry::new();
    let mut files = HashMap::new();
    let first = ingest(&mut reg, &mut files, "kitchen", "22.0", "45.0", at(1000, 14, 7, 9));
    assert_eq!(first, IngestStatus::Created);
    assert_eq!(
        files["kitchen"],
        "Date,Time,Temperature,Humidity\n03/05/2024,02:07:09 PM,71.6,45\n"
    );
    let second = ingest(&mut reg, &mut files, "kitchen", "22.0", "45.0", at(1060, 14, 8, 9));
    assert_eq!(second, IngestStatus::Appended);
    assert_eq!(
        files["kitchen"],
        "Date,Time,Temperature,Humidity\n03/05/2024,02:07:09 PM,71.6,45\n03/05/2024,02:08:09 PM,71.6,45\n"
    );
}

#[test]
fn header_written_once() {
    let mut reg = Registry::new();
    let mut files = HashMap::new();
    ingest(&mut reg, &mut files, "attic", "10", "50", at(1, 0, 0, 0));
    ingest(&mut reg, &mut files, "attic", "11", "51", at(2, 0, 0, 1));
    assert_eq!(files["attic"].matches("Date,Time").count(), 1);
    assert!(files["attic"].starts_with("Date,Time,Temperature,Humidity\n"));
    assert_eq!(files["attic"].lines().count(), 3);
}

#[test]
fn existing_file_gets_no_second_header() {
    let mut reg = Registry::new();
    let mut files = HashMap::new();
    files.insert("porch".to_string(), "Date,Time,Temperature,Humidity\nold\n".to_string());
    let st = ingest(&mut reg, &mut files, "porch", "0", "0", at(1, 0, 0, 0));
    assert_eq!(st, IngestStatus::Created);
    assert_eq!(files["porch"], "Date,Time,Temperature,Humidity\nold\n03/05/2024,12:00:00 AM,32,0\n");
}

#[test]
fn two_locations_keep_their_own_rows() {
    let mut reg = Registry::new();
    let mut files = HashMap::new();
    ingest(&mut reg, &mut files, "a", "1", "10", at(1, 1, 0, 0));
    ingest(&mut reg, &mut files, "b", "2", "20", at(2, 2, 0, 0));
    ingest(&mut reg, &mut files, "a", "3", "30", at(3, 3, 0, 0));
    ingest(&mut reg, &mut files, "b", "4", "40", at(4, 4, 0, 0));
    let a = prepare_chart(&files["a"]);
    let b = prepare_chart(&files["b"]);
    let temps = |c: &env_monitor::chart::ChartData| {
        c.points.iter().map(|p| p.temperature.to_text()).collect::<Vec<_>>()
    };
    assert_eq!(temps(&a), vec!["33.8", "37.4"]);
    assert_eq!(temps(&b), vec!["35.6", "39.2"]);
    assert_eq!(reg.len(), 2);
}

#[test]
fn failed_open_leaves_registry_unchanged() {
    let mut reg = Registry::new();
    let loc = Location::new("cellar");
    assert_eq!(reg.begin_ingest(&loc), IngestPlan::OpenLog);
    assert_eq!(reg.finish_open(loc, at(1, 0, 0, 0), false), IngestStatus::Failed);
    assert_eq!(reg.len(), 0);
    assert_eq!(reg.begin_ingest(&Location::new("cellar")), IngestPlan::OpenLog);
}

#[test]
fn requests_are_checked() {
    let now = at(1, 0, 0, 0);
    assert_eq!(Reading::from_request("", "1", "1", now).err(), Some(RejectReason::UnsafeLocation));
    assert_eq!(
        Reading::from_request("../etc", "1", "1", now).err(),
        Some(RejectReason::UnsafeLocation)
    );
    assert_eq!(Reading::from_request("k", "x", "1", now).err(), Some(RejectReason::BadTemperature));
    assert_eq!(
        Reading::from_request("k", "12345678901234567", "1", now).err(),
        Some(RejectReason::BadTemperature)
    );
    assert_eq!(Reading::from_request("k", "1", "", now).err(), Some(RejectReason::BadHumidity));
    let e = Reading::from_request("k", "2.2e1", "4.5E1", now).unwrap();
    assert_eq!(e.temperature().to_text(), "71.6");
    assert_eq!(e.humidity().to_text(), "45");
    let r = Reading::from_request("k", "-40", "120.5", now).unwrap();
    assert_eq!(r.temperature().to_text(), "-40");
    assert_eq!(r.humidity(), Decimal { mantissa: 100, scale: 0 });
    assert_eq!(r.path(), "k.csv");
    assert_eq!(r.location().as_str(), "k");
    assert_eq!(r.reading_time(), now);
}

#[test]
fn log_round_trip() {
    let now = at(5, 23, 59, 59);
    let r = Reading::from_request("den", "23.4", "41.2", now).unwrap();
    let text = header() + &r.format_to_file();
    let chart = prepare_chart(&text);
    assert_eq!(chart.points.len(), 1);
    assert_eq!(chart.points[0].index, 1);
    assert_eq!(chart.points[0].temperature.to_text(), "74.12");
    assert_eq!(chart.points[0].humidity.to_text(), "41.2");
    assert!(chart.has_data());
    assert_eq!(chart.y_max, Decimal { mantissa: 100, scale: 0 });
}

#[test]
fn downsampling_keeps_most_recent() {
    let mut text = String::from("Date,Time,Temperature,Humidity\n");
    for i in 0..150 {
        text.push_str(&format!("03/05/2024,01:00:00 AM,{},{}\n", i, 150 - i));
    }
    let chart = prepare_chart(&text);
    assert_eq!(chart.points.len(), 100);
    for (j, p) in chart.points.iter().enumerate() {
        assert_eq!(p.index, j as u64);
        assert_eq!(p.temperature, Decimal { mantissa: 50 + j as i64, scale: 0 });
        assert_eq!(p.humidity, Decimal { mantissa: 100 - j as i64, scale: 0 });
    }
    assert_eq!(chart.y_max, Decimal { mantissa: 149, scale: 0 });
}

#[test]
fn malformed_rows_are_skipped() {
    let text = "Date,Time,Temperature,Humidity\nbad\n03/05/2024,01:00:00 AM,70.5,40\n,,x,1\n";
    let chart = prepare_chart(text);
    assert_eq!(chart.points.len(), 1);
    assert_eq!(chart.points[0].index, 2);
    assert_eq!(chart.y_max, Decimal { mantissa: 100, scale: 0 });
}

#[test]
fn empty_log_has_no_chart() {
    assert!(!prepare_chart("").has_data());
    assert!(!prepare_chart("Date,Time,Temperature,Humidity\n").has_data());
}

#[test]
fn split_keeps_empty_pieces() {
    let v: Vec<char> = "a,,b,".chars().collect();
    let parts: Vec<String> = split_chars(&v, ',').into_iter().map(|p| p.into_iter().collect()).collect();
    assert_eq!(parts, vec!["a", "", "b", ""]);
}

#[test]
fn locations_and_paths() {
    let l = Location::new("Kitchen");
    assert_eq!(l.as_str(), "Kitchen");
    assert_eq!(l.path(), "Kitchen.csv");
    assert!(l.is_safe());
    assert!(!Location::new("a/b").is_safe());
    assert!(!Location::new("a\\b").is_safe());
    assert!(!Location::new("").is_safe());
    assert_eq!(Location::from_file_name("garage.csv").map(|l| l.as_str().to_string()), Some("garage".to_string()));
    assert!(Location::from_file_name(".csv").is_none());
    assert!(Location::from_file_name("notes.txt").is_none());
    assert_eq!(Location::from_string("x".to_string()).duplicate().as_str(), "x");
}

#[test]
fn registry_from_directory() {
    let names: Vec<String> = ["kitchen.csv", "notes.txt", "kitchen.csv", "garage.csv", ".csv"]
        .iter()
        .map(|s| s.to_string())
        .collect();
    let reg = Registry::from_file_names(&names);
    assert_eq!(reg.len(), 2);
    assert_eq!(reg.entry(0).0.as_str(), "kitchen");
    assert_eq!(reg.entry(1).0.as_str(), "garage");
    assert_eq!(reg.entry(0).1, None);
    assert_eq!(reg.lookup(&Location::new("garage")), Some(1));
    assert_eq!(reg.lookup(&Location::new("Garage")), None);
}

#[test]
fn location_info_tracks_writes() {
    let mut info = LocationInfo::new();
    assert_eq!(info.get_last_modified(), None);
    info.mark_written(at(9, 1, 2, 3));
    assert_eq!(info.get_last_modified(), Some(at(9, 1, 2, 3)));
}

#[test]
fn staleness() {
    let now = at(2000, 10, 0, 0);
    assert!(is_stale(None, &now));
    assert!(is_stale(Some(at(1399, 9, 0, 0)), &now));
    assert!(!is_stale(Some(at(1400, 9, 0, 0)), &now));
}

#[test]
fn overview_flags_missing_locations() {
    let mut reg = Registry::new();
    let mut files = HashMap::new();
    ingest(&mut reg, &mut files, "fresh", "20", "50", at(1000, 13, 5, 0));
    let names = vec!["idle.csv".to_string()];
    let boot = Registry::from_file_names(&names);
    assert_eq!(boot.len(), 1);
    let page = render_overview(&reg, &at(1100, 13, 6, 40));
    assert_eq!(
        page,
        "<h1>All Sensors</h1><table  style=\"border:1px solid black;\"><tr><th>Sensor Name</th><th>Last Modified</th></tr>\
<tr><td style=\"border:1px solid black;\"><a href=\"/plot/fresh\">fresh</a></td> <td style=\"border:1px solid black;\">03/05/2024 01:05:00 PM</td></tr>\
<br></table>"
    );
    let later = render_overview(&reg, &at(1700, 13, 15, 0));
    assert!(later.contains("MIA Sensor: fresh, Last modified: 03/05/2024 01:05:00 PM"));
    let idle = render_overview(&boot, &at(1, 0, 0, 0));
    assert!(idle.contains("<td style=\"border:1px solid black;\">Not modified</td>"));
    assert!(idle.contains("MIA Sensor: idle, Last modified: Not modified"));
}

#[test]
fn timestamp_texts() {
    let t = at(0, 0, 5, 9);
    assert_eq!(t.date_text(), "03/05/2024");
    assert_eq!(t.time_text(), "12:05:09 AM");
    assert_eq!(at(0, 12, 0, 0).time_text(), "12:00:00 PM");
    assert_eq!(at(0, 23, 59, 59).time_text(), "11:59:59 PM");
    let far = Timestamp { epoch_secs: 0, year: 12345, month: 1, day: 2, hour: 0, minute: 0, second: 0 };
    assert_eq!(far.date_text(), "01/02/+12345");
    let early = Timestamp { epoch_secs: 0, year: 7, month: 1, day: 2, hour: 0, minute: 0, second: 0 };
    assert_eq!(early.date_text(), "01/02/0007");
    let neg = Timestamp { epoch_secs: 0, year: -7, month: 1, day: 2, hour: 0, minute: 0, second: 0 };
    assert_eq!(neg.date_text(), "01/02/-0007");
}

#[test]
fn readings_are_stamped_now() {
    let r = Reading::from_path_params("k", "1", "2").unwrap();
    assert_eq!(r.temperature().to_text(), "33.8");
    assert_eq!(r.humidity().to_text(), "2");
    assert_eq!(Reading::from_path_params("k", "1", "z").err(), Some(RejectReason::BadHumidity));
    let t = r.reading_time();
    assert!((1..=12).contains(&t.month));
    assert!((1..=31).contains(&t.day));
    assert!(t.hour < 24 && t.minute < 60 && t.second < 60);
    assert!(t.epoch_secs > 1_500_000_000);
    assert_eq!(t.date_text().len(), 10);
    assert_eq!(t.time_text().len(), 11);
}

#[test]
fn overview_now_lists_locations() {
    let names = vec!["shed.csv".to_string()];
    let reg = Registry::from_file_names(&names);
    let page = env_monitor::overview::render_overview_now(&reg);
    assert!(page.contains("<a href=\"/plot/shed\">shed</a>"));
    assert!(page.contains("MIA Sensor: shed, Last modified: Not modified"));
}

#[test]
fn rows_read_back_at_their_index() {
    let mut log = header();
    for i in 0..120 {
        let r = Reading::from_request("k", &format!("{}.5", i), &format!("{}", i % 90), at(i, 1, 0, 0)).unwrap();
        log.push_str(&r.format_to_file());
    }
    let chart = prepare_chart(&log);
    assert_eq!(chart.points.len(), 100);
    // row 50 (from 0) of 120 sits at position 30 of the retained points
    let p = chart.points[30];
    assert_eq!(p.index, 30);
    assert_eq!(p.temperature, Decimal::parse("50.5").unwrap().celsius_to_fahrenheit().normalize());
    assert_eq!(p.humidity, Decimal { mantissa: 50, scale: 0 });
    let short = prepare_chart(&(header() + &Reading::from_request("k", "1", "2", at(0, 0, 0, 0)).unwrap().format_to_file()
        + &Reading::from_request("k", "3", "4", at(0, 0, 0, 0)).unwrap().format_to_file()));
    assert_eq!(short.points[1].index, 2);
    assert_eq!(short.points[1].humidity, Decimal { mantissa: 4, scale: 0 });
}
