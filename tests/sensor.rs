use env_monitor::decimal::Decimal;
use env_monitor::sensor::{
    aht20_humidity_raw, aht20_init_bytes, aht20_is_calibrated, aht20_temperature_raw, decode_aht20,
    decode_sht40, select_sensor, sht40_serial_number, SHT40Mode, Sensor,
};

fn hundredths(m: i64) -> Decimal {
    Decimal { mantissa: m, scale: 2 }
}

#[test]
fn variant_b_decodes_documented_buffer() {
    let sensor = Sensor::Sht40 { mode: SHT40Mode::NoHeatHighPrecision };
    let buf = [0x66u8, 0x39, 0x2E, 0x43, 0x33, 0x5C];
    assert_eq!(sensor.response_len(), 6);
    let r = sensor.decode(&buf);
    assert_eq!(r.temperature, hundredths(2487));
    assert_eq!(r.humidity, hundredths(2681));
    // the documented formulas, in floating point
    let t: f32 = -45.0 + 175.0 * (0x6639 as f32) / 65535.0;
    let h: f32 = -6.0 + 125.0 * (0x4333 as f32) / 65535.0;
    assert!((t - r.temperature.mantissa as f32 / 100.0) >= 0.0 && (t - r.temperature.mantissa as f32 / 100.0) < 0.01);
    assert!((h - r.humidity.mantissa as f32 / 100.0) >= 0.0 && (h - r.humidity.mantissa as f32 / 100.0) < 0.01);
    assert_eq!(r.temperature.to_text(), "24.87");
    assert_eq!(r.humidity.to_text(), "26.81");
}

#[test]
fn variant_b_humidity_is_clamped() {
    let low = decode_sht40(&[0x66, 0x39, 0x00, 0x00, 0x00, 0x00]);
    assert_eq!(low.humidity, hundredths(0));
    let high = decode_sht40(&[0x66, 0x39, 0x00, 0xFF, 0xFF, 0x00]);
    assert_eq!(high.humidity, hundredths(10000));
    assert_eq!(high.temperature, hundredths(2487));
}

#[test]
fn variant_a_decodes_fields() {
    let buf = [0x1Cu8, 0x80, 0x00, 0x05, 0x99, 0x9A, 0x00];
    assert_eq!(aht20_humidity_raw(&buf), 524288);
    assert_eq!(aht20_temperature_raw(&buf), 367002);
    let r = decode_aht20(&buf);
    assert_eq!(r.temperature, hundredths(2000));
    assert_eq!(r.humidity, hundredths(5000));
    let t: f32 = 367002.0 / 1048576.0 * 200.0 - 50.0;
    assert!((t - r.temperature.mantissa as f32 / 100.0) >= 0.0 && (t - r.temperature.mantissa as f32 / 100.0) < 0.01);
}

#[test]
fn variant_a_decoding_is_deterministic() {
    let buf = [0x1Cu8, 0x6B, 0x2F, 0x15, 0x52, 0x81, 0x3A];
    let a = decode_aht20(&buf);
    let b = decode_aht20(&buf);
    assert_eq!(a, b);
    let via_driver = Sensor::Aht20.decode(&buf);
    assert_eq!(a, via_driver);
}

#[test]
fn variant_a_extremes() {
    let zero = decode_aht20(&[0, 0, 0, 0, 0, 0, 0]);
    assert_eq!(zero.temperature, hundredths(-5000));
    assert_eq!(zero.humidity, hundredths(0));
    let full = decode_aht20(&[0xFF; 7]);
    assert_eq!(full.temperature, hundredths(14999));
    assert_eq!(full.humidity, hundredths(9999));
    let t: f32 = 1048575.0 / 1048576.0 * 200.0 - 50.0;
    assert!(t < 150.0 && full.temperature.mantissa as f32 / 100.0 <= t);
}

#[test]
fn mode_command_bytes_and_delays() {
    let cases = [
        (SHT40Mode::NoHeatHighPrecision, 0xfdu8, 10u64),
        (SHT40Mode::NoHeatMedPrecision, 0xf6, 5),
        (SHT40Mode::NoHeatLowPrecision, 0xe0, 2),
        (SHT40Mode::HighHeat1s, 0x39, 1100),
        (SHT40Mode::HighHeat100ms, 0x32, 110),
        (SHT40Mode::MedHeat1s, 0x2f, 1100),
        (SHT40Mode::MedHeat100ms, 0x24, 110),
        (SHT40Mode::LowHeat1s, 0x1e, 1100),
        (SHT40Mode::LowHeat100ms, 0x15, 110),
    ];
    for (mode, byte, delay) in cases {
        assert_eq!(mode.to_byte(), byte);
        assert_eq!(mode.get_delay(), delay);
        let s = Sensor::Sht40 { mode };
        assert_eq!(s.measure_command(), vec![byte]);
        assert_eq!(s.conversion_delay_ms(), delay);
        assert_eq!(s.address(), 0x44);
    }
}

#[test]
fn variant_a_commands() {
    assert_eq!(Sensor::Aht20.measure_command(), vec![0xAC, 0x33, 0x00]);
    assert_eq!(aht20_init_bytes(), vec![0xBE, 0x08, 0x00]);
    assert_eq!(Sensor::Aht20.address(), 0x38);
    assert_eq!(Sensor::Aht20.response_len(), 7);
    assert_eq!(Sensor::Aht20.conversion_delay_ms(), 80);
}

#[test]
fn calibration_bit() {
    assert!(aht20_is_calibrated(0x08));
    assert!(aht20_is_calibrated(0x1C));
    assert!(!aht20_is_calibrated(0x10));
    assert!(!aht20_is_calibrated(0x00));
}

#[test]
fn serial_number_skips_checksums() {
    let buf = [0x12u8, 0x34, 0xAA, 0x56, 0x78, 0xBB];
    assert_eq!(sht40_serial_number(&buf), 0x12345678);
}

#[test]
fn sensor_selection_prefers_variant_a() {
    assert_eq!(select_sensor(true, true), Some(Sensor::Aht20));
    assert_eq!(select_sensor(true, false), Some(Sensor::Aht20));
    assert_eq!(
        select_sensor(false, true),
        Some(Sensor::Sht40 { mode: SHT40Mode::NoHeatHighPrecision })
    );
    assert_eq!(select_sensor(false, false), None);
}

#[test]
fn set_mode_changes_only_variant_b() {
    let mut b = Sensor::Sht40 { mode: SHT40Mode::NoHeatHighPrecision };
    b.set_mode(SHT40Mode::LowHeat100ms);
    assert_eq!(b, Sensor::Sht40 { mode: SHT40Mode::LowHeat100ms });
    let mut a = Sensor::Aht20;
    a.set_mode(SHT40Mode::LowHeat100ms);
    assert_eq!(a, Sensor::Aht20);
}
