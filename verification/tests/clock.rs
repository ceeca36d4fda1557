use specmatrix::clock::time_vars;
use std::collections::HashMap;

fn vars_at(secs: i64, nanos: u32, lookback: i64) -> HashMap<&'static str, String> {
    time_vars(secs, nanos, lookback).into_iter().collect()
}

fn now() -> chrono::DateTime<chrono::Utc> {
    chrono::Utc::now()
}

fn vars_now(at: chrono::DateTime<chrono::Utc>, lookback: i64) -> HashMap<&'static str, String> {
    vars_at(at.timestamp(), at.timestamp_subsec_nanos(), lookback)
}

#[test]
fn now_ns_is_close_to_now() {
    let now = now();
    let vars = vars_now(now, 730);
    let sent: i128 = vars["now_ns"].parse().expect("an integer");
    let actual = now.timestamp_nanos_opt().unwrap() as i128;
    assert!((sent - actual).abs() < 1_000_000_000, "sent {sent}, now {actual}");
}

#[test]
fn now_ns_fractional_carries_known_low_digits() {
    let now = now();
    let vars = vars_now(now, 730);
    let value = &vars["now_ns_fractional"];
    assert!(value.ends_with("123456789"), "got {value}");
    let seconds: i64 = value[..value.len() - 9].parse().expect("an integer");
    assert_eq!(seconds, now.timestamp());
}

#[test]
fn the_lookback_window_is_configurable() {
    let now = now();
    let vars = vars_now(now, 29);
    let start: i128 = vars["window_start_ns"].parse().unwrap();
    let days = (now.timestamp_nanos_opt().unwrap() as i128 - start) / 86_400_000_000_000;
    assert_eq!(days, 29);
}

#[test]
fn microseconds_and_milliseconds_are_offered() {
    let now = now();
    let vars = vars_now(now, 730);
    assert_eq!(vars["now_ms"], now.timestamp_millis().to_string());
    assert_eq!(vars["now_us"], now.timestamp_micros().to_string());
    assert_eq!(vars["now_s"], now.timestamp().to_string());
}

#[test]
fn the_backdated_variables_are_the_ages_they_claim() {
    let now = now();
    let vars = vars_now(now, 730);
    let day: i128 = 86_400_000_000_000;
    let reference = now.timestamp_nanos_opt().unwrap() as i128;
    let one: i128 = vars["now_minus_1d_ns"].parse().expect("an integer");
    let thirty: i128 = vars["now_minus_30d_ns"].parse().expect("an integer");
    assert_eq!((reference - one) / day, 1);
    assert_eq!((reference - thirty) / day, 30);
}

#[test]
fn the_variables_of_a_fixed_instant_are_exact() {
    // 2026-09-09T12:10:53.987654321Z
    let vars = vars_at(1_788_955_853, 987_654_321, 2);
    assert_eq!(vars["now_s"], "1788955853");
    assert_eq!(vars["now_ms"], "1788955853987");
    assert_eq!(vars["now_us"], "1788955853987654");
    assert_eq!(vars["now_ns"], "1788955853987654321");
    assert_eq!(vars["now_ns_fractional"], "1788955853123456789");
    assert_eq!(vars["window_start"], "2026-09-09T12:05:53.987654321+00:00");
    assert_eq!(vars["window_end"], "2026-09-09T12:15:53.987654321+00:00");
    assert_eq!(vars["window_start_us"], "1788783053987654");
    assert_eq!(vars["window_end_us"], "1789042253987654");
    assert_eq!(vars["window_start_ns"], "1788783053987654321");
    assert_eq!(vars["window_end_ns"], "1789042253987654321");
    assert_eq!(vars["now_minus_10s_ms"], "1788955843987");
    assert_eq!(vars["now_minus_1h_ms"], "1788952253987");
    assert_eq!(vars["now_plus_1h_ms"], "1788959453987");
    assert_eq!(vars["now_minus_1d_ns"], "1788869453987654321");
    assert_eq!(vars["now_minus_30d_ns"], "1786363853987654321");
}

#[test]
fn variables_come_in_a_fixed_order() {
    let names: Vec<&str> = time_vars(0, 0, 1).into_iter().map(|(k, _)| k).collect();
    assert_eq!(
        names,
        vec![
            "window_start",
            "window_end",
            "window_start_us",
            "window_end_us",
            "window_start_ns",
            "window_end_ns",
            "now_ns",
            "now_ns_fractional",
            "now_us",
            "now_ms",
            "now_s",
            "now_minus_10s_ms",
            "now_minus_1h_ms",
            "now_plus_1h_ms",
            "now_minus_1d_ns",
            "now_minus_30d_ns",
        ]
    );
}

#[test]
fn an_instant_past_the_nanosecond_range_reads_as_zero_nanoseconds() {
    // Year 2300: nanoseconds since the epoch no longer fit an i64.
    let vars = vars_at(10_413_792_000, 0, 1);
    assert_eq!(vars["now_ns"], "0");
    assert_eq!(vars["now_minus_1d_ns"], "-86400000000000");
    assert_eq!(vars["window_start_ns"], "0");
    assert_eq!(vars["now_s"], "10413792000");
    assert_eq!(vars["window_start"], "2299-12-31T23:55:00+00:00");
}

#[test]
fn an_instant_before_the_epoch_is_written_negative() {
    // 1969-12-31T23:59:59.5Z
    let vars = vars_at(-1, 500_000_000, 1);
    assert_eq!(vars["now_ns"], "-500000000");
    assert_eq!(vars["now_ms"], "-500");
    assert_eq!(vars["now_us"], "-500000");
    assert_eq!(vars["now_s"], "-1");
}
