use sky_monitor::weather::{generate_weather, Precipitation, WeatherCondition};

const DAY_START_NS: i128 = 1_780_876_800 * 1_000_000_000;
const HOUR_NS: i128 = 3_600 * 1_000_000_000;

fn wind_mps(numerator: u64) -> f64 {
    2.0 + (numerator as f64 / (1u64 << 53) as f64) * 4.0
}

#[test]
fn weather_timeline_is_deterministic_with_rain_band() {
    let a = generate_weather(42, DAY_START_NS);
    let b = generate_weather(42, DAY_START_NS);
    assert_eq!(a.len(), 28);
    assert_eq!(wind_mps(a[5].wind_numerator).to_bits(), wind_mps(b[5].wind_numerator).to_bits());
    assert_eq!(a[14].condition, WeatherCondition::Rain);
    assert!(a[14].alert.is_some());
    assert_eq!(a[27].condition, WeatherCondition::Clear, "anomaly hour is clear");
    // Overlap math.
    assert!(a[14].overlaps(a[14].start_ns, a[14].end_ns));
    assert!(!a[14].overlaps(a[16].start_ns, a[16].end_ns));
}

#[test]
fn weather_windows_tile_the_day_hour_by_hour() {
    let a = generate_weather(7, DAY_START_NS);
    for (h, w) in a.iter().enumerate() {
        assert_eq!(w.start_ns, DAY_START_NS + h as i128 * HOUR_NS);
        assert_eq!(w.end_ns, w.start_ns + HOUR_NS);
    }
    for pair in a.windows(2) {
        assert_eq!(pair[0].end_ns, pair[1].start_ns);
        assert!(!pair[0].overlaps(pair[1].start_ns, pair[1].end_ns));
    }
    assert_eq!(a[0].window_id, "weather:2026-06-08T00");
    assert_eq!(a[27].window_id, "weather:2026-06-09T03");
}

#[test]
fn weather_schedule_and_alerts() {
    let a = generate_weather(42, DAY_START_NS);
    assert_eq!(a[13].condition, WeatherCondition::Cloudy);
    assert_eq!(a[15].condition, WeatherCondition::Rain);
    assert_eq!(a[16].condition, WeatherCondition::Cloudy);
    assert_eq!(a[16].precipitation, Precipitation::Trace);
    assert_eq!(a[12].precipitation, Precipitation::Dry);
    assert!(matches!(a[14].precipitation, Precipitation::Drawn(_)));
    assert_eq!(a[15].alert.as_deref(), Some("light rain advisory"));
    assert!(a[16].alert.is_none());
    assert_eq!(a[0].condition.as_str(), "clear");
    assert_eq!(WeatherCondition::Thunderstorm.as_str(), "thunderstorm");
    assert_eq!(WeatherCondition::Snow.as_str(), "snow");
    assert_eq!(WeatherCondition::Fog.as_str(), "fog");
    assert_eq!(WeatherCondition::Cloudy.as_str(), "cloudy");
    assert_eq!(WeatherCondition::Rain.as_str(), "rain");
}

#[test]
fn weather_draw_order_matches_generator() {
    // Hour 0 draws only its wind; hour 14 draws precipitation, then wind.
    let a = generate_weather(42, DAY_START_NS);
    let mut rng = sky_monitor::adsb::Lcg::new(42 ^ 0x5eed_2ea7_dead_beef);
    assert_eq!(a[0].wind_numerator, rng.next_unit_numerator());
    for _ in 1..14 {
        rng.next_unit_numerator();
    }
    let precip = rng.next_unit_numerator();
    assert_eq!(a[14].precipitation, Precipitation::Drawn(precip));
    assert_eq!(a[14].wind_numerator, rng.next_unit_numerator());
}

#[test]
fn overlaps_takes_the_query_closed_and_the_window_half_open() {
    let a = generate_weather(1, DAY_START_NS);
    let w = &a[3];
    // The window covers [start, end): a query from its end on misses it.
    assert!(!w.overlaps(w.end_ns, w.end_ns + 10));
    assert!(w.overlaps(w.end_ns - 1, w.end_ns + 10));
    // The query [start, end] is closed: ending exactly at the window's start meets it.
    assert!(w.overlaps(w.start_ns - 10, w.start_ns));
    assert!(!w.overlaps(w.start_ns - 10, w.start_ns - 1));
    assert!(w.overlaps(w.start_ns, w.start_ns));
}
