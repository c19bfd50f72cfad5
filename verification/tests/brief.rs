use sky_monitor::adsb::{scenario_draws, scenario_plans};
use sky_monitor::brief::{weather_events, BriefTrack, DailySkyBrief, Interpretation, UnusualEvent};
use sky_monitor::observation::EntityType;
use sky_monitor::track::{stitch_tracks, StitchInput, TRACK_GAP_SECS};
use sky_monitor::weather::generate_weather;

const SEC: i128 = 1_000_000_000;
const DAY_START_NS: i128 = 1_780_876_800 * SEC;
const LOW_PASSES: [&str; 4] = ["c07e07", "c08f08", "c0a9a9", "deadbf"];

fn brief_tracks() -> Vec<BriefTrack> {
    let plans = scenario_plans();
    let input: Vec<StitchInput> = scenario_draws(42, DAY_START_NS)
        .iter()
        .map(|s| StitchInput {
            entity_type: EntityType::Aircraft,
            entity_id: plans[s.plan].icao24.to_string(),
            time_ns: s.ts_ns,
            callsign: plans[s.plan].callsign.to_string(),
        })
        .collect();
    stitch_tracks(&input, TRACK_GAP_SECS)
        .iter()
        .map(|t| BriefTrack {
            icao24: t.icao24.clone(),
            started_ns: t.started_ns,
            is_overhead_candidate: LOW_PASSES.contains(&t.icao24.as_str()),
        })
        .collect()
}

#[test]
fn brief_renders_the_demo_day() {
    let weather = generate_weather(42, DAY_START_NS);
    let bands = vec![
        Interpretation::Normal,
        Interpretation::Normal,
        Interpretation::Interesting,
        Interpretation::Normal,
        Interpretation::StrongAnomaly,
    ];
    let mu = UnusualEvent {
        description: "low-altitude pass by icao24 deadbf heading 165° at 03:13 UTC (450 m): heading 165° is 77° off the nearest known corridor".to_string(),
        confidence_label: "0.86".to_string(),
    };
    let brief = DailySkyBrief::build(&"oakville_node".to_string(), &brief_tracks(), &bands, &weather, Some(mu));
    assert_eq!(brief.aircraft_observed, 10);
    assert_eq!(brief.overhead_candidates, 4);
    assert_eq!(brief.unusual_tracks, 2);
    assert_eq!(brief.date, "2026-06-08");
    assert!(!brief.weather_events.is_empty(), "the rain band must be reported");
    let text = brief.to_text();
    assert!(text.contains("Sky brief — oakville_node"));
    assert!(text.contains("10 aircraft observed"));
    assert!(text.contains("Most unusual event"), "brief: {text}");
    assert_eq!(
        text,
        "Sky brief — oakville_node, 2026-06-08. 10 aircraft observed; 4 overhead candidates; 2 unusual tracks. \
         Weather: rain 14:00–16:00 UTC. Most unusual event: low-altitude pass by icao24 deadbf heading 165° at \
         03:13 UTC (450 m): heading 165° is 77° off the nearest known corridor (confidence 0.86)."
    );
}

#[test]
fn brief_of_an_empty_day() {
    let brief = DailySkyBrief::build(&"node".to_string(), &Vec::new(), &Vec::new(), &Vec::new(), None);
    assert_eq!(brief.date, "1970-01-01");
    assert_eq!(
        brief.to_text(),
        "Sky brief — node, 1970-01-01. 0 aircraft observed; 0 overhead candidates; 0 unusual tracks. Weather: clear throughout."
    );
}

#[test]
fn brief_counts_one_unusual_track_in_the_singular() {
    let tracks = vec![
        BriefTrack { icao24: "aaa".to_string(), started_ns: DAY_START_NS, is_overhead_candidate: false },
        BriefTrack { icao24: "aaa".to_string(), started_ns: DAY_START_NS + 3600 * SEC, is_overhead_candidate: true },
    ];
    let bands = vec![Interpretation::MildlyUnusual, Interpretation::Rare];
    let brief = DailySkyBrief::build(&"n".to_string(), &tracks, &bands, &Vec::new(), None);
    assert_eq!(brief.aircraft_observed, 1);
    assert_eq!(brief.overhead_candidates, 1);
    assert_eq!(brief.unusual_tracks, 1);
    assert!(brief.to_text().contains("1 unusual track. Weather"));
}

#[test]
fn weather_events_report_runs_of_wet_windows() {
    let weather = generate_weather(42, DAY_START_NS);
    assert_eq!(weather_events(&weather), vec!["rain 14:00–16:00 UTC"]);
    // A run still open at the end of the timeline is reported too.
    let tail: Vec<_> = weather[..15].to_vec();
    assert_eq!(weather_events(&tail), vec!["rain 14:00–15:00 UTC"]);
    assert!(weather_events(&weather[..14].to_vec()).is_empty());
}

#[test]
fn interpretation_bands_order_and_names() {
    let bands = [
        Interpretation::Normal,
        Interpretation::MildlyUnusual,
        Interpretation::Interesting,
        Interpretation::StrongAnomaly,
        Interpretation::Rare,
    ];
    let names: Vec<&str> = bands.iter().map(|b| b.as_str()).collect();
    assert_eq!(names, vec!["normal", "mildly unusual", "interesting", "strong anomaly", "rare"]);
    let ranks: Vec<u8> = bands.iter().map(|b| b.rank()).collect();
    assert_eq!(ranks, vec![0, 1, 2, 3, 4]);
}

#[test]
fn unusual_event_description() {
    let reasons = vec!["heading 165° is 77° off the nearest known corridor".to_string(), "no callsign".to_string()];
    let e = UnusualEvent::describe(
        true,
        &String::new(),
        &"deadbf".to_string(),
        &"165".to_string(),
        Some(DAY_START_NS + (27 * 3600 + 13 * 60 + 30) * SEC),
        &"450".to_string(),
        &reasons,
        "0.86".to_string(),
    );
    assert_eq!(
        e.description,
        "low-altitude pass by icao24 deadbf heading 165° at 03:13 UTC (450 m): heading 165° is 77° off the nearest known corridor"
    );
    assert_eq!(e.confidence_label, "0.86");
    let f = UnusualEvent::describe(
        false,
        &"ACA101".to_string(),
        &"c01a01".to_string(),
        &"72".to_string(),
        None,
        &"10600".to_string(),
        &Vec::new(),
        "0.31".to_string(),
    );
    assert_eq!(f.description, "high-altitude pass by ACA101 heading 72° at  (10600 m): ");
}
