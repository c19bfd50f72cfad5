use ruvector_graph::PropertyValue;
use sky_monitor::adsb::{scenario_draws, scenario_plans, ANOMALOUS_ICAO24, GA_OVERHEAD_ICAO24};
use sky_monitor::brief::Interpretation;
use sky_monitor::observation::EntityType;
use sky_monitor::skygraph::{AnomalyReport, GraphTrack, SkyGraph, TrackMeasures};
use sky_monitor::track::{stitch_tracks, StitchInput, TrackSegment, TRACK_GAP_SECS};
use sky_monitor::weather::{generate_weather, WeatherWindow};

const SEC: i128 = 1_000_000_000;
const HOUR: i128 = 3_600 * SEC;
const DAY_START_NS: i128 = 1_780_876_800 * SEC;
const EASTBOUND_CORRIDOR: [&str; 4] = ["c01a01", "a02b02", "a03c03", "c04d04"];
const WESTBOUND_CORRIDOR: [&str; 2] = ["400a05", "39a006"];
const LOW_PASSES: [&str; 4] = ["c07e07", "c08f08", "c0a9a9", "deadbf"];

fn segments() -> Vec<TrackSegment> {
    let plans = scenario_plans();
    let input: Vec<StitchInput> = scenario_draws(42, DAY_START_NS)
        .iter()
        .map(|s| StitchInput {
            entity_type: EntityType::Aircraft,
            entity_id: plans[s.plan].icao24.to_string(),
            time_ns: s.ts_ns,
            callsign: plans[s.plan].callsign.to_string(),
        })
        .collect();
    stitch_tracks(&input, TRACK_GAP_SECS)
}

fn graph_track(seg: &TrackSegment) -> GraphTrack {
    let low = LOW_PASSES.contains(&seg.icao24.as_str());
    let mid = seg.members[seg.members.len() / 2];
    GraphTrack {
        track_id: seg.track_id.clone(),
        icao24: seg.icao24.clone(),
        callsign: seg.callsign.clone(),
        started_ns: seg.started_ns,
        ended_ns: seg.ended_ns,
        closest_approach_ns: seg.started_ns + (seg.ended_ns - seg.started_ns) / 2,
        n_points: seg.members.len() as i64,
        is_overhead_candidate: low,
        within_overhead_range: low,
        first_observation_id: format!("obs-{}", seg.members[0]),
        closest_observation_id: format!("obs-{}", mid),
        last_observation_id: format!("obs-{}", seg.members[seg.members.len() - 1]),
    }
}

fn measures(range_m: f64) -> TrackMeasures {
    TrackMeasures {
        min_range_m: PropertyValue::Float(range_m),
        max_elevation_deg: PropertyValue::Float(10.2),
        closest_azimuth_deg: PropertyValue::Float(254.0),
        dominant_heading_deg: PropertyValue::Float(165.0),
        mean_altitude_m: PropertyValue::Float(450.0),
        observed_range_m: PropertyValue::Float(range_m),
        near_range_m: PropertyValue::Float(range_m),
    }
}

fn wind(w: &WeatherWindow) -> PropertyValue {
    PropertyValue::Float(2.0 + (w.wind_numerator as f64 / (1u64 << 53) as f64) * 4.0)
}

fn new_graph() -> SkyGraph {
    SkyGraph::new(
        &"oakville_node".to_string(),
        PropertyValue::Float(43.4675),
        PropertyValue::Float(-79.6877),
        PropertyValue::Float(100.0),
    )
    .unwrap()
}

/// The demo day in the graph: weather, every track, five similarity links
/// and the two unusual tracks' anomalies.
fn populated() -> (SkyGraph, Vec<GraphTrack>) {
    let mut g = new_graph();
    let weather = generate_weather(42, DAY_START_NS);
    for w in &weather {
        g.add_weather_window(w, wind(w), PropertyValue::Float(0.0)).unwrap();
    }
    let tracks: Vec<GraphTrack> = segments().iter().map(graph_track).collect();
    for t in &tracks {
        let id = g.add_track(t, measures(2034.0), &weather).unwrap();
        assert_eq!(id, t.track_id);
    }
    let pairs = [
        ("track-a03c03-0", "track-c01a01-0"),
        ("track-c01a01-0", "track-c04d04-0"),
        ("track-a02b02-0", "track-c04d04-0"),
        ("track-39a006-0", "track-400a05-0"),
        ("track-c07e07-0", "track-c08f08-0"),
    ];
    for (a, b) in pairs {
        g.add_similarity(a, b, PropertyValue::Float(0.4)).unwrap();
    }
    let ga = AnomalyReport {
        track_id: "track-c0a9a9-0".to_string(),
        score: PropertyValue::Float(0.57),
        band: Interpretation::Interesting,
        reasons: vec!["mean altitude 1100 m deviates 2.9σ".to_string()],
    };
    g.add_anomaly(ga, Some("track-c07e07-0")).unwrap();
    let night = AnomalyReport {
        track_id: "track-deadbf-0".to_string(),
        score: PropertyValue::Float(0.86),
        band: Interpretation::StrongAnomaly,
        reasons: vec!["heading 165° is 77° off the nearest known corridor".to_string(), "no callsign".to_string()],
    };
    g.add_anomaly(night, Some("track-c0a9a9-0")).unwrap();
    (g, tracks)
}

#[test]
fn acceptance_3_aircraft_by_time_window() {
    let (g, _) = populated();
    // 11:00–12:00 UTC contains exactly the first eastbound corridor flight.
    let start = DAY_START_NS + 11 * HOUR;
    let in_window = g.aircraft_in_window(start, start + HOUR);
    assert_eq!(in_window.len(), 1, "got {in_window:?}");
    assert_eq!(in_window[0].0, "c01a01");
    // The anomaly night window (+27 h) contains exactly the anomalous track.
    let night = DAY_START_NS + 27 * HOUR;
    let in_night = g.aircraft_in_window(night, night + HOUR);
    assert_eq!(in_night.len(), 1, "got {in_night:?}");
    assert_eq!(in_night[0].0, ANOMALOUS_ICAO24);
    // An empty pre-dawn window has no aircraft.
    let empty = DAY_START_NS + 2 * HOUR;
    assert!(g.aircraft_in_window(empty, empty + HOUR).is_empty());
}

#[test]
fn time_window_query_is_sorted_and_inclusive() {
    let (g, _) = populated();
    let all = g.aircraft_in_window(DAY_START_NS, DAY_START_NS + 28 * HOUR);
    assert_eq!(all.len(), 10);
    assert!(all.windows(2).all(|w| w[0] < w[1]));
    assert_eq!(all[0], ("39a006".to_string(), "track-39a006-0".to_string()));
    // A window ending exactly at a track's start second still meets it.
    let ga_start = DAY_START_NS + (16 * 3600 + 1800) * SEC;
    let touching = g.aircraft_in_window(ga_start - HOUR, ga_start);
    assert_eq!(touching, vec![(GA_OVERHEAD_ICAO24.to_string(), "track-c0a9a9-0".to_string())]);
}

#[test]
fn overhead_query_lists_flagged_tracks_sorted() {
    let (g, _) = populated();
    let overhead = g.overhead_candidates();
    assert_eq!(overhead, vec!["track-c07e07-0", "track-c08f08-0", "track-c0a9a9-0", "track-deadbf-0"]);
    for icao in EASTBOUND_CORRIDOR.iter().chain(&WESTBOUND_CORRIDOR) {
        assert!(!overhead.iter().any(|id| id.contains(icao)));
    }
}

#[test]
fn demo_day_graph_size() {
    let (g, _) = populated();
    assert_eq!(g.stats(), (109, 111));
}

#[test]
fn explain_cites_observation_and_track_ids() {
    let (g, tracks) = populated();
    let anomalous = tracks.iter().find(|t| t.icao24 == ANOMALOUS_ICAO24).unwrap();
    let explanation = g.explain(&anomalous.track_id).expect("track explainable");
    assert_eq!(explanation.track_id, "track-deadbf-0");
    assert_eq!(explanation.aircraft_id, ANOMALOUS_ICAO24);
    assert_eq!(explanation.callsign, "");
    assert_eq!(
        explanation.evidence[0],
        format!(
            "track track-deadbf-0 stitched from 420 observations; evidence observation ids: first {}, closest approach {}, last {}",
            anomalous.first_observation_id, anomalous.closest_observation_id, anomalous.last_observation_id
        )
    );
    assert_eq!(
        explanation.evidence[1],
        "geometry: closest approach 2034 m at azimuth 254°, max elevation 10.2°, dominant heading 165°, mean altitude 450 m"
    );
    let joined = explanation.evidence.join("\n");
    for line in [
        "observed_by observer:oakville_node",
        "near observer:oakville_node (closest approach inside 10 km)",
        "during window:2026-06-09T03",
        "flight of aircraft:deadbf",
        "anomaly score 0.86 (strong anomaly): heading 165° is 77° off the nearest known corridor; no callsign",
        "anomalous_relative_to baseline track-c0a9a9-0",
    ] {
        assert!(explanation.evidence.iter().any(|e| e == line), "missing {line:?} in {joined}");
    }
    assert!(joined.contains("correlated_with weather:2026-06-09T03 (clear, wind "));
    assert_eq!(explanation.evidence.len(), 9);
}

#[test]
fn explain_unknown_id_is_none() {
    let (g, _) = populated();
    assert!(g.explain("track-nobody-0").is_none());
}

#[test]
fn explain_of_a_non_track_node_reads_defaults() {
    let g = new_graph();
    let e = g.explain("observer:oakville_node").unwrap();
    assert_eq!(e.aircraft_id, "");
    assert_eq!(
        e.evidence[0],
        "track observer:oakville_node stitched from 0 observations; evidence observation ids: first , closest approach , last "
    );
    assert_eq!(
        e.evidence[1],
        "geometry: closest approach 0 m at azimuth 0°, max elevation 0.0°, dominant heading 0°, mean altitude 0 m"
    );
    assert_eq!(e.evidence.len(), 2);
}

#[test]
fn add_track_needs_its_weather_windows_in_the_graph() {
    let mut g = new_graph();
    let weather = generate_weather(42, DAY_START_NS);
    let segs = segments();
    let t = graph_track(&segs[0]);
    assert!(g.add_track(&t, measures(13_200.0), &weather).is_err());
    // The nodes are in, the weather link is missing.
    let (nodes, _) = g.stats();
    assert_eq!(nodes, 1 + 1 + 1 + 3 + 1);
    // With no overlapping window the same insertion succeeds.
    let mut h = new_graph();
    let far: Vec<WeatherWindow> = weather.iter().filter(|w| !w.overlaps(t.started_ns, t.ended_ns)).cloned().collect();
    assert!(h.add_track(&t, measures(13_200.0), &far).is_ok());
    assert_eq!(h.stats(), (7, 6));
}

#[test]
fn tracks_in_one_hour_share_its_time_window() {
    let mut g = new_graph();
    let segs = segments();
    let ga = graph_track(segs.iter().find(|s| s.icao24 == "c0a9a9").unwrap());
    let mut other = ga.clone();
    other.track_id = "track-c0a9a9-9".to_string();
    other.first_observation_id = "x1".to_string();
    other.closest_observation_id = "x2".to_string();
    other.last_observation_id = "x3".to_string();
    g.add_track(&ga, measures(1_100.0), &[]).unwrap();
    g.add_track(&other, measures(1_100.0), &[]).unwrap();
    // observer, one aircraft, two tracks, six observations, one window
    let (nodes, edges) = g.stats();
    assert_eq!(nodes, 1 + 1 + 2 + 6 + 1);
    assert_eq!(edges, 2 * (3 + 1 + 1 + 1 + 1));
}

#[test]
fn similarity_and_anomaly_need_existing_nodes() {
    let mut g = new_graph();
    assert!(g.add_similarity("track-a-0", "observer:oakville_node", PropertyValue::Float(1.0)).is_err());
    assert_eq!(g.stats(), (1, 0));
    let report = AnomalyReport {
        track_id: "track-a-0".to_string(),
        score: PropertyValue::Float(0.9),
        band: Interpretation::Rare,
        reasons: vec![],
    };
    assert!(g.add_anomaly(report, None).is_err());
    // The anomaly node itself went in before the missing track was noticed.
    assert_eq!(g.stats(), (2, 0));
}

#[test]
fn anomaly_without_known_baseline_links_only_the_track() {
    let mut g = new_graph();
    let segs = segments();
    let t = graph_track(&segs[0]);
    g.add_track(&t, measures(13_200.0), &[]).unwrap();
    let before = g.stats();
    let report = AnomalyReport {
        track_id: t.track_id.clone(),
        score: PropertyValue::Float(0.3),
        band: Interpretation::MildlyUnusual,
        reasons: vec!["a".to_string(), "b".to_string()],
    };
    let id = g.add_anomaly(report, Some("track-missing-0")).unwrap();
    assert_eq!(id, "anomaly:track-c01a01-0");
    assert_eq!(g.stats(), (before.0 + 1, before.1 + 1));
    let e = g.explain(&t.track_id).unwrap();
    assert!(e.evidence.iter().any(|l| l == "anomaly score 0.30 (mildly unusual): a; b"));
    assert!(!e.evidence.iter().any(|l| l.starts_with("anomalous_relative_to")));
}

#[test]
fn weather_window_links_every_hour_it_spans() {
    let mut g = new_graph();
    let weather = generate_weather(42, DAY_START_NS);
    g.add_weather_window(&weather[0], wind(&weather[0]), PropertyValue::Float(0.0)).unwrap();
    g.add_weather_window(&weather[1], wind(&weather[1]), PropertyValue::Float(0.0)).unwrap();
    // observer + two cells + two hourly windows; one `during` edge per cell.
    assert_eq!(g.stats(), (5, 2));
    let e = g.explain("weather:2026-06-08T00").unwrap();
    assert!(e.evidence.iter().any(|l| l == "during window:2026-06-08T00"));
    assert_eq!(e.evidence.len(), 3);
}

#[test]
fn track_ending_on_the_hour_meets_the_next_weather_window() {
    let mut g = new_graph();
    let weather = generate_weather(42, DAY_START_NS);
    for w in &weather {
        g.add_weather_window(w, wind(w), PropertyValue::Float(0.0)).unwrap();
    }
    let segs = segments();
    let mut t = graph_track(&segs[0]);
    t.started_ns = DAY_START_NS + 11 * HOUR + 50 * 60 * SEC;
    t.ended_ns = DAY_START_NS + 12 * HOUR;
    t.closest_approach_ns = t.started_ns;
    g.add_track(&t, measures(13_200.0), &weather).unwrap();
    let e = g.explain(&t.track_id).unwrap();
    assert!(e.evidence.iter().any(|l| l.starts_with("correlated_with weather:2026-06-08T11 (")));
    assert!(e.evidence.iter().any(|l| l.starts_with("correlated_with weather:2026-06-08T12 (")));
    assert!(e.evidence.iter().any(|l| l == "during window:2026-06-08T11"));
    assert!(e.evidence.iter().any(|l| l == "during window:2026-06-08T12"));
}

#[test]
fn overhead_query_lists_exactly_the_flagged_tracks() {
    let mut g = new_graph();
    let segs = segments();
    let mut flagged = graph_track(&segs[0]);
    flagged.is_overhead_candidate = true;
    let plain = graph_track(&segs[1]);
    g.add_track(&flagged, measures(1_000.0), &[]).unwrap();
    g.add_track(&plain, measures(20_000.0), &[]).unwrap();
    assert_eq!(g.overhead_candidates(), vec![flagged.track_id.clone()]);
}
