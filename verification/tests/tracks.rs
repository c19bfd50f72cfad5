use sky_monitor::adsb::{scenario_draws, scenario_plans};
use sky_monitor::observation::EntityType;
use sky_monitor::track::{stitch_tracks, StitchInput, TrackSegment, TRACK_GAP_SECS};

const SEC: i128 = 1_000_000_000;
const DAY_START_NS: i128 = 1_780_876_800 * SEC;

fn obs(kind: EntityType, id: &str, t_secs: i128, callsign: &str) -> StitchInput {
    StitchInput {
        entity_type: kind,
        entity_id: id.to_string(),
        time_ns: DAY_START_NS + t_secs * SEC,
        callsign: callsign.to_string(),
    }
}

fn scenario_inputs() -> Vec<StitchInput> {
    let plans = scenario_plans();
    scenario_draws(42, DAY_START_NS)
        .iter()
        .map(|s| StitchInput {
            entity_type: EntityType::Aircraft,
            entity_id: plans[s.plan].icao24.to_string(),
            time_ns: s.ts_ns,
            callsign: plans[s.plan].callsign.to_string(),
        })
        .collect()
}

fn find<'a>(tracks: &'a [TrackSegment], id: &str) -> &'a TrackSegment {
    tracks.iter().find(|t| t.track_id == id).unwrap()
}

#[test]
fn stitches_one_segment_per_synthetic_flight() {
    let tracks = stitch_tracks(&scenario_inputs(), TRACK_GAP_SECS);
    assert_eq!(tracks.len(), 10, "10 flights → 10 tracks");
    assert!(tracks.windows(2).all(|w| w[0].started_ns <= w[1].started_ns));
    let ga = tracks.iter().find(|t| t.icao24 == "c0a9a9").unwrap();
    assert_eq!(ga.track_id, "track-c0a9a9-0");
    assert_eq!(ga.callsign, "CGSKY");
    assert_eq!(ga.members.len(), 360);
    let night = tracks.last().unwrap();
    assert_eq!(night.icao24, "deadbf");
    assert_eq!(night.callsign, "");
    assert_eq!(night.ended_ns - night.started_ns, 419 * SEC);
}

#[test]
fn splits_on_gaps_longer_than_the_limit() {
    let input = vec![
        obs(EntityType::Aircraft, "abc123", 0, ""),
        obs(EntityType::Aircraft, "abc123", 30, "FLY1"),
        obs(EntityType::Aircraft, "abc123", 90, ""),
        obs(EntityType::Aircraft, "abc123", 151, "FLY2"),
        obs(EntityType::Aircraft, "abc123", 160, ""),
    ];
    let tracks = stitch_tracks(&input, 60);
    assert_eq!(tracks.len(), 2);
    // 30 → 90 is exactly 60 s: no split. 90 → 151 is 61 s: split.
    assert_eq!(tracks[0].track_id, "track-abc123-0");
    assert_eq!(tracks[0].members, vec![0, 1, 2]);
    assert_eq!(tracks[0].callsign, "FLY1");
    assert_eq!(tracks[1].track_id, "track-abc123-1");
    assert_eq!(tracks[1].segment, 1);
    assert_eq!(tracks[1].members, vec![3, 4]);
    // The callsign is the first non-empty one seen, kept across segments.
    assert_eq!(tracks[1].callsign, "FLY1");
    assert_eq!(tracks[1].started_ns, DAY_START_NS + 151 * SEC);
    assert_eq!(tracks[1].ended_ns, DAY_START_NS + 160 * SEC);
}

#[test]
fn ignores_non_aircraft_and_orders_by_time_then_icao() {
    let input = vec![
        obs(EntityType::Aircraft, "bbb", 10, "B1"),
        obs(EntityType::Satellite, "sat-1", 0, ""),
        obs(EntityType::Aircraft, "aaa", 10, "A1"),
        obs(EntityType::Aircraft, "ccc", 5, ""),
        obs(EntityType::WeatherCell, "cell", 1, ""),
        obs(EntityType::Aircraft, "aaa", 5_000, ""),
    ];
    let tracks = stitch_tracks(&input, TRACK_GAP_SECS);
    let ids: Vec<&str> = tracks.iter().map(|t| t.track_id.as_str()).collect();
    assert_eq!(ids, vec!["track-ccc-0", "track-aaa-0", "track-bbb-0", "track-aaa-1"]);
    assert_eq!(find(&tracks, "track-aaa-1").callsign, "A1");
    assert_eq!(find(&tracks, "track-ccc-0").callsign, "");
}

#[test]
fn sorts_each_aircraft_by_time_stably() {
    let input = vec![
        obs(EntityType::Aircraft, "abc", 20, ""),
        obs(EntityType::Aircraft, "abc", 10, "LATE"),
        obs(EntityType::Aircraft, "abc", 20, "X"),
        obs(EntityType::Aircraft, "abc", 0, ""),
    ];
    let tracks = stitch_tracks(&input, TRACK_GAP_SECS);
    assert_eq!(tracks.len(), 1);
    assert_eq!(tracks[0].members, vec![3, 1, 0, 2]);
    assert_eq!(tracks[0].callsign, "LATE");
}

#[test]
fn every_aircraft_observation_in_exactly_one_segment() {
    let input = scenario_inputs();
    let tracks = stitch_tracks(&input, 1);
    let mut seen = vec![0usize; input.len()];
    for t in &tracks {
        for &m in &t.members {
            seen[m] += 1;
        }
    }
    assert!(seen.iter().all(|&c| c == 1));
}

#[test]
fn empty_input_gives_no_tracks() {
    assert!(stitch_tracks(&Vec::new(), TRACK_GAP_SECS).is_empty());
    let only_sats = vec![obs(EntityType::Satellite, "s", 0, "")];
    assert!(stitch_tracks(&only_sats, TRACK_GAP_SECS).is_empty());
}

#[test]
fn entity_type_names() {
    assert_eq!(EntityType::Aircraft.as_str(), "aircraft");
    assert_eq!(EntityType::WeatherCell.as_str(), "weather_cell");
    assert_eq!(EntityType::RfEvent.as_str(), "rf_event");
    assert_eq!(EntityType::AudioEvent.as_str(), "audio_event");
    assert_eq!(EntityType::CameraEvent.as_str(), "camera_event");
    assert_eq!(EntityType::Satellite.as_str(), "satellite");
}
