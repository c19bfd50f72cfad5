use sky_monitor::adsb::{scenario_draws, scenario_plans, Lcg, ANOMALOUS_ICAO24, GA_OVERHEAD_ICAO24};

const DAY_START_NS: i128 = 1_780_876_800 * 1_000_000_000;

#[test]
fn lcg_first_values_for_seed_42() {
    let mut rng = Lcg::new(42);
    assert_eq!(rng.next_u64(), 4159066172120566078);
    assert_eq!(rng.next_u64(), 7615522811064146841);
    assert_eq!(rng.next_u64(), 11628791491287263841);
}

#[test]
fn lcg_seed_zero_steps_once_before_use() {
    let mut rng = Lcg::new(0);
    assert_eq!(rng.next_u64(), 1876011003892603450);
}

#[test]
fn lcg_same_seed_same_sequence() {
    let mut a = Lcg::new(7);
    let mut b = Lcg::new(7);
    for _ in 0..100 {
        assert_eq!(a.next_u64(), b.next_u64());
    }
    let mut c = Lcg::new(8);
    let mut d = Lcg::new(7);
    assert_ne!(c.next_u64(), d.next_u64());
}

#[test]
fn unit_numerator_is_top_53_bits() {
    let mut rng = Lcg::new(42);
    assert_eq!(rng.next_unit_numerator(), 2030794029355745);
    assert_eq!(rng.next_unit_numerator(), 3718516997589915);
    assert_eq!(rng.next_unit_numerator(), 5678120845355109);
    let mut r = Lcg::new(123456);
    for _ in 0..1000 {
        assert!(r.next_unit_numerator() < (1u64 << 53));
    }
}

#[test]
fn scenario_has_ten_distinct_flights_inside_the_weather_day() {
    let plans = scenario_plans();
    assert_eq!(plans.len(), 10);
    for (i, a) in plans.iter().enumerate() {
        for b in plans.iter().skip(i + 1) {
            assert_ne!(a.icao24, b.icao24);
        }
        assert!(a.start_offset_s >= 0);
        assert!(a.start_offset_s + a.duration_s <= 28 * 3600);
        assert_eq!(a.callsign.is_empty(), a.icao24 == ANOMALOUS_ICAO24);
    }
    let total: i64 = plans.iter().map(|p| p.duration_s).sum();
    assert_eq!(total, 2820);
    let ga = plans.iter().find(|p| p.icao24 == GA_OVERHEAD_ICAO24).unwrap();
    assert_eq!(ga.callsign, "CGSKY");
    assert_eq!(ga.alt0_tenths_m, 11_000);
    let anomalous = plans.iter().find(|p| p.icao24 == ANOMALOUS_ICAO24).unwrap();
    assert_eq!(anomalous.start_offset_s, 27 * 3600 + 600);
    assert_eq!(anomalous.heading_tenths_deg, 1650);
    assert_eq!(anomalous.speed_tenths_mps, 480);
    assert_eq!(anomalous.alt0_tenths_m, 4500);
}

#[test]
fn scenario_skeleton_is_deterministic_sorted_and_complete() {
    let a = scenario_draws(42, DAY_START_NS);
    let b = scenario_draws(42, DAY_START_NS);
    assert_eq!(a.len(), 2820);
    assert!(a.len() > 2_500, "expected ~1 Hz day of samples, got {}", a.len());
    assert_eq!(a, b);
    assert!(a.windows(2).all(|w| w[0].ts_ns <= w[1].ts_ns));
    let plans = scenario_plans();
    assert!(a.iter().any(|s| plans[s.plan].icao24 == ANOMALOUS_ICAO24));
    // The first sample of the day is the first second of the 11:05 corridor flight.
    assert_eq!(a[0].plan, 0);
    assert_eq!(a[0].step, 0);
    assert_eq!(a[0].ts_ns, DAY_START_NS + (11 * 3600 + 300) * 1_000_000_000);
    // Its draws are the first five of the seed-42 generator.
    let mut rng = Lcg::new(42);
    assert_eq!(a[0].track_draw, rng.next_unit_numerator());
    assert_eq!(a[0].speed_draw, rng.next_unit_numerator());
    assert_eq!(a[0].alt_draw, rng.next_unit_numerator());
    assert_eq!(a[0].vrate_draw, rng.next_unit_numerator());
    assert_eq!(a[0].signal_draw, rng.next_unit_numerator());
    // The last sample is the last second of the anomalous night track.
    let last = a[a.len() - 1];
    assert_eq!(plans[last.plan].icao24, ANOMALOUS_ICAO24);
    assert_eq!(last.step, 419);
}

#[test]
fn scenario_draws_follow_generation_order() {
    // Flight 1 is generated after flight 0's 240 samples: its first sample
    // uses draws 1200..1205 of the generator.
    let a = scenario_draws(5, DAY_START_NS);
    let s = a.iter().find(|s| s.plan == 1 && s.step == 0).unwrap();
    let mut rng = Lcg::new(5);
    for _ in 0..1200 {
        rng.next_unit_numerator();
    }
    assert_eq!(s.track_draw, rng.next_unit_numerator());
    assert_eq!(s.speed_draw, rng.next_unit_numerator());
    let other_seed = scenario_draws(6, DAY_START_NS);
    assert_ne!(a[0].track_draw, other_seed[0].track_draw);
}

#[test]
fn each_flight_yields_one_sample_per_second() {
    let a = scenario_draws(7, DAY_START_NS);
    let plans = scenario_plans();
    for (p, plan) in plans.iter().enumerate() {
        let mut steps: Vec<i64> = a.iter().filter(|s| s.plan == p).map(|s| s.step).collect();
        assert_eq!(steps.len() as i64, plan.duration_s);
        steps.sort();
        assert!(steps.iter().enumerate().all(|(k, s)| *s == k as i64));
    }
}

#[test]
fn different_seeds_never_agree_at_the_same_step() {
    let mut a = Lcg::new(1);
    let mut b = Lcg::new(2);
    for _ in 0..1000 {
        assert_ne!(a.next_u64(), b.next_u64());
    }
}
