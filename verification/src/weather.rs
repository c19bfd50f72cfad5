//! Hourly weather context aligned to the observation timeline.
use vstd::prelude::*;
use crate::adsb::{Lcg, lcg_output};
use crate::clock::{valid_instant, NANOS_PER_HOUR, NANOS_PER_SEC, unix_seconds, format_hour_label,
    utc_hour_label};

verus! {

/// Coarse sky condition for a window.
#[derive(Clone, Copy, Debug, PartialEq, Eq, Structural)]
pub enum WeatherCondition {
    Clear,
    Cloudy,
    Rain,
    Thunderstorm,
    Snow,
    Fog,
}

/// Stable lowercase name of a condition.
pub open spec fn condition_name(c: WeatherCondition) -> Seq<char> {
    match c {
        WeatherCondition::Clear => "clear"@,
        WeatherCondition::Cloudy => "cloudy"@,
        WeatherCondition::Rain => "rain"@,
        WeatherCondition::Thunderstorm => "thunderstorm"@,
        WeatherCondition::Snow => "snow"@,
        WeatherCondition::Fog => "fog"@,
    }
}

impl WeatherCondition {
    /// Stable lowercase name (matches the JSON encoding).
    pub fn as_str(&self) -> (r: &'static str)
        ensures
            r@ == condition_name(*self),
    {
        match self {
            WeatherCondition::Clear => "clear",
            WeatherCondition::Cloudy => "cloudy",
            WeatherCondition::Rain => "rain",
            WeatherCondition::Thunderstorm => "thunderstorm",
            WeatherCondition::Snow => "snow",
            WeatherCondition::Fog => "fog",
        }
    }
}

/// Precipitation of a window: none, a trace (0.1 mm/h), or a measured rate
/// of `1.2 + 0.8·u` mm/h where `u = numerator / 2^53` is a uniform draw.
#[derive(Clone, Copy, Debug, PartialEq, Eq, Structural)]
pub enum Precipitation {
    Dry,
    Trace,
    Drawn(u64),
}

/// One bounded weather window over the observer.
#[derive(Debug, Clone)]
pub struct WeatherWindow {
    /// `weather:%Y-%m-%dT%H` of the window start.
    pub window_id: String,
    /// Window start, nanoseconds since the epoch.
    pub start_ns: i128,
    /// Window end (exclusive), nanoseconds since the epoch.
    pub end_ns: i128,
    pub condition: WeatherCondition,
    /// Mean wind speed `2 + 4·u` m/s, `u = wind_numerator / 2^53`.
    pub wind_numerator: u64,
    pub precipitation: Precipitation,
    /// Official alert text, if any.
    pub alert: Option<String>,
}

/// Instant `t` lies in the window `[start_ns, end_ns)`.
pub open spec fn covers_instant(w: WeatherWindow, t: int) -> bool {
    w.start_ns <= t < w.end_ns
}

impl WeatherWindow {
    /// True if this window overlaps `[start, end]`: the window covers
    /// `[start_ns, end_ns)` and the query is closed at both ends.
    pub fn overlaps(&self, start_ns: i128, end_ns: i128) -> (r: bool)
        ensures
            r == (self.start_ns <= end_ns && start_ns < self.end_ns),
            start_ns <= end_ns && self.start_ns < self.end_ns ==> (r <==> exists|t: int|
                #[trigger] covers_instant(*self, t) && start_ns <= t <= end_ns),
    {
        proof {
            if self.start_ns <= end_ns && start_ns < self.end_ns && start_ns <= end_ns && self.start_ns < self.end_ns {
                let t: int = if self.start_ns < start_ns { start_ns as int } else { self.start_ns as int };
                assert(covers_instant(*self, t) && start_ns <= t <= end_ns);
            }
        }
        self.start_ns <= end_ns && start_ns < self.end_ns
    }
}

/// Number of hourly windows generated (covers the following night).
pub const WEATHER_HOURS: usize = 28;

/// Condition of hour `h` of the synthetic weather day: a light-rain band at
/// 14:00–16:00 with cloudy shoulder hours, clear otherwise.
pub open spec fn scheduled_condition(h: int) -> WeatherCondition {
    if h == 13 || h == 16 {
        WeatherCondition::Cloudy
    } else if h == 14 || h == 15 {
        WeatherCondition::Rain
    } else {
        WeatherCondition::Clear
    }
}

/// Hours whose window draws a precipitation rate before its wind speed.
pub open spec fn rain_hour(h: int) -> bool {
    h == 14 || h == 15
}

/// Number of uniform draws consumed by hours `0..h`.
pub open spec fn draws_before(h: int) -> int {
    if h <= 14 {
        h
    } else if h == 15 {
        16
    } else {
        h + 2
    }
}

/// Seed of the weather generator derived from the scenario seed.
pub open spec fn weather_seed(seed: u64) -> u64 {
    seed ^ 0x5eed_2ea7_dead_beef
}

/// Numerator of the `k`-th uniform draw (from 0) of the weather generator.
pub open spec fn weather_draw(seed: u64, k: int) -> u64 {
    lcg_output(crate::adsb::lcg_state_after(weather_seed(seed), (k + 1) as nat)) >> 11u64
}

/// Window `h` is what the generator makes for hour `h` after `day_start`.
pub open spec fn window_ok(seed: u64, day_start: int, h: int, w: WeatherWindow) -> bool {
    let start = day_start + h * NANOS_PER_HOUR;
    &&& w.start_ns == start
    &&& w.end_ns == start + NANOS_PER_HOUR
    &&& w.condition == scheduled_condition(h)
    &&& w.window_id@ == "weather:"@ + utc_hour_label(start / (NANOS_PER_SEC as int))
    &&& (rain_hour(h) ==> w.alert.is_some() && w.alert.unwrap()@ == "light rain advisory"@)
    &&& (!rain_hour(h) ==> w.alert.is_none())
    &&& w.precipitation == (if rain_hour(h) {
        Precipitation::Drawn(weather_draw(seed, draws_before(h)))
    } else if h == 16 {
        Precipitation::Trace
    } else {
        Precipitation::Dry
    })
    &&& w.wind_numerator == weather_draw(seed, if rain_hour(h) { draws_before(h) + 1 } else { draws_before(h) })
}

/// The hourly weather timeline: `WEATHER_HOURS` consecutive one-hour windows
/// from `day_start`, deterministic for a given seed.
pub fn generate_weather(seed: u64, day_start_ns: i128) -> (r: Vec<WeatherWindow>)
    requires
        valid_instant(day_start_ns as int),
        valid_instant(day_start_ns + WEATHER_HOURS * NANOS_PER_HOUR),
    ensures
        r@.len() == WEATHER_HOURS,
        forall|h: int| 0 <= h < r@.len() ==> window_ok(seed, day_start_ns as int, h, #[trigger] r@[h]),
{
    let mut rng = Lcg::new(seed ^ 0x5eed_2ea7_dead_beef);
    let mut out: Vec<WeatherWindow> = Vec::new();
    let mut h: usize = 0;
    while h < WEATHER_HOURS
        invariant
            valid_instant(day_start_ns as int),
            valid_instant(day_start_ns + WEATHER_HOURS * NANOS_PER_HOUR),
            h <= WEATHER_HOURS,
            out@.len() == h,
            rng.state() == crate::adsb::lcg_state_after(weather_seed(seed), draws_before(h as int) as nat),
            forall|k: int| 0 <= k < h ==> window_ok(seed, day_start_ns as int, k, #[trigger] out@[k]),
        decreases WEATHER_HOURS - h,
    {
        let start = day_start_ns + (h as i128) * NANOS_PER_HOUR;
        let (condition, precipitation, alert) = if h == 13 {
            (WeatherCondition::Cloudy, Precipitation::Dry, None)
        } else if h == 14 || h == 15 {
            let d = rng.next_unit_numerator();
            proof {
                assert(rng.state() == crate::adsb::lcg_state_after(weather_seed(seed), (draws_before(h as int) + 1) as nat));
            }
            let text = String::from_str("light rain advisory");
            (WeatherCondition::Rain, Precipitation::Drawn(d), Some(text))
        } else if h == 16 {
            (WeatherCondition::Cloudy, Precipitation::Trace, None)
        } else {
            (WeatherCondition::Clear, Precipitation::Dry, None)
        };
        let ghost used = if h == 14 || h == 15 { draws_before(h as int) + 1 } else { draws_before(h as int) };
        let wind = rng.next_unit_numerator();
        let mut window_id = String::from_str("weather:");
        let label = format_hour_label(unix_seconds(start));
        window_id.append(label.as_str());
        proof {
            reveal_strlit("weather:");
            assert(rng.state() == crate::adsb::lcg_state_after(weather_seed(seed), (used + 1) as nat));
        }
        out.push(WeatherWindow {
            window_id,
            start_ns: start,
            end_ns: start + NANOS_PER_HOUR,
            condition,
            wind_numerator: wind,
            precipitation,
            alert,
        });
        proof {
            assert(draws_before(h + 1) == used + 1);
            assert(window_ok(seed, day_start_ns as int, h as int, out@[h as int]));
        }
        h = h + 1;
    }
    out
}

/// The windows of a weather timeline tile it hour by hour: each starts where
/// the previous one ends, and no two overlap.
pub proof fn law_weather_tiling(seed: u64, day_start: int, r: Seq<WeatherWindow>, a: int, b: int)
    requires
        forall|h: int| 0 <= h < r.len() ==> window_ok(seed, day_start, h, #[trigger] r[h]),
        0 <= a < b < r.len(),
    ensures
        r[a].end_ns <= r[b].start_ns,
        b == a + 1 ==> r[a].end_ns == r[b].start_ns,
        !(r[a].start_ns < r[b].end_ns && r[b].start_ns < r[a].end_ns),
{
    assert(window_ok(seed, day_start, a, r[a]));
    assert(window_ok(seed, day_start, b, r[b]));
    let h = NANOS_PER_HOUR as int;
    assert(a * h + h <= b * h) by (nonlinear_arith)
        requires
            a < b,
            h > 0;
}

/// The synthetic weather day: cloudy at 13:00 and 16:00, light rain with an
/// advisory at 14:00 and 15:00, clear in every other hour.
pub proof fn law_weather_schedule(seed: u64, day_start: int, r: Seq<WeatherWindow>, h: int)
    requires
        forall|k: int| 0 <= k < r.len() ==> window_ok(seed, day_start, k, #[trigger] r[k]),
        0 <= h < r.len(),
    ensures
        h == 13 ==> r[h].condition == WeatherCondition::Cloudy && r[h].alert is None
            && r[h].precipitation == Precipitation::Dry,
        h == 16 ==> r[h].condition == WeatherCondition::Cloudy && r[h].alert is None
            && r[h].precipitation == Precipitation::Trace,
        h == 14 || h == 15 ==> r[h].condition == WeatherCondition::Rain && r[h].alert is Some
            && r[h].alert.unwrap()@ == "light rain advisory"@ && r[h].precipitation is Drawn,
        h != 13 && h != 14 && h != 15 && h != 16 ==> r[h].condition == WeatherCondition::Clear
            && r[h].alert is None && r[h].precipitation == Precipitation::Dry,
{
    assert(window_ok(seed, day_start, h, r[h]));
}

} // verus!
