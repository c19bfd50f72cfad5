//! Daily sky brief: one day's counts, weather events and text block.
use vstd::prelude::*;
use crate::clock::{valid_instant, clock_text, clock_string, unix_seconds, format_date_label,
    utc_date_label, NANOS_PER_SEC};
use crate::text::{decimal_text, push_decimal, join_text, texts, push_joined};
use crate::weather::{WeatherCondition, WeatherWindow, condition_name};

verus! {

/// Interpretation band of an anomaly score, from least to most unusual.
#[derive(Clone, Copy, Debug, PartialEq, Eq, Structural)]
pub enum Interpretation {
    Normal,
    MildlyUnusual,
    Interesting,
    StrongAnomaly,
    Rare,
}

/// Position of a band in the order `Normal < … < Rare`.
pub open spec fn band_rank(b: Interpretation) -> nat {
    match b {
        Interpretation::Normal => 0,
        Interpretation::MildlyUnusual => 1,
        Interpretation::Interesting => 2,
        Interpretation::StrongAnomaly => 3,
        Interpretation::Rare => 4,
    }
}

/// Human-readable band name.
pub open spec fn band_name(b: Interpretation) -> Seq<char> {
    match b {
        Interpretation::Normal => "normal"@,
        Interpretation::MildlyUnusual => "mildly unusual"@,
        Interpretation::Interesting => "interesting"@,
        Interpretation::StrongAnomaly => "strong anomaly"@,
        Interpretation::Rare => "rare"@,
    }
}

impl Interpretation {
    /// Position in the order `Normal < MildlyUnusual < Interesting < StrongAnomaly < Rare`.
    pub fn rank(&self) -> (r: u8)
        ensures
            r as nat == band_rank(*self),
    {
        match self {
            Interpretation::Normal => 0,
            Interpretation::MildlyUnusual => 1,
            Interpretation::Interesting => 2,
            Interpretation::StrongAnomaly => 3,
            Interpretation::Rare => 4,
        }
    }

    /// Human-readable band name (`normal`, `mildly unusual`, …).
    pub fn as_str(&self) -> (r: &'static str)
        ensures
            r@ == band_name(*self),
    {
        match self {
            Interpretation::Normal => "normal",
            Interpretation::MildlyUnusual => "mildly unusual",
            Interpretation::Interesting => "interesting",
            Interpretation::StrongAnomaly => "strong anomaly",
            Interpretation::Rare => "rare",
        }
    }
}

/// A window with weather worth reporting (anything but clear or cloudy).
pub open spec fn is_wet(w: WeatherWindow) -> bool {
    w.condition != WeatherCondition::Clear && w.condition != WeatherCondition::Cloudy
}

/// Window `i` starts a run of reportable weather.
pub open spec fn is_run_start(ws: Seq<WeatherWindow>, i: int) -> bool {
    0 <= i < ws.len() && is_wet(ws[i]) && (i == 0 || !is_wet(ws[i - 1]))
}

/// Last window of the run of reportable weather that includes window `s`.
pub open spec fn run_end(ws: Seq<WeatherWindow>, s: int) -> int
    decreases ws.len() - s,
{
    if s + 1 < ws.len() && is_wet(ws[s + 1]) {
        run_end(ws, s + 1)
    } else {
        s
    }
}

/// Run starts among windows `0..n`, in order.
pub open spec fn run_starts(ws: Seq<WeatherWindow>, n: int) -> Seq<int>
    decreases n,
{
    if n <= 0 {
        Seq::empty()
    } else if is_run_start(ws, n - 1) {
        run_starts(ws, n - 1).push(n - 1)
    } else {
        run_starts(ws, n - 1)
    }
}

/// `"{condition} {HH:MM}–{HH:MM} UTC"` for the run of windows `s..=e`.
pub open spec fn event_text(ws: Seq<WeatherWindow>, s: int, e: int) -> Seq<char> {
    condition_name(ws[s].condition) + " "@ + clock_text(ws[s].start_ns as int) + "–"@
        + clock_text(ws[e].end_ns as int) + " UTC"@
}

/// Window instants inside the supported range.
pub open spec fn windows_valid(ws: Seq<WeatherWindow>) -> bool {
    forall|i: int| 0 <= i < ws.len() ==> valid_instant((#[trigger] ws[i]).start_ns as int)
        && valid_instant(ws[i].end_ns as int)
}

proof fn lemma_run_end(ws: Seq<WeatherWindow>, s: int, e: int)
    requires
        0 <= s <= e < ws.len(),
        forall|k: int| s <= k <= e ==> is_wet(#[trigger] ws[k]),
        e + 1 == ws.len() || !is_wet(ws[e + 1]),
    ensures
        run_end(ws, s) == e,
    decreases e - s,
{
    if s < e {
        lemma_run_end(ws, s + 1, e);
    }
}

proof fn lemma_no_new_starts(ws: Seq<WeatherWindow>, s: int, i: int)
    requires
        0 <= s < i <= ws.len(),
        forall|k: int| s <= k < i ==> is_wet(#[trigger] ws[k]),
    ensures
        run_starts(ws, i) == run_starts(ws, s + 1),
    decreases i - s,
{
    if i > s + 1 {
        lemma_no_new_starts(ws, s, i - 1);
        assert(is_wet(ws[i - 2]));
    }
}

fn push_event(out: &mut Vec<String>, ws: &Vec<WeatherWindow>, s: usize, e: usize)
    requires
        windows_valid(ws@),
        s <= e < ws@.len(),
    ensures
        final(out)@.len() == old(out)@.len() + 1,
        forall|k: int| 0 <= k < old(out)@.len() ==> #[trigger] final(out)@[k] == old(out)@[k],
        final(out)@[old(out)@.len() as int]@ == event_text(ws@, s as int, e as int),
{
    let mut t = String::new();
    t.append(ws[s].condition.as_str());
    t.append(" ");
    let a = clock_string(ws[s].start_ns);
    t.append(a.as_str());
    t.append("–");
    let b = clock_string(ws[e].end_ns);
    t.append(b.as_str());
    t.append(" UTC");
    out.push(t);
}

proof fn lemma_run_starts_step(ws: Seq<WeatherWindow>, i: int)
    requires
        0 <= i,
    ensures
        run_starts(ws, i + 1) == (if is_run_start(ws, i) { run_starts(ws, i).push(i) } else { run_starts(ws, i) }),
{
}

/// Event texts for the first `m` runs that start among windows `0..i`.
pub open spec fn events_match(ws: Seq<WeatherWindow>, i: int, out: Seq<String>) -> bool {
    &&& out.len() <= run_starts(ws, i).len()
    &&& forall|k: int| 0 <= k < out.len() ==> (#[trigger] out[k])@ == event_text(ws,
        run_starts(ws, i)[k], run_end(ws, run_starts(ws, i)[k]))
}

/// Reportable weather events: one per maximal run of consecutive windows
/// that are neither clear nor cloudy, named by the run's first condition and
/// spanning from its first window's start to its last window's end.
pub fn weather_events(ws: &Vec<WeatherWindow>) -> (r: Vec<String>)
    requires
        windows_valid(ws@),
    ensures
        r@.len() == run_starts(ws@, ws@.len() as int).len(),
        events_match(ws@, ws@.len() as int, r@),
        r@.len() == 0 <==> forall|i: int| 0 <= i < ws@.len() ==> (#[trigger] ws@[i]).condition == WeatherCondition::Clear
            || ws@[i].condition == WeatherCondition::Cloudy,
{
    let n = ws.len();
    let mut out: Vec<String> = Vec::new();
    let mut open = false;
    let mut s: usize = 0;
    for i in 0..n
        invariant
            n == ws@.len(),
            windows_valid(ws@),
            events_match(ws@, i as int, out@),
            !open ==> (i == 0 || !is_wet(ws@[i - 1])),
            !open ==> out@.len() == run_starts(ws@, i as int).len(),
            open ==> s < i && is_run_start(ws@, s as int),
            open ==> forall|k: int| s <= k < i ==> is_wet(#[trigger] ws@[k]),
            open ==> run_starts(ws@, i as int) == run_starts(ws@, s as int).push(s as int),
            open ==> out@.len() == run_starts(ws@, s as int).len(),
    {
        let c = ws[i].condition;
        let wet = c != WeatherCondition::Clear && c != WeatherCondition::Cloudy;
        let ghost rs = run_starts(ws@, i as int);
        proof {
            lemma_run_starts_step(ws@, i as int);
        }
        if wet {
            if !open {
                assert(is_run_start(ws@, i as int));
                open = true;
                s = i;
            } else {
                assert(!is_run_start(ws@, i as int));
            }
        } else if open {
            proof {
                lemma_run_end(ws@, s as int, i - 1);
            }
            push_event(&mut out, ws, s, i - 1);
            open = false;
        }
        proof {
            let rs2 = run_starts(ws@, i + 1);
            assert forall|k: int| 0 <= k < rs.len() implies #[trigger] rs2[k] == rs[k] by {}
        }
    }
    if open {
        proof { lemma_run_end(ws@, s as int, n - 1); }
        push_event(&mut out, ws, s, n - 1);
    }
    proof {
        law_weather_events_quiet(ws@, out@);
    }
    out
}

proof fn lemma_no_runs(ws: Seq<WeatherWindow>, n: int)
    requires
        0 <= n <= ws.len(),
    ensures
        run_starts(ws, n).len() == 0 <==> forall|i: int| 0 <= i < n ==> !is_wet(#[trigger] ws[i]),
    decreases n,
{
    if n > 0 {
        lemma_no_runs(ws, n - 1);
        lemma_run_starts_step(ws, n - 1);
        if run_starts(ws, n).len() == 0 {
            assert(run_starts(ws, n - 1).len() == 0);
            assert(!is_run_start(ws, n - 1));
            if n >= 2 {
                assert(!is_wet(ws[n - 2]));
            }
            assert forall|i: int| 0 <= i < n implies !is_wet(#[trigger] ws[i]) by {
                if i < n - 1 {
                    assert(!is_wet(ws[i]));
                }
            }
        } else {
            if forall|i: int| 0 <= i < n ==> !is_wet(#[trigger] ws[i]) {
                assert forall|i: int| 0 <= i < n - 1 implies !is_wet(#[trigger] ws[i]) by {
                    assert(!is_wet(ws[i]));
                }
                assert(!is_wet(ws[n - 1]));
                assert(!is_run_start(ws, n - 1));
            }
        }
    }
}

/// The brief reports no weather event exactly when every window is clear or
/// cloudy: a single rain, thunderstorm, snow or fog window is reported.
pub proof fn law_weather_events_quiet(ws: Seq<WeatherWindow>, r: Seq<String>)
    requires
        r.len() == run_starts(ws, ws.len() as int).len(),
    ensures
        r.len() == 0 <==> forall|i: int| 0 <= i < ws.len() ==> (#[trigger] ws[i]).condition == WeatherCondition::Clear
            || ws[i].condition == WeatherCondition::Cloudy,
{
    lemma_no_runs(ws, ws.len() as int);
    if r.len() == 0 {
        assert forall|i: int| 0 <= i < ws.len() implies (#[trigger] ws[i]).condition == WeatherCondition::Clear
            || ws[i].condition == WeatherCondition::Cloudy by {
            assert(!is_wet(ws[i]));
        }
    } else {
        if forall|i: int| 0 <= i < ws.len() ==> (#[trigger] ws[i]).condition == WeatherCondition::Clear
            || ws[i].condition == WeatherCondition::Cloudy {
            assert forall|i: int| 0 <= i < ws.len() implies !is_wet(#[trigger] ws[i]) by {
                assert(ws[i].condition == WeatherCondition::Clear || ws[i].condition == WeatherCondition::Cloudy);
            }
        }
    }
}

/// What the brief reads of one stitched track.
#[derive(Debug, Clone)]
pub struct BriefTrack {
    pub icao24: String,
    /// Instant of the track's first sample, nanoseconds since the epoch.
    pub started_ns: i128,
    /// The track satisfies the overhead rule.
    pub is_overhead_candidate: bool,
}

/// The day's most unusual event, as the brief prints it.
#[derive(Debug, Clone)]
pub struct UnusualEvent {
    pub description: String,
    /// The event's confidence rendered with two decimals.
    pub confidence_label: String,
}

/// Who an event is about: the callsign, or `icao24 {icao24}` without one.
pub open spec fn who_text(callsign: Seq<char>, icao24: Seq<char>) -> Seq<char> {
    if callsign.len() == 0 {
        "icao24 "@ + icao24
    } else {
        callsign
    }
}

/// `HH:MM UTC` of the closest approach, or empty when the track is unknown.
pub open spec fn when_text(closest_approach_ns: Option<i128>) -> Seq<char> {
    match closest_approach_ns {
        Some(t) => clock_text(t as int) + " UTC"@,
        None => Seq::empty(),
    }
}

/// `"{low|high}-altitude pass by {who} heading {heading}° at {when} ({altitude} m): {first reason}"`.
pub open spec fn unusual_text(low_altitude: bool, callsign: Seq<char>, icao24: Seq<char>, heading: Seq<char>,
    closest_approach_ns: Option<i128>, altitude: Seq<char>, reasons: Seq<String>) -> Seq<char> {
    (if low_altitude { "low"@ } else { "high"@ }) + "-altitude pass by "@ + who_text(callsign, icao24)
        + " heading "@ + heading + "° at "@ + when_text(closest_approach_ns) + " ("@ + altitude + " m): "@
        + (if reasons.len() > 0 { reasons[0]@ } else { Seq::empty() })
}

impl UnusualEvent {
    /// Describe the day's most unusual track: low or high altitude pass by
    /// its callsign (or icao24), its rendered heading, the UTC time of its
    /// closest approach (when the track is known), its rendered altitude and
    /// the first reason it was flagged for.
    pub fn describe(low_altitude: bool, callsign: &String, icao24: &String, heading: &String,
        closest_approach_ns: Option<i128>, altitude: &String, reasons: &Vec<String>, confidence_label: String)
        -> (r: UnusualEvent)
        requires
            closest_approach_ns matches Some(t) ==> valid_instant(t as int),
        ensures
            r.description@ == unusual_text(low_altitude, callsign@, icao24@, heading@, closest_approach_ns,
                altitude@, reasons@),
            r.confidence_label@ == confidence_label@,
    {
        let mut d = String::new();
        if low_altitude {
            d.append("low");
        } else {
            d.append("high");
        }
        d.append("-altitude pass by ");
        if callsign.unicode_len() == 0 {
            d.append("icao24 ");
            d.append(icao24.as_str());
        } else {
            d.append(callsign.as_str());
        }
        d.append(" heading ");
        d.append(heading.as_str());
        d.append("° at ");
        match closest_approach_ns {
            Some(t) => {
                let c = clock_string(t);
                d.append(c.as_str());
                d.append(" UTC");
            },
            None => {},
        }
        d.append(" (");
        d.append(altitude.as_str());
        d.append(" m): ");
        if reasons.len() > 0 {
            d.append(reasons[0].as_str());
        }
        proof {
            reveal_strlit("");
            reveal_strlit("icao24 ");
            assert(d@ =~= unusual_text(low_altitude, callsign@, icao24@, heading@, closest_approach_ns,
                altitude@, reasons@));
        }
        UnusualEvent { description: d, confidence_label }
    }
}

/// One day's summary of the sky above the observer.
#[derive(Debug, Clone)]
pub struct DailySkyBrief {
    pub observer: String,
    /// Calendar date (`%Y-%m-%d`, UTC) of the first track.
    pub date: String,
    /// Distinct aircraft (icao24) among the tracks.
    pub aircraft_observed: usize,
    pub overhead_candidates: usize,
    /// Scored tracks whose band is above "mildly unusual".
    pub unusual_tracks: usize,
    /// Human-readable weather events (runs of non-clear, non-cloudy windows).
    pub weather_events: Vec<String>,
    pub most_unusual: Option<UnusualEvent>,
}

/// Distinct icao24 values among the tracks.
pub open spec fn aircraft_set(ts: Seq<BriefTrack>) -> Set<Seq<char>> {
    Set::new(|c: Seq<char>| exists|k: int| 0 <= k < ts.len() && (#[trigger] ts[k]).icao24@ == c)
}

/// Number of tracks flagged as overhead candidates.
pub open spec fn overhead_count(ts: Seq<BriefTrack>) -> nat
    decreases ts.len(),
{
    if ts.len() == 0 {
        0
    } else {
        overhead_count(ts.drop_last()) + if ts.last().is_overhead_candidate { 1nat } else { 0nat }
    }
}

/// Number of bands above "mildly unusual".
pub open spec fn unusual_count(bs: Seq<Interpretation>) -> nat
    decreases bs.len(),
{
    if bs.len() == 0 {
        0
    } else {
        unusual_count(bs.drop_last()) + if band_rank(bs.last()) > 1 { 1nat } else { 0nat }
    }
}

/// Some track among the first `i` has icao24 `c`.
pub open spec fn icao_among(ts: Seq<BriefTrack>, i: int, c: Seq<char>) -> bool {
    exists|j: int| 0 <= j < i && (#[trigger] ts[j]).icao24@ == c
}

/// Some string of `seen` reads `c`.
pub open spec fn string_among(seen: Seq<String>, c: Seq<char>) -> bool {
    exists|k: int| 0 <= k < seen.len() && (#[trigger] seen[k])@ == c
}

fn count_aircraft(ts: &Vec<BriefTrack>) -> (r: usize)
    ensures
        r == aircraft_set(ts@).len(),
{
    let mut seen: Vec<String> = Vec::new();
    let n = ts.len();
    for i in 0..n
        invariant
            n == ts@.len(),
            seen@.len() <= i,
            forall|a: int, b: int| 0 <= a < b < seen@.len() ==> (#[trigger] seen@[a])@ != (#[trigger] seen@[b])@,
            forall|k: int| 0 <= k < seen@.len() ==> icao_among(ts@, i as int, (#[trigger] seen@[k])@),
            forall|j: int| 0 <= j < i ==> string_among(seen@, (#[trigger] ts@[j]).icao24@),
    {
        let mut found = false;
        let mut k: usize = 0;
        while k < seen.len()
            invariant
                n == ts@.len(),
                i < n,
                k <= seen@.len(),
                !found ==> forall|a: int| 0 <= a < k ==> (#[trigger] seen@[a])@ != ts@[i as int].icao24@,
                found ==> string_among(seen@, ts@[i as int].icao24@),
            decreases seen@.len() - k,
        {
            if seen[k] == ts[i].icao24 {
                found = true;
            }
            k = k + 1;
        }
        if !found {
            let ghost old_seen = seen@;
            seen.push(ts[i].icao24.clone());
            proof {
                assert forall|k2: int| 0 <= k2 < seen@.len() implies icao_among(ts@, i + 1, (#[trigger] seen@[k2])@) by {
                    if k2 < old_seen.len() {
                        assert(seen@[k2] == old_seen[k2]);
                        assert(icao_among(ts@, i as int, old_seen[k2]@));
                        let j = choose|j: int| 0 <= j < i && (#[trigger] ts@[j]).icao24@ == old_seen[k2]@;
                        assert(ts@[j].icao24@ == seen@[k2]@);
                    } else {
                        assert(ts@[i as int].icao24@ == seen@[k2]@);
                    }
                }
                assert forall|j: int| 0 <= j < i + 1 implies string_among(seen@, (#[trigger] ts@[j]).icao24@) by {
                    if j < i {
                        assert(string_among(old_seen, ts@[j].icao24@));
                        let k2 = choose|k2: int| 0 <= k2 < old_seen.len() && (#[trigger] old_seen[k2])@ == ts@[j].icao24@;
                        assert(seen@[k2] == old_seen[k2]);
                    } else {
                        assert(seen@[old_seen.len() as int]@ == ts@[j].icao24@);
                    }
                }
            }
        }
    }
    proof {
        let v = Seq::new(seen@.len(), |k: int| seen@[k]@);
        assert(v.no_duplicates());
        assert(v.to_set() =~= aircraft_set(ts@)) by {
            assert forall|c: Seq<char>| v.to_set().contains(c) implies aircraft_set(ts@).contains(c) by {
                let k = choose|k: int| 0 <= k < v.len() && v[k] == c;
                assert(seen@[k]@ == c);
                assert(icao_among(ts@, n as int, seen@[k]@));
                let j = choose|j: int| 0 <= j < n && (#[trigger] ts@[j]).icao24@ == seen@[k]@;
                assert(ts@[j].icao24@ == c);
            }
            assert forall|c: Seq<char>| aircraft_set(ts@).contains(c) implies v.to_set().contains(c) by {
                let j = choose|j: int| 0 <= j < ts@.len() && (#[trigger] ts@[j]).icao24@ == c;
                assert(string_among(seen@, ts@[j].icao24@));
                let k = choose|k: int| 0 <= k < seen@.len() && (#[trigger] seen@[k])@ == ts@[j].icao24@;
                assert(v[k] == c);
            }
        }
        v.unique_seq_to_set();
    }
    seen.len()
}

fn count_overhead(ts: &Vec<BriefTrack>) -> (r: usize)
    ensures
        r == overhead_count(ts@),
{
    let mut c: usize = 0;
    let n = ts.len();
    for i in 0..n
        invariant
            n == ts@.len(),
            c == overhead_count(ts@.subrange(0, i as int)),
            c <= i,
    {
        assert(ts@.subrange(0, i + 1).drop_last() =~= ts@.subrange(0, i as int));
        if ts[i].is_overhead_candidate {
            c = c + 1;
        }
    }
    assert(ts@.subrange(0, n as int) =~= ts@);
    c
}

fn count_unusual(bs: &Vec<Interpretation>) -> (r: usize)
    ensures
        r == unusual_count(bs@),
{
    let mut c: usize = 0;
    let n = bs.len();
    for i in 0..n
        invariant
            n == bs@.len(),
            c == unusual_count(bs@.subrange(0, i as int)),
            c <= i,
    {
        assert(bs@.subrange(0, i + 1).drop_last() =~= bs@.subrange(0, i as int));
        if bs[i].rank() > 1 {
            c = c + 1;
        }
    }
    assert(bs@.subrange(0, n as int) =~= bs@);
    c
}

/// The brief's text block.
pub open spec fn brief_text(b: DailySkyBrief) -> Seq<char> {
    "Sky brief — "@ + b.observer@ + ", "@ + b.date@ + ". "@
        + decimal_text(b.aircraft_observed as nat) + " aircraft observed; "@
        + decimal_text(b.overhead_candidates as nat) + " overhead candidates; "@
        + decimal_text(b.unusual_tracks as nat) + " unusual track"@
        + (if b.unusual_tracks == 1 { Seq::<char>::empty() } else { "s"@ }) + "."@
        + (if b.weather_events@.len() == 0 {
            " Weather: clear throughout."@
        } else {
            " Weather: "@ + join_text(texts(b.weather_events@), "; "@) + "."@
        })
        + (match b.most_unusual {
            Some(mu) => " Most unusual event: "@ + mu.description@ + " (confidence "@
                + mu.confidence_label@ + ")."@,
            None => Seq::<char>::empty(),
        })
}


impl DailySkyBrief {
    /// The brief's text block (`Sky brief — …`).
    pub fn to_text(&self) -> (r: String)
        ensures
            r@ == brief_text(*self),
    {
        let mut s = String::new();
        s.append("Sky brief — ");
        s.append(self.observer.as_str());
        s.append(", ");
        s.append(self.date.as_str());
        s.append(". ");
        push_decimal(&mut s, self.aircraft_observed as u64);
        s.append(" aircraft observed; ");
        push_decimal(&mut s, self.overhead_candidates as u64);
        s.append(" overhead candidates; ");
        push_decimal(&mut s, self.unusual_tracks as u64);
        s.append(" unusual track");
        if self.unusual_tracks != 1 {
            s.append("s");
        }
        s.append(".");
        let ghost head = s@;
        if self.weather_events.len() == 0 {
            s.append(" Weather: clear throughout.");
        } else {
            s.append(" Weather: ");
            push_joined(&mut s, &self.weather_events, "; ");
            s.append(".");
        }
        let ghost mid = s@;
        match &self.most_unusual {
            Some(mu) => {
                s.append(" Most unusual event: ");
                s.append(mu.description.as_str());
                s.append(" (confidence ");
                s.append(mu.confidence_label.as_str());
                s.append(").");
            },
            None => {},
        }
        assert(s@ =~= brief_text(*self));
        s
    }


    /// Build the brief from the day's tracks, the bands of the scored tracks,
    /// the weather timeline and the chosen most unusual event.
    pub fn build(observer: &String, tracks: &Vec<BriefTrack>, bands: &Vec<Interpretation>,
        weather: &Vec<WeatherWindow>, most_unusual: Option<UnusualEvent>) -> (b: DailySkyBrief)
        requires
            forall|k: int| 0 <= k < tracks@.len() ==> valid_instant((#[trigger] tracks@[k]).started_ns as int),
            windows_valid(weather@),
        ensures
            b.observer@ == observer@,
            b.date@ == (if tracks@.len() > 0 {
                utc_date_label(tracks@[0].started_ns as int / (NANOS_PER_SEC as int))
            } else {
                utc_date_label(0)
            }),
            b.aircraft_observed == aircraft_set(tracks@).len(),
            b.overhead_candidates == overhead_count(tracks@),
            b.unusual_tracks == unusual_count(bands@),
            b.weather_events@.len() == run_starts(weather@, weather@.len() as int).len(),
            events_match(weather@, weather@.len() as int, b.weather_events@),
            b.most_unusual == most_unusual,
    {
        let date = if tracks.len() > 0 {
            format_date_label(unix_seconds(tracks[0].started_ns))
        } else {
            format_date_label(0)
        };
        DailySkyBrief {
            observer: observer.clone(),
            date,
            aircraft_observed: count_aircraft(tracks),
            overhead_candidates: count_overhead(tracks),
            unusual_tracks: count_unusual(bands),
            weather_events: weather_events(weather),
            most_unusual,
        }
    }
}

} // verus!
