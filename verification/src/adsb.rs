//! Deterministic generator behind the synthetic ADS-B scenario.
use vstd::prelude::*;
use crate::clock::{valid_instant, NANOS_PER_SEC};

verus! {

/// Multiplier of the linear congruential step (Knuth's MMIX constant).
pub const LCG_MUL: u64 = 6364136223846793005;
/// Increment of the linear congruential step.
pub const LCG_INC: u64 = 1442695040888963407;

/// One step of the generator's state: `s * LCG_MUL + LCG_INC` modulo 2^64.
pub open spec fn lcg_step(s: u64) -> u64 {
    ((s as nat * LCG_MUL as nat + LCG_INC as nat) % 0x1_0000_0000_0000_0000nat) as u64
}

/// The value handed out for a freshly stepped state: the state xor-folded
/// with its own upper 31 bits.
pub open spec fn lcg_output(s: u64) -> u64 {
    s ^ (s >> 33u64)
}

/// State after `n` draws from a generator seeded with `seed`.
pub open spec fn lcg_state_after(seed: u64, n: nat) -> u64
    decreases n,
{
    if n == 0 {
        lcg_step(seed)
    } else {
        lcg_step(lcg_state_after(seed, (n - 1) as nat))
    }
}

/// The `k`-th value (counting from 0) drawn from a generator seeded with `seed`.
pub open spec fn lcg_nth_output(seed: u64, k: nat) -> u64 {
    lcg_output(lcg_state_after(seed, k + 1))
}

/// A generator's draws are its seed's sequence: once `new(seed)` and `k`
/// draws have left it in state `lcg_state_after(seed, k)`, the next draw
/// hands out `lcg_nth_output(seed, k)` and moves on to the next state.
pub proof fn law_lcg_sequence(seed: u64, k: nat, state: u64)
    requires
        state == lcg_state_after(seed, k),
    ensures
        lcg_step(state) == lcg_state_after(seed, k + 1),
        lcg_output(lcg_step(state)) == lcg_nth_output(seed, k),
{
}

/// Inverse of `LCG_MUL` modulo 2^64.
pub open spec fn lcg_mul_inv() -> int {
    13877824140714322085
}

/// One step of the generator can be undone: the step is one-to-one.
proof fn lemma_step_injective(a: u64, b: u64)
    requires
        lcg_step(a) == lcg_step(b),
    ensures
        a == b,
{
    lemma_unstep(a);
    lemma_unstep(b);
}

proof fn lemma_unstep(s: u64)
    ensures
        (((lcg_step(s) as int) + 0x1_0000_0000_0000_0000 - LCG_INC) * lcg_mul_inv()) % 0x1_0000_0000_0000_0000 == s,
{
    let w: int = 0x1_0000_0000_0000_0000;
    let x: int = s * LCG_MUL + LCG_INC;
    let t: int = x % w;
    assert(lcg_step(s) as int == t);
    vstd::arithmetic::div_mod::lemma_add_mod_noop(x, w - LCG_INC, w);
    vstd::arithmetic::div_mod::lemma_small_mod((w - LCG_INC) as nat, w as nat);
    vstd::arithmetic::div_mod::lemma_mod_bound(x, w);
    assert(x + (w - LCG_INC) == s * LCG_MUL + w);
    vstd::arithmetic::div_mod::lemma_mod_add_multiples_vanish(s * LCG_MUL, w);
    // (t + w - I) ≡ s·M (mod w)
    assert((t + (w - LCG_INC)) % w == (s * LCG_MUL) % w);
    vstd::arithmetic::div_mod::lemma_mul_mod_noop_left(t + w - LCG_INC, lcg_mul_inv(), w);
    vstd::arithmetic::div_mod::lemma_mul_mod_noop_left(s * LCG_MUL, lcg_mul_inv(), w);
    let k: int = 4787856489426250814;
    assert(LCG_MUL * lcg_mul_inv() == 1 + k * w);
    assert((s * LCG_MUL) * lcg_mul_inv() == s + (s * k) * w) by (nonlinear_arith)
        requires
            LCG_MUL * lcg_mul_inv() == 1 + k * w;
    vstd::arithmetic::div_mod::lemma_mod_multiples_vanish(s * k, s as int, w);
    vstd::arithmetic::div_mod::lemma_small_mod(s as nat, w as nat);
}

/// The output fold `x ^ (x >> 33)` is one-to-one.
proof fn lemma_output_injective(a: u64, b: u64)
    requires
        lcg_output(a) == lcg_output(b),
    ensures
        a == b,
{
    assert(a == b) by (bit_vector)
        requires
            a ^ (a >> 33u64) == b ^ (b >> 33u64);
}

/// Generators from different seeds are in different states after the same
/// number of draws.
proof fn lemma_states_differ(s1: u64, s2: u64, n: nat)
    requires
        s1 != s2,
    ensures
        lcg_state_after(s1, n) != lcg_state_after(s2, n),
    decreases n,
{
    if n == 0 {
        if lcg_step(s1) == lcg_step(s2) {
            lemma_step_injective(s1, s2);
        }
    } else {
        lemma_states_differ(s1, s2, (n - 1) as nat);
        if lcg_state_after(s1, n) == lcg_state_after(s2, n) {
            lemma_step_injective(lcg_state_after(s1, (n - 1) as nat), lcg_state_after(s2, (n - 1) as nat));
        }
    }
}

/// A seed fixes the whole sequence, and different seeds differ at every
/// position: after the same number of draws, two generators hand out equal
/// values exactly when they were seeded alike.
pub proof fn law_lcg_seeds(s1: u64, s2: u64, k: nat)
    ensures
        (lcg_nth_output(s1, k) == lcg_nth_output(s2, k)) <==> s1 == s2,
{
    if s1 != s2 {
        lemma_states_differ(s1, s2, k + 1);
        if lcg_nth_output(s1, k) == lcg_nth_output(s2, k) {
            lemma_output_injective(lcg_state_after(s1, k + 1), lcg_state_after(s2, k + 1));
        }
    }
}

proof fn lemma_wrapping_step(s: u64)
    ensures
        (s.wrapping_mul(LCG_MUL)).wrapping_add(LCG_INC) == lcg_step(s),
{
    let m: nat = 0x1_0000_0000_0000_0000nat;
    let p: nat = s as nat * LCG_MUL as nat;
    vstd::arithmetic::div_mod::lemma_add_mod_noop(p as int, LCG_INC as int, m as int);
    vstd::arithmetic::div_mod::lemma_mod_twice(LCG_INC as int, m as int);
    vstd::arithmetic::div_mod::lemma_mod_bound(p as int, m as int);
    let a: int = (p % m) as int;
    let b: int = LCG_INC as int;
    if a + b >= m {
        vstd::arithmetic::div_mod::lemma_mod_add_multiples_vanish(a + b - m, m as int);
        vstd::arithmetic::div_mod::lemma_small_mod((a + b - m) as nat, m);
    } else {
        vstd::arithmetic::div_mod::lemma_small_mod((a + b) as nat, m);
    }
}

/// Tiny deterministic linear congruential generator: the whole synthetic
/// scenario is reproducible from one `u64` seed.
pub struct Lcg {
    state: u64,
}

impl Lcg {
    /// Current internal state.
    pub closed spec fn state(&self) -> u64 {
        self.state
    }

    /// Generator seeded with `seed`; the seed is stepped once before use.
    pub fn new(seed: u64) -> (r: Lcg)
        ensures
            r.state() == lcg_step(seed),
            r.state() == lcg_state_after(seed, 0),
    {
        proof {
            lemma_wrapping_step(seed);
        }
        Lcg { state: seed.wrapping_mul(LCG_MUL).wrapping_add(LCG_INC) }
    }

    /// Step the state and return it xor-folded with its upper 31 bits.
    pub fn next_u64(&mut self) -> (r: u64)
        ensures
            final(self).state() == lcg_step(old(self).state()),
            r == lcg_output(final(self).state()),
    {
        proof {
            lemma_wrapping_step(self.state);
        }
        self.state = self.state.wrapping_mul(LCG_MUL).wrapping_add(LCG_INC);
        self.state ^ (self.state >> 33u64)
    }

    /// Numerator of the next uniform draw in `[0, 1)`: the next value's top
    /// 53 bits, so that the draw itself is this number divided by 2^53.
    pub fn next_unit_numerator(&mut self) -> (r: u64)
        ensures
            final(self).state() == lcg_step(old(self).state()),
            r == lcg_output(final(self).state()) >> 11u64,
            r < 0x20_0000_0000_0000,
    {
        let v = self.next_u64();
        assert(v >> 11u64 < 0x20_0000_0000_0000u64) by (bit_vector);
        v >> 11u64
    }
}

/// icao24 of the single anomalous synthetic track (low, slow, off-corridor,
/// 03:10 UTC the following night).
pub const ANOMALOUS_ICAO24: &'static str = "deadbf";
/// icao24 of the low-altitude general-aviation overhead pass.
pub const GA_OVERHEAD_ICAO24: &'static str = "c0a9a9";

/// One flight of the synthetic day. Decimal quantities are held exactly, in
/// tenths of their unit.
#[derive(Debug, Clone, Copy)]
pub struct FlightPlan {
    pub icao24: &'static str,
    pub callsign: &'static str,
    /// Start time, seconds after the scenario's day start.
    pub start_offset_s: i64,
    /// Number of one-second samples.
    pub duration_s: i64,
    /// Heading, tenths of a degree from true north.
    pub heading_tenths_deg: i64,
    /// Ground speed, tenths of a metre per second.
    pub speed_tenths_mps: i64,
    /// Altitude at the start of the segment, tenths of a metre.
    pub alt0_tenths_m: i64,
    /// Vertical rate, tenths of a metre per second (positive = climb).
    pub vertical_rate_tenths_mps: i64,
    /// Cross-track offset of the closest approach from the observer, tenths
    /// of a kilometre, positive = right of the heading direction.
    pub cross_offset_tenths_km: i64,
    /// Mean receiver signal strength, tenths of a dBFS.
    pub signal_tenths_dbfs: i64,
}

/// Seconds in an hour.
pub const SECS_PER_HOUR: i64 = 3600;

/// Number of flights in the synthetic day.
pub const SCENARIO_FLIGHTS: usize = 10;

/// Flight `k` of the synthetic day is `p`.
pub open spec fn plan_row(p: FlightPlan, k: int) -> bool {
    if k == 0 {
        p.icao24@ == "c01a01"@ && p.callsign@ == "ACA101"@ && p.start_offset_s == 39900
            && p.duration_s == 240 && p.heading_tenths_deg == 720 && p.speed_tenths_mps == 2360
            && p.alt0_tenths_m == 106000 && p.vertical_rate_tenths_mps == 0 && p.cross_offset_tenths_km == 80
            && p.signal_tenths_dbfs == -180
    } else if k == 1 {
        p.icao24@ == "a02b02"@ && p.callsign@ == "DAL202"@ && p.start_offset_s == 49200
            && p.duration_s == 240 && p.heading_tenths_deg == 740 && p.speed_tenths_mps == 2320
            && p.alt0_tenths_m == 108000 && p.vertical_rate_tenths_mps == 0 && p.cross_offset_tenths_km == -60
            && p.signal_tenths_dbfs == -190
    } else if k == 2 {
        p.icao24@ == "a03c03"@ && p.callsign@ == "UAL303"@ && p.start_offset_s == 55200
            && p.duration_s == 240 && p.heading_tenths_deg == 710 && p.speed_tenths_mps == 2380
            && p.alt0_tenths_m == 107000 && p.vertical_rate_tenths_mps == 0 && p.cross_offset_tenths_km == 120
            && p.signal_tenths_dbfs == -200
    } else if k == 3 {
        p.icao24@ == "c04d04"@ && p.callsign@ == "WJA404"@ && p.start_offset_s == 66600
            && p.duration_s == 240 && p.heading_tenths_deg == 730 && p.speed_tenths_mps == 2340
            && p.alt0_tenths_m == 105000 && p.vertical_rate_tenths_mps == 0 && p.cross_offset_tenths_km == 60
            && p.signal_tenths_dbfs == -180
    } else if k == 4 {
        p.icao24@ == "400a05"@ && p.callsign@ == "BAW505"@ && p.start_offset_s == 43800
            && p.duration_s == 240 && p.heading_tenths_deg == 2520 && p.speed_tenths_mps == 2280
            && p.alt0_tenths_m == 112000 && p.vertical_rate_tenths_mps == 0 && p.cross_offset_tenths_km == -100
            && p.signal_tenths_dbfs == -190
    } else if k == 5 {
        p.icao24@ == "39a006"@ && p.callsign@ == "AFR606"@ && p.start_offset_s == 61500
            && p.duration_s == 240 && p.heading_tenths_deg == 2510 && p.speed_tenths_mps == 2300
            && p.alt0_tenths_m == 110000 && p.vertical_rate_tenths_mps == 0 && p.cross_offset_tenths_km == 70
            && p.signal_tenths_dbfs == -180
    } else if k == 6 {
        p.icao24@ == "c07e07"@ && p.callsign@ == "JZA707"@ && p.start_offset_s == 51300
            && p.duration_s == 300 && p.heading_tenths_deg == 320 && p.speed_tenths_mps == 1450
            && p.alt0_tenths_m == 48000 && p.vertical_rate_tenths_mps == -75 && p.cross_offset_tenths_km == 60
            && p.signal_tenths_dbfs == -120
    } else if k == 7 {
        p.icao24@ == "c08f08"@ && p.callsign@ == "SKV808"@ && p.start_offset_s == 71100
            && p.duration_s == 300 && p.heading_tenths_deg == 340 && p.speed_tenths_mps == 1500
            && p.alt0_tenths_m == 46000 && p.vertical_rate_tenths_mps == -70 && p.cross_offset_tenths_km == -40
            && p.signal_tenths_dbfs == -120
    } else if k == 8 {
        p.icao24@ == GA_OVERHEAD_ICAO24@ && p.callsign@ == "CGSKY"@ && p.start_offset_s == 59400
            && p.duration_s == 360 && p.heading_tenths_deg == 880 && p.speed_tenths_mps == 620
            && p.alt0_tenths_m == 11000 && p.vertical_rate_tenths_mps == 0 && p.cross_offset_tenths_km == 4
            && p.signal_tenths_dbfs == -80
    } else if k == 9 {
        p.icao24@ == ANOMALOUS_ICAO24@ && p.callsign@ == ""@ && p.start_offset_s == 97800
            && p.duration_s == 420 && p.heading_tenths_deg == 1650 && p.speed_tenths_mps == 480
            && p.alt0_tenths_m == 4500 && p.vertical_rate_tenths_mps == 0 && p.cross_offset_tenths_km == 20
            && p.signal_tenths_dbfs == -30
    } else {
        false
    }
}

/// Start offset (seconds) of flight `k` of the synthetic day.
pub open spec fn plan_start(k: int) -> int {
    if k == 0 {
        39900
    } else if k == 1 {
        49200
    } else if k == 2 {
        55200
    } else if k == 3 {
        66600
    } else if k == 4 {
        43800
    } else if k == 5 {
        61500
    } else if k == 6 {
        51300
    } else if k == 7 {
        71100
    } else if k == 8 {
        59400
    } else if k == 9 {
        97800
    } else {
        0
    }
}

/// Number of samples of flight `k` of the synthetic day.
pub open spec fn plan_duration(k: int) -> int {
    if k == 0 {
        240
    } else if k == 1 {
        240
    } else if k == 2 {
        240
    } else if k == 3 {
        240
    } else if k == 4 {
        240
    } else if k == 5 {
        240
    } else if k == 6 {
        300
    } else if k == 7 {
        300
    } else if k == 8 {
        360
    } else if k == 9 {
        420
    } else {
        0
    }
}

/// The standard synthetic day of traffic over the observer: four eastbound
/// and two westbound en-route corridor flights, two arrivals, a low
/// general-aviation overhead pass and one anomalous night track.
pub fn scenario_plans() -> (r: Vec<FlightPlan>)
    ensures
        r@.len() == SCENARIO_FLIGHTS,
        forall|k: int| 0 <= k < r@.len() ==> plan_row(#[trigger] r@[k], k),
        forall|k: int| 0 <= k < r@.len() ==> (#[trigger] r@[k]).start_offset_s == plan_start(k)
            && r@[k].duration_s == plan_duration(k),
{
    let r = vec![
        // En-route commercial corridor, eastbound ~072° near FL350.
        FlightPlan {
            icao24: "c01a01",
            callsign: "ACA101",
            start_offset_s: 11 * SECS_PER_HOUR + 300,
            duration_s: 240,
            heading_tenths_deg: 720,
            speed_tenths_mps: 2360,
            alt0_tenths_m: 106000,
            vertical_rate_tenths_mps: 0,
            cross_offset_tenths_km: 80,
            signal_tenths_dbfs: -180,
        },
        FlightPlan {
            icao24: "a02b02",
            callsign: "DAL202",
            start_offset_s: 13 * SECS_PER_HOUR + 2400,
            duration_s: 240,
            heading_tenths_deg: 740,
            speed_tenths_mps: 2320,
            alt0_tenths_m: 108000,
            vertical_rate_tenths_mps: 0,
            cross_offset_tenths_km: -60,
            signal_tenths_dbfs: -190,
        },
        FlightPlan {
            icao24: "a03c03",
            callsign: "UAL303",
            start_offset_s: 15 * SECS_PER_HOUR + 1200,
            duration_s: 240,
            heading_tenths_deg: 710,
            speed_tenths_mps: 2380,
            alt0_tenths_m: 107000,
            vertical_rate_tenths_mps: 0,
            cross_offset_tenths_km: 120,
            signal_tenths_dbfs: -200,
        },
        FlightPlan {
            icao24: "c04d04",
            callsign: "WJA404",
            start_offset_s: 18 * SECS_PER_HOUR + 1800,
            duration_s: 240,
            heading_tenths_deg: 730,
            speed_tenths_mps: 2340,
            alt0_tenths_m: 105000,
            vertical_rate_tenths_mps: 0,
            cross_offset_tenths_km: 60,
            signal_tenths_dbfs: -180,
        },
        // Westbound return corridor ~252°.
        FlightPlan {
            icao24: "400a05",
            callsign: "BAW505",
            start_offset_s: 12 * SECS_PER_HOUR + 600,
            duration_s: 240,
            heading_tenths_deg: 2520,
            speed_tenths_mps: 2280,
            alt0_tenths_m: 112000,
            vertical_rate_tenths_mps: 0,
            cross_offset_tenths_km: -100,
            signal_tenths_dbfs: -190,
        },
        FlightPlan {
            icao24: "39a006",
            callsign: "AFR606",
            start_offset_s: 17 * SECS_PER_HOUR + 300,
            duration_s: 240,
            heading_tenths_deg: 2510,
            speed_tenths_mps: 2300,
            alt0_tenths_m: 110000,
            vertical_rate_tenths_mps: 0,
            cross_offset_tenths_km: 70,
            signal_tenths_dbfs: -180,
        },
        // Arrivals descending through the area toward Pearson (~032°).
        FlightPlan {
            icao24: "c07e07",
            callsign: "JZA707",
            start_offset_s: 14 * SECS_PER_HOUR + 900,
            duration_s: 300,
            heading_tenths_deg: 320,
            speed_tenths_mps: 1450,
            alt0_tenths_m: 48000,
            vertical_rate_tenths_mps: -75,
            cross_offset_tenths_km: 60,
            signal_tenths_dbfs: -120,
        },
        FlightPlan {
            icao24: "c08f08",
            callsign: "SKV808",
            start_offset_s: 19 * SECS_PER_HOUR + 2700,
            duration_s: 300,
            heading_tenths_deg: 340,
            speed_tenths_mps: 1500,
            alt0_tenths_m: 46000,
            vertical_rate_tenths_mps: -70,
            cross_offset_tenths_km: -40,
            signal_tenths_dbfs: -120,
        },
        // Low-altitude general-aviation overhead pass (lake-shore VFR).
        FlightPlan {
            icao24: GA_OVERHEAD_ICAO24,
            callsign: "CGSKY",
            start_offset_s: 16 * SECS_PER_HOUR + 1800,
            duration_s: 360,
            heading_tenths_deg: 880,
            speed_tenths_mps: 620,
            alt0_tenths_m: 11000,
            vertical_rate_tenths_mps: 0,
            cross_offset_tenths_km: 4,
            signal_tenths_dbfs: -80,
        },
        // Anomalous track: low, slow, off-corridor heading 165°, 03:10 the
        // following night, very strong signal, no callsign.
        FlightPlan {
            icao24: ANOMALOUS_ICAO24,
            callsign: "",
            start_offset_s: 27 * SECS_PER_HOUR + 600,
            duration_s: 420,
            heading_tenths_deg: 1650,
            speed_tenths_mps: 480,
            alt0_tenths_m: 4500,
            vertical_rate_tenths_mps: 0,
            cross_offset_tenths_km: 20,
            signal_tenths_dbfs: -30,
        },
    ];
    r
}

/// The integer skeleton of one synthetic sample: which flight and second it
/// belongs to, its instant, and the numerators (over 2^53) of the five
/// uniform draws that jitter its track, speed, altitude, vertical rate and
/// signal, in that order.
#[derive(Debug, Clone, Copy, PartialEq, Eq, Structural)]
pub struct SampleDraw {
    pub plan: usize,
    pub step: i64,
    pub ts_ns: i128,
    pub track_draw: u64,
    pub speed_draw: u64,
    pub alt_draw: u64,
    pub vrate_draw: u64,
    pub signal_draw: u64,
}

/// Samples generated before flight `k` (flights are generated in order).
pub open spec fn plan_offset(k: int) -> int
    decreases k,
{
    if k <= 0 {
        0
    } else {
        plan_offset(k - 1) + plan_duration(k - 1)
    }
}

proof fn lemma_plan_offset_bounds(k: int)
    requires
        0 <= k <= SCENARIO_FLIGHTS,
    ensures
        0 <= plan_offset(k) <= 420 * k,
    decreases k,
{
    if k > 0 {
        lemma_plan_offset_bounds(k - 1);
    }
}

/// Numerator of the `n`-th uniform draw (from 0) of a generator seeded with `seed`.
pub open spec fn scenario_draw(seed: u64, n: int) -> u64 {
    lcg_output(lcg_state_after(seed, (n + 1) as nat)) >> 11u64
}

/// `d` is sample `d.step` of flight `d.plan`, generated from `seed` for a
/// day starting at `day_start`: five draws per sample, flights in order,
/// seconds in order.
pub open spec fn sample_ok(seed: u64, day_start: int, d: SampleDraw) -> bool {
    let n = 5 * (plan_offset(d.plan as int) + d.step);
    &&& d.plan < SCENARIO_FLIGHTS
    &&& 0 <= d.step < plan_duration(d.plan as int)
    &&& d.ts_ns == day_start + (plan_start(d.plan as int) + d.step) * NANOS_PER_SEC
    &&& d.track_draw == scenario_draw(seed, n)
    &&& d.speed_draw == scenario_draw(seed, n + 1)
    &&& d.alt_draw == scenario_draw(seed, n + 2)
    &&& d.vrate_draw == scenario_draw(seed, n + 3)
    &&& d.signal_draw == scenario_draw(seed, n + 4)
}

/// Output order of samples: by instant, ties in generation (flight) order.
pub open spec fn sample_before(a: SampleDraw, b: SampleDraw) -> bool {
    a.ts_ns < b.ts_ns || (a.ts_ns == b.ts_ns && a.plan < b.plan)
}

/// Strictly ascending in output order.
pub open spec fn samples_sorted(v: Seq<SampleDraw>) -> bool {
    forall|a: int, b: int| 0 <= a < b < v.len() ==> sample_before(#[trigger] v[a], #[trigger] v[b])
}

/// Some sample of `v` is second `t` of flight `p`.
pub open spec fn has_sample(v: Seq<SampleDraw>, p: int, t: int) -> bool {
    exists|k: int| 0 <= k < v.len() && (#[trigger] v[k]).plan == p && v[k].step == t
}

/// Insert `x` at its place in the ascending `out`, which holds no sample
/// of the same instant and flight.
fn insert_sample(out: &mut Vec<SampleDraw>, x: SampleDraw)
    requires
        samples_sorted(old(out)@),
        forall|k: int| 0 <= k < old(out)@.len() ==> !((#[trigger] old(out)@[k]).ts_ns == x.ts_ns && old(out)@[k].plan == x.plan),
    ensures
        samples_sorted(final(out)@),
        final(out)@.len() == old(out)@.len() + 1,
        forall|k: int| 0 <= k < final(out)@.len() ==> (#[trigger] final(out)@[k] == x || old(out)@.contains(final(out)@[k])),
        forall|k: int| 0 <= k < old(out)@.len() ==> final(out)@.contains(#[trigger] old(out)@[k]),
        final(out)@.contains(x),
{
    let mut p: usize = 0;
    while p < out.len() && (out[p].ts_ns < x.ts_ns || (out[p].ts_ns == x.ts_ns && out[p].plan < x.plan))
        invariant
            p <= out@.len(),
            forall|a: int| 0 <= a < p ==> sample_before(#[trigger] out@[a], x),
        decreases out@.len() - p,
    {
        p = p + 1;
    }
    let ghost old_out = out@;
    proof {
        if p < old_out.len() {
            assert(!(old_out[p as int].ts_ns == x.ts_ns && old_out[p as int].plan == x.plan));
        }
    }
    out.insert(p, x);
    proof {
        assert forall|a: int, b: int| 0 <= a < b < out@.len() implies sample_before(#[trigger] out@[a], #[trigger] out@[b]) by {
            if a < p && b > p {
                assert(out@[b] == old_out[b - 1]);
                assert(sample_before(x, old_out[p as int]));
            } else if b < p {
                assert(out@[a] == old_out[a] && out@[b] == old_out[b]);
            } else if a > p {
                assert(out@[a] == old_out[a - 1] && out@[b] == old_out[b - 1]);
            } else if a < p {
                assert(out@[a] == old_out[a]);
            } else {
                assert(out@[b] == old_out[b - 1]);
                assert(sample_before(x, old_out[p as int]));
                if b - 1 > p {
                    assert(sample_before(old_out[p as int], old_out[b - 1]));
                }
            }
        }
        assert forall|k: int| 0 <= k < out@.len() implies (#[trigger] out@[k] == x || old_out.contains(out@[k])) by {
            if k < p {
                assert(out@[k] == old_out[k]);
            } else if k > p {
                assert(out@[k] == old_out[k - 1]);
            }
        }
        assert forall|k: int| 0 <= k < old_out.len() implies out@.contains(#[trigger] old_out[k]) by {
            if k < p {
                assert(out@[k] == old_out[k]);
            } else {
                assert(out@[k + 1] == old_out[k]);
            }
        }
        assert(out@[p as int] == x);
    }
}

/// The integer skeleton of the synthetic scenario: every second of every
/// flight with its instant and its five jitter draws (drawn flight by
/// flight, second by second, from one generator seeded with `seed`), in
/// time order, ties in generation order.
pub fn scenario_draws(seed: u64, day_start_ns: i128) -> (r: Vec<SampleDraw>)
    requires
        valid_instant(day_start_ns as int),
    ensures
        samples_sorted(r@),
        forall|k: int| 0 <= k < r@.len() ==> sample_ok(seed, day_start_ns as int, #[trigger] r@[k]),
        forall|p: int, t: int| 0 <= p < SCENARIO_FLIGHTS && 0 <= t < plan_duration(p) ==> #[trigger] has_sample(r@, p, t),
        r@.len() == plan_offset(SCENARIO_FLIGHTS as int),
        r@.len() == 2820,
{
    let plans = scenario_plans();
    let mut rng = Lcg::new(seed);
    let mut out: Vec<SampleDraw> = Vec::new();
    let mut p: usize = 0;
    while p < plans.len()
        invariant
            valid_instant(day_start_ns as int),
            plans@.len() == SCENARIO_FLIGHTS,
            forall|k: int| 0 <= k < plans@.len() ==> (#[trigger] plans@[k]).start_offset_s == plan_start(k)
                && plans@[k].duration_s == plan_duration(k),
            p <= plans@.len(),
            rng.state() == lcg_state_after(seed, (5 * plan_offset(p as int)) as nat),
            out@.len() == plan_offset(p as int),
            samples_sorted(out@),
            forall|k: int| 0 <= k < out@.len() ==> sample_ok(seed, day_start_ns as int, #[trigger] out@[k])
                && out@[k].plan < p,
            forall|q: int, t: int| 0 <= q < p && 0 <= t < plan_duration(q) ==> #[trigger] has_sample(out@, q, t),
        decreases plans@.len() - p,
    {
        let start = plans[p].start_offset_s;
        let duration = plans[p].duration_s;
        proof {
            assert(plan_duration(p as int) >= 0);
            lemma_plan_offset_bounds(p as int);
        }
        let mut t: i64 = 0;
        while t < duration
            invariant
                valid_instant(day_start_ns as int),
                p < SCENARIO_FLIGHTS,
                start == plan_start(p as int),
                duration == plan_duration(p as int),
                0 <= t <= duration,
                0 <= plan_offset(p as int) <= 4200,
                rng.state() == lcg_state_after(seed, (5 * (plan_offset(p as int) + t)) as nat),
                out@.len() == plan_offset(p as int) + t,
                samples_sorted(out@),
                forall|k: int| 0 <= k < out@.len() ==> sample_ok(seed, day_start_ns as int, #[trigger] out@[k])
                    && (out@[k].plan < p || (out@[k].plan == p && out@[k].step < t)),
                forall|q: int, s: int| 0 <= q < p && 0 <= s < plan_duration(q) ==> #[trigger] has_sample(out@, q, s),
                forall|s: int| 0 <= s < t ==> #[trigger] has_sample(out@, p as int, s),
            decreases duration - t,
        {
            let ghost n: int = 5 * (plan_offset(p as int) + t);
            let track_draw = rng.next_unit_numerator();
            let speed_draw = rng.next_unit_numerator();
            let alt_draw = rng.next_unit_numerator();
            let vrate_draw = rng.next_unit_numerator();
            let signal_draw = rng.next_unit_numerator();
            let d = SampleDraw {
                plan: p,
                step: t,
                ts_ns: day_start_ns + ((start + t) as i128) * NANOS_PER_SEC,
                track_draw,
                speed_draw,
                alt_draw,
                vrate_draw,
                signal_draw,
            };
            proof {
                assert(lcg_state_after(seed, (n + 1) as nat) == lcg_step(lcg_state_after(seed, n as nat)));
                assert(lcg_state_after(seed, (n + 2) as nat) == lcg_step(lcg_state_after(seed, (n + 1) as nat)));
                assert(lcg_state_after(seed, (n + 3) as nat) == lcg_step(lcg_state_after(seed, (n + 2) as nat)));
                assert(lcg_state_after(seed, (n + 4) as nat) == lcg_step(lcg_state_after(seed, (n + 3) as nat)));
                assert(lcg_state_after(seed, (n + 5) as nat) == lcg_step(lcg_state_after(seed, (n + 4) as nat)));
                assert(sample_ok(seed, day_start_ns as int, d));
                assert forall|k: int| 0 <= k < out@.len() implies !((#[trigger] out@[k]).ts_ns == d.ts_ns && out@[k].plan == d.plan) by {
                }
            }
            let ghost before = out@;
            insert_sample(&mut out, d);
            proof {
                assert forall|q: int, s: int| 0 <= q < p && 0 <= s < plan_duration(q) implies #[trigger] has_sample(out@, q, s) by {
                    assert(has_sample(before, q, s));
                    let k = choose|k: int| 0 <= k < before.len() && (#[trigger] before[k]).plan == q && before[k].step == s;
                    assert(out@.contains(before[k]));
                }
                assert forall|s: int| 0 <= s < t + 1 implies #[trigger] has_sample(out@, p as int, s) by {
                    if s < t {
                        assert(has_sample(before, p as int, s));
                        let k = choose|k: int| 0 <= k < before.len() && (#[trigger] before[k]).plan == p && before[k].step == s;
                        assert(out@.contains(before[k]));
                    } else {
                        assert(out@.contains(d));
                    }
                }
                assert forall|k: int| 0 <= k < out@.len() implies sample_ok(seed, day_start_ns as int, #[trigger] out@[k])
                    && (out@[k].plan < p || (out@[k].plan == p && out@[k].step < t + 1)) by {
                    if out@[k] != d {
                        assert(before.contains(out@[k]));
                    }
                }
            }
            t = t + 1;
        }
        proof {
            assert(plan_offset(p as int + 1) == plan_offset(p as int) + plan_duration(p as int));
        }
        p = p + 1;
    }
    proof {
        reveal_with_fuel(plan_offset, 11);
    }
    out
}

/// The synthetic day holds each second of each flight once: no two samples
/// share a flight and a second (and, by `scenario_draws`, all 2 820 seconds
/// of the ten flights are there).
pub proof fn law_scenario_samples_unique(seed: u64, day_start: int, r: Seq<SampleDraw>, a: int, b: int)
    requires
        samples_sorted(r),
        forall|k: int| 0 <= k < r.len() ==> sample_ok(seed, day_start, #[trigger] r[k]),
        0 <= a < b < r.len(),
    ensures
        !(r[a].plan == r[b].plan && r[a].step == r[b].step),
{
    assert(sample_ok(seed, day_start, r[a]));
    assert(sample_ok(seed, day_start, r[b]));
    assert(sample_before(r[a], r[b]));
}

/// Positions in `r` of the samples of flight `p`.
pub open spec fn flight_sample_positions(r: Seq<SampleDraw>, p: int) -> Set<int> {
    Set::new(|k: int| 0 <= k < r.len() && r[k].plan == p)
}

/// Each flight of the synthetic day yields exactly as many samples as it
/// lasts in seconds: one for each of its seconds.
pub proof fn law_scenario_flight_samples(seed: u64, day_start: int, r: Seq<SampleDraw>, p: int)
    requires
        samples_sorted(r),
        forall|k: int| 0 <= k < r.len() ==> sample_ok(seed, day_start, #[trigger] r[k]),
        forall|q: int, t: int| 0 <= q < SCENARIO_FLIGHTS && 0 <= t < plan_duration(q) ==> #[trigger] has_sample(r, q, t),
        0 <= p < SCENARIO_FLIGHTS,
    ensures
        flight_sample_positions(r, p).finite(),
        flight_sample_positions(r, p).len() == plan_duration(p),
{
    let x = flight_sample_positions(r, p);
    let f = |k: int| r[k].step as int;
    let y = vstd::set_lib::set_int_range(0, plan_duration(p));
    vstd::set_lib::lemma_int_range(0, r.len() as int);
    vstd::set_lib::lemma_len_subset(x, vstd::set_lib::set_int_range(0, r.len() as int));
    assert forall|a: int, b: int| x.contains(a) && x.contains(b) && #[trigger] f(a) == #[trigger] f(b) implies a == b by {
        if a < b {
            law_scenario_samples_unique(seed, day_start, r, a, b);
        } else if b < a {
            law_scenario_samples_unique(seed, day_start, r, b, a);
        }
    }
    assert forall|t: int| y.contains(t) <==> x.map(f).contains(t) by {
        if y.contains(t) {
            assert(has_sample(r, p, t));
            let k = choose|k: int| 0 <= k < r.len() && (#[trigger] r[k]).plan == p && r[k].step == t;
            assert(x.contains(k) && t == f(k));
        }
        if x.map(f).contains(t) {
            let k = choose|k: int| x.contains(k) && t == f(k);
            assert(sample_ok(seed, day_start, r[k]));
        }
    }
    assert(x.map(f) =~= y);
    vstd::set_lib::lemma_map_size(x, y, f);
    vstd::set_lib::lemma_int_range(0, plan_duration(p));
}

/// The flights of the synthetic day are ten distinct aircraft; each lies
/// inside the 28 hours the weather timeline covers; exactly one, the
/// anomalous night track, carries no callsign.
pub proof fn law_scenario_plans(plans: Seq<FlightPlan>)
    requires
        plans.len() == SCENARIO_FLIGHTS,
        forall|k: int| 0 <= k < plans.len() ==> plan_row(#[trigger] plans[k], k),
    ensures
        forall|a: int, b: int| 0 <= a < b < plans.len() ==> (#[trigger] plans[a]).icao24@ != (#[trigger] plans[b]).icao24@,
        forall|k: int| 0 <= k < plans.len() ==> 0 <= (#[trigger] plans[k]).start_offset_s
            && plans[k].duration_s > 0 && plans[k].start_offset_s + plans[k].duration_s <= 28 * 3600,
        forall|k: int| 0 <= k < plans.len() ==> ((#[trigger] plans[k]).callsign@.len() == 0
            <==> plans[k].icao24@ == ANOMALOUS_ICAO24@),
{
    assert forall|k: int| 0 <= k < plans.len() implies
        ((#[trigger] plans[k]).icao24@.len() == 6
        && (plans[k].icao24@[5] as int) == (if k < 9 { 49 + k } else { 102 })
        && (plans[k].callsign@.len() == 0 <==> k == 9)
        && (k == 9 ==> plans[k].icao24@ == ANOMALOUS_ICAO24@)) by {
        assert(plan_row(plans[k], k));
        reveal_strlit("c01a01");
        reveal_strlit("ACA101");
        reveal_strlit("a02b02");
        reveal_strlit("DAL202");
        reveal_strlit("a03c03");
        reveal_strlit("UAL303");
        reveal_strlit("c04d04");
        reveal_strlit("WJA404");
        reveal_strlit("400a05");
        reveal_strlit("BAW505");
        reveal_strlit("39a006");
        reveal_strlit("AFR606");
        reveal_strlit("c07e07");
        reveal_strlit("JZA707");
        reveal_strlit("c08f08");
        reveal_strlit("SKV808");
        reveal_strlit("c0a9a9");
        reveal_strlit("CGSKY");
        reveal_strlit("deadbf");
        reveal_strlit("");
    }
    assert forall|k: int| 0 <= k < plans.len() implies ((#[trigger] plans[k]).callsign@.len() == 0
        <==> plans[k].icao24@ == ANOMALOUS_ICAO24@) by {
        reveal_strlit("deadbf");
        if plans[k].icao24@ == ANOMALOUS_ICAO24@ {
            assert(plans[k].icao24@[5] == 'f');
        }
    }
}

/// The figures of a flight plan: start offset and duration in seconds, then
/// heading, speed, start altitude, vertical rate, cross-track offset and
/// signal strength in tenths of their units.
pub open spec fn plan_figures(p: FlightPlan) -> (int, int, int, int, int, int, int, int) {
    (p.start_offset_s as int, p.duration_s as int, p.heading_tenths_deg as int, p.speed_tenths_mps as int,
        p.alt0_tenths_m as int, p.vertical_rate_tenths_mps as int, p.cross_offset_tenths_km as int,
        p.signal_tenths_dbfs as int)
}

/// The flights of the synthetic day, row by row: four eastbound corridor
/// flights near 072°, two westbound near 252°, two arrivals near 032°, the
/// low general-aviation pass heading 088° east, and the anomalous night
/// track heading 165° without a callsign.
pub proof fn law_scenario_flight_table(plans: Seq<FlightPlan>)
    requires
        plans.len() == SCENARIO_FLIGHTS,
        forall|k: int| 0 <= k < plans.len() ==> plan_row(#[trigger] plans[k], k),
    ensures
        plans[0].icao24@ == "c01a01"@ && plans[0].callsign@ == "ACA101"@,
        plan_figures(plans[0]) == (11int * 3600 + 300, 240int, 720int, 2360int, 106000int, 0int, 80int, -180int),
        plans[1].icao24@ == "a02b02"@ && plans[1].callsign@ == "DAL202"@,
        plan_figures(plans[1]) == (13int * 3600 + 2400, 240int, 740int, 2320int, 108000int, 0int, -60int, -190int),
        plans[2].icao24@ == "a03c03"@ && plans[2].callsign@ == "UAL303"@,
        plan_figures(plans[2]) == (15int * 3600 + 1200, 240int, 710int, 2380int, 107000int, 0int, 120int, -200int),
        plans[3].icao24@ == "c04d04"@ && plans[3].callsign@ == "WJA404"@,
        plan_figures(plans[3]) == (18int * 3600 + 1800, 240int, 730int, 2340int, 105000int, 0int, 60int, -180int),
        plans[4].icao24@ == "400a05"@ && plans[4].callsign@ == "BAW505"@,
        plan_figures(plans[4]) == (12int * 3600 + 600, 240int, 2520int, 2280int, 112000int, 0int, -100int, -190int),
        plans[5].icao24@ == "39a006"@ && plans[5].callsign@ == "AFR606"@,
        plan_figures(plans[5]) == (17int * 3600 + 300, 240int, 2510int, 2300int, 110000int, 0int, 70int, -180int),
        plans[6].icao24@ == "c07e07"@ && plans[6].callsign@ == "JZA707"@,
        plan_figures(plans[6]) == (14int * 3600 + 900, 300int, 320int, 1450int, 48000int, -75int, 60int, -120int),
        plans[7].icao24@ == "c08f08"@ && plans[7].callsign@ == "SKV808"@,
        plan_figures(plans[7]) == (19int * 3600 + 2700, 300int, 340int, 1500int, 46000int, -70int, -40int, -120int),
        plans[8].icao24@ == "c0a9a9"@ && plans[8].callsign@ == "CGSKY"@,
        plan_figures(plans[8]) == (16int * 3600 + 1800, 360int, 880int, 620int, 11000int, 0int, 4int, -80int),
        plans[9].icao24@ == "deadbf"@ && plans[9].callsign@ == ""@,
        plan_figures(plans[9]) == (27int * 3600 + 600, 420int, 1650int, 480int, 4500int, 0int, 20int, -30int),
{
    reveal_strlit("c01a01");
    reveal_strlit("ACA101");
    reveal_strlit("a02b02");
    reveal_strlit("DAL202");
    reveal_strlit("a03c03");
    reveal_strlit("UAL303");
    reveal_strlit("c04d04");
    reveal_strlit("WJA404");
    reveal_strlit("400a05");
    reveal_strlit("BAW505");
    reveal_strlit("39a006");
    reveal_strlit("AFR606");
    reveal_strlit("c07e07");
    reveal_strlit("JZA707");
    reveal_strlit("c08f08");
    reveal_strlit("SKV808");
    reveal_strlit("c0a9a9");
    reveal_strlit("CGSKY");
    reveal_strlit("deadbf");
    reveal_strlit("");
    assert(plan_row(plans[0], 0));
    assert(plan_row(plans[1], 1));
    assert(plan_row(plans[2], 2));
    assert(plan_row(plans[3], 3));
    assert(plan_row(plans[4], 4));
    assert(plan_row(plans[5], 5));
    assert(plan_row(plans[6], 6));
    assert(plan_row(plans[7], 7));
    assert(plan_row(plans[8], 8));
    assert(plan_row(plans[9], 9));
}

} // verus!
