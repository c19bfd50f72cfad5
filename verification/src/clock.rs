//! UTC instants as nanoseconds since the Unix epoch, and hourly windows.
use vstd::prelude::*;
use crate::text::{two_digit_text, push_two_digits};

verus! {

/// Nanoseconds in one second.
pub const NANOS_PER_SEC: i128 = 1_000_000_000;
/// Nanoseconds in one hour.
pub const NANOS_PER_HOUR: i128 = 3_600_000_000_000;
/// Nanoseconds in one day.
pub const NANOS_PER_DAY: i128 = 86_400_000_000_000;
/// Earliest UTC date-time `chrono` represents, -262143-01-01T00:00:00, in
/// nanoseconds since the epoch.
pub const MIN_INSTANT_NANOS: i128 = -8_334_601_228_800_000_000_000;
/// Latest UTC date-time `chrono` represents, +262142-12-31T23:59:59.999999999,
/// in nanoseconds since the epoch.
pub const MAX_INSTANT_NANOS: i128 = 8_210_266_876_799_999_999_999;
/// Whole seconds of the earliest representable date-time.
pub const MIN_INSTANT_SECS: i64 = -8_334_601_228_800;
/// Whole seconds of the latest representable date-time.
pub const MAX_INSTANT_SECS: i64 = 8_210_266_876_799;

/// An instant inside the range of UTC date-times `chrono` represents.
pub open spec fn valid_instant(t: int) -> bool {
    MIN_INSTANT_NANOS <= t <= MAX_INSTANT_NANOS
}

/// Whole seconds in a signed duration of `d` nanoseconds, truncated toward
/// zero (as `chrono::TimeDelta::num_seconds` counts them).
pub open spec fn whole_seconds(d: int) -> int {
    if d >= 0 {
        d / (NANOS_PER_SEC as int)
    } else {
        -((-d) / (NANOS_PER_SEC as int))
    }
}

/// Start of the UTC hour containing `t`.
pub open spec fn hour_floor(t: int) -> int {
    t - t % (NANOS_PER_HOUR as int)
}

/// Hour of the UTC day (0..24) of `t`.
pub open spec fn hour_of_day(t: int) -> int {
    (t % (NANOS_PER_DAY as int)) / (NANOS_PER_HOUR as int)
}

/// Minute of the hour (0..60) of `t`.
pub open spec fn minute_of_hour(t: int) -> int {
    (t % (NANOS_PER_HOUR as int)) / (60 * NANOS_PER_SEC as int)
}

/// `HH:MM` rendering of the UTC wall-clock time of `t`.
pub open spec fn clock_text(t: int) -> Seq<char> {
    two_digit_text(hour_of_day(t) as nat) + seq![':'] + two_digit_text(minute_of_hour(t) as nat)
}

fn rem_euclid_nonneg(t: i128, m: i128) -> (r: i128)
    requires
        valid_instant(t as int),
        m > 0,
    ensures
        r == t % m,
        0 <= r < m,
{
    match t.checked_rem_euclid(m) {
        Some(r) => r,
        None => {
            assert(false);
            0
        },
    }
}

/// The hour containing a supported instant starts at a supported instant.
pub proof fn lemma_hour_floor_valid(t: int)
    requires
        valid_instant(t),
    ensures
        valid_instant(hour_floor(t)),
        hour_floor(t) <= t < hour_floor(t) + NANOS_PER_HOUR,
{
    let h = NANOS_PER_HOUR as int;
    vstd::arithmetic::div_mod::lemma_fundamental_div_mod(t, h);
    let q = t / h;
    assert(hour_floor(t) == q * h);
    assert(MIN_INSTANT_NANOS == -2_315_167_008 * h);
    assert(q >= -2_315_167_008) by (nonlinear_arith)
        requires
            t == q * h + t % h,
            0 <= t % h < h,
            t >= -2_315_167_008 * h,
            h > 0;
    assert(q * h >= -2_315_167_008 * h) by (nonlinear_arith)
        requires
            q >= -2_315_167_008,
            h > 0;
}

/// Start of the UTC hour containing `t`.
pub fn hour_start(t: i128) -> (r: i128)
    requires
        valid_instant(t as int),
    ensures
        r == hour_floor(t as int),
        r <= t < r + NANOS_PER_HOUR,
{
    t - rem_euclid_nonneg(t, NANOS_PER_HOUR)
}

/// Hour of the UTC day of `t` (the `hour()` of a `chrono` UTC date-time).
pub fn utc_hour(t: i128) -> (r: u32)
    requires
        valid_instant(t as int),
    ensures
        r as int == hour_of_day(t as int),
        r < 24,
{
    let d = rem_euclid_nonneg(t, NANOS_PER_DAY);
    (d / NANOS_PER_HOUR) as u32
}

/// Whole seconds from `a` to `b` (`(b - a).num_seconds()` in `chrono`).
pub fn seconds_between(a: i128, b: i128) -> (r: i128)
    requires
        valid_instant(a as int),
        valid_instant(b as int),
    ensures
        r == whole_seconds(b - a),
{
    let d = b - a;
    if d >= 0 {
        d / NANOS_PER_SEC
    } else {
        -((-d) / NANOS_PER_SEC)
    }
}

/// Starts of every UTC hour that overlaps `[start, end]`, earliest first.
pub fn hours_covering(start: i128, end: i128) -> (r: Vec<i128>)
    requires
        valid_instant(start as int),
        valid_instant(end as int),
    ensures
        forall|k: int| 0 <= k < r@.len() ==> #[trigger] r@[k] == hour_floor(start as int) + k * NANOS_PER_HOUR,
        forall|k: int| 0 <= k < r@.len() ==> #[trigger] r@[k] <= end,
        hour_floor(start as int) + r@.len() * NANOS_PER_HOUR > end,
        r@ == hour_seq(start as int, end as int),
{
    let mut t = hour_start(start);
    let mut out: Vec<i128> = Vec::new();
    while t <= end
        invariant
            valid_instant(start as int),
            valid_instant(end as int),
            t == hour_floor(start as int) + out@.len() * NANOS_PER_HOUR,
            t <= start || t <= end + NANOS_PER_HOUR,
            out@.len() > 0 ==> t <= end + NANOS_PER_HOUR,
            forall|k: int| 0 <= k < out@.len() ==> #[trigger] out@[k] == hour_floor(start as int) + k * NANOS_PER_HOUR,
            forall|k: int| 0 <= k < out@.len() ==> #[trigger] out@[k] <= end,
        decreases end - t + NANOS_PER_HOUR,
    {
        out.push(t);
        t = t + NANOS_PER_HOUR;
    }
    proof {
        let first = hour_floor(start as int);
        let n = out@.len() as int;
        if end >= first {
            assert(first + (n - 1) * NANOS_PER_HOUR <= end);
            assert(first + n * NANOS_PER_HOUR > end);
            assert((end - first) / (NANOS_PER_HOUR as int) == n - 1) by (nonlinear_arith)
                requires
                    first + (n - 1) * NANOS_PER_HOUR <= end,
                    first + n * NANOS_PER_HOUR > end,
                    n >= 1;
        } else {
            if n > 0 {
                assert(out@[0] <= end);
            }
        }
        assert(out@ =~= hour_seq(start as int, end as int));
    }
    out
}

/// Whole seconds since the epoch of `t`, rounded down (`timestamp()` of a
/// `chrono` date-time).
pub fn unix_seconds(t: i128) -> (r: i64)
    requires
        valid_instant(t as int),
    ensures
        r == (t as int) / (NANOS_PER_SEC as int),
{
    match t.checked_div_euclid(NANOS_PER_SEC) {
        Some(q) => q as i64,
        None => {
            assert(false);
            0
        },
    }
}

/// `%Y-%m-%dT%H` rendering (ISO date and hour) of the UTC date-time
/// `secs` seconds after the epoch, as `chrono` formats it.
pub uninterp spec fn utc_hour_label(secs: int) -> Seq<char>;

/// `%Y-%m-%d` rendering of the UTC calendar date `secs` seconds after the
/// epoch (the `Display` of `chrono`'s `NaiveDate`).
pub uninterp spec fn utc_date_label(secs: int) -> Seq<char>;

/// Calls `chrono::DateTime::<Utc>::from_timestamp(secs, 0)` and formats the
/// result with `%Y-%m-%dT%H`. Claimed: the text is `utc_hour_label(secs)`, a
/// function of `secs` alone. For every admitted `secs` the date-time exists
/// (`secs` lies inside `chrono`'s range), so the empty fallback is
/// never taken.
#[verifier::external_body]
pub(crate) fn format_hour_label(secs: i64) -> (r: String)
    requires
        MIN_INSTANT_SECS <= secs <= MAX_INSTANT_SECS,
    ensures
        r@ == utc_hour_label(secs as int),
{
    match chrono::DateTime::from_timestamp(secs, 0) {
        Some(t) => t.format("%Y-%m-%dT%H").to_string(),
        None => String::new(),
    }
}

/// Calls `chrono::DateTime::<Utc>::from_timestamp(secs, 0)` and renders its
/// `date_naive()`. Claimed: the text is `utc_date_label(secs)`, a function of
/// `secs` alone; the empty fallback is never taken for admitted `secs`.
#[verifier::external_body]
pub(crate) fn format_date_label(secs: i64) -> (r: String)
    requires
        MIN_INSTANT_SECS <= secs <= MAX_INSTANT_SECS,
    ensures
        r@ == utc_date_label(secs as int),
{
    match chrono::DateTime::from_timestamp(secs, 0) {
        Some(t) => t.date_naive().to_string(),
        None => String::new(),
    }
}

/// RFC 3339 rendering (`to_rfc3339()`) of the UTC date-time `secs` seconds
/// and `nanos` nanoseconds after the epoch, as `chrono` renders it.
pub uninterp spec fn utc_rfc3339(secs: int, nanos: int) -> Seq<char>;

/// Calls `chrono::DateTime::<Utc>::from_timestamp(secs, nanos)` and renders
/// it with `to_rfc3339()`. Claimed: the text is `utc_rfc3339(secs, nanos)`, a
/// function of the arguments alone; the date-time exists for every admitted
/// argument, so the empty fallback is never taken.
#[verifier::external_body]
pub(crate) fn format_rfc3339(secs: i64, nanos: u32) -> (r: String)
    requires
        MIN_INSTANT_SECS <= secs <= MAX_INSTANT_SECS,
        nanos < 1_000_000_000,
    ensures
        r@ == utc_rfc3339(secs as int, nanos as int),
{
    match chrono::DateTime::from_timestamp(secs, nanos) {
        Some(t) => t.to_rfc3339(),
        None => String::new(),
    }
}

/// RFC 3339 rendering of the instant `t`.
pub open spec fn rfc3339_text(t: int) -> Seq<char> {
    utc_rfc3339(t / (NANOS_PER_SEC as int), t % (NANOS_PER_SEC as int))
}

/// RFC 3339 rendering (`to_rfc3339()`) of the instant `t` in UTC.
pub fn rfc3339_string(t: i128) -> (r: String)
    requires
        valid_instant(t as int),
    ensures
        r@ == rfc3339_text(t as int),
{
    let nanos = rem_euclid_nonneg(t, NANOS_PER_SEC);
    format_rfc3339(unix_seconds(t), nanos as u32)
}

/// `%Y-%m-%dT%H` label of the UTC hour containing `t`.
pub open spec fn hour_label_text(t: int) -> Seq<char> {
    utc_hour_label(t / (NANOS_PER_SEC as int))
}

/// `%Y-%m-%dT%H` label of the UTC hour containing `t`.
pub fn hour_label_string(t: i128) -> (r: String)
    requires
        valid_instant(t as int),
    ensures
        r@ == hour_label_text(t as int),
{
    format_hour_label(unix_seconds(t))
}

/// Starts of the UTC hours overlapping `[start, end]`, earliest first.
pub open spec fn hour_seq(start: int, end: int) -> Seq<i128> {
    let first = hour_floor(start);
    let n = if end < first { 0 } else { (end - first) / (NANOS_PER_HOUR as int) + 1 };
    Seq::new(n as nat, |k: int| (first + k * NANOS_PER_HOUR) as i128)
}

/// Every element of `hour_seq` is the start of its own hour.
pub proof fn lemma_hour_seq_aligned(start: int, end: int, k: int)
    requires
        valid_instant(start),
        valid_instant(end),
        0 <= k < hour_seq(start, end).len(),
    ensures
        hour_floor(hour_seq(start, end)[k] as int) == hour_seq(start, end)[k] as int,
        hour_seq(start, end)[k] as int == hour_floor(start) + k * NANOS_PER_HOUR,
{
    let h = NANOS_PER_HOUR as int;
    let first = hour_floor(start);
    let q = start / h;
    vstd::arithmetic::div_mod::lemma_fundamental_div_mod(start, h);
    assert(first == q * h);
    let n = (end - first) / h + 1;
    assert(k < n);
    assert(k * h <= (n - 1) * h) by (nonlinear_arith)
        requires
            k <= n - 1,
            h > 0;
    assert((n - 1) * h <= end - first) by (nonlinear_arith)
        requires
            n - 1 == (end - first) / h,
            end - first >= 0,
            h > 0;
    let t = first + k * h;
    assert(t == (q + k) * h) by (nonlinear_arith)
        requires
            first == q * h,
            t == first + k * h;
    vstd::arithmetic::div_mod::lemma_mod_multiples_basic(q + k, h);
}

/// `HH:MM` wall-clock rendering of `t` in UTC.
pub fn clock_string(t: i128) -> (r: String)
    requires
        valid_instant(t as int),
    ensures
        r@ == clock_text(t as int),
{
    let day = rem_euclid_nonneg(t, NANOS_PER_DAY);
    let hour_rem = rem_euclid_nonneg(t, NANOS_PER_HOUR);
    let mut s = String::new();
    push_two_digits(&mut s, (day / NANOS_PER_HOUR) as u64);
    s.append(":");
    proof { reveal_strlit(":"); }
    push_two_digits(&mut s, (hour_rem / (60 * NANOS_PER_SEC)) as u64);
    s
}

} // verus!
