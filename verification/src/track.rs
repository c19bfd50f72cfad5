//! Track stitching: per-aircraft observations grouped into time-ordered
//! segments, split wherever reception pauses for longer than a gap.
use vstd::prelude::*;
use crate::clock::{valid_instant, whole_seconds, seconds_between};
use crate::observation::EntityType;
use crate::text::{lex_lt, str_lt, decimal_text, push_decimal, lemma_lex_irreflexive,
    lemma_lex_transitive, lemma_lex_total};

verus! {

/// Gap (seconds) after which a new track segment starts for the same icao24.
pub const TRACK_GAP_SECS: i64 = 60;

/// What stitching reads of one observation.
#[derive(Debug, Clone)]
pub struct StitchInput {
    /// Kind of entity observed; only aircraft are stitched.
    pub entity_type: EntityType,
    /// Resolved entity id (the icao24 for aircraft).
    pub entity_id: String,
    /// Observation instant, nanoseconds since the Unix epoch (UTC).
    pub time_ns: i128,
    /// Callsign attribute, empty when the observation carries none.
    pub callsign: String,
}

/// One stitched segment of an aircraft's observations.
#[derive(Debug, Clone)]
pub struct TrackSegment {
    /// `track-{icao24}-{segment}`.
    pub track_id: String,
    pub icao24: String,
    /// First non-empty callsign of the aircraft up to the end of this segment.
    pub callsign: String,
    /// Segment number among this aircraft's segments, from 0 in time order.
    pub segment: usize,
    /// Indices of the member observations, in time order.
    pub members: Vec<usize>,
    /// Instant of the first member.
    pub started_ns: i128,
    /// Instant of the last member.
    pub ended_ns: i128,
}

/// Observation `i` exists and is an aircraft observation.
pub open spec fn is_aircraft_obs(obs: Seq<StitchInput>, i: int) -> bool {
    0 <= i < obs.len() && obs[i].entity_type == EntityType::Aircraft
}

/// Aircraft observation `i` belongs to the aircraft `id`.
pub open spec fn obs_of(obs: Seq<StitchInput>, id: Seq<char>, i: int) -> bool {
    is_aircraft_obs(obs, i) && obs[i].entity_id@ == id
}

/// Some aircraft observation carries the id `id`.
pub open spec fn id_observed(obs: Seq<StitchInput>, id: Seq<char>) -> bool {
    exists|i: int| obs_of(obs, id, i)
}

/// Time order of observations, ties broken by input position (a stable sort).
pub open spec fn obs_before(obs: Seq<StitchInput>, i: int, j: int) -> bool {
    obs[i].time_ns < obs[j].time_ns || (obs[i].time_ns == obs[j].time_ns && i < j)
}

/// More than `gap` whole seconds pass from observation `i` to observation `j`.
pub open spec fn gap_exceeded(obs: Seq<StitchInput>, i: int, j: int, gap: i64) -> bool {
    whole_seconds(obs[j].time_ns - obs[i].time_ns) > gap
}

/// Every observation instant is inside the supported range.
pub open spec fn valid_times(obs: Seq<StitchInput>) -> bool {
    forall|i: int| 0 <= i < obs.len() ==> valid_instant(#[trigger] obs[i].time_ns as int)
}

/// `track-{icao24}-{segment}`.
pub open spec fn track_id_text(icao24: Seq<char>, segment: nat) -> Seq<char> {
    "track-"@ + icao24 + "-"@ + decimal_text(segment)
}

/// Output order of segments: by start instant, then icao24, then number.
pub open spec fn segment_key_lt(s: TrackSegment, t: TrackSegment) -> bool {
    ||| s.started_ns < t.started_ns
    ||| s.started_ns == t.started_ns && lex_lt(s.icao24@, t.icao24@)
    ||| s.started_ns == t.started_ns && s.icao24@ == t.icao24@ && s.segment < t.segment
}

/// A sequence of indices strictly ordered by `obs_before`.
pub open spec fn time_ordered(obs: Seq<StitchInput>, g: Seq<usize>) -> bool {
    forall|a: int, b: int| 0 <= a < b < g.len() ==> obs_before(obs, #[trigger] g[a] as int, #[trigger] g[b] as int)
}

/// Callsign carried by a segment ending at observation `last` of aircraft
/// `id`: the earliest non-empty callsign of that aircraft up to `last`,
/// or empty when there is none.
pub open spec fn callsign_ok(obs: Seq<StitchInput>, id: Seq<char>, last: int, c: Seq<char>) -> bool {
    &&& c.len() == 0 ==> forall|j: int| obs_of(obs, id, j) && !obs_before(obs, last, j)
        ==> (#[trigger] obs[j].callsign@).len() == 0
    &&& c.len() > 0 ==> exists|j: int| #![trigger obs[j]]
        obs_of(obs, id, j) && !obs_before(obs, last, j) && obs[j].callsign@ == c
        && forall|j2: int| obs_of(obs, id, j2) && obs_before(obs, j2, j)
            ==> (#[trigger] obs[j2].callsign@).len() == 0
}

/// One segment is internally consistent with the observations.
pub open spec fn segment_ok(obs: Seq<StitchInput>, gap: i64, s: TrackSegment) -> bool {
    let m = s.members@;
    &&& m.len() > 0
    &&& forall|k: int| 0 <= k < m.len() ==> obs_of(obs, s.icao24@, #[trigger] m[k] as int)
    &&& time_ordered(obs, m)
    &&& forall|k: int| 0 <= k < m.len() - 1 ==> !gap_exceeded(obs, #[trigger] m[k] as int, m[k + 1] as int, gap)
    &&& s.started_ns == obs[m[0] as int].time_ns
    &&& s.ended_ns == obs[m[m.len() - 1] as int].time_ns
    &&& s.track_id@ == track_id_text(s.icao24@, s.segment as nat)
    &&& callsign_ok(obs, s.icao24@, m[m.len() - 1] as int, s.callsign@)
}

/// First member of a segment.
pub open spec fn first_member(s: TrackSegment) -> int {
    s.members@[0] as int
}

/// Last member of a segment.
pub open spec fn last_member(s: TrackSegment) -> int {
    s.members@[s.members@.len() - 1] as int
}

/// Strictly sorted, duplicate-free list of aircraft ids.
pub open spec fn ids_sorted(ids: Seq<String>) -> bool {
    forall|a: int, b: int| 0 <= a < b < ids.len() ==> lex_lt(#[trigger] ids[a]@, #[trigger] ids[b]@)
}

/// The distinct ids of all aircraft observations, in `String` order.
fn aircraft_ids(obs: &Vec<StitchInput>) -> (ids: Vec<String>)
    ensures
        ids_sorted(ids@),
        forall|q: int| 0 <= q < ids@.len() ==> id_observed(obs@, #[trigger] ids@[q]@),
        forall|i: int| is_aircraft_obs(obs@, i) ==> exists|q: int| 0 <= q < ids@.len() && #[trigger] ids@[q]@ == obs@[i].entity_id@,
{
    let mut ids: Vec<String> = Vec::new();
    let n = obs.len();
    for i in 0..n
        invariant
            n == obs@.len(),
            ids_sorted(ids@),
            forall|q: int| 0 <= q < ids@.len() ==> id_observed(obs@, #[trigger] ids@[q]@),
            forall|j: int| 0 <= j < i && is_aircraft_obs(obs@, j) ==> exists|q: int| 0 <= q < ids@.len() && #[trigger] ids@[q]@ == obs@[j].entity_id@,
    {
        if obs[i].entity_type == EntityType::Aircraft {
            let id = &obs[i].entity_id;
            let mut p: usize = 0;
            while p < ids.len() && str_lt(ids[p].as_str(), id.as_str())
                invariant
                    p <= ids@.len(),
                    forall|a: int| 0 <= a < p ==> lex_lt(#[trigger] ids@[a]@, id@),
                decreases ids@.len() - p,
            {
                p = p + 1;
            }
            let present = p < ids.len() && ids[p] == *id;
            if !present {
                let ghost old_ids = ids@;
                proof {
                    assert forall|a: int| p <= a < old_ids.len() implies lex_lt(id@, #[trigger] old_ids[a]@) by {
                        lemma_lex_total(old_ids[p as int]@, id@);
                        if a > p {
                            lemma_lex_transitive(id@, old_ids[p as int]@, old_ids[a]@);
                        }
                    }
                    assert(obs_of(obs@, id@, i as int));
                }
                ids.insert(p, obs[i].entity_id.clone());
                proof {
                    assert forall|a: int, b: int| 0 <= a < b < ids@.len() implies lex_lt(#[trigger] ids@[a]@, #[trigger] ids@[b]@) by {
                        if a < p && b > p {
                            lemma_lex_transitive(ids@[a]@, id@, ids@[b]@);
                        }
                    }
                    assert forall|q: int| 0 <= q < ids@.len() implies id_observed(obs@, #[trigger] ids@[q]@) by {
                        if q < p {
                            assert(ids@[q] == old_ids[q]);
                        } else if q > p {
                            assert(ids@[q] == old_ids[q - 1]);
                        } else {
                            assert(obs_of(obs@, ids@[q]@, i as int));
                        }
                    }
                    assert forall|j: int| 0 <= j < i + 1 && is_aircraft_obs(obs@, j) implies exists|q: int| 0 <= q < ids@.len() && #[trigger] ids@[q]@ == obs@[j].entity_id@ by {
                        if j == i {
                            assert(ids@[p as int]@ == obs@[j].entity_id@);
                        } else {
                            let q0 = choose|q: int| 0 <= q < old_ids.len() && #[trigger] old_ids[q]@ == obs@[j].entity_id@;
                            if q0 < p {
                                assert(ids@[q0]@ == obs@[j].entity_id@);
                            } else {
                                assert(ids@[q0 + 1]@ == obs@[j].entity_id@);
                            }
                        }
                    }
                }
            } else {
                assert(ids@[p as int]@ == obs@[i as int].entity_id@);
            }
        }
    }
    ids
}

/// Index `j` occurs somewhere in `g`.
pub open spec fn seq_has(g: Seq<usize>, j: int) -> bool {
    exists|k: int| 0 <= k < g.len() && g[k] as int == j
}

/// Indices of all observations of aircraft `id`, in time order.
pub open spec fn is_timeline(obs: Seq<StitchInput>, id: Seq<char>, g: Seq<usize>) -> bool {
    &&& time_ordered(obs, g)
    &&& forall|k: int| 0 <= k < g.len() ==> obs_of(obs, id, #[trigger] g[k] as int)
    &&& forall|j: int| obs_of(obs, id, j) ==> seq_has(g, j)
}

/// The observations of aircraft `id`, stably ordered by time.
fn timeline(obs: &Vec<StitchInput>, id: &String) -> (g: Vec<usize>)
    ensures
        is_timeline(obs@, id@, g@),
{
    let mut g: Vec<usize> = Vec::new();
    let n = obs.len();
    for j in 0..n
        invariant
            n == obs@.len(),
            time_ordered(obs@, g@),
            forall|k: int| 0 <= k < g@.len() ==> obs_of(obs@, id@, #[trigger] g@[k] as int),
            forall|k: int| 0 <= k < g@.len() ==> #[trigger] g@[k] < j,
            forall|j2: int| 0 <= j2 < j && obs_of(obs@, id@, j2) ==> seq_has(g@, j2),
    {
        if obs[j].entity_type == EntityType::Aircraft && obs[j].entity_id == *id {
            let t = obs[j].time_ns;
            let mut p: usize = g.len();
            while p > 0 && obs[g[p - 1]].time_ns > t
                invariant
                    n == obs@.len(),
                    p <= g@.len(),
                    forall|k: int| 0 <= k < g@.len() ==> #[trigger] g@[k] < n,
                    forall|b: int| p <= b < g@.len() ==> obs@[#[trigger] g@[b] as int].time_ns > t,
                decreases p,
            {
                p = p - 1;
            }
            let ghost old_g = g@;
            proof {
                assert forall|a: int| 0 <= a < p implies obs_before(obs@, #[trigger] old_g[a] as int, j as int) by {
                    if p > 0 {
                        if a < p - 1 {
                            assert(obs_before(obs@, old_g[a] as int, old_g[p - 1] as int));
                        }
                    }
                }
            }
            g.insert(p, j);
            proof {
                assert forall|a: int, b: int| 0 <= a < b < g@.len() implies obs_before(obs@, #[trigger] g@[a] as int, #[trigger] g@[b] as int) by {
                    if b < p {
                        assert(g@[a] == old_g[a] && g@[b] == old_g[b]);
                    } else if b == p {
                        assert(g@[a] == old_g[a]);
                    } else if a == p {
                        assert(g@[b] == old_g[b - 1]);
                    } else if a < p {
                        assert(g@[a] == old_g[a] && g@[b] == old_g[b - 1]);
                    } else {
                        assert(g@[a] == old_g[a - 1] && g@[b] == old_g[b - 1]);
                    }
                }
                assert forall|k: int| 0 <= k < g@.len() implies obs_of(obs@, id@, #[trigger] g@[k] as int) && g@[k] < j + 1 by {
                    if k < p {
                        assert(g@[k] == old_g[k]);
                    } else if k > p {
                        assert(g@[k] == old_g[k - 1]);
                    }
                }
                assert forall|j2: int| 0 <= j2 < j + 1 && obs_of(obs@, id@, j2) implies seq_has(g@, j2) by {
                    if j2 == j {
                        assert(g@[p as int] == j2);
                    } else {
                        assert(seq_has(old_g, j2));
                        let k = choose|k: int| 0 <= k < old_g.len() && old_g[k] as int == j2;
                        if k < p {
                            assert(g@[k] == j2);
                        } else {
                            assert(g@[k + 1] == j2);
                        }
                    }
                }
            }
        }
    }
    g
}

/// First non-empty callsign among the observations at positions `0..p`
/// of the index sequence `g` (empty when there is none).
pub open spec fn first_nonempty_callsign(obs: Seq<StitchInput>, g: Seq<usize>, p: int) -> Seq<char>
    decreases p,
{
    if p <= 0 {
        Seq::empty()
    } else {
        let c = first_nonempty_callsign(obs, g, p - 1);
        if c.len() > 0 {
            c
        } else {
            obs[g[p - 1] as int].callsign@
        }
    }
}

proof fn lemma_first_nonempty(obs: Seq<StitchInput>, g: Seq<usize>, p: int)
    requires
        0 <= p <= g.len(),
    ensures
        first_nonempty_callsign(obs, g, p).len() == 0 ==> forall|q: int| 0 <= q < p
            ==> (#[trigger] obs[g[q] as int].callsign@).len() == 0,
        first_nonempty_callsign(obs, g, p).len() > 0 ==> exists|q: int| 0 <= q < p
            && #[trigger] obs[g[q] as int].callsign@ == first_nonempty_callsign(obs, g, p)
            && forall|q2: int| 0 <= q2 < q ==> (#[trigger] obs[g[q2] as int].callsign@).len() == 0,
    decreases p,
{
    if p > 0 {
        lemma_first_nonempty(obs, g, p - 1);
        let c = first_nonempty_callsign(obs, g, p - 1);
        if c.len() > 0 {
            let q = choose|q: int| 0 <= q < p - 1
                && #[trigger] obs[g[q] as int].callsign@ == c
                && forall|q2: int| 0 <= q2 < q ==> (#[trigger] obs[g[q2] as int].callsign@).len() == 0;
            assert(obs[g[q] as int].callsign@ == first_nonempty_callsign(obs, g, p));
        } else {
            if obs[g[p - 1] as int].callsign@.len() > 0 {
                assert(obs[g[p - 1] as int].callsign@ == first_nonempty_callsign(obs, g, p));
            }
        }
    }
}

/// Positions of a timeline follow the time order of their observations.
proof fn lemma_timeline_position(obs: Seq<StitchInput>, id: Seq<char>, g: Seq<usize>, j: int) -> (q: int)
    requires
        is_timeline(obs, id, g),
        obs_of(obs, id, j),
    ensures
        0 <= q < g.len(),
        g[q] == j,
{
    assert(seq_has(g, j));
    choose|q: int| 0 <= q < g.len() && g[q] as int == j
}

proof fn lemma_callsign_ok(obs: Seq<StitchInput>, id: Seq<char>, g: Seq<usize>, e: int)
    requires
        is_timeline(obs, id, g),
        0 <= e < g.len(),
    ensures
        callsign_ok(obs, id, g[e] as int, first_nonempty_callsign(obs, g, e + 1)),
{
    let c = first_nonempty_callsign(obs, g, e + 1);
    lemma_first_nonempty(obs, g, e + 1);
    if c.len() == 0 {
        assert forall|j: int| obs_of(obs, id, j) && !obs_before(obs, g[e] as int, j)
            implies (#[trigger] obs[j].callsign@).len() == 0 by {
            let q = lemma_timeline_position(obs, id, g, j);
            if q > e {
                assert(obs_before(obs, g[e] as int, g[q] as int));
            }
            assert(obs[g[q] as int].callsign@.len() == 0);
        }
    } else {
        let q = choose|q: int| 0 <= q < e + 1
            && #[trigger] obs[g[q] as int].callsign@ == c
            && forall|q2: int| 0 <= q2 < q ==> (#[trigger] obs[g[q2] as int].callsign@).len() == 0;
        let j = g[q] as int;
        assert(obs_of(obs, id, j));
        assert(!obs_before(obs, g[e] as int, j)) by {
            if q < e {
                assert(obs_before(obs, g[q] as int, g[e] as int));
            }
        }
        assert forall|j2: int| obs_of(obs, id, j2) && obs_before(obs, j2, j)
            implies (#[trigger] obs[j2].callsign@).len() == 0 by {
            let q2 = lemma_timeline_position(obs, id, g, j2);
            if q2 >= q {
                if q2 > q {
                    assert(obs_before(obs, g[q] as int, g[q2] as int));
                }
                assert(false);
            }
            assert(obs[g[q2] as int].callsign@.len() == 0);
        }
        assert(obs[j].callsign@ == c);
    }
}

/// Build the segment record for members already checked by the caller.
fn make_segment(obs: &Vec<StitchInput>, icao24: &String, callsign: &String, segment: usize,
    members: Vec<usize>) -> (s: TrackSegment)
    requires
        members@.len() > 0,
        forall|k: int| 0 <= k < members@.len() ==> #[trigger] members@[k] < obs@.len(),
    ensures
        s.icao24@ == icao24@,
        s.callsign@ == callsign@,
        s.segment == segment,
        s.members@ == members@,
        s.started_ns == obs@[members@[0] as int].time_ns,
        s.ended_ns == obs@[members@[members@.len() - 1] as int].time_ns,
        s.track_id@ == track_id_text(icao24@, segment as nat),
{
    let mut track_id = String::new();
    track_id.append("track-");
    track_id.append(icao24.as_str());
    track_id.append("-");
    push_decimal(&mut track_id, segment as u64);
    let started_ns = obs[members[0]].time_ns;
    let ended_ns = obs[members[members.len() - 1]].time_ns;
    TrackSegment {
        track_id,
        icao24: icao24.clone(),
        callsign: callsign.clone(),
        segment,
        members,
        started_ns,
        ended_ns,
    }
}

/// Guarantees of splitting one aircraft's timeline into segments.
pub open spec fn aircraft_segments_ok(obs: Seq<StitchInput>, gap: i64, id: Seq<char>, segs: Seq<TrackSegment>) -> bool {
    &&& forall|k: int| 0 <= k < segs.len() ==> (#[trigger] segs[k]).segment == k
    &&& forall|k: int| 0 <= k < segs.len() ==> (#[trigger] segs[k]).icao24@ == id
    &&& forall|k: int| 0 <= k < segs.len() ==> segment_ok(obs, gap, #[trigger] segs[k])
    &&& forall|k1: int, k2: int| 0 <= k1 < k2 < segs.len()
        ==> obs_before(obs, last_member(#[trigger] segs[k1]), first_member(#[trigger] segs[k2]))
    &&& forall|k: int| 0 <= k < segs.len() - 1
        ==> gap_exceeded(obs, last_member(#[trigger] segs[k]), first_member(segs[k + 1]), gap)
    &&& forall|j: int| obs_of(obs, id, j) ==> exists|k: int, m: int|
        0 <= k < segs.len() && 0 <= m < segs[k].members@.len() && #[trigger] segs[k].members@[m] == j
}

/// Position `q` falls inside one of the first `n` segments described by `bounds`.
pub open spec fn position_covered(bounds: Seq<int>, n: int, q: int) -> bool {
    exists|k: int| 0 <= k < n && bounds[k] <= q < #[trigger] bounds[k + 1]
}

proof fn lemma_new_segment_ok(obs: Seq<StitchInput>, gap: i64, id: Seq<char>, g: Seq<usize>,
    start: int, p: int, seg: TrackSegment)
    requires
        is_timeline(obs, id, g),
        0 <= start < p <= g.len(),
        seg.members@ == g.subrange(start, p),
        seg.icao24@ == id,
        seg.started_ns == obs[seg.members@[0] as int].time_ns,
        seg.ended_ns == obs[seg.members@[seg.members@.len() - 1] as int].time_ns,
        seg.track_id@ == track_id_text(id, seg.segment as nat),
        seg.callsign@ == first_nonempty_callsign(obs, g, p),
        forall|q: int| start <= q && q + 1 < p ==> !gap_exceeded(obs, #[trigger] g[q] as int, g[q + 1] as int, gap),
    ensures
        segment_ok(obs, gap, seg),
        first_member(seg) == g[start] as int,
        last_member(seg) == g[p - 1] as int,
{
    let m = seg.members@;
    assert forall|k: int| 0 <= k < m.len() implies obs_of(obs, seg.icao24@, #[trigger] m[k] as int) by {
        assert(m[k] == g[start + k]);
    }
    assert forall|a: int, b: int| 0 <= a < b < m.len() implies obs_before(obs, #[trigger] m[a] as int, #[trigger] m[b] as int) by {
        assert(m[a] == g[start + a] && m[b] == g[start + b]);
    }
    assert forall|k: int| 0 <= k < m.len() - 1 implies !gap_exceeded(obs, #[trigger] m[k] as int, m[k + 1] as int, gap) by {
        assert(m[k] == g[start + k] && m[k + 1] == g[start + k + 1]);
    }
    lemma_callsign_ok(obs, id, g, p - 1);
    assert(m[m.len() - 1] == g[p - 1]);
}

/// Bookkeeping of `split_timeline`: the segments emitted so far cover the
/// timeline positions `0..start`, segment `k` spanning `bounds[k]..bounds[k+1]`.
#[verifier::opaque]
pub open spec fn split_state(obs: Seq<StitchInput>, gap: i64, id: Seq<char>, g: Seq<usize>,
    segs: Seq<TrackSegment>, bounds: Seq<int>, start: int) -> bool {
    &&& bounds.len() == segs.len() + 1
    &&& bounds[0] == 0
    &&& bounds[segs.len() as int] == start
    &&& start <= g.len()
    &&& forall|a: int, b: int| 0 <= a < b <= segs.len() ==> #[trigger] bounds[a] < #[trigger] bounds[b]
    &&& forall|k: int| 0 <= k < segs.len() ==> (#[trigger] segs[k]).segment == k
    &&& forall|k: int| 0 <= k < segs.len() ==> (#[trigger] segs[k]).icao24@ == id
    &&& forall|k: int| 0 <= k < segs.len() ==> segment_ok(obs, gap, #[trigger] segs[k])
    &&& forall|k: int| 0 <= k < segs.len() ==> first_member(#[trigger] segs[k]) == g[bounds[k]] as int
    &&& forall|k: int| 0 <= k < segs.len() ==> last_member(#[trigger] segs[k]) == g[bounds[k + 1] - 1] as int
    &&& forall|k: int| 0 <= k < segs.len() ==> (#[trigger] segs[k]).members@ == g.subrange(bounds[k], bounds[k + 1])
    &&& forall|k: int| 1 <= k <= segs.len() && bounds[k] < g.len()
        ==> gap_exceeded(obs, g[#[trigger] bounds[k] - 1] as int, g[bounds[k]] as int, gap)
    &&& forall|q: int| 0 <= q < start ==> position_covered(bounds, segs.len() as int, q)
}

proof fn lemma_split_push(obs: Seq<StitchInput>, gap: i64, id: Seq<char>, g: Seq<usize>,
    segs: Seq<TrackSegment>, bounds: Seq<int>, start: int, p: int, seg: TrackSegment)
    requires
        is_timeline(obs, id, g),
        split_state(obs, gap, id, g, segs, bounds, start),
        start < p <= g.len(),
        seg.members@ == g.subrange(start, p),
        seg.icao24@ == id,
        seg.segment == segs.len(),
        seg.started_ns == obs[seg.members@[0] as int].time_ns,
        seg.ended_ns == obs[seg.members@[seg.members@.len() - 1] as int].time_ns,
        seg.track_id@ == track_id_text(id, seg.segment as nat),
        seg.callsign@ == first_nonempty_callsign(obs, g, p),
        forall|q: int| start <= q && q + 1 < p ==> !gap_exceeded(obs, #[trigger] g[q] as int, g[q + 1] as int, gap),
        p < g.len() ==> gap_exceeded(obs, g[p - 1] as int, g[p] as int, gap),
    ensures
        split_state(obs, gap, id, g, segs.push(seg), bounds.push(p), p),
{
    reveal(split_state);
    lemma_new_segment_ok(obs, gap, id, g, start, p, seg);
    let ns = segs.push(seg);
    let nb = bounds.push(p);
    let old_len = segs.len() as int;
    assert forall|q: int| 0 <= q < p implies position_covered(nb, ns.len() as int, q) by {
        if q < start {
            assert(position_covered(bounds, old_len, q));
            let k = choose|k: int| 0 <= k < old_len && bounds[k] <= q < #[trigger] bounds[k + 1];
            assert(nb[k] == bounds[k] && nb[k + 1] == bounds[k + 1]);
        } else {
            assert(nb[old_len] <= q < nb[old_len + 1]);
        }
    }
    assert forall|a: int, b: int| 0 <= a < b <= ns.len() implies #[trigger] nb[a] < #[trigger] nb[b] by {
        if b < ns.len() {
            assert(nb[a] == bounds[a] && nb[b] == bounds[b]);
        } else if a < old_len {
            assert(bounds[a] < bounds[old_len]);
        }
    }
    assert forall|k: int| 1 <= k <= ns.len() && nb[k] < g.len()
        implies gap_exceeded(obs, g[#[trigger] nb[k] - 1] as int, g[nb[k]] as int, gap) by {
        if k < ns.len() {
            assert(nb[k] == bounds[k]);
        }
    }
    assert forall|k: int| 0 <= k < ns.len() implies first_member(#[trigger] ns[k]) == g[nb[k]] as int
        && last_member(ns[k]) == g[nb[k + 1] - 1] as int && ns[k].segment == k && ns[k].icao24@ == id
        && segment_ok(obs, gap, ns[k]) && ns[k].members@ == g.subrange(nb[k], nb[k + 1]) by {
        if k < old_len {
            assert(nb[k] == bounds[k] && nb[k + 1] == bounds[k + 1]);
            assert(ns[k] == segs[k]);
        }
    }
}

proof fn lemma_split_done(obs: Seq<StitchInput>, gap: i64, id: Seq<char>, g: Seq<usize>,
    segs: Seq<TrackSegment>, bounds: Seq<int>)
    requires
        is_timeline(obs, id, g),
        split_state(obs, gap, id, g, segs, bounds, g.len() as int),
    ensures
        aircraft_segments_ok(obs, gap, id, segs),
{
    reveal(split_state);
    let n = segs.len() as int;
    assert forall|k1: int, k2: int| 0 <= k1 < k2 < n
        implies obs_before(obs, last_member(#[trigger] segs[k1]), first_member(#[trigger] segs[k2])) by {
        assert(bounds[k1 + 1] <= bounds[k2]) by {
            if k1 + 1 < k2 {
                assert(bounds[k1 + 1] < bounds[k2]);
            }
        }
        assert(bounds[k1] < bounds[k1 + 1]);
        assert(bounds[k2] < bounds[k2 + 1]);
        assert(bounds[k2 + 1] <= bounds[n]) by {
            if k2 + 1 < n {
                assert(bounds[k2 + 1] < bounds[n]);
            }
        }
    }
    assert forall|k: int| 0 <= k < n - 1
        implies gap_exceeded(obs, last_member(#[trigger] segs[k]), first_member(segs[k + 1]), gap) by {
        assert(bounds[k + 1] < bounds[n]);
    }
    assert forall|j: int| obs_of(obs, id, j) implies exists|k: int, m: int|
        0 <= k < n && 0 <= m < segs[k].members@.len() && #[trigger] segs[k].members@[m] == j by {
        let q = lemma_timeline_position(obs, id, g, j);
        assert(position_covered(bounds, n, q));
        let k = choose|k: int| 0 <= k < n && bounds[k] <= q < #[trigger] bounds[k + 1];
        assert(segment_ok(obs, gap, segs[k]));
        assert(bounds[k + 1] <= bounds[n]) by {
            if k + 1 < n {
                assert(bounds[k + 1] < bounds[n]);
            }
        }
        assert(segs[k].members@[q - bounds[k]] == j);
    }
}

/// Split one aircraft's timeline wherever more than `gap` whole seconds pass
/// between consecutive observations.
fn split_timeline(obs: &Vec<StitchInput>, g: &Vec<usize>, icao24: &String, gap: i64) -> (segs: Vec<TrackSegment>)
    requires
        valid_times(obs@),
        is_timeline(obs@, icao24@, g@),
    ensures
        aircraft_segments_ok(obs@, gap, icao24@, segs@),
{
    let len = g.len();
    let mut segs: Vec<TrackSegment> = Vec::new();
    let mut start: usize = 0;
    let mut callsign = String::new();
    let mut members: Vec<usize> = Vec::new();
    let ghost mut bounds: Seq<int> = seq![0int];
    proof {
        reveal(split_state);
    }
    for p in 0..len
        invariant
            len == g@.len(),
            valid_times(obs@),
            is_timeline(obs@, icao24@, g@),
            start <= p,
            members@ == g@.subrange(start as int, p as int),
            callsign@ == first_nonempty_callsign(obs@, g@, p as int),
            segs@.len() <= p,
            split_state(obs@, gap, icao24@, g@, segs@, bounds, start as int),
            forall|q: int| start <= q && q + 1 < p ==> !gap_exceeded(obs@, #[trigger] g@[q] as int, g@[q + 1] as int, gap),
    {
        if p > start {
            let prev = g[p - 1];
            let cur = g[p];
            if seconds_between(obs[prev].time_ns, obs[cur].time_ns) > gap as i128 {
                let seg = make_segment(obs, icao24, &callsign, segs.len(), members);
                proof {
                    lemma_split_push(obs@, gap, icao24@, g@, segs@, bounds, start as int, p as int, seg);
                    bounds = bounds.push(p as int);
                }
                segs.push(seg);
                members = Vec::new();
                start = p;
            }
        }
        if callsign.as_str().unicode_len() == 0 {
            callsign = obs[g[p]].callsign.clone();
        }
        members.push(g[p]);
        assert(members@ =~= g@.subrange(start as int, p + 1));
    }
    if len > start {
        let seg = make_segment(obs, icao24, &callsign, segs.len(), members);
        proof {
            lemma_split_push(obs@, gap, icao24@, g@, segs@, bounds, start as int, len as int, seg);
            bounds = bounds.push(len as int);
        }
        segs.push(seg);
    }
    proof {
        lemma_split_done(obs@, gap, icao24@, g@, segs@, bounds);
    }
    segs
}

proof fn lemma_key_transitive(a: TrackSegment, b: TrackSegment, c: TrackSegment)
    requires
        segment_key_lt(a, b),
        segment_key_lt(b, c),
    ensures
        segment_key_lt(a, c),
{
    if a.started_ns == b.started_ns && b.started_ns == c.started_ns {
        if lex_lt(a.icao24@, b.icao24@) && lex_lt(b.icao24@, c.icao24@) {
            lemma_lex_transitive(a.icao24@, b.icao24@, c.icao24@);
        }
    }
}

proof fn lemma_key_total(a: TrackSegment, b: TrackSegment)
    requires
        !(a.icao24@ == b.icao24@ && a.segment == b.segment),
    ensures
        segment_key_lt(a, b) || segment_key_lt(b, a),
{
    lemma_lex_total(a.icao24@, b.icao24@);
}

/// `segment_key_lt` decided on concrete segments.
fn segment_less(a: &TrackSegment, b: &TrackSegment) -> (r: bool)
    ensures
        r == segment_key_lt(*a, *b),
{
    if a.started_ns != b.started_ns {
        a.started_ns < b.started_ns
    } else if a.icao24 != b.icao24 {
        str_lt(a.icao24.as_str(), b.icao24.as_str())
    } else {
        proof { lemma_lex_irreflexive(a.icao24@); }
        a.segment < b.segment
    }
}

/// Strictly sorted by the output order.
pub open spec fn segments_sorted(r: Seq<TrackSegment>) -> bool {
    forall|a: int, b: int| 0 <= a < b < r.len() ==> segment_key_lt(#[trigger] r[a], #[trigger] r[b])
}

/// Insert `seg` into `out` at its place in the output order.
fn insert_segment(out: &mut Vec<TrackSegment>, seg: TrackSegment)
    requires
        segments_sorted(old(out)@),
        forall|a: int| 0 <= a < old(out)@.len() ==>
            !((#[trigger] old(out)@[a]).icao24@ == seg.icao24@ && old(out)@[a].segment == seg.segment),
    ensures
        segments_sorted(final(out)@),
        final(out)@.contains(seg),
        forall|x: TrackSegment| old(out)@.contains(x) ==> #[trigger] final(out)@.contains(x),
        forall|x: TrackSegment| #[trigger] final(out)@.contains(x) ==> old(out)@.contains(x) || x == seg,
{
    let mut p: usize = 0;
    while p < out.len() && segment_less(&out[p], &seg)
        invariant
            p <= out@.len(),
            forall|a: int| 0 <= a < p ==> segment_key_lt(#[trigger] out@[a], seg),
        decreases out@.len() - p,
    {
        p = p + 1;
    }
    let ghost old_out = out@;
    proof {
        assert forall|a: int| p <= a < old_out.len() implies segment_key_lt(seg, #[trigger] old_out[a]) by {
            lemma_key_total(old_out[p as int], seg);
            if a > p {
                lemma_key_transitive(seg, old_out[p as int], old_out[a]);
            }
        }
    }
    out.insert(p, seg);
    proof {
        assert forall|a: int, b: int| 0 <= a < b < out@.len() implies segment_key_lt(#[trigger] out@[a], #[trigger] out@[b]) by {
            if a < p && b > p {
                lemma_key_transitive(out@[a], seg, out@[b]);
            } else if b < p {
                assert(out@[a] == old_out[a] && out@[b] == old_out[b]);
            } else if a > p {
                assert(out@[a] == old_out[a - 1] && out@[b] == old_out[b - 1]);
            } else if a < p {
                assert(out@[a] == old_out[a]);
            } else {
                assert(out@[b] == old_out[b - 1]);
            }
        }
        assert(out@[p as int] == seg);
        assert forall|x: TrackSegment| old_out.contains(x) implies #[trigger] out@.contains(x) by {
            let k = choose|k: int| 0 <= k < old_out.len() && old_out[k] == x;
            if k < p {
                assert(out@[k] == x);
            } else {
                assert(out@[k + 1] == x);
            }
        }
        assert forall|x: TrackSegment| #[trigger] out@.contains(x) implies old_out.contains(x) || x == seg by {
            let k = choose|k: int| 0 <= k < out@.len() && out@[k] == x;
            if k < p {
                assert(old_out[k] == x);
            } else if k > p {
                assert(old_out[k - 1] == x);
            }
        }
    }
}

/// Some segment of `r` is number `k` of aircraft `icao24`.
pub open spec fn has_segment(r: Seq<TrackSegment>, icao24: Seq<char>, k: int) -> bool {
    exists|t: int| 0 <= t < r.len() && (#[trigger] r[t]).icao24@ == icao24 && r[t].segment == k
}

/// Insert every segment of one aircraft into the sorted output.
fn insert_all(out: &mut Vec<TrackSegment>, segs: Vec<TrackSegment>, Ghost(id): Ghost<Seq<char>>)
    requires
        segments_sorted(old(out)@),
        forall|k: int| 0 <= k < segs@.len() ==> (#[trigger] segs@[k]).segment == k && segs@[k].icao24@ == id,
        forall|x: TrackSegment| #[trigger] old(out)@.contains(x) ==> x.icao24@ != id,
    ensures
        segments_sorted(final(out)@),
        forall|x: TrackSegment| #[trigger] final(out)@.contains(x) ==> old(out)@.contains(x) || segs@.contains(x),
        forall|x: TrackSegment| old(out)@.contains(x) ==> #[trigger] final(out)@.contains(x),
        forall|k: int| 0 <= k < segs@.len() ==> final(out)@.contains(#[trigger] segs@[k]),
{
    let ghost all = segs@;
    let ghost out_before = out@;
    let mut segs = segs;
    while segs.len() > 0
        invariant
            segments_sorted(out@),
            all.len() >= segs@.len(),
            forall|k: int| 0 <= k < segs@.len() ==> #[trigger] segs@[k] == all[k],
            forall|k: int| 0 <= k < all.len() ==> (#[trigger] all[k]).segment == k && all[k].icao24@ == id,
            forall|x: TrackSegment| #[trigger] out@.contains(x) ==> out_before.contains(x)
                || exists|k: int| segs@.len() <= k < all.len() && #[trigger] all[k] == x,
            forall|x: TrackSegment| out_before.contains(x) ==> #[trigger] out@.contains(x),
            forall|k: int| segs@.len() <= k < all.len() ==> out@.contains(#[trigger] all[k]),
            forall|x: TrackSegment| #[trigger] out_before.contains(x) ==> x.icao24@ != id,
        decreases segs@.len(),
    {
        let seg = segs.pop().unwrap();
        proof {
            let kk = segs@.len() as int;
            assert(seg == all[kk]);
            assert forall|a: int| 0 <= a < out@.len() implies
                !((#[trigger] out@[a]).icao24@ == seg.icao24@ && out@[a].segment == seg.segment) by {
                let x = out@[a];
                assert(out@.contains(x));
                if !out_before.contains(x) {
                    let k = choose|k: int| kk + 1 <= k < all.len() && #[trigger] all[k] == x;
                    assert(all[k].segment == k);
                }
            }
        }
        let ghost pre = out@;
        insert_segment(out, seg);
        proof {
            let kk = segs@.len() as int;
            assert forall|x: TrackSegment| #[trigger] out@.contains(x) implies out_before.contains(x)
                || exists|k: int| segs@.len() <= k < all.len() && #[trigger] all[k] == x by {
                if x == seg {
                    assert(all[kk] == x);
                } else {
                    assert(pre.contains(x));
                }
            }
            assert forall|k: int| segs@.len() <= k < all.len() implies out@.contains(#[trigger] all[k]) by {
                if k > kk {
                    assert(pre.contains(all[k]));
                }
            }
        }
    }
    proof {
        assert forall|x: TrackSegment| #[trigger] out@.contains(x) implies out_before.contains(x) || all.contains(x) by {
            if !out_before.contains(x) {
                let k = choose|k: int| 0 <= k < all.len() && #[trigger] all[k] == x;
            }
        }
    }
}

/// Guarantees of `stitch_tracks` on its result `r`.
pub open spec fn stitched(obs: Seq<StitchInput>, gap: i64, r: Seq<TrackSegment>) -> bool {
    &&& segments_sorted(r)
    &&& forall|s: int| 0 <= s < r.len() ==> segment_ok(obs, gap, #[trigger] r[s])
    &&& forall|i: int| is_aircraft_obs(obs, i) ==> exists|s: int, m: int|
        0 <= s < r.len() && 0 <= m < r[s].members@.len() && #[trigger] r[s].members@[m] == i
    &&& forall|s: int, k: int| 0 <= s < r.len() && 0 <= k < r[s].segment ==> #[trigger] has_segment(r, r[s].icao24@, k)
    &&& forall|s: int, t: int| 0 <= s < t < r.len() && (#[trigger] r[s]).icao24@ == (#[trigger] r[t]).icao24@
        ==> r[s].segment != r[t].segment
    &&& forall|s: int, t: int| 0 <= s < r.len() && 0 <= t < r.len()
        && (#[trigger] r[s]).icao24@ == (#[trigger] r[t]).icao24@ && r[s].segment < r[t].segment
        ==> obs_before(obs, last_member(r[s]), first_member(r[t]))
            && (r[t].segment == r[s].segment + 1 ==> gap_exceeded(obs, last_member(r[s]), first_member(r[t]), gap))
}

/// Group aircraft observations by icao24, order each group by time (stably),
/// and split it wherever consecutive samples are more than `gap_secs` whole
/// seconds apart. Non-aircraft observations are ignored. Segments come out
/// ordered by start instant, then icao24, then segment number.
pub fn stitch_tracks(observations: &Vec<StitchInput>, gap_secs: i64) -> (r: Vec<TrackSegment>)
    requires
        valid_times(observations@),
    ensures
        stitched(observations@, gap_secs, r@),
        forall|i: int, j: int| 0 <= i < j < r@.len() ==> (#[trigger] r@[i]).started_ns <= (#[trigger] r@[j]).started_ns,
{
    let obs = observations;
    let ids = aircraft_ids(obs);
    let mut out: Vec<TrackSegment> = Vec::new();
    let ghost mut per_id: Seq<Seq<TrackSegment>> = Seq::empty();
    let nids = ids.len();
    for q in 0..nids
        invariant
            nids == ids@.len(),
            valid_times(obs@),
            ids_sorted(ids@),
            per_id.len() == q,
            segments_sorted(out@),
            forall|q2: int| 0 <= q2 < q ==> aircraft_segments_ok(obs@, gap_secs, ids@[q2]@, #[trigger] per_id[q2]),
            forall|x: TrackSegment| #[trigger] out@.contains(x) ==> exists|q2: int| 0 <= q2 < q && #[trigger] per_id[q2].contains(x),
            forall|q2: int, k: int| 0 <= q2 < q && 0 <= k < per_id[q2].len() ==> out@.contains(#[trigger] per_id[q2][k]),
    {
        let g = timeline(obs, &ids[q]);
        let segs = split_timeline(obs, &g, &ids[q], gap_secs);
        let ghost all = segs@;
        proof {
            assert forall|x: TrackSegment| #[trigger] out@.contains(x) implies x.icao24@ != ids@[q as int]@ by {
                let q2 = choose|q2: int| 0 <= q2 < q && #[trigger] per_id[q2].contains(x);
                let k = choose|k: int| 0 <= k < per_id[q2].len() && per_id[q2][k] == x;
                assert(per_id[q2][k].icao24@ == ids@[q2]@);
                assert(lex_lt(ids@[q2]@, ids@[q as int]@));
                lemma_lex_irreflexive(ids@[q as int]@);
            }
        }
        let ghost out_before = out@;
        proof {
            assert(aircraft_segments_ok(obs@, gap_secs, ids@[q as int]@, all));
            assert forall|k: int| 0 <= k < all.len() implies (#[trigger] all[k]).segment == k && all[k].icao24@ == ids@[q as int]@ by {
            }
        }
        insert_all(&mut out, segs, Ghost(ids@[q as int]@));
        proof {
            let old_per_id = per_id;
            per_id = per_id.push(all);
            assert forall|q2: int| 0 <= q2 < q + 1 implies aircraft_segments_ok(obs@, gap_secs, ids@[q2]@, #[trigger] per_id[q2]) by {
                if q2 < q {
                    assert(per_id[q2] == old_per_id[q2]);
                }
            }
            assert forall|x: TrackSegment| #[trigger] out@.contains(x) implies exists|q2: int| 0 <= q2 < q + 1 && #[trigger] per_id[q2].contains(x) by {
                if out_before.contains(x) {
                    let q2 = choose|q2: int| 0 <= q2 < q && #[trigger] old_per_id[q2].contains(x);
                    assert(per_id[q2] == old_per_id[q2]);
                    assert(per_id[q2].contains(x));
                } else {
                    assert(all.contains(x));
                    assert(per_id[q as int] == all);
                }
            }
            assert forall|q2: int, k: int| 0 <= q2 < q + 1 && 0 <= k < per_id[q2].len() implies out@.contains(#[trigger] per_id[q2][k]) by {
                if q2 < q {
                    assert(per_id[q2] == old_per_id[q2]);
                    assert(out_before.contains(old_per_id[q2][k]));
                }
            }
        }
    }
    proof {
        lemma_stitched(obs@, gap_secs, ids@, per_id, out@);
        assert forall|i: int, j: int| 0 <= i < j < out@.len() implies
            (#[trigger] out@[i]).started_ns <= (#[trigger] out@[j]).started_ns by {
            law_stitch_start_order(obs@, gap_secs, out@, i, j);
        }
    }
    out
}

proof fn lemma_stitched(obs: Seq<StitchInput>, gap: i64, ids: Seq<String>,
    per_id: Seq<Seq<TrackSegment>>, out: Seq<TrackSegment>)
    requires
        ids_sorted(ids),
        per_id.len() == ids.len(),
        forall|i: int| is_aircraft_obs(obs, i) ==> exists|q: int| 0 <= q < ids.len() && #[trigger] ids[q]@ == obs[i].entity_id@,
        segments_sorted(out),
        forall|q2: int| 0 <= q2 < ids.len() ==> aircraft_segments_ok(obs, gap, ids[q2]@, #[trigger] per_id[q2]),
        forall|x: TrackSegment| #[trigger] out.contains(x) ==> exists|q2: int| 0 <= q2 < ids.len() && #[trigger] per_id[q2].contains(x),
        forall|q2: int, k: int| 0 <= q2 < ids.len() && 0 <= k < per_id[q2].len() ==> out.contains(#[trigger] per_id[q2][k]),
    ensures
        stitched(obs, gap, out),
{
    assert forall|s: int| 0 <= s < out.len() implies segment_ok(obs, gap, #[trigger] out[s])
        && exists|q2: int, k: int| 0 <= q2 < ids.len() && 0 <= k < per_id[q2].len() && per_id[q2][k] == out[s]
            && out[s].segment == k && out[s].icao24@ == ids[q2]@ by {
        assert(out.contains(out[s]));
        let q2 = choose|q2: int| 0 <= q2 < ids.len() && #[trigger] per_id[q2].contains(out[s]);
        let k = choose|k: int| 0 <= k < per_id[q2].len() && per_id[q2][k] == out[s];
        assert(aircraft_segments_ok(obs, gap, ids[q2]@, per_id[q2]));
        assert(segment_ok(obs, gap, per_id[q2][k]));
    }
    assert forall|i: int| is_aircraft_obs(obs, i) implies exists|s: int, m: int|
        0 <= s < out.len() && 0 <= m < out[s].members@.len() && #[trigger] out[s].members@[m] == i by {
        let q = choose|q: int| 0 <= q < ids.len() && #[trigger] ids[q]@ == obs[i].entity_id@;
        assert(obs_of(obs, ids[q]@, i));
        assert(aircraft_segments_ok(obs, gap, ids[q]@, per_id[q]));
        let (k, m) = choose|k: int, m: int| 0 <= k < per_id[q].len() && 0 <= m < per_id[q][k].members@.len()
            && #[trigger] per_id[q][k].members@[m] == i;
        assert(out.contains(per_id[q][k]));
        let s = choose|s: int| 0 <= s < out.len() && out[s] == per_id[q][k];
        assert(out[s].members@[m] == i);
    }
    assert forall|s: int, k: int| 0 <= s < out.len() && 0 <= k < out[s].segment implies #[trigger] has_segment(out, out[s].icao24@, k) by {
        let (q2, k0) = choose|q2: int, k0: int| 0 <= q2 < ids.len() && 0 <= k0 < per_id[q2].len() && per_id[q2][k0] == out[s]
            && out[s].segment == k0 && out[s].icao24@ == ids[q2]@;
        assert(aircraft_segments_ok(obs, gap, ids[q2]@, per_id[q2]));
        assert(out.contains(per_id[q2][k]));
        let t = choose|t: int| 0 <= t < out.len() && out[t] == per_id[q2][k];
        assert(per_id[q2][k].segment == k);
        assert(per_id[q2][k].icao24@ == ids[q2]@);
        assert(out[t].icao24@ == out[s].icao24@ && out[t].segment == k);
    }
    assert forall|s: int, t: int| 0 <= s < t < out.len() && (#[trigger] out[s]).icao24@ == (#[trigger] out[t]).icao24@
        implies out[s].segment != out[t].segment by {
        let (q1, k1) = choose|q2: int, k0: int| 0 <= q2 < ids.len() && 0 <= k0 < per_id[q2].len() && per_id[q2][k0] == out[s]
            && out[s].segment == k0 && out[s].icao24@ == ids[q2]@;
        let (q2, k2) = choose|q2: int, k0: int| 0 <= q2 < ids.len() && 0 <= k0 < per_id[q2].len() && per_id[q2][k0] == out[t]
            && out[t].segment == k0 && out[t].icao24@ == ids[q2]@;
        if q1 != q2 {
            if q1 < q2 {
                assert(lex_lt(ids[q1]@, ids[q2]@));
            } else {
                assert(lex_lt(ids[q2]@, ids[q1]@));
            }
            lemma_lex_irreflexive(ids[q1]@);
        }
        if out[s].segment == out[t].segment {
            assert(out[s] == out[t]);
            assert(segment_key_lt(out[s], out[t]));
            lemma_lex_irreflexive(out[s].icao24@);
        }
    }
    assert forall|s: int, t: int| 0 <= s < out.len() && 0 <= t < out.len()
        && (#[trigger] out[s]).icao24@ == (#[trigger] out[t]).icao24@ && out[s].segment < out[t].segment
        implies obs_before(obs, last_member(out[s]), first_member(out[t]))
            && (out[t].segment == out[s].segment + 1 ==> gap_exceeded(obs, last_member(out[s]), first_member(out[t]), gap)) by {
        let (q1, k1) = choose|q2: int, k0: int| 0 <= q2 < ids.len() && 0 <= k0 < per_id[q2].len() && per_id[q2][k0] == out[s]
            && out[s].segment == k0 && out[s].icao24@ == ids[q2]@;
        let (q2, k2) = choose|q2: int, k0: int| 0 <= q2 < ids.len() && 0 <= k0 < per_id[q2].len() && per_id[q2][k0] == out[t]
            && out[t].segment == k0 && out[t].icao24@ == ids[q2]@;
        if q1 != q2 {
            if q1 < q2 {
                assert(lex_lt(ids[q1]@, ids[q2]@));
            } else {
                assert(lex_lt(ids[q2]@, ids[q1]@));
            }
            lemma_lex_irreflexive(ids[q1]@);
        }
        assert(aircraft_segments_ok(obs, gap, ids[q1]@, per_id[q1]));
        assert(obs_before(obs, last_member(per_id[q1][k1]), first_member(per_id[q1][k2])));
        if k2 == k1 + 1 {
            assert(gap_exceeded(obs, last_member(per_id[q1][k1]), first_member(per_id[q1][k1 + 1]), gap));
        }
    }
}

/// Two distinct segments of one aircraft, `a` numbered before `b`, share no
/// observation.
proof fn lemma_segments_disjoint(obs: Seq<StitchInput>, a: TrackSegment, b: TrackSegment, ma: int, mb: int)
    requires
        a.members@.len() > 0,
        b.members@.len() > 0,
        time_ordered(obs, a.members@),
        time_ordered(obs, b.members@),
        obs_before(obs, last_member(a), first_member(b)),
        0 <= ma < a.members@.len(),
        0 <= mb < b.members@.len(),
    ensures
        a.members@[ma] != b.members@[mb],
{
    let la = a.members@.len() - 1;
    if ma < la {
        assert(obs_before(obs, a.members@[ma] as int, a.members@[la] as int));
    }
    if mb > 0 {
        assert(obs_before(obs, b.members@[0] as int, b.members@[mb] as int));
    }
}

/// Stitching partitions the aircraft observations: an observation lies in
/// exactly one segment, at exactly one position of its member list (and,
/// by `stitched`, every aircraft observation lies in some segment).
pub proof fn law_stitch_partition(obs: Seq<StitchInput>, gap: i64, r: Seq<TrackSegment>,
    s1: int, m1: int, s2: int, m2: int)
    requires
        stitched(obs, gap, r),
        0 <= s1 < r.len(),
        0 <= m1 < r[s1].members@.len(),
        0 <= s2 < r.len(),
        0 <= m2 < r[s2].members@.len(),
        r[s1].members@[m1] == r[s2].members@[m2],
    ensures
        s1 == s2,
        m1 == m2,
{
    let x = r[s1];
    let y = r[s2];
    assert(segment_ok(obs, gap, x));
    assert(segment_ok(obs, gap, y));
    assert(obs_of(obs, x.icao24@, x.members@[m1] as int));
    assert(obs_of(obs, y.icao24@, y.members@[m2] as int));
    assert(x.icao24@ == y.icao24@);
    if s1 != s2 {
        if s1 < s2 {
            assert(r[s1].segment != r[s2].segment);
        } else {
            assert(r[s2].segment != r[s1].segment);
        }
        if x.segment < y.segment {
            assert(obs_before(obs, last_member(r[s1]), first_member(r[s2])));
            lemma_segments_disjoint(obs, x, y, m1, m2);
        } else {
            assert(obs_before(obs, last_member(r[s2]), first_member(r[s1])));
            lemma_segments_disjoint(obs, y, x, m2, m1);
        }
    } else if m1 != m2 {
        if m1 < m2 {
            assert(obs_before(obs, x.members@[m1] as int, x.members@[m2] as int));
        } else {
            assert(obs_before(obs, x.members@[m2] as int, x.members@[m1] as int));
        }
    }
}

/// Segments come out by the instant they start: a segment never starts
/// after one listed later. Segments starting at the same instant are ordered
/// by icao24, then by segment number.
pub proof fn law_stitch_start_order(obs: Seq<StitchInput>, gap: i64, r: Seq<TrackSegment>, i: int, j: int)
    requires
        stitched(obs, gap, r),
        0 <= i < j < r.len(),
    ensures
        r[i].started_ns <= r[j].started_ns,
        r[i].started_ns == r[j].started_ns ==> lex_lt(r[i].icao24@, r[j].icao24@)
            || (r[i].icao24@ == r[j].icao24@ && r[i].segment < r[j].segment),
{
    assert(segment_key_lt(r[i], r[j]));
}

} // verus!
