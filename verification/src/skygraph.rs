//! The SkyGraph: observer, aircraft, tracks, evidence observations, weather
//! cells, hourly time windows and anomalies as nodes of a property graph,
//! linked by the relationship vocabulary of the appliance.
use vstd::prelude::*;
use vstd::multiset::Multiset;
use ruvector_graph::{GraphDB, GraphError, PropertyValue};
use crate::weather::{WeatherWindow, condition_name};
use crate::brief::{Interpretation, band_name};
use crate::text::{decimal_text, push_decimal, lemma_decimal_injective, join_text, texts, push_joined, int_text, push_int, fixed_text, push_fixed, lex_lt, str_lt, str_eq, lemma_lex_irreflexive, lemma_lex_total,
    lemma_lex_transitive, texts_sorted, has_text, insert_text_sorted};
use crate::clock::{valid_instant, lemma_hour_floor_valid, hours_covering, hour_seq, lemma_hour_seq_aligned, NANOS_PER_SEC, hour_floor, hour_start,
    unix_seconds, rfc3339_string, rfc3339_text, hour_label_string, hour_label_text};
use crate::graphstore::{Prop, PropFact, NodeFacts, EdgeFacts, graph_nodes, graph_label_index,
    graph_property_index, graph_edges, graph_edge_ids, props_map, distinct_keys, prop_fact, index_text, graph_new,
    graph_create_node, graph_create_edge, graph_has_node, graph_node_property, graph_ids_with_label,
    graph_ids_with_flag, graph_node_count, graph_edge_count, graph_float_text, graph_node_has_label,
    graph_outgoing, pair_count};

verus! {

/// Failure of a SkyGraph operation.
#[derive(Debug)]
pub enum SkyError {
    /// The graph store refused an operation (an edge to a missing node).
    Graph(GraphError),
}

/// The sky-as-a-graph store.
pub struct SkyGraph {
    graph: GraphDB,
    observer_node_id: String,
}

/// Structured, citeable explanation of a track: every line cites graph
/// nodes or observation ids.
#[derive(Debug, Clone)]
pub struct TrackExplanation {
    pub track_id: String,
    pub aircraft_id: String,
    pub callsign: String,
    /// Evidence lines, each citing graph nodes or observation ids.
    pub evidence: Vec<String>,
}

/// A stitched track as the SkyGraph records it. The float statistics of a
/// track travel separately, as carried property values.
#[derive(Debug, Clone)]
pub struct GraphTrack {
    pub track_id: String,
    pub icao24: String,
    pub callsign: String,
    /// First and last sample times, nanoseconds since the epoch.
    pub started_ns: i128,
    pub ended_ns: i128,
    /// Time of closest approach, nanoseconds since the epoch.
    pub closest_approach_ns: i128,
    /// Number of samples in the track.
    pub n_points: i64,
    /// The overhead rule held for the track.
    pub is_overhead_candidate: bool,
    /// The closest approach came inside the overhead range (10 km).
    pub within_overhead_range: bool,
    /// Evidence samples: first, closest approach, last.
    pub first_observation_id: String,
    pub closest_observation_id: String,
    pub last_observation_id: String,
}

/// An anomaly score report of a track: its interpretation band, the
/// reasons cited, and the composite score as a carried value.
pub struct AnomalyReport {
    pub track_id: String,
    pub score: PropertyValue,
    pub band: Interpretation,
    pub reasons: Vec<String>,
}

/// The float statistics of a track, carried into the graph as computed:
/// minimum range, maximum elevation, azimuth at closest approach, dominant
/// heading and mean altitude.
pub struct TrackMeasures {
    pub min_range_m: PropertyValue,
    pub max_elevation_deg: PropertyValue,
    pub closest_azimuth_deg: PropertyValue,
    pub dominant_heading_deg: PropertyValue,
    pub mean_altitude_m: PropertyValue,
    /// The minimum range again, for the `observed_by` and `near` edges.
    pub observed_range_m: PropertyValue,
    pub near_range_m: PropertyValue,
}

proof fn lemma_props_map(list: Seq<(String, Prop)>)
    requires
        distinct_keys(list),
    ensures
        forall|i: int| 0 <= i < list.len() ==> props_map(list).dom().contains((#[trigger] list[i]).0@)
            && props_map(list)[list[i].0@] == prop_fact(list[i].1),
        forall|k: Seq<char>| props_map(list).dom().contains(k) ==> exists|i: int| 0 <= i < list.len() && (#[trigger] list[i]).0@ == k,
{
    assert forall|i: int| 0 <= i < list.len() implies props_map(list).dom().contains((#[trigger] list[i]).0@)
        && props_map(list)[list[i].0@] == prop_fact(list[i].1) by {
        let k = list[i].0@;
        assert(props_map(list).dom().contains(k));
        let j = choose|j: int| 0 <= j < list.len() && (#[trigger] list[j]).0@ == k;
        if j != i {
            if j < i {
                assert(list[j].0@ != list[i].0@);
            } else {
                assert(list[i].0@ != list[j].0@);
            }
        }
    }
}

impl SkyGraph {
    /// Id of the Observer node.
    pub closed spec fn observer_id(&self) -> Seq<char> {
        self.observer_node_id@
    }

    /// The stored graph.
    pub closed spec fn store(&self) -> GraphDB {
        self.graph
    }

    /// The Observer node is present, carried measurements sit only under
    /// measurement keys, the edges carry the ids `edge:0`, `edge:1`, … up to
    /// their number, the nodes are finitely many, and every edge and every
    /// property-index entry refers to stored nodes.
    pub open spec fn wf(&self) -> bool {
        &&& graph_nodes(self.store()).dom().contains(self.observer_id())
        &&& nodes_sound(graph_nodes(self.store()))
        &&& graph_edge_ids(self.store()) == edge_ids_below(graph_edges(self.store()).len())
        &&& graph_nodes(self.store()).dom().finite()
        &&& edges_between_nodes(self.store())
        &&& index_on_nodes(self.store())
    }

    /// Create the graph with its Observer node `observer:{name}` (properties
    /// `name` and the carried position `lat`, `lon`, `alt_m`).
    pub fn new(name: &String, lat: PropertyValue, lon: PropertyValue, alt_m: PropertyValue) -> (r: Result<SkyGraph, SkyError>)
        ensures
            r matches Ok(sg) && sg.wf()
                && sg.observer_id() == "observer:"@ + name@
                && graph_nodes(sg.store()) == Map::<Seq<char>, NodeFacts>::empty().insert(sg.observer_id(), observer_facts(name@))
                && graph_label_index(sg.store()) == Set::<(Seq<char>, Seq<char>)>::empty().insert(("Observer"@, sg.observer_id()))
                && graph_edges(sg.store()) == Multiset::<EdgeFacts>::empty()
                && (forall|id: Seq<char>| !overhead_entry(sg.store(), id)),
    {
        let mut graph = graph_new();
        let mut id = String::from_str("observer:");
        id.append(name.as_str());
        let props = vec![
            (String::from_str("name"), Prop::Text(name.clone())),
            (String::from_str("lat"), Prop::Value(lat)),
            (String::from_str("lon"), Prop::Value(lon)),
            (String::from_str("alt_m"), Prop::Value(alt_m)),
        ];
        proof {
            reveal_strlit("observer:");
            reveal_strlit("name");
            reveal_strlit("lat");
            reveal_strlit("lon");
            reveal_strlit("alt_m");
            assert("name"@.len() == 4);
            assert("lat"@[1] == 'a');
            assert("name"@ != "lat"@);
            assert("lat"@[1] != "lon"@[1]);
            assert("lat"@ != "lon"@);
            assert("lon"@ != "alt_m"@);
            assert(props@[0].0@ == "name"@);
            lemma_props_map(props@);
            assert(props_map(props@) =~= observer_facts(name@).props);
        }
        let ghost pm = props_map(props@);
        let ghost g0 = graph;
        let _ = graph_create_node(&mut graph, id.clone(), "Observer", props);
        proof {
            reveal_strlit("overhead");
            assert("overhead"@.len() == 8);
            reveal_strlit("lat");
            reveal_strlit("lon");
            reveal_strlit("alt_m");
            assert("lat"@.len() == 3 && "lon"@.len() == 3 && "alt_m"@.len() == 5);
            lemma_node_added(g0, graph, id@, pm);
        }
        proof {
            assert(edge_ids_below(0) =~= Set::<Seq<char>>::empty());
        }
        Ok(SkyGraph { graph, observer_node_id: id })
    }

    /// Add the edge `(from, to, kind)` with `props` under the next edge id
    /// (`edge:{number of edges}`). Fails, changing nothing, unless both
    /// endpoints are nodes.
    fn new_edge(&mut self, from: String, to: String, kind: &str, props: Vec<(String, Prop)>) -> (r: Result<(), SkyError>)
        requires
            old(self).wf(),
        ensures
            final(self).wf(),
            final(self).observer_id() == old(self).observer_id(),
            r is Ok <==> (graph_nodes(old(self).store()).dom().contains(from@)
                && graph_nodes(old(self).store()).dom().contains(to@)),
            r is Ok ==> graph_edges(final(self).store()) == graph_edges(old(self).store())
                .insert((EdgeFacts { from: from@, to: to@, kind: kind@ })),
            r is Err ==> graph_edges(final(self).store()) == graph_edges(old(self).store()),
            graph_nodes(final(self).store()) == graph_nodes(old(self).store()),
            graph_label_index(final(self).store()) == graph_label_index(old(self).store()),
            graph_property_index(final(self).store()) == graph_property_index(old(self).store()),
            overhead_kept(old(self).store(), final(self).store()),
    {
        let n = graph_edge_count(&self.graph);
        let mut id = String::from_str("edge:");
        push_decimal(&mut id, n as u64);
        proof {
            reveal_strlit("edge:");
            assert(id@ == edge_id_text(n as nat));
            lemma_fresh_edge_id(n as nat);
        }
        match graph_create_edge(&mut self.graph, id, from, to, kind, props) {
            Ok(()) => Ok(()),
            Err(err) => Err(SkyError::Graph(err)),
        }
    }

    /// Get-or-create the hourly TimeWindow node containing `ts`.
    fn ensure_time_window(&mut self, ts: i128) -> (r: String)
        requires
            old(self).wf(),
            valid_instant(ts as int),
        ensures
            final(self).wf(),
            final(self).observer_id() == old(self).observer_id(),
            r@ == window_node_id(hour_floor(ts as int)),
            graph_nodes(final(self).store()) == with_window(graph_nodes(old(self).store()), hour_floor(ts as int)),
            graph_edges(final(self).store()) == graph_edges(old(self).store()),
            graph_grows(old(self).store(), final(self).store()),
            overhead_kept(old(self).store(), final(self).store()),
    {
        proof { lemma_hour_floor_valid(ts as int); }
        let h = hour_start(ts);
        let mut id = String::from_str("window:");
        let label = hour_label_string(h);
        id.append(label.as_str());
        proof {
            reveal_strlit("window:");
        }
        if !graph_has_node(&self.graph, id.as_str()) {
            let start_secs = unix_seconds(h);
            let props = vec![
                (String::from_str("start_epoch"), Prop::Integer(start_secs)),
                (String::from_str("end_epoch"), Prop::Integer(start_secs + 3600)),
                (String::from_str("start_iso"), Prop::Text(rfc3339_string(h))),
            ];
            proof {
                reveal_strlit("start_epoch");
                reveal_strlit("end_epoch");
                reveal_strlit("start_iso");
                assert("start_epoch"@.len() == 11);
                assert("end_epoch"@.len() == 9);
                assert("start_iso"@.len() == 9);
                assert("end_epoch"@[0] != "start_iso"@[0]);
                lemma_props_map(props@);
                assert(props_map(props@) =~= window_facts(h as int).props);
            }
            let ghost pm = props_map(props@);
            let ghost g0 = self.graph;
            let _ = graph_create_node(&mut self.graph, id.clone(), "TimeWindow", props);
            proof {
                reveal_strlit("overhead");
                assert("overhead"@.len() == 8);
                lemma_node_added(g0, self.graph, id@, pm);
            }
        }
        id
    }

    /// Insert a WeatherCell node for `w` (properties `condition`, the carried
    /// `wind_mps` and `precip_mm_hr`, `alert` or empty, `start_epoch`,
    /// `end_epoch`) and a `during` edge to the TimeWindow of every hour the
    /// window overlaps, creating those TimeWindows as needed.
    pub fn add_weather_window(&mut self, w: &WeatherWindow, wind_mps: PropertyValue, precip_mm_hr: PropertyValue)
        -> (r: Result<(), SkyError>)
        requires
            old(self).wf(),
            valid_instant(w.start_ns as int),
            valid_instant(w.end_ns as int),
            valid_instant(w.end_ns - NANOS_PER_SEC),
        ensures
            r is Ok,
            final(self).wf(),
            final(self).observer_id() == old(self).observer_id(),
            graph_nodes(final(self).store()) == with_windows(
                graph_nodes(old(self).store()).insert(w.window_id@, weather_facts(*w)),
                weather_hours(*w)),
            graph_edges(final(self).store()) == graph_edges(old(self).store()).add(
                during_edges(w.window_id@, weather_hours(*w))),
            graph_grows(old(self).store(), final(self).store()),
            overhead_kept(old(self).store(), final(self).store()),
    {
        let alert = match &w.alert {
            Some(a) => a.clone(),
            None => String::new(),
        };
        proof {
            reveal_strlit("");
            assert(alert@ == (match w.alert { Some(a) => a@, None => ""@ }));
        }
        let props = vec![
            (String::from_str("condition"), Prop::Text(String::from_str(w.condition.as_str()))),
            (String::from_str("wind_mps"), Prop::Value(wind_mps)),
            (String::from_str("precip_mm_hr"), Prop::Value(precip_mm_hr)),
            (String::from_str("alert"), Prop::Text(alert)),
            (String::from_str("start_epoch"), Prop::Integer(unix_seconds(w.start_ns))),
            (String::from_str("end_epoch"), Prop::Integer(unix_seconds(w.end_ns))),
        ];
        proof {
            reveal_strlit("condition");
            reveal_strlit("wind_mps");
            reveal_strlit("precip_mm_hr");
            reveal_strlit("alert");
            reveal_strlit("start_epoch");
            reveal_strlit("end_epoch");
            reveal_strlit("");
            assert("condition"@.len() == 9);
            assert("wind_mps"@.len() == 8);
            assert("precip_mm_hr"@.len() == 12);
            assert("alert"@.len() == 5);
            assert("start_epoch"@.len() == 11);
            assert("end_epoch"@.len() == 9);
            assert("condition"@[0] != "end_epoch"@[0]);
            lemma_props_map(props@);
            assert(prop_fact(props@[0].1) == PropFact::Text(condition_name(w.condition)));
            assert(prop_fact(props@[3].1) == weather_facts(*w).props["alert"@]);
            assert(prop_fact(props@[4].1) == weather_facts(*w).props["start_epoch"@]);
            assert(prop_fact(props@[5].1) == weather_facts(*w).props["end_epoch"@]);
            assert(props_map(props@) =~= weather_facts(*w).props);
        }
        let ghost pm = props_map(props@);
        let ghost g0 = self.graph;
        let _ = graph_create_node(&mut self.graph, w.window_id.clone(), "WeatherCell", props);
        proof {
            reveal_strlit("overhead");
            assert("overhead"@.len() == 8);
            assert("wind_mps"@[0] != "overhead"@[0]);
            lemma_node_added(g0, self.graph, w.window_id@, pm);
        }
        self.link_hours(&w.window_id, w.start_ns, w.end_ns - NANOS_PER_SEC)
    }

    /// Insert the Aircraft node of `t` unless present, then the Track node.
    fn insert_track_node(&mut self, t: &GraphTrack, min_range_m: PropertyValue, max_elevation_deg: PropertyValue,
        closest_azimuth_deg: PropertyValue, dominant_heading_deg: PropertyValue, mean_altitude_m: PropertyValue)
        requires
            old(self).wf(),
            valid_instant(t.started_ns as int),
            valid_instant(t.ended_ns as int),
        ensures
            final(self).wf(),
            final(self).observer_id() == old(self).observer_id(),
            graph_nodes(final(self).store()) == with_aircraft(graph_nodes(old(self).store()), *t)
                .insert(t.track_id@, track_facts(*t)),
            graph_edges(final(self).store()) == graph_edges(old(self).store()),
            graph_grows(old(self).store(), final(self).store()),
            forall|id: Seq<char>| #[trigger] overhead_entry(final(self).store(), id) <==> (overhead_entry(old(self).store(), id)
                || (t.is_overhead_candidate && id == t.track_id@)),
            graph_label_index(final(self).store()).contains(("Track"@, t.track_id@)),
            t.is_overhead_candidate ==> graph_property_index(final(self).store()).contains(
                ("overhead"@, "true"@, t.track_id@)),
    {
        let mut aircraft_id = String::from_str("aircraft:");
        aircraft_id.append(t.icao24.as_str());
        proof {
            reveal_strlit("aircraft:");
        }
        if !graph_has_node(&self.graph, aircraft_id.as_str()) {
            let props = vec![
                (String::from_str("icao24"), Prop::Text(t.icao24.clone())),
                (String::from_str("callsign"), Prop::Text(t.callsign.clone())),
            ];
            proof {
                reveal_strlit("icao24");
                reveal_strlit("callsign");
                assert("icao24"@.len() == 6);
                assert("callsign"@.len() == 8);
                lemma_props_map(props@);
                assert(props_map(props@) =~= aircraft_facts(*t).props);
            }
            let ghost pm = props_map(props@);
            let ghost g0 = self.graph;
            let ghost aid = aircraft_id@;
            let _ = graph_create_node(&mut self.graph, aircraft_id, "Aircraft", props);
            proof {
                reveal_strlit("overhead");
                assert("overhead"@.len() == 8);
                assert("callsign"@[0] != "overhead"@[0]);
                lemma_node_added(g0, self.graph, aid, pm);
            }
        }
        let props = vec![
            (String::from_str("icao24"), Prop::Text(t.icao24.clone())),
            (String::from_str("callsign"), Prop::Text(t.callsign.clone())),
            (String::from_str("started_epoch"), Prop::Integer(unix_seconds(t.started_ns))),
            (String::from_str("ended_epoch"), Prop::Integer(unix_seconds(t.ended_ns))),
            (String::from_str("started_iso"), Prop::Text(rfc3339_string(t.started_ns))),
            (String::from_str("min_range_m"), Prop::Value(min_range_m)),
            (String::from_str("max_elevation_deg"), Prop::Value(max_elevation_deg)),
            (String::from_str("closest_azimuth_deg"), Prop::Value(closest_azimuth_deg)),
            (String::from_str("dominant_heading_deg"), Prop::Value(dominant_heading_deg)),
            (String::from_str("mean_altitude_m"), Prop::Value(mean_altitude_m)),
            (String::from_str("overhead"), Prop::Flag(t.is_overhead_candidate)),
            (String::from_str("n_points"), Prop::Integer(t.n_points)),
            (String::from_str("first_observation_id"), Prop::Text(t.first_observation_id.clone())),
            (String::from_str("closest_observation_id"), Prop::Text(t.closest_observation_id.clone())),
            (String::from_str("last_observation_id"), Prop::Text(t.last_observation_id.clone())),
        ];
        proof {
            lemma_track_keys();
            lemma_props_map(props@);
            assert(prop_fact(props@[2].1) == track_facts(*t).props["started_epoch"@]);
            assert(prop_fact(props@[3].1) == track_facts(*t).props["ended_epoch"@]);
            assert(prop_fact(props@[4].1) == track_facts(*t).props["started_iso"@]);
            assert(props_map(props@) =~= track_facts(*t).props);
            reveal_strlit("overhead");
            reveal_strlit("true");
            assert(props_map(props@).dom().contains("overhead"@));
        }
        let ghost pm = props_map(props@);
        let ghost g0 = self.graph;
        let _ = graph_create_node(&mut self.graph, t.track_id.clone(), "Track", props);
        proof {
            reveal_strlit("overhead");
            reveal_strlit("false");
            assert("false"@.len() == 5);
            lemma_node_added(g0, self.graph, t.track_id@, pm);
        }
        proof {
            reveal_strlit("Track");
        }
    }

    /// Insert the Observation node `obs:{oid}` with its `role`, linked to the
    /// track by a `part_of_track` edge.
    fn add_evidence(&mut self, track_id: &String, role: &str, oid: &String) -> (r: Result<(), SkyError>)
        requires
            old(self).wf(),
            graph_nodes(old(self).store()).dom().contains(track_id@),
        ensures
            r is Ok,
            final(self).wf(),
            final(self).observer_id() == old(self).observer_id(),
            graph_nodes(final(self).store()) == graph_nodes(old(self).store())
                .insert(obs_node_id(oid@), observation_facts(oid@, role@)),
            graph_edges(final(self).store()) == graph_edges(old(self).store())
                .insert(evidence_edge(oid@, track_id@)),
            graph_grows(old(self).store(), final(self).store()),
            overhead_kept(old(self).store(), final(self).store()),
    {
        let mut node_id = String::from_str("obs:");
        node_id.append(oid.as_str());
        let props = vec![
            (String::from_str("observation_id"), Prop::Text(oid.clone())),
            (String::from_str("role"), Prop::Text(String::from_str(role))),
        ];
        proof {
            reveal_strlit("obs:");
            reveal_strlit("observation_id");
            reveal_strlit("role");
            assert("observation_id"@.len() == 14);
            assert("role"@.len() == 4);
            lemma_props_map(props@);
            assert(props_map(props@) =~= observation_facts(oid@, role@).props);
        }
        let ghost pm = props_map(props@);
        let ghost g0 = self.graph;
        let _ = graph_create_node(&mut self.graph, node_id.clone(), "Observation", props);
        proof {
            reveal_strlit("overhead");
            assert("overhead"@.len() == 8);
            lemma_node_added(g0, self.graph, node_id@, pm);
        }
        let edge_props = vec![(String::from_str("role"), Prop::Text(String::from_str(role)))];
        let e = self.new_edge(node_id, track_id.clone(), "part_of_track", edge_props);
        proof {
            reveal_strlit("part_of_track");
        }
        e
    }

    /// Link the track to its aircraft (`part_of_track`), to the observer
    /// (`observed_by`, and `near` inside the overhead range).
    fn link_track(&mut self, t: &GraphTrack, observed_range_m: PropertyValue, near_range_m: PropertyValue)
        -> (r: Result<(), SkyError>)
        requires
            old(self).wf(),
            graph_nodes(old(self).store()).dom().contains(t.track_id@),
            graph_nodes(old(self).store()).dom().contains(aircraft_node_id(t.icao24@)),
            valid_instant(t.closest_approach_ns as int),
        ensures
            r is Ok,
            final(self).wf(),
            final(self).observer_id() == old(self).observer_id(),
            graph_nodes(final(self).store()) == graph_nodes(old(self).store()),
            graph_edges(final(self).store()) == (if t.within_overhead_range {
                graph_edges(old(self).store()).insert(aircraft_edge(*t)).insert(observed_edge(*t, old(self).observer_id()))
                    .insert(near_edge(*t, old(self).observer_id()))
            } else {
                graph_edges(old(self).store()).insert(aircraft_edge(*t)).insert(observed_edge(*t, old(self).observer_id()))
            }),
            graph_grows(old(self).store(), final(self).store()),
            overhead_kept(old(self).store(), final(self).store()),
    {
        let mut aircraft_id = String::from_str("aircraft:");
        aircraft_id.append(t.icao24.as_str());
        proof {
            reveal_strlit("aircraft:");
            reveal_strlit("part_of_track");
            reveal_strlit("observed_by");
            reveal_strlit("near");
        }
        let e = self.new_edge(t.track_id.clone(), aircraft_id, "part_of_track", Vec::new());
        if let Err(err) = e {
            return Err(err);
        }
        let props = vec![(String::from_str("min_range_m"), Prop::Value(observed_range_m))];
        let e = self.new_edge(t.track_id.clone(), self.observer_node_id.clone(), "observed_by", props);
        if let Err(err) = e {
            return Err(err);
        }
        if t.within_overhead_range {
            let props = vec![
                (String::from_str("range_m"), Prop::Value(near_range_m)),
                (String::from_str("at"), Prop::Text(rfc3339_string(t.closest_approach_ns))),
            ];
            let e = self.new_edge(t.track_id.clone(), self.observer_node_id.clone(), "near", props);
            if let Err(err) = e {
                return Err(err);
            }
        }
        Ok(())
    }

    /// Link `from` by `correlated_with` (kind `weather_context`) to every
    /// window of `weather` overlapping `[start, end]`, in order; stops with
    /// the store's error at the first such window that is not a node.
    fn link_weather(&mut self, from: &String, start: i128, end: i128, weather: &[WeatherWindow])
        -> (r: Result<(), SkyError>)
        requires
            old(self).wf(),
            graph_nodes(old(self).store()).dom().contains(from@),
        ensures
            final(self).wf(),
            final(self).observer_id() == old(self).observer_id(),
            graph_nodes(final(self).store()) == graph_nodes(old(self).store()),
            r is Ok <==> weather_linkable(graph_nodes(old(self).store()), start as int, end as int, weather@),
            r is Ok ==> graph_edges(final(self).store()) == graph_edges(old(self).store()).add(
                weather_links(from@, start as int, end as int, weather@)),
            graph_edges(old(self).store()).subset_of(graph_edges(final(self).store())),
            graph_grows(old(self).store(), final(self).store()),
            overhead_kept(old(self).store(), final(self).store()),
    {
        let ghost old_store = self.graph;
        proof {
            reveal_strlit("correlated_with");
        }
        let mut i: usize = 0;
        while i < weather.len()
            invariant
                i <= weather@.len(),
                old_store == old(self).store(),
                self.wf(),
                self.observer_id() == old(self).observer_id(),
                graph_nodes(self.store()) == graph_nodes(old_store),
                graph_nodes(old_store).dom().contains(from@),
                graph_grows(old_store, self.store()),
                overhead_kept(old_store, self.store()),
                forall|k: int| 0 <= k < i && weather_overlaps(#[trigger] weather@[k], start as int, end as int)
                    ==> graph_nodes(old_store).dom().contains(weather@[k].window_id@),
                graph_edges(self.store()) == graph_edges(old_store).add(
                    weather_links(from@, start as int, end as int, weather@.take(i as int))),
            decreases weather@.len() - i,
        {
            let w = &weather[i];
            proof {
                assert(weather@.take(i + 1).drop_last() =~= weather@.take(i as int));
                assert(weather@.take(i + 1).last() == *w);
            }
            if w.overlaps(start, end) {
                let props = vec![(String::from_str("kind"), Prop::Text(String::from_str("weather_context")))];
                let e = self.new_edge(from.clone(), w.window_id.clone(), "correlated_with", props);
                if let Err(err) = e {
                    proof {
                        assert(weather_overlaps(weather@[i as int], start as int, end as int));
                        assert(!graph_nodes(old_store).dom().contains(weather@[i as int].window_id@));
                    }
                    return Err(err);
                }
                proof {
                    let e_new = EdgeFacts { from: from@, to: w.window_id@, kind: "correlated_with"@ };
                    assert(graph_edges(old_store).add(weather_links(from@, start as int, end as int, weather@.take(i + 1)))
                        =~= graph_edges(old_store).add(weather_links(from@, start as int, end as int, weather@.take(i as int))).insert(e_new));
                }
            }
            i = i + 1;
        }
        proof {
            assert(weather@.take(weather@.len() as int) =~= weather@);
        }
        Ok(())
    }

    /// Insert Aircraft (unless present), Track and the three evidence
    /// Observation nodes of a stitched track with all its rule-layer edges:
    /// evidence `part_of_track` the track, the track `part_of_track` its
    /// aircraft, `observed_by` (and, inside the overhead range, `near`) the
    /// observer, `during` the TimeWindow of every hour it spans, and
    /// `correlated_with` every overlapping window of `weather`, which must
    /// already be in the graph. Returns the track id.
    pub fn add_track(&mut self, t: &GraphTrack, m: TrackMeasures, weather: &[WeatherWindow]) -> (r: Result<String, SkyError>)
        requires
            old(self).wf(),
            valid_instant(t.started_ns as int),
            valid_instant(t.ended_ns as int),
            valid_instant(t.closest_approach_ns as int),
        ensures
            final(self).wf(),
            final(self).observer_id() == old(self).observer_id(),
            graph_nodes(final(self).store()) == track_nodes(graph_nodes(old(self).store()), *t),
            r is Ok <==> weather_linkable(track_nodes(graph_nodes(old(self).store()), *t),
                t.started_ns as int, t.ended_ns as int, weather@),
            r matches Ok(id) ==> id@ == t.track_id@
                && graph_edges(final(self).store()) == graph_edges(old(self).store())
                    .add(track_links(*t, old(self).observer_id()))
                    .add(during_edges(t.track_id@, track_hours(*t)))
                    .add(weather_links(t.track_id@, t.started_ns as int, t.ended_ns as int, weather@)),
            graph_edges(old(self).store()).add(track_links(*t, old(self).observer_id()))
                .add(during_edges(t.track_id@, track_hours(*t))).subset_of(graph_edges(final(self).store())),
            graph_grows(old(self).store(), final(self).store()),
            forall|id: Seq<char>| #[trigger] overhead_entry(final(self).store(), id) <==> (overhead_entry(old(self).store(), id)
                || (t.is_overhead_candidate && id == t.track_id@)),
            track_unshadowed(*t) ==> graph_nodes(final(self).store())[t.track_id@] == track_facts(*t),
            graph_label_index(final(self).store()).contains(("Track"@, t.track_id@)),
    {
        proof {
            lemma_track_read_back(graph_nodes(self.store()), *t);
            reveal_strlit("true");
        }
        let ghost e0 = graph_edges(self.graph);
        let ghost obs = self.observer_id();
        let TrackMeasures {
            min_range_m, max_elevation_deg, closest_azimuth_deg, dominant_heading_deg, mean_altitude_m,
            observed_range_m, near_range_m,
        } = m;
        self.insert_track_node(t, min_range_m, max_elevation_deg, closest_azimuth_deg, dominant_heading_deg,
            mean_altitude_m);
        let ghost g1 = self.graph;
        let first = String::from_str("first");
        let closest = String::from_str("closest_approach");
        let last = String::from_str("last");
        proof {
            reveal_strlit("first");
            reveal_strlit("closest_approach");
            reveal_strlit("last");
        }
        let r1 = self.add_evidence(&t.track_id, first.as_str(), &t.first_observation_id);
        if let Err(err) = r1 {
            return Err(err);
        }
        let r2 = self.add_evidence(&t.track_id, closest.as_str(), &t.closest_observation_id);
        if let Err(err) = r2 {
            return Err(err);
        }
        let r3 = self.add_evidence(&t.track_id, last.as_str(), &t.last_observation_id);
        if let Err(err) = r3 {
            return Err(err);
        }
        proof {
            reveal_strlit("aircraft:");
        }
        let r4 = self.link_track(t, observed_range_m, near_range_m);
        if let Err(err) = r4 {
            return Err(err);
        }
        proof {
            let links = graph_edges(self.graph);
            assert(links =~= e0.add(track_links(*t, obs)));
        }
        let r5 = self.link_hours(&t.track_id, t.started_ns, t.ended_ns);
        if let Err(err) = r5 {
            return Err(err);
        }
        let r6 = self.link_weather(&t.track_id, t.started_ns, t.ended_ns, weather);
        match r6 {
            Ok(()) => Ok(t.track_id.clone()),
            Err(err) => Err(err),
        }
    }

    /// Vector-similarity link `similar_to` between two tracks, carrying the
    /// embedding `distance`. Fails, changing nothing, unless both are nodes.
    pub fn add_similarity(&mut self, from_track: &str, to_track: &str, distance: PropertyValue) -> (r: Result<(), SkyError>)
        requires
            old(self).wf(),
        ensures
            final(self).wf(),
            final(self).observer_id() == old(self).observer_id(),
            r is Ok <==> (graph_nodes(old(self).store()).dom().contains(from_track@)
                && graph_nodes(old(self).store()).dom().contains(to_track@)),
            graph_nodes(final(self).store()) == graph_nodes(old(self).store()),
            graph_edges(final(self).store()) == (if r is Ok {
                graph_edges(old(self).store()).insert((EdgeFacts { from: from_track@, to: to_track@, kind: "similar_to"@ }))
            } else {
                graph_edges(old(self).store())
            }),
            graph_grows(old(self).store(), final(self).store()),
            overhead_kept(old(self).store(), final(self).store()),
    {
        let props = vec![(String::from_str("distance"), Prop::Value(distance))];
        let e = self.new_edge(String::from_str(from_track), String::from_str(to_track),
            "similar_to", props);
        proof {
            reveal_strlit("similar_to");
        }
        e
    }

    /// Insert the Anomaly node `anomaly:{track_id}` of a scored track
    /// (properties `track_id`, the carried `score`, `band`, `reasons` joined
    /// by `"; "`), a `correlated_with` (kind `anomaly_score`) edge from the
    /// track to it and, when the baseline track is a node, an
    /// `anomalous_relative_to` edge to it. Fails unless the track is a node.
    /// Returns the anomaly id.
    pub fn add_anomaly(&mut self, report: AnomalyReport, baseline_track_id: Option<&str>) -> (r: Result<String, SkyError>)
        requires
            old(self).wf(),
        ensures
            final(self).wf(),
            final(self).observer_id() == old(self).observer_id(),
            graph_nodes(final(self).store()) == graph_nodes(old(self).store())
                .insert(anomaly_node_id(report.track_id@), anomaly_facts(report)),
            r is Ok <==> graph_nodes(old(self).store()).insert(anomaly_node_id(report.track_id@), anomaly_facts(report))
                .dom().contains(report.track_id@),
            r matches Ok(id) ==> id@ == anomaly_node_id(report.track_id@)
                && graph_edges(final(self).store()) == graph_edges(old(self).store())
                    .add(anomaly_links(graph_nodes(final(self).store()), report.track_id@, opt_text(baseline_track_id))),
            r is Err ==> graph_edges(final(self).store()) == graph_edges(old(self).store()),
            !graph_nodes(old(self).store()).dom().contains(anomaly_node_id(report.track_id@))
                ==> graph_nodes(final(self).store()).dom().len() == graph_nodes(old(self).store()).dom().len() + 1,
            graph_grows(old(self).store(), final(self).store()),
            overhead_kept(old(self).store(), final(self).store()),
    {
        let mut anomaly_id = String::from_str("anomaly:");
        anomaly_id.append(report.track_id.as_str());
        let mut reasons = String::new();
        push_joined(&mut reasons, &report.reasons, "; ");
        let AnomalyReport { track_id, score, band, reasons: _ } = report;
        let props = vec![
            (String::from_str("track_id"), Prop::Text(track_id.clone())),
            (String::from_str("score"), Prop::Value(score)),
            (String::from_str("band"), Prop::Text(String::from_str(band.as_str()))),
            (String::from_str("reasons"), Prop::Text(reasons)),
        ];
        proof {
            reveal_strlit("anomaly:");
            reveal_strlit("track_id");
            reveal_strlit("score");
            reveal_strlit("band");
            reveal_strlit("reasons");
            reveal_strlit("");
            reveal_strlit("; ");
            assert("track_id"@.len() == 8);
            assert("score"@.len() == 5);
            assert("band"@.len() == 4);
            assert("reasons"@.len() == 7);
            lemma_props_map(props@);
            assert(props_map(props@) =~= anomaly_facts(report).props);
        }
        let ghost pm = props_map(props@);
        let ghost g0 = self.graph;
        let _ = graph_create_node(&mut self.graph, anomaly_id.clone(), "Anomaly", props);
        proof {
            reveal_strlit("overhead");
            assert("overhead"@.len() == 8);
            assert("track_id"@[0] != "overhead"@[0]);
            lemma_node_added(g0, self.graph, anomaly_id@, pm);
        }
        let edge_props = vec![(String::from_str("kind"), Prop::Text(String::from_str("anomaly_score")))];
        let e = self.new_edge(track_id, anomaly_id.clone(), "correlated_with", edge_props);
        proof {
            reveal_strlit("correlated_with");
            reveal_strlit("anomalous_relative_to");
        }
        if let Err(err) = e {
            return Err(err);
        }
        if let Some(baseline) = baseline_track_id {
            if graph_has_node(&self.graph, baseline) {
                let e = self.new_edge(anomaly_id.clone(), String::from_str(baseline),
                    "anomalous_relative_to", Vec::new());
                if let Err(err) = e {
                    return Err(err);
                }
            }
        }
        Ok(anomaly_id)
    }

    /// Text stored under `key` in node `id`; empty when absent or not text.
    fn read_text(&self, id: &str, key: &str) -> (r: String)
        requires
            self.wf(),
            graph_nodes(self.store()).dom().contains(id@),
            !measure_key(key@),
        ensures
            r@ == text_prop(graph_nodes(self.store())[id@], key@),
    {
        proof {
            reveal_strlit("");
            let f = graph_nodes(self.store())[id@];
            assert(facts_sound(f));
            if f.props.dom().contains(key@) {
                assert(!(f.props[key@] is Opaque));
            }
        }
        match graph_node_property(&self.graph, id, key) {
            Some(Prop::Text(t)) => t,
            _ => String::new(),
        }
    }

    /// Integer stored under `key` in node `id`; zero when absent or not an
    /// integer.
    fn read_int(&self, id: &str, key: &str) -> (r: i64)
        requires
            self.wf(),
            graph_nodes(self.store()).dom().contains(id@),
            !measure_key(key@),
        ensures
            r as int == int_prop(graph_nodes(self.store())[id@], key@),
    {
        proof {
            let f = graph_nodes(self.store())[id@];
            assert(facts_sound(f));
            if f.props.dom().contains(key@) {
                assert(!(f.props[key@] is Opaque));
            }
        }
        match graph_node_property(&self.graph, id, key) {
            Some(Prop::Integer(i)) => i,
            _ => 0,
        }
    }

    /// Aircraft active in `[start, end]` (whole seconds): the
    /// `(icao24, track id)` pair of every Track whose `started_epoch` is at
    /// most the end and whose `ended_epoch` is at least the start, sorted.
    pub fn aircraft_in_window(&self, start_ns: i128, end_ns: i128) -> (r: Vec<(String, String)>)
        requires
            self.wf(),
            valid_instant(start_ns as int),
            valid_instant(end_ns as int),
        ensures
            pairs_sorted(r@),
            forall|k: int| 0 <= k < r@.len() ==> window_entry(self.store(), (start_ns as int) / (NANOS_PER_SEC as int),
                (end_ns as int) / (NANOS_PER_SEC as int), #[trigger] pair_view(r@[k])),
            forall|p: (Seq<char>, Seq<char>)| window_entry(self.store(), (start_ns as int) / (NANOS_PER_SEC as int),
                (end_ns as int) / (NANOS_PER_SEC as int), p) ==> #[trigger] has_pair(r@, p),
    {
        let s = unix_seconds(start_ns);
        let e = unix_seconds(end_ns);
        let ids = graph_ids_with_label(&self.graph, "Track");
        proof {
            lemma_read_keys();
            reveal_strlit("Track");
        }
        let mut out: Vec<(String, String)> = Vec::new();
        let mut i: usize = 0;
        while i < ids.len()
            invariant
                self.wf(),
                i <= ids@.len(),
                s as int == (start_ns as int) / (NANOS_PER_SEC as int),
                e as int == (end_ns as int) / (NANOS_PER_SEC as int),
                !measure_key("started_epoch"@) && !measure_key("ended_epoch"@) && !measure_key("icao24"@),
                forall|a: int, b: int| 0 <= a < b < ids@.len() ==> (#[trigger] ids@[a])@ != (#[trigger] ids@[b])@,
                forall|k: int| 0 <= k < ids@.len() ==> graph_label_index(self.store()).contains(("Track"@, (#[trigger] ids@[k])@))
                    && graph_nodes(self.store()).dom().contains(ids@[k]@),
                pairs_sorted(out@),
                forall|k: int| 0 <= k < out@.len() ==> window_entry(self.store(), s as int, e as int, #[trigger] pair_view(out@[k])),
                forall|k: int| 0 <= k < out@.len() ==> exists|j: int| 0 <= j < i && (#[trigger] ids@[j])@ == (#[trigger] out@[k]).1@,
                forall|j: int| 0 <= j < i && window_entry(self.store(), s as int, e as int,
                    (text_prop(graph_nodes(self.store())[(#[trigger] ids@[j])@], "icao24"@), ids@[j]@))
                    ==> has_pair(out@, (text_prop(graph_nodes(self.store())[ids@[j]@], "icao24"@), ids@[j]@)),
            decreases ids@.len() - i,
        {
            let id = &ids[i];
            let started = self.read_int(id.as_str(), "started_epoch");
            let ended = self.read_int(id.as_str(), "ended_epoch");
            if started <= e && ended >= s {
                let icao = self.read_text(id.as_str(), "icao24");
                let ghost pv = (icao@, id@);
                proof {
                    assert forall|k: int| 0 <= k < out@.len() implies pair_view(#[trigger] out@[k]) != pv by {
                        let j = choose|j: int| 0 <= j < i && (#[trigger] ids@[j])@ == out@[k].1@;
                        assert(ids@[j]@ != ids@[i as int]@);
                    }
                }
                let ghost before = out@;
                insert_pair_sorted(&mut out, (icao, id.clone()));
                proof {
                    assert(window_entry(self.store(), s as int, e as int, pv));
                    assert forall|k: int| 0 <= k < out@.len() implies window_entry(self.store(), s as int, e as int,
                        #[trigger] pair_view(out@[k])) by {
                        assert(has_pair(out@, pair_view(out@[k])));
                        if pair_view(out@[k]) != pv {
                            let j = choose|j: int| 0 <= j < before.len() && #[trigger] pair_view(before[j]) == pair_view(out@[k]);
                        }
                    }
                }
            }
            proof {
                assert forall|k: int| 0 <= k < out@.len() implies exists|j: int| 0 <= j < i + 1 && (#[trigger] ids@[j])@ == (#[trigger] out@[k]).1@ by {
                    if out@[k].1@ == ids@[i as int]@ {
                        assert(ids@[i as int]@ == out@[k].1@);
                    } else {
                        assert(has_pair(out@, pair_view(out@[k])));
                    }
                }
            }
            i = i + 1;
        }
        proof {
            assert forall|p: (Seq<char>, Seq<char>)| window_entry(self.store(), s as int, e as int, p)
                implies #[trigger] has_pair(out@, p) by {
                let j = choose|j: int| 0 <= j < ids@.len() && (#[trigger] ids@[j])@ == p.1;
                assert(ids@[j]@ == p.1);
            }
        }
        out
    }

    /// Ids of the nodes filed under `overhead = true` (tracks satisfying the
    /// overhead rule), sorted.
    pub fn overhead_candidates(&self) -> (r: Vec<String>)
        requires
            self.wf(),
        ensures
            texts_sorted(r@),
            forall|id: Seq<char>| #[trigger] has_text(r@, id) <==> overhead_entry(self.store(), id),
    {
        let ids = graph_ids_with_flag(&self.graph, "overhead", true);
        let mut out: Vec<String> = Vec::new();
        let mut i: usize = 0;
        while i < ids.len()
            invariant
                i <= ids@.len(),
                forall|a: int, b: int| 0 <= a < b < ids@.len() ==> (#[trigger] ids@[a])@ != (#[trigger] ids@[b])@,
                texts_sorted(out@),
                forall|t: Seq<char>| #[trigger] has_text(out@, t) <==> exists|j: int| 0 <= j < i && (#[trigger] ids@[j])@ == t,
            decreases ids@.len() - i,
        {
            let ghost before = out@;
            proof {
                if has_text(out@, ids@[i as int]@) {
                    let j = choose|j: int| 0 <= j < i && (#[trigger] ids@[j])@ == ids@[i as int]@;
                    assert(ids@[j]@ != ids@[i as int]@);
                }
            }
            insert_text_sorted(&mut out, ids[i].clone());
            proof {
                assert forall|t: Seq<char>| #[trigger] has_text(out@, t) <==> exists|j: int| 0 <= j < i + 1 && (#[trigger] ids@[j])@ == t by {
                    if has_text(out@, t) && t != ids@[i as int]@ {
                        assert(has_text(before, t));
                    }
                    if exists|j: int| 0 <= j < i + 1 && (#[trigger] ids@[j])@ == t {
                        let j = choose|j: int| 0 <= j < i + 1 && (#[trigger] ids@[j])@ == t;
                        if j < i {
                            assert(has_text(before, t));
                        }
                    }
                }
            }
            i = i + 1;
        }
        proof {
            reveal_strlit("overhead");
            reveal_strlit("true");
            assert forall|id: Seq<char>| #[trigger] has_text(out@, id) <==> overhead_entry(self.store(), id) by {
                if overhead_entry(self.store(), id) {
                    let k = choose|k: int| 0 <= k < ids@.len() && (#[trigger] ids@[k])@ == id;
                }
            }
        }
        out
    }

    /// `(node count, edge count)`.
    pub fn stats(&self) -> (r: (usize, usize))
        ensures
            r.0 == graph_nodes(self.store()).dom().len(),
            r.1 == graph_edges(self.store()).len(),
    {
        (graph_node_count(&self.graph), graph_edge_count(&self.graph))
    }

    /// `{:.d}` rendering of the number stored under `key` in node `id`
    /// (a float as stored, an integer as a whole number, zero otherwise).
    fn number_text(&self, id: &str, key: &str, decimals: usize) -> (r: String)
        requires
            self.wf(),
            graph_nodes(self.store()).dom().contains(id@),
        ensures
            number_ok(graph_nodes(self.store())[id@], key@, decimals as nat, r@),
    {
        match graph_float_text(&self.graph, id, key, decimals) {
            Some(t) => t,
            None => {
                let v: i64 = match graph_node_property(&self.graph, id, key) {
                    Some(Prop::Integer(i)) => i,
                    _ => 0,
                };
                let mut t = String::new();
                push_fixed(&mut t, v, decimals);
                proof {
                    reveal_strlit("");
                    assert(t@ =~= fixed_text(v as int, decimals as nat));
                }
                t
            },
        }
    }

    /// Evidence lines of one outgoing edge `(to, kind)` of a track.
    fn edge_evidence(&self, to: &str, kind: &str) -> (r: Vec<String>)
        requires
            self.wf(),
        ensures
            edge_chunk_ok(self.store(), to@, kind@, texts(r@)),
    {
        proof {
            reveal_strlit("observed_by");
            reveal_strlit("near");
            reveal_strlit("during");
            reveal_strlit("part_of_track");
            reveal_strlit("similar_to");
            reveal_strlit("correlated_with");
            reveal_strlit("WeatherCell");
            reveal_strlit("Anomaly");
        }
        let mut r: Vec<String> = Vec::new();
        if str_eq(kind, "observed_by") {
            let mut l = String::from_str("observed_by ");
            l.append(to);
            r.push(l);
            proof { assert(texts(r@) =~= seq![l@]); }
        } else if str_eq(kind, "near") {
            let mut l = String::from_str("near ");
            l.append(to);
            l.append(" (closest approach inside 10 km)");
            r.push(l);
            proof { assert(texts(r@) =~= seq![l@]); }
        } else if str_eq(kind, "during") {
            let mut l = String::from_str("during ");
            l.append(to);
            r.push(l);
            proof { assert(texts(r@) =~= seq![l@]); }
        } else if str_eq(kind, "part_of_track") {
            let mut l = String::from_str("flight of ");
            l.append(to);
            r.push(l);
            proof { assert(texts(r@) =~= seq![l@]); }
        } else if str_eq(kind, "similar_to") {
            let mut l = String::from_str("similar_to ");
            l.append(to);
            r.push(l);
            proof { assert(texts(r@) =~= seq![l@]); }
        } else if str_eq(kind, "correlated_with") && graph_has_node(&self.graph, to) {
            proof { lemma_read_keys(); }
            if graph_node_has_label(&self.graph, to, "WeatherCell") {
                let wind = self.number_text(to, "wind_mps", 1);
                let mut l = String::from_str("correlated_with ");
                l.append(to);
                l.append(" (");
                let cond = self.read_text(to, "condition");
                l.append(cond.as_str());
                l.append(", wind ");
                l.append(wind.as_str());
                l.append(" m/s)");
                r.push(l);
                proof {
                    assert(l@ =~= weather_line(to@, cond@, wind@));
                    assert(texts(r@) =~= seq![l@]);
                }
            } else if graph_node_has_label(&self.graph, to, "Anomaly") {
                let score = self.number_text(to, "score", 2);
                let mut l = String::from_str("anomaly score ");
                l.append(score.as_str());
                l.append(" (");
                let band = self.read_text(to, "band");
                l.append(band.as_str());
                l.append("): ");
                let reasons = self.read_text(to, "reasons");
                l.append(reasons.as_str());
                r.push(l);
                proof {
                    assert(l@ =~= anomaly_line(score@, band@, reasons@));
                }
                let out = graph_outgoing(&self.graph, to);
                let mut k: usize = 0;
                while k < out.len()
                    invariant
                        k <= out@.len(),
                        r@.len() >= 1,
                        texts(r@)[0] == l@,
                        texts(r@).drop_first() =~= baseline_lines(out@.take(k as int)),
                    decreases out@.len() - k,
                {
                    proof {
                        reveal_strlit("anomalous_relative_to");
                        assert(out@.take(k + 1).drop_last() =~= out@.take(k as int));
                        assert(out@.take(k + 1).last() == out@[k as int]);
                    }
                    if str_eq(out[k].1.as_str(), "anomalous_relative_to") {
                        let mut b = String::from_str("anomalous_relative_to baseline ");
                        b.append(out[k].0.as_str());
                        r.push(b);
                    }
                    k = k + 1;
                }
                proof {
                    assert(out@.take(out@.len() as int) =~= out@);
                    assert(baseline_lines(out@) == texts(r@).drop_first());
                }
            }
        }
        r
    }

    /// Structured explanation of a track: a summary citing its evidence
    /// observations, its geometry, and one line per relationship it has
    /// (observer, proximity, time windows, aircraft, similar tracks, weather
    /// context, anomaly score with its baseline). `None` for an unknown id.
    pub fn explain(&self, track_id: &str) -> (r: Option<TrackExplanation>)
        requires
            self.wf(),
        ensures
            r is None <==> !graph_nodes(self.store()).dom().contains(track_id@),
            r matches Some(x) ==> {
                let f = graph_nodes(self.store())[track_id@];
                &&& x.track_id@ == track_id@
                &&& x.aircraft_id@ == text_prop(f, "icao24"@)
                &&& x.callsign@ == text_prop(f, "callsign"@)
                &&& x.evidence@.len() >= 2
                &&& x.evidence@[0]@ == summary_text(track_id@, f)
                &&& geometry_ok(f, x.evidence@[1]@)
                &&& explain_ok(self.store(), track_id@, texts(x.evidence@).skip(2))
            },
    {
        if !graph_has_node(&self.graph, track_id) {
            return None;
        }
        proof {
            lemma_read_keys();
        }
        let ghost f = graph_nodes(self.store())[track_id@];
        let mut summary = String::from_str("track ");
        summary.append(track_id);
        summary.append(" stitched from ");
        push_int(&mut summary, self.read_int(track_id, "n_points"));
        summary.append(" observations; evidence observation ids: first ");
        summary.append(self.read_text(track_id, "first_observation_id").as_str());
        summary.append(", closest approach ");
        summary.append(self.read_text(track_id, "closest_observation_id").as_str());
        summary.append(", last ");
        summary.append(self.read_text(track_id, "last_observation_id").as_str());
        proof {
            reveal_strlit("track ");
            reveal_strlit(" stitched from ");
            reveal_strlit(" observations; evidence observation ids: first ");
            reveal_strlit(", closest approach ");
            reveal_strlit(", last ");
            assert(summary@ =~= summary_text(track_id@, f));
        }
        let range = self.number_text(track_id, "min_range_m", 0);
        let azimuth = self.number_text(track_id, "closest_azimuth_deg", 0);
        let elevation = self.number_text(track_id, "max_elevation_deg", 1);
        let heading = self.number_text(track_id, "dominant_heading_deg", 0);
        let altitude = self.number_text(track_id, "mean_altitude_m", 0);
        let mut geometry = String::from_str("geometry: closest approach ");
        geometry.append(range.as_str());
        geometry.append(" m at azimuth ");
        geometry.append(azimuth.as_str());
        geometry.append("°, max elevation ");
        geometry.append(elevation.as_str());
        geometry.append("°, dominant heading ");
        geometry.append(heading.as_str());
        geometry.append("°, mean altitude ");
        geometry.append(altitude.as_str());
        geometry.append(" m");
        proof {
            assert(geometry@ =~= geometry_text(range@, azimuth@, elevation@, heading@, altitude@));
        }
        let mut evidence: Vec<String> = Vec::new();
        evidence.push(summary);
        evidence.push(geometry);
        let out = graph_outgoing(&self.graph, track_id);
        let ghost mut chunks: Seq<Seq<Seq<char>>> = Seq::empty();
        let mut k: usize = 0;
        while k < out.len()
            invariant
                self.wf(),
                k <= out@.len(),
                evidence@.len() >= 2,
                evidence@[0]@ == summary_text(track_id@, f),
                geometry_ok(f, evidence@[1]@),
                chunks.len() == k,
                forall|j: int| 0 <= j < k ==> edge_chunk_ok(self.store(), (#[trigger] out@[j]).0@, out@[j].1@, chunks[j]),
                texts(evidence@).skip(2) =~= concat_lines(chunks),
            decreases out@.len() - k,
        {
            let lines = self.edge_evidence(out[k].0.as_str(), out[k].1.as_str());
            let ghost before = evidence@;
            let mut m: usize = 0;
            while m < lines.len()
                invariant
                    m <= lines@.len(),
                    evidence@.len() == before.len() + m,
                    forall|j: int| 0 <= j < before.len() ==> evidence@[j] == before[j],
                    forall|j: int| 0 <= j < m ==> evidence@[before.len() + j] == lines@[j],
                decreases lines@.len() - m,
            {
                evidence.push(lines[m].clone());
                m = m + 1;
            }
            proof {
                let new_chunks = chunks.push(texts(lines@));
                assert(new_chunks.drop_last() =~= chunks);
                assert(texts(evidence@).skip(2) =~= concat_lines(chunks) + texts(lines@));
                chunks = new_chunks;
            }
            k = k + 1;
        }
        proof {
            assert(out@.take(out@.len() as int) =~= out@);
            assert(explain_ok_with(self.store(), track_id@, out@, chunks, texts(evidence@).skip(2)));
        }
        Some(TrackExplanation {
            track_id: String::from_str(track_id),
            aircraft_id: self.read_text(track_id, "icao24"),
            callsign: self.read_text(track_id, "callsign"),
            evidence,
        })
    }

    /// Link node `from` by a `during` edge to the TimeWindow of every hour
    /// overlapping `[start, end]`, creating those TimeWindows as needed.
    fn link_hours(&mut self, from: &String, start: i128, end: i128) -> (r: Result<(), SkyError>)
        requires
            old(self).wf(),
            graph_nodes(old(self).store()).dom().contains(from@),
            valid_instant(start as int),
            valid_instant(end as int),
        ensures
            r is Ok,
            final(self).wf(),
            final(self).observer_id() == old(self).observer_id(),
            graph_nodes(final(self).store()) == with_windows(graph_nodes(old(self).store()), hour_seq(start as int, end as int)),
            graph_edges(final(self).store()) == graph_edges(old(self).store()).add(
                during_edges(from@, hour_seq(start as int, end as int))),
            graph_grows(old(self).store(), final(self).store()),
            overhead_kept(old(self).store(), final(self).store()),
    {
        let ghost old_store = self.graph;
        let hours = hours_covering(start, end);
        proof {
            lemma_hour_floor_valid(start as int);
        }
        let mut i: usize = 0;
        while i < hours.len()
            invariant
                i <= hours@.len(),
                hours@ == hour_seq(start as int, end as int),
                valid_instant(start as int),
                valid_instant(end as int),
                valid_instant(hour_floor(start as int)),
                self.wf(),
                self.observer_id() == old(self).observer_id(),
                graph_nodes(self.store()).dom().contains(from@),
                old_store == old(self).store(),
                graph_nodes(self.store()) == with_windows(graph_nodes(old_store), hours@.take(i as int)),
                graph_edges(self.store()) == graph_edges(old_store).add(during_edges(from@, hours@.take(i as int))),
                graph_grows(old_store, self.store()),
                overhead_kept(old_store, self.store()),
            decreases hours@.len() - i,
        {
            let h = hours[i];
            proof {
                lemma_hour_seq_aligned(start as int, end as int, i as int);
            }
            let win = self.ensure_time_window(h);
            let e = self.new_edge(from.clone(), win, "during", Vec::new());
            proof {
                reveal_strlit("during");
                assert(hours@.take(i + 1).drop_last() =~= hours@.take(i as int));
                assert(hours@.take(i + 1).last() == h);
                let e_new = EdgeFacts { from: from@, to: window_node_id(h as int), kind: "during"@ };
                assert(graph_edges(old_store).add(during_edges(from@, hours@.take(i + 1)))
                    =~= graph_edges(old_store).add(during_edges(from@, hours@.take(i as int))).insert(e_new));
                assert(graph_nodes(old_store).dom().subset_of(graph_nodes(self.graph).dom()));
                assert(graph_label_index(old_store).subset_of(graph_label_index(self.graph)));
                assert(graph_property_index(old_store).subset_of(graph_property_index(self.graph)));
            }
            if let Err(err) = e {
                return Err(err);
            }
            i = i + 1;
        }
        proof {
            assert(hours@.take(hours@.len() as int) =~= hours@);
        }
        Ok(())
    }
}

/// The id of track `t` is none of the ids its own insertion writes after
/// it: not an evidence Observation id and not a TimeWindow id.
pub open spec fn track_unshadowed(t: GraphTrack) -> bool {
    !"obs:"@.is_prefix_of(t.track_id@) && !"window:"@.is_prefix_of(t.track_id@)
}

/// Making sure TimeWindows exist leaves every other node as it was.
proof fn lemma_windows_keep(m: Map<Seq<char>, NodeFacts>, hs: Seq<i128>, id: Seq<char>)
    requires
        !"window:"@.is_prefix_of(id),
    ensures
        with_windows(m, hs).dom().contains(id) == m.dom().contains(id),
        with_windows(m, hs)[id] == m[id],
    decreases hs.len(),
{
    if hs.len() > 0 {
        lemma_windows_keep(m, hs.drop_last(), id);
        let w = window_node_id(hs.last() as int);
        assert("window:"@.is_prefix_of(w)) by {
            reveal_strlit("window:");
            assert(w.subrange(0, 7) =~= "window:"@);
        }
    }
}

/// Within its own insertion, the Track node of an unshadowed track keeps
/// what the track recorded.
proof fn lemma_track_read_back(m: Map<Seq<char>, NodeFacts>, t: GraphTrack)
    ensures
        track_nodes(m, t).dom().contains(t.track_id@),
        track_unshadowed(t) ==> track_nodes(m, t)[t.track_id@] == track_facts(t),
{
    let base = with_aircraft(m, t).insert(t.track_id@, track_facts(t))
        .insert(obs_node_id(t.first_observation_id@), observation_facts(t.first_observation_id@, "first"@))
        .insert(obs_node_id(t.closest_observation_id@), observation_facts(t.closest_observation_id@, "closest_approach"@))
        .insert(obs_node_id(t.last_observation_id@), observation_facts(t.last_observation_id@, "last"@));
    lemma_with_windows_grows(base, track_hours(t));
    if track_unshadowed(t) {
        reveal_strlit("obs:");
        let id = t.track_id@;
        assert forall|o: Seq<char>| id != obs_node_id(o) by {
            if id == obs_node_id(o) {
                assert(id.subrange(0, 4) =~= "obs:"@);
            }
        }
        lemma_windows_keep(base, track_hours(t), id);
    }
}

/// Making sure TimeWindows exist keeps every node id.
proof fn lemma_with_windows_grows(m: Map<Seq<char>, NodeFacts>, hs: Seq<i128>)
    ensures
        m.dom().subset_of(with_windows(m, hs).dom()),
    decreases hs.len(),
{
    if hs.len() > 0 {
        lemma_with_windows_grows(m, hs.drop_last());
    }
}

/// The node of an added track holds its aircraft, callsign, whole-second
/// span and the text `explain` opens with, which cites the track's
/// observation count and its first, closest-approach and last observations.
pub proof fn law_track_record(t: GraphTrack)
    ensures
        text_prop(track_facts(t), "icao24"@) == t.icao24@,
        text_prop(track_facts(t), "callsign"@) == t.callsign@,
        int_prop(track_facts(t), "started_epoch"@) == (t.started_ns as int) / (NANOS_PER_SEC as int),
        int_prop(track_facts(t), "ended_epoch"@) == (t.ended_ns as int) / (NANOS_PER_SEC as int),
        summary_text(t.track_id@, track_facts(t)) == "track "@ + t.track_id@ + " stitched from "@
            + int_text(t.n_points as int) + " observations; evidence observation ids: first "@
            + t.first_observation_id@ + ", closest approach "@ + t.closest_observation_id@ + ", last "@
            + t.last_observation_id@,
{
    lemma_track_keys();
}

/// A Track node recording `t` is found by the time-window query of every
/// window its whole-second span meets.
pub proof fn law_track_in_window(g: GraphDB, t: GraphTrack, s: int, e: int)
    requires
        graph_nodes(g).dom().contains(t.track_id@),
        graph_nodes(g)[t.track_id@] == track_facts(t),
        graph_label_index(g).contains(("Track"@, t.track_id@)),
        (t.started_ns as int) / (NANOS_PER_SEC as int) <= e,
        (t.ended_ns as int) / (NANOS_PER_SEC as int) >= s,
    ensures
        window_entry(g, s, e, (t.icao24@, t.track_id@)),
{
    law_track_record(t);
}

/// Getting the TimeWindow of an hour is get-or-create: a second request for
/// the same hour changes nothing.
pub proof fn law_time_window_once(m: Map<Seq<char>, NodeFacts>, h: int)
    ensures
        with_window(with_window(m, h), h) == with_window(m, h),
        with_window(m, h).dom().contains(window_node_id(h)),
{
}

/// Widening the window of the time-window query never drops an aircraft.
pub proof fn law_window_widening(g: GraphDB, s: int, e: int, s2: int, e2: int, p: (Seq<char>, Seq<char>))
    requires
        window_entry(g, s, e, p),
        s2 <= s,
        e <= e2,
    ensures
        window_entry(g, s2, e2, p),
{
}

/// Id of the `k`-th edge the SkyGraph adds.
pub open spec fn edge_id_text(k: nat) -> Seq<char> {
    "edge:"@ + decimal_text(k)
}

/// Ids of the first `n` edges the SkyGraph adds.
pub open spec fn edge_ids_below(n: nat) -> Set<Seq<char>> {
    Set::new(|s: Seq<char>| exists|k: nat| k < n && s == #[trigger] edge_id_text(k))
}

/// The next edge id is fresh, and taking it extends the ids by one.
proof fn lemma_fresh_edge_id(n: nat)
    ensures
        !edge_ids_below(n).contains(edge_id_text(n)),
        edge_ids_below(n + 1) == edge_ids_below(n).insert(edge_id_text(n)),
{
    reveal_strlit("edge:");
    if edge_ids_below(n).contains(edge_id_text(n)) {
        let k = choose|k: nat| k < n && edge_id_text(n) == #[trigger] edge_id_text(k);
        assert(edge_id_text(k).subrange(5, edge_id_text(k).len() as int) =~= decimal_text(k));
        assert(edge_id_text(n).subrange(5, edge_id_text(n).len() as int) =~= decimal_text(n));
        lemma_decimal_injective(k, n);
    }
    assert forall|s: Seq<char>| edge_ids_below(n + 1).contains(s) <==> edge_ids_below(n).insert(edge_id_text(n)).contains(s) by {
        if edge_ids_below(n + 1).contains(s) {
            let k = choose|k: nat| k < n + 1 && s == #[trigger] edge_id_text(k);
            if k < n {
                assert(edge_ids_below(n).contains(s));
            }
        }
        if edge_ids_below(n).contains(s) {
            let k = choose|k: nat| k < n && s == #[trigger] edge_id_text(k);
            assert(k < n + 1);
        }
    }
    assert(edge_ids_below(n + 1) =~= edge_ids_below(n).insert(edge_id_text(n)));
}

/// Every stored edge leaves and reaches a stored node.
pub open spec fn edges_between_nodes(g: GraphDB) -> bool {
    forall|e: EdgeFacts| #[trigger] graph_edges(g).count(e) > 0
        ==> graph_nodes(g).dom().contains(e.from) && graph_nodes(g).dom().contains(e.to)
}

/// Every property-index entry names a stored node.
pub open spec fn index_on_nodes(g: GraphDB) -> bool {
    forall|e: (Seq<char>, Seq<char>, Seq<char>)| #[trigger] graph_property_index(g).contains(e)
        ==> graph_nodes(g).dom().contains(e.2)
}

/// Going from `a` to `b` leaves the overhead query's answer as it was.
pub open spec fn overhead_kept(a: GraphDB, b: GraphDB) -> bool {
    forall|id: Seq<char>| #[trigger] overhead_entry(b, id) <==> overhead_entry(a, id)
}

/// What storing node `id` with property facts `pm` (as `graph_create_node`
/// states it) does to the property index and the overhead query.
proof fn lemma_node_added(a: GraphDB, b: GraphDB, id: Seq<char>, pm: Map<Seq<char>, PropFact>)
    requires
        index_on_nodes(a),
        graph_nodes(b).dom() == graph_nodes(a).dom().insert(id),
        graph_property_index(a).subset_of(graph_property_index(b)),
        forall|e: (Seq<char>, Seq<char>, Seq<char>)| #[trigger] graph_property_index(b).contains(e)
            ==> graph_property_index(a).contains(e) || (e.2 == id && pm.dom().contains(e.0)
                && (index_text(pm[e.0]) is Some ==> index_text(pm[e.0]) == Some(e.1))),
        forall|k: Seq<char>, t: Seq<char>| pm.dom().contains(k) && index_text(pm[k]) == Some(t)
            ==> #[trigger] graph_property_index(b).contains((k, t, id)),
        pm.dom().contains("overhead"@) ==> !(pm["overhead"@] is Opaque),
    ensures
        index_on_nodes(b),
        forall|x: Seq<char>| #[trigger] overhead_entry(b, x) <==> (overhead_entry(a, x)
            || (x == id && pm.dom().contains("overhead"@) && index_text(pm["overhead"@]) == Some("true"@))),
{
    assert forall|e: (Seq<char>, Seq<char>, Seq<char>)| #[trigger] graph_property_index(b).contains(e)
        implies graph_nodes(b).dom().contains(e.2) by {
        if graph_property_index(a).contains(e) {
            assert(graph_nodes(a).dom().contains(e.2));
        }
    }
    assert forall|x: Seq<char>| #[trigger] overhead_entry(b, x) <==> (overhead_entry(a, x)
        || (x == id && pm.dom().contains("overhead"@) && index_text(pm["overhead"@]) == Some("true"@))) by {
        let e = ("overhead"@, "true"@, x);
        if overhead_entry(b, x) && !graph_property_index(a).contains(e) {
            assert(graph_property_index(b).contains(e));
        }
        if overhead_entry(a, x) {
            assert(graph_property_index(b).contains(e));
        }
        if x == id && pm.dom().contains("overhead"@) && index_text(pm["overhead"@]) == Some("true"@) {
            assert(graph_property_index(b).contains(("overhead"@, "true"@, id)));
        }
    }
}

/// A node id the graph does not hold has no edge, leaving or arriving.
pub proof fn law_fresh_id_has_no_edges(g: SkyGraph, id: Seq<char>, other: Seq<char>, kind: Seq<char>)
    requires
        g.wf(),
        !graph_nodes(g.store()).dom().contains(id),
    ensures
        graph_edges(g.store()).count((EdgeFacts { from: id, to: other, kind: kind })) == 0,
        graph_edges(g.store()).count((EdgeFacts { from: other, to: id, kind: kind })) == 0,
{
    assert(edges_between_nodes(g.store()));
    let a = EdgeFacts { from: id, to: other, kind: kind };
    let b = EdgeFacts { from: other, to: id, kind: kind };
    if graph_edges(g.store()).count(a) > 0 {
        assert(graph_nodes(g.store()).dom().contains(a.from));
    }
    if graph_edges(g.store()).count(b) > 0 {
        assert(graph_nodes(g.store()).dom().contains(b.to));
    }
}

/// Once a track is added under an id the graph did not hold, the edges
/// leaving that id are exactly the track's own links: `part_of_track` its
/// aircraft, `observed_by` the observer, `near` it exactly when the closest
/// approach came inside the overhead range, `during` exactly the hours it
/// spans, and `correlated_with` exactly the overlapping weather windows.
pub proof fn law_added_track_edges(before: SkyGraph, after: SkyGraph, t: GraphTrack, weather: Seq<WeatherWindow>,
    e: EdgeFacts)
    requires
        before.wf(),
        !graph_nodes(before.store()).dom().contains(t.track_id@),
        graph_edges(after.store()) == graph_edges(before.store())
            .add(track_links(t, before.observer_id()))
            .add(during_edges(t.track_id@, track_hours(t)))
            .add(weather_links(t.track_id@, t.started_ns as int, t.ended_ns as int, weather)),
        e.from == t.track_id@,
    ensures
        graph_edges(after.store()).count(e) == track_links(t, before.observer_id()).count(e)
            + during_edges(t.track_id@, track_hours(t)).count(e)
            + weather_links(t.track_id@, t.started_ns as int, t.ended_ns as int, weather).count(e),
{
    law_fresh_id_has_no_edges(before, t.track_id@, e.to, e.kind);
}

/// Ids of the TimeWindows of the hours `hs`.
pub open spec fn window_ids(hs: Seq<i128>) -> Set<Seq<char>> {
    Set::new(|w: Seq<char>| exists|k: int| 0 <= k < hs.len() && w == #[trigger] window_node_id(hs[k] as int))
}

proof fn lemma_with_windows_dom(m: Map<Seq<char>, NodeFacts>, hs: Seq<i128>)
    ensures
        with_windows(m, hs).dom() == m.dom().union(window_ids(hs)),
        window_ids(hs).finite(),
    decreases hs.len(),
{
    if hs.len() > 0 {
        lemma_with_windows_dom(m, hs.drop_last());
        let prev = window_ids(hs.drop_last());
        assert forall|w: Seq<char>| window_ids(hs).contains(w) <==> (prev.contains(w)
            || w == window_node_id(hs.last() as int)) by {
            if window_ids(hs).contains(w) {
                let k = choose|k: int| 0 <= k < hs.len() && w == #[trigger] window_node_id(hs[k] as int);
                if k < hs.len() - 1 {
                    assert(hs.drop_last()[k] == hs[k]);
                }
            }
            if prev.contains(w) {
                let k = choose|k: int| 0 <= k < hs.drop_last().len() && w == #[trigger] window_node_id(hs.drop_last()[k] as int);
                assert(hs[k] == hs.drop_last()[k]);
            }
            if w == window_node_id(hs.last() as int) {
                assert(w == window_node_id(hs[hs.len() - 1] as int));
            }
        }
        assert(window_ids(hs) =~= prev.insert(window_node_id(hs.last() as int)));
        assert(with_windows(m, hs).dom() =~= m.dom().union(window_ids(hs)));
    } else {
        assert(window_ids(hs) =~= Set::<Seq<char>>::empty());
        assert(m.dom().union(window_ids(hs)) =~= m.dom());
    }
}

/// The node ids after adding a track: those before, its aircraft, the track,
/// its three evidence observations and the TimeWindows of the hours it
/// spans; the node count grows by the number of these that were new.
pub proof fn law_track_node_ids(m: Map<Seq<char>, NodeFacts>, t: GraphTrack)
    requires
        m.dom().finite(),
    ensures
        track_nodes(m, t).dom() == m.dom().union(track_node_ids(t)),
        track_nodes(m, t).dom().finite(),
        track_nodes(m, t).dom().len() == m.dom().len() + track_node_ids(t).difference(m.dom()).len(),
{
    let base = with_aircraft(m, t).insert(t.track_id@, track_facts(t))
        .insert(obs_node_id(t.first_observation_id@), observation_facts(t.first_observation_id@, "first"@))
        .insert(obs_node_id(t.closest_observation_id@), observation_facts(t.closest_observation_id@, "closest_approach"@))
        .insert(obs_node_id(t.last_observation_id@), observation_facts(t.last_observation_id@, "last"@));
    lemma_with_windows_dom(base, track_hours(t));
    let ids = track_node_ids(t);
    assert(base.dom() =~= m.dom().union(set![aircraft_node_id(t.icao24@), t.track_id@,
            obs_node_id(t.first_observation_id@), obs_node_id(t.closest_observation_id@),
            obs_node_id(t.last_observation_id@)]));
    assert(track_nodes(m, t).dom() =~= m.dom().union(ids));
    let fresh = ids.difference(m.dom());
    assert(m.dom().union(ids) =~= m.dom().union(fresh));
    vstd::set_lib::lemma_set_disjoint_lens(m.dom(), fresh);
}

/// Ids of the nodes that adding track `t` makes sure exist.
pub open spec fn track_node_ids(t: GraphTrack) -> Set<Seq<char>> {
    set![aircraft_node_id(t.icao24@), t.track_id@, obs_node_id(t.first_observation_id@),
        obs_node_id(t.closest_observation_id@), obs_node_id(t.last_observation_id@)]
        .union(window_ids(track_hours(t)))
}

/// Keys under which the graph stores carried measurements.
pub open spec fn measure_key(k: Seq<char>) -> bool {
    ||| k == "lat"@
    ||| k == "lon"@
    ||| k == "alt_m"@
    ||| k == "wind_mps"@
    ||| k == "precip_mm_hr"@
    ||| k == "min_range_m"@
    ||| k == "max_elevation_deg"@
    ||| k == "closest_azimuth_deg"@
    ||| k == "dominant_heading_deg"@
    ||| k == "mean_altitude_m"@
    ||| k == "score"@
}

/// A node carries measurements under measurement keys only.
pub open spec fn facts_sound(f: NodeFacts) -> bool {
    forall|k: Seq<char>| #[trigger] f.props.dom().contains(k) && f.props[k] is Opaque ==> measure_key(k)
}

/// Every node carries measurements under measurement keys only.
pub open spec fn nodes_sound(m: Map<Seq<char>, NodeFacts>) -> bool {
    forall|id: Seq<char>| #[trigger] m.dom().contains(id) ==> facts_sound(m[id])
}

/// Id of the TimeWindow node of the hour starting at `h`.
pub open spec fn window_node_id(h: int) -> Seq<char> {
    "window:"@ + hour_label_text(h)
}

/// What the TimeWindow node of the hour starting at `h` records.
pub open spec fn window_facts(h: int) -> NodeFacts {
    NodeFacts {
        label: "TimeWindow"@,
        props: Map::<Seq<char>, PropFact>::empty()
            .insert("start_epoch"@, PropFact::Integer(h / (NANOS_PER_SEC as int)))
            .insert("end_epoch"@, PropFact::Integer(h / (NANOS_PER_SEC as int) + 3600))
            .insert("start_iso"@, PropFact::Text(rfc3339_text(h))),
    }
}

/// Nodes after making sure the TimeWindow of hour `h` exists.
pub open spec fn with_window(m: Map<Seq<char>, NodeFacts>, h: int) -> Map<Seq<char>, NodeFacts> {
    if m.dom().contains(window_node_id(h)) {
        m
    } else {
        m.insert(window_node_id(h), window_facts(h))
    }
}

/// Nodes after making sure the TimeWindows of every hour in `hs` exist, in order.
pub open spec fn with_windows(m: Map<Seq<char>, NodeFacts>, hs: Seq<i128>) -> Map<Seq<char>, NodeFacts>
    decreases hs.len(),
{
    if hs.len() == 0 {
        m
    } else {
        with_window(with_windows(m, hs.drop_last()), hs.last() as int)
    }
}

/// `during` edges from node `from` to the TimeWindow of every hour in `hs`.
pub open spec fn during_edges(from: Seq<char>, hs: Seq<i128>) -> Multiset<EdgeFacts>
    decreases hs.len(),
{
    if hs.len() == 0 {
        Multiset::empty()
    } else {
        during_edges(from, hs.drop_last()).insert((EdgeFacts { from: from, to: window_node_id(hs.last() as int), kind: "during"@ }))
    }
}

/// A graph step that adds nodes (with their index entries) and edges but
/// never drops what was stored.
pub open spec fn graph_grows(old_g: GraphDB, new_g: GraphDB) -> bool {
    &&& graph_nodes(old_g).dom().subset_of(graph_nodes(new_g).dom())
    &&& graph_label_index(old_g).subset_of(graph_label_index(new_g))
    &&& graph_property_index(old_g).subset_of(graph_property_index(new_g))
}

/// The hours whose TimeWindows a weather window is linked to: those
/// overlapping `[start, end - 1 s]`.
pub open spec fn weather_hours(w: WeatherWindow) -> Seq<i128> {
    hour_seq(w.start_ns as int, w.end_ns - NANOS_PER_SEC)
}

/// What the WeatherCell node of `w` records.
pub open spec fn weather_facts(w: WeatherWindow) -> NodeFacts {
    NodeFacts {
        label: "WeatherCell"@,
        props: Map::<Seq<char>, PropFact>::empty()
            .insert("condition"@, PropFact::Text(condition_name(w.condition)))
            .insert("wind_mps"@, PropFact::Opaque)
            .insert("precip_mm_hr"@, PropFact::Opaque)
            .insert("alert"@, PropFact::Text(match w.alert {
                Some(a) => a@,
                None => ""@,
            }))
            .insert("start_epoch"@, PropFact::Integer((w.start_ns as int) / (NANOS_PER_SEC as int)))
            .insert("end_epoch"@, PropFact::Integer((w.end_ns as int) / (NANOS_PER_SEC as int))),
    }
}

/// Id of the Aircraft node of an ICAO 24-bit address.
pub open spec fn aircraft_node_id(icao24: Seq<char>) -> Seq<char> {
    "aircraft:"@ + icao24
}

/// Id of the Observation node of an evidence sample.
pub open spec fn obs_node_id(oid: Seq<char>) -> Seq<char> {
    "obs:"@ + oid
}

/// What the Aircraft node records (from the track that created it).
pub open spec fn aircraft_facts(t: GraphTrack) -> NodeFacts {
    NodeFacts {
        label: "Aircraft"@,
        props: Map::<Seq<char>, PropFact>::empty()
            .insert("icao24"@, PropFact::Text(t.icao24@))
            .insert("callsign"@, PropFact::Text(t.callsign@)),
    }
}

/// What the Track node records.
pub open spec fn track_facts(t: GraphTrack) -> NodeFacts {
    NodeFacts {
        label: "Track"@,
        props: Map::<Seq<char>, PropFact>::empty()
            .insert("icao24"@, PropFact::Text(t.icao24@))
            .insert("callsign"@, PropFact::Text(t.callsign@))
            .insert("started_epoch"@, PropFact::Integer((t.started_ns as int) / (NANOS_PER_SEC as int)))
            .insert("ended_epoch"@, PropFact::Integer((t.ended_ns as int) / (NANOS_PER_SEC as int)))
            .insert("started_iso"@, PropFact::Text(rfc3339_text(t.started_ns as int)))
            .insert("min_range_m"@, PropFact::Opaque)
            .insert("max_elevation_deg"@, PropFact::Opaque)
            .insert("closest_azimuth_deg"@, PropFact::Opaque)
            .insert("dominant_heading_deg"@, PropFact::Opaque)
            .insert("mean_altitude_m"@, PropFact::Opaque)
            .insert("overhead"@, PropFact::Flag(t.is_overhead_candidate))
            .insert("n_points"@, PropFact::Integer(t.n_points as int))
            .insert("first_observation_id"@, PropFact::Text(t.first_observation_id@))
            .insert("closest_observation_id"@, PropFact::Text(t.closest_observation_id@))
            .insert("last_observation_id"@, PropFact::Text(t.last_observation_id@)),
    }
}

/// What an evidence Observation node records.
pub open spec fn observation_facts(oid: Seq<char>, role: Seq<char>) -> NodeFacts {
    NodeFacts {
        label: "Observation"@,
        props: Map::<Seq<char>, PropFact>::empty()
            .insert("observation_id"@, PropFact::Text(oid))
            .insert("role"@, PropFact::Text(role)),
    }
}

/// Nodes after making sure the Aircraft node of `t` exists.
pub open spec fn with_aircraft(m: Map<Seq<char>, NodeFacts>, t: GraphTrack) -> Map<Seq<char>, NodeFacts> {
    if m.dom().contains(aircraft_node_id(t.icao24@)) {
        m
    } else {
        m.insert(aircraft_node_id(t.icao24@), aircraft_facts(t))
    }
}

/// The `part_of_track` edge from an evidence sample to its track.
pub open spec fn evidence_edge(oid: Seq<char>, track_id: Seq<char>) -> EdgeFacts {
    EdgeFacts { from: obs_node_id(oid), to: track_id, kind: "part_of_track"@ }
}

/// The `part_of_track` edge from a track to its aircraft.
pub open spec fn aircraft_edge(t: GraphTrack) -> EdgeFacts {
    EdgeFacts { from: t.track_id@, to: aircraft_node_id(t.icao24@), kind: "part_of_track"@ }
}

/// The `observed_by` edge from a track to the observer.
pub open spec fn observed_edge(t: GraphTrack, observer: Seq<char>) -> EdgeFacts {
    EdgeFacts { from: t.track_id@, to: observer, kind: "observed_by"@ }
}

/// The `near` edge from a track to the observer.
pub open spec fn near_edge(t: GraphTrack, observer: Seq<char>) -> EdgeFacts {
    EdgeFacts { from: t.track_id@, to: observer, kind: "near"@ }
}

/// The hours whose TimeWindows a track is linked to: those overlapping
/// `[started, ended]`.
pub open spec fn track_hours(t: GraphTrack) -> Seq<i128> {
    hour_seq(t.started_ns as int, t.ended_ns as int)
}

/// Nodes after inserting track `t`: its Aircraft (unless present), the Track,
/// the three evidence Observations and the TimeWindows of its hours.
pub open spec fn track_nodes(m: Map<Seq<char>, NodeFacts>, t: GraphTrack) -> Map<Seq<char>, NodeFacts> {
    with_windows(
        with_aircraft(m, t).insert(t.track_id@, track_facts(t))
            .insert(obs_node_id(t.first_observation_id@), observation_facts(t.first_observation_id@, "first"@))
            .insert(obs_node_id(t.closest_observation_id@), observation_facts(t.closest_observation_id@, "closest_approach"@))
            .insert(obs_node_id(t.last_observation_id@), observation_facts(t.last_observation_id@, "last"@)),
        track_hours(t),
    )
}

/// The rule-layer edges of track `t` apart from its time and weather links:
/// evidence samples `part_of_track` the track, the track `part_of_track` its
/// aircraft, `observed_by` the observer, and `near` it inside the overhead range.
pub open spec fn track_links(t: GraphTrack, observer: Seq<char>) -> Multiset<EdgeFacts> {
    let base = Multiset::<EdgeFacts>::empty()
        .insert(evidence_edge(t.first_observation_id@, t.track_id@))
        .insert(evidence_edge(t.closest_observation_id@, t.track_id@))
        .insert(evidence_edge(t.last_observation_id@, t.track_id@))
        .insert(aircraft_edge(t))
        .insert(observed_edge(t, observer));
    if t.within_overhead_range {
        base.insert(near_edge(t, observer))
    } else {
        base
    }
}

/// Weather window `w` overlaps `[start, end]`.
pub open spec fn weather_overlaps(w: WeatherWindow, start: int, end: int) -> bool {
    w.start_ns <= end && start < w.end_ns
}

/// `correlated_with` edges from `from` to every window of `ws` overlapping
/// `[start, end]`.
pub open spec fn weather_links(from: Seq<char>, start: int, end: int, ws: Seq<WeatherWindow>) -> Multiset<EdgeFacts>
    decreases ws.len(),
{
    if ws.len() == 0 {
        Multiset::empty()
    } else {
        let rest = weather_links(from, start, end, ws.drop_last());
        if weather_overlaps(ws.last(), start, end) {
            rest.insert((EdgeFacts { from: from, to: ws.last().window_id@, kind: "correlated_with"@ }))
        } else {
            rest
        }
    }
}

/// Every window of `ws` overlapping `[start, end]` is a node of `m`.
pub open spec fn weather_linkable(m: Map<Seq<char>, NodeFacts>, start: int, end: int, ws: Seq<WeatherWindow>) -> bool {
    forall|k: int| 0 <= k < ws.len() && weather_overlaps(#[trigger] ws[k], start, end)
        ==> m.dom().contains(ws[k].window_id@)
}

/// The property keys of a Track node are pairwise distinct.
proof fn lemma_track_keys()
    ensures
        "icao24"@.len() == 6,
        "callsign"@.len() == 8,
        "started_epoch"@.len() == 13,
        "ended_epoch"@.len() == 11,
        "started_iso"@.len() == 11,
        "min_range_m"@.len() == 11,
        "max_elevation_deg"@.len() == 17,
        "closest_azimuth_deg"@.len() == 19,
        "dominant_heading_deg"@.len() == 20,
        "mean_altitude_m"@.len() == 15,
        "overhead"@.len() == 8,
        "n_points"@.len() == 8,
        "first_observation_id"@.len() == 20,
        "closest_observation_id"@.len() == 22,
        "last_observation_id"@.len() == 19,
        "callsign"@[0] == 'c' && "overhead"@[0] == 'o' && "n_points"@[0] == 'n',
        "ended_epoch"@[0] == 'e' && "started_iso"@[0] == 's' && "min_range_m"@[0] == 'm',
        "closest_azimuth_deg"@[0] == 'c' && "last_observation_id"@[0] == 'l',
        "dominant_heading_deg"@[0] == 'd' && "first_observation_id"@[0] == 'f',
{
    reveal_strlit("icao24");
    reveal_strlit("callsign");
    reveal_strlit("started_epoch");
    reveal_strlit("ended_epoch");
    reveal_strlit("started_iso");
    reveal_strlit("min_range_m");
    reveal_strlit("max_elevation_deg");
    reveal_strlit("closest_azimuth_deg");
    reveal_strlit("dominant_heading_deg");
    reveal_strlit("mean_altitude_m");
    reveal_strlit("overhead");
    reveal_strlit("n_points");
    reveal_strlit("first_observation_id");
    reveal_strlit("closest_observation_id");
    reveal_strlit("last_observation_id");
}

/// Id of the Anomaly node of a track.
pub open spec fn anomaly_node_id(track_id: Seq<char>) -> Seq<char> {
    "anomaly:"@ + track_id
}

/// What the Anomaly node of a report records.
pub open spec fn anomaly_facts(a: AnomalyReport) -> NodeFacts {
    NodeFacts {
        label: "Anomaly"@,
        props: Map::<Seq<char>, PropFact>::empty()
            .insert("track_id"@, PropFact::Text(a.track_id@))
            .insert("score"@, PropFact::Opaque)
            .insert("band"@, PropFact::Text(band_name(a.band)))
            .insert("reasons"@, PropFact::Text(join_text(texts(a.reasons@), "; "@))),
    }
}

/// The text of an optional string.
pub open spec fn opt_text(o: Option<&str>) -> Option<Seq<char>> {
    match o {
        Some(s) => Some(s@),
        None => None,
    }
}

/// Edges of an anomaly of track `track_id`, given the nodes `m` once its
/// Anomaly node is in: `correlated_with` from the track, and
/// `anomalous_relative_to` the baseline when that is a node.
pub open spec fn anomaly_links(m: Map<Seq<char>, NodeFacts>, track_id: Seq<char>, baseline: Option<Seq<char>>)
    -> Multiset<EdgeFacts> {
    let scored = Multiset::<EdgeFacts>::empty().insert(
        (EdgeFacts { from: track_id, to: anomaly_node_id(track_id), kind: "correlated_with"@ }));
    match baseline {
        Some(b) => if m.dom().contains(b) {
            scored.insert((EdgeFacts { from: anomaly_node_id(track_id), to: b, kind: "anomalous_relative_to"@ }))
        } else {
            scored
        },
        None => scored,
    }
}

/// Text stored under `k`; empty when absent or not text.
pub open spec fn text_prop(f: NodeFacts, k: Seq<char>) -> Seq<char> {
    if f.props.dom().contains(k) {
        match f.props[k] {
            PropFact::Text(t) => t,
            _ => Seq::empty(),
        }
    } else {
        Seq::empty()
    }
}

/// Integer stored under `k`; zero when absent or not an integer.
pub open spec fn int_prop(f: NodeFacts, k: Seq<char>) -> int {
    if f.props.dom().contains(k) {
        match f.props[k] {
            PropFact::Integer(i) => i,
            _ => 0,
        }
    } else {
        0
    }
}

/// The texts of a pair of strings.
pub open spec fn pair_view(p: (String, String)) -> (Seq<char>, Seq<char>) {
    (p.0@, p.1@)
}

/// Strict order of pairs of strings, first component first.
pub open spec fn pair_lt(a: (Seq<char>, Seq<char>), b: (Seq<char>, Seq<char>)) -> bool {
    lex_lt(a.0, b.0) || (a.0 == b.0 && lex_lt(a.1, b.1))
}

/// Strictly ascending pairs.
pub open spec fn pairs_sorted(v: Seq<(String, String)>) -> bool {
    forall|a: int, b: int| 0 <= a < b < v.len() ==> pair_lt(#[trigger] pair_view(v[a]), #[trigger] pair_view(v[b]))
}

/// Some element of `v` has texts `p`.
pub open spec fn has_pair(v: Seq<(String, String)>, p: (Seq<char>, Seq<char>)) -> bool {
    exists|k: int| 0 <= k < v.len() && #[trigger] pair_view(v[k]) == p
}

/// `p` is `(icao24, id)` of a node filed under label `Track` whose
/// `started_epoch` is at most `e` and whose `ended_epoch` is at least `s`.
pub open spec fn window_entry(g: GraphDB, s: int, e: int, p: (Seq<char>, Seq<char>)) -> bool {
    &&& graph_label_index(g).contains(("Track"@, p.1))
    &&& graph_nodes(g).dom().contains(p.1)
    &&& int_prop(graph_nodes(g)[p.1], "started_epoch"@) <= e
    &&& int_prop(graph_nodes(g)[p.1], "ended_epoch"@) >= s
    &&& p.0 == text_prop(graph_nodes(g)[p.1], "icao24"@)
}

/// `id` is a node filed under `overhead = true` in the property index.
pub open spec fn overhead_entry(g: GraphDB, id: Seq<char>) -> bool {
    graph_property_index(g).contains(("overhead"@, "true"@, id)) && graph_nodes(g).dom().contains(id)
}

proof fn lemma_pair_order(a: (Seq<char>, Seq<char>), b: (Seq<char>, Seq<char>), c: (Seq<char>, Seq<char>))
    ensures
        !pair_lt(a, a),
        a == b || pair_lt(a, b) || pair_lt(b, a),
        pair_lt(a, b) && pair_lt(b, c) ==> pair_lt(a, c),
{
    lemma_lex_irreflexive(a.0);
    lemma_lex_irreflexive(a.1);
    lemma_lex_total(a.0, b.0);
    lemma_lex_total(a.1, b.1);
    if pair_lt(a, b) && pair_lt(b, c) {
        if lex_lt(a.0, b.0) && lex_lt(b.0, c.0) {
            lemma_lex_transitive(a.0, b.0, c.0);
        } else if lex_lt(a.1, b.1) && lex_lt(b.1, c.1) {
            lemma_lex_transitive(a.1, b.1, c.1);
        }
    }
}

/// Insert `x` at its place in the ascending list `out`, which lacks it.
fn insert_pair_sorted(out: &mut Vec<(String, String)>, x: (String, String))
    requires
        pairs_sorted(old(out)@),
        forall|k: int| 0 <= k < old(out)@.len() ==> #[trigger] pair_view(old(out)@[k]) != pair_view(x),
    ensures
        pairs_sorted(final(out)@),
        forall|p: (Seq<char>, Seq<char>)| #[trigger] has_pair(final(out)@, p) <==> (has_pair(old(out)@, p) || p == pair_view(x)),
{
    let mut p: usize = 0;
    while p < out.len() && (str_lt(out[p].0.as_str(), x.0.as_str())
        || (str_eq(out[p].0.as_str(), x.0.as_str()) && str_lt(out[p].1.as_str(), x.1.as_str())))
        invariant
            p <= out@.len(),
            forall|a: int| 0 <= a < p ==> pair_lt(#[trigger] pair_view(out@[a]), pair_view(x)),
        decreases out@.len() - p,
    {
        p = p + 1;
    }
    let ghost old_out = out@;
    let ghost xv = pair_view(x);
    proof {
        assert forall|a: int| p <= a < old_out.len() implies pair_lt(xv, #[trigger] pair_view(old_out[a])) by {
            lemma_pair_order(pair_view(old_out[p as int]), xv, pair_view(old_out[a]));
            lemma_pair_order(xv, pair_view(old_out[p as int]), pair_view(old_out[a]));
        }
    }
    out.insert(p, x);
    proof {
        assert forall|a: int, b: int| 0 <= a < b < out@.len() implies pair_lt(#[trigger] pair_view(out@[a]), #[trigger] pair_view(out@[b])) by {
            if a < p && b > p {
                assert(out@[b] == old_out[b - 1]);
                lemma_pair_order(pair_view(out@[a]), xv, pair_view(out@[b]));
            } else if b < p {
                assert(out@[a] == old_out[a] && out@[b] == old_out[b]);
            } else if a > p {
                assert(out@[a] == old_out[a - 1] && out@[b] == old_out[b - 1]);
            } else if a < p {
                assert(out@[a] == old_out[a]);
            } else {
                assert(out@[b] == old_out[b - 1]);
            }
        }
        assert(pair_view(out@[p as int]) == xv);
        assert forall|q: (Seq<char>, Seq<char>)| #[trigger] has_pair(out@, q) <==> (has_pair(old_out, q) || q == xv) by {
            if has_pair(out@, q) {
                let k = choose|k: int| 0 <= k < out@.len() && #[trigger] pair_view(out@[k]) == q;
                if k < p {
                    assert(pair_view(old_out[k]) == q);
                } else if k > p {
                    assert(pair_view(old_out[k - 1]) == q);
                }
            }
            if has_pair(old_out, q) {
                let k = choose|k: int| 0 <= k < old_out.len() && #[trigger] pair_view(old_out[k]) == q;
                if k < p {
                    assert(pair_view(out@[k]) == q);
                } else {
                    assert(pair_view(out@[k + 1]) == q);
                }
            }
        }
    }
}

/// Keys read back as text or integers are not measurement keys.
proof fn lemma_read_keys()
    ensures
        !measure_key("icao24"@),
        !measure_key("callsign"@),
        !measure_key("started_epoch"@),
        !measure_key("ended_epoch"@),
        !measure_key("n_points"@),
        !measure_key("first_observation_id"@),
        !measure_key("closest_observation_id"@),
        !measure_key("last_observation_id"@),
        !measure_key("condition"@),
        !measure_key("band"@),
        !measure_key("reasons"@),
{
    lemma_track_keys();
    reveal_strlit("lat");
    reveal_strlit("lon");
    reveal_strlit("alt_m");
    reveal_strlit("wind_mps");
    reveal_strlit("precip_mm_hr");
    reveal_strlit("score");
    reveal_strlit("condition");
    reveal_strlit("band");
    reveal_strlit("reasons");
    assert("wind_mps"@[0] == 'w');
    assert("condition"@.len() == 9);
    assert("band"@.len() == 4);
    assert("reasons"@.len() == 7);
    assert("precip_mm_hr"@.len() == 12);
    assert("score"@.len() == 5);
    assert("alt_m"@.len() == 5);
    assert("lat"@.len() == 3);
}

/// The summary line of an explanation of node `id` with facts `f`.
pub open spec fn summary_text(id: Seq<char>, f: NodeFacts) -> Seq<char> {
    "track "@ + id + " stitched from "@ + int_text(int_prop(f, "n_points"@))
        + " observations; evidence observation ids: first "@ + text_prop(f, "first_observation_id"@)
        + ", closest approach "@ + text_prop(f, "closest_observation_id"@)
        + ", last "@ + text_prop(f, "last_observation_id"@)
}

/// `t` is a rendering of the number under `k` with `d` decimals: zero for an
/// absent key or a text or flag value; a stored integer (one a float holds
/// exactly) as that integer; a carried measurement as the store renders it.
pub open spec fn number_ok(f: NodeFacts, k: Seq<char>, d: nat, t: Seq<char>) -> bool {
    if !f.props.dom().contains(k) {
        t == fixed_text(0, d)
    } else {
        match f.props[k] {
            PropFact::Integer(i) => -0x20_0000_0000_0000 <= i <= 0x20_0000_0000_0000 ==> t == fixed_text(i, d),
            PropFact::Text(_) => t == fixed_text(0, d),
            PropFact::Flag(_) => t == fixed_text(0, d),
            PropFact::Opaque => true,
        }
    }
}

/// The geometry line, given the renderings of its five measurements.
pub open spec fn geometry_text(range: Seq<char>, azimuth: Seq<char>, elevation: Seq<char>, heading: Seq<char>,
    altitude: Seq<char>) -> Seq<char> {
    "geometry: closest approach "@ + range + " m at azimuth "@ + azimuth + "°, max elevation "@ + elevation
        + "°, dominant heading "@ + heading + "°, mean altitude "@ + altitude + " m"@
}

/// `line` is the geometry line of a node with facts `f`.
pub open spec fn geometry_ok(f: NodeFacts, line: Seq<char>) -> bool {
    exists|a: Seq<char>, b: Seq<char>, c: Seq<char>, d: Seq<char>, e: Seq<char>|
        #[trigger] geometry_text(a, b, c, d, e) == line
        && number_ok(f, "min_range_m"@, 0, a) && number_ok(f, "closest_azimuth_deg"@, 0, b)
        && number_ok(f, "max_elevation_deg"@, 1, c) && number_ok(f, "dominant_heading_deg"@, 0, d)
        && number_ok(f, "mean_altitude_m"@, 0, e)
}

/// The weather-context line of a `correlated_with` edge to WeatherCell `to`.
pub open spec fn weather_line(to: Seq<char>, condition: Seq<char>, wind: Seq<char>) -> Seq<char> {
    "correlated_with "@ + to + " ("@ + condition + ", wind "@ + wind + " m/s)"@
}

/// The score line of a `correlated_with` edge to an Anomaly.
pub open spec fn anomaly_line(score: Seq<char>, band: Seq<char>, reasons: Seq<char>) -> Seq<char> {
    "anomaly score "@ + score + " ("@ + band + "): "@ + reasons
}

/// One `anomalous_relative_to baseline {to}` line per such edge of `out`, in order.
pub open spec fn baseline_lines(out: Seq<(String, String)>) -> Seq<Seq<char>>
    decreases out.len(),
{
    if out.len() == 0 {
        Seq::empty()
    } else {
        let rest = baseline_lines(out.drop_last());
        if out.last().1@ == "anomalous_relative_to"@ {
            rest.push("anomalous_relative_to baseline "@ + out.last().0@)
        } else {
            rest
        }
    }
}

/// `out` lists the edges leaving `from`, each `(to, kind)` once per edge.
pub open spec fn outgoing_of(g: GraphDB, from: Seq<char>, out: Seq<(String, String)>) -> bool {
    forall|to: Seq<char>, kind: Seq<char>| #[trigger] pair_count(out, to, kind)
        == graph_edges(g).count((EdgeFacts { from: from, to: to, kind: kind }))
}

/// `lines` is what an outgoing edge `(to, kind)` of a track contributes to
/// its explanation.
pub open spec fn edge_chunk_ok(g: GraphDB, to: Seq<char>, kind: Seq<char>, lines: Seq<Seq<char>>) -> bool {
    if kind == "observed_by"@ {
        lines == seq!["observed_by "@ + to]
    } else if kind == "near"@ {
        lines == seq!["near "@ + to + " (closest approach inside 10 km)"@]
    } else if kind == "during"@ {
        lines == seq!["during "@ + to]
    } else if kind == "part_of_track"@ {
        lines == seq!["flight of "@ + to]
    } else if kind == "similar_to"@ {
        lines == seq!["similar_to "@ + to]
    } else if kind == "correlated_with"@ && graph_nodes(g).dom().contains(to) {
        let f = graph_nodes(g)[to];
        if f.label == "WeatherCell"@ {
            &&& lines.len() == 1
            &&& exists|w: Seq<char>| #[trigger] weather_line(to, text_prop(f, "condition"@), w) == lines[0]
                && number_ok(f, "wind_mps"@, 1, w)
        } else if f.label == "Anomaly"@ {
            &&& lines.len() >= 1
            &&& exists|sc: Seq<char>| #[trigger] anomaly_line(sc, text_prop(f, "band"@), text_prop(f, "reasons"@)) == lines[0]
                && number_ok(f, "score"@, 2, sc)
            &&& exists|out: Seq<(String, String)>| outgoing_of(g, to, out) && #[trigger] baseline_lines(out) == lines.drop_first()
        } else {
            lines.len() == 0
        }
    } else {
        lines.len() == 0
    }
}

/// Lines of the chunks, in order.
pub open spec fn concat_lines(chunks: Seq<Seq<Seq<char>>>) -> Seq<Seq<char>>
    decreases chunks.len(),
{
    if chunks.len() == 0 {
        Seq::empty()
    } else {
        concat_lines(chunks.drop_last()) + chunks.last()
    }
}

/// `lines` are the chunks of the edges in `out`, the edges leaving `id`.
pub open spec fn explain_ok_with(g: GraphDB, id: Seq<char>, out: Seq<(String, String)>,
    chunks: Seq<Seq<Seq<char>>>, lines: Seq<Seq<char>>) -> bool {
    &&& outgoing_of(g, id, out)
    &&& chunks.len() == out.len()
    &&& forall|j: int| 0 <= j < out.len() ==> edge_chunk_ok(g, (#[trigger] out[j]).0@, out[j].1@, chunks[j])
    &&& concat_lines(chunks) == lines
}

/// `lines` are the relationship lines of an explanation of node `id`: the
/// contributions of the edges leaving it, taken in some order.
pub open spec fn explain_ok(g: GraphDB, id: Seq<char>, lines: Seq<Seq<char>>) -> bool {
    exists|out: Seq<(String, String)>, chunks: Seq<Seq<Seq<char>>>| #[trigger] explain_ok_with(g, id, out, chunks, lines)
}

/// What the Observer node records.
pub open spec fn observer_facts(name: Seq<char>) -> NodeFacts {
    NodeFacts {
        label: "Observer"@,
        props: Map::<Seq<char>, PropFact>::empty()
            .insert("name"@, PropFact::Text(name))
            .insert("lat"@, PropFact::Opaque)
            .insert("lon"@, PropFact::Opaque)
            .insert("alt_m"@, PropFact::Opaque),
    }
}

/// The weather-context line of a track's `correlated_with` edge to a
/// WeatherCell names the cell and its condition and prints the cell's own
/// `wind_mps` with one decimal: an integer wind `i` as `i.0`, no wind as
/// `0.0`; no other property of the cell stands in for it.
pub proof fn law_weather_line_wind(g: GraphDB, to: Seq<char>, lines: Seq<Seq<char>>)
    requires
        graph_nodes(g).dom().contains(to),
        graph_nodes(g)[to].label == "WeatherCell"@,
        edge_chunk_ok(g, to, "correlated_with"@, lines),
    ensures
        lines.len() == 1,
        exists|w: Seq<char>| #![trigger weather_line(to, text_prop(graph_nodes(g)[to], "condition"@), w)]
            lines[0] == "correlated_with "@ + to + " ("@ + text_prop(graph_nodes(g)[to], "condition"@) + ", wind "@
                + w + " m/s)"@
            && (!graph_nodes(g)[to].props.dom().contains("wind_mps"@) ==> w == "0.0"@)
            && (forall|i: int| graph_nodes(g)[to].props.dom().contains("wind_mps"@)
                && graph_nodes(g)[to].props["wind_mps"@] == PropFact::Integer(i) && -0x20_0000_0000_0000 <= i <= 0x20_0000_0000_0000
                ==> w == int_text(i) + ".0"@),
{
    reveal_strlit("correlated_with");
    reveal_strlit("WeatherCell");
    reveal_strlit("observed_by");
    reveal_strlit("near");
    reveal_strlit("during");
    reveal_strlit("part_of_track");
    reveal_strlit("similar_to");
    reveal_strlit("0.0");
    reveal_strlit(".0");
    assert("correlated_with"@.len() == 15);
    assert("observed_by"@.len() == 11);
    assert("near"@.len() == 4);
    assert("during"@.len() == 6);
    assert("part_of_track"@.len() == 13);
    assert("similar_to"@.len() == 10);
    let f = graph_nodes(g)[to];
    let w = choose|w: Seq<char>| #[trigger] weather_line(to, text_prop(f, "condition"@), w) == lines[0]
        && number_ok(f, "wind_mps"@, 1, w);
    assert(weather_line(to, text_prop(f, "condition"@), w) == lines[0]);
    assert(int_text(0) == seq!['0']) by { reveal_strlit("0"); }
    assert(fixed_text(0, 1) =~= "0.0"@);
    assert forall|i: int| f.props.dom().contains("wind_mps"@) && f.props["wind_mps"@] == PropFact::Integer(i)
        && -0x20_0000_0000_0000 <= i <= 0x20_0000_0000_0000 implies w == int_text(i) + ".0"@ by {
        assert(fixed_text(i, 1) =~= int_text(i) + ".0"@);
    }
}

} // verus!
