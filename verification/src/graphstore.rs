//! The `ruvector-graph` store behind the SkyGraph, seen through what the
//! library writes into it and reads back.
use vstd::prelude::*;
use vstd::multiset::Multiset;
use crate::text::int_text;
use ruvector_graph::{GraphDB, GraphError, PropertyValue};

verus! {

#[verifier::external_type_specification]
#[verifier::external_body]
pub struct ExGraphDB(GraphDB);

#[verifier::external_type_specification]
#[verifier::external_body]
pub struct ExGraphError(GraphError);

#[verifier::external_type_specification]
#[verifier::external_body]
pub struct ExPropertyValue(PropertyValue);

/// A property value written by the library: text, integer, flag, or a value
/// built elsewhere (a measurement) that the library only carries.
pub enum Prop {
    Text(String),
    Integer(i64),
    Flag(bool),
    Value(PropertyValue),
}

/// What is known of a stored property value.
pub enum PropFact {
    Text(Seq<char>),
    Integer(int),
    Flag(bool),
    Opaque,
}

/// What is known of a stored node: its one label and its properties.
pub struct NodeFacts {
    pub label: Seq<char>,
    pub props: Map<Seq<char>, PropFact>,
}

/// A stored edge: endpoints and relationship type.
pub struct EdgeFacts {
    pub from: Seq<char>,
    pub to: Seq<char>,
    pub kind: Seq<char>,
}

/// Nodes of the graph by id.
pub uninterp spec fn graph_nodes(g: GraphDB) -> Map<Seq<char>, NodeFacts>;

/// Entries `(label, node id)` of the graph's label index.
pub uninterp spec fn graph_label_index(g: GraphDB) -> Set<(Seq<char>, Seq<char>)>;

/// Entries `(key, value text, node id)` of the graph's property index.
pub uninterp spec fn graph_property_index(g: GraphDB) -> Set<(Seq<char>, Seq<char>, Seq<char>)>;

/// Edges of the graph.
pub uninterp spec fn graph_edges(g: GraphDB) -> Multiset<EdgeFacts>;

/// Ids of the graph's edges.
pub uninterp spec fn graph_edge_ids(g: GraphDB) -> Set<Seq<char>>;

/// Knowledge of a library property value.
pub open spec fn prop_fact(p: Prop) -> PropFact {
    match p {
        Prop::Text(s) => PropFact::Text(s@),
        Prop::Integer(i) => PropFact::Integer(i as int),
        Prop::Flag(b) => PropFact::Flag(b),
        Prop::Value(_) => PropFact::Opaque,
    }
}

/// The text under which the property index files a value, when known.
pub open spec fn index_text(f: PropFact) -> Option<Seq<char>> {
    match f {
        PropFact::Text(s) => Some(s),
        PropFact::Integer(i) => Some(int_text(i)),
        PropFact::Flag(b) => Some(if b { "true"@ } else { "false"@ }),
        PropFact::Opaque => None,
    }
}

/// Property keys of a list are pairwise distinct.
pub open spec fn distinct_keys(props: Seq<(String, Prop)>) -> bool {
    forall|a: int, b: int| 0 <= a < b < props.len() ==> (#[trigger] props[a]).0@ != (#[trigger] props[b]).0@
}

/// The property map a node is built with.
pub open spec fn props_map(props: Seq<(String, Prop)>) -> Map<Seq<char>, PropFact> {
    Map::new(
        |k: Seq<char>| exists|i: int| 0 <= i < props.len() && (#[trigger] props[i]).0@ == k,
        |k: Seq<char>| prop_fact(props[choose|i: int| 0 <= i < props.len() && (#[trigger] props[i]).0@ == k].1),
    )
}

/// The graph holds no node, no index entry and no edge.
pub open spec fn graph_is_empty(g: GraphDB) -> bool {
    &&& graph_nodes(g) == Map::<Seq<char>, NodeFacts>::empty()
    &&& graph_label_index(g) == Set::<(Seq<char>, Seq<char>)>::empty()
    &&& graph_property_index(g) == Set::<(Seq<char>, Seq<char>, Seq<char>)>::empty()
    &&& graph_edges(g) == Multiset::<EdgeFacts>::empty()
    &&& graph_edge_ids(g) == Set::<Seq<char>>::empty()
}

/// Calls `GraphDB::new()`: an empty in-memory graph.
#[verifier::external_body]
pub(crate) fn graph_new() -> (g: GraphDB)
    ensures
        graph_is_empty(g),
{
    GraphDB::new()
}

/// Calls `GraphDB::create_node` with a node built by `NodeBuilder` from `id`,
/// one `label` and `props`. Claimed, as the source shows for a store without
/// persistent storage: the node map gets `id ↦ node` (replacing any node of
/// that id), the label index gains `(label, id)`, the property index gains an
/// entry per property (the text of a carried measurement is not stated), the
/// edges stay, and the call succeeds.
#[verifier::external_body]
pub(crate) fn graph_create_node(g: &mut GraphDB, id: String, label: &str, props: Vec<(String, Prop)>)
    -> (r: Result<(), GraphError>)
    requires
        distinct_keys(props@),
    ensures
        r.is_ok(),
        graph_nodes(*final(g)) == graph_nodes(*old(g)).insert(id@, (NodeFacts { label: label@, props: props_map(props@) })),
        graph_label_index(*final(g)) == graph_label_index(*old(g)).insert((label@, id@)),
        forall|k: Seq<char>, t: Seq<char>| props_map(props@).dom().contains(k)
            && index_text(props_map(props@)[k]) == Some(t)
            ==> #[trigger] graph_property_index(*final(g)).contains((k, t, id@)),
        forall|e: (Seq<char>, Seq<char>, Seq<char>)| #[trigger] graph_property_index(*final(g)).contains(e)
            ==> graph_property_index(*old(g)).contains(e) || (e.2 == id@ && props_map(props@).dom().contains(e.0)
                && (index_text(props_map(props@)[e.0]) is Some ==> index_text(props_map(props@)[e.0]) == Some(e.1))),
        graph_property_index(*old(g)).subset_of(graph_property_index(*final(g))),
        graph_edges(*final(g)) == graph_edges(*old(g)),
        graph_edge_ids(*final(g)) == graph_edge_ids(*old(g)),
{
    let map: std::collections::HashMap<String, PropertyValue> = props.into_iter().map(|(k, p)| (k, match p {
        Prop::Text(s) => PropertyValue::String(s),
        Prop::Integer(i) => PropertyValue::Integer(i),
        Prop::Flag(b) => PropertyValue::Boolean(b),
        Prop::Value(v) => v,
    })).collect();
    g.create_node(ruvector_graph::NodeBuilder::new().id(id).label(label).properties(map).build()).map(|_| ())
}

/// Calls `GraphDB::create_edge` with an edge built by `EdgeBuilder` from
/// `from`, `to`, `kind` and `props`, under the id `id`, which no stored edge
/// carries. Claimed, as the source shows: the call fails, changing nothing,
/// unless both endpoints are nodes; otherwise the edge is added under its
/// id, and nodes and node indexes stay.
#[verifier::external_body]
pub(crate) fn graph_create_edge(g: &mut GraphDB, id: String, from: String, to: String, kind: &str,
    props: Vec<(String, Prop)>) -> (r: Result<(), GraphError>)
    requires
        !graph_edge_ids(*old(g)).contains(id@),
    ensures
        r.is_ok() == (graph_nodes(*old(g)).dom().contains(from@) && graph_nodes(*old(g)).dom().contains(to@)),
        r.is_ok() ==> graph_edges(*final(g)) == graph_edges(*old(g)).insert((EdgeFacts { from: from@, to: to@, kind: kind@ })),
        r.is_ok() ==> graph_edge_ids(*final(g)) == graph_edge_ids(*old(g)).insert(id@),
        r.is_err() ==> graph_edges(*final(g)) == graph_edges(*old(g)),
        r.is_err() ==> graph_edge_ids(*final(g)) == graph_edge_ids(*old(g)),
        graph_nodes(*final(g)) == graph_nodes(*old(g)),
        graph_label_index(*final(g)) == graph_label_index(*old(g)),
        graph_property_index(*final(g)) == graph_property_index(*old(g)),
{
    let map: std::collections::HashMap<String, PropertyValue> = props.into_iter().map(|(k, p)| (k, match p {
        Prop::Text(s) => PropertyValue::String(s),
        Prop::Integer(i) => PropertyValue::Integer(i),
        Prop::Flag(b) => PropertyValue::Boolean(b),
        Prop::Value(v) => v,
    })).collect();
    g.create_edge(ruvector_graph::EdgeBuilder::new(from, to, kind).id(id).properties(map).build()).map(|_| ())
}

/// Calls `GraphDB::get_node(id).is_some()`: whether a node of that id exists.
#[verifier::external_body]
pub(crate) fn graph_has_node(g: &GraphDB, id: &str) -> (r: bool)
    ensures
        r == graph_nodes(*g).dom().contains(id@),
{
    g.get_node(id).is_some()
}

/// Calls `GraphDB::get_nodes_by_label` and keeps the node ids. Claimed, as
/// the source shows: each id once (the index holds a set), exactly the ids
/// filed under `label` in the label index that name a stored node.
#[verifier::external_body]
pub(crate) fn graph_ids_with_label(g: &GraphDB, label: &str) -> (r: Vec<String>)
    ensures
        forall|a: int, b: int| 0 <= a < b < r@.len() ==> (#[trigger] r@[a])@ != (#[trigger] r@[b])@,
        forall|k: int| 0 <= k < r@.len() ==> graph_label_index(*g).contains((label@, (#[trigger] r@[k])@))
            && graph_nodes(*g).dom().contains(r@[k]@),
        forall|id: Seq<char>| graph_label_index(*g).contains((label@, id)) && graph_nodes(*g).dom().contains(id)
            ==> exists|k: int| 0 <= k < r@.len() && (#[trigger] r@[k])@ == id,
{
    g.get_nodes_by_label(label).into_iter().map(|n| n.id).collect()
}

/// Calls `GraphDB::get_nodes_by_property(key, &PropertyValue::Boolean(value))`
/// and keeps the node ids. Claimed, as the source shows: each id once,
/// exactly the ids filed under `(key, "true"/"false")` in the property index
/// that name a stored node.
#[verifier::external_body]
pub(crate) fn graph_ids_with_flag(g: &GraphDB, key: &str, value: bool) -> (r: Vec<String>)
    ensures
        forall|a: int, b: int| 0 <= a < b < r@.len() ==> (#[trigger] r@[a])@ != (#[trigger] r@[b])@,
        forall|k: int| 0 <= k < r@.len() ==> graph_property_index(*g).contains((key@,
            index_text(PropFact::Flag(value)).unwrap(), (#[trigger] r@[k])@)) && graph_nodes(*g).dom().contains(r@[k]@),
        forall|id: Seq<char>| graph_property_index(*g).contains((key@, index_text(PropFact::Flag(value)).unwrap(), id))
            && graph_nodes(*g).dom().contains(id) ==> exists|k: int| 0 <= k < r@.len() && (#[trigger] r@[k])@ == id,
{
    g.get_nodes_by_property(key, &PropertyValue::Boolean(value)).into_iter().map(|n| n.id).collect()
}

/// Calls `GraphDB::get_node(id)` and `Node::get_property(key)`, handing the
/// value back as a `Prop` (string, integer and boolean values by variant,
/// any other value carried). Claimed: `None` exactly when the node or the
/// key is missing; a known property comes back as stored.
#[verifier::external_body]
pub(crate) fn graph_node_property(g: &GraphDB, id: &str, key: &str) -> (r: Option<Prop>)
    ensures
        r.is_none() == !(graph_nodes(*g).dom().contains(id@) && graph_nodes(*g)[id@].props.dom().contains(key@)),
        r matches Some(p) ==> (graph_nodes(*g)[id@].props[key@] is Opaque || prop_fact(p) == graph_nodes(*g)[id@].props[key@]),
{
    g.get_node(id).and_then(|n| n.get_property(key).cloned()).map(|v| match v {
        PropertyValue::String(s) => Prop::Text(s),
        PropertyValue::Integer(i) => Prop::Integer(i),
        PropertyValue::Boolean(b) => Prop::Flag(b),
        other => Prop::Value(other),
    })
}

/// Calls `GraphDB::get_node(id)` and `Node::has_label(label)`. Claimed: true
/// exactly when the node exists and carries that label.
#[verifier::external_body]
pub(crate) fn graph_node_has_label(g: &GraphDB, id: &str, label: &str) -> (r: bool)
    ensures
        r == (graph_nodes(*g).dom().contains(id@) && graph_nodes(*g)[id@].label == label@),
{
    g.get_node(id).is_some_and(|n| n.has_label(label))
}

/// Calls `GraphDB::get_node(id)` and `Node::get_property(key)` and, when the
/// stored value is a float, formats it with `decimals` fractional digits
/// (`{:.N}`). Claimed: `Some` only for a property that exists and is a
/// carried value (the library writes floats only as such); the digits
/// depend on that value, which Verus does not see, and are not stated.
#[verifier::external_body]
pub(crate) fn graph_float_text(g: &GraphDB, id: &str, key: &str, decimals: usize) -> (r: Option<String>)
    ensures
        r is Some ==> graph_nodes(*g).dom().contains(id@) && graph_nodes(*g)[id@].props.dom().contains(key@)
            && graph_nodes(*g)[id@].props[key@] is Opaque,
{
    match g.get_node(id).and_then(|n| n.get_property(key).cloned()) {
        Some(PropertyValue::Float(f)) => Some(format!("{:.*}", decimals, f)),
        _ => None,
    }
}

/// Number of times `(to, kind)` occurs in `r`.
pub open spec fn pair_count(r: Seq<(String, String)>, to: Seq<char>, kind: Seq<char>) -> nat
    decreases r.len(),
{
    if r.len() == 0 {
        0
    } else {
        pair_count(r.drop_last(), to, kind) + if r.last().0@ == to && r.last().1@ == kind { 1nat } else { 0nat }
    }
}

/// Calls `GraphDB::get_outgoing_edges(id)` and keeps each edge's target and
/// type. Claimed: every stored edge leaving `id` comes back once, in an
/// order the store does not fix.
#[verifier::external_body]
pub(crate) fn graph_outgoing(g: &GraphDB, id: &str) -> (r: Vec<(String, String)>)
    ensures
        forall|to: Seq<char>, kind: Seq<char>| #[trigger] pair_count(r@, to, kind)
            == graph_edges(*g).count((EdgeFacts { from: id@, to: to, kind: kind })),
{
    g.get_outgoing_edges(&id.to_string()).into_iter().map(|e| (e.to, e.edge_type)).collect()
}

/// Calls `GraphDB::node_count()`: the number of stored nodes.
#[verifier::external_body]
pub(crate) fn graph_node_count(g: &GraphDB) -> (r: usize)
    ensures
        r == graph_nodes(*g).dom().len(),
{
    g.node_count()
}

/// Calls `GraphDB::edge_count()`: the number of stored edges.
#[verifier::external_body]
pub(crate) fn graph_edge_count(g: &GraphDB) -> (r: usize)
    ensures
        r == graph_edges(*g).len(),
{
    g.edge_count()
}

} // verus!
