use mlmdquery::error::GraphError;
use mlmdquery::graph::{Edge, Node, NodeId};
use mlmdquery::metadata::{Artifact, Event, EventStep, EventType, Execution};
use mlmdquery::snapshot::Snapshot;
use mlmdquery::traversal::{
    find_node, get_edges, get_node, has_edge, is_adjacent, Policy, Traversal,
};

fn artifact(id: i32, type_id: i32) -> Node {
    Node::Artifact(Artifact { id, type_id })
}

fn execution(id: i32, type_id: i32) -> Node {
    Node::Execution(Execution { id, type_id })
}

fn event(artifact_id: i32, execution_id: i32, ty: EventType) -> Event {
    Event { artifact_id, execution_id, ty, path: Vec::new(), create_time_ms: 0 }
}

fn ids_of(nodes: &[Node]) -> Vec<NodeId> {
    let mut ids: Vec<NodeId> = nodes.iter().map(|n| n.id()).collect();
    ids.sort_by_key(|id| (id.kind() as u8, id.number()));
    ids
}

/// Two steps of a pipeline: artifact 1 goes into execution 10, which gives
/// artifact 2, which goes into execution 20, which gives artifact 3.
fn chain() -> Snapshot {
    Snapshot {
        nodes: vec![
            artifact(1, 7),
            artifact(2, 7),
            artifact(3, 8),
            execution(10, 5),
            execution(20, 5),
        ],
        events: vec![
            event(1, 10, EventType::Input),
            event(2, 10, EventType::Output),
            event(2, 20, EventType::DeclaredInput),
            event(3, 20, EventType::DeclaredOutput),
        ],
    }
}

#[test]
fn cycle_is_walked_once() {
    let store = Snapshot {
        nodes: vec![artifact(1, 7), execution(10, 5)],
        events: vec![event(1, 10, EventType::Input), event(1, 10, EventType::Output)],
    };
    let found = store.discover(NodeId::Artifact(1), Policy::Lineage).unwrap();
    assert_eq!(found.nodes().len(), 2);
    assert_eq!(ids_of(found.nodes()), vec![NodeId::Artifact(1), NodeId::Execution(10)]);
    assert_eq!(found.edges().len(), 2);
}

#[test]
fn two_events_that_differ_in_type_are_two_edges() {
    let store = Snapshot {
        nodes: vec![artifact(1, 7), execution(10, 5)],
        events: vec![event(1, 10, EventType::Output), event(1, 10, EventType::Input)],
    };
    let found = store.discover(NodeId::Artifact(1), Policy::Lineage).unwrap();
    let edges = found.edges();
    assert_eq!(edges.len(), 2);
    assert_eq!(edges[0].event(), &event(1, 10, EventType::Input));
    assert_eq!(edges[1].event(), &event(1, 10, EventType::Output));
    assert_eq!(found.nodes(), &vec![artifact(1, 7), execution(10, 5)]);
    assert_eq!(found.origin(), NodeId::Artifact(1));
}

#[test]
fn same_event_met_twice_is_one_edge() {
    let store = Snapshot {
        nodes: vec![artifact(1, 7), execution(10, 5)],
        events: vec![
            event(1, 10, EventType::Input),
            event(1, 10, EventType::Input),
            event(1, 10, EventType::Output),
        ],
    };
    let found = store.discover(NodeId::Artifact(1), Policy::Lineage).unwrap();
    assert_eq!(found.edges().len(), 2);
}

#[test]
fn unknown_origin_is_not_found() {
    let store = chain();
    let failed = store.discover(NodeId::Artifact(999), Policy::Lineage);
    assert_eq!(failed.err(), Some(GraphError::NotFound(NodeId::Artifact(999))));
    let failed = store.discover(NodeId::Execution(999), Policy::Io);
    assert_eq!(failed.err(), Some(GraphError::NotFound(NodeId::Execution(999))));
}

#[test]
fn missing_record_on_the_way_is_not_found() {
    let mut store = chain();
    store.nodes.retain(|n| n.id() != NodeId::Execution(20));
    let failed = store.discover(NodeId::Artifact(1), Policy::Lineage);
    assert_eq!(failed.err(), Some(GraphError::NotFound(NodeId::Execution(20))));
}

#[test]
fn record_held_twice_is_not_found() {
    let mut store = chain();
    store.nodes.push(artifact(1, 9));
    let failed = store.discover(NodeId::Artifact(1), Policy::Lineage);
    assert_eq!(failed.err(), Some(GraphError::NotFound(NodeId::Artifact(1))));
}

#[test]
fn not_found_message() {
    assert_eq!(GraphError::NotFound(NodeId::Artifact(999)).message(), "no such artifact: 999");
    assert_eq!(GraphError::NotFound(NodeId::Execution(-4)).message(), "no such execution: -4");
}

#[test]
fn lineage_goes_through_two_executions() {
    let store = chain();
    let found = store.discover(NodeId::Artifact(1), Policy::Lineage).unwrap();
    assert_eq!(
        ids_of(found.nodes()),
        vec![
            NodeId::Artifact(1),
            NodeId::Artifact(2),
            NodeId::Artifact(3),
            NodeId::Execution(10),
            NodeId::Execution(20),
        ]
    );
    assert_eq!(found.edges().len(), 4);
}

#[test]
fn lineage_from_the_middle_goes_downstream_only() {
    let store = chain();
    let found = store.discover(NodeId::Artifact(2), Policy::Lineage).unwrap();
    assert_eq!(
        ids_of(found.nodes()),
        vec![NodeId::Artifact(2), NodeId::Artifact(3), NodeId::Execution(20)]
    );
    assert_eq!(found.edges().len(), 2);
}

#[test]
fn io_keeps_to_one_execution() {
    let store = chain();
    let found = store.discover(NodeId::Execution(10), Policy::Io).unwrap();
    assert_eq!(
        ids_of(found.nodes()),
        vec![NodeId::Artifact(1), NodeId::Artifact(2), NodeId::Execution(10)]
    );
    let executions: Vec<NodeId> =
        found.nodes().iter().map(|n| n.id()).filter(|id| matches!(id, NodeId::Execution(_))).collect();
    assert_eq!(executions, vec![NodeId::Execution(10)]);
    assert_eq!(found.edges().len(), 2);
}

#[test]
fn io_from_an_artifact_is_the_artifact_alone() {
    let store = chain();
    let found = store.discover(NodeId::Artifact(2), Policy::Io).unwrap();
    assert_eq!(found.nodes(), &vec![artifact(2, 7)]);
    assert_eq!(found.edges().len(), 0);
}

#[test]
fn events_of_unknown_type_are_no_edges() {
    let store = Snapshot {
        nodes: vec![artifact(1, 7), execution(10, 5)],
        events: vec![event(1, 10, EventType::Unknown)],
    };
    let found = store.discover(NodeId::Execution(10), Policy::Io).unwrap();
    assert_eq!(found.nodes(), &vec![execution(10, 5)]);
    assert_eq!(found.edges().len(), 0);
    let found = store.discover(NodeId::Artifact(1), Policy::Lineage).unwrap();
    assert_eq!(found.nodes(), &vec![artifact(1, 7)]);
}

#[test]
fn every_end_of_an_edge_is_a_node() {
    let store = chain();
    for (origin, policy) in [
        (NodeId::Artifact(1), Policy::Lineage),
        (NodeId::Execution(10), Policy::Lineage),
        (NodeId::Execution(20), Policy::Io),
    ] {
        let found = store.discover(origin, policy).unwrap();
        for edge in found.edges() {
            assert!(find_node(found.nodes(), edge.from_node()).is_some());
            assert!(find_node(found.nodes(), edge.to_node()).is_some());
        }
        assert!(find_node(found.nodes(), origin).is_some());
    }
}

#[test]
fn edge_runs_from_input_artifact_to_execution() {
    for ty in [EventType::Input, EventType::DeclaredInput, EventType::InternalInput] {
        let edge = Edge::new(event(3, 4, ty));
        assert_eq!(edge.from_node(), NodeId::Artifact(3));
        assert_eq!(edge.to_node(), NodeId::Execution(4));
    }
}

#[test]
fn edge_runs_from_execution_to_output_artifact() {
    for ty in [EventType::Output, EventType::DeclaredOutput, EventType::InternalOutput] {
        let edge = Edge::new(event(3, 4, ty));
        assert_eq!(edge.from_node(), NodeId::Execution(4));
        assert_eq!(edge.to_node(), NodeId::Artifact(3));
    }
}

#[test]
fn adjacency_by_policy() {
    let input = event(1, 10, EventType::InternalInput);
    let output = event(1, 10, EventType::InternalOutput);
    let unknown = event(1, 10, EventType::Unknown);
    assert!(is_adjacent(Policy::Lineage, NodeId::Artifact(1), &input));
    assert!(!is_adjacent(Policy::Lineage, NodeId::Artifact(1), &output));
    assert!(!is_adjacent(Policy::Lineage, NodeId::Artifact(2), &input));
    assert!(is_adjacent(Policy::Lineage, NodeId::Execution(10), &output));
    assert!(!is_adjacent(Policy::Lineage, NodeId::Execution(10), &input));
    assert!(!is_adjacent(Policy::Io, NodeId::Artifact(1), &input));
    assert!(!is_adjacent(Policy::Io, NodeId::Artifact(1), &output));
    assert!(is_adjacent(Policy::Io, NodeId::Execution(10), &input));
    assert!(is_adjacent(Policy::Io, NodeId::Execution(10), &output));
    assert!(!is_adjacent(Policy::Io, NodeId::Execution(11), &output));
    assert!(!is_adjacent(Policy::Io, NodeId::Execution(10), &unknown));
    assert!(!is_adjacent(Policy::Lineage, NodeId::Execution(10), &unknown));
    assert!(!is_adjacent(Policy::Lineage, NodeId::Artifact(1), &unknown));
}

#[test]
fn policy_says_where_edges_can_be() {
    assert!(Policy::Lineage.follows(NodeId::Artifact(1)));
    assert!(Policy::Lineage.follows(NodeId::Execution(1)));
    assert!(Policy::Io.follows(NodeId::Execution(1)));
    assert!(!Policy::Io.follows(NodeId::Artifact(1)));
}

#[test]
fn get_edges_keeps_order() {
    let events = vec![
        event(1, 10, EventType::Output),
        event(1, 10, EventType::Input),
        event(2, 10, EventType::Input),
        event(1, 11, EventType::DeclaredInput),
    ];
    let edges = get_edges(Policy::Lineage, NodeId::Artifact(1), events);
    assert_eq!(edges.len(), 2);
    assert_eq!(edges[0].event(), &event(1, 10, EventType::Input));
    assert_eq!(edges[1].event(), &event(1, 11, EventType::DeclaredInput));
}

#[test]
fn get_node_wants_one_record() {
    let id = NodeId::Artifact(1);
    assert_eq!(get_node(id, &vec![artifact(1, 7)]), Ok(artifact(1, 7)));
    assert_eq!(get_node(id, &vec![]), Err(GraphError::NotFound(id)));
    assert_eq!(get_node(id, &vec![artifact(1, 7), artifact(1, 7)]), Err(GraphError::NotFound(id)));
    assert_eq!(get_node(id, &vec![artifact(2, 7)]), Err(GraphError::NotFound(id)));
    assert_eq!(get_node(id, &vec![execution(1, 7)]), Err(GraphError::NotFound(id)));
}

#[test]
fn search_step_by_step() {
    let mut search = Traversal::new(NodeId::Artifact(1), Policy::Lineage);
    assert_eq!(search.origin(), NodeId::Artifact(1));
    assert_eq!(search.policy(), Policy::Lineage);
    assert_eq!(search.next(), Some(NodeId::Artifact(1)));
    assert_eq!(search.next(), Some(NodeId::Artifact(1)));
    // A node that the search does not wait for is not taken in.
    assert!(!search.visit(execution(10, 5), vec![event(1, 10, EventType::Output)]));
    assert_eq!(search.nodes().len(), 0);
    assert!(search.visit(artifact(1, 7), vec![event(1, 10, EventType::Input)]));
    assert_eq!(search.nodes(), &vec![artifact(1, 7)]);
    assert_eq!(search.edges().len(), 1);
    // Nor is a node taken in twice.
    assert!(!search.visit(artifact(1, 7), vec![event(1, 11, EventType::Input)]));
    assert_eq!(search.edges().len(), 1);
    assert_eq!(search.next(), Some(NodeId::Execution(10)));
    assert!(search.visit(execution(10, 5), vec![event(1, 10, EventType::Input)]));
    assert_eq!(search.edges().len(), 1);
    assert_eq!(search.next(), None);
    let found = search.finish().unwrap();
    assert_eq!(found.nodes(), &vec![artifact(1, 7), execution(10, 5)]);
    assert_eq!(found.policy(), Policy::Lineage);
}

#[test]
fn search_is_not_finished_while_a_node_waits() {
    let mut search = Traversal::new(NodeId::Execution(10), Policy::Io);
    assert!(search.visit(execution(10, 5), vec![event(1, 10, EventType::Input)]));
    assert!(search.finish().is_none());
    let search = Traversal::new(NodeId::Execution(10), Policy::Io);
    assert!(search.finish().is_none());
}

#[test]
fn events_of_another_node_are_passed_over() {
    let mut search = Traversal::new(NodeId::Execution(10), Policy::Io);
    let events = vec![event(1, 11, EventType::Input), event(2, 10, EventType::Output)];
    assert!(search.visit(execution(10, 5), events));
    assert_eq!(search.edges().len(), 1);
    assert_eq!(search.next(), Some(NodeId::Artifact(2)));
}

#[test]
fn snapshot_answers_by_key() {
    let store = chain();
    assert_eq!(store.get_nodes(NodeId::Artifact(2)), vec![artifact(2, 7)]);
    assert_eq!(store.get_nodes(NodeId::Execution(2)), vec![]);
    assert_eq!(
        store.get_events(NodeId::Artifact(2)),
        vec![event(2, 10, EventType::Output), event(2, 20, EventType::DeclaredInput)]
    );
    assert_eq!(
        store.get_events(NodeId::Execution(20)),
        vec![event(2, 20, EventType::DeclaredInput), event(3, 20, EventType::DeclaredOutput)]
    );
}

#[test]
fn events_are_compared_field_by_field() {
    let base = Event {
        artifact_id: 1,
        execution_id: 2,
        ty: EventType::Input,
        path: vec![EventStep::Index(0), EventStep::Key("a".to_string())],
        create_time_ms: 5,
    };
    assert!(base.same(&base.copy()));
    let mut other = base.copy();
    other.create_time_ms = 6;
    assert!(!base.same(&other));
    let mut other = base.copy();
    other.path[1] = EventStep::Key("b".to_string());
    assert!(!base.same(&other));
    let mut other = base.copy();
    other.path.pop();
    assert!(!base.same(&other));
    let mut other = base.copy();
    other.ty = EventType::Output;
    assert!(!base.same(&other));
    assert!(EventStep::Index(1).same(&EventStep::Index(1)));
    assert!(!EventStep::Index(1).same(&EventStep::Key("1".to_string())));
    let edges = vec![Edge::new(base.copy())];
    assert!(has_edge(&edges, &base));
    assert!(!has_edge(&edges, &other));
}
