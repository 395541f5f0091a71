use mlmdquery::error::GraphError;
use mlmdquery::graph::{Node, NodeId, Type};
use mlmdquery::legend::{copy_type, find_type, insert_sorted, sorted_type_ids, Color, Legend};
use mlmdquery::metadata::{
    Artifact, ArtifactType, Event, EventStep, EventType, Execution, ExecutionType, Kind,
};
use mlmdquery::render::Graph;
use mlmdquery::snapshot::Snapshot;
use mlmdquery::traversal::{Discovery, Policy};

const WHITE: Color = Color { red: 255, green: 255, blue: 255 };
const SILVER: Color = Color { red: 188, green: 188, blue: 188 };
const GRAY: Color = Color { red: 128, green: 128, blue: 128 };

fn artifact(id: i32, type_id: i32) -> Node {
    Node::Artifact(Artifact { id, type_id })
}

fn execution(id: i32, type_id: i32) -> Node {
    Node::Execution(Execution { id, type_id })
}

fn event(artifact_id: i32, execution_id: i32, ty: EventType) -> Event {
    Event { artifact_id, execution_id, ty, path: Vec::new(), create_time_ms: 0 }
}

fn artifact_type(id: i32, name: &str) -> Type {
    Type::Artifact(ArtifactType { id, name: name.to_string() })
}

fn execution_type(id: i32, name: &str) -> Type {
    Type::Execution(ExecutionType { id, name: name.to_string() })
}

fn count(text: &str, part: &str) -> usize {
    text.matches(part).count()
}

fn two_nodes() -> Discovery {
    let store = Snapshot {
        nodes: vec![artifact(1, 7), execution(10, 3)],
        events: vec![event(1, 10, EventType::Output), event(1, 10, EventType::Input)],
    };
    store.discover(NodeId::Artifact(1), Policy::Lineage).unwrap()
}

fn pipeline(order: &[usize]) -> Discovery {
    let records = [
        artifact(1, 30),
        execution(10, 4),
        artifact(2, 10),
        artifact(3, 20),
        execution(20, 2),
        artifact(4, 10),
    ];
    let events = [
        event(1, 10, EventType::Input),
        event(2, 10, EventType::Output),
        event(3, 10, EventType::Output),
        event(2, 20, EventType::Input),
        event(4, 20, EventType::Output),
    ];
    let store = Snapshot {
        nodes: records.to_vec(),
        events: order.iter().map(|i| events[*i].copy()).collect(),
    };
    store.discover(NodeId::Artifact(1), Policy::Lineage).unwrap()
}

fn pipeline_types() -> Vec<Type> {
    vec![
        execution_type(4, "Train"),
        artifact_type(20, "Model"),
        artifact_type(10, "Examples"),
        execution_type(2, "Ingest"),
        artifact_type(30, "Report"),
    ]
}

#[test]
fn end_to_end() {
    let graph = Graph::new(
        two_nodes(),
        vec![execution_type(3, "Trainer"), artifact_type(7, "Model")],
        vec![WHITE],
        vec![GRAY],
        None,
    )
    .unwrap();
    let document = graph.generate(&vec!["a".to_string(), "b".to_string()]).unwrap();
    let expected = "digraph artifact_lineage_graph {\n\
        \x20 concentrate=true;\n\
        \x20 \"1@artifact\" [label=\"1\",shape=\"ellipse\",style=\"bold,dashed,filled\",tooltip=\"a\",fillcolor=\"#ffffff\",URL=\"\"];\n\
        \x20 \"10@execution\" [label=\"10\",shape=\"box\",style=\"solid,filled\",tooltip=\"b\",fillcolor=\"#808080\",URL=\"\"];\n\
        \x20 \"1@artifact\" -> \"10@execution\" [label=\"\"];\n\
        \x20 \"10@execution\" -> \"1@artifact\" [label=\"\"];\n\
        \x20 subgraph cluster_artifact_legend {\n\
        \x20   label = \"Artifact Legend\";\n\
        \x20   \"Model\"[shape=\"ellipse\",style=filled,fillcolor=\"#ffffff\"];\n\
        \x20 }\n\
        \x20 subgraph cluster_execution_legend {\n\
        \x20   label = \"Execution Legend\";\n\
        \x20   \"Trainer\"[shape=\"box\",style=filled,fillcolor=\"#808080\"];\n\
        \x20 }\n\
        }\n";
    assert_eq!(document, expected);
    assert_eq!(count(&document, " [label=\"1"), 2);
    assert_eq!(count(&document, " -> "), 2);
    assert_eq!(count(&document, "style=filled"), 2);
    assert_eq!(count(&document, "penwidth"), 0);
}

#[test]
fn document_with_urls_labels_and_chained_legend() {
    let store = Snapshot {
        nodes: vec![artifact(1, 7), execution(10, 3), artifact(2, 9)],
        events: vec![
            Event {
                artifact_id: 1,
                execution_id: 10,
                ty: EventType::Input,
                path: vec![EventStep::Key("in".to_string()), EventStep::Index(0)],
                create_time_ms: 1,
            },
            event(2, 10, EventType::DeclaredOutput),
        ],
    };
    let found = store.discover(NodeId::Execution(10), Policy::Io).unwrap();
    let graph = Graph::new(
        found,
        vec![artifact_type(9, "Mo\"del"), artifact_type(7, "Data"), execution_type(3, "Run")],
        vec![WHITE, GRAY],
        vec![SILVER],
        Some("http://h/{node_type}/{id}".to_string()),
    )
    .unwrap();
    assert_eq!(graph.origin(), NodeId::Execution(10));
    assert_eq!(graph.nodes(), &vec![execution(10, 3), artifact(2, 9), artifact(1, 7)]);
    let tooltips = vec!["{\n  \"id\": 10\n}".to_string(), "two".to_string(), "one".to_string()];
    let document = graph.generate(&tooltips).unwrap();
    let expected = "digraph artifact_lineage_graph {\n\
        \x20 concentrate=true;\n\
        \x20 \"10@execution\" [label=\"10\",shape=\"box\",style=\"bold,dashed,filled\",tooltip=\"{\\n  \\\"id\\\": 10\\n}\",fillcolor=\"#bcbcbc\",URL=\"http://h/execution/10\"];\n\
        \x20 \"2@artifact\" [label=\"2\",shape=\"ellipse\",style=\"solid,filled\",tooltip=\"two\",fillcolor=\"#808080\",URL=\"http://h/artifact/2\"];\n\
        \x20 \"1@artifact\" [label=\"1\",shape=\"ellipse\",style=\"solid,filled\",tooltip=\"one\",fillcolor=\"#ffffff\",URL=\"http://h/artifact/1\"];\n\
        \x20 \"1@artifact\" -> \"10@execution\" [label=\"[\\\"in\\\",0]\"];\n\
        \x20 \"10@execution\" -> \"2@artifact\" [label=\"\"];\n\
        \x20 subgraph cluster_artifact_legend {\n\
        \x20   label = \"Artifact Legend\";\n\
        \x20   \"Data\"[shape=\"ellipse\",style=filled,fillcolor=\"#ffffff\"];\n\
        \x20   \"Mo\\\"del\"[shape=\"ellipse\",style=filled,fillcolor=\"#808080\"];\n\
        \x20   \"Data\" -> \"Mo\\\"del\"[penwidth=0,arrowhead=none];\n\
        \x20 }\n\
        \x20 subgraph cluster_execution_legend {\n\
        \x20   label = \"Execution Legend\";\n\
        \x20   \"Run\"[shape=\"box\",style=filled,fillcolor=\"#bcbcbc\"];\n\
        \x20 }\n\
        }\n";
    assert_eq!(document, expected);
}

#[test]
fn document_from_given_texts() {
    let graph = Graph::new(
        two_nodes(),
        vec![execution_type(3, "Trainer"), artifact_type(7, "Model")],
        vec![WHITE],
        vec![GRAY],
        None,
    )
    .unwrap();
    let tooltips = vec!["a".to_string(), "b".to_string()];
    let urls = vec!["u1".to_string(), "u2".to_string()];
    let labels = vec!["x".to_string(), "y".to_string()];
    let document = graph.document(&tooltips, &urls, &labels).unwrap();
    assert!(document.contains("tooltip=\"a\",fillcolor=\"#ffffff\",URL=\"u1\"];\n"));
    assert!(document.contains("tooltip=\"b\",fillcolor=\"#808080\",URL=\"u2\"];\n"));
    assert!(document.contains("  \"1@artifact\" -> \"10@execution\" [label=\"x\"];\n"));
    assert!(document.contains("  \"10@execution\" -> \"1@artifact\" [label=\"y\"];\n"));
    assert_eq!(graph.document(&tooltips, &urls, &vec![]), Err(GraphError::Attributes));
    assert_eq!(graph.document(&tooltips, &vec![], &labels), Err(GraphError::Attributes));
    assert_eq!(graph.document(&vec![], &urls, &labels), Err(GraphError::Attributes));
}

#[test]
fn tooltips_must_be_one_per_node() {
    let graph = Graph::new(
        two_nodes(),
        vec![execution_type(3, "Trainer"), artifact_type(7, "Model")],
        vec![WHITE],
        vec![GRAY],
        None,
    )
    .unwrap();
    assert_eq!(graph.generate(&vec!["a".to_string()]), Err(GraphError::Attributes));
    assert_eq!(graph.generate(&vec![]), Err(GraphError::Attributes));
}

#[test]
fn template_failure_fails_the_rendering() {
    let tooltips = vec!["a".to_string(), "b".to_string()];
    for text in ["{{ if id }}", "{id", "{nothing}"] {
        let graph = Graph::new(
            two_nodes(),
            vec![execution_type(3, "Trainer"), artifact_type(7, "Model")],
            vec![WHITE],
            vec![GRAY],
            Some(text.to_string()),
        )
        .unwrap();
        assert!(matches!(graph.generate(&tooltips), Err(GraphError::Template(_))));
    }
}

#[test]
fn missing_type_fails_the_graph() {
    let failed = Graph::new(two_nodes(), vec![execution_type(3, "T")], vec![WHITE], vec![GRAY], None);
    assert_eq!(failed.err(), Some(GraphError::MissingType(Kind::Artifact, 7)));
    let failed = Graph::new(two_nodes(), vec![artifact_type(7, "M")], vec![WHITE], vec![GRAY], None);
    assert_eq!(failed.err(), Some(GraphError::MissingType(Kind::Execution, 3)));
    // A type of the other kind with the same id does not count.
    let failed = Graph::new(
        two_nodes(),
        vec![artifact_type(7, "M"), artifact_type(3, "N")],
        vec![WHITE],
        vec![GRAY],
        None,
    );
    assert_eq!(failed.err(), Some(GraphError::MissingType(Kind::Execution, 3)));
}

#[test]
fn colours_must_be_one_per_type() {
    let types = vec![execution_type(3, "T"), artifact_type(7, "M")];
    let failed = Graph::new(two_nodes(), types.clone(), vec![], vec![GRAY], None);
    assert_eq!(failed.err(), Some(GraphError::ColorCount(Kind::Artifact)));
    let failed = Graph::new(two_nodes(), types.clone(), vec![WHITE, GRAY], vec![GRAY], None);
    assert_eq!(failed.err(), Some(GraphError::ColorCount(Kind::Artifact)));
    let failed = Graph::new(two_nodes(), types.clone(), vec![WHITE], vec![], None);
    assert_eq!(failed.err(), Some(GraphError::ColorCount(Kind::Execution)));
    let failed = Graph::new(two_nodes(), types, vec![WHITE], vec![WHITE, GRAY], None);
    assert_eq!(failed.err(), Some(GraphError::ColorCount(Kind::Execution)));
}

#[test]
fn legend_holds_the_types_of_the_nodes() {
    let found = pipeline(&[0, 1, 2, 3, 4]);
    let mut types = pipeline_types();
    types.push(artifact_type(99, "Unused"));
    types.push(execution_type(10, "Not an artifact type"));
    let graph = Graph::new(found, types, vec![WHITE, SILVER, GRAY], vec![WHITE, GRAY], None).unwrap();
    let legend = graph.legend();
    assert_eq!(
        legend.entries(),
        &vec![
            artifact_type(10, "Examples"),
            artifact_type(20, "Model"),
            artifact_type(30, "Report"),
            execution_type(2, "Ingest"),
            execution_type(4, "Train"),
        ]
    );
    assert_eq!(legend.palette(), &vec![WHITE, SILVER, GRAY, WHITE, GRAY]);
    let tooltips = vec![String::new(); 6];
    let document = graph.generate(&tooltips).unwrap();
    assert_eq!(count(&document, "[shape=\"ellipse\",style=filled"), 3);
    assert_eq!(count(&document, "[shape=\"box\",style=filled"), 2);
    assert_eq!(count(&document, "penwidth=0"), 3);
    assert!(document.contains("    \"Examples\" -> \"Model\"[penwidth=0,arrowhead=none];\n"));
    assert!(document.contains("    \"Model\" -> \"Report\"[penwidth=0,arrowhead=none];\n"));
    assert!(document.contains("    \"Ingest\" -> \"Train\"[penwidth=0,arrowhead=none];\n"));
    assert!(!document.contains("Unused"));
}

#[test]
fn colours_do_not_depend_on_the_order_of_discovery() {
    let first = pipeline(&[0, 1, 2, 3, 4]);
    let second = pipeline(&[4, 3, 2, 1, 0]);
    // Another graph whose nodes have the same types.
    let third = Snapshot {
        nodes: vec![execution(7, 2), execution(8, 4), artifact(5, 20), artifact(6, 30), artifact(9, 10)],
        events: vec![
            event(5, 7, EventType::Input),
            event(6, 7, EventType::Output),
            event(6, 8, EventType::Input),
            event(9, 8, EventType::Output),
        ],
    }
    .discover(NodeId::Artifact(5), Policy::Lineage)
    .unwrap();
    assert_eq!(third.nodes().len(), 5);
    assert_ne!(first.nodes(), second.nodes());
    let mut colours = Vec::new();
    for found in [first, second, third] {
        let mut types = pipeline_types();
        types.reverse();
        let graph =
            Graph::new(found, types, vec![WHITE, SILVER, GRAY], vec![SILVER, GRAY], None).unwrap();
        let legend = graph.legend();
        colours.push((
            legend.color_of(Kind::Artifact, 10),
            legend.color_of(Kind::Artifact, 20),
            legend.color_of(Kind::Artifact, 30),
            legend.color_of(Kind::Execution, 2),
            legend.color_of(Kind::Execution, 4),
            legend.color_of(Kind::Execution, 10),
        ));
    }
    assert_eq!(
        colours[0],
        (Some(WHITE), Some(SILVER), Some(GRAY), Some(SILVER), Some(GRAY), None)
    );
    assert_eq!(colours[0], colours[1]);
    assert_eq!(colours[0], colours[2]);
}

#[test]
fn a_type_id_may_stand_in_both_legends() {
    let store = Snapshot {
        nodes: vec![artifact(1, 5), execution(10, 5)],
        events: vec![event(1, 10, EventType::Input)],
    };
    let found = store.discover(NodeId::Artifact(1), Policy::Lineage).unwrap();
    let graph = Graph::new(
        found,
        vec![artifact_type(5, "Data"), execution_type(5, "Step")],
        vec![WHITE],
        vec![GRAY],
        None,
    )
    .unwrap();
    let legend = graph.legend();
    assert_eq!(legend.color_of(Kind::Artifact, 5), Some(WHITE));
    assert_eq!(legend.color_of(Kind::Execution, 5), Some(GRAY));
    assert_eq!(legend.name_of(Kind::Artifact, 5), Some("Data"));
    assert_eq!(legend.name_of(Kind::Execution, 5), Some("Step"));
    assert_eq!(legend.name_of(Kind::Execution, 6), None);
    let nodes = graph.nodes();
    assert_eq!(nodes[0].color(legend), Some("#ffffff".to_string()));
    assert_eq!(nodes[1].color(legend), Some("#808080".to_string()));
    assert_eq!(nodes[0].name_of_type(legend), Some("Data"));
    assert_eq!(artifact(9, 6).color(legend), None);
    assert_eq!(artifact(9, 6).name_of_type(legend), None);
}

#[test]
fn the_type_given_last_counts() {
    let types = vec![artifact_type(7, "Old"), execution_type(3, "Run"), artifact_type(7, "New")];
    let graph = Graph::new(two_nodes(), types, vec![WHITE], vec![GRAY], None).unwrap();
    assert_eq!(graph.legend().name_of(Kind::Artifact, 7), Some("New"));
}

#[test]
fn type_ids_are_sorted_and_distinct() {
    let nodes = vec![
        artifact(1, 30),
        execution(2, 7),
        artifact(3, 10),
        artifact(4, 30),
        artifact(5, -2),
        execution(6, 7),
    ];
    assert_eq!(sorted_type_ids(&nodes, Kind::Artifact), vec![-2, 10, 30]);
    assert_eq!(sorted_type_ids(&nodes, Kind::Execution), vec![7]);
    assert_eq!(sorted_type_ids(&vec![], Kind::Execution), Vec::<i32>::new());
    let mut list = vec![1, 3, 5];
    insert_sorted(&mut list, 4);
    insert_sorted(&mut list, 0);
    insert_sorted(&mut list, 6);
    insert_sorted(&mut list, 3);
    assert_eq!(list, vec![0, 1, 3, 4, 5, 6]);
}

#[test]
fn legend_of_nodes() {
    let nodes = vec![execution(2, 7), artifact(3, 10)];
    let types = vec![artifact_type(10, "A"), execution_type(7, "E"), artifact_type(10, "B")];
    assert_eq!(find_type(&types, Kind::Artifact, 10), Some(2));
    assert_eq!(find_type(&types, Kind::Execution, 10), None);
    assert_eq!(copy_type(&types[1]), types[1]);
    let legend = Legend::new(&nodes, &types, &vec![GRAY], &vec![WHITE]).unwrap();
    assert_eq!(legend.entries(), &vec![artifact_type(10, "B"), execution_type(7, "E")]);
    assert_eq!(legend.palette(), &vec![GRAY, WHITE]);
    assert_eq!(types[0].id(), 10);
    assert_eq!(types[0].name(), "A");
    assert_eq!(types[0].shape(), "ellipse");
    assert_eq!(types[1].shape(), "box");
    assert_eq!(types[1].kind(), Kind::Execution);
}
