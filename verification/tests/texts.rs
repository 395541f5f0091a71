use mlmdquery::artifacts::ArtifactOrderByField;
use mlmdquery::contexts::ContextOrderByField;
use mlmdquery::derived::GraphDerivedOpt;
use mlmdquery::error::{kind_name, GraphError, InvalidField};
use mlmdquery::events::GetEventsOpt;
use mlmdquery::executions::ExecutionOrderByField;
use mlmdquery::graph::{path_label, Edge, Node, NodeId};
use mlmdquery::io::GraphIoOpt;
use mlmdquery::legend::Color;
use mlmdquery::metadata::{Artifact, Event, EventStep, EventType, Execution, Kind};
use mlmdquery::template::{is_plain, UrlTemplate};
use mlmdquery::text::{decimal_string, push_hex, quote, same_text};
use mlmdquery::traversal::Policy;

fn edge_with_path(path: Vec<EventStep>) -> Edge {
    Edge::new(Event { artifact_id: 1, execution_id: 2, ty: EventType::Input, path, create_time_ms: 0 })
}

#[test]
fn decimal_numerals() {
    assert_eq!(decimal_string(0), "0");
    assert_eq!(decimal_string(7), "7");
    assert_eq!(decimal_string(10), "10");
    assert_eq!(decimal_string(-1), "-1");
    assert_eq!(decimal_string(1203), "1203");
    assert_eq!(decimal_string(i32::MAX), "2147483647");
    assert_eq!(decimal_string(i32::MIN), "-2147483648");
}

#[test]
fn decimal_numerals_are_those_of_std() {
    for n in [-100001, -99, -10, -9, 0, 9, 10, 11, 99, 100, 101, 65535, 1000000] {
        assert_eq!(decimal_string(n), format!("{}", n));
    }
}

#[test]
fn hexadecimal_bytes() {
    let mut out = String::new();
    push_hex(&mut out, 0);
    push_hex(&mut out, 9);
    push_hex(&mut out, 10);
    push_hex(&mut out, 128);
    push_hex(&mut out, 255);
    assert_eq!(out, "00090a80ff");
}

#[test]
fn colour_code() {
    assert_eq!(Color { red: 255, green: 255, blue: 255 }.code(), "#ffffff");
    assert_eq!(Color { red: 1, green: 171, blue: 16 }.code(), "#01ab10");
}

#[test]
fn quoting_escapes_quotes_and_backslashes() {
    assert_eq!(quote(""), "\"\"");
    assert_eq!(quote("plain"), "\"plain\"");
    assert_eq!(quote("a\"b"), "\"a\\\"b\"");
    assert_eq!(quote("a\\b"), "\"a\\\\b\"");
    assert_eq!(quote("line\nnext\tcol\rend"), "\"line\\nnext\\tcol\\rend\"");
    assert_eq!(quote("\\\""), "\"\\\\\\\"\"");
    assert_eq!(quote("caf\u{e9} \u{1f600}"), "\"caf\u{e9} \u{1f600}\"");
}

#[test]
fn quoting_is_that_of_debug_for_common_text() {
    for s in ["", "a", "{\n  \"id\": 1,\n  \"name\": \"x\\y\"\n}", "tab\there", "caf\u{e9}"] {
        assert_eq!(quote(s), format!("{:?}", s));
    }
}

#[test]
fn texts_are_compared_by_their_characters() {
    assert!(same_text("id", "id"));
    assert!(!same_text("id", "Id"));
    assert!(!same_text("id", "id "));
}

#[test]
fn node_names() {
    assert_eq!(NodeId::Artifact(12).to_string(), "12@artifact");
    assert_eq!(NodeId::Execution(-3).to_string(), "-3@execution");
    assert_eq!(NodeId::Artifact(12).kind(), Kind::Artifact);
    assert_eq!(NodeId::Execution(12).number(), 12);
    assert_eq!(kind_name(Kind::Artifact), "artifact");
    assert_eq!(kind_name(Kind::Execution), "execution");
}

#[test]
fn node_attributes() {
    let a = Node::Artifact(Artifact { id: 5, type_id: 1 });
    let e = Node::Execution(Execution { id: 5, type_id: 1 });
    assert_eq!(a.id(), NodeId::Artifact(5));
    assert_eq!(e.id(), NodeId::Execution(5));
    assert_eq!(a.type_id(), 1);
    assert_eq!(a.label(), "5");
    assert_eq!(e.label(), "5");
    assert_eq!(a.shape(), "ellipse");
    assert_eq!(e.shape(), "box");
    assert_eq!(a.style(NodeId::Artifact(5)), "bold,dashed,filled");
    assert_eq!(a.style(NodeId::Execution(5)), "solid,filled");
    assert_eq!(e.style(NodeId::Execution(5)), "bold,dashed,filled");
    assert_eq!(e.style(NodeId::Execution(6)), "solid,filled");
}

#[test]
fn steps_as_text() {
    assert_eq!(EventStep::Index(-12).to_string(), "-12");
    assert_eq!(EventStep::Key("a b".to_string()).to_string(), "a b");
}

#[test]
fn label_of_empty_path_is_empty() {
    assert_eq!(edge_with_path(Vec::new()).label(), Ok(String::new()));
}

#[test]
fn label_is_a_json_array() {
    let edge = edge_with_path(vec![EventStep::Index(0)]);
    assert_eq!(edge.label(), Ok("[0]".to_string()));
    let edge = edge_with_path(vec![EventStep::Key("model".to_string())]);
    assert_eq!(edge.label(), Ok("[\"model\"]".to_string()));
    let edge = edge_with_path(vec![
        EventStep::Key("out\"put".to_string()),
        EventStep::Index(-2),
        EventStep::Key("a\\b\n".to_string()),
    ]);
    assert_eq!(edge.label(), Ok("[\"out\\\"put\",-2,\"a\\\\b\\n\"]".to_string()));
}

#[test]
fn label_is_what_serde_json_writes_for_the_array() {
    let steps = vec![
        EventStep::Index(3),
        EventStep::Key("k\u{1}\u{e9}/".to_string()),
        EventStep::Index(i32::MIN),
        EventStep::Key(String::new()),
    ];
    let values: Vec<serde_json::Value> = steps
        .iter()
        .map(|s| match s {
            EventStep::Index(i) => serde_json::Value::from(*i),
            EventStep::Key(k) => serde_json::Value::from(k.as_str()),
        })
        .collect();
    let expected = serde_json::to_string(&serde_json::Value::Array(values)).unwrap();
    assert_eq!(edge_with_path(steps).label(), Ok(expected));
}

#[test]
fn path_label_frames_items() {
    assert_eq!(path_label(&vec![]), "");
    assert_eq!(path_label(&vec!["1".to_string()]), "[1]");
    assert_eq!(path_label(&vec!["1".to_string(), "\"a\"".to_string(), "2".to_string()]), "[1,\"a\",2]");
}

#[test]
fn plain_templates() {
    assert!(is_plain(""));
    assert!(is_plain("http://host/{node_type}/{id}"));
    assert!(is_plain("a\\{b}"));
    assert!(is_plain("{"));
    assert!(is_plain("#{"));
    assert!(!is_plain("{{ if id }}x{{ endif }}"));
    assert!(!is_plain("x{# note #}"));
    assert!(!is_plain("path\\"));
    assert!(!is_plain("a{{"));
}

#[test]
fn template_renders_kind_and_number() {
    let template = match UrlTemplate::compile("http://host/{node_type}s/{id}?x={ id }") {
        Ok(t) => t,
        Err(e) => panic!("{}", e.message()),
    };
    assert_eq!(
        template.render(Kind::Artifact, 12),
        Ok("http://host/artifacts/12?x=12".to_string())
    );
    assert_eq!(
        template.render(Kind::Execution, -7),
        Ok("http://host/executions/-7?x=-7".to_string())
    );
    let node = Node::Execution(Execution { id: 3, type_id: 0 });
    assert_eq!(node.url(Some(&template)), Ok("http://host/executions/3?x=3".to_string()));
    assert_eq!(node.url(None), Ok(String::new()));
}

#[test]
fn template_renders_as_the_engine_does() {
    let text = "{node_type}/{id | unescaped}/\\{x}";
    let mut engine = tinytemplate::TinyTemplate::new();
    engine.add_template("url", text).unwrap();
    let mut context = serde_json::Map::new();
    context.insert("node_type".to_string(), serde_json::Value::from("artifact"));
    context.insert("id".to_string(), serde_json::Value::from(4));
    let expected = engine.render("url", &serde_json::Value::Object(context)).unwrap();
    let template = match UrlTemplate::compile(text) {
        Ok(t) => t,
        Err(e) => panic!("{}", e.message()),
    };
    assert_eq!(template.render(Kind::Artifact, 4), Ok(expected));
}

#[test]
fn template_without_tags_is_its_text() {
    let template = match UrlTemplate::compile("http://host/") {
        Ok(t) => t,
        Err(e) => panic!("{}", e.message()),
    };
    assert_eq!(template.render(Kind::Artifact, 1), Ok("http://host/".to_string()));
    assert_eq!(template.as_str(), "http://host/");
}

#[test]
fn template_that_is_not_plain_is_refused() {
    for text in ["{{ if id }}x{{ endif }}", "{# c #}", "x\\"] {
        match UrlTemplate::compile(text) {
            Ok(_) => panic!("accepted"),
            Err(e) => {
                assert!(matches!(e, GraphError::Template(_)));
                assert!(!e.message().is_empty());
            }
        }
    }
}

#[test]
fn template_that_does_not_compile_is_refused() {
    for text in ["http://host/{id", "{@nothing}"] {
        match UrlTemplate::compile(text) {
            Ok(_) => panic!("accepted"),
            Err(e) => {
                assert!(matches!(e, GraphError::Template(_)));
                assert!(e.message().starts_with("Failed to parse the template"));
            }
        }
    }
}

#[test]
fn template_with_unknown_value_fails_to_render() {
    let template = match UrlTemplate::compile("http://host/{name}") {
        Ok(t) => t,
        Err(e) => panic!("{}", e.message()),
    };
    match template.render(Kind::Artifact, 1) {
        Ok(_) => panic!("rendered"),
        Err(e) => assert!(matches!(e, GraphError::Template(_))),
    }
}

#[test]
fn error_messages() {
    assert_eq!(GraphError::MissingType(Kind::Artifact, 3).message(), "no such artifact type: 3");
    assert_eq!(GraphError::MissingType(Kind::Execution, 4).message(), "no such execution type: 4");
    assert_eq!(
        GraphError::ColorCount(Kind::Execution).message(),
        "the colours given do not match the execution types"
    );
    assert_eq!(GraphError::Attributes.message(), "the texts given do not match the nodes");
    assert_eq!(GraphError::Template("t".to_string()).message(), "t");
    assert_eq!(GraphError::Serialization("s".to_string()).message(), "s");
}

#[test]
fn fields_to_sort_by() {
    assert_eq!(ArtifactOrderByField::from_str("id"), Ok(ArtifactOrderByField::Id));
    assert_eq!(ArtifactOrderByField::from_str("name"), Ok(ArtifactOrderByField::Name));
    assert_eq!(ArtifactOrderByField::from_str("ctime"), Ok(ArtifactOrderByField::CreateTime));
    assert_eq!(ArtifactOrderByField::from_str("mtime"), Ok(ArtifactOrderByField::UpdateTime));
    assert_eq!(
        ArtifactOrderByField::from_str("time"),
        Err(InvalidField { value: "time".to_string() })
    );
    assert_eq!(ExecutionOrderByField::from_str("mtime"), Ok(ExecutionOrderByField::UpdateTime));
    assert_eq!(ExecutionOrderByField::from_str(""), Err(InvalidField { value: String::new() }));
    assert_eq!(ContextOrderByField::from_str("ctime"), Ok(ContextOrderByField::CreateTime));
    assert_eq!(ContextOrderByField::from_str("ID"), Err(InvalidField { value: "ID".to_string() }));
    assert_eq!(ArtifactOrderByField::default(), ArtifactOrderByField::Id);
    assert_eq!(ExecutionOrderByField::default(), ExecutionOrderByField::Id);
    assert_eq!(ContextOrderByField::default(), ContextOrderByField::Id);
    for field in [
        ContextOrderByField::Id,
        ContextOrderByField::Name,
        ContextOrderByField::CreateTime,
        ContextOrderByField::UpdateTime,
    ] {
        assert_eq!(ContextOrderByField::from_str(field.name()), Ok(field));
    }
}

#[test]
fn limit_of_an_event_query() {
    assert_eq!(GetEventsOpt::limit_default(), 100);
}

#[test]
fn graph_options_say_where_to_start() {
    let derived = GraphDerivedOpt { db: "sqlite://x".to_string(), artifact: 4, url_template: None };
    assert_eq!(derived.origin(), NodeId::Artifact(4));
    let mut search = derived.search();
    assert_eq!(search.policy(), Policy::Lineage);
    assert_eq!(search.next(), Some(NodeId::Artifact(4)));
    let io = GraphIoOpt { db: "sqlite://x".to_string(), execution: 4, url_template: None };
    assert_eq!(io.origin(), NodeId::Execution(4));
    let mut search = io.search();
    assert_eq!(search.policy(), Policy::Io);
    assert_eq!(search.next(), Some(NodeId::Execution(4)));
}

fn all_texts(alphabet: &[char], length: usize) -> Vec<String> {
    let mut texts = vec![String::new()];
    let mut start = 0;
    for _ in 0..length {
        let end = texts.len();
        for k in start..end {
            for c in alphabet {
                let mut text = texts[k].clone();
                text.push(*c);
                texts.push(text);
            }
        }
        start = end;
    }
    texts
}

#[test]
fn plain_templates_are_safe_to_hand_to_the_engine() {
    let alphabet = ['{', '}', '\\', '-', '|', '.', '@', '#', ' ', '\n', 'a', 'i', '0', '\u{e9}'];
    let mut texts = all_texts(&alphabet, 3);
    texts.extend(all_texts(&['{', '}', '\\', '-', '|', '@', 'i'], 4));
    for word in ["{id}", "{ id }", "{-id-}", "{id|unescaped}", "{@index}", "{@root}", "{@last}"] {
        for c in alphabet {
            texts.push(format!("{}{}", word, c));
            texts.push(format!("{}{}", c, word));
            texts.push(format!("{}{}{}", word, c, word));
        }
    }
    let mut compiled = 0;
    let mut rendered = 0;
    for text in &texts {
        if !is_plain(text) {
            assert!(UrlTemplate::compile(text).is_err());
            continue;
        }
        if let Ok(template) = UrlTemplate::compile(text) {
            compiled += 1;
            if template.render(Kind::Execution, 7).is_ok() {
                rendered += 1;
            }
        }
    }
    assert!(texts.len() > 5000);
    assert!(compiled > 500);
    assert!(rendered > 100);
}
