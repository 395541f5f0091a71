//! Nodes, edges and types of a lineage graph.
use vstd::prelude::*;
use vstd::string::StringExecFns;
use crate::error::GraphError;
use crate::json::{json_error_message, json_string, to_json_string};
use crate::legend::Legend;
use crate::metadata::{
    Artifact, ArtifactType, Event, EventStep, EventView, Execution, ExecutionType, Kind, StepView,
};
use crate::template::{url_text, UrlTemplate};
use crate::text::{decimal, decimal_string};

verus! {

/// The key of a node: its kind and its id within that kind. An artifact
/// and an execution with the same number are two nodes.
#[derive(Debug, Clone, Copy, PartialEq, Eq, Hash, Structural)]
pub enum NodeId {
    Artifact(i32),
    Execution(i32),
}

impl NodeId {
    /// The kind of the node.
    pub open spec fn spec_kind(self) -> Kind {
        match self {
            NodeId::Artifact(_) => Kind::Artifact,
            NodeId::Execution(_) => Kind::Execution,
        }
    }

    /// The id of the node within its kind.
    pub open spec fn spec_number(self) -> i32 {
        match self {
            NodeId::Artifact(x) => x,
            NodeId::Execution(x) => x,
        }
    }

    /// The name of the node in the document: its number, `@`, its kind.
    pub open spec fn text(self) -> Seq<char> {
        match self {
            NodeId::Artifact(x) => decimal(x as int) + "@artifact"@,
            NodeId::Execution(x) => decimal(x as int) + "@execution"@,
        }
    }

    /// The kind of the node.
    #[verifier::when_used_as_spec(spec_kind)]
    pub fn kind(self) -> (k: Kind)
        ensures
            k == self.spec_kind(),
    {
        match self {
            NodeId::Artifact(_) => Kind::Artifact,
            NodeId::Execution(_) => Kind::Execution,
        }
    }

    /// The id of the node within its kind.
    #[verifier::when_used_as_spec(spec_number)]
    pub fn number(self) -> (x: i32)
        ensures
            x == self.spec_number(),
    {
        match self {
            NodeId::Artifact(x) => x,
            NodeId::Execution(x) => x,
        }
    }

    /// The name of the node in the document.
    pub fn to_string(&self) -> (r: String)
        ensures
            r@ == self.text(),
    {
        match self {
            NodeId::Artifact(x) => {
                let mut out = decimal_string(*x);
                out.append("@artifact");
                out
            },
            NodeId::Execution(x) => {
                let mut out = decimal_string(*x);
                out.append("@execution");
                out
            },
        }
    }
}

/// A vertex of the graph: one record of the store.
#[derive(Debug, Clone, Copy, PartialEq, Eq, Hash, Structural)]
pub enum Node {
    Artifact(Artifact),
    Execution(Execution),
}

impl Node {
    /// The key of this node.
    pub open spec fn spec_id(&self) -> NodeId {
        match self {
            Node::Artifact(x) => NodeId::Artifact(x.id),
            Node::Execution(x) => NodeId::Execution(x.id),
        }
    }

    /// The id of the type of this node, among the types of its kind.
    pub open spec fn spec_type_id(&self) -> i32 {
        match self {
            Node::Artifact(x) => x.type_id,
            Node::Execution(x) => x.type_id,
        }
    }

    /// The key of this node.
    #[verifier::when_used_as_spec(spec_id)]
    pub fn id(&self) -> (r: NodeId)
        ensures
            r == self.spec_id(),
    {
        match self {
            Node::Artifact(x) => NodeId::Artifact(x.id),
            Node::Execution(x) => NodeId::Execution(x.id),
        }
    }

    /// The id of the type of this node, among the types of its kind.
    #[verifier::when_used_as_spec(spec_type_id)]
    pub fn type_id(&self) -> (r: i32)
        ensures
            r == self.spec_type_id(),
    {
        match self {
            Node::Artifact(x) => x.type_id,
            Node::Execution(x) => x.type_id,
        }
    }

    /// The label of this node: its number in decimal.
    pub fn label(&self) -> (r: String)
        ensures
            r@ == decimal(self.id().number() as int),
    {
        match self {
            Node::Artifact(x) => decimal_string(x.id),
            Node::Execution(x) => decimal_string(x.id),
        }
    }

    /// The fill colour of this node, as `#rrggbb`: the colour of its type,
    /// where the legend holds the type.
    pub fn color(&self, legend: &Legend) -> (r: Option<String>)
        requires
            legend.wf(),
        ensures
            match legend.color(self.id().kind(), self.type_id()) {
                Some(c) => r matches Some(s) && s@ == c.text(),
                None => r is None,
            },
    {
        match legend.color_of(self.id().kind(), self.type_id()) {
            Some(c) => Some(c.code()),
            None => None,
        }
    }

    /// The name of the type of this node, where the legend holds the type.
    pub fn name_of_type<'a>(&self, legend: &'a Legend) -> (r: Option<&'a str>)
        ensures
            match legend.name(self.id().kind(), self.type_id()) {
                Some(name) => r matches Some(s) && s@ == name,
                None => r is None,
            },
    {
        legend.name_of(self.id().kind(), self.type_id())
    }

    /// The URL of this node: what the template renders for its kind and
    /// number, and the empty string where there is no template.
    pub fn url(&self, template: Option<&UrlTemplate>) -> (r: Result<String, GraphError>)
        requires
            template matches Some(t) ==> t.wf(),
        ensures
            match template {
                Some(t) => match url_text(t.text(), self.id().kind(), self.id().number()) {
                    Some(url) => r matches Ok(s) && s@ == url,
                    None => r matches Err(e) && e is Template,
                },
                None => r matches Ok(s) && s@ == Seq::<char>::empty(),
            },
    {
        match template {
            Some(t) => t.render(self.id().kind(), self.id().number()),
            None => Ok(String::new()),
        }
    }

    /// The shape of this node: an ellipse for an artifact, a box for an
    /// execution.
    pub fn shape(&self) -> (r: &'static str)
        ensures
            r@ == shape_word(self.id().kind()),
    {
        match self {
            Node::Artifact(_) => "ellipse",
            Node::Execution(_) => "box",
        }
    }

    /// The style of this node: the origin of the graph is drawn bold and
    /// dashed, every other node solid.
    pub fn style(&self, origin: NodeId) -> (r: &'static str)
        ensures
            r@ == style_word(self.id() == origin),
    {
        if self.id() == origin {
            "bold,dashed,filled"
        } else {
            "solid,filled"
        }
    }
}

/// The shape in which the nodes and the types of a kind are drawn.
pub open spec fn shape_word(kind: Kind) -> Seq<char> {
    match kind {
        Kind::Artifact => "ellipse"@,
        Kind::Execution => "box"@,
    }
}

/// The style of a node, by whether it is the origin of the graph.
pub open spec fn style_word(is_origin: bool) -> Seq<char> {
    if is_origin {
        "bold,dashed,filled"@
    } else {
        "solid,filled"@
    }
}

/// A type of either kind.
#[derive(Debug, Clone, PartialEq, Eq, Hash)]
pub enum Type {
    Artifact(ArtifactType),
    Execution(ExecutionType),
}

impl Type {
    /// The kind of node that has this type.
    pub open spec fn spec_kind(&self) -> Kind {
        match self {
            Type::Artifact(_) => Kind::Artifact,
            Type::Execution(_) => Kind::Execution,
        }
    }

    /// The id of this type among the types of its kind.
    pub open spec fn spec_id(&self) -> i32 {
        match self {
            Type::Artifact(x) => x.id,
            Type::Execution(x) => x.id,
        }
    }

    /// The name of this type.
    pub open spec fn spec_name(&self) -> Seq<char> {
        match self {
            Type::Artifact(x) => x.name@,
            Type::Execution(x) => x.name@,
        }
    }

    /// The kind of node that has this type.
    #[verifier::when_used_as_spec(spec_kind)]
    pub fn kind(&self) -> (r: Kind)
        ensures
            r == self.spec_kind(),
    {
        match self {
            Type::Artifact(_) => Kind::Artifact,
            Type::Execution(_) => Kind::Execution,
        }
    }

    /// The id of this type among the types of its kind.
    #[verifier::when_used_as_spec(spec_id)]
    pub fn id(&self) -> (r: i32)
        ensures
            r == self.spec_id(),
    {
        match self {
            Type::Artifact(x) => x.id,
            Type::Execution(x) => x.id,
        }
    }

    /// The name of this type.
    pub fn name(&self) -> (r: &str)
        ensures
            r@ == self.spec_name(),
    {
        match self {
            Type::Artifact(x) => x.name.as_str(),
            Type::Execution(x) => x.name.as_str(),
        }
    }

    /// The shape in which this type stands in its legend.
    pub fn shape(&self) -> (r: &'static str)
        ensures
            r@ == shape_word(self.kind()),
    {
        match self {
            Type::Artifact(_) => "ellipse",
            Type::Execution(_) => "box",
        }
    }
}

/// A directed edge of the graph: one event. The direction follows from
/// the type of the event and is not stored.
#[derive(Debug, Clone, PartialEq, Eq, Hash)]
pub struct Edge {
    event: Event,
}

/// The node at which the edge of an event starts: the artifact where the
/// artifact went into the execution, else the execution.
pub open spec fn source(e: EventView) -> NodeId {
    if e.ty.input() {
        NodeId::Artifact(e.artifact_id)
    } else {
        NodeId::Execution(e.execution_id)
    }
}

/// The node at which the edge of an event ends: the execution where the
/// artifact went into the execution, else the artifact.
pub open spec fn target(e: EventView) -> NodeId {
    if e.ty.input() {
        NodeId::Execution(e.execution_id)
    } else {
        NodeId::Artifact(e.artifact_id)
    }
}

/// The text of one step of a path: a position as its decimal numeral, a
/// key as a JSON string literal.
pub open spec fn step_text(step: StepView) -> Option<Seq<char>> {
    match step {
        StepView::Index(i) => Some(decimal(i as int)),
        StepView::Key(k) => json_string(k),
    }
}

/// The texts of all steps of a path, where each step has one.
pub open spec fn step_texts(path: Seq<StepView>) -> Option<Seq<Seq<char>>>
    decreases path.len(),
{
    if path.len() == 0 {
        Some(Seq::empty())
    } else {
        match (step_texts(path.drop_last()), step_text(path.last())) {
            (Some(texts), Some(t)) => Some(texts.push(t)),
            _ => None,
        }
    }
}

/// Texts with a comma between each two of them.
pub open spec fn comma_separated(items: Seq<Seq<char>>) -> Seq<char>
    decreases items.len(),
{
    if items.len() == 0 {
        Seq::empty()
    } else if items.len() == 1 {
        items[0]
    } else {
        comma_separated(items.drop_last()) + seq![','] + items.last()
    }
}

/// The label of a path whose steps have the given texts: nothing for the
/// empty path, else the texts as a JSON array.
pub open spec fn framed(items: Seq<Seq<char>>) -> Seq<char> {
    if items.len() == 0 {
        Seq::empty()
    } else {
        seq!['['] + comma_separated(items) + seq![']']
    }
}

/// The label of an edge with the given path, where every step has a text.
pub open spec fn label_text(path: Seq<StepView>) -> Option<Seq<char>> {
    match step_texts(path) {
        Some(items) => Some(framed(items)),
        None => None,
    }
}

/// The texts of a list of strings.
pub open spec fn views(items: Seq<String>) -> Seq<Seq<char>> {
    Seq::new(items.len(), |i: int| items[i]@)
}

/// Frames the texts of the steps of a path as a label: nothing for the
/// empty path, else a JSON array of the texts.
pub fn path_label(items: &Vec<String>) -> (r: String)
    ensures
        r@ == framed(views(items@)),
{
    let mut out = String::new();
    let n = items.len();
    if n == 0 {
        return out;
    }
    out.push('[');
    out.append(items[0].as_str());
    let ghost all = views(items@);
    assert(all.take(1) =~= seq![items@[0]@]);
    let mut i: usize = 1;
    while i < n
        invariant
            n == items@.len(),
            all == views(items@),
            1 <= i <= n,
            out@ == seq!['['] + comma_separated(all.take(i as int)),
        decreases n - i,
    {
        out.push(',');
        out.append(items[i].as_str());
        assert(all.take(i + 1).drop_last() =~= all.take(i as int));
        assert(all.take(i + 1).last() == items@[i as int]@);
        assert(out@ =~= seq!['['] + comma_separated(all.take(i + 1)));
        i += 1;
    }
    assert(all.take(n as int) =~= all);
    out.push(']');
    out
}

impl View for Edge {
    type V = EventView;

    closed spec fn view(&self) -> EventView {
        self.event@
    }
}

impl Edge {
    /// The edge of an event.
    pub fn new(event: Event) -> (r: Edge)
        ensures
            r@ == event@,
    {
        Edge { event }
    }

    /// The event of this edge.
    pub fn event(&self) -> (r: &Event)
        ensures
            r@ == self@,
    {
        &self.event
    }

    /// The node at which this edge starts.
    pub fn from_node(&self) -> (r: NodeId)
        ensures
            r == source(self@),
    {
        if self.event.ty.is_input() {
            NodeId::Artifact(self.event.artifact_id)
        } else {
            NodeId::Execution(self.event.execution_id)
        }
    }

    /// The node at which this edge ends.
    pub fn to_node(&self) -> (r: NodeId)
        ensures
            r == target(self@),
    {
        if self.event.ty.is_input() {
            NodeId::Execution(self.event.execution_id)
        } else {
            NodeId::Artifact(self.event.artifact_id)
        }
    }

    /// The label of this edge: nothing where the path of its event is
    /// empty, else the steps of the path as a JSON array, a position as a
    /// number and a key as a string.
    pub fn label(&self) -> (r: Result<String, GraphError>)
        ensures
            match label_text(self@.path) {
                Some(t) => r matches Ok(s) && s@ == t,
                None => r matches Err(GraphError::Serialization(_)),
            },
    {
        let mut items: Vec<String> = Vec::new();
        let n = self.event.path.len();
        let ghost path = self@.path;
        let mut i: usize = 0;
        while i < n
            invariant
                n == self.event.path@.len(),
                path == self@.path,
                path.len() == n,
                0 <= i <= n,
                step_texts(path.take(i as int)) == Some(views(items@)),
            decreases n - i,
        {
            assert(path.take(i + 1).drop_last() =~= path.take(i as int));
            assert(path.take(i + 1).last() == self.event.path@[i as int]@);
            match &self.event.path[i] {
                EventStep::Index(x) => {
                    items.push(decimal_string(*x));
                },
                EventStep::Key(k) => {
                    match to_json_string(k.as_str()) {
                        Ok(q) => {
                            items.push(q);
                        },
                        Err(e) => {
                            proof {
                                lemma_step_texts_none(path, i as int);
                            }
                            return Err(GraphError::Serialization(json_error_message(&e)));
                        },
                    }
                },
            }
            assert(views(items@) =~= views(items@.drop_last()).push(items@.last()@));
            i += 1;
        }
        assert(path.take(n as int) =~= path);
        Ok(path_label(&items))
    }
}

/// A path has no label where one of its steps has no text.
pub proof fn lemma_step_texts_none(path: Seq<StepView>, i: int)
    requires
        0 <= i < path.len(),
        step_text(path[i]) is None,
    ensures
        step_texts(path) is None,
    decreases path.len(),
{
    if i < path.len() - 1 {
        lemma_step_texts_none(path.drop_last(), i);
    }
}

/// The direction of an edge: where the artifact went into the execution
/// the edge runs from the artifact to the execution, and where it came
/// out of the execution the edge runs from the execution to the artifact.
pub proof fn lemma_edge_direction(e: EventView)
    ensures
        e.ty.input() ==> source(e) == NodeId::Artifact(e.artifact_id) && target(e)
            == NodeId::Execution(e.execution_id),
        e.ty.output() ==> source(e) == NodeId::Execution(e.execution_id) && target(e)
            == NodeId::Artifact(e.artifact_id),
{
}

} // verus!
