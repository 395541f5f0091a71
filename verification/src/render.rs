//! The lineage graph as a whole, and its rendering as a document of the
//! DOT language: a statement for each node and each edge, and a legend
//! for the types of each kind.
use vstd::prelude::*;
use vstd::string::StringExecFns;
use crate::error::GraphError;
use crate::graph::{
    label_text, shape_word, source, style_word, target, views, Edge, Node, NodeId, Type,
};
use crate::legend::{has_entry, has_type, legend, lemma_legend_partition, Color, Legend};
use crate::metadata::{EventView, Kind};
use crate::template::{accepted, url_text, UrlTemplate};
use crate::text::{decimal, push_quoted, quoted};
use crate::traversal::{edge_views, ids, Discovery};

verus! {

/// The statement of a node.
pub open spec fn node_statement(
    node: Node,
    origin: NodeId,
    color: Seq<char>,
    tooltip: Seq<char>,
    url: Seq<char>,
) -> Seq<char> {
    "  "@ + quoted(node.id().text()) + " [label="@ + quoted(decimal(node.id().number() as int))
        + ",shape="@ + quoted(shape_word(node.id().kind())) + ",style="@ + quoted(
        style_word(node.id() == origin),
    ) + ",tooltip="@ + quoted(tooltip) + ",fillcolor="@ + quoted(color) + ",URL="@ + quoted(url)
        + "];\n"@
}

/// The statement of an edge.
pub open spec fn edge_statement(e: EventView, label: Seq<char>) -> Seq<char> {
    "  "@ + quoted(source(e).text()) + " -> "@ + quoted(target(e).text()) + " [label="@ + quoted(
        label,
    ) + "];\n"@
}

/// The statement of a type in its legend.
pub open spec fn legend_entry(t: Type, color: Color) -> Seq<char> {
    "    "@ + quoted(t.spec_name()) + "[shape="@ + quoted(shape_word(t.kind()))
        + ",style=filled,fillcolor="@ + quoted(color.text()) + "];\n"@
}

/// The statement that keeps two types of a legend in line: an edge
/// between them that is not drawn.
pub open spec fn legend_chain(previous: Seq<char>, name: Seq<char>) -> Seq<char> {
    "    "@ + quoted(previous) + " -> "@ + quoted(name) + "[penwidth=0,arrowhead=none];\n"@
}

/// The name of the last type of a kind in a list.
pub open spec fn previous_name(types: Seq<Type>, kind: Kind) -> Option<Seq<char>>
    decreases types.len(),
{
    if types.len() == 0 {
        None
    } else if types.last().kind() == kind {
        Some(types.last().spec_name())
    } else {
        previous_name(types.drop_last(), kind)
    }
}

/// The statements of the legend of a kind, for the first `n` types of a
/// list: each type of the kind has its statement, and after it, unless it
/// is the first of its kind, the statement that chains it to the type of
/// its kind before it.
pub open spec fn legend_lines(types: Seq<Type>, colors: Seq<Color>, kind: Kind, n: nat) -> Seq<char>
    decreases n,
{
    if n == 0 {
        Seq::empty()
    } else {
        let front = legend_lines(types, colors, kind, (n - 1) as nat);
        let t = types[n - 1];
        if t.kind() != kind {
            front
        } else {
            let entry = front + legend_entry(t, colors[n - 1]);
            match previous_name(types.take(n - 1), kind) {
                Some(p) => entry + legend_chain(p, t.spec_name()),
                None => entry,
            }
        }
    }
}

/// The statements of the first `n` nodes of a list.
pub open spec fn node_lines(
    nodes: Seq<Node>,
    origin: NodeId,
    key: Legend,
    tooltips: Seq<Seq<char>>,
    urls: Seq<Seq<char>>,
    n: nat,
) -> Seq<char>
    decreases n,
{
    if n == 0 {
        Seq::empty()
    } else {
        node_lines(nodes, origin, key, tooltips, urls, (n - 1) as nat) + node_statement(
            nodes[n - 1],
            origin,
            fill(key, nodes[n - 1]),
            tooltips[n - 1],
            urls[n - 1],
        )
    }
}

/// The fill colour of a node: the colour of its type.
pub open spec fn fill(key: Legend, node: Node) -> Seq<char> {
    match key.color(node.id().kind(), node.type_id()) {
        Some(c) => c.text(),
        None => Seq::empty(),
    }
}

/// The statements of the first `n` edges of a list.
pub open spec fn edge_lines(edges: Seq<EventView>, labels: Seq<Seq<char>>, n: nat) -> Seq<char>
    decreases n,
{
    if n == 0 {
        Seq::empty()
    } else {
        edge_lines(edges, labels, (n - 1) as nat) + edge_statement(edges[n - 1], labels[n - 1])
    }
}

/// The URLs of the first `n` nodes of a list under a template text, where
/// the template renders for each of them.
pub open spec fn node_urls(text: Seq<char>, nodes: Seq<Node>, n: nat) -> Option<Seq<Seq<char>>>
    decreases n,
{
    if n == 0 {
        Some(Seq::empty())
    } else {
        match (
            node_urls(text, nodes, (n - 1) as nat),
            url_text(text, nodes[n - 1].id().kind(), nodes[n - 1].id().number()),
        ) {
            (Some(urls), Some(url)) => Some(urls.push(url)),
            _ => None,
        }
    }
}

/// The labels of the first `n` edges of a list, where each has one.
pub open spec fn edge_labels(edges: Seq<EventView>, n: nat) -> Option<Seq<Seq<char>>>
    decreases n,
{
    if n == 0 {
        Some(Seq::empty())
    } else {
        match (edge_labels(edges, (n - 1) as nat), label_text(edges[n - 1].path)) {
            (Some(labels), Some(label)) => Some(labels.push(label)),
            _ => None,
        }
    }
}

/// The text of an optional string.
pub open spec fn optional_text(s: Option<String>) -> Option<Seq<char>> {
    match s {
        Some(t) => Some(t@),
        None => None,
    }
}

/// Appends the statement of a node.
pub fn push_node_statement(
    out: &mut String,
    node: &Node,
    origin: NodeId,
    color: &str,
    tooltip: &str,
    url: &str,
)
    ensures
        final(out)@ == old(out)@ + node_statement(*node, origin, color@, tooltip@, url@),
{
    let name = node.id().to_string();
    let label = node.label();
    out.append("  ");
    push_quoted(out, name.as_str());
    out.append(" [label=");
    push_quoted(out, label.as_str());
    out.append(",shape=");
    push_quoted(out, node.shape());
    out.append(",style=");
    push_quoted(out, node.style(origin));
    out.append(",tooltip=");
    push_quoted(out, tooltip);
    out.append(",fillcolor=");
    push_quoted(out, color);
    out.append(",URL=");
    push_quoted(out, url);
    out.append("];\n");
    assert(final(out)@ =~= old(out)@ + node_statement(*node, origin, color@, tooltip@, url@));
}

/// Appends the statement of an edge.
pub fn push_edge_statement(out: &mut String, edge: &Edge, label: &str)
    ensures
        final(out)@ == old(out)@ + edge_statement(edge@, label@),
{
    let from = edge.from_node().to_string();
    let to = edge.to_node().to_string();
    out.append("  ");
    push_quoted(out, from.as_str());
    out.append(" -> ");
    push_quoted(out, to.as_str());
    out.append(" [label=");
    push_quoted(out, label);
    out.append("];\n");
    assert(final(out)@ =~= old(out)@ + edge_statement(edge@, label@));
}

/// Appends the statement of a type in its legend.
pub fn push_legend_entry(out: &mut String, t: &Type, color: Color)
    ensures
        final(out)@ == old(out)@ + legend_entry(*t, color),
{
    let code = color.code();
    out.append("    ");
    push_quoted(out, t.name());
    out.append("[shape=");
    push_quoted(out, t.shape());
    out.append(",style=filled,fillcolor=");
    push_quoted(out, code.as_str());
    out.append("];\n");
    assert(final(out)@ =~= old(out)@ + legend_entry(*t, color));
}

/// Appends the statement that chains a type to the one before it.
pub fn push_legend_chain(out: &mut String, previous: &str, name: &str)
    ensures
        final(out)@ == old(out)@ + legend_chain(previous@, name@),
{
    out.append("    ");
    push_quoted(out, previous);
    out.append(" -> ");
    push_quoted(out, name);
    out.append("[penwidth=0,arrowhead=none];\n");
    assert(final(out)@ =~= old(out)@ + legend_chain(previous@, name@));
}

/// Appends the statements of the legend of a kind.
pub fn push_legend(out: &mut String, key: &Legend, kind: Kind)
    requires
        key.wf(),
    ensures
        final(out)@ == old(out)@ + legend_lines(
            key.types(),
            key.colors(),
            kind,
            key.types().len(),
        ),
{
    let types = key.entries();
    let colors = key.palette();
    let n = types.len();
    let ghost before = out@;
    let mut previous: Option<usize> = None;
    let mut i: usize = 0;
    assert(out@ =~= before + legend_lines(types@, colors@, kind, 0));
    while i < n
        invariant
            n == types@.len(),
            n == colors@.len(),
            0 <= i <= n,
            out@ == before + legend_lines(types@, colors@, kind, i as nat),
            match previous {
                Some(k) => k < i && previous_name(types@.take(i as int), kind) == Some(
                    types@[k as int].spec_name(),
                ),
                None => previous_name(types@.take(i as int), kind) is None,
            },
        decreases n - i,
    {
        let ghost lines = legend_lines(types@, colors@, kind, i as nat);
        proof {
            assert(types@.take(i + 1).drop_last() =~= types@.take(i as int));
            assert(types@.take(i + 1).last() == types@[i as int]);
        }
        if types[i].kind() == kind {
            push_legend_entry(out, &types[i], colors[i]);
            match previous {
                Some(k) => {
                    push_legend_chain(out, types[k].name(), types[i].name());
                    assert(out@ =~= before + (lines + legend_entry(types@[i as int], colors@[i as int])
                        + legend_chain(types@[k as int].spec_name(), types@[i as int].spec_name())));
                },
                None => {
                    assert(out@ =~= before + (lines + legend_entry(
                        types@[i as int],
                        colors@[i as int],
                    )));
                },
            }
            previous = Some(i);
        }
        i += 1;
    }
}

/// A lineage graph: the nodes and the edges that a search found, the
/// types of the nodes with a colour for each, and the URL template, if
/// there is one.
pub struct Graph {
    origin: NodeId,
    nodes: Vec<Node>,
    edges: Vec<Edge>,
    legend: Legend,
    url_template: Option<String>,
}

impl Graph {
    /// The origin of the graph.
    pub closed spec fn spec_origin(&self) -> NodeId {
        self.origin
    }

    /// The nodes of the graph.
    pub closed spec fn visited(&self) -> Seq<Node> {
        self.nodes@
    }

    /// The events of the edges of the graph.
    pub closed spec fn found(&self) -> Seq<EventView> {
        edge_views(self.edges@)
    }

    /// The types of the nodes and their colours.
    pub closed spec fn key(&self) -> Legend {
        self.legend
    }

    /// The text of the URL template.
    pub closed spec fn template(&self) -> Option<Seq<char>> {
        optional_text(self.url_template)
    }

    /// What holds of a graph: every node stands in it once and every
    /// edge once, the origin is a node, both ends of every edge are
    /// nodes, and the legend holds, each once and with a colour, exactly
    /// the types that the nodes have.
    pub open spec fn wf(&self) -> bool {
        &&& ids(self.visited()).no_duplicates()
        &&& self.found().no_duplicates()
        &&& ids(self.visited()).contains(self.origin())
        &&& forall|i: int|
            0 <= i < self.found().len() ==> ids(self.visited()).contains(
                source(#[trigger] self.found()[i]),
            ) && ids(self.visited()).contains(target(self.found()[i]))
        &&& self.key().wf()
        &&& forall|kind: Kind, id: i32| #[trigger]
            has_entry(self.key().types(), kind, id) <==> has_type(self.visited(), kind, id)
        &&& forall|i: int, j: int|
            0 <= i < j < self.key().types().len() && (#[trigger] self.key().types()[i]).kind() == (
            #[trigger] self.key().types()[j]).kind() ==> self.key().types()[i].id()
                < self.key().types()[j].id()
    }

    /// The whole document.
    pub open spec fn document_text(
        &self,
        tooltips: Seq<Seq<char>>,
        urls: Seq<Seq<char>>,
        labels: Seq<Seq<char>>,
    ) -> Seq<char> {
        "digraph artifact_lineage_graph {\n  concentrate=true;\n"@ + node_lines(
            self.visited(),
            self.origin(),
            self.key(),
            tooltips,
            urls,
            self.visited().len(),
        ) + edge_lines(self.found(), labels, self.found().len())
            + "  subgraph cluster_artifact_legend {\n    label = \"Artifact Legend\";\n"@
            + legend_lines(
            self.key().types(),
            self.key().colors(),
            Kind::Artifact,
            self.key().types().len(),
        ) + "  }\n  subgraph cluster_execution_legend {\n    label = \"Execution Legend\";\n"@
            + legend_lines(
            self.key().types(),
            self.key().colors(),
            Kind::Execution,
            self.key().types().len(),
        ) + "  }\n}\n"@
    }

    /// The URLs of the nodes: empty where the graph has no template, and
    /// else what the template renders for each node. There are none where
    /// the template is not accepted or does not render for a node.
    pub open spec fn urls(&self) -> Option<Seq<Seq<char>>> {
        match self.template() {
            None => Some(Seq::new(self.visited().len(), |i: int| Seq::<char>::empty())),
            Some(text) => if accepted(text) {
                node_urls(text, self.visited(), self.visited().len())
            } else {
                None
            },
        }
    }

    /// What `generate` gives for a list of tooltips.
    pub open spec fn generated(&self, tooltips: Seq<Seq<char>>, r: Result<String, GraphError>) -> bool {
        if tooltips.len() != self.visited().len() {
            r == Err::<String, GraphError>(GraphError::Attributes)
        } else {
            match self.urls() {
                None => r matches Err(e) && e is Template,
                Some(urls) => match edge_labels(self.found(), self.found().len()) {
                    None => r matches Err(e) && e is Serialization,
                    Some(labels) => r matches Ok(doc) && doc@ == self.document_text(
                        tooltips,
                        urls,
                        labels,
                    ),
                },
            }
        }
    }

    /// The graph of what a search found. The types given may stand in any
    /// order and may hold types that no node has; the colours of a kind
    /// must be as many as the types that the nodes of the kind have, and
    /// go to these types in ascending order of their ids.
    pub fn new(
        discovery: Discovery,
        types: Vec<Type>,
        artifact_colors: Vec<Color>,
        execution_colors: Vec<Color>,
        url_template: Option<String>,
    ) -> (r: Result<Graph, GraphError>)
        requires
            discovery.wf(),
        ensures
            match legend(discovery.visited(), types@, artifact_colors@, execution_colors@) {
                Ok((entries, colors)) => r matches Ok(g) && g.wf() && g.origin()
                    == discovery.origin() && g.visited() == discovery.visited() && g.found()
                    == discovery.found() && g.key().types() == entries && g.key().colors() == colors
                    && g.template() == optional_text(url_template),
                Err(e) => r == Err::<Graph, GraphError>(e),
            },
    {
        let origin = discovery.origin();
        let ghost visited = discovery.visited();
        let ghost found = discovery.found();
        let (nodes, edges) = discovery.into_parts();
        let key = match Legend::new(&nodes, &types, &artifact_colors, &execution_colors) {
            Ok(key) => key,
            Err(e) => {
                return Err(e);
            },
        };
        proof {
            lemma_legend_partition(visited, types@, artifact_colors@, execution_colors@);
        }
        Ok(Graph { origin, nodes, edges, legend: key, url_template })
    }

    /// The origin of the graph.
    #[verifier::when_used_as_spec(spec_origin)]
    pub fn origin(&self) -> (r: NodeId)
        ensures
            r == self.origin(),
    {
        self.origin
    }

    /// The nodes of the graph. The tooltips that `generate` takes stand in
    /// the order of this list.
    pub fn nodes(&self) -> (r: &Vec<Node>)
        ensures
            r@ == self.visited(),
    {
        &self.nodes
    }

    /// The edges of the graph.
    pub fn edges(&self) -> (r: &Vec<Edge>)
        ensures
            edge_views(r@) == self.found(),
    {
        &self.edges
    }

    /// The types of the nodes and their colours.
    pub fn legend(&self) -> (r: &Legend)
        ensures
            *r == self.key(),
    {
        &self.legend
    }

    /// The document for given texts: a tooltip and a URL for each node,
    /// in the order of the nodes, and a label for each edge, in the order
    /// of the edges.
    pub fn document(
        &self,
        tooltips: &Vec<String>,
        urls: &Vec<String>,
        labels: &Vec<String>,
    ) -> (r: Result<String, GraphError>)
        requires
            self.wf(),
        ensures
            (if tooltips@.len() == self.visited().len() && urls@.len() == self.visited().len()
                && labels@.len() == self.found().len() {
                r matches Ok(doc) && doc@ == self.document_text(
                    views(tooltips@),
                    views(urls@),
                    views(labels@),
                )
            } else {
                r == Err::<String, GraphError>(GraphError::Attributes)
            }),
    {
        let n = self.nodes.len();
        let m = self.edges.len();
        if tooltips.len() != n || urls.len() != n || labels.len() != m {
            return Err(GraphError::Attributes);
        }
        let ghost tips = views(tooltips@);
        let ghost links = views(urls@);
        let ghost names = views(labels@);
        let mut out = String::from_str("digraph artifact_lineage_graph {\n  concentrate=true;\n");
        let ghost head = out@;
        let mut i: usize = 0;
        assert(out@ =~= head + node_lines(
            self.visited(),
            self.origin(),
            self.key(),
            tips,
            links,
            0,
        ));
        while i < n
            invariant
                self.wf(),
                n == self.nodes@.len(),
                n == tooltips@.len(),
                n == urls@.len(),
                tips == views(tooltips@),
                links == views(urls@),
                0 <= i <= n,
                out@ == head + node_lines(
                    self.visited(),
                    self.origin(),
                    self.key(),
                    tips,
                    links,
                    i as nat,
                ),
            decreases n - i,
        {
            let ghost lines = node_lines(
                self.visited(),
                self.origin(),
                self.key(),
                tips,
                links,
                i as nat,
            );
            let node = &self.nodes[i];
            let color = match node.color(&self.legend) {
                Some(c) => c,
                None => String::new(),
            };
            push_node_statement(
                &mut out,
                node,
                self.origin,
                color.as_str(),
                tooltips[i].as_str(),
                urls[i].as_str(),
            );
            assert(out@ =~= head + (lines + node_statement(
                self.visited()[i as int],
                self.origin(),
                fill(self.key(), self.visited()[i as int]),
                tips[i as int],
                links[i as int],
            )));
            i += 1;
        }
        let ghost body = out@;
        let mut j: usize = 0;
        assert(out@ =~= body + edge_lines(self.found(), names, 0));
        while j < m
            invariant
                m == self.edges@.len(),
                m == labels@.len(),
                names == views(labels@),
                0 <= j <= m,
                out@ == body + edge_lines(self.found(), names, j as nat),
            decreases m - j,
        {
            let ghost lines = edge_lines(self.found(), names, j as nat);
            push_edge_statement(&mut out, &self.edges[j], labels[j].as_str());
            assert(out@ =~= body + (lines + edge_statement(self.found()[j as int], names[j as int])));
            j += 1;
        }
        out.append("  subgraph cluster_artifact_legend {\n    label = \"Artifact Legend\";\n");
        push_legend(&mut out, &self.legend, Kind::Artifact);
        out.append("  }\n  subgraph cluster_execution_legend {\n    label = \"Execution Legend\";\n");
        push_legend(&mut out, &self.legend, Kind::Execution);
        out.append("  }\n}\n");
        assert(out@ =~= self.document_text(tips, links, names));
        Ok(out)
    }

    /// Renders the graph as a document of the DOT language. `tooltips`
    /// holds the tooltip of each node, in the order of the nodes. The URL
    /// of each node comes from the template of the graph, and the label of
    /// each edge from the path of its event.
    pub fn generate(&self, tooltips: &Vec<String>) -> (r: Result<String, GraphError>)
        requires
            self.wf(),
        ensures
            self.generated(views(tooltips@), r),
    {
        let n = self.nodes.len();
        let m = self.edges.len();
        if tooltips.len() != n {
            return Err(GraphError::Attributes);
        }
        let mut urls: Vec<String> = Vec::new();
        match &self.url_template {
            None => {
                let mut i: usize = 0;
                while i < n
                    invariant
                        0 <= i <= n,
                        urls@.len() == i,
                        forall|k: int| 0 <= k < i ==> urls@[k]@ == Seq::<char>::empty(),
                    decreases n - i,
                {
                    urls.push(String::new());
                    i += 1;
                }
                assert(views(urls@) =~= Seq::new(
                    self.visited().len(),
                    |i: int| Seq::<char>::empty(),
                ));
                assert(self.urls() == Some(views(urls@)));
            },
            Some(text) => {
                let template = match UrlTemplate::compile(text.as_str()) {
                    Ok(template) => template,
                    Err(e) => {
                        return Err(e);
                    },
                };
                let mut i: usize = 0;
                assert(views(urls@) =~= Seq::<Seq<char>>::empty());
                assert(self.template() == Some(text@));
                while i < n
                    invariant
                        n == self.nodes@.len(),
                        n == tooltips@.len(),
                        template.wf(),
                        template.text() == text@,
                        accepted(text@),
                        self.template() == Some(text@),
                        0 <= i <= n,
                        node_urls(text@, self.visited(), i as nat) == Some(views(urls@)),
                        urls@.len() == i,
                    decreases n - i,
                {
                    let ghost before = views(urls@);
                    match self.nodes[i].url(Some(&template)) {
                        Ok(url) => {
                            urls.push(url);
                            assert(views(urls@) =~= before.push(url@));
                        },
                        Err(e) => {
                            proof {
                                lemma_node_urls_none(text@, self.visited(), i as int, n as nat);
                            }
                            return Err(e);
                        },
                    }
                    i += 1;
                }
                assert(self.urls() == Some(views(urls@)));
            },
        }
        let mut labels: Vec<String> = Vec::new();
        let mut j: usize = 0;
        assert(views(labels@) =~= Seq::<Seq<char>>::empty());
        while j < m
            invariant
                self.wf(),
                n == self.nodes@.len(),
                n == tooltips@.len(),
                self.urls() == Some(views(urls@)),
                urls@.len() == n,
                m == self.edges@.len(),
                0 <= j <= m,
                edge_labels(self.found(), j as nat) == Some(views(labels@)),
                labels@.len() == j,
            decreases m - j,
        {
            let ghost before = views(labels@);
            match self.edges[j].label() {
                Ok(label) => {
                    labels.push(label);
                    assert(views(labels@) =~= before.push(label@));
                },
                Err(e) => {
                    proof {
                        lemma_edge_labels_none(self.found(), j as int, m as nat);
                    }
                    return Err(e);
                },
            }
            j += 1;
        }
        self.document(tooltips, &urls, &labels)
    }
}

/// The nodes have no URLs where the template does not render for one of
/// them.
pub proof fn lemma_node_urls_none(text: Seq<char>, nodes: Seq<Node>, i: int, n: nat)
    requires
        0 <= i < n,
        url_text(text, nodes[i].id().kind(), nodes[i].id().number()) is None,
    ensures
        node_urls(text, nodes, n) is None,
    decreases n,
{
    if i < n - 1 {
        lemma_node_urls_none(text, nodes, i, (n - 1) as nat);
    }
}

/// The edges have no labels where one of them has none.
pub proof fn lemma_edge_labels_none(edges: Seq<EventView>, j: int, n: nat)
    requires
        0 <= j < n,
        label_text(edges[j].path) is None,
    ensures
        edge_labels(edges, n) is None,
    decreases n,
{
    if j < n - 1 {
        lemma_edge_labels_none(edges, j, (n - 1) as nat);
    }
}

/// The legend of a graph holds exactly the types that its nodes have: a
/// type of a kind stands in it where, and only where, a node of that kind
/// has it, and no type stands in it twice.
pub proof fn lemma_graph_legend(g: Graph, kind: Kind, id: i32)
    requires
        g.wf(),
    ensures
        has_entry(g.key().types(), kind, id) <==> has_type(g.visited(), kind, id),
        forall|i: int, j: int|
            0 <= i < g.key().types().len() && 0 <= j < g.key().types().len() && (
            #[trigger] g.key().types()[i]).kind() == (#[trigger] g.key().types()[j]).kind()
                && g.key().types()[i].id() == g.key().types()[j].id() ==> i == j,
{
    let types = g.key().types();
    assert forall|i: int, j: int|
        0 <= i < types.len() && 0 <= j < types.len() && (#[trigger] types[i]).kind() == (
        #[trigger] types[j]).kind() && types[i].id() == types[j].id() implies i == j by {
        if i < j {
            assert(types[i].id() < types[j].id());
        }
        if j < i {
            assert(types[j].id() < types[i].id());
        }
    }
}

} // verus!
