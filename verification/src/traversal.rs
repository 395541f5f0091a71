//! Discovery of a lineage graph: a search from an origin through the
//! events of the store, which visits every node once.
use vstd::prelude::*;
use crate::error::GraphError;
use crate::graph::{source, target, Edge, Node, NodeId};
use crate::metadata::{Event, EventView};

verus! {

/// Which events count as the edges at a node.
#[derive(Debug, Clone, Copy, PartialEq, Eq, Hash, Structural)]
pub enum Policy {
    /// The whole ancestry of the origin: at an artifact the events by which
    /// it went into an execution, at an execution the events by which an
    /// artifact came out of it.
    Lineage,
    /// What went into one execution and what came out of it: at an
    /// execution every such event, at an artifact none.
    Io,
}

/// Whether an event is an edge at a node under a policy. An event of
/// unknown type is an edge nowhere.
pub open spec fn adjacent(policy: Policy, id: NodeId, e: EventView) -> bool {
    match id {
        NodeId::Artifact(a) => policy is Lineage && e.artifact_id == a && e.ty.input(),
        NodeId::Execution(x) => e.execution_id == x && (e.ty.output() || (policy is Io
            && e.ty.input())),
    }
}

/// The events of a list as mathematical values.
pub open spec fn event_views(events: Seq<Event>) -> Seq<EventView> {
    Seq::new(events.len(), |i: int| events[i]@)
}

/// The events of a list of edges.
pub open spec fn edge_views(edges: Seq<Edge>) -> Seq<EventView> {
    Seq::new(edges.len(), |i: int| edges[i]@)
}

/// The keys of a list of nodes.
pub open spec fn ids(nodes: Seq<Node>) -> Seq<NodeId> {
    Seq::new(nodes.len(), |i: int| nodes[i].id())
}

/// The events of a list that are edges at a node, in the order of the list.
pub open spec fn kept(policy: Policy, id: NodeId, events: Seq<EventView>) -> Seq<EventView>
    decreases events.len(),
{
    if events.len() == 0 {
        Seq::empty()
    } else if adjacent(policy, id, events.last()) {
        kept(policy, id, events.drop_last()).push(events.last())
    } else {
        kept(policy, id, events.drop_last())
    }
}

/// Both ends of every event of a list: for each event in turn the node
/// where its edge starts and the node where it ends.
pub open spec fn endpoints(events: Seq<EventView>) -> Seq<NodeId>
    decreases events.len(),
{
    if events.len() == 0 {
        Seq::empty()
    } else {
        endpoints(events.drop_last()).push(source(events.last())).push(target(events.last()))
    }
}

/// A set of edges after the events of a list were put into it in turn: an
/// event that the set holds already is not put in again.
pub open spec fn merged(found: Seq<EventView>, events: Seq<EventView>) -> Seq<EventView>
    decreases events.len(),
{
    if events.len() == 0 {
        found
    } else {
        let front = merged(found, events.drop_last());
        if front.contains(events.last()) {
            front
        } else {
            front.push(events.last())
        }
    }
}

/// A stack without the visited nodes at its top.
pub open spec fn trimmed(pending: Seq<NodeId>, visited: Seq<Node>) -> Seq<NodeId>
    decreases pending.len(),
{
    if pending.len() > 0 && ids(visited).contains(pending.last()) {
        trimmed(pending.drop_last(), visited)
    } else {
        pending
    }
}

/// A node that the search has met: it waits on the stack or was visited.
pub open spec fn known(pending: Seq<NodeId>, visited: Seq<Node>, id: NodeId) -> bool {
    pending.contains(id) || ids(visited).contains(id)
}

/// An event that is an edge at one of the visited nodes.
pub open spec fn at_visited(policy: Policy, visited: Seq<Node>, e: EventView) -> bool {
    exists|j: int| 0 <= j < visited.len() && #[trigger] adjacent(policy, visited[j].id(), e)
}

/// What holds of a search at every moment.
pub open spec fn consistent(
    policy: Policy,
    origin: NodeId,
    pending: Seq<NodeId>,
    visited: Seq<Node>,
    found: Seq<EventView>,
) -> bool {
    &&& ids(visited).no_duplicates()
    &&& found.no_duplicates()
    &&& known(pending, visited, origin)
    &&& forall|i: int|
        0 <= i < found.len() ==> known(pending, visited, source(#[trigger] found[i])) && known(
            pending,
            visited,
            target(found[i]),
        )
    &&& forall|i: int| 0 <= i < found.len() ==> at_visited(policy, visited, #[trigger] found[i])
    &&& policy is Io ==> forall|id: NodeId| #[trigger]
        known(pending, visited, id) && id is Execution ==> id == origin
}

/// What holds of the result of a search.
pub open spec fn complete(
    policy: Policy,
    origin: NodeId,
    visited: Seq<Node>,
    found: Seq<EventView>,
) -> bool {
    &&& ids(visited).no_duplicates()
    &&& found.no_duplicates()
    &&& ids(visited).contains(origin)
    &&& forall|i: int|
        0 <= i < found.len() ==> ids(visited).contains(source(#[trigger] found[i])) && ids(
            visited,
        ).contains(target(found[i]))
    &&& forall|i: int| 0 <= i < found.len() ==> at_visited(policy, visited, #[trigger] found[i])
    &&& policy is Io ==> forall|i: int|
        0 <= i < visited.len() && (#[trigger] visited[i]).id() is Execution ==> visited[i].id()
            == origin
}

/// Every event that is kept is an edge at the node and stands in the list.
pub proof fn lemma_kept(policy: Policy, id: NodeId, events: Seq<EventView>)
    ensures
        forall|i: int|
            0 <= i < kept(policy, id, events).len() ==> adjacent(
                policy,
                id,
                #[trigger] kept(policy, id, events)[i],
            ) && events.contains(kept(policy, id, events)[i]),
        forall|k: int|
            0 <= k < events.len() && adjacent(policy, id, #[trigger] events[k]) ==> kept(
                policy,
                id,
                events,
            ).contains(events[k]),
    decreases events.len(),
{
    if events.len() > 0 {
        let front = events.drop_last();
        lemma_kept(policy, id, front);
        let all = kept(policy, id, events);
        assert forall|i: int| 0 <= i < all.len() implies adjacent(policy, id, #[trigger] all[i])
            && events.contains(all[i]) by {
            if i < kept(policy, id, front).len() {
                let e = kept(policy, id, front)[i];
                assert(front.contains(e));
                let k = choose|k: int| 0 <= k < front.len() && front[k] == e;
                assert(events[k] == e);
            } else {
                assert(all[i] == events.last());
                assert(events[events.len() - 1] == all[i]);
            }
        }
        assert forall|k: int|
            0 <= k < events.len() && adjacent(policy, id, #[trigger] events[k]) implies all.contains(
            events[k],
        ) by {
            if k < front.len() {
                assert(front[k] == events[k]);
                let j = choose|j: int|
                    0 <= j < kept(policy, id, front).len() && kept(policy, id, front)[j]
                        == events[k];
                assert(all[j] == events[k]);
            } else {
                assert(all[all.len() - 1] == events[k]);
            }
        }
    }
}

/// Whether a node is one of the two ends of an event.
pub open spec fn is_end(e: EventView, id: NodeId) -> bool {
    id == source(e) || id == target(e)
}

/// Whether a node is an end of one of the events of a list.
pub open spec fn ends_in(events: Seq<EventView>, id: NodeId) -> bool {
    exists|i: int| 0 <= i < events.len() && is_end(#[trigger] events[i], id)
}

/// The ends of the events of a list, and nothing else, are its endpoints.
pub proof fn lemma_endpoints(events: Seq<EventView>, id: NodeId)
    ensures
        endpoints(events).contains(id) <==> ends_in(events, id),
    decreases events.len(),
{
    if events.len() > 0 {
        let front = events.drop_last();
        lemma_endpoints(front, id);
        let all = endpoints(events);
        let n = endpoints(front).len() as int;
        let last = events[events.len() - 1];
        assert(all.len() == n + 2);
        assert(all[n] == source(last));
        assert(all[n + 1] == target(last));
        if all.contains(id) {
            let j = choose|j: int| 0 <= j < all.len() && all[j] == id;
            if j < n {
                assert(endpoints(front)[j] == id);
                let i = choose|i: int| 0 <= i < front.len() && is_end(#[trigger] front[i], id);
                assert(is_end(events[i], id));
            } else {
                assert(is_end(last, id));
            }
        }
        if ends_in(events, id) {
            let i = choose|i: int| 0 <= i < events.len() && is_end(#[trigger] events[i], id);
            if i < front.len() {
                assert(is_end(front[i], id));
                let j = choose|j: int| 0 <= j < n && endpoints(front)[j] == id;
                assert(all[j] == id);
            }
        }
    }
}

/// Putting events into a set of edges keeps what the set held, adds every
/// event of the list and nothing else, and puts nothing in twice.
pub proof fn lemma_merged(found: Seq<EventView>, events: Seq<EventView>)
    ensures
        forall|i: int| 0 <= i < found.len() ==> merged(found, events).contains(#[trigger] found[i]),
        forall|k: int|
            0 <= k < events.len() ==> merged(found, events).contains(#[trigger] events[k]),
        forall|j: int|
            0 <= j < merged(found, events).len() ==> found.contains(
                #[trigger] merged(found, events)[j],
            ) || events.contains(merged(found, events)[j]),
        found.no_duplicates() ==> merged(found, events).no_duplicates(),
    decreases events.len(),
{
    if events.len() == 0 {
        assert forall|i: int| 0 <= i < found.len() implies merged(found, events).contains(
            #[trigger] found[i],
        ) by {
            assert(merged(found, events)[i] == found[i]);
        }
    } else {
        let front_events = events.drop_last();
        lemma_merged(found, front_events);
        let front = merged(found, front_events);
        let all = merged(found, events);
        let last = events.last();
        assert forall|e: EventView| front.contains(e) implies all.contains(e) by {
            let j = choose|j: int| 0 <= j < front.len() && front[j] == e;
            assert(all[j] == e);
        }
        assert forall|i: int| 0 <= i < found.len() implies all.contains(#[trigger] found[i]) by {
            assert(front.contains(found[i]));
        }
        assert forall|k: int| 0 <= k < events.len() implies all.contains(#[trigger] events[k]) by {
            if k < front_events.len() {
                assert(front_events[k] == events[k]);
                assert(front.contains(events[k]));
            } else if !front.contains(last) {
                assert(all[all.len() - 1] == last);
            }
        }
        assert forall|j: int| 0 <= j < all.len() implies found.contains(#[trigger] all[j])
            || events.contains(all[j]) by {
            if j < front.len() {
                assert(all[j] == front[j]);
                if !found.contains(front[j]) {
                    let k = choose|k: int|
                        0 <= k < front_events.len() && front_events[k] == front[j];
                    assert(events[k] == front[j]);
                }
            } else {
                assert(events[events.len() - 1] == all[j]);
            }
        }
    }
}

/// Whether an event is an edge at a node under a policy.
pub fn is_adjacent(policy: Policy, id: NodeId, event: &Event) -> (b: bool)
    ensures
        b == adjacent(policy, id, event@),
{
    match id {
        NodeId::Artifact(a) => {
            match policy {
                Policy::Lineage => event.artifact_id == a && event.ty.is_input(),
                Policy::Io => false,
            }
        },
        NodeId::Execution(x) => {
            if event.execution_id != x {
                false
            } else if event.ty.is_output() {
                true
            } else {
                match policy {
                    Policy::Lineage => false,
                    Policy::Io => event.ty.is_input(),
                }
            }
        },
    }
}

impl Policy {
    /// Whether a node can have edges under this policy. Where it cannot,
    /// its events need not be asked for.
    pub fn follows(self, id: NodeId) -> (b: bool)
        ensures
            b == !(self is Io && id is Artifact),
            !b ==> forall|e: EventView| !adjacent(self, id, e),
    {
        match (self, id) {
            (Policy::Io, NodeId::Artifact(_)) => false,
            _ => true,
        }
    }
}

/// The node of a key, out of the records that the store gave for it: the
/// key must have brought exactly one record, and that record must have the
/// key.
pub fn get_node(id: NodeId, records: &Vec<Node>) -> (r: Result<Node, GraphError>)
    ensures
        records@.len() == 1 && records@[0].id() == id ==> r == Ok::<Node, GraphError>(records@[0]),
        !(records@.len() == 1 && records@[0].id() == id) ==> r == Err::<Node, GraphError>(
            GraphError::NotFound(id),
        ),
{
    if records.len() == 1 && records[0].id() == id {
        Ok(records[0])
    } else {
        Err(GraphError::NotFound(id))
    }
}

/// The edges at a node, out of the events that the store gave for it.
pub fn get_edges(policy: Policy, id: NodeId, events: Vec<Event>) -> (r: Vec<Edge>)
    ensures
        edge_views(r@) == kept(policy, id, event_views(events@)),
{
    let mut edges: Vec<Edge> = Vec::new();
    let ghost all = event_views(events@);
    let ghost given = events@;
    for event in it: events
        invariant
            it.seq() == given,
            all == event_views(given),
            edge_views(edges@) == kept(policy, id, all.take(it.index() as int)),
    {
        assert(all.take(it.index() + 1).drop_last() =~= all.take(it.index() as int));
        assert(all.take(it.index() + 1).last() == event@);
        if is_adjacent(policy, id, &event) {
            let ghost before = edge_views(edges@);
            edges.push(Edge::new(event));
            assert(edge_views(edges@) =~= before.push(event@));
        }
    }
    assert(all.take(all.len() as int) =~= all);
    edges
}

/// The first place in a list at which the node of a key stands.
pub fn find_node(nodes: &Vec<Node>, id: NodeId) -> (r: Option<usize>)
    ensures
        match r {
            Some(i) => i < nodes@.len() && nodes@[i as int].id() == id && forall|j: int|
                0 <= j < i ==> ids(nodes@)[j] != id,
            None => !ids(nodes@).contains(id),
        },
{
    let n = nodes.len();
    let mut i: usize = 0;
    while i < n
        invariant
            n == nodes@.len(),
            0 <= i <= n,
            forall|j: int| 0 <= j < i ==> ids(nodes@)[j] != id,
        decreases n - i,
    {
        if nodes[i].id() == id {
            return Some(i);
        }
        i += 1;
    }
    None
}

/// Whether a list of edges holds the edge of an event.
pub fn has_edge(edges: &Vec<Edge>, event: &Event) -> (b: bool)
    ensures
        b == edge_views(edges@).contains(event@),
{
    let n = edges.len();
    let mut i: usize = 0;
    while i < n
        invariant
            n == edges@.len(),
            0 <= i <= n,
            forall|j: int| 0 <= j < i ==> edge_views(edges@)[j] != event@,
        decreases n - i,
    {
        if edges[i].event().same(event) {
            assert(edge_views(edges@)[i as int] == event@);
            return true;
        }
        i += 1;
    }
    false
}

/// A node that the search has met stays met when nodes are visited and
/// pushed.
pub proof fn lemma_known_grows(
    pending: Seq<NodeId>,
    visited: Seq<Node>,
    pushed: Seq<NodeId>,
    node: Node,
    id: NodeId,
)
    requires
        known(pending, visited, id),
    ensures
        known(pending + pushed, visited.push(node), id),
{
    if pending.contains(id) {
        let i = choose|i: int| 0 <= i < pending.len() && pending[i] == id;
        assert((pending + pushed)[i] == id);
    } else {
        let i = choose|i: int| 0 <= i < ids(visited).len() && ids(visited)[i] == id;
        assert(ids(visited.push(node))[i] == id);
    }
}

/// Taking a visited node off the stack leaves the search consistent.
pub proof fn lemma_pop(
    policy: Policy,
    origin: NodeId,
    pending: Seq<NodeId>,
    visited: Seq<Node>,
    found: Seq<EventView>,
)
    requires
        consistent(policy, origin, pending, visited, found),
        pending.len() > 0,
        ids(visited).contains(pending.last()),
    ensures
        consistent(policy, origin, pending.drop_last(), visited, found),
{
    let rest = pending.drop_last();
    assert forall|id: NodeId| known(pending, visited, id) implies known(rest, visited, id) by {
        if pending.contains(id) && id != pending.last() {
            let i = choose|i: int| 0 <= i < pending.len() && pending[i] == id;
            assert(rest[i] == id);
        }
    }
    assert forall|id: NodeId| known(rest, visited, id) implies known(pending, visited, id) by {
        if rest.contains(id) {
            let i = choose|i: int| 0 <= i < rest.len() && rest[i] == id;
            assert(pending[i] == id);
        }
    }
}

/// Visiting the node at the top of the stack leaves the search consistent.
pub proof fn lemma_visit(
    policy: Policy,
    origin: NodeId,
    pending: Seq<NodeId>,
    visited: Seq<Node>,
    found: Seq<EventView>,
    node: Node,
    events: Seq<EventView>,
)
    requires
        consistent(policy, origin, pending, visited, found),
        pending.len() > 0,
        pending.last() == node.id(),
        !ids(visited).contains(node.id()),
    ensures
        consistent(
            policy,
            origin,
            pending + endpoints(kept(policy, node.id(), events)),
            visited.push(node),
            merged(found, kept(policy, node.id(), events)),
        ),
{
    let adj = kept(policy, node.id(), events);
    let pushed = endpoints(adj);
    let pending2 = pending + pushed;
    let visited2 = visited.push(node);
    let found2 = merged(found, adj);
    lemma_kept(policy, node.id(), events);
    lemma_merged(found, adj);
    assert(ids(visited2) =~= ids(visited).push(node.id()));
    assert(pending[pending.len() - 1] == node.id());
    assert(known(pending, visited, node.id()));
    assert forall|id: NodeId| known(pending, visited, id) implies known(pending2, visited2, id) by {
        lemma_known_grows(pending, visited, pushed, node, id);
    }
    assert forall|i: int| 0 <= i < adj.len() implies known(
        pending2,
        visited2,
        source(#[trigger] adj[i]),
    ) && known(pending2, visited2, target(adj[i])) by {
        assert(is_end(adj[i], source(adj[i])));
        assert(is_end(adj[i], target(adj[i])));
        lemma_endpoints(adj, source(adj[i]));
        lemma_endpoints(adj, target(adj[i]));
        let a = choose|a: int| 0 <= a < pushed.len() && pushed[a] == source(adj[i]);
        assert(pending2[pending.len() + a] == source(adj[i]));
        let b = choose|b: int| 0 <= b < pushed.len() && pushed[b] == target(adj[i]);
        assert(pending2[pending.len() + b] == target(adj[i]));
    }
    assert forall|i: int| 0 <= i < found2.len() implies known(
        pending2,
        visited2,
        source(#[trigger] found2[i]),
    ) && known(pending2, visited2, target(found2[i])) && at_visited(policy, visited2, found2[i]) by {
        let e = found2[i];
        if found.contains(e) {
            let k = choose|k: int| 0 <= k < found.len() && found[k] == e;
            assert(known(pending, visited, source(found[k])));
            assert(known(pending, visited, target(found[k])));
            assert(at_visited(policy, visited, found[k]));
            let j = choose|j: int|
                0 <= j < visited.len() && #[trigger] adjacent(policy, visited[j].id(), e);
            assert(visited2[j] == visited[j]);
            assert(adjacent(policy, visited2[j].id(), e));
        } else {
            assert(adj.contains(e));
            let k = choose|k: int| 0 <= k < adj.len() && adj[k] == e;
            assert(adjacent(policy, node.id(), adj[k]));
            assert(visited2[visited.len() as int] == node);
            assert(adjacent(policy, visited2[visited.len() as int].id(), e));
        }
    }
    if policy is Io {
        assert forall|id: NodeId| #[trigger]
            known(pending2, visited2, id) && id is Execution implies id == origin by {
            if known(pending, visited, id) {
            } else if ids(visited2).contains(id) {
                let i = choose|i: int| 0 <= i < ids(visited2).len() && ids(visited2)[i] == id;
                if i < visited.len() {
                    assert(ids(visited)[i] == id);
                }
            } else {
                let i = choose|i: int| 0 <= i < pending2.len() && pending2[i] == id;
                if i < pending.len() {
                    assert(pending[i] == id);
                } else {
                    assert(pushed[i - pending.len()] == id);
                    lemma_endpoints(adj, id);
                    let k = choose|k: int| 0 <= k < adj.len() && is_end(#[trigger] adj[k], id);
                    assert(adjacent(policy, node.id(), adj[k]));
                    assert(id == node.id());
                }
            }
        }
    }
}

/// A search in progress. It hands out, one at a time, the nodes whose
/// records and events it needs, and takes them in.
pub struct Traversal {
    origin: NodeId,
    policy: Policy,
    stack: Vec<NodeId>,
    nodes: Vec<Node>,
    edges: Vec<Edge>,
}

/// The outcome of a search that has come to its end: the nodes that were
/// visited and the edges that were found.
pub struct Discovery {
    origin: NodeId,
    policy: Policy,
    nodes: Vec<Node>,
    edges: Vec<Edge>,
}

impl Traversal {
    /// The node at which the search started.
    pub closed spec fn spec_origin(&self) -> NodeId {
        self.origin
    }

    /// The policy of the search.
    pub closed spec fn spec_policy(&self) -> Policy {
        self.policy
    }

    /// The stack of nodes that wait for a visit, its top last.
    pub closed spec fn pending(&self) -> Seq<NodeId> {
        self.stack@
    }

    /// The nodes visited so far, in the order of their visits.
    pub closed spec fn visited(&self) -> Seq<Node> {
        self.nodes@
    }

    /// The events of the edges found so far.
    pub closed spec fn found(&self) -> Seq<EventView> {
        edge_views(self.edges@)
    }

    /// What holds of a search at every moment: no node was visited twice
    /// and no edge found twice, the origin and both ends of every edge
    /// wait for a visit or had it, every edge is an edge at a visited
    /// node, and under the I/O policy no execution but the origin was met.
    pub open spec fn wf(&self) -> bool {
        consistent(self.policy(), self.origin(), self.pending(), self.visited(), self.found())
    }

    /// Whether the search waits for the record and the events of this node.
    pub open spec fn awaits(&self, id: NodeId) -> bool {
        &&& self.pending().len() > 0
        &&& self.pending().last() == id
        &&& !ids(self.visited()).contains(id)
    }

    /// A search that has met its origin and nothing else.
    pub fn new(origin: NodeId, policy: Policy) -> (r: Traversal)
        ensures
            r.wf(),
            r.origin() == origin,
            r.policy() == policy,
            r.pending() == seq![origin],
            r.visited() == Seq::<Node>::empty(),
            r.found() == Seq::<EventView>::empty(),
    {
        let mut stack: Vec<NodeId> = Vec::new();
        stack.push(origin);
        let r = Traversal { origin, policy, stack, nodes: Vec::new(), edges: Vec::new() };
        assert(r.pending() =~= seq![origin]);
        assert(r.pending()[0] == origin);
        assert(r.found() =~= Seq::<EventView>::empty());
        assert(ids(r.visited()) =~= Seq::<NodeId>::empty());
        r
    }

    /// The node at which the search started.
    #[verifier::when_used_as_spec(spec_origin)]
    pub fn origin(&self) -> (r: NodeId)
        ensures
            r == self.origin(),
    {
        self.origin
    }

    /// The policy of the search.
    #[verifier::when_used_as_spec(spec_policy)]
    pub fn policy(&self) -> (r: Policy)
        ensures
            r == self.policy(),
    {
        self.policy
    }

    /// The nodes visited so far.
    pub fn nodes(&self) -> (r: &Vec<Node>)
        ensures
            r@ == self.visited(),
    {
        &self.nodes
    }

    /// The edges found so far.
    pub fn edges(&self) -> (r: &Vec<Edge>)
        ensures
            edge_views(r@) == self.found(),
    {
        &self.edges
    }

    /// The node to visit next, if one is left: takes the nodes that were
    /// visited off the top of the stack and names the node that is on top
    /// after that. The node stays on the stack until it is visited.
    pub fn next(&mut self) -> (r: Option<NodeId>)
        requires
            old(self).wf(),
        ensures
            final(self).wf(),
            final(self).origin() == old(self).origin(),
            final(self).policy() == old(self).policy(),
            final(self).visited() == old(self).visited(),
            final(self).found() == old(self).found(),
            final(self).pending() == trimmed(old(self).pending(), old(self).visited()),
            match r {
                Some(id) => final(self).awaits(id),
                None => final(self).pending().len() == 0,
            },
    {
        loop
            invariant
                self.wf(),
                self.origin() == old(self).origin(),
                self.policy() == old(self).policy(),
                self.visited() == old(self).visited(),
                self.found() == old(self).found(),
                trimmed(self.pending(), self.visited()) == trimmed(
                    old(self).pending(),
                    old(self).visited(),
                ),
            decreases self.stack@.len(),
        {
            let n = self.stack.len();
            if n == 0 {
                return None;
            }
            let id = self.stack[n - 1];
            match find_node(&self.nodes, id) {
                Some(_) => {
                    proof {
                        let i = choose|i: int|
                            0 <= i < self.nodes@.len() && self.nodes@[i].id() == id;
                        assert(ids(self.nodes@)[i] == id);
                        lemma_pop(
                            self.policy(),
                            self.origin(),
                            self.pending(),
                            self.visited(),
                            self.found(),
                        );
                    }
                    self.stack.pop();
                },
                None => {
                    return Some(id);
                },
            }
        }
    }

    /// Takes in the record of a node and the events that the store holds
    /// for it. Where the search waits for this node, the node is visited:
    /// it joins the visited nodes, and for each event that is an edge at it
    /// both ends of the edge are pushed and the edge joins the edges found,
    /// unless it is among them already. Else nothing changes. The result
    /// says whether the node was visited.
    pub fn visit(&mut self, node: Node, events: Vec<Event>) -> (visited: bool)
        requires
            old(self).wf(),
        ensures
            final(self).wf(),
            final(self).origin() == old(self).origin(),
            final(self).policy() == old(self).policy(),
            visited == old(self).awaits(node.id()),
            !visited ==> final(self).pending() == old(self).pending() && final(self).visited()
                == old(self).visited() && final(self).found() == old(self).found(),
            visited ==> final(self).visited() == old(self).visited().push(node),
            visited ==> final(self).pending() == old(self).pending() + endpoints(
                kept(old(self).policy(), node.id(), event_views(events@)),
            ),
            visited ==> final(self).found() == merged(
                old(self).found(),
                kept(old(self).policy(), node.id(), event_views(events@)),
            ),
    {
        let id = node.id();
        let n = self.stack.len();
        if n == 0 || self.stack[n - 1] != id {
            return false;
        }
        if find_node(&self.nodes, id).is_some() {
            proof {
                let i = choose|i: int| 0 <= i < self.nodes@.len() && self.nodes@[i].id() == id;
                assert(ids(self.nodes@)[i] == id);
            }
            return false;
        }
        let ghost all = event_views(events@);
        let ghost pending = self.pending();
        let ghost found = self.found();
        let ghost before = self.visited();
        let adjacent_edges = get_edges(self.policy, id, events);
        let ghost adj = edge_views(adjacent_edges@);
        let ghost given = adjacent_edges@;
        self.nodes.push(node);
        for edge in it: adjacent_edges
            invariant
                it.seq() == given,
                adj == edge_views(given),
                self.origin() == old(self).origin(),
                self.policy() == old(self).policy(),
                self.visited() == before.push(node),
                self.pending() == pending + endpoints(adj.take(it.index() as int)),
                self.found() == merged(found, adj.take(it.index() as int)),
        {
            assert(adj.take(it.index() + 1).drop_last() =~= adj.take(it.index() as int));
            assert(adj.take(it.index() + 1).last() == edge@);
            self.stack.push(edge.from_node());
            self.stack.push(edge.to_node());
            assert(self.pending() =~= pending + endpoints(adj.take(it.index() + 1)));
            if !has_edge(&self.edges, edge.event()) {
                let ghost held = edge_views(self.edges@);
                self.edges.push(edge);
                assert(edge_views(self.edges@) =~= held.push(edge@));
            }
        }
        proof {
            assert(adj.take(adj.len() as int) =~= adj);
            lemma_visit(old(self).policy(), old(self).origin(), pending, before, found, node, all);
        }
        true
    }

    /// The outcome of the search, once no node waits for a visit.
    pub fn finish(self) -> (r: Option<Discovery>)
        requires
            self.wf(),
        ensures
            r is Some <==> trimmed(self.pending(), self.visited()).len() == 0,
            r matches Some(d) ==> d.wf() && d.origin() == self.origin() && d.policy()
                == self.policy() && d.visited() == self.visited() && d.found() == self.found(),
    {
        let mut search = self;
        match search.next() {
            Some(_) => None,
            None => {
                let d = Discovery {
                    origin: search.origin,
                    policy: search.policy,
                    nodes: search.nodes,
                    edges: search.edges,
                };
                proof {
                    let visited = d.visited();
                    assert forall|id: NodeId| known(Seq::empty(), visited, id) implies ids(
                        visited,
                    ).contains(id) by {}
                    assert(search.pending() =~= Seq::<NodeId>::empty());
                    if d.policy() is Io {
                        assert forall|i: int|
                            0 <= i < visited.len() && (#[trigger] visited[i]).id()
                                is Execution implies visited[i].id() == d.origin() by {
                            assert(ids(visited)[i] == visited[i].id());
                            assert(known(Seq::empty(), visited, visited[i].id()));
                        }
                    }
                }
                Some(d)
            },
        }
    }
}

impl Discovery {
    /// The node at which the search started.
    pub closed spec fn spec_origin(&self) -> NodeId {
        self.origin
    }

    /// The policy of the search.
    pub closed spec fn spec_policy(&self) -> Policy {
        self.policy
    }

    /// The nodes that were visited, in the order of their visits.
    pub closed spec fn visited(&self) -> Seq<Node> {
        self.nodes@
    }

    /// The events of the edges that were found.
    pub closed spec fn found(&self) -> Seq<EventView> {
        edge_views(self.edges@)
    }

    /// What holds of the outcome of a search: every node stands once and
    /// every edge once, the origin is a node, both ends of every edge are
    /// nodes, every edge is an edge at one of the nodes, and under the I/O
    /// policy the origin is the only execution.
    pub open spec fn wf(&self) -> bool {
        complete(self.policy(), self.origin(), self.visited(), self.found())
    }

    /// The node at which the search started.
    #[verifier::when_used_as_spec(spec_origin)]
    pub fn origin(&self) -> (r: NodeId)
        ensures
            r == self.origin(),
    {
        self.origin
    }

    /// The policy of the search.
    #[verifier::when_used_as_spec(spec_policy)]
    pub fn policy(&self) -> (r: Policy)
        ensures
            r == self.policy(),
    {
        self.policy
    }

    /// The nodes that were visited.
    pub fn nodes(&self) -> (r: &Vec<Node>)
        ensures
            r@ == self.visited(),
    {
        &self.nodes
    }

    /// The edges that were found.
    pub fn edges(&self) -> (r: &Vec<Edge>)
        ensures
            edge_views(r@) == self.found(),
    {
        &self.edges
    }

    /// The nodes and the edges, handed over.
    pub fn into_parts(self) -> (r: (Vec<Node>, Vec<Edge>))
        ensures
            r.0@ == self.visited(),
            edge_views(r.1@) == self.found(),
    {
        (self.nodes, self.edges)
    }
}

/// Every node of a lineage graph stands in it once.
pub proof fn lemma_nodes_once(d: Discovery, i: int, j: int)
    requires
        d.wf(),
        0 <= i < d.visited().len(),
        0 <= j < d.visited().len(),
        d.visited()[i].id() == d.visited()[j].id(),
    ensures
        i == j,
{
    assert(ids(d.visited())[i] == ids(d.visited())[j]);
}

/// Both ends of every edge of a lineage graph are nodes of the graph.
pub proof fn lemma_ends_are_nodes(d: Discovery, i: int)
    requires
        d.wf(),
        0 <= i < d.found().len(),
    ensures
        ids(d.visited()).contains(source(d.found()[i])),
        ids(d.visited()).contains(target(d.found()[i])),
{
}

/// Under the I/O policy the only execution of a lineage graph is its
/// origin.
pub proof fn lemma_io_has_one_execution(d: Discovery, i: int)
    requires
        d.wf(),
        d.policy() is Io,
        0 <= i < d.visited().len(),
        d.visited()[i].id() is Execution,
    ensures
        d.visited()[i].id() == d.origin(),
{
}

} // verus!
