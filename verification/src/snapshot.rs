//! A store held in memory, and the search of it: the search visits
//! exactly the nodes that can be reached from its origin.
use vstd::prelude::*;
use crate::error::GraphError;
use crate::graph::{source, target, Node, NodeId};
use crate::metadata::{Event, EventView};
use crate::traversal::{
    adjacent, at_visited, endpoints, event_views, get_node, ids, is_end, kept, known,
    lemma_endpoints, lemma_kept, lemma_merged, merged, trimmed, Discovery, Policy, Traversal,
};

verus! {

/// Whether an event is one of the events of a node: of the artifact, or of
/// the execution, that the key names.
pub open spec fn incident(id: NodeId, e: EventView) -> bool {
    match id {
        NodeId::Artifact(a) => e.artifact_id == a,
        NodeId::Execution(x) => e.execution_id == x,
    }
}

/// The records of a list that have a key.
pub open spec fn with_id(nodes: Seq<Node>, id: NodeId) -> Seq<Node>
    decreases nodes.len(),
{
    if nodes.len() == 0 {
        Seq::empty()
    } else if nodes.last().id() == id {
        with_id(nodes.drop_last(), id).push(nodes.last())
    } else {
        with_id(nodes.drop_last(), id)
    }
}

/// The events of a list that are events of a node.
pub open spec fn of_node(events: Seq<EventView>, id: NodeId) -> Seq<EventView>
    decreases events.len(),
{
    if events.len() == 0 {
        Seq::empty()
    } else if incident(id, events.last()) {
        of_node(events.drop_last(), id).push(events.last())
    } else {
        of_node(events.drop_last(), id)
    }
}

/// Whether one edge at `a` leads to `b`: `b` is an end of an event that is
/// an edge at `a`.
pub open spec fn linked(policy: Policy, events: Seq<EventView>, a: NodeId, b: NodeId) -> bool {
    exists|k: int|
        0 <= k < events.len() && adjacent(policy, a, #[trigger] events[k]) && is_end(events[k], b)
}

/// Whether a walk of so many edges leads from the origin to a node.
pub open spec fn reaches(
    policy: Policy,
    events: Seq<EventView>,
    origin: NodeId,
    id: NodeId,
    steps: nat,
) -> bool
    decreases steps,
{
    if steps == 0 {
        id == origin
    } else {
        exists|mid: NodeId|
            reaches(policy, events, origin, mid, (steps - 1) as nat) && #[trigger] linked(
                policy,
                events,
                mid,
                id,
            )
    }
}

/// Whether some walk leads from the origin to a node.
pub open spec fn reachable(policy: Policy, events: Seq<EventView>, origin: NodeId, id: NodeId) -> bool {
    exists|steps: nat| reaches(policy, events, origin, id, steps)
}

/// Every node that the search has met can be reached from the origin.
pub open spec fn sound(
    policy: Policy,
    events: Seq<EventView>,
    origin: NodeId,
    pending: Seq<NodeId>,
    visited: Seq<Node>,
) -> bool {
    forall|id: NodeId| #[trigger] known(pending, visited, id) ==> reachable(policy, events, origin, id)
}

/// Every edge at a visited node was found.
pub open spec fn saturated(
    policy: Policy,
    events: Seq<EventView>,
    visited: Seq<Node>,
    found: Seq<EventView>,
) -> bool {
    forall|i: int, k: int|
        0 <= i < visited.len() && 0 <= k < events.len() && #[trigger] adjacent(
            policy,
            visited[i].id(),
            events[k],
        ) ==> found.contains(events[k])
}

/// Every edge that was found is an event of the list.
pub open spec fn drawn_from(events: Seq<EventView>, found: Seq<EventView>) -> bool {
    forall|j: int| 0 <= j < found.len() ==> events.contains(#[trigger] found[j])
}

/// The records with a key all have the key and stand in the list.
pub proof fn lemma_with_id(nodes: Seq<Node>, id: NodeId)
    ensures
        forall|i: int|
            0 <= i < with_id(nodes, id).len() ==> (#[trigger] with_id(nodes, id)[i]).id() == id
                && ids(nodes).contains(id),
    decreases nodes.len(),
{
    if nodes.len() > 0 {
        let front = nodes.drop_last();
        lemma_with_id(front, id);
        let all = with_id(nodes, id);
        assert forall|i: int| 0 <= i < all.len() implies (#[trigger] all[i]).id() == id && ids(
            nodes,
        ).contains(id) by {
            if i < with_id(front, id).len() {
                assert(with_id(front, id)[i].id() == id);
                let j = choose|j: int| 0 <= j < ids(front).len() && ids(front)[j] == id;
                assert(ids(nodes)[j] == id);
            } else {
                assert(ids(nodes)[nodes.len() - 1] == id);
            }
        }
    }
}

/// The edges at a node are the same whether they are picked from all the
/// events or from the events of that node.
pub proof fn lemma_kept_of_node(policy: Policy, id: NodeId, events: Seq<EventView>)
    ensures
        kept(policy, id, of_node(events, id)) == kept(policy, id, events),
    decreases events.len(),
{
    if events.len() > 0 {
        lemma_kept_of_node(policy, id, events.drop_last());
        if incident(id, events.last()) {
            assert(of_node(events, id).drop_last() =~= of_node(events.drop_last(), id));
        }
    }
}

/// A node that stands on the trimmed stack stands on the stack.
pub proof fn lemma_trimmed(pending: Seq<NodeId>, visited: Seq<Node>, id: NodeId)
    requires
        trimmed(pending, visited).contains(id),
    ensures
        pending.contains(id),
    decreases pending.len(),
{
    if pending.len() > 0 && ids(visited).contains(pending.last()) {
        lemma_trimmed(pending.drop_last(), visited, id);
        let i = choose|i: int| 0 <= i < pending.drop_last().len() && pending.drop_last()[i] == id;
        assert(pending[i] == id);
    }
}

/// A set of nodes that holds the origin and both ends of every edge at
/// each of its nodes holds every node that can be reached.
pub proof fn lemma_closed(
    policy: Policy,
    events: Seq<EventView>,
    origin: NodeId,
    visited: Seq<Node>,
    id: NodeId,
    steps: nat,
)
    requires
        ids(visited).contains(origin),
        forall|i: int, k: int|
            0 <= i < visited.len() && 0 <= k < events.len() && #[trigger] adjacent(
                policy,
                visited[i].id(),
                events[k],
            ) ==> ids(visited).contains(source(events[k])) && ids(visited).contains(
                target(events[k]),
            ),
        reaches(policy, events, origin, id, steps),
    ensures
        ids(visited).contains(id),
    decreases steps,
{
    if steps > 0 {
        let mid = choose|mid: NodeId|
            reaches(policy, events, origin, mid, (steps - 1) as nat) && #[trigger] linked(
                policy,
                events,
                mid,
                id,
            );
        lemma_closed(policy, events, origin, visited, mid, (steps - 1) as nat);
        let i = choose|i: int| 0 <= i < ids(visited).len() && ids(visited)[i] == mid;
        let k = choose|k: int|
            0 <= k < events.len() && adjacent(policy, mid, #[trigger] events[k]) && is_end(
                events[k],
                id,
            );
        assert(visited[i].id() == mid);
        assert(adjacent(policy, visited[i].id(), events[k]));
    }
}

/// Visiting a node that can be reached keeps what holds of a search in a
/// store: the nodes met can be reached, every edge at a visited node was
/// found, and every edge found is an event of the store.
pub proof fn lemma_visit_in_store(
    policy: Policy,
    events: Seq<EventView>,
    origin: NodeId,
    pending: Seq<NodeId>,
    visited: Seq<Node>,
    found: Seq<EventView>,
    node: Node,
)
    requires
        sound(policy, events, origin, pending, visited),
        saturated(policy, events, visited, found),
        drawn_from(events, found),
        pending.contains(node.id()),
    ensures
        sound(
            policy,
            events,
            origin,
            pending + endpoints(kept(policy, node.id(), events)),
            visited.push(node),
        ),
        saturated(
            policy,
            events,
            visited.push(node),
            merged(found, kept(policy, node.id(), events)),
        ),
        drawn_from(events, merged(found, kept(policy, node.id(), events))),
{
    let adj = kept(policy, node.id(), events);
    let pushed = endpoints(adj);
    let pending2 = pending + pushed;
    let visited2 = visited.push(node);
    let found2 = merged(found, adj);
    lemma_kept(policy, node.id(), events);
    lemma_merged(found, adj);
    assert(known(pending, visited, node.id()));
    let steps = choose|steps: nat| reaches(policy, events, origin, node.id(), steps);
    assert forall|id: NodeId| #[trigger] known(pending2, visited2, id) implies reachable(
        policy,
        events,
        origin,
        id,
    ) by {
        if known(pending, visited, id) {
        } else if ids(visited2).contains(id) {
            let i = choose|i: int| 0 <= i < ids(visited2).len() && ids(visited2)[i] == id;
            if i < visited.len() {
                assert(ids(visited)[i] == id);
            }
        } else {
            let i = choose|i: int| 0 <= i < pending2.len() && pending2[i] == id;
            if i < pending.len() {
                assert(pending[i] == id);
            } else {
                assert(pushed[i - pending.len()] == id);
                lemma_endpoints(adj, id);
                let a = choose|a: int| 0 <= a < adj.len() && is_end(#[trigger] adj[a], id);
                assert(events.contains(adj[a]));
                let k = choose|k: int| 0 <= k < events.len() && events[k] == adj[a];
                assert(adjacent(policy, node.id(), events[k]) && is_end(events[k], id));
                assert(linked(policy, events, node.id(), id));
                assert(reaches(policy, events, origin, node.id(), ((steps + 1) - 1) as nat));
                assert(reaches(policy, events, origin, id, steps + 1));
            }
        }
    }
    assert forall|i: int, k: int|
        0 <= i < visited2.len() && 0 <= k < events.len() && #[trigger] adjacent(
            policy,
            visited2[i].id(),
            events[k],
        ) implies found2.contains(events[k]) by {
        if i < visited.len() {
            assert(visited2[i] == visited[i]);
            assert(found.contains(events[k]));
            let j = choose|j: int| 0 <= j < found.len() && found[j] == events[k];
            assert(found2.contains(found[j]));
        } else {
            assert(adj.contains(events[k]));
            let j = choose|j: int| 0 <= j < adj.len() && adj[j] == events[k];
            assert(found2.contains(adj[j]));
        }
    }
    assert forall|j: int| 0 <= j < found2.len() implies events.contains(#[trigger] found2[j]) by {
        if found.contains(found2[j]) {
            let a = choose|a: int| 0 <= a < found.len() && found[a] == found2[j];
            assert(events.contains(found[a]));
        } else {
            let a = choose|a: int| 0 <= a < adj.len() && adj[a] == found2[j];
            assert(events.contains(adj[a]));
        }
    }
}

/// Nodes with different keys that all stand in a list are no more than
/// the keys of the list.
pub proof fn lemma_bounded(visited: Seq<Node>, nodes: Seq<Node>)
    requires
        ids(visited).no_duplicates(),
        forall|i: int| 0 <= i < visited.len() ==> ids(nodes).contains(#[trigger] ids(visited)[i]),
    ensures
        visited.len() <= ids(nodes).to_set().len(),
{
    broadcast use vstd::seq_lib::seq_to_set_is_finite;

    ids(visited).unique_seq_to_set();
    assert(ids(visited).to_set().subset_of(ids(nodes).to_set())) by {
        assert forall|id: NodeId| ids(visited).to_set().contains(id) implies ids(
            nodes,
        ).to_set().contains(id) by {
            let i = choose|i: int| 0 <= i < ids(visited).len() && ids(visited)[i] == id;
            assert(ids(nodes).contains(ids(visited)[i]));
        }
    }
    vstd::set_lib::lemma_len_subset(ids(visited).to_set(), ids(nodes).to_set());
}

/// Trimming a stack that was trimmed changes nothing.
pub proof fn lemma_trimmed_twice(pending: Seq<NodeId>, visited: Seq<Node>)
    ensures
        trimmed(trimmed(pending, visited), visited) == trimmed(pending, visited),
    decreases pending.len(),
{
    if pending.len() > 0 && ids(visited).contains(pending.last()) {
        lemma_trimmed_twice(pending.drop_last(), visited);
    }
}

/// The search, visit by visit, for at most `visits` visits: the nodes that
/// were visited are taken off the top of the stack; where the stack is
/// empty after that, the search ends with what it has; else the node on
/// top is visited, if the records hold exactly one record for it. The
/// result is what the search ends with, or the node at which it fails.
pub open spec fn walked(
    nodes: Seq<Node>,
    events: Seq<EventView>,
    policy: Policy,
    pending: Seq<NodeId>,
    visited: Seq<Node>,
    found: Seq<EventView>,
    visits: nat,
) -> Result<(Seq<Node>, Seq<EventView>), NodeId>
    decreases visits,
{
    let stack = trimmed(pending, visited);
    if stack.len() == 0 {
        Ok((visited, found))
    } else if visits == 0 || with_id(nodes, stack.last()).len() != 1 {
        Err(stack.last())
    } else {
        let edges = kept(policy, stack.last(), events);
        walked(
            nodes,
            events,
            policy,
            stack + endpoints(edges),
            visited.push(with_id(nodes, stack.last())[0]),
            merged(found, edges),
            (visits - 1) as nat,
        )
    }
}

/// Records and events held in memory, which answer as the store does: by
/// key for records, by artifact or by execution for events.
pub struct Snapshot {
    pub nodes: Vec<Node>,
    pub events: Vec<Event>,
}

impl Snapshot {
    /// The one record of a key, where the snapshot holds exactly one.
    pub open spec fn resolves(&self, id: NodeId) -> Option<Node> {
        if with_id(self.nodes@, id).len() == 1 {
            Some(with_id(self.nodes@, id)[0])
        } else {
            None
        }
    }

    /// The search from `origin` under `policy`, visit by visit: the nodes
    /// in the order of their visits and the edges in the order in which
    /// they were found, or the node at which the search fails. No search
    /// has more visits than the snapshot has records.
    pub open spec fn walk(&self, origin: NodeId, policy: Policy) -> Result<
        (Seq<Node>, Seq<EventView>),
        NodeId,
    > {
        walked(
            self.nodes@,
            event_views(self.events@),
            policy,
            seq![origin],
            Seq::empty(),
            Seq::empty(),
            self.nodes@.len(),
        )
    }

    /// What a search from `origin` under `policy` finds in this snapshot:
    /// the nodes are those that can be reached from the origin, each with
    /// its one record, and the edges are the events that are an edge at
    /// one of these nodes.
    pub open spec fn discovered(&self, origin: NodeId, policy: Policy, d: Discovery) -> bool {
        &&& d.wf()
        &&& d.origin() == origin
        &&& d.policy() == policy
        &&& forall|id: NodeId| #[trigger]
            ids(d.visited()).contains(id) <==> reachable(
                policy,
                event_views(self.events@),
                origin,
                id,
            )
        &&& forall|i: int|
            0 <= i < d.visited().len() ==> self.resolves((#[trigger] d.visited()[i]).id()) == Some(
                d.visited()[i],
            )
        &&& forall|e: EventView| #[trigger]
            d.found().contains(e) <==> event_views(self.events@).contains(e) && at_visited(
                policy,
                d.visited(),
                e,
            )
    }

    /// The records that the snapshot holds for a key.
    pub fn get_nodes(&self, id: NodeId) -> (r: Vec<Node>)
        ensures
            r@ == with_id(self.nodes@, id),
    {
        let mut out: Vec<Node> = Vec::new();
        let n = self.nodes.len();
        let mut i: usize = 0;
        while i < n
            invariant
                n == self.nodes@.len(),
                0 <= i <= n,
                out@ == with_id(self.nodes@.take(i as int), id),
            decreases n - i,
        {
            assert(self.nodes@.take(i + 1).drop_last() =~= self.nodes@.take(i as int));
            if self.nodes[i].id() == id {
                out.push(self.nodes[i]);
            }
            i += 1;
        }
        assert(self.nodes@.take(n as int) =~= self.nodes@);
        out
    }

    /// The events that the snapshot holds for a node.
    pub fn get_events(&self, id: NodeId) -> (r: Vec<Event>)
        ensures
            event_views(r@) == of_node(event_views(self.events@), id),
    {
        let mut out: Vec<Event> = Vec::new();
        let n = self.events.len();
        let ghost all = event_views(self.events@);
        let mut i: usize = 0;
        while i < n
            invariant
                n == self.events@.len(),
                all == event_views(self.events@),
                0 <= i <= n,
                event_views(out@) == of_node(all.take(i as int), id),
            decreases n - i,
        {
            assert(all.take(i + 1).drop_last() =~= all.take(i as int));
            let event = &self.events[i];
            let is_incident = match id {
                NodeId::Artifact(a) => event.artifact_id == a,
                NodeId::Execution(x) => event.execution_id == x,
            };
            if is_incident {
                let ghost before = event_views(out@);
                out.push(event.copy());
                assert(event_views(out@) =~= before.push(event@));
            }
            i += 1;
        }
        assert(all.take(n as int) =~= all);
        out
    }

    /// Searches the snapshot from `origin` under `policy`. The search
    /// fails at the first node it meets for which the snapshot does not
    /// hold exactly one record; it succeeds where every node that can be
    /// reached has one.
    pub fn discover(&self, origin: NodeId, policy: Policy) -> (r: Result<Discovery, GraphError>)
        ensures
            match self.walk(origin, policy) {
                Ok((nodes, edges)) => r matches Ok(d) && d.visited() == nodes && d.found() == edges,
                Err(id) => r == Err::<Discovery, GraphError>(GraphError::NotFound(id)),
            },
            match r {
                Ok(d) => self.discovered(origin, policy, d),
                Err(e) => exists|id: NodeId|
                    e == GraphError::NotFound(id) && #[trigger] reachable(
                        policy,
                        event_views(self.events@),
                        origin,
                        id,
                    ) && self.resolves(id) is None,
            },
    {
        let ghost events = event_views(self.events@);
        let mut search = Traversal::new(origin, policy);
        proof {
            assert(reaches(policy, events, origin, origin, 0));
            assert forall|id: NodeId| #[trigger]
                known(search.pending(), search.visited(), id) implies reachable(
                policy,
                events,
                origin,
                id,
            ) by {
                assert(ids(search.visited()) =~= Seq::<NodeId>::empty());
                assert(id == origin);
            }
            lemma_bounded(search.visited(), self.nodes@);
            ids(self.nodes@).lemma_cardinality_of_set();
        }
        let mut next = search.next();
        proof {
            lemma_trimmed_twice(seq![origin], search.visited());
            assert(search.visited() =~= Seq::<Node>::empty());
            assert(search.found() =~= Seq::<EventView>::empty());
        }
        proof {
            assert forall|id: NodeId| #[trigger]
                known(search.pending(), search.visited(), id) implies reachable(
                policy,
                events,
                origin,
                id,
            ) by {
                if search.pending().contains(id) {
                    lemma_trimmed(seq![origin], search.visited(), id);
                }
            }
        }
        while next.is_some()
            invariant
                events == event_views(self.events@),
                search.wf(),
                search.origin() == origin,
                search.policy() == policy,
                match next {
                    Some(id) => search.awaits(id),
                    None => search.pending().len() == 0,
                },
                sound(policy, events, origin, search.pending(), search.visited()),
                saturated(policy, events, search.visited(), search.found()),
                drawn_from(events, search.found()),
                forall|i: int|
                    0 <= i < search.visited().len() ==> self.resolves(
                        (#[trigger] search.visited()[i]).id(),
                    ) == Some(search.visited()[i]),
                search.visited().len() <= ids(self.nodes@).to_set().len(),
                ids(self.nodes@).to_set().len() <= self.nodes@.len(),
                walked(
                    self.nodes@,
                    events,
                    policy,
                    search.pending(),
                    search.visited(),
                    search.found(),
                    (self.nodes@.len() - search.visited().len()) as nat,
                ) == self.walk(origin, policy),
            decreases ids(self.nodes@).to_set().len() - search.visited().len(),
        {
            let id = next.unwrap();
            let records = self.get_nodes(id);
            proof {
                lemma_with_id(self.nodes@, id);
                assert(search.pending()[search.pending().len() - 1] == id);
                assert(known(search.pending(), search.visited(), id));
            }
            proof {
                assert(trimmed(search.pending(), search.visited()) == search.pending());
                if records@.len() > 0 {
                    assert(records@[0].id() == id);
                }
            }
            let node = match get_node(id, &records) {
                Ok(node) => node,
                Err(e) => {
                    return Err(e);
                },
            };
            let found = self.get_events(id);
            let ghost pending = search.pending();
            let ghost visited = search.visited();
            let ghost edges = search.found();
            proof {
                lemma_kept_of_node(policy, id, events);
                lemma_visit_in_store(policy, events, origin, pending, visited, edges, node);
                assert forall|i: int| 0 <= i < visited.push(node).len() implies ids(
                    self.nodes@,
                ).contains(#[trigger] ids(visited.push(node))[i]) by {
                    let n = visited.push(node)[i];
                    lemma_with_id(self.nodes@, n.id());
                    if i < visited.len() {
                        assert(visited[i] == n);
                        assert(with_id(self.nodes@, n.id())[0].id() == n.id());
                    }
                }
                assert(ids(visited.push(node)) =~= ids(visited).push(node.id()));
                lemma_bounded(visited.push(node), self.nodes@);
            }
            search.visit(node, found);
            proof {
                let visits = (self.nodes@.len() - visited.len()) as nat;
                assert(visits > 0);
                assert(with_id(self.nodes@, id) == records@);
                assert(records@[0] == node);
                assert(trimmed(pending, visited) == pending);
                assert(walked(self.nodes@, events, policy, pending, visited, edges, visits)
                    == walked(
                    self.nodes@,
                    events,
                    policy,
                    search.pending(),
                    search.visited(),
                    search.found(),
                    (visits - 1) as nat,
                ));
            }
            proof {
                let after = search.visited();
                assert forall|i: int| 0 <= i < after.len() implies self.resolves(
                    (#[trigger] after[i]).id(),
                ) == Some(after[i]) by {
                    if i < visited.len() {
                        assert(after[i] == visited[i]);
                    }
                }
                assert forall|i: int| 0 <= i < after.len() implies ids(self.nodes@).contains(
                    #[trigger] ids(after)[i],
                ) by {
                    lemma_with_id(self.nodes@, after[i].id());
                    assert(with_id(self.nodes@, after[i].id())[0].id() == after[i].id());
                }
                lemma_bounded(after, self.nodes@);
            }
            let ghost pushed = search.pending();
            next = search.next();
            proof {
                lemma_trimmed_twice(pushed, search.visited());
                let visits = (self.nodes@.len() - search.visited().len()) as nat;
                assert(walked(
                    self.nodes@,
                    events,
                    policy,
                    search.pending(),
                    search.visited(),
                    search.found(),
                    visits,
                ) == walked(
                    self.nodes@,
                    events,
                    policy,
                    pushed,
                    search.visited(),
                    search.found(),
                    visits,
                ));
                assert forall|id: NodeId| #[trigger]
                    known(search.pending(), search.visited(), id) implies reachable(
                    policy,
                    events,
                    origin,
                    id,
                ) by {
                    if search.pending().contains(id) {
                        lemma_trimmed(pushed, search.visited(), id);
                    }
                    assert(known(pushed, search.visited(), id));
                }
            }
        }
        let ghost pending = search.pending();
        let ghost visited = search.visited();
        let ghost edges = search.found();
        match search.finish() {
            Some(d) => {
                proof {
                    assert forall|i: int, k: int|
                        0 <= i < visited.len() && 0 <= k < events.len() && #[trigger] adjacent(
                            policy,
                            visited[i].id(),
                            events[k],
                        ) implies ids(visited).contains(source(events[k])) && ids(visited).contains(
                        target(events[k]),
                    ) by {
                        assert(edges.contains(events[k]));
                        let j = choose|j: int| 0 <= j < edges.len() && edges[j] == events[k];
                        assert(ids(visited).contains(source(edges[j])));
                    }
                    assert forall|id: NodeId| #[trigger]
                        ids(visited).contains(id) <==> reachable(policy, events, origin, id) by {
                        if ids(visited).contains(id) {
                            assert(known(pending, visited, id));
                        }
                        if reachable(policy, events, origin, id) {
                            assert(known(pending, visited, origin));
                            assert(!pending.contains(origin));
                            let steps = choose|steps: nat|
                                reaches(policy, events, origin, id, steps);
                            lemma_closed(policy, events, origin, visited, id, steps);
                        }
                    }
                    assert forall|e: EventView| #[trigger]
                        edges.contains(e) <==> events.contains(e) && at_visited(
                            policy,
                            visited,
                            e,
                        ) by {
                        if edges.contains(e) {
                            let j = choose|j: int| 0 <= j < edges.len() && edges[j] == e;
                            assert(events.contains(edges[j]));
                            assert(at_visited(policy, visited, edges[j]));
                        }
                        if events.contains(e) && at_visited(policy, visited, e) {
                            let k = choose|k: int| 0 <= k < events.len() && events[k] == e;
                            let i = choose|i: int|
                                0 <= i < visited.len() && #[trigger] adjacent(
                                    policy,
                                    visited[i].id(),
                                    e,
                                );
                            assert(adjacent(policy, visited[i].id(), events[k]));
                        }
                    }
                }
                Ok(d)
            },
            None => {
                proof {
                    assert(trimmed(search.pending(), search.visited()) == search.pending());
                    assert(false);
                }
                Err(GraphError::NotFound(origin))
            },
        }
    }
}

/// Under the lineage policy a search goes on through a chain of
/// executions: where an artifact went into a first execution, a second
/// artifact came out of it and went into a second execution, a search from
/// the first artifact visits both executions and the second artifact.
pub proof fn lemma_lineage_follows_chain(
    store: Snapshot,
    d: Discovery,
    first: EventView,
    second: EventView,
    third: EventView,
)
    requires
        store.discovered(NodeId::Artifact(first.artifact_id), Policy::Lineage, d),
        event_views(store.events@).contains(first),
        event_views(store.events@).contains(second),
        event_views(store.events@).contains(third),
        first.ty.input(),
        second.ty.output(),
        second.execution_id == first.execution_id,
        third.ty.input(),
        third.artifact_id == second.artifact_id,
    ensures
        ids(d.visited()).contains(NodeId::Execution(first.execution_id)),
        ids(d.visited()).contains(NodeId::Artifact(second.artifact_id)),
        ids(d.visited()).contains(NodeId::Execution(third.execution_id)),
{
    let events = event_views(store.events@);
    let policy = Policy::Lineage;
    let a1 = NodeId::Artifact(first.artifact_id);
    let x1 = NodeId::Execution(first.execution_id);
    let a2 = NodeId::Artifact(second.artifact_id);
    let x2 = NodeId::Execution(third.execution_id);
    let i = choose|i: int| 0 <= i < events.len() && events[i] == first;
    let j = choose|j: int| 0 <= j < events.len() && events[j] == second;
    let k = choose|k: int| 0 <= k < events.len() && events[k] == third;
    assert(reaches(policy, events, a1, a1, 0));
    assert(adjacent(policy, a1, events[i]) && is_end(events[i], x1));
    assert(linked(policy, events, a1, x1));
    assert(reaches(policy, events, a1, x1, 1));
    assert(adjacent(policy, x1, events[j]) && is_end(events[j], a2));
    assert(linked(policy, events, x1, a2));
    assert(reaches(policy, events, a1, a2, 2));
    assert(adjacent(policy, a2, events[k]) && is_end(events[k], x2));
    assert(linked(policy, events, a2, x2));
    assert(reaches(policy, events, a1, x2, 3));
    assert(reachable(policy, events, a1, x1));
    assert(reachable(policy, events, a1, a2));
    assert(reachable(policy, events, a1, x2));
}

} // verus!
