//! Options of the graph of the inputs and outputs of an execution.
use vstd::prelude::*;
use crate::graph::{Node, NodeId};
use crate::metadata::EventView;
use crate::traversal::{Policy, Traversal};

verus! {

/// The options of the graph that shows what went into an execution and
/// what came out of it.
#[derive(Debug, Clone, PartialEq, Eq)]
pub struct GraphIoOpt {
    /// The URL of the database.
    pub db: String,
    /// The id of the execution.
    pub execution: i32,
    /// The template of the URLs of the nodes. In it `{node_type}` stands
    /// for `artifact` or `execution` and `{id}` for the number of the node.
    pub url_template: Option<String>,
}

impl GraphIoOpt {
    /// The origin of the graph: the execution.
    pub fn origin(&self) -> (r: NodeId)
        ensures
            r == NodeId::Execution(self.execution),
    {
        NodeId::Execution(self.execution)
    }

    /// The search for the graph: from the execution, one edge far.
    pub fn search(&self) -> (r: Traversal)
        ensures
            r.wf(),
            r.origin() == NodeId::Execution(self.execution),
            r.policy() == Policy::Io,
            r.pending() == seq![NodeId::Execution(self.execution)],
            r.visited() == Seq::<Node>::empty(),
            r.found() == Seq::<EventView>::empty(),
    {
        Traversal::new(self.origin(), Policy::Io)
    }
}

} // verus!
