//! Options of the lineage graph of an artifact.
use vstd::prelude::*;
use crate::graph::{Node, NodeId};
use crate::metadata::EventView;
use crate::traversal::{Policy, Traversal};

verus! {

/// The options of the graph that shows the lineage of an artifact.
#[derive(Debug, Clone, PartialEq, Eq)]
pub struct GraphDerivedOpt {
    /// The URL of the database.
    pub db: String,
    /// The id of the artifact.
    pub artifact: i32,
    /// The template of the URLs of the nodes. In it `{node_type}` stands
    /// for `artifact` or `execution` and `{id}` for the number of the node.
    pub url_template: Option<String>,
}

impl GraphDerivedOpt {
    /// The origin of the graph: the artifact.
    pub fn origin(&self) -> (r: NodeId)
        ensures
            r == NodeId::Artifact(self.artifact),
    {
        NodeId::Artifact(self.artifact)
    }

    /// The search for the graph: from the artifact, through its whole
    /// lineage.
    pub fn search(&self) -> (r: Traversal)
        ensures
            r.wf(),
            r.origin() == NodeId::Artifact(self.artifact),
            r.policy() == Policy::Lineage,
            r.pending() == seq![NodeId::Artifact(self.artifact)],
            r.visited() == Seq::<Node>::empty(),
            r.found() == Seq::<EventView>::empty(),
    {
        Traversal::new(self.origin(), Policy::Lineage)
    }
}

} // verus!
