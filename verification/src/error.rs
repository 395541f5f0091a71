//! The ways in which building or rendering a lineage graph fails.
use vstd::prelude::*;
use vstd::string::StringExecFns;
use crate::graph::NodeId;
use crate::metadata::Kind;
use crate::text::{decimal, push_decimal};

verus! {

/// Why a lineage graph could not be built or rendered. Every failure is
/// final: no partial graph and no partial document is handed out.
#[derive(Debug, Clone, PartialEq, Eq)]
pub enum GraphError {
    /// The store holds no record for this node, or more than one.
    NotFound(NodeId),
    /// A node has a type of this kind and id, and no such type was given.
    MissingType(Kind, i32),
    /// The colours given for the types of this kind are not one per type.
    ColorCount(Kind),
    /// The tooltips or the URLs given are not one per node, or the labels
    /// not one per edge.
    Attributes,
    /// The URL template was not accepted, or could not be rendered for a
    /// node. The text says why: for a template that the engine refused it
    /// is the engine's message.
    Template(String),
    /// A value could not be written as JSON. The text is the encoder's
    /// message.
    Serialization(String),
}

/// A word that was given for a field to sort by, and names none.
#[derive(Debug, Clone, PartialEq, Eq)]
pub struct InvalidField {
    pub value: String,
}

/// The word for a kind of node.
pub open spec fn kind_word(kind: Kind) -> Seq<char> {
    match kind {
        Kind::Artifact => "artifact"@,
        Kind::Execution => "execution"@,
    }
}

/// The word for a kind of node.
pub fn kind_name(kind: Kind) -> (r: &'static str)
    ensures
        r@ == kind_word(kind),
{
    match kind {
        Kind::Artifact => "artifact",
        Kind::Execution => "execution",
    }
}

impl GraphError {
    /// The message of this error as a mathematical value. For the last
    /// two variants it is the text that the variant carries.
    pub open spec fn text(self) -> Seq<char> {
        match self {
            GraphError::NotFound(id) => "no such "@ + kind_word(id.kind()) + ": "@ + decimal(
                id.number() as int,
            ),
            GraphError::MissingType(kind, type_id) => "no such "@ + kind_word(kind) + " type: "@
                + decimal(type_id as int),
            GraphError::ColorCount(kind) => "the colours given do not match the "@ + kind_word(kind)
                + " types"@,
            GraphError::Attributes => "the texts given do not match the nodes"@,
            GraphError::Template(message) => message@,
            GraphError::Serialization(message) => message@,
        }
    }

    /// The message of this error.
    pub fn message(&self) -> (r: String)
        ensures
            r@ == self.text(),
    {
        match self {
            GraphError::NotFound(id) => {
                let mut out = String::from_str("no such ");
                out.append(kind_name(id.kind()));
                out.append(": ");
                push_decimal(&mut out, id.number());
                out
            },
            GraphError::MissingType(kind, type_id) => {
                let mut out = String::from_str("no such ");
                out.append(kind_name(*kind));
                out.append(" type: ");
                push_decimal(&mut out, *type_id);
                out
            },
            GraphError::ColorCount(kind) => {
                let mut out = String::from_str("the colours given do not match the ");
                out.append(kind_name(*kind));
                out.append(" types");
                out
            },
            GraphError::Attributes => String::from_str("the texts given do not match the nodes"),
            GraphError::Template(message) => message.clone(),
            GraphError::Serialization(message) => message.clone(),
        }
    }
}

} // verus!
