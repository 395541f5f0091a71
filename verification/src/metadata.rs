//! Records of the metadata store, held as plain values: artifacts,
//! executions, their types, and the events that link an artifact to an
//! execution.
use vstd::prelude::*;
use crate::text::{decimal, decimal_string};

verus! {

/// The two kinds of node of a lineage graph.
#[derive(Debug, Clone, Copy, PartialEq, Eq, Hash, Structural)]
pub enum Kind {
    Artifact,
    Execution,
}

/// A tracked data or model object.
#[derive(Debug, Clone, Copy, PartialEq, Eq, Hash, Structural)]
pub struct Artifact {
    pub id: i32,
    pub type_id: i32,
}

/// A run of a pipeline step.
#[derive(Debug, Clone, Copy, PartialEq, Eq, Hash, Structural)]
pub struct Execution {
    pub id: i32,
    pub type_id: i32,
}

/// The type of an artifact.
#[derive(Debug, Clone, PartialEq, Eq, Hash)]
pub struct ArtifactType {
    pub id: i32,
    pub name: String,
}

/// The type of an execution.
#[derive(Debug, Clone, PartialEq, Eq, Hash)]
pub struct ExecutionType {
    pub id: i32,
    pub name: String,
}

/// What an event says of its artifact and its execution.
#[derive(Debug, Clone, Copy, PartialEq, Eq, Hash, Structural)]
pub enum EventType {
    Unknown,
    Input,
    DeclaredInput,
    InternalInput,
    Output,
    DeclaredOutput,
    InternalOutput,
}

impl EventType {
    /// The artifact went into the execution.
    pub open spec fn input(self) -> bool {
        self is Input || self is DeclaredInput || self is InternalInput
    }

    /// The artifact came out of the execution.
    pub open spec fn output(self) -> bool {
        self is Output || self is DeclaredOutput || self is InternalOutput
    }

    /// Whether the artifact went into the execution.
    pub fn is_input(self) -> (b: bool)
        ensures
            b == self.input(),
    {
        match self {
            EventType::Input | EventType::DeclaredInput | EventType::InternalInput => true,
            _ => false,
        }
    }

    /// Whether the artifact came out of the execution.
    pub fn is_output(self) -> (b: bool)
        ensures
            b == self.output(),
    {
        match self {
            EventType::Output | EventType::DeclaredOutput | EventType::InternalOutput => true,
            _ => false,
        }
    }
}

/// One step of the path that names an artifact among the inputs or
/// outputs of an execution: a position in a list, or a key.
#[derive(Debug, Clone, PartialEq, Eq, Hash)]
pub enum EventStep {
    Index(i32),
    Key(String),
}

/// An `EventStep` as a mathematical value.
pub ghost enum StepView {
    Index(i32),
    Key(Seq<char>),
}

impl View for EventStep {
    type V = StepView;

    open spec fn view(&self) -> StepView {
        match self {
            EventStep::Index(i) => StepView::Index(*i),
            EventStep::Key(k) => StepView::Key(k@),
        }
    }
}

impl EventStep {
    /// The step as text: a position as its decimal numeral, a key as it
    /// is.
    pub open spec fn text(self) -> Seq<char> {
        match self {
            EventStep::Index(i) => decimal(i as int),
            EventStep::Key(k) => k@,
        }
    }

    /// The step as text.
    pub fn to_string(&self) -> (r: String)
        ensures
            r@ == self.text(),
    {
        match self {
            EventStep::Index(i) => decimal_string(*i),
            EventStep::Key(k) => k.clone(),
        }
    }

    /// Whether two steps are the same step.
    pub fn same(&self, other: &EventStep) -> (b: bool)
        ensures
            b == (self@ == other@),
    {
        match (self, other) {
            (EventStep::Index(i), EventStep::Index(j)) => *i == *j,
            (EventStep::Key(k), EventStep::Key(l)) => *k == *l,
            _ => false,
        }
    }

    /// A step equal to this one.
    pub fn copy(&self) -> (r: EventStep)
        ensures
            r@ == self@,
    {
        match self {
            EventStep::Index(i) => EventStep::Index(*i),
            EventStep::Key(k) => EventStep::Key(k.clone()),
        }
    }
}

/// The steps of a path as mathematical values.
pub open spec fn path_view(path: Seq<EventStep>) -> Seq<StepView> {
    Seq::new(path.len(), |i: int| path[i]@)
}

/// A link between one artifact and one execution. Two events are the
/// same event where all five fields agree.
#[derive(Debug, Clone, PartialEq, Eq, Hash)]
pub struct Event {
    pub artifact_id: i32,
    pub execution_id: i32,
    pub ty: EventType,
    pub path: Vec<EventStep>,
    /// Milliseconds between the epoch and the event.
    pub create_time_ms: u64,
}

/// An `Event` as a mathematical value.
pub ghost struct EventView {
    pub artifact_id: i32,
    pub execution_id: i32,
    pub ty: EventType,
    pub path: Seq<StepView>,
    pub create_time_ms: u64,
}

impl View for Event {
    type V = EventView;

    open spec fn view(&self) -> EventView {
        EventView {
            artifact_id: self.artifact_id,
            execution_id: self.execution_id,
            ty: self.ty,
            path: path_view(self.path@),
            create_time_ms: self.create_time_ms,
        }
    }
}

impl Event {
    /// Whether two events are the same event.
    pub fn same(&self, other: &Event) -> (b: bool)
        ensures
            b == (self@ == other@),
    {
        if self.artifact_id != other.artifact_id || self.execution_id != other.execution_id
            || self.ty != other.ty || self.create_time_ms != other.create_time_ms
            || self.path.len() != other.path.len() {
            assert(self@.path.len() == self.path@.len());
            assert(other@.path.len() == other.path@.len());
            return false;
        }
        let n = self.path.len();
        let mut i: usize = 0;
        while i < n
            invariant
                n == self.path@.len(),
                n == other.path@.len(),
                0 <= i <= n,
                forall|j: int| 0 <= j < i ==> self.path@[j]@ == other.path@[j]@,
            decreases n - i,
        {
            if !self.path[i].same(&other.path[i]) {
                assert(self@.path[i as int] == self.path@[i as int]@);
                assert(other@.path[i as int] == other.path@[i as int]@);
                return false;
            }
            i += 1;
        }
        assert(self@.path =~= other@.path);
        true
    }

    /// An event equal to this one.
    pub fn copy(&self) -> (r: Event)
        ensures
            r@ == self@,
    {
        let mut path: Vec<EventStep> = Vec::new();
        let n = self.path.len();
        let mut i: usize = 0;
        while i < n
            invariant
                n == self.path@.len(),
                0 <= i <= n,
                path@.len() == i,
                forall|j: int| 0 <= j < i ==> path@[j]@ == self.path@[j]@,
            decreases n - i,
        {
            path.push(self.path[i].copy());
            i += 1;
        }
        let r = Event {
            artifact_id: self.artifact_id,
            execution_id: self.execution_id,
            ty: self.ty,
            path,
            create_time_ms: self.create_time_ms,
        };
        assert(r@.path =~= self@.path);
        r
    }
}

} // verus!
