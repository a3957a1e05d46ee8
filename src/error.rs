use crate::tensor::FinalNodeType;
use vstd::prelude::*;

verus! {

/// Every failure that building a definition can report.  A parse error
/// carries the parser's message.
#[derive(Debug)]
pub enum Error {
    ParseError(String),
    BuildError(BuildError),
    ExternalError(ExternalError),
}

#[derive(Debug, PartialEq)]
pub enum BuildError {
    TensorNodeError(TensorNodeError),
    GraphError(GraphError),
    GraphNodeError(GraphNodeError),
    GraphCallError(GraphCallError),
}

#[allow(inconsistent_fields)]
#[derive(Debug, PartialEq)]
pub enum TensorNodeError {
    NoSuchNode { name: String },
    MismatchedName { expected: String, given: String },
    MismatchedType { expected: FinalNodeType, given: FinalNodeType },
}

/// Failures of a variable table.  `candidates` and `names` list names in
/// the order of the table.
#[derive(Debug, PartialEq)]
pub enum GraphError {
    NoSuchVariable { name: String, candidates: Vec<String> },
    DuplicatedVariable { name: String },
    CycledVariables { names: Vec<String> },
    DanglingHandle { name: String, handle: usize },
}

#[allow(inconsistent_fields)]
#[derive(Debug, PartialEq)]
pub enum GraphNodeError {
    MismatchedId { expected: u64, given: u64 },
    MismatchedSize { expected: Vec<String>, given: usize },
    MismatchedShapesExistence { expected: bool, given: bool },
}

#[allow(inconsistent_fields)]
#[derive(Debug, PartialEq)]
pub enum GraphCallError {
    MismatchedName { expected: Vec<String>, given: String },
    MismatchedSize { expected: Vec<String>, given: usize },
    MismatchedRepeat { expected: bool, given: bool },
    MismatchedArgs { expected: Vec<String>, given: Vec<String> },
}

/// A failure of an outside collaborator, with its message.
#[derive(Debug)]
pub enum ExternalError {
    IOError(String),
}

impl Error {
    pub open spec fn graph_error(self) -> Option<GraphError> {
        match self {
            Error::BuildError(BuildError::GraphError(e)) => Some(e),
            _ => None,
        }
    }

    pub open spec fn tensor_node_error(self) -> Option<TensorNodeError> {
        match self {
            Error::BuildError(BuildError::TensorNodeError(e)) => Some(e),
            _ => None,
        }
    }

    pub fn from_graph(e: GraphError) -> (r: Error)
        ensures
            r.graph_error() == Some(e),
    {
        Error::BuildError(BuildError::GraphError(e))
    }

    pub fn from_tensor_node(e: TensorNodeError) -> (r: Error)
        ensures
            r.tensor_node_error() == Some(e),
    {
        Error::BuildError(BuildError::TensorNodeError(e))
    }
}

/// The views of a sequence of strings.
pub open spec fn views(s: Seq<String>) -> Seq<Seq<char>> {
    s.map_values(|x: String| x@)
}

} // verus!

verus! {

/// `e` reports that `name` is missing, with `candidates` as the names that
/// were looked in.
pub open spec fn is_no_such_variable(e: Error, name: Seq<char>, candidates: Seq<Seq<char>>) -> bool {
    match e.graph_error() {
        Some(GraphError::NoSuchVariable { name: n, candidates: c }) => n@ == name && views(
            c@,
        ) == candidates,
        _ => false,
    }
}

/// `e` reports that `name` is taken twice.
pub open spec fn is_duplicated_variable(e: Error, name: Seq<char>) -> bool {
    match e.graph_error() {
        Some(GraphError::DuplicatedVariable { name: n }) => n@ == name,
        _ => false,
    }
}

} // verus!

verus! {

/// `e` reports that the value of the variable `name` holds a handle past
/// the end of its table.
pub open spec fn is_dangling_handle(e: Error, name: Seq<char>) -> bool {
    match e.graph_error() {
        Some(GraphError::DanglingHandle { name: n, handle: _ }) => n@ == name,
        _ => false,
    }
}

/// `e` reports a cycle through the variables named `names`, in order.
pub open spec fn is_cycled_variables(e: Error, names: Seq<Seq<char>>) -> bool {
    match e.graph_error() {
        Some(GraphError::CycledVariables { names: n }) => views(n@) == names,
        _ => false,
    }
}

} // verus!
