//! The error taxonomy that spans the engine: lookup misses, invalid
//! mutations, traversal kind mismatches, and connection failures at the
//! gateway edge. Connection and I/O details arrive as plain text.

use vstd::prelude::*;

verus! {

/// What can go wrong inside the graph engine.
#[derive(Debug)]
pub enum GraphError {
    Io(String),
    GraphConnectionError(String, String),
    StorageConnectionError(String, String),
    StorageError(String),
    TraversalError(String),
    New(String),
}

impl GraphError {
    /// A readable rendering, one line.
    pub fn message(&self) -> (r: String)
        ensures
            match self {
                GraphError::Io(m) => r@ == "IO error: "@ + m@,
                GraphError::GraphConnectionError(m, e) => r@ == "Error: "@ + m@ + " "@ + e@,
                GraphError::StorageConnectionError(m, e) => r@ == "Error: "@ + m@ + " "@ + e@,
                GraphError::TraversalError(m) => r@ == "Traversal error: "@ + m@,
                GraphError::StorageError(m) => r@ == "Storage error: "@ + m@,
                GraphError::New(m) => r@ == "Graph error: "@ + m@,
            },
    {
        match self {
            GraphError::Io(m) => concat2("IO error: ", m.as_str()),
            GraphError::GraphConnectionError(m, e) => concat4("Error: ", m.as_str(), " ", e.as_str()),
            GraphError::StorageConnectionError(m, e) => concat4("Error: ", m.as_str(), " ", e.as_str()),
            GraphError::TraversalError(m) => concat2("Traversal error: ", m.as_str()),
            GraphError::StorageError(m) => concat2("Storage error: ", m.as_str()),
            GraphError::New(m) => concat2("Graph error: ", m.as_str()),
        }
    }
}

/// Concatenates two string slices.
fn concat2(a: &str, b: &str) -> (r: String)
    ensures
        r@ == a@ + b@,
{
    let mut s: String = a.to_owned();
    s.append(b);
    s
}

/// Concatenates four string slices.
fn concat4(a: &str, b: &str, c: &str, d: &str) -> (r: String)
    ensures
        r@ == a@ + b@ + c@ + d@,
{
    let mut s: String = a.to_owned();
    s.append(b);
    s.append(c);
    s.append(d);
    proof {
        assert(s@ =~= a@ + b@ + c@ + d@);
    }
    s
}

} // verus!
