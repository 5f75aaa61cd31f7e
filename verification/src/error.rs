//! The error taxonomy shared by both execution engines and the
//! surrounding utilities. Each variant carries a human-readable detail
//! string; the variant itself is what contracts speak about.

use vstd::prelude::*;

verus! {

use vstd::string::StringExecFns;

/// Errors raised while building or executing a graph, or by the
/// utilities around the engines.
#[derive(Debug)]
pub enum Error {
    /// Structural or terminal failure of a graph run (no matching edge,
    /// spoofed message sender, exceeded step budget, queue exhausted).
    Graph(String),
    /// A processor's own failure, propagated unchanged.
    NodeExecution(String),
    /// Reference to an unregistered or reserved node name.
    InvalidNode(String),
    /// A message violates its sender's declared adjacency.
    InvalidEdge(String),
    /// A node was revisited within one run before reaching the exit.
    CycleDetected(String),
    /// Failure in a state operation.
    State(String),
    /// Failure while evaluating an edge condition.
    EdgeCondition(String),
    /// Failure in a checkpoint operation.
    Checkpoint(String),
    /// An input/output failure reported by a collaborator.
    Io(String),
    /// A serialization failure reported by a collaborator.
    Serialization(String),
    /// Failure reported by a language model collaborator.
    LLM(String),
    /// Failure reported by an HTTP collaborator.
    Request(String),
    /// Failure while formatting a prompt template.
    PromptTemplate(String),
    /// Failure while loading documents.
    DocumentLoader(String),
    /// Failure in a message-passing run.
    Pregel(String),
    /// Any other failure.
    Other(String),
}

/// Builds a detail string of the form `prefix` followed by `detail`.
pub fn compose_msg(prefix: &str, detail: &str) -> (r: String)
    ensures
        r@ == prefix@ + detail@,
{
    let mut s = prefix.to_owned();
    s.append(detail);
    s
}

} // verus!
