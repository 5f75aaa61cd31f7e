//! A serializable structural snapshot of a graph: node names and
//! edges with a "has condition" flag — never the condition logic
//! itself — for diagrammatic and introspective use.

use vstd::prelude::*;

use crate::state::Entries;

verus! {

use vstd::string::StringExecFns;

/// A serializable edge: endpoints by name, plus whether a condition
/// was attached.
pub struct SerializableEdge {
    /// Source node name.
    pub from: String,
    /// Target node name.
    pub to: String,
    /// Whether the edge carries a condition.
    pub has_condition: bool,
    /// An optional description of the condition, for documentation.
    pub condition_description: Option<String>,
}

/// A serializable structural snapshot of a graph.
pub struct SerializableGraph {
    /// The node names, sentinels excluded.
    pub nodes: Vec<String>,
    /// The edges, entry-sentinel sources and exit-sentinel targets
    /// excluded.
    pub edges: Vec<SerializableEdge>,
    /// Free-form metadata.
    pub metadata: Entries,
}

/// The DOT line declaring one node.
pub open spec fn dot_node_line(name: String) -> Seq<char> {
    "    \""@ + name@ + "\";\n"@
}

/// The DOT lines declaring the first `n` nodes.
pub open spec fn dot_node_lines(nodes: Seq<String>, n: int) -> Seq<char>
    decreases n,
{
    if n <= 0 {
        Seq::empty()
    } else {
        dot_node_lines(nodes, n - 1) + dot_node_line(nodes[n - 1])
    }
}

/// The label of a conditioned edge: its description, or the word
/// `condition`.
pub open spec fn dot_edge_label(e: SerializableEdge) -> Seq<char> {
    match e.condition_description {
        Some(d) => d@,
        None => "condition"@,
    }
}

/// The DOT line declaring one edge; a conditioned edge carries its
/// label.
pub open spec fn dot_edge_line(e: SerializableEdge) -> Seq<char> {
    if e.has_condition {
        "    \""@ + e.from@ + "\" -> \""@ + e.to@ + "\" [label=\""@ + dot_edge_label(e)
            + "\"];\n"@
    } else {
        "    \""@ + e.from@ + "\" -> \""@ + e.to@ + "\";\n"@
    }
}

/// The DOT lines declaring the first `n` edges.
pub open spec fn dot_edge_lines(edges: Seq<SerializableEdge>, n: int) -> Seq<char>
    decreases n,
{
    if n <= 0 {
        Seq::empty()
    } else {
        dot_edge_lines(edges, n - 1) + dot_edge_line(edges[n - 1])
    }
}

/// The whole DOT document for a snapshot.
pub open spec fn dot_of(g: SerializableGraph) -> Seq<char> {
    "digraph G {\n"@ + dot_node_lines(g.nodes@, g.nodes@.len() as int) + dot_edge_lines(
        g.edges@,
        g.edges@.len() as int,
    ) + "}\n"@
}

impl SerializableGraph {
    /// Renders the snapshot as a DOT document for visualization: a
    /// line per node, then a line per edge, labelled when the edge
    /// carries a condition.
    pub fn to_dot(&self) -> (r: String)
        ensures
            r@ == dot_of(*self),
    {
        let mut dot = "digraph G {\n".to_owned();
        let mut i: usize = 0;
        while i < self.nodes.len()
            invariant
                i <= self.nodes@.len(),
                dot@ == "digraph G {\n"@ + dot_node_lines(self.nodes@, i as int),
            decreases self.nodes@.len() - i,
        {
            dot.append("    \"");
            dot.append(self.nodes[i].as_str());
            dot.append("\";\n");
            i += 1;
        }
        let mut e: usize = 0;
        while e < self.edges.len()
            invariant
                e <= self.edges@.len(),
                dot@ == "digraph G {\n"@ + dot_node_lines(self.nodes@, self.nodes@.len() as int)
                    + dot_edge_lines(self.edges@, e as int),
            decreases self.edges@.len() - e,
        {
            let edge = &self.edges[e];
            if edge.has_condition {
                dot.append("    \"");
                dot.append(edge.from.as_str());
                dot.append("\" -> \"");
                dot.append(edge.to.as_str());
                dot.append("\" [label=\"");
                match &edge.condition_description {
                    Some(d) => dot.append(d.as_str()),
                    None => dot.append("condition"),
                }
                dot.append("\"];\n");
            } else {
                dot.append("    \"");
                dot.append(edge.from.as_str());
                dot.append("\" -> \"");
                dot.append(edge.to.as_str());
                dot.append("\";\n");
            }
            e += 1;
        }
        dot.append("}\n");
        dot
    }
}

/// Renders a snapshot as a DOT document.
pub fn graph_to_dot(graph: &SerializableGraph) -> (r: String)
    ensures
        r@ == dot_of(*graph),
{
    graph.to_dot()
}

} // verus!
