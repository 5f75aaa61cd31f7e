//! The DAG execution engine: a directed graph of named nodes and
//! conditioned edges, bounded by the reserved entry and exit sentinels,
//! executed either sequentially or in bulk-synchronous parallel waves.
//!
//! The graph is an arena: nodes live in a vector and are addressed by
//! stable indices; edges carry source and target indices and are kept
//! in insertion order, which is semantically significant for routing.

use vstd::prelude::*;

use crate::error::Error;
use crate::error::compose_msg;
use crate::state::State;
use crate::state::StateValue;
use crate::text::str_eq;

verus! {

/// Reserved name of the entry sentinel node.
pub const START: &'static str = "__start__";

/// Reserved name of the exit sentinel node.
pub const END: &'static str = "__end__";

/// A processing step attached to a node: consumes one state, produces
/// the next one or fails. Invoked by the engine each time its node is
/// traversed.
pub trait NodeProcessor<S: StateValue> {
    /// Processes the state and returns an updated state.
    fn process(&self, state: State<S>) -> (r: Result<State<S>, Error>);
}

/// A boolean routing condition attached to an edge, evaluated against
/// the state as of traversal time.
pub trait EdgeCondition<S: StateValue> {
    /// Evaluates the condition against the current state.
    fn check(&self, state: &State<S>) -> (r: Result<bool, Error>);
}

/// Execution strategy for the graph.
#[derive(Debug, Clone, Copy, PartialEq, Eq, Structural)]
pub enum ExecutionStrategy {
    /// Execute nodes one at a time (the default).
    Sequential,
    /// Execute structurally independent nodes in parallel waves.
    Parallel,
}

/// A named node of the graph with its optional processor; only the two
/// sentinel nodes lack a processor.
#[verifier::reject_recursive_types(S)]
pub struct NodeEntry<S: StateValue> {
    /// The node's unique name.
    pub name: String,
    /// The node's processor; `None` exactly for the sentinels.
    pub processor: Option<Box<dyn NodeProcessor<S>>>,
}

/// A directed edge with an optional routing condition; an absent
/// condition means "always true".
#[verifier::reject_recursive_types(S)]
pub struct EdgeEntry<S: StateValue> {
    /// Index of the source node.
    pub from: usize,
    /// Index of the target node.
    pub to: usize,
    /// The edge condition, if one was supplied.
    pub condition: Option<Box<dyn EdgeCondition<S>>>,
}

/// Builds a node entry carrying a processor.
fn mk_node_entry<S: StateValue>(name: String, processor: Box<dyn NodeProcessor<S>>) -> (r:
    NodeEntry<S>)
    ensures
        r.name == name,
        r.processor is Some,
{
    NodeEntry { name, processor: Some(processor) }
}

/// Builds an edge entry.
fn mk_edge_entry<S: StateValue>(
    from: usize,
    to: usize,
    condition: Option<Box<dyn EdgeCondition<S>>>,
) -> (r: EdgeEntry<S>)
    ensures
        r.from == from,
        r.to == to,
        (r.condition is Some) == (condition is Some),
{
    EdgeEntry { from, to, condition }
}

/// A graph of nodes that process state.
#[verifier::reject_recursive_types(S)]
pub struct Graph<S: StateValue> {
    /// The node arena. Index 0 is the entry sentinel, index 1 the exit
    /// sentinel.
    pub nodes: Vec<NodeEntry<S>>,
    /// All edges, in insertion order.
    pub edges: Vec<EdgeEntry<S>>,
    /// The execution strategy.
    pub execution_strategy: ExecutionStrategy,
    /// Bound on the number of parallel waves.
    pub max_steps: usize,
}

impl<S: StateValue> Graph<S> {
    /// The name of node `i`.
    pub open spec fn name_at(&self, i: int) -> Seq<char> {
        self.nodes@[i].name@
    }

    /// Whether some node carries name `n`.
    pub open spec fn has_name(&self, n: Seq<char>) -> bool {
        exists|i: int| 0 <= i < self.nodes@.len() && self.name_at(i) == n
    }

    /// The index of the node named `n` (meaningful when `has_name`).
    pub open spec fn node_index(&self, n: Seq<char>) -> int {
        choose|i: int| 0 <= i < self.nodes@.len() && self.name_at(i) == n
    }

    /// Whether an edge from node `a` to node `b` exists.
    pub open spec fn edge_linked(&self, a: int, b: int) -> bool {
        exists|e: int|
            0 <= e < self.edges@.len() && (#[trigger] self.edges@[e]).from == a
                && self.edges@[e].to == b
    }

    /// Structural well-formedness: the two sentinels sit at indices 0
    /// and 1, names are unique, edges stay in bounds, and exactly the
    /// non-sentinel nodes carry processors.
    pub open spec fn wf(&self) -> bool {
        &&& self.nodes@.len() >= 2
        &&& self.name_at(0) == START@
        &&& self.name_at(1) == END@
        &&& forall|i: int, j: int|
            0 <= i < j < self.nodes@.len() ==> self.name_at(i) != self.name_at(j)
        &&& forall|e: int|
            0 <= e < self.edges@.len() ==> (#[trigger] self.edges@[e]).from < self.nodes@.len()
                && self.edges@[e].to < self.nodes@.len()
        &&& self.nodes@[0].processor is None
        &&& self.nodes@[1].processor is None
        &&& forall|i: int|
            2 <= i < self.nodes@.len() ==> (#[trigger] self.nodes@[i].processor) is Some
    }

    /// With unique names, the node at any index `i` with name `n` is
    /// exactly `node_index(n)`.
    pub proof fn lemma_node_index_at(&self, i: int)
        requires
            self.wf(),
            0 <= i < self.nodes@.len(),
        ensures
            self.node_index(self.name_at(i)) == i,
    {
        let n = self.name_at(i);
        let j = self.node_index(n);
        assert(self.has_name(n));
        if i < j {
            assert(self.name_at(i) != self.name_at(j));
        } else if j < i {
            assert(self.name_at(j) != self.name_at(i));
        }
    }

    /// Creates a new graph holding only the two sentinel nodes, with
    /// the sequential strategy and the default step bound of 1000.
    pub fn new() -> (r: Self)
        ensures
            r.wf(),
            r.nodes@.len() == 2,
            r.edges@.len() == 0,
            r.execution_strategy == ExecutionStrategy::Sequential,
            r.max_steps == 1000,
    {
        let mut nodes: Vec<NodeEntry<S>> = Vec::new();
        nodes.push(NodeEntry { name: START.to_owned(), processor: None });
        nodes.push(NodeEntry { name: END.to_owned(), processor: None });
        let r = Graph {
            nodes,
            edges: Vec::new(),
            execution_strategy: ExecutionStrategy::Sequential,
            max_steps: 1000,
        };
        proof {
            reveal_strlit("__start__");
            reveal_strlit("__end__");
            assert(START@ == "__start__"@);
            assert(END@ == "__end__"@);
            assert(START@ != END@);
        }
        r
    }

    /// Replaces the execution strategy.
    pub fn with_execution_strategy(self, strategy: ExecutionStrategy) -> (r: Self)
        ensures
            r.nodes == self.nodes,
            r.edges == self.edges,
            r.max_steps == self.max_steps,
            r.execution_strategy == strategy,
    {
        Graph { execution_strategy: strategy, ..self }
    }

    /// Replaces the bound on the number of parallel waves.
    pub fn with_max_steps(self, max_steps: usize) -> (r: Self)
        ensures
            r.nodes == self.nodes,
            r.edges == self.edges,
            r.max_steps == max_steps,
            r.execution_strategy == self.execution_strategy,
    {
        Graph { max_steps, ..self }
    }

    /// Finds the index of the node named `name`.
    pub fn find_node(&self, name: &str) -> (r: Option<usize>)
        ensures
            match r {
                Some(i) => i < self.nodes@.len() && self.name_at(i as int) == name@,
                None => !self.has_name(name@),
            },
    {
        let mut i: usize = 0;
        while i < self.nodes.len()
            invariant
                i <= self.nodes.len(),
                forall|j: int| 0 <= j < i ==> self.name_at(j) != name@,
            decreases self.nodes.len() - i,
        {
            if str_eq(self.nodes[i].name.as_str(), name) {
                return Some(i);
            }
            i += 1;
        }
        None
    }

    /// Registers a node under `name`. Fails with `InvalidNode` when the
    /// name is one of the reserved sentinel names; re-adding an
    /// existing name replaces its processor.
    pub fn add_node(&mut self, name: String, processor: Box<dyn NodeProcessor<S>>) -> (r: Result<
        (),
        Error,
    >)
        requires
            old(self).wf(),
        ensures
            final(self).wf(),
            final(self).edges == old(self).edges,
            final(self).execution_strategy == old(self).execution_strategy,
            final(self).max_steps == old(self).max_steps,
            (name@ == START@ || name@ == END@) ==> (r matches Err(Error::InvalidNode(_))
                && final(self).nodes == old(self).nodes),
            (name@ != START@ && name@ != END@) ==> r is Ok,
            r is Ok ==> {
                &&& old(self).has_name(name@) ==> {
                    &&& final(self).nodes@.len() == old(self).nodes@.len()
                    &&& forall|j: int|
                        0 <= j < old(self).nodes@.len() && old(self).name_at(j) != name@
                            ==> final(self).nodes@[j] == old(self).nodes@[j]
                    &&& forall|j: int|
                        0 <= j < old(self).nodes@.len() && old(self).name_at(j) == name@ ==> (
                        final(self).name_at(j) == name@
                            && (#[trigger] final(self).nodes@[j].processor) is Some)
                }
                &&& !old(self).has_name(name@) ==> {
                    &&& final(self).nodes@.len() == old(self).nodes@.len() + 1
                    &&& forall|j: int|
                        0 <= j < old(self).nodes@.len() ==> final(self).nodes@[j] == old(
                            self,
                        ).nodes@[j]
                    &&& final(self).name_at(old(self).nodes@.len() as int) == name@
                    &&& final(self).nodes@[old(self).nodes@.len() as int].processor is Some
                }
            },
    {
        if str_eq(name.as_str(), START) || str_eq(name.as_str(), END) {
            return Err(
                Error::InvalidNode(
                    compose_msg("Cannot use reserved node name: ", name.as_str()),
                ),
            );
        }
        let ghost pre = *self;
        match self.find_node(name.as_str()) {
            Some(i) => {
                proof {
                    assert(pre.name_at(i as int) == name@);
                    assert(pre.name_at(0) == START@);
                    assert(pre.name_at(1) == END@);
                    assert(i != 0 && i != 1);
                    assert(pre.has_name(name@));
                }
                let entry = mk_node_entry(name, processor);
                self.nodes[i] = entry;
                proof {
                    assert forall|a: int, b: int|
                        0 <= a < b < self.nodes@.len() implies self.name_at(a) != self.name_at(
                        b,
                    ) by {
                        assert(pre.name_at(a) != pre.name_at(b));
                        assert(self.name_at(a) == pre.name_at(a));
                        assert(self.name_at(b) == pre.name_at(b));
                    }
                    assert forall|j: int|
                        0 <= j < pre.nodes@.len() && pre.name_at(j) == name@ implies (
                        self.name_at(j) == name@ && (#[trigger] self.nodes@[j].processor)
                            is Some) by {
                        if j != i {
                            assert(pre.name_at(j) == pre.name_at(i as int));
                        }
                    }
                }
            },
            None => {
                proof {
                    assert(!pre.has_name(name@));
                }
                let entry = mk_node_entry(name, processor);
                self.nodes.push(entry);
                proof {
                    let n = pre.nodes@.len() as int;
                    assert(self.nodes@.len() == pre.nodes@.len() + 1);
                    assert(self.name_at(n) == name@);
                    assert forall|a: int, b: int|
                        0 <= a < b < self.nodes@.len() implies self.name_at(a) != self.name_at(
                        b,
                    ) by {
                        if b < n {
                            assert(pre.name_at(a) != pre.name_at(b));
                        } else {
                            assert(self.name_at(a) == pre.name_at(a));
                            assert(!(pre.name_at(a) == name@));
                        }
                    }
                }
            },
        }
        Ok(())
    }

    /// Adds an edge between two registered nodes, with an optional
    /// condition. Fails with `InvalidNode` when either endpoint is not
    /// registered.
    pub fn add_edge(
        &mut self,
        from: &str,
        to: &str,
        condition: Option<Box<dyn EdgeCondition<S>>>,
    ) -> (r: Result<(), Error>)
        requires
            old(self).wf(),
        ensures
            final(self).wf(),
            final(self).nodes == old(self).nodes,
            final(self).execution_strategy == old(self).execution_strategy,
            final(self).max_steps == old(self).max_steps,
            r is Ok <==> (old(self).has_name(from@) && old(self).has_name(to@)),
            r is Err ==> (r matches Err(Error::InvalidNode(_)) && final(self).edges == old(
                self,
            ).edges),
            r is Ok ==> {
                &&& final(self).edges@.len() == old(self).edges@.len() + 1
                &&& forall|e: int|
                    0 <= e < old(self).edges@.len() ==> final(self).edges@[e] == old(
                        self,
                    ).edges@[e]
                &&& final(self).edges@.last().from == old(self).node_index(from@)
                &&& final(self).edges@.last().to == old(self).node_index(to@)
                &&& (final(self).edges@.last().condition is Some <==> condition is Some)
            },
    {
        let from_idx = match self.find_node(from) {
            Some(i) => i,
            None => {
                return Err(
                    Error::InvalidNode(compose_msg("Source node not found: ", from)),
                );
            },
        };
        let to_idx = match self.find_node(to) {
            Some(i) => i,
            None => {
                return Err(
                    Error::InvalidNode(compose_msg("Target node not found: ", to)),
                );
            },
        };
        proof {
            self.lemma_node_index_at(from_idx as int);
            self.lemma_node_index_at(to_idx as int);
        }
        let ghost pre = *self;
        let new_edge = mk_edge_entry(from_idx, to_idx, condition);
        self.edges.push(new_edge);
        proof {
            assert(self.edges@.len() == pre.edges@.len() + 1);
            assert(self.edges@.last().from == from_idx);
            assert(self.edges@.last().to == to_idx);
            assert forall|a: int, b: int|
                0 <= a < b < self.nodes@.len() implies self.name_at(a) != self.name_at(b) by {
                assert(pre.name_at(a) != pre.name_at(b));
            }
            assert forall|e: int|
                0 <= e < self.edges@.len() implies (#[trigger] self.edges@[e]).from
                < self.nodes@.len() && self.edges@[e].to < self.nodes@.len() by {
                if e < pre.edges@.len() {
                    assert(self.edges@[e] == pre.edges@[e]);
                    assert(pre.wf());
                } else {
                    assert(e == self.edges@.len() - 1);
                    assert(self.edges@[e] == self.edges@.last());
                }
            }
        }
        Ok(())
    }

    /// Connects the entry sentinel to `to` with an unconditioned edge.
    pub fn add_start_edge(&mut self, to: &str) -> (r: Result<(), Error>)
        requires
            old(self).wf(),
        ensures
            final(self).wf(),
            final(self).nodes == old(self).nodes,
            final(self).execution_strategy == old(self).execution_strategy,
            final(self).max_steps == old(self).max_steps,
            r is Ok <==> old(self).has_name(to@),
            r is Err ==> (r matches Err(Error::InvalidNode(_)) && final(self).edges == old(
                self,
            ).edges),
            r is Ok ==> {
                &&& final(self).edges@.len() == old(self).edges@.len() + 1
                &&& forall|e: int|
                    0 <= e < old(self).edges@.len() ==> final(self).edges@[e] == old(
                        self,
                    ).edges@[e]
                &&& final(self).edges@.last().from == 0
                &&& final(self).edges@.last().to == old(self).node_index(to@)
                &&& final(self).edges@.last().condition is None
            },
    {
        proof {
            self.lemma_node_index_at(0);
        }
        let r = self.add_edge(START, to, None);
        match r {
            Ok(_) => Ok(()),
            Err(e) => Err(e),
        }
    }

    /// Connects `from` to the exit sentinel with an unconditioned edge.
    pub fn add_end_edge(&mut self, from: &str) -> (r: Result<(), Error>)
        requires
            old(self).wf(),
        ensures
            final(self).wf(),
            final(self).nodes == old(self).nodes,
            final(self).execution_strategy == old(self).execution_strategy,
            final(self).max_steps == old(self).max_steps,
            r is Ok <==> old(self).has_name(from@),
            r is Err ==> (r matches Err(Error::InvalidNode(_)) && final(self).edges == old(
                self,
            ).edges),
            r is Ok ==> {
                &&& final(self).edges@.len() == old(self).edges@.len() + 1
                &&& forall|e: int|
                    0 <= e < old(self).edges@.len() ==> final(self).edges@[e] == old(
                        self,
                    ).edges@[e]
                &&& final(self).edges@.last().from == old(self).node_index(from@)
                &&& final(self).edges@.last().to == 1
                &&& final(self).edges@.last().condition is None
            },
    {
        proof {
            self.lemma_node_index_at(1);
        }
        let r = self.add_edge(from, END, None);
        match r {
            Ok(_) => Ok(()),
            Err(e) => Err(e),
        }
    }
}

} // verus!

verus! {

/// Why an engine run ended: ghost evidence handed back beside the
/// result, naming which of the engine's own outcomes happened, or
/// that a processor's or condition's own failure was handed on.
pub enum RunEnd {
    /// The exit sentinel was reached; the run succeeded.
    Finished,
    /// The run re-entered `node` after it had been visited; it failed
    /// with `CycleDetected` before the node could be processed again.
    Cycle { node: int },
    /// No outgoing edge of `node` matched; the run failed with the
    /// "no valid edges" `Graph` error.
    NoMatch { node: int },
    /// `node` carried no processor; the run failed with a `Graph`
    /// error.
    MissingProcessor { node: int },
    /// The wave budget was exhausted; the run failed with a `Graph`
    /// error.
    Budget,
    /// The frontier emptied without reaching the exit sentinel; the
    /// run failed with a `Graph` error.
    Exhausted,
    /// The processor or a condition of `node` failed; its error is
    /// handed on unchanged.
    External { node: int },
}

impl<S: StateValue> Graph<S> {
    /// The entry sentinel's first outgoing edge, in insertion order,
    /// is unconditioned and targets the exit sentinel: such a run
    /// succeeds at once, before any processor or condition runs.
    pub open spec fn entry_exits_immediately(&self) -> bool {
        exists|e: int|
            {
                &&& 0 <= e < self.edges@.len()
                &&& (#[trigger] self.edges@[e]).from == 0
                &&& self.edges@[e].to == 1
                &&& self.edges@[e].condition is None
                &&& forall|j: int| 0 <= j < e ==> (#[trigger] self.edges@[j]).from != 0
            }
    }

    /// The entry sentinel has exactly one outgoing edge, and it is
    /// unconditioned and targets the exit sentinel.
    pub open spec fn sole_entry_edge_to_exit(&self) -> bool {
        exists|e: int|
            {
                &&& 0 <= e < self.edges@.len()
                &&& (#[trigger] self.edges@[e]).from == 0
                &&& self.edges@[e].to == 1
                &&& self.edges@[e].condition is None
                &&& forall|j: int| 0 <= j < self.edges@.len() && j != e ==> (#[trigger] self.edges@[j]).from != 0
            }
    }

    /// The entry sentinel has no outgoing edge at all: such a run
    /// fails with a `Graph` error before any outside call.
    pub open spec fn no_entry_edges(&self) -> bool {
        forall|e: int| 0 <= e < self.edges@.len() ==> (#[trigger] self.edges@[e]).from != 0
    }
}

impl<S: StateValue> Graph<S> {
    /// Scans the outgoing edges of `node` in insertion order and
    /// commits to the first whose condition evaluates true against
    /// `state`; an edge without a condition is always true. Returns the
    /// target of the committed edge, `None` when no outgoing edge
    /// matches, or a condition's own error, unchanged. The ghost result
    /// names the committed edge: every outgoing edge inserted before it
    /// was tested and rejected, so each of them carries a condition. An
    /// error can only come from evaluating a conditioned outgoing edge,
    /// which the ghost result then names.
    pub fn select_next_edge(&self, node: usize, state: &State<S>) -> (r: (
        Result<Option<usize>, Error>,
        Ghost<int>,
    ))
        requires
            self.wf(),
            node < self.nodes@.len(),
        ensures
            match r.0 {
                Ok(opt) => match opt {
                    Some(t) => {
                        &&& t < self.nodes@.len()
                        &&& 0 <= r.1@ < self.edges@.len()
                        &&& self.edges@[r.1@].from == node
                        &&& self.edges@[r.1@].to == t
                        &&& self.edge_linked(node as int, t as int)
                        &&& forall|e: int|
                            0 <= e < r.1@ && (#[trigger] self.edges@[e]).from == node
                                ==> self.edges@[e].condition is Some
                    },
                    None => forall|e: int|
                        0 <= e < self.edges@.len() && (#[trigger] self.edges@[e]).from == node
                            ==> self.edges@[e].condition is Some,
                },
                Err(_) => {
                    &&& 0 <= r.1@ < self.edges@.len()
                    &&& self.edges@[r.1@].from == node
                    &&& self.edges@[r.1@].condition is Some
                    &&& forall|e: int|
                        0 <= e < r.1@ && (#[trigger] self.edges@[e]).from == node
                            ==> self.edges@[e].condition is Some
                },
            },
    {
        let mut e: usize = 0;
        while e < self.edges.len()
            invariant
                self.wf(),
                node < self.nodes@.len(),
                e <= self.edges@.len(),
                forall|k: int|
                    0 <= k < e && (#[trigger] self.edges@[k]).from == node
                        ==> self.edges@[k].condition is Some,
            decreases self.edges@.len() - e,
        {
            if self.edges[e].from == node {
                let matched = match &self.edges[e].condition {
                    Some(c) => {
                        match c.check(state) {
                            Ok(b) => b,
                            Err(err) => {
                                return (Err(err), Ghost(e as int));
                            },
                        }
                    },
                    None => true,
                };
                if matched {
                    return (Ok(Some(self.edges[e].to)), Ghost(e as int));
                }
            }
            e += 1;
        }
        (Ok(None), Ghost(0))
    }

    /// A sequence of pairwise-distinct values drawn from `0..n` has at
    /// most `n` elements.
    pub proof fn lemma_distinct_in_range_len(t: Seq<int>, n: int)
        requires
            n >= 0,
            t.no_duplicates(),
            forall|i: int| 0 <= i < t.len() ==> 0 <= #[trigger] t[i] < n,
        ensures
            t.len() <= n,
    {
        broadcast use vstd::seq_lib::seq_to_set_is_finite;

        t.unique_seq_to_set();
        assert(t.to_set().subset_of(vstd::set_lib::set_int_range(0, n)));
        vstd::set_lib::lemma_int_range(0, n);
        vstd::set_lib::lemma_len_subset(t.to_set(), vstd::set_lib::set_int_range(0, n));
    }

    /// Runs the graph sequentially: starting at the entry sentinel,
    /// each visited node is first checked against the visited set
    /// (failing with `CycleDetected` on a repeat before its processor
    /// could run again), then processed (the entry sentinel excepted),
    /// then left along the first matching outgoing edge; reaching the
    /// exit sentinel returns the current state.
    ///
    /// The first ghost result is the run's trace: exactly the nodes
    /// whose visit check passed, in visit order. A processor runs only
    /// for trace members, once each: the trace has no duplicates. The
    /// second ghost result says why the run ended, and pins the error
    /// kind of each of the engine's own failures: a revisit fails with
    /// `CycleDetected`, a node without a matching edge fails with the
    /// `Graph` error, and only a processor's or condition's own
    /// failure is handed on unclassified.
    #[verifier::rlimit(100)]
    pub fn run_sequential(&self, initial_state: State<S>) -> (r: (
        Result<State<S>, Error>,
        Ghost<Seq<int>>,
        Ghost<RunEnd>,
    ))
        requires
            self.wf(),
        ensures
            ({
                let t = r.1@;
                &&& t.no_duplicates()
                &&& forall|i: int|
                    0 <= i < t.len() ==> 0 <= #[trigger] t[i] < self.nodes@.len() && t[i] != 1
                &&& t.len() >= 1 ==> t[0] == 0
                &&& forall|i: int| 0 <= i < t.len() - 1 ==> self.edge_linked(#[trigger] t[i], t[i + 1])
                &&& r.0 is Ok ==> t.len() >= 1 && self.edge_linked(t.last(), 1)
            }),
            ({
                let t = r.1@;
                let end = r.2@;
                &&& (end is Finished) <==> r.0 is Ok
                &&& (end matches RunEnd::Cycle { node } ==> (r.0 matches Err(
                    Error::CycleDetected(_),
                ) && t.len() >= 1 && t.contains(node) && self.edge_linked(t.last(), node)))
                &&& (end matches RunEnd::NoMatch { node } ==> (r.0 matches Err(Error::Graph(_))
                    && 0 <= node < self.nodes@.len() && (forall|e: int|
                    0 <= e < self.edges@.len() && (#[trigger] self.edges@[e]).from == node
                        ==> self.edges@[e].condition is Some)))
                &&& (end matches RunEnd::MissingProcessor { node } ==> r.0 matches Err(
                    Error::Graph(_),
                ))
                &&& (end matches RunEnd::External { node } ==> (r.0 is Err && t.len() >= 1
                    && t.last() == node))
                &&& (end is Finished || (end matches RunEnd::Cycle { node: _ }) || (end matches
                    RunEnd::NoMatch { node: _ }) || (end matches RunEnd::MissingProcessor {
                    node: _,
                }) || (end matches RunEnd::External { node: _ }))
            }),
            self.entry_exits_immediately() ==> (r.0 matches Ok(s) && s == initial_state),
            self.no_entry_edges() ==> r.0 matches Err(Error::Graph(_)),
    {
        let n = self.nodes.len();
        let mut visited: Vec<bool> = Vec::new();
        let mut k: usize = 0;
        while k < n
            invariant
                k <= n,
                visited@.len() == k,
                forall|v: int| 0 <= v < k ==> !(#[trigger] visited@[v]),
            decreases n - k,
        {
            visited.push(false);
            k += 1;
        }
        let mut current: usize = 0;
        let mut state = initial_state;
        let ghost mut trace: Seq<int> = Seq::empty();
        while current != 1
            invariant
                self.wf(),
                current < self.nodes@.len(),
                n == self.nodes@.len(),
                visited@.len() == n,
                forall|i: int| 0 <= i < trace.len() ==> visited@[#[trigger] trace[i]],
                forall|v: int| 0 <= v < n && visited@[v] ==> trace.contains(v),
                trace.no_duplicates(),
                forall|i: int|
                    0 <= i < trace.len() ==> 0 <= #[trigger] trace[i] < n && trace[i] != 1,
                trace.len() >= 1 ==> trace[0] == 0,
                forall|i: int|
                    0 <= i < trace.len() - 1 ==> self.edge_linked(#[trigger] trace[i], trace[i + 1]),
                (trace.len() == 0 && current == 0) || (trace.len() >= 1 && self.edge_linked(
                    trace.last(),
                    current as int,
                )),
                self.entry_exits_immediately() ==> ((current == 0 && trace.len() == 0 && state
                    == initial_state) || (current == 1 && state == initial_state)),
                self.no_entry_edges() ==> (current == 0 && trace.len() == 0),
            decreases self.nodes@.len() - trace.len(),
        {
            proof {
                Self::lemma_distinct_in_range_len(trace, n as int);
            }
            if visited[current] {
                proof {
                    assert(trace.contains(current as int));
                    assert(trace.len() >= 1);
                }
                return (
                    (
                        Err(
                            Error::CycleDetected(
                                compose_msg(
                                    "Cycle detected at node: ",
                                    self.nodes[current].name.as_str(),
                                ),
                            ),
                        ),
                        Ghost(trace),
                        Ghost(RunEnd::Cycle { node: current as int }),
                    )
                );
            }
            proof {
                assert forall|i: int| 0 <= i < trace.len() implies trace[i] != current as int by {
                    assert(visited@[trace[i]]);
                }
            }
            visited[current] = true;
            proof {
                let prev = trace;
                trace = trace.push(current as int);
                assert(trace[trace.len() - 1] == current as int);
                assert forall|i: int, j: int|
                    0 <= i < trace.len() && 0 <= j < trace.len() && i != j implies trace[i]
                    != trace[j] by {
                    if i < prev.len() && j < prev.len() {
                        assert(prev[i] != prev[j]);
                    } else if j == prev.len() as int {
                        assert(trace[i] == prev[i]);
                    } else {
                        assert(trace[j] == prev[j]);
                    }
                }
                assert(trace.no_duplicates());
                assert forall|v: int| 0 <= v < n && visited@[v] implies trace.contains(v) by {
                    if v == current as int {
                        assert(trace[trace.len() - 1] == v);
                    } else {
                        assert(prev.contains(v));
                        let w = choose|w: int| 0 <= w < prev.len() && prev[w] == v;
                        assert(trace[w] == v);
                    }
                }
            }
            if current != 0 {
                let stepped = match &self.nodes[current].processor {
                    Some(p) => p.process(state),
                    None => {
                        return (
                            (
                                Err(
                                    Error::Graph(
                                        compose_msg(
                                            "No processor found for node: ",
                                            self.nodes[current].name.as_str(),
                                        ),
                                    ),
                                ),
                                Ghost(trace),
                                Ghost(RunEnd::MissingProcessor { node: current as int }),
                            )
                        );
                    },
                };
                match stepped {
                    Ok(s) => {
                        state = s;
                    },
                    Err(e) => {
                        return (
                            (
                                Err(e),
                                Ghost(trace),
                                Ghost(RunEnd::External { node: current as int }),
                            )
                        );
                    },
                }
            }
            let (sel, chosen) = self.select_next_edge(current, &state);
            proof {
                if self.entry_exits_immediately() {
                    let e0 = choose|e: int|
                        {
                            &&& 0 <= e < self.edges@.len()
                            &&& (#[trigger] self.edges@[e]).from == 0
                            &&& self.edges@[e].to == 1
                            &&& self.edges@[e].condition is None
                            &&& forall|j: int|
                                0 <= j < e ==> (#[trigger] self.edges@[j]).from != 0
                        };
                    match sel {
                        Ok(opt) => match opt {
                            Some(t) => {
                                let ce = chosen@;
                                if ce < e0 {
                                    assert(self.edges@[ce].from != 0);
                                } else if e0 < ce {
                                    assert(self.edges@[e0].condition is Some);
                                }
                                assert(ce == e0);
                                assert(t == 1);
                            },
                            None => {
                                assert(self.edges@[e0].condition is Some);
                                assert(false);
                            },
                        },
                        Err(_) => {
                            let ce = chosen@;
                            if ce < e0 {
                                assert(self.edges@[ce].from != 0);
                            } else if e0 < ce {
                                assert(self.edges@[e0].condition is Some);
                            } else {
                                assert(self.edges@[e0].condition is Some);
                            }
                            assert(false);
                        },
                    }
                }
                if self.no_entry_edges() {
                    match sel {
                        Ok(opt) => match opt {
                            Some(t) => {
                                assert(self.edges@[chosen@].from == 0);
                                assert(false);
                            },
                            None => {},
                        },
                        Err(_) => {
                            assert(self.edges@[chosen@].from == 0);
                            assert(false);
                        },
                    }
                }
            }
            match sel {
                Err(e) => {
                    return (
                        (Err(e), Ghost(trace), Ghost(RunEnd::External { node: current as int }))
                    );
                },
                Ok(opt) => match opt {
                    None => {
                        return (
                            (
                                Err(
                                    Error::Graph(
                                        compose_msg(
                                            "No valid edges from node: ",
                                            self.nodes[current].name.as_str(),
                                        ),
                                    ),
                                ),
                                Ghost(trace),
                                Ghost(RunEnd::NoMatch { node: current as int }),
                            )
                        );
                    },
                    Some(t) => {
                        current = t;
                    },
                },
            }
            proof {
                Self::lemma_distinct_in_range_len(trace, n as int);
            }
        }
        ((Ok(state), Ghost(trace), Ghost(RunEnd::Finished)))
    }
}

} // verus!

verus! {

use crate::reach::independent;
use crate::reach::path_exists;

impl<S: StateValue> Graph<S> {
    /// The structural edge list: sources and targets only, conditions
    /// stripped.
    pub open spec fn links_of(&self) -> Seq<(usize, usize)> {
        self.edges@.map_values(|e: EdgeEntry<S>| (e.from, e.to))
    }

    /// Materializes the structural edge list.
    pub fn structural_links(&self) -> (r: Vec<(usize, usize)>)
        ensures
            r@ == self.links_of(),
    {
        let mut out: Vec<(usize, usize)> = Vec::new();
        let mut i: usize = 0;
        while i < self.edges.len()
            invariant
                i <= self.edges@.len(),
                out@.len() == i,
                forall|k: int| 0 <= k < i ==> out@[k] == (self.edges@[k].from, self.edges@[k].to),
            decreases self.edges@.len() - i,
        {
            out.push((self.edges[i].from, self.edges[i].to));
            i += 1;
        }
        proof {
            assert(out@ =~= self.links_of());
        }
        out
    }

    /// Whether nodes `a` and `b` are structurally independent: no path
    /// between them in either direction, conditions ignored.
    pub fn are_independent(&self, links: &Vec<(usize, usize)>, a: usize, b: usize) -> (r: bool)
        requires
            self.wf(),
            links@ == self.links_of(),
            self.nodes@.len() < 0x1000_0000,
            self.edges@.len() < 0x1000_0000,
            a < self.nodes@.len(),
            b < self.nodes@.len(),
        ensures
            r == independent(self.links_of(), a as int, b as int),
    {
        proof {
            assert(links@.len() == self.edges@.len());
            assert forall|k: int| 0 <= k < links@.len() implies (#[trigger] links@[k]).0
                < self.nodes@.len() && links@[k].1 < self.nodes@.len() by {
                assert(links@[k] == (self.edges@[k].from, self.edges@[k].to));
            }
        }
        let n = self.nodes.len();
        !path_exists(n, links, a, b) && !path_exists(n, links, b, a)
    }
}

} // verus!

verus! {

use crate::reach::lemma_independent_sym;

/// Whether `v` holds `x`.
pub fn contains_usize(v: &Vec<usize>, x: usize) -> (r: bool)
    ensures
        r == v@.contains(x),
{
    let mut i: usize = 0;
    while i < v.len()
        invariant
            i <= v@.len(),
            forall|k: int| 0 <= k < i ==> v@[k] != x,
        decreases v@.len() - i,
    {
        if v[i] == x {
            return true;
        }
        i += 1;
    }
    proof {
        assert(!v@.contains(x));
    }
    false
}

/// All members of `xs` are pairwise structurally independent under
/// `links`.
pub open spec fn all_independent(links: Seq<(usize, usize)>, xs: Seq<usize>) -> bool {
    forall|a: int, b: int|
        #![trigger xs[a], xs[b]]
        0 <= a < xs.len() && 0 <= b < xs.len() && a != b ==> independent(
            links,
            xs[a] as int,
            xs[b] as int,
        )
}

impl<S: StateValue> Graph<S> {
    /// Partitions a frontier into independence groups, greedily and in
    /// order: each frontier node joins the first group whose members
    /// are all structurally independent of it, otherwise opens a new
    /// group; repeated frontier entries collapse into one. When the
    /// whole frontier is pairwise independent and duplicate-free, a
    /// single group holding the entire frontier comes back — every
    /// member then runs in the same wave.
    #[verifier::rlimit(80)]
    pub fn find_parallel_nodes(&self, current: &Vec<usize>) -> (r: Vec<Vec<usize>>)
        requires
            self.wf(),
            self.nodes@.len() < 0x1000_0000,
            self.edges@.len() < 0x1000_0000,
            forall|i: int| 0 <= i < current@.len() ==> current@[i] < self.nodes@.len(),
        ensures
            forall|g: int| 0 <= g < r@.len() ==> (#[trigger] r@[g])@.len() >= 1,
            forall|g: int, k: int|
                0 <= g < r@.len() && 0 <= k < r@[g]@.len() ==> current@.contains(
                    #[trigger] r@[g]@[k],
                ),
            forall|x: usize|
                current@.contains(x) ==> exists|g: int|
                    0 <= g < r@.len() && (#[trigger] r@[g])@.contains(x),
            forall|g: int, k1: int, k2: int|
                #![trigger r@[g]@[k1], r@[g]@[k2]]
                0 <= g < r@.len() && 0 <= k1 < r@[g]@.len() && 0 <= k2 < r@[g]@.len() && k1 != k2
                    ==> independent(self.links_of(), r@[g]@[k1] as int, r@[g]@[k2] as int),
            forall|g: int, k1: int, k2: int|
                #![trigger r@[g]@[k1], r@[g]@[k2]]
                0 <= g < r@.len() && 0 <= k1 < r@[g]@.len() && 0 <= k2 < r@[g]@.len() && k1 != k2
                    ==> r@[g]@[k1] != r@[g]@[k2],
            forall|g1: int, k1: int, g2: int, k2: int|
                #![trigger r@[g1]@[k1], r@[g2]@[k2]]
                0 <= g1 < g2 < r@.len() && 0 <= k1 < r@[g1]@.len() && 0 <= k2 < r@[g2]@.len()
                    ==> r@[g1]@[k1] != r@[g2]@[k2],
            (current@.no_duplicates() && all_independent(self.links_of(), current@)
                && current@.len() >= 1) ==> (r@.len() == 1 && r@[0]@ == current@),
    {
        let links = self.structural_links();
        let ghost lks = self.links_of();
        let ghost hyp = current@.no_duplicates() && all_independent(lks, current@);
        let mut groups: Vec<Vec<usize>> = Vec::new();
        let mut taken: Vec<usize> = Vec::new();
        let mut j: usize = 0;
        while j < current.len()
            invariant
                self.wf(),
                self.nodes@.len() < 0x1000_0000,
                self.edges@.len() < 0x1000_0000,
                forall|i: int| 0 <= i < current@.len() ==> current@[i] < self.nodes@.len(),
                links@ == lks,
                lks == self.links_of(),
                hyp == (current@.no_duplicates() && all_independent(lks, current@)),
                j <= current@.len(),
                forall|g: int| 0 <= g < groups@.len() ==> (#[trigger] groups@[g])@.len() >= 1,
                forall|g: int, k: int|
                    0 <= g < groups@.len() && 0 <= k < groups@[g]@.len() ==> current@.contains(
                        #[trigger] groups@[g]@[k],
                    ),
                forall|g: int, k1: int, k2: int|
                    #![trigger groups@[g]@[k1], groups@[g]@[k2]]
                    0 <= g < groups@.len() && 0 <= k1 < groups@[g]@.len() && 0 <= k2
                        < groups@[g]@.len() && k1 != k2 ==> independent(
                        lks,
                        groups@[g]@[k1] as int,
                        groups@[g]@[k2] as int,
                    ),
                forall|x: usize|
                    taken@.contains(x) ==> exists|g: int|
                        0 <= g < groups@.len() && (#[trigger] groups@[g])@.contains(x),
                forall|g: int, k: int|
                    0 <= g < groups@.len() && 0 <= k < groups@[g]@.len() ==> taken@.contains(
                        #[trigger] groups@[g]@[k],
                    ),
                forall|g: int, k1: int, k2: int|
                    #![trigger groups@[g]@[k1], groups@[g]@[k2]]
                    0 <= g < groups@.len() && 0 <= k1 < groups@[g]@.len() && 0 <= k2
                        < groups@[g]@.len() && k1 != k2 ==> groups@[g]@[k1] != groups@[g]@[k2],
                forall|g1: int, k1: int, g2: int, k2: int|
                    #![trigger groups@[g1]@[k1], groups@[g2]@[k2]]
                    0 <= g1 < g2 < groups@.len() && 0 <= k1 < groups@[g1]@.len() && 0 <= k2
                        < groups@[g2]@.len() ==> groups@[g1]@[k1] != groups@[g2]@[k2],
                forall|i: int| 0 <= i < j ==> taken@.contains(#[trigger] current@[i]),
                hyp ==> ((j == 0 && groups@.len() == 0) || (j >= 1 && groups@.len() == 1
                    && groups@[0]@ == current@)),
            decreases current@.len() - j,
        {
            let node = current[j];
            if contains_usize(&taken, node) {
                j += 1;
                continue;
            }
            let ghost taken0 = taken@;
            let mut group: Vec<usize> = Vec::new();
            group.push(node);
            taken.push(node);
            proof {
                if hyp && j == 0 {
                    if taken0.len() > 0 {
                        assert(taken0.contains(taken0[0]));
                    }
                    assert(taken0 =~= Seq::<usize>::empty());
                    assert(group@ =~= current@.take(j + 1));
                }
                assert(taken@ =~= taken0 + group@);
            }
            let mut k: usize = j + 1;
            while k < current.len()
                invariant
                    self.wf(),
                    self.nodes@.len() < 0x1000_0000,
                    self.edges@.len() < 0x1000_0000,
                    forall|i: int| 0 <= i < current@.len() ==> current@[i] < self.nodes@.len(),
                    links@ == lks,
                    lks == self.links_of(),
                    hyp == (current@.no_duplicates() && all_independent(lks, current@)),
                    j < current@.len(),
                    j + 1 <= k <= current@.len(),
                    node == current@[j as int],
                    group@.len() >= 1,
                    group@[0] == node,
                    taken@ == taken0 + group@,
                    forall|q: int| 0 <= q < group@.len() ==> !taken0.contains(#[trigger] group@[q]),
                    forall|q1: int, q2: int|
                        #![trigger group@[q1], group@[q2]]
                        0 <= q1 < q2 < group@.len() ==> group@[q1] != group@[q2],
                    forall|q: int| 0 <= q < group@.len() ==> current@.contains(#[trigger] group@[q]),
                    forall|q1: int, q2: int|
                        #![trigger group@[q1], group@[q2]]
                        0 <= q1 < group@.len() && 0 <= q2 < group@.len() && q1 != q2
                            ==> independent(lks, group@[q1] as int, group@[q2] as int),
                    (hyp && j == 0) ==> (taken0 == Seq::<usize>::empty() && group@ == current@.take(
                        k as int,
                    )),
                decreases current@.len() - k,
            {
                let other = current[k];
                if other == node || contains_usize(&taken, other) {
                    proof {
                        // Unreachable when the whole frontier is
                        // duplicate-free and pairwise independent: a copy
                        // of current[k] would have to sit among the
                        // already-grouped current[..k].
                        if hyp && j == 0 {
                            if other == node {
                                assert(current@[j as int] == current@[k as int]);
                            } else {
                                let w = choose|w: int|
                                    0 <= w < taken@.len() && taken@[w] == other;
                                assert(current@.take(k as int)[w] == other);
                                assert(current@[w] == current@[k as int]);
                            }
                            assert(false);
                        }
                    }
                    k += 1;
                    continue;
                }
                let mut can_add = true;
                let mut m: usize = 0;
                while m < group.len()
                    invariant
                        self.wf(),
                        self.nodes@.len() < 0x1000_0000,
                        self.edges@.len() < 0x1000_0000,
                        links@ == lks,
                        lks == self.links_of(),
                        m <= group@.len(),
                        other < self.nodes@.len(),
                        forall|q: int| 0 <= q < group@.len() ==> current@.contains(
                            #[trigger] group@[q],
                        ),
                        forall|i: int| 0 <= i < current@.len() ==> current@[i]
                            < self.nodes@.len(),
                        can_add <==> (forall|q: int|
                            0 <= q < m ==> independent(lks, (#[trigger] group@[q]) as int,
                            other as int)),
                    decreases group@.len() - m,
                {
                    let g_m = group[m];
                    proof {
                        assert(current@.contains(group@[m as int]));
                        let w = choose|w: int|
                            0 <= w < current@.len() && current@[w] == group@[m as int];
                        assert(current@[w] < self.nodes@.len());
                    }
                    if !self.are_independent(&links, g_m, other) {
                        can_add = false;
                    }
                    m += 1;
                }
                if can_add {
                    let ghost g0 = group@;
                    proof {
                        if hyp && j == 0 {
                            assert(group@.push(other) =~= current@.take(k + 1));
                        }
                        assert forall|w: int| 0 <= w < taken0.len() implies (taken0 + g0)[w]
                            == taken0[w] by {}
                        if taken0.contains(other) {
                            let w = choose|w: int| 0 <= w < taken0.len() && taken0[w] == other;
                            assert((taken0 + g0)[w] == other);
                        }
                        if g0.contains(other) {
                            let w = choose|w: int| 0 <= w < g0.len() && g0[w] == other;
                            assert((taken0 + g0)[taken0.len() + w] == other);
                        }
                        assert(!taken0.contains(other) && !g0.contains(other));
                    }
                    group.push(other);
                    taken.push(other);
                    proof {
                        assert(taken@ =~= taken0 + group@);
                        assert forall|q: int| 0 <= q < group@.len() implies !taken0.contains(
                            #[trigger] group@[q],
                        ) by {
                            if q < g0.len() {
                                assert(group@[q] == g0[q]);
                            } else {
                                assert(group@[q] == other);
                            }
                        }
                        assert forall|q1: int, q2: int|
                            #![trigger group@[q1], group@[q2]]
                            0 <= q1 < q2 < group@.len() implies group@[q1] != group@[q2] by {
                            if q2 < g0.len() {
                                assert(g0[q1] != g0[q2]);
                            } else {
                                assert(group@[q1] == g0[q1]);
                                if g0[q1] == other {
                                    assert(g0.contains(other));
                                }
                            }
                        }
                        assert forall|q1: int, q2: int|
                            0 <= q1 < group@.len() && 0 <= q2 < group@.len() && q1 != q2 implies
                            independent(lks, (#[trigger] group@[q1]) as int,
                            (#[trigger] group@[q2]) as int) by {
                            if q2 == group@.len() - 1 {
                                assert(independent(lks, group@[q1] as int, other as int));
                            } else if q1 == group@.len() - 1 {
                                assert(independent(lks, group@[q2] as int, other as int));
                                lemma_independent_sym(lks, group@[q2] as int, other as int);
                            }
                        }
                    }
                } else {
                    proof {
                        if hyp && j == 0 {
                            let q = choose|q: int|
                                !(0 <= q < group@.len() ==> independent(
                                    lks,
                                    group@[q] as int,
                                    other as int,
                                ));
                            assert(current@.take(k as int)[q] == group@[q]);
                            assert(current@[q] == group@[q]);
                            assert(independent(lks, current@[q] as int, current@[k as int] as int));
                        }
                    }
                }
                proof {
                    if hyp && j == 0 {
                        assert(group@ =~= current@.take(k + 1));
                    }
                }
                k += 1;
            }
            let ghost ggroup = group@;
            let ghost groups0 = groups@;
            groups.push(group);
            proof {
                assert(groups@.last()@ == ggroup);
                assert forall|x: usize| taken0.contains(x) implies taken@.contains(x) by {
                    let w = choose|w: int| 0 <= w < taken0.len() && taken0[w] == x;
                    assert(taken@[w] == x);
                }
                assert forall|x: usize| taken@.contains(x) implies exists|g: int|
                    0 <= g < groups@.len() && (#[trigger] groups@[g])@.contains(x) by {
                    let w = choose|w: int| 0 <= w < taken@.len() && taken@[w] == x;
                    if w < taken0.len() {
                        assert(taken0[w] == x);
                        assert(taken0.contains(x));
                        let g0 = choose|g0: int|
                            0 <= g0 < groups0.len() && (#[trigger] groups0[g0])@.contains(x);
                        assert(groups@[g0] == groups0[g0]);
                        assert((groups@[g0])@.contains(x));
                    } else {
                        assert(ggroup[w - taken0.len()] == x);
                        assert(groups@[groups@.len() - 1]@.contains(x));
                    }
                }
                assert(taken@[taken0.len() as int] == ggroup[0]);
                assert(taken@.contains(current@[j as int]));
                assert forall|g: int, k: int|
                    0 <= g < groups@.len() && 0 <= k < groups@[g]@.len() implies taken@.contains(
                    #[trigger] groups@[g]@[k]) by {
                    if g < groups0.len() {
                        assert(groups@[g] == groups0[g]);
                        assert(taken0.contains(groups0[g]@[k]));
                    } else {
                        assert(groups@[g]@ == ggroup);
                        assert(taken@[taken0.len() + k] == ggroup[k]);
                    }
                }
                if hyp {
                    assert(j == 0);
                    assert(ggroup == current@.take(current@.len() as int));
                    assert(current@.take(current@.len() as int) =~= current@);
                }
            }
            j += 1;
        }
        proof {
            assert forall|x: usize| current@.contains(x) implies exists|g: int|
                0 <= g < groups@.len() && (#[trigger] groups@[g])@.contains(x) by {
                let w = choose|w: int| 0 <= w < current@.len() && current@[w] == x;
                assert(taken@.contains(current@[w]));
            }
        }
        groups
    }
}

} // verus!

verus! {

/// Whether one more round may start under the budget: `max_steps` is
/// a hard ceiling, so exactly the first `max_steps` rounds are
/// admitted and the round after them is refused.
pub fn step_allowed(steps_taken: usize, max_steps: usize) -> (r: bool)
    ensures
        r == (steps_taken < max_steps),
{
    steps_taken < max_steps
}

/// Marks `idx` visited, extending the ghost visit trace, unless it was
/// visited before. Returns whether the visit was fresh, together with
/// the updated trace: still duplicate-free, still within bounds, still
/// covered by the visited flags.
fn visit_node(visited: &mut Vec<bool>, idx: usize, Ghost(trace): Ghost<Seq<int>>) -> (r: (
    bool,
    Ghost<Seq<int>>,
))
    requires
        idx < old(visited)@.len(),
        trace.no_duplicates(),
        forall|i: int| 0 <= i < trace.len() ==> 0 <= #[trigger] trace[i] < old(visited)@.len(),
        forall|i: int| 0 <= i < trace.len() ==> old(visited)@[#[trigger] trace[i]],
    ensures
        final(visited)@.len() == old(visited)@.len(),
        r.0 == !old(visited)@[idx as int],
        !r.0 ==> (final(visited)@ == old(visited)@ && r.1@ == trace),
        r.0 ==> (final(visited)@ == old(visited)@.update(idx as int, true) && r.1@ == trace.push(
            idx as int,
        )),
        r.1@.no_duplicates(),
        forall|i: int| 0 <= i < r.1@.len() ==> 0 <= #[trigger] r.1@[i] < final(visited)@.len(),
        forall|i: int| 0 <= i < r.1@.len() ==> final(visited)@[#[trigger] r.1@[i]],
{
    if visited[idx] {
        (false, Ghost(trace))
    } else {
        proof {
            assert forall|i: int| 0 <= i < trace.len() implies trace[i] != idx as int by {
                assert(old(visited)@[trace[i]]);
            }
        }
        visited[idx] = true;
        proof {
            let t2 = trace.push(idx as int);
            assert forall|i: int, j: int|
                0 <= i < t2.len() && 0 <= j < t2.len() && i != j implies t2[i] != t2[j] by {
                if i < trace.len() && j < trace.len() {
                    assert(trace[i] != trace[j]);
                } else if j == trace.len() as int {
                    assert(t2[i] == trace[i]);
                } else {
                    assert(t2[j] == trace[j]);
                }
            }
            assert(t2.no_duplicates());
        }
        (true, Ghost(trace.push(idx as int)))
    }
}

impl<S: StateValue> Graph<S> {
    /// The targets of the outgoing edges of `node` whose condition
    /// holds against `state`, in insertion order; an edge without a
    /// condition always matches, and a condition that fails is treated
    /// as not matching here. The ghost result lists the chosen edges,
    /// in strictly increasing insertion order: each result entry is
    /// the target of its edge, and every unconditioned edge leaving
    /// `node` is among them — only a conditioned edge can be left out.
    pub fn satisfied_targets(&self, node: usize, state: &State<S>) -> (r: (
        Vec<usize>,
        Ghost<Seq<int>>,
    ))
        requires
            self.wf(),
            node < self.nodes@.len(),
        ensures
            ({
                let es = r.1@;
                &&& es.len() == r.0@.len()
                &&& forall|k: int|
                    0 <= k < es.len() ==> (0 <= #[trigger] es[k] < self.edges@.len()
                        && self.edges@[es[k]].from == node && r.0@[k] == self.edges@[es[k]].to)
                &&& forall|k1: int, k2: int| 0 <= k1 < k2 < es.len() ==> es[k1] < es[k2]
                &&& forall|e: int|
                    0 <= e < self.edges@.len() && (#[trigger] self.edges@[e]).from == node
                        && self.edges@[e].condition is None ==> es.contains(e)
            }),
            forall|i: int|
                0 <= i < r.0@.len() ==> (#[trigger] r.0@[i]) < self.nodes@.len()
                    && self.edge_linked(node as int, r.0@[i] as int),
    {
        let mut out: Vec<usize> = Vec::new();
        let ghost mut es: Seq<int> = Seq::empty();
        let mut e: usize = 0;
        while e < self.edges.len()
            invariant
                self.wf(),
                node < self.nodes@.len(),
                e <= self.edges@.len(),
                es.len() == out@.len(),
                forall|k: int|
                    0 <= k < es.len() ==> (0 <= #[trigger] es[k] < e
                        && self.edges@[es[k]].from == node && out@[k] == self.edges@[es[k]].to),
                forall|k1: int, k2: int| 0 <= k1 < k2 < es.len() ==> es[k1] < es[k2],
                forall|j: int|
                    0 <= j < e && (#[trigger] self.edges@[j]).from == node
                        && self.edges@[j].condition is None ==> es.contains(j),
                forall|i: int|
                    0 <= i < out@.len() ==> (#[trigger] out@[i]) < self.nodes@.len()
                        && self.edge_linked(node as int, out@[i] as int),
            decreases self.edges@.len() - e,
        {
            if self.edges[e].from == node {
                let matched = match &self.edges[e].condition {
                    Some(c) => {
                        match c.check(state) {
                            Ok(b) => b,
                            Err(_) => false,
                        }
                    },
                    None => true,
                };
                if matched {
                    proof {
                        assert(self.edge_linked(node as int, self.edges@[e as int].to as int)) by {
                            assert((#[trigger] self.edges@[e as int]).from == node);
                        }
                        let prev = es;
                        es = es.push(e as int);
                        assert(es[es.len() - 1] == e as int);
                        assert forall|j: int|
                            0 <= j < e + 1 && (#[trigger] self.edges@[j]).from == node
                                && self.edges@[j].condition is None implies es.contains(j) by {
                            if j < e {
                                let w = choose|w: int| 0 <= w < prev.len() && prev[w] == j;
                                assert(es[w] == j);
                            } else {
                                assert(es[es.len() - 1] == j);
                            }
                        }
                    }
                    out.push(self.edges[e].to);
                } else {
                    proof {
                        assert(self.edges@[e as int].condition is Some);
                    }
                }
            }
            e += 1;
        }
        (out, Ghost(es))
    }

    /// Merges the states produced by one wave with the documented
    /// last-completed-wins policy: the last state of the list is kept
    /// whole, the others are discarded. Fails only on an empty list.
    pub fn merge_states(&self, states: Vec<State<S>>) -> (r: Result<State<S>, Error>)
        ensures
            (r is Err) <==> states@.len() == 0,
            r matches Err(e) ==> e is State,
            states@.len() > 0 ==> (r matches Ok(s) && s == states@.last()),
    {
        let mut states = states;
        match states.pop() {
            Some(s) => Ok(s),
            None => Err(Error::State("No states to merge".to_owned())),
        }
    }
}

} // verus!

verus! {

impl<S: StateValue> Graph<S> {
    /// What the ghost trace of a sequential run guarantees: pairwise
    /// distinct visits (a node is never processed twice), starting at
    /// the entry sentinel, each consecutive pair linked by an edge, and
    /// a successful run ends one edge away from the exit sentinel.
    pub open spec fn sequential_trace_ok(&self, t: Seq<int>, ok: bool) -> bool {
        &&& t.no_duplicates()
        &&& forall|i: int| 0 <= i < t.len() ==> 0 <= #[trigger] t[i] < self.nodes@.len() && t[i] != 1
        &&& t.len() >= 1 ==> t[0] == 0
        &&& forall|i: int| 0 <= i < t.len() - 1 ==> self.edge_linked(#[trigger] t[i], t[i + 1])
        &&& ok ==> t.len() >= 1 && self.edge_linked(t.last(), 1)
    }

    /// What the ghost trace of a parallel run guarantees: pairwise
    /// distinct visits within one run, all in bounds, and a successful
    /// run ends by visiting the exit sentinel.
    pub open spec fn parallel_trace_ok(&self, t: Seq<int>, ok: bool) -> bool {
        &&& t.no_duplicates()
        &&& forall|i: int| 0 <= i < t.len() ==> 0 <= #[trigger] t[i] < self.nodes@.len()
        &&& ok ==> t.len() >= 1 && t.last() == 1
    }

    /// Runs the graph in bulk-synchronous waves: the frontier is seeded
    /// from the entry sentinel's satisfied edges, each wave is
    /// partitioned into independence groups, every group member is
    /// cycle-checked before any of its processors runs, members of a
    /// multi-node group each process a copy of the pre-wave state, and
    /// their results merge last-completed-wins. The wave count is
    /// hard-bounded by `max_steps`; reaching the exit sentinel returns
    /// the current state.
    ///
    /// The first ghost result is the visit trace; it has no
    /// duplicates: no node's processor is invoked twice within one
    /// run. The second ghost result says why the run ended, pinning
    /// the error kind of each of the engine's own failures: re-entry
    /// of a visited node fails with `CycleDetected`, an exhausted wave
    /// budget and an emptied frontier each fail with a `Graph` error,
    /// and only a processor's or condition's own failure is handed on
    /// unclassified.
    #[verifier::rlimit(100)]
    pub fn run_parallel(&self, initial_state: State<S>) -> (r: (
        Result<State<S>, Error>,
        Ghost<Seq<int>>,
        Ghost<RunEnd>,
    ))
        requires
            self.wf(),
            self.nodes@.len() < 0x1000_0000,
            self.edges@.len() < 0x1000_0000,
        ensures
            self.parallel_trace_ok(r.1@, r.0 is Ok),
            self.max_steps == 0 ==> r.0 is Err,
            ({
                let t = r.1@;
                let end = r.2@;
                &&& (end is Finished) <==> r.0 is Ok
                &&& (end matches RunEnd::Cycle { node } ==> (r.0 matches Err(
                    Error::CycleDetected(_),
                ) && t.contains(node)))
                &&& (end is Budget ==> r.0 matches Err(Error::Graph(_)))
                &&& (end is Exhausted ==> r.0 matches Err(Error::Graph(_)))
                &&& (end matches RunEnd::MissingProcessor { node } ==> r.0 matches Err(
                    Error::Graph(_),
                ))
                &&& (end matches RunEnd::External { node } ==> r.0 is Err)
                &&& (end is Finished || (end matches RunEnd::Cycle { node: _ }) || end is Budget
                    || end is Exhausted || (end matches RunEnd::MissingProcessor { node: _ })
                    || (end matches RunEnd::External { node: _ }))
            }),
            (self.sole_entry_edge_to_exit() && self.max_steps >= 1) ==> (r.0 matches Ok(s) && s
                == initial_state),
            self.no_entry_edges() ==> r.0 matches Err(Error::Graph(_)),
    {
        let ghost sole = self.sole_entry_edge_to_exit() && self.max_steps >= 1;
        let n = self.nodes.len();
        let mut visited: Vec<bool> = Vec::new();
        let mut k: usize = 0;
        while k < n
            invariant
                k <= n,
                visited@.len() == k,
                forall|v: int| 0 <= v < k ==> !(#[trigger] visited@[v]),
            decreases n - k,
        {
            visited.push(false);
            k += 1;
        }
        let mut state = initial_state;
        let ghost mut trace: Seq<int> = Seq::empty();
        let (mut frontier, seed_edges) = self.satisfied_targets(0, &state);
        proof {
            if self.no_entry_edges() {
                if frontier@.len() > 0 {
                    assert(self.edges@[seed_edges@[0]].from == 0);
                }
                assert(frontier@.len() == 0);
            }
            if sole {
                let e0 = choose|e: int|
                    {
                        &&& 0 <= e < self.edges@.len()
                        &&& (#[trigger] self.edges@[e]).from == 0
                        &&& self.edges@[e].to == 1
                        &&& self.edges@[e].condition is None
                        &&& forall|j: int|
                            0 <= j < self.edges@.len() && j != e ==> (#[trigger] self.edges@[j]).from
                                != 0
                    };
                let es = seed_edges@;
                assert(es.contains(e0));
                let w = choose|w: int| 0 <= w < es.len() && es[w] == e0;
                assert forall|q: int| 0 <= q < es.len() implies es[q] == e0 by {
                    assert(self.edges@[es[q]].from == 0);
                }
                if es.len() > 1 {
                    assert(es[0] == e0 && es[1] == e0);
                    assert(es[0] < es[1]);
                }
                assert(es.len() == 1);
                assert(frontier@[0] == self.edges@[e0].to);
                assert(frontier@ =~= seq![1usize]);
            }
        }
        let mut steps: usize = 0;
        while frontier.len() > 0
            invariant
                self.wf(),
                self.nodes@.len() < 0x1000_0000,
                self.edges@.len() < 0x1000_0000,
                n == self.nodes@.len(),
                visited@.len() == n,
                steps <= self.max_steps,
                trace.no_duplicates(),
                forall|i: int| 0 <= i < trace.len() ==> 0 <= #[trigger] trace[i] < n,
                forall|i: int| 0 <= i < trace.len() ==> visited@[#[trigger] trace[i]],
                forall|v: int| 0 <= v < n && visited@[v] ==> trace.contains(v),
                forall|i: int| 0 <= i < frontier@.len() ==> (#[trigger] frontier@[i]) < n,
                sole == (self.sole_entry_edge_to_exit() && self.max_steps >= 1),
                sole ==> (steps == 0 && frontier@ == seq![1usize] && state == initial_state
                    && trace.len() == 0 && (forall|v: int| 0 <= v < n ==> !(#[trigger] visited@[v]))),
                self.no_entry_edges() ==> frontier@.len() == 0,
            decreases self.max_steps - steps,
        {
            if !step_allowed(steps, self.max_steps) {
                return (
                    (
                        Err(Error::Graph("Exceeded maximum steps".to_owned())),
                        Ghost(trace),
                        Ghost(RunEnd::Budget),
                    )
                );
            }
            steps += 1;
            let groups = self.find_parallel_nodes(&frontier);
            proof {
                assert forall|g: int, q: int|
                    0 <= g < groups@.len() && 0 <= q < groups@[g]@.len() implies (
                #[trigger] groups@[g]@[q]) < n by {
                    assert(frontier@.contains(groups@[g]@[q]));
                    let w = choose|w: int|
                        0 <= w < frontier@.len() && frontier@[w] == groups@[g]@[q];
                    assert(frontier@[w] < n);
                }
                if sole {
                    assert(frontier@.no_duplicates());
                    assert(all_independent(self.links_of(), frontier@));
                    assert(groups@.len() == 1 && groups@[0]@ == frontier@);
                }
            }
            let mut next: Vec<usize> = Vec::new();
            let mut gi: usize = 0;
            while gi < groups.len()
                invariant
                    self.wf(),
                    !self.no_entry_edges(),
                    self.nodes@.len() < 0x1000_0000,
                    self.edges@.len() < 0x1000_0000,
                    n == self.nodes@.len(),
                    visited@.len() == n,
                    1 <= steps <= self.max_steps,
                    gi <= groups@.len(),
                    trace.no_duplicates(),
                    forall|i: int| 0 <= i < trace.len() ==> 0 <= #[trigger] trace[i] < n,
                    forall|i: int| 0 <= i < trace.len() ==> visited@[#[trigger] trace[i]],
                    forall|v: int| 0 <= v < n && visited@[v] ==> trace.contains(v),
                    forall|g: int, q: int|
                        0 <= g < groups@.len() && 0 <= q < groups@[g]@.len() ==> (
                        #[trigger] groups@[g]@[q]) < n,
                    forall|i: int| 0 <= i < next@.len() ==> (#[trigger] next@[i]) < n,
                    sole == (self.sole_entry_edge_to_exit() && self.max_steps >= 1),
                    sole ==> (gi == 0 && groups@.len() == 1 && groups@[0]@ == seq![1usize]
                        && state == initial_state && trace.len() == 0 && (forall|v: int|
                        0 <= v < n ==> !(#[trigger] visited@[v]))),
                decreases groups@.len() - gi,
            {
                let group_len = groups[gi].len();
                if group_len == 0 {
                    gi += 1;
                    continue;
                }
                if group_len == 1 {
                    let idx = groups[gi][0];
                    let ghost vis0 = visited@;
                    let ghost tr0 = trace;
                    let (fresh, gt) = visit_node(&mut visited, idx, Ghost(trace));
                    proof {
                        trace = gt@;
                        assert forall|v: int| 0 <= v < n && visited@[v] implies trace.contains(
                            v,
                        ) by {
                            if fresh {
                                if v == idx as int {
                                    assert(trace[trace.len() - 1] == v);
                                } else {
                                    assert(vis0[v]);
                                    assert(tr0.contains(v));
                                    let w = choose|w: int| 0 <= w < tr0.len() && tr0[w] == v;
                                    assert(trace[w] == v);
                                }
                            }
                        }
                    }
                    if !fresh {
                        return (
                            (
                                Err(
                                    Error::CycleDetected(
                                        compose_msg(
                                            "Cycle detected at node: ",
                                            self.nodes[idx].name.as_str(),
                                        ),
                                    ),
                                ),
                                Ghost(trace),
                                Ghost(RunEnd::Cycle { node: idx as int }),
                            )
                        );
                    }
                    if idx == 1 {
                        return ((Ok(state), Ghost(trace), Ghost(RunEnd::Finished)));
                    }
                    proof {
                        if sole {
                            assert(idx == 1);
                            assert(false);
                        }
                    }
                    let stepped = match &self.nodes[idx].processor {
                        Some(p) => p.process(state),
                        None => {
                            return (
                                (
                                    Err(
                                        Error::Graph(
                                            compose_msg(
                                                "No processor found for node: ",
                                                self.nodes[idx].name.as_str(),
                                            ),
                                        ),
                                    ),
                                    Ghost(trace),
                                    Ghost(RunEnd::MissingProcessor { node: idx as int }),
                                )
                            );
                        },
                    };
                    match stepped {
                        Ok(s) => {
                            state = s;
                        },
                        Err(e) => {
                            return (
                                (
                                    Err(e),
                                    Ghost(trace),
                                    Ghost(RunEnd::External { node: idx as int }),
                                )
                            );
                        },
                    }
                    let (mut ts, _ts_edges) = self.satisfied_targets(idx, &state);
                    next.append(&mut ts);
                } else {
                    proof {
                        if sole {
                            assert(group_len == 1);
                            assert(false);
                        }
                    }
                    let mut mi: usize = 0;
                    while mi < group_len
                        invariant
                            self.wf(),
                            !(self.sole_entry_edge_to_exit() && self.max_steps >= 1),
                            !self.no_entry_edges(),
                            n == self.nodes@.len(),
                            visited@.len() == n,
                            gi < groups@.len(),
                            group_len == groups@[gi as int]@.len(),
                            mi <= group_len,
                            trace.no_duplicates(),
                            forall|i: int| 0 <= i < trace.len() ==> 0 <= #[trigger] trace[i] < n,
                            forall|i: int| 0 <= i < trace.len() ==> visited@[#[trigger] trace[i]],
                            forall|v: int| 0 <= v < n && visited@[v] ==> trace.contains(v),
                            forall|g: int, q: int|
                                0 <= g < groups@.len() && 0 <= q < groups@[g]@.len() ==> (
                                #[trigger] groups@[g]@[q]) < n,
                            forall|i: int| 0 <= i < next@.len() ==> (#[trigger] next@[i]) < n,
                        decreases group_len - mi,
                    {
                        let idx = groups[gi][mi];
                        let ghost vis0 = visited@;
                        let ghost tr0 = trace;
                        let (fresh, gt) = visit_node(&mut visited, idx, Ghost(trace));
                        proof {
                            trace = gt@;
                            assert forall|v: int| 0 <= v < n && visited@[v] implies trace.contains(
                                v,
                            ) by {
                                if fresh {
                                    if v == idx as int {
                                        assert(trace[trace.len() - 1] == v);
                                    } else {
                                        assert(vis0[v]);
                                        assert(tr0.contains(v));
                                        let w = choose|w: int| 0 <= w < tr0.len() && tr0[w] == v;
                                        assert(trace[w] == v);
                                    }
                                }
                            }
                        }
                        if !fresh {
                            return (
                                (
                                    Err(
                                        Error::CycleDetected(
                                            compose_msg(
                                                "Cycle detected at node: ",
                                                self.nodes[idx].name.as_str(),
                                            ),
                                        ),
                                    ),
                                    Ghost(trace),
                                    Ghost(RunEnd::Cycle { node: idx as int }),
                                )
                            );
                        }
                        if idx == 1 {
                            next.push(idx);
                        }
                        mi += 1;
                    }
                    let mut results: Vec<State<S>> = Vec::new();
                    let mut mi2: usize = 0;
                    while mi2 < group_len
                        invariant
                            self.wf(),
                            !(self.sole_entry_edge_to_exit() && self.max_steps >= 1),
                            !self.no_entry_edges(),
                            n == self.nodes@.len(),
                            visited@.len() == n,
                            gi < groups@.len(),
                            group_len == groups@[gi as int]@.len(),
                            mi2 <= group_len,
                            trace.no_duplicates(),
                            forall|i: int| 0 <= i < trace.len() ==> 0 <= #[trigger] trace[i] < n,
                            forall|i: int| 0 <= i < trace.len() ==> visited@[#[trigger] trace[i]],
                            forall|v: int| 0 <= v < n && visited@[v] ==> trace.contains(v),
                            forall|g: int, q: int|
                                0 <= g < groups@.len() && 0 <= q < groups@[g]@.len() ==> (
                                #[trigger] groups@[g]@[q]) < n,
                            forall|i: int| 0 <= i < next@.len() ==> (#[trigger] next@[i]) < n,
                        decreases group_len - mi2,
                    {
                        let idx = groups[gi][mi2];
                        if idx != 1 {
                            let snapshot = state.duplicate();
                            let stepped = match &self.nodes[idx].processor {
                                Some(p) => p.process(snapshot),
                                None => {
                                    return (
                                        (
                                            Err(
                                                Error::Graph(
                                                    compose_msg(
                                                        "No processor found for node: ",
                                                        self.nodes[idx].name.as_str(),
                                                    ),
                                                ),
                                            ),
                                            Ghost(trace),
                                            Ghost(
                                                RunEnd::MissingProcessor { node: idx as int },
                                            ),
                                        )
                                    );
                                },
                            };
                            match stepped {
                                Ok(s) => {
                                    results.push(s);
                                },
                                Err(e) => {
                                    return (
                                        (
                                            Err(e),
                                            Ghost(trace),
                                            Ghost(RunEnd::External { node: idx as int }),
                                        )
                                    );
                                },
                            }
                        }
                        mi2 += 1;
                    }
                    if results.len() > 0 {
                        match self.merge_states(results) {
                            Ok(s) => {
                                state = s;
                            },
                            Err(e) => {
                                return (
                                    (
                                        Err(e),
                                        Ghost(trace),
                                        Ghost(RunEnd::External { node: 0 }),
                                    )
                                );
                            },
                        }
                        let mut mi3: usize = 0;
                        while mi3 < group_len
                            invariant
                                self.wf(),
                                !(self.sole_entry_edge_to_exit() && self.max_steps >= 1),
                                !self.no_entry_edges(),
                                self.nodes@.len() < 0x1000_0000,
                                self.edges@.len() < 0x1000_0000,
                                n == self.nodes@.len(),
                                visited@.len() == n,
                                gi < groups@.len(),
                                group_len == groups@[gi as int]@.len(),
                                mi3 <= group_len,
                                trace.no_duplicates(),
                                forall|i: int| 0 <= i < trace.len() ==> 0 <= #[trigger] trace[i]
                                    < n,
                                forall|i: int| 0 <= i < trace.len() ==> visited@[#[trigger] trace[i]],
                                forall|v: int| 0 <= v < n && visited@[v] ==> trace.contains(v),
                                forall|g: int, q: int|
                                    0 <= g < groups@.len() && 0 <= q < groups@[g]@.len() ==> (
                                    #[trigger] groups@[g]@[q]) < n,
                                forall|i: int| 0 <= i < next@.len() ==> (#[trigger] next@[i]) < n,
                            decreases group_len - mi3,
                        {
                            let idx = groups[gi][mi3];
                            if idx != 1 {
                                let (mut ts, _ts_edges) = self.satisfied_targets(idx, &state);
                                next.append(&mut ts);
                            }
                            mi3 += 1;
                        }
                    }
                }
                gi += 1;
            }
            frontier = next;
        }
        (
            (
                Err(Error::Graph("Graph execution completed without reaching END node".to_owned())),
                Ghost(trace),
                Ghost(RunEnd::Exhausted),
            )
        )
    }

    /// Executes the graph against the given initial state, under the
    /// configured strategy. Whatever the processors and conditions do,
    /// a run never visits a node twice: the sequential strategy walks a
    /// duplicate-free, edge-linked chain from the entry sentinel, and
    /// the parallel strategy visits a duplicate-free set of nodes and
    /// succeeds only by reaching the exit sentinel; a step bound of
    /// zero always fails a parallel run. Success is owed where no
    /// processor or condition gets a say: a graph whose entry routes
    /// straight to the exit sentinel returns the initial state
    /// unchanged, and a graph with no edge out of the entry sentinel
    /// always fails with a `Graph` error.
    pub fn execute(&self, initial_state: State<S>) -> (r: Result<State<S>, Error>)
        requires
            self.wf(),
            self.nodes@.len() < 0x1000_0000,
            self.edges@.len() < 0x1000_0000,
        ensures
            self.execution_strategy == ExecutionStrategy::Sequential ==> exists|t: Seq<int>|
                #[trigger] self.sequential_trace_ok(t, r is Ok),
            self.execution_strategy == ExecutionStrategy::Parallel ==> exists|t: Seq<int>|
                #[trigger] self.parallel_trace_ok(t, r is Ok),
            (self.execution_strategy == ExecutionStrategy::Parallel && self.max_steps == 0)
                ==> r is Err,
            (self.execution_strategy == ExecutionStrategy::Sequential
                && self.entry_exits_immediately()) ==> (r matches Ok(s) && s == initial_state),
            (self.execution_strategy == ExecutionStrategy::Parallel
                && self.sole_entry_edge_to_exit() && self.max_steps >= 1) ==> (r matches Ok(s)
                && s == initial_state),
            self.no_entry_edges() ==> r matches Err(Error::Graph(_)),
    {
        match self.execution_strategy {
            ExecutionStrategy::Sequential => {
                let (res, gt, _end) = self.run_sequential(initial_state);
                proof {
                    assert(self.sequential_trace_ok(gt@, res is Ok));
                }
                res
            },
            ExecutionStrategy::Parallel => {
                let (res, gt, _end) = self.run_parallel(initial_state);
                proof {
                    assert(self.parallel_trace_ok(gt@, res is Ok));
                }
                res
            },
        }
    }
}

} // verus!

verus! {

use crate::serialization::SerializableEdge;
use crate::serialization::SerializableGraph;

impl<S: StateValue> Graph<S> {
    /// The exported edge triples (source name, target name, has a
    /// condition) among the first `n` edges: every edge except those
    /// leaving the entry sentinel or entering the exit sentinel, in
    /// insertion order.
    pub open spec fn export_edges_upto(&self, n: int) -> Seq<(Seq<char>, Seq<char>, bool)>
        decreases n,
    {
        if n <= 0 {
            Seq::empty()
        } else {
            let e = self.edges@[n - 1];
            let prev = self.export_edges_upto(n - 1);
            if e.from != 0 && e.to != 1 {
                prev.push((self.name_at(e.from as int), self.name_at(e.to as int), e.condition is Some))
            } else {
                prev
            }
        }
    }

    /// Produces a structural snapshot: every node name except the two
    /// sentinels, in registration order, and every edge that neither
    /// leaves the entry sentinel nor enters the exit sentinel, by
    /// names, with a flag telling whether a condition was attached —
    /// never the condition logic itself.
    pub fn export_serializable(&self) -> (r: SerializableGraph)
        requires
            self.wf(),
        ensures
            r.nodes@.len() == self.nodes@.len() - 2,
            forall|i: int| 0 <= i < r.nodes@.len() ==> (#[trigger] r.nodes@[i])@ == self.name_at(
                i + 2,
            ),
            ({
                let spec_edges = self.export_edges_upto(self.edges@.len() as int);
                &&& r.edges@.len() == spec_edges.len()
                &&& forall|i: int|
                    0 <= i < r.edges@.len() ==> ((#[trigger] r.edges@[i]).from@ == spec_edges[i].0
                        && r.edges@[i].to@ == spec_edges[i].1 && r.edges@[i].has_condition
                        == spec_edges[i].2)
            }),
            r.metadata@.len() == 0,
    {
        let mut nodes: Vec<String> = Vec::new();
        let mut i: usize = 2;
        while i < self.nodes.len()
            invariant
                self.wf(),
                2 <= i <= self.nodes@.len(),
                nodes@.len() == i - 2,
                forall|j: int| 0 <= j < nodes@.len() ==> (#[trigger] nodes@[j])@ == self.name_at(
                    j + 2,
                ),
            decreases self.nodes@.len() - i,
        {
            nodes.push(self.nodes[i].name.clone());
            i += 1;
        }
        let mut edges: Vec<SerializableEdge> = Vec::new();
        let mut e: usize = 0;
        while e < self.edges.len()
            invariant
                self.wf(),
                e <= self.edges@.len(),
                ({
                    let spec_edges = self.export_edges_upto(e as int);
                    &&& edges@.len() == spec_edges.len()
                    &&& forall|j: int|
                        0 <= j < edges@.len() ==> ((#[trigger] edges@[j]).from@ == spec_edges[j].0
                            && edges@[j].to@ == spec_edges[j].1 && edges@[j].has_condition
                            == spec_edges[j].2)
                }),
            decreases self.edges@.len() - e,
        {
            let from = self.edges[e].from;
            let to = self.edges[e].to;
            if from != 0 && to != 1 {
                let has_condition = match &self.edges[e].condition {
                    Some(_) => true,
                    None => false,
                };
                edges.push(
                    SerializableEdge {
                        from: self.nodes[from].name.clone(),
                        to: self.nodes[to].name.clone(),
                        has_condition,
                        condition_description: None,
                    },
                );
            }
            e += 1;
        }
        SerializableGraph { nodes, edges, metadata: Vec::new() }
    }
}

/// A fluent, validating builder around [`Graph`].
#[verifier::reject_recursive_types(S)]
pub struct GraphBuilder<S: StateValue> {
    /// The graph under construction.
    pub graph: Graph<S>,
}

impl<S: StateValue> GraphBuilder<S> {
    /// Starts a builder over an empty graph.
    pub fn new() -> (r: Self)
        ensures
            r.graph.wf(),
            r.graph.nodes@.len() == 2,
            r.graph.edges@.len() == 0,
            r.graph.execution_strategy == ExecutionStrategy::Sequential,
            r.graph.max_steps == 1000,
    {
        GraphBuilder { graph: Graph::new() }
    }

    /// Replaces the execution strategy.
    pub fn with_execution_strategy(self, strategy: ExecutionStrategy) -> (r: Self)
        ensures
            r.graph.nodes == self.graph.nodes,
            r.graph.edges == self.graph.edges,
            r.graph.max_steps == self.graph.max_steps,
            r.graph.execution_strategy == strategy,
    {
        GraphBuilder { graph: self.graph.with_execution_strategy(strategy) }
    }

    /// Replaces the bound on the number of parallel waves.
    pub fn with_max_steps(self, max_steps: usize) -> (r: Self)
        ensures
            r.graph.nodes == self.graph.nodes,
            r.graph.edges == self.graph.edges,
            r.graph.max_steps == max_steps,
            r.graph.execution_strategy == self.graph.execution_strategy,
    {
        GraphBuilder { graph: self.graph.with_max_steps(max_steps) }
    }

    /// Registers a node, failing with `InvalidNode` on a reserved
    /// sentinel name.
    pub fn with_node(self, name: String, processor: Box<dyn NodeProcessor<S>>) -> (r: Result<
        Self,
        Error,
    >)
        requires
            self.graph.wf(),
        ensures
            (name@ == START@ || name@ == END@) ==> r matches Err(Error::InvalidNode(_)),
            (name@ != START@ && name@ != END@) ==> r is Ok,
            r matches Ok(b) ==> {
                &&& b.graph.wf()
                &&& b.graph.has_name(name@)
                &&& forall|n: Seq<char>| self.graph.has_name(n) ==> b.graph.has_name(n)
                &&& b.graph.edges == self.graph.edges
                &&& b.graph.execution_strategy == self.graph.execution_strategy
                &&& b.graph.max_steps == self.graph.max_steps
                &&& self.graph.has_name(name@) ==> {
                    &&& b.graph.nodes@.len() == self.graph.nodes@.len()
                    &&& forall|j: int|
                        0 <= j < self.graph.nodes@.len() && self.graph.name_at(j) != name@
                            ==> b.graph.nodes@[j] == self.graph.nodes@[j]
                    &&& forall|j: int|
                        0 <= j < self.graph.nodes@.len() && self.graph.name_at(j) == name@ ==> (
                        b.graph.name_at(j) == name@
                            && (#[trigger] b.graph.nodes@[j].processor) is Some)
                }
                &&& !self.graph.has_name(name@) ==> {
                    &&& b.graph.nodes@.len() == self.graph.nodes@.len() + 1
                    &&& forall|j: int|
                        0 <= j < self.graph.nodes@.len() ==> b.graph.nodes@[j]
                            == self.graph.nodes@[j]
                    &&& b.graph.name_at(self.graph.nodes@.len() as int) == name@
                    &&& b.graph.nodes@[self.graph.nodes@.len() as int].processor is Some
                }
            },
    {
        let mut g = self.graph;
        let ghost pre = g;
        match g.add_node(name, processor) {
            Ok(_) => {
                proof {
                    assert(g.has_name(name@)) by {
                        if pre.has_name(name@) {
                            let i = choose|i: int|
                                0 <= i < pre.nodes@.len() && pre.name_at(i) == name@;
                            // Mentioning the processor field matches the
                            // trigger of add_node's replacement clause.
                            assert(g.nodes@[i].processor is Some || g.nodes@[i].processor
                                is None);
                            assert(g.name_at(i) == name@);
                        } else {
                            assert(g.name_at(pre.nodes@.len() as int) == name@);
                        }
                    }
                    assert forall|n: Seq<char>| pre.has_name(n) implies g.has_name(n) by {
                        let i = choose|i: int| 0 <= i < pre.nodes@.len() && pre.name_at(i) == n;
                        if pre.has_name(name@) {
                            if pre.name_at(i) == name@ {
                                // Same trigger mention as above.
                                assert(g.nodes@[i].processor is Some || g.nodes@[i].processor
                                    is None);
                                assert(g.name_at(i) == name@);
                            } else {
                                assert(g.nodes@[i] == pre.nodes@[i]);
                                assert(g.name_at(i) == n);
                            }
                        } else {
                            assert(g.nodes@[i] == pre.nodes@[i]);
                            assert(g.name_at(i) == n);
                        }
                    }
                }
                Ok(GraphBuilder { graph: g })
            },
            Err(e) => Err(e),
        }
    }

    /// Adds an edge, failing with `InvalidNode` when either endpoint
    /// is unregistered.
    pub fn with_edge(
        self,
        from: &str,
        to: &str,
        condition: Option<Box<dyn EdgeCondition<S>>>,
    ) -> (r: Result<Self, Error>)
        requires
            self.graph.wf(),
        ensures
            r is Ok <==> (self.graph.has_name(from@) && self.graph.has_name(to@)),
            r is Err ==> r matches Err(Error::InvalidNode(_)),
            r matches Ok(b) ==> {
                &&& b.graph.wf()
                &&& b.graph.nodes == self.graph.nodes
                &&& b.graph.execution_strategy == self.graph.execution_strategy
                &&& b.graph.max_steps == self.graph.max_steps
                &&& b.graph.edges@.len() == self.graph.edges@.len() + 1
                &&& forall|e: int|
                    0 <= e < self.graph.edges@.len() ==> b.graph.edges@[e] == self.graph.edges@[e]
                &&& b.graph.edges@.last().from == self.graph.node_index(from@)
                &&& b.graph.edges@.last().to == self.graph.node_index(to@)
                &&& (b.graph.edges@.last().condition is Some <==> condition is Some)
            },
    {
        let mut g = self.graph;
        match g.add_edge(from, to, condition) {
            Ok(_) => Ok(GraphBuilder { graph: g }),
            Err(e) => Err(e),
        }
    }

    /// Connects the entry sentinel to `to` with an unconditioned edge.
    pub fn with_start_edge(self, to: &str) -> (r: Result<Self, Error>)
        requires
            self.graph.wf(),
        ensures
            r is Ok <==> self.graph.has_name(to@),
            r is Err ==> r matches Err(Error::InvalidNode(_)),
            r matches Ok(b) ==> {
                &&& b.graph.wf()
                &&& b.graph.nodes == self.graph.nodes
                &&& b.graph.execution_strategy == self.graph.execution_strategy
                &&& b.graph.max_steps == self.graph.max_steps
                &&& b.graph.edges@.len() == self.graph.edges@.len() + 1
                &&& forall|e: int|
                    0 <= e < self.graph.edges@.len() ==> b.graph.edges@[e] == self.graph.edges@[e]
                &&& b.graph.edges@.last().from == 0
                &&& b.graph.edges@.last().to == self.graph.node_index(to@)
                &&& b.graph.edges@.last().condition is None
            },
    {
        let mut g = self.graph;
        match g.add_start_edge(to) {
            Ok(_) => Ok(GraphBuilder { graph: g }),
            Err(e) => Err(e),
        }
    }

    /// Connects `from` to the exit sentinel with an unconditioned
    /// edge.
    pub fn with_end_edge(self, from: &str) -> (r: Result<Self, Error>)
        requires
            self.graph.wf(),
        ensures
            r is Ok <==> self.graph.has_name(from@),
            r is Err ==> r matches Err(Error::InvalidNode(_)),
            r matches Ok(b) ==> {
                &&& b.graph.wf()
                &&& b.graph.nodes == self.graph.nodes
                &&& b.graph.execution_strategy == self.graph.execution_strategy
                &&& b.graph.max_steps == self.graph.max_steps
                &&& b.graph.edges@.len() == self.graph.edges@.len() + 1
                &&& forall|e: int|
                    0 <= e < self.graph.edges@.len() ==> b.graph.edges@[e] == self.graph.edges@[e]
                &&& b.graph.edges@.last().from == self.graph.node_index(from@)
                &&& b.graph.edges@.last().to == 1
                &&& b.graph.edges@.last().condition is None
            },
    {
        let mut g = self.graph;
        match g.add_end_edge(from) {
            Ok(_) => Ok(GraphBuilder { graph: g }),
            Err(e) => Err(e),
        }
    }

    /// Hands the built graph out.
    pub fn build(self) -> (r: Graph<S>)
        ensures
            r == self.graph,
    {
        self.graph
    }
}

} // verus!

verus! {

impl<S: StateValue> Default for Graph<S> {
    /// An empty graph: the two sentinels, the sequential strategy and
    /// the default step bound.
    fn default() -> (r: Self)
        ensures
            r.wf(),
            r.nodes@.len() == 2,
            r.edges@.len() == 0,
            r.execution_strategy == ExecutionStrategy::Sequential,
            r.max_steps == 1000,
    {
        Graph::new()
    }
}

} // verus!
