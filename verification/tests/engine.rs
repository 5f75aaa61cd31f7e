use std::sync::atomic::{AtomicUsize, Ordering};
use std::sync::Arc;

use glint::error::Error;
use glint::graph::{EdgeCondition, ExecutionStrategy, GraphBuilder, NodeProcessor};
use glint::pregel::{Message as PregelMessage, PregelGraph, PregelNode};
use glint::schema::{Message, MessageRole};
use glint::state::{State, StateValue};

#[derive(Debug, Clone)]
struct TestState {
    counter: Arc<AtomicUsize>,
    messages: Vec<Message>,
}

impl StateValue for TestState {
    fn dup(&self) -> Self {
        self.clone()
    }
}

struct CounterNode {
    increment: usize,
}

impl NodeProcessor<TestState> for CounterNode {
    fn process(&self, state: State<TestState>) -> Result<State<TestState>, Error> {
        state.data.counter.fetch_add(self.increment, Ordering::SeqCst);
        Ok(state)
    }
}

struct MessageNode {
    message: String,
}

impl NodeProcessor<TestState> for MessageNode {
    fn process(&self, mut state: State<TestState>) -> Result<State<TestState>, Error> {
        state
            .data
            .messages
            .push(Message::new(MessageRole::User, self.message.clone()));
        Ok(state)
    }
}

struct CounterAtLeast {
    n: usize,
}

impl EdgeCondition<TestState> for CounterAtLeast {
    fn check(&self, state: &State<TestState>) -> Result<bool, Error> {
        Ok(state.data.counter.load(Ordering::SeqCst) >= self.n)
    }
}

#[test]
fn test_sequential_execution() {
    let counter = Arc::new(AtomicUsize::new(0));
    let initial_state = State::new(TestState {
        counter: counter.clone(),
        messages: vec![],
    });

    let graph = GraphBuilder::new()
        .with_node("counter1".to_string(), Box::new(CounterNode { increment: 1 }))
        .unwrap()
        .with_node("counter2".to_string(), Box::new(CounterNode { increment: 2 }))
        .unwrap()
        .with_node(
            "message".to_string(),
            Box::new(MessageNode {
                message: "test".to_string(),
            }),
        )
        .unwrap()
        .with_start_edge("counter1")
        .unwrap()
        .with_edge("counter1", "counter2", None)
        .unwrap()
        .with_edge("counter2", "message", None)
        .unwrap()
        .with_end_edge("message")
        .unwrap()
        .build();

    let final_state = graph.execute(initial_state).unwrap();
    assert_eq!(counter.load(Ordering::SeqCst), 3);
    assert_eq!(final_state.data.messages.len(), 1);
    assert_eq!(final_state.data.messages[0].content, "test");
}

#[test]
fn test_parallel_execution() {
    let counter = Arc::new(AtomicUsize::new(0));
    let initial_state = State::new(TestState {
        counter: counter.clone(),
        messages: vec![],
    });

    let graph = GraphBuilder::new()
        .with_node("counter1".to_string(), Box::new(CounterNode { increment: 1 }))
        .unwrap()
        .with_node("counter2".to_string(), Box::new(CounterNode { increment: 2 }))
        .unwrap()
        .with_node(
            "message".to_string(),
            Box::new(MessageNode {
                message: "test".to_string(),
            }),
        )
        .unwrap()
        .with_start_edge("counter1")
        .unwrap()
        .with_start_edge("counter2")
        .unwrap()
        .with_edge("counter1", "message", None)
        .unwrap()
        .with_edge("counter2", "message", None)
        .unwrap()
        .with_end_edge("message")
        .unwrap()
        .with_execution_strategy(ExecutionStrategy::Parallel)
        .build();

    let final_state = graph.execute(initial_state).unwrap();
    assert_eq!(counter.load(Ordering::SeqCst), 3);
    assert_eq!(final_state.data.messages.len(), 1);
}

#[test]
fn test_conditional_edges() {
    let counter = Arc::new(AtomicUsize::new(0));
    let initial_state = State::new(TestState {
        counter: counter.clone(),
        messages: vec![],
    });

    let condition = Box::new(CounterAtLeast { n: 1 });

    let graph = GraphBuilder::new()
        .with_node("counter1".to_string(), Box::new(CounterNode { increment: 1 }))
        .unwrap()
        .with_node("counter2".to_string(), Box::new(CounterNode { increment: 2 }))
        .unwrap()
        .with_node(
            "message".to_string(),
            Box::new(MessageNode {
                message: "test".to_string(),
            }),
        )
        .unwrap()
        .with_start_edge("counter1")
        .unwrap()
        .with_edge("counter1", "counter2", Some(condition))
        .unwrap()
        .with_edge("counter2", "message", None)
        .unwrap()
        .with_end_edge("message")
        .unwrap()
        .build();

    let final_state = graph.execute(initial_state).unwrap();
    assert_eq!(counter.load(Ordering::SeqCst), 3);
    assert_eq!(final_state.data.messages.len(), 1);
}

#[test]
fn test_cycle_detection() {
    let graph = GraphBuilder::new()
        .with_node("node1".to_string(), Box::new(CounterNode { increment: 1 }))
        .unwrap()
        .with_node("node2".to_string(), Box::new(CounterNode { increment: 2 }))
        .unwrap()
        .with_start_edge("node1")
        .unwrap()
        .with_edge("node1", "node2", None)
        .unwrap()
        .with_edge("node2", "node1", None)
        .unwrap()
        .build();

    let counter = Arc::new(AtomicUsize::new(0));
    let initial_state = State::new(TestState {
        counter: counter.clone(),
        messages: vec![],
    });

    let result = graph.execute(initial_state);
    assert!(result.is_err());
    assert!(matches!(result.unwrap_err(), Error::CycleDetected(_)));
}

// Processors over a plain integer payload.
struct AddOne;
struct SubOne;

impl NodeProcessor<i64> for AddOne {
    fn process(&self, mut state: State<i64>) -> Result<State<i64>, Error> {
        state.data += 1;
        Ok(state)
    }
}

impl NodeProcessor<i64> for SubOne {
    fn process(&self, mut state: State<i64>) -> Result<State<i64>, Error> {
        state.data -= 1;
        Ok(state)
    }
}

struct Positive;

impl EdgeCondition<i64> for Positive {
    fn check(&self, state: &State<i64>) -> Result<bool, Error> {
        Ok(state.data > 0)
    }
}

#[test]
fn conditional_inc_dec_round_trip() {
    let graph = GraphBuilder::new()
        .with_node("inc".to_string(), Box::new(AddOne))
        .unwrap()
        .with_node("dec".to_string(), Box::new(SubOne))
        .unwrap()
        .with_start_edge("inc")
        .unwrap()
        .with_edge("inc", "dec", Some(Box::new(Positive)))
        .unwrap()
        .with_end_edge("dec")
        .unwrap()
        .build();

    let final_state = graph.execute(State::new(1i64)).unwrap();
    assert_eq!(final_state.data, 1);
}

struct Tag {
    value: i64,
}

impl NodeProcessor<i64> for Tag {
    fn process(&self, mut state: State<i64>) -> Result<State<i64>, Error> {
        state.data = self.value;
        Ok(state)
    }
}

struct Never;

impl EdgeCondition<i64> for Never {
    fn check(&self, _state: &State<i64>) -> Result<bool, Error> {
        Ok(false)
    }
}

#[test]
fn first_true_edge_wins_in_insertion_order() {
    // From "a": first a false-conditioned edge to "b", then an
    // unconditioned edge to "c"; the run must go through "c".
    let graph = GraphBuilder::new()
        .with_node("a".to_string(), Box::new(Tag { value: 0 }))
        .unwrap()
        .with_node("b".to_string(), Box::new(Tag { value: 7 }))
        .unwrap()
        .with_node("c".to_string(), Box::new(Tag { value: 9 }))
        .unwrap()
        .with_start_edge("a")
        .unwrap()
        .with_edge("a", "b", Some(Box::new(Never)))
        .unwrap()
        .with_edge("a", "c", None)
        .unwrap()
        .with_end_edge("b")
        .unwrap()
        .with_end_edge("c")
        .unwrap()
        .build();

    let final_state = graph.execute(State::new(0i64)).unwrap();
    assert_eq!(final_state.data, 9);
}

#[test]
fn no_valid_edge_is_a_graph_error() {
    let graph = GraphBuilder::new()
        .with_node("a".to_string(), Box::new(Tag { value: 1 }))
        .unwrap()
        .with_start_edge("a")
        .unwrap()
        .with_edge("a", "a", Some(Box::new(Never)))
        .unwrap()
        .build();

    let result = graph.execute(State::new(0i64));
    assert!(matches!(result.unwrap_err(), Error::Graph(_)));
}

#[test]
fn reserved_node_names_are_rejected() {
    let mut graph = glint::graph::Graph::<i64>::new();
    let err = graph
        .add_node(glint::graph::START.to_string(), Box::new(Tag { value: 0 }))
        .unwrap_err();
    assert!(matches!(err, Error::InvalidNode(_)));
    let err = graph
        .add_node(glint::graph::END.to_string(), Box::new(Tag { value: 0 }))
        .unwrap_err();
    assert!(matches!(err, Error::InvalidNode(_)));
}

#[test]
fn unknown_edge_endpoint_is_rejected() {
    let mut graph = glint::graph::Graph::<i64>::new();
    graph.add_node("a".to_string(), Box::new(Tag { value: 0 })).unwrap();
    let err = graph.add_edge("a", "missing", None).unwrap_err();
    assert!(matches!(err, Error::InvalidNode(_)));
    let err = graph.add_edge("missing", "a", None).unwrap_err();
    assert!(matches!(err, Error::InvalidNode(_)));
}

#[test]
fn max_steps_is_a_hard_ceiling_for_parallel_runs() {
    // A three-wave chain under a two-wave budget must fail with a
    // Graph error rather than continuing.
    let graph = GraphBuilder::new()
        .with_node("n1".to_string(), Box::new(AddOne))
        .unwrap()
        .with_node("n2".to_string(), Box::new(AddOne))
        .unwrap()
        .with_node("n3".to_string(), Box::new(AddOne))
        .unwrap()
        .with_start_edge("n1")
        .unwrap()
        .with_edge("n1", "n2", None)
        .unwrap()
        .with_edge("n2", "n3", None)
        .unwrap()
        .with_end_edge("n3")
        .unwrap()
        .with_execution_strategy(ExecutionStrategy::Parallel)
        .with_max_steps(2)
        .build();

    let result = graph.execute(State::new(0i64));
    assert!(matches!(result.unwrap_err(), Error::Graph(_)));

    // The same graph under a sufficient budget succeeds.
    let graph_ok = GraphBuilder::new()
        .with_node("n1".to_string(), Box::new(AddOne))
        .unwrap()
        .with_node("n2".to_string(), Box::new(AddOne))
        .unwrap()
        .with_node("n3".to_string(), Box::new(AddOne))
        .unwrap()
        .with_start_edge("n1")
        .unwrap()
        .with_edge("n1", "n2", None)
        .unwrap()
        .with_edge("n2", "n3", None)
        .unwrap()
        .with_end_edge("n3")
        .unwrap()
        .with_execution_strategy(ExecutionStrategy::Parallel)
        .with_max_steps(10)
        .build();
    let final_state = graph_ok.execute(State::new(0i64)).unwrap();
    assert_eq!(final_state.data, 3);
}

#[test]
fn structural_independence_matches_paths() {
    let graph = GraphBuilder::new()
        .with_node("a".to_string(), Box::new(AddOne))
        .unwrap()
        .with_node("b".to_string(), Box::new(AddOne))
        .unwrap()
        .with_node("c".to_string(), Box::new(AddOne))
        .unwrap()
        .with_edge("a", "b", None)
        .unwrap()
        .build();
    let links = graph.structural_links();
    // "a" and "b" are connected by an edge, so not independent;
    // "c" is unconnected to either.
    let a = graph.find_node("a").unwrap();
    let b = graph.find_node("b").unwrap();
    let c = graph.find_node("c").unwrap();
    assert!(!graph.are_independent(&links, a, b));
    assert!(graph.are_independent(&links, a, c));
    assert!(graph.are_independent(&links, b, c));
    // A node is always reachable from itself.
    assert!(!graph.are_independent(&links, a, a));
}

#[test]
fn export_lists_nodes_and_edges_without_sentinels() {
    let graph = GraphBuilder::new()
        .with_node("a".to_string(), Box::new(AddOne))
        .unwrap()
        .with_node("b".to_string(), Box::new(AddOne))
        .unwrap()
        .with_start_edge("a")
        .unwrap()
        .with_edge("a", "b", Some(Box::new(Positive)))
        .unwrap()
        .with_end_edge("b")
        .unwrap()
        .build();
    let exported = graph.export_serializable();
    assert_eq!(exported.nodes, vec!["a".to_string(), "b".to_string()]);
    assert_eq!(exported.edges.len(), 1);
    assert_eq!(exported.edges[0].from, "a");
    assert_eq!(exported.edges[0].to, "b");
    assert!(exported.edges[0].has_condition);

    // An unconditioned edge exports without the flag.
    let plain = GraphBuilder::new()
        .with_node("x".to_string(), Box::new(AddOne))
        .unwrap()
        .with_node("y".to_string(), Box::new(AddOne))
        .unwrap()
        .with_edge("x", "y", None)
        .unwrap()
        .build()
        .export_serializable();
    assert!(!plain.edges[0].has_condition);
}

// A BSP node that forwards each payload to fixed targets under a
// configurable sender name.
struct Forwarder {
    name: String,
    claimed_sender: String,
    targets: Vec<String>,
    bump: i64,
}

impl PregelNode<i64> for Forwarder {
    fn process(&self, messages: Vec<PregelMessage<i64>>) -> Result<Vec<PregelMessage<i64>>, Error> {
        let mut out = Vec::new();
        for m in messages {
            for t in &self.targets {
                out.push(PregelMessage {
                    from: self.claimed_sender.clone(),
                    to: t.clone(),
                    payload: State::new(m.payload.data + self.bump),
                });
            }
        }
        let _ = &self.name;
        Ok(out)
    }

    fn targets(&self) -> Vec<String> {
        self.targets.clone()
    }
}

fn forwarder(name: &str, targets: &[&str], bump: i64) -> Forwarder {
    Forwarder {
        name: name.to_string(),
        claimed_sender: name.to_string(),
        targets: targets.iter().map(|t| t.to_string()).collect(),
        bump,
    }
}

#[test]
fn bsp_delivers_to_sink() {
    let mut graph = PregelGraph::new();
    graph.add_node("A".to_string(), Box::new(forwarder("A", &["B"], 1)));
    graph.add_node("B".to_string(), Box::new(forwarder("B", &["sink"], 1)));

    let initial = PregelMessage {
        from: "system".to_string(),
        to: "A".to_string(),
        payload: State::new(1i64),
    };
    let result = graph.execute(initial, None).unwrap();
    // A bumps 1 to 2, B bumps 2 to 3; the sink payload comes back.
    assert_eq!(result.data, 3);
}

#[test]
fn bsp_rejects_spoofed_sender_with_graph_error() {
    let mut graph = PregelGraph::new();
    let mut spoofer = forwarder("A", &["B"], 0);
    spoofer.claimed_sender = "Z".to_string();
    graph.add_node("A".to_string(), Box::new(spoofer));
    graph.add_node("B".to_string(), Box::new(forwarder("B", &["sink"], 0)));

    let initial = PregelMessage {
        from: "system".to_string(),
        to: "A".to_string(),
        payload: State::new(0i64),
    };
    let err = graph.execute(initial, None).unwrap_err();
    // The spoof is the generic Graph error, not InvalidEdge.
    assert!(matches!(err, Error::Graph(_)));
}

#[test]
fn bsp_rejects_unknown_target_with_invalid_node() {
    let mut graph = PregelGraph::new();
    graph.add_node("A".to_string(), Box::new(forwarder("A", &["nowhere"], 0)));

    let initial = PregelMessage {
        from: "system".to_string(),
        to: "A".to_string(),
        payload: State::new(0i64),
    };
    let err = graph.execute(initial, None).unwrap_err();
    assert!(matches!(err, Error::InvalidNode(_)));

    // An unregistered initial target fails the same way, at once.
    let mut graph2 = PregelGraph::new();
    graph2.add_node("A".to_string(), Box::new(forwarder("A", &["sink"], 0)));
    let stray = PregelMessage {
        from: "system".to_string(),
        to: "missing".to_string(),
        payload: State::new(0i64),
    };
    let err = graph2.execute(stray, None).unwrap_err();
    assert!(matches!(err, Error::InvalidNode(_)));
}

#[test]
fn bsp_rejects_undeclared_edge_with_invalid_edge() {
    let mut graph = PregelGraph::new();
    // A declares no targets but still tries to message B.
    graph.add_node("A".to_string(), Box::new(RogueSender));
    graph.add_node("B".to_string(), Box::new(forwarder("B", &["sink"], 0)));

    let initial = PregelMessage {
        from: "system".to_string(),
        to: "A".to_string(),
        payload: State::new(0i64),
    };
    let err = graph.execute(initial, None).unwrap_err();
    assert!(matches!(err, Error::InvalidEdge(_)));
}

struct RogueSender;

impl PregelNode<i64> for RogueSender {
    fn process(&self, _messages: Vec<PregelMessage<i64>>) -> Result<Vec<PregelMessage<i64>>, Error> {
        Ok(vec![PregelMessage {
            from: "A".to_string(),
            to: "B".to_string(),
            payload: State::new(0i64),
        }])
    }

    fn targets(&self) -> Vec<String> {
        vec![]
    }
}

#[test]
fn bsp_max_steps_is_a_hard_ceiling() {
    // A and B bounce a message forever; the budget must stop the run.
    let mut graph = PregelGraph::new();
    graph.add_node("A".to_string(), Box::new(forwarder("A", &["B"], 0)));
    graph.add_node("B".to_string(), Box::new(forwarder("B", &["A"], 0)));

    let initial = PregelMessage {
        from: "system".to_string(),
        to: "A".to_string(),
        payload: State::new(0i64),
    };
    let err = graph.execute(initial, Some(3)).unwrap_err();
    assert!(matches!(err, Error::Graph(_)));
}

#[test]
fn bsp_round_budget_boundary() {
    // A two-round run: system -> A, A -> B, B -> sink. Two rounds are
    // not enough (the sink round is the third); three are.
    let build = || {
        let mut graph = PregelGraph::new();
        graph.add_node("A".to_string(), Box::new(forwarder("A", &["B"], 1)));
        graph.add_node("B".to_string(), Box::new(forwarder("B", &["sink"], 1)));
        graph
    };
    let initial = || PregelMessage {
        from: "system".to_string(),
        to: "A".to_string(),
        payload: State::new(0i64),
    };
    let err = build().execute(initial(), Some(2)).unwrap_err();
    assert!(matches!(err, Error::Graph(_)));
    let ok = build().execute(initial(), Some(3)).unwrap();
    assert_eq!(ok.data, 2);
}

#[test]
fn message_helpers_carry_roles() {
    let m = Message::system("be nice".to_string());
    assert!(matches!(m.role, MessageRole::System));
    assert_eq!(m.content, "be nice");
    // A fresh identifier is drawn for every message.
    let id = m.id.expect("an id");
    assert_eq!(id.len(), 36);
    let u = Message::user("hi".to_string());
    assert!(matches!(u.role, MessageRole::User));
}

#[test]
fn entry_to_exit_returns_initial_state_unchanged() {
    // A graph whose entry routes straight to the exit runs no
    // processor at all, under either strategy.
    let mut seq_graph = glint::graph::Graph::<i64>::new();
    seq_graph
        .add_edge(glint::graph::START, glint::graph::END, None)
        .unwrap();
    let out = seq_graph.execute(State::new(41i64)).unwrap();
    assert_eq!(out.data, 41);

    let par_graph = glint::graph::Graph::<i64>::new()
        .with_execution_strategy(ExecutionStrategy::Parallel);
    let mut par_graph = par_graph;
    par_graph
        .add_edge(glint::graph::START, glint::graph::END, None)
        .unwrap();
    let out = par_graph.execute(State::new(19i64)).unwrap();
    assert_eq!(out.data, 19);
}

#[test]
fn no_entry_edge_fails_with_graph_error() {
    let graph = GraphBuilder::new()
        .with_node("lonely".to_string(), Box::new(AddOne))
        .unwrap()
        .with_end_edge("lonely")
        .unwrap()
        .build();
    let err = graph.execute(State::new(0i64)).unwrap_err();
    assert!(matches!(err, Error::Graph(_)));

    let graph = GraphBuilder::new()
        .with_node("lonely".to_string(), Box::new(AddOne))
        .unwrap()
        .with_end_edge("lonely")
        .unwrap()
        .with_execution_strategy(ExecutionStrategy::Parallel)
        .build();
    let err = graph.execute(State::new(0i64)).unwrap_err();
    assert!(matches!(err, Error::Graph(_)));
}

#[test]
fn bsp_initial_sink_message_comes_straight_back() {
    // A registered node named like the sink never runs: its batch is
    // retained and the initial payload is the result.
    let mut graph = PregelGraph::new();
    graph.add_node("sink".to_string(), Box::new(RogueSender));
    let initial = PregelMessage {
        from: "system".to_string(),
        to: "sink".to_string(),
        payload: State::new(27i64),
    };
    let result = graph.execute(initial, None).unwrap();
    assert_eq!(result.data, 27);
}

#[test]
fn bsp_registration_stores_the_queried_targets() {
    let mut graph = PregelGraph::new();
    graph.add_node("A".to_string(), Box::new(forwarder("A", &["B", "sink"], 0)));
    let stored = graph.targets("A").expect("registered");
    assert_eq!(stored, &vec!["B".to_string(), "sink".to_string()]);
    // Re-registration replaces the allow-list.
    graph.add_node("A".to_string(), Box::new(forwarder("A", &["sink"], 0)));
    let stored = graph.targets("A").expect("registered");
    assert_eq!(stored, &vec!["sink".to_string()]);
    assert!(graph.targets("missing").is_none());
}
