//! The bulk-synchronous message-passing engine: named nodes, each with
//! a static allow-list of message targets, executed in discrete
//! synchronous rounds of message delivery. Every outbound message is
//! validated in order: sender first (a spoofed sender is a structural
//! `Graph` failure), target registration second (`InvalidNode`),
//! sender adjacency third (`InvalidEdge`).
//!
//! The reserved target name `"sink"` signals possible termination: a
//! message may always be addressed to it, and messages addressed to it
//! are never dispatched to a registered node's processing capability.

use vstd::prelude::*;

use crate::error::Error;
use crate::error::compose_msg;
use crate::state::State;
use crate::state::StateValue;
use crate::graph::step_allowed;
use crate::text::str_eq;

verus! {

/// A message between nodes: sender, target and a state payload.
pub struct Message<S: StateValue> {
    /// The sending node's name, or the reserved sender `"system"`.
    pub from: String,
    /// The target node's name, or the reserved target `"sink"`.
    pub to: String,
    /// The carried state.
    pub payload: State<S>,
}

/// Why a message-passing run ended: ghost evidence beside the result.
pub enum PregelEnd {
    /// A round ended with an empty queue and retained sink messages;
    /// the last one's payload came back.
    Delivered,
    /// The initial message's target is not registered.
    UnknownInitial,
    /// The round budget was exhausted.
    Budget,
    /// The queue emptied without the sink condition ever holding.
    Exhausted,
    /// A drained batch was addressed to an unregistered node.
    NodeMissing,
    /// An outbound message carried a foreign sender name.
    SpoofedSender,
    /// An outbound message was addressed to an unregistered target.
    UnknownTarget,
    /// An outbound message's target was not in its sender's allow-list.
    DisallowedEdge,
    /// A node's own processing failure, handed on unchanged.
    External,
}

/// A node of the message-passing graph: consumes one round's inbound
/// batch and produces outbound messages; its allowed targets are
/// queried once, at registration.
pub trait PregelNode<S: StateValue> {
    /// Processes one batch of inbound messages.
    fn process(&self, messages: Vec<Message<S>>) -> (r: Result<Vec<Message<S>>, Error>);

    /// The names this node may send messages to.
    fn targets(&self) -> (r: Vec<String>);
}

/// Whether some string of `keys` reads `t`.
pub open spec fn has_str(keys: Seq<String>, t: Seq<char>) -> bool {
    exists|g: int| 0 <= g < keys.len() && (#[trigger] keys[g])@ == t
}

/// Whether a message is addressed to `t`.
pub open spec fn to_pred<S: StateValue>(t: Seq<char>) -> spec_fn(Message<S>) -> bool {
    |m: Message<S>| m.to@ == t
}

/// Whether some message of `msgs` is addressed to `t`.
pub open spec fn some_target_reads<S: StateValue>(msgs: Seq<Message<S>>, t: Seq<char>) -> bool {
    exists|j: int| 0 <= j < msgs.len() && (#[trigger] msgs[j]).to@ == t
}

/// The messages of `msgs` addressed to `t`, in order.
pub open spec fn msgs_to<S: StateValue>(msgs: Seq<Message<S>>, t: Seq<char>) -> Seq<Message<S>> {
    msgs.filter(to_pred(t))
}

/// Appending one element to a sequence extends its filtered view by
/// that element exactly when the predicate holds of it.
pub proof fn lemma_filter_push<A>(s: Seq<A>, pred: spec_fn(A) -> bool, m: A)
    ensures
        pred(m) ==> s.push(m).filter(pred) == s.filter(pred).push(m),
        !pred(m) ==> s.push(m).filter(pred) == s.filter(pred),
{
    reveal(Seq::filter);
    assert(s.push(m).drop_last() =~= s);
    assert(s.push(m).last() == m);
}

/// A sequence none of whose elements satisfies the predicate filters
/// to the empty sequence.
pub proof fn lemma_filter_none<A>(s: Seq<A>, pred: spec_fn(A) -> bool)
    requires
        forall|i: int| 0 <= i < s.len() ==> !pred(#[trigger] s[i]),
    ensures
        s.filter(pred) == Seq::<A>::empty(),
    decreases s.len(),
{
    reveal(Seq::filter);
    if s.len() > 0 {
        lemma_filter_none(s.drop_last(), pred);
    }
}

/// Finds the index of the string equal to `key`.
pub fn find_str(v: &Vec<String>, key: &str) -> (r: Option<usize>)
    ensures
        match r {
            Some(i) => i < v@.len() && v@[i as int]@ == key@,
            None => forall|i: int| 0 <= i < v@.len() ==> v@[i]@ != key@,
        },
{
    let mut i: usize = 0;
    while i < v.len()
        invariant
            i <= v@.len(),
            forall|j: int| 0 <= j < i ==> v@[j]@ != key@,
        decreases v@.len() - i,
    {
        if str_eq(v[i].as_str(), key) {
            return Some(i);
        }
        i += 1;
    }
    None
}

/// Groups messages by target name: the keys are the distinct targets
/// in first-appearance order, and each batch holds exactly the
/// messages addressed to its key, in arrival order.
pub fn group_by_target<S: StateValue>(msgs: Vec<Message<S>>) -> (r: (
    Vec<String>,
    Vec<Vec<Message<S>>>,
))
    ensures
        r.0@.len() == r.1@.len(),
        forall|g1: int, g2: int| 0 <= g1 < g2 < r.0@.len() ==> r.0@[g1]@ != r.0@[g2]@,
        forall|g: int| 0 <= g < r.0@.len() ==> r.1@[g]@ == msgs_to(msgs@, (#[trigger] r.0@[g])@),
        forall|j: int| 0 <= j < msgs@.len() ==> has_str(r.0@, (#[trigger] msgs@[j]).to@),
        forall|g: int| 0 <= g < r.0@.len() ==> some_target_reads(msgs@, (#[trigger] r.0@[g])@),
{
    let ghost all = msgs@;
    let mut rest = msgs;
    let mut keys: Vec<String> = Vec::new();
    let mut batches: Vec<Vec<Message<S>>> = Vec::new();
    let ghost mut k: int = 0;
    while rest.len() > 0
        invariant
            0 <= k <= all.len(),
            rest@ == all.skip(k),
            keys@.len() == batches@.len(),
            forall|g1: int, g2: int| 0 <= g1 < g2 < keys@.len() ==> keys@[g1]@ != keys@[g2]@,
            forall|g: int|
                0 <= g < keys@.len() ==> batches@[g]@ == msgs_to(all.take(k), (
                #[trigger] keys@[g])@),
            forall|j: int| 0 <= j < k ==> has_str(keys@, (#[trigger] all[j]).to@),
            forall|g: int|
                0 <= g < keys@.len() ==> some_target_reads(all.take(k), (#[trigger] keys@[g])@),
        decreases rest@.len(),
    {
        let m = rest.remove(0);
        proof {
            assert(all.skip(k)[0] == all[k]);
            assert(rest@ =~= all.skip(k + 1));
            assert(all.take(k + 1).drop_last() =~= all.take(k));
            assert(all.take(k + 1) =~= all.take(k).push(all[k]));
        }
        let ghost mto = m.to@;
        match find_str(&keys, m.to.as_str()) {
            Some(gi) => {
                proof {
                    assert forall|g: int| 0 <= g < keys@.len() implies msgs_to(
                        all.take(k + 1),
                        (#[trigger] keys@[g])@,
                    ) == if g == gi {
                        msgs_to(all.take(k), keys@[g]@).push(all[k])
                    } else {
                        msgs_to(all.take(k), keys@[g]@)
                    } by {
                        lemma_filter_push(all.take(k), to_pred(keys@[g]@), all[k]);
                    }
                }
                batches[gi].push(m);
                proof {
                    assert forall|g: int| 0 <= g < keys@.len() implies some_target_reads(
                        all.take(k + 1),
                        (#[trigger] keys@[g])@,
                    ) by {
                        let j0 = choose|j: int|
                            0 <= j < all.take(k).len() && (#[trigger] all.take(k)[j]).to@
                                == keys@[g]@;
                        assert(all.take(k + 1)[j0] == all[j0]);
                        assert(all.take(k + 1)[j0].to@ == keys@[g]@);
                    }
                }
            },
            None => {
                proof {
                    assert forall|g: int| 0 <= g < keys@.len() implies msgs_to(
                        all.take(k + 1),
                        (#[trigger] keys@[g])@,
                    ) == msgs_to(all.take(k), keys@[g]@) by {
                        lemma_filter_push(all.take(k), to_pred(keys@[g]@), all[k]);
                    }
                    assert forall|i: int| 0 <= i < all.take(k).len() implies !(to_pred::<S>(mto)(
                        #[trigger] all.take(k)[i],
                    )) by {
                        assert(all.take(k)[i] == all[i]);
                        let g0 = choose|g: int|
                            0 <= g < keys@.len() && (#[trigger] keys@[g])@ == all[i].to@;
                        assert(keys@[g0]@ != mto);
                    }
                    lemma_filter_none(all.take(k), to_pred::<S>(mto));
                    lemma_filter_push(all.take(k), to_pred::<S>(mto), all[k]);
                }
                let key = m.to.clone();
                let ghost keys0 = keys@;
                let mut batch: Vec<Message<S>> = Vec::new();
                batch.push(m);
                keys.push(key);
                batches.push(batch);
                proof {
                    assert(msgs_to(all.take(k + 1), mto) =~= seq![all[k]]);
                    assert(batches@.last()@ =~= seq![all[k]]);
                    assert(keys@[keys@.len() - 1]@ == mto);
                    assert forall|g: int| 0 <= g < keys@.len() implies some_target_reads(
                        all.take(k + 1),
                        (#[trigger] keys@[g])@,
                    ) by {
                        if g < keys0.len() {
                            assert(keys@[g] == keys0[g]);
                            let j0 = choose|j: int|
                                0 <= j < all.take(k).len() && (#[trigger] all.take(k)[j]).to@
                                    == keys0[g]@;
                            assert(all.take(k + 1)[j0] == all[j0]);
                            assert(all.take(k + 1)[j0].to@ == keys@[g]@);
                        } else {
                            assert(all.take(k + 1)[k] == all[k]);
                            assert(all.take(k + 1)[k].to@ == keys@[g]@);
                        }
                    }
                    assert forall|j: int| 0 <= j < k + 1 implies has_str(
                        keys@,
                        (#[trigger] all[j]).to@,
                    ) by {
                        if j < k {
                            let g0 = choose|g: int|
                                0 <= g < keys0.len() && (#[trigger] keys0[g])@ == all[j].to@;
                            assert(keys@[g0]@ == all[j].to@);
                        } else {
                            assert(keys@[keys@.len() - 1]@ == all[j].to@);
                        }
                    }
                }
            },
        }
        proof {
            k = k + 1;
        }
    }
    proof {
        assert(k == all.len());
        assert(all.take(k) =~= all);
        assert forall|g: int| 0 <= g < keys@.len() implies batches@[g]@ == msgs_to(
            all,
            (#[trigger] keys@[g])@,
        ) by {
            assert(batches@[g]@ == msgs_to(all.take(k), keys@[g]@));
        }
        assert forall|j: int| 0 <= j < all.len() implies has_str(
            keys@,
            (#[trigger] all[j]).to@,
        ) by {
            assert(0 <= j < k);
        }
        assert forall|g: int| 0 <= g < keys@.len() implies some_target_reads(
            all,
            (#[trigger] keys@[g])@,
        ) by {
            assert(some_target_reads(all.take(k), keys@[g]@));
            let j0 = choose|j: int|
                0 <= j < all.take(k).len() && (#[trigger] all.take(k)[j]).to@ == keys@[g]@;
            assert(all[j0].to@ == keys@[g]@);
        }
    }
    (keys, batches)
}

} // verus!

verus! {

/// One registered node: its name, its implementation, and its
/// allow-list of targets, captured once at registration.
#[verifier::reject_recursive_types(S)]
pub struct PregelEntry<S: StateValue> {
    /// The node's unique name.
    pub name: String,
    /// The node implementation.
    pub node: Box<dyn PregelNode<S>>,
    /// The targets this node may send to, as captured at registration.
    pub targets: Vec<String>,
}

/// Builds a node entry.
fn mk_pregel_entry<S: StateValue>(
    name: String,
    node: Box<dyn PregelNode<S>>,
    targets: Vec<String>,
) -> (r: PregelEntry<S>)
    ensures
        r.name == name,
        r.targets == targets,
{
    PregelEntry { name, node, targets }
}

/// A graph that passes messages between nodes in synchronous rounds.
#[verifier::reject_recursive_types(S)]
pub struct PregelGraph<S: StateValue> {
    /// The registered nodes, in registration order, names pairwise
    /// distinct.
    pub nodes: Vec<PregelEntry<S>>,
}

impl<S: StateValue> PregelGraph<S> {
    /// The name of node `i`.
    pub open spec fn name_at(&self, i: int) -> Seq<char> {
        self.nodes@[i].name@
    }

    /// Whether some node carries name `n`.
    pub open spec fn has_name(&self, n: Seq<char>) -> bool {
        exists|i: int| 0 <= i < self.nodes@.len() && self.name_at(i) == n
    }

    /// The index of the node named `n` (meaningful when `has_name`).
    pub open spec fn node_index(&self, n: Seq<char>) -> int {
        choose|i: int| 0 <= i < self.nodes@.len() && self.name_at(i) == n
    }

    /// Whether node `from` declares `to` among its allowed targets.
    pub open spec fn allows(&self, from: Seq<char>, to: Seq<char>) -> bool {
        has_str(self.nodes@[self.node_index(from)].targets@, to)
    }

    /// Structural well-formedness: names pairwise distinct.
    pub open spec fn wf(&self) -> bool {
        forall|i: int, j: int|
            0 <= i < j < self.nodes@.len() ==> self.name_at(i) != self.name_at(j)
    }

    /// With distinct names, the node at any index `i` named `n` is
    /// exactly `node_index(n)`.
    pub proof fn lemma_node_index_at(&self, i: int)
        requires
            self.wf(),
            0 <= i < self.nodes@.len(),
        ensures
            self.node_index(self.name_at(i)) == i,
    {
        let n = self.name_at(i);
        assert(self.has_name(n));
        let j = self.node_index(n);
        if i < j {
            assert(self.name_at(i) != self.name_at(j));
        } else if j < i {
            assert(self.name_at(j) != self.name_at(i));
        }
    }

    /// Finds the index of the node named `name`.
    pub fn find_node(&self, name: &str) -> (r: Option<usize>)
        ensures
            match r {
                Some(i) => i < self.nodes@.len() && self.name_at(i as int) == name@,
                None => !self.has_name(name@),
            },
    {
        let mut i: usize = 0;
        while i < self.nodes.len()
            invariant
                i <= self.nodes@.len(),
                forall|j: int| 0 <= j < i ==> self.name_at(j) != name@,
            decreases self.nodes@.len() - i,
        {
            if str_eq(self.nodes[i].name.as_str(), name) {
                return Some(i);
            }
            i += 1;
        }
        None
    }

    /// Creates an empty message-passing graph.
    pub fn new() -> (r: Self)
        ensures
            r.wf(),
            r.nodes@.len() == 0,
    {
        PregelGraph { nodes: Vec::new() }
    }

    /// Registers `node` under `name`, querying its targets once; the
    /// allow-list is never re-evaluated later. Re-adding an existing
    /// name replaces the node and its allow-list.
    pub fn add_node(&mut self, name: String, node: Box<dyn PregelNode<S>>)
        requires
            old(self).wf(),
        ensures
            final(self).wf(),
            final(self).has_name(name@),
            old(self).has_name(name@) ==> {
                &&& final(self).nodes@.len() == old(self).nodes@.len()
                &&& forall|j: int|
                    0 <= j < old(self).nodes@.len() && old(self).name_at(j) != name@
                        ==> final(self).nodes@[j] == old(self).nodes@[j]
                &&& forall|j: int|
                    0 <= j < old(self).nodes@.len() && old(self).name_at(j) == name@
                        ==> final(self).name_at(j) == name@
            },
            !old(self).has_name(name@) ==> {
                &&& final(self).nodes@.len() == old(self).nodes@.len() + 1
                &&& forall|j: int|
                    0 <= j < old(self).nodes@.len() ==> final(self).nodes@[j] == old(self).nodes@[j]
                &&& final(self).name_at(old(self).nodes@.len() as int) == name@
            },
    {
        let ts = node.targets();
        let ghost pre = *self;
        match self.find_node(name.as_str()) {
            Some(i) => {
                proof {
                    assert(pre.name_at(i as int) == name@);
                    assert(pre.has_name(name@));
                }
                let entry = mk_pregel_entry(name, node, ts);
                self.nodes[i] = entry;
                proof {
                    assert(self.name_at(i as int) == name@);
                    assert forall|a: int, b: int|
                        0 <= a < b < self.nodes@.len() implies self.name_at(a) != self.name_at(
                        b,
                    ) by {
                        assert(pre.name_at(a) != pre.name_at(b));
                        assert(self.name_at(a) == pre.name_at(a));
                        assert(self.name_at(b) == pre.name_at(b));
                    }
                }
            },
            None => {
                let entry = mk_pregel_entry(name, node, ts);
                self.nodes.push(entry);
                proof {
                    let n = pre.nodes@.len() as int;
                    assert(self.name_at(n) == name@);
                    assert forall|a: int, b: int|
                        0 <= a < b < self.nodes@.len() implies self.name_at(a) != self.name_at(
                        b,
                    ) by {
                        if b < n {
                            assert(pre.name_at(a) != pre.name_at(b));
                        } else {
                            assert(self.name_at(a) == pre.name_at(a));
                            assert(pre.name_at(a) != name@);
                        }
                    }
                }
            },
        }
    }

    /// Whether a node named `name` is registered.
    pub fn has_node(&self, name: &str) -> (r: bool)
        ensures
            r == self.has_name(name@),
    {
        match self.find_node(name) {
            Some(_) => true,
            None => false,
        }
    }

    /// The allowed targets of the node named `name`, if registered.
    pub fn targets(&self, name: &str) -> (r: Option<&Vec<String>>)
        requires
            self.wf(),
        ensures
            match r {
                Some(v) => self.has_name(name@) && v@ == self.nodes@[self.node_index(
                    name@,
                )].targets@,
                None => !self.has_name(name@),
            },
    {
        match self.find_node(name) {
            Some(i) => {
                proof {
                    self.lemma_node_index_at(i as int);
                }
                Some(&self.nodes[i].targets)
            },
            None => None,
        }
    }
}

} // verus!


verus! {

impl<S: StateValue> PregelGraph<S> {
    /// Validates one outbound message emitted by the node named
    /// `producer`, applying the three checks in their fixed order:
    /// first the sender must be the producing node itself or the
    /// reserved sender `"system"`, else the run fails with the generic
    /// `Graph` error — before any look at the target; second the
    /// target must be the reserved sink name or a registered node,
    /// else `InvalidNode`; third a non-system sender must list the
    /// target in its allow-list, else `InvalidEdge`.
    pub fn validate_outbound(&self, producer: &str, msg_from: &str, msg_to: &str) -> (r: Result<
        (),
        Error,
    >)
        requires
            self.wf(),
            self.has_name(producer@),
        ensures
            ({
                let spoof = msg_from@ != producer@ && msg_from@ != "system"@;
                let unknown = msg_to@ != "sink"@ && !self.has_name(msg_to@);
                let disallowed = msg_from@ != "system"@ && !self.allows(msg_from@, msg_to@);
                if spoof {
                    r matches Err(Error::Graph(_))
                } else if unknown {
                    r matches Err(Error::InvalidNode(_))
                } else if disallowed {
                    r matches Err(Error::InvalidEdge(_))
                } else {
                    r is Ok
                }
            }),
    {
        if !(str_eq(msg_from, producer) || str_eq(msg_from, "system")) {
            return Err(
                Error::Graph(compose_msg("Message sent under a foreign name: ", msg_from)),
            );
        }
        if !(str_eq(msg_to, "sink") || self.has_node(msg_to)) {
            return Err(Error::InvalidNode(compose_msg("Target node not found: ", msg_to)));
        }
        if !str_eq(msg_from, "system") {
            let fi = match self.find_node(msg_from) {
                Some(i) => i,
                None => {
                    // Unreachable: the sender equals the producer here,
                    // and the producer is registered by `requires`.
                    return Err(Error::Other("Sender not registered".to_owned()));
                },
            };
            proof {
                self.lemma_node_index_at(fi as int);
            }
            match find_str(&self.nodes[fi].targets, msg_to) {
                Some(_) => (),
                None => {
                    return Err(
                        Error::InvalidEdge(compose_msg("Edge not allowed to: ", msg_to)),
                    );
                },
            }
        }
        Ok(())
    }

    /// Executes the graph from one initial message, handing back ghost
    /// evidence of why the run ended. The target of the initial
    /// message must be registered, else the run fails at once with
    /// `InvalidNode`. Rounds then proceed: the queue is drained and
    /// grouped by target; batches addressed to the reserved sink name
    /// are retained, never dispatched; every other batch goes to its
    /// node, whose outbound messages are validated in order and
    /// enqueued. The round count is hard-bounded by `max_steps` (1000
    /// when absent): one round too many fails with a `Graph` error.
    /// When a round ends with an empty queue and retained sink
    /// messages, the last retained sink payload is the result; an
    /// empty queue without sink messages fails with a `Graph` error.
    ///
    /// The evidence pins each of the engine's own failure kinds; only
    /// a node's own processing failure is handed on unclassified. One
    /// success is owed outright: an initial message addressed to a
    /// registered node named like the sink is retained in the first
    /// round, never dispatched, and its payload comes straight back.
    #[verifier::rlimit(100)]
    pub fn run(&self, initial_message: Message<S>, max_steps: Option<usize>) -> (r: (
        Result<State<S>, Error>,
        Ghost<PregelEnd>,
    ))
        requires
            self.wf(),
        ensures
            ({
                let end = r.1@;
                &&& (end is Delivered) <==> r.0 is Ok
                &&& (end is UnknownInitial ==> (r.0 matches Err(Error::InvalidNode(_))
                    && !self.has_name(initial_message.to@)))
                &&& (end is Budget ==> r.0 matches Err(Error::Graph(_)))
                &&& (end is Exhausted ==> r.0 matches Err(Error::Graph(_)))
                &&& (end is NodeMissing ==> r.0 matches Err(Error::InvalidNode(_)))
                &&& (end is SpoofedSender ==> r.0 matches Err(Error::Graph(_)))
                &&& (end is UnknownTarget ==> r.0 matches Err(Error::InvalidNode(_)))
                &&& (end is DisallowedEdge ==> r.0 matches Err(Error::InvalidEdge(_)))
                &&& (end is External ==> r.0 is Err)
            }),
            !self.has_name(initial_message.to@) ==> r.0 matches Err(Error::InvalidNode(_)),
            (self.has_name(initial_message.to@) && max_steps == Some(0usize)) ==> r.0 matches Err(
                Error::Graph(_),
            ),
            (initial_message.to@ == "sink"@ && self.has_name("sink"@) && (match max_steps {
                Some(m) => m >= 1,
                None => true,
            })) ==> (r.0 matches Ok(p) && p == initial_message.payload),
    {
        let ms = match max_steps {
            Some(m) => m,
            None => 1000,
        };
        if !self.has_node(initial_message.to.as_str()) {
            return (
                (
                    Err(
                        Error::InvalidNode(
                            compose_msg("Target node not found: ", initial_message.to.as_str()),
                        ),
                    ),
                    Ghost(PregelEnd::UnknownInitial),
                )
            );
        }
        let ghost ito = initial_message.to@;
        let ghost hdel = ito == "sink"@ && self.has_name("sink"@) && ms >= 1;
        let mut queue: Vec<Message<S>> = Vec::new();
        queue.push(initial_message);
        let mut steps: usize = 0;
        while queue.len() > 0
            invariant
                self.wf(),
                ito == initial_message.to@,
                self.has_name(ito),
                steps <= ms,
                match max_steps {
                    Some(m) => ms == m,
                    None => ms == 1000,
                },
                hdel == (ito == "sink"@ && self.has_name("sink"@) && ms >= 1),
                hdel ==> (steps == 0 && queue@ == seq![initial_message]),
            decreases ms - steps,
        {
            if !crate::graph::step_allowed(steps, ms) {
                return (
                    (
                        Err(Error::Graph("Exceeded maximum steps".to_owned())),
                        Ghost(PregelEnd::Budget),
                    )
                );
            }
            steps += 1;
            let ghost round = queue@;
            let (mut keys, mut batches) = group_by_target(queue);
            proof {
                if hdel {
                    assert(round =~= Seq::<Message<S>>::empty().push(initial_message));
                    reveal(Seq::filter);
                    lemma_filter_push(
                        Seq::<Message<S>>::empty(),
                        to_pred::<S>("sink"@),
                        initial_message,
                    );
                    assert(keys@.len() >= 1) by {
                        assert(has_str(keys@, round[0].to@));
                    }
                    assert forall|g: int| 0 <= g < keys@.len() implies (
                    #[trigger] keys@[g])@ == "sink"@ by {
                        assert(some_target_reads(round, keys@[g]@));
                        let j0 = choose|j: int|
                            0 <= j < round.len() && (#[trigger] round[j]).to@ == keys@[g]@;
                        assert(round[j0] == initial_message);
                    }
                    if keys@.len() > 1 {
                        assert(keys@[0]@ == "sink"@ && keys@[1]@ == "sink"@);
                    }
                    assert(keys@.len() == 1);
                    assert(batches@[0]@ == msgs_to(round, keys@[0]@));
                    assert(batches@[0]@ =~= seq![initial_message]);
                }
            }
            queue = Vec::new();
            let mut sink_batch: Option<Vec<Message<S>>> = None;
            while keys.len() > 0
                invariant
                    self.wf(),
                    ito == initial_message.to@,
                    self.has_name(ito),
                    keys@.len() == batches@.len(),
                    1 <= steps <= ms,
                    match max_steps {
                        Some(m) => ms == m,
                        None => ms == 1000,
                    },
                    hdel == (ito == "sink"@ && self.has_name("sink"@) && ms >= 1),
                    hdel ==> ((queue@.len() == 0 && keys@.len() == 1 && keys@[0]@ == "sink"@
                        && batches@[0]@ == seq![initial_message] && sink_batch is None) || (
                    queue@.len() == 0 && keys@.len() == 0 && (sink_batch matches Some(b) && b@
                        == seq![initial_message]))),
                decreases keys@.len(),
            {
                let key = keys.remove(0);
                let batch = batches.remove(0);
                if str_eq(key.as_str(), "sink") {
                    sink_batch = Some(batch);
                    continue;
                }
                let ni = match self.find_node(key.as_str()) {
                    Some(i) => i,
                    None => {
                        return (
                            (
                                Err(
                                    Error::InvalidNode(
                                        compose_msg("Node not found: ", key.as_str()),
                                    ),
                                ),
                                Ghost(PregelEnd::NodeMissing),
                            )
                        );
                    },
                };
                let mut produced = match self.nodes[ni].node.process(batch) {
                    Ok(out) => out,
                    Err(e) => {
                        return ((Err(e), Ghost(PregelEnd::External)));
                    },
                };
                proof {
                    assert(self.has_name(key@));
                }
                while produced.len() > 0
                    invariant
                        self.wf(),
                        ito == initial_message.to@,
                        self.has_name(ito),
                        self.has_name(key@),
                        1 <= steps <= ms,
                        match max_steps {
                            Some(m) => ms == m,
                            None => ms == 1000,
                        },
                        hdel == (ito == "sink"@ && self.has_name("sink"@) && ms >= 1),
                        !hdel,
                    decreases produced@.len(),
                {
                    let m = produced.remove(0);
                    match self.validate_outbound(
                        key.as_str(),
                        m.from.as_str(),
                        m.to.as_str(),
                    ) {
                        Ok(_) => {
                            queue.push(m);
                        },
                        Err(e) => {
                            let ghost endv = match e {
                                Error::Graph(_) => PregelEnd::SpoofedSender,
                                Error::InvalidNode(_) => PregelEnd::UnknownTarget,
                                Error::InvalidEdge(_) => PregelEnd::DisallowedEdge,
                                _ => PregelEnd::External,
                            };
                            return ((Err(e), Ghost(endv)));
                        },
                    }
                }
            }
            if queue.len() == 0 {
                match sink_batch {
                    Some(mut msgs) => {
                        match msgs.pop() {
                            Some(last) => {
                                return ((Ok(last.payload), Ghost(PregelEnd::Delivered)));
                            },
                            None => (),
                        }
                    },
                    None => (),
                }
            }
            proof {
                if hdel {
                    assert(false);
                }
            }
        }
        (
            (
                Err(Error::Graph("Graph execution completed without result".to_owned())),
                Ghost(PregelEnd::Exhausted),
            )
        )
    }

    /// Executes the graph from one initial message. See [`Self::run`]
    /// for the round semantics; this wrapper hands back the result
    /// alone.
    pub fn execute(&self, initial_message: Message<S>, max_steps: Option<usize>) -> (r: Result<
        State<S>,
        Error,
    >)
        requires
            self.wf(),
        ensures
            !self.has_name(initial_message.to@) ==> r matches Err(Error::InvalidNode(_)),
            (self.has_name(initial_message.to@) && max_steps == Some(0usize)) ==> r matches Err(
                Error::Graph(_),
            ),
            (initial_message.to@ == "sink"@ && self.has_name("sink"@) && (match max_steps {
                Some(m) => m >= 1,
                None => true,
            })) ==> (r matches Ok(p) && p == initial_message.payload),
    {
        let (res, _end) = self.run(initial_message, max_steps);
        res
    }
}

} // verus!

verus! {

impl<S: StateValue> Default for PregelGraph<S> {
    /// An empty message-passing graph.
    fn default() -> (r: Self)
        ensures
            r.wf(),
            r.nodes@.len() == 0,
    {
        PregelGraph::new()
    }
}

} // verus!
