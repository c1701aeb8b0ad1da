//! Node identities, edges, connection roles, and the per-node record.
use vstd::prelude::*;
use crate::registry::NetworkId;
use crate::value::EventView;
use crate::value::Reaction;
use crate::value::Value;

verus! {

/// A versioned index: a slot of the node arena and the generation of that slot it was issued
/// for. It stops resolving once the slot is invalidated.
#[derive(Clone, Copy, Debug, PartialEq, Eq, Structural)]
pub struct NodeId {
    pub index: usize,
    pub generation: u64,
}

/// A connection from a producer to `target`; `is_sampler` marks one through which the target
/// reads the producer's cached value.
#[derive(Clone, Copy, Debug, PartialEq, Eq, Structural)]
pub struct Edge {
    pub target: NodeId,
    pub is_sampler: bool,
}

/// The role of an input: heard (`Listen`), read on demand (`Sample`), or both.
#[derive(Clone, Copy, Debug, PartialEq, Eq, Structural)]
pub enum InputType<T> {
    Listen(T),
    ListenAndSample(T),
    Sample(T),
}

impl<T> InputType<T> {
    pub open spec fn spec_value(self) -> T {
        match self {
            InputType::Listen(t) => t,
            InputType::ListenAndSample(t) => t,
            InputType::Sample(t) => t,
        }
    }

    pub open spec fn spec_is_sampler(self) -> bool {
        !(self is Listen)
    }

    pub open spec fn spec_is_listener(self) -> bool {
        !(self is Sample)
    }

    /// The input itself, whatever its role.
    #[verifier::when_used_as_spec(spec_value)]
    pub fn value(self) -> (r: T)
        ensures
            r == self.spec_value(),
    {
        match self {
            InputType::Listen(t) => t,
            InputType::ListenAndSample(t) => t,
            InputType::Sample(t) => t,
        }
    }

    /// Whether the input is read on demand.
    #[verifier::when_used_as_spec(spec_is_sampler)]
    pub fn is_sampler(self) -> (r: bool)
        ensures
            r == self.spec_is_sampler(),
    {
        match self {
            InputType::Listen(_) => false,
            InputType::ListenAndSample(_) => true,
            InputType::Sample(_) => true,
        }
    }

    /// Whether the input's events trigger the consumer.
    #[verifier::when_used_as_spec(spec_is_listener)]
    pub fn is_listener(self) -> (r: bool)
        ensures
            r == self.spec_is_listener(),
    {
        match self {
            InputType::Listen(_) => true,
            InputType::ListenAndSample(_) => true,
            InputType::Sample(_) => false,
        }
    }
}

/// An input that is heard.
#[derive(Clone, Copy, Debug, PartialEq, Eq, Structural)]
pub struct Listen<T>(pub T);

/// An input that is read on demand.
#[derive(Clone, Copy, Debug, PartialEq, Eq, Structural)]
pub struct Sample<T>(pub T);

/// An input that is heard and read on demand.
#[derive(Clone, Copy, Debug, PartialEq, Eq, Structural)]
pub struct ListenAndSample<T>(pub T);

impl<T> From<Listen<T>> for InputType<T> {
    fn from(t: Listen<T>) -> (r: Self) {
        InputType::Listen(t.0)
    }
}

impl<T> vstd::std_specs::convert::FromSpecImpl<Listen<T>> for InputType<T> {
    open spec fn obeys_from_spec() -> bool {
        true
    }

    open spec fn from_spec(t: Listen<T>) -> Self {
        InputType::Listen(t.0)
    }
}

impl<T> From<Sample<T>> for InputType<T> {
    fn from(t: Sample<T>) -> (r: Self) {
        InputType::Sample(t.0)
    }
}

impl<T> vstd::std_specs::convert::FromSpecImpl<Sample<T>> for InputType<T> {
    open spec fn obeys_from_spec() -> bool {
        true
    }

    open spec fn from_spec(t: Sample<T>) -> Self {
        InputType::Sample(t.0)
    }
}

impl<T> From<ListenAndSample<T>> for InputType<T> {
    fn from(t: ListenAndSample<T>) -> (r: Self) {
        InputType::ListenAndSample(t.0)
    }
}

impl<T> vstd::std_specs::convert::FromSpecImpl<ListenAndSample<T>> for InputType<T> {
    open spec fn obeys_from_spec() -> bool {
        true
    }

    open spec fn from_spec(t: ListenAndSample<T>) -> Self {
        InputType::ListenAndSample(t.0)
    }
}

/// Number of sampler edges in `s`.
pub open spec fn count_samplers(s: Seq<Edge>) -> nat
    decreases s.len(),
{
    if s.len() == 0 {
        0
    } else {
        count_samplers(s.drop_last()) + if s.last().is_sampler {
            1nat
        } else {
            0nat
        }
    }
}

/// The state of one live node.
pub struct NodeData {
    /// What the node does with the events delivered to it.
    pub reaction: Reaction,
    /// The network that owns the node.
    pub network_id: NetworkId,
    /// A label naming the node's definition, pushed on the call stack while it emits.
    pub label: u64,
    /// The producers it was connected to, in the order of connection.
    pub inputs: Vec<NodeId>,
    /// Edges whose targets hear this node's events.
    pub outputs: Vec<Edge>,
    /// Edges whose targets only sample this node.
    pub sampler_outputs: Vec<Edge>,
    /// The last event emitted while a sampler was connected.
    pub output_cache: Option<Value>,
    /// The number of sampler edges among `outputs` and `sampler_outputs`.
    pub sampler_count: usize,
}

impl NodeData {
    /// The sampler count matches the edges, and all edges that only sample are sampler edges.
    pub open spec fn wf(&self) -> bool {
        &&& self.sampler_count == count_samplers(self.outputs@) + count_samplers(
            self.sampler_outputs@,
        )
        &&& forall|k: int| 0 <= k < self.sampler_outputs@.len() ==> #[trigger] self.sampler_outputs@[k].is_sampler
    }

    /// Nothing is left of an earlier occupant: no edges, no inputs, no cached value.
    pub open spec fn is_cleared(&self) -> bool {
        &&& self.inputs@.len() == 0
        &&& self.outputs@.len() == 0
        &&& self.sampler_outputs@.len() == 0
        &&& self.output_cache is None
        &&& self.sampler_count == 0
    }

    /// The cached event, if any.
    pub open spec fn cache_view(&self) -> Option<EventView> {
        match self.output_cache {
            Some(v) => Some(v@),
            None => None,
        }
    }

    /// An empty record for a slot that has never held a node.
    pub fn empty(network_id: NetworkId) -> (r: NodeData)
        ensures
            r.is_cleared(),
            r.wf(),
            r.reaction == Reaction::Source,
            r.network_id == network_id,
    {
        NodeData {
            reaction: Reaction::Source,
            network_id,
            label: 0,
            inputs: Vec::new(),
            outputs: Vec::new(),
            sampler_outputs: Vec::new(),
            output_cache: None,
            sampler_count: 0,
        }
    }

    /// Empties the record in place, keeping the capacity of its lists.
    pub fn clear_im(&mut self)
        ensures
            final(self).is_cleared(),
            final(self).wf(),
            final(self).reaction == old(self).reaction,
            final(self).network_id == old(self).network_id,
            final(self).label == old(self).label,
    {
        self.inputs.clear();
        self.outputs.clear();
        self.sampler_outputs.clear();
        self.output_cache = None;
        self.sampler_count = 0;
    }

    /// Installs a new occupant's reaction, network and label, leaving the lists as they are.
    pub fn reuse(&mut self, reaction: Reaction, network_id: NetworkId, label: u64)
        ensures
            final(self).reaction == reaction,
            final(self).network_id == network_id,
            final(self).label == label,
            final(self).inputs@ == old(self).inputs@,
            final(self).outputs@ == old(self).outputs@,
            final(self).sampler_outputs@ == old(self).sampler_outputs@,
            final(self).output_cache == old(self).output_cache,
            final(self).sampler_count == old(self).sampler_count,
    {
        self.reaction = reaction;
        self.network_id = network_id;
        self.label = label;
    }
}

/// One slot of the node arena.
pub struct Slot {
    /// Bumped each time the slot is handed out.
    pub generation: u64,
    /// Whether a node occupies the slot.
    pub live: bool,
    pub data: NodeData,
}

/// Whether `id` resolves among `slots`: its slot is occupied, in the generation it names.
pub open spec fn live_in(slots: Seq<Slot>, id: NodeId) -> bool {
    &&& id.index < slots.len()
    &&& slots[id.index as int].live
    &&& slots[id.index as int].generation == id.generation
}

/// The edges of `s` whose targets still resolve among `slots`, in order.
pub open spec fn prune(s: Seq<Edge>, slots: Seq<Slot>) -> Seq<Edge>
    decreases s.len(),
{
    if s.len() == 0 {
        s
    } else {
        let rest = prune(s.drop_last(), slots);
        if live_in(slots, s.last().target) {
            rest.push(s.last())
        } else {
            rest
        }
    }
}

/// Two arenas with the same slots occupied, in the same generations.
pub open spec fn same_liveness(a: Seq<Slot>, b: Seq<Slot>) -> bool {
    &&& a.len() == b.len()
    &&& forall|i: int| 0 <= i < a.len() ==> #[trigger] a[i].live == b[i].live && a[i].generation == b[i].generation
}

/// Pruning keeps nothing that a second pruning would remove.
pub proof fn lemma_prune_idempotent(s: Seq<Edge>, slots: Seq<Slot>)
    ensures
        prune(prune(s, slots), slots) == prune(s, slots),
    decreases s.len(),
{
    if s.len() > 0 {
        lemma_prune_idempotent(s.drop_last(), slots);
        let rest = prune(s.drop_last(), slots);
        if live_in(slots, s.last().target) {
            assert(rest.push(s.last()).drop_last() == rest);
        }
    }
}

/// Pruning depends on which slots are occupied in which generation, and nothing else.
pub proof fn lemma_prune_same_liveness(s: Seq<Edge>, a: Seq<Slot>, b: Seq<Slot>)
    requires
        same_liveness(a, b),
    ensures
        prune(s, a) == prune(s, b),
    decreases s.len(),
{
    if s.len() > 0 {
        lemma_prune_same_liveness(s.drop_last(), a, b);
        let t = s.last().target;
        if t.index < a.len() {
            assert(a[t.index as int].live == b[t.index as int].live);
        }
    }
}

/// Pruning edges whose targets all resolve leaves them as they are.
pub proof fn lemma_prune_all_live(s: Seq<Edge>, slots: Seq<Slot>)
    requires
        forall|k: int| 0 <= k < s.len() ==> live_in(slots, #[trigger] s[k].target),
    ensures
        prune(s, slots) == s,
    decreases s.len(),
{
    if s.len() > 0 {
        let t = s.drop_last();
        assert forall|k: int| 0 <= k < t.len() implies live_in(slots, #[trigger] t[k].target) by {
            assert(t[k] == s[k]);
        }
        lemma_prune_all_live(t, slots);
        assert(live_in(slots, s[s.len() - 1].target));
        assert(t.push(s.last()) == s);
    }
}

} // verus!
