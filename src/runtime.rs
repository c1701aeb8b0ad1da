//! The runtime: the node arena, the network registry, and event propagation.
use vstd::prelude::*;
use vstd::wrapping::u64_specs;
use crate::model::deliver_model;
use crate::model::emit_model;
use crate::model::lemma_observed_eq;
use crate::model::lemma_observed_slot;
use crate::model::lemma_react_model_same_shape;
use crate::model::lemma_same_shape_evolves;
use crate::model::same_shape;
use crate::model::observed;
use crate::model::react_model;
use crate::model::Observed;
use crate::node::count_samplers;
use crate::node::lemma_prune_all_live;
use crate::node::lemma_prune_idempotent;
use crate::node::lemma_prune_same_liveness;
use crate::node::live_in;
use crate::node::prune;
use crate::node::same_liveness;
use crate::node::Edge;
use crate::node::InputType;
use crate::node::NodeData;
use crate::node::NodeId;
use crate::node::Slot;
use crate::registry::registry_entries;
use crate::registry::registry_get_mut;
use crate::registry::registry_insert;
use crate::registry::registry_len;
use crate::registry::registry_remove;
use crate::registry::NetworkData;
use crate::registry::registry_new;
use crate::registry::NetworkId;
use crate::registry::NetworkView;
use crate::registry::Registry;
use crate::value::copy_numbers;
use crate::value::EventView;
use crate::value::Reaction;
use crate::value::Value;

verus! {

/// How deep a chain of reactions may go within one emission; deeper events are dropped, so that
/// a cycle in the graph cannot recurse without bound.
pub const MAX_DEPTH: usize = 1024;

/// Counters for diagnostics; they wrap around instead of overflowing.
#[derive(Clone, Copy, Debug, PartialEq, Eq, Structural)]
pub struct Metrics {
    pub total_networks: u64,
    pub total_network_refs: u64,
    pub total_networks_ever: u64,
    pub total_nodes: u64,
    pub total_nodes_ever: u64,
}

impl Metrics {
    /// All counters at zero.
    pub fn new() -> (r: Metrics)
        ensures
            r.total_networks == 0 && r.total_network_refs == 0 && r.total_networks_ever == 0
                && r.total_nodes == 0 && r.total_nodes_ever == 0,
    {
        Metrics {
            total_networks: 0,
            total_network_refs: 0,
            total_networks_ever: 0,
            total_nodes: 0,
            total_nodes_ever: 0,
        }
    }

    fn inc_networks(&mut self)
        ensures
            *final(self) == (Metrics {
                total_networks: u64_specs::wrapping_add(old(self).total_networks, 1),
                total_networks_ever: u64_specs::wrapping_add(old(self).total_networks_ever, 1),
                ..*old(self)
            }),
    {
        self.total_networks = self.total_networks.wrapping_add(1);
        self.total_networks_ever = self.total_networks_ever.wrapping_add(1);
    }

    fn dec_networks(&mut self)
        ensures
            *final(self) == (Metrics {
                total_networks: u64_specs::wrapping_sub(old(self).total_networks, 1),
                ..*old(self)
            }),
    {
        self.total_networks = self.total_networks.wrapping_sub(1);
    }

    fn inc_network_refs(&mut self)
        ensures
            *final(self) == (Metrics {
                total_network_refs: u64_specs::wrapping_add(old(self).total_network_refs, 1),
                ..*old(self)
            }),
    {
        self.total_network_refs = self.total_network_refs.wrapping_add(1);
    }

    fn dec_network_refs(&mut self)
        ensures
            *final(self) == (Metrics {
                total_network_refs: u64_specs::wrapping_sub(old(self).total_network_refs, 1),
                ..*old(self)
            }),
    {
        self.total_network_refs = self.total_network_refs.wrapping_sub(1);
    }

    fn inc_nodes(&mut self)
        ensures
            *final(self) == (Metrics {
                total_nodes: u64_specs::wrapping_add(old(self).total_nodes, 1),
                total_nodes_ever: u64_specs::wrapping_add(old(self).total_nodes_ever, 1),
                ..*old(self)
            }),
    {
        self.total_nodes = self.total_nodes.wrapping_add(1);
        self.total_nodes_ever = self.total_nodes_ever.wrapping_add(1);
    }

    fn sub_nodes(&mut self, dec: u64)
        ensures
            *final(self) == (Metrics {
                total_nodes: u64_specs::wrapping_sub(old(self).total_nodes, dec),
                ..*old(self)
            }),
    {
        self.total_nodes = self.total_nodes.wrapping_sub(dec);
    }
}

/// The model of an optional event.
pub open spec fn opt_view(o: Option<Value>) -> Option<EventView> {
    match o {
        Some(v) => Some(v@),
        None => None,
    }
}

/// The number that a sampler reads from a cache: the cached number, or the default `0` when
/// nothing (or no number) is cached.
pub open spec fn cached_number(cache: Option<Value>) -> u64 {
    match cache {
        Some(Value::Num(n)) => n,
        _ => 0,
    }
}

/// A copy of the edges in `v`.
pub fn copy_edges(v: &Vec<Edge>) -> (r: Vec<Edge>)
    ensures
        r@ == v@,
{
    let mut r: Vec<Edge> = Vec::with_capacity(v.len());
    let mut i: usize = 0;
    while i < v.len()
        invariant
            i <= v.len(),
            r@ == v@.take(i as int),
        decreases v.len() - i,
    {
        r.push(v[i]);
        i += 1;
        proof {
            assert(v@.take(i as int) == v@.take(i - 1 as int).push(v@[i - 1 as int]));
        }
    }
    proof {
        assert(v@.take(v@.len() as int) == v@);
    }
    r
}

/// What emission may change in one slot: edges to dead targets are pruned, sampler counts only
/// fall, and a node with no sampler keeps its cache.
pub open spec fn slot_evolves(a: Slot, b: Slot, slots: Seq<Slot>) -> bool {
    &&& b.generation == a.generation
    &&& b.live == a.live
    &&& b.data.reaction == a.data.reaction
    &&& b.data.network_id == a.data.network_id
    &&& b.data.label == a.data.label
    &&& b.data.inputs@ == a.data.inputs@
    &&& (b.data.outputs@ == a.data.outputs@ || b.data.outputs@ == prune(a.data.outputs@, slots))
    &&& (b.data.sampler_outputs@ == a.data.sampler_outputs@ || b.data.sampler_outputs@ == prune(
        a.data.sampler_outputs@,
        slots,
    ))
    &&& b.data.sampler_count <= a.data.sampler_count
    &&& (a.data.sampler_count == 0 ==> b.data.output_cache == a.data.output_cache)
}

/// The runtime, passed explicitly to every operation: the node arena (slots with generations,
/// and the vacant ones to hand out again), the network registry, the diagnostic counters, the
/// call stack of node labels, and the records and trace that collecting and tracing nodes fill.
pub struct Runtime {
    /// The live networks.
    pub networks: Registry,
    /// The node arena.
    pub nodes: Vec<Slot>,
    /// Vacant slots that can be handed out again.
    pub free: Vec<usize>,
    pub metrics: Metrics,
    /// Labels of the nodes whose emissions are in progress, innermost last.
    pub stack: Vec<u64>,
    /// The records that collecting nodes append to; they outlive the nodes.
    pub records: Vec<Vec<u64>>,
    /// Every event that a tracing node has seen, in order.
    pub trace_log: Vec<Value>,
}

impl Runtime {
    /// Whether `id` resolves to a live node.
    pub open spec fn live(&self, id: NodeId) -> bool {
        live_in(self.nodes@, id)
    }

    /// The nodes that the network under `key` created, in order; none if there is no such
    /// network.
    pub open spec fn owned_by(&self, key: u64) -> Seq<NodeId> {
        if self.network_entries().contains_key(key) {
            self.network_entries()[key].0
        } else {
            Seq::empty()
        }
    }

    /// Whether `id` was handed out by this runtime: its slot exists and has reached the
    /// generation that `id` names.
    pub open spec fn issued(&self, id: NodeId) -> bool {
        id.index < self.nodes@.len() && id.generation <= self.nodes@[id.index as int].generation
    }

    /// The record of the node in the slot of `id`.
    pub open spec fn node(&self, id: NodeId) -> NodeData {
        self.nodes@[id.index as int].data
    }

    /// The live networks, by key: the nodes each created, and the handles to it.
    pub open spec fn network_entries(&self) -> Map<u64, NetworkView> {
        registry_entries(self.networks)
    }

    /// The numbers that record `r` holds.
    pub open spec fn record(&self, r: int) -> Seq<u64> {
        self.records@[r]@
    }

    /// The runtime's invariant.
    pub open spec fn wf(&self) -> bool {
        &&& forall|k: int|
            0 <= k < self.free@.len() ==> {
                let i = #[trigger] self.free@[k];
                &&& i < self.nodes@.len()
                &&& !self.nodes@[i as int].live
                &&& self.nodes@[i as int].generation < u64::MAX
            }
        &&& self.free@.no_duplicates()
        &&& forall|i: int| 0 <= i < self.nodes@.len() ==> (#[trigger] self.nodes@[i]).data.wf()
        &&& forall|i: int|
            0 <= i < self.nodes@.len() && !(#[trigger] self.nodes@[i]).live
                ==> self.nodes@[i].data.is_cleared()
        &&& forall|i: int|
            0 <= i < self.nodes@.len() && (#[trigger] self.nodes@[i]).data.reaction is Collect
                ==> self.nodes@[i].data.reaction->Collect_0 < self.records@.len()
    }

    /// The number that a sampler of `id` reads, if `id` resolves.
    pub open spec fn sampled(&self, id: NodeId) -> Option<u64> {
        if self.live(id) {
            Some(cached_number(self.node(id).output_cache))
        } else {
            None
        }
    }

    /// Emission turned `a` into `self`: the same nodes and networks, edges only pruned, records
    /// and the trace only extended, and caches changed only where a sampler was connected.
    pub open spec fn evolves_from(&self, a: &Runtime) -> bool {
        &&& same_liveness(a.nodes@, self.nodes@)
        &&& self.free@ == a.free@
        &&& self.network_entries() == a.network_entries()
        &&& self.metrics == a.metrics
        &&& self.records@.len() == a.records@.len()
        &&& forall|r: int| 0 <= r < a.records@.len() ==> a.record(r).is_prefix_of(#[trigger] self.record(r))
        &&& a.trace_log@.is_prefix_of(self.trace_log@)
        &&& forall|i: int|
            0 <= i < a.nodes@.len() ==> slot_evolves(a.nodes@[i], #[trigger] self.nodes@[i], a.nodes@)
    }

    pub proof fn lemma_evolves_refl(&self)
        ensures
            self.evolves_from(self),
    {
        assert forall|r: int| 0 <= r < self.records@.len() implies self.record(r).is_prefix_of(
            #[trigger] self.record(r),
        ) by {}
    }

    pub proof fn lemma_evolves_trans(a: &Runtime, b: &Runtime, c: &Runtime)
        requires
            b.evolves_from(a),
            c.evolves_from(b),
        ensures
            c.evolves_from(a),
    {
        assert forall|r: int| 0 <= r < a.records@.len() implies a.record(r).is_prefix_of(
            #[trigger] c.record(r),
        ) by {
            assert(a.record(r).is_prefix_of(b.record(r)));
            assert(b.record(r).is_prefix_of(c.record(r)));
        }
        assert forall|i: int| 0 <= i < a.nodes@.len() implies slot_evolves(
            a.nodes@[i],
            #[trigger] c.nodes@[i],
            a.nodes@,
        ) by {
            let x = a.nodes@[i].data;
            let y = b.nodes@[i].data;
            assert(slot_evolves(a.nodes@[i], b.nodes@[i], a.nodes@));
            assert(slot_evolves(b.nodes@[i], c.nodes@[i], b.nodes@));
            lemma_prune_same_liveness(y.outputs@, b.nodes@, a.nodes@);
            lemma_prune_same_liveness(y.sampler_outputs@, b.nodes@, a.nodes@);
            lemma_prune_idempotent(x.outputs@, a.nodes@);
            lemma_prune_idempotent(x.sampler_outputs@, a.nodes@);
        }
    }

    /// Emission does not look at the call stack.
    pub proof fn lemma_evolves_restacked(a: &Runtime, b: &Runtime, c: &Runtime)
        requires
            b.evolves_from(a),
            c.nodes@ == b.nodes@,
            c.records@ == b.records@,
            c.networks == b.networks,
            c.free@ == b.free@,
            c.trace_log@ == b.trace_log@,
            c.metrics == b.metrics,
        ensures
            c.evolves_from(a),
    {
        assert forall|r: int| 0 <= r < a.records@.len() implies a.record(r).is_prefix_of(
            #[trigger] c.record(r),
        ) by {
            assert(a.record(r).is_prefix_of(b.record(r)));
        }
        assert forall|j: int| 0 <= j < a.nodes@.len() implies slot_evolves(
            a.nodes@[j],
            #[trigger] c.nodes@[j],
            a.nodes@,
        ) by {
            assert(slot_evolves(a.nodes@[j], b.nodes@[j], a.nodes@));
        }
    }

    /// Whether `id` resolves to a live node; the cheap form of a lookup.
    pub fn resolves(&self, id: NodeId) -> (r: bool)
        ensures
            r == self.live(id),
    {
        id.index < self.nodes.len() && self.nodes[id.index].live && self.nodes[id.index].generation
            == id.generation
    }

    /// The number that a sampler of `id` reads: the cached number, or the default `0`; `None`
    /// when `id` no longer resolves.
    pub fn sample(&self, id: NodeId) -> (r: Option<u64>)
        ensures
            r == self.sampled(id),
    {
        if self.resolves(id) {
            match &self.nodes[id.index].data.output_cache {
                Some(Value::Num(n)) => Some(*n),
                _ => Some(0),
            }
        } else {
            None
        }
    }

    /// Stores a copy of `event` as the cache of the node in slot `i`, if a sampler is connected.
    fn arm_cache(&mut self, i: usize, event: &Value)
        requires
            old(self).wf(),
            i < old(self).nodes@.len(),
            old(self).nodes@[i as int].live,
        ensures
            final(self).wf(),
            final(self).evolves_from(old(self)),
            final(self).stack@ == old(self).stack@,
            final(self).nodes@.len() == old(self).nodes@.len(),
            forall|j: int| 0 <= j < final(self).nodes@.len() && j != i ==> final(self).nodes@[j] == old(self).nodes@[j],
            final(self).nodes@[i as int].data.sampler_count == old(self).nodes@[i as int].data.sampler_count,
            final(self).nodes@[i as int].data.outputs@ == old(self).nodes@[i as int].data.outputs@,
            final(self).nodes@[i as int].data.sampler_outputs@ == old(self).nodes@[i as int].data.sampler_outputs@,
            opt_view(final(self).nodes@[i as int].data.output_cache) == if old(self).nodes@[i as int].data.sampler_count > 0 {
                Some(event@)
            } else {
                opt_view(old(self).nodes@[i as int].data.output_cache)
            },
            observed(final(self)) == if observed(old(self)).counts[i as int] > 0 {
                Observed { caches: observed(old(self)).caches.update(i as int, Some(event@)), ..observed(old(self)) }
            } else {
                observed(old(self))
            },
    {
        if self.nodes[i].data.sampler_count > 0 {
            self.nodes[i].data.output_cache = Some(event.duplicate());
            proof {
                let o = observed(old(self));
                lemma_observed_slot(old(self), self, i as int);
                assert(o.counts.update(i as int, o.counts[i as int]) =~= o.counts);
                assert(o.outputs.update(i as int, o.outputs[i as int]) =~= o.outputs);
                assert(o.sampler_outputs.update(i as int, o.sampler_outputs[i as int]) =~= o.sampler_outputs);
            }
        }
        proof {
            assert forall|j: int| 0 <= j < self.nodes@.len() implies #[trigger] self.nodes@[j].data.wf() by {
                assert(old(self).nodes@[j].data.wf());
            }
            assert forall|j: int| 0 <= j < self.nodes@.len() && !(#[trigger] self.nodes@[j]).live
                implies self.nodes@[j].data.is_cleared() by {
                assert(!old(self).nodes@[j].live);
            }
            assert forall|j: int|
                0 <= j < self.nodes@.len() && (#[trigger] self.nodes@[j]).data.reaction is Collect
                implies self.nodes@[j].data.reaction->Collect_0 < self.records@.len() by {
                assert(old(self).nodes@[j].data.reaction is Collect);
            }
            assert(same_liveness(old(self).nodes@, self.nodes@));
            old(self).lemma_evolves_refl();
            assert forall|j: int| 0 <= j < old(self).nodes@.len() implies slot_evolves(
                old(self).nodes@[j],
                #[trigger] self.nodes@[j],
                old(self).nodes@,
            ) by {
                assert(slot_evolves(old(self).nodes@[j], old(self).nodes@[j], old(self).nodes@));
            }
        }
    }

    /// The edges of `edges` whose targets still resolve, in order, and the number of sampler
    /// edges left out.
    pub fn pruned(&self, edges: &Vec<Edge>) -> (r: (Vec<Edge>, usize))
        ensures
            r.0@ == prune(edges@, self.nodes@),
            count_samplers(r.0@) + r.1 == count_samplers(edges@),
            (forall|k: int| 0 <= k < edges@.len() ==> #[trigger] edges@[k].is_sampler) ==> (forall|
                k: int,
            |
                0 <= k < r.0@.len() ==> #[trigger] r.0@[k].is_sampler),
    {
        let mut kept: Vec<Edge> = Vec::new();
        let mut removed: usize = 0;
        let mut k: usize = 0;
        while k < edges.len()
            invariant
                k <= edges@.len(),
                removed <= k,
                kept@ == prune(edges@.take(k as int), self.nodes@),
                count_samplers(kept@) + removed == count_samplers(edges@.take(k as int)),
                (forall|j: int| 0 <= j < edges@.len() ==> #[trigger] edges@[j].is_sampler) ==> (forall|
                    j: int,
                |
                    0 <= j < kept@.len() ==> #[trigger] kept@[j].is_sampler),
            decreases edges@.len() - k,
        {
            let e = edges[k];
            proof {
                let t = edges@.take(k + 1);
                assert(t.drop_last() == edges@.take(k as int));
                assert(t.last() == e);
            }
            if self.resolves(e.target) {
                proof {
                    assert(kept@.push(e).drop_last() == kept@);
                }
                kept.push(e);
            } else if e.is_sampler {
                removed += 1;
            }
            k += 1;
        }
        proof {
            assert(edges@.take(edges@.len() as int) == edges@);
        }
        (kept, removed)
    }

    /// Whether some edge of `edges` has a target that no longer resolves.
    pub fn any_dangling(&self, edges: &Vec<Edge>) -> (r: bool)
        ensures
            r == exists|k: int| 0 <= k < edges@.len() && !self.live(#[trigger] edges@[k].target),
    {
        let mut k: usize = 0;
        while k < edges.len()
            invariant
                k <= edges@.len(),
                forall|j: int| 0 <= j < k ==> self.live(#[trigger] edges@[j].target),
            decreases edges@.len() - k,
        {
            if !self.resolves(edges[k].target) {
                return true;
            }
            k += 1;
        }
        false
    }

    /// Drops the edges of the node in slot `i` whose targets no longer resolve, from its
    /// listener edges if `listeners` holds, else from its sampler-only edges; its sampler count
    /// falls by the sampler edges dropped.
    fn prune_edges(&mut self, i: usize, listeners: bool)
        requires
            old(self).wf(),
            i < old(self).nodes@.len(),
        ensures
            final(self).wf(),
            final(self).evolves_from(old(self)),
            final(self).stack@ == old(self).stack@,
            listeners ==> final(self).nodes@[i as int].data.outputs@ == prune(
                old(self).nodes@[i as int].data.outputs@,
                old(self).nodes@,
            ),
            !listeners ==> final(self).nodes@[i as int].data.sampler_outputs@ == prune(
                old(self).nodes@[i as int].data.sampler_outputs@,
                old(self).nodes@,
            ),
            final(self).nodes@[i as int].data.output_cache == old(self).nodes@[i as int].data.output_cache,
            forall|j: int| 0 <= j < old(self).nodes@.len() && j != i ==> #[trigger] final(self).nodes@[j] == old(self).nodes@[j],
            final(self).records@ == old(self).records@,
            final(self).trace_log@ == old(self).trace_log@,
            listeners ==> final(self).nodes@[i as int].data.sampler_outputs@ == old(self).nodes@[i as int].data.sampler_outputs@,
            !listeners ==> final(self).nodes@[i as int].data.outputs@ == old(self).nodes@[i as int].data.outputs@,
    {
        let ghost before = self.nodes@[i as int].data;
        let (kept, removed) = if listeners {
            self.pruned(&self.nodes[i].data.outputs)
        } else {
            self.pruned(&self.nodes[i].data.sampler_outputs)
        };
        proof {
            assert(before.wf());
            lemma_prune_idempotent(before.outputs@, old(self).nodes@);
            lemma_prune_idempotent(before.sampler_outputs@, old(self).nodes@);
        }
        if listeners {
            self.nodes[i].data.outputs = kept;
        } else {
            self.nodes[i].data.sampler_outputs = kept;
        }
        self.nodes[i].data.sampler_count = self.nodes[i].data.sampler_count - removed;
        proof {
            assert(same_liveness(old(self).nodes@, self.nodes@));
            assert forall|j: int| 0 <= j < self.nodes@.len() implies #[trigger] self.nodes@[j].data.wf() by {
                assert(old(self).nodes@[j].data.wf());
            }
            assert forall|j: int| 0 <= j < self.nodes@.len() && !(#[trigger] self.nodes@[j]).live
                implies self.nodes@[j].data.is_cleared() by {
                assert(!old(self).nodes@[j].live);
                if j == i {
                    assert(before.is_cleared());
                    assert(before.outputs@ =~= Seq::<Edge>::empty());
                    assert(before.sampler_outputs@ =~= Seq::<Edge>::empty());
                }
            }
            assert forall|j: int|
                0 <= j < self.nodes@.len() && (#[trigger] self.nodes@[j]).data.reaction is Collect
                implies self.nodes@[j].data.reaction->Collect_0 < self.records@.len() by {
                assert(old(self).nodes@[j].data.reaction is Collect);
            }
            old(self).lemma_evolves_refl();
            assert forall|j: int| 0 <= j < old(self).nodes@.len() implies slot_evolves(
                old(self).nodes@[j],
                #[trigger] self.nodes@[j],
                old(self).nodes@,
            ) by {
                assert(slot_evolves(old(self).nodes@[j], old(self).nodes@[j], old(self).nodes@));
            }
        }
    }

    /// Runs the reaction of the live node `tgt` to `event`: appends to its record or to the
    /// trace where it is a collecting or a tracing node, and returns what it emits.
    fn react(&mut self, tgt: NodeId, event: &Value) -> (r: Option<Value>)
        requires
            old(self).wf(),
            old(self).live(tgt),
        ensures
            final(self).wf(),
            final(self).evolves_from(old(self)),
            final(self).nodes@ == old(self).nodes@,
            final(self).stack@ == old(self).stack@,
            opt_view(r) == react_model(old(self), observed(old(self)), tgt, event@).0,
            observed(final(self)) == react_model(old(self), observed(old(self)), tgt, event@).1,
            final(self).records@.len() == old(self).records@.len(),
            old(self).node(tgt).reaction is Collect && event is Num ==> final(self).record(
                old(self).node(tgt).reaction->Collect_0 as int,
            ) == old(self).record(old(self).node(tgt).reaction->Collect_0 as int).push(event->Num_0),
            forall|q: int|
                0 <= q < old(self).records@.len() && !(old(self).node(tgt).reaction is Collect
                    && event is Num && q == old(self).node(tgt).reaction->Collect_0)
                    ==> #[trigger] final(self).record(q) == old(self).record(q),
            old(self).node(tgt).reaction is Trace ==> final(self).trace_log@.len() == old(self).trace_log@.len() + 1
                && final(self).trace_log@.drop_last() == old(self).trace_log@
                && final(self).trace_log@.last()@ == event@,
            !(old(self).node(tgt).reaction is Trace) ==> final(self).trace_log@ == old(self).trace_log@,
    {
        proof {
            old(self).lemma_evolves_refl();
        }
        let reaction = self.nodes[tgt.index].data.reaction;
        match reaction {
            Reaction::Source => None,
            Reaction::Apply(f) => match event {
                Value::Num(x) => Some(Value::Num(f.apply(*x))),
                Value::Record(_) => None,
            },
            Reaction::Apply2(f) => match event {
                Value::Num(x) => {
                    if self.nodes[tgt.index].data.inputs.len() > 1 {
                        let other = self.nodes[tgt.index].data.inputs[1];
                        match self.sample(other) {
                            Some(y) => Some(Value::Num(f.apply(*x, y))),
                            None => None,
                        }
                    } else {
                        None
                    }
                },
                Value::Record(_) => None,
            },
            Reaction::Trace => {
                self.trace_log.push(event.duplicate());
                proof {
                    assert(observed(self).trace =~= observed(old(self)).trace.push(event@));
                    assert(observed(self).records =~= observed(old(self)).records);
                    assert(observed(self).caches =~= observed(old(self)).caches);
                    assert(observed(self).counts =~= observed(old(self)).counts);
                    assert(observed(self).outputs =~= observed(old(self)).outputs);
                    assert(observed(self).sampler_outputs =~= observed(old(self)).sampler_outputs);
                    assert(self.trace_log@.drop_last() == old(self).trace_log@);
                    assert forall|q: int| 0 <= q < old(self).records@.len() implies old(self).record(q).is_prefix_of(
                        #[trigger] self.record(q),
                    ) by {}
                }
                Some(event.duplicate())
            },
            Reaction::Collect(q) => match event {
                Value::Num(x) => {
                    proof {
                        assert(old(self).nodes@[tgt.index as int].data.reaction is Collect);
                    }
                    let mut rec = copy_numbers(&self.records[q]);
                    rec.push(*x);
                    let out = copy_numbers(&rec);
                    self.records.set(q, rec);
                    proof {
                        let o = observed(old(self));
                        assert(observed(self).records =~= o.records.update(q as int, o.records[q as int].push(*x)));
                        assert(observed(self).trace =~= o.trace);
                        assert(observed(self).caches =~= o.caches);
                        assert(observed(self).counts =~= o.counts);
                        assert(observed(self).outputs =~= o.outputs);
                        assert(observed(self).sampler_outputs =~= o.sampler_outputs);
                        assert forall|p: int| 0 <= p < old(self).records@.len() implies old(self).record(p).is_prefix_of(
                            #[trigger] self.record(p),
                        ) by {
                            if p == q {
                                assert(self.record(p) == old(self).record(p).push(*x));
                            }
                        }
                        assert(self.trace_log@.is_prefix_of(self.trace_log@));
                    }
                    Some(Value::Record(out))
                },
                Value::Record(_) => None,
            },
        }
    }

    /// Emits `event` at `src`: caches it if a sampler is connected, delivers it along the
    /// listener edges in the order of connection (each target's own emissions complete before
    /// the next edge), and prunes the edges whose targets no longer resolve. Past `depth`
    /// nested reactions nothing more is delivered.
    fn emit_at(&mut self, src: NodeId, event: &Value, depth: usize, Ghost(g): Ghost<Runtime>)
        requires
            old(self).wf(),
            same_shape(&g, old(self)),
        ensures
            final(self).wf(),
            final(self).evolves_from(old(self)),
            final(self).stack@ == old(self).stack@,
            old(self).live(src) ==> final(self).node(src).outputs@ == prune(old(self).node(src).outputs@, old(self).nodes@),
            old(self).live(src) ==> final(self).node(src).sampler_outputs@ == prune(
                old(self).node(src).sampler_outputs@,
                old(self).nodes@,
            ),
            old(self).live(src) && old(self).node(src).outputs@.len() == 0 ==> opt_view(final(self).node(src).output_cache)
                == if old(self).node(src).sampler_count > 0 {
                Some(event@)
            } else {
                opt_view(old(self).node(src).output_cache)
            },
            !old(self).live(src) ==> final(self).nodes@ == old(self).nodes@ && final(self).records@ == old(self).records@,
            observed(final(self)) == emit_model(&g, observed(old(self)), src, event@, depth as nat),
        decreases depth,
    {
        proof {
            old(self).lemma_evolves_refl();
        }
        if !self.resolves(src) {
            proof {
                assert(!g.live(src)) by {
                    if src.index < g.nodes@.len() {
                        assert(g.nodes@[src.index as int].live == self.nodes@[src.index as int].live);
                    }
                }
            }
            return;
        }
        let i = src.index;
        proof {
            assert(g.live(src)) by {
                assert(g.nodes@[i as int].live == self.nodes@[i as int].live);
            }
        }
        self.arm_cache(i, event);
        let label = self.nodes[i].data.label;
        let ghost armed = *self;
        self.stack.push(label);
        proof {
            Runtime::lemma_evolves_restacked(old(self), &armed, self);
        }
        let outs = copy_edges(&self.nodes[i].data.outputs);
        let ghost start = *self;
        proof {
            start.lemma_evolves_refl();
            lemma_same_shape_evolves(&g, old(self), &start);
        }
        let mut dangling = false;
        let mut k: usize = 0;
        while k < outs.len()
            invariant
                self.wf(),
                self.evolves_from(&start),
                start.evolves_from(old(self)),
                self.stack@ == old(self).stack@.push(label),
                i < self.nodes@.len(),
                i == src.index,
                old(self).live(src),
                k <= outs@.len(),
                outs@ == old(self).node(src).outputs@,
                !dangling ==> forall|m: int| 0 <= m < k ==> live_in(old(self).nodes@, #[trigger] outs@[m].target),
                k == 0 ==> self.nodes@ == start.nodes@,
                same_shape(&g, self),
                deliver_model(&g, observed(self), event@, outs@, k as int, depth as nat) == deliver_model(
                    &g,
                    observed(&start),
                    event@,
                    outs@,
                    0,
                    depth as nat,
                ),
            decreases outs@.len() - k,
        {
            let e = outs[k];
            let ghost pre = *self;
            let ghost o = observed(&pre);
            proof {
                assert(g.live(e.target) == self.live(e.target)) by {
                    if e.target.index < g.nodes@.len() {
                        assert(g.nodes@[e.target.index as int].live == self.nodes@[e.target.index as int].live);
                    }
                }
            }
            if self.resolves(e.target) {
                if depth > 0 {
                    let ghost mid = *self;
                    let out = self.react(e.target, event);
                    proof {
                        Runtime::lemma_evolves_trans(&start, &mid, self);
                        lemma_react_model_same_shape(&g, &mid, o, e.target, event@);
                        lemma_same_shape_evolves(&g, &mid, self);
                    }
                    match out {
                        Some(v) => {
                            let ghost mid2 = *self;
                            self.emit_at(e.target, &v, depth - 1, Ghost(g));
                            proof {
                                Runtime::lemma_evolves_trans(&start, &mid2, self);
                                lemma_same_shape_evolves(&g, &mid2, self);
                            }
                        },
                        None => {},
                    }
                }
            } else {
                dangling = true;
            }
            proof {
                assert(deliver_model(&g, o, event@, outs@, k as int, depth as nat) == deliver_model(
                    &g,
                    observed(self),
                    event@,
                    outs@,
                    k + 1,
                    depth as nat,
                ));
            }
            k += 1;
        }
        let ghost looped = *self;
        proof {
            Runtime::lemma_evolves_trans(old(self), &start, self);
            let o = old(self).node(src);
            assert(slot_evolves(old(self).nodes@[i as int], self.nodes@[i as int], old(self).nodes@));
            lemma_prune_idempotent(o.outputs@, old(self).nodes@);
            lemma_prune_idempotent(o.sampler_outputs@, old(self).nodes@);
            lemma_prune_same_liveness(self.node(src).outputs@, self.nodes@, old(self).nodes@);
            lemma_prune_same_liveness(self.node(src).sampler_outputs@, self.nodes@, old(self).nodes@);
            if !dangling {
                lemma_prune_all_live(o.outputs@, old(self).nodes@);
            }
        }
        if dangling {
            let ghost mid = *self;
            self.prune_edges(i, true);
            proof {
                Runtime::lemma_evolves_trans(&start, &mid, self);
            }
        }
        let ghost pruned_listeners = *self;
        if self.any_dangling(&self.nodes[i].data.sampler_outputs) {
            let ghost mid = *self;
            proof {
                Runtime::lemma_evolves_trans(old(self), &start, self);
                assert(slot_evolves(old(self).nodes@[i as int], self.nodes@[i as int], old(self).nodes@));
                lemma_prune_same_liveness(self.node(src).sampler_outputs@, self.nodes@, old(self).nodes@);
            }
            self.prune_edges(i, false);
            proof {
                Runtime::lemma_evolves_trans(&start, &mid, self);
            }
        } else {
            proof {
                let so = self.node(src).sampler_outputs@;
                assert forall|m: int| 0 <= m < so.len() implies live_in(self.nodes@, #[trigger] so[m].target) by {}
                lemma_prune_all_live(so, self.nodes@);
                Runtime::lemma_evolves_trans(old(self), &start, self);
                lemma_prune_same_liveness(so, self.nodes@, old(self).nodes@);
                let o = old(self).node(src);
                assert(slot_evolves(old(self).nodes@[i as int], self.nodes@[i as int], old(self).nodes@));
                if so != o.sampler_outputs@ {
                    assert(so == prune(o.sampler_outputs@, old(self).nodes@));
                } else {
                    lemma_prune_same_liveness(o.sampler_outputs@, self.nodes@, old(self).nodes@);
                }
            }
        }
        let ghost popped = *self;
        self.stack.pop();
        proof {
            lemma_observed_eq(&popped, self);
            lemma_observed_slot(&looped, self, i as int);
            let d_end = observed(&looped);
            assert(deliver_model(&g, d_end, event@, outs@, outs@.len() as int, depth as nat) == d_end);
            lemma_observed_eq(&armed, &start);
            assert(observed(&start).outputs[i as int] == outs@);
            lemma_prune_same_liveness(d_end.outputs[i as int], g.nodes@, old(self).nodes@);
            lemma_prune_same_liveness(d_end.sampler_outputs[i as int], g.nodes@, old(self).nodes@);
            let fin = self.nodes@[i as int].data;
            assert(fin.wf());
            assert(d_end.caches.update(i as int, fin.cache_view()) =~= d_end.caches);
            Runtime::lemma_evolves_restacked(&start, &popped, self);
            assert(self.stack@ == old(self).stack@);
            Runtime::lemma_evolves_trans(old(self), &start, self);
        }
    }

    /// An empty runtime: no nodes, no networks.
    pub fn new() -> (r: Runtime)
        ensures
            r.wf(),
            r.nodes@.len() == 0,
            r.network_entries().dom() =~= Set::<u64>::empty(),
            r.records@.len() == 0,
            r.trace_log@.len() == 0,
            r.stack@.len() == 0,
    {
        Runtime {
            networks: registry_new(),
            nodes: Vec::new(),
            free: Vec::new(),
            metrics: Metrics::new(),
            stack: Vec::new(),
            records: Vec::new(),
            trace_log: Vec::new(),
        }
    }

    /// Registers a node with `reaction` in network `net`, in a recycled slot if one is vacant.
    /// The new node starts with no edges, no inputs and no cached value, whatever the slot held
    /// before.
    pub fn new_node(&mut self, reaction: Reaction, net: NetworkId, label: u64) -> (r: NodeId)
        requires
            old(self).wf(),
            old(self).network_entries().contains_key(net.key_spec()),
            old(self).nodes@.len() < usize::MAX,
            reaction is Collect ==> reaction->Collect_0 < old(self).records@.len(),
        ensures
            final(self).wf(),
            !old(self).live(r),
            r.index >= old(self).nodes@.len() || !old(self).nodes@[r.index as int].live,
            r.index < old(self).nodes@.len() ==> r.generation > old(self).nodes@[r.index as int].generation,
            r.index >= old(self).nodes@.len() ==> r.index == old(self).nodes@.len(),
            final(self).live(r),
            forall|x: NodeId| x != r ==> #[trigger] final(self).live(x) == old(self).live(x),
            final(self).node(r).reaction == reaction,
            final(self).node(r).network_id == net,
            final(self).node(r).label == label,
            final(self).node(r).is_cleared(),
            final(self).nodes@.len() >= old(self).nodes@.len(),
            final(self).nodes@.len() <= old(self).nodes@.len() + 1,
            final(self).metrics == (Metrics {
                total_nodes: u64_specs::wrapping_add(old(self).metrics.total_nodes, 1),
                total_nodes_ever: u64_specs::wrapping_add(old(self).metrics.total_nodes_ever, 1),
                ..old(self).metrics
            }),
            forall|j: int| 0 <= j < old(self).nodes@.len() && j != r.index ==> #[trigger] final(self).nodes@[j] == old(self).nodes@[j],
            final(self).network_entries() == old(self).network_entries().insert(
                net.key_spec(),
                (old(self).network_entries()[net.key_spec()].0.push(r), old(self).network_entries()[net.key_spec()].1),
            ),
            final(self).records@ == old(self).records@,
            final(self).trace_log@ == old(self).trace_log@,
            final(self).stack@ == old(self).stack@,
    {
        self.metrics.inc_nodes();
        let id = match self.free.pop() {
            Some(i) => {
                proof {
                    let k = old(self).free@.len() - 1;
                    assert(old(self).free@[k] == i);
                    assert forall|m: int| 0 <= m < self.free@.len() implies #[trigger] self.free@[m] != i by {
                        assert(old(self).free@[m] == self.free@[m]);
                    }
                }
                let g = self.nodes[i].generation + 1;
                self.nodes[i].generation = g;
                self.nodes[i].live = true;
                NodeId { index: i, generation: g }
            },
            None => {
                let i = self.nodes.len();
                self.nodes.push(Slot { generation: 1, live: true, data: NodeData::empty(net) });
                NodeId { index: i, generation: 1 }
            },
        };
        self.nodes[id.index].data.reuse(reaction, net, label);
        match registry_get_mut(&mut self.networks, net.key) {
            Some(d) => {
                d.nodes.push(id);
            },
            None => {},
        }
        proof {
            assert forall|k: int| 0 <= k < self.free@.len() implies {
                let i = #[trigger] self.free@[k];
                &&& i < self.nodes@.len()
                &&& !self.nodes@[i as int].live
                &&& self.nodes@[i as int].generation < u64::MAX
            } by {
                assert(old(self).free@.contains(self.free@[k]));
            }
            assert forall|j: int| 0 <= j < self.nodes@.len() implies (#[trigger] self.nodes@[j]).data.wf() by {
                if j < old(self).nodes@.len() {
                    assert(old(self).nodes@[j].data.wf());
                }
            }
            assert forall|j: int| 0 <= j < self.nodes@.len() && !(#[trigger] self.nodes@[j]).live
                implies self.nodes@[j].data.is_cleared() by {
                assert(!old(self).nodes@[j].live);
            }
            assert forall|j: int|
                0 <= j < self.nodes@.len() && (#[trigger] self.nodes@[j]).data.reaction is Collect
                implies self.nodes@[j].data.reaction->Collect_0 < self.records@.len() by {
                if j != id.index {
                    assert(old(self).nodes@[j].data.reaction is Collect);
                }
            }
        }
        id
    }

    /// Tears down the node `id`, if it resolves: its record is emptied in place and its slot
    /// becomes vacant, to be handed out again in a later generation.
    pub fn drop_node(&mut self, id: NodeId)
        requires
            old(self).wf(),
        ensures
            final(self).wf(),
            !final(self).live(id),
            final(self).nodes@.len() == old(self).nodes@.len(),
            forall|j: int| 0 <= j < old(self).nodes@.len() && j != id.index ==> #[trigger] final(self).nodes@[j] == old(self).nodes@[j],
            !old(self).live(id) ==> final(self).nodes@ == old(self).nodes@,
            old(self).live(id) ==> {
                let s = final(self).nodes@[id.index as int];
                &&& s.generation == id.generation
                &&& !s.live
                &&& s.data.is_cleared()
                &&& s.data.reaction == old(self).node(id).reaction
                &&& s.data.network_id == old(self).node(id).network_id
            },
            final(self).network_entries() == old(self).network_entries(),
            final(self).records@ == old(self).records@,
            final(self).trace_log@ == old(self).trace_log@,
            final(self).stack@ == old(self).stack@,
            final(self).metrics == old(self).metrics,
    {
        if self.resolves(id) {
            let i = id.index;
            self.nodes[i].data.clear_im();
            self.nodes[i].live = false;
            if self.nodes[i].generation < u64::MAX {
                proof {
                    assert forall|k: int| 0 <= k < self.free@.len() implies #[trigger] self.free@[k] != i by {
                        assert(!old(self).nodes@[old(self).free@[k] as int].live);
                    }
                }
                self.free.push(i);
            }
            proof {
                assert forall|k: int| 0 <= k < self.free@.len() implies {
                    let f = #[trigger] self.free@[k];
                    &&& f < self.nodes@.len()
                    &&& !self.nodes@[f as int].live
                    &&& self.nodes@[f as int].generation < u64::MAX
                } by {
                    if k < old(self).free@.len() {
                        assert(old(self).free@[k] == self.free@[k]);
                    }
                }
                assert forall|j: int| 0 <= j < self.nodes@.len() implies (#[trigger] self.nodes@[j]).data.wf() by {
                    assert(old(self).nodes@[j].data.wf());
                }
                assert forall|j: int| 0 <= j < self.nodes@.len() && !(#[trigger] self.nodes@[j]).live
                    implies self.nodes@[j].data.is_cleared() by {
                    if j != i {
                        assert(!old(self).nodes@[j].live);
                    }
                }
                assert forall|j: int|
                    0 <= j < self.nodes@.len() && (#[trigger] self.nodes@[j]).data.reaction is Collect
                    implies self.nodes@[j].data.reaction->Collect_0 < self.records@.len() by {
                    assert(old(self).nodes@[j].data.reaction is Collect);
                }
            }
        }
    }

    /// Connects producer `src` to consumer `tgt` in the role `src` carries, if both resolve:
    /// the producer gains an edge (a listener edge if `tgt` hears it, else a sampler-only edge)
    /// and, for a sampling role, one more sampler; the consumer records the producer as its next
    /// input. If either no longer resolves, nothing changes.
    pub fn connect(&mut self, src: InputType<NodeId>, tgt: NodeId)
        requires
            old(self).wf(),
            old(self).live(src.value()) && old(self).live(tgt) && src.is_sampler() ==> old(self).node(
                src.value(),
            ).sampler_count < usize::MAX,
        ensures
            final(self).wf(),
            same_liveness(old(self).nodes@, final(self).nodes@),
            !(old(self).live(src.value()) && old(self).live(tgt)) ==> final(self).nodes@ == old(self).nodes@,
            forall|j: int|
                0 <= j < old(self).nodes@.len() && j != src.value().index && j != tgt.index
                    ==> #[trigger] final(self).nodes@[j] == old(self).nodes@[j],
            forall|j: int|
                0 <= j < old(self).nodes@.len() ==> {
                    let a = old(self).nodes@[j].data;
                    let b = (#[trigger] final(self).nodes@[j]).data;
                    let both = old(self).live(src.value()) && old(self).live(tgt);
                    let at_src = j == src.value().index && both;
                    let at_tgt = j == tgt.index && both;
                    let e = Edge { target: tgt, is_sampler: src.is_sampler() };
                    &&& b.reaction == a.reaction
                    &&& b.network_id == a.network_id
                    &&& b.label == a.label
                    &&& b.output_cache == a.output_cache
                    &&& b.outputs@ == if at_src && src.is_listener() {
                        a.outputs@.push(e)
                    } else {
                        a.outputs@
                    }
                    &&& b.sampler_outputs@ == if at_src && !src.is_listener() {
                        a.sampler_outputs@.push(e)
                    } else {
                        a.sampler_outputs@
                    }
                    &&& b.sampler_count == if at_src && src.is_sampler() {
                        a.sampler_count + 1
                    } else {
                        a.sampler_count as int
                    }
                    &&& b.inputs@ == if at_tgt {
                        a.inputs@.push(src.value())
                    } else {
                        a.inputs@
                    }
                },
            final(self).network_entries() == old(self).network_entries(),
            final(self).records@ == old(self).records@,
            final(self).trace_log@ == old(self).trace_log@,
            final(self).stack@ == old(self).stack@,
            final(self).free@ == old(self).free@,
            final(self).metrics == old(self).metrics,
    {
        let s = src.value();
        let is_listener = src.is_listener();
        let is_sampler = src.is_sampler();
        let e = Edge { target: tgt, is_sampler };
        let ghost mid = *self;
        if self.resolves(s) && self.resolves(tgt) {
            let i = s.index;
            proof {
                let d = old(self).nodes@[i as int].data;
                assert(d.wf());
                assert(d.outputs@.push(e).drop_last() == d.outputs@);
                assert(d.sampler_outputs@.push(e).drop_last() == d.sampler_outputs@);
            }
            if is_sampler {
                self.nodes[i].data.sampler_count = self.nodes[i].data.sampler_count + 1;
            }
            if is_listener {
                self.nodes[i].data.outputs.push(e);
            } else {
                self.nodes[i].data.sampler_outputs.push(e);
            }
            proof {
                mid = *self;
                let d = self.nodes@[i as int].data;
                assert forall|k: int| 0 <= k < d.sampler_outputs@.len() implies #[trigger] d.sampler_outputs@[k].is_sampler by {
                    if k < old(self).nodes@[i as int].data.sampler_outputs@.len() {
                        assert(old(self).nodes@[i as int].data.sampler_outputs@[k].is_sampler);
                    }
                }
            }
            self.nodes[tgt.index].data.inputs.push(s);
        }
        proof {
            assert forall|j: int| 0 <= j < self.nodes@.len() implies (#[trigger] self.nodes@[j]).data.wf() by {
                assert(old(self).nodes@[j].data.wf());
                assert(mid.nodes@[j].data.wf());
            }
            assert forall|j: int| 0 <= j < self.nodes@.len() && !(#[trigger] self.nodes@[j]).live
                implies self.nodes@[j].data.is_cleared() by {
                assert(!old(self).nodes@[j].live);
            }
            assert forall|j: int|
                0 <= j < self.nodes@.len() && (#[trigger] self.nodes@[j]).data.reaction is Collect
                implies self.nodes@[j].data.reaction->Collect_0 < self.records@.len() by {
                assert(old(self).nodes@[j].data.reaction is Collect);
            }
        }
    }

    /// Pushes `event` at the node `src`. Nothing happens if `src` no longer resolves. Otherwise
    /// the event is cached if a sampler is connected, delivered depth-first along the listener
    /// edges in the order of connection, and the edges of `src` whose targets are gone are
    /// pruned.
    pub fn emit(&mut self, src: NodeId, event: &Value)
        requires
            old(self).wf(),
        ensures
            final(self).wf(),
            final(self).evolves_from(old(self)),
            final(self).stack@ == old(self).stack@,
            old(self).live(src) ==> final(self).node(src).outputs@ == prune(old(self).node(src).outputs@, old(self).nodes@),
            old(self).live(src) ==> final(self).node(src).sampler_outputs@ == prune(
                old(self).node(src).sampler_outputs@,
                old(self).nodes@,
            ),
            forall|id: NodeId|
                old(self).live(id) && old(self).node(id).sampler_count == 0 ==> #[trigger] final(self).node(id).output_cache
                    == old(self).node(id).output_cache,
            old(self).live(src) && old(self).node(src).outputs@.len() == 0 ==> opt_view(final(self).node(src).output_cache)
                == if old(self).node(src).sampler_count > 0 {
                Some(event@)
            } else {
                opt_view(old(self).node(src).output_cache)
            },
            !old(self).live(src) ==> final(self).nodes@ == old(self).nodes@ && final(self).records@ == old(self).records@,
            observed(final(self)) == emit_model(old(self), observed(old(self)), src, event@, MAX_DEPTH as nat),
    {
        let ghost g = *self;
        self.emit_at(src, event, MAX_DEPTH, Ghost(g));
        proof {
            assert forall|id: NodeId|
                old(self).live(id) && old(self).node(id).sampler_count == 0 implies #[trigger] self.node(id).output_cache
                    == old(self).node(id).output_cache by {
                assert(slot_evolves(old(self).nodes@[id.index as int], self.nodes@[id.index as int], old(self).nodes@));
            }
        }
    }

    /// The number of live networks.
    pub fn network_count(&self) -> (r: usize)
        ensures
            r == self.network_entries().len(),
    {
        registry_len(&self.networks)
    }

    /// Registers a new network, with one handle.
    pub fn new_network(&mut self) -> (r: NetworkId)
        requires
            old(self).wf(),
            old(self).network_entries().len() < 0xFFFF_FFFEu64,
        ensures
            final(self).wf(),
            !old(self).network_entries().contains_key(r.key_spec()),
            final(self).network_entries() == old(self).network_entries().insert(r.key_spec(), (Seq::<NodeId>::empty(), 1usize)),
            final(self).nodes@ == old(self).nodes@,
            final(self).records@ == old(self).records@,
            final(self).trace_log@ == old(self).trace_log@,
            final(self).stack@ == old(self).stack@,
            final(self).metrics == (Metrics {
                total_networks: u64_specs::wrapping_add(old(self).metrics.total_networks, 1),
                total_networks_ever: u64_specs::wrapping_add(old(self).metrics.total_networks_ever, 1),
                total_network_refs: u64_specs::wrapping_add(old(self).metrics.total_network_refs, 1),
                ..old(self).metrics
            }),
    {
        self.metrics.inc_networks();
        self.metrics.inc_network_refs();
        let d = NetworkData { nodes: Vec::new(), refs: 1 };
        let key = registry_insert(&mut self.networks, d);
        NetworkId { key }
    }

    /// One more handle to the network `id`.
    pub fn retain_network(&mut self, id: NetworkId)
        requires
            old(self).wf(),
            old(self).network_entries().contains_key(id.key_spec()) ==> old(self).network_entries()[id.key_spec()].1 < usize::MAX,
        ensures
            final(self).wf(),
            final(self).network_entries() == if old(self).network_entries().contains_key(id.key_spec()) {
                old(self).network_entries().insert(
                    id.key_spec(),
                    (old(self).network_entries()[id.key_spec()].0, (old(self).network_entries()[id.key_spec()].1 + 1) as usize),
                )
            } else {
                old(self).network_entries()
            },
            final(self).nodes@ == old(self).nodes@,
            final(self).records@ == old(self).records@,
            final(self).trace_log@ == old(self).trace_log@,
            final(self).stack@ == old(self).stack@,
    {
        match registry_get_mut(&mut self.networks, id.key) {
            Some(d) => {
                d.refs = d.refs + 1;
                self.metrics.inc_network_refs();
            },
            None => {},
        }
    }

    /// Tears down the network `id`: its record leaves the registry and each node it created is
    /// dropped. Nodes of other networks are not touched, even where they have edges into the
    /// dropped nodes: those edges dangle until an emission prunes them.
    pub fn drop_network(&mut self, id: NetworkId)
        requires
            old(self).wf(),
        ensures
            final(self).wf(),
            final(self).network_entries() == old(self).network_entries().remove(id.key_spec()),
            final(self).nodes@.len() == old(self).nodes@.len(),
            old(self).network_entries().contains_key(id.key_spec()) ==> forall|k: int|
                0 <= k < old(self).network_entries()[id.key_spec()].0.len() ==> !final(self).live(
                    #[trigger] old(self).network_entries()[id.key_spec()].0[k],
                ),
            forall|j: int|
                0 <= j < old(self).nodes@.len() && !(old(self).network_entries().contains_key(id.key_spec())
                    && exists|k: int|
                    0 <= k < old(self).network_entries()[id.key_spec()].0.len()
                        && (#[trigger] old(self).network_entries()[id.key_spec()].0[k]).index == j)
                    ==> #[trigger] final(self).nodes@[j] == old(self).nodes@[j],
            forall|n: NodeId|
                #[trigger] old(self).live(n) && !old(self).owned_by(id.key_spec()).contains(n) ==> final(self).live(n)
                    && final(self).nodes@[n.index as int] == old(self).nodes@[n.index as int],
            final(self).records@ == old(self).records@,
            final(self).trace_log@ == old(self).trace_log@,
            final(self).stack@ == old(self).stack@,
    {
        let removed = registry_remove(&mut self.networks, id.key);
        match removed {
            Some(d) => {
                let ghost owned = d.nodes@;
                let mut k: usize = 0;
                while k < d.nodes.len()
                    invariant
                        self.wf(),
                        k <= owned.len(),
                        owned == d.nodes@,
                        self.network_entries() == old(self).network_entries().remove(id.key_spec()),
                        self.nodes@.len() == old(self).nodes@.len(),
                        forall|m: int| 0 <= m < k ==> !self.live(#[trigger] owned[m]),
                        forall|j: int|
                            0 <= j < old(self).nodes@.len() && !(exists|m: int| 0 <= m < k && (#[trigger] owned[m]).index == j)
                                ==> #[trigger] self.nodes@[j] == old(self).nodes@[j],
                        forall|n: NodeId|
                            #[trigger] old(self).live(n) && !owned.contains(n) ==> self.nodes@[n.index as int]
                                == old(self).nodes@[n.index as int],
                        self.records@ == old(self).records@,
                        self.trace_log@ == old(self).trace_log@,
                        self.stack@ == old(self).stack@,
                    decreases owned.len() - k,
                {
                    let ghost before = *self;
                    self.drop_node(d.nodes[k]);
                    proof {
                        assert forall|m: int| 0 <= m < k + 1 implies !self.live(#[trigger] owned[m]) by {
                            if m < k {
                                assert(!before.live(owned[m]));
                                if owned[m].index != owned[k as int].index && owned[m].index < self.nodes@.len() {
                                    assert(self.nodes@[owned[m].index as int] == before.nodes@[owned[m].index as int]);
                                }
                            }
                        }
                        assert forall|j: int|
                            0 <= j < old(self).nodes@.len() && !(exists|m: int| 0 <= m < k + 1 && (#[trigger] owned[m]).index == j)
                            implies #[trigger] self.nodes@[j] == old(self).nodes@[j] by {
                            assert(owned[k as int].index != j);
                            assert(!(exists|m: int| 0 <= m < k && (#[trigger] owned[m]).index == j));
                        }
                        assert forall|n: NodeId| #[trigger] old(self).live(n) && !owned.contains(n) implies self.nodes@[n.index as int]
                            == old(self).nodes@[n.index as int] by {
                            let x = owned[k as int];
                            assert(owned.contains(x));
                            if x.index == n.index {
                                assert(before.nodes@[n.index as int] == old(self).nodes@[n.index as int]);
                                assert(x != n);
                                assert(!before.live(x));
                            }
                        }
                    }
                    k += 1;
                }
                self.metrics.dec_networks();
                self.metrics.sub_nodes(d.nodes.len() as u64);
                proof {
                    let listed = old(self).network_entries()[id.key_spec()].0;
                    assert(owned == listed);
                    assert forall|j: int|
                        0 <= j < old(self).nodes@.len() && !(exists|m: int| 0 <= m < listed.len() && (#[trigger] listed[m]).index == j)
                        implies #[trigger] self.nodes@[j] == old(self).nodes@[j] by {
                        assert(!(exists|m: int| 0 <= m < k && (#[trigger] owned[m]).index == j));
                    }
                }
            },
            None => {
                proof {
                    assert(self.network_entries() == old(self).network_entries().remove(id.key_spec()));
                }
            },
        }
    }

    /// Gives up one handle to the network `id`; giving up the last one tears the network down
    /// as [`Runtime::drop_network`] does.
    pub fn release_network(&mut self, id: NetworkId)
        requires
            old(self).wf(),
        ensures
            final(self).wf(),
            old(self).network_entries().contains_key(id.key_spec()) && old(self).network_entries()[id.key_spec()].1 > 1
                ==> final(self).network_entries() == old(self).network_entries().insert(
                    id.key_spec(),
                    (old(self).network_entries()[id.key_spec()].0, (old(self).network_entries()[id.key_spec()].1 - 1) as usize),
                ) && final(self).nodes@ == old(self).nodes@,
            old(self).network_entries().contains_key(id.key_spec()) && old(self).network_entries()[id.key_spec()].1 <= 1
                ==> final(self).network_entries() == old(self).network_entries().remove(id.key_spec()) && forall|k: int|
                0 <= k < old(self).network_entries()[id.key_spec()].0.len() ==> !final(self).live(
                    #[trigger] old(self).network_entries()[id.key_spec()].0[k],
                ),
            !old(self).network_entries().contains_key(id.key_spec()) ==> final(self).network_entries()
                == old(self).network_entries() && final(self).nodes@ == old(self).nodes@,
            final(self).nodes@.len() == old(self).nodes@.len(),
            forall|j: int|
                0 <= j < old(self).nodes@.len() && !(old(self).network_entries().contains_key(id.key_spec())
                    && exists|k: int|
                    0 <= k < old(self).network_entries()[id.key_spec()].0.len()
                        && (#[trigger] old(self).network_entries()[id.key_spec()].0[k]).index == j)
                    ==> #[trigger] final(self).nodes@[j] == old(self).nodes@[j],
            forall|n: NodeId|
                #[trigger] old(self).live(n) && !old(self).owned_by(id.key_spec()).contains(n) ==> final(self).live(n)
                    && final(self).nodes@[n.index as int] == old(self).nodes@[n.index as int],
            final(self).records@ == old(self).records@,
            final(self).trace_log@ == old(self).trace_log@,
            final(self).stack@ == old(self).stack@,
    {
        let last = match registry_get_mut(&mut self.networks, id.key) {
            Some(d) => {
                self.metrics.dec_network_refs();
                if d.refs > 1 {
                    d.refs = d.refs - 1;
                    false
                } else {
                    true
                }
            },
            None => false,
        };
        if last {
            proof {
                assert(self.network_entries() =~= old(self).network_entries());
            }
            let ghost mid = *self;
            self.drop_network(id);
            proof {
                assert forall|n: NodeId|
                    #[trigger] old(self).live(n) && !old(self).owned_by(id.key_spec()).contains(n) implies self.live(n)
                        && self.nodes@[n.index as int] == old(self).nodes@[n.index as int] by {
                    assert(mid.live(n));
                }
            }
        }
    }
}

/// Dangling edges are pruned once: when an emission at `src` has turned `a` into `b`, pruning
/// the edges of `src`, a second emission at `src` that turns `b` into `c` leaves them as they
/// are.
pub proof fn lemma_pruning_twice_is_a_no_op(a: &Runtime, b: &Runtime, c: &Runtime, src: NodeId)
    requires
        a.live(src),
        b.evolves_from(a),
        b.node(src).outputs@ == prune(a.node(src).outputs@, a.nodes@),
        b.node(src).sampler_outputs@ == prune(a.node(src).sampler_outputs@, a.nodes@),
        c.evolves_from(b),
        c.node(src).outputs@ == prune(b.node(src).outputs@, b.nodes@),
        c.node(src).sampler_outputs@ == prune(b.node(src).sampler_outputs@, b.nodes@),
    ensures
        c.node(src).outputs@ == b.node(src).outputs@,
        c.node(src).sampler_outputs@ == b.node(src).sampler_outputs@,
{
    lemma_prune_same_liveness(b.node(src).outputs@, b.nodes@, a.nodes@);
    lemma_prune_same_liveness(b.node(src).sampler_outputs@, b.nodes@, a.nodes@);
    lemma_prune_idempotent(a.node(src).outputs@, a.nodes@);
    lemma_prune_idempotent(a.node(src).sampler_outputs@, a.nodes@);
}

} // verus!
