//! Networks, typed node handles, and the node combinators.
use vstd::prelude::*;
use crate::model::emit_model;
use crate::model::observed;
use crate::node::Edge;
use crate::node::InputType;
use crate::node::NodeId;
use crate::registry::NetworkId;
use crate::runtime::Runtime;
use crate::runtime::MAX_DEPTH;
use crate::value::BinaryFn;
use crate::value::Reaction;
use crate::value::UnaryFn;
use crate::value::Value;

verus! {

/// Owner of one handle to a network.
#[derive(Debug)]
pub struct NetworkGuard {
    pub id: NetworkId,
}

impl NetworkGuard {
    /// Registers a new network in `rt`, with this guard as its one handle.
    pub fn new(rt: &mut Runtime) -> (r: NetworkGuard)
        requires
            old(rt).wf(),
            old(rt).network_entries().len() < 0xFFFF_FFFEu64,
        ensures
            final(rt).wf(),
            !old(rt).network_entries().contains_key(r.id.key_spec()),
            final(rt).network_entries() == old(rt).network_entries().insert(r.id.key_spec(), (Seq::<NodeId>::empty(), 1usize)),
            final(rt).nodes@ == old(rt).nodes@,
            final(rt).records@ == old(rt).records@,
    {
        NetworkGuard { id: rt.new_network() }
    }
}

/// A handle to a network: the unit that owns nodes and tears them down together. Sharing it
/// counts one more handle; the network goes when the last handle is released.
#[derive(Debug)]
pub struct Network {
    pub guard: NetworkGuard,
}

/// A handle to a node, carrying its identity only.
#[derive(Clone, Copy, Debug, PartialEq, Eq, Structural)]
pub struct NodeTemplate {
    pub id: NodeId,
}

/// A handle to a stream node.
pub type Stream = NodeTemplate;

/// A handle to a source node.
pub type Source = NodeTemplate;

/// What a collecting node has seen, readable after its network is gone.
#[derive(Clone, Copy, Debug, PartialEq, Eq, Structural)]
pub struct DebugCollectData {
    pub record: usize,
}

/// `b` is `a` with the fresh node `r` registered in network `net`, with `reaction` and the
/// given inputs, and with no edges and no cached value.
pub open spec fn registered(
    a: &Runtime,
    b: &Runtime,
    r: NodeId,
    reaction: Reaction,
    net: NetworkId,
    inputs: Seq<NodeId>,
) -> bool {
    &&& !a.live(r)
    &&& (r.index >= a.nodes@.len() || !a.nodes@[r.index as int].live)
    &&& (r.index < a.nodes@.len() ==> r.generation > a.nodes@[r.index as int].generation)
    &&& (r.index >= a.nodes@.len() ==> r.index == a.nodes@.len())
    &&& b.live(r)
    &&& b.node(r).reaction == reaction
    &&& b.node(r).network_id == net
    &&& b.node(r).inputs@ == inputs
    &&& b.node(r).outputs@.len() == 0
    &&& b.node(r).sampler_outputs@.len() == 0
    &&& b.node(r).output_cache is None
    &&& b.node(r).sampler_count == 0
    &&& b.network_entries() == a.network_entries().insert(
        net.key_spec(),
        (a.network_entries()[net.key_spec()].0.push(r), a.network_entries()[net.key_spec()].1),
    )
    &&& b.nodes@.len() >= a.nodes@.len()
    &&& b.nodes@.len() <= a.nodes@.len() + 1
    &&& forall|x: NodeId| x != r ==> #[trigger] b.live(x) == a.live(x)
    &&& b.trace_log@ == a.trace_log@
    &&& b.stack@ == a.stack@
}

/// `id` if it resolves in `a`, else nothing: a consumer records a producer as an input only
/// when both resolve.
pub open spec fn resolving(a: &Runtime, id: NodeId) -> Seq<NodeId> {
    if a.live(id) {
        seq![id]
    } else {
        Seq::empty()
    }
}

/// The live producer `p` of `a` heard by `r` in `b`: one more listener edge, nothing else.
pub open spec fn heard_by(a: &Runtime, b: &Runtime, p: NodeId, r: NodeId) -> bool {
    &&& b.live(p)
    &&& b.node(p).outputs@ == a.node(p).outputs@.push(Edge { target: r, is_sampler: false })
    &&& b.node(p).output_cache == a.node(p).output_cache
    &&& b.node(p).inputs@ == a.node(p).inputs@
}

/// Slots of `a` other than `i` and `j` are unchanged in `b`.
pub open spec fn others_unchanged(a: &Runtime, b: &Runtime, i: int, j: int) -> bool {
    forall|k: int| 0 <= k < a.nodes@.len() && k != i && k != j ==> #[trigger] b.nodes@[k] == a.nodes@[k]
}

impl Network {
    /// A new network with one handle.
    pub fn new(rt: &mut Runtime) -> (r: Network)
        requires
            old(rt).wf(),
            old(rt).network_entries().len() < 0xFFFF_FFFEu64,
        ensures
            final(rt).wf(),
            !old(rt).network_entries().contains_key(r.id().key_spec()),
            final(rt).network_entries() == old(rt).network_entries().insert(r.id().key_spec(), (Seq::<NodeId>::empty(), 1usize)),
            final(rt).nodes@ == old(rt).nodes@,
            final(rt).records@ == old(rt).records@,
    {
        Network { guard: NetworkGuard::new(rt) }
    }

    pub open spec fn id(&self) -> NetworkId {
        self.guard.id
    }

    /// A second handle to the same network.
    pub fn share(&self, rt: &mut Runtime) -> (r: Network)
        requires
            old(rt).wf(),
            old(rt).network_entries().contains_key(self.id().key_spec()) ==> old(rt).network_entries()[self.id().key_spec()].1 < usize::MAX,
        ensures
            final(rt).wf(),
            r.id() == self.id(),
            final(rt).network_entries() == if old(rt).network_entries().contains_key(self.id().key_spec()) {
                old(rt).network_entries().insert(
                    self.id().key_spec(),
                    (old(rt).network_entries()[self.id().key_spec()].0, (old(rt).network_entries()[self.id().key_spec()].1 + 1) as usize),
                )
            } else {
                old(rt).network_entries()
            },
            final(rt).nodes@ == old(rt).nodes@,
    {
        rt.retain_network(self.guard.id);
        Network { guard: NetworkGuard { id: self.guard.id } }
    }

    /// Gives up this handle. While other handles remain the network stays, with one handle
    /// fewer; the last one tears the network and its nodes down, leaving other networks and the
    /// nodes they own as they are.
    pub fn release(self, rt: &mut Runtime)
        requires
            old(rt).wf(),
        ensures
            final(rt).wf(),
            old(rt).network_entries().contains_key(self.id().key_spec()) && old(rt).network_entries()[self.id().key_spec()].1 > 1
                ==> final(rt).network_entries() == old(rt).network_entries().insert(
                    self.id().key_spec(),
                    (old(rt).network_entries()[self.id().key_spec()].0, (old(rt).network_entries()[self.id().key_spec()].1 - 1) as usize),
                ) && final(rt).nodes@ == old(rt).nodes@,
            old(rt).network_entries().contains_key(self.id().key_spec()) && old(rt).network_entries()[self.id().key_spec()].1 <= 1
                ==> final(rt).network_entries() == old(rt).network_entries().remove(self.id().key_spec()) && forall|k: int|
                0 <= k < old(rt).network_entries()[self.id().key_spec()].0.len() ==> !final(rt).live(
                    #[trigger] old(rt).network_entries()[self.id().key_spec()].0[k],
                ),
            !old(rt).network_entries().contains_key(self.id().key_spec()) ==> final(rt).network_entries()
                == old(rt).network_entries() && final(rt).nodes@ == old(rt).nodes@,
            final(rt).nodes@.len() == old(rt).nodes@.len(),
            forall|j: int|
                0 <= j < old(rt).nodes@.len() && !(old(rt).network_entries().contains_key(self.id().key_spec())
                    && exists|k: int|
                    0 <= k < old(rt).network_entries()[self.id().key_spec()].0.len()
                        && (#[trigger] old(rt).network_entries()[self.id().key_spec()].0[k]).index == j)
                    ==> #[trigger] final(rt).nodes@[j] == old(rt).nodes@[j],
            forall|n: NodeId|
                #[trigger] old(rt).live(n) && !old(rt).owned_by(self.id().key_spec()).contains(n) ==> final(rt).live(n)
                    && final(rt).nodes@[n.index as int] == old(rt).nodes@[n.index as int],
            final(rt).records@ == old(rt).records@,
    {
        rt.release_network(self.guard.id);
    }

    /// A node with no inputs, which only emits what is pushed at it.
    pub fn source(&self, rt: &mut Runtime) -> (r: Source)
        requires
            old(rt).wf(),
            old(rt).network_entries().contains_key(self.id().key_spec()),
            old(rt).nodes@.len() < usize::MAX,
        ensures
            final(rt).wf(),
            registered(old(rt), final(rt), r.id, Reaction::Source, self.id(), Seq::empty()),
            others_unchanged(old(rt), final(rt), r.id.index as int, r.id.index as int),
            final(rt).records@ == old(rt).records@,
    {
        let id = rt.new_node(Reaction::Source, self.guard.id, 0);
        proof {
            assert(rt.node(id).inputs@ == Seq::<NodeId>::empty());
        }
        NodeTemplate { id }
    }

    /// The node registration shared by the combinators with one heard input.
    fn define_listener(&self, rt: &mut Runtime, reaction: Reaction, n0: NodeTemplate) -> (r: NodeTemplate)
        requires
            old(rt).wf(),
            old(rt).network_entries().contains_key(self.id().key_spec()),
            old(rt).nodes@.len() < usize::MAX,
            reaction is Collect ==> reaction->Collect_0 < old(rt).records@.len(),
            old(rt).issued(n0.id),
        ensures
            final(rt).wf(),
            registered(old(rt), final(rt), r.id, reaction, self.id(), resolving(old(rt), n0.id)),
            old(rt).live(n0.id) ==> heard_by(old(rt), final(rt), n0.id, r.id) && final(rt).node(n0.id).sampler_outputs@
                == old(rt).node(n0.id).sampler_outputs@ && final(rt).node(n0.id).sampler_count == old(rt).node(n0.id).sampler_count,
            others_unchanged(old(rt), final(rt), r.id.index as int, n0.id.index as int),
            !old(rt).live(n0.id) ==> others_unchanged(old(rt), final(rt), r.id.index as int, r.id.index as int),
            final(rt).records@ == old(rt).records@,
    {
        let id = rt.new_node(reaction, self.guard.id, 0);
        let ghost mid = *rt;
        proof {
            assert(n0.id != id);
            assert(mid.live(n0.id) == old(rt).live(n0.id));
            assert(mid.node(id).inputs@.len() == 0);
            if old(rt).live(n0.id) {
                assert(n0.id.index != id.index);
                assert(mid.nodes@[n0.id.index as int] == old(rt).nodes@[n0.id.index as int]);
            }
        }
        rt.connect(InputType::Listen(n0.id), id);
        proof {
            assert(mid.node(id).inputs@.push(n0.id) == seq![n0.id]);
            assert(Seq::<NodeId>::empty() == mid.node(id).inputs@);
            assert forall|k: int| 0 <= k < old(rt).nodes@.len() && k != id.index && k != n0.id.index implies
                #[trigger] rt.nodes@[k] == old(rt).nodes@[k] by {
                assert(rt.nodes@[k] == mid.nodes@[k]);
            }
            assert forall|x: NodeId| x != id implies #[trigger] rt.live(x) == old(rt).live(x) by {
                assert(mid.live(x) == old(rt).live(x));
                if x.index < rt.nodes@.len() {
                    assert(rt.nodes@[x.index as int].live == mid.nodes@[x.index as int].live);
                }
            }
        }
        NodeTemplate { id }
    }

    /// A node that emits `f` of each number that `n0` emits.
    pub fn map(&self, rt: &mut Runtime, n0: NodeTemplate, f: UnaryFn) -> (r: Stream)
        requires
            old(rt).wf(),
            old(rt).network_entries().contains_key(self.id().key_spec()),
            old(rt).nodes@.len() < usize::MAX,
            old(rt).issued(n0.id),
        ensures
            final(rt).wf(),
            registered(old(rt), final(rt), r.id, Reaction::Apply(f), self.id(), resolving(old(rt), n0.id)),
            old(rt).live(n0.id) ==> heard_by(old(rt), final(rt), n0.id, r.id) && final(rt).node(n0.id).sampler_outputs@
                == old(rt).node(n0.id).sampler_outputs@ && final(rt).node(n0.id).sampler_count == old(rt).node(n0.id).sampler_count,
            others_unchanged(old(rt), final(rt), r.id.index as int, n0.id.index as int),
            final(rt).records@ == old(rt).records@,
    {
        self.define_listener(rt, Reaction::Apply(f), n0)
    }

    /// A node that logs each event of `n0` to the runtime's trace and forwards it unchanged.
    pub fn trace(&self, rt: &mut Runtime, n0: NodeTemplate) -> (r: Stream)
        requires
            old(rt).wf(),
            old(rt).network_entries().contains_key(self.id().key_spec()),
            old(rt).nodes@.len() < usize::MAX,
            old(rt).issued(n0.id),
        ensures
            final(rt).wf(),
            registered(old(rt), final(rt), r.id, Reaction::Trace, self.id(), resolving(old(rt), n0.id)),
            old(rt).live(n0.id) ==> heard_by(old(rt), final(rt), n0.id, r.id) && final(rt).node(n0.id).sampler_outputs@
                == old(rt).node(n0.id).sampler_outputs@ && final(rt).node(n0.id).sampler_count == old(rt).node(n0.id).sampler_count,
            others_unchanged(old(rt), final(rt), r.id.index as int, n0.id.index as int),
            final(rt).records@ == old(rt).records@,
    {
        self.define_listener(rt, Reaction::Trace, n0)
    }

    /// A node that appends each number of `n0` to a new record, and emits the whole record
    /// each time. The record is returned beside the node, and stays readable after the network
    /// is gone.
    pub fn debug_collect(&self, rt: &mut Runtime, n0: NodeTemplate) -> (r: (Stream, DebugCollectData))
        requires
            old(rt).wf(),
            old(rt).network_entries().contains_key(self.id().key_spec()),
            old(rt).nodes@.len() < usize::MAX,
            old(rt).issued(n0.id),
        ensures
            final(rt).wf(),
            r.1.record == old(rt).records@.len(),
            final(rt).records@.len() == old(rt).records@.len() + 1,
            final(rt).record(r.1.record as int).len() == 0,
            forall|q: int| 0 <= q < old(rt).records@.len() ==> #[trigger] final(rt).record(q) == old(rt).record(q),
            registered(old(rt), final(rt), r.0.id, Reaction::Collect(r.1.record), self.id(), resolving(old(rt), n0.id)),
            old(rt).live(n0.id) ==> heard_by(old(rt), final(rt), n0.id, r.0.id) && final(rt).node(n0.id).sampler_outputs@
                == old(rt).node(n0.id).sampler_outputs@ && final(rt).node(n0.id).sampler_count == old(rt).node(n0.id).sampler_count,
            others_unchanged(old(rt), final(rt), r.0.id.index as int, n0.id.index as int),
    {
        let q = rt.records.len();
        rt.records.push(Vec::new());
        let ghost mid = *rt;
        proof {
            assert forall|i: int| 0 <= i < rt.nodes@.len() && (#[trigger] rt.nodes@[i]).data.reaction is Collect
                implies rt.nodes@[i].data.reaction->Collect_0 < rt.records@.len() by {
                assert(old(rt).nodes@[i].data.reaction is Collect);
            }
        }
        let node = self.define_listener(rt, Reaction::Collect(q), n0);
        proof {
            assert forall|p: int| 0 <= p < old(rt).records@.len() implies #[trigger] rt.record(p) == old(rt).record(p) by {
                assert(mid.records@[p] == old(rt).records@[p]);
            }
        }
        (node, DebugCollectData { record: q })
    }

    /// A node that, on each number `x` of `n0`, emits `f(x, y)`, where `y` is the number that
    /// `n1` has cached: the last one it emitted while a sampler was connected, or the default
    /// `0` if it cached none. Events of `n1` do not trigger it.
    pub fn map2(&self, rt: &mut Runtime, n0: NodeTemplate, n1: NodeTemplate, f: BinaryFn) -> (r: Stream)
        requires
            old(rt).wf(),
            old(rt).network_entries().contains_key(self.id().key_spec()),
            old(rt).nodes@.len() < usize::MAX,
            old(rt).issued(n0.id),
            old(rt).issued(n1.id),
            old(rt).live(n1.id) ==> old(rt).node(n1.id).sampler_count < usize::MAX,
        ensures
            final(rt).wf(),
            registered(old(rt), final(rt), r.id, Reaction::Apply2(f), self.id(), resolving(old(rt), n0.id) + resolving(old(rt), n1.id)),
            old(rt).live(n0.id) ==> heard_by(old(rt), final(rt), n0.id, r.id),
            old(rt).live(n1.id) ==> final(rt).node(n1.id).sampler_outputs@ == old(rt).node(n1.id).sampler_outputs@.push(
                Edge { target: r.id, is_sampler: true },
            ) && final(rt).node(n1.id).sampler_count == old(rt).node(n1.id).sampler_count + 1,
            forall|k: int|
                0 <= k < old(rt).nodes@.len() && k != r.id.index && k != n0.id.index && k != n1.id.index
                    ==> #[trigger] final(rt).nodes@[k] == old(rt).nodes@[k],
            final(rt).records@ == old(rt).records@,
    {
        let node = self.define_listener(rt, Reaction::Apply2(f), n0);
        let ghost mid = *rt;
        proof {
            if old(rt).live(n1.id) {
                assert(n1.id.index != node.id.index);
                if n1.id.index != n0.id.index || !old(rt).live(n0.id) {
                    assert(mid.nodes@[n1.id.index as int] == old(rt).nodes@[n1.id.index as int]);
                } else {
                    assert(n1.id == n0.id);
                }
            }
        }
        proof {
            assert(n1.id != node.id);
            assert(mid.live(n1.id) == old(rt).live(n1.id));
        }
        rt.connect(InputType::Sample(n1.id), node.id);
        proof {
            assert(resolving(old(rt), n0.id) + resolving(old(rt), n1.id) =~= if old(rt).live(n1.id) {
                mid.node(node.id).inputs@.push(n1.id)
            } else {
                mid.node(node.id).inputs@
            });
            assert forall|x: NodeId| x != node.id implies #[trigger] rt.live(x) == old(rt).live(x) by {
                assert(mid.live(x) == old(rt).live(x));
                if x.index < rt.nodes@.len() {
                    assert(rt.nodes@[x.index as int].live == mid.nodes@[x.index as int].live);
                }
            }
            assert forall|k: int|
                0 <= k < old(rt).nodes@.len() && k != node.id.index && k != n0.id.index && k != n1.id.index
                implies #[trigger] rt.nodes@[k] == old(rt).nodes@[k] by {
                assert(rt.nodes@[k] == mid.nodes@[k]);
            }
        }
        node
    }
}

impl NodeTemplate {
    /// The node's identity.
    pub fn id(self) -> (r: NodeId)
        ensures
            r == self.id,
    {
        self.id
    }

    /// Pushes `value` at this node; see [`Runtime::emit`].
    pub fn emit(&self, rt: &mut Runtime, value: &Value)
        requires
            old(rt).wf(),
        ensures
            final(rt).wf(),
            final(rt).evolves_from(old(rt)),
            final(rt).stack@ == old(rt).stack@,
            observed(final(rt)) == emit_model(old(rt), observed(old(rt)), self.id, value@, MAX_DEPTH as nat),
    {
        rt.emit(self.id, value)
    }
}

impl DebugCollectData {
    /// The numbers collected so far.
    pub fn values(&self, rt: &Runtime) -> (r: Vec<u64>)
        requires
            self.record < rt.records@.len(),
        ensures
            r@ == rt.record(self.record as int),
    {
        crate::value::copy_numbers(&rt.records[self.record])
    }

    /// Whether the numbers collected so far are exactly `expected`.
    pub fn assert_eq(&self, rt: &Runtime, expected: &[u64]) -> (r: bool)
        requires
            self.record < rt.records@.len(),
        ensures
            r == (rt.record(self.record as int) == expected@),
    {
        let rec = &rt.records[self.record];
        if rec.len() != expected.len() {
            return false;
        }
        let mut k: usize = 0;
        while k < rec.len()
            invariant
                rec@ == rt.record(self.record as int),
                rec@.len() == expected@.len(),
                k <= rec@.len(),
                forall|m: int| 0 <= m < k ==> rec@[m] == expected@[m],
            decreases rec@.len() - k,
        {
            if rec[k] != expected[k] {
                return false;
            }
            k += 1;
        }
        proof {
            assert(rec@ =~= expected@);
        }
        true
    }
}

} // verus!
