//! The meaning of an emission, stated over the part of the runtime that an emission changes.
use vstd::prelude::*;
use crate::node::count_samplers;
use crate::node::prune;
use crate::node::same_liveness;
use crate::node::Edge;
use crate::node::NodeData;
use crate::node::NodeId;
use crate::runtime::Runtime;
use crate::value::EventView;
use crate::value::Reaction;

verus! {

/// What an emission can change: per slot the cached event, the sampler count and the two edge
/// lists; the records of the collecting nodes; and the trace.
pub struct Observed {
    pub caches: Seq<Option<EventView>>,
    pub counts: Seq<int>,
    pub outputs: Seq<Seq<Edge>>,
    pub sampler_outputs: Seq<Seq<Edge>>,
    pub records: Seq<Seq<u64>>,
    pub trace: Seq<EventView>,
}

/// The number a sampler reads from a cache: the cached number, else the default `0`.
pub open spec fn cached_num(c: Option<EventView>) -> u64 {
    match c {
        Some(EventView::Num(n)) => n,
        _ => 0,
    }
}

/// The observed part of a slot's record.
pub open spec fn observed_slot(o: Observed, i: int, d: NodeData) -> Observed {
    Observed {
        caches: o.caches.update(i, d.cache_view()),
        counts: o.counts.update(i, d.sampler_count as int),
        outputs: o.outputs.update(i, d.outputs@),
        sampler_outputs: o.sampler_outputs.update(i, d.sampler_outputs@),
        ..o
    }
}

/// The observed part of a runtime.
pub open spec fn observed(rt: &Runtime) -> Observed {
    Observed {
        caches: Seq::new(rt.nodes@.len(), |i: int| rt.nodes@[i].data.cache_view()),
        counts: Seq::new(rt.nodes@.len(), |i: int| rt.nodes@[i].data.sampler_count as int),
        outputs: Seq::new(rt.nodes@.len(), |i: int| rt.nodes@[i].data.outputs@),
        sampler_outputs: Seq::new(rt.nodes@.len(), |i: int| rt.nodes@[i].data.sampler_outputs@),
        records: Seq::new(rt.records@.len(), |q: int| rt.records@[q]@),
        trace: Seq::new(rt.trace_log@.len(), |k: int| rt.trace_log@[k]@),
    }
}

/// The two runtimes have the same nodes, in the same generations, with the same reactions and
/// inputs: what an emission reads but does not change.
pub open spec fn same_shape(a: &Runtime, b: &Runtime) -> bool {
    &&& same_liveness(a.nodes@, b.nodes@)
    &&& forall|i: int|
        0 <= i < a.nodes@.len() ==> (#[trigger] b.nodes@[i]).data.reaction == a.nodes@[i].data.reaction
            && b.nodes@[i].data.inputs@ == a.nodes@[i].data.inputs@
}

/// What the live node `t` of `g` emits on hearing `ev`, and the observed state after its
/// reaction.
pub open spec fn react_model(g: &Runtime, o: Observed, t: NodeId, ev: EventView) -> (Option<EventView>, Observed) {
    let d = g.node(t);
    match d.reaction {
        Reaction::Source => (None, o),
        Reaction::Apply(f) => match ev {
            EventView::Num(x) => (Some(EventView::Num(f.spec_apply(x))), o),
            _ => (None, o),
        },
        Reaction::Apply2(f) => match ev {
            EventView::Num(x) => if d.inputs@.len() > 1 && g.live(d.inputs@[1]) {
                (Some(EventView::Num(f.spec_apply(x, cached_num(o.caches[d.inputs@[1].index as int])))), o)
            } else {
                (None, o)
            },
            _ => (None, o),
        },
        Reaction::Trace => (Some(ev), Observed { trace: o.trace.push(ev), ..o }),
        Reaction::Collect(q) => match ev {
            EventView::Num(x) => (
                Some(EventView::Record(o.records[q as int].push(x))),
                Observed { records: o.records.update(q as int, o.records[q as int].push(x)), ..o },
            ),
            _ => (None, o),
        },
    }
}

/// The observed state after `ev` is emitted at `src` in a runtime shaped as `g`: the event is
/// cached if a sampler is connected, delivered along the listener edges in order (each target's
/// reaction and emission complete before the next edge), and then the edges of `src` whose
/// targets do not resolve are pruned. Past `depth` nested reactions nothing is delivered.
pub open spec fn emit_model(g: &Runtime, o: Observed, src: NodeId, ev: EventView, depth: nat) -> Observed
    decreases depth, 1nat, 0nat,
{
    if !g.live(src) {
        o
    } else {
        let i = src.index as int;
        let armed = if o.counts[i] > 0 {
            Observed { caches: o.caches.update(i, Some(ev)), ..o }
        } else {
            o
        };
        let delivered = deliver_model(g, armed, ev, armed.outputs[i], 0, depth);
        let outs = prune(delivered.outputs[i], g.nodes@);
        let souts = prune(delivered.sampler_outputs[i], g.nodes@);
        Observed {
            outputs: delivered.outputs.update(i, outs),
            sampler_outputs: delivered.sampler_outputs.update(i, souts),
            counts: delivered.counts.update(i, (count_samplers(outs) + count_samplers(souts)) as int),
            ..delivered
        }
    }
}

/// The observed state after `ev` is delivered along `outs`, from the `k`-th edge on.
pub open spec fn deliver_model(
    g: &Runtime,
    o: Observed,
    ev: EventView,
    outs: Seq<Edge>,
    k: int,
    depth: nat,
) -> Observed
    decreases depth, 0nat, outs.len() - k,
{
    if k < 0 || k >= outs.len() {
        o
    } else {
        let t = outs[k].target;
        let stepped = if g.live(t) && depth > 0 {
            let (out, reacted) = react_model(g, o, t, ev);
            match out {
                Some(v) => emit_model(g, reacted, t, v, (depth - 1) as nat),
                None => reacted,
            }
        } else {
            o
        };
        deliver_model(g, stepped, ev, outs, k + 1, depth)
    }
}

/// Changing the record of one slot changes the observed state in that slot alone.
pub proof fn lemma_observed_slot(a: &Runtime, b: &Runtime, i: int)
    requires
        0 <= i < a.nodes@.len(),
        b.nodes@.len() == a.nodes@.len(),
        forall|j: int| 0 <= j < a.nodes@.len() && j != i ==> #[trigger] b.nodes@[j] == a.nodes@[j],
        b.records@ == a.records@,
        b.trace_log@ == a.trace_log@,
    ensures
        observed(b) == observed_slot(observed(a), i, b.nodes@[i].data),
{
    let oa = observed(a);
    let ob = observed(b);
    let d = b.nodes@[i].data;
    assert(ob.caches =~= oa.caches.update(i, d.cache_view()));
    assert(ob.counts =~= oa.counts.update(i, d.sampler_count as int));
    assert(ob.outputs =~= oa.outputs.update(i, d.outputs@));
    assert(ob.sampler_outputs =~= oa.sampler_outputs.update(i, d.sampler_outputs@));
    assert(ob.records =~= oa.records);
    assert(ob.trace =~= oa.trace);
}

/// The observed state depends on the slots, the records and the trace alone.
pub proof fn lemma_observed_eq(a: &Runtime, b: &Runtime)
    requires
        a.nodes@ == b.nodes@,
        a.records@ == b.records@,
        a.trace_log@ == b.trace_log@,
    ensures
        observed(a) == observed(b),
{
    assert(observed(a).caches =~= observed(b).caches);
    assert(observed(a).counts =~= observed(b).counts);
    assert(observed(a).outputs =~= observed(b).outputs);
    assert(observed(a).sampler_outputs =~= observed(b).sampler_outputs);
    assert(observed(a).records =~= observed(b).records);
    assert(observed(a).trace =~= observed(b).trace);
}

/// Emission keeps the shape of the runtime.
pub proof fn lemma_same_shape_evolves(g: &Runtime, a: &Runtime, b: &Runtime)
    requires
        same_shape(g, a),
        b.evolves_from(a),
    ensures
        same_shape(g, b),
{
    assert forall|i: int| 0 <= i < g.nodes@.len() implies (#[trigger] b.nodes@[i]).data.reaction == g.nodes@[i].data.reaction
        && b.nodes@[i].data.inputs@ == g.nodes@[i].data.inputs@ by {
        assert(a.nodes@[i].data.reaction == g.nodes@[i].data.reaction);
        assert(crate::runtime::slot_evolves(a.nodes@[i], b.nodes@[i], a.nodes@));
    }
    assert forall|i: int| 0 <= i < g.nodes@.len() implies #[trigger] g.nodes@[i].live == b.nodes@[i].live
        && g.nodes@[i].generation == b.nodes@[i].generation by {
        assert(g.nodes@[i].live == a.nodes@[i].live);
        assert(a.nodes@[i].live == b.nodes@[i].live);
    }
}

/// A reaction reads only the shape of the runtime and the observed state.
pub proof fn lemma_react_model_same_shape(g: &Runtime, h: &Runtime, o: Observed, t: NodeId, ev: EventView)
    requires
        same_shape(g, h),
        g.live(t),
    ensures
        react_model(g, o, t, ev) == react_model(h, o, t, ev),
{
    assert(h.nodes@[t.index as int].data.reaction == g.nodes@[t.index as int].data.reaction);
    let ins = g.node(t).inputs@;
    if ins.len() > 1 {
        let s = ins[1];
        if s.index < g.nodes@.len() {
            assert(h.nodes@[s.index as int].live == g.nodes@[s.index as int].live);
        }
    }
}

/// A node that listens to `a` and samples `src` computes with what `src` cached last, or with
/// the default `0` where `src` has cached nothing; never with what `a` emitted.
pub proof fn lemma_sampler_reads_source_cache(
    g: &Runtime,
    o: Observed,
    m: NodeId,
    a: NodeId,
    src: NodeId,
    x: u64,
)
    requires
        g.live(m),
        g.live(src),
        g.node(m).reaction is Apply2,
        g.node(m).inputs@ == seq![a, src],
    ensures
        react_model(g, o, m, EventView::Num(x)).0 == Some(
            EventView::Num(g.node(m).reaction->Apply2_0.spec_apply(x, cached_num(o.caches[src.index as int]))),
        ),
        o.caches[src.index as int] is None ==> react_model(g, o, m, EventView::Num(x)).0 == Some(
            EventView::Num(g.node(m).reaction->Apply2_0.spec_apply(x, 0)),
        ),
{
}

/// An emission at a live `src` with a sampler connected caches the event before any target
/// hears it, so that samplers reached by it read the event just emitted.
pub proof fn lemma_emission_caches_before_delivery(g: &Runtime, o: Observed, src: NodeId, ev: EventView, depth: nat)
    requires
        g.live(src),
        src.index < o.caches.len(),
        o.counts[src.index as int] > 0,
    ensures
        ({
            let i = src.index as int;
            let armed = Observed { caches: o.caches.update(i, Some(ev)), ..o };
            let delivered = deliver_model(g, armed, ev, o.outputs[i], 0, depth);
            &&& armed.caches[i] == Some(ev)
            &&& emit_model(g, o, src, ev, depth).records == delivered.records
            &&& emit_model(g, o, src, ev, depth).trace == delivered.trace
            &&& emit_model(g, o, src, ev, depth).caches == delivered.caches
        }),
{
}

/// A record that no live node collects into is left as it is by any emission: the record of a
/// collector whose network was torn down stays frozen.
pub proof fn lemma_emission_keeps_orphan_record(
    g: &Runtime,
    o: Observed,
    src: NodeId,
    ev: EventView,
    depth: nat,
    q: usize,
)
    requires
        q < o.records.len(),
        forall|id: NodeId| g.live(id) ==> #[trigger] g.node(id).reaction != Reaction::Collect(q),
        forall|id: NodeId|
            g.live(id) && (#[trigger] g.node(id)).reaction is Collect ==> g.node(id).reaction->Collect_0 < o.records.len(),
    ensures
        emit_model(g, o, src, ev, depth).records.len() == o.records.len(),
        emit_model(g, o, src, ev, depth).records[q as int] == o.records[q as int],
    decreases depth, 1nat, 0nat,
{
    if g.live(src) {
        let i = src.index as int;
        let armed = if o.counts[i] > 0 {
            Observed { caches: o.caches.update(i, Some(ev)), ..o }
        } else {
            o
        };
        lemma_delivery_keeps_orphan_record(g, armed, ev, armed.outputs[i], 0, depth, q);
    }
}

/// Delivery leaves a record that no live node collects into as it is.
pub proof fn lemma_delivery_keeps_orphan_record(
    g: &Runtime,
    o: Observed,
    ev: EventView,
    outs: Seq<Edge>,
    k: int,
    depth: nat,
    q: usize,
)
    requires
        q < o.records.len(),
        forall|id: NodeId| g.live(id) ==> #[trigger] g.node(id).reaction != Reaction::Collect(q),
        forall|id: NodeId|
            g.live(id) && (#[trigger] g.node(id)).reaction is Collect ==> g.node(id).reaction->Collect_0 < o.records.len(),
    ensures
        deliver_model(g, o, ev, outs, k, depth).records.len() == o.records.len(),
        deliver_model(g, o, ev, outs, k, depth).records[q as int] == o.records[q as int],
    decreases depth, 0nat, outs.len() - k,
{
    if 0 <= k < outs.len() {
        let t = outs[k].target;
        let stepped = if g.live(t) && depth > 0 {
            let (out, reacted) = react_model(g, o, t, ev);
            assert(g.node(t).reaction != Reaction::Collect(q));
            assert(reacted.records.len() == o.records.len());
            assert(reacted.records[q as int] == o.records[q as int]);
            match out {
                Some(v) => {
                    lemma_emission_keeps_orphan_record(g, reacted, t, v, (depth - 1) as nat, q);
                    emit_model(g, reacted, t, v, (depth - 1) as nat)
                },
                None => reacted,
            }
        } else {
            o
        };
        lemma_delivery_keeps_orphan_record(g, stepped, ev, outs, k + 1, depth, q);
    }
}

} // verus!
